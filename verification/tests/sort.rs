use std::cmp::Ordering;

use rimru::game::mods::meta::{ModDependency, ModMetaData};
use rimru::game::mods::sort::{cmp_created, cmp_dependencies, cmp_id, cmp_modified, cmp_name, cmp_topological, Order};

const NOW: i128 = 1_700_000_000_000_000_000;
const TEN_SECONDS: i128 = 10_000_000_000;

fn named(id: &str, name: &str) -> ModMetaData {
    let mut m = ModMetaData::default();
    m.id = id.to_string();
    m.name = name.to_string();
    m
}

#[test]
fn sort_test_cmp_id() {
    let a1 = named("a", "a1");
    let a2 = named("a", "a2");
    let b = named("b", "b");

    assert_eq!(cmp_id(&a1, &a1), Ordering::Equal);
    assert_eq!(cmp_id(&a1, &a2), Ordering::Less);
    assert_eq!(cmp_id(&a1, &b), Ordering::Less);
    assert_eq!(cmp_id(&a2, &a1), Ordering::Greater);
    assert_eq!(cmp_id(&a2, &a2), Ordering::Equal);
    assert_eq!(cmp_id(&a2, &b), Ordering::Less);
    assert_eq!(cmp_id(&b, &a1), Ordering::Greater);
    assert_eq!(cmp_id(&b, &a2), Ordering::Greater);
    assert_eq!(cmp_id(&b, &b), Ordering::Equal);
}

#[test]
fn sort_test_cmp_name() {
    let a1 = named("a1", "a");
    let a2 = named("a2", "a");
    let b = named("b", "b");

    assert_eq!(cmp_name(&a1, &a1), Ordering::Equal);
    assert_eq!(cmp_name(&a1, &a2), Ordering::Less);
    assert_eq!(cmp_name(&a1, &b), Ordering::Less);
    assert_eq!(cmp_name(&a2, &a1), Ordering::Greater);
    assert_eq!(cmp_name(&a2, &a2), Ordering::Equal);
    assert_eq!(cmp_name(&a2, &b), Ordering::Less);
    assert_eq!(cmp_name(&b, &a1), Ordering::Greater);
    assert_eq!(cmp_name(&b, &a2), Ordering::Greater);
    assert_eq!(cmp_name(&b, &b), Ordering::Equal);
}

#[test]
fn sort_test_cmp_created() {
    let now = NOW;
    let future = now + TEN_SECONDS;

    let mut a1 = named("a", "a");
    a1.created = Some(now);
    let mut a2 = named("b", "a");
    a2.created = Some(now);
    let mut b = named("b", "b");
    b.created = Some(future);

    assert_eq!(cmp_created(&a1, &a1), Ordering::Equal);
    assert_eq!(cmp_created(&a1, &a2), Ordering::Less);
    assert_eq!(cmp_created(&a1, &b), Ordering::Less);
    assert_eq!(cmp_created(&a2, &a1), Ordering::Greater);
    assert_eq!(cmp_created(&a2, &a2), Ordering::Equal);
    assert_eq!(cmp_created(&a2, &b), Ordering::Less);
    assert_eq!(cmp_created(&b, &a1), Ordering::Greater);
    assert_eq!(cmp_created(&b, &a2), Ordering::Greater);
    assert_eq!(cmp_created(&b, &b), Ordering::Equal);
}

#[test]
fn sort_test_cmp_modified() {
    let now = NOW;
    let future = now + TEN_SECONDS;

    let mut a1 = named("a", "a");
    a1.modified = Some(now);
    let mut a2 = named("b", "a");
    a2.modified = Some(now);
    let mut b = named("b", "b");
    b.modified = Some(future);

    assert_eq!(cmp_modified(&a1, &a1), Ordering::Equal);
    assert_eq!(cmp_modified(&a1, &a2), Ordering::Less);
    assert_eq!(cmp_modified(&a1, &b), Ordering::Less);
    assert_eq!(cmp_modified(&a2, &a1), Ordering::Greater);
    assert_eq!(cmp_modified(&a2, &a2), Ordering::Equal);
    assert_eq!(cmp_modified(&a2, &b), Ordering::Less);
    assert_eq!(cmp_modified(&b, &a1), Ordering::Greater);
    assert_eq!(cmp_modified(&b, &a2), Ordering::Greater);
    assert_eq!(cmp_modified(&b, &b), Ordering::Equal);
}

#[test]
fn sort_dependencies_only_and_counts() {
    let c = named("c", "c");
    let mut b = named("b", "b");
    b.dependencies.insert("c".to_string(), ModDependency::from(&c));
    let mut a = named("a", "a");
    a.dependencies.insert("b".to_string(), ModDependency::from(&b));
    a.load_after.insert("c".to_string());

    assert_eq!(cmp_dependencies(&a, &b), Ordering::Greater);
    assert_eq!(cmp_dependencies(&b, &a), Ordering::Less);
    // load relations play no part in this order: by name
    assert_eq!(cmp_dependencies(&a, &c), Ordering::Less);
    // more dependencies come later
    assert_eq!(cmp_topological(&c, &b), Ordering::Less);
    assert_eq!(Order::Topological.sort_fn()(&b, &c), Ordering::Greater);
}

#[test]
fn sort_mutual_dependencies_fall_back_to_name() {
    let mut x = named("x", "b");
    let mut y = named("y", "a");
    x.dependencies.insert("y".to_string(), ModDependency::from(&y));
    y.dependencies.insert("x".to_string(), ModDependency::from(&x));
    assert_eq!(cmp_dependencies(&x, &y), Ordering::Greater);
    assert_eq!(cmp_dependencies(&y, &x), Ordering::Less);
}
