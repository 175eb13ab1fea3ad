use std::cmp::Ordering;

use rimru::game::mods::meta::{ModDependency, ModMetaData};
use rimru::game::mods::sort::order::{
    cmp_created, cmp_dependencies, cmp_id, cmp_modified, cmp_name, cmp_topological, Order,
};

const NOW: i128 = 1_700_000_000_000_000_000;
const TEN_SECONDS: i128 = 10_000_000_000;

fn named(id: &str, name: &str) -> ModMetaData {
    let mut m = ModMetaData::default();
    m.id = id.to_string();
    m.name = name.to_string();
    m
}

fn make_mod(id: &str) -> ModMetaData {
    let mut m = ModMetaData::default();
    m.id = id.into();
    m
}

fn depend(m: &mut ModMetaData, on: &ModMetaData) {
    m.dependencies.insert(on.id.clone(), ModDependency::from(on));
}

#[test]
fn order_test_cmp_id() {
    let a1 = named("a", "a1");
    let a2 = named("a", "a2");
    let b = named("b", "b");

    assert_eq!(cmp_id(&a1, &a1), Ordering::Equal);
    assert_eq!(cmp_id(&a1, &a2), Ordering::Less);
    assert_eq!(cmp_id(&a1, &b), Ordering::Less);
    assert_eq!(cmp_id(&a2, &a1), Ordering::Greater);
    assert_eq!(cmp_id(&a2, &a2), Ordering::Equal);
    assert_eq!(cmp_id(&a2, &b), Ordering::Less);
    assert_eq!(cmp_id(&b, &a1), Ordering::Greater);
    assert_eq!(cmp_id(&b, &a2), Ordering::Greater);
    assert_eq!(cmp_id(&b, &b), Ordering::Equal);
}

#[test]
fn order_test_cmp_name() {
    let a1 = named("a1", "a");
    let a2 = named("a2", "a");
    let b = named("b", "b");

    assert_eq!(cmp_name(&a1, &a1), Ordering::Equal);
    assert_eq!(cmp_name(&a1, &a2), Ordering::Less);
    assert_eq!(cmp_name(&a1, &b), Ordering::Less);
    assert_eq!(cmp_name(&a2, &a1), Ordering::Greater);
    assert_eq!(cmp_name(&a2, &a2), Ordering::Equal);
    assert_eq!(cmp_name(&a2, &b), Ordering::Less);
    assert_eq!(cmp_name(&b, &a1), Ordering::Greater);
    assert_eq!(cmp_name(&b, &a2), Ordering::Greater);
    assert_eq!(cmp_name(&b, &b), Ordering::Equal);
}

#[test]
fn order_test_cmp_created() {
    let now = NOW;
    let future = now + TEN_SECONDS;

    let mut a1 = named("a", "a");
    a1.created = Some(now);
    let mut a2 = named("b", "a");
    a2.created = Some(now);
    let mut b = named("b", "b");
    b.created = Some(future);

    assert_eq!(cmp_created(&a1, &a1), Ordering::Equal);
    assert_eq!(cmp_created(&a1, &a2), Ordering::Less);
    assert_eq!(cmp_created(&a1, &b), Ordering::Less);
    assert_eq!(cmp_created(&a2, &a1), Ordering::Greater);
    assert_eq!(cmp_created(&a2, &a2), Ordering::Equal);
    assert_eq!(cmp_created(&a2, &b), Ordering::Less);
    assert_eq!(cmp_created(&b, &a1), Ordering::Greater);
    assert_eq!(cmp_created(&b, &a2), Ordering::Greater);
    assert_eq!(cmp_created(&b, &b), Ordering::Equal);
}

#[test]
fn order_test_cmp_modified() {
    let now = NOW;
    let future = now + TEN_SECONDS;

    let mut a1 = named("a", "a");
    a1.modified = Some(now);
    let mut a2 = named("b", "a");
    a2.modified = Some(now);
    let mut b = named("b", "b");
    b.modified = Some(future);

    assert_eq!(cmp_modified(&a1, &a1), Ordering::Equal);
    assert_eq!(cmp_modified(&a1, &a2), Ordering::Less);
    assert_eq!(cmp_modified(&a1, &b), Ordering::Less);
    assert_eq!(cmp_modified(&a2, &a1), Ordering::Greater);
    assert_eq!(cmp_modified(&a2, &a2), Ordering::Equal);
    assert_eq!(cmp_modified(&a2, &b), Ordering::Less);
    assert_eq!(cmp_modified(&b, &a1), Ordering::Greater);
    assert_eq!(cmp_modified(&b, &a2), Ordering::Greater);
    assert_eq!(cmp_modified(&b, &b), Ordering::Equal);
}

#[test]
fn test_dependency_ordering() {
    let c = make_mod("c");
    let mut b = make_mod("b");
    depend(&mut b, &c);
    let mut a = make_mod("a");
    depend(&mut a, &b);

    assert_eq!(cmp_dependencies(&a, &b), Ordering::Greater, "a > b: a depends on b");
    assert_eq!(cmp_dependencies(&b, &c), Ordering::Greater, "b > c: b depends on c");
    assert_eq!(cmp_dependencies(&a, &c), Ordering::Less, "a < c: a does not depend on c, but b does");
    assert_eq!(cmp_dependencies(&b, &a), Ordering::Less, "b < a: b does not depend on a, but a depends on b");
    assert_eq!(cmp_dependencies(&c, &a), Ordering::Greater, "c > a: neither depends on the other, fallback to name");
    assert_eq!(cmp_dependencies(&c, &b), Ordering::Less, "c < b: c does not depend on b, but b depends on c");
}

#[test]
fn test_load_after_and_before() {
    let mut x = make_mod("x");
    let mut y = make_mod("y");
    x.load_after.insert("y".into());
    assert_eq!(cmp_dependencies(&x, &y), Ordering::Greater, "x > y: x.load_after(y)");

    y.load_before.insert("x".into());
    assert_eq!(cmp_dependencies(&x, &y), Ordering::Greater, "x > y: y.load_before(x)");

    let mut y2 = make_mod("y2");
    let x2 = make_mod("x2");
    y2.load_after.insert("x2".into());
    assert_eq!(cmp_dependencies(&x2, &y2), Ordering::Less, "x2 < y2: y2.load_after(x2)");
}

#[test]
fn test_force_load_after_and_before() {
    let mut m = make_mod("m");
    let mut n = make_mod("n");
    m.force_load_after.insert("n".into());
    assert_eq!(cmp_dependencies(&m, &n), Ordering::Greater, "m > n: m.force_load_after(n)");

    n.force_load_before.insert("m".into());
    assert_eq!(cmp_dependencies(&m, &n), Ordering::Greater, "m > n: n.force_load_before(m)");

    let mut n2 = make_mod("n2");
    let m2 = make_mod("m2");
    n2.force_load_after.insert("m2".into());
    assert_eq!(cmp_dependencies(&m2, &n2), Ordering::Less, "m2 < n2: n2.force_load_after(m2)");
}

#[test]
fn test_conflicting_load_relations() {
    let mut a = make_mod("a");
    let mut b = make_mod("b");
    a.load_after.insert("b".into());
    b.load_after.insert("a".into());
    assert_eq!(
        cmp_dependencies(&a, &b),
        cmp_name(&a, &b),
        "conflict: both a.load_after(b) and b.load_after(a), fallback to name"
    );

    let mut c = make_mod("c");
    let mut d = make_mod("d");
    c.load_before.insert("d".into());
    d.load_before.insert("c".into());
    assert_eq!(
        cmp_dependencies(&c, &d),
        cmp_name(&c, &d),
        "conflict: both c.load_before(d) and d.load_before(c), fallback to name"
    );

    let mut e = make_mod("e");
    let mut f = make_mod("f");
    e.load_after.insert("f".into());
    f.load_before.insert("e".into());
    f.load_after.insert("e".into());
    e.load_before.insert("f".into());
    assert_eq!(
        cmp_dependencies(&e, &f),
        cmp_name(&e, &f),
        "conflict: both e.load_after(f)/f.load_before(e) and f.load_after(e)/e.load_before(f), fallback to name"
    );

    let mut p = make_mod("p");
    let mut q = make_mod("q");
    p.force_load_after.insert("q".into());
    q.force_load_after.insert("p".into());
    assert_eq!(
        cmp_dependencies(&p, &q),
        cmp_name(&p, &q),
        "conflict: both p.force_load_after(q) and q.force_load_after(p), fallback to name"
    );

    let mut r = make_mod("r");
    let mut s = make_mod("s");
    r.force_load_before.insert("s".into());
    s.force_load_before.insert("r".into());
    assert_eq!(
        cmp_dependencies(&r, &s),
        cmp_name(&r, &s),
        "conflict: both r.force_load_before(s) and s.force_load_before(r), fallback to name"
    );

    let mut t = make_mod("t");
    let mut u = make_mod("u");
    t.force_load_after.insert("u".into());
    u.force_load_before.insert("t".into());
    u.force_load_after.insert("t".into());
    t.force_load_before.insert("u".into());
    assert_eq!(
        cmp_dependencies(&t, &u),
        cmp_name(&t, &u),
        "conflict: both t.force_load_after(u)/u.force_load_before(t) and u.force_load_after(t)/t.force_load_before(u), fallback to name"
    );
}

#[test]
fn test_cmp_topological() {
    let d = make_mod("d");
    let mut c = make_mod("c");
    depend(&mut c, &d);
    let mut b = make_mod("b");
    depend(&mut b, &c);
    depend(&mut b, &d);
    let mut a = make_mod("a");
    depend(&mut a, &b);

    assert_eq!(cmp_topological(&a, &a), Ordering::Equal, "a == a");
    assert_eq!(cmp_topological(&a, &b), Ordering::Less, "a < b");
    assert_eq!(cmp_topological(&a, &c), Ordering::Less, "a < c");
    assert_eq!(cmp_topological(&a, &d), Ordering::Greater, "a > d");
    assert_eq!(cmp_topological(&b, &a), Ordering::Greater, "b > a");
    assert_eq!(cmp_topological(&b, &b), Ordering::Equal, "b == b");
    assert_eq!(cmp_topological(&b, &c), Ordering::Greater, "b > c");
    assert_eq!(cmp_topological(&b, &d), Ordering::Greater, "b > d");
    assert_eq!(cmp_topological(&c, &a), Ordering::Greater, "c > a");
    assert_eq!(cmp_topological(&c, &b), Ordering::Less, "c < b");
    assert_eq!(cmp_topological(&c, &c), Ordering::Equal, "c == c");
    assert_eq!(cmp_topological(&c, &d), Ordering::Greater, "c > d");
    assert_eq!(cmp_topological(&d, &a), Ordering::Less, "d < a");
    assert_eq!(cmp_topological(&d, &b), Ordering::Less, "d < b");
    assert_eq!(cmp_topological(&d, &c), Ordering::Less, "d < c");
    assert_eq!(cmp_topological(&d, &d), Ordering::Equal, "d == d");
}

#[test]
fn order_sort_fn_and_labels() {
    let a = named("a", "z");
    let b = named("b", "y");
    assert_eq!(Order::Id.sort_fn()(&a, &b), Ordering::Less);
    assert_eq!(Order::Name.sort_fn()(&a, &b), Ordering::Greater);
    assert_eq!(Order::Name.compare(&b, &a), Ordering::Less);
    assert_eq!(Order::Id.label(), "ID");
    assert_eq!(Order::Created.label(), "Date Created");
    assert_eq!(Order::Topological.label(), "Topological");
}

#[test]
fn order_missing_times_sort_first() {
    let mut a = named("a", "a");
    let mut b = named("b", "b");
    a.created = None;
    b.created = Some(0);
    assert_eq!(cmp_created(&a, &b), Ordering::Less);
    a.modified = Some(-5);
    b.modified = Some(-10);
    assert_eq!(cmp_modified(&a, &b), Ordering::Greater);
}

#[test]
fn order_swapping_reverses_and_self_is_equal() {
    let mods = [named("a", "x"), named("b", "x"), named("a", "y"), named("c", "a")];
    for x in mods.iter() {
        for order in [Order::Id, Order::Name, Order::Created, Order::Modified, Order::Dependencies, Order::Topological] {
            assert_eq!(order.compare(x, x), Ordering::Equal);
        }
        for y in mods.iter() {
            for order in [Order::Id, Order::Name, Order::Created, Order::Modified] {
                assert_eq!(order.compare(x, y), order.compare(y, x).reverse());
            }
        }
    }
}

#[test]
fn order_disagreeing_relations_are_greater_both_ways() {
    let mut a = make_mod("a");
    let b = make_mod("b");
    a.load_after.insert("b".into());
    a.load_before.insert("b".into());
    assert_eq!(cmp_dependencies(&a, &b), Ordering::Greater);
    assert_eq!(cmp_dependencies(&b, &a), Ordering::Greater);
}
