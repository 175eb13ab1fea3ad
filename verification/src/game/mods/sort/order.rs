//! Orders in which mods can be listed.
use std::cmp::Ordering;

use crate::game::mods::meta::ModMetaData;
use crate::text::{compare_chars, lemma_less_transitive, lemma_less_trichotomy, seq_less};
use vstd::prelude::*;

verus! {

/// The order of two strings, as `str::cmp` gives it.
pub open spec fn text_order(a: Seq<char>, b: Seq<char>) -> Ordering {
    if a == b {
        Ordering::Equal
    } else if seq_less(a, b) {
        Ordering::Less
    } else {
        Ordering::Greater
    }
}

/// The order of two optional times, as `Option::cmp` gives it (absent first).
pub open spec fn time_order(a: Option<i128>, b: Option<i128>) -> Ordering {
    match (a, b) {
        (None, None) => Ordering::Equal,
        (None, Some(_)) => Ordering::Less,
        (Some(_), None) => Ordering::Greater,
        (Some(x), Some(y)) => if x < y {
            Ordering::Less
        } else if x == y {
            Ordering::Equal
        } else {
            Ordering::Greater
        },
    }
}

/// The order of two counts.
pub open spec fn count_order(a: nat, b: nat) -> Ordering {
    if a < b {
        Ordering::Less
    } else if a == b {
        Ordering::Equal
    } else {
        Ordering::Greater
    }
}

/// The reverse of an ordering.
pub open spec fn flipped(o: Ordering) -> Ordering {
    match o {
        Ordering::Less => Ordering::Greater,
        Ordering::Equal => Ordering::Equal,
        Ordering::Greater => Ordering::Less,
    }
}

/// `first`, unless it is `Equal`, in which case `then`.
pub open spec fn then_order(first: Ordering, then: Ordering) -> Ordering {
    match first {
        Ordering::Equal => then,
        _ => first,
    }
}

/// Order by id, then by name.
pub open spec fn id_order(a: ModMetaData, b: ModMetaData) -> Ordering {
    then_order(text_order(a.id@, b.id@), text_order(a.name@, b.name@))
}

/// Order by name, then as `id_order`.
pub open spec fn name_order(a: ModMetaData, b: ModMetaData) -> Ordering {
    then_order(text_order(a.name@, b.name@), id_order(a, b))
}

/// Order by the time created, then as `id_order`.
pub open spec fn created_order(a: ModMetaData, b: ModMetaData) -> Ordering {
    then_order(time_order(a.created, b.created), id_order(a, b))
}

/// Order by the time modified, then as `id_order`.
pub open spec fn modified_order(a: ModMetaData, b: ModMetaData) -> Ordering {
    then_order(time_order(a.modified, b.modified), id_order(a, b))
}

/// Order by the load relations the two mods declare of each other: forced
/// relations first, then requested ones, then dependencies; a pair that
/// contradicts itself, or that declares nothing, falls back to `id_order`.
pub open spec fn dependency_order(a: ModMetaData, b: ModMetaData) -> Ordering {
    let force_after_a = a.force_load_after@.contains(b.id@);
    let force_after_b = b.force_load_after@.contains(a.id@);
    let force_before_a = a.force_load_before@.contains(b.id@);
    let force_before_b = b.force_load_before@.contains(a.id@);
    let after_a = a.load_after@.contains(b.id@);
    let after_b = b.load_after@.contains(a.id@);
    let before_a = a.load_before@.contains(b.id@);
    let before_b = b.load_before@.contains(a.id@);
    let a_needs_b = a.dependencies.has_key(b.id@);
    let b_needs_a = b.dependencies.has_key(a.id@);
    if force_after_a && force_after_b {
        id_order(a, b)
    } else if force_before_a && force_before_b {
        id_order(a, b)
    } else if force_after_a || force_before_b {
        Ordering::Greater
    } else if force_after_b || force_before_a {
        Ordering::Less
    } else if after_a && after_b {
        id_order(a, b)
    } else if before_a && before_b {
        id_order(a, b)
    } else if after_a || before_b {
        Ordering::Greater
    } else if after_b || before_a {
        Ordering::Less
    } else if a_needs_b && b_needs_a {
        id_order(a, b)
    } else if a_needs_b {
        Ordering::Greater
    } else if b_needs_a {
        Ordering::Less
    } else {
        id_order(a, b)
    }
}

/// Order by the number of dependencies, then as `dependency_order`.
pub open spec fn topological_order(a: ModMetaData, b: ModMetaData) -> Ordering {
    then_order(
        count_order(a.dependencies.key_seq().len(), b.dependencies.key_seq().len()),
        dependency_order(a, b),
    )
}

/// Sort order for mods
#[derive(Debug, Clone, Copy, PartialEq, Eq, Structural)]
pub enum Order {
    /// Sort alphabetically by name
    Name,
    /// Sort alphabetically by id
    Id,
    /// Sort by date created on disk
    Created,
    /// Sort by date modified on disk
    Modified,
    /// Sort alphabetically by dependency
    Dependencies,
    /// Sort topologically by dependency
    Topological,
}

/// The comparison each sort order stands for.
pub open spec fn order_by(order: Order, a: ModMetaData, b: ModMetaData) -> Ordering {
    match order {
        Order::Id => id_order(a, b),
        Order::Name => name_order(a, b),
        Order::Created => created_order(a, b),
        Order::Modified => modified_order(a, b),
        Order::Dependencies => dependency_order(a, b),
        Order::Topological => topological_order(a, b),
    }
}

/// The label a sort order is shown under.
pub open spec fn order_label(order: Order) -> Seq<char> {
    match order {
        Order::Id => "ID"@,
        Order::Name => "Name"@,
        Order::Created => "Date Created"@,
        Order::Modified => "Date Modified"@,
        Order::Dependencies => "Dependencies"@,
        Order::Topological => "Topological"@,
    }
}

impl Order {
    /// Compares two mods in this order.
    pub fn compare(&self, a: &ModMetaData, b: &ModMetaData) -> (r: Ordering)
        ensures
            r == order_by(*self, *a, *b),
    {
        match self {
            Order::Id => cmp_id(a, b),
            Order::Name => cmp_name(a, b),
            Order::Created => cmp_created(a, b),
            Order::Modified => cmp_modified(a, b),
            Order::Dependencies => cmp_dependencies(a, b),
            Order::Topological => cmp_topological(a, b),
        }
    }

    /// The comparison function of this order, to sort mods with.
    pub fn sort_fn(&self) -> (f: impl Fn(&ModMetaData, &ModMetaData) -> Ordering)
        ensures
            forall|a: &ModMetaData, b: &ModMetaData| #[trigger] call_requires(f, (a, b)),
            forall|a: &ModMetaData, b: &ModMetaData, r: Ordering|
                call_ensures(f, (a, b), r) ==> r == order_by(*self, *a, *b),
    {
        let order = *self;
        move |a: &ModMetaData, b: &ModMetaData| -> (r: Ordering)
            ensures
                r == order_by(order, *a, *b),
            { order.compare(a, b) }
    }

    /// The label this order is shown under.
    pub fn label(&self) -> (r: &'static str)
        ensures
            r@ == order_label(*self),
    {
        match self {
            Order::Id => "ID",
            Order::Name => "Name",
            Order::Created => "Date Created",
            Order::Modified => "Date Modified",
            Order::Dependencies => "Dependencies",
            Order::Topological => "Topological",
        }
    }
}

/// Compares two strings as `str::cmp`.
pub fn compare_text(a: &str, b: &str) -> (r: Ordering)
    ensures
        r == text_order(a@, b@),
{
    let c = compare_chars(a, b);
    if c == 0 {
        Ordering::Equal
    } else if c == -1 {
        proof {
            lemma_less_trichotomy(a@, b@);
        }
        Ordering::Less
    } else {
        proof {
            lemma_less_trichotomy(a@, b@);
        }
        Ordering::Greater
    }
}

/// Compares two optional times as `Option::cmp`.
pub fn compare_times(a: Option<i128>, b: Option<i128>) -> (r: Ordering)
    ensures
        r == time_order(a, b),
{
    match (a, b) {
        (None, None) => Ordering::Equal,
        (None, Some(_)) => Ordering::Less,
        (Some(_), None) => Ordering::Greater,
        (Some(x), Some(y)) => if x < y {
            Ordering::Less
        } else if x == y {
            Ordering::Equal
        } else {
            Ordering::Greater
        },
    }
}

/// Compares two mods by id, then by name.
pub fn cmp_id(a: &ModMetaData, b: &ModMetaData) -> (r: Ordering)
    ensures
        r == id_order(*a, *b),
{
    match compare_text(a.id.as_str(), b.id.as_str()) {
        Ordering::Equal => compare_text(a.name.as_str(), b.name.as_str()),
        other => other,
    }
}

/// Compares two mods by name, then by id.
pub fn cmp_name(a: &ModMetaData, b: &ModMetaData) -> (r: Ordering)
    ensures
        r == name_order(*a, *b),
{
    match compare_text(a.name.as_str(), b.name.as_str()) {
        Ordering::Equal => cmp_id(a, b),
        other => other,
    }
}

/// Compares two mods by the time they were created, then by id.
pub fn cmp_created(a: &ModMetaData, b: &ModMetaData) -> (r: Ordering)
    ensures
        r == created_order(*a, *b),
{
    match compare_times(a.created, b.created) {
        Ordering::Equal => cmp_id(a, b),
        other => other,
    }
}

/// Compares two mods by the time they were modified, then by id.
pub fn cmp_modified(a: &ModMetaData, b: &ModMetaData) -> (r: Ordering)
    ensures
        r == modified_order(*a, *b),
{
    match compare_times(a.modified, b.modified) {
        Ordering::Equal => cmp_id(a, b),
        other => other,
    }
}

/// Compares two mods by the load relations they declare of each other.
pub fn cmp_dependencies(a: &ModMetaData, b: &ModMetaData) -> (r: Ordering)
    ensures
        r == dependency_order(*a, *b),
{
    // Force load-after conflict
    let force_after_a = a.force_load_after(b.id.as_str());
    let force_after_b = b.force_load_after(a.id.as_str());
    if force_after_a && force_after_b {
        return cmp_id(a, b);
    }
    // Force load-before conflict
    let force_before_a = a.force_load_before(b.id.as_str());
    let force_before_b = b.force_load_before(a.id.as_str());
    if force_before_a && force_before_b {
        return cmp_id(a, b);
    }
    if force_after_a || force_before_b {
        return Ordering::Greater;
    }
    if force_after_b || force_before_a {
        return Ordering::Less;
    }
    // Regular load-after conflict
    let after_a = a.load_after(b.id.as_str());
    let after_b = b.load_after(a.id.as_str());
    if after_a && after_b {
        return cmp_id(a, b);
    }
    // Regular load-before conflict
    let before_a = a.load_before(b.id.as_str());
    let before_b = b.load_before(a.id.as_str());
    if before_a && before_b {
        return cmp_id(a, b);
    }
    if after_a || before_b {
        return Ordering::Greater;
    }
    if after_b || before_a {
        return Ordering::Less;
    }
    // Dependency relations
    let a_needs_b = a.depends_on(b.id.as_str());
    let b_needs_a = b.depends_on(a.id.as_str());
    if a_needs_b && b_needs_a {
        cmp_id(a, b)
    } else if a_needs_b {
        Ordering::Greater
    } else if b_needs_a {
        Ordering::Less
    } else {
        cmp_id(a, b)
    }
}

/// Compares two mods by their number of dependencies, then by their load relations.
pub fn cmp_topological(a: &ModMetaData, b: &ModMetaData) -> (r: Ordering)
    ensures
        r == topological_order(*a, *b),
{
    let la = a.dependencies.len();
    let lb = b.dependencies.len();
    if la < lb {
        Ordering::Less
    } else if la == lb {
        cmp_dependencies(a, b)
    } else {
        Ordering::Greater
    }
}

/// The order of strings: reflexive, flips when swapped, transitive.
proof fn lemma_text_order(a: Seq<char>, b: Seq<char>, c: Seq<char>)
    ensures
        text_order(a, a) == Ordering::Equal,
        text_order(b, a) == flipped(text_order(a, b)),
        text_order(a, b) == Ordering::Less && text_order(b, c) == Ordering::Less ==> text_order(a, c)
            == Ordering::Less,
        text_order(a, b) == Ordering::Equal <==> a == b,
{
    lemma_less_trichotomy(a, b);
    lemma_less_trichotomy(b, c);
    lemma_less_trichotomy(a, c);
    if seq_less(a, b) && seq_less(b, c) {
        lemma_less_transitive(a, b, c);
    }
}

/// A mod compared with itself is `Equal`, in every order.
pub proof fn law_compare_with_itself(order: Order, a: ModMetaData)
    ensures
        order_by(order, a, a) == Ordering::Equal,
{
    lemma_text_order(a.id@, a.id@, a.id@);
    lemma_text_order(a.name@, a.name@, a.name@);
}

/// Swapping the two mods reverses the result of the id, name, created and
/// modified orders.
pub proof fn law_swap_reverses(order: Order, a: ModMetaData, b: ModMetaData)
    requires
        order == Order::Id || order == Order::Name || order == Order::Created || order == Order::Modified,
    ensures
        order_by(order, b, a) == flipped(order_by(order, a, b)),
{
    lemma_text_order(a.id@, b.id@, b.id@);
    lemma_text_order(a.name@, b.name@, b.name@);
}

/// The id, name, created and modified orders are transitive.
pub proof fn law_transitive(order: Order, a: ModMetaData, b: ModMetaData, c: ModMetaData)
    requires
        order == Order::Id || order == Order::Name || order == Order::Created || order == Order::Modified,
        order_by(order, a, b) == Ordering::Less,
        order_by(order, b, c) == Ordering::Less,
    ensures
        order_by(order, a, c) == Ordering::Less,
{
    lemma_text_order(a.id@, b.id@, c.id@);
    lemma_text_order(a.name@, b.name@, c.name@);
    lemma_text_order(b.id@, c.id@, a.id@);
    lemma_text_order(b.name@, c.name@, a.name@);
    lemma_text_order(c.id@, a.id@, b.id@);
    lemma_text_order(c.name@, a.name@, b.name@);
    lemma_text_order(a.id@, c.id@, b.id@);
    lemma_text_order(a.name@, c.name@, b.name@);
}

/// The first relation, in the order `dependency_order` reads them, that decides
/// the pair points both ways: one mod is to load after the other by one rule and
/// before it by another rule of the same strength.
pub open spec fn relations_disagree(a: ModMetaData, b: ModMetaData) -> bool {
    let force_after_a = a.force_load_after@.contains(b.id@);
    let force_after_b = b.force_load_after@.contains(a.id@);
    let force_before_a = a.force_load_before@.contains(b.id@);
    let force_before_b = b.force_load_before@.contains(a.id@);
    let after_a = a.load_after@.contains(b.id@);
    let after_b = b.load_after@.contains(a.id@);
    let before_a = a.load_before@.contains(b.id@);
    let before_b = b.load_before@.contains(a.id@);
    if (force_after_a && force_after_b) || (force_before_a && force_before_b) {
        false
    } else if force_after_a || force_before_b || force_after_b || force_before_a {
        (force_after_a || force_before_b) && (force_after_b || force_before_a)
    } else if (after_a && after_b) || (before_a && before_b) {
        false
    } else if after_a || before_b || after_b || before_a {
        (after_a || before_b) && (after_b || before_a)
    } else {
        false
    }
}

/// Swapping the two mods reverses the result of the dependency order, unless
/// their relations disagree; then both comparisons give `Greater`.
pub proof fn law_dependency_swap(a: ModMetaData, b: ModMetaData)
    ensures
        !relations_disagree(a, b) ==> dependency_order(b, a) == flipped(dependency_order(a, b)),
        relations_disagree(a, b) ==> dependency_order(a, b) == Ordering::Greater && dependency_order(
            b,
            a,
        ) == Ordering::Greater,
{
    law_swap_reverses(Order::Id, a, b);
}

/// Swapping the two mods reverses the result of the topological order, unless
/// they have as many dependencies and their relations disagree.
pub proof fn law_topological_swap(a: ModMetaData, b: ModMetaData)
    ensures
        !(a.dependencies.key_seq().len() == b.dependencies.key_seq().len() && relations_disagree(a, b))
            ==> topological_order(b, a) == flipped(topological_order(a, b)),
{
    law_dependency_swap(a, b);
}

/// A load relation declared one way only decides the order, forced relations
/// before requested ones before dependencies: `a` goes after `b` (and `b`
/// before `a`) when `a` asks to load after `b` or `b` asks to load before
/// `a`, forcefully and with no forced relation the other way; or, with no
/// forced relation at all, by request and with no request the other way; or,
/// with no load relation at all, when `a` depends on `b` and not `b` on `a`.
/// Between mods with as many dependencies the topological order agrees.
pub proof fn law_declared_relation_decides(a: ModMetaData, b: ModMetaData)
    ensures
        ({
            let forced_ab = a.force_load_after@.contains(b.id@) || b.force_load_before@.contains(a.id@);
            let forced_ba = b.force_load_after@.contains(a.id@) || a.force_load_before@.contains(b.id@);
            let asked_ab = a.load_after@.contains(b.id@) || b.load_before@.contains(a.id@);
            let asked_ba = b.load_after@.contains(a.id@) || a.load_before@.contains(b.id@);
            let needs_ab = a.dependencies.has_key(b.id@);
            let needs_ba = b.dependencies.has_key(a.id@);
            let after = dependency_order(a, b) == Ordering::Greater && dependency_order(b, a) == Ordering::Less;
            &&& forced_ab && !forced_ba ==> after
            &&& !forced_ab && !forced_ba && asked_ab && !asked_ba ==> after
            &&& !forced_ab && !forced_ba && !asked_ab && !asked_ba && needs_ab && !needs_ba ==> after
            &&& a.dependencies.key_seq().len() == b.dependencies.key_seq().len() ==> topological_order(a, b)
                == dependency_order(a, b)
        }),
{
}

/// Whether `a` goes after `b` in the topological order.
pub open spec fn loads_after(a: ModMetaData, b: ModMetaData) -> bool {
    topological_order(a, b) == Ordering::Greater
}

/// Whether `a` goes after `b` in the topological order.
pub fn must_load_after(a: &ModMetaData, b: &ModMetaData) -> (r: bool)
    ensures
        r == loads_after(*a, *b),
{
    match cmp_topological(a, b) {
        Ordering::Greater => true,
        _ => false,
    }
}

} // verus!
