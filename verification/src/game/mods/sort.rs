//! The first sort orders for mods: by id, name, times and dependencies only.
use std::cmp::Ordering;

use crate::game::mods::meta::ModMetaData;
use vstd::prelude::*;

pub mod order;

use order::{compare_text, compare_times, count_order, id_order, name_order, then_order, time_order};

verus! {

/// Order by the time created, then by name.
pub open spec fn created_then_name(a: ModMetaData, b: ModMetaData) -> Ordering {
    then_order(time_order(a.created, b.created), name_order(a, b))
}

/// Order by the time modified, then by name.
pub open spec fn modified_then_name(a: ModMetaData, b: ModMetaData) -> Ordering {
    then_order(time_order(a.modified, b.modified), name_order(a, b))
}

/// Order by dependency alone: a mod comes after the mods it depends on; a pair
/// that depends on each other, or neither on the other, is ordered by name.
pub open spec fn needs_order(a: ModMetaData, b: ModMetaData) -> Ordering {
    let a_needs_b = a.dependencies.has_key(b.id@);
    let b_needs_a = b.dependencies.has_key(a.id@);
    if a_needs_b && b_needs_a {
        name_order(a, b)
    } else if a_needs_b {
        Ordering::Greater
    } else if b_needs_a {
        Ordering::Less
    } else {
        name_order(a, b)
    }
}

/// Order by the number of dependencies, then as `needs_order`.
pub open spec fn count_then_needs(a: ModMetaData, b: ModMetaData) -> Ordering {
    then_order(
        count_order(a.dependencies.key_seq().len(), b.dependencies.key_seq().len()),
        needs_order(a, b),
    )
}

/// Sort order for mods
#[derive(Debug, Clone, Copy, PartialEq, Eq, Structural)]
pub enum Order {
    /// Sort alphabetically by name
    Name,
    /// Sort alphabetically by id
    Id,
    /// Sort by date created on disk
    Created,
    /// Sort by date modified on disk
    Modified,
    /// Sort alphabetically by dependency
    Dependencies,
    /// Sort topologically by dependency
    Topological,
}

/// The comparison each sort order stands for.
pub open spec fn sorted_by(order: Order, a: ModMetaData, b: ModMetaData) -> Ordering {
    match order {
        Order::Id => id_order(a, b),
        Order::Name => name_order(a, b),
        Order::Created => created_then_name(a, b),
        Order::Modified => modified_then_name(a, b),
        Order::Dependencies => needs_order(a, b),
        Order::Topological => count_then_needs(a, b),
    }
}

impl Order {
    /// The comparison function of this order, to sort mods with.
    pub fn sort_fn(&self) -> (f: impl Fn(&ModMetaData, &ModMetaData) -> Ordering)
        ensures
            forall|a: &ModMetaData, b: &ModMetaData| #[trigger] call_requires(f, (a, b)),
            forall|a: &ModMetaData, b: &ModMetaData, r: Ordering|
                call_ensures(f, (a, b), r) ==> r == sorted_by(*self, *a, *b),
    {
        let order = *self;
        move |a: &ModMetaData, b: &ModMetaData| -> (r: Ordering)
            ensures
                r == sorted_by(order, *a, *b),
            {
                match order {
                    Order::Id => cmp_id(a, b),
                    Order::Name => cmp_name(a, b),
                    Order::Created => cmp_created(a, b),
                    Order::Modified => cmp_modified(a, b),
                    Order::Dependencies => cmp_dependencies(a, b),
                    Order::Topological => cmp_topological(a, b),
                }
            }
    }
}

/// Compares two mods by id, then by name.
pub fn cmp_id(a: &ModMetaData, b: &ModMetaData) -> (r: Ordering)
    ensures
        r == id_order(*a, *b),
{
    match compare_text(a.id.as_str(), b.id.as_str()) {
        Ordering::Equal => compare_text(a.name.as_str(), b.name.as_str()),
        other => other,
    }
}

/// Compares two mods by name, then by id.
pub fn cmp_name(a: &ModMetaData, b: &ModMetaData) -> (r: Ordering)
    ensures
        r == name_order(*a, *b),
{
    match compare_text(a.name.as_str(), b.name.as_str()) {
        Ordering::Equal => cmp_id(a, b),
        other => other,
    }
}

/// Compares two mods by the time they were created, then by name.
pub fn cmp_created(a: &ModMetaData, b: &ModMetaData) -> (r: Ordering)
    ensures
        r == created_then_name(*a, *b),
{
    match compare_times(a.created, b.created) {
        Ordering::Equal => cmp_name(a, b),
        other => other,
    }
}

/// Compares two mods by the time they were modified, then by name.
pub fn cmp_modified(a: &ModMetaData, b: &ModMetaData) -> (r: Ordering)
    ensures
        r == modified_then_name(*a, *b),
{
    match compare_times(a.modified, b.modified) {
        Ordering::Equal => cmp_name(a, b),
        other => other,
    }
}

/// Compares two mods by their dependencies on each other.
pub fn cmp_dependencies(a: &ModMetaData, b: &ModMetaData) -> (r: Ordering)
    ensures
        r == needs_order(*a, *b),
{
    let a_needs_b = a.depends_on(b.id.as_str());
    let b_needs_a = b.depends_on(a.id.as_str());
    if a_needs_b && b_needs_a {
        cmp_name(a, b)
    } else if a_needs_b {
        Ordering::Greater
    } else if b_needs_a {
        Ordering::Less
    } else {
        cmp_name(a, b)
    }
}

/// Compares two mods by their number of dependencies, then by their dependencies on each other.
pub fn cmp_topological(a: &ModMetaData, b: &ModMetaData) -> (r: Ordering)
    ensures
        r == count_then_needs(*a, *b),
{
    let la = a.dependencies.len();
    let lb = b.dependencies.len();
    if la < lb {
        Ordering::Less
    } else if la == lb {
        cmp_dependencies(a, b)
    } else {
        Ordering::Greater
    }
}

} // verus!
