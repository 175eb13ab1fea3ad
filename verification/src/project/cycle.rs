//! Cycles among the load relations of the active mods.
use crate::collections::find_string;
use crate::game::mods::meta::ModMetaData;
use crate::text::{lower_seq, to_ascii_lowercase};
use vstd::prelude::*;

verus! {

/// The active ids a mod asks to be loaded after (`load_after` and
/// `forceLoadAfter`, in lower case).
pub open spec fn after_targets(m: ModMetaData, ids: Seq<Seq<char>>) -> Set<Seq<char>> {
    Set::new(
        |t: Seq<char>|
            ids.contains(t) && exists|a: Seq<char>|
                (m.load_after@.contains(a) || m.force_load_after@.contains(a)) && #[trigger] lower_seq(a) == t,
    )
}

/// Position `idx` of the active list gives the edges of its id: it has a mod
/// at the same position of `order`, and no later such position has the same id.
pub open spec fn owns_edges(ids: Seq<Seq<char>>, n: int, idx: int) -> bool {
    &&& 0 <= idx < ids.len()
    &&& idx < n
    &&& forall|j: int| idx < j < ids.len() && j < n ==> #[trigger] ids[j] != ids[idx]
}

/// `u` must load after `v`: the mod standing for `u` asks to load after `v`.
#[verifier::opaque]
pub open spec fn load_edge(
    ids: Seq<Seq<char>>,
    mods: Seq<ModMetaData>,
    order: Seq<usize>,
    u: Seq<char>,
    v: Seq<char>,
) -> bool {
    exists|idx: int|
        owns_edges(ids, order.len() as int, idx) && #[trigger] ids[idx] == u && after_targets(
            mods[order[idx] as int],
            ids,
        ).contains(v)
}

/// Every id of `s` is active and must load after some id of `s`.
pub open spec fn closed_under_edges(
    ids: Seq<Seq<char>>,
    mods: Seq<ModMetaData>,
    order: Seq<usize>,
    s: Set<Seq<char>>,
) -> bool {
    &&& s.subset_of(ids.to_set())
    &&& forall|v: Seq<char>| #[trigger] s.contains(v) ==> has_pred_in(ids, mods, order, s, v)
}

/// Some id of `s` must load after `v`.
#[verifier::opaque]
pub open spec fn has_pred_in(
    ids: Seq<Seq<char>>,
    mods: Seq<ModMetaData>,
    order: Seq<usize>,
    s: Set<Seq<char>>,
    v: Seq<char>,
) -> bool {
    exists|u: Seq<char>| s.contains(u) && load_edge(ids, mods, order, u, v)
}

/// `v` can never be loaded: it belongs to a set of ids each of which must
/// load after another of the set (a cycle, or what a cycle holds back).
pub open spec fn in_load_cycle(ids: Seq<Seq<char>>, mods: Seq<ModMetaData>, order: Seq<usize>, v: Seq<char>) -> bool {
    exists|s: Set<Seq<char>>| closed_under_edges(ids, mods, order, s) && #[trigger] s.contains(v)
}

/// The lower-case forms of the items of `list` that stand among `ids`.
pub open spec fn lowered_among(list: Seq<Seq<char>>, ids: Seq<Seq<char>>) -> Set<Seq<char>> {
    Set::new(|t: Seq<char>| ids.contains(t) && exists|a: Seq<char>| list.contains(a) && #[trigger] lower_seq(a) == t)
}

/// Adds to `out` the lower-case forms of the items of `list` that stand among `ids`.
fn append_lowered_among(out: &mut Vec<String>, list: &[String], ids: &[String])
    ensures
        final(out).deep_view().to_set() == old(out).deep_view().to_set().union(
            lowered_among(list.deep_view(), ids.deep_view()),
        ),
{
    let ghost v = ids.deep_view();
    let ghost l = list.deep_view();
    let ghost start = out.deep_view().to_set();
    let mut i: usize = 0;
    while i < list.len()
        invariant
            v == ids.deep_view(),
            l == list.deep_view(),
            i <= list.len(),
            out.deep_view().to_set() == start.union(lowered_among(l.take(i as int), v)),
        decreases list.len() - i,
    {
        let lower = to_ascii_lowercase(list[i].as_str());
        let ghost before = out.deep_view();
        if find_string(ids, lower.as_str()).is_some() {
            out.push(lower);
            assert(out.deep_view() =~= before.push(lower@));
            proof {
                before.lemma_push_to_set_commute(lower@);
            }
        }
        proof {
            let next = lowered_among(l.take(i + 1), v);
            let prev = lowered_among(l.take(i as int), v);
            assert forall|t: Seq<char>| next.contains(t) <==> (prev.contains(t) || (t == lower@ && v.contains(t))) by {
                if next.contains(t) {
                    let a = choose|a: Seq<char>| l.take(i + 1).contains(a) && #[trigger] lower_seq(a) == t;
                    let k = choose|k: int| 0 <= k < i + 1 && #[trigger] l.take(i + 1)[k] == a;
                    if k < i {
                        assert(l.take(i as int)[k] == a);
                        assert(l.take(i as int).contains(a));
                    }
                }
                if prev.contains(t) {
                    let a = choose|a: Seq<char>| l.take(i as int).contains(a) && #[trigger] lower_seq(a) == t;
                    let k = choose|k: int| 0 <= k < i && #[trigger] l.take(i as int)[k] == a;
                    assert(l.take(i + 1)[k] == a);
                    assert(l.take(i + 1).contains(a));
                }
                if t == lower@ && v.contains(t) {
                    assert(l.take(i + 1)[i as int] == l[i as int]);
                    assert(l.take(i + 1).contains(l[i as int]));
                }
            }
            assert(out.deep_view().to_set() =~= start.union(next));
        }
        i = i + 1;
    }
    assert(l.take(list.len() as int) =~= l);
}

/// The ids among `ids` that `m` asks to be loaded after, in lower case.
fn targets_of(m: &ModMetaData, ids: &[String]) -> (r: Vec<String>)
    ensures
        r.deep_view().to_set() == after_targets(*m, ids.deep_view()),
{
    let mut out: Vec<String> = Vec::new();
    assert(out.deep_view().to_set() =~= Set::<Seq<char>>::empty());
    append_lowered_among(&mut out, m.load_after.as_slice(), ids);
    append_lowered_among(&mut out, m.force_load_after.as_slice(), ids);
    assert(out.deep_view().to_set() =~= after_targets(*m, ids.deep_view()));
    out
}

/// Whether position `idx` of the active list gives the edges of its id.
fn owns(ids: &[String], n: usize, idx: usize) -> (r: bool)
    requires
        idx < ids.len(),
    ensures
        r == owns_edges(ids.deep_view(), n as int, idx as int),
{
    if idx >= n {
        return false;
    }
    let ghost v = ids.deep_view();
    let mut j: usize = idx + 1;
    while j < ids.len() && j < n
        invariant
            v == ids.deep_view(),
            idx < j,
            idx < ids.len(),
            forall|k: int| idx < k < j ==> #[trigger] v[k] != v[idx as int],
        decreases ids.len() - j,
    {
        if crate::text::compare_chars(ids[j].as_str(), ids[idx].as_str()) == 0 {
            assert(v[j as int] == v[idx as int]);
            return false;
        }
        j = j + 1;
    }
    true
}

/// The edges each position of the active list gives.
fn edges_of(ids: &[String], mods: &[ModMetaData], order: &[usize]) -> (r: Vec<Vec<String>>)
    requires
        forall|k: int| 0 <= k < order.len() ==> #[trigger] order[k] < mods.len(),
    ensures
        r@.len() == ids.len(),
        forall|idx: int|
            0 <= idx < ids.len() ==> (#[trigger] r@[idx]).deep_view().to_set() == if owns_edges(
                ids.deep_view(),
                order.len() as int,
                idx,
            ) {
                after_targets(mods@[order@[idx] as int], ids.deep_view())
            } else {
                Set::<Seq<char>>::empty()
            },
{
    let mut out: Vec<Vec<String>> = Vec::new();
    let mut idx: usize = 0;
    while idx < ids.len()
        invariant
            idx <= ids.len(),
            out@.len() == idx,
            forall|k: int| 0 <= k < order.len() ==> #[trigger] order[k] < mods.len(),
            forall|i: int|
                0 <= i < idx ==> (#[trigger] out@[i]).deep_view().to_set() == if owns_edges(
                    ids.deep_view(),
                    order.len() as int,
                    i,
                ) {
                    after_targets(mods@[order@[i] as int], ids.deep_view())
                } else {
                    Set::<Seq<char>>::empty()
                },
        decreases ids.len() - idx,
    {
        if owns(ids, order.len(), idx) {
            out.push(targets_of(&mods[order[idx]], ids));
        } else {
            let empty: Vec<String> = Vec::new();
            assert(empty.deep_view().to_set() =~= Set::<Seq<char>>::empty());
            out.push(empty);
        }
        idx = idx + 1;
    }
    out
}

/// The number of `true` entries.
pub open spec fn count_true(s: Seq<bool>) -> nat
    decreases s.len(),
{
    if s.len() == 0 {
        0
    } else {
        count_true(s.drop_last()) + if s.last() {
            1nat
        } else {
            0nat
        }
    }
}

proof fn lemma_count_clear(s: Seq<bool>, k: int)
    requires
        0 <= k < s.len(),
        s[k],
    ensures
        count_true(s.update(k, false)) + 1 == count_true(s),
    decreases s.len(),
{
    if k == s.len() - 1 {
        assert(s.update(k, false).drop_last() =~= s.drop_last());
    } else {
        assert(s.update(k, false).drop_last() =~= s.drop_last().update(k, false));
        lemma_count_clear(s.drop_last(), k);
    }
}

/// The ids of the nodes still in the graph.
pub open spec fn alive_set(nodes: Seq<Seq<char>>, alive: Seq<bool>) -> Set<Seq<char>> {
    Set::new(|t: Seq<char>| exists|k: int| 0 <= k < nodes.len() && alive[k] && #[trigger] nodes[k] == t)
}

/// Whether some node still in the graph must load before `x` according to
/// the edges, `x` being a node.
fn has_alive_pred(
    ids: &[String],
    edges: &Vec<Vec<String>>,
    nodes: &Vec<String>,
    alive: &Vec<bool>,
    x: &str,
    Ghost(mods): Ghost<Seq<ModMetaData>>,
    Ghost(order): Ghost<Seq<usize>>,
) -> (r: bool)
    requires
        edges@.len() == ids.len(),
        alive@.len() == nodes@.len(),
        nodes.deep_view().no_duplicates(),
        nodes.deep_view().to_set() == ids.deep_view().to_set(),
        forall|idx: int|
            0 <= idx < ids.len() ==> (#[trigger] edges@[idx]).deep_view().to_set() == if owns_edges(
                ids.deep_view(),
                order.len() as int,
                idx,
            ) {
                after_targets(mods[order[idx] as int], ids.deep_view())
            } else {
                Set::<Seq<char>>::empty()
            },
    ensures
        r == has_pred_in(ids.deep_view(), mods, order, alive_set(nodes.deep_view(), alive@), x@),
{
    reveal(load_edge);
    reveal(has_pred_in);
    let ghost v = ids.deep_view();
    let ghost nv = nodes.deep_view();
    let ghost live = alive_set(nv, alive@);
    let mut idx: usize = 0;
    while idx < ids.len()
        invariant
            idx <= ids.len(),
            v == ids.deep_view(),
            nv == nodes.deep_view(),
            live == alive_set(nv, alive@),
            edges@.len() == ids.len(),
            alive@.len() == nv.len(),
            nv.no_duplicates(),
            nv.to_set() == v.to_set(),
            forall|i: int|
                0 <= i < ids.len() ==> (#[trigger] edges@[i]).deep_view().to_set() == if owns_edges(
                    v,
                    order.len() as int,
                    i,
                ) {
                    after_targets(mods[order[i] as int], v)
                } else {
                    Set::<Seq<char>>::empty()
                },
            forall|i: int|
                0 <= i < idx && #[trigger] owns_edges(v, order.len() as int, i) && after_targets(
                    mods[order[i] as int],
                    v,
                ).contains(x@) ==> !live.contains(v[i]),
        decreases ids.len() - idx,
    {
        proof {
            reveal(load_edge);
        }
        let targets = &edges[idx];
        if find_string(targets.as_slice(), x).is_some() {
            assert(targets.deep_view().to_set().contains(x@));
            let j = find_string(nodes.as_slice(), ids[idx].as_str());
            assert(nv.to_set().contains(v[idx as int])) by {
                assert(v.to_set().contains(v[idx as int]));
            }
            let jj = j.unwrap();
            if alive[jj] {
                assert(live.contains(v[idx as int]));
                assert(load_edge(v, mods, order, v[idx as int], x@));
                proof {
                    reveal(has_pred_in);
                }
                return true;
            } else {
                proof {
                    assert forall|k: int| 0 <= k < nv.len() && alive@[k] implies nv[k] != v[idx as int] by {
                        if nv[k] == v[idx as int] {
                            assert(k == jj);
                        }
                    }
                }
            }
        }
        idx = idx + 1;
    }
    proof {
        reveal(load_edge);
        reveal(has_pred_in);
        assert forall|u: Seq<char>| live.contains(u) implies !load_edge(v, mods, order, u, x@) by {
            if load_edge(v, mods, order, u, x@) {
                let i = choose|i: int|
                    owns_edges(v, order.len() as int, i) && #[trigger] v[i] == u && after_targets(
                        mods[order[i] as int],
                        v,
                    ).contains(x@);
            }
        }
    }
    false
}

/// The distinct ids of `ids`, and whether some id stands twice.
fn distinct_ids(ids: &[String]) -> (r: (Vec<String>, bool))
    ensures
        r.0.deep_view().no_duplicates(),
        r.0.deep_view().to_set() == ids.deep_view().to_set(),
        r.1 == !ids.deep_view().no_duplicates(),
{
    let ghost v = ids.deep_view();
    let mut nodes: Vec<String> = Vec::new();
    let mut dup = false;
    let mut i: usize = 0;
    assert(nodes.deep_view().to_set() =~= v.take(0).to_set());
    while i < ids.len()
        invariant
            i <= ids.len(),
            v == ids.deep_view(),
            nodes.deep_view().no_duplicates(),
            nodes.deep_view().to_set() == v.take(i as int).to_set(),
            dup == !v.take(i as int).no_duplicates(),
        decreases ids.len() - i,
    {
        let ghost before = nodes.deep_view();
        assert(v.take(i + 1) =~= v.take(i as int).push(v[i as int]));
        proof {
            v.take(i as int).lemma_push_to_set_commute(v[i as int]);
        }
        if find_string(nodes.as_slice(), ids[i].as_str()).is_some() {
            assert(before.to_set().contains(v[i as int]));
            proof {
                let k = choose|k: int| 0 <= k < i && v.take(i as int)[k] == v[i as int];
                assert(v.take(i + 1)[k] == v.take(i + 1)[i as int]);
            }
            assert(v.take(i as int).to_set().insert(v[i as int]) =~= v.take(i as int).to_set());
            dup = true;
        } else {
            nodes.push(ids[i].clone());
            assert(nodes.deep_view() =~= before.push(v[i as int]));
            proof {
                before.lemma_push_to_set_commute(v[i as int]);
                assert(!v.take(i as int).to_set().contains(v[i as int]));
                if !dup {
                    assert forall|a: int, b: int|
                        0 <= a < v.take(i + 1).len() && 0 <= b < v.take(i + 1).len() && a != b implies #[trigger] v.take(
                        i + 1,
                    )[a] != #[trigger] v.take(i + 1)[b] by {
                        if a < i && b < i {
                            assert(v.take(i as int)[a] != v.take(i as int)[b]);
                        } else if a == i {
                            assert(v.take(i as int).contains(v.take(i + 1)[b]));
                        } else {
                            assert(v.take(i as int).contains(v.take(i + 1)[a]));
                        }
                    }
                } else {
                    let (a, b) = choose|a: int, b: int|
                        0 <= a < v.take(i as int).len() && 0 <= b < v.take(i as int).len() && a != b
                            && v.take(i as int)[a] == v.take(i as int)[b];
                    assert(v.take(i + 1)[a] == v.take(i + 1)[b]);
                }
            }
        }
        i = i + 1;
    }
    assert(v.take(ids.len() as int) =~= v);
    (nodes, dup)
}

/// The ids of the nodes among the first `n` still in the graph.
pub open spec fn alive_prefix(nodes: Seq<Seq<char>>, alive: Seq<bool>, n: int) -> Set<Seq<char>> {
    Set::new(|t: Seq<char>| exists|k: int| 0 <= k < n && alive[k] && #[trigger] nodes[k] == t)
}

/// The ids of the nodes still in the graph, each once.
fn collect_alive(nodes: &Vec<String>, alive: &Vec<bool>) -> (r: Vec<String>)
    requires
        alive@.len() == nodes@.len(),
        nodes.deep_view().no_duplicates(),
    ensures
        r.deep_view().to_set() == alive_set(nodes.deep_view(), alive@),
        r.deep_view().no_duplicates(),
{
    let ghost nv = nodes.deep_view();
    let mut out: Vec<String> = Vec::new();
    let mut i: usize = 0;
    assert(out.deep_view().to_set() =~= alive_prefix(nv, alive@, 0));
    while i < nodes.len()
        invariant
            i <= nodes.len(),
            nv == nodes.deep_view(),
            alive@.len() == nv.len(),
            nv.no_duplicates(),
            out.deep_view().to_set() == alive_prefix(nv, alive@, i as int),
            out.deep_view().no_duplicates(),
        decreases nodes.len() - i,
    {
        let ghost before = out.deep_view();
        if alive[i] {
            out.push(nodes[i].clone());
            proof {
                assert(out.deep_view() =~= before.push(nv[i as int]));
                before.lemma_push_to_set_commute(nv[i as int]);
                if before.contains(nv[i as int]) {
                    assert(before.to_set().contains(nv[i as int]));
                    let k = choose|k: int| 0 <= k < i && alive@[k] && #[trigger] nv[k] == nv[i as int];
                }
                assert forall|a: int, b: int|
                    0 <= a < out.deep_view().len() && 0 <= b < out.deep_view().len() && a != b implies #[trigger] out.deep_view()[a]
                    != #[trigger] out.deep_view()[b] by {
                    if a == before.len() {
                        assert(before.contains(out.deep_view()[b]));
                    } else if b == before.len() {
                        assert(before.contains(out.deep_view()[a]));
                    }
                }
            }
        }
        proof {
            assert(out.deep_view().to_set() =~= alive_prefix(nv, alive@, i + 1));
        }
        i = i + 1;
    }
    assert(alive_prefix(nv, alive@, nv.len() as int) =~= alive_set(nv, alive@));
    out
}

/// A node still in the graph that nothing still in it must precede, if any.
fn find_removable(
    ids: &[String],
    edges: &Vec<Vec<String>>,
    nodes: &Vec<String>,
    alive: &Vec<bool>,
    Ghost(ms): Ghost<Seq<ModMetaData>>,
    Ghost(os): Ghost<Seq<usize>>,
) -> (r: Option<usize>)
    requires
        edges@.len() == ids.len(),
        alive@.len() == nodes@.len(),
        nodes.deep_view().no_duplicates(),
        nodes.deep_view().to_set() == ids.deep_view().to_set(),
        forall|idx: int|
            0 <= idx < ids.len() ==> (#[trigger] edges@[idx]).deep_view().to_set() == if owns_edges(
                ids.deep_view(),
                os.len() as int,
                idx,
            ) {
                after_targets(ms[os[idx] as int], ids.deep_view())
            } else {
                Set::<Seq<char>>::empty()
            },
    ensures
        r matches Some(j) ==> j < nodes@.len() && alive@[j as int] && !has_pred_in(ids.deep_view(), ms, os, alive_set(nodes.deep_view(), alive@), nodes.deep_view()[j as int]),
        r is None ==> forall|i: int|
            0 <= i < nodes@.len() && #[trigger] alive@[i] ==> has_pred_in(ids.deep_view(), ms, os, alive_set(nodes.deep_view(), alive@), nodes.deep_view()[i]),
{
    let ghost v = ids.deep_view();
    let ghost nv = nodes.deep_view();
    let mut j: usize = 0;
    while j < nodes.len()
        invariant
            j <= nodes.len(),
            v == ids.deep_view(),
            nv == nodes.deep_view(),
            alive@.len() == nv.len(),
            edges@.len() == ids.len(),
            nv.no_duplicates(),
            nv.to_set() == v.to_set(),
            forall|idx: int|
                0 <= idx < ids.len() ==> (#[trigger] edges@[idx]).deep_view().to_set() == if owns_edges(
                    v,
                    os.len() as int,
                    idx,
                ) {
                    after_targets(ms[os[idx] as int], v)
                } else {
                    Set::<Seq<char>>::empty()
                },
            forall|i: int|
                0 <= i < j && #[trigger] alive@[i] ==> has_pred_in(v, ms, os, alive_set(nv, alive@), nv[i]),
        decreases nodes.len() - j,
    {
        if alive[j] && !has_alive_pred(ids, edges, nodes, alive, nodes[j].as_str(), Ghost(ms), Ghost(os)) {
            return Some(j);
        }
        j = j + 1;
    }
    None
}

/// Removes from the graph, one at a time, the nodes that nothing still in it
/// must precede, until none is left to remove.
fn prune(
    ids: &[String],
    edges: &Vec<Vec<String>>,
    nodes: &Vec<String>,
    Ghost(ms): Ghost<Seq<ModMetaData>>,
    Ghost(os): Ghost<Seq<usize>>,
) -> (alive: Vec<bool>)
    requires
        edges@.len() == ids.len(),
        nodes.deep_view().no_duplicates(),
        nodes.deep_view().to_set() == ids.deep_view().to_set(),
        forall|idx: int|
            0 <= idx < ids.len() ==> (#[trigger] edges@[idx]).deep_view().to_set() == if owns_edges(
                ids.deep_view(),
                os.len() as int,
                idx,
            ) {
                after_targets(ms[os[idx] as int], ids.deep_view())
            } else {
                Set::<Seq<char>>::empty()
            },
    ensures
        alive@.len() == nodes@.len(),
        forall|s: Set<Seq<char>>|
            #[trigger] closed_under_edges(ids.deep_view(), ms, os, s) ==> s.subset_of(
                alive_set(nodes.deep_view(), alive@),
            ),
        forall|i: int|
            0 <= i < nodes@.len() && #[trigger] alive@[i] ==> has_pred_in(ids.deep_view(), ms, os, alive_set(nodes.deep_view(), alive@), nodes.deep_view()[i]),
{
    let ghost v = ids.deep_view();
    let ghost nv = nodes.deep_view();
    let mut alive: Vec<bool> = Vec::new();
    let mut k: usize = 0;
    while k < nodes.len()
        invariant
            k <= nodes.len(),
            alive@.len() == k,
            forall|j: int| 0 <= j < k ==> #[trigger] alive@[j],
        decreases nodes.len() - k,
    {
        alive.push(true);
        k = k + 1;
    }
    proof {
        assert forall|s: Set<Seq<char>>| #[trigger] closed_under_edges(v, ms, os, s) implies s.subset_of(
            alive_set(nv, alive@),
        ) by {
            assert forall|t: Seq<char>| s.contains(t) implies alive_set(nv, alive@).contains(t) by {
                assert(v.to_set().contains(t));
                assert(nv.to_set().contains(t));
                let j = choose|j: int| 0 <= j < nv.len() && nv[j] == t;
                assert(alive@[j]);
            }
        }
    }
    loop
        invariant
            v == ids.deep_view(),
            nv == nodes.deep_view(),
            alive@.len() == nv.len(),
            edges@.len() == ids.len(),
            nv.no_duplicates(),
            nv.to_set() == v.to_set(),
            forall|idx: int|
                0 <= idx < ids.len() ==> (#[trigger] edges@[idx]).deep_view().to_set() == if owns_edges(
                    v,
                    os.len() as int,
                    idx,
                ) {
                    after_targets(ms[os[idx] as int], v)
                } else {
                    Set::<Seq<char>>::empty()
                },
            forall|s: Set<Seq<char>>| #[trigger] closed_under_edges(v, ms, os, s) ==> s.subset_of(alive_set(nv, alive@)),
        decreases count_true(alive@),
    {
        let found = find_removable(ids, edges, nodes, &alive, Ghost(ms), Ghost(os));
        if found.is_none() {
            return alive;
        }
        let j = found.unwrap();
        let ghost before = alive@;
        let ghost live = alive_set(nv, before);
        let ghost gone = nv[j as int];
        assert(!has_pred_in(v, ms, os, live, gone));
        alive.set(j, false);
        proof {
            lemma_count_clear(before, j as int);
            assert(alive@ =~= before.update(j as int, false));
            assert forall|s: Set<Seq<char>>| #[trigger] closed_under_edges(v, ms, os, s) implies s.subset_of(
                alive_set(nv, alive@),
            ) by {
                assert(s.subset_of(live));
                assert forall|t: Seq<char>| s.contains(t) implies alive_set(nv, alive@).contains(t) by {
                    assert(live.contains(t));
                    let i = choose|i: int| 0 <= i < nv.len() && before[i] && #[trigger] nv[i] == t;
                    if i == j {
                        reveal(has_pred_in);
                        let u = choose|u: Seq<char>| s.contains(u) && load_edge(v, ms, os, u, t);
                        assert(live.contains(u));
                    } else {
                        assert(alive@[i]);
                    }
                }
            }
        }
    }
}

/// What pruning leaves is exactly what can never be loaded.
proof fn lemma_left_is_stuck(
    v: Seq<Seq<char>>,
    ms: Seq<ModMetaData>,
    os: Seq<usize>,
    nv: Seq<Seq<char>>,
    alive: Seq<bool>,
)
    requires
        alive.len() == nv.len(),
        nv.to_set() == v.to_set(),
        forall|s: Set<Seq<char>>| #[trigger] closed_under_edges(v, ms, os, s) ==> s.subset_of(alive_set(nv, alive)),
        forall|i: int|
            0 <= i < nv.len() && #[trigger] alive[i] ==> has_pred_in(v, ms, os, alive_set(nv, alive), nv[i]),
    ensures
        forall|x: Seq<char>| in_load_cycle(v, ms, os, x) <==> #[trigger] alive_set(nv, alive).contains(x),
{
    let live = alive_set(nv, alive);
    assert forall|x: Seq<char>| #[trigger] live.contains(x) implies has_pred_in(v, ms, os, live, x) by {
        let i = choose|i: int| 0 <= i < nv.len() && alive[i] && #[trigger] nv[i] == x;
        assert(alive[i]);
    }
    assert forall|t: Seq<char>| live.contains(t) implies v.to_set().contains(t) by {
        let i = choose|i: int| 0 <= i < nv.len() && alive[i] && #[trigger] nv[i] == t;
        assert(nv.to_set().contains(t));
    }
    assert(closed_under_edges(v, ms, os, live));
    assert forall|x: Seq<char>| in_load_cycle(v, ms, os, x) <==> #[trigger] live.contains(x) by {
        if in_load_cycle(v, ms, os, x) {
            let s = choose|s: Set<Seq<char>>| closed_under_edges(v, ms, os, s) && #[trigger] s.contains(x);
            assert(s.subset_of(live));
        }
    }
}

/// The active ids that can never be loaded because of cycles among the
/// load relations (`loadAfter` and `forceLoadAfter`) of the active mods;
/// `None` when there are none and no id is active twice. Each position of
/// `ids` stands for the mod at the same position of `order` (positions in
/// `mods`), the last position of an id giving its relations.
pub fn cycle_mods(ids: &[String], mods: &[ModMetaData], order: &[usize]) -> (r: Option<Vec<String>>)
    requires
        forall|k: int| 0 <= k < order.len() ==> #[trigger] order[k] < mods.len(),
    ensures
        r is None <==> (ids.deep_view().no_duplicates() && forall|x: Seq<char>|
            !in_load_cycle(ids.deep_view(), mods@, order@, x)),
        r matches Some(c) ==> c.deep_view().no_duplicates() && forall|x: Seq<char>|
            c.deep_view().contains(x) <==> in_load_cycle(ids.deep_view(), mods@, order@, x),
{
    let ghost v = ids.deep_view();
    let ghost ms = mods@;
    let ghost os = order@;
    let edges = edges_of(ids, mods, order);
    let (nodes, dup) = distinct_ids(ids);
    let ghost nv = nodes.deep_view();
    let alive = prune(ids, &edges, &nodes, Ghost(ms), Ghost(os));
    let ghost live = alive_set(nv, alive@);
    proof {
        lemma_left_is_stuck(v, ms, os, nv, alive@);
    }
    let stuck = collect_alive(&nodes, &alive);
    let ghost sv = stuck.deep_view();
    proof {
        assert forall|x: Seq<char>| sv.contains(x) <==> in_load_cycle(v, ms, os, x) by {
            assert(sv.contains(x) <==> sv.to_set().contains(x));
            assert(live.contains(x) <==> in_load_cycle(v, ms, os, x));
        }
    }
    if !dup && stuck.len() == 0 {
        proof {
            assert forall|x: Seq<char>| !in_load_cycle(v, ms, os, x) by {
                if in_load_cycle(v, ms, os, x) {
                    assert(sv.contains(x));
                }
            }
        }
        None
    } else {
        proof {
            if !dup {
                assert(sv.contains(sv[0]));
                assert(in_load_cycle(v, ms, os, sv[0]));
            }
        }
        Some(stuck)
    }
}

/// Only `loadAfter` and `forceLoadAfter` make cycles: an active id that no
/// active mod asks, by either of them, to load after (ignoring ASCII case) is
/// caught in no load cycle, whatever the mods' `loadBefore` lists say.
pub proof fn law_cycles_need_load_after(ids: Seq<Seq<char>>, mods: Seq<ModMetaData>, order: Seq<usize>, v: Seq<char>)
    requires
        forall|k: int, a: Seq<char>|
            0 <= k < order.len() && #[trigger] mods[order[k] as int].load_after@.contains(a) ==> lower_seq(a) != v,
        forall|k: int, a: Seq<char>|
            0 <= k < order.len() && #[trigger] mods[order[k] as int].force_load_after@.contains(a) ==> lower_seq(a)
                != v,
    ensures
        !in_load_cycle(ids, mods, order, v),
{
    reveal(load_edge);
    reveal(has_pred_in);
    if in_load_cycle(ids, mods, order, v) {
        let s = choose|s: Set<Seq<char>>| closed_under_edges(ids, mods, order, s) && #[trigger] s.contains(v);
        assert(has_pred_in(ids, mods, order, s, v));
        let u = choose|u: Seq<char>| s.contains(u) && load_edge(ids, mods, order, u, v);
        let idx = choose|idx: int|
            owns_edges(ids, order.len() as int, idx) && #[trigger] ids[idx] == u && after_targets(
                mods[order[idx] as int],
                ids,
            ).contains(v);
        let m = mods[order[idx] as int];
        let a = choose|a: Seq<char>|
            (m.load_after@.contains(a) || m.force_load_after@.contains(a)) && #[trigger] lower_seq(a) == v;
        if m.load_after@.contains(a) {
            assert(mods[order[idx] as int].load_after@.contains(a));
        } else {
            assert(mods[order[idx] as int].force_load_after@.contains(a));
        }
    }
}

} // verus!
