//! The issues of the active mods: missing dependencies, dependencies loaded
//! too late, and load relations the active list breaks.
use crate::collections::{lemma_empty_holds, StringMap};
use crate::game::mods::issue::{issue_rel, IssueView, ModIssue};
use crate::game::mods::meta::ModMetaData;
use crate::text::{lower_seq, to_ascii_lowercase};
use vstd::prelude::*;

verus! {

/// The items of `s` that `keep` keeps, each shown by `show`.
pub open spec fn pick(
    s: Seq<Seq<char>>,
    keep: spec_fn(Seq<char>) -> bool,
    show: spec_fn(Seq<char>) -> Seq<char>,
) -> Seq<Seq<char>>
    decreases s.len(),
{
    if s.len() == 0 {
        Seq::empty()
    } else {
        let r = pick(s.drop_last(), keep, show);
        if keep(s.last()) {
            r.push(show(s.last()))
        } else {
            r
        }
    }
}

/// The last position of `x` in `ids`, or -1.
pub open spec fn last_index(ids: Seq<Seq<char>>, x: Seq<char>) -> int
    decreases ids.len(),
{
    if ids.len() == 0 {
        -1
    } else if ids.last() == x {
        ids.len() - 1
    } else {
        last_index(ids.drop_last(), x)
    }
}

/// The last installed mod whose lower-case id is `id`.
pub open spec fn find_mod(mods: Seq<ModMetaData>, id: Seq<char>) -> Option<ModMetaData>
    decreases mods.len(),
{
    if mods.len() == 0 {
        None
    } else if lower_seq(mods.last().id@) == id {
        Some(mods.last())
    } else {
        find_mod(mods.drop_last(), id)
    }
}

/// The message for a mod `mod_id` that should load after `other` but does not.
pub open spec fn after_message(other: Seq<char>, mod_id: Seq<char>) -> Seq<char> {
    "Should load after '"@ + other + "', but '"@ + mod_id + "' comes after '"@ + other + "'"@
}

/// The message for a mod `mod_id` that should load before `other` but does not.
pub open spec fn before_message(other: Seq<char>, mod_id: Seq<char>) -> Seq<char> {
    "Should load before '"@ + other + "', but '"@ + mod_id + "' comes before '"@ + other + "'"@
}

/// A dependency that is not active.
pub open spec fn missing_rule(ids: Seq<Seq<char>>) -> spec_fn(Seq<char>) -> bool {
    |k: Seq<char>| !ids.contains(lower_seq(k))
}

/// A dependency that is active, last at a position after `idx`.
pub open spec fn late_rule(ids: Seq<Seq<char>>, idx: int) -> spec_fn(Seq<char>) -> bool {
    |k: Seq<char>| ids.contains(lower_seq(k)) && last_index(ids, lower_seq(k)) > idx
}

/// A mod to load after, active and last at a position after `at`.
pub open spec fn after_rule(ids: Seq<Seq<char>>, at: int) -> spec_fn(Seq<char>) -> bool {
    |a: Seq<char>| ids.contains(lower_seq(a)) && last_index(ids, lower_seq(a)) > at
}

/// A mod to load before, active and last at a position before `at`.
pub open spec fn before_rule(ids: Seq<Seq<char>>, at: int) -> spec_fn(Seq<char>) -> bool {
    |b: Seq<char>| ids.contains(lower_seq(b)) && last_index(ids, lower_seq(b)) < at
}

/// Text shown as it is.
pub open spec fn as_is() -> spec_fn(Seq<char>) -> Seq<char> {
    |k: Seq<char>| k
}

/// The issue of the active id at position `idx` of `ids`.
pub open spec fn issue_at(ids: Seq<Seq<char>>, mods: Seq<ModMetaData>, idx: int) -> IssueView {
    let mod_id = ids[idx];
    match find_mod(mods, mod_id) {
        None => (mod_id, Seq::empty(), Seq::empty(), Seq::empty()),
        Some(m) => {
            let keys = m.dependencies.key_seq();
            let at = last_index(ids, mod_id);
            (
                mod_id,
                pick(keys, missing_rule(ids), as_is()),
                pick(keys, late_rule(ids, idx), as_is()),
                pick(m.load_after@ + m.force_load_after@, after_rule(ids, at), |a: Seq<char>| after_message(a, mod_id))
                    + pick(
                    m.load_before@ + m.force_load_before@,
                    before_rule(ids, at),
                    |b: Seq<char>| before_message(b, mod_id),
                ),
            )
        },
    }
}

/// Whether an issue reports anything.
pub open spec fn reports(i: IssueView) -> bool {
    i.1.len() > 0 || i.2.len() > 0 || i.3.len() > 0
}

/// The issues of the first `n` active ids that report anything, each paired
/// with its id.
pub open spec fn issue_pairs(ids: Seq<Seq<char>>, mods: Seq<ModMetaData>, n: int) -> Seq<(Seq<char>, IssueView)>
    decreases n,
{
    if n <= 0 {
        Seq::empty()
    } else {
        let r = issue_pairs(ids, mods, n - 1);
        let i = issue_at(ids, mods, n - 1);
        if reports(i) {
            r.push((ids[n - 1], i))
        } else {
            r
        }
    }
}

/// The last position of `x` in `ids`, if it stands there.
fn last_position(ids: &[String], x: &str) -> (r: Option<usize>)
    ensures
        match r {
            None => last_index(ids.deep_view(), x@) == -1,
            Some(k) => k == last_index(ids.deep_view(), x@),
        },
{
    let ghost v = ids.deep_view();
    let mut i: usize = ids.len();
    assert(v.take(i as int) =~= v);
    while i > 0
        invariant
            i <= ids.len(),
            v == ids.deep_view(),
            last_index(v, x@) == last_index(v.take(i as int), x@),
        decreases i,
    {
        assert(v.take(i as int).drop_last() =~= v.take(i - 1));
        if crate::text::compare_chars(ids[i - 1].as_str(), x) == 0 {
            return Some(i - 1);
        }
        i = i - 1;
    }
    None
}

/// An id standing at `i` stands last at `i` or later, and never past the end.
proof fn lemma_last_index_bounds(ids: Seq<Seq<char>>, x: Seq<char>, i: int)
    ensures
        -1 <= last_index(ids, x) < ids.len(),
        0 <= i < ids.len() && ids[i] == x ==> i <= last_index(ids, x),
        last_index(ids, x) >= 0 ==> ids[last_index(ids, x)] == x,
        ids.contains(x) <==> last_index(ids, x) >= 0,
    decreases ids.len(),
{
    if ids.len() > 0 {
        lemma_last_index_bounds(ids.drop_last(), x, i);
        if ids.drop_last().contains(x) {
            let k = choose|k: int| 0 <= k < ids.drop_last().len() && ids.drop_last()[k] == x;
            assert(ids[k] == x);
        }
        if ids.contains(x) && ids.last() != x {
            let k = choose|k: int| 0 <= k < ids.len() && ids[k] == x;
            assert(ids.drop_last()[k] == x);
        }
    }
}

/// In a list without repeats, an id stands last where it stands.
pub proof fn lemma_last_index_at(ids: Seq<Seq<char>>, k: int)
    requires
        ids.no_duplicates(),
        0 <= k < ids.len(),
    ensures
        last_index(ids, ids[k]) == k,
        ids.contains(ids[k]),
{
    lemma_last_index_bounds(ids, ids[k], k);
    let l = last_index(ids, ids[k]);
    assert(ids[l] == ids[k]);
}

/// An item that `keep` keeps is shown in what `pick` gives.
pub proof fn lemma_pick_keeps(
    s: Seq<Seq<char>>,
    keep: spec_fn(Seq<char>) -> bool,
    show: spec_fn(Seq<char>) -> Seq<char>,
    j: int,
)
    requires
        0 <= j < s.len(),
        keep(s[j]),
    ensures
        pick(s, keep, show).contains(show(s[j])),
    decreases s.len(),
{
    let r = pick(s.drop_last(), keep, show);
    if j == s.len() - 1 {
        assert(pick(s, keep, show) == r.push(show(s.last())));
        assert(r.push(show(s.last()))[r.len() as int] == show(s[j]));
    } else {
        assert(s.drop_last()[j] == s[j]);
        lemma_pick_keeps(s.drop_last(), keep, show, j);
        let k = choose|k: int| 0 <= k < r.len() && r[k] == show(s[j]);
        if keep(s.last()) {
            assert(r.push(show(s.last()))[k] == show(s[j]));
        }
    }
}

/// What `pick` gives shows an item that `keep` keeps.
pub proof fn lemma_pick_source(
    s: Seq<Seq<char>>,
    keep: spec_fn(Seq<char>) -> bool,
    show: spec_fn(Seq<char>) -> Seq<char>,
    y: Seq<char>,
)
    requires
        pick(s, keep, show).contains(y),
    ensures
        exists|j: int| 0 <= j < s.len() && keep(s[j]) && show(s[j]) == y,
    decreases s.len(),
{
    let r = pick(s.drop_last(), keep, show);
    let k = choose|k: int| 0 <= k < pick(s, keep, show).len() && pick(s, keep, show)[k] == y;
    if keep(s.last()) && k == r.len() {
        assert(keep(s[s.len() - 1]) && show(s[s.len() - 1]) == y);
    } else {
        if keep(s.last()) {
            assert(r.push(show(s.last()))[k] == r[k]);
        }
        assert(r.contains(y));
        lemma_pick_source(s.drop_last(), keep, show, y);
        let j = choose|j: int| 0 <= j < s.drop_last().len() && keep(s.drop_last()[j]) && show(s.drop_last()[j]) == y;
        assert(s[j] == s.drop_last()[j]);
    }
}

/// The message for a broken relation names the related id: two messages for
/// the same mod and kind of relation are equal only for the same id, and a
/// message for a mod to load after is never one for a mod to load before.
pub proof fn lemma_messages_distinct(o1: Seq<char>, o2: Seq<char>, x: Seq<char>)
    ensures
        before_message(o1, x) == before_message(o2, x) ==> o1 == o2,
        after_message(o1, x) == after_message(o2, x) ==> o1 == o2,
        after_message(o1, x) != before_message(o2, x),
{
    reveal_strlit("Should load after '");
    reveal_strlit("Should load before '");
    reveal_strlit("', but '");
    reveal_strlit("' comes after '");
    reveal_strlit("' comes before '");
    reveal_strlit("'");
    let b1 = before_message(o1, x);
    let b2 = before_message(o2, x);
    assert("Should load before '"@.len() == 20);
    assert("Should load after '"@.len() == 19);
    assert("', but '"@.len() == 8);
    assert("' comes after '"@.len() == 15);
    assert("' comes before '"@.len() == 16);
    assert("'"@.len() == 1);
    assert(b1.len() == 45 + 2 * o1.len() + x.len());
    assert(b2.len() == 45 + 2 * o2.len() + x.len());
    if b1 == b2 {
        assert(o1.len() == o2.len());
        assert(b1.subrange(20, 20 + o1.len() as int) =~= o1);
        assert(b2.subrange(20, 20 + o2.len() as int) =~= o2);
    }
    let a1 = after_message(o1, x);
    let a2 = after_message(o2, x);
    assert(a1.len() == 43 + 2 * o1.len() + x.len());
    assert(a2.len() == 43 + 2 * o2.len() + x.len());
    if a1 == a2 {
        assert(o1.len() == o2.len());
        assert(a1.subrange(19, 19 + o1.len() as int) =~= o1);
        assert(a2.subrange(19, 19 + o2.len() as int) =~= o2);
    }
    assert(a1[12] == 'a');
    assert(b2[12] == 'b');
}

/// The regular issues of ids without repeats hold the id at `idx` exactly
/// when its issue reports something, and then hold that issue.
pub proof fn lemma_issue_pairs_at(ids: Seq<Seq<char>>, mods: Seq<ModMetaData>, n: int, idx: int)
    requires
        ids.no_duplicates(),
        0 <= idx < ids.len(),
        0 <= n <= ids.len(),
    ensures
        crate::collections::pair_keys(issue_pairs(ids, mods, n)).contains(ids[idx]) <==> (idx < n && reports(
            issue_at(ids, mods, idx),
        )),
        idx < n && reports(issue_at(ids, mods, idx)) ==> crate::collections::last_value(issue_pairs(ids, mods, n), ids[idx])
            == issue_at(ids, mods, idx),
    decreases n,
{
    let f = |p: (Seq<char>, IssueView)| p.0;
    if n == 0 {
        assert(issue_pairs(ids, mods, 0).map_values(f) =~= Seq::<Seq<char>>::empty());
    } else {
        lemma_issue_pairs_at(ids, mods, n - 1, idx);
        let r = issue_pairs(ids, mods, n - 1);
        let i = issue_at(ids, mods, n - 1);
        if reports(i) {
            let pr = r.push((ids[n - 1], i));
            assert(pr.map_values(f) =~= r.map_values(f).push(ids[n - 1]));
            r.map_values(f).lemma_push_to_set_commute(ids[n - 1]);
            assert(pr.drop_last() =~= r);
            if idx != n - 1 {
                assert(ids[idx] != ids[n - 1]);
            }
        }
    }
}

/// The last installed mod whose lower-case id is `id`, as a position in `mods`.
fn find_mod_index(mods: &[ModMetaData], id: &str) -> (r: Option<usize>)
    ensures
        match find_mod(mods@, id@) {
            None => r is None,
            Some(m) => r matches Some(k) && k < mods.len() && mods@[k as int] == m,
        },
{
    let mut i: usize = mods.len();
    assert(mods@.take(i as int) =~= mods@);
    while i > 0
        invariant
            i <= mods.len(),
            find_mod(mods@, id@) == find_mod(mods@.take(i as int), id@),
        decreases i,
    {
        assert(mods@.take(i as int).drop_last() =~= mods@.take(i - 1));
        let lower = to_ascii_lowercase(mods[i - 1].id.as_str());
        if crate::text::compare_chars(lower.as_str(), id) == 0 {
            return Some(i - 1);
        }
        i = i - 1;
    }
    None
}

proof fn lemma_pick_append(
    a: Seq<Seq<char>>,
    b: Seq<Seq<char>>,
    keep: spec_fn(Seq<char>) -> bool,
    show: spec_fn(Seq<char>) -> Seq<char>,
)
    ensures
        pick(a + b, keep, show) == pick(a, keep, show) + pick(b, keep, show),
    decreases b.len(),
{
    if b.len() == 0 {
        assert(a + b =~= a);
        assert(pick(a, keep, show) + pick(b, keep, show) =~= pick(a, keep, show));
    } else {
        assert((a + b).drop_last() =~= a + b.drop_last());
        assert((a + b).last() == b.last());
        lemma_pick_append(a, b.drop_last(), keep, show);
        if keep(b.last()) {
            assert(pick(a, keep, show) + pick(b.drop_last(), keep, show).push(show(b.last())) =~= (pick(a, keep, show)
                + pick(b.drop_last(), keep, show)).push(show(b.last())));
        }
    }
}

/// The dependencies among `keys` that are not active, and those that are
/// active but last at a position after `idx`.
fn dependency_issues(keys: &[String], ids: &[String], idx: usize) -> (r: (Vec<String>, Vec<String>))
    requires
        idx < ids.len(),
    ensures
        r.0.deep_view() == pick(keys.deep_view(), missing_rule(ids.deep_view()), as_is()),
        r.1.deep_view() == pick(keys.deep_view(), late_rule(ids.deep_view(), idx as int), as_is()),
{
    let ghost kv = keys.deep_view();
    let ghost v = ids.deep_view();
    let mut missing: Vec<String> = Vec::new();
    let mut late: Vec<String> = Vec::new();
    let mut i: usize = 0;
    assert(missing.deep_view() =~= pick(kv.take(0), missing_rule(v), as_is()));
    assert(late.deep_view() =~= pick(kv.take(0), late_rule(v, idx as int), as_is()));
    while i < keys.len()
        invariant
            i <= keys.len(),
            kv == keys.deep_view(),
            v == ids.deep_view(),
            idx < ids.len(),
            missing.deep_view() == pick(kv.take(i as int), missing_rule(v), as_is()),
            late.deep_view() == pick(kv.take(i as int), late_rule(v, idx as int), as_is()),
        decreases keys.len() - i,
    {
        assert(kv.take(i + 1).drop_last() =~= kv.take(i as int));
        assert(kv.take(i + 1).last() == kv[i as int]);
        let lower = to_ascii_lowercase(keys[i].as_str());
        let ghost m0 = missing.deep_view();
        let ghost l0 = late.deep_view();
        if crate::collections::find_string(ids, lower.as_str()).is_none() {
            missing.push(keys[i].clone());
            assert(missing.deep_view() =~= m0.push(kv[i as int]));
        } else {
            proof {
                lemma_last_index_bounds(v, lower@, 0);
            }
            match last_position(ids, lower.as_str()) {
                Some(last) => {
                    if last > idx {
                        late.push(keys[i].clone());
                        assert(late.deep_view() =~= l0.push(kv[i as int]));
                    }
                },
                None => {},
            }
        }
        i = i + 1;
    }
    assert(kv.take(keys.len() as int) =~= kv);
    (missing, late)
}

/// The message for a mod `mod_id` that should load after (or before) `other`.
fn relation_message(other: &str, mod_id: &str, after: bool) -> (r: String)
    ensures
        r@ == if after {
            after_message(other@, mod_id@)
        } else {
            before_message(other@, mod_id@)
        },
{
    let mut m = if after {
        String::from_str("Should load after '")
    } else {
        String::from_str("Should load before '")
    };
    m.append(other);
    m.append("', but '");
    m.append(mod_id);
    if after {
        m.append("' comes after '");
    } else {
        m.append("' comes before '");
    }
    m.append(other);
    m.append("'");
    m
}

/// The load relation is broken: `after_rule` or `before_rule`.
pub open spec fn broken_rule(ids: Seq<Seq<char>>, at: int, after: bool) -> spec_fn(Seq<char>) -> bool {
    if after {
        after_rule(ids, at)
    } else {
        before_rule(ids, at)
    }
}

/// The message for a broken relation of `mod_id`.
pub open spec fn broken_message(mod_id: Seq<char>, after: bool) -> spec_fn(Seq<char>) -> Seq<char> {
    if after {
        |a: Seq<char>| after_message(a, mod_id)
    } else {
        |b: Seq<char>| before_message(b, mod_id)
    }
}

/// Adds the messages for the relations of `list` that the active list breaks.
fn add_violations(out: &mut Vec<String>, list: &[String], ids: &[String], at: usize, mod_id: &str, after: bool)
    ensures
        final(out).deep_view() == old(out).deep_view() + pick(
            list.deep_view(),
            broken_rule(ids.deep_view(), at as int, after),
            broken_message(mod_id@, after),
        ),
{
    let ghost lv = list.deep_view();
    let ghost v = ids.deep_view();
    let ghost start = out.deep_view();
    let ghost keep = broken_rule(v, at as int, after);
    let ghost show = broken_message(mod_id@, after);
    let mut i: usize = 0;
    assert(out.deep_view() =~= start + pick(lv.take(0), keep, show));
    while i < list.len()
        invariant
            i <= list.len(),
            lv == list.deep_view(),
            v == ids.deep_view(),
            keep == broken_rule(v, at as int, after),
            show == broken_message(mod_id@, after),
            out.deep_view() == start + pick(lv.take(i as int), keep, show),
        decreases list.len() - i,
    {
        assert(lv.take(i + 1).drop_last() =~= lv.take(i as int));
        assert(lv.take(i + 1).last() == lv[i as int]);
        let lower = to_ascii_lowercase(list[i].as_str());
        let ghost o0 = out.deep_view();
        proof {
            lemma_last_index_bounds(v, lower@, 0);
        }
        if crate::collections::find_string(ids, lower.as_str()).is_some() {
            let last = last_position(ids, lower.as_str()).unwrap();
            let broken = if after {
                last > at
            } else {
                last < at
            };
            if broken {
                let msg = relation_message(list[i].as_str(), mod_id, after);
                out.push(msg);
                assert(out.deep_view() =~= o0.push(msg@));
            }
        }
        i = i + 1;
    }
    assert(lv.take(list.len() as int) =~= lv);
}

/// The issue of the active id at position `idx`.
fn issue_for(ids: &[String], mods: &[ModMetaData], idx: usize) -> (r: ModIssue)
    requires
        idx < ids.len(),
    ensures
        r.view_of() == issue_at(ids.deep_view(), mods@, idx as int),
{
    let ghost v = ids.deep_view();
    let mod_id = ids[idx].clone();
    match find_mod_index(mods, mod_id.as_str()) {
        None => {
            let r = ModIssue {
                mod_id,
                missing_dependencies: Vec::new(),
                dependencies_after: Vec::new(),
                load_order_violations: Vec::new(),
            };
            assert(r.missing_dependencies.deep_view() =~= Seq::<Seq<char>>::empty());
            assert(r.dependencies_after.deep_view() =~= Seq::<Seq<char>>::empty());
            assert(r.load_order_violations.deep_view() =~= Seq::<Seq<char>>::empty());
            r
        },
        Some(k) => {
            let m = &mods[k];
            let (missing, late) = dependency_issues(m.dependencies.keys(), ids, idx);
            proof {
                lemma_last_index_bounds(v, mod_id@, idx as int);
            }
            let at = last_position(ids, mod_id.as_str()).unwrap();
            let mut violations: Vec<String> = Vec::new();
            assert(violations.deep_view() =~= Seq::<Seq<char>>::empty());
            add_violations(&mut violations, m.load_after.as_slice(), ids, at, mod_id.as_str(), true);
            add_violations(&mut violations, m.force_load_after.as_slice(), ids, at, mod_id.as_str(), true);
            add_violations(&mut violations, m.load_before.as_slice(), ids, at, mod_id.as_str(), false);
            add_violations(&mut violations, m.force_load_before.as_slice(), ids, at, mod_id.as_str(), false);
            proof {
                let ms = mods@[k as int];
                lemma_pick_append(
                    ms.load_after@,
                    ms.force_load_after@,
                    broken_rule(v, at as int, true),
                    broken_message(mod_id@, true),
                );
                lemma_pick_append(
                    ms.load_before@,
                    ms.force_load_before@,
                    broken_rule(v, at as int, false),
                    broken_message(mod_id@, false),
                );
                assert(Seq::<Seq<char>>::empty() + pick(ms.load_after@, broken_rule(v, at as int, true), broken_message(mod_id@, true))
                    =~= pick(ms.load_after@, broken_rule(v, at as int, true), broken_message(mod_id@, true)));
            }
            let r = ModIssue {
                mod_id,
                missing_dependencies: missing,
                dependencies_after: late,
                load_order_violations: violations,
            };
            assert(r.load_order_violations.deep_view() =~= issue_at(v, mods@, idx as int).3);
            r
        },
    }
}

/// The issues of the active mods, keyed by their lower-case ids: for each
/// active id whose mod is installed, the dependencies that are not active,
/// those active only after it, and the load relations the active list
/// breaks. Ids without any issue get no entry.
pub fn regular_issues(ids: &[String], mods: &[ModMetaData]) -> (r: StringMap<ModIssue>)
    ensures
        r.holds_pairs(issue_pairs(ids.deep_view(), mods@, ids.len() as int), issue_rel()),
{
    let ghost v = ids.deep_view();
    let mut issues: StringMap<ModIssue> = StringMap::new();
    proof {
        lemma_empty_holds(issues, issue_rel());
    }
    let mut idx: usize = 0;
    while idx < ids.len()
        invariant
            idx <= ids.len(),
            v == ids.deep_view(),
            issues.holds_pairs(issue_pairs(v, mods@, idx as int), issue_rel()),
        decreases ids.len() - idx,
    {
        let issue = issue_for(ids, mods, idx);
        if issue.missing_dependencies.len() > 0 || issue.dependencies_after.len() > 0
            || issue.load_order_violations.len() > 0 {
            let ghost w = issue.view_of();
            issues.insert_pair(ids[idx].clone(), issue, Ghost(issue_pairs(v, mods@, idx as int)), Ghost(w), Ghost(issue_rel()));
        }
        idx = idx + 1;
    }
    issues
}

/// The text of the issue of a mod caught in a load order cycle.
pub open spec fn cycle_message() -> Seq<char> {
    "Cycle detected in mod load order involving this mod"@
}

/// The issue of a mod caught in a load order cycle.
pub open spec fn cycle_issue(id: Seq<char>) -> IssueView {
    (id, Seq::empty(), Seq::empty(), seq![cycle_message()])
}

/// The given ids, each paired with its cycle issue.
pub open spec fn cycle_pairs(ids: Seq<Seq<char>>) -> Seq<(Seq<char>, IssueView)>
    decreases ids.len(),
{
    if ids.len() == 0 {
        Seq::empty()
    } else {
        cycle_pairs(ids.drop_last()).push((ids.last(), cycle_issue(ids.last())))
    }
}

/// The issues of the mods caught in a load order cycle: one message each.
pub fn cycle_issues(cycle: &[String]) -> (r: StringMap<ModIssue>)
    ensures
        r.holds_pairs(cycle_pairs(cycle.deep_view()), issue_rel()),
{
    let ghost v = cycle.deep_view();
    let mut issues: StringMap<ModIssue> = StringMap::new();
    proof {
        lemma_empty_holds(issues, issue_rel());
    }
    let mut i: usize = 0;
    assert(v.take(0) =~= Seq::<Seq<char>>::empty());
    while i < cycle.len()
        invariant
            i <= cycle.len(),
            v == cycle.deep_view(),
            issues.holds_pairs(cycle_pairs(v.take(i as int)), issue_rel()),
        decreases cycle.len() - i,
    {
        assert(v.take(i + 1).drop_last() =~= v.take(i as int));
        let mut violations: Vec<String> = Vec::new();
        violations.push(String::from_str("Cycle detected in mod load order involving this mod"));
        let issue = ModIssue {
            mod_id: cycle[i].clone(),
            missing_dependencies: Vec::new(),
            dependencies_after: Vec::new(),
            load_order_violations: violations,
        };
        assert(issue.view_of() =~= cycle_issue(v[i as int]));
        let ghost w = issue.view_of();
        issues.insert_pair(cycle[i].clone(), issue, Ghost(cycle_pairs(v.take(i as int))), Ghost(w), Ghost(issue_rel()));
        i = i + 1;
    }
    assert(v.take(cycle.len() as int) =~= v);
    issues
}

/// The keys of the cycle pairs are the given ids, and each holds its cycle issue.
pub proof fn lemma_cycle_pairs(ids: Seq<Seq<char>>)
    ensures
        crate::collections::pair_keys(cycle_pairs(ids)) == ids.to_set(),
        forall|k: Seq<char>| ids.contains(k) ==> #[trigger] crate::collections::last_value(cycle_pairs(ids), k) == cycle_issue(k),
    decreases ids.len(),
{
    let f = |p: (Seq<char>, IssueView)| p.0;
    if ids.len() == 0 {
        assert(cycle_pairs(ids).map_values(f) =~= Seq::<Seq<char>>::empty());
        assert(ids.to_set() =~= Set::<Seq<char>>::empty());
    } else {
        let d = ids.drop_last();
        lemma_cycle_pairs(d);
        let p = cycle_pairs(d);
        assert(cycle_pairs(ids).map_values(f) =~= p.map_values(f).push(ids.last()));
        p.map_values(f).lemma_push_to_set_commute(ids.last());
        assert(ids =~= d.push(ids.last()));
        d.lemma_push_to_set_commute(ids.last());
        assert(cycle_pairs(ids).drop_last() =~= p);
        assert forall|k: Seq<char>| ids.contains(k) implies #[trigger] crate::collections::last_value(cycle_pairs(ids), k)
            == cycle_issue(k) by {
            assert(cycle_pairs(ids).last() == (ids.last(), cycle_issue(ids.last())));
            if k != ids.last() {
                let i = choose|i: int| 0 <= i < ids.len() && ids[i] == k;
                assert(i != ids.len() - 1);
                assert(d[i] == k);
                assert(d.contains(k));
                assert(crate::collections::last_value(cycle_pairs(d), k) == cycle_issue(k));
                assert(crate::collections::last_value(cycle_pairs(ids), k) == crate::collections::last_value(
                    cycle_pairs(ids).drop_last(),
                    k,
                ));
            }
        }
    }
}

} // verus!
