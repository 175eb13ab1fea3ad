//! Putting freshly read mods together: the names of official mods, the ids
//! of Steam copies of local mods, and the order the mods are listed in.
use crate::collections::{arranged_by, lemma_arranged_move};
use crate::game::mods::meta::{ModMetaData, Source};
use crate::text::{eq_ignore_ascii_case, eq_ignore_case, seq_less, split_char, split_seq};
use vstd::prelude::*;

verus! {

/// The name an official mod is shown under: the last dot-separated part of
/// its id, `Core` for the part `rimworld` (in any case).
pub open spec fn official_name(id: Seq<char>) -> Seq<char> {
    let last = split_seq(id, '.').last();
    if eq_ignore_case(last, "rimworld"@) {
        "Core"@
    } else {
        last
    }
}

proof fn lemma_split_nonempty(s: Seq<char>, sep: char, cur: Seq<char>)
    ensures
        crate::text::split_from(s, sep, cur).len() > 0,
    decreases s.len(),
{
    if s.len() > 0 {
        if s[0] == sep {
            lemma_split_nonempty(s.drop_first(), sep, Seq::empty());
        } else {
            lemma_split_nonempty(s.drop_first(), sep, cur.push(s[0]));
        }
    }
}

/// The name an official mod with id `id` is shown under.
pub fn official_mod_name(id: &str) -> (r: String)
    ensures
        r@ == official_name(id@),
{
    let parts = split_char(id, '.');
    proof {
        lemma_split_nonempty(id@, '.', Seq::empty());
    }
    let last = &parts[parts.len() - 1];
    if eq_ignore_ascii_case(last.as_str(), "rimworld") {
        String::from_str("Core")
    } else {
        last.clone()
    }
}

/// Names the official mods as `official_name` says.
pub fn name_official_mods(mods: &mut Vec<ModMetaData>)
    ensures
        final(mods)@.len() == old(mods)@.len(),
        forall|i: int|
            0 <= i < final(mods)@.len() ==> {
                let (a, b) = (#[trigger] final(mods)@[i], old(mods)@[i]);
                a.name@ == official_name(b.id@) && a == (ModMetaData { name: a.name, ..b })
            },
{
    let mut i: usize = 0;
    while i < mods.len()
        invariant
            i <= mods.len(),
            mods@.len() == old(mods)@.len(),
            forall|k: int|
                0 <= k < i ==> {
                    let (a, b) = (#[trigger] mods@[k], old(mods)@[k]);
                    a.name@ == official_name(b.id@) && a == (ModMetaData { name: a.name, ..b })
                },
            forall|k: int| i <= k < mods@.len() ==> #[trigger] mods@[k] == old(mods)@[k],
        decreases mods.len() - i,
    {
        let mut m = mods.remove(i);
        m.name = official_mod_name(m.id.as_str());
        mods.insert(i, m);
        i = i + 1;
    }
}

/// Whether some mod of `mods` is a local mod with the id `id`.
pub open spec fn has_local_copy(mods: Seq<ModMetaData>, id: Seq<char>) -> bool {
    exists|k: int| 0 <= k < mods.len() && mods[k].source == Source::Local && #[trigger] mods[k].id@ == id
}

fn local_copy_exists(mods: &Vec<ModMetaData>, id: &str) -> (r: bool)
    ensures
        r == has_local_copy(mods@, id@),
{
    let mut k: usize = 0;
    while k < mods.len()
        invariant
            k <= mods.len(),
            forall|j: int| 0 <= j < k ==> !(mods@[j].source == Source::Local && #[trigger] mods@[j].id@ == id@),
        decreases mods.len() - k,
    {
        if mods[k].is_local() && crate::text::compare_chars(mods[k].id.as_str(), id) == 0 {
            return true;
        }
        k = k + 1;
    }
    false
}

/// The id of a Steam mod next to `known`: `_steam` is appended when a local
/// mod has the same id, so that both can be told apart.
pub open spec fn steam_id(known: Seq<ModMetaData>, id: Seq<char>) -> Seq<char> {
    if has_local_copy(known, id) {
        id + "_steam"@
    } else {
        id
    }
}

/// Renames the Steam mods that have a local copy among `known`.
pub fn rename_steam_copies(steam: &mut Vec<ModMetaData>, known: &Vec<ModMetaData>)
    ensures
        final(steam)@.len() == old(steam)@.len(),
        forall|i: int|
            0 <= i < final(steam)@.len() ==> {
                let (a, b) = (#[trigger] final(steam)@[i], old(steam)@[i]);
                a.id@ == steam_id(known@, b.id@) && a == (ModMetaData { id: a.id, ..b })
            },
{
    let mut i: usize = 0;
    while i < steam.len()
        invariant
            i <= steam.len(),
            steam@.len() == old(steam)@.len(),
            forall|k: int|
                0 <= k < i ==> {
                    let (a, b) = (#[trigger] steam@[k], old(steam)@[k]);
                    a.id@ == steam_id(known@, b.id@) && a == (ModMetaData { id: a.id, ..b })
                },
            forall|k: int| i <= k < steam@.len() ==> #[trigger] steam@[k] == old(steam)@[k],
        decreases steam.len() - i,
    {
        let mut m = steam.remove(i);
        if local_copy_exists(known, m.id.as_str()) {
            m.id.append("_steam");
        }
        steam.insert(i, m);
        i = i + 1;
    }
}

/// The order mods are listed in: by name, then by id.
pub open spec fn name_id_less(a: ModMetaData, b: ModMetaData) -> bool {
    seq_less(a.name@, b.name@) || (a.name@ == b.name@ && seq_less(a.id@, b.id@))
}

proof fn lemma_name_id_order(a: ModMetaData, b: ModMetaData, c: ModMetaData)
    ensures
        name_id_less(a, b) ==> !name_id_less(b, a),
        !name_id_less(a, b) ==> !name_id_less(b, a) || name_id_less(b, a),
        name_id_less(a, b) && name_id_less(b, c) ==> name_id_less(a, c),
        !name_id_less(b, a) && !name_id_less(c, b) ==> !name_id_less(c, a),
{
    crate::text::lemma_less_trichotomy(a.name@, b.name@);
    crate::text::lemma_less_trichotomy(b.name@, c.name@);
    crate::text::lemma_less_trichotomy(a.name@, c.name@);
    crate::text::lemma_less_trichotomy(a.id@, b.id@);
    crate::text::lemma_less_trichotomy(b.id@, c.id@);
    crate::text::lemma_less_trichotomy(a.id@, c.id@);
    if seq_less(a.name@, b.name@) && seq_less(b.name@, c.name@) {
        crate::text::lemma_less_transitive(a.name@, b.name@, c.name@);
    }
    if seq_less(c.name@, b.name@) && seq_less(b.name@, a.name@) {
        crate::text::lemma_less_transitive(c.name@, b.name@, a.name@);
    }
    if seq_less(a.id@, b.id@) && seq_less(b.id@, c.id@) {
        crate::text::lemma_less_transitive(a.id@, b.id@, c.id@);
    }
    if seq_less(c.id@, b.id@) && seq_less(b.id@, a.id@) {
        crate::text::lemma_less_transitive(c.id@, b.id@, a.id@);
    }
}

fn name_id_less_exec(a: &ModMetaData, b: &ModMetaData) -> (r: bool)
    ensures
        r == name_id_less(*a, *b),
{
    let c = crate::text::compare_chars(a.name.as_str(), b.name.as_str());
    if c != 0 {
        return c == -1;
    }
    crate::text::compare_chars(a.id.as_str(), b.id.as_str()) == -1
}

/// The mods of `old`, arranged by `p`, where a mod stands before one that
/// stood before it in `old` only when it is less by name, then id: mods
/// with the same name and id keep their order.
pub open spec fn keeps_name_ties(new: Seq<ModMetaData>, old: Seq<ModMetaData>, p: Seq<int>) -> bool {
    &&& arranged_by(new, old, p)
    &&& forall|a: int, b: int|
        #![trigger p[a], p[b]]
        0 <= a < b < new.len() && p[b] < p[a] ==> name_id_less(new[a], new[b])
}

/// Sorts the mods by name, then by id, keeping the order of mods with the
/// same name and id (an insertion sort).
pub fn sort_by_name(mods: &mut Vec<ModMetaData>)
    ensures
        final(mods)@.to_multiset() == old(mods)@.to_multiset(),
        final(mods)@.len() == old(mods)@.len(),
        forall|i: int, j: int| 0 <= i < j < final(mods)@.len() ==> !name_id_less(final(mods)@[j], final(mods)@[i]),
        exists|p: Seq<int>| #[trigger] keeps_name_ties(final(mods)@, old(mods)@, p),
{
    broadcast use vstd::seq_lib::to_multiset_remove, vstd::seq_lib::to_multiset_insert;

    let ghost mut perm: Seq<int> = Seq::new(mods@.len(), |k: int| k);
    let mut i: usize = 1;
    if mods.len() == 0 {
        assert(keeps_name_ties(mods@, old(mods)@, perm));
        return;
    }
    while i < mods.len()
        invariant
            1 <= i <= mods.len(),
            mods@.len() == old(mods)@.len(),
            mods@.to_multiset() == old(mods)@.to_multiset(),
            forall|a: int, b: int| 0 <= a < b < i ==> !name_id_less(mods@[b], mods@[a]),
            arranged_by(mods@, old(mods)@, perm),
            forall|k: int| i <= k < perm.len() ==> #[trigger] perm[k] == k,
            forall|k: int| 0 <= k < i ==> #[trigger] perm[k] < i,
            forall|a: int, b: int|
                #![trigger perm[a], perm[b]]
                0 <= a < b < i && perm[b] < perm[a] ==> name_id_less(mods@[a], mods@[b]),
        decreases mods.len() - i,
    {
        let ghost s0 = mods@;
        let ghost perm0 = perm;
        let x = mods.remove(i);
        let ghost s1 = mods@;
        let mut p: usize = i;
        while p > 0 && name_id_less_exec(&x, &mods[p - 1])
            invariant
                p <= i,
                i <= mods@.len(),
                mods@ == s1,
                forall|k: int| p <= k < i ==> name_id_less(x, #[trigger] s1[k]),
            decreases p,
        {
            p = p - 1;
        }
        proof {
            lemma_arranged_move(s0, old(mods)@, perm0, i as int, p as int);
            assert(s0.remove(i as int) =~= s1);
            perm = perm0.remove(i as int).insert(p as int, perm0[i as int]);
            assert forall|k: int| i + 1 <= k < perm.len() implies #[trigger] perm[k] == k by {
                assert(perm[k] == perm0[k]);
            }
            assert forall|k: int| 0 <= k < i + 1 implies #[trigger] perm[k] < i + 1 by {
                if k < p {
                    assert(perm[k] == perm0[k]);
                } else if k > p {
                    assert(perm[k] == perm0[k - 1]);
                }
            }
            assert forall|a: int, b: int|
                #![trigger perm[a], perm[b]]
                0 <= a < b < i + 1 && perm[b] < perm[a] implies name_id_less(
                s1.insert(p as int, x)[a],
                s1.insert(p as int, x)[b],
            ) by {
                let t = s1.insert(p as int, x);
                if a == p {
                    assert(t[b] == s1[b - 1]);
                } else if b == p {
                    assert(perm[b] == i);
                    assert(perm[a] < i + 1);
                    assert(perm0[a] < i);
                } else {
                    let oa = if a < p { a } else { a - 1 };
                    let ob = if b < p { b } else { b - 1 };
                    assert(perm[a] == perm0[oa] && perm[b] == perm0[ob]);
                    assert(t[a] == s0[oa] && t[b] == s0[ob]);
                }
            }
        }
        proof {
            if p > 0 {
                assert(!name_id_less(x, s1[p - 1]));
            }
            assert forall|a: int| 0 <= a < p implies !name_id_less(x, #[trigger] s1[a]) by {
                if a < p - 1 {
                    lemma_name_id_order(s1[a], s1[p - 1], x);
                    lemma_name_id_order(x, s1[p - 1], s1[a]);
                    assert(!name_id_less(s1[p - 1], s1[a]));
                }
            }
        }
        mods.insert(p, x);
        proof {
            assert(mods@ =~= s1.insert(p as int, x));
            assert(s0.remove(i as int) == s1);
            assert(s0[i as int] == x);
            vstd::seq_lib::to_multiset_insert(s1, p as int, x);
            vstd::seq_lib::to_multiset_remove(s0, i as int);
            assert(mods@.to_multiset() == s1.to_multiset().insert(x));
            assert(s1.to_multiset() == s0.to_multiset().remove(x));
            assert(s0.to_multiset().count(x) > 0) by {
                broadcast use vstd::seq_lib::to_multiset_contains;

                assert(s0.contains(x));
            }
            assert(mods@.to_multiset() =~= s0.to_multiset()) by {
                broadcast use vstd::multiset::group_multiset_axioms;

            }
            assert forall|a: int, b: int| 0 <= a < b < i + 1 implies !name_id_less(mods@[b], mods@[a]) by {
                if b < p {
                } else if b == p {
                    assert(mods@[a] == s1[a]);
                } else if a < p {
                    assert(mods@[b] == s1[b - 1]);
                    lemma_name_id_order(s1[a], x, s1[b - 1]);
                    lemma_name_id_order(s1[b - 1], x, s1[a]);
                } else if a == p {
                    assert(mods@[b] == s1[b - 1]);
                    lemma_name_id_order(x, s1[b - 1], x);
                } else {
                    assert(mods@[a] == s1[a - 1]);
                    assert(mods@[b] == s1[b - 1]);
                }
            }
        }
        i = i + 1;
    }
    assert(keeps_name_ties(mods@, old(mods)@, perm));
}

} // verus!
