//! The two mod lists and how a search narrows them.
use crate::game::mods::meta::ModMetaData;
use crate::text::{decimal, decimal_string};
use vstd::prelude::*;

verus! {

/// Which of the two mod lists.
#[derive(Debug, Clone, Copy, PartialEq, Eq, Structural)]
pub enum ModListType {
    Active,
    Inactive,
}

/// The count a list's header shows: the number of mods, or, when a search
/// hides some, the number shown, `" / "` and the number in the list.
pub open spec fn count_text(shown: nat, total: nat) -> Seq<char> {
    if shown == total {
        decimal(total)
    } else {
        decimal(shown) + " / "@ + decimal(total)
    }
}

/// The count shown in a list's header for `shown` of `total` mods.
pub fn count_label(shown: usize, total: usize) -> (r: String)
    ensures
        r@ == count_text(shown as nat, total as nat),
{
    proof {
        reveal_strlit(" / ");
    }
    if shown == total {
        decimal_string(total as u128)
    } else {
        let mut s = decimal_string(shown as u128);
        s.append(" / ");
        let t = decimal_string(total as u128);
        s.append(t.as_str());
        s
    }
}

/// The title of each list.
pub open spec fn list_label(t: ModListType) -> Seq<char> {
    match t {
        ModListType::Active => "Active"@,
        ModListType::Inactive => "Inactive"@,
    }
}

impl ModListType {
    /// The title of the list.
    pub fn label(&self) -> (r: &'static str)
        ensures
            r@ == list_label(*self),
    {
        match self {
            ModListType::Active => "Active",
            ModListType::Inactive => "Inactive",
        }
    }
}

/// `needle` stands somewhere in `hay`.
pub open spec fn contains_text(hay: Seq<char>, needle: Seq<char>) -> bool {
    exists|i: int| 0 <= i && i + needle.len() <= hay.len() && #[trigger] hay.subrange(i, i + needle.len()) == needle
}

/// Whether `needle` stands somewhere in `hay` (as `str::contains`).
pub fn contains_str(hay: &str, needle: &str) -> (r: bool)
    ensures
        r == contains_text(hay@, needle@),
{
    let n = hay.unicode_len();
    let m = needle.unicode_len();
    if m == 0 {
        assert(hay@.subrange(0int, 0int + needle@.len()) =~= needle@);
        return true;
    }
    if m > n {
        return false;
    }
    let mut i: usize = 0;
    while i <= n - m
        invariant
            n == hay@.len(),
            m == needle@.len(),
            1 <= m <= n,
            i <= n - m + 1,
            forall|k: int| 0 <= k < i ==> #[trigger] hay@.subrange(k, k + m) != needle@,
        decreases n - m + 1 - i,
    {
        let mut j: usize = 0;
        assert(hay@.subrange(i as int, i as int) =~= needle@.subrange(0, 0));
        while j < m && hay.get_char(i + j) == needle.get_char(j)
            invariant
                n == hay@.len(),
                m == needle@.len(),
                i + m <= n,
                j <= m,
                hay@.subrange(i as int, i + j) == needle@.subrange(0, j as int),
            decreases m - j,
        {
            assert(hay@.subrange(i as int, i + j + 1) =~= hay@.subrange(i as int, i + j).push(hay@[i + j]));
            assert(needle@.subrange(0, j + 1) =~= needle@.subrange(0, j as int).push(needle@[j as int]));
            j = j + 1;
        }
        if j == m {
            assert(needle@.subrange(0, m as int) =~= needle@);
            return true;
        }
        assert(hay@.subrange(i as int, i + m)[j as int] != needle@[j as int]);
        i = i + 1;
    }
    proof {
        assert forall|k: int| 0 <= k && k + needle@.len() <= hay@.len() implies #[trigger] hay@.subrange(
            k,
            k + needle@.len(),
        ) != needle@ by {}
    }
    false
}

/// The Unicode lower-case form of a text, as `str::to_lowercase` gives it.
pub uninterp spec fn unicode_lowercase(s: Seq<char>) -> Seq<char>;

/// Whether a character is upper case in Unicode, as `char::is_uppercase` says.
pub uninterp spec fn unicode_uppercase(c: char) -> bool;

/// The text in lower case (std's `str::to_lowercase`, which maps every
/// character by the Unicode tables). Claimed: the result is the function
/// `unicode_lowercase` of the text, nothing more.
#[verifier::external_body]
fn to_lowercase(s: &str) -> (r: String)
    ensures
        r@ == unicode_lowercase(s@),
{
    s.to_lowercase()
}

/// Whether a character is upper case (std's `char::is_uppercase`, the Unicode
/// `Uppercase` property). Claimed: the result is the function
/// `unicode_uppercase` of the character, nothing more.
#[verifier::external_body]
fn is_uppercase(c: char) -> (r: bool)
    ensures
        r == unicode_uppercase(c),
{
    c.is_uppercase()
}

/// Whether the mod shows up for the search `search`: an empty search shows
/// every mod; otherwise its name or id holds the search, with or without
/// regard to case.
pub open spec fn search_hits(m: ModMetaData, search: Seq<char>, case_sensitive: bool) -> bool {
    ||| search.len() == 0
    ||| (case_sensitive && (contains_text(m.name@, search) || contains_text(m.id@, search)))
    ||| (!case_sensitive && (contains_text(unicode_lowercase(m.name@), unicode_lowercase(search))
        || contains_text(unicode_lowercase(m.id@), unicode_lowercase(search))))
}

/// Whether the mod stays in the list: it shows up for the search and, when a
/// game version is required, supports it.
pub open spec fn kept_in_list(
    m: ModMetaData,
    search: Seq<char>,
    case_sensitive: bool,
    version: Option<Seq<char>>,
) -> bool {
    &&& search_hits(m, search, case_sensitive)
    &&& match version {
        Some(v) => m.supported_versions.deep_view().contains(v),
        None => true,
    }
}

fn search_hits_exec(m: &ModMetaData, search: &str, case_sensitive: bool) -> (r: bool)
    ensures
        r == search_hits(*m, search@, case_sensitive),
{
    if search.unicode_len() == 0 {
        return true;
    }
    if case_sensitive {
        contains_str(m.name.as_str(), search) || contains_str(m.id.as_str(), search)
    } else {
        let lower = to_lowercase(search);
        let name = to_lowercase(m.name.as_str());
        let id = to_lowercase(m.id.as_str());
        contains_str(name.as_str(), lower.as_str()) || contains_str(id.as_str(), lower.as_str())
    }
}

/// The positions whose mods stay in the list.
pub open spec fn kept_at(
    mods: Seq<ModMetaData>,
    search: Seq<char>,
    case_sensitive: bool,
    version: Option<Seq<char>>,
) -> spec_fn(usize) -> bool {
    |i: usize| kept_in_list(mods[i as int], search, case_sensitive, version)
}

/// The positions of a list of `n` mods.
pub open spec fn positions(n: nat) -> Seq<usize> {
    Seq::new(n, |i: int| i as usize)
}

/// What a search keeps of a list (with no game version required): every mod
/// when the search is empty; with regard to case, the mods whose name or id
/// holds the search; without, the mods whose name or id holds it once both
/// are put in lower case; and no other mod.
pub proof fn law_search_keeps(mods: Seq<ModMetaData>, search: Seq<char>, case_sensitive: bool, i: int)
    requires
        0 <= i < mods.len(),
        mods.len() <= usize::MAX,
    ensures
        ({
            let kept = positions(mods.len()).filter(kept_at(mods, search, case_sensitive, None)).contains(
                i as usize,
            );
            let m = mods[i];
            let name_or_id_holds = if case_sensitive {
                contains_text(m.name@, search) || contains_text(m.id@, search)
            } else {
                contains_text(unicode_lowercase(m.name@), unicode_lowercase(search)) || contains_text(
                    unicode_lowercase(m.id@),
                    unicode_lowercase(search),
                )
            };
            kept <==> (search.len() == 0 || name_or_id_holds)
        }),
{
    let all = positions(mods.len());
    let keep = kept_at(mods, search, case_sensitive, None);
    broadcast use vstd::seq_lib::group_filter_ensures;

    assert(all[i] == i as usize);
    assert(keep(all[i]) == kept_in_list(mods[i], search, case_sensitive, None));
    if keep(all[i]) {
        assert(all.filter(keep).contains(all[i]));
    }
    if all.filter(keep).contains(i as usize) {
        let k = choose|k: int| 0 <= k < all.filter(keep).len() && all.filter(keep)[k] == i as usize;
        assert(keep(all.filter(keep)[k]));
    }
}

/// The mods of a list that a search, and a required game version (only the
/// inactive list asks for one, when it shows supported mods only), keep; as
/// positions in `mods`, in order.
pub fn filter_mods(mods: &[ModMetaData], search: &str, case_sensitive: bool, version: Option<&str>) -> (r: Vec<
    usize,
>)
    ensures
        r@ == positions(mods@.len()).filter(
            kept_at(
                mods@,
                search@,
                case_sensitive,
                match version {
                    Some(v) => Some(v@),
                    None => None,
                },
            ),
        ),
{
    let ghost ver = match version {
        Some(v) => Some(v@),
        None => None,
    };
    let ghost keep = kept_at(mods@, search@, case_sensitive, ver);
    let ghost all = positions(mods@.len());
    let mut out: Vec<usize> = Vec::new();
    let mut i: usize = 0;
    assert(all.take(0).filter(keep) =~= Seq::<usize>::empty()) by {
        reveal(Seq::filter);
    }
    while i < mods.len()
        invariant
            i <= mods.len(),
            all == positions(mods@.len()),
            keep == kept_at(mods@, search@, case_sensitive, ver),
            ver == match version {
                Some(v) => Some(v@),
                None => None,
            },
            out@ == all.take(i as int).filter(keep),
        decreases mods.len() - i,
    {
        let m = &mods[i];
        let mut kept = search_hits_exec(m, search, case_sensitive);
        if kept {
            match version {
                Some(v) => {
                    kept = crate::collections::find_string(m.supported_versions.as_slice(), v).is_some();
                },
                None => {},
            }
        }
        assert(kept == keep(i));
        proof {
            assert(all.take(i + 1) =~= all.take(i as int).push(i));
            all.take(i as int).lemma_filter_push(i, keep);
        }
        if kept {
            out.push(i);
        }
        i = i + 1;
    }
    assert(all.take(mods.len() as int) =~= all);
    out
}

/// Whether searching is case sensitive after the search text changes: with
/// smart search on and a search that is not empty, exactly when the search
/// holds an upper-case letter; otherwise as it was.
pub fn smart_case(search: &str, smart_search: bool, case_sensitive: bool) -> (r: bool)
    ensures
        r == if smart_search && search@.len() > 0 {
            exists|i: int| 0 <= i < search@.len() && unicode_uppercase(#[trigger] search@[i])
        } else {
            case_sensitive
        },
{
    let n = search.unicode_len();
    if !smart_search || n == 0 {
        return case_sensitive;
    }
    let mut i: usize = 0;
    while i < n
        invariant
            n == search@.len(),
            n > 0,
            smart_search,
            i <= n,
            forall|k: int| 0 <= k < i ==> !unicode_uppercase(#[trigger] search@[k]),
        decreases n - i,
    {
        if is_uppercase(search.get_char(i)) {
            assert(unicode_uppercase(search@[i as int]));
            return true;
        }
        i = i + 1;
    }
    false
}

} // verus!
