//! The state of the mod manager: the installed mods, which of them are
//! active and in what order, and the issues of the active ones.
use crate::collections::{arranged_by, clone_strings, find_string, lemma_arranged_move, lemma_empty_holds, Duplicate, StringMap};
use crate::game::mods::config::{ConfigView, ModsConfigData};
use crate::game::mods::issue::{issue_rel, IssueView, ModIssue};
use crate::game::mods::meta::{ModMetaData, Source};
use crate::game::mods::sort::order::{loads_after, must_load_after};
use crate::project::checks::{
    after_message, after_rule, before_message, before_rule, cycle_issue, cycle_issues, find_mod, issue_at,
    issue_pairs, lemma_cycle_pairs, lemma_issue_pairs_at, lemma_last_index_at, lemma_messages_distinct,
    lemma_pick_keeps, lemma_pick_source, pick, regular_issues, reports,
};
use crate::project::cycle::{closed_under_edges, cycle_mods, in_load_cycle};
use crate::project::load::{
    has_local_copy, keeps_name_ties, name_id_less, name_official_mods, official_name, rename_steam_copies, sort_by_name, steam_id,
};
use crate::text::{compare_chars, eq_ignore_ascii_case, eq_ignore_case, lower_seq, seq_less, to_ascii_lowercase};
use vstd::prelude::*;

pub mod checks;
pub mod cycle;
pub mod load;

verus! {

/// Whether the list of active ids activates the mod `m`: its lower-case id is
/// listed, or, for a Steam mod, its lower-case id followed by `_steam`.
pub open spec fn activates(ids: Seq<Seq<char>>, m: ModMetaData) -> bool {
    ||| ids.contains(lower_seq(m.id@))
    ||| (m.source == Source::Steam && ids.contains(lower_seq(m.id@) + "_steam"@))
}

/// Where `id` first stands among `ids`, ignoring ASCII case; `usize::MAX`
/// when it does not.
pub open spec fn active_position(ids: Seq<Seq<char>>, id: Seq<char>) -> int {
    if exists|k: int| 0 <= k < ids.len() && eq_ignore_case(#[trigger] ids[k], id) {
        choose|k: int|
            0 <= k < ids.len() && eq_ignore_case(#[trigger] ids[k], id) && forall|j: int|
                0 <= j < k ==> !eq_ignore_case(#[trigger] ids[j], id)
    } else {
        usize::MAX as int
    }
}

/// The order of the active mods: by the position of their id in the active
/// list, then by id, then by the order they were installed in.
pub open spec fn listed_before(mods: Seq<ModMetaData>, ids: Seq<Seq<char>>, i: int, j: int) -> bool {
    let pi = active_position(ids, mods[i].id@);
    let pj = active_position(ids, mods[j].id@);
    ||| pi < pj
    ||| (pi == pj && seq_less(mods[i].id@, mods[j].id@))
    ||| (pi == pj && mods[i].id@ == mods[j].id@ && i < j)
}

/// `order` lists the mods that `ids` activates (`active`) or not, each once,
/// in the order `before`.
pub open spec fn lists_exactly(order: Seq<usize>, mods: Seq<ModMetaData>, ids: Seq<Seq<char>>, active: bool) -> bool {
    &&& forall|i: int| 0 <= i < mods.len() ==> (order.contains(i as usize) <==> activates(ids, mods[i]) == active)
    &&& forall|k: int| 0 <= k < order.len() ==> #[trigger] order[k] < mods.len()
}

/// Finds where `id` first stands among `ids`, ignoring ASCII case.
pub fn position_ignoring_case(ids: &[String], id: &str) -> (r: usize)
    ensures
        r == active_position(ids.deep_view(), id@),
{
    let ghost v = ids.deep_view();
    let mut k: usize = 0;
    while k < ids.len()
        invariant
            k <= ids.len(),
            v == ids.deep_view(),
            forall|j: int| 0 <= j < k ==> !eq_ignore_case(#[trigger] v[j], id@),
        decreases ids.len() - k,
    {
        if eq_ignore_ascii_case(ids[k].as_str(), id) {
            proof {
                assert(eq_ignore_case(v[k as int], id@));
                let c = choose|c: int|
                    0 <= c < v.len() && eq_ignore_case(#[trigger] v[c], id@) && forall|j: int|
                        0 <= j < c ==> !eq_ignore_case(#[trigger] v[j], id@);
                if c < k {
                } else if c > k {
                    assert(!eq_ignore_case(v[k as int], id@));
                }
            }
            return k;
        }
        k = k + 1;
    }
    usize::MAX
}

/// Whether `ids` activates `m`.
fn is_activated(ids: &[String], m: &ModMetaData) -> (r: bool)
    ensures
        r == activates(ids.deep_view(), *m),
{
    let lower = to_ascii_lowercase(m.id.as_str());
    if find_string(ids, lower.as_str()).is_some() {
        return true;
    }
    if m.is_steam() {
        let mut steam = lower;
        steam.append("_steam");
        return find_string(ids, steam.as_str()).is_some();
    }
    false
}

/// Whether mod `i` comes before mod `j` in the order of the active list.
fn comes_before(mods: &[ModMetaData], ids: &[String], i: usize, j: usize) -> (r: bool)
    requires
        i < mods.len(),
        j < mods.len(),
    ensures
        r == listed_before(mods@, ids.deep_view(), i as int, j as int),
{
    reveal(listed_before);
    let pi = position_ignoring_case(ids, mods[i].id.as_str());
    let pj = position_ignoring_case(ids, mods[j].id.as_str());
    if pi != pj {
        return pi < pj;
    }
    let c = compare_chars(mods[i].id.as_str(), mods[j].id.as_str());
    if c != 0 {
        return c == -1;
    }
    i < j
}

/// `listed_before` is a strict order.
proof fn lemma_listed_before_order(mods: Seq<ModMetaData>, ids: Seq<Seq<char>>, i: int, j: int, k: int)
    ensures
        !listed_before(mods, ids, i, i),
        listed_before(mods, ids, i, j) && listed_before(mods, ids, j, k) ==> listed_before(mods, ids, i, k),
        i != j ==> (listed_before(mods, ids, i, j) || listed_before(mods, ids, j, i)),
        listed_before(mods, ids, i, j) ==> !listed_before(mods, ids, j, i),
{
    reveal(listed_before);
    let (a, b, c) = (mods[i].id@, mods[j].id@, mods[k].id@);
    crate::text::lemma_less_irreflexive(a);
    crate::text::lemma_less_trichotomy(a, b);
    crate::text::lemma_less_trichotomy(a, c);
    crate::text::lemma_less_trichotomy(b, c);
    if seq_less(a, b) && seq_less(b, c) {
        crate::text::lemma_less_transitive(a, b, c);
    }
}

/// Inserting `x` at `p` adds it to the set of elements.
proof fn lemma_insert_to_set<T>(s: Seq<T>, p: int, x: T)
    requires
        0 <= p <= s.len(),
    ensures
        s.insert(p, x).to_set() == s.to_set().insert(x),
{
    let t = s.insert(p, x);
    assert forall|y: T| t.to_set().contains(y) <==> s.to_set().insert(x).contains(y) by {
        if t.to_set().contains(y) {
            let k = choose|k: int| 0 <= k < t.len() && t[k] == y;
            if k < p {
                assert(s[k] == y);
            } else if k > p {
                assert(s[k - 1] == y);
            }
        }
        if s.to_set().contains(y) {
            let k = choose|k: int| 0 <= k < s.len() && s[k] == y;
            if k < p {
                assert(t[k] == y);
            } else {
                assert(t[k + 1] == y);
            }
        }
        if y == x {
            assert(t[p] == x);
        }
    }
    assert(t.to_set() =~= s.to_set().insert(x));
}

/// Inserts mod `i` into `order`, kept in the order of the active list.
fn insert_in_order(order: &mut Vec<usize>, mods: &[ModMetaData], ids: &[String], i: usize)
    requires
        i < mods.len(),
        forall|k: int| 0 <= k < old(order)@.len() ==> #[trigger] old(order)@[k] < i,
        forall|a: int, b: int|
            0 <= a < b < old(order)@.len() ==> listed_before(mods@, ids.deep_view(), old(order)@[a] as int, old(order)@[b] as int),
    ensures
        final(order)@.to_set() == old(order)@.to_set().insert(i),
        forall|k: int| 0 <= k < final(order)@.len() ==> #[trigger] final(order)@[k] <= i,
        forall|a: int, b: int|
            0 <= a < b < final(order)@.len() ==> listed_before(mods@, ids.deep_view(), final(order)@[a] as int, final(order)@[b] as int),
{
    let ghost v = ids.deep_view();
    let mut p: usize = order.len();
    while p > 0 && !comes_before(mods, ids, order[p - 1], i)
        invariant
            p <= order@.len(),
            order@ == old(order)@,
            i < mods.len(),
            v == ids.deep_view(),
            forall|k: int| 0 <= k < order@.len() ==> #[trigger] order@[k] < i,
            forall|k: int| p <= k < order@.len() ==> listed_before(mods@, v, i as int, #[trigger] order@[k] as int),
        decreases p,
    {
        proof {
            lemma_listed_before_order(mods@, v, order@[p - 1] as int, i as int, 0);
        }
        p = p - 1;
    }
    let ghost before = order@;
    proof {
        assert forall|a: int| 0 <= a < p implies listed_before(mods@, v, #[trigger] before[a] as int, i as int) by {
            if a < p - 1 {
                lemma_listed_before_order(mods@, v, before[a] as int, before[p - 1] as int, i as int);
            }
        }
        lemma_insert_to_set(before, p as int, i);
    }
    order.insert(p, i);
}

/// The mods `ids` activates, in the order of the active list, and the others
/// in the order they were installed in; both as positions in `mods`.
pub fn partition_mods(mods: &[ModMetaData], ids: &[String]) -> (r: (Vec<usize>, Vec<usize>))
    ensures
        lists_exactly(r.0@, mods@, ids.deep_view(), true),
        lists_exactly(r.1@, mods@, ids.deep_view(), false),
        forall|a: int, b: int|
            0 <= a < b < r.0@.len() ==> listed_before(mods@, ids.deep_view(), r.0@[a] as int, r.0@[b] as int),
        forall|a: int, b: int| 0 <= a < b < r.1@.len() ==> r.1@[a] < r.1@[b],
{
    let ghost v = ids.deep_view();
    let mut active: Vec<usize> = Vec::new();
    let mut inactive: Vec<usize> = Vec::new();
    let mut i: usize = 0;
    while i < mods.len()
        invariant
            i <= mods.len(),
            v == ids.deep_view(),
            active@.to_set() == Set::new(|x: usize| x < i && activates(v, mods@[x as int])),
            inactive@.to_set() == Set::new(|x: usize| x < i && !activates(v, mods@[x as int])),
            forall|k: int| 0 <= k < active@.len() ==> #[trigger] active@[k] < i,
            forall|k: int| 0 <= k < inactive@.len() ==> #[trigger] inactive@[k] < i,
            forall|a: int, b: int| 0 <= a < b < active@.len() ==> listed_before(mods@, v, active@[a] as int, active@[b] as int),
            forall|a: int, b: int| 0 <= a < b < inactive@.len() ==> inactive@[a] < inactive@[b],
        decreases mods.len() - i,
    {
        let ghost a0 = active@;
        let ghost n0 = inactive@;
        if is_activated(ids, &mods[i]) {
            insert_in_order(&mut active, mods, ids, i);
            assert(active@.to_set() =~= Set::new(|x: usize| x < i + 1 && activates(v, mods@[x as int])));
            assert(inactive@.to_set() =~= Set::new(|x: usize| x < i + 1 && !activates(v, mods@[x as int])));
        } else {
            inactive.push(i);
            proof {
                n0.lemma_push_to_set_commute(i);
            }
            assert(inactive@.to_set() =~= Set::new(|x: usize| x < i + 1 && !activates(v, mods@[x as int])));
            assert(active@.to_set() =~= Set::new(|x: usize| x < i + 1 && activates(v, mods@[x as int])));
        }
        i = i + 1;
    }
    proof {
        assert forall|x: int| 0 <= x < mods.len() implies (active@.contains(x as usize) <==> activates(v, mods@[x])) by {
            assert(active@.contains(x as usize) <==> active@.to_set().contains(x as usize));
        }
        assert forall|x: int| 0 <= x < mods.len() implies (inactive@.contains(x as usize) <==> !activates(v, mods@[x])) by {
            assert(inactive@.contains(x as usize) <==> inactive@.to_set().contains(x as usize));
        }
    }
    (active, inactive)
}

/// The lower-case forms of the active ids.
pub open spec fn lowered(ids: Seq<Seq<char>>) -> Seq<Seq<char>> {
    ids.map_values(|s: Seq<char>| lower_seq(s))
}

/// The issues `update_mod_issues` finds: when some active id is active twice
/// or caught in a load order cycle, one cycle issue for each id caught in a
/// cycle; else the regular issues of the active mods.
pub open spec fn issues_found(
    issues: StringMap<ModIssue>,
    ids: Seq<Seq<char>>,
    mods: Seq<ModMetaData>,
    order: Seq<usize>,
) -> bool {
    let lids = lowered(ids);
    if lids.no_duplicates() && forall|x: Seq<char>| !in_load_cycle(lids, mods, order, x) {
        issues.holds_pairs(issue_pairs(lids, mods, lids.len() as int), issue_rel())
    } else {
        &&& issues.wf()
        &&& issues.key_seq().to_set() == Set::new(|x: Seq<char>| in_load_cycle(lids, mods, order, x))
        &&& forall|k: Seq<char>| #[trigger] issues.has_key(k) ==> issues.value_at(k).view_of() == cycle_issue(k)
    }
}

/// No two neighbours of `order` stand the wrong way round in the
/// topological order (the one after the other while the other is not after
/// the one).
pub open spec fn no_neighbour_out_of_order(order: Seq<usize>, mods: Seq<ModMetaData>) -> bool {
    forall|k: int|
        0 <= k < order.len() - 1 ==> !(loads_after(mods[order[k] as int], #[trigger] mods[order[k + 1] as int])
            && !loads_after(mods[order[k + 1] as int], mods[order[k] as int]))
}

/// The state of the mod manager.
#[derive(Debug)]
pub struct Project {
    /// The mods configuration loaded from the game.
    mods_config: Option<ModsConfigData>,
    /// All installed mods (official, local and Steam).
    mods: Vec<ModMetaData>,
    /// The ids of the active mods, in load order.
    active_mod_ids: Vec<String>,
    /// The active mods, as positions in `mods`, in load order.
    active_order: Vec<usize>,
    /// The inactive mods, as positions in `mods`.
    inactive_order: Vec<usize>,
    /// The mod selected in the list.
    selected_mod: Option<ModMetaData>,
    /// Whether the settings pane is open.
    settings_open: bool,
    /// The issues of the active mods, keyed by lower-case id.
    mod_issues: StringMap<ModIssue>,
}

impl Project {
    #[verifier::type_invariant]
    closed spec fn inv(self) -> bool {
        &&& forall|k: int| 0 <= k < self.active_order@.len() ==> #[trigger] self.active_order@[k] < self.mods@.len()
        &&& forall|k: int| 0 <= k < self.inactive_order@.len() ==> #[trigger] self.inactive_order@[k] < self.mods@.len()
        &&& self.mod_issues.wf()
    }

    /// The installed mods.
    pub closed spec fn installed(self) -> Seq<ModMetaData> {
        self.mods@
    }

    /// The ids of the active mods, in load order.
    pub closed spec fn active_ids(self) -> Seq<Seq<char>> {
        self.active_mod_ids.deep_view()
    }

    /// The active mods, as positions among the installed ones, in load order.
    pub closed spec fn active_order(self) -> Seq<usize> {
        self.active_order@
    }

    /// The inactive mods, as positions among the installed ones.
    pub closed spec fn inactive_order(self) -> Seq<usize> {
        self.inactive_order@
    }

    /// The issues of the active mods.
    pub closed spec fn issues(self) -> StringMap<ModIssue> {
        self.mod_issues
    }

    /// The mods configuration, as text.
    pub closed spec fn config(self) -> Option<ConfigView> {
        match self.mods_config {
            Some(c) => Some(c.view_of()),
            None => None,
        }
    }

    /// Whether the settings pane is open.
    pub closed spec fn settings_shown(self) -> bool {
        self.settings_open
    }

    /// The selected mod.
    pub closed spec fn selected(self) -> Option<ModMetaData> {
        self.selected_mod
    }

    /// The lists of active and inactive mods follow the active ids: the
    /// active mods in the order of the active list, the others in the order
    /// they were installed in.
    pub open spec fn cached(self) -> bool {
        &&& lists_exactly(self.active_order(), self.installed(), self.active_ids(), true)
        &&& lists_exactly(self.inactive_order(), self.installed(), self.active_ids(), false)
        &&& forall|a: int, b: int|
            0 <= a < b < self.active_order().len() ==> listed_before(
                self.installed(),
                self.active_ids(),
                self.active_order()[a] as int,
                self.active_order()[b] as int,
            )
        &&& forall|a: int, b: int|
            0 <= a < b < self.inactive_order().len() ==> self.inactive_order()[a] < self.inactive_order()[b]
    }

    /// The issues are those the active ids give.
    pub open spec fn issues_current(self) -> bool {
        issues_found(
            self.issues(),
            self.active_ids(),
            self.installed(),
            self.active_order(),
        )
    }

    /// A project with no mods and no configuration.
    pub fn empty() -> (r: Project)
        ensures
            r.installed().len() == 0,
            r.active_ids().len() == 0,
            r.active_order().len() == 0,
            r.inactive_order().len() == 0,
            r.issues().key_seq().len() == 0,
            r.issues_current(),
            r.config() is None,
            r.selected() is None,
            !r.settings_shown(),
            r.cached(),
    {
        let r = Project {
            mods_config: None,
            mods: Vec::new(),
            active_mod_ids: Vec::new(),
            active_order: Vec::new(),
            inactive_order: Vec::new(),
            selected_mod: None,
            settings_open: false,
            mod_issues: StringMap::new(),
        };
        assert(r.active_mod_ids.deep_view() =~= Seq::<Seq<char>>::empty());
        proof {
            let lids = lowered(r.active_ids());
            assert(lids =~= Seq::<Seq<char>>::empty());
            assert(issue_pairs(lids, r.installed(), 0) =~= Seq::<(Seq<char>, IssueView)>::empty());
            lemma_empty_holds(r.mod_issues, issue_rel());
            assert forall|x: Seq<char>| !in_load_cycle(lids, r.installed(), r.active_order(), x) by {
                if in_load_cycle(lids, r.installed(), r.active_order(), x) {
                    let c = choose|c: Set<Seq<char>>|
                        closed_under_edges(lids, r.installed(), r.active_order(), c) && #[trigger] c.contains(x);
                    assert(lids.to_set().contains(x));
                }
            }
        }
        r
    }

    /// Refreshes the lists of active and inactive mods from the active ids.
    pub fn cache_mods(&mut self)
        ensures
            final(self).cached(),
            final(self).installed() == old(self).installed(),
            final(self).active_ids() == old(self).active_ids(),
            final(self).issues() == old(self).issues(),
            final(self).config() == old(self).config(),
            final(self).selected() == old(self).selected(),
            final(self).settings_shown() == old(self).settings_shown(),
    {
        proof {
            use_type_invariant(&*self);
        }
        let (active, inactive) = partition_mods(self.mods.as_slice(), self.active_mod_ids.as_slice());
        proof {
            assert forall|k: int| 0 <= k < active@.len() implies #[trigger] active@[k] < self.mods@.len() by {}
        }
        self.active_order = active;
        self.inactive_order = inactive;
    }

    /// Updates the issues of the active mods.
    pub fn update_mod_issues(&mut self)
        ensures
            final(self).issues_current(),
            final(self).installed() == old(self).installed(),
            final(self).active_ids() == old(self).active_ids(),
            final(self).active_order() == old(self).active_order(),
            final(self).inactive_order() == old(self).inactive_order(),
            final(self).config() == old(self).config(),
            final(self).selected() == old(self).selected(),
            final(self).settings_shown() == old(self).settings_shown(),
    {
        proof {
            use_type_invariant(&*self);
        }
        let mut lower_ids: Vec<String> = Vec::new();
        let mut i: usize = 0;
        while i < self.active_mod_ids.len()
            invariant
                i <= self.active_mod_ids.len(),
                lower_ids.deep_view() == lowered(self.active_mod_ids.deep_view()).take(i as int),
            decreases self.active_mod_ids.len() - i,
        {
            let ghost before = lower_ids.deep_view();
            let lower = to_ascii_lowercase(self.active_mod_ids[i].as_str());
            lower_ids.push(lower);
            proof {
                let ids = self.active_mod_ids.deep_view();
                assert(lowered(ids)[i as int] == lower_seq(ids[i as int]));
                assert(lowered(ids).take(i + 1) =~= lowered(ids).take(i as int).push(lower_seq(ids[i as int])));
                assert(lower_ids.deep_view() =~= before.push(lower@));
            }
            i = i + 1;
        }
        assert(lowered(self.active_mod_ids.deep_view()).take(i as int) =~= lowered(self.active_mod_ids.deep_view()));
        let ghost lids = lower_ids.deep_view();
        match cycle_mods(lower_ids.as_slice(), self.mods.as_slice(), self.active_order.as_slice()) {
            Some(cycle) => {
                let issues = cycle_issues(cycle.as_slice());
                proof {
                    lemma_cycle_pairs(cycle.deep_view());
                    assert(issues.key_seq().to_set() =~= Set::new(
                        |x: Seq<char>| in_load_cycle(lids, self.mods@, self.active_order@, x),
                    )) by {
                        assert forall|x: Seq<char>| issues.key_seq().to_set().contains(x) <==> cycle.deep_view().contains(x) by {
                            assert(cycle.deep_view().contains(x) <==> cycle.deep_view().to_set().contains(x));
                        }
                    }
                    assert forall|k: Seq<char>| #[trigger] issues.has_key(k) implies issues.value_at(k).view_of() == cycle_issue(k) by {
                        assert(issues.key_seq().to_set().contains(k));
                        assert(cycle.deep_view().to_set().contains(k));
                        assert(cycle.deep_view().contains(k));
                    }
                }
                self.mod_issues = issues;
            },
            None => {
                self.mod_issues = regular_issues(lower_ids.as_slice(), self.mods.as_slice());
            },
        }
    }
}

/// Where the dragged mod `source` and the target mod `target` stand among
/// the active ids, scanning from position `i` with what was found so far;
/// the scan stops once both are found (a later match of one that was found
/// before the other replaces it).
pub open spec fn find_move(
    ids: Seq<Seq<char>>,
    source: Seq<char>,
    target: Seq<char>,
    i: int,
    s: Option<int>,
    t: Option<int>,
) -> (Option<int>, Option<int>)
    decreases ids.len() - i,
{
    if i >= ids.len() || i < 0 {
        (s, t)
    } else {
        let is_s = eq_ignore_case(ids[i], source);
        let s2 = if is_s {
            Some(i)
        } else {
            s
        };
        if is_s && t is Some {
            (s2, t)
        } else {
            let is_t = eq_ignore_case(ids[i], target);
            let t2 = if is_t {
                Some(i)
            } else {
                t
            };
            if is_t && s2 is Some {
                (s2, t2)
            } else {
                find_move(ids, source, target, i + 1, s2, t2)
            }
        }
    }
}

/// A position as an integer.
pub open spec fn as_int(k: Option<usize>) -> Option<int> {
    match k {
        Some(v) => Some(v as int),
        None => None,
    }
}

/// The error when the dragged mod is not active.
pub open spec fn source_inactive_message() -> Seq<char> {
    "dragged mod is not active {source}"@
}

/// The error when the target mod is not active.
pub open spec fn target_inactive_message() -> Seq<char> {
    "target mod is not active {target}"@
}

/// The active ids after moving the id at `s` to `t`.
pub open spec fn moved(ids: Seq<Seq<char>>, s: int, t: int) -> Seq<Seq<char>> {
    ids.remove(s).insert(t, ids[s])
}

impl Project {
    /// The active mods, in load order.
    pub fn active_mods(&self) -> (r: Vec<ModMetaData>)
        ensures
            r@.len() == self.active_order().len(),
            forall|k: int| 0 <= k < r@.len() ==> #[trigger] r@[k].same(&self.installed()[self.active_order()[k] as int]),
    {
        proof {
            use_type_invariant(self);
        }
        let mut out: Vec<ModMetaData> = Vec::new();
        let mut k: usize = 0;
        while k < self.active_order.len()
            invariant
                k <= self.active_order.len(),
                out@.len() == k,
                forall|j: int| 0 <= j < self.active_order@.len() ==> #[trigger] self.active_order@[j] < self.mods@.len(),
                forall|j: int| 0 <= j < k ==> #[trigger] out@[j].same(&self.mods@[self.active_order@[j] as int]),
            decreases self.active_order.len() - k,
        {
            out.push(self.mods[self.active_order[k]].duplicate());
            k = k + 1;
        }
        out
    }

    /// The inactive mods, in the order they were installed in.
    pub fn inactive_mods(&self) -> (r: Vec<ModMetaData>)
        ensures
            r@.len() == self.inactive_order().len(),
            forall|k: int|
                0 <= k < r@.len() ==> #[trigger] r@[k].same(&self.installed()[self.inactive_order()[k] as int]),
    {
        proof {
            use_type_invariant(self);
        }
        let mut out: Vec<ModMetaData> = Vec::new();
        let mut k: usize = 0;
        while k < self.inactive_order.len()
            invariant
                k <= self.inactive_order.len(),
                out@.len() == k,
                forall|j: int|
                    0 <= j < self.inactive_order@.len() ==> #[trigger] self.inactive_order@[j] < self.mods@.len(),
                forall|j: int| 0 <= j < k ==> #[trigger] out@[j].same(&self.mods@[self.inactive_order@[j] as int]),
            decreases self.inactive_order.len() - k,
        {
            out.push(self.mods[self.inactive_order[k]].duplicate());
            k = k + 1;
        }
        out
    }

    /// The selected mod.
    pub fn selected_mod(&self) -> (r: Option<&ModMetaData>)
        ensures
            match self.selected() {
                Some(m) => r matches Some(x) && *x == m,
                None => r is None,
            },
    {
        self.selected_mod.as_ref()
    }

    /// Selects a mod.
    pub fn select_mod(&mut self, mod_meta: &ModMetaData)
        ensures
            final(self).selected() matches Some(m) && m.same(mod_meta),
            final(self).installed() == old(self).installed(),
            final(self).active_ids() == old(self).active_ids(),
            final(self).active_order() == old(self).active_order(),
            final(self).inactive_order() == old(self).inactive_order(),
            final(self).issues() == old(self).issues(),
            final(self).config() == old(self).config(),
            final(self).settings_shown() == old(self).settings_shown(),
    {
        proof {
            use_type_invariant(&*self);
        }
        self.selected_mod = Some(mod_meta.duplicate());
    }

    /// Activates the mod (its id added in lower case at the end of the active
    /// list) or, when its id is active, deactivates it (its first occurrence,
    /// ignoring case, removed); then refreshes the lists and the issues.
    pub fn toggle_mod(&mut self, mod_meta: &ModMetaData)
        ensures
            ({
                let pos = active_position(old(self).active_ids(), mod_meta.id@);
                final(self).active_ids() == if pos < old(self).active_ids().len() {
                    old(self).active_ids().remove(pos)
                } else {
                    old(self).active_ids().push(lower_seq(mod_meta.id@))
                }
            }),
            final(self).cached(),
            final(self).issues_current(),
            final(self).installed() == old(self).installed(),
            final(self).config() == old(self).config(),
            final(self).selected() == old(self).selected(),
            final(self).settings_shown() == old(self).settings_shown(),
    {
        proof {
            use_type_invariant(&*self);
        }
        let pos = position_ignoring_case(self.active_mod_ids.as_slice(), mod_meta.id.as_str());
        let ghost before = self.active_mod_ids.deep_view();
        let mut ids: Vec<String> = Vec::new();
        std::mem::swap(&mut ids, &mut self.active_mod_ids);
        if pos < ids.len() {
            ids.remove(pos);
            assert(ids.deep_view() =~= before.remove(pos as int));
        } else {
            let lower = to_ascii_lowercase(mod_meta.id.as_str());
            ids.push(lower);
            assert(ids.deep_view() =~= before.push(lower_seq(mod_meta.id@)));
        }
        self.active_mod_ids = ids;
        self.cache_mods();
        self.update_mod_issues();
    }

    /// Moves the active mod `source` to where the active mod `target` stands
    /// (both found ignoring case, as `find_move` says), then refreshes the
    /// lists. Nothing happens when both are the same text; it fails when
    /// either is not active.
    pub fn move_active_mod(&mut self, source: &str, target: &str) -> (r: Result<(), String>)
        ensures
            ({
                let (s, t) = find_move(old(self).active_ids(), source@, target@, 0, None, None);
                if source@ == target@ {
                    r is Ok && *final(self) == *old(self)
                } else if s is None {
                    r matches Err(e) && e@ == source_inactive_message() && *final(self) == *old(self)
                } else if t is None {
                    r matches Err(e) && e@ == target_inactive_message() && *final(self) == *old(self)
                } else {
                    &&& r is Ok
                    &&& final(self).active_ids() == moved(old(self).active_ids(), s->0, t->0)
                    &&& final(self).cached()
                    &&& final(self).installed() == old(self).installed()
                    &&& final(self).issues() == old(self).issues()
                    &&& final(self).config() == old(self).config()
                    &&& final(self).selected() == old(self).selected()
                    &&& final(self).settings_shown() == old(self).settings_shown()
                }
            }),
    {
        proof {
            use_type_invariant(&*self);
        }
        if compare_chars(source, target) == 0 {
            return Ok(());
        }
        let ghost ids = self.active_mod_ids.deep_view();
        let mut source_index: Option<usize> = None;
        let mut target_index: Option<usize> = None;
        let mut done = false;
        let mut i: usize = 0;
        while i < self.active_mod_ids.len() && !done
            invariant
                i <= self.active_mod_ids.len(),
                ids == self.active_mod_ids.deep_view(),
                find_move(ids, source@, target@, 0, None, None) == if done {
                    (as_int(source_index), as_int(target_index))
                } else {
                    find_move(ids, source@, target@, i as int, as_int(source_index), as_int(target_index))
                },
                source_index matches Some(k) ==> k < ids.len(),
                target_index matches Some(k) ==> k < ids.len(),
            decreases self.active_mod_ids.len() - i,
        {
            let id = self.active_mod_ids[i].as_str();
            let is_s = eq_ignore_ascii_case(id, source);
            if is_s {
                source_index = Some(i);
            }
            if is_s && target_index.is_some() {
                done = true;
            } else {
                if eq_ignore_ascii_case(id, target) {
                    target_index = Some(i);
                    if source_index.is_some() {
                        done = true;
                    }
                }
            }
            i = i + 1;
        }
        let s = match source_index {
            Some(k) => k,
            None => {
                return Err(String::from_str("dragged mod is not active {source}"));
            },
        };
        let t = match target_index {
            Some(k) => k,
            None => {
                return Err(String::from_str("target mod is not active {target}"));
            },
        };
        let mut list: Vec<String> = Vec::new();
        std::mem::swap(&mut list, &mut self.active_mod_ids);
        let moving = list.remove(s);
        list.insert(t, moving);
        assert(list.deep_view() =~= moved(ids, s as int, t as int));
        self.active_mod_ids = list;
        self.cache_mods();
        Ok(())
    }

    /// Deactivates every mod, then refreshes the lists and the issues.
    pub fn clear_active_mods(&mut self)
        ensures
            final(self).active_ids().len() == 0,
            final(self).cached(),
            final(self).issues_current(),
            final(self).installed() == old(self).installed(),
            final(self).config() == old(self).config(),
            final(self).selected() == old(self).selected(),
            final(self).settings_shown() == old(self).settings_shown(),
    {
        proof {
            use_type_invariant(&*self);
        }
        self.active_mod_ids = Vec::new();
        assert(self.active_mod_ids.deep_view() =~= Seq::<Seq<char>>::empty());
        self.cache_mods();
        self.update_mod_issues();
    }

    /// Opens or closes the settings pane.
    pub fn toggle_settings(&mut self)
        ensures
            final(self).settings_shown() == !old(self).settings_shown(),
            final(self).installed() == old(self).installed(),
            final(self).active_ids() == old(self).active_ids(),
            final(self).active_order() == old(self).active_order(),
            final(self).inactive_order() == old(self).inactive_order(),
            final(self).issues() == old(self).issues(),
            final(self).config() == old(self).config(),
            final(self).selected() == old(self).selected(),
    {
        proof {
            use_type_invariant(&*self);
        }
        self.settings_open = !self.settings_open;
    }

    /// Whether the settings pane is open.
    pub fn is_settings_open(&self) -> (r: bool)
        ensures
            r == self.settings_shown(),
    {
        self.settings_open
    }

    /// The issues of the active mods, keyed by lower-case id.
    pub fn mod_issues(&self) -> (r: &StringMap<ModIssue>)
        ensures
            *r == self.issues(),
    {
        &self.mod_issues
    }

    /// The issues of the mod with the given id (ignoring case).
    pub fn issues_for_mod(&self, mod_id: &str) -> (r: Option<&ModIssue>)
        ensures
            r is Some <==> self.issues().has_key(lower_seq(mod_id@)),
            r matches Some(i) ==> *i == self.issues().value_at(lower_seq(mod_id@)),
    {
        proof {
            use_type_invariant(self);
        }
        let lower = to_ascii_lowercase(mod_id);
        self.mod_issues.get(lower.as_str())
    }

    /// The issues of each of the given mods, in the same order.
    pub fn issues_for_mods(&self, mod_ids: &[String]) -> (r: Vec<Option<&ModIssue>>)
        ensures
            r@.len() == mod_ids.len(),
            forall|k: int|
                0 <= k < mod_ids.len() ==> {
                    let key = lower_seq(mod_ids.deep_view()[k]);
                    &&& (#[trigger] r@[k] is Some <==> self.issues().has_key(key))
                    &&& r@[k] matches Some(i) ==> *i == self.issues().value_at(key)
                },
    {
        let mut out: Vec<Option<&ModIssue>> = Vec::new();
        let mut k: usize = 0;
        while k < mod_ids.len()
            invariant
                k <= mod_ids.len(),
                out@.len() == k,
                forall|j: int|
                    0 <= j < k ==> {
                        let key = lower_seq(mod_ids.deep_view()[j]);
                        &&& (#[trigger] out@[j] is Some <==> self.issues().has_key(key))
                        &&& out@[j] matches Some(i) ==> *i == self.issues().value_at(key)
                    },
            decreases mod_ids.len() - k,
        {
            out.push(self.issues_for_mod(mod_ids[k].as_str()));
            k = k + 1;
        }
        out
    }
}

/// The positions of `old` arranged by `p`, where a mod is placed before one
/// that stood before it in `old` only when that one must load after it in
/// the topological order: mods with no such reason keep their order.
pub open spec fn keeps_topological_ties(new: Seq<usize>, old: Seq<usize>, mods: Seq<ModMetaData>, p: Seq<int>) -> bool {
    &&& arranged_by(new, old, p)
    &&& forall|a: int, b: int|
        #![trigger p[a], p[b]]
        0 <= a < b < new.len() && p[b] < p[a] ==> loads_after(mods[new[b] as int], mods[new[a] as int])
}

/// Sorts positions of mods so that no two neighbours stand the wrong way
/// round in the topological order (an insertion sort); a mod moves before
/// an earlier one only when that one must load after it.
pub fn sort_topologically(order: &mut Vec<usize>, mods: &[ModMetaData])
    requires
        forall|k: int| 0 <= k < old(order)@.len() ==> #[trigger] old(order)@[k] < mods.len(),
    ensures
        final(order)@.to_multiset() == old(order)@.to_multiset(),
        final(order)@.len() == old(order)@.len(),
        forall|k: int| 0 <= k < final(order)@.len() ==> #[trigger] final(order)@[k] < mods.len(),
        no_neighbour_out_of_order(final(order)@, mods@),
        exists|p: Seq<int>| #[trigger] keeps_topological_ties(final(order)@, old(order)@, mods@, p),
{
    broadcast use vstd::seq_lib::to_multiset_remove, vstd::seq_lib::to_multiset_insert;

    let ghost mut perm: Seq<int> = Seq::new(order@.len(), |k: int| k);
    if order.len() == 0 {
        assert(keeps_topological_ties(order@, old(order)@, mods@, perm));
        return;
    }
    let mut i: usize = 1;
    while i < order.len()
        invariant
            1 <= i <= order@.len(),
            order@.len() == old(order)@.len(),
            order@.to_multiset() == old(order)@.to_multiset(),
            forall|k: int| 0 <= k < order@.len() ==> #[trigger] order@[k] < mods.len(),
            forall|k: int|
                0 <= k < i - 1 ==> !(loads_after(mods@[order@[k] as int], #[trigger] mods@[order@[k + 1] as int])
                    && !loads_after(mods@[order@[k + 1] as int], mods@[order@[k] as int])),
            arranged_by(order@, old(order)@, perm),
            forall|k: int| i <= k < perm.len() ==> #[trigger] perm[k] == k,
            forall|k: int| 0 <= k < i ==> #[trigger] perm[k] < i,
            forall|a: int, b: int|
                #![trigger perm[a], perm[b]]
                0 <= a < b < i && perm[b] < perm[a] ==> loads_after(
                    mods@[order@[b] as int],
                    mods@[order@[a] as int],
                ),
        decreases order@.len() - i,
    {
        let ghost s0 = order@;
        let ghost perm0 = perm;
        let x = order.remove(i);
        let ghost s1 = order@;
        let mut p: usize = i;
        loop
            invariant
                p <= i,
                i <= order@.len(),
                order@ == s1,
                x < mods.len(),
                forall|k: int| 0 <= k < order@.len() ==> #[trigger] order@[k] < mods.len(),
                p < i ==> loads_after(mods@[s1[p as int] as int], mods@[x as int]),
                forall|k: int| p <= k < i ==> loads_after(mods@[#[trigger] s1[k] as int], mods@[x as int]),
            ensures
                p <= i,
                p < i ==> loads_after(mods@[s1[p as int] as int], mods@[x as int]),
                p > 0 ==> !loads_after(mods@[s1[p - 1] as int], mods@[x as int]),
                forall|k: int| p <= k < i ==> loads_after(mods@[#[trigger] s1[k] as int], mods@[x as int]),
            decreases p,
        {
            if p == 0 {
                break;
            }
            if !must_load_after(&mods[order[p - 1]], &mods[x]) {
                break;
            }
            p = p - 1;
        }
        proof {
            lemma_arranged_move(s0, old(order)@, perm0, i as int, p as int);
            assert(s0.remove(i as int) =~= s1);
            perm = perm0.remove(i as int).insert(p as int, perm0[i as int]);
            assert forall|k: int| i + 1 <= k < perm.len() implies #[trigger] perm[k] == k by {
                assert(perm[k] == perm0[k]);
            }
            assert forall|k: int| 0 <= k < i + 1 implies #[trigger] perm[k] < i + 1 by {
                if k < p {
                    assert(perm[k] == perm0[k]);
                } else if k > p {
                    assert(perm[k] == perm0[k - 1]);
                }
            }
            assert forall|a: int, b: int|
                #![trigger perm[a], perm[b]]
                0 <= a < b < i + 1 && perm[b] < perm[a] implies loads_after(
                mods@[s1.insert(p as int, x)[b] as int],
                mods@[s1.insert(p as int, x)[a] as int],
            ) by {
                let t = s1.insert(p as int, x);
                if a == p {
                    assert(t[b] == s1[b - 1]);
                } else if b == p {
                    assert(perm[b] == i);
                    assert(perm0[a] < i);
                } else {
                    let oa = if a < p { a } else { a - 1 };
                    let ob = if b < p { b } else { b - 1 };
                    assert(perm[a] == perm0[oa] && perm[b] == perm0[ob]);
                    assert(t[a] == s0[oa] && t[b] == s0[ob]);
                }
            }
        }
        order.insert(p, x);
        proof {
            assert(order@ =~= s1.insert(p as int, x));
            vstd::seq_lib::to_multiset_insert(s1, p as int, x);
            vstd::seq_lib::to_multiset_remove(s0, i as int);
            assert(s0[i as int] == x);
            assert(s0.to_multiset().count(x) > 0) by {
                broadcast use vstd::seq_lib::to_multiset_contains;

                assert(s0.contains(x));
            }
            assert(order@.to_multiset() =~= s0.to_multiset()) by {
                broadcast use vstd::multiset::group_multiset_axioms;

            }
            assert forall|k: int|
                0 <= k < i implies !(loads_after(mods@[order@[k] as int], #[trigger] mods@[order@[k + 1] as int])
                && !loads_after(mods@[order@[k + 1] as int], mods@[order@[k] as int])) by {
                if k + 1 < p {
                    assert(order@[k] == s0[k]);
                    assert(order@[k + 1] == s0[k + 1]);
                    assert(mods@[s0[k + 1] as int] == mods@[order@[k + 1] as int]);
                    assert(!(loads_after(mods@[s0[k] as int], mods@[s0[k + 1] as int]) && !loads_after(
                        mods@[s0[k + 1] as int],
                        mods@[s0[k] as int],
                    )));
                } else if k + 1 == p {
                    assert(order@[k] == s1[p - 1]);
                    assert(order@[k + 1] == x);
                    assert(!loads_after(mods@[s1[p - 1] as int], mods@[x as int]));
                } else if k == p {
                    assert(order@[k] == x);
                    assert(order@[k + 1] == s1[p as int]);
                    assert(loads_after(mods@[s1[p as int] as int], mods@[x as int]));
                } else {
                    assert(order@[k] == s0[k - 1]);
                    assert(order@[k + 1] == s0[k]);
                    assert(mods@[s0[k] as int] == mods@[order@[k + 1] as int]);
                    let kk = k - 1;
                    assert(mods@[s0[kk + 1] as int] == mods@[s0[k] as int]);
                    assert(!(loads_after(mods@[s0[k - 1] as int], mods@[s0[k] as int]) && !loads_after(
                        mods@[s0[k] as int],
                        mods@[s0[k - 1] as int],
                    )));
                }
            }
        }
        i = i + 1;
    }
    assert(keeps_topological_ties(order@, old(order)@, mods@, perm));
}

impl Project {
    /// Sorts the active mods in the topological order, a mod moving before an
    /// earlier one only when that one must load after it; makes that order
    /// the active list (ids in lower case), then refreshes the issues.
    pub fn sort_active_mods(&mut self)
        ensures
            final(self).active_order().to_multiset() == old(self).active_order().to_multiset(),
            no_neighbour_out_of_order(final(self).active_order(), final(self).installed()),
            exists|p: Seq<int>|
                #[trigger] keeps_topological_ties(final(self).active_order(), old(self).active_order(), final(self).installed(), p),
            final(self).active_ids().len() == final(self).active_order().len(),
            forall|k: int|
                0 <= k < final(self).active_ids().len() ==> #[trigger] final(self).active_ids()[k] == lower_seq(
                    final(self).installed()[final(self).active_order()[k] as int].id@,
                ),
            final(self).issues_current(),
            final(self).inactive_order() == old(self).inactive_order(),
            final(self).installed() == old(self).installed(),
            final(self).config() == old(self).config(),
            final(self).selected() == old(self).selected(),
            final(self).settings_shown() == old(self).settings_shown(),
    {
        proof {
            use_type_invariant(&*self);
        }
        let mut order: Vec<usize> = Vec::new();
        std::mem::swap(&mut order, &mut self.active_order);
        sort_topologically(&mut order, self.mods.as_slice());
        let mut ids: Vec<String> = Vec::new();
        let mut k: usize = 0;
        while k < order.len()
            invariant
                k <= order.len(),
                ids@.len() == k,
                forall|j: int| 0 <= j < order@.len() ==> #[trigger] order@[j] < self.mods@.len(),
                forall|j: int| 0 <= j < k ==> #[trigger] ids.deep_view()[j] == lower_seq(self.mods@[order@[j] as int].id@),
            decreases order.len() - k,
        {
            let ghost before = ids.deep_view();
            let lower = to_ascii_lowercase(self.mods[order[k]].id.as_str());
            ids.push(lower);
            assert(ids.deep_view() =~= before.push(lower@));
            k = k + 1;
        }
        self.active_order = order;
        self.active_mod_ids = ids;
        self.update_mod_issues();
    }
}

/// `pre` is what loading gives before sorting: the official mods with their
/// names as `official_name` says, then the local mods, then the Steam mods
/// with their ids as `steam_id` says next to the official and local ones.
pub open spec fn loaded_from(
    pre: Seq<ModMetaData>,
    official: Seq<ModMetaData>,
    local: Seq<ModMetaData>,
    steam: Seq<ModMetaData>,
) -> bool {
    let (o, l) = (official.len(), local.len());
    &&& pre.len() == o + l + steam.len()
    &&& forall|i: int|
        0 <= i < o ==> {
            let (a, b) = (#[trigger] pre[i], official[i]);
            a.name@ == official_name(b.id@) && a == (ModMetaData { name: a.name, ..b })
        }
    &&& forall|i: int| o <= i < o + l ==> #[trigger] pre[i] == local[i - o]
    &&& forall|i: int|
        o + l <= i < pre.len() ==> {
            let (a, b) = (#[trigger] pre[i], steam[i - o - l]);
            a.id@ == steam_id(pre.take((o + l) as int), b.id@) && a == (ModMetaData { id: a.id, ..b })
        }
}

impl Project {
    /// Takes the installed mods: the official ones are named after their ids,
    /// Steam copies of local mods get `_steam` appended to their ids, and all
    /// are listed by name, then by id, mods with the same name and id staying
    /// in the order official, local, Steam, as given. The first is selected;
    /// the lists and the issues are refreshed.
    pub fn load_mods(&mut self, official: Vec<ModMetaData>, local: Vec<ModMetaData>, steam: Vec<ModMetaData>)
        ensures
            exists|pre: Seq<ModMetaData>|
                loaded_from(pre, official@, local@, steam@) && #[trigger] final(self).installed().to_multiset()
                    == pre.to_multiset(),
            exists|pre: Seq<ModMetaData>, p: Seq<int>|
                loaded_from(pre, official@, local@, steam@) && #[trigger] keeps_name_ties(
                    final(self).installed(),
                    pre,
                    p,
                ),
            final(self).installed().len() == official@.len() + local@.len() + steam@.len(),
            forall|i: int, j: int|
                0 <= i < j < final(self).installed().len() ==> !name_id_less(
                    final(self).installed()[j],
                    final(self).installed()[i],
                ),
            match final(self).selected() {
                Some(m) => final(self).installed().len() > 0 && m.same(&final(self).installed()[0]),
                None => final(self).installed().len() == 0,
            },
            final(self).cached(),
            final(self).issues_current(),
            final(self).active_ids() == old(self).active_ids(),
            final(self).config() == old(self).config(),
            final(self).settings_shown() == old(self).settings_shown(),
    {
        proof {
            use_type_invariant(&*self);
        }
        let mut all = official;
        name_official_mods(&mut all);
        let ghost named = all@;
        let mut local = local;
        let ghost local0 = local@;
        all.append(&mut local);
        let ghost known = all@;
        let mut steam = steam;
        let ghost steam0 = steam@;
        rename_steam_copies(&mut steam, &all);
        let ghost renamed = steam@;
        all.append(&mut steam);
        let ghost pre = all@;
        proof {
            assert(pre.take((named.len() + local0.len()) as int) =~= known);
            assert(loaded_from(pre, official@, local0, steam0)) by {
                assert forall|i: int| 0 <= i < named.len() implies #[trigger] pre[i] == named[i] by {}
                assert forall|i: int| named.len() + local0.len() <= i < pre.len() implies #[trigger] pre[i]
                    == renamed[i - named.len() - local0.len()] by {}
            }
        }
        sort_by_name(&mut all);
        self.active_order = Vec::new();
        self.inactive_order = Vec::new();
        self.mods = all;
        self.selected_mod = if self.mods.len() > 0 {
            Some(self.mods[0].duplicate())
        } else {
            None
        };
        self.cache_mods();
        self.update_mod_issues();
    }

    /// Takes the mods configuration read from the game, if any; without one
    /// the configuration is kept.
    pub fn load_mods_config(&mut self, config: Option<ModsConfigData>)
        ensures
            final(self).config() == match config {
                Some(c) => Some(c.view_of()),
                None => old(self).config(),
            },
            final(self).installed() == old(self).installed(),
            final(self).active_ids() == old(self).active_ids(),
            final(self).active_order() == old(self).active_order(),
            final(self).inactive_order() == old(self).inactive_order(),
            final(self).issues() == old(self).issues(),
            final(self).selected() == old(self).selected(),
            final(self).settings_shown() == old(self).settings_shown(),
    {
        proof {
            use_type_invariant(&*self);
        }
        match config {
            Some(c) => {
                self.mods_config = Some(c);
            },
            None => {},
        }
    }

    /// Makes the active mods of the configuration the active list (none
    /// without a configuration), then refreshes the lists and the issues.
    pub fn apply_mods_config(&mut self)
        ensures
            final(self).active_ids() == match old(self).config() {
                Some(c) => c.1,
                None => Seq::<Seq<char>>::empty(),
            },
            final(self).cached(),
            final(self).issues_current(),
            final(self).installed() == old(self).installed(),
            final(self).config() == old(self).config(),
            final(self).selected() == old(self).selected(),
            final(self).settings_shown() == old(self).settings_shown(),
    {
        proof {
            use_type_invariant(&*self);
        }
        let ids = match &self.mods_config {
            Some(config) => clone_strings(&config.active_mods),
            None => Vec::new(),
        };
        assert(ids.deep_view() =~= match self.config() {
            Some(c) => c.1,
            None => Seq::<Seq<char>>::empty(),
        });
        self.active_mod_ids = ids;
        self.cache_mods();
        self.update_mod_issues();
    }

    /// Puts the active list into the configuration and gives the document to
    /// save as `ModsConfig.xml`; `None` without a configuration.
    pub fn save_mods_config(&mut self) -> (r: Option<Result<Vec<u8>, String>>)
        ensures
            match old(self).config() {
                Some(c) => {
                    &&& final(self).config() == Some((c.0, old(self).active_ids(), c.2))
                    &&& r matches Some(Ok(bytes)) && bytes@ == crate::game::mods::config::xml_document(
                        crate::game::mods::config::config_events((c.0, old(self).active_ids(), c.2)),
                    )
                },
                None => r is None && final(self).config() is None,
            },
            final(self).installed() == old(self).installed(),
            final(self).active_ids() == old(self).active_ids(),
            final(self).active_order() == old(self).active_order(),
            final(self).inactive_order() == old(self).inactive_order(),
            final(self).issues() == old(self).issues(),
            final(self).selected() == old(self).selected(),
            final(self).settings_shown() == old(self).settings_shown(),
    {
        proof {
            use_type_invariant(&*self);
        }
        let mut taken: Option<ModsConfigData> = None;
        std::mem::swap(&mut taken, &mut self.mods_config);
        let mut config = match taken {
            Some(c) => c,
            None => {
                return None;
            },
        };
        config.active_mods = clone_strings(&self.active_mod_ids);
        let bytes = config.save();
        self.mods_config = Some(config);
        Some(bytes)
    }

    /// The project of the given configuration and installed mods: the mods
    /// loaded as `load_mods` does, the active list taken from the
    /// configuration, the lists and the issues refreshed.
    pub fn new(config: Option<ModsConfigData>, official: Vec<ModMetaData>, local: Vec<ModMetaData>, steam: Vec<
        ModMetaData,
    >) -> (r: Project)
        ensures
            r.config() == match config {
                Some(c) => Some(c.view_of()),
                None => None,
            },
            r.active_ids() == match config {
                Some(c) => c.view_of().1,
                None => Seq::<Seq<char>>::empty(),
            },
            exists|pre: Seq<ModMetaData>|
                loaded_from(pre, official@, local@, steam@) && #[trigger] r.installed().to_multiset()
                    == pre.to_multiset(),
            exists|pre: Seq<ModMetaData>, p: Seq<int>|
                loaded_from(pre, official@, local@, steam@) && #[trigger] keeps_name_ties(r.installed(), pre, p),
            forall|i: int, j: int| 0 <= i < j < r.installed().len() ==> !name_id_less(r.installed()[j], r.installed()[i]),
            r.cached(),
            r.issues_current(),
            !r.settings_shown(),
    {
        let mut project = Project::empty();
        project.load_mods_config(config);
        project.load_mods(official, local, steam);
        project.apply_mods_config();
        project.update_mod_issues();
        project
    }
}

/// Every installed mod is in exactly one of the two lists.
pub proof fn law_lists_partition(p: Project, i: int)
    requires
        p.cached(),
        0 <= i < p.installed().len(),
    ensures
        p.active_order().contains(i as usize) != p.inactive_order().contains(i as usize),
{
    let m = p.installed()[i];
    assert(activates(p.active_ids(), m) || !activates(p.active_ids(), m));
}

/// Activating a mod whose id is not active (in any case) puts its lower-case
/// id at the end of the list, which then activates it.
pub proof fn law_toggle_activates(ids: Seq<Seq<char>>, m: ModMetaData)
    requires
        active_position(ids, m.id@) >= ids.len(),
    ensures
        activates(ids.push(lower_seq(m.id@)), m),
{
    assert(ids.push(lower_seq(m.id@))[ids.len() as int] == lower_seq(m.id@));
}

/// Toggling a mod whose id is not active twice gives back the active list it
/// started from.
pub proof fn law_toggle_twice(ids: Seq<Seq<char>>, id: Seq<char>)
    requires
        active_position(ids, id) >= ids.len(),
    ensures
        active_position(ids.push(lower_seq(id)), id) == ids.len(),
        ids.push(lower_seq(id)).remove(ids.len() as int) == ids,
{
    let ids2 = ids.push(lower_seq(id));
    crate::text::lemma_lower_idempotent(id);
    if exists|k: int| 0 <= k < ids.len() && eq_ignore_case(#[trigger] ids[k], id) {
        // then a first such position exists, and `active_position` gives it
        let k = choose|k: int| 0 <= k < ids.len() && eq_ignore_case(#[trigger] ids[k], id);
        let c = first_match(ids, id, k);
        assert(active_position(ids, id) < ids.len());
    }
    assert(forall|k: int| 0 <= k < ids.len() ==> !eq_ignore_case(#[trigger] ids[k], id));
    assert(forall|k: int| 0 <= k < ids.len() ==> #[trigger] ids2[k] == ids[k]);
    assert(eq_ignore_case(ids2[ids.len() as int], id));
    let c = ids.len() as int;
    assert(forall|j: int| 0 <= j < c ==> !eq_ignore_case(#[trigger] ids2[j], id));
    assert(ids2.remove(ids.len() as int) =~= ids);
}

/// Some position matching `id` at or before `k` is the first one.
proof fn first_match(ids: Seq<Seq<char>>, id: Seq<char>, k: int) -> (c: int)
    requires
        0 <= k < ids.len(),
        eq_ignore_case(ids[k], id),
    ensures
        0 <= c <= k,
        eq_ignore_case(ids[c], id),
        forall|j: int| 0 <= j < c ==> !eq_ignore_case(#[trigger] ids[j], id),
    decreases k,
{
    if exists|j: int| 0 <= j < k && eq_ignore_case(#[trigger] ids[j], id) {
        let j = choose|j: int| 0 <= j < k && eq_ignore_case(#[trigger] ids[j], id);
        first_match(ids, id, j)
    } else {
        k
    }
}

/// The ids the regular issues are keyed by are active.
proof fn lemma_issue_keys_active(ids: Seq<Seq<char>>, mods: Seq<ModMetaData>, n: int, k: Seq<char>)
    requires
        0 <= n <= ids.len(),
        crate::collections::pair_keys(issue_pairs(ids, mods, n)).contains(k),
    ensures
        ids.contains(k),
    decreases n,
{
    let f = |p: (Seq<char>, crate::game::mods::issue::IssueView)| p.0;
    if n > 0 {
        let r = issue_pairs(ids, mods, n - 1);
        let i = crate::project::checks::issue_at(ids, mods, n - 1);
        let pairs = issue_pairs(ids, mods, n);
        let kk = choose|q: int| 0 <= q < pairs.map_values(f).len() && pairs.map_values(f)[q] == k;
        if crate::project::checks::reports(i) {
            if kk < r.len() {
                assert(r.map_values(f)[kk] == k);
                assert(crate::collections::pair_keys(r).contains(k));
                lemma_issue_keys_active(ids, mods, n - 1, k);
            } else {
                assert(ids[n - 1] == k);
            }
        } else {
            assert(crate::collections::pair_keys(r).contains(k));
            lemma_issue_keys_active(ids, mods, n - 1, k);
        }
    }
}

/// Every issue found belongs to an active mod: its key is the lower-case
/// form of an active id.
pub proof fn law_issues_of_active_mods(
    issues: StringMap<ModIssue>,
    ids: Seq<Seq<char>>,
    mods: Seq<ModMetaData>,
    order: Seq<usize>,
    k: Seq<char>,
)
    requires
        issues_found(issues, ids, mods, order),
        issues.has_key(k),
    ensures
        lowered(ids).contains(k),
{
    let lids = lowered(ids);
    assert(issues.key_seq().to_set().contains(k));
    if lids.no_duplicates() && forall|x: Seq<char>| !in_load_cycle(lids, mods, order, x) {
        lemma_issue_keys_active(lids, mods, lids.len() as int, k);
    } else {
        assert(in_load_cycle(lids, mods, order, k));
        let s = choose|s: Set<Seq<char>>|
            crate::project::cycle::closed_under_edges(lids, mods, order, s) && #[trigger] s.contains(k);
        assert(lids.to_set().contains(k));
    }
}

/// A load relation of an active mod that the active list breaks is reported
/// in the mod's issue, and one it keeps is not. When the active ids repeat no
/// id and hold no load cycle, and `m` is the installed mod of the id at `idx`:
/// if `m` asks (by `loadBefore` or `forceLoadBefore`) to load before the id
/// at `jdx`, its issue holds the violation exactly when `jdx < idx`; if it
/// asks (by `loadAfter` or `forceLoadAfter`) to load after it, exactly when
/// `jdx > idx`.
pub proof fn law_load_order_violations(
    p: Project,
    idx: int,
    jdx: int,
    m: ModMetaData,
    other: Seq<char>,
    after: bool,
)
    requires
        p.issues_current(),
        lowered(p.active_ids()).no_duplicates(),
        forall|x: Seq<char>| !in_load_cycle(lowered(p.active_ids()), p.installed(), p.active_order(), x),
        0 <= idx < p.active_ids().len(),
        0 <= jdx < p.active_ids().len(),
        find_mod(p.installed(), lowered(p.active_ids())[idx]) == Some(m),
        lowered(p.active_ids())[jdx] == lower_seq(other),
        if after {
            m.load_after@.contains(other) || m.force_load_after@.contains(other)
        } else {
            m.load_before@.contains(other) || m.force_load_before@.contains(other)
        },
    ensures
        ({
            let x = lowered(p.active_ids())[idx];
            let msg = if after {
                after_message(other, x)
            } else {
                before_message(other, x)
            };
            let reported = p.issues().has_key(x) && p.issues().value_at(x).view_of().3.contains(msg);
            &&& (if after {
                jdx > idx
            } else {
                jdx < idx
            }) ==> reported
            &&& (if after {
                jdx < idx
            } else {
                jdx > idx
            }) ==> !reported
        }),
{
    let ids = lowered(p.active_ids());
    let mods = p.installed();
    let n = ids.len() as int;
    let x = ids[idx];
    let pairs = issue_pairs(ids, mods, n);
    assert(p.issues().holds_pairs(pairs, issue_rel()));
    lemma_last_index_at(ids, idx);
    lemma_last_index_at(ids, jdx);
    lemma_issue_pairs_at(ids, mods, n, idx);
    let i = issue_at(ids, mods, idx);
    let la = m.load_after@ + m.force_load_after@;
    let lb = m.load_before@ + m.force_load_before@;
    let ka = after_rule(ids, idx);
    let kb = before_rule(ids, idx);
    let sa = |a: Seq<char>| after_message(a, x);
    let sb = |b: Seq<char>| before_message(b, x);
    let pa = pick(la, ka, sa);
    let pb = pick(lb, kb, sb);
    assert(i.3 == pa + pb);
    let msg = if after {
        after_message(other, x)
    } else {
        before_message(other, x)
    };
    let list = if after {
        la
    } else {
        lb
    };
    assert(list.contains(other)) by {
        if after {
            if m.load_after@.contains(other) {
                let k = choose|k: int| 0 <= k < m.load_after@.len() && m.load_after@[k] == other;
                assert(la[k] == other);
            } else {
                let k = choose|k: int| 0 <= k < m.force_load_after@.len() && m.force_load_after@[k] == other;
                assert(la[m.load_after@.len() + k] == other);
            }
        } else {
            if m.load_before@.contains(other) {
                let k = choose|k: int| 0 <= k < m.load_before@.len() && m.load_before@[k] == other;
                assert(lb[k] == other);
            } else {
                let k = choose|k: int| 0 <= k < m.force_load_before@.len() && m.force_load_before@[k] == other;
                assert(lb[m.load_before@.len() + k] == other);
            }
        }
    }
    let j = choose|j: int| 0 <= j < list.len() && list[j] == other;
    if (after && jdx > idx) || (!after && jdx < idx) {
        if after {
            lemma_pick_keeps(la, ka, sa, j);
            let k = choose|k: int| 0 <= k < pa.len() && pa[k] == msg;
            assert((pa + pb)[k] == msg);
        } else {
            lemma_pick_keeps(lb, kb, sb, j);
            let k = choose|k: int| 0 <= k < pb.len() && pb[k] == msg;
            assert((pa + pb)[pa.len() + k] == msg);
        }
        assert(reports(i));
        assert(p.issues().key_seq().to_set().contains(x));
        assert(p.issues().has_key(x));
    }
    if ((after && jdx < idx) || (!after && jdx > idx)) && p.issues().has_key(x) {
        assert(p.issues().key_seq().to_set().contains(x));
        assert(p.issues().value_at(x).view_of() == i);
        if i.3.contains(msg) {
            let k = choose|k: int| 0 <= k < i.3.len() && i.3[k] == msg;
            if k < pa.len() {
                assert(pa[k] == msg);
                assert(pa.contains(msg));
                lemma_pick_source(la, ka, sa, msg);
                let q = choose|q: int| 0 <= q < la.len() && ka(la[q]) && sa(la[q]) == msg;
                lemma_messages_distinct(la[q], other, x);
                lemma_last_index_at(ids, jdx);
            } else {
                assert(pb[k - pa.len()] == msg);
                assert(pb.contains(msg));
                lemma_pick_source(lb, kb, sb, msg);
                let q = choose|q: int| 0 <= q < lb.len() && kb(lb[q]) && sb(lb[q]) == msg;
                lemma_messages_distinct(other, lb[q], x);
            }
        }
    }
}

/// The dependencies of an active mod are checked against the active list:
/// when the active ids repeat no id and hold no load cycle, and `m` is the
/// installed mod of the id at `idx` with a dependency `d`, its issue lists
/// `d` as missing exactly when no active id is `d` in lower case; and, when
/// `d` stands active at `jdx`, lists it as loaded after the mod exactly when
/// `jdx > idx`.
pub proof fn law_dependency_issues(p: Project, idx: int, m: ModMetaData, d: Seq<char>, jdx: int)
    requires
        p.issues_current(),
        lowered(p.active_ids()).no_duplicates(),
        forall|x: Seq<char>| !in_load_cycle(lowered(p.active_ids()), p.installed(), p.active_order(), x),
        0 <= idx < p.active_ids().len(),
        find_mod(p.installed(), lowered(p.active_ids())[idx]) == Some(m),
        m.dependencies.has_key(d),
    ensures
        ({
            let ids = lowered(p.active_ids());
            let x = ids[idx];
            let missing = p.issues().has_key(x) && p.issues().value_at(x).view_of().1.contains(d);
            let late = p.issues().has_key(x) && p.issues().value_at(x).view_of().2.contains(d);
            &&& missing <==> !ids.contains(lower_seq(d))
            &&& 0 <= jdx < ids.len() && ids[jdx] == lower_seq(d) ==> (late <==> jdx > idx)
        }),
{
    let ids = lowered(p.active_ids());
    let mods = p.installed();
    let n = ids.len() as int;
    let x = ids[idx];
    let pairs = issue_pairs(ids, mods, n);
    assert(p.issues().holds_pairs(pairs, issue_rel()));
    lemma_last_index_at(ids, idx);
    lemma_issue_pairs_at(ids, mods, n, idx);
    let i = issue_at(ids, mods, idx);
    let keys = m.dependencies.key_seq();
    let j = choose|j: int| 0 <= j < keys.len() && keys[j] == d;
    let km = crate::project::checks::missing_rule(ids);
    let kl = crate::project::checks::late_rule(ids, idx);
    let show = crate::project::checks::as_is();
    if !ids.contains(lower_seq(d)) {
        lemma_pick_keeps(keys, km, show, j);
        assert(reports(i));
        assert(p.issues().key_seq().to_set().contains(x));
    } else if p.issues().has_key(x) {
        assert(p.issues().key_seq().to_set().contains(x));
        if i.1.contains(d) {
            lemma_pick_source(keys, km, show, d);
        }
    }
    if 0 <= jdx < ids.len() && ids[jdx] == lower_seq(d) {
        lemma_last_index_at(ids, jdx);
        if jdx > idx {
            lemma_pick_keeps(keys, kl, show, j);
            assert(reports(i));
            assert(p.issues().key_seq().to_set().contains(x));
        } else if p.issues().has_key(x) {
            assert(p.issues().key_seq().to_set().contains(x));
            if i.2.contains(d) {
                lemma_pick_source(keys, kl, show, d);
            }
        }
    }
}

/// What the scan for the source and the target finds, from position `i` on.
proof fn lemma_find_move(
    ids: Seq<Seq<char>>,
    source: Seq<char>,
    target: Seq<char>,
    i: int,
    s: Option<int>,
    t: Option<int>,
)
    requires
        0 <= i <= ids.len(),
        s matches Some(k) ==> 0 <= k < i && eq_ignore_case(ids[k], source),
        t matches Some(k) ==> 0 <= k < i && eq_ignore_case(ids[k], target),
    ensures
        ({
            let (s2, t2) = find_move(ids, source, target, i, s, t);
            &&& s2 matches Some(k) ==> 0 <= k < ids.len() && eq_ignore_case(ids[k], source)
            &&& t2 matches Some(k) ==> 0 <= k < ids.len() && eq_ignore_case(ids[k], target)
            &&& (s is Some || exists|k: int| i <= k < ids.len() && eq_ignore_case(#[trigger] ids[k], source)) && (
            t is Some || exists|k: int| i <= k < ids.len() && eq_ignore_case(#[trigger] ids[k], target))
                ==> s2 is Some && t2 is Some
            &&& s is None && (forall|k: int| i <= k < ids.len() ==> !eq_ignore_case(#[trigger] ids[k], source))
                ==> s2 is None
            &&& t is None && (forall|k: int| i <= k < ids.len() ==> !eq_ignore_case(#[trigger] ids[k], target))
                ==> t2 is None
        }),
    decreases ids.len() - i,
{
    if i < ids.len() {
        let is_s = eq_ignore_case(ids[i], source);
        let s2 = if is_s {
            Some(i)
        } else {
            s
        };
        let is_t = eq_ignore_case(ids[i], target);
        let t2 = if is_t {
            Some(i)
        } else {
            t
        };
        lemma_find_move(ids, source, target, i + 1, s2, t2);
        if s is None && exists|k: int| i <= k < ids.len() && eq_ignore_case(#[trigger] ids[k], source) {
            let k = choose|k: int| i <= k < ids.len() && eq_ignore_case(#[trigger] ids[k], source);
            if k != i {
                assert(i + 1 <= k);
            }
        }
        if t is None && exists|k: int| i <= k < ids.len() && eq_ignore_case(#[trigger] ids[k], target) {
            let k = choose|k: int| i <= k < ids.len() && eq_ignore_case(#[trigger] ids[k], target);
            if k != i {
                assert(i + 1 <= k);
            }
        }
    }
}

/// Moving finds the source and the target among the active ids ignoring
/// ASCII case: when both stand there (and differ as written), the move is
/// made, from a position holding the source to one holding the target, each
/// equal to it ignoring case; when no active id equals the target ignoring
/// case, the target is not found and the move is refused.
pub proof fn law_move_finds_ignoring_case(ids: Seq<Seq<char>>, source: Seq<char>, target: Seq<char>)
    ensures
        ({
            let (s, t) = find_move(ids, source, target, 0, None, None);
            &&& (exists|k: int| 0 <= k < ids.len() && eq_ignore_case(#[trigger] ids[k], source)) && (exists|k: int|
                0 <= k < ids.len() && eq_ignore_case(#[trigger] ids[k], target)) ==> s is Some && t is Some
            &&& s matches Some(k) ==> 0 <= k < ids.len() && lower_seq(ids[k]) == lower_seq(source)
            &&& t matches Some(k) ==> 0 <= k < ids.len() && lower_seq(ids[k]) == lower_seq(target)
            &&& (forall|k: int| 0 <= k < ids.len() ==> !eq_ignore_case(#[trigger] ids[k], target)) ==> t is None
            &&& (forall|k: int| 0 <= k < ids.len() ==> !eq_ignore_case(#[trigger] ids[k], source)) ==> s is None
        }),
{
    lemma_find_move(ids, source, target, 0, None, None);
}

/// Moving an active mod keeps the same active ids, each as often.
pub proof fn law_move_keeps_ids(ids: Seq<Seq<char>>, s: int, t: int)
    requires
        0 <= s < ids.len(),
        0 <= t < ids.len(),
    ensures
        moved(ids, s, t).to_multiset() == ids.to_multiset(),
        moved(ids, s, t).len() == ids.len(),
{
    broadcast use vstd::seq_lib::to_multiset_remove, vstd::seq_lib::to_multiset_insert;

    let r = ids.remove(s);
    vstd::seq_lib::to_multiset_remove(ids, s);
    vstd::seq_lib::to_multiset_insert(r, t, ids[s]);
    assert(ids.to_multiset().count(ids[s]) > 0) by {
        broadcast use vstd::seq_lib::to_multiset_contains;

        assert(ids.contains(ids[s]));
    }
    assert(moved(ids, s, t).to_multiset() =~= ids.to_multiset()) by {
        broadcast use vstd::multiset::group_multiset_axioms;

    }
}

} // verus!
