//! Ordered string collections: a set of strings and maps keyed by strings,
//! both kept in ascending key order without repeats.
use crate::text::{compare_chars, lemma_less_transitive, lemma_less_trichotomy, seq_less};
use vstd::prelude::*;

verus! {

/// Every element is less than the next one, in the order of `str`
/// (so the sequence is sorted and holds no element twice).
pub open spec fn strictly_sorted(s: Seq<Seq<char>>) -> bool {
    forall|i: int, j: int| 0 <= i < j < s.len() ==> seq_less(#[trigger] s[i], #[trigger] s[j])
}

/// A strictly sorted sequence holds no element twice.
pub proof fn lemma_sorted_no_duplicates(s: Seq<Seq<char>>)
    requires
        strictly_sorted(s),
    ensures
        s.no_duplicates(),
{
    assert forall|i: int, j: int| 0 <= i < s.len() && 0 <= j < s.len() && i != j implies s[i] != s[j] by {
        if i < j {
            lemma_less_trichotomy(s[i], s[j]);
        } else {
            lemma_less_trichotomy(s[j], s[i]);
        }
    }
}

/// Two strictly sorted sequences with the same elements are equal.
pub proof fn lemma_sorted_unique(a: Seq<Seq<char>>, b: Seq<Seq<char>>)
    requires
        strictly_sorted(a),
        strictly_sorted(b),
        a.to_set() == b.to_set(),
    ensures
        a == b,
    decreases a.len(),
{
    if a.len() == 0 {
        if b.len() > 0 {
            assert(b.to_set().contains(b[0]));
            assert(!a.to_set().contains(b[0]));
        }
        assert(a =~= b);
    } else if b.len() == 0 {
        assert(a.to_set().contains(a[0]));
    } else {
        // the first elements are the least elements of the same set
        assert(a.to_set().contains(a[0]));
        assert(b.to_set().contains(a[0]));
        assert(b.to_set().contains(b[0]));
        assert(a.to_set().contains(b[0]));
        let i = choose|i: int| 0 <= i < b.len() && b[i] == a[0];
        let j = choose|j: int| 0 <= j < a.len() && a[j] == b[0];
        if a[0] != b[0] {
            if i > 0 {
                assert(seq_less(b[0], b[i]));
            }
            if j > 0 {
                assert(seq_less(a[0], a[j]));
            }
            lemma_less_trichotomy(a[0], b[0]);
        }
        let a1 = a.drop_first();
        let b1 = b.drop_first();
        assert forall|x: Seq<char>| a1.to_set().contains(x) <==> b1.to_set().contains(x) by {
            if a1.to_set().contains(x) {
                let k = choose|k: int| 0 <= k < a1.len() && a1[k] == x;
                assert(a[k + 1] == x);
                assert(seq_less(a[0], x));
                lemma_less_trichotomy(a[0], x);
                assert(b.to_set().contains(x));
                let m = choose|m: int| 0 <= m < b.len() && b[m] == x;
                assert(m != 0);
                assert(b1[m - 1] == x);
            }
            if b1.to_set().contains(x) {
                let k = choose|k: int| 0 <= k < b1.len() && b1[k] == x;
                assert(b[k + 1] == x);
                assert(seq_less(b[0], x));
                lemma_less_trichotomy(b[0], x);
                assert(a.to_set().contains(x));
                let m = choose|m: int| 0 <= m < a.len() && a[m] == x;
                assert(m != 0);
                assert(a1[m - 1] == x);
            }
        }
        assert(a1.to_set() =~= b1.to_set());
        lemma_sorted_unique(a1, b1);
        assert(a =~= seq![a[0]] + a1);
        assert(b =~= seq![b[0]] + b1);
    }
}

/// Position of `key` among sorted `keys`: the number of keys less than it, and
/// whether the key at that position equals it.
pub fn locate(keys: &Vec<String>, key: &str) -> (r: (usize, bool))
    requires
        strictly_sorted(keys.deep_view()),
    ensures
        r.0 <= keys.len(),
        forall|i: int| 0 <= i < r.0 ==> seq_less(#[trigger] keys.deep_view()[i], key@),
        r.1 <==> r.0 < keys.len() && keys.deep_view()[r.0 as int] == key@,
        !r.1 ==> forall|i: int| r.0 <= i < keys.len() ==> seq_less(key@, #[trigger] keys.deep_view()[i]),
        r.1 <==> keys.deep_view().contains(key@),
{
    let ghost ks = keys.deep_view();
    let mut i: usize = 0;
    while i < keys.len()
        invariant
            ks == keys.deep_view(),
            strictly_sorted(ks),
            i <= keys.len(),
            forall|k: int| 0 <= k < i ==> seq_less(#[trigger] ks[k], key@),
        decreases keys.len() - i,
    {
        let c = compare_chars(keys[i].as_str(), key);
        if c == 0 {
            proof {
                assert(ks[i as int] == key@);
            }
            return (i, true);
        }
        if c == 1 {
            proof {
                assert forall|k: int| i <= k < keys.len() implies seq_less(key@, #[trigger] ks[k]) by {
                    if k > i {
                        lemma_less_transitive(key@, ks[i as int], ks[k]);
                    }
                }
                assert forall|k: int| 0 <= k < ks.len() implies ks[k] != key@ by {
                    if k < i {
                        lemma_less_trichotomy(ks[k], key@);
                    } else {
                        lemma_less_trichotomy(key@, ks[k]);
                    }
                }
            }
            return (i, false);
        }
        i = i + 1;
    }
    proof {
        assert forall|k: int| 0 <= k < ks.len() implies ks[k] != key@ by {
            lemma_less_trichotomy(ks[k], key@);
        }
    }
    (i, false)
}

/// Position of the first element equal to `key`, if any; needs no ordering.
pub fn find_string(items: &[String], key: &str) -> (r: Option<usize>)
    ensures
        r is Some <==> items.deep_view().contains(key@),
        r is Some ==> r.unwrap() < items.deep_view().len() && items.deep_view()[r.unwrap() as int] == key@
            && forall|i: int| 0 <= i < r.unwrap() ==> items.deep_view()[i] != key@,
{
    let ghost ks = items.deep_view();
    let mut i: usize = 0;
    while i < items.len()
        invariant
            ks == items.deep_view(),
            i <= items.len(),
            forall|k: int| 0 <= k < i ==> #[trigger] ks[k] != key@,
        decreases items.len() - i,
    {
        if compare_chars(items[i].as_str(), key) == 0 {
            assert(ks[i as int] == key@);
            return Some(i);
        }
        i = i + 1;
    }
    None
}

/// Inserting `x` at a position where it separates smaller from larger elements
/// keeps a sequence strictly sorted.
pub proof fn lemma_insert_sorted(s: Seq<Seq<char>>, p: int, x: Seq<char>)
    requires
        strictly_sorted(s),
        0 <= p <= s.len(),
        forall|i: int| 0 <= i < p ==> seq_less(#[trigger] s[i], x),
        forall|i: int| p <= i < s.len() ==> seq_less(x, #[trigger] s[i]),
    ensures
        strictly_sorted(s.insert(p, x)),
        s.insert(p, x).to_set() == s.to_set().insert(x),
{
    let t = s.insert(p, x);
    assert forall|i: int, j: int| 0 <= i < j < t.len() implies seq_less(#[trigger] t[i], #[trigger] t[j]) by {
        if i < p && j < p {
        } else if i < p && j == p {
        } else if i < p && j > p {
            assert(t[j] == s[j - 1]);
        } else if i == p {
            assert(t[j] == s[j - 1]);
        } else {
            assert(t[i] == s[i - 1]);
            assert(t[j] == s[j - 1]);
        }
    }
    assert forall|y: Seq<char>| t.to_set().contains(y) <==> s.to_set().insert(x).contains(y) by {
        if t.to_set().contains(y) {
            let k = choose|k: int| 0 <= k < t.len() && t[k] == y;
            if k < p {
                assert(s[k] == y);
            } else if k > p {
                assert(s[k - 1] == y);
            }
        }
        if s.to_set().contains(y) {
            let k = choose|k: int| 0 <= k < s.len() && s[k] == y;
            if k < p {
                assert(t[k] == y);
            } else {
                assert(t[k + 1] == y);
            }
        }
        if y == x {
            assert(t[p] == x);
        }
    }
    assert(t.to_set() =~= s.to_set().insert(x));
}

/// A copy of a vector of strings.
pub fn clone_strings(v: &Vec<String>) -> (r: Vec<String>)
    ensures
        r.deep_view() == v.deep_view(),
{
    let mut r: Vec<String> = Vec::new();
    let mut i: usize = 0;
    while i < v.len()
        invariant
            i <= v.len(),
            r.deep_view() == v.deep_view().take(i as int),
            r@.len() == i,
        decreases v.len() - i,
    {
        let s = v[i].clone();
        assert(s@ == v.deep_view()[i as int]);
        let ghost before = r.deep_view();
        let ghost old_r = r;
        r.push(s);
        assert(r@.len() == i + 1);
        assert forall|k: int| 0 <= k <= i implies #[trigger] r.deep_view()[k] == v.deep_view().take(i + 1)[k] by {
            if k < i {
                assert(r.deep_view()[k] == r@[k]@);
                assert(r@[k] == old_r@[k]);
                assert(old_r.deep_view()[k] == old_r@[k]@);
            }
        }
        assert(r.deep_view() =~= v.deep_view().take(i + 1));
        i = i + 1;
    }
    assert(v.deep_view().take(v.len() as int) =~= v.deep_view());
    r
}

/// A set of strings, ordered as `BTreeSet<String>` orders them.
#[derive(Debug)]
pub struct StringSet {
    items: Vec<String>,
}

impl View for StringSet {
    type V = Seq<Seq<char>>;

    /// The elements in ascending order.
    closed spec fn view(&self) -> Seq<Seq<char>> {
        self.items.deep_view()
    }
}

impl StringSet {
    /// The elements are strictly sorted.
    pub open spec fn wf(&self) -> bool {
        strictly_sorted(self@)
    }

    /// An empty set.
    pub fn new() -> (r: Self)
        ensures
            r@ == Seq::<Seq<char>>::empty(),
            r.wf(),
    {
        StringSet { items: Vec::new() }
    }

    /// Adds `value`; returns whether it was not yet present.
    pub fn insert(&mut self, value: String) -> (r: bool)
        requires
            old(self).wf(),
        ensures
            final(self).wf(),
            final(self)@.to_set() == old(self)@.to_set().insert(value@),
            r == !old(self)@.contains(value@),
            !r ==> final(self)@ == old(self)@,
    {
        let (pos, found) = locate(&self.items, value.as_str());
        if found {
            return false;
        }
        proof {
            lemma_insert_sorted(self@, pos as int, value@);
        }
        let ghost before = self@;
        self.items.insert(pos, value);
        assert(self@ =~= before.insert(pos as int, value@));
        true
    }

    /// Whether `value` is an element.
    pub fn contains(&self, value: &str) -> (r: bool)
        ensures
            r == self@.contains(value@),
    {
        find_string(self.items.as_slice(), value).is_some()
    }

    /// The number of elements.
    pub fn len(&self) -> (r: usize)
        ensures
            r == self@.len(),
    {
        self.items.len()
    }

    /// Whether the set is empty.
    pub fn is_empty(&self) -> (r: bool)
        ensures
            r == (self@.len() == 0),
    {
        self.items.len() == 0
    }

    /// The elements in ascending order.
    pub fn as_slice(&self) -> (r: &[String])
        ensures
            r.deep_view() == self@,
    {
        self.items.as_slice()
    }

    /// A copy of the set.
    pub fn duplicate(&self) -> (r: Self)
        ensures
            r@ == self@,
    {
        StringSet { items: clone_strings(&self.items) }
    }

    /// The set of the given strings.
    pub fn from_strings(values: Vec<String>) -> (r: Self)
        ensures
            r.wf(),
            r@.to_set() == values.deep_view().to_set(),
    {
        let mut set = StringSet::new();
        let mut i: usize = 0;
        while i < values.len()
            invariant
                i <= values.len(),
                set.wf(),
                set@.to_set() == values.deep_view().take(i as int).to_set(),
            decreases values.len() - i,
        {
            set.insert(values[i].clone());
            assert(values.deep_view().take(i + 1) =~= values.deep_view().take(i as int).push(
                values.deep_view()[i as int],
            ));
            proof {
                values.deep_view().take(i as int).lemma_push_to_set_commute(values.deep_view()[i as int]);
            }
            i = i + 1;
        }
        assert(values.deep_view().take(values.len() as int) =~= values.deep_view());
        set
    }
}

/// Values that can be copied with a stated result: `duplicate` returns a value
/// that `same` relates to the value it copies.
pub trait Duplicate: Sized {
    /// The two values hold the same data.
    spec fn same(&self, other: &Self) -> bool;

    /// A copy of the value.
    fn duplicate(&self) -> (r: Self)
        ensures
            r.same(self),
    ;
}

impl Duplicate for String {
    open spec fn same(&self, other: &Self) -> bool {
        self@ == other@
    }

    fn duplicate(&self) -> (r: Self) {
        self.clone()
    }
}

impl Duplicate for StringSet {
    open spec fn same(&self, other: &Self) -> bool {
        self@ == other@
    }

    fn duplicate(&self) -> (r: Self) {
        StringSet { items: clone_strings(&self.items) }
    }
}

/// A map keyed by strings, ordered as `BTreeMap<String, V>` orders its keys.
#[derive(Debug)]
pub struct StringMap<V> {
    keys: Vec<String>,
    values: Vec<V>,
}

impl<V> StringMap<V> {
    /// The keys in ascending order.
    pub closed spec fn key_seq(&self) -> Seq<Seq<char>> {
        self.keys.deep_view()
    }

    /// The values, in the order of their keys.
    pub closed spec fn value_seq(&self) -> Seq<V> {
        self.values@
    }

    /// Keys are strictly sorted and each has one value.
    pub open spec fn wf(&self) -> bool {
        &&& strictly_sorted(self.key_seq())
        &&& self.key_seq().len() == self.value_seq().len()
    }

    /// Whether `key` is a key of the map.
    pub open spec fn has_key(&self, key: Seq<char>) -> bool {
        self.key_seq().contains(key)
    }

    /// The value of `key` (meaningful when it is a key).
    pub open spec fn value_at(&self, key: Seq<char>) -> V {
        self.value_seq()[self.key_seq().index_of(key)]
    }

    /// An empty map.
    pub fn new() -> (r: Self)
        ensures
            r.wf(),
            r.key_seq() == Seq::<Seq<char>>::empty(),
    {
        StringMap { keys: Vec::new(), values: Vec::new() }
    }

    /// Sets the value of `key`, replacing the value it had; the keys stay sorted.
    pub fn insert(&mut self, key: String, value: V)
        requires
            old(self).wf(),
        ensures
            final(self).wf(),
            final(self).key_seq().to_set() == old(self).key_seq().to_set().insert(key@),
            forall|k: Seq<char>|
                #[trigger] final(self).has_key(k) ==> final(self).value_at(k) == if k == key@ {
                    value
                } else {
                    old(self).value_at(k)
                },
            old(self).has_key(key@) ==> final(self).key_seq() == old(self).key_seq(),
    {
        let (pos, found) = locate(&self.keys, key.as_str());
        let ghost ks = self.key_seq();
        let ghost vs = self.value_seq();
        proof {
            crate::collections::lemma_sorted_no_duplicates(ks);
        }
        if found {
            self.values.set(pos, value);
            proof {
                assert forall|k: Seq<char>| #[trigger] self.has_key(k) implies self.value_at(k) == if k == key@ {
                    value
                } else {
                    old(self).value_at(k)
                } by {
                    ks.index_of_first(k);
                    let j = ks.index_of(k);
                    if k == key@ {
                        assert(ks[pos as int] == key@);
                        ks.index_of_first(key@);
                        assert(j == pos);
                    }
                }
                assert(ks.to_set() =~= ks.to_set().insert(key@));
            }
            return;
        }
        proof {
            lemma_insert_sorted(ks, pos as int, key@);
        }
        self.keys.insert(pos, key);
        self.values.insert(pos, value);
        proof {
            let nks = self.key_seq();
            assert(nks =~= ks.insert(pos as int, key@));
            lemma_sorted_no_duplicates(nks);
            assert forall|k: Seq<char>| #[trigger] self.has_key(k) implies self.value_at(k) == if k == key@ {
                value
            } else {
                old(self).value_at(k)
            } by {
                nks.index_of_first(k);
                let i = nks.index_of(k);
                if i == pos {
                } else {
                    let oi = if i < pos { i } else { i - 1 };
                    assert(nks[i] == ks[oi]);
                    assert(self.value_seq()[i] == vs[oi]);
                    assert(ks.contains(ks[oi]));
                    ks.index_of_first(ks[oi]);
                    assert(ks.index_of(ks[oi]) == oi);
                }
            }
        }
    }

    /// Whether `key` is a key of the map.
    pub fn contains_key(&self, key: &str) -> (r: bool)
        ensures
            r == self.has_key(key@),
    {
        find_string(self.keys.as_slice(), key).is_some()
    }

    /// The value of `key`, if it is a key.
    pub fn get(&self, key: &str) -> (r: Option<&V>)
        requires
            self.wf(),
        ensures
            r is Some <==> self.has_key(key@),
            r is Some ==> *r.unwrap() == self.value_seq()[self.key_seq().index_of(key@)],
    {
        let (pos, found) = locate(&self.keys, key);
        if found {
            proof {
                lemma_sorted_no_duplicates(self.key_seq());
                self.key_seq().index_of_first(key@);
                let j = self.key_seq().index_of(key@);
                assert(self.key_seq()[j] == key@);
            }
            Some(&self.values[pos])
        } else {
            None
        }
    }

    /// The number of keys.
    pub fn len(&self) -> (r: usize)
        ensures
            r == self.key_seq().len(),
    {
        self.keys.len()
    }

    /// Whether the map is empty.
    pub fn is_empty(&self) -> (r: bool)
        ensures
            r == (self.key_seq().len() == 0),
    {
        self.keys.len() == 0
    }

    /// The keys in ascending order.
    pub fn keys(&self) -> (r: &[String])
        ensures
            r.deep_view() == self.key_seq(),
    {
        self.keys.as_slice()
    }

    /// The values in the order of their keys.
    pub fn values(&self) -> (r: &[V])
        ensures
            r@ == self.value_seq(),
    {
        self.values.as_slice()
    }
}

/// `p` tells where each item of `new` stood in `old`: position `k` of
/// `new` holds the item at position `p[k]` of `old`, and no position of
/// `old` is used twice.
pub open spec fn arranged_by<T>(new: Seq<T>, old: Seq<T>, p: Seq<int>) -> bool {
    &&& p.len() == new.len()
    &&& new.len() == old.len()
    &&& forall|k: int| 0 <= k < p.len() ==> 0 <= #[trigger] p[k] < old.len() && new[k] == old[p[k]]
    &&& forall|a: int, b: int| 0 <= a < b < p.len() ==> #[trigger] p[a] != #[trigger] p[b]
}

/// Moving the item at position `i` to position `pos` moves its place in
/// the arrangement with it.
pub proof fn lemma_arranged_move<T>(s: Seq<T>, old: Seq<T>, p: Seq<int>, i: int, pos: int)
    requires
        arranged_by(s, old, p),
        0 <= pos <= i < s.len(),
    ensures
        arranged_by(s.remove(i).insert(pos, s[i]), old, p.remove(i).insert(pos, p[i])),
{
    let t = s.remove(i).insert(pos, s[i]);
    let q = p.remove(i).insert(pos, p[i]);
    assert forall|k: int| 0 <= k < q.len() implies 0 <= #[trigger] q[k] < old.len() && t[k] == old[q[k]] by {
        if k < pos {
            assert(q[k] == p[k] && t[k] == s[k]);
        } else if k == pos {
        } else if k <= i {
            assert(q[k] == p[k - 1] && t[k] == s[k - 1]);
        } else {
            assert(q[k] == p[k] && t[k] == s[k]);
        }
    }
    assert forall|a: int, b: int| 0 <= a < b < q.len() implies #[trigger] q[a] != #[trigger] q[b] by {
        let oa = if a < pos { a } else if a == pos { i } else if a <= i { a - 1 } else { a };
        let ob = if b < pos { b } else if b == pos { i } else if b <= i { b - 1 } else { b };
        assert(q[a] == p[oa] && q[b] == p[ob]);
        assert(oa != ob);
        if oa < ob {
            assert(p[oa] != p[ob]);
        } else {
            assert(p[ob] != p[oa]);
        }
    }
}

/// The keys of a sequence of key/value pairs.
pub open spec fn pair_keys<W>(pairs: Seq<(Seq<char>, W)>) -> Set<Seq<char>> {
    pairs.map_values(|p: (Seq<char>, W)| p.0).to_set()
}

/// The value last paired with `key` (meaningful when some pair has that key).
pub open spec fn last_value<W>(pairs: Seq<(Seq<char>, W)>, key: Seq<char>) -> W
    decreases pairs.len(),
{
    if pairs.len() == 0 {
        arbitrary()
    } else if pairs.last().0 == key {
        pairs.last().1
    } else {
        last_value(pairs.drop_last(), key)
    }
}

impl<V> StringMap<V> {
    /// The map is what inserting `pairs` one after the other into an empty map
    /// gives, each value related by `rel` to the value of its pair: later pairs
    /// replace earlier ones with the same key.
    pub open spec fn holds_pairs<W>(&self, pairs: Seq<(Seq<char>, W)>, rel: spec_fn(V, W) -> bool) -> bool {
        &&& self.wf()
        &&& self.key_seq().to_set() == pair_keys(pairs)
        &&& forall|k: Seq<char>| #[trigger] self.has_key(k) ==> rel(self.value_at(k), last_value(pairs, k))
    }

    /// Inserts a key and a value that `rel` relates to `w`: the map then holds
    /// the pairs with `(key, w)` added at the end.
    pub fn insert_pair<W>(
        &mut self,
        key: String,
        value: V,
        Ghost(pairs): Ghost<Seq<(Seq<char>, W)>>,
        Ghost(w): Ghost<W>,
        Ghost(rel): Ghost<spec_fn(V, W) -> bool>,
    )
        requires
            old(self).holds_pairs(pairs, rel),
            rel(value, w),
        ensures
            final(self).holds_pairs(pairs.push((key@, w)), rel),
    {
        let ghost k0 = key@;
        self.insert(key, value);
        proof {
            let np = pairs.push((k0, w));
            let f = |p: (Seq<char>, W)| p.0;
            assert(np.map_values(f) =~= pairs.map_values(f).push(k0));
            pairs.map_values(f).lemma_push_to_set_commute(k0);
            assert(np.drop_last() =~= pairs);
            assert forall|k: Seq<char>| #[trigger] self.has_key(k) implies rel(self.value_at(k), last_value(np, k)) by {
                if k != k0 {
                    assert(self.key_seq().to_set().contains(k));
                    assert(old(self).key_seq().to_set().contains(k));
                    assert(old(self).has_key(k));
                }
            }
        }
    }
}

/// The empty map holds no pairs.
pub proof fn lemma_empty_holds<V, W>(m: StringMap<V>, rel: spec_fn(V, W) -> bool)
    requires
        m.wf(),
        m.key_seq() == Seq::<Seq<char>>::empty(),
    ensures
        m.holds_pairs(Seq::<(Seq<char>, W)>::empty(), rel),
{
    let f = |p: (Seq<char>, W)| p.0;
    assert(Seq::<(Seq<char>, W)>::empty().map_values(f) =~= Seq::<Seq<char>>::empty());
    assert(m.key_seq().to_set() =~= Set::<Seq<char>>::empty());
}

impl<V: Duplicate> Duplicate for StringMap<V> {
    open spec fn same(&self, other: &Self) -> bool {
        &&& self.key_seq() == other.key_seq()
        &&& self.value_seq().len() == other.value_seq().len()
        &&& forall|i: int|
            0 <= i < self.value_seq().len() ==> #[trigger] self.value_seq()[i].same(&other.value_seq()[i])
    }

    fn duplicate(&self) -> (r: Self) {
        let mut values: Vec<V> = Vec::new();
        let mut i: usize = 0;
        while i < self.values.len()
            invariant
                i <= self.values.len(),
                values@.len() == i,
                forall|k: int| 0 <= k < i ==> #[trigger] values@[k].same(&self.values@[k]),
            decreases self.values.len() - i,
        {
            values.push(self.values[i].duplicate());
            i = i + 1;
        }
        StringMap { keys: clone_strings(&self.keys), values }
    }
}

impl<V: Duplicate> Duplicate for Option<V> {
    open spec fn same(&self, other: &Self) -> bool {
        match (self, other) {
            (Some(a), Some(b)) => a.same(b),
            (None, None) => true,
            _ => false,
        }
    }

    fn duplicate(&self) -> (r: Self) {
        match self {
            Some(v) => Some(v.duplicate()),
            None => None,
        }
    }
}

impl<V: Duplicate> Duplicate for Vec<V> {
    open spec fn same(&self, other: &Self) -> bool {
        &&& self@.len() == other@.len()
        &&& forall|i: int| 0 <= i < self@.len() ==> #[trigger] self@[i].same(&other@[i])
    }

    fn duplicate(&self) -> (r: Self) {
        let mut out: Vec<V> = Vec::new();
        let mut i: usize = 0;
        while i < self.len()
            invariant
                i <= self.len(),
                out@.len() == i,
                forall|k: int| 0 <= k < i ==> #[trigger] out@[k].same(&self@[k]),
            decreases self.len() - i,
        {
            out.push(self[i].duplicate());
            i = i + 1;
        }
        out
    }
}

} // verus!
