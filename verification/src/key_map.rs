//! `KeyMap<V>`: a map from string keys to values, kept as a vector of entries
//! sorted strictly by key. Iteration therefore yields keys in ascending order,
//! which is the order in which documents and collections are listed.

use vstd::prelude::*;

use crate::keys::{compare_keys, key_lt, lemma_key_lt_strict_total, KeyOrder};

verus! {

/// The entries are sorted strictly by key, so no key occurs twice.
pub open spec fn entries_sorted<V>(s: Seq<(String, V)>) -> bool {
    forall|i: int, j: int| 0 <= i < j < s.len() ==> key_lt(#[trigger] s[i].0@, #[trigger] s[j].0@)
}

/// Some entry of `s` has key `k`.
pub open spec fn entries_have_key<V>(s: Seq<(String, V)>, k: Seq<char>) -> bool {
    exists|i: int| 0 <= i < s.len() && #[trigger] s[i].0@ == k
}

/// An entry of `s` with key `k`, when there is one.
pub open spec fn entries_index_of<V>(s: Seq<(String, V)>, k: Seq<char>) -> int {
    choose|i: int| 0 <= i < s.len() && #[trigger] s[i].0@ == k
}

/// The map that a sequence of entries stands for.
pub open spec fn entries_map<V>(s: Seq<(String, V)>) -> Map<Seq<char>, V> {
    Map::new(
        |k: Seq<char>| entries_have_key(s, k),
        |k: Seq<char>| s[entries_index_of(s, k)].1,
    )
}

/// In a sorted sequence of entries, the key at `i` maps to the value at `i`.
pub proof fn lemma_entries_map_index<V>(s: Seq<(String, V)>, i: int)
    requires
        entries_sorted(s),
        0 <= i < s.len(),
    ensures
        entries_map(s).contains_key(s[i].0@),
        entries_map(s)[s[i].0@] == s[i].1,
{
    let k = s[i].0@;
    assert(entries_have_key(s, k));
    let j = entries_index_of(s, k);
    if j < i {
        lemma_key_lt_strict_total(s[j].0@, s[i].0@, s[i].0@);
    } else if i < j {
        lemma_key_lt_strict_total(s[i].0@, s[j].0@, s[j].0@);
    }
    assert(j == i);
    assert(entries_map(s)[k] == s[j].1);
}

/// A sorted sequence has at most one entry per key.
pub proof fn lemma_entries_unique<V>(s: Seq<(String, V)>, i: int, j: int)
    requires
        entries_sorted(s),
        0 <= i < s.len(),
        0 <= j < s.len(),
        s[i].0@ == s[j].0@,
    ensures
        i == j,
{
    if i < j {
        lemma_key_lt_strict_total(s[i].0@, s[j].0@, s[j].0@);
    } else if j < i {
        lemma_key_lt_strict_total(s[j].0@, s[i].0@, s[i].0@);
    }
}

/// The number of keys of the map is the number of entries.
pub proof fn lemma_entries_map_len<V>(s: Seq<(String, V)>)
    requires
        entries_sorted(s),
    ensures
        entries_map(s).dom().finite(),
        entries_map(s).len() == s.len(),
    decreases s.len(),
{
    if s.len() == 0 {
        assert(entries_map(s).dom() =~= Set::empty());
    } else {
        let t = s.drop_last();
        assert(entries_sorted(t));
        lemma_entries_map_len(t);
        let k = s.last().0@;
        assert forall|x: Seq<char>| #[trigger] entries_map(s).dom().contains(x) <==> entries_map(t).dom().insert(k).contains(x) by {
            if entries_have_key(s, x) {
                let i = choose|i: int| 0 <= i < s.len() && #[trigger] s[i].0@ == x;
                if i < s.len() - 1 {
                    assert(t[i].0@ == x);
                }
            }
            if entries_have_key(t, x) {
                let i = choose|i: int| 0 <= i < t.len() && #[trigger] t[i].0@ == x;
                assert(s[i].0@ == x);
            }
            if x == k {
                assert(s[s.len() - 1].0@ == x);
            }
        }
        assert(entries_map(s).dom() =~= entries_map(t).dom().insert(k));
        if entries_have_key(t, k) {
            let i = choose|i: int| 0 <= i < t.len() && #[trigger] t[i].0@ == k;
            assert(s[i].0@ == k);
            lemma_entries_unique(s, i, s.len() - 1);
        }
    }
}

/// Replacing the value at an existing key.
proof fn lemma_entries_map_update<V>(s: Seq<(String, V)>, i: int, e: (String, V))
    requires
        entries_sorted(s),
        0 <= i < s.len(),
        e.0@ == s[i].0@,
    ensures
        entries_sorted(s.update(i, e)),
        entries_map(s.update(i, e)) =~= entries_map(s).insert(e.0@, e.1),
{
    let t = s.update(i, e);
    assert forall|a: int, b: int| 0 <= a < b < t.len() implies key_lt(#[trigger] t[a].0@, #[trigger] t[b].0@) by {
        assert(key_lt(s[a].0@, s[b].0@));
    }
    assert forall|k: Seq<char>| entries_have_key(t, k) <==> entries_have_key(s, k) by {
        if entries_have_key(t, k) {
            let j = choose|j: int| 0 <= j < t.len() && #[trigger] t[j].0@ == k;
            assert(s[j].0@ == k);
        }
        if entries_have_key(s, k) {
            let j = choose|j: int| 0 <= j < s.len() && #[trigger] s[j].0@ == k;
            assert(t[j].0@ == k);
        }
    }
    assert forall|k: Seq<char>| #[trigger] entries_map(t).contains_key(k) implies entries_map(t)[k] == entries_map(s).insert(e.0@, e.1)[k] by {
        let j = choose|j: int| 0 <= j < t.len() && #[trigger] t[j].0@ == k;
        lemma_entries_map_index(t, j);
        if j != i {
            assert(s[j] == t[j]);
            lemma_entries_map_index(s, j);
            if k == e.0@ {
                lemma_entries_unique(s, j, i);
            }
        }
    }
}

/// Inserting a new key at its sorted position.
pub proof fn lemma_entries_map_insert<V>(s: Seq<(String, V)>, p: int, e: (String, V))
    requires
        entries_sorted(s),
        0 <= p <= s.len(),
        forall|j: int| 0 <= j < p ==> key_lt(#[trigger] s[j].0@, e.0@),
        forall|j: int| p <= j < s.len() ==> key_lt(e.0@, #[trigger] s[j].0@),
    ensures
        entries_sorted(s.insert(p, e)),
        entries_map(s.insert(p, e)) =~= entries_map(s).insert(e.0@, e.1),
{
    let t = s.insert(p, e);
    assert forall|a: int, b: int| 0 <= a < b < t.len() implies key_lt(#[trigger] t[a].0@, #[trigger] t[b].0@) by {
        if b < p {
            assert(key_lt(s[a].0@, s[b].0@));
        } else if b == p {
        } else if a < p {
            assert(key_lt(s[a].0@, e.0@));
            assert(key_lt(e.0@, s[b - 1].0@));
            lemma_key_lt_strict_total(s[a].0@, e.0@, s[b - 1].0@);
        } else if a == p {
        } else {
            assert(key_lt(s[a - 1].0@, s[b - 1].0@));
        }
    }
    assert forall|k: Seq<char>| entries_have_key(t, k) <==> (entries_have_key(s, k) || k == e.0@) by {
        if entries_have_key(t, k) {
            let j = choose|j: int| 0 <= j < t.len() && #[trigger] t[j].0@ == k;
            if j < p {
                assert(s[j].0@ == k);
            } else if j > p {
                assert(s[j - 1].0@ == k);
            }
        }
        if entries_have_key(s, k) {
            let j = choose|j: int| 0 <= j < s.len() && #[trigger] s[j].0@ == k;
            if j < p {
                assert(t[j].0@ == k);
            } else {
                assert(t[j + 1].0@ == k);
            }
        }
        if k == e.0@ {
            assert(t[p].0@ == k);
        }
    }
    assert forall|k: Seq<char>| #[trigger] entries_map(t).contains_key(k) implies entries_map(t)[k] == entries_map(s).insert(e.0@, e.1)[k] by {
        let j = choose|j: int| 0 <= j < t.len() && #[trigger] t[j].0@ == k;
        lemma_entries_map_index(t, j);
        if j < p {
            assert(s[j] == t[j]);
            lemma_entries_map_index(s, j);
            lemma_key_lt_strict_total(s[j].0@, e.0@, e.0@);
        } else if j > p {
            assert(s[j - 1] == t[j]);
            lemma_entries_map_index(s, j - 1);
            lemma_key_lt_strict_total(e.0@, s[j - 1].0@, e.0@);
        }
    }
}

/// Removing the entry at `i`.
proof fn lemma_entries_map_remove<V>(s: Seq<(String, V)>, i: int)
    requires
        entries_sorted(s),
        0 <= i < s.len(),
    ensures
        entries_sorted(s.remove(i)),
        entries_map(s.remove(i)) =~= entries_map(s).remove(s[i].0@),
{
    let t = s.remove(i);
    let k0 = s[i].0@;
    assert forall|a: int, b: int| 0 <= a < b < t.len() implies key_lt(#[trigger] t[a].0@, #[trigger] t[b].0@) by {
        if b < i {
            assert(key_lt(s[a].0@, s[b].0@));
        } else if a < i {
            assert(key_lt(s[a].0@, s[b + 1].0@));
        } else {
            assert(key_lt(s[a + 1].0@, s[b + 1].0@));
        }
    }
    assert forall|k: Seq<char>| entries_have_key(t, k) <==> (entries_have_key(s, k) && k != k0) by {
        if entries_have_key(t, k) {
            let j = choose|j: int| 0 <= j < t.len() && #[trigger] t[j].0@ == k;
            if j < i {
                assert(s[j].0@ == k);
                if k == k0 {
                    lemma_entries_unique(s, j, i);
                }
            } else {
                assert(s[j + 1].0@ == k);
                if k == k0 {
                    lemma_entries_unique(s, j + 1, i);
                }
            }
        }
        if entries_have_key(s, k) && k != k0 {
            let j = choose|j: int| 0 <= j < s.len() && #[trigger] s[j].0@ == k;
            if j < i {
                assert(t[j].0@ == k);
            } else {
                assert(t[j - 1].0@ == k);
            }
        }
    }
    assert forall|k: Seq<char>| #[trigger] entries_map(t).contains_key(k) implies entries_map(t)[k] == entries_map(s).remove(k0)[k] by {
        let j = choose|j: int| 0 <= j < t.len() && #[trigger] t[j].0@ == k;
        lemma_entries_map_index(t, j);
        if j < i {
            lemma_entries_map_index(s, j);
        } else {
            lemma_entries_map_index(s, j + 1);
        }
    }
}

/// A map from string keys to values whose entries are kept sorted by key.
#[derive(Debug, PartialEq)]
pub struct KeyMap<V> {
    entries: Vec<(String, V)>,
}

impl<V> KeyMap<V> {
    /// The entries, in ascending key order.
    pub closed spec fn spec_entries(&self) -> Seq<(String, V)> {
        self.entries@
    }

    #[verifier::type_invariant]
    closed spec fn inv(&self) -> bool {
        entries_sorted(self.entries@)
    }

    /// The entries are below the map itself (for recursive definitions).
    pub proof fn lemma_entries_decrease(m: KeyMap<V>)
        ensures
            decreases_to!(m => m.spec_entries()),
    {
        assert(decreases_to!(m => m.entries));
        assert(decreases_to!(m.entries => m.entries@));
    }

    /// Each value is below the map itself (for recursive definitions).
    pub proof fn lemma_entry_decreases(m: KeyMap<V>, i: int)
        requires
            0 <= i < m.spec_entries().len(),
        ensures
            decreases_to!(m => m.spec_entries()[i].1),
    {
        assert(decreases_to!(m => m.entries));
        assert(decreases_to!(m.entries => m.entries@));
        assert(decreases_to!(m.entries@ => m.entries@[i]));
        assert(decreases_to!(m.entries@[i] => m.entries@[i].1));
    }

    /// An empty map.
    pub fn new() -> (m: Self)
        ensures
            m@ == Map::<Seq<char>, V>::empty(),
            m.spec_entries().len() == 0,
    {
        let m = KeyMap { entries: Vec::new() };
        assert(m@ =~= Map::<Seq<char>, V>::empty());
        m
    }

    /// Builds a map from entries that are already sorted strictly by key.
    pub fn from_sorted_entries(entries: Vec<(String, V)>) -> (m: Self)
        requires
            entries_sorted(entries@),
        ensures
            m.spec_entries() == entries@,
    {
        KeyMap { entries }
    }

    /// The number of keys.
    pub fn len(&self) -> (n: usize)
        ensures
            n == self.spec_entries().len(),
            n == self@.len(),
            self@.dom().finite(),
    {
        proof {
            use_type_invariant(self);
            lemma_entries_map_len(self.entries@);
        }
        self.entries.len()
    }

    /// Whether the map has no key.
    pub fn is_empty(&self) -> (b: bool)
        ensures
            b == (self@ == Map::<Seq<char>, V>::empty()),
    {
        proof {
            use_type_invariant(self);
            lemma_entries_map_len(self.entries@);
            if self.entries@.len() == 0 {
                assert(self@ =~= Map::<Seq<char>, V>::empty());
            } else {
                lemma_entries_map_index(self.entries@, 0);
                assert(self@.contains_key(self.entries@[0].0@));
            }
        }
        self.entries.len() == 0
    }

    /// The entries in ascending key order.
    pub fn entries(&self) -> (r: &Vec<(String, V)>)
        ensures
            r@ == self.spec_entries(),
            entries_sorted(r@),
            entries_map(r@) == self@,
    {
        proof {
            use_type_invariant(self);
        }
        &self.entries
    }

    /// The entries in ascending key order, taken out of the map.
    pub fn into_entries(self) -> (r: Vec<(String, V)>)
        ensures
            r@ == self.spec_entries(),
            entries_sorted(r@),
            entries_map(r@) == self@,
    {
        proof {
            use_type_invariant(&self);
        }
        self.entries
    }

    /// Binary search: `Ok(i)` when the key is at entry `i`, `Err(p)` with the
    /// position at which the key would be inserted otherwise.
    pub fn search(&self, key: &str) -> (r: Result<usize, usize>)
        ensures
            match r {
                Ok(i) => i < self.spec_entries().len() && self.spec_entries()[i as int].0@ == key@,
                Err(p) => {
                    &&& p <= self.spec_entries().len()
                    &&& forall|j: int| 0 <= j < p ==> key_lt(#[trigger] self.spec_entries()[j].0@, key@)
                    &&& forall|j: int|
                        p <= j < self.spec_entries().len() ==> key_lt(key@, #[trigger] self.spec_entries()[j].0@)
                },
            },
    {
        proof {
            use_type_invariant(self);
        }
        self_search(&self.entries, key)
    }

    proof fn lemma_search_absent(&self, key: Seq<char>, p: int)
        requires
            entries_sorted(self.entries@),
            0 <= p <= self.entries@.len(),
            forall|j: int| 0 <= j < p ==> key_lt(#[trigger] self.entries@[j].0@, key),
            forall|j: int| p <= j < self.entries@.len() ==> key_lt(key, #[trigger] self.entries@[j].0@),
        ensures
            !self@.contains_key(key),
    {
        if entries_have_key(self.entries@, key) {
            let j = choose|j: int| 0 <= j < self.entries@.len() && #[trigger] self.entries@[j].0@ == key;
            lemma_key_lt_strict_total(key, key, key);
        }
    }

    /// Whether `key` is present.
    pub fn contains_key(&self, key: &str) -> (b: bool)
        ensures
            b == self@.contains_key(key@),
    {
        proof {
            use_type_invariant(self);
        }
        match self.search(key) {
            Ok(i) => {
                proof {
                    lemma_entries_map_index(self.entries@, i as int);
                }
                true
            },
            Err(p) => {
                proof {
                    self.lemma_search_absent(key@, p as int);
                }
                false
            },
        }
    }

    /// The value stored at `key`, if any.
    pub fn get(&self, key: &str) -> (r: Option<&V>)
        ensures
            r is Some == self@.contains_key(key@),
            r matches Some(v) ==> *v == self@[key@],
    {
        proof {
            use_type_invariant(self);
        }
        match self.search(key) {
            Ok(i) => {
                proof {
                    lemma_entries_map_index(self.entries@, i as int);
                }
                Some(&self.entries[i].1)
            },
            Err(p) => {
                proof {
                    self.lemma_search_absent(key@, p as int);
                }
                None
            },
        }
    }

    /// Stores `value` at `key` and hands back the value that was there.
    pub fn insert(&mut self, key: String, value: V) -> (r: Option<V>)
        ensures
            final(self)@ == old(self)@.insert(key@, value),
            r is Some == old(self)@.contains_key(key@),
            r matches Some(v) ==> v == old(self)@[key@],
    {
        proof {
            use_type_invariant(&*self);
        }
        let ghost s = self.entries@;
        let mut entries = Vec::new();
        std::mem::swap(&mut entries, &mut self.entries);
        let r = match self_search(&entries, key.as_str()) {
            Ok(i) => {
                let ghost k = key@;
                let old_entry = entries.remove(i);
                proof {
                    lemma_entries_map_index(s, i as int);
                    assert(entries@.insert(i as int, (key, value)) =~= s.update(i as int, (key, value)));
                    lemma_entries_map_update(s, i as int, (key, value));
                }
                entries.insert(i, (key, value));
                Some(old_entry.1)
            },
            Err(p) => {
                proof {
                    lemma_entries_map_insert(s, p as int, (key, value));
                    if entries_have_key(s, key@) {
                        let j = choose|j: int| 0 <= j < s.len() && #[trigger] s[j].0@ == key@;
                        lemma_key_lt_strict_total(key@, key@, key@);
                    }
                }
                entries.insert(p, (key, value));
                None
            },
        };
        self.entries = entries;
        r
    }

    /// Removes `key` and hands back its value.
    pub fn remove(&mut self, key: &str) -> (r: Option<V>)
        ensures
            final(self)@ == old(self)@.remove(key@),
            r is Some == old(self)@.contains_key(key@),
            r matches Some(v) ==> v == old(self)@[key@],
    {
        proof {
            use_type_invariant(&*self);
        }
        let ghost s = self.entries@;
        let mut entries = Vec::new();
        std::mem::swap(&mut entries, &mut self.entries);
        let r = match self_search(&entries, key) {
            Ok(i) => {
                proof {
                    lemma_entries_map_index(s, i as int);
                    lemma_entries_map_remove(s, i as int);
                }
                let e = entries.remove(i);
                Some(e.1)
            },
            Err(p) => {
                proof {
                    if entries_have_key(s, key@) {
                        let j = choose|j: int| 0 <= j < s.len() && #[trigger] s[j].0@ == key@;
                        lemma_key_lt_strict_total(key@, key@, key@);
                    }
                    assert(entries_map(s).remove(key@) =~= entries_map(s));
                }
                None
            },
        };
        self.entries = entries;
        r
    }

    /// The keys, in ascending order.
    pub fn keys(&self) -> (r: Vec<String>)
        ensures
            r@.len() == self.spec_entries().len(),
            forall|i: int| 0 <= i < r@.len() ==> #[trigger] r@[i]@ == self.spec_entries()[i].0@,
            forall|i: int, j: int| 0 <= i < j < r@.len() ==> key_lt(#[trigger] r@[i]@, #[trigger] r@[j]@),
            forall|k: Seq<char>| #[trigger] self@.contains_key(k) <==> exists|i: int| 0 <= i < r@.len() && #[trigger] r@[i]@ == k,
    {
        proof {
            use_type_invariant(self);
        }
        let mut r: Vec<String> = Vec::new();
        let n = self.entries.len();
        let mut i: usize = 0;
        while i < n
            invariant
                n == self.entries@.len(),
                i <= n,
                r@.len() == i,
                forall|j: int| 0 <= j < i ==> #[trigger] r@[j]@ == self.entries@[j].0@,
            decreases n - i,
        {
            r.push(self.entries[i].0.clone());
            i = i + 1;
        }
        proof {
            let s = self.entries@;
            assert forall|a: int, b: int| 0 <= a < b < r@.len() implies key_lt(#[trigger] r@[a]@, #[trigger] r@[b]@) by {
                assert(key_lt(s[a].0@, s[b].0@));
            }
            assert forall|k: Seq<char>| #[trigger] self@.contains_key(k) <==> exists|a: int| 0 <= a < r@.len() && #[trigger] r@[a]@ == k by {
                if self@.contains_key(k) {
                    let a = choose|a: int| 0 <= a < s.len() && #[trigger] s[a].0@ == k;
                    assert(r@[a]@ == k);
                }
                if exists|a: int| 0 <= a < r@.len() && #[trigger] r@[a]@ == k {
                    let a = choose|a: int| 0 <= a < r@.len() && #[trigger] r@[a]@ == k;
                    assert(s[a].0@ == k);
                }
            }
        }
        r
    }
}

/// The search of `KeyMap::search`, on a vector of sorted entries.
fn self_search<V>(entries: &Vec<(String, V)>, key: &str) -> (r: Result<usize, usize>)
    requires
        entries_sorted(entries@),
    ensures
        match r {
            Ok(i) => i < entries@.len() && entries@[i as int].0@ == key@,
            Err(p) => {
                &&& p <= entries@.len()
                &&& forall|j: int| 0 <= j < p ==> key_lt(#[trigger] entries@[j].0@, key@)
                &&& forall|j: int| p <= j < entries@.len() ==> key_lt(key@, #[trigger] entries@[j].0@)
            },
        },
{
    let ghost s = entries@;
    let mut lo: usize = 0;
    let mut hi: usize = entries.len();
    while lo < hi
        invariant
            s == entries@,
            entries_sorted(s),
            lo <= hi <= s.len(),
            forall|j: int| 0 <= j < lo ==> key_lt(#[trigger] s[j].0@, key@),
            forall|j: int| hi <= j < s.len() ==> key_lt(key@, #[trigger] s[j].0@),
        decreases hi - lo,
    {
        let mid = lo + (hi - lo) / 2;
        let c = compare_keys(entries[mid].0.as_str(), key);
        match c {
            KeyOrder::Equal => {
                return Ok(mid);
            },
            KeyOrder::Less => {
                assert forall|j: int| 0 <= j < mid + 1 implies key_lt(#[trigger] s[j].0@, key@) by {
                    if j < mid {
                        lemma_key_lt_strict_total(s[j].0@, s[mid as int].0@, key@);
                    }
                }
                lo = mid + 1;
            },
            KeyOrder::Greater => {
                proof {
                    lemma_key_lt_strict_total(s[mid as int].0@, key@, key@);
                }
                assert forall|j: int| mid <= j < s.len() implies key_lt(key@, #[trigger] s[j].0@) by {
                    if j > mid {
                        lemma_key_lt_strict_total(key@, s[mid as int].0@, s[j].0@);
                    }
                }
                hi = mid;
            },
        }
    }
    Err(lo)
}

impl<V> View for KeyMap<V> {
    type V = Map<Seq<char>, V>;

    open spec fn view(&self) -> Map<Seq<char>, V> {
        entries_map(self.spec_entries())
    }
}

impl<V: Clone> Clone for KeyMap<V> {
    /// A copy with the same keys; the value at each key is a clone of the
    /// value there.
    fn clone(&self) -> (r: Self)
        ensures
            r@.dom() == self@.dom(),
            forall|k: Seq<char>| #[trigger] r@.contains_key(k) ==> cloned::<V>(self@[k], r@[k]),
    {
        proof {
            use_type_invariant(self);
        }
        let n = self.entries.len();
        let mut out: Vec<(String, V)> = Vec::new();
        let mut i: usize = 0;
        while i < n
            invariant
                n == self.entries@.len(),
                i <= n,
                out@.len() == i,
                entries_sorted(self.entries@),
                forall|j: int|
                    0 <= j < i ==> (#[trigger] out@[j]).0@ == self.entries@[j].0@ && cloned::<V>(
                        self.entries@[j].1,
                        out@[j].1,
                    ),
            decreases n - i,
        {
            let e = &self.entries[i];
            let k = e.0.clone();
            let v = e.1.clone();
            out.push((k, v));
            i = i + 1;
        }
        let ghost src = self.entries@;
        proof {
            assert forall|a: int, b: int| 0 <= a < b < out@.len() implies key_lt(
                #[trigger] out@[a].0@,
                #[trigger] out@[b].0@,
            ) by {
                assert(out@[a].0@ == src[a].0@ && out@[b].0@ == src[b].0@);
                assert(key_lt(src[a].0@, src[b].0@));
            }
            assert(entries_sorted(out@));
            assert forall|k: Seq<char>| entries_have_key(out@, k) <==> entries_have_key(src, k) by {
                if entries_have_key(out@, k) {
                    let j = choose|j: int| 0 <= j < out@.len() && #[trigger] out@[j].0@ == k;
                    assert(src[j].0@ == k);
                }
                if entries_have_key(src, k) {
                    let j = choose|j: int| 0 <= j < src.len() && #[trigger] src[j].0@ == k;
                    assert(out@[j].0@ == k);
                }
            }
            assert(entries_map(out@).dom() =~= entries_map(src).dom());
            assert forall|k: Seq<char>| #[trigger] entries_map(out@).contains_key(k) implies cloned::<V>(
                entries_map(src)[k],
                entries_map(out@)[k],
            ) by {
                let j = choose|j: int| 0 <= j < out@.len() && #[trigger] out@[j].0@ == k;
                lemma_entries_map_index(out@, j);
                lemma_entries_map_index(src, j);
                assert(src[j].0@ == k);
            }
        }
        KeyMap { entries: out }
    }
}

} // verus!
