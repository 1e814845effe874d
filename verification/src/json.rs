//! The data model: JSON-like values, and an ordered map keyed by strings.
//!
//! `StrMap` is a vector of entries kept strictly sorted by key, viewed as a
//! `Map` from character sequences to values.  Iterating its entries by index
//! visits the keys in ascending order, the same order in which a
//! `BTreeMap<String, _>` is walked.
use vstd::prelude::*;
use crate::text::{lemma_seq_lt_irreflexive, lemma_seq_lt_total, lemma_seq_lt_transitive, seq_lt, str_eq, str_lt};

verus! {

#[derive(Debug, PartialEq)]
pub struct StrMap<V> {
    entries: Vec<(String, V)>,
}

/// Entries strictly ascending by key.
pub open spec fn sorted_keys<V>(s: Seq<(String, V)>) -> bool {
    forall|i: int, j: int| 0 <= i < j < s.len() ==> seq_lt(#[trigger] s[i].0@, #[trigger] s[j].0@)
}

/// Whether some entry of `s` has key `k`.
pub open spec fn has_key<V>(s: Seq<(String, V)>, k: Seq<char>) -> bool {
    exists|i: int| 0 <= i < s.len() && #[trigger] s[i].0@ == k
}

/// Position of an entry with key `k`.
pub open spec fn key_pos<V>(s: Seq<(String, V)>, k: Seq<char>) -> int {
    choose|i: int| 0 <= i < s.len() && #[trigger] s[i].0@ == k
}

/// The map that a sequence of entries with distinct keys stands for.
pub open spec fn entries_map<V>(s: Seq<(String, V)>) -> Map<Seq<char>, V> {
    Map::new(|k: Seq<char>| has_key(s, k), |k: Seq<char>| s[key_pos(s, k)].1)
}

/// The keys of a sequence of entries, in order.
pub open spec fn entry_keys<V>(s: Seq<(String, V)>) -> Seq<Seq<char>> {
    s.map_values(|e: (String, V)| e.0@)
}

pub proof fn lemma_sorted_unique<V>(s: Seq<(String, V)>, i: int, j: int)
    requires
        sorted_keys(s),
        0 <= i < s.len(),
        0 <= j < s.len(),
        s[i].0@ == s[j].0@,
    ensures
        i == j,
{
    if i < j {
        lemma_seq_lt_irreflexive(s[i].0@);
    } else if j < i {
        lemma_seq_lt_irreflexive(s[i].0@);
    }
}

/// In a sorted sequence, every entry is what the map gives for its key.
pub proof fn lemma_entries_map_at<V>(s: Seq<(String, V)>, n: int)
    requires
        sorted_keys(s),
        0 <= n < s.len(),
    ensures
        entries_map(s).contains_key(s[n].0@),
        entries_map(s)[s[n].0@] == s[n].1,
{
    let k = s[n].0@;
    assert(has_key(s, k));
    let i = key_pos(s, k);
    assert(0 <= i < s.len() && s[i].0@ == k);
    assert(entries_map(s)[k] == s[i].1);
    lemma_sorted_unique(s, n, i);
}

/// The map of a sorted sequence, for every key in it.
pub proof fn lemma_entries_map_all<V>(s: Seq<(String, V)>)
    requires
        sorted_keys(s),
    ensures
        forall|i: int| 0 <= i < s.len() ==> #[trigger] entries_map(s).contains_key(s[i].0@),
        forall|i: int| 0 <= i < s.len() ==> entries_map(s)[#[trigger] s[i].0@] == s[i].1,
        forall|k: Seq<char>|
            #[trigger] entries_map(s).contains_key(k) ==> exists|i: int|
                0 <= i < s.len() && #[trigger] s[i].0@ == k,
{
    assert forall|i: int| 0 <= i < s.len() implies #[trigger] entries_map(s).contains_key(s[i].0@) by {
        lemma_entries_map_at(s, i);
    }
    assert forall|i: int| 0 <= i < s.len() implies entries_map(s)[#[trigger] s[i].0@] == s[i].1 by {
        lemma_entries_map_at(s, i);
    }
}

impl<V> StrMap<V> {
    /// The entries, ascending by key.
    pub closed spec fn pairs(self) -> Seq<(String, V)> {
        self.entries@
    }

    #[verifier::type_invariant]
    pub closed spec fn wf(self) -> bool {
        sorted_keys(self.entries@)
    }

    /// Every map satisfies its ordering invariant.
    pub proof fn lemma_wf(self)
        requires
            self.wf(),
        ensures
            sorted_keys(self.pairs()),
    {
    }

    pub open spec fn view(self) -> Map<Seq<char>, V> {
        entries_map(self.pairs())
    }

    /// The keys in ascending order.
    pub open spec fn key_seq(self) -> Seq<Seq<char>> {
        entry_keys(self.pairs())
    }

    pub proof fn lemma_view(self)
        requires
            self.wf(),
        ensures
            forall|i: int|
                0 <= i < self.pairs().len() ==> #[trigger] self@.contains_key(self.pairs()[i].0@),
            forall|i: int|
                0 <= i < self.pairs().len() ==> self@[#[trigger] self.pairs()[i].0@] == self.pairs()[i].1,
            forall|k: Seq<char>|
                #[trigger] self@.contains_key(k) ==> exists|i: int|
                    0 <= i < self.pairs().len() && #[trigger] self.pairs()[i].0@ == k,
    {
        lemma_entries_map_all(self.pairs());
    }

    /// The empty map.
    pub fn new() -> (m: Self)
        ensures
            m@ == Map::<Seq<char>, V>::empty(),
            m.pairs().len() == 0,
    {
        let m = StrMap { entries: Vec::new() };
        proof {
            assert(m@ =~= Map::<Seq<char>, V>::empty());
        }
        m
    }

    /// A map from entries already strictly ascending by key.
    pub fn from_sorted(entries: Vec<(String, V)>) -> (m: Self)
        requires
            sorted_keys(entries@),
        ensures
            m.pairs() == entries@,
    {
        StrMap { entries }
    }

    /// Number of entries.
    pub fn len(&self) -> (n: usize)
        ensures
            self.wf(),
            n == self.pairs().len(),
            n == self@.dom().len(),
    {
        proof {
            use_type_invariant(self);
        }
        proof {
            self.lemma_dom_len();
        }
        self.entries.len()
    }

    pub proof fn lemma_dom_len(self)
        requires
            self.wf(),
        ensures
            self@.dom().finite(),
            self@.dom().len() == self.pairs().len(),
        decreases self.pairs().len(),
    {
        let s = self.pairs();
        let ks = entry_keys(s);
        lemma_entries_map_all(s);
        assert(self@.dom() =~= ks.to_set()) by {
            assert forall|k: Seq<char>| self@.dom().contains(k) implies ks.to_set().contains(k) by {
                let i = choose|i: int| 0 <= i < s.len() && #[trigger] s[i].0@ == k;
                assert(ks[i] == k);
            }
            assert forall|k: Seq<char>| ks.to_set().contains(k) implies self@.dom().contains(k) by {
                let i = choose|i: int| 0 <= i < ks.len() && ks[i] == k;
                assert(s[i].0@ == k);
            }
        }
        assert(ks.no_duplicates()) by {
            assert forall|i: int, j: int| 0 <= i < ks.len() && 0 <= j < ks.len() && i != j
                implies ks[i] != ks[j] by {
                if ks[i] == ks[j] {
                    lemma_sorted_unique(s, i, j);
                }
            }
        }
        ks.unique_seq_to_set();
    }

    pub proof fn lemma_keys_dom(self)
        requires
            self.wf(),
        ensures
            self.key_seq().to_set() == self@.dom(),
            forall|i: int| 0 <= i < self.pairs().len() ==> #[trigger] self.key_seq()[i] == self.pairs()[i].0@,
            self.key_seq().len() == self.pairs().len(),
    {
        let s = self.pairs();
        let ks = entry_keys(s);
        lemma_entries_map_all(s);
        assert(self@.dom() =~= ks.to_set()) by {
            assert forall|k: Seq<char>| self@.dom().contains(k) implies ks.to_set().contains(k) by {
                let i = choose|i: int| 0 <= i < s.len() && #[trigger] s[i].0@ == k;
                assert(ks[i] == k);
            }
            assert forall|k: Seq<char>| ks.to_set().contains(k) implies self@.dom().contains(k) by {
                let i = choose|i: int| 0 <= i < ks.len() && ks[i] == k;
                assert(s[i].0@ == k);
            }
        }
    }

    /// The domain is finite.
    pub proof fn lemma_dom_len_pub(self)
        ensures
            self@.dom().finite(),
    {
        let ks = entry_keys(self.pairs());
        assert(self@.dom() =~= ks.to_set()) by {
            assert forall|k: Seq<char>| self@.dom().contains(k) implies ks.to_set().contains(k) by {
                let i = key_pos(self.pairs(), k);
                assert(ks[i] == k);
            }
            assert forall|k: Seq<char>| ks.to_set().contains(k) implies self@.dom().contains(k) by {
                let i = choose|i: int| 0 <= i < ks.len() && ks[i] == k;
                assert(self.pairs()[i].0@ == k);
            }
        }
    }

    /// Whether the map is empty.
    pub fn is_empty(&self) -> (b: bool)
        ensures
            b == (self@.dom().len() == 0),
            b == (self@ == Map::<Seq<char>, V>::empty()),
    {
        proof {
            use_type_invariant(self);
        }
        proof {
            self.lemma_dom_len();
            if self.pairs().len() > 0 {
                lemma_entries_map_at(self.pairs(), 0);
            } else {
                assert(self@ =~= Map::<Seq<char>, V>::empty());
            }
        }
        self.entries.len() == 0
    }

    /// The key of the `i`-th entry in ascending order.
    pub fn key_at(&self, i: usize) -> (k: &String)
        requires
            i < self.pairs().len(),
        ensures
            *k == self.pairs()[i as int].0,
    {
        &self.entries[i].0
    }

    /// The value of the `i`-th entry in ascending key order.
    pub fn value_at(&self, i: usize) -> (v: &V)
        requires
            i < self.pairs().len(),
        ensures
            *v == self.pairs()[i as int].1,
    {
        &self.entries[i].1
    }

    /// Position of `key`, or where it would be inserted.
    fn find(&self, key: &str) -> (r: (usize, bool))
        ensures
            r.0 <= self.pairs().len(),
            r.1 ==> r.0 < self.pairs().len() && self.pairs()[r.0 as int].0@ == key@,
            !r.1 ==> (forall|j: int| 0 <= j < r.0 ==> seq_lt(#[trigger] self.pairs()[j].0@, key@)),
            !r.1 ==> (forall|j: int|
                r.0 <= j < self.pairs().len() ==> seq_lt(key@, #[trigger] self.pairs()[j].0@)),
    {
        proof {
            use_type_invariant(self);
        }
        let n = self.entries.len();
        let mut i: usize = 0;
        while i < n
            invariant
                n == self.pairs().len(),
                i <= n,
                self.wf(),
                forall|j: int| 0 <= j < i ==> seq_lt(#[trigger] self.pairs()[j].0@, key@),
            decreases n - i,
        {
            let k = &self.entries[i].0;
            if str_eq(k.as_str(), key) {
                return (i, true);
            }
            if !str_lt(k.as_str(), key) {
                proof {
                    lemma_seq_lt_total(self.pairs()[i as int].0@, key@);
                    assert forall|j: int| i <= j < self.pairs().len() implies seq_lt(
                        key@,
                        #[trigger] self.pairs()[j].0@,
                    ) by {
                        if j > i {
                            lemma_seq_lt_transitive(key@, self.pairs()[i as int].0@, self.pairs()[j].0@);
                        }
                    }
                }
                return (i, false);
            }
            i = i + 1;
        }
        (n, false)
    }

    /// The value stored under `key`.
    pub fn get(&self, key: &str) -> (r: Option<&V>)
        ensures
            self.wf(),
            r is Some <==> self@.contains_key(key@),
            r matches Some(v) ==> *v == self@[key@],
    {
        proof {
            use_type_invariant(self);
        }
        let (i, found) = self.find(key);
        proof {
            lemma_entries_map_all(self.pairs());
            if !found && self@.contains_key(key@) {
                let j = choose|j: int| 0 <= j < self.pairs().len() && #[trigger] self.pairs()[j].0@ == key@;
                if j < i {
                    lemma_seq_lt_irreflexive(key@);
                } else {
                    lemma_seq_lt_irreflexive(key@);
                }
            }
        }
        if found {
            Some(&self.entries[i].1)
        } else {
            None
        }
    }

    /// Whether `key` has an entry.
    pub fn contains_key(&self, key: &str) -> (b: bool)
        ensures
            b == self@.contains_key(key@),
    {
        proof {
            use_type_invariant(self);
        }
        self.get(key).is_some()
    }

    /// Stores `value` under `key`, replacing what was there.
    pub fn insert(&mut self, key: String, value: V)
        ensures
            final(self)@ == old(self)@.insert(key@, value),
    {
        proof {
            use_type_invariant(&*self);
        }
        let (i, found) = self.find(key.as_str());
        let ghost old_pairs = self.pairs();
        let mut entries: Vec<(String, V)> = Vec::new();
        std::mem::swap(&mut entries, &mut self.entries);
        let ghost kv = key@;
        proof {
            lemma_entries_map_all(old_pairs);
        }
        if found {
            entries.set(i, (key, value));
            proof {
                let s = entries@;
                assert(s == old_pairs.update(i as int, s[i as int]));
                assert(sorted_keys(s)) by {
                    assert forall|a: int, b: int| 0 <= a < b < s.len() implies seq_lt(
                        #[trigger] s[a].0@,
                        #[trigger] s[b].0@,
                    ) by {
                        assert(old_pairs[a].0@ == s[a].0@);
                        assert(old_pairs[b].0@ == s[b].0@);
                    }
                }
                lemma_entries_map_all(s);
                assert(entries_map(s) =~= old(self)@.insert(kv, value)) by {
                    assert forall|k: Seq<char>| #[trigger] entries_map(s).contains_key(k) <==> old(self)@.insert(kv, value).contains_key(k) by {
                        if entries_map(s).contains_key(k) {
                            let j = choose|j: int| 0 <= j < s.len() && #[trigger] s[j].0@ == k;
                            if j != i {
                                assert(old_pairs[j].0@ == k);
                            }
                        }
                        if old(self)@.contains_key(k) {
                            let j = choose|j: int| 0 <= j < old_pairs.len() && #[trigger] old_pairs[j].0@ == k;
                            assert(s[j].0@ == k);
                        }
                    }
                    assert forall|k: Seq<char>| #[trigger] entries_map(s).contains_key(k) implies entries_map(s)[k] == old(self)@.insert(kv, value)[k] by {
                        let j = choose|j: int| 0 <= j < s.len() && #[trigger] s[j].0@ == k;
                        if j != i {
                            assert(old_pairs[j].0@ == k);
                            assert(k != kv) by {
                                if k == kv {
                                    lemma_sorted_unique(old_pairs, i as int, j);
                                }
                            }
                        }
                    }
                }
            }
        } else {
            entries.insert(i, (key, value));
            proof {
                let s = entries@;
                assert(s.len() == old_pairs.len() + 1);
                assert forall|j: int| 0 <= j < i implies s[j] == old_pairs[j] by {}
                assert forall|j: int| i < j < s.len() implies s[j] == old_pairs[j - 1] by {}
                assert(s[i as int].0@ == kv);
                assert(sorted_keys(s)) by {
                    assert forall|a: int, b: int| 0 <= a < b < s.len() implies seq_lt(
                        #[trigger] s[a].0@,
                        #[trigger] s[b].0@,
                    ) by {
                        if a < i && b < i {
                        } else if a < i && b == i {
                        } else if a < i && b > i {
                            assert(s[b] == old_pairs[b - 1]);
                        } else if a == i {
                            assert(s[b] == old_pairs[b - 1]);
                        } else {
                            assert(s[a] == old_pairs[a - 1]);
                            assert(s[b] == old_pairs[b - 1]);
                        }
                    }
                }
                lemma_entries_map_all(s);
                assert(entries_map(s) =~= old(self)@.insert(kv, value)) by {
                    assert forall|k: Seq<char>| #[trigger] entries_map(s).contains_key(k) <==> old(self)@.insert(kv, value).contains_key(k) by {
                        if entries_map(s).contains_key(k) {
                            let j = choose|j: int| 0 <= j < s.len() && #[trigger] s[j].0@ == k;
                            if j < i {
                                assert(old_pairs[j].0@ == k);
                            } else if j > i {
                                assert(old_pairs[j - 1].0@ == k);
                            }
                        }
                        if old(self)@.contains_key(k) {
                            let j = choose|j: int| 0 <= j < old_pairs.len() && #[trigger] old_pairs[j].0@ == k;
                            if j < i {
                                assert(s[j].0@ == k);
                            } else {
                                assert(s[j + 1].0@ == k);
                            }
                        }
                    }
                    assert forall|k: Seq<char>| #[trigger] entries_map(s).contains_key(k) implies entries_map(s)[k] == old(self)@.insert(kv, value)[k] by {
                        let j = choose|j: int| 0 <= j < s.len() && #[trigger] s[j].0@ == k;
                        if j < i {
                            assert(old_pairs[j].0@ == k);
                            lemma_seq_lt_irreflexive(kv);
                        } else if j > i {
                            assert(old_pairs[j - 1].0@ == k);
                            lemma_seq_lt_irreflexive(kv);
                        }
                    }
                }
            }
        }
        self.entries = entries;
    }

    /// Takes the value stored under `key` out of the map.
    pub fn remove(&mut self, key: &str) -> (r: Option<V>)
        ensures
            final(self)@ == old(self)@.remove(key@),
            r is Some <==> old(self)@.contains_key(key@),
            r matches Some(v) ==> v == old(self)@[key@],
    {
        proof {
            use_type_invariant(&*self);
        }
        let (i, found) = self.find(key);
        let ghost old_pairs = self.pairs();
        proof {
            lemma_entries_map_all(old_pairs);
            if !found && old(self)@.contains_key(key@) {
                let j = choose|j: int| 0 <= j < old_pairs.len() && #[trigger] old_pairs[j].0@ == key@;
                lemma_seq_lt_irreflexive(key@);
            }
        }
        if !found {
            proof {
                assert(old(self)@.remove(key@) =~= old(self)@);
            }
            return None;
        }
        let mut entries: Vec<(String, V)> = Vec::new();
        std::mem::swap(&mut entries, &mut self.entries);
        let (_, v) = entries.remove(i);
        proof {
            let s = entries@;
            let kv = key@;
            assert forall|j: int| 0 <= j < i implies s[j] == old_pairs[j] by {}
            assert forall|j: int| i <= j < s.len() implies s[j] == old_pairs[j + 1] by {}
            assert(sorted_keys(s)) by {
                assert forall|a: int, b: int| 0 <= a < b < s.len() implies seq_lt(
                    #[trigger] s[a].0@,
                    #[trigger] s[b].0@,
                ) by {
                    if a < i && b < i {
                    } else if a < i {
                        assert(s[b] == old_pairs[b + 1]);
                    } else {
                        assert(s[a] == old_pairs[a + 1]);
                        assert(s[b] == old_pairs[b + 1]);
                    }
                }
            }
            lemma_entries_map_all(s);
            assert(entries_map(s) =~= old(self)@.remove(kv)) by {
                assert forall|k: Seq<char>| #[trigger] entries_map(s).contains_key(k) <==> old(self)@.remove(kv).contains_key(k) by {
                    if entries_map(s).contains_key(k) {
                        let j = choose|j: int| 0 <= j < s.len() && #[trigger] s[j].0@ == k;
                        if j < i {
                            assert(old_pairs[j].0@ == k);
                            if k == kv {
                                lemma_sorted_unique(old_pairs, i as int, j);
                            }
                        } else {
                            assert(old_pairs[j + 1].0@ == k);
                            if k == kv {
                                lemma_sorted_unique(old_pairs, i as int, j + 1);
                            }
                        }
                    }
                    if old(self)@.remove(kv).contains_key(k) {
                        let j = choose|j: int| 0 <= j < old_pairs.len() && #[trigger] old_pairs[j].0@ == k;
                        if j < i {
                            assert(s[j].0@ == k);
                        } else if j > i {
                            assert(s[j - 1].0@ == k);
                        }
                    }
                }
                assert forall|k: Seq<char>| #[trigger] entries_map(s).contains_key(k) implies entries_map(s)[k] == old(self)@.remove(kv)[k] by {
                    let j = choose|j: int| 0 <= j < s.len() && #[trigger] s[j].0@ == k;
                    if j < i {
                        assert(old_pairs[j].0@ == k);
                    } else {
                        assert(old_pairs[j + 1].0@ == k);
                    }
                }
            }
        }
        self.entries = entries;
        Some(v)
    }
}

/// A set of names, kept in ascending order.
#[derive(Debug, PartialEq)]
pub struct StrSet {
    map: StrMap<()>,
}

impl StrSet {
    pub closed spec fn inner(self) -> StrMap<()> {
        self.map
    }

    pub open spec fn view(self) -> Set<Seq<char>> {
        self.inner()@.dom()
    }

    /// The members in ascending order.
    pub open spec fn elems(self) -> Seq<Seq<char>> {
        self.inner().key_seq()
    }

    pub proof fn lemma_elems(self)
        requires
            self.inner().wf(),
        ensures
            forall|i: int| 0 <= i < self.elems().len() ==> #[trigger] self@.contains(self.elems()[i]),
            forall|k: Seq<char>| #[trigger] self@.contains(k) ==> self.elems().contains(k),
            self.elems().no_duplicates(),
            self@.finite(),
            self@.len() == self.elems().len(),
    {
        let s = self.inner().pairs();
        self.inner().lemma_view();
        self.inner().lemma_dom_len();
        assert forall|k: Seq<char>| #[trigger] self@.contains(k) implies self.elems().contains(k) by {
            let i = choose|i: int| 0 <= i < s.len() && #[trigger] s[i].0@ == k;
            assert(self.elems()[i] == k);
        }
        assert forall|i: int, j: int| 0 <= i < self.elems().len() && 0 <= j < self.elems().len() && i != j
            implies self.elems()[i] != self.elems()[j] by {
            if self.elems()[i] == self.elems()[j] {
                lemma_sorted_unique(s, i, j);
            }
        }
    }

    pub proof fn lemma_sorted(self)
        requires
            self.inner().wf(),
        ensures
            forall|i: int, j: int|
                0 <= i < j < self.elems().len() ==> seq_lt(#[trigger] self.elems()[i], #[trigger] self.elems()[j]),
    {
        let s = self.inner().pairs();
        assert forall|i: int, j: int| 0 <= i < j < self.elems().len() implies seq_lt(#[trigger] self.elems()[i], #[trigger] self.elems()[j]) by {
            assert(self.elems()[i] == s[i].0@);
            assert(self.elems()[j] == s[j].0@);
        }
    }

    /// The empty set.
    pub fn new() -> (s: Self)
        ensures
            s@ == Set::<Seq<char>>::empty(),
            s.elems().len() == 0,
    {
        let s = StrSet { map: StrMap::new() };
        proof {
            assert(s@ =~= Set::<Seq<char>>::empty());
        }
        s
    }

    /// Number of members.
    pub fn len(&self) -> (n: usize)
        ensures
            self.inner().wf(),
            n == self.elems().len(),
            n == self@.len(),
    {
        proof {
            use_type_invariant(&self.map);
        }
        proof {
            self.lemma_elems();
        }
        self.map.len()
    }

    /// Whether the set is empty.
    pub fn is_empty(&self) -> (b: bool)
        ensures
            b == (self@ == Set::<Seq<char>>::empty()),
    {
        proof {
            use_type_invariant(&self.map);
        }
        proof {
            self.lemma_elems();
            if self.elems().len() > 0 {
                assert(self@.contains(self.elems()[0]));
            } else {
                assert(self@ =~= Set::<Seq<char>>::empty()) by {
                    assert forall|k: Seq<char>| !self@.contains(k) by {
                        if self@.contains(k) {
                            assert(self.elems().contains(k));
                        }
                    }
                }
            }
        }
        self.map.len() == 0
    }

    /// Whether `name` is a member.
    pub fn contains(&self, name: &str) -> (b: bool)
        ensures
            b == self@.contains(name@),
    {
        proof {
            use_type_invariant(&self.map);
        }
        self.map.contains_key(name)
    }

    /// Adds `name`.
    pub fn insert(&mut self, name: String)
        ensures
            final(self)@ == old(self)@.insert(name@),
    {
        let ghost before = self.map@;
        self.map.insert(name, ());
        proof {
            assert(self.map@.dom() =~= before.dom().insert(name@));
        }
    }

    /// The `i`-th member in ascending order.
    pub fn at(&self, i: usize) -> (k: &String)
        requires
            i < self.elems().len(),
        ensures
            k@ == self.elems()[i as int],
    {
        self.map.key_at(i)
    }
}

/// A JSON-like value.  Numbers are integers; object keys are kept in
/// ascending order.
#[derive(Debug, PartialEq)]
pub enum Value {
    Null,
    Bool(bool),
    Number(i64),
    /// An integer above the range of `Number`.
    Unsigned(u64),
    String(String),
    Array(Vec<Value>),
    Object(StrMap<Value>),
}

/// The mathematical content of a value: what it says, without the vectors
/// and strings that hold it.
pub enum Json {
    Null,
    Bool(bool),
    Number(int),
    Text(Seq<char>),
    Array(Seq<Json>),
    Object(Seq<(Seq<char>, Json)>),
}

pub open spec fn json_of(v: Value) -> Json
    decreases v,
{
    match v {
        Value::Null => Json::Null,
        Value::Bool(b) => Json::Bool(b),
        Value::Number(n) => Json::Number(n as int),
        Value::Unsigned(n) => Json::Number(n as int),
        Value::String(s) => Json::Text(s@),
        Value::Array(items) => Json::Array(
            Seq::new(
                items@.len(),
                |i: int|
                    if 0 <= i < items@.len() {
                        json_of(items@[i])
                    } else {
                        Json::Null
                    },
            ),
        ),
        Value::Object(m) => Json::Object(
            Seq::new(
                m.pairs().len(),
                |i: int|
                    if 0 <= i < m.pairs().len() {
                        (m.pairs()[i].0@, json_of(m.pairs()[i].1))
                    } else {
                        (Seq::empty(), Json::Null)
                    },
            ),
        ),
    }
}

impl View for Value {
    type V = Json;

    open spec fn view(&self) -> Json {
        json_of(*self)
    }
}

impl Value {
    /// A string value.
    pub fn from_text(s: &str) -> (v: Value)
        ensures
            v matches Value::String(t) && t@ == s@,
    {
        Value::String(s.to_string())
    }

    /// Whether this is `Null`.
    pub fn is_null(&self) -> (b: bool)
        ensures
            b == (*self is Null),
    {
        match self {
            Value::Null => true,
            _ => false,
        }
    }

    /// The text of a string value.
    pub fn as_str(&self) -> (r: Option<&String>)
        ensures
            r is Some <==> *self is String,
            r matches Some(s) ==> *self == Value::String(*s),
    {
        match self {
            Value::String(s) => Some(s),
            _ => None,
        }
    }

    /// The number of a number value.
    pub fn as_i64(&self) -> (r: Option<i64>)
        ensures
            r is Some <==> *self is Number,
            r matches Some(n) ==> *self == Value::Number(n),
    {
        match self {
            Value::Number(n) => Some(*n),
            _ => None,
        }
    }

    /// The items of an array value.
    pub fn as_array(&self) -> (r: Option<&Vec<Value>>)
        ensures
            r is Some <==> *self is Array,
            r matches Some(items) ==> *self == Value::Array(*items),
    {
        match self {
            Value::Array(items) => Some(items),
            _ => None,
        }
    }

    /// The entries of an object value.
    pub fn as_object(&self) -> (r: Option<&StrMap<Value>>)
        ensures
            r is Some <==> *self is Object,
            r matches Some(m) ==> *self == Value::Object(*m),
    {
        match self {
            Value::Object(m) => Some(m),
            _ => None,
        }
    }

    /// An object with the single member `key`.
    pub fn singleton_object(key: String, value: Value) -> (v: Value)
        ensures
            v@ == Json::Object(seq![(key@, value@)]),
            v matches Value::Object(m) && m@ == Map::<Seq<char>, Value>::empty().insert(key@, value),
    {
        let ghost kv = key@;
        let ghost vv = value;
        let mut entries: Vec<(String, Value)> = Vec::new();
        entries.push((key, value));
        let m = StrMap::from_sorted(entries);
        proof {
            lemma_entries_map_all(m.pairs());
            assert(m.pairs().len() == 1);
            assert(m.pairs()[0].0@ == kv);
            assert(m.pairs()[0].1 == vv);
            assert(m@.contains_key(kv));
            assert forall|k: Seq<char>| m@.contains_key(k) implies k == kv by {
                let i = choose|i: int| 0 <= i < m.pairs().len() && #[trigger] m.pairs()[i].0@ == k;
                assert(i == 0);
            }
            assert(m@ =~= Map::<Seq<char>, Value>::empty().insert(kv, vv));
            assert(json_of(Value::Object(m))->Object_0 =~= seq![(kv, vv@)]);
        }
        Value::Object(m)
    }

    /// The member `key` of an object value; `None` for other values.
    pub fn get(&self, key: &str) -> (r: Option<&Value>)
        ensures
            r is Some <==> (*self matches Value::Object(m) && m@.contains_key(key@)),
            r matches Some(v) ==> (*self matches Value::Object(m) && *v == m@[key@]),
    {
        match self {
            Value::Object(m) => m.get(key),
            _ => None,
        }
    }

    /// A copy of this value.
    pub fn copy(&self) -> (r: Value)
        ensures
            r@ == self@,
        decreases self,
    {
        match self {
            Value::Null => Value::Null,
            Value::Bool(b) => Value::Bool(*b),
            Value::Number(n) => Value::Number(*n),
            Value::Unsigned(n) => Value::Unsigned(*n),
            Value::String(s) => Value::String(s.clone()),
            Value::Array(items) => {
                let out = copy_values(items);
                proof {
                    let x = json_of(Value::Array(out))->Array_0;
                    let y = json_of(Value::Array(*items))->Array_0;
                    assert(x.len() == y.len());
                    assert forall|i: int| 0 <= i < x.len() implies x[i] == y[i] by {
                        assert(x[i] == json_of(out@[i]));
                        assert(y[i] == json_of(items@[i]));
                    }
                    assert(x =~= y);
                }
                Value::Array(out)
            },
            Value::Object(m) => {
                let out = m.copy_map();
                proof {
                    let p = out.pairs();
                    let q = m.pairs();
                    let x = json_of(Value::Object(out))->Object_0;
                    let y = json_of(Value::Object(*m))->Object_0;
                    assert(x.len() == y.len());
                    assert forall|i: int| 0 <= i < x.len() implies x[i] == y[i] by {
                        assert(x[i] == (p[i].0@, json_of(p[i].1)));
                        assert(y[i] == (q[i].0@, json_of(q[i].1)));
                    }
                    assert(x =~= y);
                }
                Value::Object(out)
            },
        }
    }
}

/// A copy of a vector of values.
pub fn copy_values(items: &Vec<Value>) -> (r: Vec<Value>)
    ensures
        r@.len() == items@.len(),
        forall|i: int| 0 <= i < items@.len() ==> (#[trigger] r@[i])@ == items@[i]@,
    decreases items,
{
    let mut out: Vec<Value> = Vec::new();
    let mut i: usize = 0;
    while i < items.len()
        invariant
            i <= items.len(),
            out@.len() == i,
            forall|j: int| 0 <= j < i ==> (#[trigger] out@[j])@ == items@[j]@,
        decreases items.len() - i,
    {
        assert(decreases_to!(items => items@[i as int]));
        let v = items[i].copy();
        out.push(v);
        i = i + 1;
    }
    out
}

impl StrMap<Value> {
    /// A copy of this map.
    pub fn copy_map(&self) -> (r: StrMap<Value>)
        ensures
            r.pairs().len() == self.pairs().len(),
            forall|i: int| 0 <= i < self.pairs().len() ==> (#[trigger] r.pairs()[i]).0 == self.pairs()[i].0,
            forall|i: int| 0 <= i < self.pairs().len() ==> (#[trigger] r.pairs()[i]).1@ == self.pairs()[i].1@,
        decreases self,
    {
        let mut out: Vec<(String, Value)> = Vec::new();
        let mut i: usize = 0;
        while i < self.entries.len()
            invariant
                i <= self.entries.len(),
                out@.len() == i,
                forall|j: int| 0 <= j < i ==> (#[trigger] out@[j]).0 == self.entries@[j].0,
                forall|j: int| 0 <= j < i ==> (#[trigger] out@[j]).1@ == self.entries@[j].1@,
            decreases self.entries.len() - i,
        {
            assert(decreases_to!(self => self.entries@[i as int].1));
            let k = self.entries[i].0.clone();
            let v = self.entries[i].1.copy();
            out.push((k, v));
            i = i + 1;
        }
        proof {
            use_type_invariant(self);
            assert(sorted_keys(out@)) by {
                assert forall|a: int, b: int| 0 <= a < b < out@.len() implies seq_lt(#[trigger] out@[a].0@, #[trigger] out@[b].0@) by {
                    assert(out@[a].0 == self.entries@[a].0);
                    assert(out@[b].0 == self.entries@[b].0);
                }
            }
        }
        StrMap { entries: out }
    }
}

impl StrMap<u64> {
    /// A copy of this map.
    pub fn copy_counts(&self) -> (r: StrMap<u64>)
        ensures
            r@ == self@,
    {
        let mut out: Vec<(String, u64)> = Vec::new();
        let mut i: usize = 0;
        while i < self.entries.len()
            invariant
                i <= self.entries.len(),
                out@ == self.entries@.subrange(0, i as int),
            decreases self.entries.len() - i,
        {
            out.push((self.entries[i].0.clone(), self.entries[i].1));
            proof {
                assert(self.entries@.subrange(0, i + 1) =~= self.entries@.subrange(0, i as int).push(
                    self.entries@[i as int],
                ));
            }
            i = i + 1;
        }
        proof {
            use_type_invariant(self);
            assert(self.entries@.subrange(0, self.entries@.len() as int) =~= self.entries@);
        }
        StrMap { entries: out }
    }
}

impl StrMap<Value> {
    /// A copy of this map, as a map of contents.
    pub fn copy_values_map(&self) -> (r: StrMap<Value>)
        ensures
            r@.dom() == self@.dom(),
            forall|k: Seq<char>| #[trigger] r@.contains_key(k) ==> r@[k]@ == self@[k]@,
    {
        let r = self.copy_map();
        proof {
            use_type_invariant(self);
            use_type_invariant(&r);
            lemma_entries_map_all(self.pairs());
            lemma_entries_map_all(r.pairs());
            assert(r@.dom() =~= self@.dom()) by {
                assert forall|k: Seq<char>| r@.dom().contains(k) implies self@.dom().contains(k) by {
                    let i = choose|i: int| 0 <= i < r.pairs().len() && #[trigger] r.pairs()[i].0@ == k;
                    assert(self.pairs()[i].0@ == k);
                }
                assert forall|k: Seq<char>| self@.dom().contains(k) implies r@.dom().contains(k) by {
                    let i = choose|i: int| 0 <= i < self.pairs().len() && #[trigger] self.pairs()[i].0@ == k;
                    assert(r.pairs()[i].0@ == k);
                }
            }
            assert forall|k: Seq<char>| #[trigger] r@.contains_key(k) implies r@[k]@ == self@[k]@ by {
                let i = choose|i: int| 0 <= i < r.pairs().len() && #[trigger] r.pairs()[i].0@ == k;
                assert(self.pairs()[i].0@ == k);
            }
        }
        r
    }
}

} // verus!
