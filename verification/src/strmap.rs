use vstd::prelude::*;

use crate::chars::str_equal;

verus! {

/// A finite map keyed by strings: a list of entries whose keys are pairwise distinct.
/// Inserting a key that is already present replaces its value.
#[derive(Debug)]
pub struct StrMap<V> {
    entries: Vec<(String, V)>,
}

impl<V> StrMap<V> {
    /// No key occurs twice among the entries.
    #[verifier::type_invariant]
    pub closed spec fn keys_distinct(self) -> bool {
        forall|i: int, j: int|
            0 <= i < self.entries@.len() && 0 <= j < self.entries@.len() && i != j
                ==> #[trigger] self.entries@[i].0@ != #[trigger] self.entries@[j].0@
    }

    /// Some entry has key `k`.
    pub closed spec fn has_key(self, k: Seq<char>) -> bool {
        exists|i: int| 0 <= i < self.entries@.len() && #[trigger] self.entries@[i].0@ == k
    }

    /// The position of the entry with key `k`.
    pub closed spec fn key_index(self, k: Seq<char>) -> int {
        choose|i: int| 0 <= i < self.entries@.len() && #[trigger] self.entries@[i].0@ == k
    }
}

impl<V: View> View for StrMap<V> {
    type V = Map<Seq<char>, V::V>;

    closed spec fn view(&self) -> Map<Seq<char>, V::V> {
        Map::new(|k: Seq<char>| self.has_key(k), |k: Seq<char>| self.entries@[self.key_index(k)].1@)
    }
}

impl<V: View> StrMap<V> {
    /// The key of entry `i` is in the map, and its value is that of entry `i`.
    proof fn lemma_index(self, i: int)
        requires
            self.keys_distinct(),
            0 <= i < self.entries@.len(),
        ensures
            self@.contains_key(self.entries@[i].0@),
            self.key_index(self.entries@[i].0@) == i,
            self@[self.entries@[i].0@] == self.entries@[i].1@,
    {
        let j = self.key_index(self.entries@[i].0@);
        assert(self.entries@[j].0@ == self.entries@[i].0@);
    }

    /// The empty map.
    pub fn new() -> (m: Self)
        ensures
            m@ == Map::<Seq<char>, V::V>::empty(),
    {
        StrMap { entries: Vec::new() }
    }

    /// The number of keys.
    pub fn len(&self) -> (n: usize)
        ensures
            n == self@.dom().len(),
    {
        proof {
            use_type_invariant(self);
            self.lemma_dom_len();
        }
        self.entries.len()
    }

    proof fn lemma_dom_len(self)
        requires
            self.keys_distinct(),
        ensures
            self@.dom().finite(),
            self@.dom().len() == self.entries@.len(),
    {
        let keys = self.entries@.map_values(|e: (String, V)| e.0@);
        keys.unique_seq_to_set();
        assert forall|k: Seq<char>| self@.dom().contains(k) <==> keys.to_set().contains(k) by {
            if self@.dom().contains(k) {
                let i = self.key_index(k);
                assert(keys[i] == k);
            }
        }
        assert(self@.dom() =~= keys.to_set());
    }

    /// The position of the entry whose key is `key`, if any.
    fn find(&self, key: &str) -> (r: Option<usize>)
        ensures
            self.keys_distinct(),
            r matches Some(i) ==> i < self.entries@.len() && self.entries@[i as int].0@ == key@,
            r is None ==> !self@.contains_key(key@),
    {
        proof {
            use_type_invariant(self);
        }
        let n = self.entries.len();
        let mut i: usize = 0;
        while i < n
            invariant
                n == self.entries@.len(),
                0 <= i <= n,
                self.keys_distinct(),
                forall|j: int| 0 <= j < i ==> #[trigger] self.entries@[j].0@ != key@,
            decreases n - i,
        {
            if str_equal(self.entries[i].0.as_str(), key) {
                return Some(i);
            }
            i = i + 1;
        }
        proof {
            if self@.contains_key(key@) {
                assert(self.entries@[self.key_index(key@)].0@ == key@);
            }
        }
        None
    }

    /// Sets the value of `key`; a value already held under `key` is replaced.
    pub fn insert(&mut self, key: String, value: V)
        ensures
            final(self)@ == old(self)@.insert(key@, value@),
    {
        let ghost old_map = self@;
        let ghost old_self = *self;
        let ghost old_entries = self.entries@;
        match self.find(key.as_str()) {
            Some(i) => {
                let mut entries: Vec<(String, V)> = Vec::new();
                std::mem::swap(&mut entries, &mut self.entries);
                entries.set(i, (key, value));
                self.entries = entries;
                proof {
                    assert forall|k: Seq<char>|
                        #[trigger] self@.contains_key(k) == old_map.insert(key@, value@).contains_key(k) by {
                        if self@.contains_key(k) {
                            let j = self.key_index(k);
                            old_self.lemma_index(j);
                        }
                        if old_map.contains_key(k) {
                            let j = old_self.key_index(k);
                            self.lemma_index(j);
                        }
                        if k == key@ {
                            self.lemma_index(i as int);
                        }
                    }
                    assert forall|k: Seq<char>| #[trigger] self@.contains_key(k) implies self@[k]
                        == old_map.insert(key@, value@)[k] by {
                        let j = self.key_index(k);
                        self.lemma_index(j);
                        if j != i {
                            old_self.lemma_index(j);
                        }
                    }
                }
            },
            None => {
                let n = self.entries.len();
                let ghost new_entries = old_entries.push((key, value));
                assert forall|a: int, b: int|
                    0 <= a < new_entries.len() && 0 <= b < new_entries.len() && a != b
                        implies #[trigger] new_entries[a].0@ != #[trigger] new_entries[b].0@ by {
                    if b == n {
                        old_self.lemma_index(a);
                    } else if a == n {
                        old_self.lemma_index(b);
                    }
                }
                let mut entries: Vec<(String, V)> = Vec::new();
                std::mem::swap(&mut entries, &mut self.entries);
                entries.push((key, value));
                self.entries = entries;
                proof {
                    assert forall|k: Seq<char>|
                        #[trigger] self@.contains_key(k) == old_map.insert(key@, value@).contains_key(k) by {
                        if self@.contains_key(k) {
                            let j = self.key_index(k);
                            if j < n {
                                old_self.lemma_index(j);
                            }
                        }
                        if old_map.contains_key(k) {
                            let j = old_self.key_index(k);
                            self.lemma_index(j);
                        }
                        if k == key@ {
                            self.lemma_index(n as int);
                        }
                    }
                    assert forall|k: Seq<char>| #[trigger] self@.contains_key(k) implies self@[k]
                        == old_map.insert(key@, value@)[k] by {
                        let j = self.key_index(k);
                        self.lemma_index(j);
                        if j < n {
                            old_self.lemma_index(j);
                        }
                    }
                }
            },
        }
    }

    /// The value held under `key`, if any.
    pub fn get(&self, key: &str) -> (r: Option<&V>)
        ensures
            r is Some <==> self@.contains_key(key@),
            r matches Some(v) ==> v@ == self@[key@],
    {
        match self.find(key) {
            Some(i) => {
                proof {
                    self.lemma_index(i as int);
                }
                Some(&self.entries[i].1)
            },
            None => None,
        }
    }
}

} // verus!
