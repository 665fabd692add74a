//! A map from strings to strings, kept as a list of pairs with distinct keys.
use vstd::prelude::*;

use crate::text::str_eq;

verus! {

/// The keys of `s` are pairwise distinct (as character sequences).
pub open spec fn keys_distinct(s: Seq<(String, String)>) -> bool {
    forall|i: int, j: int|
        0 <= i < s.len() && 0 <= j < s.len() && i != j ==> #[trigger] s[i].0@ != #[trigger] s[j].0@
}

/// `k` is the key of some pair in `s`.
pub open spec fn has_key(s: Seq<(String, String)>, k: Seq<char>) -> bool {
    exists|i: int| 0 <= i < s.len() && #[trigger] s[i].0@ == k
}

/// The position of a pair whose key is `k`.
pub open spec fn index_of_key(s: Seq<(String, String)>, k: Seq<char>) -> int {
    choose|i: int| 0 <= i < s.len() && #[trigger] s[i].0@ == k
}

/// The map that the pairs of `s` describe.
pub open spec fn pairs_to_map(s: Seq<(String, String)>) -> Map<Seq<char>, Seq<char>> {
    Map::new(|k: Seq<char>| has_key(s, k), |k: Seq<char>| s[index_of_key(s, k)].1@)
}

proof fn lemma_index_of_key(s: Seq<(String, String)>, i: int)
    requires
        keys_distinct(s),
        0 <= i < s.len(),
    ensures
        has_key(s, s[i].0@),
        index_of_key(s, s[i].0@) == i,
        pairs_to_map(s)[s[i].0@] == s[i].1@,
{
    let k = s[i].0@;
    assert(has_key(s, k));
    let j = index_of_key(s, k);
    assert(s[j].0@ == k);
}

/// A map from strings to strings; what `HashMap<String, String>` holds.
#[derive(Debug)]
pub struct StringMap {
    entries: Vec<(String, String)>,
}

impl View for StringMap {
    type V = Map<Seq<char>, Seq<char>>;

    closed spec fn view(&self) -> Map<Seq<char>, Seq<char>> {
        pairs_to_map(self.entries@)
    }
}

impl StringMap {
    #[verifier::type_invariant]
    spec fn wf(self) -> bool {
        keys_distinct(self.entries@)
    }

    /// The empty map.
    pub fn new() -> (m: StringMap)
        ensures
            m@ == Map::<Seq<char>, Seq<char>>::empty(),
    {
        let m = StringMap { entries: Vec::new() };
        assert(m@ =~= Map::<Seq<char>, Seq<char>>::empty());
        m
    }

    /// The position of the pair with key `key`, if there is one.
    fn find(entries: &Vec<(String, String)>, key: &str) -> (r: Option<usize>)
        requires
            keys_distinct(entries@),
        ensures
            r is None ==> !has_key(entries@, key@),
            r matches Some(i) ==> i < entries.len() && entries@[i as int].0@ == key@,
    {
        let mut i: usize = 0;
        while i < entries.len()
            invariant
                i <= entries.len(),
                forall|j: int| 0 <= j < i ==> #[trigger] entries@[j].0@ != key@,
            decreases entries.len() - i,
        {
            if str_eq(entries[i].0.as_str(), key) {
                return Some(i);
            }
            i = i + 1;
        }
        None
    }

    /// The value stored under `key`.
    pub fn get(&self, key: &str) -> (r: Option<&String>)
        ensures
            r is Some == self@.contains_key(key@),
            r matches Some(v) ==> v@ == self@[key@],
    {
        proof {
            use_type_invariant(self);
        }
        match Self::find(&self.entries, key) {
            Some(i) => {
                proof {
                    lemma_index_of_key(self.entries@, i as int);
                }
                Some(&self.entries[i].1)
            },
            None => None,
        }
    }

    /// Stores `value` under `key`, replacing what was there.
    pub fn insert(&mut self, key: String, value: String)
        ensures
            final(self)@ == old(self)@.insert(key@, value@),
    {
        proof {
            use_type_invariant(&*self);
        }
        let ghost old_map = self@;
        let mut entries: Vec<(String, String)> = Vec::new();
        std::mem::swap(&mut entries, &mut self.entries);
        let ghost old_entries = entries@;
        assert(pairs_to_map(old_entries) == old_map);
        let ghost k = key@;
        let ghost v = value@;
        match Self::find(&entries, key.as_str()) {
            Some(i) => {
                entries.set(i, (key, value));
                let ghost s = entries@;
                assert(s == old_entries.update(i as int, s[i as int]));
                assert(keys_distinct(s));
                proof {
                    lemma_index_of_key(s, i as int);
                    assert forall|k2: Seq<char>| #[trigger] pairs_to_map(s).contains_key(k2)
                        == old_map.insert(k, v).contains_key(k2) by {
                        if has_key(old_entries, k2) {
                            let j = index_of_key(old_entries, k2);
                            assert(j == i || s[j].0@ == k2);
                        }
                        if has_key(s, k2) {
                            let j = index_of_key(s, k2);
                            assert(j == i || old_entries[j].0@ == k2);
                        }
                    }
                    assert forall|k2: Seq<char>| #[trigger] pairs_to_map(s).contains_key(k2)
                        implies pairs_to_map(s)[k2] == old_map.insert(k, v)[k2] by {
                        if k2 != k {
                            let j = index_of_key(s, k2);
                            assert(j != i);
                            lemma_index_of_key(s, j);
                            lemma_index_of_key(old_entries, j);
                        }
                    }
                    assert(pairs_to_map(s) =~= old_map.insert(k, v));
                }
            },
            None => {
                entries.push((key, value));
                let ghost s = entries@;
                let n = entries.len() - 1;
                assert(keys_distinct(s));
                proof {
                    lemma_index_of_key(s, n as int);
                    assert forall|k2: Seq<char>| #[trigger] pairs_to_map(s).contains_key(k2)
                        == old_map.insert(k, v).contains_key(k2) by {
                        if has_key(old_entries, k2) {
                            let j = index_of_key(old_entries, k2);
                            assert(s[j] == old_entries[j]);
                        }
                        if has_key(s, k2) {
                            let j = index_of_key(s, k2);
                            assert(j == n || s[j] == old_entries[j]);
                        }
                    }
                    assert forall|k2: Seq<char>| #[trigger] pairs_to_map(s).contains_key(k2)
                        implies pairs_to_map(s)[k2] == old_map.insert(k, v)[k2] by {
                        if k2 != k {
                            let j = index_of_key(s, k2);
                            assert(j != n);
                            assert(s[j] == old_entries[j]);
                            lemma_index_of_key(s, j);
                            lemma_index_of_key(old_entries, j);
                        }
                    }
                    assert(pairs_to_map(s) =~= old_map.insert(k, v));
                }
            },
        }
        self.entries = entries;
    }

    /// Removes the pair with key `key`; tells whether there was one.
    pub fn remove(&mut self, key: &str) -> (r: bool)
        ensures
            r == old(self)@.contains_key(key@),
            final(self)@ == old(self)@.remove(key@),
    {
        proof {
            use_type_invariant(&*self);
        }
        let ghost old_map = self@;
        let mut entries: Vec<(String, String)> = Vec::new();
        std::mem::swap(&mut entries, &mut self.entries);
        let ghost old_entries = entries@;
        assert(pairs_to_map(old_entries) == old_map);
        let ghost k = key@;
        let found = match Self::find(&entries, key) {
            Some(i) => {
                proof {
                    lemma_index_of_key(old_entries, i as int);
                }
                let _ = entries.remove(i);
                let ghost s = entries@;
                assert(forall|j: int| 0 <= j < i ==> s[j] == old_entries[j]);
                assert(forall|j: int| i <= j < s.len() ==> s[j] == old_entries[j + 1]);
                assert(keys_distinct(s)) by {
                    assert forall|a: int, b: int| 0 <= a < s.len() && 0 <= b < s.len() && a != b
                        implies #[trigger] s[a].0@ != #[trigger] s[b].0@ by {
                        let a2 = if a < i { a } else { a + 1 };
                        let b2 = if b < i { b } else { b + 1 };
                        assert(s[a] == old_entries[a2]);
                        assert(s[b] == old_entries[b2]);
                    }
                }
                proof {
                    assert forall|k2: Seq<char>| #[trigger] pairs_to_map(s).contains_key(k2)
                        == old_map.remove(k).contains_key(k2) by {
                        if has_key(old_entries, k2) && k2 != k {
                            let j = index_of_key(old_entries, k2);
                            assert(j != i);
                            let j2 = if j < i { j } else { j - 1 };
                            assert(s[j2] == old_entries[j]);
                        }
                        if has_key(s, k2) {
                            let j = index_of_key(s, k2);
                            let j2 = if j < i { j } else { j + 1 };
                            assert(s[j] == old_entries[j2]);
                            assert(j2 != i);
                        }
                    }
                    assert forall|k2: Seq<char>| #[trigger] pairs_to_map(s).contains_key(k2)
                        implies pairs_to_map(s)[k2] == old_map.remove(k)[k2] by {
                        let j = index_of_key(s, k2);
                        let j2 = if j < i { j } else { j + 1 };
                        assert(s[j] == old_entries[j2]);
                        lemma_index_of_key(s, j);
                        lemma_index_of_key(old_entries, j2);
                    }
                    assert(pairs_to_map(s) =~= old_map.remove(k));
                }
                true
            },
            None => {
                assert(old_map.remove(k) =~= old_map);
                false
            },
        };
        self.entries = entries;
        found
    }

    /// A copy of the map.
    pub fn copy(&self) -> (r: StringMap)
        ensures
            r@ == self@,
    {
        proof {
            use_type_invariant(self);
        }
        let mut entries: Vec<(String, String)> = Vec::new();
        let mut i: usize = 0;
        while i < self.entries.len()
            invariant
                i <= self.entries.len(),
                entries.len() == i,
                forall|j: int| 0 <= j < i ==> #[trigger] entries@[j].0@ == self.entries@[j].0@
                    && entries@[j].1@ == self.entries@[j].1@,
            decreases self.entries.len() - i,
        {
            let k = self.entries[i].0.clone();
            let v = self.entries[i].1.clone();
            entries.push((k, v));
            i = i + 1;
        }
        let r = StringMap { entries };
        proof {
            assert forall|k2: Seq<char>| #[trigger] r@.contains_key(k2) == self@.contains_key(k2) by {
                if has_key(self.entries@, k2) {
                    let j = index_of_key(self.entries@, k2);
                    assert(r.entries@[j].0@ == k2);
                }
                if has_key(r.entries@, k2) {
                    let j = index_of_key(r.entries@, k2);
                    assert(self.entries@[j].0@ == k2);
                }
            }
            assert forall|k2: Seq<char>| #[trigger] r@.contains_key(k2) implies r@[k2] == self@[k2] by {
                let j = index_of_key(r.entries@, k2);
                lemma_index_of_key(r.entries@, j);
                lemma_index_of_key(self.entries@, j);
            }
            assert(r@ =~= self@);
        }
        r
    }

    /// The pairs of the map, in the order they were first inserted.
    pub fn pairs(&self) -> (r: &Vec<(String, String)>)
        ensures
            keys_distinct(r@),
            pairs_to_map(r@) == self@,
    {
        proof {
            use_type_invariant(self);
        }
        &self.entries
    }
}

} // verus!
