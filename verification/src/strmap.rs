//! A map keyed by strings: each key at most once, entries kept in the order
//! their keys first arrived.

use vstd::prelude::*;
use crate::text::str_eq;

verus! {

/// A map keyed by strings, each key at most once, in insertion order.
#[derive(Debug)]
pub struct StrMap<V> {
    entries: Vec<(String, V)>,
}

/// No key occurs twice among `s`.
pub open spec fn keys_distinct<V>(s: Seq<(String, V)>) -> bool {
    forall|i: int, j: int| 0 <= i < s.len() && 0 <= j < s.len() && i != j ==> s[i].0@ != s[j].0@
}

/// Some entry of `s` has key `k`.
pub open spec fn holds_key<V>(s: Seq<(String, V)>, k: Seq<char>) -> bool {
    exists|i: int| 0 <= i < s.len() && #[trigger] s[i].0@ == k
}

/// The index of an entry of `s` with key `k`.
pub open spec fn index_of_key<V>(s: Seq<(String, V)>, k: Seq<char>) -> int {
    choose|i: int| 0 <= i < s.len() && #[trigger] s[i].0@ == k
}

/// The key-to-state map spelled out by `s`.
pub open spec fn pairs_map<V>(s: Seq<(String, V)>) -> Map<Seq<char>, V> {
    Map::new(|k: Seq<char>| holds_key(s, k), |k: Seq<char>| s[index_of_key(s, k)].1)
}

proof fn lemma_pair_at<V>(s: Seq<(String, V)>, i: int)
    requires
        keys_distinct(s),
        0 <= i < s.len(),
    ensures
        pairs_map(s).dom().contains(s[i].0@),
        pairs_map(s)[s[i].0@] == s[i].1,
{
    assert(holds_key(s, s[i].0@));
    let j = index_of_key(s, s[i].0@);
    assert(s[j].0@ == s[i].0@);
}

impl<V> View for StrMap<V> {
    type V = Map<Seq<char>, V>;

    closed spec fn view(&self) -> Map<Seq<char>, V> {
        pairs_map(self.entries@)
    }
}

impl<V> StrMap<V> {
    #[verifier::type_invariant]
    spec fn keys_are_unique(self) -> bool {
        keys_distinct(self.entries@)
    }

    /// An empty table.
    pub fn new() -> (r: StrMap<V>)
        ensures
            r@ == Map::<Seq<char>, V>::empty(),
    {
        let r = StrMap { entries: Vec::new() };
        assert(pairs_map(r.entries@) =~= Map::<Seq<char>, V>::empty());
        r
    }

    fn index_of(&self, key: &str) -> (r: Option<usize>)
        ensures
            match r {
                Some(i) => i < self.entries@.len() && self.entries@[i as int].0@ == key@,
                None => !self@.dom().contains(key@),
            },
    {
        let mut i: usize = 0;
        while i < self.entries.len()
            invariant
                i <= self.entries@.len(),
                forall|j: int| 0 <= j < i ==> self.entries@[j].0@ != key@,
            decreases self.entries@.len() - i,
        {
            if str_eq(self.entries[i].0.as_str(), key) {
                return Some(i);
            }
            i = i + 1;
        }
        None
    }

    /// The value under `key`, if any.
    pub fn get(&self, key: &str) -> (r: Option<&V>)
        ensures
            match r {
                Some(s) => self@.dom().contains(key@) && *s == self@[key@],
                None => !self@.dom().contains(key@),
            },
    {
        proof {
            use_type_invariant(self);
        }
        match self.index_of(key) {
            Some(i) => {
                proof {
                    lemma_pair_at(self.entries@, i as int);
                }
                Some(&self.entries[i].1)
            },
            None => None,
        }
    }

    /// Sets `key` to `state`: a present key keeps its place, a new one comes last.
    pub fn insert(&mut self, key: &str, state: V)
        ensures
            final(self)@ == old(self)@.insert(key@, state),
    {
        proof {
            use_type_invariant(&*self);
        }
        let ghost before = self.entries@;
        let k = String::from_str(key);
        let mut entries: Vec<(String, V)> = Vec::new();
        std::mem::swap(&mut entries, &mut self.entries);
        match Self::index_of_in(&entries, key) {
            Some(i) => {
                entries.set(i, (k, state));
                proof {
                    let after = entries@;
                    assert forall|k2: Seq<char>| #[trigger] pairs_map(after).dom().contains(k2)
                        <==> pairs_map(before).insert(key@, state).dom().contains(k2) by {
                        if holds_key(before, k2) {
                            let j = index_of_key(before, k2);
                            assert(after[j].0@ == k2);
                        }
                        if holds_key(after, k2) {
                            let j = index_of_key(after, k2);
                            assert(before[j].0@ == k2);
                        }
                    }
                    assert forall|k2: Seq<char>| pairs_map(after).dom().contains(k2) implies
                        #[trigger] pairs_map(after)[k2] == pairs_map(before).insert(key@, state)[k2] by {
                        let j = index_of_key(after, k2);
                        lemma_pair_at(after, j);
                        if k2 != key@ {
                            lemma_pair_at(before, j);
                        }
                    }
                    assert(pairs_map(after) =~= pairs_map(before).insert(key@, state));
                }
            },
            None => {
                entries.push((k, state));
                proof {
                    let after = entries@;
                    assert forall|k2: Seq<char>| #[trigger] pairs_map(after).dom().contains(k2)
                        <==> pairs_map(before).insert(key@, state).dom().contains(k2) by {
                        if holds_key(before, k2) {
                            let j = index_of_key(before, k2);
                            assert(after[j].0@ == k2);
                        }
                        if holds_key(after, k2) && k2 != key@ {
                            let j = index_of_key(after, k2);
                            assert(j < before.len());
                            assert(before[j].0@ == k2);
                        }
                        if k2 == key@ {
                            assert(after[before.len() as int].0@ == k2);
                        }
                    }
                    assert forall|k2: Seq<char>| pairs_map(after).dom().contains(k2) implies
                        #[trigger] pairs_map(after)[k2] == pairs_map(before).insert(key@, state)[k2] by {
                        let j = index_of_key(after, k2);
                        lemma_pair_at(after, j);
                        if k2 != key@ {
                            assert(j < before.len());
                            lemma_pair_at(before, j);
                        }
                    }
                    assert(pairs_map(after) =~= pairs_map(before).insert(key@, state));
                }
            },
        }
        self.entries = entries;
    }

    fn index_of_in(entries: &Vec<(String, V)>, key: &str) -> (r: Option<usize>)
        ensures
            match r {
                Some(i) => i < entries@.len() && entries@[i as int].0@ == key@,
                None => !holds_key(entries@, key@),
            },
    {
        let mut i: usize = 0;
        while i < entries.len()
            invariant
                i <= entries@.len(),
                forall|j: int| 0 <= j < i ==> entries@[j].0@ != key@,
            decreases entries@.len() - i,
        {
            if str_eq(entries[i].0.as_str(), key) {
                return Some(i);
            }
            i = i + 1;
        }
        None
    }

    /// Removes `key`.
    pub fn remove(&mut self, key: &str)
        ensures
            final(self)@ == old(self)@.remove(key@),
    {
        proof {
            use_type_invariant(&*self);
        }
        let ghost before = self.entries@;
        let mut entries: Vec<(String, V)> = Vec::new();
        std::mem::swap(&mut entries, &mut self.entries);
        match Self::index_of_in(&entries, key) {
            Some(i) => {
                entries.remove(i);
                proof {
                    let after = entries@;
                    assert(after =~= before.remove(i as int));
                    assert forall|k2: Seq<char>| #[trigger] pairs_map(after).dom().contains(k2)
                        <==> pairs_map(before).remove(key@).dom().contains(k2) by {
                        if holds_key(before, k2) && k2 != key@ {
                            let j = index_of_key(before, k2);
                            if j < i {
                                assert(after[j].0@ == k2);
                            } else {
                                assert(after[j - 1].0@ == k2);
                            }
                        }
                        if holds_key(after, k2) {
                            let j = index_of_key(after, k2);
                            if j < i {
                                assert(before[j].0@ == k2);
                            } else {
                                assert(before[j + 1].0@ == k2);
                            }
                        }
                    }
                    assert forall|k2: Seq<char>| pairs_map(after).dom().contains(k2) implies
                        #[trigger] pairs_map(after)[k2] == pairs_map(before).remove(key@)[k2] by {
                        let j = index_of_key(after, k2);
                        lemma_pair_at(after, j);
                        if j < i {
                            lemma_pair_at(before, j);
                        } else {
                            lemma_pair_at(before, j + 1);
                        }
                    }
                    assert(pairs_map(after) =~= pairs_map(before).remove(key@));
                }
            },
            None => {
                proof {
                    assert(pairs_map(before).remove(key@) =~= pairs_map(before));
                }
            },
        }
        self.entries = entries;
    }
}

impl<V> StrMap<V> {
    /// Number of keys.
    pub fn len(&self) -> (r: usize)
        ensures
            r == self@.dom().len(),
    {
        proof {
            use_type_invariant(self);
            lemma_pairs_len(self.entries@);
        }
        self.entries.len()
    }

    /// The entries, in the order their keys first arrived.
    pub closed spec fn pairs(&self) -> Seq<(String, V)> {
        self.entries@
    }

    /// The key of the entry at `i`.
    pub fn key_at(&self, i: usize) -> (r: &str)
        requires
            i < self.pairs().len(),
        ensures
            r@ == self.pairs()[i as int].0@,
    {
        self.entries[i].0.as_str()
    }

    /// The value of the entry at `i`.
    pub fn value_at(&self, i: usize) -> (r: &V)
        requires
            i < self.pairs().len(),
        ensures
            *r == self.pairs()[i as int].1,
            self@.dom().contains(self.pairs()[i as int].0@),
            self@[self.pairs()[i as int].0@] == *r,
    {
        proof {
            use_type_invariant(self);
            lemma_pair_at(self.entries@, i as int);
        }
        &self.entries[i].1
    }

    /// Number of entries (the number of keys).
    pub fn entry_count(&self) -> (r: usize)
        ensures
            r == self.pairs().len(),
    {
        self.entries.len()
    }

}

proof fn lemma_pairs_len<V>(s: Seq<(String, V)>)
    requires
        keys_distinct(s),
    ensures
        pairs_map(s).dom().finite(),
        pairs_map(s).dom().len() == s.len(),
{
    let f = |i: int| s[i].0@;
    let x = vstd::set_lib::set_int_range(0, s.len() as int);
    vstd::set_lib::lemma_int_range(0, s.len() as int);
    assert(vstd::relations::injective_on(f, x));
    assert forall|k: Seq<char>| #[trigger] pairs_map(s).dom().contains(k) <==> x.map(f).contains(k) by {
        if pairs_map(s).dom().contains(k) {
            let i = index_of_key(s, k);
            assert(x.contains(i) && f(i) == k);
        }
        if x.map(f).contains(k) {
            let i = choose|i: int| x.contains(i) && f(i) == k;
            assert(holds_key(s, k));
        }
    }
    assert(x.map(f) =~= pairs_map(s).dom());
    vstd::set_lib::lemma_map_size(x, pairs_map(s).dom(), f);
}

} // verus!
