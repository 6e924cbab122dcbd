//! A TOML document as the configuration logic sees it: tables keyed by
//! string, holding text, integers, booleans, arrays, nested tables, and values
//! the logic carries through without reading (floats, dates), which it knows
//! only by a handle that the caller resolves.

use vstd::prelude::*;
use crate::text::str_eq;

verus! {

/// One TOML value.
#[derive(Debug)]
pub enum TomlValue {
    Text(String),
    Integer(i64),
    Boolean(bool),
    Array(Vec<TomlValue>),
    Table(TomlTable),
    /// A value carried through unread, known by the caller's handle.
    Kept(u64),
}

/// One `key = value` line of a table.
#[derive(Debug)]
pub struct TomlEntry {
    pub key: String,
    pub value: TomlValue,
}

/// A TOML table: each key at most once.
#[derive(Debug)]
pub struct TomlTable {
    entries: Vec<TomlEntry>,
}

/// No key occurs twice among `s`.
pub open spec fn keys_unique(s: Seq<TomlEntry>) -> bool {
    forall|i: int, j: int| 0 <= i < s.len() && 0 <= j < s.len() && i != j ==> s[i].key@ != s[j].key@
}

/// Some entry of `s` has key `k`.
pub open spec fn has_key(s: Seq<TomlEntry>, k: Seq<char>) -> bool {
    exists|i: int| 0 <= i < s.len() && #[trigger] s[i].key@ == k
}

/// The index of an entry of `s` with key `k`.
pub open spec fn key_index(s: Seq<TomlEntry>, k: Seq<char>) -> int {
    choose|i: int| 0 <= i < s.len() && #[trigger] s[i].key@ == k
}

/// The key-to-value map that a sequence of entries spells out.
pub open spec fn entries_map(s: Seq<TomlEntry>) -> Map<Seq<char>, TomlValue> {
    Map::new(|k: Seq<char>| has_key(s, k), |k: Seq<char>| s[key_index(s, k)].value)
}

impl TomlTable {
    #[verifier::type_invariant]
    spec fn keys_are_unique(self) -> bool {
        keys_unique(self.entries@)
    }

    /// The entries, in the order they were first inserted.
    pub closed spec fn entries_seq(&self) -> Seq<TomlEntry> {
        self.entries@
    }
}

impl View for TomlTable {
    type V = Map<Seq<char>, TomlValue>;

    closed spec fn view(&self) -> Map<Seq<char>, TomlValue> {
        entries_map(self.entries@)
    }
}

/// With unique keys, the entry at `i` is the one the map reports for its key.
proof fn lemma_entry_at(s: Seq<TomlEntry>, i: int)
    requires
        keys_unique(s),
        0 <= i < s.len(),
    ensures
        entries_map(s).dom().contains(s[i].key@),
        entries_map(s)[s[i].key@] == s[i].value,
{
    assert(has_key(s, s[i].key@));
    let j = key_index(s, s[i].key@);
    assert(s[j].key@ == s[i].key@);
}

impl TomlTable {
    /// An empty table.
    pub fn new() -> (r: TomlTable)
        ensures
            r@ == Map::<Seq<char>, TomlValue>::empty(),
    {
        let r = TomlTable { entries: Vec::new() };
        assert(entries_map(r.entries@) =~= Map::<Seq<char>, TomlValue>::empty());
        r
    }

    /// Number of keys.
    pub fn len(&self) -> (r: usize)
        ensures
            r == self@.dom().len(),
    {
        proof {
            use_type_invariant(self);
            self.lemma_dom_len();
        }
        self.entries.len()
    }

    /// The domain has as many keys as there are entries.
    proof fn lemma_dom_len(&self)
        requires
            keys_unique(self.entries@),
        ensures
            self@.dom().finite(),
            self@.dom().len() == self.entries@.len(),
    {
        let s = self.entries@;
        let f = |i: int| s[i].key@;
        let x = vstd::set_lib::set_int_range(0, s.len() as int);
        vstd::set_lib::lemma_int_range(0, s.len() as int);
        assert forall|a: int, b: int| x.contains(a) && x.contains(b) && #[trigger] f(a) == #[trigger] f(b) implies a == b by {}
        assert(vstd::relations::injective_on(f, x));
        assert forall|k: Seq<char>| #[trigger] self@.dom().contains(k) <==> x.map(f).contains(k) by {
            if self@.dom().contains(k) {
                let i = key_index(s, k);
                assert(x.contains(i) && f(i) == k);
            }
            if x.map(f).contains(k) {
                let i = choose|i: int| x.contains(i) && f(i) == k;
                assert(has_key(s, k));
            }
        }
        assert(x.map(f) =~= self@.dom());
        vstd::set_lib::lemma_map_size(x, self@.dom(), f);
    }

    /// The position of `key` among the entries.
    fn index_of(&self, key: &str) -> (r: Option<usize>)
        ensures
            match r {
                Some(i) => i < self.entries@.len() && self.entries@[i as int].key@ == key@,
                None => !self@.dom().contains(key@),
            },
    {
        let mut i: usize = 0;
        while i < self.entries.len()
            invariant
                i <= self.entries@.len(),
                forall|j: int| 0 <= j < i ==> self.entries@[j].key@ != key@,
            decreases self.entries@.len() - i,
        {
            if str_eq(self.entries[i].key.as_str(), key) {
                return Some(i);
            }
            i = i + 1;
        }
        None
    }

    /// Whether `key` is present.
    pub fn contains_key(&self, key: &str) -> (r: bool)
        ensures
            r == self@.dom().contains(key@),
    {
        proof {
            use_type_invariant(self);
        }
        match self.index_of(key) {
            Some(i) => {
                proof {
                    lemma_entry_at(self.entries@, i as int);
                }
                true
            },
            None => false,
        }
    }

    /// The value under `key`, if any.
    pub fn get(&self, key: &str) -> (r: Option<&TomlValue>)
        ensures
            match r {
                Some(v) => self@.dom().contains(key@) && *v == self@[key@],
                None => !self@.dom().contains(key@),
            },
    {
        proof {
            use_type_invariant(self);
        }
        match self.index_of(key) {
            Some(i) => {
                proof {
                    lemma_entry_at(self.entries@, i as int);
                }
                Some(&self.entries[i].value)
            },
            None => None,
        }
    }

    /// Sets `key` to `value`: a present key keeps its place, a new one comes last.
    pub fn insert(&mut self, key: &str, value: TomlValue)
        ensures
            final(self)@ == old(self)@.insert(key@, value),
    {
        proof {
            use_type_invariant(&*self);
        }
        let ghost before = self.entries@;
        match self.index_of(key) {
            Some(i) => {
                let k = self.entries[i].key.clone();
                let mut entries: Vec<TomlEntry> = Vec::new();
                std::mem::swap(&mut entries, &mut self.entries);
                entries.set(i, TomlEntry { key: k, value });
                proof {
                    let after = entries@;
                    assert(after =~= before.update(i as int, TomlEntry { key: before[i as int].key, value }));
                    assert forall|k2: Seq<char>| #[trigger] entries_map(after).dom().contains(k2)
                        <==> entries_map(before).insert(key@, value).dom().contains(k2) by {
                        if has_key(before, k2) {
                            let j = key_index(before, k2);
                            assert(after[j].key@ == k2);
                        }
                        if has_key(after, k2) {
                            let j = key_index(after, k2);
                            assert(before[j].key@ == k2);
                        }
                    }
                    assert forall|k2: Seq<char>| entries_map(after).dom().contains(k2) implies
                        #[trigger] entries_map(after)[k2] == entries_map(before).insert(key@, value)[k2] by {
                        let j = key_index(after, k2);
                        lemma_entry_at(after, j);
                        if k2 != key@ {
                            lemma_entry_at(before, j);
                        }
                    }
                    assert(entries_map(after) =~= entries_map(before).insert(key@, value));
                }
                self.entries = entries;
            },
            None => {
                let k = String::from_str(key);
                let mut entries: Vec<TomlEntry> = Vec::new();
                std::mem::swap(&mut entries, &mut self.entries);
                entries.push(TomlEntry { key: k, value });
                proof {
                    let after = entries@;
                    assert(after =~= before.push(TomlEntry { key: k, value }));
                    assert forall|k2: Seq<char>| #[trigger] entries_map(after).dom().contains(k2)
                        <==> entries_map(before).insert(key@, value).dom().contains(k2) by {
                        if has_key(before, k2) {
                            let j = key_index(before, k2);
                            assert(after[j].key@ == k2);
                        }
                        if has_key(after, k2) && k2 != key@ {
                            let j = key_index(after, k2);
                            assert(j < before.len());
                            assert(before[j].key@ == k2);
                        }
                        if k2 == key@ {
                            assert(after[before.len() as int].key@ == k2);
                        }
                    }
                    assert forall|k2: Seq<char>| entries_map(after).dom().contains(k2) implies
                        #[trigger] entries_map(after)[k2] == entries_map(before).insert(key@, value)[k2] by {
                        let j = key_index(after, k2);
                        lemma_entry_at(after, j);
                        if k2 != key@ {
                            assert(j < before.len());
                            lemma_entry_at(before, j);
                        }
                    }
                    assert(entries_map(after) =~= entries_map(before).insert(key@, value));
                }
                self.entries = entries;
            },
        }
    }

    /// Removes `key`, handing back what it held.
    pub fn remove(&mut self, key: &str) -> (r: Option<TomlValue>)
        ensures
            final(self)@ == old(self)@.remove(key@),
            match r {
                Some(v) => old(self)@.dom().contains(key@) && v == old(self)@[key@],
                None => !old(self)@.dom().contains(key@),
            },
    {
        proof {
            use_type_invariant(&*self);
        }
        let ghost before = self.entries@;
        match self.index_of(key) {
            Some(i) => {
                proof {
                    lemma_entry_at(before, i as int);
                }
                let mut entries: Vec<TomlEntry> = Vec::new();
                std::mem::swap(&mut entries, &mut self.entries);
                let e = entries.remove(i);
                proof {
                    let after = entries@;
                    assert(after =~= before.remove(i as int));
                    assert forall|k2: Seq<char>| #[trigger] entries_map(after).dom().contains(k2)
                        <==> entries_map(before).remove(key@).dom().contains(k2) by {
                        if has_key(before, k2) && k2 != key@ {
                            let j = key_index(before, k2);
                            if j < i {
                                assert(after[j].key@ == k2);
                            } else {
                                assert(after[j - 1].key@ == k2);
                            }
                        }
                        if has_key(after, k2) {
                            let j = key_index(after, k2);
                            if j < i {
                                assert(before[j].key@ == k2);
                            } else {
                                assert(before[j + 1].key@ == k2);
                            }
                        }
                    }
                    assert forall|k2: Seq<char>| entries_map(after).dom().contains(k2) implies
                        #[trigger] entries_map(after)[k2] == entries_map(before).remove(key@)[k2] by {
                        let j = key_index(after, k2);
                        lemma_entry_at(after, j);
                        if j < i {
                            lemma_entry_at(before, j);
                        } else {
                            lemma_entry_at(before, j + 1);
                        }
                    }
                    assert(entries_map(after) =~= entries_map(before).remove(key@));
                }
                self.entries = entries;
                Some(e.value)
            },
            None => {
                proof {
                    assert(entries_map(before).remove(key@) =~= entries_map(before));
                }
                None
            },
        }
    }

    /// The key of the entry at `i`, in insertion order.
    pub fn key_at(&self, i: usize) -> (r: &str)
        requires
            i < self.entries_seq().len(),
        ensures
            r@ == self.entries_seq()[i as int].key@,
    {
        self.entries[i].key.as_str()
    }

    /// The value of the entry at `i`, in insertion order.
    pub fn value_at(&self, i: usize) -> (r: &TomlValue)
        requires
            i < self.entries_seq().len(),
        ensures
            *r == self.entries_seq()[i as int].value,
    {
        &self.entries[i].value
    }

    /// Number of entries, in insertion order (the number of keys).
    pub fn entry_count(&self) -> (r: usize)
        ensures
            r == self.entries_seq().len(),
    {
        self.entries.len()
    }
}

} // verus!
