//! The status table the UI reads: the lifecycle state of every supervised
//! child, keyed so that a transmitter named `x` and a viewer with id `x` never
//! collide.

use vstd::prelude::*;
use crate::supervisor::State;
use crate::text::str_eq;

verus! {

/// Identifies one supervised child: transmitters by name, viewers by id.
#[derive(Debug)]
pub enum Key {
    Tx(String),
    Vw(String),
}

/// A [`Key`] with its text as a character sequence.
pub enum KeyView {
    Tx(Seq<char>),
    Vw(Seq<char>),
}

impl View for Key {
    type V = KeyView;

    open spec fn view(&self) -> KeyView {
        match self {
            Key::Tx(n) => KeyView::Tx(n@),
            Key::Vw(i) => KeyView::Vw(i@),
        }
    }
}

impl Key {
    /// Short tag used as the log-line prefix: the name or the id.
    pub fn tag(&self) -> (r: &str)
        ensures
            r@ == match self@ {
                KeyView::Tx(n) => n,
                KeyView::Vw(i) => i,
            },
    {
        match self {
            Key::Tx(name) => name.as_str(),
            Key::Vw(id) => id.as_str(),
        }
    }

    /// A copy of the key.
    pub fn duplicate(&self) -> (r: Key)
        ensures
            r@ == self@,
    {
        match self {
            Key::Tx(name) => Key::Tx(name.clone()),
            Key::Vw(id) => Key::Vw(id.clone()),
        }
    }
}

/// Whether two keys are the same.
pub fn same_key(a: &Key, b: &Key) -> (r: bool)
    ensures
        r == (a@ == b@),
{
    match (a, b) {
        (Key::Tx(x), Key::Tx(y)) => str_eq(x.as_str(), y.as_str()),
        (Key::Vw(x), Key::Vw(y)) => str_eq(x.as_str(), y.as_str()),
        _ => false,
    }
}

/// The state of each supervised child.
#[derive(Debug)]
pub struct StatusTable {
    entries: Vec<(Key, State)>,
}

/// No key occurs twice among `s`.
pub open spec fn status_keys_unique(s: Seq<(Key, State)>) -> bool {
    forall|i: int, j: int| 0 <= i < s.len() && 0 <= j < s.len() && i != j ==> s[i].0@ != s[j].0@
}

/// Some entry of `s` has key `k`.
pub open spec fn status_has(s: Seq<(Key, State)>, k: KeyView) -> bool {
    exists|i: int| 0 <= i < s.len() && #[trigger] s[i].0@ == k
}

/// The index of an entry of `s` with key `k`.
pub open spec fn status_index(s: Seq<(Key, State)>, k: KeyView) -> int {
    choose|i: int| 0 <= i < s.len() && #[trigger] s[i].0@ == k
}

/// The key-to-state map spelled out by `s`.
pub open spec fn status_map(s: Seq<(Key, State)>) -> Map<KeyView, State> {
    Map::new(|k: KeyView| status_has(s, k), |k: KeyView| s[status_index(s, k)].1)
}

proof fn lemma_status_at(s: Seq<(Key, State)>, i: int)
    requires
        status_keys_unique(s),
        0 <= i < s.len(),
    ensures
        status_map(s).dom().contains(s[i].0@),
        status_map(s)[s[i].0@] == s[i].1,
{
    assert(status_has(s, s[i].0@));
    let j = status_index(s, s[i].0@);
    assert(s[j].0@ == s[i].0@);
}

impl View for StatusTable {
    type V = Map<KeyView, State>;

    closed spec fn view(&self) -> Map<KeyView, State> {
        status_map(self.entries@)
    }
}

impl StatusTable {
    #[verifier::type_invariant]
    spec fn keys_are_unique(self) -> bool {
        status_keys_unique(self.entries@)
    }

    /// An empty table.
    pub fn new() -> (r: StatusTable)
        ensures
            r@ == Map::<KeyView, State>::empty(),
    {
        let r = StatusTable { entries: Vec::new() };
        assert(status_map(r.entries@) =~= Map::<KeyView, State>::empty());
        r
    }

    fn index_of(&self, key: &Key) -> (r: Option<usize>)
        ensures
            match r {
                Some(i) => i < self.entries@.len() && self.entries@[i as int].0@ == key@,
                None => !self@.dom().contains(key@),
            },
    {
        let mut i: usize = 0;
        while i < self.entries.len()
            invariant
                i <= self.entries@.len(),
                forall|j: int| 0 <= j < i ==> self.entries@[j].0@ != key@,
            decreases self.entries@.len() - i,
        {
            if same_key(&self.entries[i].0, key) {
                return Some(i);
            }
            i = i + 1;
        }
        None
    }

    /// The state recorded for `key`, if any.
    pub fn get(&self, key: &Key) -> (r: Option<State>)
        ensures
            match r {
                Some(s) => self@.dom().contains(key@) && s == self@[key@],
                None => !self@.dom().contains(key@),
            },
    {
        proof {
            use_type_invariant(self);
        }
        match self.index_of(key) {
            Some(i) => {
                proof {
                    lemma_status_at(self.entries@, i as int);
                }
                Some(self.entries[i].1)
            },
            None => None,
        }
    }

    /// Records `state` for `key`.
    pub fn set(&mut self, key: &Key, state: State)
        ensures
            final(self)@ == old(self)@.insert(key@, state),
    {
        proof {
            use_type_invariant(&*self);
        }
        let ghost before = self.entries@;
        let k = key.duplicate();
        let mut entries: Vec<(Key, State)> = Vec::new();
        std::mem::swap(&mut entries, &mut self.entries);
        match self.index_of_in(&entries, key) {
            Some(i) => {
                entries.set(i, (k, state));
                proof {
                    let after = entries@;
                    assert forall|k2: KeyView| #[trigger] status_map(after).dom().contains(k2)
                        <==> status_map(before).insert(key@, state).dom().contains(k2) by {
                        if status_has(before, k2) {
                            let j = status_index(before, k2);
                            assert(after[j].0@ == k2);
                        }
                        if status_has(after, k2) {
                            let j = status_index(after, k2);
                            assert(before[j].0@ == k2);
                        }
                    }
                    assert forall|k2: KeyView| status_map(after).dom().contains(k2) implies
                        #[trigger] status_map(after)[k2] == status_map(before).insert(key@, state)[k2] by {
                        let j = status_index(after, k2);
                        lemma_status_at(after, j);
                        if k2 != key@ {
                            lemma_status_at(before, j);
                        }
                    }
                    assert(status_map(after) =~= status_map(before).insert(key@, state));
                }
            },
            None => {
                entries.push((k, state));
                proof {
                    let after = entries@;
                    assert forall|k2: KeyView| #[trigger] status_map(after).dom().contains(k2)
                        <==> status_map(before).insert(key@, state).dom().contains(k2) by {
                        if status_has(before, k2) {
                            let j = status_index(before, k2);
                            assert(after[j].0@ == k2);
                        }
                        if status_has(after, k2) && k2 != key@ {
                            let j = status_index(after, k2);
                            assert(j < before.len());
                            assert(before[j].0@ == k2);
                        }
                        if k2 == key@ {
                            assert(after[before.len() as int].0@ == k2);
                        }
                    }
                    assert forall|k2: KeyView| status_map(after).dom().contains(k2) implies
                        #[trigger] status_map(after)[k2] == status_map(before).insert(key@, state)[k2] by {
                        let j = status_index(after, k2);
                        lemma_status_at(after, j);
                        if k2 != key@ {
                            assert(j < before.len());
                            lemma_status_at(before, j);
                        }
                    }
                    assert(status_map(after) =~= status_map(before).insert(key@, state));
                }
            },
        }
        self.entries = entries;
    }

    fn index_of_in(&self, entries: &Vec<(Key, State)>, key: &Key) -> (r: Option<usize>)
        ensures
            match r {
                Some(i) => i < entries@.len() && entries@[i as int].0@ == key@,
                None => !status_has(entries@, key@),
            },
    {
        let mut i: usize = 0;
        while i < entries.len()
            invariant
                i <= entries@.len(),
                forall|j: int| 0 <= j < i ==> entries@[j].0@ != key@,
            decreases entries@.len() - i,
        {
            if same_key(&entries[i].0, key) {
                return Some(i);
            }
            i = i + 1;
        }
        None
    }

    /// Forgets `key`.
    pub fn remove(&mut self, key: &Key)
        ensures
            final(self)@ == old(self)@.remove(key@),
    {
        proof {
            use_type_invariant(&*self);
        }
        let ghost before = self.entries@;
        let mut entries: Vec<(Key, State)> = Vec::new();
        std::mem::swap(&mut entries, &mut self.entries);
        match self.index_of_in(&entries, key) {
            Some(i) => {
                entries.remove(i);
                proof {
                    let after = entries@;
                    assert(after =~= before.remove(i as int));
                    assert forall|k2: KeyView| #[trigger] status_map(after).dom().contains(k2)
                        <==> status_map(before).remove(key@).dom().contains(k2) by {
                        if status_has(before, k2) && k2 != key@ {
                            let j = status_index(before, k2);
                            if j < i {
                                assert(after[j].0@ == k2);
                            } else {
                                assert(after[j - 1].0@ == k2);
                            }
                        }
                        if status_has(after, k2) {
                            let j = status_index(after, k2);
                            if j < i {
                                assert(before[j].0@ == k2);
                            } else {
                                assert(before[j + 1].0@ == k2);
                            }
                        }
                    }
                    assert forall|k2: KeyView| status_map(after).dom().contains(k2) implies
                        #[trigger] status_map(after)[k2] == status_map(before).remove(key@)[k2] by {
                        let j = status_index(after, k2);
                        lemma_status_at(after, j);
                        if j < i {
                            lemma_status_at(before, j);
                        } else {
                            lemma_status_at(before, j + 1);
                        }
                    }
                    assert(status_map(after) =~= status_map(before).remove(key@));
                }
            },
            None => {
                proof {
                    assert(status_map(before).remove(key@) =~= status_map(before));
                }
            },
        }
        self.entries = entries;
    }
}

/// The state of a child in a status snapshot: `Stopped` when it has none.
pub open spec fn state_in(map: Map<KeyView, State>, key: KeyView) -> State {
    if map.dom().contains(key) { map[key] } else { State::Stopped }
}

/// Look up a child's state in a status snapshot, defaulting to `Stopped`.
pub fn state_of(map: &StatusTable, key: &Key) -> (r: State)
    ensures
        r == state_in(map@, key@),
{
    match map.get(key) {
        Some(s) => s,
        None => State::Stopped,
    }
}

/// A child's state is what was last recorded for it, and `Stopped` once it
/// was forgotten; recording or forgetting one child leaves every other alone.
pub proof fn lemma_status_reads_back(m: Map<KeyView, State>, k: KeyView, other: KeyView, s: State)
    requires
        other != k,
    ensures
        state_in(m.insert(k, s), k) == s,
        state_in(m.remove(k), k) == State::Stopped,
        state_in(m.insert(k, s), other) == state_in(m, other),
        state_in(m.remove(k), other) == state_in(m, other),
{
}

} // verus!
