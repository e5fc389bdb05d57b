//! The flow table: a fixed-capacity exact-match map from flow key to slot.
use vstd::prelude::*;

use crate::flow_key::FlowKey;

verus! {

/// A map from flow keys to slot indices that never holds more than its
/// capacity.
pub struct OsMap {
    keys: Vec<FlowKey>,
    values: Vec<usize>,
    capacity: usize,
    contents: Ghost<Map<FlowKey, usize>>,
}

impl View for OsMap {
    type V = Map<FlowKey, usize>;

    closed spec fn view(&self) -> Map<FlowKey, usize> {
        self.contents@
    }
}

impl OsMap {
    pub closed spec fn capacity_spec(&self) -> nat {
        self.capacity as nat
    }

    pub closed spec fn wf(&self) -> bool {
        &&& self.keys@.len() == self.values@.len()
        &&& self.keys@.len() <= self.capacity
        &&& self.contents@.dom().finite()
        &&& self.contents@.dom().len() == self.keys@.len()
        &&& forall|i: int, j: int|
            0 <= i < self.keys@.len() && 0 <= j < self.keys@.len() && i != j ==> self.keys@[i]
                != self.keys@[j]
        &&& forall|i: int|
            0 <= i < self.keys@.len() ==> #[trigger] self.contents@.contains_key(self.keys@[i])
                && self.contents@[self.keys@[i]] == self.values@[i]
        &&& forall|k: FlowKey|
            #[trigger] self.contents@.contains_key(k) ==> exists|i: int|
                0 <= i < self.keys@.len() && self.keys@[i] == k
    }

    /// The number of entries.
    pub open spec fn len_spec(&self) -> nat {
        self@.dom().len()
    }

    pub proof fn lemma_len_bounded(&self)
        requires
            self.wf(),
        ensures
            self@.dom().finite(),
            self.len_spec() <= self.capacity_spec(),
    {
    }

    /// An empty table that holds up to `capacity` entries.
    pub fn new(capacity: usize) -> (r: OsMap)
        ensures
            r.wf(),
            r@ == Map::<FlowKey, usize>::empty(),
            r.capacity_spec() == capacity,
    {
        OsMap {
            keys: Vec::new(),
            values: Vec::new(),
            capacity,
            contents: Ghost(Map::empty()),
        }
    }

    pub fn capacity(&self) -> (r: usize)
        ensures
            r == self.capacity_spec(),
    {
        self.capacity
    }

    pub fn len(&self) -> (r: usize)
        requires
            self.wf(),
        ensures
            r == self.len_spec(),
    {
        self.keys.len()
    }

    fn find(&self, key: &FlowKey) -> (r: Option<usize>)
        requires
            self.wf(),
        ensures
            r matches Some(i) ==> i < self.keys@.len() && self.keys@[i as int] == *key,
            r is None ==> !self@.contains_key(*key),
    {
        let mut i: usize = 0;
        while i < self.keys.len()
            invariant
                i <= self.keys@.len(),
                forall|j: int| 0 <= j < i ==> self.keys@[j] != *key,
            decreases self.keys@.len() - i,
        {
            if self.keys[i] == *key {
                return Some(i);
            }
            i = i + 1;
        }
        None
    }

    /// The slot of `key`, if the table holds it.
    pub fn lookup(&self, key: &FlowKey) -> (r: Option<usize>)
        requires
            self.wf(),
        ensures
            r == (if self@.contains_key(*key) {
                Some(self@[*key])
            } else {
                None
            }),
    {
        match self.find(key) {
            Some(i) => Some(self.values[i]),
            None => None,
        }
    }

    /// Adds `key -> value`. Fails, changing nothing, when the key is already
    /// present or the table is full.
    pub fn insert(&mut self, key: FlowKey, value: usize) -> (r: bool)
        requires
            old(self).wf(),
        ensures
            final(self).wf(),
            final(self).capacity_spec() == old(self).capacity_spec(),
            r == (!old(self)@.contains_key(key) && old(self).len_spec()
                < old(self).capacity_spec()),
            r ==> final(self)@ == old(self)@.insert(key, value),
            !r ==> final(self)@ == old(self)@,
    {
        if self.keys.len() >= self.capacity {
            return false;
        }
        if self.find(&key).is_some() {
            return false;
        }
        let ghost m0 = self.contents@;
        self.keys.push(key);
        self.values.push(value);
        self.contents = Ghost(m0.insert(key, value));
        proof {
            assert forall|k: FlowKey| #[trigger] self.contents@.contains_key(k) implies exists|
                i: int,
            | 0 <= i < self.keys@.len() && self.keys@[i] == k by {
                if k == key {
                    assert(self.keys@[self.keys@.len() - 1] == k);
                } else {
                    assert(m0.contains_key(k));
                    let i = choose|i: int| 0 <= i < m0.dom().len() && old(self).keys@[i] == k;
                    assert(self.keys@[i] == k);
                }
            }
        }
        true
    }

    /// Removes `key` if present.
    pub fn remove(&mut self, key: &FlowKey)
        requires
            old(self).wf(),
        ensures
            final(self).wf(),
            final(self).capacity_spec() == old(self).capacity_spec(),
            final(self)@ == old(self)@.remove(*key),
    {
        match self.find(key) {
            None => {
                assert(self@ =~= old(self)@.remove(*key));
            },
            Some(i) => {
                let ghost m0 = self.contents@;
                let ghost k0 = self.keys@;
                let ghost v0 = self.values@;
                let n = self.keys.len();
                let last_key = self.keys[n - 1];
                let last_value = self.values[n - 1];
                self.keys.set(i, last_key);
                self.values.set(i, last_value);
                self.keys.pop();
                self.values.pop();
                self.contents = Ghost(m0.remove(*key));
                proof {
                    assert forall|j: int|
                        0 <= j < self.keys@.len() implies #[trigger] self.contents@.contains_key(
                        self.keys@[j],
                    ) && self.contents@[self.keys@[j]] == self.values@[j] by {
                        if j == i {
                            assert(self.keys@[j] == k0[n - 1]);
                        } else {
                            assert(self.keys@[j] == k0[j]);
                        }
                    }
                    assert forall|k: FlowKey| #[trigger]
                        self.contents@.contains_key(k) implies exists|j: int|
                        0 <= j < self.keys@.len() && self.keys@[j] == k by {
                        let j = choose|j: int| 0 <= j < k0.len() && k0[j] == k;
                        if j == n - 1 {
                            assert(self.keys@[i as int] == k);
                        } else {
                            assert(self.keys@[j] == k);
                        }
                    }
                }
            },
        }
    }
}

} // verus!
