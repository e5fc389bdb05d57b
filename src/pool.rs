//! The expiration pool: a fixed set of slot indices, each free or occupied
//! with the time it was last touched.
use vstd::prelude::*;

use crate::headers::TimeT;

verus! {

/// How many slots of `s` are occupied.
pub open spec fn occupied_count(s: Seq<Option<TimeT>>) -> nat
    decreases s.len(),
{
    if s.len() == 0 {
        0
    } else {
        occupied_count(s.drop_last()) + if s.last() is Some {
            1nat
        } else {
            0nat
        }
    }
}

/// Slot `i` is the first free slot of `s`.
pub open spec fn first_free(s: Seq<Option<TimeT>>, i: int) -> bool {
    &&& 0 <= i < s.len()
    &&& s[i] is None
    &&& forall|j: int| 0 <= j < i ==> #[trigger] s[j] is Some
}

/// Slot `i` is the least recently touched occupied slot of `s`; among equal
/// stamps, the lowest index.
pub open spec fn oldest(s: Seq<Option<TimeT>>, i: int) -> bool {
    &&& 0 <= i < s.len()
    &&& s[i] is Some
    &&& forall|j: int|
        0 <= j < s.len() && #[trigger] s[j] is Some ==> s[i]->0 <= s[j]->0 && (j < i ==> s[i]->0
            < s[j]->0)
}

/// Every occupied slot of `s` was touched at `deadline` or later.
pub open spec fn none_older_than(s: Seq<Option<TimeT>>, deadline: TimeT) -> bool {
    forall|j: int| 0 <= j < s.len() && #[trigger] s[j] is Some ==> s[j]->0 >= deadline
}

pub proof fn lemma_count_bounded(s: Seq<Option<TimeT>>)
    ensures
        occupied_count(s) <= s.len(),
    decreases s.len(),
{
    if s.len() > 0 {
        lemma_count_bounded(s.drop_last());
    }
}

pub proof fn lemma_count_update(s: Seq<Option<TimeT>>, i: int, v: Option<TimeT>)
    requires
        0 <= i < s.len(),
    ensures
        occupied_count(s.update(i, v)) + (if s[i] is Some {
            1int
        } else {
            0int
        }) == occupied_count(s) + (if v is Some {
            1int
        } else {
            0int
        }),
    decreases s.len(),
{
    let t = s.update(i, v);
    if i == s.len() - 1 {
        assert(t.drop_last() =~= s.drop_last());
    } else {
        assert(t.drop_last() =~= s.drop_last().update(i, v));
        lemma_count_update(s.drop_last(), i, v);
    }
}

proof fn lemma_count_all_free(s: Seq<Option<TimeT>>)
    requires
        forall|j: int| 0 <= j < s.len() ==> #[trigger] s[j] is None,
    ensures
        occupied_count(s) == 0,
    decreases s.len(),
{
    if s.len() > 0 {
        lemma_count_all_free(s.drop_last());
    }
}

/// A fixed-capacity slot allocator that remembers when each occupied slot
/// was last touched.
pub struct OsPool {
    slots: Vec<Option<TimeT>>,
}

impl View for OsPool {
    type V = Seq<Option<TimeT>>;

    closed spec fn view(&self) -> Seq<Option<TimeT>> {
        self.slots@
    }
}

impl OsPool {
    /// A pool of `capacity` free slots.
    pub fn new(capacity: usize) -> (r: OsPool)
        ensures
            r@.len() == capacity,
            forall|i: int| 0 <= i < capacity ==> #[trigger] r@[i] is None,
            occupied_count(r@) == 0,
    {
        let mut slots: Vec<Option<TimeT>> = Vec::new();
        let mut i: usize = 0;
        while i < capacity
            invariant
                i <= capacity,
                slots@.len() == i,
                forall|j: int| 0 <= j < i ==> #[trigger] slots@[j] is None,
            decreases capacity - i,
        {
            slots.push(None);
            i = i + 1;
        }
        proof {
            lemma_count_all_free(slots@);
        }
        OsPool { slots }
    }

    pub fn capacity(&self) -> (r: usize)
        ensures
            r == self@.len(),
    {
        self.slots.len()
    }

    /// When slot `index` was last touched, or `None` if it is free.
    pub fn stamp(&self, index: usize) -> (r: Option<TimeT>)
        requires
            index < self@.len(),
        ensures
            r == self@[index as int],
    {
        self.slots[index]
    }

    /// Takes the first free slot and stamps it with `now`; `None`, changing
    /// nothing, when every slot is occupied.
    pub fn allocate(&mut self, now: TimeT) -> (r: Option<usize>)
        ensures
            r is None <==> forall|j: int| 0 <= j < old(self)@.len() ==> #[trigger] old(self)@[j] is Some,
            r is None ==> final(self)@ == old(self)@,
            r matches Some(i) ==> first_free(old(self)@, i as int) && final(self)@ == old(self)@.update(
                i as int,
                Some(now),
            ),
    {
        let mut i: usize = 0;
        while i < self.slots.len()
            invariant
                self@ == old(self)@,
                i <= self@.len(),
                forall|j: int| 0 <= j < i ==> #[trigger] self@[j] is Some,
            decreases self@.len() - i,
        {
            if self.slots[i].is_none() {
                self.slots.set(i, Some(now));
                return Some(i);
            }
            i = i + 1;
        }
        None
    }

    /// Restamps the occupied slot `index` with `now`.
    pub fn refresh(&mut self, index: usize, now: TimeT)
        requires
            index < old(self)@.len(),
            old(self)@[index as int] is Some,
        ensures
            final(self)@ == old(self)@.update(index as int, Some(now)),
    {
        self.slots.set(index, Some(now));
    }

    /// Frees the least recently touched slot if it was touched before
    /// `deadline`, and returns it; otherwise returns `None` and changes
    /// nothing. Only that one slot is ever freed.
    pub fn expire_if_older_than(&mut self, deadline: TimeT) -> (r: Option<usize>)
        ensures
            r is None <==> none_older_than(old(self)@, deadline),
            r is None ==> final(self)@ == old(self)@,
            r matches Some(i) ==> oldest(old(self)@, i as int) && old(self)@[i as int]->0 < deadline
                && final(self)@ == old(self)@.update(i as int, None),
    {
        let mut best: Option<usize> = None;
        let mut i: usize = 0;
        while i < self.slots.len()
            invariant
                i <= self@.len(),
                best matches Some(b) ==> b < i && oldest(self@.subrange(0, i as int), b as int),
                best is None ==> forall|j: int| 0 <= j < i ==> #[trigger] self@[j] is None,
            decreases self@.len() - i,
        {
            let cur = self.slots[i];
            match cur {
                None => {},
                Some(t) => {
                    match best {
                        None => {
                            best = Some(i);
                        },
                        Some(b) => {
                            let bt = self.slots[b].unwrap();
                            if t < bt {
                                best = Some(i);
                            }
                        },
                    }
                },
            }
            proof {
                let s = self@.subrange(0, i + 1);
                match best {
                    Some(b) => {
                        let bi = b as int;
                        assert forall|j: int| 0 <= j < s.len() && #[trigger] s[j] is Some implies s[bi]->0
                            <= s[j]->0 && (j < bi ==> s[bi]->0 < s[j]->0) by {
                            if j < i {
                                assert(self@.subrange(0, i as int)[j] == s[j]);
                            }
                        }
                    },
                    None => {},
                }
            }
            i = i + 1;
        }
        assert(self@.subrange(0, i as int) =~= self@);
        match best {
            None => None,
            Some(b) => {
                let bt = self.slots[b].unwrap();
                if bt < deadline {
                    self.slots.set(b, None);
                    Some(b)
                } else {
                    None
                }
            },
        }
    }
}

} // verus!
