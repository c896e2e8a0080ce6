//! Fixed-capacity slot table keyed by small integer ids, with a free list.

use vstd::prelude::*;

use crate::error::{ArenaError, SlotId};

verus! {

/// A slot table of capacity `N`: values live in addressable slots, and a
/// LIFO free list recycles the ids of emptied slots.
pub struct Arena<T, const N: usize> {
    free: Vec<SlotId>,
    slots: Vec<Option<T>>,
}

impl<T, const N: usize> Arena<T, N> {
    /// The slots, live values under `Some`.
    pub closed spec fn spec_slots(&self) -> Seq<Option<T>> {
        self.slots@
    }

    /// The ids of the empty slots, next to be handed out last.
    pub closed spec fn spec_free(&self) -> Seq<SlotId> {
        self.free@
    }

    /// Capacity fits the id type, ids in the free list are distinct and in
    /// range, and a slot is empty exactly when its id is free.
    pub open spec fn wf(&self) -> bool {
        &&& N <= 256
        &&& self.spec_slots().len() == N
        &&& forall|i: int|
            0 <= i < self.spec_free().len() ==> (#[trigger] self.spec_free()[i]) < N
        &&& forall|i: int, j: int|
            0 <= i < j < self.spec_free().len() ==> self.spec_free()[i] != self.spec_free()[j]
        &&& forall|id: int|
            0 <= id < N ==> ((#[trigger] self.spec_slots()[id]) is None <==> self.spec_free()
                .contains(id as SlotId))
    }

    /// Creates an arena of `N` empty slots.
    pub fn new() -> (r: Self)
        requires
            N <= 256,
        ensures
            r.wf(),
            r.spec_free().len() == N,
            forall|id: int| 0 <= id < N ==> (#[trigger] r.spec_slots()[id]) is None,
    {
        let mut slots: Vec<Option<T>> = Vec::new();
        let mut free: Vec<SlotId> = Vec::new();
        let mut i: usize = 0;
        while i < N
            invariant
                i <= N,
                N <= 256,
                slots@.len() == i,
                free@.len() == i,
                forall|k: int| 0 <= k < i ==> (#[trigger] slots@[k]) is None,
                forall|k: int| 0 <= k < i ==> (#[trigger] free@[k]) == k as SlotId,
            decreases N - i,
        {
            slots.push(Option::None);
            free.push(i as SlotId);
            i = i + 1;
        }
        let r = Arena { free, slots };
        proof {
            assert forall|id: int| 0 <= id < N implies (#[trigger] r.spec_slots()[id]) is None
                <==> r.spec_free().contains(id as SlotId) by {
                assert(r.spec_free()[id] == id as SlotId);
            }
        }
        r
    }

    /// Takes one id off the free list and stores `val` there; `None` when
    /// the arena is full.
    pub fn allocate(&mut self, val: T) -> (r: Option<SlotId>)
        requires
            old(self).wf(),
        ensures
            final(self).wf(),
            if old(self).spec_free().len() == 0 {
                &&& r is None
                &&& final(self).spec_slots() == old(self).spec_slots()
                &&& final(self).spec_free() == old(self).spec_free()
            } else {
                &&& r matches Some(id)
                &&& id == old(self).spec_free().last()
                &&& old(self).spec_slots()[id as int] is None
                &&& final(self).spec_slots() == old(self).spec_slots().update(
                    id as int,
                    Some(val),
                )
                &&& final(self).spec_free() == old(self).spec_free().drop_last()
            },
    {
        let id = match self.free.pop() {
            Some(id) => id,
            None => {
                return Option::None;
            },
        };
        proof {
            assert(old(self).spec_free().contains(id)) by {
                assert(old(self).spec_free()[old(self).spec_free().len() - 1] == id);
            }
        }
        vstd::pervasive::VecAdditionalExecFns::set(&mut self.slots, id as usize, Option::Some(val));
        proof {
            let oldf = old(self).spec_free();
            assert forall|sid: int| 0 <= sid < N implies (#[trigger] self.spec_slots()[sid])
                is None <==> self.spec_free().contains(sid as SlotId) by {
                if sid == id as int {
                    if self.spec_free().contains(sid as SlotId) {
                        let k = choose|k: int|
                            0 <= k < self.spec_free().len() && self.spec_free()[k]
                                == sid as SlotId;
                        assert(oldf[k] == oldf.last());
                    }
                } else {
                    if oldf.contains(sid as SlotId) {
                        let k = choose|k: int|
                            0 <= k < oldf.len() && oldf[k] == sid as SlotId;
                        assert(k < oldf.len() - 1);
                        assert(self.spec_free()[k] == sid as SlotId);
                    }
                    if self.spec_free().contains(sid as SlotId) {
                        let k = choose|k: int|
                            0 <= k < self.spec_free().len() && self.spec_free()[k]
                                == sid as SlotId;
                        assert(oldf[k] == sid as SlotId);
                    }
                }
            }
        }
        Option::Some(id)
    }

    /// Frees the slot and returns its value, making the id reusable;
    /// `InvalidIndexError` when the slot is already empty.
    pub fn remove(&mut self, id: SlotId) -> (r: Result<T, ArenaError>)
        requires
            old(self).wf(),
            (id as int) < N,
        ensures
            final(self).wf(),
            if old(self).spec_slots()[id as int] is Some {
                &&& r matches Ok(rv) && Option::Some(rv) == old(self).spec_slots()[id as int]
                &&& final(self).spec_slots() == old(self).spec_slots().update(
                    id as int,
                    Option::None,
                )
                &&& final(self).spec_free() == old(self).spec_free().push(id)
            } else {
                &&& r matches Err(e) && e == ArenaError::InvalidIndexError(id)
                &&& final(self).spec_slots() == old(self).spec_slots()
                &&& final(self).spec_free() == old(self).spec_free()
            },
    {
        let mut tmp: Option<T> = Option::None;
        vstd::pervasive::VecAdditionalExecFns::set_and_swap(&mut self.slots, id as usize, &mut tmp);
        match tmp {
            Option::Some(v) => {
                proof {
                    if old(self).spec_free().contains(id) {
                        assert(old(self).spec_slots()[id as int] is None);
                    }
                }
                self.free.push(id);
                proof {
                    let oldf = old(self).spec_free();
                    assert forall|sid: int|
                        0 <= sid < N implies (#[trigger] self.spec_slots()[sid]) is None
                        <==> self.spec_free().contains(sid as SlotId) by {
                        if sid == id as int {
                            assert(self.spec_free()[self.spec_free().len() - 1] == id);
                        } else {
                            if oldf.contains(sid as SlotId) {
                                let k = choose|k: int|
                                    0 <= k < oldf.len() && oldf[k] == sid as SlotId;
                                assert(self.spec_free()[k] == sid as SlotId);
                            }
                            if self.spec_free().contains(sid as SlotId) {
                                let k = choose|k: int|
                                    0 <= k < self.spec_free().len() && self.spec_free()[k]
                                        == sid as SlotId;
                                assert(k < oldf.len());
                                assert(oldf[k] == sid as SlotId);
                            }
                        }
                    }
                }
                Ok(v)
            },
            Option::None => {
                proof {
                    assert(self.spec_slots() =~= old(self).spec_slots());
                }
                Err(ArenaError::InvalidIndexError(id))
            },
        }
    }

    /// Borrows the value in a live slot; `SlotEmptyError` when the slot is
    /// empty.
    pub fn get(&self, id: SlotId) -> (r: Result<&T, ArenaError>)
        requires
            self.wf(),
            (id as int) < N,
        ensures
            if self.spec_slots()[id as int] is Some {
                r matches Ok(rv) && Option::Some(*rv) == self.spec_slots()[id as int]
            } else {
                r matches Err(e) && e == ArenaError::SlotEmptyError(id)
            },
    {
        match &self.slots[id as usize] {
            Option::Some(v) => Ok(v),
            Option::None => Err(ArenaError::SlotEmptyError(id)),
        }
    }
}

} // verus!
