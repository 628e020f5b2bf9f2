//! A generational slab: stable handles to owned value cells.
//!
//! Each entry is addressed by a `NodeRef` carrying the slot index and the
//! generation the slot had when the entry was created.  Removing an entry
//! bumps the slot's generation, so the removed handle can never address a
//! live entry again: a slot is reused only through the free list, which
//! hands out the bumped generation.

use vstd::prelude::*;

verus! {

/// A stable, generational reference to one slot-table entry.
/// Invalid (retired) forever once the entry is removed.
#[derive(Clone, Copy, PartialEq, Eq, Structural, Debug)]
pub struct NodeRef {
    pub index: usize,
    pub generation: u64,
}

enum SlotState<V> {
    Vacant,
    Reserved,
    Occupied(V),
}

struct Slot<V> {
    generation: u64,
    st: SlotState<V>,
}

/// A table of typed value cells with O(1) insert, remove and borrow.
///
/// The view is the map from live handles to their values.  `retired()`
/// collects every handle whose entry was removed: a retired handle is
/// never live again, which makes removal (and hence the drop of the
/// stored value) a once-only event per handle.
pub struct SlotTable<V> {
    slots: Vec<Slot<V>>,
    free: Vec<usize>,
}

impl<V> View for SlotTable<V> {
    type V = Map<NodeRef, V>;

    closed spec fn view(&self) -> Map<NodeRef, V> {
        Map::new(
            |h: NodeRef| self.slot_live(h),
            |h: NodeRef| self.slots@[h.index as int].st->Occupied_0,
        )
    }
}

impl<V> SlotTable<V> {
    spec fn slot_live(&self, h: NodeRef) -> bool {
        &&& h.index < self.slots@.len()
        &&& self.slots@[h.index as int].generation == h.generation
        &&& self.slots@[h.index as int].st is Occupied
    }

    /// Handles whose entry was removed; such a handle never addresses a
    /// live entry again.
    pub closed spec fn retired(&self) -> Set<NodeRef> {
        Set::new(
            |h: NodeRef|
                h.index < self.slots@.len() && h.generation < self.slots@[h.index as int].generation,
        )
    }

    /// An entry reserved by `reserve` and not yet filled: its handle is
    /// already fixed but it holds no value yet.
    pub closed spec fn reserved(&self, h: NodeRef) -> bool {
        &&& h.index < self.slots@.len()
        &&& self.slots@[h.index as int].generation == h.generation
        &&& self.slots@[h.index as int].st is Reserved
    }

    pub closed spec fn wf(&self) -> bool {
        &&& forall|k: int|
            0 <= k < self.free@.len() ==> {
                &&& (#[trigger] self.free@[k]) < self.slots@.len()
                &&& self.slots@[self.free@[k] as int].st is Vacant
                &&& self.slots@[self.free@[k] as int].generation < u64::MAX
            }
        &&& forall|k1: int, k2: int|
            0 <= k1 < k2 < self.free@.len() ==> self.free@[k1] != self.free@[k2]
        &&& forall|i: int|
            0 <= i < self.slots@.len() && !((#[trigger] self.slots@[i].st) is Vacant)
                ==> self.slots@[i].generation < u64::MAX
    }

    pub fn new() -> (t: Self)
        ensures
            t.wf(),
            t@ == Map::<NodeRef, V>::empty(),
            t.retired() == Set::<NodeRef>::empty(),
            forall|h: NodeRef| !t.reserved(h),
    {
        let t = SlotTable { slots: Vec::new(), free: Vec::new() };
        proof {
            assert(t@ =~= Map::<NodeRef, V>::empty());
            assert(t.retired() =~= Set::<NodeRef>::empty());
        }
        t
    }

    /// Reserve an empty entry and hand out its handle; the entry is not
    /// live until `fill` stores a value under it.
    pub fn reserve(&mut self) -> (h: NodeRef)
        requires
            old(self).wf(),
        ensures
            final(self).wf(),
            final(self)@ == old(self)@,
            final(self).retired() == old(self).retired(),
            final(self).reserved(h),
            !old(self)@.contains_key(h),
            !old(self).retired().contains(h),
            !old(self).reserved(h),
            forall|h2: NodeRef| h2 != h && old(self).reserved(h2) ==> final(self).reserved(h2),
    {
        let popped = self.free.pop();
        let h = match popped {
            Some(i) => {
                let g = self.slots[i].generation;
                let slot = &mut self.slots[i];
                slot.st = SlotState::Reserved;
                NodeRef { index: i, generation: g }
            },
            None => {
                let i = self.slots.len();
                self.slots.push(Slot { generation: 0, st: SlotState::Reserved });
                NodeRef { index: i, generation: 0 }
            },
        };
        proof {
            assert(final(self)@ =~= old(self)@);
            assert(final(self).retired() =~= old(self).retired());
        }
        h
    }

    /// Store a value under a reserved handle, making the entry live.
    pub fn fill(&mut self, h: NodeRef, value: V)
        requires
            old(self).wf(),
            old(self).reserved(h),
        ensures
            final(self).wf(),
            final(self)@ == old(self)@.insert(h, value),
            final(self).retired() == old(self).retired(),
            !old(self)@.contains_key(h),
    {
        let slot = &mut self.slots[h.index];
        slot.st = SlotState::Occupied(value);
        proof {
            assert(final(self)@ =~= old(self)@.insert(h, value));
            assert(final(self).retired() =~= old(self).retired());
        }
    }

    /// Insert a value; the returned handle is fresh: neither live nor
    /// retired before the call.
    pub fn insert(&mut self, value: V) -> (h: NodeRef)
        requires
            old(self).wf(),
        ensures
            final(self).wf(),
            final(self)@ == old(self)@.insert(h, value),
            final(self).retired() == old(self).retired(),
            !old(self)@.contains_key(h),
            !old(self).retired().contains(h),
    {
        let h = self.reserve();
        self.fill(h, value);
        h
    }

    /// Insert a value built by a constructor that receives the entry's own
    /// forthcoming handle before the value exists (two-phase initialization:
    /// reserve, construct, fill).  The constructor may keep copies of the
    /// handle inside the value it builds.
    pub fn insert_with<F: FnOnce(NodeRef) -> V>(&mut self, f: F) -> (h: NodeRef)
        requires
            old(self).wf(),
            forall|r: NodeRef|
                !old(self)@.contains_key(r) && !old(self).retired().contains(r)
                    && !old(self).reserved(r) ==> call_requires(f, (r,)),
        ensures
            final(self).wf(),
            !old(self)@.contains_key(h),
            !old(self).retired().contains(h),
            final(self)@.contains_key(h),
            call_ensures(f, (h,), final(self)@[h]),
            final(self)@ == old(self)@.insert(h, final(self)@[h]),
            final(self).retired() == old(self).retired(),
    {
        let h = self.reserve();
        let value = f(h);
        self.fill(h, value);
        h
    }

    /// Replace the value of a live handle through a by-value update
    /// function; the handle stays live and keeps its identity.
    pub fn update_with<O, F: FnOnce(V) -> (V, O)>(&mut self, h: NodeRef, f: F) -> (r: O)
        requires
            old(self).wf(),
            old(self)@.contains_key(h),
            call_requires(f, (old(self)@[h],)),
        ensures
            final(self).wf(),
            final(self)@.contains_key(h),
            call_ensures(f, (old(self)@[h],), (final(self)@[h], r)),
            final(self)@ == old(self)@.insert(h, final(self)@[h]),
            final(self).retired() == old(self).retired(),
    {
        let mut taken = SlotState::Reserved;
        let slot = &mut self.slots[h.index];
        core::mem::swap(&mut slot.st, &mut taken);
        let value = match taken {
            SlotState::Occupied(v) => v,
            _ => {
                proof {
                    assert(false);
                }
                unreached()
            },
        };
        let (value, out) = f(value);
        let slot = &mut self.slots[h.index];
        slot.st = SlotState::Occupied(value);
        proof {
            assert(final(self)@ =~= old(self)@.insert(h, final(self)@[h]));
            assert(final(self).retired() =~= old(self).retired());
        }
        out
    }

    /// Law: a retired handle is never live.  Together with the contracts of
    /// `remove` (which requires a live handle and retires it) and of every
    /// other operation (which keeps retired handles retired), the entry
    /// behind a handle is removed -- and its value dropped -- at most once
    /// over the table's lifetime.
    pub proof fn lemma_retired_never_live(&self, h: NodeRef)
        requires
            self.retired().contains(h),
        ensures
            !self@.contains_key(h),
    {
    }

    /// Law: a reserved handle is not yet live, so a value under
    /// construction cannot be borrowed through its own handle.
    pub proof fn lemma_reserved_not_live(&self, h: NodeRef)
        requires
            self.reserved(h),
        ensures
            !self@.contains_key(h),
            !self.retired().contains(h),
    {
    }

    /// Remove the entry for a live handle, handing its value back (the
    /// caller drops it); the handle is retired and never live again.
    pub fn remove(&mut self, h: NodeRef) -> (value: V)
        requires
            old(self).wf(),
            old(self)@.contains_key(h),
        ensures
            final(self).wf(),
            value == old(self)@[h],
            final(self)@ == old(self)@.remove(h),
            final(self).retired() == old(self).retired().insert(h),
    {
        let slot = &mut self.slots[h.index];
        let mut taken = SlotState::Vacant;
        core::mem::swap(&mut slot.st, &mut taken);
        slot.generation = slot.generation + 1;
        let bumped = slot.generation;
        if bumped < u64::MAX {
            self.free.push(h.index);
        }
        proof {
            assert(final(self)@ =~= old(self)@.remove(h));
            assert(final(self).retired() =~= old(self).retired().insert(h));
        }
        match taken {
            SlotState::Occupied(v) => v,
            _ => {
                proof {
                    assert(false);
                }
                unreached()
            },
        }
    }

    /// Does `h` address a live entry?
    pub fn contains(&self, h: NodeRef) -> (r: bool)
        ensures
            r == self@.contains_key(h),
    {
        if h.index < self.slots.len() {
            let slot = &self.slots[h.index];
            match &slot.st {
                SlotState::Occupied(_) => slot.generation == h.generation,
                _ => false,
            }
        } else {
            false
        }
    }

    /// Borrow the value of a live handle.
    pub fn borrow(&self, h: NodeRef) -> (value: &V)
        requires
            self@.contains_key(h),
        ensures
            *value == self@[h],
    {
        match &self.slots[h.index].st {
            SlotState::Occupied(v) => v,
            _ => {
                proof {
                    assert(false);
                }
                unreached()
            },
        }
    }

    /// Borrow the value of a live handle mutably; only that entry changes.
    pub fn borrow_mut(&mut self, h: NodeRef) -> (value: &mut V)
        requires
            old(self).wf(),
            old(self)@.contains_key(h),
        ensures
            *value == old(self)@[h],
            *final(value) == final(self)@[h],
            final(self)@ =~= old(self)@.insert(h, *final(value)),
            final(self).retired() =~= old(self).retired(),
            final(self).wf(),
    {
        let slot = &mut self.slots[h.index];
        match &mut slot.st {
            SlotState::Occupied(v) => v,
            _ => {
                proof {
                    assert(false);
                }
                unreached()
            },
        }
    }
}

} // verus!
