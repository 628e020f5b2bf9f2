//! Runtime instances and the keyed table that lets several of them
//! coexist and be torn down independently.
//!
//! A `Runtime` owns exactly one slot table.  Runtimes themselves live in a
//! `SlotTable<Runtime<V>>`, so runtime identities are recycled with the
//! same generational scheme as state handles: the id of a dropped runtime
//! is retired and never addresses a live runtime again.

use vstd::prelude::*;
use crate::slot_table::{NodeRef, SlotTable};

verus! {

/// The identity of one runtime instance; stable for its lifetime, reused
/// only through generation recycling after the runtime is dropped.
#[derive(Clone, Copy, PartialEq, Eq, Structural, Debug)]
pub struct RuntimeId {
    pub key: NodeRef,
}

/// One UI-tree instance: owns the slot table every scope of the tree
/// registers its state into, and knows its own id.
pub struct Runtime<V> {
    pub id: RuntimeId,
    pub states: SlotTable<V>,
}

impl<V> Runtime<V> {
    /// A fresh runtime with the given identity and an empty slot table.
    pub fn new(id: RuntimeId) -> (rt: Runtime<V>)
        ensures
            rt.id == id,
            rt.states@ == Map::<NodeRef, V>::empty(),
            rt.states.wf(),
            rt.states.retired() == Set::<NodeRef>::empty(),
    {
        Runtime { id, states: SlotTable::new() }
    }
}

/// The keyed table of coexisting runtimes.
pub type Runtimes<V> = SlotTable<Runtime<V>>;

/// Create a fresh runtime in the table, reusing the storage of a
/// previously dropped one if available, and hand out its id.  The new
/// runtime's slot table is empty and the new id addresses it.
pub fn claim_rt<V>(rts: &mut Runtimes<V>) -> (id: RuntimeId)
    requires
        old(rts).wf(),
    ensures
        final(rts).wf(),
        !old(rts)@.contains_key(id.key),
        !old(rts).retired().contains(id.key),
        final(rts)@.contains_key(id.key),
        final(rts)@[id.key].id == id,
        final(rts)@[id.key].states@ == Map::<NodeRef, V>::empty(),
        final(rts)@[id.key].states.wf(),
        final(rts)@[id.key].states.retired() == Set::<NodeRef>::empty(),
        final(rts)@ == old(rts)@.insert(id.key, final(rts)@[id.key]),
        final(rts).retired() == old(rts).retired(),
{
    let f = |key: NodeRef| -> (rt: Runtime<V>)
        ensures
            rt.id == (RuntimeId { key }),
            rt.states@ == Map::<NodeRef, V>::empty(),
            rt.states.wf(),
            rt.states.retired() == Set::<NodeRef>::empty(),
        {
            Runtime { id: RuntimeId { key }, states: SlotTable::new() }
        };
    let key = rts.insert_with(f);
    RuntimeId { key }
}

impl RuntimeId {
    /// Create a runtime and return its id; same as `claim_rt`.
    pub fn create<V>(rts: &mut Runtimes<V>) -> (id: RuntimeId)
        requires
            old(rts).wf(),
        ensures
            final(rts).wf(),
            !old(rts)@.contains_key(id.key),
            !old(rts).retired().contains(id.key),
            final(rts)@.contains_key(id.key),
            final(rts)@[id.key].id == id,
            final(rts)@[id.key].states@ == Map::<NodeRef, V>::empty(),
            final(rts)@[id.key].states.wf(),
            final(rts)@[id.key].states.retired() == Set::<NodeRef>::empty(),
            final(rts)@ == old(rts)@.insert(id.key, final(rts)@[id.key]),
            final(rts).retired() == old(rts).retired(),
    {
        claim_rt(rts)
    }
}

/// Drop a runtime: its slot table, and with it every live value it still
/// holds, is dropped; the id is retired.  Addressing a dropped runtime
/// afterwards is a fatal precondition violation.
pub fn drop_rt<V>(rts: &mut Runtimes<V>, runtime_id: RuntimeId)
    requires
        old(rts).wf(),
        old(rts)@.contains_key(runtime_id.key),
    ensures
        final(rts).wf(),
        final(rts)@ == old(rts)@.remove(runtime_id.key),
        final(rts).retired() == old(rts).retired().insert(runtime_id.key),
{
    let _dropped = rts.remove(runtime_id.key);
}

/// Run `f` with shared access to the runtime `runtime_id` addresses.
/// The id must address a live runtime: anything else is a fatal
/// precondition violation, never a recoverable condition.
pub fn with_rt<V, O, F: FnOnce(&Runtime<V>) -> O>(
    rts: &Runtimes<V>,
    runtime_id: RuntimeId,
    f: F,
) -> (r: O)
    requires
        rts@.contains_key(runtime_id.key),
        call_requires(f, (&rts@[runtime_id.key],)),
    ensures
        call_ensures(f, (&rts@[runtime_id.key],), r),
{
    f(rts.borrow(runtime_id.key))
}

/// Borrow the runtime `runtime_id` addresses mutably; only that runtime
/// changes.
pub fn with_rt_mut<V>(rts: &mut Runtimes<V>, runtime_id: RuntimeId) -> (rt: &mut Runtime<V>)
    requires
        old(rts).wf(),
        old(rts)@.contains_key(runtime_id.key),
    ensures
        *rt == old(rts)@[runtime_id.key],
        *final(rt) == final(rts)@[runtime_id.key],
        final(rts)@ =~= old(rts)@.insert(runtime_id.key, *final(rt)),
        final(rts).retired() =~= old(rts).retired(),
        final(rts).wf(),
{
    rts.borrow_mut(runtime_id.key)
}

} // verus!
