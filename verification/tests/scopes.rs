use qk_core::runtime::{claim_rt, drop_rt, with_rt_mut, Runtime, RuntimeId, Runtimes};
use qk_core::scope::{drop_scope, CapacityHint, Scope};
use qk_core::slot_table::{NodeRef, SlotTable};
use qk_core::state::State;
use std::cell::Cell;
use std::rc::Rc;

struct Counted(Rc<Cell<u32>>);

impl Drop for Counted {
    fn drop(&mut self) {
        self.0.set(self.0.get() + 1);
    }
}

#[test]
fn scenario_state_roundtrip() {
    let mut rts: Runtimes<i32> = SlotTable::new();
    let id = claim_rt(&mut rts);
    {
        let rt = with_rt_mut(&mut rts, id);
        let mut s0 = Scope::new(id);
        let h = s0.state(rt, 42i32);
        assert_eq!(h.with(rt, |v| *v), 42);
        assert_eq!(h.get(rt), 42);
        h.set(rt, 43);
        assert_eq!(h.get(rt), 43);
        let doubled = h.with_mut(rt, |v| (v * 2, v));
        assert_eq!(doubled, 43);
        assert_eq!(h.get(rt), 86);
        let mut alloc_est = CapacityHint::new();
        let mut owned_est = CapacityHint::new();
        let raw = h.raw;
        drop_scope(s0, rt, &mut alloc_est, &mut owned_est);
        assert!(!rt.states.contains(raw));
    }
    drop_rt(&mut rts, id);
}

#[test]
fn destructor_runs_exactly_once_at_scope_drop() {
    let count = Rc::new(Cell::new(0));
    let mut rts: Runtimes<Counted> = SlotTable::new();
    let id = claim_rt(&mut rts);
    let rt = with_rt_mut(&mut rts, id);
    let mut s0 = Scope::new(id);
    let _h = s0.state(rt, Counted(count.clone()));
    assert_eq!(count.get(), 0);
    let mut alloc_est = CapacityHint::new();
    let mut owned_est = CapacityHint::new();
    drop_scope(s0, rt, &mut alloc_est, &mut owned_est);
    assert_eq!(count.get(), 1);
    assert_eq!(owned_est.read(), 1);
}

#[test]
fn runtime_drop_drops_live_values() {
    let count = Rc::new(Cell::new(0));
    let mut rts: Runtimes<Counted> = SlotTable::new();
    let id = claim_rt(&mut rts);
    {
        let rt = with_rt_mut(&mut rts, id);
        let mut s0 = Scope::new(id);
        let _h = s0.state(rt, Counted(count.clone()));
        assert_eq!(count.get(), 0);
        // the scope is discarded without its drop protocol: the value
        // stays live until the whole runtime goes
    }
    drop_rt(&mut rts, id);
    assert_eq!(count.get(), 1);
}

#[test]
fn dropping_parent_drops_descendants() {
    let count = Rc::new(Cell::new(0));
    let mut rts: Runtimes<Counted> = SlotTable::new();
    let id = claim_rt(&mut rts);
    let rt = with_rt_mut(&mut rts, id);
    let mut alloc_est = CapacityHint::new();
    let mut owned_est = CapacityHint::new();

    let mut root = Scope::new(id);
    let root_h = root.state(rt, Counted(count.clone()));
    let mut child = root.begin_child(&alloc_est, &owned_est);
    let child_h = child.state(rt, Counted(count.clone()));
    let mut grandchild = child.begin_child(&alloc_est, &owned_est);
    let grand_h = grandchild.state(rt, Counted(count.clone()));
    child.attach_child(rt, grandchild, &mut alloc_est, &mut owned_est);
    root.attach_child(rt, child, &mut alloc_est, &mut owned_est);

    assert_eq!(count.get(), 0);
    assert!(rt.states.contains(root_h.raw));
    assert!(rt.states.contains(child_h.raw));
    assert!(rt.states.contains(grand_h.raw));

    drop_scope(root, rt, &mut alloc_est, &mut owned_est);
    assert_eq!(count.get(), 3);
    assert!(!rt.states.contains(root_h.raw));
    assert!(!rt.states.contains(child_h.raw));
    assert!(!rt.states.contains(grand_h.raw));
}

#[test]
fn state_with_captures_own_handle() {
    let mut rts: Runtimes<(NodeRef, i32)> = SlotTable::new();
    let id = claim_rt(&mut rts);
    let rt = with_rt_mut(&mut rts, id);
    let mut s0 = Scope::new(id);
    let h = s0.state_with(rt, |me: State<(NodeRef, i32)>| (me.raw, 9));
    let stored = h.with(rt, |v| v.0);
    assert_eq!(stored, h.raw);
    assert_eq!(h.with(rt, |v| v.1), 9);
}

#[test]
fn capacity_hint_converges_and_presized_scope_never_grows() {
    let mut rts: Runtimes<u64> = SlotTable::new();
    let id = claim_rt(&mut rts);
    let rt = with_rt_mut(&mut rts, id);
    let mut alloc_est = CapacityHint::new();
    let mut owned_est = CapacityHint::new();

    // first pass: nothing recorded yet, the scope starts empty and grows
    let mut s1 = Scope::new_with_hints(id, &alloc_est, &owned_est);
    assert_eq!(s1.arena.capacity, 0);
    s1.state(rt, 1u64);
    s1.state(rt, 2u64);
    assert_eq!(s1.arena.allocated, 16);
    assert!(s1.arena.growths > 0);
    drop_scope(s1, rt, &mut alloc_est, &mut owned_est);
    assert_eq!(alloc_est.read(), 16);
    assert_eq!(owned_est.read(), 2);

    // second pass with identical usage: pre-sized, no growth events
    let mut s2 = Scope::new_with_hints(id, &alloc_est, &owned_est);
    assert_eq!(s2.arena.capacity, 16);
    s2.state(rt, 3u64);
    s2.state(rt, 4u64);
    assert_eq!(s2.arena.allocated, 16);
    assert_eq!(s2.arena.growths, 0);
    drop_scope(s2, rt, &mut alloc_est, &mut owned_est);
    assert_eq!(alloc_est.read(), 16);
    assert_eq!(owned_est.read(), 2);
}

#[test]
fn attach_reports_child_usage() {
    let mut rts: Runtimes<u64> = SlotTable::new();
    let id = claim_rt(&mut rts);
    let rt = with_rt_mut(&mut rts, id);
    let mut alloc_est = CapacityHint::new();
    let mut owned_est = CapacityHint::new();
    let mut root = Scope::new(id);
    let mut child = root.begin_child(&alloc_est, &owned_est);
    child.state(rt, 1u64);
    root.attach_child(rt, child, &mut alloc_est, &mut owned_est);
    assert_eq!(alloc_est.read(), 8);
    assert_eq!(owned_est.read(), 1);
}

#[test]
fn child_builds_attaches_and_reports() {
    let id = RuntimeId {
        key: NodeRef { index: 9, generation: 0 },
    };
    let rt = Runtime {
        id,
        states: SlotTable::new(),
    };
    let mut root = Scope::new(id);
    let mut alloc_est = CapacityHint::new();
    let mut owned_est = CapacityHint::new();
    let (rt, handle) = root.child(rt, &mut alloc_est, &mut owned_est, |mut c, mut rt| {
        let h = c.state(&mut rt, 11u64);
        (c, rt, h)
    });
    assert_eq!(handle.get(&rt), 11);
    assert_eq!(root.children.len(), 1);
    assert_eq!(alloc_est.read(), 8);
    assert_eq!(owned_est.read(), 1);
    assert_eq!(root.children[0].parent, Some(id));
}
