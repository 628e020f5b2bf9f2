use qk_core::runtime::{claim_rt, with_rt_mut, Runtimes};
use std::cell::Cell;
use std::rc::Rc;
use qk_core::scope::{CapacityHint, drop_scope, Scope};
use qk_core::slot_table::SlotTable;

#[test]
fn lens_reads_and_writes_the_projected_field() {
    let mut rts: Runtimes<(i32, i32)> = SlotTable::new();
    let id = claim_rt(&mut rts);
    let rt = with_rt_mut(&mut rts, id);
    let mut s0 = Scope::new(id);
    let h = s0.state(rt, (1i32, 2i32));
    let lens = h.map(|t: &(i32, i32)| t.1, |t: (i32, i32), u: i32| (t.0, u), || ());
    assert_eq!(lens.get(rt), 2);
    let plus_one = lens.with(rt, |u| *u + 1);
    assert_eq!(plus_one, 3);
    lens.set(rt, 5);
    assert_eq!(h.get(rt), (1, 5));
    assert_eq!(lens.get(rt), 5);
}

#[test]
fn lens_update_hook_runs_on_mutation() {
    let mut rts: Runtimes<(i32, i32)> = SlotTable::new();
    let id = claim_rt(&mut rts);
    let rt = with_rt_mut(&mut rts, id);
    let mut s0 = Scope::new(id);
    let h = s0.state(rt, (1i32, 2i32));
    let notified = Rc::new(Cell::new(0u32));
    let seen = notified.clone();
    let lens = h.map(
        |t: &(i32, i32)| t.0,
        |t: (i32, i32), u: i32| (u, t.1),
        move || seen.set(seen.get() + 1),
    );
    assert_eq!(lens.get(rt), 1);
    assert_eq!(notified.get(), 0);
    lens.set(rt, 9);
    assert_eq!(notified.get(), 1);
    assert_eq!(h.get(rt), (9, 2));
    let mut alloc_est = CapacityHint::new();
    let mut owned_est = CapacityHint::new();
    drop_scope(s0, rt, &mut alloc_est, &mut owned_est);
}

#[test]
fn copied_handles_alias_one_entry() {
    let mut rts: Runtimes<i32> = SlotTable::new();
    let id = claim_rt(&mut rts);
    let rt = with_rt_mut(&mut rts, id);
    let mut s0 = Scope::new(id);
    let h = s0.state(rt, 5i32);
    let h2 = h;
    let h3 = h.clone();
    h2.set(rt, 6);
    assert_eq!(h.get(rt), 6);
    assert_eq!(h3.get(rt), 6);
}

#[test]
fn lens_with_mut_updates_through_projection() {
    let mut rts: Runtimes<(i32, i32)> = SlotTable::new();
    let id = claim_rt(&mut rts);
    let rt = with_rt_mut(&mut rts, id);
    let mut s0 = Scope::new(id);
    let h = s0.state(rt, (1i32, 2i32));
    let lens = h.map(|t: &(i32, i32)| t.1, |t: (i32, i32), u: i32| (t.0, u), || ());
    let seen = lens.with_mut(rt, |u: i32| (u * 2, u));
    assert_eq!(seen, 2);
    assert_eq!(h.get(rt), (1, 4));
    assert_eq!(lens.get(rt), 4);
}
