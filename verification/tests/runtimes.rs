use qk_core::runtime::{claim_rt, drop_rt, with_rt, with_rt_mut, RuntimeId, Runtimes};
use qk_core::slot_table::SlotTable;

#[test]
fn claim_and_drop_runtimes() {
    let mut rts: Runtimes<i32> = SlotTable::new();
    let a = claim_rt(&mut rts);
    let b = RuntimeId::create(&mut rts);
    assert_ne!(a, b);
    with_rt(&rts, a, |rt| assert_eq!(rt.id, a));
    drop_rt(&mut rts, a);
    assert!(!rts.contains(a.key));
    assert!(rts.contains(b.key));
}

#[test]
fn dropped_runtime_storage_is_recycled_under_new_identity() {
    let mut rts: Runtimes<i32> = SlotTable::new();
    let a = claim_rt(&mut rts);
    drop_rt(&mut rts, a);
    let c = claim_rt(&mut rts);
    // same storage slot, but a fresh generation: the dead id stays dead
    assert_eq!(a.key.index, c.key.index);
    assert_ne!(a, c);
    assert!(!rts.contains(a.key));
    with_rt(&rts, c, |rt| assert_eq!(rt.id, c));
}

#[test]
fn with_rt_mut_reaches_the_right_runtime() {
    let mut rts: Runtimes<i32> = SlotTable::new();
    let a = claim_rt(&mut rts);
    let b = claim_rt(&mut rts);
    {
        let rt = with_rt_mut(&mut rts, b);
        let h = rt.states.insert(3);
        assert_eq!(*rt.states.borrow(h), 3);
    }
    with_rt(&rts, a, |rt| assert_eq!(rt.id, a));
}
