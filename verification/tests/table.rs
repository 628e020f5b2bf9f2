use qk_core::slot_table::{NodeRef, SlotTable};

#[test]
fn insert_borrow_remove() {
    let mut t: SlotTable<i32> = SlotTable::new();
    let a = t.insert(10);
    let b = t.insert(20);
    assert_eq!(*t.borrow(a), 10);
    assert_eq!(*t.borrow(b), 20);
    let removed = t.remove(a);
    assert_eq!(removed, 10);
    assert!(!t.contains(a));
    assert!(t.contains(b));
    assert_eq!(*t.borrow(b), 20);
}

#[test]
fn borrow_mut_changes_only_that_entry() {
    let mut t: SlotTable<i32> = SlotTable::new();
    let a = t.insert(1);
    let b = t.insert(2);
    *t.borrow_mut(a) = 7;
    assert_eq!(*t.borrow(a), 7);
    assert_eq!(*t.borrow(b), 2);
}

#[test]
fn removed_handle_is_never_live_again() {
    let mut t: SlotTable<i32> = SlotTable::new();
    let a = t.insert(1);
    t.remove(a);
    let b = t.insert(2);
    // the slot is recycled, but under a new generation: the old handle
    // stays dead
    assert_eq!(a.index, b.index);
    assert_eq!(b.generation, a.generation + 1);
    assert_ne!(a, b);
    assert!(!t.contains(a));
    assert!(t.contains(b));
}

#[test]
fn insert_with_receives_own_handle() {
    let mut t: SlotTable<(NodeRef, i32)> = SlotTable::new();
    let h = t.insert_with(|me| (me, 7));
    let (stored, v) = *t.borrow(h);
    assert_eq!(stored, h);
    assert_eq!(v, 7);
}

#[test]
fn reserve_then_fill() {
    let mut t: SlotTable<i32> = SlotTable::new();
    let h = t.reserve();
    assert!(!t.contains(h));
    t.fill(h, 5);
    assert!(t.contains(h));
    assert_eq!(*t.borrow(h), 5);
}

#[test]
fn update_with_replaces_in_place() {
    let mut t: SlotTable<i32> = SlotTable::new();
    let h = t.insert(10);
    let previous = t.update_with(h, |v| (v + 1, v));
    assert_eq!(previous, 10);
    assert_eq!(*t.borrow(h), 11);
    assert!(t.contains(h));
}
