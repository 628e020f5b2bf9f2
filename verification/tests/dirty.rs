use qk_core::dirty::{DirtyTrackSet, RwTrack};

#[test]
fn rw_track() {
    let mut tracking = DirtyTrackSet::default();

    {
        let mut value = RwTrack::new(0, tracking.track(0));

        if *value.get(&mut tracking) == 0 {
            *value.get_mut(&mut tracking) = 1;
        }

        assert!(tracking.is_write(0));
    }

    tracking.reset_write();

    {
        let value1 = RwTrack::new(0, tracking.track(0));
        let mut value2 = RwTrack::new(0, tracking.track(1));

        if *value1.get(&mut tracking) == 0 {
            *value2.get_mut(&mut tracking) = 1;
        }

        assert!(!tracking.is_write(0));
        assert!(tracking.is_write(1));
    }
}

#[test]
fn read_sets_only_its_bit() {
    let mut set = DirtyTrackSet::new();
    let cursor = set.track(3);
    cursor.read(&mut set);
    for i in 0..64u8 {
        assert_eq!(set.is_read(i), i == 3);
        assert!(!set.is_write(i));
    }
    assert_eq!(set.get_read(), 1u64 << 3);
    assert_eq!(set.get_write(), 0);
}

#[test]
fn write_sets_only_its_bit() {
    let mut set = DirtyTrackSet::new();
    let cursor = set.track(5);
    cursor.write(&mut set);
    for i in 0..64u8 {
        assert_eq!(set.is_write(i), i == 5);
        assert!(!set.is_read(i));
    }
    assert_eq!(set.get_write(), 1u64 << 5);
}

#[test]
fn bits_are_additive_until_reset() {
    let mut set = DirtyTrackSet::new();
    let a = set.track(0);
    let b = set.track(7);
    a.read(&mut set);
    a.read(&mut set);
    b.read(&mut set);
    a.write(&mut set);
    assert_eq!(set.get_read(), (1u64 << 0) | (1u64 << 7));
    assert_eq!(set.get_write(), 1u64 << 0);
    set.reset_read();
    assert_eq!(set.get_read(), 0);
    assert_eq!(set.get_write(), 1u64 << 0);
    set.reset_write();
    assert_eq!(set.get_write(), 0);
}

#[test]
fn guard_hands_value_through() {
    let mut set = DirtyTrackSet::new();
    let mut guard = RwTrack::new(10i32, set.track(2));
    assert_eq!(*guard.get(&mut set), 10);
    *guard.get_mut(&mut set) += 5;
    assert_eq!(guard.into_inner(), 15);
    assert!(set.is_read(2));
    assert!(set.is_write(2));
}
