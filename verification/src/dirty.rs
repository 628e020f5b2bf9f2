//! Dirty tracking: per-index read/write bits recorded through guard
//! values, queried by a renderer to learn which tracked items were
//! touched during a render pass.
//!
//! Bits are purely additive within a pass: once set, a bit stays set,
//! however often the same index is touched, until the whole register is
//! explicitly reset.

use vstd::prelude::*;

verus! {

/// Two fixed-width bit registers: a read set and a write set over up to
/// 64 tracked indices.
pub struct DirtyTrackSet {
    pub read: u64,
    pub write: u64,
}

impl Default for DirtyTrackSet {
    /// Both registers start clear.
    fn default() -> (r: Self)
        ensures
            r.read == 0,
            r.write == 0,
    {
        DirtyTrackSet { read: 0, write: 0 }
    }
}

impl DirtyTrackSet {
    /// Bit `num` of the read register.
    pub open spec fn read_bit(self, num: u8) -> bool {
        (self.read >> num) & 1 == 1
    }

    /// Bit `num` of the write register.
    pub open spec fn write_bit(self, num: u8) -> bool {
        (self.write >> num) & 1 == 1
    }

    pub fn new() -> (r: Self)
        ensures
            r.read == 0,
            r.write == 0,
            forall|j: u8| j < 64 ==> !r.read_bit(j) && !r.write_bit(j),
    {
        proof {
            assert(forall|j: u8| (0u64 >> j) & 1 != 1) by (bit_vector);
        }
        DirtyTrackSet { read: 0, write: 0 }
    }

    /// Was index `num` read since the last read-reset?
    pub fn is_read(&self, num: u8) -> (r: bool)
        requires
            num < 64,
        ensures
            r == self.read_bit(num),
    {
        (self.read >> num) & 1 == 1
    }

    /// Was index `num` written since the last write-reset?
    pub fn is_write(&self, num: u8) -> (r: bool)
        requires
            num < 64,
        ensures
            r == self.write_bit(num),
    {
        (self.write >> num) & 1 == 1
    }

    /// A cursor for bit `num`; the caller guarantees the index is within
    /// the register width.
    pub fn track(&self, num: u8) -> (r: DirtyTrack)
        ensures
            r.num == num,
    {
        DirtyTrack { num }
    }

    /// The whole read register.
    pub fn get_read(&self) -> (r: u64)
        ensures
            r == self.read,
    {
        self.read
    }

    /// Clear every bit of the read register; the write register keeps
    /// its value.
    pub fn reset_read(&mut self)
        ensures
            final(self).read == 0,
            final(self).write == old(self).write,
            forall|j: u8| j < 64 ==> !final(self).read_bit(j),
            forall|j: u8| j < 64 ==> final(self).write_bit(j) == old(self).write_bit(j),
    {
        proof {
            assert(forall|j: u8| (0u64 >> j) & 1 != 1) by (bit_vector);
        }
        self.read = 0;
    }

    /// The whole write register.
    pub fn get_write(&self) -> (r: u64)
        ensures
            r == self.write,
    {
        self.write
    }

    /// Clear every bit of the write register; the read register keeps
    /// its value.
    pub fn reset_write(&mut self)
        ensures
            final(self).write == 0,
            final(self).read == old(self).read,
            forall|j: u8| j < 64 ==> !final(self).write_bit(j),
            forall|j: u8| j < 64 ==> final(self).read_bit(j) == old(self).read_bit(j),
    {
        proof {
            assert(forall|j: u8| (0u64 >> j) & 1 != 1) by (bit_vector);
        }
        self.write = 0;
    }
}

/// A lightweight cursor referencing one bit index of a dirty-track set.
pub struct DirtyTrack {
    pub num: u8,
}

impl DirtyTrack {
    /// Record a read of this index: bit `num` of the read register is
    /// set, and no other bit of either register changes.
    pub fn read(&self, set: &mut DirtyTrackSet)
        requires
            self.num < 64,
        ensures
            final(set).read == old(set).read | (1u64 << self.num),
            final(set).write == old(set).write,
            final(set).read_bit(self.num),
            forall|j: u8|
                j < 64 && j != self.num ==> final(set).read_bit(j) == old(set).read_bit(j),
    {
        set.read = set.read | (1u64 << self.num);
        proof {
            let r0 = old(set).read;
            let num = self.num;
            assert(((r0 | (1u64 << num)) >> num) & 1 == 1) by (bit_vector)
                requires
                    num < 64,
            ;
            assert(forall|j: u8|
                j < 64 && j != num ==> ((r0 | (1u64 << num)) >> j) & 1 == (r0 >> j) & 1)
                by (bit_vector)
                requires
                    num < 64,
            ;
        }
    }

    /// Record a write of this index: bit `num` of the write register is
    /// set, and no other bit of either register changes.
    pub fn write(&self, set: &mut DirtyTrackSet)
        requires
            self.num < 64,
        ensures
            final(set).write == old(set).write | (1u64 << self.num),
            final(set).read == old(set).read,
            final(set).write_bit(self.num),
            forall|j: u8|
                j < 64 && j != self.num ==> final(set).write_bit(j) == old(set).write_bit(j),
    {
        set.write = set.write | (1u64 << self.num);
        proof {
            let w0 = old(set).write;
            let num = self.num;
            assert(((w0 | (1u64 << num)) >> num) & 1 == 1) by (bit_vector)
                requires
                    num < 64,
            ;
            assert(forall|j: u8|
                j < 64 && j != num ==> ((w0 | (1u64 << num)) >> j) & 1 == (w0 >> j) & 1)
                by (bit_vector)
                requires
                    num < 64,
            ;
        }
    }
}

/// A guard coupling one tracked value with its cursor: dereferencing
/// through the guard records the access in the dirty-track set.
pub struct RwTrack<T> {
    pub data: T,
    pub tracking: DirtyTrack,
}

impl<T> RwTrack<T> {
    pub fn new(data: T, tracking: DirtyTrack) -> (r: Self)
        ensures
            r.data == data,
            r.tracking == tracking,
    {
        RwTrack { data, tracking }
    }

    /// Dereference for reading: sets this index's read bit and no other.
    pub fn get(&self, set: &mut DirtyTrackSet) -> (r: &T)
        requires
            self.tracking.num < 64,
        ensures
            *r == self.data,
            final(set).read == old(set).read | (1u64 << self.tracking.num),
            final(set).write == old(set).write,
            final(set).read_bit(self.tracking.num),
            forall|j: u8|
                j < 64 && j != self.tracking.num ==> final(set).read_bit(j) == old(set).read_bit(j),
    {
        self.tracking.read(set);
        &self.data
    }

    /// Dereference for writing: sets this index's write bit and no
    /// other, and hands the value out mutably.
    pub fn get_mut(&mut self, set: &mut DirtyTrackSet) -> (r: &mut T)
        requires
            old(self).tracking.num < 64,
        ensures
            *r == old(self).data,
            *final(r) == final(self).data,
            final(self).tracking == old(self).tracking,
            final(set).write == old(set).write | (1u64 << old(self).tracking.num),
            final(set).read == old(set).read,
            final(set).write_bit(old(self).tracking.num),
            forall|j: u8|
                j < 64 && j != old(self).tracking.num
                    ==> final(set).write_bit(j) == old(set).write_bit(j),
    {
        self.tracking.write(set);
        &mut self.data
    }

    /// Take the tracked value back out of the guard.
    pub fn into_inner(self) -> (r: T)
        ensures
            r == self.data,
    {
        self.data
    }
}

} // verus!
