//! The task state segment: the stacks the processor switches to when it
//! enters ring 0 and the interrupt stack table.
use vstd::prelude::*;

verus! {

/// Size in bytes of the packed task state segment.
pub const TSS_SIZE: usize = 104;

/// The 64-bit task state segment.
#[derive(Clone, Copy)]
pub struct TaskStateSegment {
    pub rsp0: u64,
    pub rsp1: u64,
    pub rsp2: u64,
    pub ist1: u64,
    pub ist2: u64,
    pub ist3: u64,
    pub ist4: u64,
    pub ist5: u64,
    pub ist6: u64,
    pub ist7: u64,
    /// Offset of the I/O permission bitmap: the segment's size, so none.
    pub iomap_base: u16,
}

/// The interrupt stack table entry `index` (1 to 7) of `t`.
pub open spec fn ist(t: TaskStateSegment, index: int) -> u64 {
    if index == 1 {
        t.ist1
    } else if index == 2 {
        t.ist2
    } else if index == 3 {
        t.ist3
    } else if index == 4 {
        t.ist4
    } else if index == 5 {
        t.ist5
    } else if index == 6 {
        t.ist6
    } else {
        t.ist7
    }
}

impl TaskStateSegment {
    /// A segment with every stack 0 and no I/O permission bitmap.
    pub fn new() -> (t: Self)
        ensures
            t.rsp0 == 0 && t.rsp1 == 0 && t.rsp2 == 0,
            forall|i: int| 1 <= i <= 7 ==> ist(t, i) == 0,
            t.iomap_base == TSS_SIZE,
    {
        TaskStateSegment {
            rsp0: 0,
            rsp1: 0,
            rsp2: 0,
            ist1: 0,
            ist2: 0,
            ist3: 0,
            ist4: 0,
            ist5: 0,
            ist6: 0,
            ist7: 0,
            iomap_base: 104,
        }
    }

    /// Sets the ring-0 stack.
    pub fn set_kernel_stack(&mut self, stack: u64)
        ensures
            *final(self) == (TaskStateSegment { rsp0: stack, ..*old(self) }),
    {
        self.rsp0 = stack;
    }

    /// Sets interrupt stack `index` (1 to 7); any other index changes
    /// nothing.
    pub fn set_ist(&mut self, index: usize, stack: u64)
        ensures
            1 <= index <= 7 ==> ist(*final(self), index as int) == stack,
            forall|i: int| 1 <= i <= 7 && i != index ==> ist(*final(self), i) == ist(*old(self), i),
            final(self).rsp0 == old(self).rsp0 && final(self).rsp1 == old(self).rsp1 && final(self).rsp2 == old(self).rsp2,
            final(self).iomap_base == old(self).iomap_base,
    {
        match index {
            1 => self.ist1 = stack,
            2 => self.ist2 = stack,
            3 => self.ist3 = stack,
            4 => self.ist4 = stack,
            5 => self.ist5 = stack,
            6 => self.ist6 = stack,
            7 => self.ist7 = stack,
            _ => {},
        }
    }

    /// The ring-0 stack.
    pub fn get_kernel_stack(&self) -> (s: u64)
        ensures
            s == self.rsp0,
    {
        self.rsp0
    }
}

/// The size of the segment, as its descriptor gives it.
pub fn get_tss_size() -> (n: usize)
    ensures
        n == TSS_SIZE,
{
    TSS_SIZE
}

/// The segment as the processor reads it: 104 little-endian bytes.
pub fn tss_bytes(t: &TaskStateSegment) -> (b: Vec<u8>)
    ensures
        b@.len() == TSS_SIZE,
        b@.subrange(4, 12) == crate::bytes::le64(t.rsp0),
        b@.subrange(36, 44) == crate::bytes::le64(t.ist1),
        b@.subrange(102, 104) == crate::bytes::le16(t.iomap_base),
{
    let mut b: Vec<u8> = Vec::new();
    crate::bytes::push32(&mut b, 0);
    crate::bytes::push64(&mut b, t.rsp0);
    crate::bytes::push64(&mut b, t.rsp1);
    crate::bytes::push64(&mut b, t.rsp2);
    crate::bytes::push64(&mut b, 0);
    crate::bytes::push64(&mut b, t.ist1);
    let ghost after_ist1 = b@;
    crate::bytes::push64(&mut b, t.ist2);
    crate::bytes::push64(&mut b, t.ist3);
    crate::bytes::push64(&mut b, t.ist4);
    crate::bytes::push64(&mut b, t.ist5);
    crate::bytes::push64(&mut b, t.ist6);
    crate::bytes::push64(&mut b, t.ist7);
    crate::bytes::push64(&mut b, 0);
    crate::bytes::push16(&mut b, 0);
    crate::bytes::push16(&mut b, t.iomap_base);
    assert(b@.subrange(4, 12) =~= crate::bytes::le64(t.rsp0));
    assert(b@.subrange(36, 44) =~= after_ist1.subrange(36, 44));
    assert(b@.subrange(102, 104) =~= crate::bytes::le16(t.iomap_base));
    b
}

} // verus!
