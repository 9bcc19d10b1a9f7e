//! Buffers that a pool hands out.

use vstd::prelude::*;

verus! {

/// Index of a buffer that lies in no region known to the kernel.
pub const NO_REGISTRATION_INDEX: u16 = 0xffff;

/// A buffer of a pool: where its payload lies in the pool's memory, how much it
/// can hold, and how much of it is in use.
#[derive(Debug)]
pub struct FixedBuf {
    pub offset: usize,
    pub cap: usize,
    pub len: usize,
    pub index: u16,
    pub context: usize,
}

impl FixedBuf {
    pub open spec fn wf(self) -> bool {
        self.len <= self.cap
    }

    /// A buffer that is in use up to its capacity.
    pub fn new(offset: usize, cap: usize, index: u16, context: usize) -> (buf: Self)
        ensures
            buf == (FixedBuf { offset, cap, len: cap, index, context }),
            buf.wf(),
    {
        FixedBuf { offset, cap, len: cap, index, context }
    }

    pub fn capacity(&self) -> (cap: usize)
        ensures
            cap == self.cap,
    {
        self.cap
    }

    pub fn len(&self) -> (len: usize)
        ensures
            len == self.len,
    {
        self.len
    }

    pub fn buf_index(&self) -> (index: u16)
        ensures
            index == self.index,
    {
        self.index
    }

    pub fn set_len(&mut self, len: usize)
        requires
            len <= old(self).cap,
        ensures
            *final(self) == (FixedBuf { len, ..*old(self) }),
            final(self).wf(),
    {
        self.len = len;
    }
}

/// Outcome of a request for memory.
pub enum AllocResult {
    Allocated { offset: usize, cap: usize, global_index: u16, context: usize },
    Failed,
}

/// A stretch of memory that buffers are cut from.
#[derive(Debug, Clone, Copy, PartialEq, Eq, Structural)]
pub struct BufferRegion {
    pub offset: usize,
    pub len: usize,
}

} // verus!
