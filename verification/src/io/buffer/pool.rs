//! What buffer pools have in common.

use crate::io::buffer::buddy::{self, BuddyPool, ALIGNMENT, ARENA_SIZE};
use crate::io::buffer::blocks::NUM_ORDERS;
use crate::io::buffer::fixed_buf::{FixedBuf, NO_REGISTRATION_INDEX};
use crate::io::buffer::hybrid::{self, HybridPool, GLOBAL_ALLOC_CONTEXT};
use vstd::prelude::*;

verus! {

/// A pool that hands out buffers by length.
pub trait BufPool: Sized {
    spec fn ok(self) -> bool;

    /// Whether a buffer of this length can be asked for.
    spec fn may_ask(self, len: usize) -> bool;

    /// Whether `buf` is what the pool gives for a request of `len` bytes, and
    /// `after` what is left of the pool.
    spec fn gives(self, len: usize, buf: Option<FixedBuf>, after: Self) -> bool;

    /// A buffer in use up to `len`.
    fn alloc_len(&mut self, len: usize) -> (buf: Option<FixedBuf>)
        requires
            old(self).ok(),
            old(self).may_ask(len),
        ensures
            final(self).ok(),
            old(self).gives(len, buf, *final(self)),
            buf matches Some(b) ==> b.wf() && b.len == len,
    ;
}

impl BufPool for BuddyPool {
    open spec fn ok(self) -> bool {
        self.wf()
    }

    open spec fn may_ask(self, len: usize) -> bool {
        true
    }

    open spec fn gives(self, len: usize, buf: Option<FixedBuf>, after: Self) -> bool {
        match buf {
            Some(b) => {
                let order = b.context as int;
                let o = self@.first_fit(order);
                &&& buddy::fitting_order(len + ALIGNMENT, order)
                &&& o < NUM_ORDERS
                &&& b == (FixedBuf { len, ..buddy::buffer_at(self@.free[o][0], order) })
                &&& after@ == self@.allocate(order)
            },
            None => {
                &&& len + ALIGNMENT > ARENA_SIZE || exists|order: int| #[trigger]
                    buddy::fitting_order(len + ALIGNMENT, order) && self@.first_fit(order) == NUM_ORDERS
                &&& after@ == self@
            },
        }
    }

    fn alloc_len(&mut self, len: usize) -> (buf: Option<FixedBuf>) {
        BuddyPool::alloc_len(self, len)
    }
}

impl BufPool for HybridPool {
    open spec fn ok(self) -> bool {
        self.wf()
    }

    open spec fn may_ask(self, len: usize) -> bool {
        len <= hybrid::max_layout()
    }

    open spec fn gives(self, len: usize, buf: Option<FixedBuf>, after: Self) -> bool {
        match hybrid::slab_for(len as int) {
            Some(i) => if self@[i].len() > 0 {
                &&& buf == Some(hybrid::buffer_of(hybrid::block_at(i, self@[i][0]), len))
                &&& after@ == self@.update(i, self@[i].drop_first())
            } else {
                &&& buf.is_none()
                &&& after@ == self@
            },
            None => {
                &&& buf == Some(
                    (FixedBuf {
                        offset: 0,
                        cap: len,
                        len,
                        index: NO_REGISTRATION_INDEX,
                        context: GLOBAL_ALLOC_CONTEXT,
                    }),
                )
                &&& after@ == self@
            },
        }
    }

    fn alloc_len(&mut self, len: usize) -> (buf: Option<FixedBuf>) {
        self.allocate(len)
    }
}

} // verus!
