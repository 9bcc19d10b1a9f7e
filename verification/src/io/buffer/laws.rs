//! What holds of the buffers that the pools give out, whatever was asked before.

use crate::io::buffer::blocks;
use crate::io::buffer::buddy::{self, BuddyPool, BufferSize};
use crate::io::buffer::fixed_buf::FixedBuf;
use crate::io::buffer::hybrid::{self, DeallocError, HybridAllocator, HybridPool, RawAlloc};
use crate::io::buffer::pool::BufPool;
use vstd::prelude::*;

verus! {

/// The number of bytes in a block of each size.
pub open spec fn named_bytes(size: BufferSize) -> int {
    match size {
        BufferSize::Size8K => 8192,
        BufferSize::Size16K => 16384,
        BufferSize::Size32K => 32768,
        BufferSize::Size64K => 65536,
        BufferSize::Size128K => 131072,
        BufferSize::Size256K => 262144,
        BufferSize::Size512K => 524288,
        BufferSize::Size1M => 1048576,
        BufferSize::Size2M => 2097152,
        BufferSize::Size4M => 4194304,
        BufferSize::Size8M => 8388608,
        BufferSize::Size16M => 16777216,
        BufferSize::Size32M => 33554432,
    }
}

proof fn lemma_leaves_of(order: int)
    requires
        0 <= order < 13,
    ensures
        blocks::leaves(0) == 1,
        order > 0 ==> blocks::leaves(order) == 2 * blocks::leaves(order - 1),
{
    vstd::arithmetic::power2::lemma2_to64();
    if order > 0 {
        vstd::arithmetic::power2::lemma_pow2_unfold(order as nat);
    }
}

/// A block is as large as its size says, and of the thirteen sizes each is twice the one
/// before.
pub proof fn lemma_sizes(size: BufferSize)
    ensures
        buddy::block_bytes(size.rank()) == named_bytes(size),
        0 <= size.rank() < 13,
{
    vstd::arithmetic::power2::lemma2_to64();
}

/// Every request that fits into the arena has exactly one fitting size: one that holds
/// it, where the next smaller one does not.
pub proof fn lemma_fits_tightly(size: int, order: int)
    requires
        buddy::fitting_order(size, order),
    ensures
        0 <= order < 13,
        size <= buddy::block_bytes(order),
        order > 0 ==> size > buddy::block_bytes(order - 1),
        order > 0 ==> buddy::block_bytes(order) < 2 * size,
{
    lemma_leaves_of(order);
    assert(order > 0 ==> buddy::block_bytes(order - 1) < size);
}

/// There is a fitting size for every request that fits into the arena, and for no other.
pub proof fn lemma_fits_somewhere(size: int)
    ensures
        size <= 33554432 <==> exists|order: int| buddy::fitting_order(size, order),
{
    vstd::arithmetic::power2::lemma2_to64();
    assert(buddy::block_bytes(12) == 33554432);
    if size <= 33554432 {
        lemma_fits_from(size, 0);
    }
    if exists|order: int| buddy::fitting_order(size, order) {
        let order = choose|order: int| buddy::fitting_order(size, order);
        lemma_smaller_order(order, 12);
    }
}

proof fn lemma_smaller_order(a: int, b: int)
    requires
        0 <= a <= b < 13,
    ensures
        buddy::block_bytes(a) <= buddy::block_bytes(b),
    decreases b - a,
{
    if a < b {
        lemma_smaller_order(a, b - 1);
        lemma_leaves_of(b);
        vstd::arithmetic::power2::lemma_pow2_pos((b - 1) as nat);
    }
}

proof fn lemma_fits_from(size: int, order: int)
    requires
        0 <= order < 13,
        size <= 33554432,
        forall|o: int| 0 <= o < order ==> #[trigger] buddy::block_bytes(o) < size,
    ensures
        exists|order: int| buddy::fitting_order(size, order),
    decreases 13 - order,
{
    vstd::arithmetic::power2::lemma2_to64();
    assert(buddy::block_bytes(12) == 33554432);
    if size <= buddy::block_bytes(order) {
        assert(buddy::fitting_order(size, order));
    } else {
        lemma_fits_from(size, order + 1);
    }
}

/// A buffer is its block but for the page in front: it starts right behind that page, on
/// a page, and ends where the block ends.
pub proof fn lemma_buffer_fills_block(s: int, order: int)
    requires
        0 <= order < 13,
        0 <= s,
        8192 * s + buddy::block_bytes(order) <= 33554432,
    ensures
        ({
            let buf = buddy::buffer_at(s, order);
            &&& buf.offset == 8192 * s + 4096
            &&& buf.offset % 4096 == 0
            &&& buf.offset + buf.cap == 8192 * s + buddy::block_bytes(order)
            &&& buf.len == buf.cap
            &&& buf.index == 0
            &&& buf.context == order
        }),
{
    lemma_smaller_order(0, order);
    lemma_leaves_of(0);
}

/// A buffer from the buddy pool holds what was asked for, and is not more than twice as
/// large as what was asked for and the page in front, or is of the smallest size.
pub proof fn lemma_buddy_gives_enough(pool: BuddyPool, len: usize, buf: FixedBuf, after: BuddyPool)
    requires
        pool.wf(),
        pool.gives(len, Some(buf), after),
    ensures
        buf.len == len,
        buf.cap >= len,
        buf.cap + 4096 < 2 * (len + 4096) || buf.cap == 4096,
        buf.index == 0,
        buf.offset % 4096 == 0,
        buf.offset + buf.cap <= 33554432,
{
    let order = buf.context as int;
    let o = pool@.first_fit(order);
    let s = pool@.free[o][0];
    pool.lemma_arena();
    pool@.lemma_first_fit(order);
    lemma_fits_tightly(len + 4096, order);
    assert(pool@.free[o].contains(s));
    assert(pool@.is_free(s, o));
    assert(pool@.block_ok(s));
    lemma_smaller_order(order, o);
    assert(blocks::leaves(order) <= blocks::leaves(o));
    lemma_buffer_fills_block(s, order);
    lemma_leaves_of(0);
}

/// The slab for a request is the one with the smallest blocks that hold it; there is none
/// for more than the largest block.
pub proof fn lemma_slab_fits_tightly(size: int)
    ensures
        match hybrid::slab_for(size) {
            Some(i) => {
                &&& 0 <= i < 5
                &&& size <= hybrid::slab_config(i).block_size
                &&& i > 0 ==> size > hybrid::slab_config(i - 1).block_size
            },
            None => size > 65536,
        },
        hybrid::slab_for(size) is Some <==> size <= 65536,
{
}

/// The blocks of each slab are twice as large as those of the one before, from four
/// kilobytes on, and the slabs lie one behind the other.
pub proof fn lemma_slabs(i: int)
    requires
        0 <= i < 5,
    ensures
        hybrid::slab_config(0).block_size == 4096,
        i > 0 ==> hybrid::slab_config(i).block_size == 2 * hybrid::slab_config(i - 1).block_size,
        hybrid::slab_config(0).count == 1024,
        hybrid::slab_config(1).count == 512,
        hybrid::slab_config(2).count == 128,
        hybrid::slab_config(3).count == 64,
        hybrid::slab_config(4).count == 32,
        hybrid::slab_base(0) == 0,
        hybrid::slab_base(i + 1) == hybrid::slab_base(i) + hybrid::slab_config(i).block_size
            * hybrid::slab_config(i).count,
{
}

/// A block's context tells its slab and its place there.
pub proof fn lemma_context_tells(slab: int, index: int)
    requires
        0 <= slab,
        0 <= index < 65536,
    ensures
        hybrid::context_of(slab, index) / 65536 == slab,
        hybrid::context_of(slab, index) % 65536 == index,
{
}

/// A buffer of a block is that block, with as much of it in use as was asked for.
pub proof fn lemma_buffer_is_block(block: RawAlloc, len: usize)
    ensures
        ({
            let buf = hybrid::buffer_of(block, len);
            &&& buf.offset == block.offset
            &&& buf.cap == block.cap
            &&& buf.len == len
            &&& buf.index == block.global_index
            &&& buf.context == block.context
        }),
{
}

/// A buffer from the hybrid pool holds what was asked for. Up to the largest block it
/// comes from a slab and is registered; beyond, it is as large as was asked for and is
/// not.
pub proof fn lemma_hybrid_gives_enough(pool: HybridPool, len: usize, buf: FixedBuf, after: HybridPool)
    requires
        pool.wf(),
        pool.gives(len, Some(buf), after),
    ensures
        buf.len == len,
        buf.cap >= len,
        len <= 65536 ==> buf.index == 0 && buf.cap <= 65536 && (buf.cap == 4096 || buf.cap < 2 * len),
        len > 65536 ==> buf.index == 0xffff && buf.cap == len && buf.context == usize::MAX && after@ == pool@,
{
    lemma_slab_fits_tightly(len as int);
}

/// Who frees what: a block of a slab that is out, or memory of the system's allocator.
/// A block that is free already, one that there is not, and a slab that there is not are
/// each refused as such.
pub proof fn lemma_frees_what_is_out(free: Seq<Seq<int>>, cap: usize, slab: int, index: int)
    requires
        0 <= slab < 65535,
        0 <= index < 65536,
        hybrid::context_of(slab, index) < usize::MAX,
    ensures
        ({
            let outcome = hybrid::dealloc_outcome(free, cap, hybrid::context_of(slab, index) as usize);
            &&& slab >= 5 ==> outcome == Err::<(), DeallocError>(DeallocError::InvalidSlab { slab: slab as usize })
            &&& slab < 5 && index >= hybrid::slab_config(slab).count ==> (outcome matches Err(
                DeallocError::BitSet(out),
            ) && out.index == index && out.len == hybrid::slab_config(slab).count)
            &&& slab < 5 && index < hybrid::slab_config(slab).count && free[slab].contains(index) ==> outcome
                == Err::<(), DeallocError>(DeallocError::DoubleFree { slab: slab as usize, index: index as usize })
            &&& slab < 5 && index < hybrid::slab_config(slab).count && !free[slab].contains(index) ==> outcome is Ok
        }),
        cap <= isize::MAX - 4095 ==> hybrid::dealloc_outcome(free, cap, usize::MAX) is Ok,
        cap > isize::MAX - 4095 ==> hybrid::dealloc_outcome(free, cap, usize::MAX) == Err::<(), DeallocError>(
            DeallocError::Layout { cap },
        ),
{
    let context = hybrid::context_of(slab, index);
    lemma_context_tells(slab, index);
    assert(context as usize as int == context);
}

/// A new hybrid pool has all blocks of all slabs, the lowest to be given out first.
pub proof fn lemma_all_blocks_free(i: int, j: int)
    requires
        0 <= i < 5,
        0 <= j < hybrid::slab_config(i).count,
    ensures
        HybridAllocator::all_free().len() == 5,
        HybridAllocator::all_free()[i].len() == hybrid::slab_config(i).count,
        HybridAllocator::all_free()[i][j] == j,
{
}

} // verus!
