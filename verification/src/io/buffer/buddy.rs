//! A buffer pool over a buddy system.

use crate::io::buffer::blocks::{self, Arena, LEAVES, NUM_ORDERS};
use crate::io::buffer::fixed_buf::{AllocResult, BufferRegion, FixedBuf};
use crate::io::buffer::free_list::{self, FreeLists};
use vstd::prelude::*;

verus! {

/// Bytes in the arena.
pub const ARENA_SIZE: usize = 33554432;

/// Bytes in the smallest block: a page of payload behind a page that is set aside.
pub const MIN_BLOCK_SIZE: usize = 8192;

/// Bytes set aside in front of each payload, so that payloads are page aligned.
pub const ALIGNMENT: usize = 4096;

const TAG_ALLOCATED: u8 = 0x80;

const TAG_ORDER_MASK: u8 = 0x7f;

/// Block sizes, by powers of two.
#[derive(Debug, Clone, Copy, PartialEq, Eq, PartialOrd, Ord, Structural)]
pub enum BufferSize {
    Size8K,
    Size16K,
    Size32K,
    Size64K,
    Size128K,
    Size256K,
    Size512K,
    Size1M,
    Size2M,
    Size4M,
    Size8M,
    Size16M,
    Size32M,
}

/// Bytes in a block of the given order.
pub open spec fn block_bytes(order: int) -> int {
    MIN_BLOCK_SIZE * blocks::leaves(order)
}

proof fn lemma_block_bytes(order: usize)
    requires
        order < NUM_ORDERS,
    ensures
        (MIN_BLOCK_SIZE << order) == block_bytes(order as int),
        MIN_BLOCK_SIZE <= block_bytes(order as int) <= ARENA_SIZE,
        block_bytes(order + 1) == 2 * block_bytes(order as int),
        block_bytes(0) == MIN_BLOCK_SIZE,
        block_bytes(NUM_ORDERS - 1) == ARENA_SIZE,
{
    blocks::lemma_leaves(order as int);
    blocks::lemma_leaves(0);
    vstd::arithmetic::power2::lemma2_to64();
    vstd::bits::lemma_usize_shl_is_mul(MIN_BLOCK_SIZE, order);
}

proof fn lemma_block_bytes_monotonic(a: int, b: int)
    requires
        0 <= a <= b < NUM_ORDERS,
    ensures
        block_bytes(a) <= block_bytes(b),
    decreases b - a,
{
    if a < b {
        lemma_block_bytes_monotonic(a, b - 1);
        blocks::lemma_leaves(b - 1);
    }
}

impl BufferSize {
    /// Position of the size, smallest first.
    pub open spec fn rank(self) -> int {
        match self {
            BufferSize::Size8K => 0,
            BufferSize::Size16K => 1,
            BufferSize::Size32K => 2,
            BufferSize::Size64K => 3,
            BufferSize::Size128K => 4,
            BufferSize::Size256K => 5,
            BufferSize::Size512K => 6,
            BufferSize::Size1M => 7,
            BufferSize::Size2M => 8,
            BufferSize::Size4M => 9,
            BufferSize::Size8M => 10,
            BufferSize::Size16M => 11,
            BufferSize::Size32M => 12,
        }
    }

    /// Bytes in a block of this size.
    pub fn size(&self) -> (bytes: usize)
        ensures
            bytes == block_bytes(self.rank()),
            MIN_BLOCK_SIZE <= bytes <= ARENA_SIZE,
    {
        let order: usize = self.order();
        proof {
            lemma_block_bytes(order);
        }
        MIN_BLOCK_SIZE << order
    }

    pub fn order(&self) -> (order: usize)
        ensures
            order == self.rank(),
            order < NUM_ORDERS,
    {
        match self {
            BufferSize::Size8K => 0,
            BufferSize::Size16K => 1,
            BufferSize::Size32K => 2,
            BufferSize::Size64K => 3,
            BufferSize::Size128K => 4,
            BufferSize::Size256K => 5,
            BufferSize::Size512K => 6,
            BufferSize::Size1M => 7,
            BufferSize::Size2M => 8,
            BufferSize::Size4M => 9,
            BufferSize::Size8M => 10,
            BufferSize::Size16M => 11,
            BufferSize::Size32M => 12,
        }
    }

    /// The size at the given position, if there is one.
    pub fn from_order(order: usize) -> (size: Option<Self>)
        ensures
            size.is_some() <==> order < NUM_ORDERS,
            size matches Some(s) ==> s.rank() == order,
    {
        match order {
            0 => Some(BufferSize::Size8K),
            1 => Some(BufferSize::Size16K),
            2 => Some(BufferSize::Size32K),
            3 => Some(BufferSize::Size64K),
            4 => Some(BufferSize::Size128K),
            5 => Some(BufferSize::Size256K),
            6 => Some(BufferSize::Size512K),
            7 => Some(BufferSize::Size1M),
            8 => Some(BufferSize::Size2M),
            9 => Some(BufferSize::Size4M),
            10 => Some(BufferSize::Size8M),
            11 => Some(BufferSize::Size16M),
            12 => Some(BufferSize::Size32M),
            _ => None,
        }
    }

    /// The smallest size that holds `size` bytes, if one does.
    pub fn best_fit(size: usize) -> (fit: Option<Self>)
        ensures
            fit.is_some() <==> size <= ARENA_SIZE,
            fit matches Some(s) ==> size <= block_bytes(s.rank()) && forall|o: int|
                0 <= o < s.rank() ==> #[trigger] block_bytes(o) < size,
    {
        if size > ARENA_SIZE {
            return None;
        }
        proof {
            lemma_block_bytes(0);
        }
        if size <= MIN_BLOCK_SIZE {
            return Some(BufferSize::Size8K);
        }
        let mut s: usize = MIN_BLOCK_SIZE;
        let mut order: usize = 0;
        while s < size
            invariant
                order < NUM_ORDERS,
                s == block_bytes(order as int),
                size <= ARENA_SIZE,
                forall|o: int| 0 <= o < order ==> #[trigger] block_bytes(o) < size,
            decreases NUM_ORDERS - order,
        {
            proof {
                lemma_block_bytes(order);
                assert forall|o: int| 0 <= o < order + 1 implies #[trigger] block_bytes(o) < size by {}
                let next = (order + 1) as usize;
                if next < NUM_ORDERS {
                    lemma_block_bytes(next);
                }
                assert(s << 1usize == 2 * s) by (bit_vector)
                    requires
                        s <= 33554432usize,
                ;
            }
            s = s << 1usize;
            order += 1;
        }
        Self::from_order(order)
    }
}

/// The tag of a block: its order, and whether it is handed out.
spec fn tag_of(order: int, used: bool) -> int {
    if used {
        order + 128
    } else {
        order
    }
}

proof fn lemma_tag(order: u8)
    requires
        order < 13,
    ensures
        (order | TAG_ALLOCATED) == order + 128,
        order & TAG_ALLOCATED == 0,
        order & TAG_ORDER_MASK == order,
        forall|t: u8| #[trigger] (t & TAG_ALLOCATED) == 0 && t & TAG_ORDER_MASK == order ==> t == order,
{
    assert((order | 0x80u8) == order + 128 && order & 0x80u8 == 0 && order & 0x7fu8 == order) by (bit_vector)
        requires
            order < 13u8,
    ;
    assert forall|t: u8| #[trigger] (t & TAG_ALLOCATED) == 0 && t & TAG_ORDER_MASK == order implies t == order by {
        assert(t & 0x80u8 == 0 && t & 0x7fu8 == order ==> t == order) by (bit_vector);
    }
}

/// The offset of a block's buddy is its own with one bit flipped.
proof fn lemma_buddy_offset(offset: usize, order: usize)
    requires
        order < NUM_ORDERS - 1,
        offset < ARENA_SIZE,
        offset % MIN_BLOCK_SIZE == 0,
        (offset as int / MIN_BLOCK_SIZE as int) % blocks::leaves(order as int) == 0,
    ensures
        offset ^ (MIN_BLOCK_SIZE << order) == MIN_BLOCK_SIZE * blocks::buddy_of(
            offset as int / MIN_BLOCK_SIZE as int,
            order as int,
        ),
{
    let s = offset as int / MIN_BLOCK_SIZE as int;
    let shift = (order + 13) as usize;
    let m = 1usize << shift;
    lemma_block_bytes(order);
    blocks::lemma_leaves(order as int);
    vstd::arithmetic::power2::lemma2_to64();
    vstd::arithmetic::power2::lemma_pow2_adds(order as nat, 13);
    let d = blocks::leaves(order as int);
    assert(pow2_of(shift as nat) == MIN_BLOCK_SIZE * d) by (nonlinear_arith)
        requires
            pow2_of(shift as nat) == d * 8192,
            MIN_BLOCK_SIZE == 8192,
    ;
    vstd::bits::lemma_usize_shl_is_mul(1, shift);
    vstd::bits::lemma_usize_shr_is_div(offset, shift);
    assert(m == MIN_BLOCK_SIZE << order);
    assert(offset ^ m == (if (offset >> shift) & 1 == 0 { offset + m } else { offset - m })) by (bit_vector)
        requires
            m == 1usize << shift,
            13 <= shift < 25,
            offset < 33554432usize,
    ;
    let h = offset >> shift;
    assert(h & 1 == h % 2) by (bit_vector);
    assert(h == s / d) by {
        vstd::arithmetic::div_mod::lemma_div_denominator(offset as int, MIN_BLOCK_SIZE as int, d);
    }
    vstd::arithmetic::div_mod::lemma_fundamental_div_mod(offset as int, MIN_BLOCK_SIZE as int);
    assert(MIN_BLOCK_SIZE * (s + d) == MIN_BLOCK_SIZE * s + MIN_BLOCK_SIZE * d) by (nonlinear_arith);
    assert(MIN_BLOCK_SIZE * (s - d) == MIN_BLOCK_SIZE * s - MIN_BLOCK_SIZE * d) by (nonlinear_arith);
}

spec fn pow2_of(e: nat) -> int {
    vstd::arithmetic::power2::pow2(e) as int
}

/// The allocator behind the pool: free lists by order, and a tag for the first
/// leaf of every block.
pub struct BuddyAllocator {
    lists: FreeLists,
    tags: Vec<u8>,
    blocks: Ghost<Map<int, int>>,
    used: Ghost<Set<int>>,
}

impl BuddyAllocator {
    pub closed spec fn view(self) -> Arena {
        Arena { free: self.lists@, blocks: self.blocks@, used: self.used@ }
    }

    spec fn tag_ok(self, s: int) -> bool {
        self.tags@[s] == tag_of(self.blocks@[s], self.used@.contains(s))
    }

    /// All of the invariant but the tag of one block.
    spec fn wf_but(self, hole: int) -> bool {
        &&& self.lists.wf()
        &&& self.lists.bound() == LEAVES
        &&& self.tags@.len() == LEAVES
        &&& self@.partition()
        &&& self@.coalesced()
        &&& forall|s: int| #[trigger] self.blocks@.contains_key(s) && s != hole ==> self.tag_ok(s)
    }

    /// The blocks partition the arena, no two free ones could be merged, and each
    /// has its tag.
    pub closed spec fn wf(self) -> bool {
        self.wf_but(-1)
    }

    pub proof fn lemma_arena(self)
        requires
            self.wf(),
        ensures
            self@.partition(),
            self@.coalesced(),
    {
    }

    proof fn lemma_in_arena(self)
        requires
            self@.partition(),
        ensures
            forall|s: int| #[trigger] self.blocks@.contains_key(s) ==> 0 <= s < LEAVES,
    {
        assert forall|s: int| #[trigger] self.blocks@.contains_key(s) implies 0 <= s < LEAVES by {
            assert(self@.block_ok(s));
            blocks::lemma_leaves(self@.blocks[s]);
        }
    }

    proof fn lemma_not_listed(self, x: int)
        requires
            self@.partition(),
            !self.blocks@.contains_key(x) || self.used@.contains(x),
        ensures
            !free_list::listed(self.lists@, x),
    {
        if free_list::listed(self.lists@, x) {
            let o = choose|o: int| 0 <= o < self.lists@.len() && (#[trigger] self.lists@[o]).contains(x);
            assert(self@.free[o].contains(x));
            assert(self@.is_free(x, o));
        }
    }

    /// An arena that is one free block.
    pub fn new() -> (allocator: Self)
        ensures
            allocator.wf(),
            allocator@ == Arena::whole(),
    {
        let mut lists = FreeLists::new(NUM_ORDERS, LEAVES);
        let max_order: usize = NUM_ORDERS - 1;
        assert(!free_list::listed(lists@, 0));
        lists.push_front(max_order, 0);
        let leaf_count: usize = ARENA_SIZE / MIN_BLOCK_SIZE;
        let mut tags: Vec<u8> = Vec::new();
        let mut i: usize = 0;
        while i < leaf_count
            invariant
                leaf_count == LEAVES,
                i <= leaf_count,
                tags@.len() == i,
            decreases leaf_count - i,
        {
            tags.push(0);
            i += 1;
        }
        tags[0] = max_order as u8;
        let allocator = BuddyAllocator {
            lists,
            tags,
            blocks: Ghost(Arena::whole().blocks),
            used: Ghost(Set::empty()),
        };
        proof {
            Arena::lemma_whole();
            assert(allocator.lists@ =~= Arena::whole().free) by {
                assert(seq![0int] + Seq::<int>::empty() =~= seq![0int]);
            }
            assert(allocator@ =~= Arena::whole());
        }
        allocator
    }

    /// Cuts a block out of the smallest free block that can hold it.
    #[verifier::rlimit(40)]
    pub fn allocate(&mut self, size: BufferSize) -> (block: Option<(usize, BufferSize)>)
        requires
            old(self).wf(),
        ensures
            final(self).wf(),
            match block {
                Some((offset, actual)) => {
                    let o = old(self)@.first_fit(size.rank());
                    &&& o < NUM_ORDERS
                    &&& offset == MIN_BLOCK_SIZE * old(self)@.free[o][0]
                    &&& offset + block_bytes(size.rank()) <= ARENA_SIZE
                    &&& actual == size
                    &&& final(self)@ == old(self)@.allocate(size.rank())
                },
                None => {
                    &&& old(self)@.first_fit(size.rank()) == NUM_ORDERS
                    &&& final(self)@ == old(self)@
                },
            },
    {
        let needed_order: usize = size.order();
        let ghost before = self@;
        let mut order: usize = needed_order;
        while order < NUM_ORDERS
            invariant
                self.wf(),
                *self == *old(self),
                before == self@,
                needed_order == size.rank(),
                needed_order <= order <= NUM_ORDERS,
                before.first_fit(needed_order as int) == before.first_fit(order as int),
            decreases NUM_ORDERS - order,
        {
            let head: Option<usize> = self.lists.front(order);
            if head.is_some() {
                proof {
                    before.lemma_take(order as int);
                    before.lemma_allocate(needed_order as int);
                }
                let node: usize = self.lists.pop_front(order);
                let ghost s = node as int;
                let ghost target = before.allocate(needed_order as int);
                proof {
                    self.used = Ghost(self.used@.insert(s));
                    assert(before.block_ok(s));
                    blocks::lemma_leaves(order as int);
                }
                assert(self@ =~= before.take(order as int));
                let curr_offset: usize = node * MIN_BLOCK_SIZE;
                let mut curr_order: usize = order;
                while curr_order > needed_order
                    invariant
                        self.wf_but(s),
                        s == node,
                        0 <= s < LEAVES,
                        curr_offset == node * MIN_BLOCK_SIZE,
                        needed_order <= curr_order < NUM_ORDERS,
                        self.used@.contains(s),
                        self.blocks@[s] == curr_order,
                        self@.split(s, curr_order as int, needed_order as int) == target,
                    decreases curr_order,
                {
                    let ghost a = self@;
                    let ghost pre = *self;
                    curr_order -= 1;
                    proof {
                        self.lemma_in_arena();
                        a.lemma_halve(s, curr_order as int);
                        lemma_block_bytes(curr_order);
                        blocks::lemma_leaves(curr_order as int);
                    }
                    let block_size: usize = MIN_BLOCK_SIZE << curr_order;
                    let buddy_offset: usize = curr_offset + block_size;
                    let buddy_idx: usize = buddy_offset / MIN_BLOCK_SIZE;
                    let ghost r = s + blocks::leaves(curr_order as int);
                    assert(buddy_idx == r);
                    proof {
                        self.lemma_not_listed(r);
                    }
                    self.lists.push_front(curr_order, buddy_idx);
                    self.tags[buddy_idx] = curr_order as u8;
                    proof {
                        self.blocks = Ghost(self.blocks@.insert(r, curr_order as int).insert(s, curr_order as int));
                        assert(self@ =~= a.halve(s, curr_order as int));
                        assert(a.used.subset_of(a.blocks.dom()));
                        assert(!self.used@.contains(r));
                        assert forall|t: int| #[trigger] self.blocks@.contains_key(t) && t != s implies self.tag_ok(
                            t,
                        ) by {
                            if t != r {
                                assert(a.blocks.contains_key(t) && pre.tag_ok(t));
                            }
                        }
                    }
                }
                let idx: usize = curr_offset / MIN_BLOCK_SIZE;
                let ghost pre = *self;
                proof {
                    self.lemma_in_arena();
                    lemma_tag(needed_order as u8);
                    assert(self@.blocks.contains_key(s) && self@.block_ok(s));
                    assert(MIN_BLOCK_SIZE * s + block_bytes(needed_order as int) <= ARENA_SIZE);
                }
                self.tags[idx] = (needed_order as u8) | TAG_ALLOCATED;
                assert forall|t: int| #[trigger] self.blocks@.contains_key(t) && t != -1 implies self.tag_ok(t) by {
                    if t != s {
                        assert(pre.tag_ok(t));
                    }
                }
                return Some((curr_offset, size));
            }
            order += 1;
        }
        None
    }

    /// Takes a block back and merges it with its buddy as often as that is free.
    #[verifier::rlimit(40)]
    pub fn dealloc(&mut self, offset: usize, size: BufferSize)
        requires
            old(self).wf(),
            offset % MIN_BLOCK_SIZE == 0,
            old(self)@.used.contains(offset as int / MIN_BLOCK_SIZE as int),
            old(self)@.blocks[offset as int / MIN_BLOCK_SIZE as int] == size.rank(),
        ensures
            final(self).wf(),
            final(self)@ == old(self)@.merge(offset as int / MIN_BLOCK_SIZE as int, size.rank()),
    {
        let mut curr_offset: usize = offset;
        let mut curr_order: usize = size.order();
        let idx: usize = curr_offset / MIN_BLOCK_SIZE;
        let ghost target = self@.merge(idx as int, curr_order as int);
        proof {
            assert(self@.blocks.contains_key(idx as int) && self@.block_ok(idx as int));
            blocks::lemma_leaves(curr_order as int);
        }
        let ghost pre = *self;
        self.tags[idx] = curr_order as u8;
        proof {
            pre.lemma_in_arena();
            assert forall|t: int| #[trigger] self.blocks@.contains_key(t) && t != idx implies self.tag_ok(t) by {
                assert(pre.tag_ok(t));
            }
        }
        while curr_order < NUM_ORDERS - 1
            invariant
                self.wf_but(curr_offset as int / MIN_BLOCK_SIZE as int),
                curr_offset % MIN_BLOCK_SIZE == 0,
                curr_offset < ARENA_SIZE,
                curr_order < NUM_ORDERS,
                self.used@.contains(curr_offset as int / MIN_BLOCK_SIZE as int),
                self.blocks@[curr_offset as int / MIN_BLOCK_SIZE as int] == curr_order,
                self.tags@[curr_offset as int / MIN_BLOCK_SIZE as int] == curr_order,
                self@.merge(curr_offset as int / MIN_BLOCK_SIZE as int, curr_order as int) == target,
            ensures
                self.wf_but(curr_offset as int / MIN_BLOCK_SIZE as int),
                curr_offset % MIN_BLOCK_SIZE == 0,
                curr_offset < ARENA_SIZE,
                curr_order < NUM_ORDERS,
                self.used@.contains(curr_offset as int / MIN_BLOCK_SIZE as int),
                self.blocks@[curr_offset as int / MIN_BLOCK_SIZE as int] == curr_order,
                self.tags@[curr_offset as int / MIN_BLOCK_SIZE as int] == curr_order,
                self@.merge(curr_offset as int / MIN_BLOCK_SIZE as int, curr_order as int) == target,
                curr_order < NUM_ORDERS - 1 ==> !self@.free[curr_order as int].contains(
                    blocks::buddy_of(
                        curr_offset as int / MIN_BLOCK_SIZE as int,
                        curr_order as int,
                    ),
                ),
            decreases NUM_ORDERS - curr_order,
        {
            let ghost s = curr_offset as int / MIN_BLOCK_SIZE as int;
            let ghost o = curr_order as int;
            let ghost a = self@;
            let ghost pre = *self;
            let ghost b = blocks::buddy_of(s, o);
            proof {
                assert(a.blocks.contains_key(s) && a.block_ok(s));
                self.lemma_in_arena();
                lemma_block_bytes(curr_order);
                lemma_buddy_offset(curr_offset, curr_order);
                blocks::lemma_buddy(s, o);
                blocks::lemma_leaves(o);
                a.lemma_buddy_is_block(s, o);
            }
            let block_size: usize = MIN_BLOCK_SIZE << curr_order;
            let buddy_offset: usize = curr_offset ^ block_size;
            assert(buddy_offset == MIN_BLOCK_SIZE * b);
            if buddy_offset >= ARENA_SIZE {
                assert(false);
                break;
            }
            let buddy_idx: usize = buddy_offset / MIN_BLOCK_SIZE;
            assert(buddy_idx == b);
            let buddy_tag: u8 = self.tags[buddy_idx];
            proof {
                lemma_tag(curr_order as u8);
                assert(a.blocks.contains_key(b) && a.block_ok(b));
                assert(self.tag_ok(b));
                lemma_tag(a.blocks[b] as u8);
                assert(a.free[o].contains(b) <==> a.is_free(b, o));
                let high = (a.blocks[b] + 128) as u8;
                assert(high >= 128u8 ==> high & 0x80u8 != 0) by (bit_vector);
            }
            if (buddy_tag & TAG_ALLOCATED) == 0 && (buddy_tag & TAG_ORDER_MASK) == curr_order as u8 {
                assert(a.free[o].contains(b));
                proof {
                    a.lemma_join(s, o);
                }
                self.lists.remove(curr_order, buddy_idx);
                if buddy_offset < curr_offset {
                    curr_offset = buddy_offset;
                }
                curr_order += 1;
                let new_idx: usize = curr_offset / MIN_BLOCK_SIZE;
                let ghost low = blocks::lower(s, b);
                assert(new_idx == low);
                self.tags[new_idx] = curr_order as u8;
                proof {
                    self.blocks = Ghost(self.blocks@.remove(s).remove(b).insert(low, o + 1));
                    self.used = Ghost(self.used@.remove(s).insert(low));
                    assert(self@ =~= a.join(s, o));
                    assert forall|t: int| #[trigger] self.blocks@.contains_key(t) && t != low implies self.tag_ok(
                        t,
                    ) by {
                        assert(a.blocks.contains_key(t) && t != s && t != b && pre.tag_ok(t));
                    }
                }
            } else {
                assert(!a.free[o].contains(b));
                break;
            }
        }
        let final_idx: usize = curr_offset / MIN_BLOCK_SIZE;
        proof {
            self.lemma_not_listed(final_idx as int);
            self@.lemma_release(final_idx as int, curr_order as int);
        }
        let ghost a = self@;
        self.lists.push_front(curr_order, final_idx);
        proof {
            self.used = Ghost(self.used@.remove(final_idx as int));
            assert(self@ =~= a.release(final_idx as int, curr_order as int));
            assert forall|t: int| #[trigger] self.blocks@.contains_key(t) && t != -1 implies self.tag_ok(t) by {
                assert(a.blocks.contains_key(t));
            }
        }
    }

    /// Number of free blocks of an order.
    pub fn count_free(&self, order: usize) -> (n: usize)
        requires
            self.wf(),
            order < NUM_ORDERS,
        ensures
            n == self@.free[order as int].len(),
    {
        self.lists.count(order)
    }
}

/// A pool of page-aligned buffers over a buddy system.
pub struct BuddyPool {
    inner: BuddyAllocator,
}

/// The buffer whose payload lies in the block of the given order at leaf `s`.
pub open spec fn buffer_at(s: int, order: int) -> FixedBuf {
    FixedBuf {
        offset: (MIN_BLOCK_SIZE * s + ALIGNMENT) as usize,
        cap: (block_bytes(order) - ALIGNMENT) as usize,
        len: (block_bytes(order) - ALIGNMENT) as usize,
        index: 0,
        context: order as usize,
    }
}

/// Position of the smallest block size that holds `size` bytes.
pub open spec fn fitting_order(size: int, order: int) -> bool {
    &&& 0 <= order < NUM_ORDERS
    &&& size <= block_bytes(order)
    &&& forall|o: int| 0 <= o < order ==> #[trigger] block_bytes(o) < size
}

impl BuddyPool {
    pub closed spec fn view(self) -> Arena {
        self.inner@
    }

    pub closed spec fn wf(self) -> bool {
        self.inner.wf()
    }

    /// Whether a buffer of the pool is handed out and lies where its block does.
    pub open spec fn owns(self, buf: FixedBuf) -> bool {
        let s = (buf.offset - ALIGNMENT) / MIN_BLOCK_SIZE as int;
        &&& self@.used.contains(s)
        &&& self@.blocks[s] == buf.context
        &&& buf.offset == MIN_BLOCK_SIZE * s + ALIGNMENT
        &&& buf.cap == block_bytes(buf.context as int) - ALIGNMENT
    }

    /// The blocks of a pool partition its arena, and no two free ones could be
    /// merged.
    pub proof fn lemma_arena(self)
        requires
            self.wf(),
        ensures
            self@.partition(),
            self@.coalesced(),
    {
    }

    /// Two buffers that are handed out lie inside the arena, on page boundaries,
    /// and do not overlap.
    pub proof fn lemma_disjoint(self, a: FixedBuf, b: FixedBuf)
        requires
            self.wf(),
            self.owns(a),
            self.owns(b),
            a.offset != b.offset,
        ensures
            a.offset + a.cap <= ARENA_SIZE,
            a.offset % ALIGNMENT == 0,
            a.offset + a.cap <= b.offset || b.offset + b.cap <= a.offset,
    {
        let s = (a.offset - ALIGNMENT) / MIN_BLOCK_SIZE as int;
        let t = (b.offset - ALIGNMENT) / MIN_BLOCK_SIZE as int;
        self.lemma_arena();
        assert(self@.blocks.contains_key(s) && self@.blocks.contains_key(t));
        assert(self@.block_ok(s) && self@.block_ok(t));
    }

    pub fn new() -> (pool: Self)
        ensures
            pool.wf(),
            pool@ == Arena::whole(),
    {
        BuddyPool { inner: BuddyAllocator::new() }
    }

    /// Hands out a block of the given size as a buffer.
    pub fn allocate(&mut self, size: BufferSize) -> (buf: Option<FixedBuf>)
        requires
            old(self).wf(),
        ensures
            final(self).wf(),
            match buf {
                Some(b) => {
                    let o = old(self)@.first_fit(size.rank());
                    &&& o < NUM_ORDERS
                    &&& b == buffer_at(old(self)@.free[o][0], size.rank())
                    &&& b.wf()
                    &&& final(self)@ == old(self)@.allocate(size.rank())
                    &&& final(self).owns(b)
                },
                None => {
                    &&& old(self)@.first_fit(size.rank()) == NUM_ORDERS
                    &&& final(self)@ == old(self)@
                },
            },
    {
        let ghost before = self@;
        match self.inner.allocate(size) {
            Some((offset, actual)) => {
                let capacity: usize = actual.size();
                proof {
                    before.lemma_allocate(size.rank());
                    before.lemma_first_fit(size.rank());
                    before.lemma_take(before.first_fit(size.rank()));
                    let s = before.free[before.first_fit(size.rank())][0];
                    assert(before.block_ok(s));
                    assert((MIN_BLOCK_SIZE * s + ALIGNMENT - ALIGNMENT) / MIN_BLOCK_SIZE as int == s);
                }
                Some(FixedBuf::new(offset + ALIGNMENT, capacity - ALIGNMENT, 0, actual.order()))
            },
            None => None,
        }
    }

    /// Hands out the smallest buffer that holds `len` bytes, in use up to there.
    pub fn alloc_len(&mut self, len: usize) -> (buf: Option<FixedBuf>)
        requires
            old(self).wf(),
        ensures
            final(self).wf(),
            match buf {
                Some(b) => {
                    let order = b.context as int;
                    let o = old(self)@.first_fit(order);
                    &&& len + ALIGNMENT <= ARENA_SIZE
                    &&& fitting_order(len + ALIGNMENT, order)
                    &&& o < NUM_ORDERS
                    &&& b == (FixedBuf { len, ..buffer_at(old(self)@.free[o][0], order) })
                    &&& b.wf()
                    &&& final(self)@ == old(self)@.allocate(order)
                    &&& final(self).owns(b)
                },
                None => {
                    &&& len + ALIGNMENT > ARENA_SIZE || exists|order: int| #[trigger]
                        fitting_order(len + ALIGNMENT, order) && old(self)@.first_fit(order) == NUM_ORDERS
                    &&& final(self)@ == old(self)@
                },
            },
    {
        let needed: usize = match len.checked_add(ALIGNMENT) {
            Some(needed) => needed,
            None => return None,
        };
        let size: BufferSize = match BufferSize::best_fit(needed) {
            Some(size) => size,
            None => return None,
        };
        assert(fitting_order(len + ALIGNMENT, size.rank()));
        let block = self.allocate(size);
        match block {
            Some(mut buf) => {
                buf.set_len(len);
                Some(buf)
            },
            None => None,
        }
    }

    /// Hands out the block that holds `size` bytes, payload and set-aside page
    /// together.
    pub fn alloc_mem(&mut self, size: usize) -> (result: AllocResult)
        requires
            old(self).wf(),
        ensures
            final(self).wf(),
            match result {
                AllocResult::Allocated { offset, cap, global_index, context } => {
                    let order = context as int;
                    let o = old(self)@.first_fit(order);
                    let b = buffer_at(old(self)@.free[o][0], order);
                    &&& size <= ARENA_SIZE
                    &&& fitting_order(size as int, order)
                    &&& o < NUM_ORDERS
                    &&& offset == b.offset && cap == b.cap && global_index == 0
                    &&& final(self)@ == old(self)@.allocate(order)
                },
                AllocResult::Failed => {
                    &&& size > ARENA_SIZE || exists|order: int| #[trigger]
                        fitting_order(size as int, order) && old(self)@.first_fit(order) == NUM_ORDERS
                    &&& final(self)@ == old(self)@
                },
            },
    {
        let buf_size: BufferSize = match BufferSize::best_fit(size) {
            Some(s) => s,
            None => return AllocResult::Failed,
        };
        assert(fitting_order(size as int, buf_size.rank()));
        match self.allocate(buf_size) {
            Some(buf) => AllocResult::Allocated {
                offset: buf.offset,
                cap: buf.cap,
                global_index: buf.index,
                context: buf.context,
            },
            None => AllocResult::Failed,
        }
    }

    /// Takes a buffer back.
    pub fn dealloc(&mut self, buf: FixedBuf)
        requires
            old(self).wf(),
            old(self).owns(buf),
        ensures
            final(self).wf(),
            final(self)@ == old(self)@.merge(
                (buf.offset - ALIGNMENT) / MIN_BLOCK_SIZE as int,
                buf.context as int,
            ),
    {
        let ghost s = (buf.offset - ALIGNMENT) / MIN_BLOCK_SIZE as int;
        proof {
            self.lemma_arena();
            assert(self@.blocks.contains_key(s) && self@.block_ok(s));
        }
        let size: Option<BufferSize> = BufferSize::from_order(buf.context);
        if let Some(size) = size {
            let offset: usize = buf.offset - ALIGNMENT;
            assert(offset % MIN_BLOCK_SIZE == 0);
            self.inner.dealloc(offset, size);
        }
    }

    /// The memory to register with the kernel.
    pub fn get_memory_regions(&self) -> (regions: Vec<BufferRegion>)
        ensures
            regions@ == seq![BufferRegion { offset: 0, len: ARENA_SIZE }],
    {
        let mut regions: Vec<BufferRegion> = Vec::new();
        regions.push(BufferRegion { offset: 0, len: ARENA_SIZE });
        regions
    }
}

impl Default for BuddyPool {
    fn default() -> (pool: Self)
        ensures
            pool.wf(),
            pool@ == Arena::whole(),
    {
        Self::new()
    }
}

} // verus!
