//! A buffer pool of five slabs of fixed-size blocks, with larger requests passed
//! on to the system's allocator.

use crate::io::buffer::bitset::{BitSet, OutOfBounds};
use crate::io::buffer::fixed_buf::{AllocResult, BufferRegion, FixedBuf, NO_REGISTRATION_INDEX};
use crate::text::{self, append_number};
use vstd::prelude::*;

verus! {

/// Alignment of every block.
pub const PAGE_SIZE: usize = 4096;

pub const SIZE_4K: usize = 4096;

pub const SIZE_8K: usize = 8192;

pub const SIZE_16K: usize = 16384;

pub const SIZE_32K: usize = 32768;

pub const SIZE_64K: usize = 65536;

/// Number of slabs.
pub const SLAB_COUNT: usize = 5;

/// Bytes in all slabs.
pub const TOTAL_SIZE: usize = 14680064;

/// Context of a block that the system's allocator provides.
pub const GLOBAL_ALLOC_CONTEXT: usize = usize::MAX;

const NEXT_NONE: usize = usize::MAX;

/// Block size and number of blocks of a slab.
#[derive(Debug, Clone, Copy, PartialEq, Eq, Structural)]
pub struct SlabConfig {
    pub block_size: usize,
    pub count: usize,
}

/// The five slabs, smallest blocks first.
pub open spec fn slab_config(i: int) -> SlabConfig {
    if i <= 0 {
        SlabConfig { block_size: SIZE_4K, count: 1024 }
    } else if i == 1 {
        SlabConfig { block_size: SIZE_8K, count: 512 }
    } else if i == 2 {
        SlabConfig { block_size: SIZE_16K, count: 128 }
    } else if i == 3 {
        SlabConfig { block_size: SIZE_32K, count: 64 }
    } else {
        SlabConfig { block_size: SIZE_64K, count: 32 }
    }
}

/// Where a slab starts: behind those before it.
pub open spec fn slab_base(i: int) -> int
    decreases i,
{
    if i <= 0 {
        0
    } else {
        slab_base(i - 1) + slab_config(i - 1).block_size * slab_config(i - 1).count
    }
}

/// The slab with the smallest blocks that hold `size` bytes, if one does.
pub open spec fn slab_for(size: int) -> Option<int> {
    if size <= SIZE_4K {
        Some(0)
    } else if size <= SIZE_8K {
        Some(1)
    } else if size <= SIZE_16K {
        Some(2)
    } else if size <= SIZE_32K {
        Some(3)
    } else if size <= SIZE_64K {
        Some(4)
    } else {
        None
    }
}

/// Names a block by its slab and its place there.
pub open spec fn context_of(slab: int, index: int) -> int {
    slab * 65536 + index
}

proof fn lemma_context(slab: usize, index: usize)
    requires
        slab < SLAB_COUNT,
        index < 1024,
    ensures
        ((slab << 16) | index) == context_of(slab as int, index as int),
{
    assert(((slab << 16) | index) == slab * 65536 + index) by (bit_vector)
        requires
            slab < 5,
            index < 1024,
    ;
}

proof fn lemma_decode(context: usize)
    ensures
        (context >> 16) == context as int / 65536,
        (context & 0xffff) == context as int % 65536,
{
    assert((context >> 16) == context / 65536) by (bit_vector);
    assert((context & 0xffff) == context % 65536) by (bit_vector);
}

proof fn lemma_bases()
    ensures
        slab_base(0) == 0,
        slab_base(1) == 4194304,
        slab_base(2) == 8388608,
        slab_base(3) == 10485760,
        slab_base(4) == 12582912,
        slab_base(5) == TOTAL_SIZE,
{
    reveal_with_fuel(slab_base, 6);
}

fn config_of(i: usize) -> (config: SlabConfig)
    requires
        i < SLAB_COUNT,
    ensures
        config == slab_config(i as int),
{
    if i == 0 {
        SlabConfig { block_size: SIZE_4K, count: 1024 }
    } else if i == 1 {
        SlabConfig { block_size: SIZE_8K, count: 512 }
    } else if i == 2 {
        SlabConfig { block_size: SIZE_16K, count: 128 }
    } else if i == 3 {
        SlabConfig { block_size: SIZE_32K, count: 64 }
    } else {
        SlabConfig { block_size: SIZE_64K, count: 32 }
    }
}

/// Blocks of one size: a list of the free ones, threaded through `next`, and a
/// bit for each that is handed out.
struct Slab {
    config: SlabConfig,
    base_offset: usize,
    free_head: usize,
    next: Vec<usize>,
    allocated: BitSet,
    free_count: usize,
    free: Ghost<Seq<int>>,
}

impl Slab {
    spec fn link(self, i: int) -> usize {
        if 0 <= i < self.free@.len() {
            self.free@[i] as usize
        } else {
            NEXT_NONE
        }
    }

    spec fn chained(self, i: int) -> bool {
        &&& 0 <= self.free@[i] < self.config.count
        &&& self.next@[self.free@[i]] == self.link(i + 1)
        &&& !self.allocated@[self.free@[i]]
    }

    spec fn wf(self) -> bool {
        &&& self.config.count <= 1024
        &&& self.next@.len() == self.config.count
        &&& self.allocated.wf()
        &&& self.allocated@.len() == self.config.count
        &&& self.free@.no_duplicates()
        &&& self.free_head == self.link(0)
        &&& self.free_count == self.free@.len()
        &&& self.free@.len() <= self.config.count
        &&& forall|i: int| 0 <= i < self.free@.len() ==> #[trigger] self.chained(i)
        &&& forall|x: int| 0 <= x < self.config.count && !(#[trigger] self.allocated@[x]) ==> self.free@.contains(x)
    }

    fn new(config: SlabConfig, base_offset: usize) -> (slab: Self)
        requires
            0 < config.count <= 1024,
        ensures
            slab.wf(),
            slab.config == config,
            slab.base_offset == base_offset,
            slab.free@ == Seq::new(config.count as nat, |i: int| i),
    {
        let mut next: Vec<usize> = Vec::new();
        let mut i: usize = 0;
        while i < config.count
            invariant
                0 < config.count <= 1024,
                i <= config.count,
                next@.len() == i,
                forall|j: int|
                    0 <= j < i ==> #[trigger] next@[j] == if j < config.count - 1 { j + 1 } else { NEXT_NONE as int },
            decreases config.count - i,
        {
            let next_idx: usize = if i < config.count - 1 { i + 1 } else { NEXT_NONE };
            next.push(next_idx);
            i += 1;
        }
        let slab = Slab {
            config,
            base_offset,
            free_head: 0,
            next,
            allocated: BitSet::new(config.count),
            free_count: config.count,
            free: Ghost(Seq::new(config.count as nat, |i: int| i)),
        };
        assert forall|i: int| 0 <= i < slab.free@.len() implies #[trigger] slab.chained(i) by {}
        assert forall|x: int| 0 <= x < config.count && !(#[trigger] slab.allocated@[x]) implies slab.free@.contains(
            x,
        ) by {
            assert(slab.free@[x] == x);
        }
        slab
    }

    /// Takes the first free block.
    fn take(&mut self) -> (index: usize)
        requires
            old(self).wf(),
            old(self).free@.len() > 0,
        ensures
            final(self).wf(),
            final(self).config == old(self).config,
            final(self).base_offset == old(self).base_offset,
            index == old(self).free@[0],
            final(self).free@ == old(self).free@.drop_first(),
    {
        assert(self.chained(0));
        let index: usize = self.free_head;
        let next_free: usize = self.next[index];
        self.free_head = next_free;
        self.free_count -= 1;
        let marked = self.allocated.set(index);
        proof {
            self.free = Ghost(self.free@.drop_first());
            let before = *old(self);
            assert forall|i: int| 0 <= i < self.free@.len() implies #[trigger] self.chained(i) by {
                assert(before.chained(i + 1));
                assert(before.free@[i + 1] != before.free@[0]);
            }
            assert forall|x: int| 0 <= x < self.config.count && !(#[trigger] self.allocated@[x]) implies self.free@.contains(
                x,
            ) by {
                assert(x != index);
                assert(!before.allocated@[x]);
                let i = choose|i: int| 0 <= i < before.free@.len() && before.free@[i] == x;
                assert(self.free@[i - 1] == x);
            }
        }
        index
    }

    /// Puts a block that is handed out in front of the free ones.
    fn put(&mut self, index: usize)
        requires
            old(self).wf(),
            index < old(self).config.count,
            old(self).allocated@[index as int],
        ensures
            final(self).wf(),
            final(self).config == old(self).config,
            final(self).base_offset == old(self).base_offset,
            final(self).free@ == seq![index as int] + old(self).free@,
    {
        let ghost before = *self;
        proof {
            if before.free@.contains(index as int) {
                let i = choose|i: int| 0 <= i < before.free@.len() && before.free@[i] == index;
                assert(before.chained(i));
            }
            before.lemma_room(index as int);
        }
        let cleared = self.allocated.clear(index);
        self.next[index] = self.free_head;
        self.free_head = index;
        self.free_count += 1;
        proof {
            self.free = Ghost(seq![index as int] + self.free@);
            assert forall|i: int| 0 <= i < self.free@.len() implies #[trigger] self.chained(i) by {
                if i > 0 {
                    assert(before.chained(i - 1));
                    assert(before.free@[i - 1] != index);
                }
            }
            assert forall|x: int| 0 <= x < self.config.count && !(#[trigger] self.allocated@[x]) implies self.free@.contains(
                x,
            ) by {
                if x == index {
                    assert(self.free@[0] == x);
                } else {
                    assert(!before.allocated@[x]);
                    let i = choose|i: int| 0 <= i < before.free@.len() && before.free@[i] == x;
                    assert(self.free@[i + 1] == x);
                }
            }
        }
    }

    /// While a block is handed out, the free ones are fewer than all.
    proof fn lemma_room(self, x: int)
        requires
            self.wf(),
            0 <= x < self.config.count,
            !self.free@.contains(x),
        ensures
            self.free@.len() < self.config.count,
    {
        let all = vstd::set_lib::set_int_range(0, self.config.count as int);
        vstd::set_lib::lemma_int_range(0, self.config.count as int);
        self.free@.unique_seq_to_set();
        assert(self.free@.to_set().subset_of(all.remove(x))) by {
            assert forall|y: int| self.free@.to_set().contains(y) implies all.remove(x).contains(y) by {
                let i = choose|i: int| 0 <= i < self.free@.len() && self.free@[i] == y;
                assert(self.chained(i));
            }
        }
        vstd::set_lib::lemma_len_subset(self.free@.to_set(), all.remove(x));
    }
}

/// A block that the allocator hands out. A block of the system's allocator has no
/// place in the arena.
#[derive(Debug, Clone, Copy, PartialEq, Eq, Structural)]
pub struct RawAlloc {
    pub offset: usize,
    pub cap: usize,
    pub global_index: u16,
    pub context: usize,
}

/// Why a block is not taken back.
#[derive(Debug, Clone, Copy, PartialEq, Eq, Structural)]
pub enum DeallocError {
    /// No allocation has this size.
    Layout { cap: usize },
    /// The block is free already.
    DoubleFree { slab: usize, index: usize },
    /// The slab has no such block.
    BitSet(OutOfBounds),
    /// There is no such slab.
    InvalidSlab { slab: usize },
}

impl DeallocError {
    /// The error in words: what went wrong, and the numbers or the error behind it.
    pub open spec fn words(self) -> Seq<char> {
        match self {
            DeallocError::Layout { cap } => "Layout error: "@ + layout_error_text(cap, PAGE_SIZE),
            DeallocError::DoubleFree { slab, index } => "Double free detected in HybridAllocator: slab="@
                + text::digits(slab as nat) + ", index="@ + text::digits(index as nat),
            DeallocError::BitSet(error) => "BitSet access error: "@ + error.words(),
            DeallocError::InvalidSlab { slab } => "Invalid slab index: "@ + text::digits(slab as nat),
        }
    }

    /// The words of a layout error, given those of the error behind it.
    pub fn layout_message(inner: &str) -> (message: String)
        ensures
            message@ == "Layout error: "@ + inner@,
    {
        let mut message: String = String::from_str("Layout error: ");
        message.append(inner);
        message
    }

    pub fn message(&self) -> (message: String)
        ensures
            message@ == self.words(),
    {
        match self {
            DeallocError::Layout { cap } => {
                let inner: String = layout_error(*cap, PAGE_SIZE);
                DeallocError::layout_message(inner.as_str())
            },
            DeallocError::DoubleFree { slab, index } => {
                let mut message: String = String::from_str("Double free detected in HybridAllocator: slab=");
                append_number(&mut message, *slab);
                message.append(", index=");
                append_number(&mut message, *index);
                message
            },
            DeallocError::BitSet(error) => {
                let mut message: String = String::from_str("BitSet access error: ");
                let inner: String = error.message();
                message.append(inner.as_str());
                message
            },
            DeallocError::InvalidSlab { slab } => {
                let mut message: String = String::from_str("Invalid slab index: ");
                append_number(&mut message, *slab);
                message
            },
        }
    }
}

/// What `std::alloc::Layout::from_size_align` says of a size and an alignment that it
/// refuses. Of others it says nothing.
pub uninterp spec fn layout_error_text(size: usize, align: usize) -> Seq<char>;

/// Calls `std::alloc::Layout::from_size_align` and writes its error out. Which words
/// these are is not claimed, only that they depend on the arguments alone.
#[verifier::external_body]
fn layout_error(size: usize, align: usize) -> (text: String)
    ensures
        text@ == layout_error_text(size, align),
{
    match std::alloc::Layout::from_size_align(size, align) {
        Ok(_) => String::new(),
        Err(e) => format!("{}", e),
    }
}

/// The largest size that the system's allocator takes at page alignment.
pub open spec fn max_layout() -> int {
    isize::MAX - (PAGE_SIZE - 1)
}

/// The block at a place in a slab.
pub open spec fn block_at(slab: int, index: int) -> RawAlloc {
    RawAlloc {
        offset: (slab_base(slab) + index * slab_config(slab).block_size) as usize,
        cap: slab_config(slab).block_size,
        global_index: 0,
        context: context_of(slab, index) as usize,
    }
}

/// Each slab lists its free blocks, and each of them once.
pub open spec fn free_lists_ok(free: Seq<Seq<int>>) -> bool {
    &&& free.len() == SLAB_COUNT
    &&& forall|i: int| 0 <= i < SLAB_COUNT ==> (#[trigger] free[i]).no_duplicates()
    &&& forall|i: int, j: int|
        0 <= i < SLAB_COUNT && 0 <= j < free[i].len() ==> 0 <= #[trigger] free[i][j] < slab_config(i).count
}

/// A block that is handed out and comes back leaves the free lists as they were,
/// and coming back a second time is refused.
pub proof fn lemma_round_trip(free: Seq<Seq<int>>, i: int)
    requires
        free_lists_ok(free),
        0 <= i < SLAB_COUNT,
        free[i].len() > 0,
    ensures
        ({
            let block = block_at(i, free[i][0]);
            let taken = free.update(i, free[i].drop_first());
            &&& block.context == context_of(i, free[i][0])
            &&& dealloc_outcome(taken, block.cap, block.context) == Ok::<(), DeallocError>(())
            &&& taken.update(i, seq![block.context as int % 65536] + taken[i]) == free
            &&& dealloc_outcome(free, block.cap, block.context) == Err::<(), DeallocError>(
                DeallocError::DoubleFree { slab: i as usize, index: free[i][0] as usize },
            )
        }),
{
    let x = free[i][0];
    let taken = free.update(i, free[i].drop_first());
    assert(free[i].contains(x));
    assert(!taken[i].contains(x)) by {
        if taken[i].contains(x) {
            let j = choose|j: int| 0 <= j < taken[i].len() && taken[i][j] == x;
            assert(free[i][j + 1] == free[i][0]);
        }
    }
    assert(seq![x] + taken[i] =~= free[i]);
    assert(taken.update(i, seq![x] + taken[i]) =~= free);
}

/// A block lies in its slab, behind the blocks before it.
proof fn lemma_block_place(i: int, x: int)
    requires
        0 <= i < SLAB_COUNT,
        0 <= x < slab_config(i).count,
    ensures
        slab_base(i) <= block_at(i, x).offset,
        block_at(i, x).offset + block_at(i, x).cap <= slab_base(i + 1),
        block_at(i, x).offset % PAGE_SIZE == 0,
        block_at(i, x).offset == slab_base(i) + x * block_at(i, x).cap,
{
    lemma_bases();
    let size = slab_config(i).block_size;
    if i == 0 {
        assert(x * size == x * 4096);
    } else if i == 1 {
        assert(x * size == x * 8192);
    } else if i == 2 {
        assert(x * size == x * 16384);
    } else if i == 3 {
        assert(x * size == x * 32768);
    } else {
        assert(x * size == x * 65536);
    }
}

/// Two blocks lie inside the arena, on page boundaries, and do not overlap.
pub proof fn lemma_blocks_disjoint(i: int, x: int, j: int, y: int)
    requires
        0 <= i < SLAB_COUNT,
        0 <= j < SLAB_COUNT,
        0 <= x < slab_config(i).count,
        0 <= y < slab_config(j).count,
        i != j || x != y,
    ensures
        block_at(i, x).offset + block_at(i, x).cap <= TOTAL_SIZE,
        block_at(i, x).offset % PAGE_SIZE == 0,
        ({
            let (a, b) = (block_at(i, x), block_at(j, y));
            a.offset + a.cap <= b.offset || b.offset + b.cap <= a.offset
        }),
        block_at(i, x).context != block_at(j, y).context,
{
    lemma_bases();
    lemma_block_place(i, x);
    lemma_block_place(j, y);
    if i == j {
        let size = slab_config(i).block_size as int;
        assert(x < y ==> x * size + size <= y * size) by (nonlinear_arith)
            requires
                size > 0,
        ;
        assert(y < x ==> y * size + size <= x * size) by (nonlinear_arith)
            requires
                size > 0,
        ;
    }
}

/// What becomes of a block that comes back to free lists `free`.
pub open spec fn dealloc_outcome(free: Seq<Seq<int>>, cap: usize, context: usize) -> Result<(), DeallocError> {
    let slab = context as int / 65536;
    let index = context as int % 65536;
    if context == GLOBAL_ALLOC_CONTEXT {
        if cap <= max_layout() {
            Ok(())
        } else {
            Err(DeallocError::Layout { cap })
        }
    } else if slab >= SLAB_COUNT {
        Err(DeallocError::InvalidSlab { slab: slab as usize })
    } else if index >= slab_config(slab).count {
        Err(DeallocError::BitSet(OutOfBounds { index: index as usize, len: slab_config(slab).count }))
    } else if free[slab].contains(index) {
        Err(DeallocError::DoubleFree { slab: slab as usize, index: index as usize })
    } else {
        Ok(())
    }
}

/// The allocator behind the pool.
pub struct HybridAllocator {
    slabs: Vec<Slab>,
}

impl HybridAllocator {
    /// The free blocks of each slab, first to last.
    pub closed spec fn view(self) -> Seq<Seq<int>> {
        Seq::new(self.slabs@.len(), |i: int| self.slabs@[i].free@)
    }

    spec fn slab_ok(self, i: int) -> bool {
        &&& self.slabs@[i].wf()
        &&& self.slabs@[i].config == slab_config(i)
        &&& self.slabs@[i].base_offset == slab_base(i)
    }

    pub closed spec fn wf(self) -> bool {
        &&& self.slabs@.len() == SLAB_COUNT
        &&& forall|i: int| 0 <= i < SLAB_COUNT ==> #[trigger] self.slab_ok(i)
    }

    pub proof fn lemma_free(self)
        requires
            self.wf(),
        ensures
            free_lists_ok(self@),
    {
        assert forall|i: int| 0 <= i < SLAB_COUNT implies (#[trigger] self@[i]).no_duplicates() by {
            assert(self.slab_ok(i));
        }
        assert forall|i: int, j: int| 0 <= i < SLAB_COUNT && 0 <= j < self@[i].len() implies 0
            <= #[trigger] self@[i][j] < slab_config(i).count by {
            assert(self.slab_ok(i));
            assert(self.slabs@[i].chained(j));
        }
    }

    /// All blocks of all slabs free.
    pub open spec fn all_free() -> Seq<Seq<int>> {
        Seq::new(SLAB_COUNT as nat, |i: int| Seq::new(slab_config(i).count as nat, |j: int| j))
    }

    pub fn new() -> (allocator: Self)
        ensures
            allocator.wf(),
            allocator@ == Self::all_free(),
    {
        let mut slabs: Vec<Slab> = Vec::new();
        let mut current_offset: usize = 0;
        let mut i: usize = 0;
        while i < SLAB_COUNT
            invariant
                i <= SLAB_COUNT,
                slabs@.len() == i,
                current_offset == slab_base(i as int),
                forall|j: int|
                    0 <= j < i ==> {
                        &&& (#[trigger] slabs@[j]).wf()
                        &&& slabs@[j].config == slab_config(j)
                        &&& slabs@[j].base_offset == slab_base(j)
                        &&& slabs@[j].free@ == Seq::new(slab_config(j).count as nat, |k: int| k)
                    },
            decreases SLAB_COUNT - i,
        {
            let config: SlabConfig = config_of(i);
            proof {
                lemma_bases();
            }
            slabs.push(Slab::new(config, current_offset));
            assert(slab_base(i + 1) == current_offset + config.block_size * config.count);
            current_offset += config.block_size * config.count;
            i += 1;
        }
        let allocator = HybridAllocator { slabs };
        assert forall|j: int| 0 <= j < SLAB_COUNT implies #[trigger] allocator.slab_ok(j) by {
            assert(allocator.slabs@[j].wf());
        }
        assert(allocator@ =~= Self::all_free()) by {
            assert forall|j: int| 0 <= j < SLAB_COUNT implies allocator@[j] == Self::all_free()[j] by {
                assert(allocator.slabs@[j].wf());
            }
        }
        allocator
    }

    /// Hands out a block for `needed_total` bytes: the first free one of the slab
    /// that fits, or one of the system's allocator where none fits.
    pub fn allocate(&mut self, needed_total: usize) -> (block: Option<RawAlloc>)
        requires
            old(self).wf(),
            needed_total <= max_layout(),
        ensures
            final(self).wf(),
            match slab_for(needed_total as int) {
                Some(i) => if old(self)@[i].len() > 0 {
                    &&& block == Some(block_at(i, old(self)@[i][0]))
                    &&& final(self)@ == old(self)@.update(i, old(self)@[i].drop_first())
                } else {
                    &&& block.is_none()
                    &&& final(self)@ == old(self)@
                },
                None => {
                    &&& block == Some(
                        (RawAlloc {
                            offset: 0,
                            cap: needed_total,
                            global_index: NO_REGISTRATION_INDEX,
                            context: GLOBAL_ALLOC_CONTEXT,
                        }),
                    )
                    &&& final(self)@ == old(self)@
                },
            },
    {
        let slab_idx: Option<usize> = if needed_total <= SIZE_4K {
            Some(0)
        } else if needed_total <= SIZE_8K {
            Some(1)
        } else if needed_total <= SIZE_16K {
            Some(2)
        } else if needed_total <= SIZE_32K {
            Some(3)
        } else if needed_total <= SIZE_64K {
            Some(4)
        } else {
            None
        };
        if let Some(idx) = slab_idx {
            assert(self.slab_ok(idx as int));
            if self.slabs[idx].free_head != NEXT_NONE {
                let ghost before = *self;
                let index: usize = self.slabs[idx].free_head;
                proof {
                    assert(before.slabs@[idx as int].chained(0));
                    lemma_bases();
                    lemma_context(idx, index);
                }
                let block_size: usize = self.slabs[idx].config.block_size;
                let base_offset: usize = self.slabs[idx].base_offset;
                assert(index * block_size <= 1024 * 65536) by (nonlinear_arith)
                    requires
                        index < 1024,
                        block_size <= 65536,
                ;
                let block_offset: usize = base_offset + index * block_size;
                let context: usize = (idx << 16) | index;
                let taken: usize = self.slabs[idx].take();
                proof {
                    assert forall|i: int| 0 <= i < SLAB_COUNT implies #[trigger] self.slab_ok(i) by {
                        assert(before.slab_ok(i));
                    }
                    assert(self@ =~= before@.update(idx as int, before@[idx as int].drop_first()));
                }
                return Some(RawAlloc { offset: block_offset, cap: block_size, global_index: 0, context });
            }
            assert(old(self)@[idx as int].len() == 0) by {
                if old(self)@[idx as int].len() > 0 {
                    assert(old(self).slabs@[idx as int].chained(0));
                }
            }
            return None;
        }
        Some(
            RawAlloc {
                offset: 0,
                cap: needed_total,
                global_index: NO_REGISTRATION_INDEX,
                context: GLOBAL_ALLOC_CONTEXT,
            },
        )
    }

    /// Takes a block back, to the front of its slab's free ones.
    pub fn dealloc(&mut self, cap: usize, context: usize) -> (done: Result<(), DeallocError>)
        requires
            old(self).wf(),
        ensures
            final(self).wf(),
            done == dealloc_outcome(old(self)@, cap, context),
            final(self)@ == (if done.is_ok() && context != GLOBAL_ALLOC_CONTEXT {
                let slab = context as int / 65536;
                old(self)@.update(slab, seq![context as int % 65536] + old(self)@[slab])
            } else {
                old(self)@
            }),
    {
        if context == GLOBAL_ALLOC_CONTEXT {
            if cap > (isize::MAX as usize) - (PAGE_SIZE - 1) {
                return Err(DeallocError::Layout { cap });
            }
            return Ok(());
        }
        let slab_idx: usize = context >> 16;
        let index: usize = context & 0xffff;
        proof {
            lemma_decode(context);
        }
        if slab_idx >= self.slabs.len() {
            return Err(DeallocError::InvalidSlab { slab: slab_idx });
        }
        let ghost before = *self;
        assert(self.slab_ok(slab_idx as int));
        match self.slabs[slab_idx].allocated.get(index) {
            Ok(true) => {},
            Ok(false) => {
                assert(before@[slab_idx as int].contains(index as int));
                return Err(DeallocError::DoubleFree { slab: slab_idx, index });
            },
            Err(e) => {
                return Err(DeallocError::BitSet(e));
            },
        }
        assert(!before@[slab_idx as int].contains(index as int)) by {
            let slab = before.slabs@[slab_idx as int];
            if slab.free@.contains(index as int) {
                let i = choose|i: int| 0 <= i < slab.free@.len() && slab.free@[i] == index;
                assert(slab.chained(i));
            }
        }
        self.slabs[slab_idx].put(index);
        proof {
            assert forall|i: int| 0 <= i < SLAB_COUNT implies #[trigger] self.slab_ok(i) by {
                assert(before.slab_ok(i));
            }
            assert(self@ =~= before@.update(slab_idx as int, seq![index as int] + before@[slab_idx as int]));
        }
        Ok(())
    }

    /// Number of free blocks of a slab.
    pub fn count_free(&self, slab_idx: usize) -> (n: usize)
        requires
            self.wf(),
            slab_idx < SLAB_COUNT,
        ensures
            n == self@[slab_idx as int].len(),
    {
        assert(self.slab_ok(slab_idx as int));
        self.slabs[slab_idx].free_count
    }
}

impl Default for HybridAllocator {
    fn default() -> (allocator: Self)
        ensures
            allocator.wf(),
            allocator@ == HybridAllocator::all_free(),
    {
        Self::new()
    }
}

/// A pool of buffers over the slabs.
pub struct HybridPool {
    inner: HybridAllocator,
}

/// A buffer over a block, in use up to `len`.
pub open spec fn buffer_of(block: RawAlloc, len: usize) -> FixedBuf {
    FixedBuf { offset: block.offset, cap: block.cap, len, index: block.global_index, context: block.context }
}

impl HybridPool {
    pub closed spec fn view(self) -> Seq<Seq<int>> {
        self.inner@
    }

    pub closed spec fn wf(self) -> bool {
        self.inner.wf()
    }

    pub proof fn lemma_free(self)
        requires
            self.wf(),
        ensures
            free_lists_ok(self@),
    {
        self.inner.lemma_free();
    }

    pub fn new() -> (pool: Self)
        ensures
            pool.wf(),
            pool@ == HybridAllocator::all_free(),
    {
        HybridPool { inner: HybridAllocator::new() }
    }

    /// Hands out a buffer that holds `len` bytes, in use up to there.
    pub fn allocate(&mut self, len: usize) -> (buf: Option<FixedBuf>)
        requires
            old(self).wf(),
            len <= max_layout(),
        ensures
            final(self).wf(),
            match slab_for(len as int) {
                Some(i) => if old(self)@[i].len() > 0 {
                    &&& buf == Some(buffer_of(block_at(i, old(self)@[i][0]), len))
                    &&& buf->0.wf()
                    &&& final(self)@ == old(self)@.update(i, old(self)@[i].drop_first())
                } else {
                    &&& buf.is_none()
                    &&& final(self)@ == old(self)@
                },
                None => {
                    &&& buf == Some(
                        (FixedBuf {
                            offset: 0,
                            cap: len,
                            len,
                            index: NO_REGISTRATION_INDEX,
                            context: GLOBAL_ALLOC_CONTEXT,
                        }),
                    )
                    &&& final(self)@ == old(self)@
                },
            },
    {
        match self.inner.allocate(len) {
            Some(raw) => {
                let mut buf = FixedBuf::new(raw.offset, raw.cap, raw.global_index, raw.context);
                buf.set_len(len);
                Some(buf)
            },
            None => None,
        }
    }

    /// Hands out a block for `size` bytes.
    pub fn alloc_mem(&mut self, size: usize) -> (result: AllocResult)
        requires
            old(self).wf(),
            size <= max_layout(),
        ensures
            final(self).wf(),
            match slab_for(size as int) {
                Some(i) => if old(self)@[i].len() > 0 {
                    let block = block_at(i, old(self)@[i][0]);
                    &&& result == (AllocResult::Allocated {
                        offset: block.offset,
                        cap: block.cap,
                        global_index: block.global_index,
                        context: block.context,
                    })
                    &&& final(self)@ == old(self)@.update(i, old(self)@[i].drop_first())
                } else {
                    &&& result == AllocResult::Failed
                    &&& final(self)@ == old(self)@
                },
                None => {
                    &&& result == (AllocResult::Allocated {
                        offset: 0,
                        cap: size,
                        global_index: NO_REGISTRATION_INDEX,
                        context: GLOBAL_ALLOC_CONTEXT,
                    })
                    &&& final(self)@ == old(self)@
                },
            },
    {
        match self.inner.allocate(size) {
            Some(raw) => AllocResult::Allocated {
                offset: raw.offset,
                cap: raw.cap,
                global_index: raw.global_index,
                context: raw.context,
            },
            None => AllocResult::Failed,
        }
    }

    /// Takes a buffer back.
    pub fn dealloc(&mut self, buf: FixedBuf) -> (done: Result<(), DeallocError>)
        requires
            old(self).wf(),
        ensures
            final(self).wf(),
            done == dealloc_outcome(old(self)@, buf.cap, buf.context),
            final(self)@ == (if done.is_ok() && buf.context != GLOBAL_ALLOC_CONTEXT {
                let slab = buf.context as int / 65536;
                old(self)@.update(slab, seq![buf.context as int % 65536] + old(self)@[slab])
            } else {
                old(self)@
            }),
    {
        self.inner.dealloc(buf.cap, buf.context)
    }

    /// The region a buffer lies in, and where it lies there.
    pub fn resolve_region_info(&self, buf: &FixedBuf) -> (place: (usize, usize))
        requires
            buf.index != NO_REGISTRATION_INDEX,
        ensures
            place == (0usize, buf.offset),
    {
        (0, buf.offset)
    }

    /// The memory to register with the kernel: the slabs, as one region.
    pub fn get_memory_regions(&self) -> (regions: Vec<BufferRegion>)
        ensures
            regions@ == seq![BufferRegion { offset: 0, len: TOTAL_SIZE }],
    {
        let mut regions: Vec<BufferRegion> = Vec::new();
        regions.push(BufferRegion { offset: 0, len: TOTAL_SIZE });
        regions
    }
}

} // verus!
