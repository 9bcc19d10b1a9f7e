use veloq_runtime::io::buffer::bitset::{BitSet, OutOfBounds};
use veloq_runtime::io::buffer::blocks::NUM_ORDERS;
use veloq_runtime::io::buffer::buddy::{BuddyAllocator, BuddyPool, BufferSize, ALIGNMENT, ARENA_SIZE};
use veloq_runtime::io::buffer::fixed_buf::{AllocResult, FixedBuf, NO_REGISTRATION_INDEX};
use veloq_runtime::io::buffer::hybrid::{
    DeallocError, HybridAllocator, HybridPool, GLOBAL_ALLOC_CONTEXT, SIZE_4K, TOTAL_SIZE,
};
use veloq_runtime::io::buffer::pool::BufPool;

#[test]
fn test_alloc_basic() {
    let mut allocator = BuddyAllocator::new();
    assert_eq!(allocator.count_free(NUM_ORDERS - 1), 1);

    let (ptr1, size1) = allocator.allocate(BufferSize::Size8K).unwrap();
    assert_eq!(size1, BufferSize::Size8K);

    assert_eq!(allocator.count_free(0), 1);
    assert_eq!(allocator.count_free(1), 1);
    assert_eq!(allocator.count_free(NUM_ORDERS - 1), 0);

    allocator.dealloc(ptr1, size1);

    assert_eq!(allocator.count_free(NUM_ORDERS - 1), 1);
    assert_eq!(allocator.count_free(0), 0);
}

#[test]
fn test_pool_integration() {
    let mut pool = BuddyPool::new();
    let buf = pool.allocate(BufferSize::Size8K).unwrap();
    assert_eq!(buf.capacity(), 8192 - ALIGNMENT);
    pool.dealloc(buf);
}

#[test]
fn test_allocator_basic() {
    let mut allocator = HybridAllocator::new();
    assert_eq!(allocator.count_free(0), 1024);
    assert_eq!(allocator.count_free(1), 512);
    assert_eq!(allocator.count_free(2), 128);
    assert_eq!(allocator.count_free(3), 64);
    assert_eq!(allocator.count_free(4), 32);

    let raw = allocator.allocate(4096).unwrap();
    assert_eq!(raw.cap, SIZE_4K);
    assert_eq!(raw.global_index, 0);
    assert_eq!(allocator.count_free(0), 1023);
    assert_eq!(allocator.count_free(1), 512);

    assert!(allocator.dealloc(raw.cap, raw.context).is_ok());
    assert_eq!(allocator.count_free(0), 1024);
}

#[test]
fn test_allocator_small() {
    let mut allocator = HybridAllocator::new();
    let raw = allocator.allocate(100).unwrap();
    assert_eq!(raw.cap, SIZE_4K);
    assert_eq!(raw.global_index, 0);
    assert_eq!(allocator.count_free(0), 1023);
    assert!(allocator.dealloc(raw.cap, raw.context).is_ok());
}

#[test]
fn test_allocator_large() {
    let mut allocator = HybridAllocator::new();
    let raw = allocator.allocate(1024 * 1024).unwrap();
    assert!(raw.cap >= 1024 * 1024);
    assert_eq!(raw.context, GLOBAL_ALLOC_CONTEXT);
    assert_eq!(raw.global_index, NO_REGISTRATION_INDEX);

    assert!(allocator.dealloc(raw.cap, raw.context).is_ok());
}

#[test]
fn test_hybrid_pool_integration() {
    let mut pool = HybridPool::new();
    let buf = pool.allocate(4096).unwrap();
    assert!(buf.capacity() >= 4096);
    let idx = buf.buf_index();
    assert_eq!(idx, 0);
    assert_ne!(idx, NO_REGISTRATION_INDEX);

    assert!(pool.dealloc(buf).is_ok());
}

#[test]
fn test_hybrid_alloc_clamping() {
    let mut pool = HybridPool::new();
    let buf = pool.allocate(4096).unwrap();
    assert_eq!(buf.len(), 4096);
    assert_eq!(buf.capacity(), 4096);
}

#[test]
fn test_hybrid_all_sizes() {
    let mut pool = HybridPool::new();

    let sizes = [4096, 8192, 16384, 32768, 65536];

    for size in sizes {
        let buf = pool.allocate(size).unwrap();
        let min_expected = size;
        assert!(buf.capacity() >= min_expected);
        assert_eq!(buf.offset % 4096, 0);
    }
}

#[test]
fn test_double_free() {
    let mut allocator = HybridAllocator::new();
    let raw = allocator.allocate(4096).unwrap();
    assert!(allocator.dealloc(raw.cap, raw.context).is_ok(), "First dealloc should succeed");
    let res = allocator.dealloc(raw.cap, raw.context);
    assert!(res.is_err());
    let err_msg = res.unwrap_err().message();
    assert!(err_msg.contains("Double free detected"));
}

#[test]
fn buddy_frees_in_any_order_and_merges() {
    let mut allocator = BuddyAllocator::new();
    let mut blocks = Vec::new();
    for size in [BufferSize::Size8K, BufferSize::Size64K, BufferSize::Size16K, BufferSize::Size8K] {
        blocks.push(allocator.allocate(size).unwrap());
    }
    let mut spans: Vec<(usize, usize)> = blocks.iter().map(|b| (b.0, b.0 + b.1.size())).collect();
    spans.sort();
    for pair in spans.windows(2) {
        assert!(pair[0].1 <= pair[1].0, "blocks overlap");
    }
    for i in [2, 0, 3, 1] {
        let (offset, size) = blocks[i];
        allocator.dealloc(offset, size);
    }
    assert_eq!(allocator.count_free(NUM_ORDERS - 1), 1);
    for order in 0..NUM_ORDERS - 1 {
        assert_eq!(allocator.count_free(order), 0);
    }
}

#[test]
fn buddy_runs_out_and_recovers() {
    let mut allocator = BuddyAllocator::new();
    let whole = BufferSize::from_order(NUM_ORDERS - 1).unwrap();
    assert_eq!(whole.size(), ARENA_SIZE);
    let (offset, size) = allocator.allocate(whole).unwrap();
    assert_eq!(offset, 0);
    assert!(allocator.allocate(BufferSize::Size8K).is_none());
    allocator.dealloc(offset, size);
    assert!(allocator.allocate(BufferSize::Size8K).is_some());
}

#[test]
fn buffer_sizes_fit() {
    assert_eq!(BufferSize::best_fit(1), Some(BufferSize::Size8K));
    assert_eq!(BufferSize::best_fit(8192), Some(BufferSize::Size8K));
    assert_eq!(BufferSize::best_fit(8193), Some(BufferSize::Size16K));
    assert_eq!(BufferSize::best_fit(ARENA_SIZE + 1), None);
    assert_eq!(BufferSize::Size64K.order(), 3);
    assert_eq!(BufferSize::from_order(NUM_ORDERS), None);
}

#[test]
fn buddy_pool_sizes_by_length() {
    let mut pool = BuddyPool::new();
    let buf = pool.alloc_len(8192).unwrap();
    assert_eq!(buf.capacity(), 16384 - ALIGNMENT);
    pool.dealloc(buf);
    match pool.alloc_mem(4096) {
        AllocResult::Allocated { cap, .. } => assert!(cap >= 4096),
        AllocResult::Failed => panic!("the pool is empty"),
    }
    assert!(matches!(pool.alloc_mem(ARENA_SIZE), AllocResult::Failed));
    assert_eq!(pool.get_memory_regions().len(), 1);
}

#[test]
fn hybrid_reports_each_error() {
    let mut allocator = HybridAllocator::new();
    assert_eq!(allocator.dealloc(SIZE_4K, 9 << 16), Err(DeallocError::InvalidSlab { slab: 9 }));
    assert_eq!(DeallocError::InvalidSlab { slab: 9 }.message(), "Invalid slab index: 9");
    assert_eq!(
        DeallocError::DoubleFree { slab: 4, index: 1023 }.message(),
        "Double free detected in HybridAllocator: slab=4, index=1023"
    );
    assert!(matches!(allocator.dealloc(SIZE_4K, 60000), Err(DeallocError::BitSet(_))));
    let layout = DeallocError::Layout { cap: usize::MAX };
    assert_eq!(allocator.dealloc(usize::MAX, GLOBAL_ALLOC_CONTEXT), Err(layout));
    let inner = std::alloc::Layout::from_size_align(usize::MAX, 4096).unwrap_err();
    assert_eq!(layout.message(), format!("Layout error: {}", inner));
    assert_eq!(DeallocError::layout_message("x"), "Layout error: x");
    assert_eq!(
        DeallocError::BitSet(OutOfBounds { index: 60000, len: 1024 }).message(),
        "BitSet access error: index 60000 out of bounds for length 1024"
    );
    let raw = allocator.allocate(4096).unwrap();
    assert!(allocator.dealloc(raw.cap, raw.context).is_ok());
    assert_eq!(allocator.dealloc(raw.cap, raw.context), Err(DeallocError::DoubleFree { slab: 0, index: 0 }));
}

#[test]
fn a_full_slab_has_nothing_to_give() {
    let mut allocator = HybridAllocator::new();
    let mut last = None;
    for _ in 0..32 {
        let raw = allocator.allocate(65536).unwrap();
        assert_eq!(raw.global_index, 0);
        last = Some(raw);
    }
    assert_eq!(allocator.count_free(4), 0);
    assert!(allocator.allocate(65536).is_none());
    assert!(allocator.allocate(32768).is_some());
    let raw = last.unwrap();
    assert!(allocator.dealloc(raw.cap, raw.context).is_ok());
    assert_eq!(allocator.allocate(65536), Some(raw));
}

#[test]
fn hybrid_pool_knows_its_regions() {
    let mut pool = HybridPool::new();
    let buf = pool.allocate(8192).unwrap();
    let (region, offset) = pool.resolve_region_info(&buf);
    assert_eq!(region, 0);
    assert_eq!(offset, buf.offset);
    let regions = pool.get_memory_regions();
    assert_eq!(regions.len(), 1);
    assert_eq!(regions[0].len, TOTAL_SIZE);
}

#[test]
fn pools_are_interchangeable() {
    fn take<P: BufPool>(pool: &mut P) -> FixedBuf {
        BufPool::alloc_len(pool, 100).unwrap()
    }
    assert!(take(&mut BuddyPool::new()).capacity() >= 100);
    assert!(take(&mut HybridPool::new()).capacity() >= 100);
}

#[test]
fn bits_are_set_and_cleared() {
    let mut set = BitSet::new(100);
    assert_eq!(set.get(64), Ok(false));
    assert!(set.set(64).is_ok());
    assert_eq!(set.get(64), Ok(true));
    assert_eq!(set.get(63), Ok(false));
    assert!(set.clear(64).is_ok());
    assert_eq!(set.get(64), Ok(false));
    assert!(matches!(set.get(100), Err(OutOfBounds { .. })));
    assert!(set.set(100).is_err());
    assert!(set.clear(100).is_err());
}

#[test]
fn a_buffer_has_its_capacity_and_length() {
    let mut buf = FixedBuf::new(4096, 8192, 3, 7);
    assert_eq!(buf.len(), 8192);
    buf.set_len(12);
    assert_eq!(buf.len(), 12);
    assert_eq!(buf.capacity(), 8192);
    assert_eq!(buf.buf_index(), 3);
}
