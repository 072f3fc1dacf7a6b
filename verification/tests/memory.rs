use lib::memory::FixedBlockAllocator;

#[test]
fn allocator_reuses_freed_block() {
    let mut allocator = FixedBlockAllocator::<16, 2>::new();
    let first = allocator.alloc_block().expect("first block");
    let second = allocator.alloc_block().expect("second block");
    assert!(allocator.alloc_block().is_none());
    assert!(allocator.free(first));
    let third = allocator.alloc_block().expect("reused block");
    assert_eq!(allocator.block_index(first), allocator.block_index(third));
    assert!(allocator.free(second));
    assert!(allocator.free(third));
}

#[test]
fn allocator_counts_free_blocks() {
    let mut allocator = FixedBlockAllocator::<8, 3>::new();
    assert_eq!(allocator.block_size(), 8);
    assert_eq!(allocator.block_capacity(), 3);
    assert_eq!(allocator.available_blocks(), 3);
    let a = allocator.alloc_block().expect("a");
    assert_eq!(allocator.available_blocks(), 2);
    let b = allocator.alloc_block().expect("b");
    assert_eq!(allocator.block_index(a), Some(0));
    assert_eq!(allocator.block_index(b), Some(1));
    assert!(allocator.free(a));
    assert_eq!(allocator.available_blocks(), 2);
}

#[test]
fn allocator_refuses_foreign_and_double_free() {
    let mut allocator = FixedBlockAllocator::<4, 2>::new();
    let a = allocator.alloc_block().expect("a");
    assert!(allocator.free(a));
    assert!(!allocator.free(a));
    assert!(!allocator.free(lib::memory::BlockPtr(7)));
    assert_eq!(allocator.block_index(lib::memory::BlockPtr(7)), None);
}

#[test]
fn allocator_zeroes_freed_block() {
    let mut allocator = FixedBlockAllocator::<4, 1>::new();
    let a = allocator.alloc_block().expect("a");
    allocator.write_byte(a, 2, 0xAB);
    assert_eq!(allocator.block_data(a), &[0, 0, 0xAB, 0]);
    assert!(allocator.free(a));
    assert_eq!(allocator.block_data(a), &[0, 0, 0, 0]);
    let again = allocator.alloc_block().expect("again");
    assert_eq!(again, a);
    assert_eq!(allocator.block_data(again), &[0, 0, 0, 0]);
}
