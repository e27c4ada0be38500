use kros::allocator::fixed_size_block::{
    block_size, list_index, reserved, FixedSizeBlockAllocator, BLOCK_CLASSES, BLOCK_SIZES,
};
use kros::allocator::Layout;

const HEAP: usize = 0x4444_4444_0000;

/// Memory for a heap of `size` bytes.
fn memory(size: usize) -> Vec<u64> {
    vec![0xdead_beef_dead_beef; size / 8]
}

fn layout(size: usize, align: usize) -> Layout {
    Layout::from_size_align(size, align).unwrap()
}

#[test]
fn block_sizes_double_from_8_to_2048() {
    let sizes: Vec<usize> = (0..BLOCK_CLASSES).map(block_size).collect();
    assert_eq!(sizes, vec![8, 16, 32, 64, 128, 256, 512, 1024, 2048]);
    assert_eq!(sizes, BLOCK_SIZES);
}

#[test]
fn list_index_picks_the_smallest_class_that_fits() {
    assert_eq!(list_index(&layout(0, 1)), Some(0));
    assert_eq!(list_index(&layout(1, 1)), Some(0));
    assert_eq!(list_index(&layout(8, 8)), Some(0));
    assert_eq!(list_index(&layout(9, 1)), Some(1));
    assert_eq!(list_index(&layout(1, 16)), Some(1));
    assert_eq!(list_index(&layout(17, 4)), Some(2));
    assert_eq!(list_index(&layout(100, 8)), Some(4));
    assert_eq!(list_index(&layout(8, 512)), Some(6));
    assert_eq!(list_index(&layout(2048, 8)), Some(8));
    assert_eq!(list_index(&layout(1, 2048)), Some(8));
}

#[test]
fn list_index_has_no_class_for_large_requests() {
    assert_eq!(list_index(&layout(2049, 1)), None);
    assert_eq!(list_index(&layout(1, 4096)), None);
    assert_eq!(list_index(&layout(100_000, 8)), None);
}

#[test]
fn empty_size_class_allocator_fails() {
    let mut allocator = FixedSizeBlockAllocator::new();
    assert_eq!(allocator.allocate(layout(8, 8)), None);
    assert_eq!(allocator.allocate(layout(4096, 8)), None);
}

#[test]
fn blocks_are_aligned_to_the_size_of_their_class() {
    let mut heap = memory(100 * 1024 - 8);
    let mut allocator = FixedSizeBlockAllocator::new();
    allocator.init(HEAP + 8, &mut heap);
    for round in 0..3 {
        let mut blocks = Vec::new();
        for size in [1usize, 8, 9, 24, 33, 100, 129, 500, 513, 1025, 2048] {
            let request = layout(size, 1);
            let index = list_index(&request).unwrap();
            let addr = allocator.allocate(request).unwrap();
            assert_eq!(addr % block_size(index), 0, "round {round}, size {size}");
            blocks.push((addr, request));
        }
        for (addr, request) in blocks {
            allocator.deallocate(addr, request);
        }
    }
}

#[test]
fn returned_block_is_the_next_of_its_class() {
    let mut heap = memory(100 * 1024);
    let mut allocator = FixedSizeBlockAllocator::new();
    allocator.init(HEAP, &mut heap);
    let a = allocator.allocate(layout(20, 4)).unwrap();
    let b = allocator.allocate(layout(32, 8)).unwrap();
    assert_ne!(a, b);
    allocator.deallocate(a, layout(20, 4));
    allocator.deallocate(b, layout(32, 8));
    // both are blocks of 32 bytes: the one that came back last goes out first
    assert_eq!(allocator.allocate(layout(17, 1)), Some(b));
    assert_eq!(allocator.allocate(layout(30, 2)), Some(a));
    // another class does not see them
    allocator.deallocate(a, layout(20, 4));
    let c = allocator.allocate(layout(64, 8)).unwrap();
    assert_ne!(c, a);
}

#[test]
fn large_requests_go_to_the_free_list() {
    let mut heap = memory(100 * 1024);
    let mut allocator = FixedSizeBlockAllocator::new();
    allocator.init(HEAP, &mut heap);
    let big = allocator.allocate(layout(4096, 8)).unwrap();
    assert_eq!(big, HEAP);
    let next = allocator.allocate(layout(3000, 8)).unwrap();
    assert_eq!(next, HEAP + 4096);
    allocator.deallocate(big, layout(4096, 8));
    assert_eq!(allocator.allocate(layout(4096, 4096)), Some(big));
    assert_eq!(allocator.allocate(layout(200 * 1024, 8)), None);
}

#[test]
fn free_blocks_are_linked_through_their_first_word() {
    let mut heap = memory(4096);
    let mut allocator = FixedSizeBlockAllocator::new();
    allocator.init(HEAP, &mut heap);
    let a = allocator.allocate(layout(64, 8)).unwrap();
    let b = allocator.allocate(layout(64, 8)).unwrap();
    let c = allocator.allocate(layout(64, 8)).unwrap();
    allocator.write(a, 1);
    allocator.write(b, 2);
    allocator.write(c, 3);
    allocator.deallocate(a, layout(64, 8));
    assert_eq!(allocator.read(a), 0);
    allocator.deallocate(c, layout(64, 8));
    assert_eq!(allocator.read(c), a as u64);
    assert_eq!(allocator.read(b), 2);
    assert_eq!(allocator.allocate(layout(64, 8)), Some(c));
    assert_eq!(allocator.allocate(layout(64, 8)), Some(a));
    assert_eq!(allocator.read(b), 2);
}

#[test]
fn reserved_size_is_that_of_the_class_or_of_the_free_list() {
    assert_eq!(reserved(&layout(1, 1)), 8);
    assert_eq!(reserved(&layout(8, 8)), 8);
    assert_eq!(reserved(&layout(9, 1)), 16);
    assert_eq!(reserved(&layout(100, 8)), 128);
    assert_eq!(reserved(&layout(24, 256)), 256);
    assert_eq!(reserved(&layout(2048, 8)), 2048);
    assert_eq!(reserved(&layout(2049, 8)), 2056);
    assert_eq!(reserved(&layout(3000, 64)), 3008);
    assert_eq!(reserved(&layout(8, 4096)), 4096);
}

#[test]
fn size_class_allocator_knows_its_heap() {
    let mut heap = memory(1024);
    let mut allocator = FixedSizeBlockAllocator::new();
    assert!(!allocator.owns(HEAP, 8));
    allocator.init(HEAP, &mut heap);
    assert!(allocator.owns(HEAP, 1024));
    assert!(!allocator.owns(HEAP, 1025));
    assert!(!allocator.owns(HEAP + 1024, 1));
}
