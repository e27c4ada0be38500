use kros::allocator::bump::BumpAllocator;
use kros::allocator::Layout;

const HEAP: usize = 0x4444_4444_0000;

fn layout(size: usize, align: usize) -> Layout {
    Layout::from_size_align(size, align).unwrap()
}

#[test]
fn empty_bump_allocator_fails() {
    let mut bump = BumpAllocator::new();
    assert_eq!(bump.allocate(layout(1, 1)), None);
    // a block of no bytes fits in a heap of no bytes
    assert_eq!(bump.allocate(layout(0, 1)), Some(0));
}

#[test]
fn bump_allocations_follow_each_other() {
    let mut bump = BumpAllocator::new();
    bump.init(HEAP, 1024);
    assert_eq!(bump.allocate(layout(8, 8)), Some(HEAP));
    assert_eq!(bump.allocate(layout(3, 1)), Some(HEAP + 8));
    assert_eq!(bump.allocate(layout(8, 8)), Some(HEAP + 16));
    assert_eq!(bump.allocate(layout(1, 256)), Some(HEAP + 256));
    assert_eq!(bump.allocate(layout(767, 1)), Some(HEAP + 257));
    assert_eq!(bump.allocate(layout(1, 1)), None);
    assert_eq!(bump.allocate(layout(0, 1)), Some(HEAP + 1024));
}

#[test]
fn bump_fails_behind_the_heap_end() {
    let mut bump = BumpAllocator::new();
    bump.init(HEAP, 64);
    assert_eq!(bump.allocate(layout(65, 1)), None);
    assert_eq!(bump.allocate(layout(64, 1)), Some(HEAP));
    assert_eq!(bump.allocate(layout(1, 1)), None);
}

#[test]
fn bump_fails_when_the_address_space_ends() {
    let mut bump = BumpAllocator::new();
    bump.init(usize::MAX - 100, 100);
    assert_eq!(bump.allocate(layout(10, 1)), Some(usize::MAX - 100));
    // the next aligned address would lie beyond the address space
    assert_eq!(bump.allocate(layout(8, 4096)), None);
    assert_eq!(bump.allocate(layout(isize::MAX as usize, 1)), None);
    assert_eq!(bump.allocate(layout(90, 1)), Some(usize::MAX - 90));
}

#[test]
fn bump_cursor_returns_when_all_blocks_are_back() {
    let mut bump = BumpAllocator::new();
    bump.init(HEAP, 1024);
    assert_eq!(bump.allocations(), 0);
    let mut blocks = Vec::new();
    for i in 0..10usize {
        blocks.push(bump.allocate(layout(8 + i, 8)).unwrap());
    }
    assert_eq!(bump.allocations(), 10);
    assert_eq!(bump.allocate(layout(2048, 8)), None);
    assert_eq!(bump.allocations(), 10);
    for block in blocks.iter().rev() {
        bump.deallocate(*block, layout(8, 8));
    }
    assert_eq!(bump.allocations(), 0);
    assert_eq!(bump.allocate(layout(8, 8)), Some(HEAP));
}

#[test]
fn bump_cursor_stays_while_a_block_is_out() {
    let mut bump = BumpAllocator::new();
    bump.init(HEAP, 1024);
    let first = bump.allocate(layout(8, 8)).unwrap();
    let mut last = first;
    for _ in 0..20 {
        let block = bump.allocate(layout(8, 8)).unwrap();
        assert!(block > last);
        last = block;
        bump.deallocate(block, layout(8, 8));
    }
    assert_eq!(last, HEAP + 20 * 8);
    bump.deallocate(first, layout(8, 8));
    assert_eq!(bump.allocate(layout(8, 8)), Some(HEAP));
}

#[test]
fn bump_reinit_moves_the_heap() {
    let mut bump = BumpAllocator::new();
    bump.init(HEAP, 64);
    assert_eq!(bump.allocate(layout(64, 1)), Some(HEAP));
    bump.init(HEAP + 4096, 64);
    assert_eq!(bump.allocate(layout(64, 1)), Some(HEAP + 4096));
    // two blocks are counted as outstanding
    bump.deallocate(HEAP, layout(64, 1));
    assert_eq!(bump.allocate(layout(1, 1)), None);
    bump.deallocate(HEAP + 4096, layout(64, 1));
    assert_eq!(bump.allocate(layout(1, 1)), Some(HEAP + 4096));
}
