use kros::allocator::bump::BumpAllocator;
use kros::allocator::case::CaseAllocator;
use kros::allocator::fixed_size_block::FixedSizeBlockAllocator;
use kros::allocator::linked_list::LinkListAllocator;
use kros::allocator::{Layout, HEAP_SIZE, HEAP_START};

/// The strategies, each over a heap of its own. The two that keep their
/// lists in the heap hold its memory; for the others it stands beside them.
enum Strategy<'a> {
    Bump(BumpAllocator, Vec<u64>),
    LinkedList(LinkListAllocator<'a>),
    Case(CaseAllocator, Vec<u64>),
    FixedSizeBlock(FixedSizeBlockAllocator<'a>),
}

fn memory() -> Vec<u64> {
    vec![0xaaaa_aaaa_aaaa_aaaa; HEAP_SIZE / 8]
}

impl<'a> Strategy<'a> {
    fn all(first: &'a mut [u64], second: &'a mut [u64]) -> Vec<Strategy<'a>> {
        let start = HEAP_START as usize;
        let mut bump = BumpAllocator::new();
        bump.init(start, HEAP_SIZE);
        let mut linked = LinkListAllocator::new();
        linked.init(start, first);
        let mut case = CaseAllocator::new();
        case.init(start, HEAP_SIZE);
        let mut fixed = FixedSizeBlockAllocator::new();
        fixed.init(start, second);
        vec![
            Strategy::Bump(bump, memory()),
            Strategy::LinkedList(linked),
            Strategy::Case(case, memory()),
            Strategy::FixedSizeBlock(fixed),
        ]
    }

    fn allocate(&mut self, layout: Layout) -> Option<usize> {
        let addr = match self {
            Strategy::Bump(a, _) => a.allocate(layout),
            Strategy::LinkedList(a) => a.allocate(layout),
            Strategy::Case(a, _) => a.allocate(layout),
            Strategy::FixedSizeBlock(a) => a.allocate(layout),
        };
        if let Some(addr) = addr {
            assert_eq!(addr % layout.align(), 0);
            assert!(addr >= HEAP_START as usize);
            assert!(addr + layout.size() <= HEAP_START as usize + HEAP_SIZE);
        }
        addr
    }

    fn deallocate(&mut self, addr: usize, layout: Layout) {
        match self {
            Strategy::Bump(a, _) => a.deallocate(addr, layout),
            Strategy::LinkedList(a) => a.deallocate(addr, layout),
            Strategy::Case(a, _) => a.deallocate(addr, layout),
            Strategy::FixedSizeBlock(a) => a.deallocate(addr, layout),
        }
    }

    fn write(&mut self, addr: usize, value: u64) {
        match self {
            Strategy::Bump(_, words) | Strategy::Case(_, words) => {
                words[(addr - HEAP_START as usize) / 8] = value
            }
            Strategy::LinkedList(a) => a.write(addr, value),
            Strategy::FixedSizeBlock(a) => a.write(addr, value),
        }
    }

    fn read(&self, addr: usize) -> u64 {
        match self {
            Strategy::Bump(_, words) | Strategy::Case(_, words) => {
                words[(addr - HEAP_START as usize) / 8]
            }
            Strategy::LinkedList(a) => a.read(addr),
            Strategy::FixedSizeBlock(a) => a.read(addr),
        }
    }
}

fn word() -> Layout {
    Layout::from_size_align(8, 8).unwrap()
}

#[test]
fn simple_allocation() {
    let (mut first, mut second) = (memory(), memory());
    for mut heap in Strategy::all(&mut first, &mut second) {
        let x = heap.allocate(word()).unwrap();
        heap.write(x, 5);
        assert_eq!(heap.read(x), 5);
        heap.deallocate(x, word());
    }
}

#[test]
fn large_vec() {
    let (mut first, mut second) = (memory(), memory());
    for mut heap in Strategy::all(&mut first, &mut second) {
        let n: u64 = 1000;
        // a vector that doubles its block when it is full
        let mut block: Option<(usize, usize)> = None;
        let mut len: usize = 0;
        for i in 0..n {
            let capacity = block.map_or(0, |(_, capacity)| capacity);
            if len == capacity {
                let grown = if capacity == 0 { 4 } else { 2 * capacity };
                let layout = Layout::from_size_align(grown * 8, 8).unwrap();
                let addr = heap.allocate(layout).unwrap();
                if let Some((old, old_capacity)) = block {
                    for k in 0..len {
                        let value = heap.read(old + 8 * k);
                        heap.write(addr + 8 * k, value);
                    }
                    heap.deallocate(old, Layout::from_size_align(old_capacity * 8, 8).unwrap());
                }
                block = Some((addr, grown));
            }
            heap.write(block.unwrap().0 + 8 * len, i);
            len += 1;
        }
        let (addr, capacity) = block.unwrap();
        assert_eq!(capacity, 1024);
        let sum: u64 = (0..len).map(|k| heap.read(addr + 8 * k)).sum();
        assert_eq!(sum, (n - 1) * n / 2);
        assert_eq!(sum, 499500);
    }
}

#[test]
fn many_boxes() {
    let (mut first, mut second) = (memory(), memory());
    for mut heap in Strategy::all(&mut first, &mut second) {
        for i in 0..HEAP_SIZE {
            let x = heap.allocate(word()).expect("an allocation in the loop failed");
            heap.write(x, i as u64);
            assert_eq!(heap.read(x), i as u64);
            heap.deallocate(x, word());
        }
    }
}

#[test]
fn many_boxes_long_lived() {
    // one block stays while the others come and go
    let (mut first, mut second) = (memory(), memory());
    for mut heap in Strategy::all(&mut first, &mut second) {
        if matches!(heap, Strategy::Bump(..)) {
            // the bump strategy takes nothing back while a block is out
            continue;
        }
        let long_lived = heap.allocate(word()).unwrap();
        heap.write(long_lived, 1);
        for i in 0..HEAP_SIZE {
            let x = heap.allocate(word()).unwrap();
            heap.write(x, i as u64);
            assert_eq!(heap.read(x), i as u64);
            heap.deallocate(x, word());
        }
        assert_eq!(heap.read(long_lived), 1);
    }
}

#[test]
fn bump_heap_runs_full_while_a_block_is_out() {
    let mut bump = BumpAllocator::new();
    bump.init(HEAP_START as usize, HEAP_SIZE);
    let long_lived = bump.allocate(word()).unwrap();
    let mut served = 0;
    for _ in 0..HEAP_SIZE {
        match bump.allocate(word()) {
            Some(x) => {
                served += 1;
                bump.deallocate(x, word());
            }
            None => break,
        }
    }
    assert_eq!(served, HEAP_SIZE / 8 - 1);
    bump.deallocate(long_lived, word());
    assert_eq!(bump.allocate(word()), Some(HEAP_START as usize));
}

#[test]
fn whole_heap_can_be_allocated_at_once() {
    let (mut first, mut second) = (memory(), memory());
    for mut heap in Strategy::all(&mut first, &mut second) {
        let all = Layout::from_size_align(HEAP_SIZE, 4096).unwrap();
        assert_eq!(heap.allocate(all), Some(HEAP_START as usize));
        assert_eq!(heap.allocate(word()), None);
        heap.deallocate(HEAP_START as usize, all);
        assert_eq!(heap.allocate(all), Some(HEAP_START as usize));
    }
}

#[test]
fn request_larger_than_the_heap_fails() {
    let (mut first, mut second) = (memory(), memory());
    for mut heap in Strategy::all(&mut first, &mut second) {
        let too_large = Layout::from_size_align(HEAP_SIZE + 1, 8).unwrap();
        assert_eq!(heap.allocate(too_large), None);
        assert!(heap.allocate(word()).is_some());
    }
}
