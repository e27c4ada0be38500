use kros::allocator::case::CaseAllocator;
use kros::allocator::fixed_size_block::{list_index, reserved, FixedSizeBlockAllocator};
use kros::allocator::linked_list::LinkListAllocator;
use kros::allocator::{Allocator, Layout};

const HEAP: usize = 0x4444_4444_0000;
const SIZE: usize = 64 * 1024;

/// A small generator of numbers that look random and are the same in
/// every run.
struct Numbers(u64);

impl Numbers {
    fn next(&mut self) -> usize {
        self.0 = self.0.wrapping_mul(6364136223846793005).wrapping_add(1442695040888963407);
        (self.0 >> 33) as usize
    }

    fn layout(&mut self) -> Layout {
        let align = 1usize << (self.next() % 8);
        let size = match self.next() % 4 {
            0 => self.next() % 16,
            1 => self.next() % 256,
            2 => 8 * (self.next() % 64),
            _ => self.next() % 5000,
        };
        Layout::from_size_align(size, align).unwrap()
    }
}

fn overlap(a: (usize, usize), b: (usize, usize)) -> bool {
    a.0 < b.0 + b.1 && b.0 < a.0 + a.1
}

#[test]
fn chain_in_the_heap_behaves_as_the_chain_beside_it() {
    let mut memory = vec![0u64; SIZE / 8];
    let mut linked = LinkListAllocator::new();
    linked.init(HEAP, &mut memory);
    let mut model = CaseAllocator::new();
    model.init(HEAP, SIZE);

    let mut numbers = Numbers(1);
    let mut blocks: Vec<(usize, Layout)> = Vec::new();
    let mut served = 0;
    for _ in 0..20_000 {
        if blocks.is_empty() || numbers.next() % 5 < 3 {
            let layout = numbers.layout();
            let addr = linked.allocate(layout);
            assert_eq!(addr, model.allocate(layout));
            if let Some(addr) = addr {
                let (size, align) = LinkListAllocator::size_align(layout);
                assert_eq!(addr % align, 0);
                assert!(linked.owns(addr, size));
                for (other, other_layout) in &blocks {
                    let (other_size, _) = LinkListAllocator::size_align(*other_layout);
                    assert!(!overlap((addr, size), (*other, other_size)));
                }
                // fill the block, so that a header in it would be destroyed
                for word in 0..size / 8 {
                    linked.write(addr + 8 * word, u64::MAX);
                }
                blocks.push((addr, layout));
                served += 1;
            }
        } else {
            let (addr, layout) = blocks.swap_remove(numbers.next() % blocks.len());
            linked.deallocate(addr, layout);
            model.deallocate(addr, layout);
        }
    }
    assert!(served > 5_000);
    for (addr, layout) in blocks {
        linked.deallocate(addr, layout);
        model.deallocate(addr, layout);
    }
    for _ in 0..100 {
        let layout = numbers.layout();
        assert_eq!(linked.allocate(layout), model.allocate(layout));
    }
}

#[test]
fn size_classes_hand_out_blocks_that_do_not_overlap() {
    let mut memory = vec![0u64; SIZE / 8];
    let mut heap = FixedSizeBlockAllocator::new();
    heap.init(HEAP, &mut memory);

    let mut numbers = Numbers(2);
    let mut blocks: Vec<(usize, Layout, u64)> = Vec::new();
    let mut served = 0;
    for round in 0..20_000u64 {
        if blocks.is_empty() || numbers.next() % 5 < 3 {
            let layout = numbers.layout();
            if let Some(addr) = heap.allocate(layout) {
                let size = reserved(&layout);
                assert_eq!(addr % layout.align(), 0);
                assert!(size >= layout.size());
                assert!(heap.owns(addr, size));
                for (other, other_layout, _) in &blocks {
                    assert!(!overlap((addr, size), (*other, reserved(other_layout))));
                }
                for word in 0..size / 8 {
                    heap.write(addr + 8 * word, round);
                }
                blocks.push((addr, layout, round));
                served += 1;
            }
        } else {
            let (addr, layout, mark) = blocks.swap_remove(numbers.next() % blocks.len());
            // nothing wrote into the block while it was out
            for word in 0..reserved(&layout) / 8 {
                assert_eq!(heap.read(addr + 8 * word), mark);
            }
            heap.deallocate(addr, layout);
        }
    }
    assert!(served > 5_000);
}

#[test]
fn size_classes_serve_again_what_they_served_before() {
    let mut memory = vec![0u64; SIZE / 8];
    let mut heap = FixedSizeBlockAllocator::new();
    heap.init(HEAP, &mut memory);
    let mut numbers = Numbers(3);
    let requests: Vec<Layout> = (0..200).map(|_| numbers.layout()).collect();
    let first: Vec<Option<usize>> = requests.iter().map(|layout| heap.allocate(*layout)).collect();
    assert!(first.iter().filter(|addr| addr.is_some()).count() > 50);
    for (addr, layout) in first.iter().zip(&requests) {
        if let Some(addr) = addr {
            heap.deallocate(*addr, *layout);
        }
    }
    // what a size class served, it serves again, from the blocks that came
    // back; a larger request may find the regions behind in pieces too small
    let mut again = Vec::new();
    for (addr, layout) in first.iter().zip(&requests) {
        if addr.is_some() && list_index(layout).is_some() {
            let block = heap.allocate(*layout).expect("a size class has run dry");
            assert!(first.contains(&Some(block)));
            assert!(!again.contains(&block));
            again.push(block);
        }
    }
    assert!(again.len() > 30);
}
