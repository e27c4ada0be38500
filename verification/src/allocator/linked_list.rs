//! The free-list strategy: first fit over a chain of free regions whose
//! headers lie in the free memory itself.

use stored::{
    chain_stored, lemma_chain_empty, lemma_chain_kept, lemma_chain_node, lemma_chain_push,
    lemma_chain_regions, lemma_chain_unlink, lemma_rest_is_free, lemma_tail_is_disjoint,
    region_in_heap,
};
use super::align::lemma_align_up_spec;
use super::{AddrRegion, Allocator, Layout, NODE_ALIGN, NODE_SIZE};
use super::chain::{
    alloc_from_region_spec, alloc_spec, dealloc_spec, disjoint_from_all, first_fit, free_bytes,
    is_free, lemma_allocated_block_leaves_chain, lemma_first_fit, lemma_multiple_of_node_align,
    lemma_size_align, size_align_spec, FreeRegion,
};
use super::heap::{HeapMemory, WORD_SIZE};
use vstd::arithmetic::power2::is_pow2;
use vstd::prelude::*;

pub mod stored;

verus! {

/// The header of a free region: the size of the region and the address of
/// the header that follows it in the chain, or zero if none follows. In
/// memory the header takes the first two words of its region; here it
/// stands with the address that it was read from.
pub struct ListNode {
    addr: usize,
    size: usize,
    next: usize,
}

impl ListNode {
    /// The region that the node records.
    pub closed spec fn region(&self) -> FreeRegion {
        FreeRegion { start: self.addr, size: self.size }
    }

    /// The address of the header that follows, or zero.
    pub closed spec fn next(&self) -> usize {
        self.next
    }

    /// A node for the region of `size` bytes at `addr`, with no successor.
    pub fn new(addr: usize, size: usize) -> (node: Self)
        ensures
            node.region() == (FreeRegion { start: addr, size }),
            node.next() == 0,
    {
        ListNode { addr, size, next: 0 }
    }

    /// First address of the region.
    pub fn start_addr(&self) -> (addr: usize)
        ensures
            addr == self.region().start,
    {
        self.addr
    }

    /// One past the last address of the region.
    pub fn end_addr(&self) -> (addr: usize)
        requires
            self.region().end() <= usize::MAX,
        ensures
            addr == self.region().end(),
    {
        self.addr + self.size
    }
}

/// The free-list heap strategy.
///
/// Free regions form a chain behind a sentinel head. Each region carries
/// its header in its own first two words, so the chain needs no memory
/// besides the heap. A request takes the first region that fits; a block
/// that is returned goes to the front of the chain. Neighbouring free
/// regions are never merged.
pub struct LinkListAllocator<'a> {
    head: ListNode,
    heap: HeapMemory<'a>,
    regions: Ghost<Seq<FreeRegion>>,
}

impl<'a> LinkListAllocator<'a> {
    /// The memory of the heap.
    pub closed spec fn memory(&self) -> &HeapMemory<'a> {
        &self.heap
    }

    /// The address of the first region of the chain, or zero.
    pub closed spec fn first(&self) -> usize {
        self.head.next
    }

    /// An allocator without heap and without any free region.
    pub fn new() -> (allocator: Self)
        ensures
            allocator.wf(),
            allocator.free_regions() == Seq::<FreeRegion>::empty(),
            allocator.memory().words().len() == 0,
    {
        let allocator = LinkListAllocator {
            head: ListNode::new(0, 0),
            heap: HeapMemory::empty(),
            regions: Ghost(Seq::empty()),
        };
        proof {
            lemma_chain_empty(allocator.memory());
        }
        allocator
    }

    /// Hands the heap to the allocator: the memory `heap`, whose first
    /// word has the address `heap_start`. All of it is one free region.
    pub fn init(&mut self, heap_start: usize, heap: &'a mut [u64])
        requires
            old(self).wf(),
            old(self).free_regions().len() == 0,
            heap_start != 0,
            heap_start as int % NODE_ALIGN as int == 0,
            heap_start + WORD_SIZE * old(heap)@.len() <= usize::MAX,
            WORD_SIZE * old(heap)@.len() >= NODE_SIZE,
        ensures
            final(self).wf(),
            final(self).memory().start() == heap_start,
            final(self).memory().words().len() == old(heap)@.len(),
            final(self).free_regions() == seq![
                FreeRegion { start: heap_start, size: (WORD_SIZE * old(heap)@.len()) as usize },
            ],
    {
        proof {
            lemma_chain_regions(self.memory(), self.first(), self.free_regions());
        }
        self.heap = HeapMemory::new(heap_start, heap);
        proof {
            assert(self.free_regions() =~= Seq::<FreeRegion>::empty());
            lemma_chain_empty(self.memory());
        }
        let heap_size = self.heap.size();
        self.add_free_region(heap_start, heap_size);
    }

    /// Allocates a block for `layout` and returns its address, or `None`
    /// if no free region can hold it. Memory that was not free is left as
    /// it is.
    pub fn allocate(&mut self, layout: Layout) -> (addr: Option<usize>)
        requires
            old(self).wf(),
            layout.fits_node(),
        ensures
            final(self).wf(),
            (final(self).free_regions(), addr) == alloc_spec(old(self).free_regions(), layout),
            final(self).memory().same_but(old(self).memory(), free_bytes(old(self).free_regions())),
            addr matches Some(block) ==> final(self).accepts(
                FreeRegion { start: block, size: size_align_spec(layout).0 },
            ),
    {
        let (size, align) = Self::size_align(layout);
        let ghost before = self.free_regions();
        proof {
            lemma_size_align(layout);
            lemma_first_fit(before, size, align);
            lemma_chain_regions(self.memory(), self.first(), before);
        }
        if let Some(found) = self.find_free_region(size, align) {
            let AddrRegion { addr_region, alloc_addr } = found;
            let ghost i = first_fit(before, size, align)->0;
            proof {
                lemma_align_up_spec(before[i].start as int, align as int);
                lemma_rest_is_free(before, i);
                lemma_allocated_block_leaves_chain(before, layout);
                lemma_multiple_of_node_align(alloc_addr as int, align);
                lemma_chain_node(old(self).memory(), old(self).first(), before, i);
            }
            let alloc_end = alloc_addr + size;
            let excess_size = addr_region.end_addr() - alloc_end;
            if excess_size > 0 {
                proof {
                    lemma_multiple_of_node_align(alloc_addr as int, align);
                    lemma_tail_is_disjoint(
                        before,
                        i,
                        FreeRegion { start: alloc_end, size: excess_size },
                    );
                }
                self.add_free_region(alloc_end, excess_size);
                proof {
                    assert(before[i].start <= alloc_end < before[i].end());
                    assert(before[i].start <= alloc_end + WORD_SIZE < before[i].end());
                }
            }
            proof {
                let block = FreeRegion { start: alloc_addr, size };
                assert forall|j: int| 0 <= j < self.free_regions().len() implies block.disjoint(
                    #[trigger] self.free_regions()[j],
                ) by {}
            }
            Some(alloc_addr)
        } else {
            None
        }
    }

    /// Takes back the block of `layout` at `addr`: it becomes the first
    /// free region of the chain. Memory outside the block is left as it is.
    pub fn deallocate(&mut self, addr: usize, layout: Layout)
        requires
            old(self).wf(),
            layout.fits_node(),
            old(self).accepts(FreeRegion { start: addr, size: size_align_spec(layout).0 }),
        ensures
            final(self).wf(),
            final(self).free_regions() == dealloc_spec(old(self).free_regions(), addr, layout),
            final(self).memory().same_but(
                old(self).memory(),
                set![addr as int, addr + WORD_SIZE],
            ),
    {
        let (size, _align) = Self::size_align(layout);
        self.add_free_region(addr, size)
    }

    /// Whether the `size` bytes from `addr` on all lie in the heap.
    pub fn owns(&self, addr: usize, size: usize) -> (inside: bool)
        requires
            self.wf(),
        ensures
            inside == (self.memory().start() <= addr && addr + size <= self.memory().end()),
    {
        self.heap.spans(addr, size)
    }

    /// Reads the word at `addr` of the heap.
    pub fn read(&self, addr: usize) -> (word: u64)
        requires
            self.wf(),
            self.memory().holds(addr as int),
        ensures
            word == self.memory().word(addr as int),
    {
        self.heap.read(addr)
    }

    /// Writes `value` to the word at `addr` of the heap, which must not
    /// be free. The chain and every other word stay.
    pub fn write(&mut self, addr: usize, value: u64)
        requires
            old(self).wf(),
            old(self).memory().holds(addr as int),
            !is_free(old(self).free_regions(), addr as int),
        ensures
            final(self).wf(),
            final(self).free_regions() == old(self).free_regions(),
            final(self).memory().word(addr as int) == value,
            final(self).memory().same_but(old(self).memory(), set![addr as int]),
    {
        self.heap.write(addr, value);
        proof {
            lemma_chain_kept(
                old(self).memory(),
                self.memory(),
                self.first(),
                self.free_regions(),
                set![addr as int],
            );
        }
    }
}

impl<'a> Allocator<ListNode> for LinkListAllocator<'a> {
    closed spec fn free_regions(&self) -> Seq<FreeRegion> {
        self.regions@
    }

    open spec fn node_region(node: &ListNode) -> FreeRegion {
        node.region()
    }

    /// The memory of the heap holds the chain of the free regions.
    open spec fn wf(&self) -> bool {
        &&& self.memory().wf()
        &&& chain_stored(self.memory(), self.first(), self.free_regions())
    }

    /// A region can join the chain if it is valid, lies in the heap, and
    /// shares no byte with a region that is free already.
    open spec fn accepts(&self, region: FreeRegion) -> bool {
        &&& region.valid()
        &&& region_in_heap(self.memory(), region)
        &&& disjoint_from_all(region, self.free_regions())
    }

    fn add_free_region(&mut self, heap_start: usize, heap_size: usize)
        ensures
            final(self).memory().same_but(
                old(self).memory(),
                set![heap_start as int, heap_start + WORD_SIZE],
            ),
    {
        let ghost region = FreeRegion { start: heap_start, size: heap_size };
        // Write the header into the region, and put it before the chain.
        self.heap.write(heap_start, heap_size as u64);
        self.heap.write(heap_start + WORD_SIZE, self.head.next as u64);
        proof {
            lemma_chain_push(
                old(self).memory(),
                self.memory(),
                self.first(),
                self.free_regions(),
                region,
            );
        }
        self.head.next = heap_start;
        self.regions = Ghost(seq![region] + self.regions@);
    }

    fn find_free_region(&mut self, size: usize, align: usize) -> (found: Option<
        AddrRegion<ListNode>,
    >)
        ensures
            found is Some ==> found->0.addr_region.next() == 0,
            final(self).memory().same_but(old(self).memory(), free_bytes(old(self).free_regions())),
    {
        let ghost regions = self.regions@;
        // The node before the current one, or zero for the head.
        let mut previous: usize = 0;
        let mut current: usize = self.head.next;
        let ghost mut index: int = 0;
        proof {
            lemma_chain_regions(self.memory(), self.first(), regions);
            if regions.len() > 0 {
                lemma_chain_node(self.memory(), self.first(), regions, 0);
            }
        }
        while current != 0
            invariant
                self.memory().wf(),
                chain_stored(self.memory(), self.first(), regions),
                self.regions@ == regions,
                old(self).free_regions() == regions,
                *self.memory() == *old(self).memory(),
                self.first() == old(self).first(),
                is_pow2(align as int),
                0 <= index <= regions.len(),
                current == if index < regions.len() {
                    regions[index].start
                } else {
                    0
                },
                index < regions.len() ==> regions[index].start != 0,
                previous == if index > 0 {
                    regions[index - 1].start
                } else {
                    0
                },
                index > 0 ==> regions[index - 1].start != 0,
                forall|j: int|
                    0 <= j < index ==> alloc_from_region_spec(#[trigger] regions[j], size, align)
                        is Err,
            decreases regions.len() - index,
        {
            proof {
                lemma_chain_node(self.memory(), self.first(), regions, index);
            }
            let node_size = self.heap.read(current) as usize;
            let node_next = self.heap.read(current + WORD_SIZE) as usize;
            let node = ListNode { addr: current, size: node_size, next: 0 };
            if let Ok(alloc_addr) = Self::alloc_from_region(&node, size, align) {
                // The region suits the allocation: take its node off the chain.
                if previous == 0 {
                    self.head.next = node_next;
                } else {
                    proof {
                        lemma_chain_node(self.memory(), self.first(), regions, index - 1);
                    }
                    self.heap.write(previous + WORD_SIZE, node_next as u64);
                }
                self.regions = Ghost(regions.remove(index));
                proof {
                    lemma_chain_unlink(
                        old(self).memory(),
                        self.memory(),
                        old(self).first(),
                        self.first(),
                        regions,
                        index,
                    );
                    lemma_first_fit(regions, size, align);
                    let first = first_fit(regions, size, align)->0;
                    if first > index {
                        assert(alloc_from_region_spec(regions[index], size, align) is Err);
                    }
                }
                return Some(AddrRegion::new(node, alloc_addr));
            }
            previous = current;
            current = node_next;
            proof {
                index = index + 1;
                if index < regions.len() {
                    lemma_chain_node(self.memory(), self.first(), regions, index);
                }
            }
        }
        proof {
            lemma_first_fit(regions, size, align);
        }
        None
    }

    fn alloc_from_region(region: &ListNode, size: usize, align: usize) -> (start: Result<
        usize,
        (),
    >) {
        super::fit_in_region(FreeRegion { start: region.addr, size: region.size }, size, align)
    }

    fn size_align(layout: Layout) -> (reserved: (usize, usize)) {
        super::reserve_for(layout)
    }
}

} // verus!
