//! The free-list strategy once more, with the chain kept in a vector
//! beside the heap instead of in its free memory.
//!
//! This is the strategy at its plainest: what it hands out depends on the
//! chain alone. It needs a heap of its own for the vector, so it serves
//! where one exists, and as the model that the allocator with the chain in
//! the heap is held against.

use super::align::lemma_align_up_spec;
use super::{AddrRegion, Allocator, Layout, NODE_ALIGN};
use super::chain::{
    alloc_from_region_spec, alloc_spec, dealloc_spec, first_fit, lemma_first_fit,
    lemma_multiple_of_node_align, lemma_size_align, regions_valid, size_align_spec, FreeRegion,
};
use vstd::arithmetic::power2::is_pow2;
use vstd::prelude::*;

verus! {

/// The record of one free region: where it starts and how large it is.
pub struct CaseNode {
    addr: usize,
    size: usize,
}

impl CaseNode {
    /// The region that the node records.
    pub closed spec fn region(&self) -> FreeRegion {
        FreeRegion { start: self.addr, size: self.size }
    }

    /// A node for the region of `size` bytes at `addr`.
    pub fn new(addr: usize, size: usize) -> (node: Self)
        ensures
            node.region() == (FreeRegion { start: addr, size }),
    {
        CaseNode { addr, size }
    }

    /// First address of the region.
    pub fn start_addr(&self) -> (addr: usize)
        ensures
            addr == self.region().start,
    {
        self.addr
    }

    /// One past the last address of the region.
    pub fn end_addr(&self) -> (addr: usize)
        requires
            self.region().end() <= usize::MAX,
        ensures
            addr == self.region().end(),
    {
        self.addr + self.size
    }
}

/// The free-list heap strategy over a vector of nodes. The first node of
/// the vector is the front of the chain. The allocator never looks at the
/// memory of the heap that it hands out.
pub struct CaseAllocator {
    nodes: Vec<CaseNode>,
}

impl CaseAllocator {
    /// An allocator without any free region.
    pub fn new() -> (allocator: Self)
        ensures
            allocator.free_regions() == Seq::<FreeRegion>::empty(),
            allocator.wf(),
    {
        let allocator = CaseAllocator { nodes: Vec::new() };
        assert(allocator.free_regions() =~= Seq::<FreeRegion>::empty());
        allocator
    }

    /// Hands the heap `[heap_start, heap_start + heap_size)` to the
    /// allocator as one free region.
    pub fn init(&mut self, heap_start: usize, heap_size: usize)
        requires
            old(self).wf(),
            (FreeRegion { start: heap_start, size: heap_size }).valid(),
        ensures
            final(self).free_regions() == seq![FreeRegion { start: heap_start, size: heap_size }]
                + old(self).free_regions(),
            final(self).wf(),
    {
        self.add_free_region(heap_start, heap_size);
    }

    /// Allocates a block for `layout` and returns its address, or `None`
    /// if no free region can hold it.
    pub fn allocate(&mut self, layout: Layout) -> (addr: Option<usize>)
        requires
            old(self).wf(),
            layout.fits_node(),
        ensures
            final(self).wf(),
            (final(self).free_regions(), addr) == alloc_spec(old(self).free_regions(), layout),
    {
        let (size, align) = Self::size_align(layout);
        proof {
            lemma_size_align(layout);
            lemma_first_fit(self.free_regions(), size, align);
        }
        if let Some(found) = self.find_free_region(size, align) {
            let AddrRegion { addr_region, alloc_addr } = found;
            proof {
                lemma_align_up_spec(addr_region.region().start as int, align as int);
            }
            let alloc_end = alloc_addr + size;
            let excess_size = addr_region.end_addr() - alloc_end;
            if excess_size > 0 {
                proof {
                    lemma_multiple_of_node_align(alloc_addr as int, align);
                }
                self.add_free_region(alloc_end, excess_size);
            }
            Some(alloc_addr)
        } else {
            None
        }
    }

    /// Takes back the block of `layout` at `addr`: it becomes the first
    /// free region of the chain.
    pub fn deallocate(&mut self, addr: usize, layout: Layout)
        requires
            old(self).wf(),
            layout.fits_node(),
            addr as int % NODE_ALIGN as int == 0,
            addr + size_align_spec(layout).0 <= usize::MAX,
        ensures
            final(self).wf(),
            final(self).free_regions() == dealloc_spec(old(self).free_regions(), addr, layout),
    {
        let (size, _align) = Self::size_align(layout);
        proof {
            lemma_size_align(layout);
        }
        self.add_free_region(addr, size)
    }
}

impl Allocator<CaseNode> for CaseAllocator {
    closed spec fn free_regions(&self) -> Seq<FreeRegion> {
        Seq::new(self.nodes.len() as nat, |i: int| self.nodes[i].region())
    }

    open spec fn node_region(node: &CaseNode) -> FreeRegion {
        node.region()
    }

    open spec fn wf(&self) -> bool {
        regions_valid(self.free_regions())
    }

    open spec fn accepts(&self, region: FreeRegion) -> bool {
        region.valid()
    }

    fn add_free_region(&mut self, heap_start: usize, heap_size: usize) {
        let node = CaseNode::new(heap_start, heap_size);
        self.nodes.insert(0, node);
        proof {
            let region = FreeRegion { start: heap_start, size: heap_size };
            assert(self.free_regions() =~= seq![region] + old(self).free_regions());
            assert forall|i: int| 0 <= i < self.free_regions().len() implies (
            #[trigger] self.free_regions()[i]).valid() by {
                if i > 0 {
                    assert(self.free_regions()[i] == old(self).free_regions()[i - 1]);
                }
            }
        }
    }

    fn find_free_region(&mut self, size: usize, align: usize) -> (found: Option<
        AddrRegion<CaseNode>,
    >) {
        let mut index: usize = 0;
        while index < self.nodes.len()
            invariant
                index <= self.nodes.len(),
                *self == *old(self),
                regions_valid(self.free_regions()),
                is_pow2(align as int),
                forall|j: int|
                    0 <= j < index ==> alloc_from_region_spec(
                        #[trigger] self.free_regions()[j],
                        size,
                        align,
                    ) is Err,
            decreases self.nodes.len() - index,
        {
            assert(self.free_regions()[index as int].valid());
            if let Ok(alloc_addr) = Self::alloc_from_region(&self.nodes[index], size, align) {
                // The region suits the allocation: take its node off the chain.
                let addr_region = self.nodes.remove(index);
                proof {
                    let regions = old(self).free_regions();
                    lemma_first_fit(regions, size, align);
                    let first = first_fit(regions, size, align)->0;
                    if first > index {
                        assert(alloc_from_region_spec(regions[index as int], size, align) is Err);
                    }
                    assert(self.free_regions() =~= regions.remove(index as int));
                    assert forall|i: int| 0 <= i < self.free_regions().len() implies (
                    #[trigger] self.free_regions()[i]).valid() by {
                        let i0 = if i < index { i } else { i + 1 };
                        assert(self.free_regions()[i] == regions[i0]);
                    }
                }
                return Some(AddrRegion::new(addr_region, alloc_addr));
            }
            index += 1;
        }
        proof {
            lemma_first_fit(self.free_regions(), size, align);
        }
        None
    }

    fn alloc_from_region(region: &CaseNode, size: usize, align: usize) -> (start: Result<
        usize,
        (),
    >) {
        super::fit_in_region(FreeRegion { start: region.addr, size: region.size }, size, align)
    }

    fn size_align(layout: Layout) -> (reserved: (usize, usize)) {
        super::reserve_for(layout)
    }
}

} // verus!
