//! Heap allocation: the request layout, the interface of the strategies
//! that keep a chain of free regions, and the setup of the kernel heap.

use align::{
    align_up_spec, lemma_align_up_mask, lemma_align_up_overflow, lemma_align_up_spec,
    lemma_pow2_bounds, lemma_pow2_exponent, lemma_single_bit_is_pow2,
};
use chain::{
    alloc_from_region_spec, first_fit, lemma_node_align_is_pow2, size_align_spec, FreeRegion,
};
use crate::addr::{lemma_page_start, page_start_spec, Page, PhysFrame, VirtAddr, PAGE_SIZE};
use crate::memory::FrameAllocator;
use crate::paging::{PageTableFlags, ADDRESS_MASK, PRESENT, WRITABLE};
use vstd::arithmetic::power2::{is_pow2, lemma_pow2_pos};
use vstd::prelude::*;

pub mod align;
pub mod bump;
pub mod case;
pub mod chain;
pub mod fixed_size_block;
pub mod heap;
pub mod linked_list;

verus! {

/// First address of the kernel heap, a canonical virtual address.
pub const HEAP_START: u64 = 0x_4444_4444_0000;

/// Size of the kernel heap in bytes: 100 KiB.
pub const HEAP_SIZE: usize = 100 * 1024;

/// How many pages the heap spans.
pub const HEAP_PAGES: u64 = 25;

/// Size in bytes of the header that describes a free region: two machine
/// words, the region's size and the link to the next region.
pub const NODE_SIZE: usize = 16;

/// Alignment in bytes of the header that describes a free region.
pub const NODE_ALIGN: usize = 8;

/// Size and alignment of a requested block of memory.
#[derive(Clone, Copy, Debug, PartialEq, Eq, Structural)]
pub struct Layout {
    pub size: usize,
    pub align: usize,
}

/// The alignment is a power of two, and the size, rounded up to it, does
/// not exceed `isize::MAX`.
pub open spec fn valid_size_align(size: usize, align: usize) -> bool {
    &&& is_pow2(align as int)
    &&& size <= isize::MAX - (align - 1)
}

impl Layout {
    /// Size and alignment are a valid pair.
    pub open spec fn wf(self) -> bool {
        valid_size_align(self.size, self.align)
    }

    /// The layout of `size` bytes at `align`, if the pair is valid.
    pub fn from_size_align(size: usize, align: usize) -> (layout: Option<Layout>)
        ensures
            valid_size_align(size, align) <==> layout is Some,
            layout is Some ==> layout->0 == (Layout { size, align }),
    {
        if !is_power_of_two(align) {
            return None;
        }
        proof {
            lemma_pow2_bounds(align);
        }
        if size <= (isize::MAX as usize) - (align - 1) {
            Some(Layout { size, align })
        } else {
            None
        }
    }

    /// How many bytes are requested.
    pub fn size(&self) -> (size: usize)
        ensures
            size == self.size,
    {
        self.size
    }

    /// The power of two that the address of the block is a multiple of.
    pub fn align(&self) -> (align: usize)
        ensures
            align == self.align,
    {
        self.align
    }

    /// The layout can be padded to carry a header: it is valid, and stays
    /// valid when its alignment is raised to that of a header.
    pub open spec fn fits_node(self) -> bool {
        &&& self.wf()
        &&& valid_size_align(self.size, NODE_ALIGN)
    }
}

/// Whether `n` is a power of two, by the test `n & (n - 1) == 0`.
pub fn is_power_of_two(n: usize) -> (b: bool)
    ensures
        b == is_pow2(n as int),
{
    proof {
        lemma_single_bit_is_pow2(n);
    }
    n != 0 && n & (n - 1) == 0
}

/// Rounds `addr` up to the next multiple of `align`, by masking.
pub fn align_up(addr: usize, align: usize) -> (aligned: usize)
    requires
        is_pow2(align as int),
        addr + align - 1 <= usize::MAX,
    ensures
        aligned == align_up_spec(addr as int, align as int),
{
    proof {
        let k = lemma_pow2_exponent(align);
        lemma_pow2_pos(k);
        lemma_align_up_mask(addr, align);
    }
    (addr + (align - 1)) & !(align - 1)
}

/// Where an allocation of `size` bytes at `align` starts in `region`, or
/// `Err` if the region cannot hold it.
fn fit_in_region(region: FreeRegion, size: usize, align: usize) -> (start: Result<usize, ()>)
    requires
        region.end() <= usize::MAX,
        is_pow2(align as int),
    ensures
        start == alloc_from_region_spec(region, size, align),
{
    proof {
        lemma_pow2_bounds(align);
        lemma_align_up_overflow(region.start, align);
        lemma_align_up_spec(region.start as int, align as int);
    }
    if region.start > usize::MAX - (align - 1) {
        return Err(());
    }
    let region_end = region.start + region.size;
    let alloc_start = align_up(region.start, align);
    let alloc_end = match alloc_start.checked_add(size) {
        Some(end) => end,
        None => {
            return Err(());
        },
    };
    if alloc_end > region_end {
        return Err(());
    }
    let excess_size = region_end - alloc_end;
    if excess_size > 0 && excess_size < NODE_SIZE {
        // The rest of the region is too small to carry a header.
        return Err(());
    }
    Ok(alloc_start)
}

/// Size and alignment to reserve for a request, so that the block can
/// carry a header once it is free again.
fn reserve_for(layout: Layout) -> (reserved: (usize, usize))
    requires
        layout.fits_node(),
    ensures
        reserved == size_align_spec(layout),
{
    proof {
        lemma_node_align_is_pow2();
        lemma_pow2_bounds(layout.align);
    }
    let align = if layout.align() > NODE_ALIGN {
        layout.align()
    } else {
        NODE_ALIGN
    };
    let padded = align_up(layout.size(), align);
    let size = if padded > NODE_SIZE {
        padded
    } else {
        NODE_SIZE
    };
    (size, align)
}

/// A free region that was taken off the chain for an allocation, and the
/// address inside it at which the allocation starts.
pub struct AddrRegion<N> {
    pub addr_region: N,
    pub alloc_addr: usize,
}

impl<N> AddrRegion<N> {
    /// The region of `addr_region`, with an allocation that starts at
    /// `alloc_addr`.
    pub fn new(addr_region: N, alloc_addr: usize) -> (found: Self)
        ensures
            found.addr_region == addr_region,
            found.alloc_addr == alloc_addr,
    {
        AddrRegion { addr_region, alloc_addr }
    }
}

/// What every strategy that keeps a chain of free regions can do.
///
/// `N` is the strategy's node: the record of one free region.
pub trait Allocator<N> {
    /// The free regions of the chain, first to last.
    spec fn free_regions(&self) -> Seq<FreeRegion>;

    /// The region that a node records.
    spec fn node_region(node: &N) -> FreeRegion;

    /// What holds of the strategy between calls.
    spec fn wf(&self) -> bool;

    /// The region can join the chain.
    spec fn accepts(&self, region: FreeRegion) -> bool;

    /// Puts the region `[heap_start, heap_start + heap_size)` at the front
    /// of the chain.
    fn add_free_region(&mut self, heap_start: usize, heap_size: usize)
        requires
            old(self).wf(),
            old(self).accepts(FreeRegion { start: heap_start, size: heap_size }),
        ensures
            final(self).wf(),
            final(self).free_regions() == seq![FreeRegion { start: heap_start, size: heap_size }]
                + old(self).free_regions(),
    ;

    /// Takes the first region that can hold `size` bytes at `align` off
    /// the chain, and returns it with the address of the allocation. The
    /// chain is unchanged if no region fits.
    fn find_free_region(&mut self, size: usize, align: usize) -> (found: Option<AddrRegion<N>>)
        requires
            old(self).wf(),
            is_pow2(align as int),
        ensures
            final(self).wf(),
            match first_fit(old(self).free_regions(), size, align) {
                Some(i) => {
                    &&& found is Some
                    &&& Self::node_region(&found->0.addr_region) == old(self).free_regions()[i]
                    &&& Ok::<usize, ()>(found->0.alloc_addr) == alloc_from_region_spec(
                        old(self).free_regions()[i],
                        size,
                        align,
                    )
                    &&& final(self).free_regions() == old(self).free_regions().remove(i)
                },
                None => found is None && final(self).free_regions() == old(self).free_regions(),
            },
    ;

    /// Where an allocation of `size` bytes at `align` starts in the
    /// node's region, or `Err` if it does not fit.
    fn alloc_from_region(region: &N, size: usize, align: usize) -> (start: Result<usize, ()>)
        requires
            Self::node_region(region).end() <= usize::MAX,
            is_pow2(align as int),
        ensures
            start == alloc_from_region_spec(Self::node_region(region), size, align),
    ;

    /// Size and alignment to reserve for a request.
    fn size_align(layout: Layout) -> (reserved: (usize, usize))
        requires
            layout.fits_node(),
        ensures
            reserved == size_align_spec(layout),
    ;
}

/// The start address of heap page `index`: the pages of the heap are those
/// from the page of its first byte to the page of its last byte.
pub open spec fn heap_page_spec(index: int) -> u64 {
    (HEAP_START + index * PAGE_SIZE) as u64
}

/// The heap starts on a page boundary, its last byte lies in its last
/// page, and it can be handed to a strategy as one free region.
pub proof fn lemma_heap_pages()
    ensures
        page_start_spec(HEAP_START) == heap_page_spec(0),
        page_start_spec((HEAP_START + HEAP_SIZE - 1) as u64) == heap_page_spec(HEAP_PAGES - 1),
        HEAP_START as int % NODE_ALIGN as int == 0,
        HEAP_SIZE >= NODE_SIZE,
{
    assert(0x_4444_4444_0000u64 & !0xfffu64 == 0x_4444_4444_0000u64) by (bit_vector);
    assert((0x_4444_4444_0000u64 + 102400 - 1) as u64 & !0xfffu64 == 0x_4444_4444_0000u64 + 24
        * 4096) by (bit_vector);
}

/// Why a page could not be mapped.
#[derive(Clone, Copy, Debug, PartialEq, Eq, Structural)]
pub enum MapToError {
    /// No frame was left for the heap, or for a page table on the way.
    FrameAllocationFailed,
    /// A table above the page is covered by a huge page.
    ParentEntryHugePage,
    /// The page is mapped already, to this frame.
    PageAlreadyMapped(PhysFrame),
}

/// One mapping that the heap needs: `page` is to be mapped to `frame` with
/// `flags`.
#[derive(Clone, Copy, Debug)]
pub struct HeapMapping {
    pub page: Page,
    pub frame: PhysFrame,
    pub flags: PageTableFlags,
}

/// What is to be done next to set up the heap.
#[derive(Clone, Copy, Debug)]
pub enum HeapInitStep {
    /// Install this mapping, flush the translation cache for its page, and
    /// put on record how it went.
    MapPage(HeapMapping),
    /// Nothing is left to do. On `Ok` every page of the heap is mapped and
    /// the heap can be handed to a strategy.
    Done(Result<(), MapToError>),
}

/// How far the setup of the heap has come.
pub struct HeapInit {
    mapped: u64,
    failure: Option<MapToError>,
}

impl HeapInit {
    #[verifier::type_invariant]
    spec fn in_range(self) -> bool {
        self.mapped <= HEAP_PAGES
    }

    /// For how many pages of the heap a mapping was handed out.
    pub closed spec fn mapped(self) -> int {
        self.mapped as int
    }

    /// Why a mapping that was handed out could not be installed, if one
    /// could not.
    pub closed spec fn failure(self) -> Option<MapToError> {
        self.failure
    }

    /// The setup at its start: no page is mapped, and nothing has failed.
    pub fn new() -> (progress: HeapInit)
        ensures
            progress.mapped() == 0,
            progress.failure() is None,
    {
        HeapInit { mapped: 0, failure: None }
    }

    /// Takes note of how the mapping that was handed out last went. The
    /// first failure stays on record.
    pub fn record(&mut self, outcome: Result<(), MapToError>)
        ensures
            final(self).mapped() == old(self).mapped(),
            final(self).failure() == match (old(self).failure(), outcome) {
                (None, Err(error)) => Some(error),
                _ => old(self).failure(),
            },
    {
        proof {
            use_type_invariant(&*self);
        }
        if self.failure.is_none() {
            if let Err(error) = outcome {
                self.failure = Some(error);
            }
        }
    }
}

/// The next step in setting up the heap.
///
/// The pages of the heap are mapped from the lowest up, each to the next
/// frame of `frame_allocator`, present and writable. Once all are handed
/// out the setup is done. It ends with an error as soon as a mapping
/// could not be installed or no frame is left.
pub fn init_heap<A: FrameAllocator>(progress: &mut HeapInit, frame_allocator: &mut A) -> (step:
    HeapInitStep)
    requires
        old(frame_allocator).wf(),
    ensures
        final(frame_allocator).wf(),
        final(progress).failure() == old(progress).failure(),
        0 <= old(progress).mapped() <= HEAP_PAGES,
        if let Some(error) = old(progress).failure() {
            &&& step matches HeapInitStep::Done(Err(reported))
            &&& reported == error
            &&& final(progress).mapped() == old(progress).mapped()
            &&& final(frame_allocator).remaining() == old(frame_allocator).remaining()
        } else if old(progress).mapped() == HEAP_PAGES {
            &&& step matches HeapInitStep::Done(Ok(_))
            &&& final(progress).mapped() == old(progress).mapped()
            &&& final(frame_allocator).remaining() == old(frame_allocator).remaining()
        } else if old(frame_allocator).remaining().len() == 0 {
            &&& step matches HeapInitStep::Done(Err(MapToError::FrameAllocationFailed))
            &&& final(progress).mapped() == old(progress).mapped()
            &&& final(frame_allocator).remaining() == old(frame_allocator).remaining()
        } else {
            &&& step matches HeapInitStep::MapPage(mapping)
            &&& mapping.page@ == heap_page_spec(old(progress).mapped())
            &&& mapping.frame@ == old(frame_allocator).remaining()[0]
            &&& mapping.flags@ == PRESENT | WRITABLE
            &&& final(progress).mapped() == old(progress).mapped() + 1
            &&& final(frame_allocator).remaining() == old(frame_allocator).remaining().drop_first()
        },
{
    proof {
        use_type_invariant(&*progress);
    }
    if let Some(error) = progress.failure {
        return HeapInitStep::Done(Err(error));
    }
    if progress.mapped == HEAP_PAGES {
        return HeapInitStep::Done(Ok(()));
    }
    let frame = match frame_allocator.allocate_frame() {
        Some(frame) => frame,
        None => {
            return HeapInitStep::Done(Err(MapToError::FrameAllocationFailed));
        },
    };
    let addr = HEAP_START + progress.mapped * PAGE_SIZE;
    proof {
        lemma_page_start(addr);
        assert(addr % PAGE_SIZE == 0);
        assert((PRESENT | WRITABLE) & !ADDRESS_MASK == PRESENT | WRITABLE) by (bit_vector);
    }
    let page = Page::containing_address(VirtAddr::new(addr));
    let flags = PageTableFlags::from_bits_truncate(PRESENT | WRITABLE);
    progress.mapped = progress.mapped + 1;
    HeapInitStep::MapPage(HeapMapping { page, frame, flags })
}

} // verus!
