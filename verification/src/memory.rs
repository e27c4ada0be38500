//! The map of physical memory and the allocators of physical frames.

use crate::addr::{lemma_page_start, PhysAddr, PhysFrame, PAGE_SIZE};
use vstd::prelude::*;

verus! {

/// One past the largest frame number: frame numbers have 40 bits, as
/// physical addresses have 52.
pub const FRAME_NUMBER_LIMIT: u64 = 0x100_0000_0000;

/// What a region of physical memory is used for.
#[derive(Clone, Copy, Debug, PartialEq, Eq, Structural)]
pub enum MemoryRegionType {
    /// Unused memory, free for the kernel to use.
    Usable,
    /// Memory that is already in use.
    InUse,
    /// Memory reserved by the hardware.
    Reserved,
    /// ACPI reclaimable memory.
    AcpiReclaimable,
    /// ACPI NVS memory.
    AcpiNvs,
    /// Memory with defects.
    BadMemory,
    /// Memory that holds the kernel.
    Kernel,
    /// Memory that holds the kernel stack.
    KernelStack,
    /// Memory that holds page tables.
    PageTable,
    /// Memory used by the boot loader.
    Bootloader,
    /// The frame at address zero.
    FrameZero,
    /// A region without frames.
    Empty,
    /// Memory that holds the boot information.
    BootInfo,
    /// Memory that holds a package handed over at boot.
    Package,
    /// Any use that is not known here.
    NonExhaustive,
}

/// A range of frames, by frame number: from `start_frame_number` up to,
/// but not including, `end_frame_number`.
#[derive(Clone, Copy, Debug, PartialEq, Eq, Structural)]
pub struct FrameRange {
    pub start_frame_number: u64,
    pub end_frame_number: u64,
}

impl FrameRange {
    /// How many frames the range holds.
    pub open spec fn count(self) -> nat {
        if self.end_frame_number > self.start_frame_number {
            (self.end_frame_number - self.start_frame_number) as nat
        } else {
            0
        }
    }

    /// Both bounds are frame numbers.
    pub open spec fn valid(self) -> bool {
        self.start_frame_number <= FRAME_NUMBER_LIMIT && self.end_frame_number
            <= FRAME_NUMBER_LIMIT
    }

    /// The start addresses of the frames of the range, lowest first.
    pub open spec fn frames(self) -> Seq<u64> {
        Seq::new(self.count(), |k: int| ((self.start_frame_number + k) * PAGE_SIZE) as u64)
    }

    /// No frame belongs to both ranges.
    pub open spec fn disjoint(self, other: FrameRange) -> bool {
        self.count() == 0 || other.count() == 0 || self.end_frame_number
            <= other.start_frame_number || other.end_frame_number <= self.start_frame_number
    }

    /// The physical address at which the range starts.
    pub fn start_addr(&self) -> (addr: u64)
        requires
            self.valid(),
        ensures
            addr == self.start_frame_number * PAGE_SIZE,
    {
        self.start_frame_number * PAGE_SIZE
    }

    /// The physical address at which the range ends.
    pub fn end_addr(&self) -> (addr: u64)
        requires
            self.valid(),
        ensures
            addr == self.end_frame_number * PAGE_SIZE,
    {
        self.end_frame_number * PAGE_SIZE
    }

    /// Whether the range holds no frame at all.
    pub fn is_empty(&self) -> (empty: bool)
        ensures
            empty == (self.start_frame_number == self.end_frame_number),
    {
        self.start_frame_number == self.end_frame_number
    }
}

/// A region of physical memory and its use.
#[derive(Clone, Copy, Debug, PartialEq, Eq, Structural)]
pub struct MemoryRegion {
    pub range: FrameRange,
    pub region_type: MemoryRegionType,
}

impl MemoryRegion {
    /// The start addresses of the frames that the region offers: those of
    /// its range if it is usable, else none.
    pub open spec fn usable_frames(self) -> Seq<u64> {
        if self.region_type == MemoryRegionType::Usable {
            self.range.frames()
        } else {
            Seq::empty()
        }
    }
}

/// The start addresses of all frames that the map offers: the frames of
/// its usable regions, region by region in the order of the map, within a
/// region from the lowest address up.
pub open spec fn usable_frames(memory_map: Seq<MemoryRegion>) -> Seq<u64>
    decreases memory_map.len(),
{
    if memory_map.len() == 0 {
        Seq::empty()
    } else {
        usable_frames(memory_map.drop_last()) + memory_map.last().usable_frames()
    }
}

/// The ranges of all usable regions are valid, and the number of frames
/// they offer fits in a `usize`.
pub open spec fn memory_map_valid(memory_map: Seq<MemoryRegion>) -> bool {
    &&& forall|i: int|
        0 <= i < memory_map.len() && (#[trigger] memory_map[i]).region_type
            == MemoryRegionType::Usable ==> memory_map[i].range.valid()
    &&& usable_frames(memory_map).len() <= usize::MAX
}

/// No frame belongs to two usable regions of the map.
pub open spec fn usable_regions_disjoint(memory_map: Seq<MemoryRegion>) -> bool {
    forall|i: int, j: int|
        0 <= i < j < memory_map.len() && (#[trigger] memory_map[i]).region_type
            == MemoryRegionType::Usable && (#[trigger] memory_map[j]).region_type
            == MemoryRegionType::Usable ==> memory_map[i].range.disjoint(memory_map[j].range)
}

/// The frames of a longer prefix of the map are those of the shorter one
/// and then those of the region that was added.
pub proof fn lemma_usable_frames_step(memory_map: Seq<MemoryRegion>, i: int)
    requires
        0 <= i < memory_map.len(),
    ensures
        usable_frames(memory_map.take(i + 1)) == usable_frames(memory_map.take(i))
            + memory_map[i].usable_frames(),
        usable_frames(memory_map.take(i)).len() <= usable_frames(memory_map).len(),
    decreases memory_map.len() - i,
{
    assert(memory_map.take(i + 1).drop_last() =~= memory_map.take(i));
    assert(memory_map.take(i + 1).last() == memory_map[i]);
    if i + 1 < memory_map.len() {
        lemma_usable_frames_step(memory_map, i + 1);
    } else {
        assert(memory_map.take(i + 1) =~= memory_map);
    }
}

/// Every frame that the map offers is a frame of one of its usable
/// regions.
pub proof fn lemma_usable_frame_origin(memory_map: Seq<MemoryRegion>, index: int) -> (origin: (
    int,
    int,
))
    requires
        0 <= index < usable_frames(memory_map).len(),
    ensures
        0 <= origin.0 < memory_map.len(),
        memory_map[origin.0].region_type == MemoryRegionType::Usable,
        0 <= origin.1 < memory_map[origin.0].range.count(),
        usable_frames(memory_map)[index] == memory_map[origin.0].range.frames()[origin.1],
        usable_frames(memory_map.take(origin.0)).len() + origin.1 == index,
    decreases memory_map.len(),
{
    let before = memory_map.drop_last();
    let last = memory_map.len() - 1;
    assert(memory_map.take(last) =~= before);
    if index < usable_frames(before).len() {
        let origin = lemma_usable_frame_origin(before, index);
        assert(before.take(origin.0) =~= memory_map.take(origin.0));
        origin
    } else {
        (last, index - usable_frames(before).len())
    }
}

/// Where no frame belongs to two usable regions, the map offers no frame
/// twice.
pub proof fn lemma_usable_frames_distinct(memory_map: Seq<MemoryRegion>, i: int, j: int)
    requires
        memory_map_valid(memory_map),
        usable_regions_disjoint(memory_map),
        0 <= i < j < usable_frames(memory_map).len(),
    ensures
        usable_frames(memory_map)[i] != usable_frames(memory_map)[j],
{
    let a = lemma_usable_frame_origin(memory_map, i);
    let b = lemma_usable_frame_origin(memory_map, j);
    let ra = memory_map[a.0].range;
    let rb = memory_map[b.0].range;
    let fa = ra.start_frame_number + a.1;
    let fb = rb.start_frame_number + b.1;
    assert(usable_frames(memory_map)[i] == fa * PAGE_SIZE);
    assert(usable_frames(memory_map)[j] == fb * PAGE_SIZE);
    if a.0 == b.0 {
        assert(a.1 != b.1);
    } else if a.0 < b.0 {
        assert(ra.disjoint(rb));
    } else {
        assert(rb.disjoint(ra));
    }
    assert(fa != fb);
}

/// Whether the map is valid: a frame allocator can be set up over it.
pub fn is_valid_memory_map(memory_map: &[MemoryRegion]) -> (valid: bool)
    ensures
        valid == memory_map_valid(memory_map@),
{
    let mut total: usize = 0;
    let mut i: usize = 0;
    while i < memory_map.len()
        invariant
            i <= memory_map.len(),
            total == usable_frames(memory_map@.take(i as int)).len(),
            forall|k: int|
                0 <= k < i && (#[trigger] memory_map@[k]).region_type == MemoryRegionType::Usable
                    ==> memory_map@[k].range.valid(),
        decreases memory_map.len() - i,
    {
        proof {
            lemma_usable_frames_step(memory_map@, i as int);
        }
        let region = &memory_map[i];
        match region.region_type {
            MemoryRegionType::Usable => {
                let range = region.range;
                if range.start_frame_number > FRAME_NUMBER_LIMIT || range.end_frame_number
                    > FRAME_NUMBER_LIMIT {
                    return false;
                }
                if range.end_frame_number > range.start_frame_number {
                    let count = range.end_frame_number - range.start_frame_number;
                    if count > (usize::MAX - total) as u64 {
                        proof {
                            lemma_usable_frames_prefix(memory_map@, i as int + 1);
                        }
                        return false;
                    }
                    total = total + count as usize;
                }
            },
            _ => {},
        }
        i += 1;
    }
    proof {
        assert(memory_map@.take(i as int) =~= memory_map@);
    }
    true
}

/// What hands out frames of physical memory, one at a time.
pub trait FrameAllocator {
    /// What must hold of the allocator between calls.
    spec fn wf(&self) -> bool;

    /// The start addresses of the frames that are still to be handed out,
    /// in the order in which they will be.
    spec fn remaining(&self) -> Seq<u64>;

    /// Hands out the next frame, or `None` once there is none left.
    fn allocate_frame(&mut self) -> (frame: Option<PhysFrame>)
        requires
            old(self).wf(),
        ensures
            final(self).wf(),
            match frame {
                Some(frame) => {
                    &&& old(self).remaining().len() > 0
                    &&& frame@ == old(self).remaining()[0]
                    &&& final(self).remaining() == old(self).remaining().drop_first()
                },
                None => {
                    &&& old(self).remaining().len() == 0
                    &&& final(self).remaining() == old(self).remaining()
                },
            },
    ;
}

/// A frame allocator that has no frame to hand out.
pub struct EmptyFrameAllocator;

impl FrameAllocator for EmptyFrameAllocator {
    open spec fn wf(&self) -> bool {
        true
    }

    open spec fn remaining(&self) -> Seq<u64> {
        Seq::empty()
    }

    fn allocate_frame(&mut self) -> (frame: Option<PhysFrame>) {
        None
    }
}

/// A frame allocator that hands out the usable frames of the memory map
/// that the boot loader passed on, each of them once.
pub struct BootInfoFrameAllocator<'a> {
    memory_map: &'a [MemoryRegion],
    next: usize,
}

impl<'a> BootInfoFrameAllocator<'a> {
    /// The memory map that the allocator works on.
    pub closed spec fn memory_map(&self) -> Seq<MemoryRegion> {
        self.memory_map@
    }

    /// How often the allocator was asked for a frame: the position in the
    /// map's frames of the frame that it hands out next.
    pub closed spec fn spec_next(&self) -> usize {
        self.next
    }

    /// How often the allocator was asked for a frame.
    #[verifier::when_used_as_spec(spec_next)]
    pub fn next(&self) -> (next: usize)
        ensures
            next == self.next(),
    {
        self.next
    }

    /// A frame allocator over `memory_map` that has handed out nothing.
    pub fn init(memory_map: &'a [MemoryRegion]) -> (allocator: Self)
        requires
            memory_map_valid(memory_map@),
        ensures
            allocator.wf(),
            allocator.memory_map() == memory_map@,
            allocator.next() == 0,
            allocator.remaining() == usable_frames(memory_map@),
    {
        let allocator = BootInfoFrameAllocator { memory_map, next: 0 };
        assert(usable_frames(memory_map@).skip(0) =~= usable_frames(memory_map@));
        assert(allocator.remaining() =~= usable_frames(memory_map@));
        allocator
    }

    /// The frame that the map offers at position `index`, or `None` if it
    /// offers no more than `index` frames.
    pub fn usable_frame(&self, index: usize) -> (frame: Option<PhysFrame>)
        requires
            memory_map_valid(self.memory_map()),
        ensures
            match frame {
                Some(frame) => index < usable_frames(self.memory_map()).len() && frame@
                    == usable_frames(self.memory_map())[index as int],
                None => index >= usable_frames(self.memory_map()).len(),
            },
    {
        let mut skip: usize = index;
        let mut i: usize = 0;
        while i < self.memory_map.len()
            invariant
                i <= self.memory_map.len(),
                memory_map_valid(self.memory_map@),
                usable_frames(self.memory_map@.take(i as int)).len() + skip == index,
            decreases self.memory_map.len() - i,
        {
            proof {
                lemma_usable_frames_step(self.memory_map@, i as int);
            }
            let region = &self.memory_map[i];
            match region.region_type {
                MemoryRegionType::Usable => {
                    let range = region.range;
                    if range.end_frame_number > range.start_frame_number {
                        let count = range.end_frame_number - range.start_frame_number;
                        if (skip as u64) < count {
                            let addr = (range.start_frame_number + skip as u64) * PAGE_SIZE;
                            proof {
                                let before = usable_frames(self.memory_map@.take(i as int));
                                let upto = usable_frames(self.memory_map@.take(i as int + 1));
                                assert(upto[index as int] == range.frames()[skip as int]);
                                lemma_usable_frames_prefix(self.memory_map@, i as int + 1);
                                lemma_page_start(addr);
                            }
                            return Some(PhysFrame::containing_address(PhysAddr::new(addr)));
                        }
                        skip = skip - count as usize;
                    }
                },
                _ => {},
            }
            i += 1;
        }
        proof {
            assert(self.memory_map@.take(i as int) =~= self.memory_map@);
        }
        None
    }
}

/// The frames of a prefix of the map are a prefix of the frames of the map.
pub proof fn lemma_usable_frames_prefix(memory_map: Seq<MemoryRegion>, i: int)
    requires
        0 <= i <= memory_map.len(),
    ensures
        usable_frames(memory_map.take(i)).len() <= usable_frames(memory_map).len(),
        forall|k: int|
            0 <= k < usable_frames(memory_map.take(i)).len() ==> usable_frames(memory_map.take(i))[k]
                == usable_frames(memory_map)[k],
    decreases memory_map.len() - i,
{
    if i < memory_map.len() {
        lemma_usable_frames_step(memory_map, i);
        lemma_usable_frames_prefix(memory_map, i + 1);
    } else {
        assert(memory_map.take(i) =~= memory_map);
    }
}

impl<'a> FrameAllocator for BootInfoFrameAllocator<'a> {
    /// The memory map is valid.
    open spec fn wf(&self) -> bool {
        memory_map_valid(self.memory_map())
    }

    /// The frames of the map from position `next` on; none once `next` has
    /// passed the last of them.
    open spec fn remaining(&self) -> Seq<u64> {
        if self.next() <= usable_frames(self.memory_map()).len() {
            usable_frames(self.memory_map()).skip(self.next() as int)
        } else {
            Seq::empty()
        }
    }

    /// Hands out the frame at position `next` of the map's frames, and
    /// counts the call, whether it found a frame or not. Only at
    /// `usize::MAX` the count stays.
    fn allocate_frame(&mut self) -> (frame: Option<PhysFrame>)
        ensures
            final(self).memory_map() == old(self).memory_map(),
            final(self).next() == if old(self).next() < usize::MAX {
                old(self).next() + 1
            } else {
                old(self).next() as int
            },
            match frame {
                Some(frame) => old(self).next() < usable_frames(old(self).memory_map()).len()
                    && frame@ == usable_frames(old(self).memory_map())[old(self).next() as int],
                None => old(self).next() >= usable_frames(old(self).memory_map()).len(),
            },
    {
        let frame = self.usable_frame(self.next);
        if self.next < usize::MAX {
            self.next += 1;
        }
        proof {
            let frames = usable_frames(self.memory_map());
            if frame is Some {
                assert(self.remaining() =~= old(self).remaining().drop_first());
            } else {
                assert(old(self).remaining() =~= Seq::<u64>::empty());
                assert(self.remaining() =~= Seq::<u64>::empty());
            }
        }
        frame
    }
}

} // verus!
