//! Page-table entries and the walk through the four levels of page tables
//! that translates a virtual address into a physical one.

use crate::addr::{
    is_physical, page_offset_spec, page_start_spec, table_index_spec, PhysAddr, PhysFrame, VirtAddr,
    ENTRY_COUNT, PAGE_SIZE,
};
use std::collections::HashMap;
use vstd::prelude::*;

verus! {

/// Flag of an entry: what the entry refers to is in memory.
pub const PRESENT: u64 = 1;

/// Flag of an entry: writes through it are allowed.
pub const WRITABLE: u64 = 1 << 1;

/// Flag of an entry: user mode may access what it refers to.
pub const USER_ACCESSIBLE: u64 = 1 << 2;

/// Flag of an entry: the entry maps a huge frame, not a page table.
pub const HUGE_PAGE: u64 = 1 << 7;

/// Flag of an entry: no code may be run from what it maps.
pub const NO_EXECUTE: u64 = 1 << 63;

/// The bits of an entry that hold the physical address: bits 12 to 51.
pub const ADDRESS_MASK: u64 = 0x000f_ffff_ffff_f000;

/// Size in bytes of a page-table entry.
pub const ENTRY_SIZE: u64 = 8;

/// Why an entry refers to no 4 KiB frame.
#[derive(Clone, Copy, Debug, PartialEq, Eq, Structural)]
pub enum FrameError {
    /// The entry is not marked present.
    FrameNotPresent,
    /// The entry is marked as mapping a huge frame.
    HugeFrame,
}

/// The frame that an entry refers to, by its start address: an entry that
/// is not present refers to none, nor does one that maps a huge frame.
pub open spec fn entry_frame_spec(entry: u64) -> Result<u64, FrameError> {
    if entry & PRESENT == 0 {
        Err(FrameError::FrameNotPresent)
    } else if entry & HUGE_PAGE != 0 {
        Err(FrameError::HugeFrame)
    } else {
        Ok(entry & ADDRESS_MASK)
    }
}

/// The address bits of an entry are the start address of a frame.
pub proof fn lemma_entry_address(entry: u64)
    ensures
        is_physical(entry & ADDRESS_MASK),
        (entry & ADDRESS_MASK) % PAGE_SIZE == 0,
        page_start_spec(entry & ADDRESS_MASK) == entry & ADDRESS_MASK,
{
    let addr = entry & ADDRESS_MASK;
    assert(addr == entry & 0x000f_ffff_ffff_f000 ==> addr < 0x0010_0000_0000_0000 && addr % 4096
        == 0 && addr & !0xfffu64 == addr) by (bit_vector);
}

/// The flags of a page-table entry: every bit of an entry that is not part
/// of the address.
#[derive(Clone, Copy, Debug, PartialEq, Eq, Structural)]
pub struct PageTableFlags {
    bits: u64,
}

impl View for PageTableFlags {
    type V = u64;

    closed spec fn view(&self) -> u64 {
        self.bits
    }
}

impl PageTableFlags {
    #[verifier::type_invariant]
    spec fn no_address_bits(self) -> bool {
        self.bits & ADDRESS_MASK == 0
    }

    /// The flags among `bits`: the address bits are dropped.
    pub fn from_bits_truncate(bits: u64) -> (flags: PageTableFlags)
        ensures
            flags@ == bits & !ADDRESS_MASK,
    {
        assert((bits & !0x000f_ffff_ffff_f000u64) & 0x000f_ffff_ffff_f000u64 == 0) by (bit_vector);
        PageTableFlags { bits: bits & !ADDRESS_MASK }
    }

    /// The flags as bits of an entry.
    pub fn bits(self) -> (bits: u64)
        ensures
            bits == self@,
            bits & ADDRESS_MASK == 0,
    {
        proof {
            use_type_invariant(&self);
        }
        self.bits
    }

    /// Whether every flag of `other` is set.
    pub fn contains(self, other: PageTableFlags) -> (all: bool)
        ensures
            all == (self@ & other@ == other@),
    {
        self.bits & other.bits == other.bits
    }
}

/// A 64-bit entry of a page table.
#[derive(Clone, Copy, Debug, PartialEq, Eq, Structural)]
pub struct PageTableEntry {
    entry: u64,
}

impl View for PageTableEntry {
    type V = u64;

    /// The entry as the hardware reads it.
    closed spec fn view(&self) -> u64 {
        self.entry
    }
}

impl PageTableEntry {
    /// An unused entry: all bits zero.
    pub fn new() -> (entry: PageTableEntry)
        ensures
            entry@ == 0,
    {
        PageTableEntry { entry: 0 }
    }

    /// The entry that the hardware holds as `bits`.
    pub fn from_bits(bits: u64) -> (entry: PageTableEntry)
        ensures
            entry@ == bits,
    {
        PageTableEntry { entry: bits }
    }

    /// The entry as the hardware reads it.
    pub fn bits(&self) -> (bits: u64)
        ensures
            bits == self@,
    {
        self.entry
    }

    /// Whether the entry is all zero.
    pub fn is_unused(&self) -> (unused: bool)
        ensures
            unused == (self@ == 0),
    {
        self.entry == 0
    }

    /// Sets the entry to zero.
    pub fn set_unused(&mut self)
        ensures
            final(self)@ == 0,
    {
        self.entry = 0;
    }

    /// The flags of the entry.
    pub fn flags(&self) -> (flags: PageTableFlags)
        ensures
            flags@ == self@ & !ADDRESS_MASK,
    {
        PageTableFlags::from_bits_truncate(self.entry)
    }

    /// The physical address that the entry holds; it may be zero.
    pub fn addr(&self) -> (addr: PhysAddr)
        ensures
            addr@ == self@ & ADDRESS_MASK,
    {
        proof {
            lemma_entry_address(self.entry);
        }
        PhysAddr::new(self.entry & ADDRESS_MASK)
    }

    /// The frame that the entry refers to.
    pub fn frame(&self) -> (frame: Result<PhysFrame, FrameError>)
        ensures
            match entry_frame_spec(self@) {
                Ok(start) => frame is Ok && frame->Ok_0@ == start,
                Err(error) => frame == Err::<PhysFrame, FrameError>(error),
            },
    {
        if self.entry & PRESENT == 0 {
            Err(FrameError::FrameNotPresent)
        } else if self.entry & HUGE_PAGE != 0 {
            Err(FrameError::HugeFrame)
        } else {
            proof {
                lemma_entry_address(self.entry);
            }
            Ok(PhysFrame::containing_address(self.addr()))
        }
    }

    /// Makes the entry refer to `frame` with `flags`.
    pub fn set_frame(&mut self, frame: PhysFrame, flags: PageTableFlags)
        ensures
            final(self)@ == frame@ | flags@,
    {
        self.entry = frame.start_address().as_u64() | flags.bits();
    }
}

/// An entry that was set to a frame with flags holds both: its address is
/// that of the frame, its flags are the flags, and it refers to the frame
/// if it is marked present and not huge.
pub proof fn lemma_set_frame(frame: u64, flags: u64)
    requires
        is_physical(frame),
        frame % PAGE_SIZE == 0,
        flags & ADDRESS_MASK == 0,
    ensures
        (frame | flags) & ADDRESS_MASK == frame,
        (frame | flags) & !ADDRESS_MASK == flags,
        flags & PRESENT != 0 && flags & HUGE_PAGE == 0 ==> entry_frame_spec(frame | flags) == Ok::<
            u64,
            FrameError,
        >(frame),
        flags & PRESENT == 0 ==> entry_frame_spec(frame | flags) == Err::<u64, FrameError>(
            FrameError::FrameNotPresent,
        ),
{
    assert(frame < 0x0010_0000_0000_0000 && frame % 4096 == 0 && flags & 0x000f_ffff_ffff_f000 == 0
        ==> (frame | flags) & 0x000f_ffff_ffff_f000 == frame && (frame | flags)
        & !0x000f_ffff_ffff_f000u64 == flags && (frame | flags) & 1 == flags & 1 && (frame | flags)
        & (1u64 << 7) == flags & (1u64 << 7)) by (bit_vector);
    assert(1u64 << 7 == 128) by (bit_vector);
}

/// What a walk through the page tables finds for a virtual address.
#[derive(Clone, Copy, Debug, PartialEq, Eq, Structural)]
pub enum WalkResult {
    /// The address is mapped to this physical address.
    Mapped(u64),
    /// An entry on the way is not present: the address is not mapped.
    NotMapped,
    /// An entry on the way maps a huge frame, which the walk cannot follow.
    HugePage,
}

/// The physical address of entry `index` of the table in the frame at
/// `table`.
pub open spec fn entry_addr_spec(table: u64, index: u16) -> u64 {
    (table + index * ENTRY_SIZE) as u64
}

/// What the walk finds from the table of `level` on, when that table is in
/// the frame at `table` and `read` gives the entry at a physical address.
///
/// The entry for the address is read from the table. If it refers to a
/// frame, that frame holds the table of the next level, or, below level 1,
/// the memory itself: the address is then mapped to the frame's start plus
/// its offset in the page.
pub open spec fn walk_spec(
    read: spec_fn(u64) -> u64,
    table: u64,
    addr: u64,
    level: int,
) -> WalkResult
    decreases level,
{
    let entry = read(entry_addr_spec(table, table_index_spec(addr, level)));
    match entry_frame_spec(entry) {
        Err(FrameError::FrameNotPresent) => WalkResult::NotMapped,
        Err(FrameError::HugeFrame) => WalkResult::HugePage,
        Ok(frame) => if level <= 1 {
            WalkResult::Mapped((frame + page_offset_spec(addr)) as u64)
        } else {
            walk_spec(read, frame, addr, level - 1)
        },
    }
}

/// The translation of `addr` by the page tables below the level 4 table in
/// the frame at `level_4_table`.
pub open spec fn translate_spec(
    read: spec_fn(u64) -> u64,
    level_4_table: u64,
    addr: u64,
) -> WalkResult {
    walk_spec(read, level_4_table, addr, 4)
}

/// A walk through the page tables for one virtual address, between two
/// reads of an entry.
#[derive(Clone, Copy, Debug)]
pub struct PageWalk {
    addr: VirtAddr,
    level: u8,
    table: PhysFrame,
}

/// How a walk goes on after an entry was read.
#[derive(Clone, Copy, Debug)]
pub enum WalkStep {
    /// The walk goes on in the table of the next level.
    Descend(PageWalk),
    /// The walk has ended with this result.
    Done(Translation),
}

/// What a walk through the page tables found for a virtual address.
#[derive(Clone, Copy, Debug, PartialEq, Eq, Structural)]
pub enum Translation {
    /// The address is mapped to this physical address.
    Mapped(PhysAddr),
    /// An entry on the way is not present: the address is not mapped.
    NotMapped,
    /// An entry on the way maps a huge frame, which the walk cannot follow.
    HugePage,
}

impl View for Translation {
    type V = WalkResult;

    open spec fn view(&self) -> WalkResult {
        match *self {
            Translation::Mapped(addr) => WalkResult::Mapped(addr@),
            Translation::NotMapped => WalkResult::NotMapped,
            Translation::HugePage => WalkResult::HugePage,
        }
    }
}

impl PageWalk {
    #[verifier::type_invariant]
    spec fn level_in_range(self) -> bool {
        1 <= self.level <= 4
    }

    /// The virtual address that the walk is for.
    pub closed spec fn addr(self) -> u64 {
        self.addr@
    }

    /// The level of the table that the walk has reached, 4 down to 1.
    pub closed spec fn level(self) -> int {
        self.level as int
    }

    /// The start address of the frame that holds that table.
    pub closed spec fn table(self) -> u64 {
        self.table@
    }

    /// What the walk will find, if `read` gives the entries it reads.
    pub open spec fn result(self, read: spec_fn(u64) -> u64) -> WalkResult {
        walk_spec(read, self.table(), self.addr(), self.level())
    }

    /// The walk for `addr` at its start: at the level 4 table, which is
    /// in `level_4_table`.
    pub fn start(addr: VirtAddr, level_4_table: PhysFrame) -> (walk: PageWalk)
        ensures
            walk.addr() == addr@,
            walk.level() == 4,
            walk.table() == level_4_table@,
    {
        PageWalk { addr, level: 4, table: level_4_table }
    }

    /// The physical address of the entry that the walk reads next.
    pub fn entry_addr(&self) -> (entry_addr: PhysAddr)
        ensures
            1 <= self.level() <= 4,
            entry_addr@ == entry_addr_spec(
                self.table(),
                table_index_spec(self.addr(), self.level()),
            ),
    {
        proof {
            use_type_invariant(self);
        }
        let index = if self.level == 4 {
            self.addr.p4_index()
        } else if self.level == 3 {
            self.addr.p3_index()
        } else if self.level == 2 {
            self.addr.p2_index()
        } else {
            self.addr.p1_index()
        };
        let table = self.table.start_address().as_u64();
        assert(table + index * ENTRY_SIZE < 0x0010_0000_0000_0000) by {
            assert(table % 4096 == 0 && table < 0x0010_0000_0000_0000 ==> table
                <= 0x0010_0000_0000_0000 - 4096) by (bit_vector);
        }
        PhysAddr::new(table + (index as u64) * ENTRY_SIZE)
    }

    /// How the walk goes on after `entry` was read at `entry_addr`.
    pub fn step(self, entry: PageTableEntry) -> (next: WalkStep)
        ensures
            match next {
                WalkStep::Descend(walk) => {
                    &&& self.level() > 1
                    &&& entry_frame_spec(entry@) == Ok::<u64, FrameError>(walk.table())
                    &&& walk.level() == self.level() - 1
                    &&& walk.addr() == self.addr()
                },
                WalkStep::Done(translation) => match entry_frame_spec(entry@) {
                    Err(FrameError::FrameNotPresent) => translation@ == WalkResult::NotMapped,
                    Err(FrameError::HugeFrame) => translation@ == WalkResult::HugePage,
                    Ok(frame) => self.level() == 1 && translation@ == WalkResult::Mapped(
                        (frame + page_offset_spec(self.addr())) as u64,
                    ),
                },
            },
            forall|read: spec_fn(u64) -> u64|
                read(entry_addr_spec(self.table(), table_index_spec(self.addr(), self.level())))
                    == entry@ ==> #[trigger] self.result(read) == match next {
                    WalkStep::Descend(walk) => walk.result(read),
                    WalkStep::Done(translation) => translation@,
                },
    {
        proof {
            use_type_invariant(self);
        }
        match entry.frame() {
            Err(FrameError::FrameNotPresent) => WalkStep::Done(Translation::NotMapped),
            Err(FrameError::HugeFrame) => WalkStep::Done(Translation::HugePage),
            Ok(frame) => {
                if self.level > 1 {
                    WalkStep::Descend(
                        PageWalk { addr: self.addr, level: self.level - 1, table: frame },
                    )
                } else {
                    let start = frame.start_address().as_u64();
                    let offset = self.addr.page_offset();
                    assert(start + offset < 0x0010_0000_0000_0000) by {
                        assert(start % 4096 == 0 && start < 0x0010_0000_0000_0000 ==> start
                            <= 0x0010_0000_0000_0000 - 4096) by (bit_vector);
                    }
                    WalkStep::Done(Translation::Mapped(PhysAddr::new(start + offset as u64)))
                }
            },
        }
    }
}

/// Page tables in physical memory: the 64-bit words at the physical
/// addresses that were written, and zero everywhere else.
pub struct PageTableMemory {
    words: HashMap<u64, u64>,
}

impl PageTableMemory {
    /// The word at each physical address.
    pub closed spec fn read_spec(&self) -> spec_fn(u64) -> u64 {
        |addr: u64|
            if self.words@.contains_key(addr) {
                self.words@[addr]
            } else {
                0
            }
    }

    /// Memory that holds zero everywhere.
    pub fn new() -> (memory: PageTableMemory)
        ensures
            forall|addr: u64| #[trigger] (memory.read_spec())(addr) == 0,
    {
        PageTableMemory { words: HashMap::new() }
    }

    /// The word at `addr`.
    pub fn read(&self, addr: PhysAddr) -> (word: u64)
        ensures
            word == (self.read_spec())(addr@),
    {
        broadcast use vstd::std_specs::hash::group_hash_axioms;

        let key = addr.as_u64();
        match self.words.get(&key) {
            Some(word) => *word,
            None => 0,
        }
    }

    /// Writes `word` at `addr`.
    pub fn write(&mut self, addr: PhysAddr, word: u64)
        ensures
            forall|other: u64| #[trigger]
                (final(self).read_spec())(other) == if other == addr@ {
                    word
                } else {
                    (old(self).read_spec())(other)
                },
    {
        broadcast use vstd::std_specs::hash::group_hash_axioms;

        self.words.insert(addr.as_u64(), word);
    }

    /// Writes `entry` as entry `index` of the table in `table`.
    pub fn set_entry(&mut self, table: PhysFrame, index: u16, entry: PageTableEntry)
        requires
            index < ENTRY_COUNT,
        ensures
            forall|other: u64| #[trigger]
                (final(self).read_spec())(other) == if other == entry_addr_spec(table@, index) {
                    entry@
                } else {
                    (old(self).read_spec())(other)
                },
    {
        let start = table.start_address().as_u64();
        assert(start + index * ENTRY_SIZE < 0x0010_0000_0000_0000) by {
            assert(start % 4096 == 0 && start < 0x0010_0000_0000_0000 ==> start
                <= 0x0010_0000_0000_0000 - 4096) by (bit_vector);
        }
        self.write(PhysAddr::new(start + (index as u64) * ENTRY_SIZE), entry.bits());
    }

    /// Walks the page tables below `level_4_table` for `addr`.
    pub fn walk(&self, addr: VirtAddr, level_4_table: PhysFrame) -> (translation: Translation)
        ensures
            translation@ == translate_spec(self.read_spec(), level_4_table@, addr@),
    {
        let mut walk = PageWalk::start(addr, level_4_table);
        let mut remaining: u8 = 4;
        loop
            invariant
                walk.level() == remaining,
                1 <= remaining <= 4,
                walk.result(self.read_spec()) == translate_spec(
                    self.read_spec(),
                    level_4_table@,
                    addr@,
                ),
            decreases remaining,
        {
            let entry = PageTableEntry::from_bits(self.read(walk.entry_addr()));
            match walk.step(entry) {
                WalkStep::Descend(next) => {
                    walk = next;
                    remaining = remaining - 1;
                },
                WalkStep::Done(translation) => {
                    return translation;
                },
            }
        }
    }

    /// Translates `addr` through the page tables below `level_4_table`:
    /// the physical address that it is mapped to, or `None` if it is not
    /// mapped. The walk must not meet a huge page.
    pub fn translate_addr(&self, addr: VirtAddr, level_4_table: PhysFrame) -> (phys: Option<
        PhysAddr,
    >)
        requires
            translate_spec(self.read_spec(), level_4_table@, addr@) != WalkResult::HugePage,
        ensures
            match translate_spec(self.read_spec(), level_4_table@, addr@) {
                WalkResult::Mapped(mapped) => phys is Some && phys->0@ == mapped,
                _ => phys is None,
            },
    {
        match self.walk(addr, level_4_table) {
            Translation::Mapped(phys) => Some(phys),
            _ => None,
        }
    }
}

} // verus!
