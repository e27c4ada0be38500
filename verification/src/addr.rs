//! Virtual and physical addresses, pages and frames.

use vstd::prelude::*;

verus! {

/// Size in bytes of a page and of a frame.
pub const PAGE_SIZE: u64 = 4096;

/// How many entries a page table has.
pub const ENTRY_COUNT: usize = 512;

/// Bits 47 to 63 of the address are all equal: the address is its own
/// sign extension from bit 47.
pub open spec fn is_canonical(addr: u64) -> bool {
    addr < 0x0000_8000_0000_0000 || addr >= 0xffff_8000_0000_0000
}

/// The address with bits 48 to 63 replaced by copies of bit 47.
pub open spec fn sign_extend(addr: u64) -> u64 {
    if addr & 0x0000_8000_0000_0000 != 0 {
        addr | 0xffff_0000_0000_0000
    } else {
        addr & 0x0000_ffff_ffff_ffff
    }
}

/// The canonical address that a raw value stands for, if it stands for
/// one: the value itself where it is canonical, its sign extension where
/// bits 48 to 63 are all zero, and none where those bits hold anything else.
pub open spec fn canonical_form_spec(addr: u64) -> Option<u64> {
    if is_canonical(addr) {
        Some(addr)
    } else if addr < 0x0001_0000_0000_0000 {
        Some(sign_extend(addr))
    } else {
        None
    }
}

/// A physical address has 52 bits.
pub open spec fn is_physical(addr: u64) -> bool {
    addr < 0x0010_0000_0000_0000
}

/// The 12-bit offset of the address in its page.
pub open spec fn page_offset_spec(addr: u64) -> u16 {
    (addr & 0xfff) as u16
}

/// The 9-bit index of the address into the page table of `level`, 1 to 4.
pub open spec fn table_index_spec(addr: u64, level: int) -> u16 {
    if level == 1 {
        ((addr >> 12) & 0x1ff) as u16
    } else if level == 2 {
        ((addr >> 21) & 0x1ff) as u16
    } else if level == 3 {
        ((addr >> 30) & 0x1ff) as u16
    } else {
        ((addr >> 39) & 0x1ff) as u16
    }
}

/// The canonical address with the given four table indices and page offset.
pub open spec fn compose_spec(l4: u16, l3: u16, l2: u16, l1: u16, offset: u16) -> u64 {
    sign_extend(
        ((l4 as u64) << 39) | ((l3 as u64) << 30) | ((l2 as u64) << 21) | ((l1 as u64) << 12) | (
        offset as u64),
    )
}

/// The entry of the level 4 table that refers to that table itself where
/// the page tables are mapped recursively: the last one.
pub const RECURSIVE_INDEX: u16 = 0o777;

/// The address at which the page table of `level`, 1 to 4, that
/// translates `addr` is found where the last entry of the level 4 table
/// refers to that table itself.
///
/// Each pass through that entry keeps the walk in the level 4 table, so
/// that it ends one table earlier: after `level` passes, followed by the
/// indices of `addr` from level 4 down, it ends in the table of `level`.
pub open spec fn recursive_table_addr_spec(addr: u64, level: int) -> u64 {
    let r = RECURSIVE_INDEX;
    if level >= 4 {
        compose_spec(r, r, r, r, 0)
    } else if level == 3 {
        compose_spec(r, r, r, table_index_spec(addr, 4), 0)
    } else if level == 2 {
        compose_spec(r, r, table_index_spec(addr, 4), table_index_spec(addr, 3), 0)
    } else {
        compose_spec(
            r,
            table_index_spec(addr, 4),
            table_index_spec(addr, 3),
            table_index_spec(addr, 2),
            0,
        )
    }
}

/// The address rounded down to the start of its page.
pub open spec fn page_start_spec(addr: u64) -> u64 {
    addr & !0xfffu64
}

/// Taking a canonical address apart into its four table indices and its
/// page offset, and putting these together again, gives the address back.
pub proof fn lemma_decompose_then_compose(addr: u64)
    requires
        is_canonical(addr),
    ensures
        compose_spec(
            table_index_spec(addr, 4),
            table_index_spec(addr, 3),
            table_index_spec(addr, 2),
            table_index_spec(addr, 1),
            page_offset_spec(addr),
        ) == addr,
{
    assert(addr < 0x0000_8000_0000_0000 || addr >= 0xffff_8000_0000_0000 ==> ({
        let raw = ((((addr >> 39) & 0x1ff) as u16 as u64) << 39) | ((((addr >> 30) & 0x1ff) as u16 as u64)
            << 30) | ((((addr >> 21) & 0x1ff) as u16 as u64) << 21) | ((((addr >> 12) & 0x1ff) as u16 as u64)
            << 12) | ((addr & 0xfff) as u16 as u64);
        (if raw & 0x0000_8000_0000_0000 != 0 {
            raw | 0xffff_0000_0000_0000
        } else {
            raw & 0x0000_ffff_ffff_ffff
        }) == addr
    })) by (bit_vector);
}

/// Putting four table indices and a page offset together gives a canonical
/// address that comes apart into those same five fields.
pub proof fn lemma_compose_then_decompose(l4: u16, l3: u16, l2: u16, l1: u16, offset: u16)
    requires
        l4 < 512,
        l3 < 512,
        l2 < 512,
        l1 < 512,
        offset < 4096,
    ensures
        is_canonical(compose_spec(l4, l3, l2, l1, offset)),
        table_index_spec(compose_spec(l4, l3, l2, l1, offset), 4) == l4,
        table_index_spec(compose_spec(l4, l3, l2, l1, offset), 3) == l3,
        table_index_spec(compose_spec(l4, l3, l2, l1, offset), 2) == l2,
        table_index_spec(compose_spec(l4, l3, l2, l1, offset), 1) == l1,
        page_offset_spec(compose_spec(l4, l3, l2, l1, offset)) == offset,
{
    let raw = ((l4 as u64) << 39) | ((l3 as u64) << 30) | ((l2 as u64) << 21) | ((l1 as u64) << 12)
        | (offset as u64);
    let addr = sign_extend(raw);
    assert(l4 < 512 && l3 < 512 && l2 < 512 && l1 < 512 && offset < 4096 && raw == ((l4 as u64)
        << 39) | ((l3 as u64) << 30) | ((l2 as u64) << 21) | ((l1 as u64) << 12) | (offset as u64)
        && addr == (if raw & 0x0000_8000_0000_0000 != 0 {
        raw | 0xffff_0000_0000_0000
    } else {
        raw & 0x0000_ffff_ffff_ffff
    }) ==> (addr < 0x0000_8000_0000_0000 || addr >= 0xffff_8000_0000_0000) && ((addr >> 39)
        & 0x1ff) as u16 == l4 && ((addr >> 30) & 0x1ff) as u16 == l3 && ((addr >> 21) & 0x1ff) as u16
        == l2 && ((addr >> 12) & 0x1ff) as u16 == l1 && (addr & 0xfff) as u16 == offset)
        by (bit_vector);
}

/// Sign extension gives a canonical address, keeps the low 48 bits, and
/// leaves a canonical address as it is.
pub proof fn lemma_sign_extend(addr: u64)
    ensures
        is_canonical(sign_extend(addr)),
        sign_extend(addr) & 0x0000_ffff_ffff_ffff == addr & 0x0000_ffff_ffff_ffff,
        is_canonical(addr) ==> sign_extend(addr) == addr,
{
    let ext = sign_extend(addr);
    assert(ext == (if addr & 0x0000_8000_0000_0000 != 0 {
        addr | 0xffff_0000_0000_0000
    } else {
        addr & 0x0000_ffff_ffff_ffff
    }) ==> (ext < 0x0000_8000_0000_0000 || ext >= 0xffff_8000_0000_0000) && ext
        & 0x0000_ffff_ffff_ffff == addr & 0x0000_ffff_ffff_ffff && ((addr < 0x0000_8000_0000_0000
        || addr >= 0xffff_8000_0000_0000) ==> ext == addr)) by (bit_vector);
}

/// The start of a page is a multiple of the page size at or below the
/// address and less than a page away from it; it is canonical, or
/// physical, where the address is.
pub proof fn lemma_page_start(addr: u64)
    ensures
        page_start_spec(addr) % PAGE_SIZE == 0,
        page_start_spec(addr) <= addr < page_start_spec(addr) + PAGE_SIZE,
        page_start_spec(addr) + page_offset_spec(addr) == addr,
        is_canonical(addr) ==> is_canonical(page_start_spec(addr)),
        is_physical(addr) ==> is_physical(page_start_spec(addr)),
        addr % PAGE_SIZE == 0 ==> page_start_spec(addr) == addr,
{
    let start = addr & !0xfffu64;
    assert(start == addr & !0xfffu64 ==> start % 4096 == 0 && start <= addr && addr - start < 4096
        && addr - start == ((addr & 0xfff) as u16) as u64 && ((addr < 0x0000_8000_0000_0000 || addr
        >= 0xffff_8000_0000_0000) ==> (start < 0x0000_8000_0000_0000 || start
        >= 0xffff_8000_0000_0000)) && (addr % 4096 == 0 ==> start == addr)) by (bit_vector);
}

/// What `x86_64::VirtAddr::try_new` makes of a raw value: the canonical
/// address that the value stands for, as a number, or `None` where bits 48
/// to 63 hold data that a sign extension would destroy.
#[verifier::external_body]
fn canonical_form(addr: u64) -> (canonical: Option<u64>)
    ensures
        canonical == canonical_form_spec(addr),
{
    match x86_64::VirtAddr::try_new(addr) {
        Ok(virt) => Some(virt.as_u64()),
        Err(_) => None,
    }
}

/// What `x86_64::PhysAddr::try_new` makes of a raw value: the value itself
/// where bits 52 to 63 are zero, else `None`.
#[verifier::external_body]
fn physical_form(addr: u64) -> (physical: Option<u64>)
    ensures
        physical == if is_physical(addr) {
            Some(addr)
        } else {
            None
        },
{
    match x86_64::PhysAddr::try_new(addr) {
        Ok(phys) => Some(phys.as_u64()),
        Err(_) => None,
    }
}

/// A canonical 64-bit virtual address.
#[derive(Clone, Copy, Debug, PartialEq, Eq, Structural)]
pub struct VirtAddr(u64);

impl View for VirtAddr {
    type V = u64;

    closed spec fn view(&self) -> u64 {
        self.0
    }
}

impl VirtAddr {
    #[verifier::type_invariant]
    spec fn canonical(self) -> bool {
        is_canonical(self.0)
    }

    /// The address that `addr` stands for, or `None` if it stands for none.
    pub fn try_new(addr: u64) -> (virt: Option<VirtAddr>)
        ensures
            match canonical_form_spec(addr) {
                Some(value) => virt is Some && virt->0@ == value,
                None => virt is None,
            },
    {
        match canonical_form(addr) {
            Some(value) => {
                proof {
                    lemma_sign_extend(addr);
                }
                Some(VirtAddr(value))
            },
            None => None,
        }
    }

    /// The address that `addr` stands for.
    pub fn new(addr: u64) -> (virt: VirtAddr)
        requires
            canonical_form_spec(addr) is Some,
        ensures
            Some(virt@) == canonical_form_spec(addr),
    {
        proof {
            lemma_sign_extend(addr);
        }
        if addr & 0x0000_8000_0000_0000 != 0 {
            VirtAddr(addr | 0xffff_0000_0000_0000)
        } else {
            assert(addr < 0x0001_0000_0000_0000 && addr & 0x0000_8000_0000_0000 == 0 ==> addr
                < 0x0000_8000_0000_0000) by (bit_vector);
            VirtAddr(addr)
        }
    }

    /// The sign extension of the low 48 bits of `addr`.
    pub fn new_truncate(addr: u64) -> (virt: VirtAddr)
        ensures
            virt@ == sign_extend(addr),
    {
        proof {
            lemma_sign_extend(addr);
        }
        if addr & 0x0000_8000_0000_0000 != 0 {
            VirtAddr(addr | 0xffff_0000_0000_0000)
        } else {
            VirtAddr(addr & 0x0000_ffff_ffff_ffff)
        }
    }

    /// The address as a number.
    pub fn as_u64(self) -> (addr: u64)
        ensures
            addr == self@,
            is_canonical(addr),
    {
        proof {
            use_type_invariant(&self);
        }
        self.0
    }

    /// The address `offset` bytes further on, or `None` if that is beyond
    /// the address space or stands for no address.
    pub fn checked_add(self, offset: u64) -> (sum: Option<VirtAddr>)
        ensures
            match sum {
                Some(virt) => self@ + offset <= u64::MAX && Some(virt@) == canonical_form_spec(
                    (self@ + offset) as u64,
                ),
                None => self@ + offset > u64::MAX || canonical_form_spec((self@ + offset) as u64)
                    is None,
            },
    {
        match self.0.checked_add(offset) {
            Some(addr) => VirtAddr::try_new(addr),
            None => None,
        }
    }

    /// The 12-bit offset of the address in its page.
    pub fn page_offset(self) -> (offset: u16)
        ensures
            offset == page_offset_spec(self@),
            offset < PAGE_SIZE,
    {
        let addr = self.0;
        assert(((addr & 0xfff) as u16) < 4096) by (bit_vector);
        (addr & 0xfff) as u16
    }

    /// The index into the level 1 page table.
    pub fn p1_index(self) -> (index: u16)
        ensures
            index == table_index_spec(self@, 1),
            index < ENTRY_COUNT,
    {
        let addr = self.0;
        assert((((addr >> 12) & 0x1ff) as u16) < 512) by (bit_vector);
        ((addr >> 12) & 0x1ff) as u16
    }

    /// The index into the level 2 page table.
    pub fn p2_index(self) -> (index: u16)
        ensures
            index == table_index_spec(self@, 2),
            index < ENTRY_COUNT,
    {
        let addr = self.0;
        assert((((addr >> 21) & 0x1ff) as u16) < 512) by (bit_vector);
        ((addr >> 21) & 0x1ff) as u16
    }

    /// The index into the level 3 page table.
    pub fn p3_index(self) -> (index: u16)
        ensures
            index == table_index_spec(self@, 3),
            index < ENTRY_COUNT,
    {
        let addr = self.0;
        assert((((addr >> 30) & 0x1ff) as u16) < 512) by (bit_vector);
        ((addr >> 30) & 0x1ff) as u16
    }

    /// The index into the level 4 page table.
    pub fn p4_index(self) -> (index: u16)
        ensures
            index == table_index_spec(self@, 4),
            index < ENTRY_COUNT,
    {
        let addr = self.0;
        assert((((addr >> 39) & 0x1ff) as u16) < 512) by (bit_vector);
        ((addr >> 39) & 0x1ff) as u16
    }

    /// The address of the page table of `level`, 1 to 4, that translates
    /// this address, where the page tables are mapped recursively.
    pub fn recursive_table_addr(self, level: u8) -> (table: VirtAddr)
        requires
            1 <= level <= 4,
        ensures
            table@ == recursive_table_addr_spec(self@, level as int),
    {
        let r = RECURSIVE_INDEX;
        if level == 4 {
            VirtAddr::from_indices(r, r, r, r, 0)
        } else if level == 3 {
            VirtAddr::from_indices(r, r, r, self.p4_index(), 0)
        } else if level == 2 {
            VirtAddr::from_indices(r, r, self.p4_index(), self.p3_index(), 0)
        } else {
            VirtAddr::from_indices(r, self.p4_index(), self.p3_index(), self.p2_index(), 0)
        }
    }

    /// The address with the given table indices and page offset.
    pub fn from_indices(l4: u16, l3: u16, l2: u16, l1: u16, offset: u16) -> (virt: VirtAddr)
        ensures
            virt@ == compose_spec(l4, l3, l2, l1, offset),
    {
        VirtAddr::new_truncate(
            ((l4 as u64) << 39) | ((l3 as u64) << 30) | ((l2 as u64) << 21) | ((l1 as u64) << 12) | (
            offset as u64),
        )
    }
}

/// A 52-bit physical address.
#[derive(Clone, Copy, Debug, PartialEq, Eq, Structural)]
pub struct PhysAddr(u64);

impl View for PhysAddr {
    type V = u64;

    closed spec fn view(&self) -> u64 {
        self.0
    }
}

impl PhysAddr {
    #[verifier::type_invariant]
    spec fn physical(self) -> bool {
        is_physical(self.0)
    }

    /// The physical address `addr`, or `None` if `addr` has more than 52
    /// bits.
    pub fn try_new(addr: u64) -> (phys: Option<PhysAddr>)
        ensures
            is_physical(addr) <==> phys is Some,
            phys is Some ==> phys->0@ == addr,
    {
        match physical_form(addr) {
            Some(value) => Some(PhysAddr(value)),
            None => None,
        }
    }

    /// The physical address `addr`.
    pub fn new(addr: u64) -> (phys: PhysAddr)
        requires
            is_physical(addr),
        ensures
            phys@ == addr,
    {
        PhysAddr(addr)
    }

    /// The address as a number.
    pub fn as_u64(self) -> (addr: u64)
        ensures
            addr == self@,
            is_physical(addr),
    {
        proof {
            use_type_invariant(&self);
        }
        self.0
    }
}

/// A 4 KiB frame of physical memory, known by the address of its first byte.
#[derive(Clone, Copy, Debug, PartialEq, Eq, Structural)]
pub struct PhysFrame {
    start_address: u64,
}

impl View for PhysFrame {
    type V = u64;

    /// The address of the frame's first byte.
    closed spec fn view(&self) -> u64 {
        self.start_address
    }
}

impl PhysFrame {
    #[verifier::type_invariant]
    spec fn aligned(self) -> bool {
        is_physical(self.start_address) && self.start_address % PAGE_SIZE == 0
    }

    /// The frame that holds `address`.
    pub fn containing_address(address: PhysAddr) -> (frame: PhysFrame)
        ensures
            frame@ == page_start_spec(address@),
    {
        let addr = address.as_u64();
        proof {
            lemma_page_start(addr);
            assert(addr < 0x0010_0000_0000_0000 ==> addr & !0xfffu64 < 0x0010_0000_0000_0000)
                by (bit_vector);
        }
        PhysFrame { start_address: addr & !0xfffu64 }
    }

    /// The address of the frame's first byte.
    pub fn start_address(self) -> (address: PhysAddr)
        ensures
            address@ == self@,
            address@ % PAGE_SIZE == 0,
    {
        proof {
            use_type_invariant(&self);
        }
        PhysAddr::new(self.start_address)
    }
}

/// A 4 KiB page of virtual memory, known by the address of its first byte.
#[derive(Clone, Copy, Debug, PartialEq, Eq, Structural)]
pub struct Page {
    start_address: u64,
}

impl View for Page {
    type V = u64;

    /// The address of the page's first byte.
    closed spec fn view(&self) -> u64 {
        self.start_address
    }
}

impl Page {
    #[verifier::type_invariant]
    spec fn aligned(self) -> bool {
        is_canonical(self.start_address) && self.start_address % PAGE_SIZE == 0
    }

    /// The page that holds `address`.
    pub fn containing_address(address: VirtAddr) -> (page: Page)
        ensures
            page@ == page_start_spec(address@),
    {
        let addr = address.as_u64();
        proof {
            lemma_page_start(addr);
        }
        Page { start_address: addr & !0xfffu64 }
    }

    /// The address of the page's first byte.
    pub fn start_address(self) -> (address: VirtAddr)
        ensures
            address@ == self@,
            address@ % PAGE_SIZE == 0,
    {
        proof {
            use_type_invariant(&self);
            lemma_sign_extend(self.start_address);
        }
        VirtAddr::new_truncate(self.start_address)
    }
}

} // verus!
