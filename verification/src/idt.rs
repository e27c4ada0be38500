//! Entries of the interrupt descriptor table: the handler's address, split
//! over three fields, and the options word.

use bit_field::BitField;
use crate::addr::{is_canonical, lemma_sign_extend, sign_extend, VirtAddr};
use vstd::prelude::*;

verus! {

/// The options word with bits 9 to 11 set, as the hardware demands, and all
/// others clear: not present, interrupts disabled, ring 0, no stack switch.
pub const MINIMAL_OPTIONS: u16 = 0b1110_0000_0000;

/// `bits` with bit `bit` set to `value`.
pub open spec fn set_bit_spec(bits: u16, bit: u16, value: bool) -> u16 {
    if value {
        bits | (1u16 << bit)
    } else {
        bits & !(1u16 << bit)
    }
}

/// `bits` with bits `start` to `end - 1` replaced by `value`.
pub open spec fn set_bits_spec(bits: u16, start: u16, end: u16, value: u16) -> u16 {
    (bits & !((0xffffu16 >> ((16 - (end - start)) as u16)) << start)) | (value << start)
}

/// What `bit_field::BitField::set_bit` leaves in a `u16`: the bit at
/// `bit` is set to `value`, and all other bits stay. The outside function
/// panics for a bit beyond the word.
#[verifier::external_body]
fn with_bit(bits: u16, bit: u16, value: bool) -> (updated: u16)
    requires
        bit < 16,
    ensures
        updated == set_bit_spec(bits, bit, value),
{
    let mut updated = bits;
    updated.set_bit(usize::from(bit), value);
    updated
}

/// What `bit_field::BitField::set_bits` leaves in a `u16` for the range
/// `start..end`: those bits hold `value`, and all other bits stay. The
/// outside function panics for an empty range, for one beyond the word,
/// and for a value that does not fit into the range.
#[verifier::external_body]
fn with_bits(bits: u16, start: u16, end: u16, value: u16) -> (updated: u16)
    requires
        start < end <= 16,
        value <= 0xffffu16 >> ((16 - (end - start)) as u16),
    ensures
        updated == set_bits_spec(bits, start, end, value),
{
    let mut updated = bits;
    updated.set_bits(usize::from(start)..usize::from(end), value);
    updated
}

/// The privilege level of a ring.
#[derive(Clone, Copy, Debug, PartialEq, Eq, Structural)]
pub enum PrivilegeLevel {
    /// The kernel's ring.
    Ring0,
    Ring1,
    Ring2,
    /// The ring of user programs.
    Ring3,
}

impl PrivilegeLevel {
    /// The number of the ring.
    pub open spec fn number_spec(self) -> u16 {
        match self {
            PrivilegeLevel::Ring0 => 0,
            PrivilegeLevel::Ring1 => 1,
            PrivilegeLevel::Ring2 => 2,
            PrivilegeLevel::Ring3 => 3,
        }
    }

    /// The number of the ring.
    pub fn number(self) -> (number: u16)
        ensures
            number == self.number_spec(),
    {
        match self {
            PrivilegeLevel::Ring0 => 0,
            PrivilegeLevel::Ring1 => 1,
            PrivilegeLevel::Ring2 => 2,
            PrivilegeLevel::Ring3 => 3,
        }
    }
}

/// The options word of an entry.
///
/// Bits 0 to 2 hold the index of the stack to switch to, plus one, or zero
/// for no switch. Bit 8 is clear if interrupts are disabled while the
/// handler runs. Bits 13 and 14 hold the lowest privilege level that may
/// call the handler. Bit 15 says that the entry is present.
#[derive(Clone, Copy, Debug, PartialEq, Eq, Structural)]
pub struct EntryOptions(u16);

impl View for EntryOptions {
    type V = u16;

    closed spec fn view(&self) -> u16 {
        self.0
    }
}

impl EntryOptions {
    /// The options that every entry starts from.
    pub fn minimal() -> (options: Self)
        ensures
            options@ == MINIMAL_OPTIONS,
    {
        EntryOptions(MINIMAL_OPTIONS)
    }

    /// The options as the hardware reads them.
    pub fn bits(&self) -> (bits: u16)
        ensures
            bits == self@,
    {
        self.0
    }

    /// Marks the entry as present or not present.
    pub fn set_present(&mut self, present: bool) -> (options: &mut Self)
        ensures
            options@ == set_bit_spec(old(self)@, 15, present),
            *final(self) == *final(options),
    {
        self.0 = with_bit(self.0, 15, present);
        self
    }

    /// Has interrupts disabled, or left enabled, while the handler runs.
    pub fn disable_interrupts(&mut self, disable: bool) -> (options: &mut Self)
        ensures
            options@ == set_bit_spec(old(self)@, 8, !disable),
            *final(self) == *final(options),
    {
        self.0 = with_bit(self.0, 8, !disable);
        self
    }

    /// Sets the lowest privilege level that may call the handler.
    pub fn set_privilege_level(&mut self, dpl: PrivilegeLevel) -> (options: &mut Self)
        ensures
            options@ == set_bits_spec(old(self)@, 13, 15, dpl.number_spec()),
            *final(self) == *final(options),
    {
        assert(0xffffu16 >> 14u16 == 3) by (bit_vector);
        self.0 = with_bits(self.0, 13, 15, dpl.number());
        self
    }

    /// Has the handler run on stack `index` of the interrupt stack table.
    /// The hardware counts these stacks from one: the field holds
    /// `index + 1`.
    pub fn set_stack_index(&mut self, index: u16) -> (options: &mut Self)
        requires
            index < 7,
        ensures
            options@ == set_bits_spec(old(self)@, 0, 3, (index + 1) as u16),
            *final(self) == *final(options),
    {
        assert(0xffffu16 >> 13u16 == 7) by (bit_vector);
        self.0 = with_bits(self.0, 0, 3, index + 1);
        self
    }
}

/// An entry of the interrupt descriptor table.
#[derive(Clone, Copy, Debug)]
pub struct Entry {
    fpointer_low: u16,
    gdt_selector: u16,
    options: EntryOptions,
    fpointer_middle: u16,
    fpointer_high: u32,
    reserved: u32,
}

/// The address whose bits 0 to 15 are `low`, bits 16 to 31 `middle`, and
/// bits 32 to 63 `high`.
pub open spec fn handler_addr_spec(low: u16, middle: u16, high: u32) -> u64 {
    (low as u64) | ((middle as u64) << 16) | ((high as u64) << 32)
}

/// An address that is split into its three fields and put together again
/// is itself.
pub proof fn lemma_handler_addr_round_trip(addr: u64)
    ensures
        handler_addr_spec(addr as u16, (addr >> 16) as u16, (addr >> 32) as u32) == addr,
{
    assert(((addr as u16) as u64) | ((((addr >> 16) as u16) as u64) << 16) | ((((addr >> 32) as u32) as u64)
        << 32) == addr) by (bit_vector);
}

/// The two words of an entry. The first holds bits 0 to 15 of the
/// handler's address, then the selector, the options, and bits 16 to 31 of
/// the address, sixteen bits each. The second holds bits 32 to 63 of the
/// address in its lower half; its upper half is reserved and zero.
pub open spec fn encode_spec(handler_addr: u64, selector: u16, options: u16) -> (u64, u64) {
    (
        (handler_addr & 0xffff) | ((selector as u64) << 16) | ((options as u64) << 32) | (((
        handler_addr >> 16) & 0xffff) << 48),
        handler_addr >> 32,
    )
}

/// The words that are put together from the fields of an entry are those
/// of its handler address, selector and options.
proof fn lemma_encode(low: u16, middle: u16, high: u32, selector: u16, options: u16)
    ensures
        encode_spec(handler_addr_spec(low, middle, high), selector, options) == (
            (low as u64) | ((selector as u64) << 16) | ((options as u64) << 32) | ((middle as u64)
                << 48),
            high as u64,
        ),
{
    let addr = handler_addr_spec(low, middle, high);
    assert(addr == (low as u64) | ((middle as u64) << 16) | ((high as u64) << 32) ==> addr & 0xffff
        == low as u64 && (addr >> 16) & 0xffff == middle as u64 && addr >> 32 == high as u64)
        by (bit_vector);
}

impl Entry {
    /// The address of the handler.
    pub closed spec fn handler_addr(self) -> u64 {
        handler_addr_spec(self.fpointer_low, self.fpointer_middle, self.fpointer_high)
    }

    /// The selector of the code segment that the handler runs in.
    pub closed spec fn selector(self) -> u16 {
        self.gdt_selector
    }

    /// The options of the entry.
    pub closed spec fn options(self) -> EntryOptions {
        self.options
    }

    /// An entry without a handler: not present, all fields but the options
    /// zero.
    pub fn missing() -> (entry: Self)
        ensures
            entry.handler_addr() == 0,
            entry.selector() == 0,
            entry.options()@ == MINIMAL_OPTIONS,
    {
        assert((0u16 as u64) | ((0u16 as u64) << 16) | ((0u32 as u64) << 32) == 0) by (bit_vector);
        Entry {
            fpointer_low: 0,
            gdt_selector: 0,
            options: EntryOptions::minimal(),
            fpointer_middle: 0,
            fpointer_high: 0,
            reserved: 0,
        }
    }

    /// Sets the handler to the function at `addr`, to run in the code
    /// segment of `code_selector`, and marks the entry as present. The
    /// options are returned for further changes.
    pub fn set_handler_addr(&mut self, addr: VirtAddr, code_selector: u16) -> (options:
        &mut EntryOptions)
        ensures
            options@ == set_bit_spec(old(self).options()@, 15, true),
            final(self).handler_addr() == addr@,
            final(self).selector() == code_selector,
            final(self).options() == *final(options),
    {
        let addr = addr.as_u64();
        proof {
            lemma_handler_addr_round_trip(addr);
        }
        self.fpointer_low = addr as u16;
        self.fpointer_middle = (addr >> 16) as u16;
        self.fpointer_high = (addr >> 32) as u32;
        self.gdt_selector = code_selector;
        self.options.set_present(true);
        &mut self.options
    }

    /// The selector of the code segment that the handler runs in.
    pub fn get_selector(&self) -> (selector: u16)
        ensures
            selector == self.selector(),
    {
        self.gdt_selector
    }

    /// The options of the entry.
    pub fn get_options(&self) -> (options: EntryOptions)
        ensures
            options == self.options(),
    {
        self.options
    }

    /// The entry as the hardware reads it: sixteen bytes, as two words
    /// of which the first lies at the lower address.
    pub fn encode(&self) -> (words: (u64, u64))
        ensures
            words == encode_spec(
                self.handler_addr(),
                self.selector(),
                self.options()@,
            ),
    {
        proof {
            lemma_encode(
                self.fpointer_low,
                self.fpointer_middle,
                self.fpointer_high,
                self.gdt_selector,
                self.options.0,
            );
        }
        (
            (self.fpointer_low as u64) | ((self.gdt_selector as u64) << 16) | ((
            self.options.bits() as u64) << 32) | ((self.fpointer_middle as u64) << 48),
            self.fpointer_high as u64,
        )
    }

    /// The address of the handler, made canonical.
    pub fn get_handler_addr(&self) -> (addr: VirtAddr)
        ensures
            addr@ == sign_extend(self.handler_addr()),
    {
        let addr = (self.fpointer_low as u64) | ((self.fpointer_middle as u64) << 16) | ((
        self.fpointer_high as u64) << 32);
        VirtAddr::new_truncate(addr)
    }
}

/// The handler address that was set is the one that is read back.
pub proof fn lemma_handler_addr_is_kept(entry: Entry, addr: u64)
    requires
        is_canonical(addr),
        entry.handler_addr() == addr,
    ensures
        sign_extend(entry.handler_addr()) == addr,
{
    lemma_sign_extend(addr);
}

} // verus!
