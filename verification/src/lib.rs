//! Virtual-memory and heap-allocation core of a small x86-64 kernel.
//!
//! The crate holds what the kernel's memory subsystem decides and
//! computes, as verified functions:
//!
//! - [`addr`]: virtual and physical addresses, pages and frames, and the
//!   indices by which an address selects its page-table entries;
//! - [`memory`]: the map of physical memory and the allocator of frames;
//! - [`paging`]: page-table entries and the walk through the four levels
//!   of tables that translates an address;
//! - [`allocator`]: the heap, with three strategies to serve requests from
//!   it, and the steps that map its pages.
//!
//! Beside them stand the smaller pieces that the kernel's interrupt setup
//! ([`idt`], [`interrupts`]) and its text display ([`vga_buffer`]) compute.
//!
//! Nothing here touches the hardware. The memory of the heap is handed in
//! as a slice; page-table entries are handed in as they are read; what is
//! to be written to the display or to a descriptor table is handed out as
//! plain values. None of the kernel's paths through the crate needs a heap
//! to exist already.

use vstd::prelude::*;

pub mod addr;
pub mod allocator;
pub mod idt;
pub mod interrupts;
pub mod memory;
pub mod paging;
pub mod vga_buffer;

verus! {

/// The port of the emulator's exit device.
pub const QEMU_EXIT_PORT: u16 = 0xf4;

/// With what the kernel leaves the emulator.
#[derive(Clone, Copy, Debug, PartialEq, Eq, Structural)]
pub enum QemuExitCode {
    Success,
    Failed,
}

impl QemuExitCode {
    /// The value that is written to the exit device.
    pub fn code(self) -> (code: u32)
        ensures
            code == match self {
                QemuExitCode::Success => 0x10u32,
                QemuExitCode::Failed => 0x11u32,
            },
    {
        match self {
            QemuExitCode::Success => 0x10,
            QemuExitCode::Failed => 0x11,
        }
    }
}

} // verus!
