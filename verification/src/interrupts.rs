//! The vectors of the hardware interrupts that the two chained interrupt
//! controllers raise.

use vstd::prelude::*;

verus! {

/// The vector of the first interrupt of the primary controller. The
/// vectors below it belong to the exceptions of the processor.
pub const PIC_1_OFFSET: u8 = 32;

/// The vector of the first interrupt of the secondary controller: the
/// primary one has eight lines.
pub const PIC_2_OFFSET: u8 = PIC_1_OFFSET + 8;

/// A hardware interrupt, known by the line of the primary controller that
/// raises it.
#[derive(Clone, Copy, Debug, PartialEq, Eq, Structural)]
pub enum InterruptIndex {
    /// The timer, on line 0.
    Timer,
    /// The keyboard, on line 1.
    Keyboard,
}

impl InterruptIndex {
    /// The vector of the interrupt.
    pub open spec fn vector(self) -> u8 {
        match self {
            InterruptIndex::Timer => PIC_1_OFFSET,
            InterruptIndex::Keyboard => (PIC_1_OFFSET + 1) as u8,
        }
    }

    /// The vector of the interrupt.
    pub fn as_u8(self) -> (vector: u8)
        ensures
            vector == self.vector(),
    {
        match self {
            InterruptIndex::Timer => PIC_1_OFFSET,
            InterruptIndex::Keyboard => PIC_1_OFFSET + 1,
        }
    }

    /// The vector of the interrupt, as an index into the descriptor table.
    pub fn as_usize(self) -> (vector: usize)
        ensures
            vector == self.vector(),
    {
        self.as_u8() as usize
    }
}

} // verus!
