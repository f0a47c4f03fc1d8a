//! The numbers of the hardware interrupts.

use vstd::prelude::*;

verus! {

/// The interrupt number of the first line of the first interrupt controller.
pub const PIC_1_OFFSET: u8 = 32;

/// The interrupt number of the first line of the second interrupt controller.
pub const PIC_2_OFFSET: u8 = PIC_1_OFFSET + 8;

/// The hardware interrupts that the kernel handles.
#[derive(Debug, Clone, Copy, PartialEq, Eq, Structural)]
pub enum InterrupIndex {
    /// The timer, on the first line of the first controller.
    Timer,
    /// The keyboard, on the line behind the timer's.
    Keyboard,
}

impl InterrupIndex {
    /// The interrupt number.
    pub open spec fn number(self) -> int {
        match self {
            InterrupIndex::Timer => PIC_1_OFFSET as int,
            InterrupIndex::Keyboard => PIC_1_OFFSET + 1,
        }
    }

    /// The interrupt number as a byte.
    pub fn as_u8(self) -> (number: u8)
        ensures
            number == self.number(),
    {
        match self {
            InterrupIndex::Timer => PIC_1_OFFSET,
            InterrupIndex::Keyboard => PIC_1_OFFSET + 1,
        }
    }

    /// The interrupt number as an index into the table of handlers.
    pub fn as_usize(self) -> (number: usize)
        ensures
            number == self.number(),
    {
        self.as_u8() as usize
    }
}

} // verus!
