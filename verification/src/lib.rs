//! Runtime core of a small single-address-space kernel: heap allocation
//! strategies over a fixed address range, and a cooperative task executor
//! fed by an interrupt-to-task scancode bridge.
//!
//! Addresses are plain `usize` values and every free-list entry lives in an
//! index-addressed table, so the whole core is ordinary safe code whose
//! behaviour is stated in contracts.

pub mod allocator;
pub mod interrupts;
pub mod task;

use vstd::prelude::*;

verus! {

/// The codes with which the kernel leaves the emulator.
#[derive(Debug, Clone, PartialEq, Eq, Copy, Structural)]
pub enum QemuExitcode {
    Success,
    Failure,
}

impl QemuExitcode {
    /// The number that is written to the emulator's exit port.
    pub open spec fn spec_code(self) -> u32 {
        match self {
            QemuExitcode::Success => 0x10,
            QemuExitcode::Failure => 0x11,
        }
    }

    /// The number that is written to the emulator's exit port.
    #[verifier::when_used_as_spec(spec_code)]
    pub fn code(self) -> (code: u32)
        ensures
            code == self.code(),
    {
        match self {
            QemuExitcode::Success => 0x10,
            QemuExitcode::Failure => 0x11,
        }
    }
}

} // verus!
