//! A verified interpreter core for a fixed 8-bit instruction set with a 4KB
//! address space, sixteen 8-bit registers, a call stack, a 64x32 monochrome
//! display and two countdown timers. The machine is stepped one instruction
//! at a time by an external frontend, which owns rendering and input.

use vstd::prelude::*;

pub mod laws;
pub mod machine;
pub mod model;
pub mod rng;

verus! {

/// A fatal condition: stepping stops and the machine state is left exactly as
/// it was before the faulting instruction, rather than being corrupted.
#[derive(Clone, Copy, PartialEq, Eq, Debug, Structural)]
pub enum Fault {
    /// `return` was executed with an empty call stack.
    StackUnderflow,
    /// An instruction fetch or a register-relative memory access fell outside
    /// the 4096-byte address space, or a key index exceeded the 16-key pad.
    OutOfBounds,
}

/// What a successful step did.
#[derive(Clone, Copy, PartialEq, Eq, Debug, Structural)]
pub enum StepOutcome {
    /// A recognized instruction was executed (or a key is still being awaited).
    Executed,
    /// The fetched word does not encode any instruction; the program counter
    /// was advanced past it so the machine keeps making forward progress. The
    /// word is reported so the frontend can log it.
    Unimplemented(u16),
}

/// Why a program image was refused.
#[derive(Clone, Copy, PartialEq, Eq, Debug, Structural)]
pub enum LoadError {
    /// The image is longer than the 3584 bytes available above 0x200.
    TooLarge,
}

} // verus!
