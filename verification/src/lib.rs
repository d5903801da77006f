pub mod chip8;
pub mod cpu;
pub mod display;
pub mod opcode;

pub use chip8::Chip8;
pub use cpu::Register;
pub use opcode::Instruction;
pub use opcode::Opcode;

use vstd::prelude::*;

verus! {

/// The ways in which loading a program or executing a machine step can fail.
///
/// A load error is recoverable: it is reported before any execution. The other
/// variants are fatal control faults; the host is expected to stop the run.
#[derive(Clone, Copy, Debug, PartialEq, Eq, Structural)]
pub enum Chip8Error {
    /// The program image does not fit between the load address and the end of memory.
    ProgramTooLarge,
    /// A return instruction was executed while the call stack was empty.
    StackUnderflow,
    /// A subroutine call would grow the call stack past its configured bound.
    StackOverflow,
    /// The fetched 16-bit word is outside the legal encoding table.
    InvalidInstruction(u16),
    /// An instruction tried to read or write past the end of memory.
    AddressOutOfRange,
}

/// What a successful machine step did.
#[derive(Clone, Copy, Debug, PartialEq, Eq, Structural)]
pub enum StepOutcome {
    /// One instruction was fetched, decoded and executed.
    Completed,
    /// The current instruction waits for a key and no key is held; the machine
    /// is unchanged and the same instruction will run again on the next step.
    WaitingForKey,
}

} // verus!
