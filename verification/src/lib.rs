//! A verified CHIP-8 interpreter engine.
//!
//! The engine owns the whole machine state (program counter, index register,
//! call stack, sixteen general registers, 4 KiB of memory, delay and sound
//! timers, a 64x32 monochrome framebuffer and a sixteen-key input latch) and
//! exposes load / fetch / execute / timer-tick / key-input operations whose
//! behaviour is stated in contracts over a mathematical view of that state.
//!
//! Two engine types are provided. [`interpreter::Interpreter`] implements
//! the full instruction set, sprite drawing and key input included.
//! [`cpu::Cpu`] is a reduced variant that implements the flow-control,
//! register, arithmetic and screen-clear opcodes and accepts the
//! sprite-draw, key and timer opcodes without acting on them.

use vstd::prelude::*;

pub mod cpu;
pub mod interpreter;
pub mod machine;
pub mod opcode;
pub mod semantics;

mod entropy;

verus! {

/// The ways an engine operation can fail instead of panicking.
#[derive(Clone, Copy, Debug, PartialEq, Eq, Structural)]
pub enum Chip8Error {
    /// No opcode pattern matches the instruction word.
    UnknownOpcode(u16),
    /// A call was made with all sixteen stack slots in use.
    StackOverflow,
    /// A return was executed with an empty call stack.
    StackUnderflow,
    /// An opcode would read or write memory at or beyond 4096.
    AddressOutOfRange,
    /// A key-skip opcode named a key index of sixteen or more.
    KeyOutOfRange,
    /// The program counter cannot move as the opcode demands.
    ProgramCounterOutOfRange,
    /// A program longer than the 3584 bytes above the load offset.
    ProgramTooLarge,
}

} // verus!
