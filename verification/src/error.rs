//! The errors of the interpreter.

use vstd::prelude::*;

verus! {

/// The conditions that end the emulation of a machine, and the inputs that
/// the interpreter refuses. None of them changes the machine.
#[derive(Clone, Copy, Debug, PartialEq, Eq)]
pub enum Chip8Error {
    /// The program counter does not leave room for a two-byte instruction
    /// inside memory.
    FetchOutOfBounds,
    /// A subroutine call found all sixteen stack entries in use.
    StackOverflow,
    /// A return found the stack empty.
    StackUnderflow,
    /// An instruction would have written past the last byte of memory.
    MemoryWriteOutOfBounds,
    /// An instruction would have read past the last byte of memory.
    MemoryReadOutOfBounds,
    /// The program does not fit between the program start and the end of
    /// memory.
    RomTooLarge,
    /// The key index does not name one of the sixteen keys.
    InvalidKey,
}

} // verus!
