//! A CHIP-8 interpreter core: the machine state, the decoding of instruction
//! words and the effect of every instruction, each stated over a mathematical
//! model of the machine and proved against it.
//!
//! The host drives the interpreter: it loads a program, feeds key states,
//! calls [`cpu::CPU::step`] at the cycle rate, calls
//! [`cpu::CPU::tick_timers`] at 60 Hz and renders the framebuffer.

mod bits;
pub mod cpu;
mod display;
pub mod error;
pub mod instruction;
pub mod laws;
pub mod model;
mod random;

pub use crate::cpu::CPU;
pub use crate::error::Chip8Error;
pub use crate::instruction::{decode, Instruction};
