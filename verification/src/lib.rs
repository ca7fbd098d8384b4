//! A verified core for a fixed 8-bit instruction-set virtual machine:
//! 16 general-purpose registers, 4KB of memory, a 64x32 monochrome
//! framebuffer, a 16-level call stack, two countdown timers and a 16-key
//! keypad. The machine holds its whole state and deterministically executes
//! one instruction per step; every operation's effect is stated against the
//! abstract machine state in `state` and proved.

pub mod error;
pub mod instr;
pub mod machine;
pub mod state;

pub use error::Chip8Error;
pub use instr::Instr;
pub use machine::Chip8;
