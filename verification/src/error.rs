use vstd::prelude::*;

verus! {

/// The fatal and local error conditions the machine can report.
///
/// Every error is an inspectable value: the machine never panics. An
/// operation that fails leaves the state as it was just before the failing
/// instruction, so a host can log the error, halt, or reset the machine.
#[derive(Clone, Copy, Debug, PartialEq, Eq, Structural)]
pub enum Chip8Error {
    /// A call was attempted with the return stack at capacity.
    StackOverflow,
    /// A return was attempted with the return stack empty.
    StackUnderflow,
    /// A key index of 16 or more was passed to the key-state update.
    InvalidKey,
    /// The fetched instruction word matches no known pattern;
    /// carries the raw word.
    UnimplementedInstruction(u16),
    /// The program image does not fit in memory above the reset vector.
    ProgramTooLarge,
    /// An instruction dereferenced memory, or indexed the keypad, outside
    /// its fixed bounds.
    OutOfRangeAccess,
}

} // verus!
