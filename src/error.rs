use vstd::prelude::*;

verus! {

/// The fatal conditions of the interpreter and of program loading.
#[derive(Debug, Clone, Copy, PartialEq, Eq, Structural)]
pub enum Chip8Error {
    /// A return was executed with an empty call stack.
    StackUnderflow,
    /// A call was executed with a full call stack.
    StackOverflow,
    /// The instruction word (both bytes, first byte high) is outside the
    /// instruction set.
    UnimplementedOpcode(u16),
    /// The program image does not fit in memory above the program start.
    OutOfSpace,
    /// An access starting at this address runs past the end of memory.
    AddressOutOfRange(u16),
}

} // verus!
