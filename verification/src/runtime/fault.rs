use vstd::prelude::*;
use crate::shared::opcodes::Opcode;

verus! {

/// Why the machine cannot execute the instruction at the program counter.
/// The console stops (panics) on each of these.
#[derive(PartialEq, Eq, Structural, Copy, Clone, Debug)]
pub enum Fault {
    /// The byte at the program counter encodes no instruction.
    UnknownOpcode(u8),
    /// An operand has an unknown prefix, an unknown register code or a
    /// malformed length.
    CorruptedOperand,
    /// The instruction does not accept this combination of operands.
    InvalidOperands(Opcode),
    /// Division (or remainder) by zero.
    DivisionByZero,
    /// A shift by at least the width of the shifted value.
    ShiftOverflow,
    /// A pop with the stack pointer too low to pop from (below the size
    /// popped).
    StackUnderflow,
    /// An address or the program counter leaves the range of `usize`.
    OutOfRange,
}

} // verus!
