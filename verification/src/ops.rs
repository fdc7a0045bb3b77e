//! The opcodes of the register machine.

use vstd::prelude::*;

verus! {

/// Load a signed 16-bit immediate, packed into the two operand bytes.
pub const LD: u8 = 0;

/// Load the constant whose 16-bit pool index is packed into the operand bytes.
pub const LDB: u8 = 1;

pub const ADD: u8 = 2;

pub const SUB: u8 = 3;

pub const MUL: u8 = 4;

pub const DIV: u8 = 5;

pub const AND: u8 = 6;

pub const OR: u8 = 7;

pub const EQ: u8 = 8;

pub const LT: u8 = 9;

pub const LE: u8 = 10;

pub const GT: u8 = 11;

pub const GE: u8 = 12;

pub const NEQ: u8 = 13;

/// Bitwise complement of the left operand.
pub const NOT: u8 = 14;

/// Write the left operand to the output.
pub const WRI: u8 = 15;

/// Read a value from the input.
pub const RDI: u8 = 16;

/// Move between two registers of the current frame.
pub const MOV: u8 = 17;

/// Move a register of the current frame into a register of the frame that
/// the next call pushes.
pub const MVO: u8 = 18;

/// Jump to a function, reusing the current frame.
pub const JMP: u8 = 19;

/// Call a function in a new frame.
pub const CAL: u8 = 20;

/// Load the value that the last call returned.
pub const LDR: u8 = 21;

/// Branch forward by a 16-bit offset if the target register holds true.
pub const JTF: u8 = 22;

/// Branch forward by a 24-bit offset.
pub const JMF: u8 = 23;

/// Return from the current function.
pub const RET: u8 = 24;

/// Stop the machine.
pub const HLT: u8 = 25;

} // verus!
