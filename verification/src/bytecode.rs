//! Instructions, the module that holds them, and how numbers wider than a
//! byte are packed into an instruction's operand bytes.

use vstd::prelude::*;

verus! {

/// The index of a register. A frame has 256 of them.
pub type Register = u8;

/// The register through which a function hands back its value, and the
/// register into which every top-level expression is evaluated.
pub const VAL: Register = 0;

/// The constant pool holds at most this many entries.
pub const POOL_CAPACITY: usize = 65535;

/// The byte that marks a move into the frame of the function about to be
/// called, in the move's right operand.
pub const OUTGOING: u8 = 0xFF;

/// One instruction: four bytes.
#[derive(Debug, Clone, Copy, PartialEq, Eq)]
pub struct Instruction {
    pub opcode: u8,
    pub target: Register,
    pub left: u8,
    pub right: u8,
}

/// A compiled program.
#[derive(Debug, PartialEq, Eq)]
pub struct Module {
    /// The entry address of each function, in the order of definition.
    pub functions: Vec<u64>,
    /// The literals too wide for an immediate, in the order of first use.
    pub constants: Vec<i64>,
    /// The address at which execution starts.
    pub entry_point: u64,
    /// The instructions.
    pub code: Vec<Instruction>,
}

/// A module as mathematics.
#[verifier::ext_equal]
pub struct ModuleView {
    pub functions: Seq<u64>,
    pub constants: Seq<i64>,
    pub entry_point: u64,
    pub code: Seq<Instruction>,
}

impl View for Module {
    type V = ModuleView;

    open spec fn view(&self) -> ModuleView {
        ModuleView {
            functions: self.functions@,
            constants: self.constants@,
            entry_point: self.entry_point,
            code: self.code@,
        }
    }
}

impl Module {
    /// A module without code, constants or functions.
    pub fn new() -> (module: Module)
        ensures
            module@ == (ModuleView {
                functions: Seq::empty(),
                constants: Seq::empty(),
                entry_point: 0,
                code: Seq::empty(),
            }),
    {
        Module { functions: Vec::new(), constants: Vec::new(), entry_point: 0, code: Vec::new() }
    }
}

/// The lowest byte of a number in two's complement, little-endian.
pub open spec fn low_byte(value: int) -> u8 {
    (value % 256) as u8
}

/// The second byte of a number in two's complement, little-endian.
pub open spec fn middle_byte(value: int) -> u8 {
    ((value / 256) % 256) as u8
}

/// The third byte of a number in two's complement, little-endian.
pub open spec fn high_byte(value: int) -> u8 {
    ((value / 65536) % 256) as u8
}

/// The unsigned number that two operand bytes hold.
pub open spec fn unpack16(left: u8, right: u8) -> int {
    left + 256 * right
}

/// The signed number that two operand bytes hold.
pub open spec fn unpack16_signed(left: u8, right: u8) -> int {
    if right >= 128 {
        unpack16(left, right) - 65536
    } else {
        unpack16(left, right)
    }
}

/// The unsigned number that three operand bytes hold.
pub open spec fn unpack24(target: u8, left: u8, right: u8) -> int {
    target + 256 * left + 65536 * right
}

/// The three lowest bytes of `value`, lowest first.
pub fn pack(value: u128) -> (bytes: (u8, u8, u8))
    ensures
        bytes.0 == low_byte(value as int),
        bytes.1 == middle_byte(value as int),
        bytes.2 == high_byte(value as int),
{
    ((value % 256) as u8, ((value / 256) % 256) as u8, ((value / 65536) % 256) as u8)
}

/// The two bytes of a 16-bit immediate in two's complement, lowest first.
pub fn pack_immediate(value: i16) -> (bytes: (u8, u8))
    ensures
        bytes.0 == low_byte(value as int),
        bytes.1 == middle_byte(value as int),
        unpack16_signed(bytes.0, bytes.1) == value,
{
    let unsigned: u16 = if value < 0 {
        (value as i32 + 65536) as u16
    } else {
        value as u16
    };
    ((unsigned % 256) as u8, (unsigned / 256) as u8)
}

/// Two bytes hold every number below 65536 exactly.
pub proof fn unpack16_of_packed(value: int)
    requires
        0 <= value < 65536,
    ensures
        unpack16(low_byte(value), middle_byte(value)) == value,
{
}

/// Three bytes hold every number below 16777216 exactly.
pub proof fn unpack24_of_packed(value: int)
    requires
        0 <= value < 16777216,
    ensures
        unpack24(low_byte(value), middle_byte(value), high_byte(value)) == value,
{
}

/// Two bytes hold every signed 16-bit number exactly.
pub proof fn unpack16_signed_of_packed(value: int)
    requires
        -32768 <= value < 32768,
    ensures
        unpack16_signed(low_byte(value), middle_byte(value)) == value,
{
}

} // verus!
