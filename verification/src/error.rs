//! Why a program cannot be compiled.

use vstd::prelude::*;

verus! {

/// The ways in which a syntax tree can be an invalid program. Code
/// generation stops at the first of them that it meets.
#[derive(Debug, PartialEq, Eq)]
pub enum InvalidProgram {
    /// A call names a function that has not been defined.
    UndefinedFunction(String),
    /// A variable is used outside the scope of any binding of its name.
    UndefinedVariable(String),
    /// An operator symbol is not one the machine implements.
    InvalidOperator,
    /// A literal needs a slot in the constant pool, and the pool is full.
    ConstantPoolFull,
    /// An expression nests so deeply that it needs a register past the last.
    RegisterOverflow,
    /// A conditional has a branch without any expression.
    EmptyBranch,
}

} // verus!
