//! The abstract syntax tree that code generation consumes.

use vstd::prelude::*;

verus! {

/// One node of the syntax tree. Every node denotes an integer value.
#[derive(Debug, PartialEq, Eq)]
pub enum Expression {
    /// An integer literal.
    Integer(i64),
    /// A binary operator applied to a left and a right operand.
    BinaryOp(String, Box<Expression>, Box<Expression>),
    /// A unary operator applied to its operand.
    UnaryOp(String, Box<Expression>),
    /// An operator without operands.
    NullaryOp(String),
    /// A call of the named function with the given arguments.
    Function(String, Vec<Expression>),
    /// A function definition: name, parameter names, body.
    FunctionDefinition(String, Vec<String>, Vec<Expression>),
    /// A block that binds variables in order and then evaluates its body.
    VariableAssignment(Vec<(String, Expression)>, Vec<Expression>),
    /// A reference to a variable.
    Variable(String),
    /// A conditional: condition, the expressions evaluated when it holds,
    /// the expressions evaluated when it does not.
    Conditional(Box<Expression>, Vec<Expression>, Vec<Expression>),
}

} // verus!
