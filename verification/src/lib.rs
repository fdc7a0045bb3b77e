//! Code generation for a small expression language: an abstract syntax tree
//! is lowered to a stream of fixed-width register-machine instructions,
//! together with a constant pool, a table of function entry addresses and
//! the module's entry point.

pub mod ast;
pub mod bytecode;
pub mod error;
pub mod generator;
pub mod laws;
pub mod lowering;
pub mod operators;
pub mod ops;
pub mod scope;

pub use ast::Expression;
pub use bytecode::{Instruction, Module};
pub use error::InvalidProgram;
pub use generator::{generate, try_generate};
