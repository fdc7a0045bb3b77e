//! Operator symbols and the opcodes that implement them.

use vstd::prelude::*;
use vstd::string::StrSliceExecFns;
use crate::ops;

verus! {

/// The opcode of a binary operator, if `symbol` is one.
pub open spec fn binary_opcode(symbol: Seq<char>) -> Option<u8> {
    if symbol == seq!['+'] {
        Some(ops::ADD)
    } else if symbol == seq!['-'] {
        Some(ops::SUB)
    } else if symbol == seq!['*'] {
        Some(ops::MUL)
    } else if symbol == seq!['/'] {
        Some(ops::DIV)
    } else if symbol == seq!['&'] {
        Some(ops::AND)
    } else if symbol == seq!['|'] {
        Some(ops::OR)
    } else if symbol == seq!['=', '='] {
        Some(ops::EQ)
    } else if symbol == seq!['<'] {
        Some(ops::LT)
    } else if symbol == seq!['<', '='] {
        Some(ops::LE)
    } else if symbol == seq!['>'] {
        Some(ops::GT)
    } else if symbol == seq!['>', '='] {
        Some(ops::GE)
    } else if symbol == seq!['!', '='] {
        Some(ops::NEQ)
    } else {
        None
    }
}

/// The opcode of a unary operator, if `symbol` is one.
pub open spec fn unary_opcode(symbol: Seq<char>) -> Option<u8> {
    if symbol == seq!['~'] {
        Some(ops::NOT)
    } else if symbol == seq!['w', 'r', 'i', 't', 'e'] {
        Some(ops::WRI)
    } else {
        None
    }
}

/// The opcode of an operator without operands, if `symbol` is one.
pub open spec fn nullary_opcode(symbol: Seq<char>) -> Option<u8> {
    if symbol == seq!['r', 'e', 'a', 'd'] {
        Some(ops::RDI)
    } else {
        None
    }
}

/// Looks up a binary operator.
pub fn find_binary_opcode(symbol: &str) -> (opcode: Option<u8>)
    ensures
        opcode == binary_opcode(symbol@),
{
    let length = symbol.unicode_len();
    if length == 1 {
        let c = symbol.get_char(0);
        if c == '+' {
            assert(symbol@ =~= seq!['+']);
            Some(ops::ADD)
        } else if c == '-' {
            assert(symbol@ =~= seq!['-']);
            Some(ops::SUB)
        } else if c == '*' {
            assert(symbol@ =~= seq!['*']);
            Some(ops::MUL)
        } else if c == '/' {
            assert(symbol@ =~= seq!['/']);
            Some(ops::DIV)
        } else if c == '&' {
            assert(symbol@ =~= seq!['&']);
            Some(ops::AND)
        } else if c == '|' {
            assert(symbol@ =~= seq!['|']);
            Some(ops::OR)
        } else if c == '<' {
            assert(symbol@ =~= seq!['<']);
            Some(ops::LT)
        } else if c == '>' {
            assert(symbol@ =~= seq!['>']);
            Some(ops::GT)
        } else {
            None
        }
    } else if length == 2 {
        let first = symbol.get_char(0);
        let second = symbol.get_char(1);
        if second != '=' {
            None
        } else if first == '=' {
            assert(symbol@ =~= seq!['=', '=']);
            Some(ops::EQ)
        } else if first == '<' {
            assert(symbol@ =~= seq!['<', '=']);
            Some(ops::LE)
        } else if first == '>' {
            assert(symbol@ =~= seq!['>', '=']);
            Some(ops::GE)
        } else if first == '!' {
            assert(symbol@ =~= seq!['!', '=']);
            Some(ops::NEQ)
        } else {
            None
        }
    } else {
        None
    }
}

/// Looks up a unary operator.
pub fn find_unary_opcode(symbol: &str) -> (opcode: Option<u8>)
    ensures
        opcode == unary_opcode(symbol@),
{
    let length = symbol.unicode_len();
    if length == 1 {
        if symbol.get_char(0) == '~' {
            assert(symbol@ =~= seq!['~']);
            Some(ops::NOT)
        } else {
            None
        }
    } else if length == 5 {
        if symbol.get_char(0) == 'w' && symbol.get_char(1) == 'r' && symbol.get_char(2) == 'i'
            && symbol.get_char(3) == 't' && symbol.get_char(4) == 'e' {
            assert(symbol@ =~= seq!['w', 'r', 'i', 't', 'e']);
            Some(ops::WRI)
        } else {
            None
        }
    } else {
        None
    }
}

/// Looks up an operator without operands.
pub fn find_nullary_opcode(symbol: &str) -> (opcode: Option<u8>)
    ensures
        opcode == nullary_opcode(symbol@),
{
    if symbol.unicode_len() == 4 {
        if symbol.get_char(0) == 'r' && symbol.get_char(1) == 'e' && symbol.get_char(2) == 'a'
            && symbol.get_char(3) == 'd' {
            assert(symbol@ =~= seq!['r', 'e', 'a', 'd']);
            Some(ops::RDI)
        } else {
            None
        }
    } else {
        None
    }
}

} // verus!
