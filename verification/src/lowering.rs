//! What code generation produces, as mathematics: for every expression the
//! fragment of a module that it stands for, or the reason why it stands for
//! none.

use vstd::prelude::*;
use crate::ast::Expression;
use crate::bytecode::{
    high_byte, low_byte, middle_byte, Instruction, ModuleView, Register, OUTGOING, POOL_CAPACITY,
    VAL,
};
use crate::error::InvalidProgram;
use crate::operators::{binary_opcode, nullary_opcode, unary_opcode};
use crate::ops;
use crate::scope::{Bindings, ValueType};

verus! {

/// The function table: the index of each function defined so far.
pub type Functions = Map<Seq<char>, u32>;

/// Where a fragment is placed: how much code and how many constants stand
/// before it, and which functions are known there.
pub struct Position {
    pub address: nat,
    pub pool: nat,
    pub table: Functions,
}

/// What generating an expression adds to a module, and the function table
/// that it leaves behind.
#[verifier::ext_equal]
pub struct Fragment {
    pub code: Seq<Instruction>,
    pub constants: Seq<i64>,
    pub functions: Seq<u64>,
    pub table: Functions,
}

impl Position {
    /// The position at the start of an empty module.
    pub open spec fn start() -> Position {
        Position { address: 0, pool: 0, table: Map::empty() }
    }

    /// The position at the end of a module, with the given function table.
    pub open spec fn end_of(module: ModuleView, table: Functions) -> Position {
        Position { address: module.code.len(), pool: module.constants.len(), table }
    }

    /// The position behind `fragment`, placed here.
    pub open spec fn after(self, fragment: Fragment) -> Position {
        Position {
            address: self.address + fragment.code.len(),
            pool: self.pool + fragment.constants.len(),
            table: fragment.table,
        }
    }

    /// The position `count` instructions further on.
    pub open spec fn past(self, count: nat) -> Position {
        Position { address: self.address + count, pool: self.pool, table: self.table }
    }
}

impl Fragment {
    /// The fragment that adds nothing.
    pub open spec fn empty(table: Functions) -> Fragment {
        Fragment { code: Seq::empty(), constants: Seq::empty(), functions: Seq::empty(), table }
    }

    /// The fragment of one instruction.
    pub open spec fn single(table: Functions, instruction: Instruction) -> Fragment {
        Fragment {
            code: seq![instruction],
            constants: Seq::empty(),
            functions: Seq::empty(),
            table,
        }
    }

    /// This fragment followed by `next`.
    pub open spec fn followed_by(self, next: Fragment) -> Fragment {
        Fragment {
            code: self.code + next.code,
            constants: self.constants + next.constants,
            functions: self.functions + next.functions,
            table: next.table,
        }
    }

    /// This fragment followed by one instruction.
    pub open spec fn emit(self, instruction: Instruction) -> Fragment {
        Fragment {
            code: self.code.push(instruction),
            constants: self.constants,
            functions: self.functions,
            table: self.table,
        }
    }
}

impl ModuleView {
    /// This module with `fragment` appended.
    pub open spec fn extended(self, fragment: Fragment) -> ModuleView {
        ModuleView {
            functions: self.functions + fragment.functions,
            constants: self.constants + fragment.constants,
            entry_point: self.entry_point,
            code: self.code + fragment.code,
        }
    }
}

/// Whether a literal fits the two operand bytes of an immediate load.
pub open spec fn fits_immediate(value: int) -> bool {
    -32768 <= value <= 32767
}

/// Loads a 16-bit literal.
pub open spec fn load_immediate(target: Register, value: int) -> Instruction {
    Instruction {
        opcode: ops::LD,
        target,
        left: low_byte(value),
        right: middle_byte(value),
    }
}

/// Loads the constant at `index` of the pool.
pub open spec fn load_constant(target: Register, index: int) -> Instruction {
    Instruction {
        opcode: ops::LDB,
        target,
        left: low_byte(index),
        right: middle_byte(index),
    }
}

/// Copies `source` into `target`, both in the current frame.
pub open spec fn move_register(target: Register, source: Register) -> Instruction {
    Instruction { opcode: ops::MOV, target, left: source, right: 0 }
}

/// Hands the argument number `number`, counted from 1, to the function
/// about to be entered: from the register it was evaluated into, to the
/// register in which the function expects it.
pub open spec fn transfer(tail: bool, base: Register, number: int) -> Instruction {
    if tail {
        Instruction {
            opcode: ops::MOV,
            target: (VAL + number) as u8,
            left: (base + number) as u8,
            right: 0,
        }
    } else {
        Instruction {
            opcode: ops::MVO,
            target: (VAL + number) as u8,
            left: (base + number) as u8,
            right: OUTGOING,
        }
    }
}

/// Enters the function with the given index, whose three lowest bytes fill
/// the operands: as a jump that keeps the frame, or as a call that pushes one.
pub open spec fn enter(opcode: u8, index: u32) -> Instruction {
    Instruction {
        opcode,
        target: low_byte(index as int),
        left: middle_byte(index as int),
        right: high_byte(index as int),
    }
}

/// Loads the value that the last call returned.
pub open spec fn load_result(target: Register) -> Instruction {
    Instruction { opcode: ops::LDR, target, left: 0, right: 0 }
}

/// Skips `offset` instructions, counted from the branch itself, if
/// `condition` holds true.
pub open spec fn branch_if(condition: Register, offset: int) -> Instruction {
    Instruction {
        opcode: ops::JTF,
        target: condition,
        left: low_byte(offset),
        right: middle_byte(offset),
    }
}

/// Skips `offset` instructions, counted from the branch itself.
pub open spec fn branch(offset: int) -> Instruction {
    Instruction {
        opcode: ops::JMF,
        target: low_byte(offset),
        left: middle_byte(offset),
        right: high_byte(offset),
    }
}

/// Returns from the current function.
pub open spec fn ret() -> Instruction {
    Instruction { opcode: ops::RET, target: 0, left: 0, right: 0 }
}

/// Stops the machine.
pub open spec fn halt() -> Instruction {
    Instruction { opcode: ops::HLT, target: 0, left: 0, right: 0 }
}

/// The code of an integer literal: an immediate load where the literal fits
/// sixteen bits, else a new constant and a load from the pool.
pub open spec fn lower_integer(value: i64, base: Register, at: Position) -> Result<
    Fragment,
    InvalidProgram,
> {
    if fits_immediate(value as int) {
        Ok(Fragment::single(at.table, load_immediate(base, value as int)))
    } else if at.pool >= POOL_CAPACITY {
        Err(InvalidProgram::ConstantPoolFull)
    } else {
        Ok(
            Fragment {
                code: seq![load_constant(base, at.pool as int)],
                constants: seq![value],
                functions: Seq::empty(),
                table: at.table,
            },
        )
    }
}

/// What a call emits once its `count` arguments are evaluated: one transfer
/// for each, in order, and then the jump, or the call and the load of its
/// result.
pub open spec fn call_sequence(index: u32, count: nat, base: Register, tail: bool) -> Seq<
    Instruction,
> {
    let transfers = Seq::new(count, |k: int| transfer(tail, base, k + 1));
    if tail {
        transfers.push(enter(ops::JMP, index))
    } else {
        transfers.push(enter(ops::CAL, index)).push(load_result(base))
    }
}

/// The scope of a function's body: the enclosing scope, and each parameter
/// bound to the next register from `base` on.
pub open spec fn bind_parameters(parameters: Seq<String>, base: Register, scope: Bindings) -> Bindings
    decreases parameters.len(),
{
    if parameters.len() == 0 {
        scope
    } else {
        bind_parameters(parameters.drop_last(), base, scope).insert(
            parameters.last()@,
            (ValueType::Integer, (base + parameters.len() - 1) as u8),
        )
    }
}

/// The code of one expression, which leaves the expression's value in the
/// register `base` and uses no register below it.
pub open spec fn lower(
    expression: Expression,
    base: Register,
    scope: Bindings,
    tail: bool,
    at: Position,
) -> Result<Fragment, InvalidProgram>
    decreases expression, 0nat,
{
    match expression {
        Expression::Integer(value) => lower_integer(value, base, at),
        Expression::BinaryOp(symbol, left, right) => {
            if base >= 255 {
                Err(InvalidProgram::RegisterOverflow)
            } else {
                match lower(*left, (base + 1) as u8, scope, false, at) {
                    Err(e) => Err(e),
                    Ok(l) => {
                        if base >= 254 {
                            Err(InvalidProgram::RegisterOverflow)
                        } else {
                            match lower(*right, (base + 2) as u8, scope, false, at.after(l)) {
                                Err(e) => Err(e),
                                Ok(r) => match binary_opcode(symbol@) {
                                    None => Err(InvalidProgram::InvalidOperator),
                                    Some(opcode) => Ok(
                                        l.followed_by(r).emit(
                                            Instruction {
                                                opcode,
                                                target: base,
                                                left: (base + 1) as u8,
                                                right: (base + 2) as u8,
                                            },
                                        ),
                                    ),
                                },
                            }
                        }
                    },
                }
            }
        },
        Expression::UnaryOp(symbol, operand) => {
            if base >= 255 {
                Err(InvalidProgram::RegisterOverflow)
            } else {
                match lower(*operand, (base + 1) as u8, scope, false, at) {
                    Err(e) => Err(e),
                    Ok(o) => match unary_opcode(symbol@) {
                        None => Err(InvalidProgram::InvalidOperator),
                        Some(opcode) => Ok(
                            o.emit(
                                Instruction {
                                    opcode,
                                    target: base,
                                    left: (base + 1) as u8,
                                    right: 0,
                                },
                            ),
                        ),
                    },
                }
            }
        },
        Expression::NullaryOp(symbol) => match nullary_opcode(symbol@) {
            None => Err(InvalidProgram::InvalidOperator),
            Some(opcode) => Ok(
                Fragment::single(
                    at.table,
                    Instruction { opcode, target: base, left: 0, right: 0 },
                ),
            ),
        },
        Expression::Function(name, arguments) => {
            if !at.table.contains_key(name@) {
                Err(InvalidProgram::UndefinedFunction(name))
            } else {
                match lower_arguments(arguments@, base, scope, at) {
                    Err(e) => Err(e),
                    Ok(a) => Ok(
                        Fragment {
                            code: a.code + call_sequence(
                                at.table[name@],
                                arguments@.len(),
                                base,
                                tail,
                            ),
                            constants: a.constants,
                            functions: a.functions,
                            table: a.table,
                        },
                    ),
                }
            }
        },
        Expression::FunctionDefinition(name, parameters, body) => {
            let index = (at.table.len() % 0x1_0000_0000) as u32;
            let defined = Position {
                address: at.address,
                pool: at.pool,
                table: at.table.insert(name@, index),
            };
            if base + parameters@.len() > 255 {
                Err(InvalidProgram::RegisterOverflow)
            } else {
                let top = (base + parameters@.len()) as u8;
                match lower_block(
                    body@,
                    top,
                    bind_parameters(parameters@, base, scope),
                    true,
                    true,
                    defined,
                ) {
                    Err(e) => Err(e),
                    Ok(b) => Ok(
                        Fragment {
                            code: b.code.push(move_register(VAL, top)).push(ret()),
                            constants: b.constants,
                            functions: seq![at.address as u64] + b.functions,
                            table: b.table,
                        },
                    ),
                }
            }
        },
        Expression::VariableAssignment(bindings, body) => {
            match lower_bindings(bindings@, base, scope, at) {
                Err(e) => Err(e),
                Ok(bound) => {
                    let top = (base + bindings@.len()) as u8;
                    match lower_block(body@, top, bound.1, false, false, at.after(bound.0)) {
                        Err(e) => Err(e),
                        Ok(b) => Ok(bound.0.followed_by(b).emit(move_register(base, top))),
                    }
                },
            }
        },
        Expression::Variable(name) => {
            if scope.contains_key(name@) {
                Ok(Fragment::single(at.table, move_register(base, scope[name@].1)))
            } else {
                Err(InvalidProgram::UndefinedVariable(name))
            }
        },
        Expression::Conditional(condition, yes, no) => {
            match lower(*condition, base, scope, false, at) {
                Err(e) => Err(e),
                Ok(c) => {
                    let at_no = at.after(c).past(1);
                    match lower_branch(no@, base, scope, tail, at_no) {
                        Err(e) => Err(e),
                        Ok(n) => {
                            let at_yes = at_no.after(n).past(1);
                            match lower_branch(yes@, base, scope, tail, at_yes) {
                                Err(e) => Err(e),
                                Ok(y) => Ok(conditional(base, c, n, y)),
                            }
                        },
                    }
                },
            }
        },
    }
}

/// The code of a conditional, from the code of its parts: the condition
/// `c`, the expressions `n` for when it does not hold, the expressions `y`
/// for when it does. The first branch leads from itself to the start of
/// `y`, the second from itself to the end of `y`.
pub open spec fn conditional(base: Register, c: Fragment, n: Fragment, y: Fragment) -> Fragment {
    c.emit(branch_if(base, (n.code.len() + 2) as int)).followed_by(n).emit(
        branch((y.code.len() + 1) as int),
    ).followed_by(y)
}

/// The code of one branch of a conditional: a block that must not be
/// empty, and of which only the last expression can be in tail position.
pub open spec fn lower_branch(
    expressions: Seq<Expression>,
    base: Register,
    scope: Bindings,
    tail: bool,
    at: Position,
) -> Result<Fragment, InvalidProgram>
    decreases expressions, 1nat,
{
    if expressions.len() == 0 {
        Err(InvalidProgram::EmptyBranch)
    } else {
        lower_block(expressions, base, scope, false, tail, at)
    }
}

/// The code of a list of expressions, each evaluated into `base`, one after
/// the other. The last is in tail position if `last_tail` says so, the
/// others if `inner_tail` does.
pub open spec fn lower_block(
    expressions: Seq<Expression>,
    base: Register,
    scope: Bindings,
    inner_tail: bool,
    last_tail: bool,
    at: Position,
) -> Result<Fragment, InvalidProgram>
    decreases expressions, 0nat,
{
    if expressions.len() == 0 {
        Ok(Fragment::empty(at.table))
    } else {
        match lower_block(expressions.drop_last(), base, scope, inner_tail, inner_tail, at) {
            Err(e) => Err(e),
            Ok(before) => match lower(
                expressions.last(),
                base,
                scope,
                last_tail,
                at.after(before),
            ) {
                Err(e) => Err(e),
                Ok(last) => Ok(before.followed_by(last)),
            },
        }
    }
}

/// The code that evaluates the arguments of a call, in order: the first
/// into the register behind `base`, each further one into the next register.
pub open spec fn lower_arguments(
    arguments: Seq<Expression>,
    base: Register,
    scope: Bindings,
    at: Position,
) -> Result<Fragment, InvalidProgram>
    decreases arguments, 0nat,
{
    if arguments.len() == 0 {
        Ok(Fragment::empty(at.table))
    } else {
        match lower_arguments(arguments.drop_last(), base, scope, at) {
            Err(e) => Err(e),
            Ok(before) => {
                if base + arguments.len() > 255 || VAL + arguments.len() > 255 {
                    Err(InvalidProgram::RegisterOverflow)
                } else {
                    match lower(
                        arguments.last(),
                        (base + arguments.len()) as u8,
                        scope,
                        false,
                        at.after(before),
                    ) {
                        Err(e) => Err(e),
                        Ok(last) => Ok(before.followed_by(last)),
                    }
                }
            },
        }
    }
}

/// The code that evaluates the initialisers of a block's bindings, in
/// order, and the scope with all of them bound: the first into the register
/// behind `base`, each further one into the next register, and each in the
/// scope of those before it.
pub open spec fn lower_bindings(
    bindings: Seq<(String, Expression)>,
    base: Register,
    scope: Bindings,
    at: Position,
) -> Result<(Fragment, Bindings), InvalidProgram>
    decreases bindings, 0nat,
{
    if bindings.len() == 0 {
        Ok((Fragment::empty(at.table), scope))
    } else {
        match lower_bindings(bindings.drop_last(), base, scope, at) {
            Err(e) => Err(e),
            Ok(before) => {
                if base + bindings.len() > 255 {
                    Err(InvalidProgram::RegisterOverflow)
                } else {
                    let register = (base + bindings.len()) as u8;
                    match lower(bindings.last().1, register, before.1, false, at.after(before.0)) {
                        Err(e) => Err(e),
                        Ok(last) => Ok(
                            (
                                before.0.followed_by(last),
                                before.1.insert(
                                    bindings.last().0@,
                                    (ValueType::Integer, register),
                                ),
                            ),
                        ),
                    }
                }
            },
        }
    }
}

/// Whether a top-level expression defines a function.
pub open spec fn is_definition(expression: Expression) -> bool {
    expression is FunctionDefinition
}

/// The function definitions among the top-level expressions, in order.
pub open spec fn definitions(expressions: Seq<Expression>) -> Seq<Expression> {
    expressions.filter(|e: Expression| is_definition(e))
}

/// The top-level expressions that define no function, in order.
pub open spec fn statements(expressions: Seq<Expression>) -> Seq<Expression> {
    expressions.filter(|e: Expression| !is_definition(e))
}

/// The module that a program stands for: the code of its function
/// definitions, then, from the entry point on, the code of its other
/// top-level expressions, then a halt.
pub open spec fn compile(expressions: Seq<Expression>) -> Result<ModuleView, InvalidProgram> {
    match lower_block(
        definitions(expressions),
        VAL,
        Map::empty(),
        false,
        false,
        Position::start(),
    ) {
        Err(e) => Err(e),
        Ok(d) => match lower_block(
            statements(expressions),
            VAL,
            Map::empty(),
            false,
            false,
            Position::start().after(d),
        ) {
            Err(e) => Err(e),
            Ok(s) => Ok(
                ModuleView {
                    functions: d.functions + s.functions,
                    constants: d.constants + s.constants,
                    entry_point: d.code.len() as u64,
                    code: (d.code + s.code).push(halt()),
                },
            ),
        },
    }
}

/// Whether a step of code generation kept to `expected`: either it
/// appended the expected fragment to the module and left the expected
/// function table, or it failed for the expected reason.
pub open spec fn generated(
    expected: Result<Fragment, InvalidProgram>,
    before: ModuleView,
    after: ModuleView,
    table: Functions,
    outcome: Result<(), InvalidProgram>,
) -> bool {
    match expected {
        Ok(fragment) => outcome is Ok && after == before.extended(fragment) && table
            == fragment.table,
        Err(e) => outcome == Err::<(), InvalidProgram>(e),
    }
}

/// Once a prefix of a block has failed, the block fails in the same way.
pub proof fn lemma_block_stops(
    expressions: Seq<Expression>,
    count: int,
    base: Register,
    scope: Bindings,
    inner_tail: bool,
    last_tail: bool,
    at: Position,
)
    requires
        0 <= count < expressions.len(),
        lower_block(expressions.take(count), base, scope, inner_tail, inner_tail, at) is Err,
    ensures
        lower_block(expressions, base, scope, inner_tail, last_tail, at) == lower_block(
            expressions.take(count),
            base,
            scope,
            inner_tail,
            inner_tail,
            at,
        ),
    decreases expressions.len(),
{
    let shorter = expressions.drop_last();
    if count == shorter.len() {
        assert(expressions.take(count) =~= shorter);
    } else {
        assert(shorter.take(count) =~= expressions.take(count));
        lemma_block_stops(shorter, count, base, scope, inner_tail, inner_tail, at);
    }
}

/// Once the evaluation of some first arguments has failed, the evaluation
/// of all of them fails in the same way.
pub proof fn lemma_arguments_stop(
    arguments: Seq<Expression>,
    count: int,
    base: Register,
    scope: Bindings,
    at: Position,
)
    requires
        0 <= count <= arguments.len(),
        lower_arguments(arguments.take(count), base, scope, at) is Err,
    ensures
        lower_arguments(arguments, base, scope, at) == lower_arguments(
            arguments.take(count),
            base,
            scope,
            at,
        ),
    decreases arguments.len(),
{
    if count == arguments.len() {
        assert(arguments.take(count) =~= arguments);
    } else {
        let shorter = arguments.drop_last();
        assert(shorter.take(count) =~= arguments.take(count));
        lemma_arguments_stop(shorter, count, base, scope, at);
    }
}

/// Once the evaluation of some first bindings has failed, the evaluation of
/// all of them fails in the same way.
pub proof fn lemma_bindings_stop(
    bindings: Seq<(String, Expression)>,
    count: int,
    base: Register,
    scope: Bindings,
    at: Position,
)
    requires
        0 <= count <= bindings.len(),
        lower_bindings(bindings.take(count), base, scope, at) is Err,
    ensures
        lower_bindings(bindings, base, scope, at) == lower_bindings(
            bindings.take(count),
            base,
            scope,
            at,
        ),
    decreases bindings.len(),
{
    if count == bindings.len() {
        assert(bindings.take(count) =~= bindings);
    } else {
        let shorter = bindings.drop_last();
        assert(shorter.take(count) =~= bindings.take(count));
        lemma_bindings_stop(shorter, count, base, scope, at);
    }
}

} // verus!
