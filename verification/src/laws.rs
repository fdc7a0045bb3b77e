//! What holds of generated code whatever the program: theorems about the
//! fragments that expressions stand for.

use vstd::prelude::*;
use crate::ast::Expression;
use crate::bytecode::{
    unpack16, unpack16_of_packed, unpack16_signed, unpack24, unpack24_of_packed, Instruction,
    ModuleView, Register, POOL_CAPACITY,
};
use crate::error::InvalidProgram;
use crate::lowering::{
    branch, branch_if, call_sequence, compile, conditional, definitions, halt, lower, lower_arguments,
    lower_bindings, lower_block, lower_branch, Fragment, Position,
};
use crate::operators::binary_opcode;
use crate::ops;
use crate::scope::{Bindings, ValueType};

verus! {

/// A literal between -32768 and 32767 compiles to one instruction, an
/// immediate load into the base register whose operand bytes hold the
/// literal, and leaves the constant pool as it was.
pub proof fn small_literal_loads_immediate(
    value: i64,
    base: Register,
    scope: Bindings,
    tail: bool,
    at: Position,
    module: ModuleView,
)
    requires
        -32768 <= value <= 32767,
    ensures
        lower(Expression::Integer(value), base, scope, tail, at) matches Ok(f) && {
            &&& f.code.len() == 1
            &&& f.code[0].opcode == ops::LD
            &&& f.code[0].target == base
            &&& unpack16_signed(f.code[0].left, f.code[0].right) == value
            &&& f.constants.len() == 0
            &&& module.extended(f).constants == module.constants
            &&& module.extended(f).code == module.code.push(f.code[0])
        },
{
    let f = lower(Expression::Integer(value), base, scope, tail, at)->Ok_0;
    assert(module.extended(f).constants =~= module.constants);
    assert(module.extended(f).code =~= module.code.push(f.code[0]));
}

/// A literal outside -32768 to 32767 compiles, while the pool has room, to
/// one new constant, the literal itself, and one instruction: a load from
/// the pool into the base register whose operand bytes hold the index of
/// the new constant.
pub proof fn wide_literal_loads_from_pool(
    value: i64,
    base: Register,
    scope: Bindings,
    tail: bool,
    at: Position,
    module: ModuleView,
)
    requires
        value < -32768 || value > 32767,
        at.pool == module.constants.len(),
        at.pool < POOL_CAPACITY,
    ensures
        lower(Expression::Integer(value), base, scope, tail, at) matches Ok(f) && {
            &&& f.code.len() == 1
            &&& f.code[0].opcode == ops::LDB
            &&& f.code[0].target == base
            &&& unpack16(f.code[0].left, f.code[0].right) == module.constants.len()
            &&& module.extended(f).constants == module.constants.push(value)
            &&& module.extended(f).constants[unpack16(f.code[0].left, f.code[0].right)] == value
            &&& module.extended(f).code == module.code.push(f.code[0])
        },
{
    let f = lower(Expression::Integer(value), base, scope, tail, at)->Ok_0;
    assert(module.extended(f).constants =~= module.constants.push(value));
    assert(module.extended(f).code =~= module.code.push(f.code[0]));
}

/// A literal outside -32768 to 32767 is refused when the pool is full, and
/// only then does a literal fail to compile.
pub proof fn literal_fails_on_full_pool(
    value: i64,
    base: Register,
    scope: Bindings,
    tail: bool,
    at: Position,
)
    ensures
        lower(Expression::Integer(value), base, scope, tail, at) is Err <==> (value < -32768
            || value > 32767) && at.pool >= POOL_CAPACITY,
        lower(Expression::Integer(value), base, scope, tail, at) is Err ==> lower(
            Expression::Integer(value),
            base,
            scope,
            tail,
            at,
        ) == Err::<Fragment, _>(InvalidProgram::ConstantPoolFull),
{
}

/// The code of a binary operation is the code of its left operand,
/// generated into the register above the base, then the code of its right
/// operand, generated into the register above that, then one instruction
/// more: the operation, from these two registers into the base.
pub proof fn binary_operation_adds_one_instruction(
    symbol: String,
    left: Expression,
    right: Expression,
    base: Register,
    scope: Bindings,
    tail: bool,
    at: Position,
)
    requires
        lower(
            Expression::BinaryOp(symbol, Box::new(left), Box::new(right)),
            base,
            scope,
            tail,
            at,
        ) is Ok,
    ensures
        base + 2 <= 255,
        binary_opcode(symbol@) is Some,
        lower(left, (base + 1) as u8, scope, false, at) matches Ok(l) && lower(
            right,
            (base + 2) as u8,
            scope,
            false,
            at.after(l),
        ) matches Ok(r) && lower(
            Expression::BinaryOp(symbol, Box::new(left), Box::new(right)),
            base,
            scope,
            tail,
            at,
        ) matches Ok(f) && {
            &&& f.code == (l.code + r.code).push(
                Instruction {
                    opcode: binary_opcode(symbol@)->Some_0,
                    target: base,
                    left: (base + 1) as u8,
                    right: (base + 2) as u8,
                },
            )
            &&& f.code.len() == l.code.len() + r.code.len() + 1
            &&& f.constants == l.constants + r.constants
        },
{
}

/// The code of a call is the code of its arguments and then the call's own
/// instructions: one transfer for each argument, and behind them, in tail
/// position, a jump and nothing else; outside tail position, one call and
/// one load of the returned value into the base, in this order. Among the
/// call's own instructions a call in tail position has no call
/// instruction, and one outside tail position has exactly one.
pub proof fn call_enters_by_jump_or_by_call(
    name: String,
    arguments: Vec<Expression>,
    base: Register,
    scope: Bindings,
    tail: bool,
    at: Position,
)
    requires
        lower(Expression::Function(name, arguments), base, scope, tail, at) is Ok,
    ensures
        at.table.contains_key(name@),
        lower_arguments(arguments@, base, scope, at) matches Ok(a) && lower(
            Expression::Function(name, arguments),
            base,
            scope,
            tail,
            at,
        ) matches Ok(f) && {
            let count = arguments@.len() as int;
            let own = call_sequence(at.table[name@], arguments@.len(), base, tail);
            &&& f.code == a.code + own
            &&& f.constants == a.constants
            &&& forall|k: int|
                0 <= k < count ==> (#[trigger] own[k]).opcode == (if tail {
                    ops::MOV
                } else {
                    ops::MVO
                })
            &&& tail ==> {
                &&& own.len() == count + 1
                &&& own[count].opcode == ops::JMP
                &&& forall|k: int| 0 <= k < own.len() ==> (#[trigger] own[k]).opcode != ops::CAL
            }
            &&& !tail ==> {
                &&& own.len() == count + 2
                &&& own[count].opcode == ops::CAL
                &&& own[count + 1].opcode == ops::LDR
                &&& own[count + 1].target == base
                &&& forall|k: int|
                    0 <= k < own.len() && k != count ==> (#[trigger] own[k]).opcode != ops::CAL
                &&& forall|k: int|
                    0 <= k < own.len() && k != count + 1 ==> (#[trigger] own[k]).opcode
                        != ops::LDR
            }
        },
{
}

/// In a block of bindings that compiles, the initialiser of the binding
/// number `k`, counted from 0, is evaluated into the register `k + 1` above
/// the base, behind the code of the initialisers before it and in the scope
/// that they leave.
pub proof fn binding_takes_next_register(
    bindings: Seq<(String, Expression)>,
    k: int,
    base: Register,
    scope: Bindings,
    at: Position,
)
    requires
        0 <= k < bindings.len(),
        lower_bindings(bindings, base, scope, at) is Ok,
    ensures
        base + k + 1 <= 255,
        lower_bindings(bindings.take(k), base, scope, at) matches Ok(before) && lower(
            bindings[k].1,
            (base + k + 1) as u8,
            before.1,
            false,
            at.after(before.0),
        ) matches Ok(step) && lower_bindings(bindings.take(k + 1), base, scope, at) == Ok::<
            _,
            InvalidProgram,
        >(
            (
                before.0.followed_by(step),
                before.1.insert(bindings[k].0@, (ValueType::Integer, (base + k + 1) as u8)),
            ),
        ),
    decreases bindings.len(),
{
    let shorter = bindings.drop_last();
    if k == bindings.len() - 1 {
        assert(bindings.take(k) =~= shorter);
        assert(bindings.take(k + 1) =~= bindings);
    } else {
        assert(shorter.take(k) =~= bindings.take(k));
        assert(shorter.take(k + 1) =~= bindings.take(k + 1));
        binding_takes_next_register(shorter, k, base, scope, at);
    }
}

/// The number of the last of the first `k` bindings that binds `name`,
/// counted from 0, or -1 if none of them does.
pub open spec fn last_binding_of(bindings: Seq<(String, Expression)>, k: int, name: Seq<char>) -> int
    decreases k,
{
    if k <= 0 {
        -1
    } else if bindings[k - 1].0@ == name {
        k - 1
    } else {
        last_binding_of(bindings, k - 1, name)
    }
}

/// `last_binding_of` finds a binding of the name among the first `k`,
/// behind which none of them binds the name again; it finds none only if
/// there is none.
pub proof fn last_binding_is_last(bindings: Seq<(String, Expression)>, k: int, name: Seq<char>)
    requires
        0 <= k <= bindings.len(),
    ensures
        -1 <= last_binding_of(bindings, k, name) < k,
        last_binding_of(bindings, k, name) >= 0 ==> bindings[last_binding_of(
            bindings,
            k,
            name,
        )].0@ == name,
        forall|l: int|
            last_binding_of(bindings, k, name) < l < k ==> (#[trigger] bindings[l]).0@ != name,
    decreases k,
{
    if k > 0 && bindings[k - 1].0@ != name {
        last_binding_is_last(bindings, k - 1, name);
    }
}

/// The scope that the first `k` bindings of a block leave, and so the scope
/// in which the initialiser behind them is evaluated: a name that the
/// binding number `j` was the last of them to bind is held by the register
/// `j + 1` above the base, and a name that none of them binds means what it
/// means outside the block. So an initialiser sees the bindings before it,
/// and none of those behind it.
pub proof fn binding_sees_earlier_bindings_only(
    bindings: Seq<(String, Expression)>,
    k: int,
    base: Register,
    scope: Bindings,
    at: Position,
    name: Seq<char>,
)
    requires
        0 <= k <= bindings.len(),
        lower_bindings(bindings.take(k), base, scope, at) is Ok,
    ensures
        ({
            let inner = lower_bindings(bindings.take(k), base, scope, at)->Ok_0.1;
            let j = last_binding_of(bindings, k, name);
            if j < 0 {
                &&& inner.contains_key(name) == scope.contains_key(name)
                &&& scope.contains_key(name) ==> inner[name] == scope[name]
            } else {
                &&& inner.contains_key(name)
                &&& inner[name] == (ValueType::Integer, (base + j + 1) as u8)
            }
        }),
    decreases k,
{
    if k > 0 {
        let first = bindings.take(k);
        assert(first.drop_last() =~= bindings.take(k - 1));
        assert(first.last() == bindings[k - 1]);
        binding_sees_earlier_bindings_only(bindings, k - 1, base, scope, at, name);
    } else {
        assert(bindings.take(0).len() == 0);
    }
}

/// A block with `n` bindings evaluates its body into the register `n`
/// above the base, in the scope that the bindings leave, and ends with one
/// move of that register into the base.
pub proof fn block_moves_its_value_into_base(
    bindings: Vec<(String, Expression)>,
    body: Vec<Expression>,
    base: Register,
    scope: Bindings,
    tail: bool,
    at: Position,
)
    requires
        lower(Expression::VariableAssignment(bindings, body), base, scope, tail, at) is Ok,
    ensures
        base + bindings@.len() <= 255,
        lower_bindings(bindings@, base, scope, at) matches Ok(bound) && lower_block(
            body@,
            (base + bindings@.len()) as u8,
            bound.1,
            false,
            false,
            at.after(bound.0),
        ) matches Ok(b) && lower(
            Expression::VariableAssignment(bindings, body),
            base,
            scope,
            tail,
            at,
        ) matches Ok(f) && f.code == (bound.0.code + b.code).push(
            Instruction {
                opcode: ops::MOV,
                target: base,
                left: (base + bindings@.len()) as u8,
                right: 0,
            },
        ),
{
    if bindings@.len() > 0 {
        binding_takes_next_register(bindings@, bindings@.len() - 1, base, scope, at);
    }
}

/// How the code of a conditional is laid out, given the code of its
/// parts: the condition, the first branch, the expressions for the case
/// that the condition does not hold, the second branch, the expressions
/// for the case that it holds. Each branch's offset, followed from the
/// branch's own place, leads to the end of what it skips, as long as it
/// fits the operand bytes that hold it.
pub proof fn conditional_layout(base: Register, c: Fragment, n: Fragment, y: Fragment)
    ensures
        ({
            let f = conditional(base, c, n, y);
            let first = c.code.len() as int;
            let second = first + 1 + n.code.len();
            let start_of_yes = second + 1;
            &&& f.code.len() == start_of_yes + y.code.len()
            &&& f.code.subrange(0, first) == c.code
            &&& f.code[first].opcode == ops::JTF
            &&& f.code[first].target == base
            &&& f.code.subrange(first + 1, second) == n.code
            &&& f.code[second].opcode == ops::JMF
            &&& f.code.subrange(start_of_yes, f.code.len() as int) == y.code
            &&& n.code.len() + 2 < 0x1_0000 ==> first + unpack16(
                f.code[first].left,
                f.code[first].right,
            ) == start_of_yes
            &&& y.code.len() + 1 < 0x100_0000 ==> second + unpack24(
                f.code[second].target,
                f.code[second].left,
                f.code[second].right,
            ) == f.code.len()
        }),
{
    let f = conditional(base, c, n, y);
    let first = c.code.len() as int;
    let second = first + 1 + n.code.len();
    let jump = branch_if(base, (n.code.len() + 2) as int);
    let skip = branch((y.code.len() + 1) as int);
    assert(f.code =~= c.code.push(jump) + n.code.push(skip) + y.code);
    assert(f.code[first] == jump);
    assert(f.code[second] == skip);
    assert(f.code.subrange(0, first) =~= c.code);
    assert(f.code.subrange(first + 1, second) =~= n.code);
    assert(f.code.subrange(second + 1, f.code.len() as int) =~= y.code);
    if n.code.len() + 2 < 0x1_0000 {
        unpack16_of_packed((n.code.len() + 2) as int);
    }
    if y.code.len() + 1 < 0x100_0000 {
        unpack24_of_packed((y.code.len() + 1) as int);
    }
}

/// The code of a conditional that compiles is laid out as
/// `conditional_layout` says, from the code of the condition, generated
/// into the base register, and the code of the two lists of expressions,
/// neither of them empty, generated into the base register as well. So the
/// first branch leads to the first instruction of the expressions for the
/// case that the condition holds, and the second branch to the first
/// instruction behind them.
pub proof fn branches_lead_past_their_blocks(
    condition: Expression,
    yes: Vec<Expression>,
    no: Vec<Expression>,
    base: Register,
    scope: Bindings,
    tail: bool,
    at: Position,
)
    requires
        lower(Expression::Conditional(Box::new(condition), yes, no), base, scope, tail, at) is Ok,
    ensures
        yes@.len() > 0,
        no@.len() > 0,
        lower(condition, base, scope, false, at) matches Ok(c) && lower_block(
            no@,
            base,
            scope,
            false,
            tail,
            at.after(c).past(1),
        ) matches Ok(n) && lower_block(
            yes@,
            base,
            scope,
            false,
            tail,
            at.after(c).past(1).after(n).past(1),
        ) matches Ok(y) && lower(
            Expression::Conditional(Box::new(condition), yes, no),
            base,
            scope,
            tail,
            at,
        ) == Ok::<_, InvalidProgram>(conditional(base, c, n, y)),
{
    let c = lower(condition, base, scope, false, at)->Ok_0;
    let at_no = at.after(c).past(1);
    let n = lower_branch(no@, base, scope, tail, at_no);
    assert(n is Ok);
    assert(n == lower_block(no@, base, scope, false, tail, at_no));
    let at_yes = at_no.after(n->Ok_0).past(1);
    let y = lower_branch(yes@, base, scope, tail, at_yes);
    assert(y is Ok);
    assert(y == lower_block(yes@, base, scope, false, tail, at_yes));
}

/// A program that compiles gives a module whose last instruction is a
/// halt, and whose entry point is the address behind the code of its
/// function definitions.
pub proof fn module_ends_with_halt(expressions: Seq<Expression>)
    requires
        compile(expressions) is Ok,
    ensures
        compile(expressions) matches Ok(module) && lower_block(
            definitions(expressions),
            crate::bytecode::VAL,
            Map::empty(),
            false,
            false,
            Position::start(),
        ) matches Ok(d) && {
            &&& module.code.len() > 0
            &&& module.code.last() == halt()
            &&& d.code.len() < module.code.len()
            &&& module.code.subrange(0, d.code.len() as int) == d.code
            &&& module.functions.subrange(0, d.functions.len() as int) == d.functions
            &&& d.code.len() <= u64::MAX ==> module.entry_point == d.code.len()
        },
{
    let module = compile(expressions)->Ok_0;
    let d = lower_block(
        definitions(expressions),
        crate::bytecode::VAL,
        Map::empty(),
        false,
        false,
        Position::start(),
    )->Ok_0;
    assert(module.code.subrange(0, d.code.len() as int) =~= d.code);
    assert(module.functions.subrange(0, d.functions.len() as int) =~= d.functions);
}

/// Whether an instruction leaves every register of its own frame below
/// `base` as it was: it writes into the frame of a callee, or its target
/// byte is no register but part of a function index or a branch offset,
/// or it writes a register at or above `base`.
pub open spec fn spares_below(instruction: Instruction, base: Register) -> bool {
    ||| instruction.opcode == ops::MVO
    ||| instruction.opcode == ops::CAL
    ||| instruction.opcode == ops::JMF
    ||| instruction.target >= base
}

/// Whether no instruction of `code` writes a register of its own frame
/// below `base`.
pub open spec fn code_spares_below(code: Seq<Instruction>, base: Register) -> bool {
    forall|k: int| 0 <= k < code.len() ==> spares_below(#[trigger] code[k], base)
}

/// Whether an expression holds no function definition.
pub open spec fn defines_nothing(expression: Expression) -> bool
    decreases expression, 0nat,
{
    match expression {
        Expression::Integer(_) => true,
        Expression::BinaryOp(_, left, right) => defines_nothing(*left) && defines_nothing(*right),
        Expression::UnaryOp(_, operand) => defines_nothing(*operand),
        Expression::NullaryOp(_) => true,
        Expression::Function(_, arguments) => all_define_nothing(arguments@),
        Expression::FunctionDefinition(_, _, _) => false,
        Expression::VariableAssignment(bindings, body) => bindings_define_nothing(bindings@)
            && all_define_nothing(body@),
        Expression::Variable(_) => true,
        Expression::Conditional(condition, yes, no) => defines_nothing(*condition)
            && all_define_nothing(yes@) && all_define_nothing(no@),
    }
}

/// Whether none of the expressions holds a function definition.
pub open spec fn all_define_nothing(expressions: Seq<Expression>) -> bool
    decreases expressions, 0nat,
{
    expressions.len() == 0 || (all_define_nothing(expressions.drop_last()) && defines_nothing(
        expressions.last(),
    ))
}

/// Whether none of the initialisers holds a function definition.
pub open spec fn bindings_define_nothing(bindings: Seq<(String, Expression)>) -> bool
    decreases bindings, 0nat,
{
    bindings.len() == 0 || (bindings_define_nothing(bindings.drop_last()) && defines_nothing(
        bindings.last().1,
    ))
}

/// Outside tail position, the code of an expression that defines no
/// function writes no register of its frame below its base: what enclosing
/// expressions hold there stays.
pub proof fn code_keeps_registers_below_base(
    expression: Expression,
    base: Register,
    scope: Bindings,
    at: Position,
)
    requires
        defines_nothing(expression),
        lower(expression, base, scope, false, at) is Ok,
    ensures
        code_spares_below(lower(expression, base, scope, false, at)->Ok_0.code, base),
    decreases expression, 0nat,
{
    let f = lower(expression, base, scope, false, at)->Ok_0;
    match expression {
        Expression::Integer(_) => {
            assert(code_spares_below(f.code, base));
        },
        Expression::BinaryOp(symbol, left, right) => {
            let l = lower(*left, (base + 1) as u8, scope, false, at)->Ok_0;
            code_keeps_registers_below_base(*left, (base + 1) as u8, scope, at);
            code_keeps_registers_below_base(*right, (base + 2) as u8, scope, at.after(l));
            assert(code_spares_below(f.code, base));
        },
        Expression::UnaryOp(symbol, operand) => {
            code_keeps_registers_below_base(*operand, (base + 1) as u8, scope, at);
            assert(code_spares_below(f.code, base));
        },
        Expression::NullaryOp(_) => {
            assert(code_spares_below(f.code, base));
        },
        Expression::Function(name, arguments) => {
            arguments_keep_registers_below_base(arguments@, base, scope, at);
            assert(code_spares_below(f.code, base));
        },
        Expression::FunctionDefinition(_, _, _) => {},
        Expression::VariableAssignment(bindings, body) => {
            let bound = lower_bindings(bindings@, base, scope, at)->Ok_0;
            if bindings@.len() > 0 {
                binding_takes_next_register(bindings@, bindings@.len() - 1, base, scope, at);
            }
            bindings_keep_registers_below_base(bindings@, base, scope, at);
            block_keeps_registers_below_base(
                body@,
                (base + bindings@.len()) as u8,
                bound.1,
                at.after(bound.0),
            );
            assert(code_spares_below(f.code, base));
        },
        Expression::Variable(_) => {
            assert(code_spares_below(f.code, base));
        },
        Expression::Conditional(condition, yes, no) => {
            let c = lower(*condition, base, scope, false, at)->Ok_0;
            let at_no = at.after(c).past(1);
            let n = lower_branch(no@, base, scope, false, at_no);
            assert(n is Ok);
            assert(n == lower_block(no@, base, scope, false, false, at_no));
            let at_yes = at_no.after(n->Ok_0).past(1);
            let y = lower_branch(yes@, base, scope, false, at_yes);
            assert(y is Ok);
            assert(y == lower_block(yes@, base, scope, false, false, at_yes));
            code_keeps_registers_below_base(*condition, base, scope, at);
            block_keeps_registers_below_base(no@, base, scope, at_no);
            block_keeps_registers_below_base(yes@, base, scope, at_yes);
            assert(f == conditional(base, c, n->Ok_0, y->Ok_0));
            assert(code_spares_below(f.code, base));
        },
    }
}

/// Outside tail position, the code of a block of expressions that define
/// no function writes no register of its frame below the block's base.
pub proof fn block_keeps_registers_below_base(
    expressions: Seq<Expression>,
    base: Register,
    scope: Bindings,
    at: Position,
)
    requires
        all_define_nothing(expressions),
        lower_block(expressions, base, scope, false, false, at) is Ok,
    ensures
        code_spares_below(
            lower_block(expressions, base, scope, false, false, at)->Ok_0.code,
            base,
        ),
    decreases expressions, 1nat,
{
    if expressions.len() > 0 {
        let before = lower_block(expressions.drop_last(), base, scope, false, false, at)->Ok_0;
        block_keeps_registers_below_base(expressions.drop_last(), base, scope, at);
        code_keeps_registers_below_base(expressions.last(), base, scope, at.after(before));
    }
}

/// The code that evaluates the arguments of a call, if they define no
/// function, writes no register of its frame below the call's base.
pub proof fn arguments_keep_registers_below_base(
    arguments: Seq<Expression>,
    base: Register,
    scope: Bindings,
    at: Position,
)
    requires
        all_define_nothing(arguments),
        lower_arguments(arguments, base, scope, at) is Ok,
    ensures
        code_spares_below(lower_arguments(arguments, base, scope, at)->Ok_0.code, base),
    decreases arguments, 1nat,
{
    if arguments.len() > 0 {
        let before = lower_arguments(arguments.drop_last(), base, scope, at)->Ok_0;
        arguments_keep_registers_below_base(arguments.drop_last(), base, scope, at);
        code_keeps_registers_below_base(
            arguments.last(),
            (base + arguments.len()) as u8,
            scope,
            at.after(before),
        );
    }
}

/// The code that evaluates the initialisers of a block's bindings, if they
/// define no function, writes no register of its frame below the block's
/// base.
pub proof fn bindings_keep_registers_below_base(
    bindings: Seq<(String, Expression)>,
    base: Register,
    scope: Bindings,
    at: Position,
)
    requires
        bindings_define_nothing(bindings),
        lower_bindings(bindings, base, scope, at) is Ok,
    ensures
        code_spares_below(lower_bindings(bindings, base, scope, at)->Ok_0.0.code, base),
    decreases bindings, 1nat,
{
    if bindings.len() > 0 {
        let before = lower_bindings(bindings.drop_last(), base, scope, at)->Ok_0;
        bindings_keep_registers_below_base(bindings.drop_last(), base, scope, at);
        code_keeps_registers_below_base(
            bindings.last().1,
            (base + bindings.len()) as u8,
            before.1,
            at.after(before.0),
        );
    }
}

} // verus!
