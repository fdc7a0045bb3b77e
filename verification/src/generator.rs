//! Code generation: the instruction stream of a program, built from its
//! syntax tree in one walk.
//!
//! Every expression is generated into one register, its base; what it needs
//! for its operands it takes from the registers above the base.

use vstd::hash_map::StringHashMap;
use vstd::prelude::*;
use crate::ast::Expression;
use crate::bytecode::{
    pack, pack_immediate, Instruction, Module, ModuleView, Register, OUTGOING, POOL_CAPACITY, VAL,
};
use crate::error::InvalidProgram;
use crate::lowering::{
    bind_parameters, branch_if, call_sequence, compile, conditional, definitions, generated, halt,
    is_definition, lemma_arguments_stop, lemma_bindings_stop, lemma_block_stops, lower,
    lower_arguments, lower_bindings, lower_block, lower_branch, lower_integer, move_register, ret,
    statements, transfer, Fragment, Functions, Position,
};
use crate::operators::{find_binary_opcode, find_nullary_opcode, find_unary_opcode};
use crate::ops;
use crate::scope::{Bindings, Scope, ValueType};

verus! {

/// What the generator knows of the place of an expression in its function.
struct OptimizationInfo<'a> {
    /// The name of the enclosing function.
    func_name: &'a str,
    /// Whether the expression's value is the value of the enclosing
    /// function, so that a call here may reuse the frame.
    tail: bool,
}

/// Generates instructions for an integer literal.
///
/// A literal that fits sixteen bits is loaded as an immediate. Any other
/// gets the next slot of the constant pool and is loaded from there.
fn expr_integer(value: i64, base: Register, module: &mut Module) -> (outcome: Result<
    (),
    InvalidProgram,
>)
    ensures
        forall|table: Functions|
            generated(
                #[trigger] lower_integer(value, base, Position::end_of(old(module)@, table)),
                old(module)@,
                final(module)@,
                table,
                outcome,
            ),
{
    if -32768 <= value && value <= 32767 {
        let (left, right) = pack_immediate(value as i16);
        module.code.push(Instruction { opcode: ops::LD, target: base, left, right });
        assert forall|table: Functions|
            generated(
                #[trigger] lower_integer(value, base, Position::end_of(old(module)@, table)),
                old(module)@,
                module@,
                table,
                Ok(()),
            ) by {
            let at = Position::end_of(old(module)@, table);
            assert(module@ =~= old(module)@.extended(lower_integer(value, base, at)->Ok_0));
        }
        Ok(())
    } else {
        let index = module.constants.len();
        if index >= POOL_CAPACITY {
            return Err(InvalidProgram::ConstantPoolFull);
        }
        let (left, right, _) = pack(index as u128);
        module.constants.push(value);
        module.code.push(Instruction { opcode: ops::LDB, target: base, left, right });
        assert forall|table: Functions|
            generated(
                #[trigger] lower_integer(value, base, Position::end_of(old(module)@, table)),
                old(module)@,
                module@,
                table,
                Ok(()),
            ) by {
            let at = Position::end_of(old(module)@, table);
            assert(module@ =~= old(module)@.extended(lower_integer(value, base, at)->Ok_0));
        }
        Ok(())
    }
}

/// Generates instructions for an operator without operands.
fn expr_nullary(op: &String, base: Register, module: &mut Module) -> (outcome: Result<
    (),
    InvalidProgram,
>)
    ensures
        forall|table: Functions|
            generated(
                #[trigger] lower(
                    Expression::NullaryOp(*op),
                    base,
                    Map::empty(),
                    false,
                    Position::end_of(old(module)@, table),
                ),
                old(module)@,
                final(module)@,
                table,
                outcome,
            ),
{
    match find_nullary_opcode(op.as_str()) {
        None => Err(InvalidProgram::InvalidOperator),
        Some(opcode) => {
            module.code.push(Instruction { opcode, target: base, left: 0, right: 0 });
            assert forall|table: Functions|
                generated(
                    #[trigger] lower(
                        Expression::NullaryOp(*op),
                        base,
                        Map::empty(),
                        false,
                        Position::end_of(old(module)@, table),
                    ),
                    old(module)@,
                    module@,
                    table,
                    Ok(()),
                ) by {
                let at = Position::end_of(old(module)@, table);
                assert(module@ =~= old(module)@.extended(
                    lower(Expression::NullaryOp(*op), base, Map::empty(), false, at)->Ok_0,
                ));
            }
            Ok(())
        },
    }
}

/// Generates instructions for the use of a variable: a move from the
/// register that holds it.
fn expr_variable(name: &String, base: Register, vars: &Scope, module: &mut Module) -> (outcome:
    Result<(), InvalidProgram>)
    ensures
        forall|table: Functions|
            generated(
                #[trigger] lower(
                    Expression::Variable(*name),
                    base,
                    vars@,
                    false,
                    Position::end_of(old(module)@, table),
                ),
                old(module)@,
                final(module)@,
                table,
                outcome,
            ),
{
    match vars.get(name) {
        None => Err(InvalidProgram::UndefinedVariable(name.clone())),
        Some((_, register)) => {
            module.code.push(Instruction { opcode: ops::MOV, target: base, left: register, right: 0 });
            assert forall|table: Functions|
                generated(
                    #[trigger] lower(
                        Expression::Variable(*name),
                        base,
                        vars@,
                        false,
                        Position::end_of(old(module)@, table),
                    ),
                    old(module)@,
                    module@,
                    table,
                    Ok(()),
                ) by {
                let at = Position::end_of(old(module)@, table);
                assert(module@ =~= old(module)@.extended(
                    lower(Expression::Variable(*name), base, vars@, false, at)->Ok_0,
                ));
            }
            Ok(())
        },
    }
}

/// Generates instructions for the syntax tree rooted in `expr`, which
/// leave its value in the register `base`.
fn generate_expression(
    expr: &Expression,
    base: Register,
    func: &mut StringHashMap<u32>,
    vars: &Scope,
    module: &mut Module,
    oinfo: &OptimizationInfo,
) -> (outcome: Result<(), InvalidProgram>)
    ensures
        generated(
            lower(*expr, base, vars@, oinfo.tail, Position::end_of(old(module)@, old(func)@)),
            old(module)@,
            final(module)@,
            final(func)@,
            outcome,
        ),
    decreases *expr, 1nat,
{
    match expr {
        Expression::Integer(i) => expr_integer(*i, base, module),
        Expression::BinaryOp(op, left, right) => {
            let optimizations = OptimizationInfo { func_name: oinfo.func_name, tail: false };
            expr_binary(op, left, right, base, func, vars, module, &optimizations)
        },
        Expression::UnaryOp(op, left) => {
            let optimizations = OptimizationInfo { func_name: oinfo.func_name, tail: false };
            expr_unary(op, left, base, func, vars, module, &optimizations)
        },
        Expression::NullaryOp(op) => {
            let outcome = expr_nullary(op, base, module);
            proof {
                let at = Position::end_of(old(module)@, old(func)@);
                assert(lower(*expr, base, vars@, oinfo.tail, at) == lower(
                    Expression::NullaryOp(*op),
                    base,
                    Map::empty(),
                    false,
                    at,
                ));
            }
            outcome
        },
        Expression::Function(name, param) => expr_call(
            name,
            param,
            base,
            func,
            vars,
            module,
            oinfo,
        ),
        Expression::FunctionDefinition(name, param, body) => {
            let optimizations = OptimizationInfo { func_name: name.as_str(), tail: true };
            expr_fundef(name, param, body, base, func, vars, module, &optimizations)
        },
        Expression::VariableAssignment(assignments, body) => {
            let optimizations = OptimizationInfo { func_name: oinfo.func_name, tail: false };
            expr_varass(assignments, body, base, func, vars, module, &optimizations)
        },
        Expression::Variable(name) => {
            let outcome = expr_variable(name, base, vars, module);
            proof {
                let at = Position::end_of(old(module)@, old(func)@);
                assert(lower(*expr, base, vars@, oinfo.tail, at) == lower(
                    Expression::Variable(*name),
                    base,
                    vars@,
                    false,
                    at,
                ));
            }
            outcome
        },
        Expression::Conditional(condition, yes, no) => expr_conditional(
            condition,
            yes,
            no,
            base,
            func,
            vars,
            module,
            oinfo,
        ),
    }
}

/// Generates instructions for the first `count` expressions of a block,
/// each into the register `base`.
#[verifier::loop_isolation(false)]
fn generate_sequence(
    expressions: &Vec<Expression>,
    count: usize,
    base: Register,
    func: &mut StringHashMap<u32>,
    vars: &Scope,
    module: &mut Module,
    oinfo: &OptimizationInfo,
) -> (outcome: Result<(), InvalidProgram>)
    requires
        count <= expressions.len(),
    ensures
        generated(
            lower_block(
                expressions@.take(count as int),
                base,
                vars@,
                oinfo.tail,
                oinfo.tail,
                Position::end_of(old(module)@, old(func)@),
            ),
            old(module)@,
            final(module)@,
            final(func)@,
            outcome,
        ),
    decreases *expressions, 0nat,
{
    let ghost before = module@;
    let ghost at = Position::end_of(module@, func@);
    let ghost block = expressions@.take(count as int);
    let ghost mut done = Fragment::empty(func@);
    let mut i: usize = 0;
    assert(block.take(0) =~= Seq::empty());
    assert(module@ =~= before.extended(done));
    while i < count
        invariant
            i <= count <= expressions.len(),
            block == expressions@.take(count as int),
            at == Position::end_of(before, old(func)@),
            lower_block(block.take(i as int), base, vars@, oinfo.tail, oinfo.tail, at) == Ok::<
                Fragment,
                InvalidProgram,
            >(done),
            module@ == before.extended(done),
            func@ == done.table,
        decreases count - i,
    {
        let ghost prefix = block.take(i + 1);
        proof {
            assert(prefix.drop_last() =~= block.take(i as int));
            assert(prefix.last() == expressions@[i as int]);
            assert(decreases_to!(*expressions => expressions@[i as int]));
        }
        match generate_expression(&expressions[i], base, func, vars, module, oinfo) {
            Err(e) => {
                proof {
                    if i + 1 < count {
                        assert(block.take(i + 1) == prefix);
                        lemma_block_stops(block, i + 1, base, vars@, oinfo.tail, oinfo.tail, at);
                    } else {
                        assert(prefix =~= block);
                    }
                }
                return Err(e);
            },
            Ok(()) => {},
        }
        proof {
            let step = lower(expressions@[i as int], base, vars@, oinfo.tail, at.after(done))->Ok_0;
            assert(module@ =~= before.extended(done.followed_by(step)));
            done = done.followed_by(step);
        }
        i = i + 1;
    }
    assert(block.take(count as int) =~= block);
    Ok(())
}

/// Generates instructions for a binary operation: the left operand into
/// the register above `base`, the right operand into the one above that,
/// and then the operation itself.
fn expr_binary(
    op: &String,
    left: &Expression,
    right: &Expression,
    base: Register,
    func: &mut StringHashMap<u32>,
    vars: &Scope,
    module: &mut Module,
    oinfo: &OptimizationInfo,
) -> (outcome: Result<(), InvalidProgram>)
    requires
        !oinfo.tail,
    ensures
        generated(
            lower(
                Expression::BinaryOp(*op, Box::new(*left), Box::new(*right)),
                base,
                vars@,
                false,
                Position::end_of(old(module)@, old(func)@),
            ),
            old(module)@,
            final(module)@,
            final(func)@,
            outcome,
        ),
    decreases Expression::BinaryOp(*op, Box::new(*left), Box::new(*right)), 0nat,
{
    let ghost node = Expression::BinaryOp(*op, Box::new(*left), Box::new(*right));
    let ghost before = module@;
    let ghost at = Position::end_of(module@, func@);
    proof {
        assert(node->BinaryOp_1 == *left && node->BinaryOp_2 == *right);
        assert(decreases_to!(node => node->BinaryOp_1));
        assert(decreases_to!(node => node->BinaryOp_2));
    }
    if base >= 255 {
        return Err(InvalidProgram::RegisterOverflow);
    }
    let reg_left = base + 1;
    match generate_expression(left, reg_left, func, vars, module, oinfo) {
        Err(e) => {
            return Err(e);
        },
        Ok(()) => {},
    }
    let ghost l = lower(*left, reg_left, vars@, false, at)->Ok_0;
    if base >= 254 {
        return Err(InvalidProgram::RegisterOverflow);
    }
    let reg_right = base + 2;
    match generate_expression(right, reg_right, func, vars, module, oinfo) {
        Err(e) => {
            return Err(e);
        },
        Ok(()) => {},
    }
    let ghost r = lower(*right, reg_right, vars@, false, at.after(l))->Ok_0;
    match find_binary_opcode(op.as_str()) {
        None => Err(InvalidProgram::InvalidOperator),
        Some(opcode) => {
            let instruction = Instruction { opcode, target: base, left: reg_left, right: reg_right };
            module.code.push(instruction);
            assert(module@ =~= before.extended(l.followed_by(r).emit(instruction)));
            Ok(())
        },
    }
}

/// Generates instructions for a unary operation: the operand into the
/// register above `base`, and then the operation itself.
fn expr_unary(
    op: &String,
    left: &Expression,
    base: Register,
    func: &mut StringHashMap<u32>,
    vars: &Scope,
    module: &mut Module,
    oinfo: &OptimizationInfo,
) -> (outcome: Result<(), InvalidProgram>)
    requires
        !oinfo.tail,
    ensures
        generated(
            lower(
                Expression::UnaryOp(*op, Box::new(*left)),
                base,
                vars@,
                false,
                Position::end_of(old(module)@, old(func)@),
            ),
            old(module)@,
            final(module)@,
            final(func)@,
            outcome,
        ),
    decreases Expression::UnaryOp(*op, Box::new(*left)), 0nat,
{
    let ghost node = Expression::UnaryOp(*op, Box::new(*left));
    let ghost before = module@;
    let ghost at = Position::end_of(module@, func@);
    proof {
        assert(node->UnaryOp_1 == *left);
        assert(decreases_to!(node => node->UnaryOp_1));
    }
    if base >= 255 {
        return Err(InvalidProgram::RegisterOverflow);
    }
    let reg_left = base + 1;
    match generate_expression(left, reg_left, func, vars, module, oinfo) {
        Err(e) => {
            return Err(e);
        },
        Ok(()) => {},
    }
    let ghost o = lower(*left, reg_left, vars@, false, at)->Ok_0;
    match find_unary_opcode(op.as_str()) {
        None => Err(InvalidProgram::InvalidOperator),
        Some(opcode) => {
            let instruction = Instruction { opcode, target: base, left: reg_left, right: 0 };
            module.code.push(instruction);
            assert(module@ =~= before.extended(o.emit(instruction)));
            Ok(())
        },
    }
}

/// Generates instructions for a function call.
///
/// The arguments are evaluated into the registers above `base`, in order,
/// and then handed over. In tail position the call is a jump that reuses
/// the frame; elsewhere it pushes a frame, and the callee's value is loaded
/// into `base` when it returns.
#[verifier::loop_isolation(false)]
fn expr_call(
    name: &String,
    param: &Vec<Expression>,
    base: Register,
    func: &mut StringHashMap<u32>,
    vars: &Scope,
    module: &mut Module,
    oinfo: &OptimizationInfo,
) -> (outcome: Result<(), InvalidProgram>)
    ensures
        generated(
            lower(
                Expression::Function(*name, *param),
                base,
                vars@,
                oinfo.tail,
                Position::end_of(old(module)@, old(func)@),
            ),
            old(module)@,
            final(module)@,
            final(func)@,
            outcome,
        ),
    decreases Expression::Function(*name, *param), 0nat,
{
    let ghost node = Expression::Function(*name, *param);
    let ghost before = module@;
    let ghost at = Position::end_of(module@, func@);
    let index = match func.get(name.as_str()) {
        Some(index) => *index,
        None => {
            return Err(InvalidProgram::UndefinedFunction(name.clone()));
        },
    };

    // Process each parameter expression before making the actual call
    let mut tmp_base = base;
    let mut tmp_param = VAL;
    let mut tmp_instructions: Vec<Instruction> = Vec::new();
    let mut mov_instruction = if oinfo.tail {
        Instruction { opcode: ops::MOV, target: tmp_param, left: tmp_base, right: 0 }
    } else {
        Instruction { opcode: ops::MVO, target: tmp_param, left: tmp_base, right: OUTGOING }
    };
    let param_oinfo = OptimizationInfo { func_name: oinfo.func_name, tail: false };

    let ghost mut done = Fragment::empty(func@);
    let mut i: usize = 0;
    assert(param@.take(0) =~= Seq::empty());
    assert(module@ =~= before.extended(done));
    while i < param.len()
        invariant
            i <= param.len(),
            node == Expression::Function(*name, *param),
            at == Position::end_of(before, old(func)@),
            !param_oinfo.tail,
            tmp_base == base + i,
            tmp_param == VAL + i,
            lower_arguments(param@.take(i as int), base, vars@, at) == Ok::<
                Fragment,
                InvalidProgram,
            >(done),
            module@ == before.extended(done),
            func@ == done.table,
            tmp_instructions@ == Seq::new(i as nat, |k: int| transfer(oinfo.tail, base, k + 1)),
            mov_instruction.opcode == (if oinfo.tail {
                ops::MOV
            } else {
                ops::MVO
            }),
            mov_instruction.right == (if oinfo.tail {
                0u8
            } else {
                OUTGOING
            }),
        decreases param.len() - i,
    {
        let ghost prefix = param@.take(i + 1);
        proof {
            assert(prefix.drop_last() =~= param@.take(i as int));
            assert(prefix.last() == param@[i as int]);
            assert(node->Function_1 == *param);
            assert(decreases_to!(node => node->Function_1));
            assert(decreases_to!(*param => param@[i as int]));
        }
        if tmp_base >= 255 || tmp_param >= 255 {
            proof {
                lemma_arguments_stop(param@, i + 1, base, vars@, at);
            }
            return Err(InvalidProgram::RegisterOverflow);
        }
        tmp_base += 1;
        tmp_param += 1;
        match generate_expression(&param[i], tmp_base, func, vars, module, &param_oinfo) {
            Err(e) => {
                proof {
                    lemma_arguments_stop(param@, i + 1, base, vars@, at);
                }
                return Err(e);
            },
            Ok(()) => {},
        }

        // Pass results to callee parameter registers
        mov_instruction.target = tmp_param;
        mov_instruction.left = tmp_base;
        tmp_instructions.push(mov_instruction);
        proof {
            let step = lower(param@[i as int], tmp_base, vars@, false, at.after(done))->Ok_0;
            assert(module@ =~= before.extended(done.followed_by(step)));
            done = done.followed_by(step);
            assert(tmp_instructions@ =~= Seq::new(
                (i + 1) as nat,
                |k: int| transfer(oinfo.tail, base, k + 1),
            ));
        }
        i = i + 1;
    }
    assert(param@.take(i as int) =~= param@);

    // Load results of parameter evaluation and make the call
    let (target, left, right) = pack(index as u128);
    module.code.append(&mut tmp_instructions);
    if oinfo.tail {
        module.code.push(Instruction { opcode: ops::JMP, target, left, right });
    } else {
        module.code.push(Instruction { opcode: ops::CAL, target, left, right });
        module.code.push(Instruction { opcode: ops::LDR, target: base, left: 0, right: 0 });
    }
    proof {
        let expected = Fragment {
            code: done.code + call_sequence(index, param@.len(), base, oinfo.tail),
            constants: done.constants,
            functions: done.functions,
            table: done.table,
        };
        assert(module@ =~= before.extended(expected));
    }
    Ok(())
}

/// Generates instructions for a function definition.
///
/// The function gets the next index of the function table, and the address
/// of the next instruction as its entry. Its parameters are bound to the
/// registers from `base` on, its body is evaluated into the register above
/// them, and its value moves into the return register before it returns.
#[verifier::loop_isolation(false)]
fn expr_fundef(
    name: &String,
    param: &Vec<String>,
    body: &Vec<Expression>,
    base: Register,
    func: &mut StringHashMap<u32>,
    vars: &Scope,
    module: &mut Module,
    oinfo: &OptimizationInfo,
) -> (outcome: Result<(), InvalidProgram>)
    requires
        oinfo.tail,
    ensures
        generated(
            lower(
                Expression::FunctionDefinition(*name, *param, *body),
                base,
                vars@,
                true,
                Position::end_of(old(module)@, old(func)@),
            ),
            old(module)@,
            final(module)@,
            final(func)@,
            outcome,
        ),
    decreases Expression::FunctionDefinition(*name, *param, *body), 0nat,
{
    let ghost node = Expression::FunctionDefinition(*name, *param, *body);
    let ghost before = module@;
    let ghost at = Position::end_of(module@, func@);
    let index = (func.len() as u64 % 0x1_0000_0000) as u32;
    let address = module.code.len() as u64;
    func.insert(name.clone(), index);
    module.functions.push(address);

    let lowest = base;
    let ghost outer = vars@;
    let mut base = base;
    let mut vars = vars.clone();
    let mut i: usize = 0;
    assert(param@.take(0) =~= Seq::empty());
    while i < param.len()
        invariant
            i <= param.len(),
            base == lowest + i,
            vars@ == bind_parameters(param@.take(i as int), lowest, outer),
        decreases param.len() - i,
    {
        vars.insert(param[i].clone(), ValueType::Integer, base);
        if base >= 255 {
            return Err(InvalidProgram::RegisterOverflow);
        }
        base += 1;
        proof {
            let prefix = param@.take(i + 1);
            assert(prefix.drop_last() =~= param@.take(i as int));
            assert(prefix.last() == param@[i as int]);
        }
        i = i + 1;
    }
    assert(param@.take(i as int) =~= param@);

    let base = base;
    let vars = &vars;
    proof {
        assert(node->FunctionDefinition_2 == *body);
        assert(decreases_to!(node => node->FunctionDefinition_2));
        assert(body@.take(body@.len() as int) =~= body@);
    }
    match generate_sequence(body, body.len(), base, func, vars, module, oinfo) {
        Err(e) => {
            return Err(e);
        },
        Ok(()) => {},
    }
    module.code.push(Instruction { opcode: ops::MOV, target: VAL, left: base, right: 0 });
    module.code.push(Instruction { opcode: ops::RET, target: 0, left: 0, right: 0 });
    proof {
        let defined = Position {
            address: at.address,
            pool: at.pool,
            table: at.table.insert(name@, index),
        };
        let b = lower_block(body@, base, vars@, true, true, defined)->Ok_0;
        let expected = Fragment {
            code: b.code.push(move_register(VAL, base)).push(ret()),
            constants: b.constants,
            functions: seq![address] + b.functions,
            table: b.table,
        };
        assert(module@ =~= before.extended(expected));
    }
    Ok(())
}

/// Generates instructions for a block that binds variables.
///
/// The initialisers are evaluated in order, each into the next register
/// above `base`, and each sees the variables bound before it. The body is
/// evaluated into the last of these registers, and its value moves into
/// `base`.
#[verifier::loop_isolation(false)]
fn expr_varass(
    assignment: &Vec<(String, Expression)>,
    body: &Vec<Expression>,
    base: Register,
    func: &mut StringHashMap<u32>,
    vars: &Scope,
    module: &mut Module,
    oinfo: &OptimizationInfo,
) -> (outcome: Result<(), InvalidProgram>)
    requires
        !oinfo.tail,
    ensures
        generated(
            lower(
                Expression::VariableAssignment(*assignment, *body),
                base,
                vars@,
                false,
                Position::end_of(old(module)@, old(func)@),
            ),
            old(module)@,
            final(module)@,
            final(func)@,
            outcome,
        ),
    decreases Expression::VariableAssignment(*assignment, *body), 0nat,
{
    let ghost node = Expression::VariableAssignment(*assignment, *body);
    let ghost before = module@;
    let ghost at = Position::end_of(module@, func@);
    let ghost outer = vars@;
    let mut tmp_base = base;
    let mut vars = vars.clone();
    let ghost mut done = Fragment::empty(func@);
    let mut i: usize = 0;
    assert(assignment@.take(0) =~= Seq::empty());
    assert(module@ =~= before.extended(done));
    while i < assignment.len()
        invariant
            i <= assignment.len(),
            node == Expression::VariableAssignment(*assignment, *body),
            at == Position::end_of(before, old(func)@),
            !oinfo.tail,
            tmp_base == base + i,
            lower_bindings(assignment@.take(i as int), base, outer, at) == Ok::<
                (Fragment, Bindings),
                InvalidProgram,
            >((done, vars@)),
            module@ == before.extended(done),
            func@ == done.table,
        decreases assignment.len() - i,
    {
        let ghost prefix = assignment@.take(i + 1);
        proof {
            assert(prefix.drop_last() =~= assignment@.take(i as int));
            assert(prefix.last() == assignment@[i as int]);
            assert(node->VariableAssignment_0 == *assignment);
            assert(decreases_to!(node => node->VariableAssignment_0));
            assert(decreases_to!(*assignment => assignment@[i as int]));
            assert(decreases_to!(assignment@[i as int] => assignment@[i as int].1));
        }
        if tmp_base >= 255 {
            proof {
                lemma_bindings_stop(assignment@, i + 1, base, outer, at);
            }
            return Err(InvalidProgram::RegisterOverflow);
        }
        tmp_base += 1;
        let binding = &assignment[i];
        match generate_expression(&binding.1, tmp_base, func, &vars, module, oinfo) {
            Err(e) => {
                proof {
                    lemma_bindings_stop(assignment@, i + 1, base, outer, at);
                }
                return Err(e);
            },
            Ok(()) => {},
        }
        proof {
            let step = lower(binding.1, tmp_base, vars@, false, at.after(done))->Ok_0;
            assert(module@ =~= before.extended(done.followed_by(step)));
            done = done.followed_by(step);
        }
        vars.insert(binding.0.clone(), ValueType::Integer, tmp_base);
        i = i + 1;
    }
    assert(assignment@.take(i as int) =~= assignment@);

    let tmp_base = tmp_base;
    let vars = &vars;
    proof {
        assert(node->VariableAssignment_1 == *body);
        assert(decreases_to!(node => node->VariableAssignment_1));
        assert(body@.take(body@.len() as int) =~= body@);
    }
    match generate_sequence(body, body.len(), tmp_base, func, vars, module, oinfo) {
        Err(e) => {
            return Err(e);
        },
        Ok(()) => {},
    }
    module.code.push(Instruction { opcode: ops::MOV, target: base, left: tmp_base, right: 0 });
    proof {
        let b = lower_block(body@, tmp_base, vars@, false, false, at.after(done))->Ok_0;
        assert(module@ =~= before.extended(
            done.followed_by(b).emit(move_register(base, tmp_base)),
        ));
    }
    Ok(())
}

/// Generates instructions for one branch of a conditional: every
/// expression but the last outside tail position, the last in the position
/// of the conditional itself.
fn generate_branch(
    expressions: &Vec<Expression>,
    base: Register,
    func: &mut StringHashMap<u32>,
    vars: &Scope,
    module: &mut Module,
    oinfo: &OptimizationInfo,
) -> (outcome: Result<(), InvalidProgram>)
    ensures
        generated(
            lower_branch(
                expressions@,
                base,
                vars@,
                oinfo.tail,
                Position::end_of(old(module)@, old(func)@),
            ),
            old(module)@,
            final(module)@,
            final(func)@,
            outcome,
        ),
    decreases *expressions, 1nat,
{
    if expressions.len() == 0 {
        return Err(InvalidProgram::EmptyBranch);
    }
    let last = expressions.len() - 1;
    let inner = OptimizationInfo { func_name: oinfo.func_name, tail: false };
    proof {
        assert(expressions@.take(last as int) =~= expressions@.drop_last());
        assert(decreases_to!(*expressions => expressions@[last as int]));
    }
    // Generate every expression except tail
    match generate_sequence(expressions, last, base, func, vars, module, &inner) {
        Err(e) => {
            return Err(e);
        },
        Ok(()) => {},
    }
    // Generate tail expression
    let ghost at = Position::end_of(old(module)@, old(func)@);
    let ghost before = lower_block(expressions@.drop_last(), base, vars@, false, false, at)->Ok_0;
    match generate_expression(&expressions[last], base, func, vars, module, oinfo) {
        Err(e) => {
            return Err(e);
        },
        Ok(()) => {},
    }
    proof {
        let step = lower(expressions@[last as int], base, vars@, oinfo.tail, at.after(before))->Ok_0;
        assert(module@ =~= old(module)@.extended(before.followed_by(step)));
    }
    Ok(())
}

/// Overwriting a reserved instruction, with code before and behind it,
/// gives the code as if the final instruction had been emitted at once.
proof fn lemma_patched(
    head: Seq<Instruction>,
    reserved: Instruction,
    rest: Seq<Instruction>,
    instruction: Instruction,
)
    ensures
        (head.push(reserved) + rest).update(head.len() as int, instruction) == head.push(
            instruction,
        ) + rest,
{
    assert((head.push(reserved) + rest).update(head.len() as int, instruction) =~= head.push(
        instruction,
    ) + rest);
}

/// Generates instructions for a conditional.
///
/// The condition is evaluated into `base`. A branch that is taken when it
/// holds skips the expressions for the other case and the branch that ends
/// them, which in turn skips the expressions for this case. Both branches
/// are emitted before their distance is known, and patched once it is.
fn expr_conditional(
    cond: &Expression,
    yes: &Vec<Expression>,
    no: &Vec<Expression>,
    base: Register,
    func: &mut StringHashMap<u32>,
    vars: &Scope,
    module: &mut Module,
    oinfo: &OptimizationInfo,
) -> (outcome: Result<(), InvalidProgram>)
    ensures
        generated(
            lower(
                Expression::Conditional(Box::new(*cond), *yes, *no),
                base,
                vars@,
                oinfo.tail,
                Position::end_of(old(module)@, old(func)@),
            ),
            old(module)@,
            final(module)@,
            final(func)@,
            outcome,
        ),
    decreases Expression::Conditional(Box::new(*cond), *yes, *no), 0nat,
{
    let ghost node = Expression::Conditional(Box::new(*cond), *yes, *no);
    let ghost before = module@;
    let ghost at = Position::end_of(module@, func@);
    proof {
        assert(node->Conditional_0 == *cond);
        assert(node->Conditional_1 == *yes);
        assert(node->Conditional_2 == *no);
        assert(decreases_to!(node => node->Conditional_0));
        assert(decreases_to!(node => node->Conditional_1));
        assert(decreases_to!(node => node->Conditional_2));
    }
    let condition_opti = OptimizationInfo { func_name: oinfo.func_name, tail: false };
    match generate_expression(cond, base, func, vars, module, &condition_opti) {
        Err(e) => {
            return Err(e);
        },
        Ok(()) => {},
    }
    let ghost c = lower(*cond, base, vars@, false, at)->Ok_0;

    let jmp_index = module.code.len();
    module.code.push(Instruction { opcode: ops::JTF, target: base, left: 0, right: 0 });
    let ghost at_no = at.after(c).past(1);
    let ghost reserved = module@;

    match generate_branch(no, base, func, vars, module, oinfo) {
        Err(e) => {
            return Err(e);
        },
        Ok(()) => {},
    }
    let ghost n = lower_branch(no@, base, vars@, oinfo.tail, at_no)->Ok_0;
    assert(module@ == reserved.extended(n));

    let offset = (module.code.len() - jmp_index) as u128 + 1;
    let (left, right, _) = pack(offset);
    let ghost placed = module@.code;
    module.code[jmp_index] = Instruction { opcode: ops::JTF, target: base, left, right };
    let ghost first = c.emit(branch_if(base, (n.code.len() + 2) as int)).followed_by(n);
    assert(module@.code == before.code + first.code) by {
        assert(offset == n.code.len() + 2);
        assert(placed =~= (before.code + c.code).push(placed[jmp_index as int]) + n.code);
        lemma_patched(before.code + c.code, placed[jmp_index as int], n.code, module@.code[jmp_index as int]);
        assert(module@.code =~= placed.update(jmp_index as int, module@.code[jmp_index as int]));
        assert(before.code + first.code =~= (before.code + c.code).push(module@.code[jmp_index as int]) + n.code);
    }
    assert(module@ =~= before.extended(first));

    let jmp_index = module.code.len();
    module.code.push(Instruction { opcode: ops::JMF, target: 0, left: 0, right: 0 });
    let ghost at_yes = at_no.after(n).past(1);
    let ghost reserved = module@;

    match generate_branch(yes, base, func, vars, module, oinfo) {
        Err(e) => {
            return Err(e);
        },
        Ok(()) => {},
    }
    let ghost y = lower_branch(yes@, base, vars@, oinfo.tail, at_yes)->Ok_0;
    assert(module@ == reserved.extended(y));

    let offset = (module.code.len() - jmp_index) as u128;
    let (target, left, right) = pack(offset);
    let ghost placed = module@.code;
    module.code[jmp_index] = Instruction { opcode: ops::JMF, target, left, right };
    let ghost whole = conditional(base, c, n, y);
    assert(module@.code == before.code + whole.code) by {
        assert(offset == y.code.len() + 1);
        assert(placed =~= (before.code + first.code).push(placed[jmp_index as int]) + y.code);
        lemma_patched(before.code + first.code, placed[jmp_index as int], y.code, module@.code[jmp_index as int]);
        assert(module@.code =~= placed.update(jmp_index as int, module@.code[jmp_index as int]));
        assert(before.code + whole.code =~= (before.code + first.code).push(module@.code[jmp_index as int]) + y.code);
    }
    assert(module@ =~= before.extended(whole));
    Ok(())
}

/// Generates a module from the top-level expressions of a program, or says
/// why the program is invalid.
///
/// Function definitions are generated first, in their order, so that the
/// module starts with the functions' code. The entry point is the address
/// behind them, where the code of the other top-level expressions starts,
/// in their order. The module ends with a halt.
pub fn try_generate(expressions: &[Expression]) -> (result: Result<Module, InvalidProgram>)
    ensures
        match result {
            Ok(module) => {
                &&& compile(expressions@) == Ok::<_, InvalidProgram>(module@)
                &&& module.code@.len() > 0
                &&& module.code@.last() == halt()
                &&& module.entry_point < module.code@.len()
            },
            Err(e) => compile(expressions@) == Err::<ModuleView, _>(e),
        },
{
    let mut func: StringHashMap<u32> = StringHashMap::new();
    let vars = Scope::new();
    let mut module = Module::new();

    // Initial optimization info structure
    let oinfo = OptimizationInfo { func_name: "NONE", tail: false };

    let ghost all = expressions@;
    let ghost empty = module@;
    let ghost start = Position::start();

    // Process function definitions first
    let ghost mut d = Fragment::empty(func@);
    let mut i: usize = 0;
    proof {
        reveal(Seq::filter);
        assert(all.take(0) =~= Seq::empty());
        assert(definitions(all.take(0)) =~= Seq::empty());
        assert(module@ =~= empty.extended(d));
    }
    while i < expressions.len()
        invariant
            i <= expressions.len(),
            all == expressions@,
            start == Position::start(),
            start == Position::end_of(empty, Map::empty()),
            !oinfo.tail,
            vars@ == Map::<Seq<char>, (ValueType, Register)>::empty(),
            lower_block(definitions(all.take(i as int)), VAL, vars@, false, false, start) == Ok::<
                Fragment,
                InvalidProgram,
            >(d),
            module@ == empty.extended(d),
            module.entry_point == 0,
            func@ == d.table,
        decreases expressions.len() - i,
    {
        let expr = &expressions[i];
        let ghost sofar = definitions(all.take(i as int));
        let ghost next = definitions(all.take(i + 1));
        proof {
            reveal(Seq::filter);
            assert(all.take(i + 1).drop_last() =~= all.take(i as int));
            assert(all.take(i + 1).last() == *expr);
        }
        let defines = match expr {
            Expression::FunctionDefinition(_, _, _) => true,
            _ => false,
        };
        if defines {
            proof {
                assert(next == sofar.push(*expr));
                assert(next.drop_last() =~= sofar);
            }
            match generate_expression(expr, VAL, &mut func, &vars, &mut module, &oinfo) {
                Err(e) => {
                    proof {
                        lemma_definitions_stop(all, i + 1);
                    }
                    return Err(e);
                },
                Ok(()) => {},
            }
            proof {
                let step = lower(*expr, VAL, vars@, false, start.after(d))->Ok_0;
                assert(module@ =~= empty.extended(d.followed_by(step)));
                d = d.followed_by(step);
            }
        }
        i = i + 1;
    }
    assert(all.take(i as int) =~= all);

    // Process top-level expressions to be evaluated
    module.entry_point = module.code.len() as u64;
    let ghost defined = module@;
    let ghost mut s = Fragment::empty(func@);
    let mut i: usize = 0;
    proof {
        reveal(Seq::filter);
        assert(all.take(0) =~= Seq::empty());
        assert(statements(all.take(0)) =~= Seq::empty());
        assert(module@ =~= defined.extended(s));
    }
    while i < expressions.len()
        invariant
            i <= expressions.len(),
            all == expressions@,
            start == Position::start(),
            start.after(d) == Position::end_of(defined, d.table),
            !oinfo.tail,
            vars@ == Map::<Seq<char>, (ValueType, Register)>::empty(),
            lower_block(definitions(all), VAL, vars@, false, false, start) == Ok::<
                Fragment,
                InvalidProgram,
            >(d),
            lower_block(
                statements(all.take(i as int)),
                VAL,
                vars@,
                false,
                false,
                start.after(d),
            ) == Ok::<Fragment, InvalidProgram>(s),
            module@ == defined.extended(s),
            func@ == s.table,
        decreases expressions.len() - i,
    {
        let expr = &expressions[i];
        let ghost sofar = statements(all.take(i as int));
        let ghost next = statements(all.take(i + 1));
        proof {
            reveal(Seq::filter);
            assert(all.take(i + 1).drop_last() =~= all.take(i as int));
            assert(all.take(i + 1).last() == *expr);
        }
        let defines = match expr {
            Expression::FunctionDefinition(_, _, _) => true,
            _ => false,
        };
        if !defines {
            proof {
                assert(next == sofar.push(*expr));
                assert(next.drop_last() =~= sofar);
            }
            match generate_expression(expr, VAL, &mut func, &vars, &mut module, &oinfo) {
                Err(e) => {
                    proof {
                        lemma_statements_stop(all, i + 1, start.after(d));
                    }
                    return Err(e);
                },
                Ok(()) => {},
            }
            proof {
                let step = lower(*expr, VAL, vars@, false, start.after(d).after(s))->Ok_0;
                assert(module@ =~= defined.extended(s.followed_by(step)));
                s = s.followed_by(step);
            }
        }
        i = i + 1;
    }
    assert(all.take(i as int) =~= all);

    // Always end with halt instruction
    module.code.push(Instruction { opcode: ops::HLT, target: 0, left: 0, right: 0 });
    proof {
        assert(module@ =~= compile(all)->Ok_0);
    }
    Ok(module)
}

/// Generates a module from the top-level expressions of a valid program.
pub fn generate(expressions: &[Expression]) -> (module: Module)
    requires
        compile(expressions@) is Ok,
    ensures
        compile(expressions@) == Ok::<_, InvalidProgram>(module@),
        module.code@.len() > 0,
        module.code@.last() == halt(),
        module.entry_point < module.code@.len(),
{
    match try_generate(expressions) {
        Ok(module) => module,
        Err(_) => vstd::pervasive::unreached(),
    }
}

/// Once the definitions among some first top-level expressions have failed
/// to compile, the definitions among all of them fail in the same way.
proof fn lemma_definitions_stop(expressions: Seq<Expression>, count: int)
    requires
        0 <= count <= expressions.len(),
        lower_block(
            definitions(expressions.take(count)),
            VAL,
            Map::empty(),
            false,
            false,
            Position::start(),
        ) is Err,
    ensures
        lower_block(definitions(expressions), VAL, Map::empty(), false, false, Position::start())
            == lower_block(
            definitions(expressions.take(count)),
            VAL,
            Map::empty(),
            false,
            false,
            Position::start(),
        ),
{
    let head = expressions.take(count);
    let rest = expressions.skip(count);
    assert(expressions =~= head + rest);
    Seq::filter_distributes_over_add(head, rest, |e: Expression| is_definition(e));
    let whole = definitions(expressions);
    let part = definitions(head);
    assert(whole.take(part.len() as int) =~= part);
    if part.len() < whole.len() {
        lemma_block_stops(whole, part.len() as int, VAL, Map::empty(), false, false, Position::start());
    } else {
        assert(whole =~= part);
    }
}

/// Once the statements among some first top-level expressions have failed
/// to compile, the statements among all of them fail in the same way.
proof fn lemma_statements_stop(expressions: Seq<Expression>, count: int, at: Position)
    requires
        0 <= count <= expressions.len(),
        lower_block(statements(expressions.take(count)), VAL, Map::empty(), false, false, at) is Err,
    ensures
        lower_block(statements(expressions), VAL, Map::empty(), false, false, at) == lower_block(
            statements(expressions.take(count)),
            VAL,
            Map::empty(),
            false,
            false,
            at,
        ),
{
    let head = expressions.take(count);
    let rest = expressions.skip(count);
    assert(expressions =~= head + rest);
    Seq::filter_distributes_over_add(head, rest, |e: Expression| !is_definition(e));
    let whole = statements(expressions);
    let part = statements(head);
    assert(whole.take(part.len() as int) =~= part);
    if part.len() < whole.len() {
        lemma_block_stops(whole, part.len() as int, VAL, Map::empty(), false, false, at);
    } else {
        assert(whole =~= part);
    }
}

} // verus!
