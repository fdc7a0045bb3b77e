use codegen::ops;
use codegen::{generate, try_generate, Expression, Instruction, InvalidProgram, Module};

fn ins(opcode: u8, target: u8, left: u8, right: u8) -> Instruction {
    Instruction { opcode, target, left, right }
}

fn lit(value: i64) -> Expression {
    Expression::Integer(value)
}

fn var(name: &str) -> Expression {
    Expression::Variable(name.to_string())
}

fn binary(symbol: &str, left: Expression, right: Expression) -> Expression {
    Expression::BinaryOp(symbol.to_string(), Box::new(left), Box::new(right))
}

fn unary(symbol: &str, operand: Expression) -> Expression {
    Expression::UnaryOp(symbol.to_string(), Box::new(operand))
}

fn call(name: &str, arguments: Vec<Expression>) -> Expression {
    Expression::Function(name.to_string(), arguments)
}

fn define(name: &str, parameters: &[&str], body: Vec<Expression>) -> Expression {
    Expression::FunctionDefinition(
        name.to_string(),
        parameters.iter().map(|p| p.to_string()).collect(),
        body,
    )
}

fn bind(bindings: Vec<(&str, Expression)>, body: Vec<Expression>) -> Expression {
    Expression::VariableAssignment(
        bindings.into_iter().map(|(name, init)| (name.to_string(), init)).collect(),
        body,
    )
}

fn when(condition: Expression, yes: Vec<Expression>, no: Vec<Expression>) -> Expression {
    Expression::Conditional(Box::new(condition), yes, no)
}

fn compiled(program: Vec<Expression>) -> Module {
    try_generate(&program).expect("the program is valid")
}

fn refused(program: Vec<Expression>) -> InvalidProgram {
    try_generate(&program).expect_err("the program is invalid")
}

#[test]
fn empty_program_is_a_single_halt() {
    let module = compiled(vec![]);
    assert_eq!(module.code, vec![ins(ops::HLT, 0, 0, 0)]);
    assert_eq!(module.constants, Vec::<i64>::new());
    assert_eq!(module.functions, Vec::<u64>::new());
    assert_eq!(module.entry_point, 0);
}

#[test]
fn small_literal_is_loaded_as_immediate() {
    let module = compiled(vec![lit(7)]);
    assert_eq!(module.code, vec![ins(ops::LD, 0, 7, 0), ins(ops::HLT, 0, 0, 0)]);
    assert!(module.constants.is_empty());
}

#[test]
fn immediate_is_packed_low_byte_first() {
    let module = compiled(vec![lit(0x1234)]);
    assert_eq!(module.code[0], ins(ops::LD, 0, 0x34, 0x12));
}

#[test]
fn negative_immediate_is_twos_complement() {
    let module = compiled(vec![lit(-1), lit(-2), lit(-256)]);
    assert_eq!(module.code[0], ins(ops::LD, 0, 0xFF, 0xFF));
    assert_eq!(module.code[1], ins(ops::LD, 0, 0xFE, 0xFF));
    assert_eq!(module.code[2], ins(ops::LD, 0, 0x00, 0xFF));
    assert!(module.constants.is_empty());
}

#[test]
fn immediate_range_ends_are_immediates() {
    let module = compiled(vec![lit(32767), lit(-32768)]);
    assert_eq!(module.code[0], ins(ops::LD, 0, 0xFF, 0x7F));
    assert_eq!(module.code[1], ins(ops::LD, 0, 0x00, 0x80));
    assert!(module.constants.is_empty());
}

#[test]
fn first_literals_past_the_range_go_to_the_pool() {
    let module = compiled(vec![lit(32768), lit(-32769)]);
    assert_eq!(module.constants, vec![32768, -32769]);
    assert_eq!(module.code[0], ins(ops::LDB, 0, 0, 0));
    assert_eq!(module.code[1], ins(ops::LDB, 0, 1, 0));
}

#[test]
fn bare_wide_literal() {
    let module = compiled(vec![lit(100000)]);
    assert_eq!(module.constants, vec![100000]);
    assert_eq!(module.code, vec![ins(ops::LDB, 0, 0, 0), ins(ops::HLT, 0, 0, 0)]);
    assert_eq!(module.entry_point, 0);
    assert!(module.functions.is_empty());
}

#[test]
fn extreme_literals_go_to_the_pool() {
    let module = compiled(vec![lit(i64::MAX), lit(i64::MIN)]);
    assert_eq!(module.constants, vec![i64::MAX, i64::MIN]);
}

#[test]
fn equal_wide_literals_get_a_slot_each() {
    let module = compiled(vec![lit(70000), lit(70000)]);
    assert_eq!(module.constants, vec![70000, 70000]);
    assert_eq!(module.code[1], ins(ops::LDB, 0, 1, 0));
}

#[test]
fn pool_index_is_packed_in_two_bytes() {
    let program: Vec<Expression> = (0..300).map(|k| lit(100000 + k)).collect();
    let module = compiled(program);
    assert_eq!(module.constants.len(), 300);
    assert_eq!(module.constants[299], 100299);
    assert_eq!(module.code[255], ins(ops::LDB, 0, 255, 0));
    assert_eq!(module.code[256], ins(ops::LDB, 0, 0, 1));
    assert_eq!(module.code[299], ins(ops::LDB, 0, 43, 1));
}

#[test]
fn pool_holds_65535_constants() {
    let program: Vec<Expression> = (0..65535).map(|k| lit(100000 + k)).collect();
    let module = compiled(program);
    assert_eq!(module.constants.len(), 65535);
    assert_eq!(module.code[65534], ins(ops::LDB, 0, 0xFE, 0xFF));
    assert_eq!(module.code.len(), 65536);
}

#[test]
fn pool_refuses_one_constant_more() {
    let program: Vec<Expression> = (0..65536).map(|k| lit(100000 + k)).collect();
    assert_eq!(refused(program), InvalidProgram::ConstantPoolFull);
}

#[test]
fn full_pool_still_takes_immediates() {
    let mut program: Vec<Expression> = (0..65535).map(|k| lit(100000 + k)).collect();
    program.push(lit(5));
    let module = compiled(program);
    assert_eq!(module.code[65535], ins(ops::LD, 0, 5, 0));
}

#[test]
fn binary_operation_uses_the_two_registers_above_base() {
    let module = compiled(vec![binary("+", lit(1), lit(2))]);
    assert_eq!(
        module.code,
        vec![
            ins(ops::LD, 1, 1, 0),
            ins(ops::LD, 2, 2, 0),
            ins(ops::ADD, 0, 1, 2),
            ins(ops::HLT, 0, 0, 0),
        ]
    );
}

#[test]
fn nested_binary_operations_climb_registers() {
    let module = compiled(vec![binary("*", binary("-", lit(1), lit(2)), binary("/", lit(3), lit(4)))]);
    assert_eq!(
        module.code,
        vec![
            ins(ops::LD, 2, 1, 0),
            ins(ops::LD, 3, 2, 0),
            ins(ops::SUB, 1, 2, 3),
            ins(ops::LD, 3, 3, 0),
            ins(ops::LD, 4, 4, 0),
            ins(ops::DIV, 2, 3, 4),
            ins(ops::MUL, 0, 1, 2),
            ins(ops::HLT, 0, 0, 0),
        ]
    );
}

#[test]
fn every_binary_operator_has_its_opcode() {
    let table = [
        ("+", ops::ADD),
        ("-", ops::SUB),
        ("*", ops::MUL),
        ("/", ops::DIV),
        ("&", ops::AND),
        ("|", ops::OR),
        ("==", ops::EQ),
        ("<", ops::LT),
        ("<=", ops::LE),
        (">", ops::GT),
        (">=", ops::GE),
        ("!=", ops::NEQ),
    ];
    for (symbol, opcode) in table {
        let module = compiled(vec![binary(symbol, lit(1), lit(2))]);
        assert_eq!(module.code.len(), 4);
        assert_eq!(module.code[2], ins(opcode, 0, 1, 2));
    }
}

#[test]
fn unknown_binary_operators_are_refused() {
    for symbol in ["", "%", "^", "=", "!", "=<", "+ ", "++", "<<", "===", "add", "~", "write", "read"] {
        assert_eq!(
            refused(vec![binary(symbol, lit(1), lit(2))]),
            InvalidProgram::InvalidOperator
        );
    }
}

#[test]
fn unary_operators() {
    let module = compiled(vec![unary("~", lit(5)), unary("write", lit(6))]);
    assert_eq!(
        module.code,
        vec![
            ins(ops::LD, 1, 5, 0),
            ins(ops::NOT, 0, 1, 0),
            ins(ops::LD, 1, 6, 0),
            ins(ops::WRI, 0, 1, 0),
            ins(ops::HLT, 0, 0, 0),
        ]
    );
}

#[test]
fn unknown_unary_operators_are_refused() {
    for symbol in ["", "-", "!", "writ", "writes", "Write", "wrote", "read", "+"] {
        assert_eq!(refused(vec![unary(symbol, lit(1))]), InvalidProgram::InvalidOperator);
    }
}

#[test]
fn nullary_operator() {
    let module = compiled(vec![Expression::NullaryOp("read".to_string())]);
    assert_eq!(module.code, vec![ins(ops::RDI, 0, 0, 0), ins(ops::HLT, 0, 0, 0)]);
}

#[test]
fn unknown_nullary_operators_are_refused() {
    for symbol in ["", "rea", "reads", "Read", "road", "write", "~"] {
        assert_eq!(
            refused(vec![Expression::NullaryOp(symbol.to_string())]),
            InvalidProgram::InvalidOperator
        );
    }
}

#[test]
fn operator_is_checked_after_its_operands() {
    assert_eq!(
        refused(vec![binary("?", var("x"), lit(1))]),
        InvalidProgram::UndefinedVariable("x".to_string())
    );
    assert_eq!(
        refused(vec![binary("?", lit(1), call("g", vec![]))]),
        InvalidProgram::UndefinedFunction("g".to_string())
    );
    assert_eq!(
        refused(vec![unary("?", var("y"))]),
        InvalidProgram::UndefinedVariable("y".to_string())
    );
}

#[test]
fn function_and_call_end_to_end() {
    let program = vec![
        define("f", &["x"], vec![binary("+", var("x"), lit(1))]),
        call("f", vec![lit(41)]),
    ];
    let module = compiled(program);
    assert_eq!(module.functions, vec![0]);
    assert!(module.constants.is_empty());
    assert_eq!(module.entry_point, 5);
    assert_eq!(
        module.code,
        vec![
            ins(ops::MOV, 2, 0, 0),
            ins(ops::LD, 3, 1, 0),
            ins(ops::ADD, 1, 2, 3),
            ins(ops::MOV, 0, 1, 0),
            ins(ops::RET, 0, 0, 0),
            ins(ops::LD, 1, 41, 0),
            ins(ops::MVO, 1, 1, 0xFF),
            ins(ops::CAL, 0, 0, 0),
            ins(ops::LDR, 0, 0, 0),
            ins(ops::HLT, 0, 0, 0),
        ]
    );
    assert_eq!(*module.code.last().unwrap(), ins(ops::HLT, 0, 0, 0));
}

#[test]
fn generate_agrees_with_try_generate() {
    let program = vec![
        call("f", vec![lit(41)]),
        define("f", &["x"], vec![binary("+", var("x"), lit(1))]),
        when(lit(1), vec![lit(2)], vec![lit(100000)]),
    ];
    assert_eq!(generate(&program), try_generate(&program).unwrap());
}

#[test]
fn definitions_are_hoisted_before_statements() {
    let program = vec![
        lit(1),
        define("f", &[], vec![lit(2)]),
        lit(3),
        define("g", &[], vec![lit(4)]),
    ];
    let module = compiled(program);
    assert_eq!(module.functions, vec![0, 3]);
    assert_eq!(module.entry_point, 6);
    assert_eq!(
        module.code,
        vec![
            ins(ops::LD, 0, 2, 0),
            ins(ops::MOV, 0, 0, 0),
            ins(ops::RET, 0, 0, 0),
            ins(ops::LD, 0, 4, 0),
            ins(ops::MOV, 0, 0, 0),
            ins(ops::RET, 0, 0, 0),
            ins(ops::LD, 0, 1, 0),
            ins(ops::LD, 0, 3, 0),
            ins(ops::HLT, 0, 0, 0),
        ]
    );
}

#[test]
fn call_before_definition_in_source_order() {
    let program = vec![call("f", vec![]), define("f", &[], vec![lit(9)])];
    let module = compiled(program);
    assert_eq!(module.entry_point, 3);
    assert_eq!(
        module.code[3..],
        [ins(ops::CAL, 0, 0, 0), ins(ops::LDR, 0, 0, 0), ins(ops::HLT, 0, 0, 0)]
    );
}

#[test]
fn call_of_undefined_function_is_refused() {
    assert_eq!(
        refused(vec![call("missing", vec![lit(1)])]),
        InvalidProgram::UndefinedFunction("missing".to_string())
    );
}

#[test]
fn function_cannot_call_a_later_definition() {
    let program = vec![
        define("f", &[], vec![call("g", vec![])]),
        define("g", &[], vec![lit(1)]),
    ];
    assert_eq!(refused(program), InvalidProgram::UndefinedFunction("g".to_string()));
}

#[test]
fn callee_is_resolved_before_arguments() {
    assert_eq!(
        refused(vec![call("missing", vec![var("also_missing")])]),
        InvalidProgram::UndefinedFunction("missing".to_string())
    );
}

#[test]
fn recursive_tail_call_is_a_jump() {
    let program = vec![define("loop", &["n"], vec![call("loop", vec![var("n")])])];
    let module = compiled(program);
    assert_eq!(
        module.code,
        vec![
            ins(ops::MOV, 2, 0, 0),
            ins(ops::MOV, 1, 2, 0),
            ins(ops::JMP, 0, 0, 0),
            ins(ops::MOV, 0, 1, 0),
            ins(ops::RET, 0, 0, 0),
            ins(ops::HLT, 0, 0, 0),
        ]
    );
    assert!(module.code.iter().all(|i| i.opcode != ops::CAL && i.opcode != ops::LDR));
}

#[test]
fn call_as_operand_is_not_a_tail_call() {
    let program = vec![
        define("f", &["n"], vec![binary("+", call("f", vec![var("n")]), lit(1))]),
    ];
    let module = compiled(program);
    assert_eq!(
        module.code,
        vec![
            ins(ops::MOV, 3, 0, 0),
            ins(ops::MVO, 1, 3, 0xFF),
            ins(ops::CAL, 0, 0, 0),
            ins(ops::LDR, 2, 0, 0),
            ins(ops::LD, 3, 1, 0),
            ins(ops::ADD, 1, 2, 3),
            ins(ops::MOV, 0, 1, 0),
            ins(ops::RET, 0, 0, 0),
            ins(ops::HLT, 0, 0, 0),
        ]
    );
}

#[test]
fn call_as_argument_of_tail_call_is_not_a_tail_call() {
    let program = vec![define("f", &["n"], vec![call("f", vec![call("f", vec![lit(1)])])])];
    let module = compiled(program);
    assert_eq!(
        module.code,
        vec![
            ins(ops::LD, 3, 1, 0),
            ins(ops::MVO, 1, 3, 0xFF),
            ins(ops::CAL, 0, 0, 0),
            ins(ops::LDR, 2, 0, 0),
            ins(ops::MOV, 1, 2, 0),
            ins(ops::JMP, 0, 0, 0),
            ins(ops::MOV, 0, 1, 0),
            ins(ops::RET, 0, 0, 0),
            ins(ops::HLT, 0, 0, 0),
        ]
    );
}

#[test]
fn top_level_call_is_not_a_tail_call() {
    let program = vec![define("f", &[], vec![lit(1)]), call("f", vec![])];
    let module = compiled(program);
    let own = &module.code[3..];
    assert_eq!(own, [ins(ops::CAL, 0, 0, 0), ins(ops::LDR, 0, 0, 0), ins(ops::HLT, 0, 0, 0)]);
}

#[test]
fn call_in_let_body_is_not_a_tail_call() {
    let program = vec![define("f", &[], vec![bind(vec![], vec![call("f", vec![])])])];
    let module = compiled(program);
    assert_eq!(
        module.code,
        vec![
            ins(ops::CAL, 0, 0, 0),
            ins(ops::LDR, 0, 0, 0),
            ins(ops::MOV, 0, 0, 0),
            ins(ops::MOV, 0, 0, 0),
            ins(ops::RET, 0, 0, 0),
            ins(ops::HLT, 0, 0, 0),
        ]
    );
}

#[test]
fn arguments_are_transferred_after_all_are_evaluated() {
    let program = vec![
        define("f", &["a", "b", "c"], vec![lit(0)]),
        call("f", vec![lit(10), lit(20), lit(30)]),
    ];
    let module = compiled(program);
    assert_eq!(module.entry_point, 3);
    assert_eq!(
        module.code[3..],
        [
            ins(ops::LD, 1, 10, 0),
            ins(ops::LD, 2, 20, 0),
            ins(ops::LD, 3, 30, 0),
            ins(ops::MVO, 1, 1, 0xFF),
            ins(ops::MVO, 2, 2, 0xFF),
            ins(ops::MVO, 3, 3, 0xFF),
            ins(ops::CAL, 0, 0, 0),
            ins(ops::LDR, 0, 0, 0),
            ins(ops::HLT, 0, 0, 0),
        ]
    );
}

#[test]
fn call_at_a_higher_base_transfers_from_above_it() {
    let program = vec![
        define("f", &["a"], vec![lit(0)]),
        binary("+", lit(1), call("f", vec![lit(7)])),
    ];
    let module = compiled(program);
    assert_eq!(
        module.code[3..],
        [
            ins(ops::LD, 1, 1, 0),
            ins(ops::LD, 3, 7, 0),
            ins(ops::MVO, 1, 3, 0xFF),
            ins(ops::CAL, 0, 0, 0),
            ins(ops::LDR, 2, 0, 0),
            ins(ops::ADD, 0, 1, 2),
            ins(ops::HLT, 0, 0, 0),
        ]
    );
}

#[test]
fn parameters_take_registers_from_the_base_on() {
    let program = vec![define("f", &["a", "b", "c"], vec![var("c"), var("a"), var("b")])];
    let module = compiled(program);
    assert_eq!(
        module.code,
        vec![
            ins(ops::MOV, 3, 2, 0),
            ins(ops::MOV, 3, 0, 0),
            ins(ops::MOV, 3, 1, 0),
            ins(ops::MOV, 0, 3, 0),
            ins(ops::RET, 0, 0, 0),
            ins(ops::HLT, 0, 0, 0),
        ]
    );
}

#[test]
fn later_parameter_hides_an_earlier_one_of_the_same_name() {
    let program = vec![define("f", &["a", "a"], vec![var("a")])];
    let module = compiled(program);
    assert_eq!(module.code[0], ins(ops::MOV, 2, 1, 0));
}

#[test]
fn parameters_end_with_the_function() {
    let program = vec![define("f", &["a"], vec![var("a")]), var("a")];
    assert_eq!(refused(program), InvalidProgram::UndefinedVariable("a".to_string()));
}

#[test]
fn function_with_empty_body_returns_its_base() {
    let module = compiled(vec![define("f", &["a"], vec![])]);
    assert_eq!(
        module.code,
        vec![ins(ops::MOV, 0, 1, 0), ins(ops::RET, 0, 0, 0), ins(ops::HLT, 0, 0, 0)]
    );
    assert_eq!(module.functions, vec![0]);
    assert_eq!(module.entry_point, 2);
}

#[test]
fn function_index_is_packed_in_three_bytes() {
    let mut program: Vec<Expression> = Vec::new();
    for k in 0..300 {
        program.push(define(&format!("f{}", k), &[], vec![]));
    }
    program.push(call("f299", vec![]));
    program.push(call("f256", vec![]));
    program.push(call("f255", vec![]));
    let module = compiled(program);
    assert_eq!(module.functions.len(), 300);
    assert_eq!(module.functions[299], 598);
    assert_eq!(module.entry_point, 600);
    assert_eq!(module.code[600], ins(ops::CAL, 43, 1, 0));
    assert_eq!(module.code[602], ins(ops::CAL, 0, 1, 0));
    assert_eq!(module.code[604], ins(ops::CAL, 255, 0, 0));
}

#[test]
fn redefinition_takes_the_number_of_names_as_index() {
    let program = vec![
        define("f", &[], vec![]),
        define("g", &[], vec![]),
        define("f", &[], vec![]),
        call("f", vec![]),
        call("g", vec![]),
    ];
    let module = compiled(program);
    assert_eq!(module.functions, vec![0, 2, 4]);
    assert_eq!(module.entry_point, 6);
    assert_eq!(module.code[6], ins(ops::CAL, 2, 0, 0));
    assert_eq!(module.code[8], ins(ops::CAL, 1, 0, 0));
}

#[test]
fn nested_definition_is_compiled_in_place() {
    let program = vec![bind(vec![], vec![define("f", &[], vec![lit(1)]), call("f", vec![])])];
    let module = compiled(program);
    assert_eq!(module.functions, vec![0]);
    assert_eq!(module.entry_point, 0);
    assert_eq!(
        module.code,
        vec![
            ins(ops::LD, 0, 1, 0),
            ins(ops::MOV, 0, 0, 0),
            ins(ops::RET, 0, 0, 0),
            ins(ops::CAL, 0, 0, 0),
            ins(ops::LDR, 0, 0, 0),
            ins(ops::MOV, 0, 0, 0),
            ins(ops::HLT, 0, 0, 0),
        ]
    );
}

#[test]
fn variable_reference_without_binding_is_refused() {
    assert_eq!(refused(vec![var("x")]), InvalidProgram::UndefinedVariable("x".to_string()));
}

#[test]
fn let_block_allocates_registers_in_order() {
    let program = vec![bind(
        vec![("a", lit(1)), ("b", binary("+", var("a"), lit(2))), ("c", var("b"))],
        vec![binary("*", var("a"), var("c"))],
    )];
    let module = compiled(program);
    assert_eq!(
        module.code,
        vec![
            ins(ops::LD, 1, 1, 0),
            ins(ops::MOV, 3, 1, 0),
            ins(ops::LD, 4, 2, 0),
            ins(ops::ADD, 2, 3, 4),
            ins(ops::MOV, 3, 2, 0),
            ins(ops::MOV, 4, 1, 0),
            ins(ops::MOV, 5, 3, 0),
            ins(ops::MUL, 3, 4, 5),
            ins(ops::MOV, 0, 3, 0),
            ins(ops::HLT, 0, 0, 0),
        ]
    );
}

#[test]
fn let_initialiser_cannot_see_a_later_binding() {
    let program = vec![bind(vec![("a", var("b")), ("b", lit(1))], vec![lit(0)])];
    assert_eq!(refused(program), InvalidProgram::UndefinedVariable("b".to_string()));
}

#[test]
fn let_initialiser_cannot_see_its_own_binding() {
    let program = vec![bind(vec![("a", var("a"))], vec![lit(0)])];
    assert_eq!(refused(program), InvalidProgram::UndefinedVariable("a".to_string()));
}

#[test]
fn let_bindings_end_with_the_block() {
    let program = vec![bind(vec![("a", lit(1))], vec![var("a")]), var("a")];
    assert_eq!(refused(program), InvalidProgram::UndefinedVariable("a".to_string()));
}

#[test]
fn inner_let_hides_and_outer_binding_returns() {
    let program = vec![bind(
        vec![("a", lit(1))],
        vec![bind(vec![("a", lit(2))], vec![var("a")]), var("a")],
    )];
    let module = compiled(program);
    assert_eq!(
        module.code,
        vec![
            ins(ops::LD, 1, 1, 0),
            ins(ops::LD, 2, 2, 0),
            ins(ops::MOV, 2, 2, 0),
            ins(ops::MOV, 1, 2, 0),
            ins(ops::MOV, 1, 1, 0),
            ins(ops::MOV, 0, 1, 0),
            ins(ops::HLT, 0, 0, 0),
        ]
    );
}

#[test]
fn rebinding_in_one_block_takes_the_later_register() {
    let program = vec![bind(vec![("a", lit(1)), ("a", lit(2))], vec![var("a")])];
    let module = compiled(program);
    assert_eq!(module.code[2], ins(ops::MOV, 2, 2, 0));
}

#[test]
fn let_without_bindings_or_body_is_one_move() {
    let module = compiled(vec![bind(vec![], vec![])]);
    assert_eq!(module.code, vec![ins(ops::MOV, 0, 0, 0), ins(ops::HLT, 0, 0, 0)]);
}

#[test]
fn conditional_end_to_end() {
    let module = compiled(vec![when(lit(1), vec![lit(2)], vec![lit(3)])]);
    assert_eq!(
        module.code,
        vec![
            ins(ops::LD, 0, 1, 0),
            ins(ops::JTF, 0, 3, 0),
            ins(ops::LD, 0, 3, 0),
            ins(ops::JMF, 2, 0, 0),
            ins(ops::LD, 0, 2, 0),
            ins(ops::HLT, 0, 0, 0),
        ]
    );
    let first = 1;
    let second = 3;
    let to_yes = first + module.code[first].left as usize + 256 * module.code[first].right as usize;
    assert_eq!(module.code[to_yes], ins(ops::LD, 0, 2, 0));
    let past = second
        + module.code[second].target as usize
        + 256 * module.code[second].left as usize
        + 65536 * module.code[second].right as usize;
    assert_eq!(module.code[past], ins(ops::HLT, 0, 0, 0));
}

#[test]
fn conditional_branches_with_several_expressions() {
    let module = compiled(vec![when(
        binary("<", lit(1), lit(2)),
        vec![lit(10), lit(11), lit(12)],
        vec![lit(20), lit(21)],
    )]);
    assert_eq!(
        module.code,
        vec![
            ins(ops::LD, 1, 1, 0),
            ins(ops::LD, 2, 2, 0),
            ins(ops::LT, 0, 1, 2),
            ins(ops::JTF, 0, 4, 0),
            ins(ops::LD, 0, 20, 0),
            ins(ops::LD, 0, 21, 0),
            ins(ops::JMF, 4, 0, 0),
            ins(ops::LD, 0, 10, 0),
            ins(ops::LD, 0, 11, 0),
            ins(ops::LD, 0, 12, 0),
            ins(ops::HLT, 0, 0, 0),
        ]
    );
}

#[test]
fn branch_offsets_use_their_higher_bytes() {
    let no: Vec<Expression> = (0..300).map(|_| lit(0)).collect();
    let yes: Vec<Expression> = (0..70000).map(|_| lit(1)).collect();
    let module = compiled(vec![when(lit(1), yes, no)]);
    assert_eq!(module.code[1], ins(ops::JTF, 0, 46, 1));
    assert_eq!(module.code[302], ins(ops::JMF, 0x71, 0x11, 0x01));
    assert_eq!(module.code.len(), 1 + 1 + 300 + 1 + 70000 + 1);
    assert_eq!(module.code[1 + 302], ins(ops::LD, 0, 1, 0));
    assert_eq!(module.code[302 + 70001], ins(ops::HLT, 0, 0, 0));
}

#[test]
fn conditional_branch_offset_keeps_its_low_sixteen_bits() {
    let no: Vec<Expression> = (0..65600).map(|_| lit(0)).collect();
    let module = compiled(vec![when(lit(1), vec![lit(1)], no)]);
    assert_eq!(module.code[1], ins(ops::JTF, 0, 66, 0));
}

#[test]
fn conditional_in_tail_position_passes_it_to_the_last_of_each_branch() {
    let program = vec![define(
        "f",
        &["n"],
        vec![when(
            var("n"),
            vec![call("f", vec![]), call("f", vec![])],
            vec![call("f", vec![]), call("f", vec![])],
        )],
    )];
    let module = compiled(program);
    assert_eq!(
        module.code,
        vec![
            ins(ops::MOV, 1, 0, 0),
            ins(ops::JTF, 1, 5, 0),
            ins(ops::CAL, 0, 0, 0),
            ins(ops::LDR, 1, 0, 0),
            ins(ops::JMP, 0, 0, 0),
            ins(ops::JMF, 4, 0, 0),
            ins(ops::CAL, 0, 0, 0),
            ins(ops::LDR, 1, 0, 0),
            ins(ops::JMP, 0, 0, 0),
            ins(ops::MOV, 0, 1, 0),
            ins(ops::RET, 0, 0, 0),
            ins(ops::HLT, 0, 0, 0),
        ]
    );
}

#[test]
fn condition_is_never_in_tail_position() {
    let program = vec![define("f", &[], vec![when(call("f", vec![]), vec![lit(1)], vec![lit(2)])])];
    let module = compiled(program);
    assert_eq!(module.code[0], ins(ops::CAL, 0, 0, 0));
    assert_eq!(module.code[1], ins(ops::LDR, 0, 0, 0));
}

#[test]
fn conditional_outside_a_function_has_no_tail_calls() {
    let program = vec![
        define("f", &[], vec![]),
        when(lit(1), vec![call("f", vec![])], vec![call("f", vec![])]),
    ];
    let module = compiled(program);
    assert!(module.code.iter().all(|i| i.opcode != ops::JMP));
}

#[test]
fn every_function_body_expression_is_in_tail_position() {
    let program = vec![define("f", &[], vec![call("f", vec![]), call("f", vec![])])];
    let module = compiled(program);
    assert_eq!(
        module.code,
        vec![
            ins(ops::JMP, 0, 0, 0),
            ins(ops::JMP, 0, 0, 0),
            ins(ops::MOV, 0, 0, 0),
            ins(ops::RET, 0, 0, 0),
            ins(ops::HLT, 0, 0, 0),
        ]
    );
}

#[test]
fn empty_false_branch_is_refused() {
    assert_eq!(
        refused(vec![when(lit(1), vec![lit(2)], vec![])]),
        InvalidProgram::EmptyBranch
    );
}

#[test]
fn empty_true_branch_is_refused() {
    assert_eq!(
        refused(vec![when(lit(1), vec![], vec![lit(3)])]),
        InvalidProgram::EmptyBranch
    );
}

#[test]
fn condition_is_checked_before_the_branches() {
    assert_eq!(
        refused(vec![when(var("x"), vec![], vec![])]),
        InvalidProgram::UndefinedVariable("x".to_string())
    );
}

#[test]
fn false_branch_is_checked_before_the_true_branch() {
    assert_eq!(
        refused(vec![when(lit(1), vec![], vec![var("x")])]),
        InvalidProgram::UndefinedVariable("x".to_string())
    );
    assert_eq!(
        refused(vec![when(lit(1), vec![var("y")], vec![var("x")])]),
        InvalidProgram::UndefinedVariable("x".to_string())
    );
}

fn nested_unary(depth: usize) -> Expression {
    let mut expression = lit(1);
    for _ in 0..depth {
        expression = unary("~", expression);
    }
    expression
}

#[test]
fn nesting_may_reach_the_last_register() {
    let module = compiled(vec![nested_unary(255)]);
    assert_eq!(module.code[0], ins(ops::LD, 255, 1, 0));
    assert_eq!(module.code[1], ins(ops::NOT, 254, 255, 0));
    assert_eq!(module.code[255], ins(ops::NOT, 0, 1, 0));
    assert_eq!(module.code.len(), 257);
}

#[test]
fn nesting_past_the_last_register_is_refused() {
    assert_eq!(refused(vec![nested_unary(256)]), InvalidProgram::RegisterOverflow);
}

#[test]
fn binary_operation_needs_two_registers() {
    let module = compiled(vec![Expression::UnaryOp(
        "~".to_string(),
        Box::new(nested_unary_around(252, binary("+", lit(1), lit(2)))),
    )]);
    assert_eq!(module.code[2], ins(ops::ADD, 253, 254, 255));
    assert_eq!(
        refused(vec![nested_unary_around(254, binary("+", lit(1), lit(2)))]),
        InvalidProgram::RegisterOverflow
    );
    assert_eq!(
        refused(vec![nested_unary_around(255, binary("+", lit(1), lit(2)))]),
        InvalidProgram::RegisterOverflow
    );
}

fn nested_unary_around(depth: usize, inner: Expression) -> Expression {
    let mut expression = inner;
    for _ in 0..depth {
        expression = unary("~", expression);
    }
    expression
}

#[test]
fn left_operand_is_compiled_before_the_second_register_is_taken() {
    assert_eq!(
        refused(vec![nested_unary_around(254, binary("+", var("x"), lit(2)))]),
        InvalidProgram::UndefinedVariable("x".to_string())
    );
}

#[test]
fn let_with_255_bindings_fits() {
    let bindings: Vec<(&str, Expression)> = (0..255).map(|_| ("v", lit(1))).collect();
    let module = compiled(vec![bind(bindings, vec![var("v")])]);
    assert_eq!(module.code[254], ins(ops::LD, 255, 1, 0));
    assert_eq!(module.code[255], ins(ops::MOV, 255, 255, 0));
    assert_eq!(module.code[256], ins(ops::MOV, 0, 255, 0));
}

#[test]
fn let_with_256_bindings_is_refused() {
    let bindings: Vec<(&str, Expression)> = (0..256).map(|_| ("v", lit(1))).collect();
    assert_eq!(refused(vec![bind(bindings, vec![])]), InvalidProgram::RegisterOverflow);
}

#[test]
fn call_with_255_arguments_fits() {
    let arguments: Vec<Expression> = (0..255).map(|_| lit(1)).collect();
    let module = compiled(vec![define("f", &[], vec![]), call("f", arguments)]);
    assert_eq!(module.code[2 + 254], ins(ops::LD, 255, 1, 0));
    assert_eq!(module.code[2 + 255 + 254], ins(ops::MVO, 255, 255, 0xFF));
    assert_eq!(module.code[2 + 510], ins(ops::CAL, 0, 0, 0));
}

#[test]
fn call_with_256_arguments_is_refused() {
    let arguments: Vec<Expression> = (0..256).map(|_| lit(1)).collect();
    assert_eq!(
        refused(vec![define("f", &[], vec![]), call("f", arguments)]),
        InvalidProgram::RegisterOverflow
    );
}

#[test]
fn function_with_255_parameters_fits() {
    let names: Vec<String> = (0..255).map(|k| format!("p{}", k)).collect();
    let parameters: Vec<&str> = names.iter().map(|n| n.as_str()).collect();
    let module = compiled(vec![define("f", &parameters, vec![var("p254")])]);
    assert_eq!(module.code[0], ins(ops::MOV, 255, 254, 0));
    assert_eq!(module.code[1], ins(ops::MOV, 0, 255, 0));
}

#[test]
fn function_with_256_parameters_is_refused() {
    let names: Vec<String> = (0..256).map(|k| format!("p{}", k)).collect();
    let parameters: Vec<&str> = names.iter().map(|n| n.as_str()).collect();
    assert_eq!(
        refused(vec![define("f", &parameters, vec![])]),
        InvalidProgram::RegisterOverflow
    );
}

#[test]
fn first_error_in_source_order_of_each_pass_is_reported() {
    let program = vec![
        var("statement"),
        define("f", &[], vec![var("definition")]),
    ];
    assert_eq!(refused(program), InvalidProgram::UndefinedVariable("definition".to_string()));
    let program = vec![var("first"), var("second")];
    assert_eq!(refused(program), InvalidProgram::UndefinedVariable("first".to_string()));
}

#[test]
fn names_are_compared_by_their_characters() {
    let program = vec![
        define("käse", &["größe"], vec![var("größe")]),
        call("käse", vec![lit(1)]),
    ];
    let module = compiled(program);
    assert_eq!(module.code[0], ins(ops::MOV, 1, 0, 0));
    assert_eq!(
        refused(vec![define("f", &["größe"], vec![var("grösse")])]),
        InvalidProgram::UndefinedVariable("grösse".to_string())
    );
}

#[test]
fn module_always_ends_with_halt() {
    let programs = vec![
        vec![],
        vec![lit(1)],
        vec![define("f", &[], vec![])],
        vec![define("f", &[], vec![]), call("f", vec![])],
    ];
    for program in programs {
        let module = compiled(program);
        assert_eq!(*module.code.last().unwrap(), ins(ops::HLT, 0, 0, 0));
        assert!((module.entry_point as usize) < module.code.len());
    }
}

#[test]
fn operand_code_writes_no_register_below_its_base() {
    let operand = bind(
        vec![("a", lit(1)), ("b", unary("~", var("a")))],
        vec![when(
            binary("<", var("a"), var("b")),
            vec![lit(100000), call("f", vec![var("a"), lit(2)])],
            vec![Expression::NullaryOp("read".to_string())],
        )],
    );
    let program = vec![define("f", &["x", "y"], vec![]), binary("+", lit(1), operand)];
    let module = compiled(program);
    let start = module.entry_point as usize + 1;
    let end = module.code.len() - 2;
    assert_eq!(module.code[start - 1], ins(ops::LD, 1, 1, 0));
    assert_eq!(module.code[end], ins(ops::ADD, 0, 1, 2));
    assert!(end - start > 10);
    for instruction in &module.code[start..end] {
        let elsewhere = instruction.opcode == ops::MVO
            || instruction.opcode == ops::CAL
            || instruction.opcode == ops::JMF;
        assert!(elsewhere || instruction.target >= 2);
    }
}
