use synth::ast::{
    Decl, ExpressionInstruction, ExpressionInstructionEnum, Field, Fun, Number, ParsedAST,
    Qualifier,
};
use synth::compiler::CompilerOptions;
use synth::ir::{IRValue, Instruction, Ref};
use synth::ir_interpret::{Emitted, IRInterpreter, InterpretError};
use synth::ir_parse::{IRParser, LoweringError};
use synth::number::FloatBits;
use synth::token::Token;
use synth::types::Type;

fn options(optimization: usize) -> CompilerOptions {
    CompilerOptions { optimization, current_file: "main.synth".to_string() }
}

fn name(s: &str) -> String {
    s.to_string()
}

fn integer(i: i32) -> ParsedAST {
    ParsedAST::number(Number::INTEGER(i))
}

fn ident(s: &str) -> ParsedAST {
    ParsedAST::identifier(name(s))
}

fn text(s: &str) -> ParsedAST {
    ParsedAST::string(name(s))
}

fn plus(left: ParsedAST, right: ParsedAST) -> ParsedAST {
    ParsedAST::binary(left, Token::PLUS, right)
}

fn constant(identifier: &str, value: ParsedAST) -> ParsedAST {
    ParsedAST::declaration(name(identifier), Qualifier::CONST, None, value)
}

fn statements(items: Vec<ParsedAST>) -> ParsedAST {
    ParsedAST::program(items.into_iter().map(ParsedAST::stmt).collect())
}

fn reference(s: &str) -> IRValue {
    IRValue::REF(Ref { value: name(s) })
}

fn local(slot: &str, value: IRValue) -> Instruction {
    Instruction::STACK_VAR(name(slot), Type::I32, Some(value))
}

fn ir(items: Vec<Instruction>) -> Instruction {
    Instruction::PROGRAM(Box::new(items))
}

fn lower(ast: ParsedAST, optimization: usize) -> Result<Instruction, LoweringError> {
    let opts = options(optimization);
    let mut parser = IRParser::new(&opts);
    parser.parse(Box::new(ast))
}

fn print_call(argument: ParsedAST) -> ParsedAST {
    ParsedAST::call(ident("printf"), vec![argument])
}

fn sum_program() -> ParsedAST {
    statements(vec![
        constant("x", integer(2)),
        constant("y", integer(3)),
        constant("z", plus(ident("x"), ident("y"))),
    ])
}

#[test]
fn declarations_lower_to_locals_in_order() {
    let expected = ir(vec![
        local("x", IRValue::INT(2)),
        local("y", IRValue::INT(3)),
        Instruction::ADD(name("2"), reference("x"), reference("y")),
        local("z", reference("2")),
    ]);
    assert_eq!(lower(sum_program(), 0), Ok(expected));
}

#[test]
fn lowering_counts_nodes_and_names() {
    let opts = options(0);
    let mut parser = IRParser::new(&opts);
    assert!(parser.parse(Box::new(sum_program())).is_ok());
    assert_eq!(parser.counter, 7);
    assert_eq!(parser.locals_counter, 3);
    assert_eq!(parser.block_counter, 0);
    assert_eq!(parser.lambda_counter, 0);
    assert_eq!(parser.type_counter, 0);
    assert!(parser.output.is_empty());
}

#[test]
fn lowering_the_same_tree_twice_gives_the_same_instructions() {
    for optimization in [0, 1, 2] {
        let first = lower(sum_program(), optimization);
        let second = lower(sum_program(), optimization);
        assert!(first.is_ok());
        assert_eq!(first, second);
        let a = first.unwrap().to_string_for_writing();
        let b = second.unwrap().to_string_for_writing();
        assert_eq!(a, b);
    }
}

#[test]
fn lowering_does_not_depend_on_the_file_name() {
    let one = CompilerOptions { optimization: 0, current_file: name("one.synth") };
    let two = CompilerOptions { optimization: 0, current_file: name("two.synth") };
    let tree = || {
        statements(vec![
            constant("x", ParsedAST::evaluate_now(plus(integer(1), integer(2)))),
            print_call(ident("x")),
        ])
    };
    let a = IRParser::new(&one).parse(Box::new(tree()));
    let b = IRParser::new(&two).parse(Box::new(tree()));
    assert!(a.is_ok());
    assert_eq!(a, b);
}

#[test]
fn interpreting_the_lowered_sum_binds_five() {
    for optimization in [0, 1] {
        let opts = options(optimization);
        let program = IRParser::new(&opts).parse(Box::new(sum_program())).unwrap();
        let mut interpreter = IRInterpreter::new(&opts);
        assert_eq!(interpreter.execute(&program), Ok(None));
        assert_eq!(interpreter.lookup("z"), Some(IRValue::INT(5)));
    }
}

#[test]
fn constants_fold_when_optimization_is_on() {
    let tree = || statements(vec![constant("z", plus(integer(2), integer(3)))]);
    assert_eq!(lower(tree(), 1), Ok(ir(vec![local("z", IRValue::INT(5))])));
    assert_eq!(lower(tree(), 7), Ok(ir(vec![local("z", IRValue::INT(5))])));
}

#[test]
fn constants_are_added_at_run_time_when_optimization_is_off() {
    let tree = statements(vec![constant("z", plus(integer(2), integer(3)))]);
    let expected = ir(vec![
        Instruction::ADD(name("0"), IRValue::INT(2), IRValue::INT(3)),
        local("z", reference("0")),
    ]);
    assert_eq!(lower(tree, 0), Ok(expected));
}

#[test]
fn folding_takes_a_name_all_the_same() {
    let opts = options(1);
    let mut parser = IRParser::new(&opts);
    let tree = statements(vec![plus(integer(2), integer(3)), plus(ident("a"), integer(1))]);
    let expected = ir(vec![Instruction::ADD(name("2"), reference("a"), IRValue::INT(1))]);
    assert_eq!(parser.parse(Box::new(tree)), Ok(expected));
    assert_eq!(parser.locals_counter, 3);
}

#[test]
fn only_integers_fold() {
    let half = ParsedAST::number(Number::FLOAT(FloatBits { bits: 0.5f32.to_bits() }));
    let tree = statements(vec![plus(half, integer(1))]);
    let expected = ir(vec![Instruction::ADD(
        name("0"),
        IRValue::FLOAT(FloatBits { bits: 0.5f32.to_bits() }),
        IRValue::INT(1),
    )]);
    assert_eq!(lower(tree, 1), Ok(expected));
    let tree = statements(vec![plus(text("a"), text("b"))]);
    let expected = ir(vec![Instruction::ADD(
        name("0"),
        IRValue::STRING(name("a")),
        IRValue::STRING(name("b")),
    )]);
    assert_eq!(lower(tree, 1), Ok(expected));
}

#[test]
fn folding_fails_where_the_sum_does_not_fit() {
    let tree = || statements(vec![plus(integer(i32::MAX), integer(1))]);
    assert_eq!(lower(tree(), 1), Err(LoweringError::ArithmeticOverflow));
    let expected = ir(vec![Instruction::ADD(
        name("0"),
        IRValue::INT(i32::MAX),
        IRValue::INT(1),
    )]);
    assert_eq!(lower(tree(), 0), Ok(expected));
    let tree = statements(vec![constant("m", plus(integer(i32::MIN), integer(i32::MAX)))]);
    assert_eq!(lower(tree, 1), Ok(ir(vec![local("m", IRValue::INT(-1))])));
}

#[test]
fn nested_sums_lower_left_to_right() {
    let tree = statements(vec![plus(plus(ident("a"), ident("b")), plus(ident("c"), ident("d")))]);
    let expected = ir(vec![
        Instruction::ADD(name("2"), reference("a"), reference("b")),
        Instruction::ADD(name("5"), reference("c"), reference("d")),
        Instruction::ADD(name("6"), reference("2"), reference("5")),
    ]);
    assert_eq!(lower(tree, 0), Ok(expected));
}

#[test]
fn effects_of_the_left_operand_come_first() {
    let opts = options(0);
    let mut parser = IRParser::new(&opts);
    let tree = statements(vec![plus(
        ParsedAST::evaluate_now(print_call(text("left"))),
        ParsedAST::evaluate_now(print_call(text("right"))),
    )]);
    assert_eq!(parser.parse(Box::new(tree)), Err(LoweringError::MissingOperand));
    assert_eq!(
        parser.output,
        vec![Emitted::TEXT(name("left")), Emitted::TEXT(name("right"))]
    );
}

#[test]
fn values_computed_while_compiling_become_immediates() {
    let tree = statements(vec![plus(
        ParsedAST::evaluate_now(plus(integer(1), integer(2))),
        ParsedAST::evaluate_now(plus(integer(3), integer(4))),
    )]);
    let expected = ir(vec![Instruction::ADD(name("2"), IRValue::INT(3), IRValue::INT(7))]);
    assert_eq!(lower(tree, 0), Ok(expected));
}

#[test]
fn a_folded_operand_leaves_nothing_to_evaluate() {
    let tree = statements(vec![constant("x", ParsedAST::evaluate_now(plus(integer(1), integer(2))))]);
    let expected = ir(vec![Instruction::STACK_VAR(name("x"), Type::I32, None)]);
    assert_eq!(lower(tree, 1), Ok(expected));
}

#[test]
fn evaluating_now_keeps_its_locals_to_itself() {
    let opts = options(0);
    let mut parser = IRParser::new(&opts);
    let tree = statements(vec![
        ParsedAST::evaluate_now(constant("x", integer(5))),
        constant("y", integer(1)),
    ]);
    let program = parser.parse(Box::new(tree)).unwrap();
    assert_eq!(program, ir(vec![local("y", IRValue::INT(1))]));
    let mut interpreter = IRInterpreter::new(&opts);
    assert_eq!(interpreter.execute(&program), Ok(None));
    assert_eq!(interpreter.lookup("x"), None);
    assert_eq!(interpreter.lookup("y"), Some(IRValue::INT(1)));
}

#[test]
fn evaluating_now_does_not_see_the_enclosing_program() {
    let tree = statements(vec![
        constant("x", integer(5)),
        ParsedAST::evaluate_now(print_call(ident("x"))),
    ]);
    assert_eq!(
        lower(tree, 0),
        Err(LoweringError::Comptime(InterpretError::UnresolvedName))
    );
}

#[test]
fn evaluating_now_reports_what_went_wrong() {
    let tree = statements(vec![ParsedAST::evaluate_now(ParsedAST::call(ident("f"), vec![]))]);
    assert_eq!(
        lower(tree, 0),
        Err(LoweringError::Comptime(InterpretError::UnresolvedName))
    );
    let tree = statements(vec![ParsedAST::evaluate_now(plus(text("a"), integer(1)))]);
    assert_eq!(
        lower(tree, 0),
        Err(LoweringError::Comptime(InterpretError::UnsupportedType))
    );
}

#[test]
fn lines_emitted_while_compiling_are_kept_in_order() {
    let opts = options(0);
    let mut parser = IRParser::new(&opts);
    let tree = statements(vec![
        ParsedAST::evaluate_now(print_call(integer(1))),
        constant("x", integer(0)),
        ParsedAST::evaluate_now(print_call(text("two"))),
        ParsedAST::evaluate_now(print_call(ParsedAST::number(Number::FLOAT(FloatBits {
            bits: 3.0f32.to_bits(),
        })))),
    ]);
    assert_eq!(parser.parse(Box::new(tree)), Ok(ir(vec![local("x", IRValue::INT(0))])));
    assert_eq!(
        parser.output,
        vec![
            Emitted::TEXT(name("1")),
            Emitted::TEXT(name("two")),
            Emitted::FLOAT(FloatBits { bits: 3.0f32.to_bits() }),
        ]
    );
}

#[test]
fn literals_alone_emit_nothing() {
    let tree = statements(vec![integer(1), text("s"), ident("x")]);
    assert_eq!(lower(tree, 0), Ok(ir(vec![])));
}

#[test]
fn a_tree_that_is_no_program_leaves_the_program_empty() {
    assert_eq!(lower(ParsedAST::block(vec![constant("x", integer(1))]), 0), Ok(ir(vec![])));
    assert_eq!(
        lower(constant("x", integer(1)), 0),
        Ok(ir(vec![local("x", IRValue::INT(1))]))
    );
}

#[test]
fn blocks_get_fresh_names() {
    let tree = ParsedAST::program(vec![
        ParsedAST::block(vec![constant("x", integer(1)), ParsedAST::block(vec![])]),
        ParsedAST::block(vec![]),
    ]);
    let expected = ir(vec![
        Instruction::BLOCK(
            name("0_block"),
            Box::new(vec![
                local("x", IRValue::INT(1)),
                Instruction::BLOCK(name("1_block"), Box::new(vec![])),
            ]),
        ),
        Instruction::BLOCK(name("2_block"), Box::new(vec![])),
    ]);
    assert_eq!(lower(tree, 0), Ok(expected));
}

#[test]
fn a_declaration_of_a_struct_has_no_value() {
    let tree = ParsedAST::program(vec![ParsedAST::declaration(
        name("p"),
        Qualifier::VAR,
        Some(Type::STRUCT(name("Point"))),
        plus(integer(1), integer(2)),
    )]);
    let expected = ir(vec![Instruction::STACK_VAR(
        name("p"),
        Type::STRUCT(name("Point")),
        None,
    )]);
    assert_eq!(lower(tree, 0), Ok(expected));
}

#[test]
fn a_declaration_of_a_type_holds_the_runtime_type() {
    let fields = vec![
        Field { name: name("x"), typ: Type::I32 },
        Field { name: name("y"), typ: Type::U32 },
    ];
    let tree = ParsedAST::program(vec![ParsedAST::declaration(
        name("Point"),
        Qualifier::CONST,
        Some(Type::TYPE),
        ParsedAST::struct_type(fields),
    )]);
    let expected = ir(vec![
        Instruction::TYPE(name("0_anon_type"), vec![Type::I32, Type::U32]),
        Instruction::STACK_VAR(
            name("Point"),
            Type::STRUCT(name("Runtime_Type")),
            Some(IRValue::STRUCT(vec![IRValue::INT(123)])),
        ),
    ]);
    assert_eq!(lower(tree, 0), Ok(expected));
}

#[test]
fn a_declaration_without_a_value_declares_the_slot() {
    let decl = ParsedAST::DECL(Decl {
        identifier: name("x"),
        qualifier: Qualifier::VAR,
        typ: Some(Type::BOOL),
        requires_infering: false,
        value: None,
    });
    let expected = ir(vec![Instruction::STACK_VAR(name("x"), Type::I32, None)]);
    assert_eq!(lower(ParsedAST::program(vec![decl]), 0), Ok(expected));
}

#[test]
fn a_struct_type_literal_is_declared_and_referred_to() {
    let fields = vec![Field { name: name("x"), typ: Type::I32 }];
    let tree = statements(vec![constant("t", ParsedAST::struct_type(fields))]);
    let expected = ir(vec![
        Instruction::TYPE(name("0_anon_type"), vec![Type::I32]),
        local("t", reference("0_anon_type")),
    ]);
    assert_eq!(lower(tree, 0), Ok(expected));
}

#[test]
fn every_struct_type_literal_gets_a_name_of_its_own() {
    let opts = options(0);
    let mut parser = IRParser::new(&opts);
    let field = |n: &str| vec![Field { name: name(n), typ: Type::I32 }];
    let tree = statements(vec![
        constant("a", ParsedAST::struct_type(field("x"))),
        constant("z", ParsedAST::struct_type(field("y"))),
    ]);
    let expected = ir(vec![
        Instruction::TYPE(name("0_anon_type"), vec![Type::I32]),
        local("a", reference("0_anon_type")),
        Instruction::TYPE(name("1_anon_type"), vec![Type::I32]),
        local("z", reference("1_anon_type")),
    ]);
    assert_eq!(parser.parse(Box::new(tree)), Ok(expected));
    assert_eq!(parser.type_counter, 2);
}

#[test]
fn a_block_and_a_slot_are_not_named_alike() {
    let tree = ParsedAST::program(vec![ParsedAST::block(vec![ParsedAST::stmt(plus(
        integer(1),
        integer(2),
    ))])]);
    let expected = ir(vec![Instruction::BLOCK(
        name("0_block"),
        Box::new(vec![Instruction::ADD(name("0"), IRValue::INT(1), IRValue::INT(2))]),
    )]);
    assert_eq!(lower(tree, 0), Ok(expected));
}

fn collect_names(instruction: &Instruction, names: &mut Vec<String>) {
    match instruction {
        Instruction::ADD(n, _, _) | Instruction::SUB(n, _, _) | Instruction::CALL(n, _, _) => {
            names.push(n.clone())
        },
        Instruction::TYPE(n, _) => names.push(n.clone()),
        Instruction::BLOCK(n, items) => {
            names.push(n.clone());
            for i in items.iter() {
                collect_names(i, names);
            }
        },
        Instruction::PROGRAM(items) => {
            for i in items.iter() {
                collect_names(i, names);
            }
        },
        Instruction::COND_BR(_, body, else_body) => {
            collect_names(body, names);
            if let Some(e) = else_body {
                collect_names(e, names);
            }
        },
        Instruction::FUNC(n, _, body) => {
            if n.ends_with("_lambda") {
                names.push(n.clone());
            }
            collect_names(body, names);
        },
        _ => {},
    }
}

#[test]
fn no_synthetic_name_is_used_twice() {
    let anonymous = |body: ParsedAST| {
        ParsedAST::FN(Fun { identifier: None, params: vec![], body: Box::new(body) })
    };
    let field = || vec![Field { name: name("x"), typ: Type::I32 }];
    let tree = ParsedAST::program(vec![
        ParsedAST::stmt(constant("t", ParsedAST::struct_type(field()))),
        ParsedAST::stmt(plus(ident("a"), plus(integer(1), integer(2)))),
        ParsedAST::block(vec![
            ParsedAST::stmt(ParsedAST::call(ident("f"), vec![plus(ident("a"), ident("a"))])),
            ParsedAST::block(vec![ParsedAST::stmt(plus(integer(3), integer(4)))]),
            anonymous(ParsedAST::block(vec![ParsedAST::stmt(constant(
                "u",
                ParsedAST::struct_type(field()),
            ))])),
        ]),
        ParsedAST::conditional(
            ParsedAST::call(ident("g"), vec![]),
            ParsedAST::block(vec![ParsedAST::stmt(plus(integer(5), integer(6)))]),
            Some(anonymous(ParsedAST::block(vec![]))),
        ),
        ParsedAST::stmt(ParsedAST::evaluate_now(plus(integer(7), integer(8)))),
        ParsedAST::stmt(plus(integer(9), integer(10))),
    ]);
    let program = lower(tree, 0).unwrap();
    let mut names = Vec::new();
    collect_names(&program, &mut names);
    assert_eq!(names.len(), 17);
    let mut sorted = names.clone();
    sorted.sort();
    sorted.dedup();
    assert_eq!(sorted.len(), names.len(), "{:?}", names);
}

#[test]
fn an_assignment_stores_into_the_slot() {
    let tree = statements(vec![ParsedAST::assign(ident("x"), plus(ident("x"), integer(1)))]);
    let expected = ir(vec![
        Instruction::ADD(name("1"), reference("x"), IRValue::INT(1)),
        Instruction::STORE(Ref { value: name("x") }, reference("1")),
    ]);
    assert_eq!(lower(tree, 0), Ok(expected));
}

#[test]
fn an_assignment_needs_a_name_on_the_left() {
    let tree = statements(vec![ParsedAST::assign(integer(1), integer(2))]);
    assert_eq!(lower(tree, 0), Err(LoweringError::InvalidAssignmentTarget));
    let tree = statements(vec![ParsedAST::assign(
        ParsedAST::access(ident("a"), ident("b")),
        integer(2),
    )]);
    assert_eq!(lower(tree, 0), Err(LoweringError::InvalidAssignmentTarget));
}

#[test]
fn an_assignment_needs_a_value_on_the_right() {
    let tree = statements(vec![ParsedAST::assign(ident("x"), constant("y", integer(1)))]);
    assert_eq!(lower(tree, 0), Err(LoweringError::MissingValue));
}

#[test]
fn a_call_lowers_its_arguments_left_to_right() {
    let tree = statements(vec![ParsedAST::call(
        ident("f"),
        vec![integer(1), ident("x"), plus(ident("a"), integer(2)), text("s")],
    )]);
    let expected = ir(vec![
        Instruction::ADD(name("3"), reference("a"), IRValue::INT(2)),
        Instruction::CALL(
            name("0"),
            name("f"),
            vec![IRValue::INT(1), reference("x"), reference("3"), IRValue::STRING(name("s"))],
        ),
    ]);
    assert_eq!(lower(tree, 0), Ok(expected));
}

#[test]
fn the_value_of_a_call_is_its_result_slot() {
    let tree = statements(vec![constant("r", ParsedAST::call(ident("f"), vec![]))]);
    let expected = ir(vec![
        Instruction::CALL(name("0"), name("f"), vec![]),
        local("r", reference("0")),
    ]);
    assert_eq!(lower(tree, 0), Ok(expected));
}

#[test]
fn a_call_needs_a_name_as_callee() {
    let tree = statements(vec![ParsedAST::call(integer(1), vec![])]);
    assert_eq!(lower(tree, 0), Err(LoweringError::UnsupportedCallee));
}

#[test]
fn a_call_needs_a_value_for_every_argument() {
    let tree = statements(vec![ParsedAST::call(ident("f"), vec![integer(1), constant("x", integer(1))])]);
    assert_eq!(lower(tree, 0), Err(LoweringError::MissingValue));
}

#[test]
fn a_conditional_bundles_its_branches() {
    let tree = ParsedAST::program(vec![ParsedAST::conditional(
        ident("c"),
        ParsedAST::stmt(ParsedAST::block(vec![ParsedAST::stmt(ParsedAST::assign(
            ident("y"),
            integer(1),
        ))])),
        Some(ParsedAST::stmt(ParsedAST::block(vec![]))),
    )]);
    let expected = ir(vec![Instruction::COND_BR(
        reference("c"),
        Box::new(Instruction::BLOCK(
            name("0_block"),
            Box::new(vec![Instruction::STORE(Ref { value: name("y") }, IRValue::INT(1))]),
        )),
        Some(Box::new(Instruction::BLOCK(name("1_block"), Box::new(vec![])))),
    )]);
    assert_eq!(lower(tree, 0), Ok(expected));
}

#[test]
fn a_conditional_without_else_has_one_branch() {
    let tree = ParsedAST::program(vec![ParsedAST::conditional(
        integer(1),
        ParsedAST::block(vec![]),
        None,
    )]);
    let expected = ir(vec![Instruction::COND_BR(
        IRValue::INT(1),
        Box::new(Instruction::BLOCK(name("0_block"), Box::new(vec![]))),
        None,
    )]);
    assert_eq!(lower(tree, 0), Ok(expected));
}

#[test]
fn a_conditional_needs_a_condition() {
    let tree = ParsedAST::program(vec![ParsedAST::conditional(
        ParsedAST::block(vec![]),
        ParsedAST::block(vec![]),
        None,
    )]);
    assert_eq!(lower(tree, 0), Err(LoweringError::MissingCondition));
}

#[test]
fn a_conditional_needs_instructions_as_branches() {
    let tree =
        ParsedAST::program(vec![ParsedAST::conditional(integer(1), ParsedAST::stmt(integer(2)), None)]);
    assert_eq!(lower(tree, 0), Err(LoweringError::MissingBody));
    let tree = ParsedAST::program(vec![ParsedAST::conditional(
        integer(1),
        ParsedAST::block(vec![]),
        Some(integer(2)),
    )]);
    assert_eq!(lower(tree, 0), Err(LoweringError::MissingBody));
    let tree = ParsedAST::program(vec![ParsedAST::conditional(
        integer(1),
        constant("x", integer(1)),
        None,
    )]);
    assert_eq!(lower(tree, 0), Err(LoweringError::MissingBody));
}

fn parameter(identifier: &str, typ: Option<Type>) -> Decl {
    Decl {
        identifier: name(identifier),
        qualifier: Qualifier::CONST,
        typ,
        requires_infering: false,
        value: None,
    }
}

#[test]
fn a_function_definition_holds_its_parameter_types_and_body() {
    let tree = ParsedAST::program(vec![ParsedAST::function(
        name("add"),
        vec![parameter("a", Some(Type::I32)), parameter("b", Some(Type::U32))],
        ParsedAST::block(vec![ParsedAST::stmt(plus(ident("a"), ident("b")))]),
    )]);
    let expected = ir(vec![Instruction::FUNC(
        name("add"),
        vec![Type::I32, Type::U32],
        Box::new(Instruction::BLOCK(
            name("0_block"),
            Box::new(vec![Instruction::ADD(name("2"), reference("a"), reference("b"))]),
        )),
    )]);
    assert_eq!(lower(tree, 0), Ok(expected));
}

#[test]
fn anonymous_functions_get_fresh_names() {
    let anonymous = || {
        ParsedAST::FN(Fun {
            identifier: None,
            params: vec![],
            body: Box::new(ParsedAST::block(vec![])),
        })
    };
    let opts = options(0);
    let mut parser = IRParser::new(&opts);
    let tree = ParsedAST::program(vec![anonymous(), anonymous()]);
    let expected = ir(vec![
        Instruction::FUNC(
            name("0_lambda"),
            vec![],
            Box::new(Instruction::BLOCK(name("0_block"), Box::new(vec![]))),
        ),
        Instruction::FUNC(
            name("1_lambda"),
            vec![],
            Box::new(Instruction::BLOCK(name("1_block"), Box::new(vec![]))),
        ),
    ]);
    assert_eq!(parser.parse(Box::new(tree)), Ok(expected));
    assert_eq!(parser.lambda_counter, 2);
}

#[test]
fn a_function_needs_typed_parameters_and_a_body() {
    let tree = ParsedAST::program(vec![ParsedAST::function(
        name("f"),
        vec![parameter("a", Some(Type::I32)), parameter("b", None)],
        ParsedAST::block(vec![]),
    )]);
    assert_eq!(lower(tree, 0), Err(LoweringError::MissingParameterType));
    let tree = ParsedAST::program(vec![ParsedAST::function(name("f"), vec![], integer(1))]);
    assert_eq!(lower(tree, 0), Err(LoweringError::MissingBody));
    let tree = ParsedAST::program(vec![ParsedAST::function(
        name("f"),
        vec![parameter("b", None)],
        integer(1),
    )]);
    assert_eq!(lower(tree, 0), Err(LoweringError::MissingParameterType));
}

#[test]
fn operators_other_than_plus_are_refused() {
    for op in [Token::MINUS, Token::STAR, Token::DIV, Token::EQUAL] {
        let tree = statements(vec![ParsedAST::binary(integer(1), op, integer(2))]);
        assert_eq!(lower(tree, 1), Err(LoweringError::UnsupportedOperator));
    }
}

#[test]
fn a_binary_expression_needs_two_values() {
    let tree = statements(vec![plus(constant("x", integer(1)), integer(2))]);
    assert_eq!(lower(tree, 0), Err(LoweringError::MissingOperand));
    let tree = statements(vec![plus(integer(2), ParsedAST::block(vec![]))]);
    assert_eq!(lower(tree, 0), Err(LoweringError::MissingOperand));
}

#[test]
fn nodes_without_a_lowering_are_refused() {
    let tree = statements(vec![ParsedAST::access(ident("a"), ident("b"))]);
    assert_eq!(lower(tree, 0), Err(LoweringError::UnsupportedNode));
    let tree = statements(vec![ParsedAST::EXPRESSION_INSTRUCTION(ExpressionInstruction {
        instr: ExpressionInstructionEnum::COMP,
        rhs: Box::new(integer(1)),
    })]);
    assert_eq!(lower(tree, 0), Err(LoweringError::UnsupportedNode));
}

#[test]
fn counters_that_have_run_out_stop_lowering() {
    let opts = options(0);
    let mut parser = IRParser::new(&opts);
    parser.counter = usize::MAX;
    assert_eq!(
        parser.parse(Box::new(statements(vec![integer(1)]))),
        Err(LoweringError::CounterOverflow)
    );
    let mut parser = IRParser::new(&opts);
    parser.locals_counter = usize::MAX;
    assert_eq!(
        parser.parse(Box::new(statements(vec![ident("x")]))),
        Err(LoweringError::CounterOverflow)
    );
    let mut parser = IRParser::new(&opts);
    parser.block_counter = usize::MAX;
    assert_eq!(
        parser.parse(Box::new(ParsedAST::block(vec![]))),
        Err(LoweringError::CounterOverflow)
    );
    let mut parser = IRParser::new(&opts);
    parser.type_counter = usize::MAX;
    assert_eq!(
        parser.parse(Box::new(statements(vec![ParsedAST::struct_type(vec![])]))),
        Err(LoweringError::CounterOverflow)
    );
    let mut parser = IRParser::new(&opts);
    parser.lambda_counter = usize::MAX;
    let anonymous = ParsedAST::FN(Fun {
        identifier: None,
        params: vec![],
        body: Box::new(ParsedAST::block(vec![])),
    });
    assert_eq!(parser.parse(Box::new(anonymous)), Err(LoweringError::CounterOverflow));
    let mut parser = IRParser::new(&opts);
    parser.lambda_counter = usize::MAX;
    let named = ParsedAST::program(vec![ParsedAST::function(
        name("f"),
        vec![],
        ParsedAST::block(vec![]),
    )]);
    assert!(parser.parse(Box::new(named)).is_ok());
}

#[test]
fn counters_go_on_from_where_they_stand() {
    let opts = options(0);
    let mut parser = IRParser::new(&opts);
    parser.locals_counter = 41;
    parser.block_counter = 9;
    let tree = ParsedAST::program(vec![
        ParsedAST::stmt(plus(integer(1), integer(2))),
        ParsedAST::block(vec![]),
    ]);
    let expected = ir(vec![
        Instruction::ADD(name("41"), IRValue::INT(1), IRValue::INT(2)),
        Instruction::BLOCK(name("9_block"), Box::new(vec![])),
    ]);
    assert_eq!(parser.parse(Box::new(tree)), Ok(expected));
    assert_eq!(parser.locals_counter, 42);
    assert_eq!(parser.block_counter, 10);
}
