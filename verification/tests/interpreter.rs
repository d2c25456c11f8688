use synth::compiler::CompilerOptions;
use synth::ir::{IRValue, Instruction, Ref};
use synth::ir_interpret::{Emitted, IRInterpreter, InterpretError};
use synth::number::FloatBits;
use synth::types::Type;

fn options() -> CompilerOptions {
    CompilerOptions { optimization: 0, current_file: "main.synth".to_string() }
}

fn name(s: &str) -> String {
    s.to_string()
}

fn reference(s: &str) -> IRValue {
    IRValue::REF(Ref { value: s.to_string() })
}

fn declare(slot: &str, value: IRValue) -> Instruction {
    Instruction::STACK_VAR(name(slot), Type::I32, Some(value))
}

fn program(items: Vec<Instruction>) -> Instruction {
    Instruction::PROGRAM(Box::new(items))
}

fn print(value: IRValue) -> Instruction {
    Instruction::CALL(name("0"), name("printf"), vec![value])
}

#[test]
fn sum_of_two_constants_is_bound() {
    let opts = options();
    let mut interpreter = IRInterpreter::new(&opts);
    let ir = program(vec![
        declare("x", IRValue::INT(2)),
        declare("y", IRValue::INT(3)),
        Instruction::ADD(name("0"), reference("x"), reference("y")),
        declare("z", reference("0")),
    ]);
    let result = interpreter.execute(&ir);
    assert_eq!(result, Ok(None));
    assert_eq!(interpreter.lookup("z"), Some(IRValue::INT(5)));
    assert_eq!(interpreter.lookup("x"), Some(IRValue::INT(2)));
    assert_eq!(interpreter.lookup("y"), Some(IRValue::INT(3)));
    assert_eq!(interpreter.lookup("0"), Some(IRValue::INT(5)));
}

#[test]
fn execute_binds_the_print_intrinsic() {
    let opts = options();
    let mut interpreter = IRInterpreter::new(&opts);
    assert_eq!(interpreter.lookup("printf"), None);
    assert_eq!(interpreter.execute(&program(vec![])), Ok(None));
    assert_eq!(interpreter.lookup("printf"), Some(IRValue::INTRINSIC(name("printf"))));
}

#[test]
fn program_yields_the_value_of_its_last_instruction() {
    let opts = options();
    let mut interpreter = IRInterpreter::new(&opts);
    let ir = program(vec![
        declare("x", IRValue::INT(1)),
        Instruction::ADD(name("s"), IRValue::INT(40), IRValue::INT(2)),
    ]);
    assert_eq!(interpreter.execute(&ir), Ok(Some(IRValue::INT(42))));
    let mut second = IRInterpreter::new(&opts);
    let ir = program(vec![
        Instruction::ADD(name("s"), IRValue::INT(40), IRValue::INT(2)),
        declare("x", IRValue::INT(1)),
    ]);
    assert_eq!(second.execute(&ir), Ok(None));
}

#[test]
fn block_runs_its_instructions_in_the_same_environment() {
    let opts = options();
    let mut interpreter = IRInterpreter::new(&opts);
    let ir = program(vec![Instruction::BLOCK(
        name("0"),
        Box::new(vec![declare("inner", IRValue::INT(7))]),
    )]);
    assert_eq!(interpreter.execute(&ir), Ok(None));
    assert_eq!(interpreter.lookup("inner"), Some(IRValue::INT(7)));
}

fn branch_taken(condition: IRValue, with_else: bool) -> (Option<IRValue>, Option<IRValue>) {
    let opts = options();
    let mut interpreter = IRInterpreter::new(&opts);
    let else_body = if with_else {
        Some(Box::new(declare("otherwise", IRValue::INT(1))))
    } else {
        None
    };
    let ir = Instruction::COND_BR(condition, Box::new(declare("then", IRValue::INT(1))), else_body);
    assert_eq!(interpreter.execute(&ir), Ok(None));
    (interpreter.lookup("then"), interpreter.lookup("otherwise"))
}

#[test]
fn branch_on_zero_takes_the_else_branch() {
    assert_eq!(branch_taken(IRValue::INT(0), true), (None, Some(IRValue::INT(1))));
    assert_eq!(branch_taken(IRValue::INT(0), false), (None, None));
}

#[test]
fn branch_on_one_takes_the_then_branch() {
    assert_eq!(branch_taken(IRValue::INT(1), true), (Some(IRValue::INT(1)), None));
    assert_eq!(branch_taken(IRValue::INT(1), false), (Some(IRValue::INT(1)), None));
}

#[test]
fn branch_on_minus_one_takes_the_else_branch() {
    assert_eq!(branch_taken(IRValue::INT(-1), true), (None, Some(IRValue::INT(1))));
    assert_eq!(branch_taken(IRValue::INT(-1), false), (None, None));
}

#[test]
fn branch_on_extreme_integers() {
    assert_eq!(branch_taken(IRValue::INT(i32::MAX), true), (Some(IRValue::INT(1)), None));
    assert_eq!(branch_taken(IRValue::INT(i32::MIN), true), (None, Some(IRValue::INT(1))));
}

fn float(f: f32) -> IRValue {
    IRValue::FLOAT(FloatBits { bits: f.to_bits() })
}

#[test]
fn branch_on_floats_follows_the_sign() {
    assert_eq!(branch_taken(float(0.5), true), (Some(IRValue::INT(1)), None));
    assert_eq!(branch_taken(float(0.0), true), (None, Some(IRValue::INT(1))));
    assert_eq!(branch_taken(float(-0.0), true), (None, Some(IRValue::INT(1))));
    assert_eq!(branch_taken(float(-2.5), true), (None, Some(IRValue::INT(1))));
    assert_eq!(branch_taken(float(f32::NAN), true), (None, Some(IRValue::INT(1))));
    assert_eq!(branch_taken(float(f32::INFINITY), true), (Some(IRValue::INT(1)), None));
}

#[test]
fn above_zero_agrees_with_float_comparison() {
    let samples = [
        0.0f32,
        -0.0,
        1.0,
        -1.0,
        f32::MIN_POSITIVE,
        -f32::MIN_POSITIVE,
        f32::MAX,
        f32::MIN,
        f32::INFINITY,
        f32::NEG_INFINITY,
        f32::NAN,
        -f32::NAN,
        1.0e-45,
        -1.0e-45,
        3.25,
        f32::EPSILON,
    ];
    for f in samples {
        let bits = FloatBits { bits: f.to_bits() };
        assert_eq!(bits.is_above_zero(), f > 0.0, "{:?}", f);
    }
    assert!(FloatBits { bits: 1 }.is_above_zero());
    assert!(FloatBits { bits: 0x7F80_0000 }.is_above_zero());
    assert!(!FloatBits { bits: 0x7F80_0001 }.is_above_zero());
    assert!(!FloatBits { bits: 0x8000_0000 }.is_above_zero());
    assert!(!FloatBits { bits: u32::MAX }.is_above_zero());
}

#[test]
fn branch_follows_a_reference() {
    let opts = options();
    let mut interpreter = IRInterpreter::new(&opts);
    let ir = program(vec![
        declare("flag", IRValue::INT(3)),
        Instruction::COND_BR(reference("flag"), Box::new(declare("then", IRValue::INT(1))), None),
    ]);
    assert_eq!(interpreter.execute(&ir), Ok(None));
    assert_eq!(interpreter.lookup("then"), Some(IRValue::INT(1)));
}

#[test]
fn branch_follows_a_chain_of_references() {
    let opts = options();
    let mut interpreter = IRInterpreter::new(&opts);
    interpreter.variables_map.insert(name("a"), reference("b"));
    interpreter.variables_map.insert(name("b"), reference("c"));
    interpreter.variables_map.insert(name("c"), IRValue::INT(9));
    let ir = Instruction::COND_BR(reference("a"), Box::new(declare("then", IRValue::INT(1))), None);
    assert_eq!(interpreter.execute(&ir), Ok(None));
    assert_eq!(interpreter.lookup("then"), Some(IRValue::INT(1)));
}

#[test]
fn branch_on_references_in_a_circle_fails() {
    let opts = options();
    let mut interpreter = IRInterpreter::new(&opts);
    interpreter.variables_map.insert(name("a"), reference("b"));
    interpreter.variables_map.insert(name("b"), reference("a"));
    let ir = Instruction::COND_BR(reference("a"), Box::new(declare("then", IRValue::INT(1))), None);
    assert_eq!(interpreter.execute(&ir), Err(InterpretError::ReferenceCycle));
    assert_eq!(interpreter.lookup("then"), None);
}

#[test]
fn branch_on_an_unbound_reference_fails() {
    let opts = options();
    let mut interpreter = IRInterpreter::new(&opts);
    let ir = Instruction::COND_BR(reference("nowhere"), Box::new(Instruction::NONE), None);
    assert_eq!(interpreter.execute(&ir), Err(InterpretError::UnresolvedName));
}

#[test]
fn branch_on_a_string_fails() {
    let opts = options();
    let mut interpreter = IRInterpreter::new(&opts);
    let ir = Instruction::COND_BR(IRValue::STRING(name("yes")), Box::new(Instruction::NONE), None);
    assert_eq!(interpreter.execute(&ir), Err(InterpretError::UnknownConditionType));
    let ir = Instruction::COND_BR(IRValue::STRUCT(vec![]), Box::new(Instruction::NONE), None);
    assert_eq!(interpreter.execute(&ir), Err(InterpretError::UnknownConditionType));
}

#[test]
fn branch_passes_on_the_error_of_its_body() {
    let opts = options();
    let mut interpreter = IRInterpreter::new(&opts);
    let ir = Instruction::COND_BR(IRValue::INT(1), Box::new(Instruction::NONE), None);
    assert_eq!(interpreter.execute(&ir), Err(InterpretError::UnsupportedInstruction));
    let ir = Instruction::COND_BR(
        IRValue::INT(0),
        Box::new(declare("then", IRValue::INT(1))),
        Some(Box::new(Instruction::NONE)),
    );
    assert_eq!(interpreter.execute(&ir), Err(InterpretError::UnsupportedInstruction));
}

#[test]
fn branch_drops_the_value_of_its_body() {
    let opts = options();
    let mut interpreter = IRInterpreter::new(&opts);
    let ir = Instruction::COND_BR(
        IRValue::INT(1),
        Box::new(Instruction::ADD(name("s"), IRValue::INT(1), IRValue::INT(1))),
        None,
    );
    assert_eq!(interpreter.execute(&ir), Ok(None));
    assert_eq!(interpreter.lookup("s"), Some(IRValue::INT(2)));
}

#[test]
fn load_of_an_unbound_name_fails() {
    let opts = options();
    let mut interpreter = IRInterpreter::new(&opts);
    let ir = Instruction::LOAD(name("0"), Ref { value: name("missing") });
    assert_eq!(interpreter.execute(&ir), Err(InterpretError::UnresolvedName));
    assert_eq!(interpreter.lookup("0"), None);
}

#[test]
fn load_copies_a_binding() {
    let opts = options();
    let mut interpreter = IRInterpreter::new(&opts);
    let ir = program(vec![
        declare("x", IRValue::STRING(name("text"))),
        Instruction::LOAD(name("0"), Ref { value: name("x") }),
    ]);
    assert_eq!(interpreter.execute(&ir), Ok(None));
    assert_eq!(interpreter.lookup("0"), Some(IRValue::STRING(name("text"))));
}

#[test]
fn load_knows_the_print_intrinsic_and_the_file_name() {
    let opts = options();
    let mut interpreter = IRInterpreter::new(&opts);
    let ir = program(vec![
        Instruction::LOAD(name("0"), Ref { value: name("printf") }),
        Instruction::LOAD(name("1"), Ref { value: name("SYNTH_FILENAME") }),
    ]);
    assert_eq!(interpreter.execute(&ir), Ok(None));
    assert_eq!(interpreter.lookup("0"), Some(IRValue::INTRINSIC(name("printf"))));
    assert_eq!(interpreter.lookup("1"), Some(IRValue::STRING(name("main.synth"))));
}

#[test]
fn load_prefers_a_binding_over_the_file_name() {
    let opts = options();
    let mut interpreter = IRInterpreter::new(&opts);
    let ir = program(vec![
        declare("SYNTH_FILENAME", IRValue::INT(1)),
        Instruction::LOAD(name("0"), Ref { value: name("SYNTH_FILENAME") }),
    ]);
    assert_eq!(interpreter.execute(&ir), Ok(None));
    assert_eq!(interpreter.lookup("0"), Some(IRValue::INT(1)));
}

#[test]
fn print_of_a_string_emits_the_string() {
    let opts = options();
    let mut interpreter = IRInterpreter::new(&opts);
    assert_eq!(interpreter.execute(&print(IRValue::STRING(name("hi")))), Ok(None));
    assert_eq!(interpreter.output, vec![Emitted::TEXT(name("hi"))]);
}

#[test]
fn print_of_an_integer_emits_its_decimal_text() {
    let opts = options();
    let mut interpreter = IRInterpreter::new(&opts);
    assert_eq!(interpreter.execute(&print(IRValue::INT(42))), Ok(None));
    assert_eq!(interpreter.execute(&print(IRValue::INT(-7))), Ok(None));
    assert_eq!(interpreter.execute(&print(IRValue::INT(0))), Ok(None));
    assert_eq!(interpreter.execute(&print(IRValue::INT(i32::MIN))), Ok(None));
    assert_eq!(interpreter.execute(&print(IRValue::INT(i32::MAX))), Ok(None));
    assert_eq!(
        interpreter.output,
        vec![
            Emitted::TEXT(name("42")),
            Emitted::TEXT(name("-7")),
            Emitted::TEXT(name("0")),
            Emitted::TEXT(name("-2147483648")),
            Emitted::TEXT(name("2147483647")),
        ]
    );
}

#[test]
fn print_of_a_float_emits_the_float() {
    let opts = options();
    let mut interpreter = IRInterpreter::new(&opts);
    assert_eq!(interpreter.execute(&print(float(1.5))), Ok(None));
    assert_eq!(interpreter.output, vec![Emitted::FLOAT(FloatBits { bits: 1.5f32.to_bits() })]);
}

#[test]
fn print_resolves_a_reference() {
    let opts = options();
    let mut interpreter = IRInterpreter::new(&opts);
    let ir = program(vec![declare("x", IRValue::INT(12)), print(reference("x"))]);
    assert_eq!(interpreter.execute(&ir), Ok(None));
    assert_eq!(interpreter.output, vec![Emitted::TEXT(name("12"))]);
    assert_eq!(interpreter.lookup("0"), None);
}

#[test]
fn print_keeps_lines_in_order() {
    let opts = options();
    let mut interpreter = IRInterpreter::new(&opts);
    let ir = program(vec![
        print(IRValue::STRING(name("first"))),
        print(IRValue::STRING(name("second"))),
        Instruction::NONE,
        print(IRValue::STRING(name("never"))),
    ]);
    assert_eq!(interpreter.execute(&ir), Err(InterpretError::UnsupportedInstruction));
    assert_eq!(
        interpreter.output,
        vec![Emitted::TEXT(name("first")), Emitted::TEXT(name("second"))]
    );
}

#[test]
fn print_fails_on_other_values() {
    let opts = options();
    let mut interpreter = IRInterpreter::new(&opts);
    assert_eq!(
        interpreter.execute(&print(IRValue::STRUCT(vec![IRValue::INT(1)]))),
        Err(InterpretError::UnprintableValue)
    );
    assert_eq!(
        interpreter.execute(&print(IRValue::INTRINSIC(name("printf")))),
        Err(InterpretError::UnprintableValue)
    );
    assert_eq!(
        interpreter.execute(&print(reference("missing"))),
        Err(InterpretError::UnresolvedName)
    );
    assert!(interpreter.output.is_empty());
}

#[test]
fn print_takes_exactly_one_argument() {
    let opts = options();
    let mut interpreter = IRInterpreter::new(&opts);
    let none = Instruction::CALL(name("0"), name("printf"), vec![]);
    assert_eq!(interpreter.execute(&none), Err(InterpretError::BadArgumentCount));
    let two = Instruction::CALL(name("0"), name("printf"), vec![IRValue::INT(1), IRValue::INT(2)]);
    assert_eq!(interpreter.execute(&two), Err(InterpretError::BadArgumentCount));
    assert!(interpreter.output.is_empty());
}

#[test]
fn call_needs_an_intrinsic() {
    let opts = options();
    let mut interpreter = IRInterpreter::new(&opts);
    let unbound = Instruction::CALL(name("0"), name("f"), vec![IRValue::INT(1)]);
    assert_eq!(interpreter.execute(&unbound), Err(InterpretError::UnresolvedName));
    let ir = program(vec![
        declare("f", IRValue::INT(1)),
        Instruction::CALL(name("0"), name("f"), vec![IRValue::INT(1)]),
    ]);
    assert_eq!(interpreter.execute(&ir), Err(InterpretError::CalleeNotCallable));
}

#[test]
fn call_of_another_intrinsic_does_nothing() {
    let opts = options();
    let mut interpreter = IRInterpreter::new(&opts);
    let ir = program(vec![
        declare("other", IRValue::INTRINSIC(name("other"))),
        Instruction::CALL(name("0"), name("other"), vec![]),
    ]);
    assert_eq!(interpreter.execute(&ir), Ok(None));
    assert!(interpreter.output.is_empty());
    assert_eq!(interpreter.lookup("0"), None);
}

#[test]
fn addition_binds_and_yields_the_sum() {
    let opts = options();
    let mut interpreter = IRInterpreter::new(&opts);
    let ir = Instruction::ADD(name("s"), IRValue::INT(-5), IRValue::INT(12));
    assert_eq!(interpreter.execute(&ir), Ok(Some(IRValue::INT(7))));
    assert_eq!(interpreter.lookup("s"), Some(IRValue::INT(7)));
}

#[test]
fn addition_fails_on_overflow() {
    let opts = options();
    let mut interpreter = IRInterpreter::new(&opts);
    let ir = Instruction::ADD(name("s"), IRValue::INT(i32::MAX), IRValue::INT(1));
    assert_eq!(interpreter.execute(&ir), Err(InterpretError::ArithmeticOverflow));
    let ir = Instruction::ADD(name("s"), IRValue::INT(i32::MIN), IRValue::INT(-1));
    assert_eq!(interpreter.execute(&ir), Err(InterpretError::ArithmeticOverflow));
    assert_eq!(interpreter.lookup("s"), None);
    let ir = Instruction::ADD(name("s"), IRValue::INT(i32::MAX), IRValue::INT(0));
    assert_eq!(interpreter.execute(&ir), Ok(Some(IRValue::INT(i32::MAX))));
}

#[test]
fn addition_needs_integers() {
    let opts = options();
    let mut interpreter = IRInterpreter::new(&opts);
    let ir = Instruction::ADD(name("s"), float(1.0), IRValue::INT(1));
    assert_eq!(interpreter.execute(&ir), Err(InterpretError::UnsupportedType));
    let ir = Instruction::ADD(name("s"), IRValue::INT(1), IRValue::STRING(name("1")));
    assert_eq!(interpreter.execute(&ir), Err(InterpretError::UnsupportedType));
    let ir = program(vec![
        declare("text", IRValue::STRING(name("1"))),
        Instruction::ADD(name("s"), reference("text"), IRValue::INT(1)),
    ]);
    assert_eq!(interpreter.execute(&ir), Err(InterpretError::UnsupportedType));
}

#[test]
fn addition_fails_on_an_unbound_operand() {
    let opts = options();
    let mut interpreter = IRInterpreter::new(&opts);
    let ir = Instruction::ADD(name("s"), reference("missing"), IRValue::INT(1));
    assert_eq!(interpreter.execute(&ir), Err(InterpretError::UnresolvedName));
    let ir = Instruction::ADD(name("s"), IRValue::INT(1), reference("missing"));
    assert_eq!(interpreter.execute(&ir), Err(InterpretError::UnresolvedName));
    let ir = Instruction::ADD(name("s"), float(1.0), reference("missing"));
    assert_eq!(interpreter.execute(&ir), Err(InterpretError::UnsupportedType));
}

#[test]
fn declaration_resolves_a_reference_once() {
    let opts = options();
    let mut interpreter = IRInterpreter::new(&opts);
    let ir = program(vec![declare("x", IRValue::INT(4)), declare("y", reference("x"))]);
    assert_eq!(interpreter.execute(&ir), Ok(None));
    assert_eq!(interpreter.lookup("y"), Some(IRValue::INT(4)));
    let ir = declare("z", reference("missing"));
    assert_eq!(interpreter.execute(&ir), Err(InterpretError::UnresolvedName));
    assert_eq!(interpreter.lookup("z"), None);
}

#[test]
fn declaration_binds_any_immediate() {
    let opts = options();
    let mut interpreter = IRInterpreter::new(&opts);
    let aggregate = IRValue::STRUCT(vec![IRValue::INT(123)]);
    let ir = program(vec![
        declare("a", aggregate),
        declare("f", float(2.0)),
        declare("s", IRValue::STRING(name("text"))),
        Instruction::STACK_VAR(name("empty"), Type::I32, None),
    ]);
    assert_eq!(interpreter.execute(&ir), Ok(None));
    assert_eq!(interpreter.lookup("a"), Some(IRValue::STRUCT(vec![IRValue::INT(123)])));
    assert_eq!(interpreter.lookup("f"), Some(float(2.0)));
    assert_eq!(interpreter.lookup("s"), Some(IRValue::STRING(name("text"))));
    assert_eq!(interpreter.lookup("empty"), None);
}

#[test]
fn declaration_replaces_an_earlier_binding() {
    let opts = options();
    let mut interpreter = IRInterpreter::new(&opts);
    let ir = program(vec![declare("x", IRValue::INT(1)), declare("x", IRValue::INT(2))]);
    assert_eq!(interpreter.execute(&ir), Ok(None));
    assert_eq!(interpreter.lookup("x"), Some(IRValue::INT(2)));
}

#[test]
fn instructions_that_are_not_executed_fail() {
    let opts = options();
    let unsupported = vec![
        Instruction::NONE,
        Instruction::SUB(name("0"), IRValue::INT(1), IRValue::INT(1)),
        Instruction::STORE(Ref { value: name("x") }, IRValue::INT(1)),
        Instruction::FUNC(name("f"), vec![], Box::new(program(vec![]))),
        Instruction::TYPE(name("t"), vec![Type::I32]),
    ];
    for instruction in unsupported {
        let mut interpreter = IRInterpreter::new(&opts);
        assert_eq!(
            interpreter.execute(&instruction),
            Err(InterpretError::UnsupportedInstruction)
        );
    }
}

#[test]
fn an_error_stops_the_program_and_keeps_what_was_bound() {
    let opts = options();
    let mut interpreter = IRInterpreter::new(&opts);
    let ir = program(vec![
        declare("before", IRValue::INT(1)),
        Instruction::LOAD(name("0"), Ref { value: name("missing") }),
        declare("after", IRValue::INT(2)),
    ]);
    assert_eq!(interpreter.execute(&ir), Err(InterpretError::UnresolvedName));
    assert_eq!(interpreter.lookup("before"), Some(IRValue::INT(1)));
    assert_eq!(interpreter.lookup("after"), None);
}

#[test]
fn settings_stay_as_they_were() {
    let opts = options();
    let mut interpreter = IRInterpreter::new(&opts);
    interpreter.counter = 17;
    assert_eq!(interpreter.execute(&print(IRValue::INT(1))), Ok(None));
    assert_eq!(interpreter.counter, 17);
    assert_eq!(interpreter.compiler_options, &opts);
}
