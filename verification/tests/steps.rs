use synth::ast::{Binary, LeftUnary, Number, ParsedAST, Qualifier};
use synth::compiler::CompilerOptions;
use synth::ir::{IRValue, Instruction, Ref};
use synth::ir_interpret::{Emitted, IRInterpreter, InterpretError};
use synth::ir_parse::{IRParser, LoweringError};
use synth::number::FloatBits;
use synth::token::Token;
use synth::types::Type;

fn settings(optimization: usize) -> CompilerOptions {
    CompilerOptions { optimization, current_file: "steps.synth".to_string() }
}

fn literal(i: i32) -> Box<ParsedAST> {
    Box::new(ParsedAST::number(Number::INTEGER(i)))
}

fn sum(a: i32, b: i32) -> Binary {
    Binary { left: literal(a), op: Token::PLUS, right: literal(b) }
}

fn marker() -> Vec<Instruction> {
    vec![Instruction::STACK_VAR("kept".to_string(), Type::I32, None)]
}

#[test]
fn a_sum_of_literals_folds_and_emits_nothing() {
    for (a, b) in [(2, 3), (0, 0), (-7, 7), (i32::MAX, 0), (i32::MIN, i32::MAX), (-1, i32::MIN + 1)] {
        let opts = settings(1);
        let mut pass = IRParser::new(&opts);
        let mut block = marker();
        let produced = pass.gen_binary(&sum(a, b), &mut block);
        assert_eq!(produced, Ok((None, Some(IRValue::INT(a + b)))));
        assert_eq!(block, marker());
    }
}

#[test]
fn a_sum_of_literals_is_one_addition_without_optimization() {
    for (a, b) in [(2, 3), (i32::MAX, 1), (i32::MIN, -1)] {
        let opts = settings(0);
        let mut pass = IRParser::new(&opts);
        pass.locals_counter = 5;
        let mut block = marker();
        let produced = pass.gen_binary(&sum(a, b), &mut block);
        let slot = "5".to_string();
        assert_eq!(produced, Ok((None, Some(IRValue::REF(Ref { value: slot.clone() })))));
        let mut expected = marker();
        expected.push(Instruction::ADD(slot, IRValue::INT(a), IRValue::INT(b)));
        assert_eq!(block, expected);
        assert_eq!(pass.locals_counter, 6);
    }
}

#[test]
fn a_sum_that_does_not_fit_is_not_folded() {
    let opts = settings(1);
    let mut pass = IRParser::new(&opts);
    let mut block = marker();
    assert_eq!(
        pass.gen_binary(&sum(i32::MAX, 1), &mut block),
        Err(LoweringError::ArithmeticOverflow)
    );
    assert_eq!(block, marker());
}

fn printing(text: &str) -> Box<ParsedAST> {
    Box::new(ParsedAST::evaluate_now(ParsedAST::call(
        ParsedAST::identifier("printf".to_string()),
        vec![ParsedAST::string(text.to_string())],
    )))
}

#[test]
fn the_left_operand_is_lowered_before_the_right_one() {
    let opts = settings(0);
    let mut pass = IRParser::new(&opts);
    pass.output.push(Emitted::TEXT("before".to_string()));
    let mut block = marker();
    let both = Binary { left: printing("left"), op: Token::PLUS, right: printing("right") };
    assert_eq!(pass.gen_binary(&both, &mut block), Err(LoweringError::MissingOperand));
    assert_eq!(
        pass.output,
        vec![
            Emitted::TEXT("before".to_string()),
            Emitted::TEXT("left".to_string()),
            Emitted::TEXT("right".to_string()),
        ]
    );
    assert_eq!(block, marker());
}

#[test]
fn instructions_of_the_left_operand_come_first() {
    let opts = settings(0);
    let mut pass = IRParser::new(&opts);
    let mut block = marker();
    let nested = Binary {
        left: Box::new(ParsedAST::BINARY(sum(1, 2))),
        op: Token::PLUS,
        right: Box::new(ParsedAST::BINARY(sum(3, 4))),
    };
    let produced = pass.gen_binary(&nested, &mut block);
    assert_eq!(produced, Ok((None, Some(IRValue::REF(Ref { value: "2".to_string() })))));
    let slot = |n: &str| IRValue::REF(Ref { value: n.to_string() });
    let mut expected = marker();
    expected.push(Instruction::ADD("0".to_string(), IRValue::INT(1), IRValue::INT(2)));
    expected.push(Instruction::ADD("1".to_string(), IRValue::INT(3), IRValue::INT(4)));
    expected.push(Instruction::ADD("2".to_string(), slot("0"), slot("1")));
    assert_eq!(block, expected);
}

#[test]
fn evaluating_now_leaves_the_block_alone() {
    let opts = settings(0);
    let mut pass = IRParser::new(&opts);
    let mut block = marker();
    let declared = ParsedAST::declaration(
        "x".to_string(),
        Qualifier::CONST,
        None,
        ParsedAST::number(Number::INTEGER(5)),
    );
    let produced = pass.gen_left_unary(&LeftUnary::COMP(Box::new(declared)), &mut block);
    assert_eq!(produced, Ok((None, None)));
    assert_eq!(block, marker());
    let mut block = marker();
    let produced =
        pass.gen_left_unary(&LeftUnary::COMP(Box::new(ParsedAST::BINARY(sum(40, 2)))), &mut block);
    assert_eq!(produced, Ok((None, Some(IRValue::INT(42)))));
    assert_eq!(block, marker());
    let mut block = marker();
    let failing = ParsedAST::call(ParsedAST::identifier("nothing".to_string()), vec![]);
    assert_eq!(
        pass.gen_left_unary(&LeftUnary::COMP(Box::new(failing)), &mut block),
        Err(LoweringError::Comptime(InterpretError::UnresolvedName))
    );
    assert_eq!(block, marker());
}

#[test]
fn an_integer_holds_exactly_when_it_is_above_zero() {
    let opts = settings(0);
    let interpreter = IRInterpreter::new(&opts);
    for i in [0, 1, -1, 2, -2, i32::MAX, i32::MIN, 100, -100] {
        assert_eq!(
            interpreter.evaluate_instruction_data_for_booleanness(&IRValue::INT(i)),
            Ok(i > 0)
        );
    }
    assert_eq!(interpreter.evaluate_instruction_data_for_booleanness(&IRValue::INT(0)), Ok(false));
    assert_eq!(interpreter.evaluate_instruction_data_for_booleanness(&IRValue::INT(1)), Ok(true));
    assert_eq!(interpreter.evaluate_instruction_data_for_booleanness(&IRValue::INT(-1)), Ok(false));
    let half = IRValue::FLOAT(FloatBits { bits: 0.5f32.to_bits() });
    assert_eq!(interpreter.evaluate_instruction_data_for_booleanness(&half), Ok(true));
    assert!(interpreter.variables_map.is_empty());
}

#[test]
fn a_load_of_an_unbound_name_binds_nothing() {
    let opts = settings(0);
    let mut interpreter = IRInterpreter::new(&opts);
    let missing = Ref { value: "missing".to_string() };
    assert_eq!(
        interpreter.execute_load(&"0".to_string(), &missing),
        Err(InterpretError::UnresolvedName)
    );
    assert_eq!(interpreter.lookup("0"), None);
    assert!(interpreter.variables_map.is_empty());
    for known in ["printf", "SYNTH_FILENAME"] {
        let source = Ref { value: known.to_string() };
        assert_eq!(interpreter.execute_load(&"1".to_string(), &source), Ok(None));
    }
    assert_eq!(interpreter.lookup("1"), Some(IRValue::STRING("steps.synth".to_string())));
    interpreter.variables_map.insert("x".to_string(), IRValue::INT(3));
    let source = Ref { value: "x".to_string() };
    assert_eq!(interpreter.execute_load(&"2".to_string(), &source), Ok(None));
    assert_eq!(interpreter.lookup("2"), Some(IRValue::INT(3)));
}
