use synth::ir::{IRValue, Instruction, Ref};
use synth::number::FloatBits;
use synth::types::{FnPrimative, Type};

fn name(s: &str) -> String {
    s.to_string()
}

fn reference(s: &str) -> IRValue {
    IRValue::REF(Ref { value: name(s) })
}

fn types() -> Vec<Type> {
    vec![
        Type::U32,
        Type::I32,
        Type::F32,
        Type::BOOL,
        Type::STRING,
        Type::SLICE,
        Type::BLOCK,
        Type::TYPE,
        Type::STRUCT(name("Point")),
        Type::STRUCT(name("we\"ird\n")),
        Type::FN(FnPrimative { args: vec![], return_type: None }),
        Type::FN(FnPrimative { args: vec![Type::I32], return_type: Some(Box::new(Type::U32)) }),
        Type::FN(FnPrimative {
            args: vec![
                Type::I32,
                Type::STRUCT(name("P")),
                Type::FN(FnPrimative { args: vec![Type::BOOL, Type::BOOL], return_type: None }),
            ],
            return_type: Some(Box::new(Type::FN(FnPrimative {
                args: vec![],
                return_type: Some(Box::new(Type::STRING)),
            }))),
        }),
    ]
}

fn values() -> Vec<IRValue> {
    vec![
        IRValue::INT(0),
        IRValue::INT(42),
        IRValue::INT(-7),
        IRValue::INT(i32::MIN),
        IRValue::INT(i32::MAX),
        IRValue::FLOAT(FloatBits { bits: 0 }),
        IRValue::FLOAT(FloatBits { bits: 1.5f32.to_bits() }),
        IRValue::FLOAT(FloatBits { bits: u32::MAX }),
        IRValue::STRING(name("")),
        IRValue::STRING(name("hi")),
        IRValue::STRING(name("a \"quoted\" word, a \\ and a ' mark")),
        IRValue::STRING(name("line\nend\ttab\rreturn\0null")),
        IRValue::STRING(name("\u{e9}t\u{e9} \u{3b1} \u{1f600} \u{7f} \u{301} \u{200b}")),
        reference("x"),
        reference("0"),
        IRValue::INTRINSIC(name("printf")),
        IRValue::STRUCT(vec![]),
        IRValue::STRUCT(vec![IRValue::INT(123)]),
        IRValue::STRUCT(vec![
            IRValue::INT(1),
            reference("y"),
            IRValue::STRUCT(vec![IRValue::STRING(name("in")), IRValue::STRUCT(vec![])]),
        ]),
    ]
}

fn leaf_instructions() -> Vec<Instruction> {
    vec![
        Instruction::NONE,
        Instruction::ADD(name("0"), IRValue::INT(1), reference("x")),
        Instruction::SUB(name("1"), reference("x"), IRValue::INT(1)),
        Instruction::LOAD(name("2"), Ref { value: name("x") }),
        Instruction::STORE(Ref { value: name("x") }, IRValue::STRING(name("s"))),
        Instruction::STACK_VAR(name("x"), Type::I32, None),
        Instruction::STACK_VAR(name("y"), Type::STRUCT(name("P")), Some(IRValue::INT(2))),
        Instruction::CALL(name("3"), name("printf"), vec![]),
        Instruction::CALL(name("4"), name("printf"), vec![IRValue::INT(1), reference("x")]),
        Instruction::TYPE(name("0_anon_type"), vec![]),
        Instruction::TYPE(name("0_anon_type"), vec![Type::I32, Type::U32]),
    ]
}

fn instructions() -> Vec<Instruction> {
    let mut all = leaf_instructions();
    all.push(Instruction::PROGRAM(Box::new(vec![])));
    all.push(Instruction::PROGRAM(Box::new(leaf_instructions())));
    all.push(Instruction::BLOCK(name("0"), Box::new(vec![])));
    all.push(Instruction::BLOCK(name("b"), Box::new(leaf_instructions())));
    all.push(Instruction::COND_BR(
        reference("c"),
        Box::new(Instruction::BLOCK(name("1"), Box::new(leaf_instructions()))),
        None,
    ));
    all.push(Instruction::COND_BR(
        IRValue::INT(1),
        Box::new(Instruction::NONE),
        Some(Box::new(Instruction::PROGRAM(Box::new(leaf_instructions())))),
    ));
    all.push(Instruction::FUNC(name("f"), vec![], Box::new(Instruction::NONE)));
    all.push(Instruction::FUNC(
        name("0_lambda"),
        vec![Type::I32, Type::STRUCT(name("P"))],
        Box::new(Instruction::BLOCK(
            name("2"),
            Box::new(vec![Instruction::COND_BR(
                IRValue::INT(0),
                Box::new(Instruction::PROGRAM(Box::new(leaf_instructions()))),
                Some(Box::new(Instruction::FUNC(
                    name("g"),
                    vec![],
                    Box::new(Instruction::NONE),
                ))),
            )]),
        )),
    ));
    all
}

#[test]
fn types_are_shown_as_the_debug_formatter_shows_them() {
    for t in types() {
        assert_eq!(t.debug_string(), format!("{:?}", t));
    }
    assert_eq!(Type::I32.debug_string(), "I32");
    assert_eq!(Type::STRUCT(name("P")).debug_string(), "STRUCT(\"P\")");
    assert_eq!(
        Type::FN(FnPrimative { args: vec![Type::I32, Type::U32], return_type: None })
            .debug_string(),
        "FN(FnPrimative { args: [I32, U32], return_type: None })"
    );
}

#[test]
fn values_are_shown_as_the_debug_formatter_shows_them() {
    for v in values() {
        assert_eq!(v.debug_string(), format!("{:?}", v));
    }
    assert_eq!(IRValue::INT(42).debug_string(), "INT(42)");
    assert_eq!(IRValue::STRING(name("hi")).debug_string(), "STRING(\"hi\")");
    assert_eq!(reference("x").debug_string(), "REF(Ref { value: \"x\" })");
    assert_eq!(
        IRValue::FLOAT(FloatBits { bits: 7 }).debug_string(),
        "FLOAT(FloatBits { bits: 7 })"
    );
    assert_eq!(
        IRValue::STRUCT(vec![IRValue::INT(1), IRValue::INT(2)]).debug_string(),
        "STRUCT([INT(1), INT(2)])"
    );
}

#[test]
fn references_are_shown_as_the_debug_formatter_shows_them() {
    for s in ["x", "", "a b", "q\"q"] {
        let r = Ref { value: name(s) };
        assert_eq!(r.debug_string(), format!("{:?}", r));
    }
}

#[test]
fn instructions_are_shown_as_the_debug_formatter_shows_them() {
    for i in instructions() {
        assert_eq!(i.debug_string(), format!("{:?}", i));
    }
    assert_eq!(
        Instruction::ADD(name("0"), IRValue::INT(1), IRValue::INT(2)).debug_string(),
        "ADD(\"0\", INT(1), INT(2))"
    );
}

#[test]
fn a_load_is_written_on_one_line() {
    let i = Instruction::LOAD(name("0"), Ref { value: name("x") });
    assert_eq!(i.to_string_for_writing(), "0               = load       Ref { value: \"x\" }");
    assert_eq!(
        i.to_string_for_writing(),
        format!("{:<15} = {:<10} {:?}", "0", "load", Ref { value: name("x") })
    );
}

#[test]
fn a_store_is_written_on_one_line() {
    let i = Instruction::STORE(Ref { value: name("x") }, IRValue::INT(4));
    assert_eq!(
        i.to_string_for_writing(),
        "         store      Ref { value: \"x\" } INT(4)"
    );
}

#[test]
fn a_local_is_written_with_its_type_and_value() {
    let i = Instruction::STACK_VAR(name("x"), Type::I32, Some(IRValue::INT(2)));
    assert_eq!(i.to_string_for_writing(), "x               = stack_var  I32 Some(INT(2))");
    let i = Instruction::STACK_VAR(name("a_rather_long_name"), Type::STRUCT(name("P")), None);
    assert_eq!(
        i.to_string_for_writing(),
        "a_rather_long_name = stack_var  STRUCT(\"P\") None"
    );
    assert_eq!(
        i.to_string_for_writing(),
        format!(
            "{:<15} = {:<10} {:?} {:?}",
            "a_rather_long_name",
            "stack_var",
            Type::STRUCT(name("P")),
            None::<IRValue>
        )
    );
}

#[test]
fn sums_and_differences_are_written_with_their_sign() {
    let i = Instruction::ADD(name("2"), reference("x"), IRValue::INT(1));
    assert_eq!(
        i.to_string_for_writing(),
        "2               = add        REF(Ref { value: \"x\" }) + INT(1)"
    );
    let i = Instruction::SUB(name("3"), IRValue::INT(5), IRValue::INT(1));
    assert_eq!(i.to_string_for_writing(), "3               = sub        INT(5) - INT(1)");
}

#[test]
fn a_call_is_written_with_its_arguments() {
    let i = Instruction::CALL(name("0"), name("printf"), vec![IRValue::STRING(name("hi"))]);
    assert_eq!(
        i.to_string_for_writing(),
        "0               = call       printf args [[STRING(\"hi\")]]"
    );
    let i = Instruction::CALL(name("1"), name("f"), vec![]);
    assert_eq!(i.to_string_for_writing(), "1               = call       f args [[]]");
    let args = vec![IRValue::INT(1), reference("x")];
    let i = Instruction::CALL(name("1"), name("f"), vec![IRValue::INT(1), reference("x")]);
    assert_eq!(
        i.to_string_for_writing(),
        format!("{:<15} = {:<10} {} args [{:?}]", "1", "call", "f", args)
    );
}

#[test]
fn a_type_is_written_with_its_fields() {
    let i = Instruction::TYPE(name("0_anon_type"), vec![Type::I32, Type::U32]);
    assert_eq!(i.to_string_for_writing(), "0_anon_type     = type [I32, U32]");
}

#[test]
fn a_function_is_written_with_its_parameters_and_body() {
    let body = Instruction::BLOCK(
        name("0"),
        Box::new(vec![Instruction::STACK_VAR(name("x"), Type::I32, Some(IRValue::INT(2)))]),
    );
    let i = Instruction::FUNC(name("f"), vec![Type::I32], Box::new(body));
    assert_eq!(
        i.to_string_for_writing(),
        "def f               = [I32] BLOCK(\"0\", [STACK_VAR(\"x\", I32, Some(INT(2)))])"
    );
}

#[test]
fn a_program_is_written_line_by_line() {
    let i = Instruction::PROGRAM(Box::new(vec![
        Instruction::STACK_VAR(name("x"), Type::I32, Some(IRValue::INT(2))),
        Instruction::LOAD(name("0"), Ref { value: name("x") }),
    ]));
    assert_eq!(
        i.to_string_for_writing(),
        "x               = stack_var  I32 Some(INT(2))\n0               = load       Ref { value: \"x\" }\n"
    );
    assert_eq!(Instruction::PROGRAM(Box::new(vec![])).to_string_for_writing(), "");
}

#[test]
fn a_block_is_written_under_its_label() {
    let i = Instruction::BLOCK(
        name("0"),
        Box::new(vec![Instruction::LOAD(name("1"), Ref { value: name("x") })]),
    );
    assert_eq!(
        i.to_string_for_writing(),
        "\n0:             \n1               = load       Ref { value: \"x\" }\n\n"
    );
    let empty = Instruction::BLOCK(name("7"), Box::new(vec![]));
    assert_eq!(empty.to_string_for_writing(), "\n7:             \n          \n");
    let nested = Instruction::BLOCK(
        name("1"),
        Box::new(vec![Instruction::PROGRAM(Box::new(vec![]))]),
    );
    assert_eq!(nested.to_string_for_writing(), format!("\n{:<15}\n{:<10}\n", "1:", "\n"));
}

#[test]
fn a_branch_is_written_with_both_sides() {
    let then = Instruction::STORE(Ref { value: name("y") }, IRValue::INT(1));
    let other = Instruction::STORE(Ref { value: name("y") }, IRValue::INT(2));
    let both = Instruction::COND_BR(
        reference("c"),
        Box::new(Instruction::STORE(Ref { value: name("y") }, IRValue::INT(1))),
        Some(Box::new(Instruction::STORE(Ref { value: name("y") }, IRValue::INT(2)))),
    );
    assert_eq!(
        both.to_string_for_writing(),
        format!(
            "{:<15} {:?} then {} else {}",
            "if",
            reference("c"),
            then.to_string_for_writing(),
            other.to_string_for_writing()
        )
    );
    let one = Instruction::COND_BR(
        IRValue::INT(1),
        Box::new(Instruction::STORE(Ref { value: name("y") }, IRValue::INT(1))),
        None,
    );
    assert_eq!(
        one.to_string_for_writing(),
        "if              INT(1) then          store      Ref { value: \"y\" } INT(1)"
    );
}

#[test]
fn nothing_is_written_as_none() {
    assert_eq!(Instruction::NONE.to_string_for_writing(), "none");
}

#[test]
fn copies_are_equal_to_their_originals() {
    for t in types() {
        assert_eq!(t.clone(), t);
    }
    for v in values() {
        assert_eq!(v.clone(), v);
    }
    for i in instructions() {
        assert_eq!(i.clone(), i);
    }
}
