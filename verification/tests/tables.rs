use synth::codegen::x86::{CodegenError, X86CodeGenerator};
use synth::comptime::ComptimeAnalyzer;
use synth::ir::{IRValue, Instruction, Ref};
use synth::number::FloatBits;
use synth::optimize::{GeneralPassIROptimizer, IROptimizer};
use synth::symtable::SymTable;
use synth::types::{FnPrimative, Type};

fn name(s: &str) -> String {
    s.to_string()
}

#[test]
fn a_new_table_has_one_empty_scope() {
    let table: SymTable<i32> = SymTable::new();
    assert_eq!(table.scope, 0);
    assert_eq!(table.symbols.len(), 1);
    assert_eq!(table.symbols[0].len(), 0);
    assert_eq!(table.get(name("x")), None);
}

#[test]
fn what_is_added_is_found_again() {
    let mut table: SymTable<i32> = SymTable::new();
    table.add(name("a"), 10);
    table.add(name("b"), 20);
    assert_eq!(table.get(name("a")), Some(&10));
    assert_eq!(table.get(name("b")), Some(&20));
    assert_eq!(table.get(name("c")), None);
    table.add(name("a"), 11);
    assert_eq!(table.get(name("a")), Some(&11));
    assert_eq!(table.symbols[0].len(), 2);
}

#[test]
fn only_the_innermost_scope_is_read() {
    let mut table: SymTable<i32> = SymTable::new();
    table.add(name("x"), 1);
    table.new_scope();
    assert_eq!(table.scope, 1);
    assert_eq!(table.symbols.len(), 2);
    assert_eq!(table.get(name("x")), None);
    table.add(name("x"), 2);
    table.add(name("y"), 3);
    assert_eq!(table.get(name("x")), Some(&2));
    table.leave_scope();
    assert_eq!(table.scope, 0);
    assert_eq!(table.symbols.len(), 1);
    assert_eq!(table.get(name("x")), Some(&1));
    assert_eq!(table.get(name("y")), None);
}

#[test]
fn scopes_nest() {
    let mut table: SymTable<u64> = SymTable::new();
    for depth in 1..5u64 {
        table.new_scope();
        table.add(depth.to_string(), depth * 10);
        assert_eq!(table.scope as u64, depth);
    }
    for depth in (1..5u64).rev() {
        assert_eq!(table.get(depth.to_string()), Some(&(depth * 10)));
        assert_eq!(table.get((depth + 1).to_string()), None);
        table.leave_scope();
    }
    assert_eq!(table.scope, 0);
    assert_eq!(table.symbols.len(), 1);
}

#[test]
fn scalars_take_four_bytes() {
    assert_eq!(Type::U32.size_in_bytes(), 4);
    assert_eq!(Type::I32.size_in_bytes(), 4);
    assert_eq!(Type::F32.size_in_bytes(), 4);
}

#[test]
fn types_compare_by_what_they_hold() {
    assert_eq!(Type::STRUCT(name("P")), Type::STRUCT(name("P")));
    assert_ne!(Type::STRUCT(name("P")), Type::STRUCT(name("Q")));
    assert_ne!(Type::I32, Type::U32);
    let f = || Type::FN(FnPrimative { args: vec![Type::I32], return_type: Some(Box::new(Type::BOOL)) });
    assert_eq!(f(), f());
    assert_eq!(f().clone(), f());
}

#[test]
fn the_passes_produce_nothing_yet() {
    let instructions = || Box::new(vec![Instruction::NONE]);
    let mut analyzer = ComptimeAnalyzer { ir: instructions() };
    assert!(analyzer.analyze().is_empty());
    assert_eq!(analyzer.ir, instructions());
    let mut optimizer = GeneralPassIROptimizer { ir: instructions() };
    assert!(optimizer.optimize().is_empty());
    assert_eq!(optimizer.ir, instructions());
}

const GREETING: &str = "global _main\nextern _printf\nsection .text\n_main:\npush message\ncall _printf\nadd esp, 4\nret\nmessage:\ndb 'Hello, World', 10, 0";

#[test]
fn the_generator_emits_the_greeting_program() {
    let mut generator = X86CodeGenerator { str_buffer: String::new() };
    generator.generate(&Instruction::NONE);
    assert_eq!(generator.str_buffer, GREETING);
    let mut generator = X86CodeGenerator { str_buffer: name("; head\n") };
    generator.generate(&Instruction::PROGRAM(Box::new(vec![])));
    assert_eq!(generator.str_buffer, format!("; head\n{}", GREETING));
}

#[test]
fn a_local_with_an_integer_moves_it_into_the_accumulator() {
    let mut generator = X86CodeGenerator { str_buffer: String::new() };
    let local = Instruction::STACK_VAR(name("x"), Type::I32, Some(IRValue::INT(42)));
    assert_eq!(generator.generate_instruction(&local), Ok(()));
    assert_eq!(generator.str_buffer, "mov eax, 42");
    let empty = Instruction::STACK_VAR(name("y"), Type::I32, None);
    assert_eq!(generator.generate_instruction(&empty), Ok(()));
    assert_eq!(generator.str_buffer, "mov eax, 42");
    assert_eq!(generator.generate_stack_var(&name("z"), &Some(IRValue::INT(-1))), Ok(()));
    assert_eq!(generator.str_buffer, "mov eax, 42mov eax, -1");
}

#[test]
fn blocks_are_labelled() {
    let mut generator = X86CodeGenerator { str_buffer: String::new() };
    let program = Instruction::PROGRAM(Box::new(vec![
        Instruction::BLOCK(
            name("entry"),
            Box::new(vec![
                Instruction::STACK_VAR(name("x"), Type::I32, Some(IRValue::INT(1))),
                Instruction::BLOCK(name("inner"), Box::new(vec![])),
            ]),
        ),
        Instruction::STACK_VAR(name("y"), Type::I32, Some(IRValue::INT(2))),
    ]));
    assert_eq!(generator.generate_instruction(&program), Ok(()));
    assert_eq!(generator.str_buffer, "entry:\nmov eax, 1inner:\nmov eax, 2");
}

#[test]
fn operands_are_integers() {
    let generator = X86CodeGenerator { str_buffer: String::new() };
    assert_eq!(generator.instruction_data_to_asm_string(&IRValue::INT(7)), Ok(name("7")));
    assert_eq!(
        generator.instruction_data_to_asm_string(&IRValue::INT(i32::MIN)),
        Ok(name("-2147483648"))
    );
    let others = vec![
        IRValue::FLOAT(FloatBits { bits: 1.5f32.to_bits() }),
        IRValue::STRING(name("s")),
        IRValue::REF(Ref { value: name("x") }),
        IRValue::STRUCT(vec![]),
        IRValue::INTRINSIC(name("printf")),
    ];
    for value in others {
        assert_eq!(
            generator.instruction_data_to_asm_string(&value),
            Err(CodegenError::UnsupportedValue)
        );
    }
}

#[test]
fn generation_stops_at_what_it_cannot_generate() {
    let mut generator = X86CodeGenerator { str_buffer: String::new() };
    let program = Instruction::PROGRAM(Box::new(vec![
        Instruction::STACK_VAR(name("x"), Type::I32, Some(IRValue::INT(1))),
        Instruction::BLOCK(
            name("b"),
            Box::new(vec![
                Instruction::STACK_VAR(name("s"), Type::I32, Some(IRValue::STRING(name("s")))),
                Instruction::STACK_VAR(name("y"), Type::I32, Some(IRValue::INT(2))),
            ]),
        ),
        Instruction::STACK_VAR(name("z"), Type::I32, Some(IRValue::INT(3))),
    ]));
    assert_eq!(generator.generate_instruction(&program), Err(CodegenError::UnsupportedValue));
    assert_eq!(generator.str_buffer, "mov eax, 1b:\n");
    let mut generator = X86CodeGenerator { str_buffer: String::new() };
    let add = Instruction::ADD(name("0"), IRValue::INT(1), IRValue::INT(2));
    assert_eq!(generator.generate_instruction(&add), Err(CodegenError::UnsupportedInstruction));
    assert_eq!(generator.str_buffer, "");
}
