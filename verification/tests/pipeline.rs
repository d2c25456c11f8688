use synth::compiler::CompilerOptions;
use synth::ir::IRValue;
use synth::ir_interpret::{Emitted, IRInterpreter};
use synth::ir_parse::IRParser;
use synth::lex::Lexer;
use synth::number::FloatBits;
use synth::parse::Parser;
use synth::token::Token;

struct Outcome {
    listing: String,
    compile_time: Vec<Emitted>,
    run_time: Vec<Emitted>,
    interpreter_value: Option<IRValue>,
    z: Option<IRValue>,
}

fn run(source: &str, optimization: usize) -> Outcome {
    let mut lexer = Lexer::new();
    lexer.lex(Box::new(source.to_string())).expect("lexing");
    let floats: Vec<Option<FloatBits>> = lexer
        .tokens
        .iter()
        .map(|t| match t {
            Token::NUMBER(text) => text.parse::<f32>().ok().map(|f| FloatBits { bits: f.to_bits() }),
            _ => None,
        })
        .collect();
    let mut parser = Parser { tokens: &lexer.tokens, floats: &floats };
    let ast = parser.parse().expect("parsing");
    let opts = CompilerOptions { optimization, current_file: "test.synth".to_string() };
    let mut lowering = IRParser::new(&opts);
    let program = lowering.parse(ast).expect("lowering");
    let mut interpreter = IRInterpreter::new(&opts);
    let value = interpreter.execute(&program).expect("interpreting");
    Outcome {
        listing: program.to_string_for_writing(),
        compile_time: lowering.output,
        z: interpreter.lookup("z"),
        run_time: interpreter.output,
        interpreter_value: value,
    }
}

fn line(s: &str) -> Emitted {
    Emitted::TEXT(s.to_string())
}

#[test]
fn three_declarations_bind_the_sum() {
    for optimization in [0, 1] {
        let outcome = run("const x = 2 const y = 3 const z = x + y", optimization);
        assert_eq!(outcome.z, Some(IRValue::INT(5)));
        assert_eq!(outcome.interpreter_value, None);
        assert!(outcome.run_time.is_empty());
        assert!(outcome.compile_time.is_empty());
    }
}

#[test]
fn the_listing_of_three_declarations() {
    let outcome = run("const x = 2 const y = 3 const z = x + y", 0);
    assert_eq!(
        outcome.listing,
        "x               = stack_var  I32 Some(INT(2))\n\
         y               = stack_var  I32 Some(INT(3))\n\
         2               = add        REF(Ref { value: \"x\" }) + REF(Ref { value: \"y\" })\n\
         z               = stack_var  I32 Some(REF(Ref { value: \"2\" }))\n"
    );
}

#[test]
fn constants_fold_in_the_pipeline() {
    let folded = run("const z = 40 + 2", 1);
    assert_eq!(folded.listing, "z               = stack_var  I32 Some(INT(42))\n");
    assert_eq!(folded.z, Some(IRValue::INT(42)));
    let added = run("const z = 40 + 2", 0);
    assert_eq!(
        added.listing,
        "0               = add        INT(40) + INT(2)\n\
         z               = stack_var  I32 Some(REF(Ref { value: \"0\" }))\n"
    );
    assert_eq!(added.z, Some(IRValue::INT(42)));
}

#[test]
fn printing_emits_lines_at_run_time() {
    let outcome = run("const x = 42 printf(x) printf(\"hi\") printf(1.5)", 0);
    assert_eq!(
        outcome.run_time,
        vec![line("42"), line("hi"), Emitted::FLOAT(FloatBits { bits: 1.5f32.to_bits() })]
    );
    assert!(outcome.compile_time.is_empty());
}

#[test]
fn printing_while_compiling_emits_lines_at_compile_time() {
    let outcome = run("comp printf(\"now\") printf(\"later\")", 0);
    assert_eq!(outcome.compile_time, vec![line("now")]);
    assert_eq!(outcome.run_time, vec![line("later")]);
    assert_eq!(
        outcome.listing,
        "1               = call       printf args [[STRING(\"later\")]]\n"
    );
}

#[test]
fn a_conditional_runs_one_branch() {
    let source = "const c = 1 if c { printf(\"yes\") } else { printf(\"no\") }";
    assert_eq!(run(source, 0).run_time, vec![line("yes")]);
    let source = "const c = 0 if c { printf(\"yes\") } else { printf(\"no\") }";
    assert_eq!(run(source, 0).run_time, vec![line("no")]);
    let source = "if false { printf(\"yes\") } printf(\"after\")";
    assert_eq!(run(source, 0).run_time, vec![line("after")]);
    let source = "if true { printf(\"yes\") } printf(\"after\")";
    assert_eq!(run(source, 0).run_time, vec![line("yes"), line("after")]);
}

#[test]
fn a_value_computed_while_compiling_is_an_immediate_at_run_time() {
    let outcome = run("const z = comp 40 + 2", 0);
    assert_eq!(outcome.listing, "z               = stack_var  I32 Some(INT(42))\n");
    assert_eq!(outcome.z, Some(IRValue::INT(42)));
}
