use crate::compiler::CompilerOptions;
use crate::ir::{
    instrs_view, opt_value_view, values_view, IRValue, InstrModel, Instruction, Ref, ValueModel,
};
use crate::number::FloatBits;
use crate::text::{decimal_int, int_text, is_text};
use vstd::hash_map::StringHashMap;
use vstd::prelude::*;
use vstd::string::StringExecFns;

verus! {

broadcast use vstd::hash_map::group_hash_map_axioms;

/// One line handed to the output sink by the print intrinsic.
#[derive(Debug, PartialEq, Eq)]
pub enum Emitted {
    /// The text of the line, without its line end.
    TEXT(String),
    /// A single-precision number, whose text the sink's owner produces.
    FLOAT(FloatBits),
}

/// Mathematical model of an [`Emitted`] line.
pub enum EmittedModel {
    TEXT(Seq<char>),
    FLOAT(FloatBits),
}

impl View for Emitted {
    type V = EmittedModel;

    open spec fn view(&self) -> EmittedModel {
        match self {
            Emitted::TEXT(s) => EmittedModel::TEXT(s@),
            Emitted::FLOAT(f) => EmittedModel::FLOAT(*f),
        }
    }
}

impl Clone for Emitted {
    fn clone(&self) -> (r: Emitted)
        ensures
            r@ == self@,
    {
        match self {
            Emitted::TEXT(s) => Emitted::TEXT(s.clone()),
            Emitted::FLOAT(f) => Emitted::FLOAT(*f),
        }
    }
}

/// Models of the lines of an output sink, in order.
pub open spec fn emitted_view(lines: Seq<Emitted>) -> Seq<EmittedModel> {
    Seq::new(lines.len(), |i: int| lines[i]@)
}

/// Why an execution was aborted.
#[derive(Debug, Clone, Copy, PartialEq, Eq, Structural)]
pub enum InterpretError {
    /// A name was read that nothing had bound.
    UnresolvedName,
    /// An operand of an addition is not an integer.
    UnsupportedType,
    /// The instruction is one that the interpreter does not execute.
    UnsupportedInstruction,
    /// The print intrinsic got a value that is no integer, float or string.
    UnprintableValue,
    /// The callee is bound to something that is not an intrinsic.
    CalleeNotCallable,
    /// A condition is no integer, float or reference.
    UnknownConditionType,
    /// The sum of two integers does not fit in 32 bits.
    ArithmeticOverflow,
    /// The print intrinsic was not called with exactly one argument.
    BadArgumentCount,
    /// References lead from one to the next without reaching a value.
    ReferenceCycle,
}

/// Name under which the print intrinsic is bound.
pub open spec fn print_name() -> Seq<char> {
    "printf"@
}

/// Name that stands for the current source file.
pub open spec fn file_slot_name() -> Seq<char> {
    "SYNTH_FILENAME"@
}

/// What an execution has built up: the bindings and the lines emitted so far.
pub struct ExecState {
    pub env: Map<Seq<char>, ValueModel>,
    pub out: Seq<EmittedModel>,
}

/// Outcome of executing an instruction: the state at the end, or at the
/// point where the execution was aborted, and the value or the error.
pub struct Run {
    pub state: ExecState,
    pub result: Result<Option<ValueModel>, InterpretError>,
}

/// The state with one more binding.
pub open spec fn bind(s: ExecState, name: Seq<char>, v: ValueModel) -> ExecState {
    ExecState { env: s.env.insert(name, v), out: s.out }
}

/// The state with one more emitted line.
pub open spec fn emit(s: ExecState, line: EmittedModel) -> ExecState {
    ExecState { env: s.env, out: s.out.push(line) }
}

/// An execution that stops with an error and leaves the state as it is.
pub open spec fn abort(s: ExecState, e: InterpretError) -> Run {
    Run { state: s, result: Err(e) }
}

/// An execution that ends without a value.
pub open spec fn done(s: ExecState) -> Run {
    Run { state: s, result: Ok(None) }
}

/// The same execution with its value dropped.
pub open spec fn without_value(r: Run) -> Run {
    Run {
        state: r.state,
        result: match r.result {
            Ok(_) => Ok(None),
            Err(e) => Err(e),
        },
    }
}

/// An immediate stands for itself; a reference stands for what its name is
/// bound to.
pub open spec fn resolve(v: ValueModel, env: Map<Seq<char>, ValueModel>) -> Result<
    ValueModel,
    InterpretError,
> {
    match v {
        ValueModel::REF(name) => if env.contains_key(name) {
            Ok(env[name])
        } else {
            Err(InterpretError::UnresolvedName)
        },
        _ => Ok(v),
    }
}

/// The integer that an operand of an addition stands for.
pub open spec fn int_operand(v: ValueModel, env: Map<Seq<char>, ValueModel>) -> Result<
    i32,
    InterpretError,
> {
    match resolve(v, env) {
        Ok(ValueModel::INT(i)) => Ok(i),
        Ok(_) => Err(InterpretError::UnsupportedType),
        Err(e) => Err(e),
    }
}

/// Whether a condition holds, following at most `hops` references.
///
/// Integers and floats hold exactly when they are above zero.
pub open spec fn truthy_within(
    v: ValueModel,
    env: Map<Seq<char>, ValueModel>,
    hops: nat,
) -> Result<bool, InterpretError>
    decreases hops,
{
    match v {
        ValueModel::INT(i) => Ok(i > 0),
        ValueModel::FLOAT(f) => Ok(f.above_zero()),
        ValueModel::REF(name) => if !env.contains_key(name) {
            Err(InterpretError::UnresolvedName)
        } else if hops == 0 {
            Err(InterpretError::ReferenceCycle)
        } else {
            truthy_within(env[name], env, (hops - 1) as nat)
        },
        _ => Err(InterpretError::UnknownConditionType),
    }
}

/// Whether a condition holds. A chain of references is followed to its end;
/// one that is longer than the environment has entries runs in a circle.
pub open spec fn truthy(v: ValueModel, env: Map<Seq<char>, ValueModel>) -> Result<
    bool,
    InterpretError,
> {
    truthy_within(v, env, env.dom().len())
}

/// The line that the print intrinsic emits for a value.
pub open spec fn printed_line(v: ValueModel) -> Option<EmittedModel> {
    match v {
        ValueModel::INT(i) => Some(EmittedModel::TEXT(decimal_int(i as int))),
        ValueModel::FLOAT(f) => Some(EmittedModel::FLOAT(f)),
        ValueModel::STRING(s) => Some(EmittedModel::TEXT(s)),
        _ => None,
    }
}

/// What the print intrinsic does with its arguments.
pub open spec fn run_print(args: Seq<ValueModel>, s: ExecState) -> Run {
    if args.len() != 1 {
        abort(s, InterpretError::BadArgumentCount)
    } else {
        match resolve(args[0], s.env) {
            Err(e) => abort(s, e),
            Ok(v) => match printed_line(v) {
                Some(line) => done(emit(s, line)),
                None => abort(s, InterpretError::UnprintableValue),
            },
        }
    }
}

/// What a call does: the callee must be bound to an intrinsic, and the
/// print intrinsic is the only one that does anything.
pub open spec fn run_call(callee: Seq<char>, args: Seq<ValueModel>, s: ExecState) -> Run {
    if !s.env.contains_key(callee) {
        abort(s, InterpretError::UnresolvedName)
    } else {
        match s.env[callee] {
            ValueModel::INTRINSIC(name) => if name == print_name() {
                run_print(args, s)
            } else {
                done(s)
            },
            _ => abort(s, InterpretError::CalleeNotCallable),
        }
    }
}

/// What a load does: it copies a binding, or supplies one of the two names
/// that are known without having been bound.
pub open spec fn run_load(name: Seq<char>, source: Seq<char>, s: ExecState, file: Seq<char>) -> Run {
    if s.env.contains_key(source) {
        done(bind(s, name, s.env[source]))
    } else if source == print_name() {
        done(bind(s, name, ValueModel::INTRINSIC(print_name())))
    } else if source == file_slot_name() {
        done(bind(s, name, ValueModel::STRING(file)))
    } else {
        abort(s, InterpretError::UnresolvedName)
    }
}

/// What the declaration of a local does.
pub open spec fn run_stack_var(name: Seq<char>, value: Option<ValueModel>, s: ExecState) -> Run {
    match value {
        None => done(s),
        Some(v) => match resolve(v, s.env) {
            Ok(r) => done(bind(s, name, r)),
            Err(e) => abort(s, e),
        },
    }
}

/// What an addition does.
pub open spec fn run_add(name: Seq<char>, l: ValueModel, r: ValueModel, s: ExecState) -> Run {
    match int_operand(l, s.env) {
        Err(e) => abort(s, e),
        Ok(a) => match int_operand(r, s.env) {
            Err(e) => abort(s, e),
            Ok(b) => if i32::MIN <= a + b <= i32::MAX {
                let sum = ValueModel::INT((a + b) as i32);
                Run { state: bind(s, name, sum), result: Ok(Some(sum)) }
            } else {
                abort(s, InterpretError::ArithmeticOverflow)
            },
        },
    }
}

/// The meaning of an instruction: a depth-first, left-to-right walk that
/// runs to the end or to the first error.
///
/// Programs, blocks, declarations of locals, loads, additions, calls and
/// conditional branches are executed. Everything else, stores and the
/// definitions of functions and types among it, is not: reaching one stops
/// the execution with an error. Blocks share one flat environment.
pub open spec fn run(i: InstrModel, s: ExecState, file: Seq<char>) -> Run
    decreases i,
{
    match i {
        InstrModel::PROGRAM(items) => run_all(items, 0, s, None, file),
        InstrModel::BLOCK(_, items) => run_all(items, 0, s, None, file),
        InstrModel::STACK_VAR(name, _, value) => run_stack_var(name, value, s),
        InstrModel::LOAD(name, source) => run_load(name, source, s, file),
        InstrModel::ADD(name, l, r) => run_add(name, l, r, s),
        InstrModel::CALL(_, callee, args) => run_call(callee, args, s),
        InstrModel::COND_BR(c, body, else_body) => match truthy(c, s.env) {
            Err(e) => abort(s, e),
            Ok(holds) => if holds {
                without_value(run(*body, s, file))
            } else {
                match else_body {
                    Some(e) => without_value(run(*e, s, file)),
                    None => done(s),
                }
            },
        },
        _ => abort(s, InterpretError::UnsupportedInstruction),
    }
}

/// The meaning of the instructions of a list from position `from` on, where
/// `last` is the value of the instruction before them.
pub open spec fn run_all(
    items: Seq<InstrModel>,
    from: int,
    s: ExecState,
    last: Option<ValueModel>,
    file: Seq<char>,
) -> Run
    decreases items, items.len() - from,
{
    if 0 <= from < items.len() {
        let r = run(items[from], s, file);
        match r.result {
            Err(_) => r,
            Ok(v) => run_all(items, from + 1, r.state, v, file),
        }
    } else {
        Run { state: s, result: Ok(last) }
    }
}

/// The meaning of a whole execution: the print intrinsic is bound under its
/// name, then the instruction runs.
pub open spec fn run_program(i: InstrModel, s: ExecState, file: Seq<char>) -> Run {
    run(i, bind(s, print_name(), ValueModel::INTRINSIC(print_name())), file)
}

/// A load of a name that nothing has bound, and that is neither of the two
/// names known without binding, stops with an unresolved-name error and
/// binds nothing. A load of any other name succeeds.
pub proof fn lemma_load_of_unbound_name_fails(
    name: Seq<char>,
    source: Seq<char>,
    s: ExecState,
    file: Seq<char>,
)
    ensures
        (!s.env.contains_key(source) && source != print_name() && source != file_slot_name())
            ==> run(InstrModel::LOAD(name, source), s, file) == abort(
            s,
            InterpretError::UnresolvedName,
        ),
        (s.env.contains_key(source) || source == print_name() || source == file_slot_name())
            ==> run(InstrModel::LOAD(name, source), s, file).result == Ok::<
            Option<ValueModel>,
            InterpretError,
        >(None),
        run_program(InstrModel::LOAD(name, source), s, file).result is Err <==> (
        !s.env.contains_key(source) && source != print_name() && source != file_slot_name()),
{
}

/// A conditional branch on an integer takes its first branch exactly when
/// the integer is above zero. Otherwise it takes the other branch, or does
/// nothing where there is none.
pub proof fn lemma_branch_on_integer(
    i: i32,
    body: InstrModel,
    else_body: Option<InstrModel>,
    s: ExecState,
    file: Seq<char>,
)
    ensures
        run(
            InstrModel::COND_BR(
                ValueModel::INT(i),
                Box::new(body),
                match else_body {
                    Some(e) => Some(Box::new(e)),
                    None => None,
                },
            ),
            s,
            file,
        ) == (if i > 0 {
            without_value(run(body, s, file))
        } else {
            match else_body {
                Some(e) => without_value(run(e, s, file)),
                None => done(s),
            }
        }),
{
    reveal_with_fuel(truthy_within, 2);
}

/// The print intrinsic, called with one string or one integer, emits one
/// line: the string as it is, or the integer in decimal.
pub proof fn lemma_print_emits_one_line(v: ValueModel, s: ExecState)
    requires
        s.env.contains_key(print_name()),
        s.env[print_name()] == ValueModel::INTRINSIC(print_name()),
        v is STRING || v is INT,
    ensures
        run_call(print_name(), seq![v], s) == done(
            emit(
                s,
                match v {
                    ValueModel::STRING(text) => EmittedModel::TEXT(text),
                    _ => EmittedModel::TEXT(decimal_int(v->INT_0 as int)),
                },
            ),
        ),
{
}

/// Whatever runs only adds to the lines emitted: those that were there
/// stay, in their order, in front of the new ones.
pub proof fn lemma_run_keeps_lines(i: InstrModel, s: ExecState, file: Seq<char>)
    ensures
        s.out.is_prefix_of(run(i, s, file).state.out),
    decreases i,
{
    match i {
        InstrModel::PROGRAM(items) => lemma_run_all_keeps_lines(items, 0, s, None, file),
        InstrModel::BLOCK(_, items) => lemma_run_all_keeps_lines(items, 0, s, None, file),
        InstrModel::COND_BR(c, body, else_body) => {
            lemma_run_keeps_lines(*body, s, file);
            match else_body {
                Some(e) => lemma_run_keeps_lines(*e, s, file),
                None => {},
            }
        },
        _ => {},
    }
}

/// Whatever a list of instructions runs only adds to the lines emitted.
pub proof fn lemma_run_all_keeps_lines(
    items: Seq<InstrModel>,
    from: int,
    s: ExecState,
    last: Option<ValueModel>,
    file: Seq<char>,
)
    ensures
        s.out.is_prefix_of(run_all(items, from, s, last, file).state.out),
    decreases items, items.len() - from,
{
    if 0 <= from < items.len() {
        lemma_run_keeps_lines(items[from], s, file);
        let r = run(items[from], s, file);
        match r.result {
            Err(_) => {},
            Ok(v) => {
                lemma_run_all_keeps_lines(items, from + 1, r.state, v, file);
            },
        }
    }
}

/// Whether an instruction, with everything inside it, is free of loads.
pub open spec fn loads_nothing(i: InstrModel) -> bool
    decreases i,
{
    match i {
        InstrModel::LOAD(_, _) => false,
        InstrModel::PROGRAM(items) => forall|k: int|
            0 <= k < items.len() ==> loads_nothing(#[trigger] items[k]),
        InstrModel::BLOCK(_, items) => forall|k: int|
            0 <= k < items.len() ==> loads_nothing(#[trigger] items[k]),
        InstrModel::COND_BR(_, body, else_body) => loads_nothing(*body) && (match else_body {
            Some(e) => loads_nothing(*e),
            None => true,
        }),
        InstrModel::FUNC(_, _, body) => loads_nothing(*body),
        _ => true,
    }
}

/// Whether every instruction of a list is free of loads.
pub open spec fn load_free(items: Seq<InstrModel>) -> bool {
    forall|k: int| 0 <= k < items.len() ==> loads_nothing(#[trigger] items[k])
}

/// Only a load reads the name of the current file: what is free of loads
/// runs the same whatever the file is called.
pub proof fn lemma_run_ignores_file(i: InstrModel, s: ExecState, file: Seq<char>, other: Seq<char>)
    requires
        loads_nothing(i),
    ensures
        run(i, s, file) == run(i, s, other),
    decreases i,
{
    match i {
        InstrModel::PROGRAM(items) => lemma_run_all_ignores_file(items, 0, s, None, file, other),
        InstrModel::BLOCK(_, items) => lemma_run_all_ignores_file(items, 0, s, None, file, other),
        InstrModel::COND_BR(c, body, else_body) => {
            lemma_run_ignores_file(*body, s, file, other);
            match else_body {
                Some(e) => lemma_run_ignores_file(*e, s, file, other),
                None => {},
            }
        },
        _ => {},
    }
}

/// A list of instructions that is free of loads runs the same whatever the
/// file is called.
pub proof fn lemma_run_all_ignores_file(
    items: Seq<InstrModel>,
    from: int,
    s: ExecState,
    last: Option<ValueModel>,
    file: Seq<char>,
    other: Seq<char>,
)
    requires
        load_free(items),
    ensures
        run_all(items, from, s, last, file) == run_all(items, from, s, last, other),
    decreases items, items.len() - from,
{
    if 0 <= from < items.len() {
        lemma_run_ignores_file(items[from], s, file, other);
        let r = run(items[from], s, file);
        match r.result {
            Err(_) => {},
            Ok(v) => {
                lemma_run_all_ignores_file(items, from + 1, r.state, v, file, other);
            },
        }
    }
}

/// Model of an environment: each bound name with the model of its value.
pub open spec fn env_view(m: Map<Seq<char>, IRValue>) -> Map<Seq<char>, ValueModel> {
    Map::new(|k: Seq<char>| m.contains_key(k), |k: Seq<char>| m[k]@)
}

/// Model of what an execution hands back.
pub open spec fn result_view(r: Result<Option<IRValue>, InterpretError>) -> Result<
    Option<ValueModel>,
    InterpretError,
> {
    match r {
        Ok(v) => Ok(opt_value_view(v)),
        Err(e) => Err(e),
    }
}

/// Walks instructions and evaluates them against an environment.
pub struct IRInterpreter<'a> {
    pub compiler_options: &'a CompilerOptions,
    pub counter: usize,
    /// The environment: what each slot name is bound to.
    pub variables_map: StringHashMap<IRValue>,
    /// The output sink: every line that the print intrinsic emitted, in order.
    pub output: Vec<Emitted>,
}

impl<'a> IRInterpreter<'a> {
    /// The bindings, as a mathematical map.
    pub open spec fn env(&self) -> Map<Seq<char>, ValueModel> {
        env_view(self.variables_map@)
    }

    /// The lines emitted so far.
    pub open spec fn out(&self) -> Seq<EmittedModel> {
        emitted_view(self.output@)
    }

    /// Bindings and emitted lines together.
    pub open spec fn state(&self) -> ExecState {
        ExecState { env: self.env(), out: self.out() }
    }

    /// Whether everything but the state is as in `other`.
    pub open spec fn same_settings(&self, other: &Self) -> bool {
        &&& self.compiler_options == other.compiler_options
        &&& self.counter == other.counter
    }

    /// An interpreter with nothing bound and nothing emitted.
    pub fn new(compiler_options: &'a CompilerOptions) -> (r: Self)
        ensures
            r.compiler_options == compiler_options,
            r.counter == 0,
            r.env() == Map::<Seq<char>, ValueModel>::empty(),
            r.out() == Seq::<EmittedModel>::empty(),
    {
        let r = IRInterpreter {
            compiler_options,
            counter: 0,
            variables_map: StringHashMap::new(),
            output: Vec::new(),
        };
        assert(r.env() =~= Map::<Seq<char>, ValueModel>::empty());
        assert(r.out() =~= Seq::<EmittedModel>::empty());
        r
    }

    /// The value bound to a name, if there is one.
    pub fn lookup(&self, name: &str) -> (r: Option<IRValue>)
        ensures
            opt_value_view(r) == (if self.env().contains_key(name@) {
                Some(self.env()[name@])
            } else {
                None
            }),
    {
        match self.variables_map.get(name) {
            Some(v) => Some(v.clone()),
            None => None,
        }
    }

    /// Executes an instruction, after binding the print intrinsic under its
    /// name. Hands back the value of the last instruction executed.
    pub fn execute(&mut self, instruction: &Instruction) -> (r: Result<
        Option<IRValue>,
        InterpretError,
    >)
        ensures
            final(self).same_settings(old(self)),
            final(self).state() == run_program(
                instruction@,
                old(self).state(),
                old(self).compiler_options.current_file@,
            ).state,
            result_view(r) == run_program(
                instruction@,
                old(self).state(),
                old(self).compiler_options.current_file@,
            ).result,
    {
        self.bind(String::from_str("printf"), IRValue::INTRINSIC(String::from_str("printf")));
        self.execute_instruction(instruction)
    }

    fn bind(&mut self, name: String, value: IRValue)
        ensures
            final(self).same_settings(old(self)),
            final(self).state() == bind(old(self).state(), name@, value@),
    {
        self.variables_map.insert(name, value);
        assert(self.env() =~= old(self).env().insert(name@, value@));
    }

    fn emit(&mut self, line: Emitted)
        ensures
            final(self).same_settings(old(self)),
            final(self).state() == emit(old(self).state(), line@),
    {
        self.output.push(line);
        assert(self.out() =~= old(self).out().push(line@));
    }

    fn resolve(&self, value: &IRValue) -> (r: Result<IRValue, InterpretError>)
        ensures
            match r {
                Ok(v) => resolve(value@, self.env()) == Ok::<ValueModel, InterpretError>(v@),
                Err(e) => resolve(value@, self.env()) == Err::<ValueModel, InterpretError>(e),
            },
    {
        match value {
            IRValue::REF(name) => match self.variables_map.get(name.value.as_str()) {
                Some(v) => Ok(v.clone()),
                None => Err(InterpretError::UnresolvedName),
            },
            _ => Ok(value.clone()),
        }
    }

    fn int_operand(&self, value: &IRValue) -> (r: Result<i32, InterpretError>)
        ensures
            r == int_operand(value@, self.env()),
    {
        match self.resolve(value) {
            Ok(IRValue::INT(i)) => Ok(i),
            Ok(_) => Err(InterpretError::UnsupportedType),
            Err(e) => Err(e),
        }
    }

    fn execute_instruction(&mut self, instruction: &Instruction) -> (r: Result<
        Option<IRValue>,
        InterpretError,
    >)
        ensures
            final(self).same_settings(old(self)),
            final(self).state() == run(
                instruction@,
                old(self).state(),
                old(self).compiler_options.current_file@,
            ).state,
            result_view(r) == run(
                instruction@,
                old(self).state(),
                old(self).compiler_options.current_file@,
            ).result,
        decreases instruction, 2nat,
    {
        match instruction {
            Instruction::PROGRAM(instructions) => self.execute_program(instructions),
            Instruction::BLOCK(_, instructions) => self.excecute_block(instructions),
            Instruction::STACK_VAR(label, _, value) => self.execute_stack_var(label, value),
            Instruction::LOAD(label, value) => self.execute_load(label, value),
            Instruction::ADD(label, left, right) => self.execute_add(label, left, right),
            Instruction::CALL(label, callee, args) => self.execute_call(label, callee, args),
            Instruction::COND_BR(condition, body, else_body) => self.execute_cond_br(
                condition,
                body,
                else_body,
            ),
            _ => Err(InterpretError::UnsupportedInstruction),
        }
    }

    fn execute_all(&mut self, instructions: &Vec<Instruction>) -> (r: Result<
        Option<IRValue>,
        InterpretError,
    >)
        ensures
            final(self).same_settings(old(self)),
            final(self).state() == run_all(
                instrs_view(instructions@),
                0,
                old(self).state(),
                None,
                old(self).compiler_options.current_file@,
            ).state,
            result_view(r) == run_all(
                instrs_view(instructions@),
                0,
                old(self).state(),
                None,
                old(self).compiler_options.current_file@,
            ).result,
        decreases instructions, 0nat,
    {
        let ghost items = instrs_view(instructions@);
        let ghost file = self.compiler_options.current_file@;
        let ghost whole = run_all(items, 0, self.state(), None, file);
        let mut result: Option<IRValue> = None;
        let mut i: usize = 0;
        while i < instructions.len()
            invariant
                i <= instructions.len(),
                items == instrs_view(instructions@),
                file == self.compiler_options.current_file@,
                self.same_settings(old(self)),
                whole == run_all(items, 0, old(self).state(), None, file),
                run_all(items, i as int, self.state(), opt_value_view(result), file) == whole,
            decreases instructions.len() - i,
        {
            let ghost before = self.state();
            let ghost last = opt_value_view(result);
            let step = self.execute_instruction(&instructions[i]);
            proof {
                assert(items.len() == instructions.len());
                assert(items[i as int] == instructions[i as int]@);
                let r = run(items[i as int], before, file);
                assert(run_all(items, i as int, before, last, file) == match r.result {
                    Err(_) => r,
                    Ok(v) => run_all(items, i + 1, r.state, v, file),
                });
            }
            match step {
                Err(e) => {
                    return Err(e);
                },
                Ok(v) => {
                    result = v;
                },
            }
            i += 1;
        }
        Ok(result)
    }

    fn execute_program(&mut self, instructions: &Box<Vec<Instruction>>) -> (r: Result<
        Option<IRValue>,
        InterpretError,
    >)
        ensures
            final(self).same_settings(old(self)),
            final(self).state() == run_all(
                instrs_view(instructions@),
                0,
                old(self).state(),
                None,
                old(self).compiler_options.current_file@,
            ).state,
            result_view(r) == run_all(
                instrs_view(instructions@),
                0,
                old(self).state(),
                None,
                old(self).compiler_options.current_file@,
            ).result,
        decreases instructions, 1nat,
    {
        self.execute_all(instructions)
    }

    fn excecute_block(&mut self, instructions: &Box<Vec<Instruction>>) -> (r: Result<
        Option<IRValue>,
        InterpretError,
    >)
        ensures
            final(self).same_settings(old(self)),
            final(self).state() == run_all(
                instrs_view(instructions@),
                0,
                old(self).state(),
                None,
                old(self).compiler_options.current_file@,
            ).state,
            result_view(r) == run_all(
                instrs_view(instructions@),
                0,
                old(self).state(),
                None,
                old(self).compiler_options.current_file@,
            ).result,
        decreases instructions, 1nat,
    {
        self.execute_all(instructions)
    }

    /// Executes a load: binds a name to a copy of what another is bound
    /// to. A source that nothing has bound, and that is neither of the two
    /// names known without binding, stops the execution and binds nothing.
    pub fn execute_load(&mut self, label: &String, ref_value: &Ref) -> (r: Result<
        Option<IRValue>,
        InterpretError,
    >)
        ensures
            final(self).same_settings(old(self)),
            final(self).state() == run_load(
                label@,
                ref_value@,
                old(self).state(),
                old(self).compiler_options.current_file@,
            ).state,
            result_view(r) == run_load(
                label@,
                ref_value@,
                old(self).state(),
                old(self).compiler_options.current_file@,
            ).result,
            (!old(self).env().contains_key(ref_value@) && ref_value@ != print_name() && ref_value@
                != file_slot_name()) ==> r == Err::<Option<IRValue>, InterpretError>(
                InterpretError::UnresolvedName,
            ) && final(self).state() == old(self).state(),
            (old(self).env().contains_key(ref_value@) || ref_value@ == print_name() || ref_value@
                == file_slot_name()) ==> r == Ok::<Option<IRValue>, InterpretError>(None)
                && final(self).env().contains_key(label@),
    {
        let found = self.lookup(ref_value.value.as_str());
        match found {
            Some(v) => {
                self.bind(label.clone(), v);
                Ok(None)
            },
            None => {
                if is_text(&ref_value.value, "printf") {
                    self.bind(label.clone(), IRValue::INTRINSIC(String::from_str("printf")));
                    Ok(None)
                } else if is_text(&ref_value.value, "SYNTH_FILENAME") {
                    let file = self.compiler_options.current_file.clone();
                    self.bind(label.clone(), IRValue::STRING(file));
                    Ok(None)
                } else {
                    Err(InterpretError::UnresolvedName)
                }
            },
        }
    }

    fn execute_stack_var(&mut self, label: &String, value: &Option<IRValue>) -> (r: Result<
        Option<IRValue>,
        InterpretError,
    >)
        ensures
            final(self).same_settings(old(self)),
            final(self).state() == run_stack_var(
                label@,
                opt_value_view(*value),
                old(self).state(),
            ).state,
            result_view(r) == run_stack_var(
                label@,
                opt_value_view(*value),
                old(self).state(),
            ).result,
    {
        match value {
            Some(data) => match self.resolve(data) {
                Ok(v) => {
                    self.bind(label.clone(), v);
                    Ok(None)
                },
                Err(e) => Err(e),
            },
            None => Ok(None),
        }
    }

    fn execute_call(&mut self, label: &String, callee: &String, args: &Vec<IRValue>) -> (r: Result<
        Option<IRValue>,
        InterpretError,
    >)
        ensures
            final(self).same_settings(old(self)),
            final(self).state() == run_call(
                callee@,
                values_view(args@),
                old(self).state(),
            ).state,
            result_view(r) == run_call(
                callee@,
                values_view(args@),
                old(self).state(),
            ).result,
    {
        let callee_data = match self.lookup(callee.as_str()) {
            Some(v) => v,
            None => {
                return Err(InterpretError::UnresolvedName);
            },
        };
        match callee_data {
            IRValue::INTRINSIC(name) => {
                if is_text(&name, "printf") {
                    if args.len() != 1 {
                        return Err(InterpretError::BadArgumentCount);
                    }
                    assert(values_view(args@)[0] == args[0]@);
                    let arg_data = match self.resolve(&args[0]) {
                        Ok(v) => v,
                        Err(e) => {
                            return Err(e);
                        },
                    };
                    match arg_data {
                        IRValue::INT(i) => {
                            self.emit(Emitted::TEXT(int_text(i)));
                            Ok(None)
                        },
                        IRValue::FLOAT(f) => {
                            self.emit(Emitted::FLOAT(f));
                            Ok(None)
                        },
                        IRValue::STRING(s) => {
                            self.emit(Emitted::TEXT(s));
                            Ok(None)
                        },
                        _ => Err(InterpretError::UnprintableValue),
                    }
                } else {
                    Ok(None)
                }
            },
            _ => Err(InterpretError::CalleeNotCallable),
        }
    }

    fn execute_add(&mut self, label: &String, left: &IRValue, right: &IRValue) -> (r: Result<
        Option<IRValue>,
        InterpretError,
    >)
        ensures
            final(self).same_settings(old(self)),
            final(self).state() == run_add(label@, left@, right@, old(self).state()).state,
            result_view(r) == run_add(label@, left@, right@, old(self).state()).result,
    {
        let lhs = match self.int_operand(left) {
            Ok(i) => i,
            Err(e) => {
                return Err(e);
            },
        };
        let rhs = match self.int_operand(right) {
            Ok(i) => i,
            Err(e) => {
                return Err(e);
            },
        };
        match lhs.checked_add(rhs) {
            Some(sum) => {
                self.bind(label.clone(), IRValue::INT(sum));
                Ok(Some(IRValue::INT(sum)))
            },
            None => Err(InterpretError::ArithmeticOverflow),
        }
    }

    fn truthy_within(&self, value: &IRValue, hops: usize) -> (r: Result<bool, InterpretError>)
        ensures
            r == truthy_within(value@, self.env(), hops as nat),
        decreases hops,
    {
        match value {
            IRValue::REF(name) => match self.variables_map.get(name.value.as_str()) {
                None => Err(InterpretError::UnresolvedName),
                Some(v) => {
                    if hops == 0 {
                        Err(InterpretError::ReferenceCycle)
                    } else {
                        self.truthy_within(v, hops - 1)
                    }
                },
            },
            IRValue::INT(i) => Ok(*i > 0),
            IRValue::FLOAT(f) => Ok(f.is_above_zero()),
            _ => Err(InterpretError::UnknownConditionType),
        }
    }

    /// Whether a condition holds: an integer or a float that is above
    /// zero, or a reference to one.
    pub fn evaluate_instruction_data_for_booleanness(&self, value: &IRValue) -> (r: Result<
        bool,
        InterpretError,
    >)
        ensures
            r == truthy(value@, self.env()),
            value@ matches ValueModel::INT(i) ==> r == Ok::<bool, InterpretError>(i > 0),
    {
        let hops = self.variables_map.len();
        assert(self.env().dom() =~= self.variables_map@.dom());
        self.truthy_within(value, hops)
    }

    fn execute_cond_br(
        &mut self,
        condition: &IRValue,
        body: &Box<Instruction>,
        else_body: &Option<Box<Instruction>>,
    ) -> (r: Result<Option<IRValue>, InterpretError>)
        ensures
            final(self).same_settings(old(self)),
            final(self).state() == run(
                InstrModel::COND_BR(
                    condition@,
                    Box::new((**body)@),
                    match *else_body {
                        Some(e) => Some(Box::new((*e)@)),
                        None => None,
                    },
                ),
                old(self).state(),
                old(self).compiler_options.current_file@,
            ).state,
            result_view(r) == run(
                InstrModel::COND_BR(
                    condition@,
                    Box::new((**body)@),
                    match *else_body {
                        Some(e) => Some(Box::new((*e)@)),
                        None => None,
                    },
                ),
                old(self).state(),
                old(self).compiler_options.current_file@,
            ).result,
        decreases Instruction::COND_BR(*condition, *body, *else_body), 1nat,
    {
        let holds = match self.evaluate_instruction_data_for_booleanness(condition) {
            Ok(b) => b,
            Err(e) => {
                return Err(e);
            },
        };
        proof {
            let parent = Instruction::COND_BR(*condition, *body, *else_body);
            assert(parent->COND_BR_1 == *body);
            assert(parent->COND_BR_2 == *else_body);
            assert(decreases_to!(parent => parent->COND_BR_1));
            assert(decreases_to!(parent => parent->COND_BR_2));
        }
        if holds {
            match self.execute_instruction(body) {
                Ok(_) => Ok(None),
                Err(e) => Err(e),
            }
        } else {
            match else_body {
                Some(else_body_unwrapped) => match self.execute_instruction(else_body_unwrapped) {
                    Ok(_) => Ok(None),
                    Err(e) => Err(e),
                },
                None => Ok(None),
            }
        }
    }
}

} // verus!
