use crate::ast::{
    ast_model, asts_view, decls_view, fields_view, Assign, AstModel, Binary, Block, Call, Decl,
    DeclModel, FieldModel, Fun, If, LeftUnary, Number, ParsedAST, Program, Typ,
};
use crate::compiler::{CompilerOptions, OptionsModel};
use crate::ir::{
    instrs_view, opt_instr_view, opt_value_view, push_instruction, push_value, values_view,
    IRValue, InstrModel, Instruction, Ref, ValueModel,
};
use crate::ir_names::{lemma_synthetic_names_are_unique, names_in, plainly_named};
use crate::ir_interpret::{
    bind, emitted_view, lemma_run_ignores_file, load_free, loads_nothing, print_name, run_program,
    Emitted, EmittedModel, ExecState, IRInterpreter, InterpretError,
};
use crate::text::{counter_text, decimal_nat};
use crate::token::{Token, TokenModel};
use crate::types::{types_view, Type, TypeModel};
use vstd::prelude::*;
use vstd::string::StringExecFns;

verus! {

/// Why a lowering was aborted.
#[derive(Debug, Clone, Copy, PartialEq, Eq, Structural)]
pub enum LoweringError {
    /// The node is of a kind that lowering does not handle.
    UnsupportedNode,
    /// The operator of a binary expression is not `+`.
    UnsupportedOperator,
    /// An operand of a binary expression produced no value.
    MissingOperand,
    /// The condition of a conditional produced no value.
    MissingCondition,
    /// A branch of a conditional, or the body of a function, produced no
    /// instruction.
    MissingBody,
    /// An argument of a call, or the right-hand side of an assignment,
    /// produced no value.
    MissingValue,
    /// The left-hand side of an assignment is not an identifier.
    InvalidAssignmentTarget,
    /// The callee of a call is not an identifier.
    UnsupportedCallee,
    /// A parameter of a function has no type.
    MissingParameterType,
    /// Two constants were to be folded and their sum does not fit in 32 bits.
    ArithmeticOverflow,
    /// A counter for synthetic names has run out.
    CounterOverflow,
    /// An expression that was to be evaluated while compiling failed.
    Comptime(InterpretError),
}

/// What a lowering pass carries along: its counters, and the lines that
/// compile-time evaluation has emitted so far.
pub struct LowerState {
    pub counter: usize,
    pub lambda_counter: usize,
    pub block_counter: usize,
    pub locals_counter: usize,
    pub type_counter: usize,
    pub out: Seq<EmittedModel>,
}

/// Outcome of lowering a node: the state and the current block at the end,
/// or at the point where lowering was aborted, and what the node produced:
/// at most one instruction and at most one value.
pub struct Lowered {
    pub state: LowerState,
    pub block: Seq<InstrModel>,
    pub result: Result<(Option<InstrModel>, Option<ValueModel>), LoweringError>,
}

/// Outcome of lowering the arguments of a call.
pub struct LoweredArgs {
    pub state: LowerState,
    pub block: Seq<InstrModel>,
    pub result: Result<Seq<ValueModel>, LoweringError>,
}

/// A lowering that stops with an error.
pub open spec fn stop(st: LowerState, block: Seq<InstrModel>, e: LoweringError) -> Lowered {
    Lowered { state: st, block, result: Err(e) }
}

/// A lowering that succeeds.
pub open spec fn give(
    st: LowerState,
    block: Seq<InstrModel>,
    instruction: Option<InstrModel>,
    value: Option<ValueModel>,
) -> Lowered {
    Lowered { state: st, block, result: Ok((instruction, value)) }
}

/// The state after one more node has been counted.
pub open spec fn count_node(st: LowerState) -> LowerState {
    LowerState { counter: (st.counter + 1) as usize, ..st }
}

/// The state after one more name for a temporary has been taken.
pub open spec fn take_local(st: LowerState) -> LowerState {
    LowerState { locals_counter: (st.locals_counter + 1) as usize, ..st }
}

/// The state after one more name for a block has been taken.
pub open spec fn take_block(st: LowerState) -> LowerState {
    LowerState { block_counter: (st.block_counter + 1) as usize, ..st }
}

/// The state after one more name for an anonymous function has been taken.
pub open spec fn take_lambda(st: LowerState) -> LowerState {
    LowerState { lambda_counter: (st.lambda_counter + 1) as usize, ..st }
}

/// The state after one more name for a struct type has been taken.
pub open spec fn take_type(st: LowerState) -> LowerState {
    LowerState { type_counter: (st.type_counter + 1) as usize, ..st }
}

/// The state after more lines have been emitted.
pub open spec fn emit_all(st: LowerState, lines: Seq<EmittedModel>) -> LowerState {
    LowerState { out: st.out + lines, ..st }
}

/// Name of the slot of the n-th temporary: the number alone.
pub open spec fn slot_name(n: nat) -> Seq<char> {
    decimal_nat(n)
}

/// Name of the n-th block.
pub open spec fn block_name(n: nat) -> Seq<char> {
    decimal_nat(n) + "_block"@
}

/// Name of the n-th anonymous function.
pub open spec fn lambda_name(n: nat) -> Seq<char> {
    decimal_nat(n) + "_lambda"@
}

/// Name of the n-th struct type literal.
pub open spec fn struct_type_name(n: nat) -> Seq<char> {
    decimal_nat(n) + "_anon_type"@
}

/// Type given to a declaration whose declared type is `type`.
pub open spec fn runtime_type() -> TypeModel {
    TypeModel::STRUCT("Runtime_Type"@)
}

/// Value given to a declaration whose declared type is `type`.
pub open spec fn runtime_type_value() -> ValueModel {
    ValueModel::STRUCT(seq![ValueModel::INT(123)])
}

/// What a binary expression produces once both operands are lowered.
///
/// With optimization on, two integer immediates under `+` fold into their
/// sum and no instruction is emitted. Otherwise `+` emits an addition into
/// a fresh slot and produces a reference to that slot.
pub open spec fn combine(
    op: TokenModel,
    left: Option<ValueModel>,
    right: Option<ValueModel>,
    st: LowerState,
    block: Seq<InstrModel>,
    opts: OptionsModel,
) -> Lowered {
    if left is None || right is None {
        stop(st, block, LoweringError::MissingOperand)
    } else if st.locals_counter == usize::MAX {
        stop(st, block, LoweringError::CounterOverflow)
    } else {
        let l = left->0;
        let r = right->0;
        let name = decimal_nat(st.locals_counter as nat);
        let next = take_local(st);
        if op != TokenModel::PLUS {
            stop(next, block, LoweringError::UnsupportedOperator)
        } else if opts.optimization > 0 && l is INT && r is INT {
            if i32::MIN <= l->INT_0 + r->INT_0 <= i32::MAX {
                give(next, block, None, Some(ValueModel::INT((l->INT_0 + r->INT_0) as i32)))
            } else {
                stop(next, block, LoweringError::ArithmeticOverflow)
            }
        } else {
            give(
                next,
                block.push(InstrModel::ADD(name, l, r)),
                None,
                Some(ValueModel::REF(name)),
            )
        }
    }
}

/// The types of the parameters of a function, if each has one.
pub open spec fn param_types(params: Seq<DeclModel>) -> Option<Seq<TypeModel>> {
    if forall|i: int| 0 <= i < params.len() ==> (#[trigger] params[i]).typ is Some {
        Some(Seq::new(params.len(), |i: int| params[i].typ->0))
    } else {
        None
    }
}

/// The types of the fields of a struct type literal, in order.
pub open spec fn field_types(fields: Seq<FieldModel>) -> Seq<TypeModel> {
    Seq::new(fields.len(), |i: int| fields[i].typ)
}

/// What a declaration appends to the current block once its initializer is
/// lowered.
pub open spec fn declare(d: DeclModel, init: Lowered) -> Lowered {
    match init.result {
        Err(_) => init,
        Ok((_, data)) => match d.typ {
            Some(TypeModel::TYPE) => give(
                init.state,
                init.block.push(
                    InstrModel::STACK_VAR(d.identifier, runtime_type(), Some(runtime_type_value())),
                ),
                None,
                None,
            ),
            _ => if init.state.counter == usize::MAX {
                stop(init.state, init.block, LoweringError::CounterOverflow)
            } else {
                give(
                    count_node(init.state),
                    init.block.push(InstrModel::STACK_VAR(d.identifier, TypeModel::I32, data)),
                    None,
                    None,
                )
            },
        },
    }
}

/// What the evaluate-now operator produces once its operand is lowered into
/// a list of its own: that list runs as a program in a fresh environment,
/// the lines it emits join those of the lowering pass, and its value becomes
/// the value of the node. The current block stays as it was.
pub open spec fn evaluate_now(inner: Lowered, block: Seq<InstrModel>, opts: OptionsModel) -> Lowered {
    match inner.result {
        Err(e) => stop(inner.state, block, e),
        Ok(_) => {
            let fresh = ExecState { env: Map::empty(), out: Seq::empty() };
            let run = run_program(InstrModel::PROGRAM(inner.block), fresh, opts.current_file);
            let st = emit_all(inner.state, run.state.out);
            match run.result {
                Ok(v) => give(st, block, None, v),
                Err(e) => stop(st, block, LoweringError::Comptime(e)),
            }
        },
    }
}

/// The meaning of lowering: what a node produces, what it appends to the
/// current block, and how it moves the counters.
pub open spec fn lower(
    a: AstModel,
    st: LowerState,
    block: Seq<InstrModel>,
    opts: OptionsModel,
) -> Lowered
    decreases a,
{
    match a {
        AstModel::PROGRAM(items) => lower_items(items, 0, st, block, opts),
        AstModel::STMT(inner) => lower(*inner, st, block, opts),
        AstModel::BINARY(left, op, right) => {
            let l = lower(*left, st, block, opts);
            match l.result {
                Err(_) => l,
                Ok((_, lv)) => {
                    let r = lower(*right, l.state, l.block, opts);
                    match r.result {
                        Err(_) => r,
                        Ok((_, rv)) => combine(op, lv, rv, r.state, r.block, opts),
                    }
                },
            }
        },
        AstModel::NUMBER(n) => if st.counter == usize::MAX {
            stop(st, block, LoweringError::CounterOverflow)
        } else {
            give(
                count_node(st),
                block,
                None,
                Some(
                    match n {
                        Number::INTEGER(i) => ValueModel::INT(i),
                        Number::FLOAT(f) => ValueModel::FLOAT(f),
                    },
                ),
            )
        },
        AstModel::STRING(s) => give(st, block, None, Some(ValueModel::STRING(s))),
        AstModel::IDENTIFIER(name) => if st.locals_counter == usize::MAX {
            stop(st, block, LoweringError::CounterOverflow)
        } else if st.counter == usize::MAX {
            stop(take_local(st), block, LoweringError::CounterOverflow)
        } else {
            give(count_node(take_local(st)), block, None, Some(ValueModel::REF(name)))
        },
        AstModel::DECL(d) => match d.typ {
            Some(TypeModel::STRUCT(name)) => give(
                st,
                block.push(InstrModel::STACK_VAR(d.identifier, TypeModel::STRUCT(name), None)),
                None,
                None,
            ),
            _ => declare(
                d,
                match d.value {
                    Some(v) => lower(*v, st, block, opts),
                    None => give(st, block, None, None),
                },
            ),
        },
        AstModel::BLOCK(_, items) => if st.block_counter == usize::MAX {
            stop(st, block, LoweringError::CounterOverflow)
        } else {
            let name = block_name(st.block_counter as nat);
            let inner = lower_items(items, 0, take_block(st), Seq::empty(), opts);
            match inner.result {
                Err(e) => stop(inner.state, block, e),
                Ok(_) => give(inner.state, block, Some(InstrModel::BLOCK(name, inner.block)), None),
            }
        },
        AstModel::IF(condition, body, else_body) => {
            let c = lower(*condition, st, block, opts);
            match c.result {
                Err(_) => c,
                Ok((_, None)) => stop(c.state, c.block, LoweringError::MissingCondition),
                Ok((_, Some(cv))) => {
                    let b = lower(*body, c.state, c.block, opts);
                    match b.result {
                        Err(_) => b,
                        Ok((None, _)) => stop(b.state, b.block, LoweringError::MissingBody),
                        Ok((Some(bi), _)) => match else_body {
                            None => give(
                                b.state,
                                b.block,
                                Some(InstrModel::COND_BR(cv, Box::new(bi), None)),
                                None,
                            ),
                            Some(other) => {
                                let e = lower(*other, b.state, b.block, opts);
                                match e.result {
                                    Err(_) => e,
                                    Ok((None, _)) => stop(
                                        e.state,
                                        e.block,
                                        LoweringError::MissingBody,
                                    ),
                                    Ok((Some(ei), _)) => give(
                                        e.state,
                                        e.block,
                                        Some(
                                            InstrModel::COND_BR(
                                                cv,
                                                Box::new(bi),
                                                Some(Box::new(ei)),
                                            ),
                                        ),
                                        None,
                                    ),
                                }
                            },
                        },
                    }
                },
            }
        },
        AstModel::CALL(callee, args) => match *callee {
            AstModel::IDENTIFIER(f) => if st.locals_counter == usize::MAX {
                stop(st, block, LoweringError::CounterOverflow)
            } else {
                let name = decimal_nat(st.locals_counter as nat);
                let a = lower_args(args, 0, take_local(st), block, Seq::empty(), opts);
                match a.result {
                    Err(e) => stop(a.state, a.block, e),
                    Ok(values) => give(
                        a.state,
                        a.block.push(InstrModel::CALL(name, f, values)),
                        None,
                        Some(ValueModel::REF(name)),
                    ),
                }
            },
            _ => stop(st, block, LoweringError::UnsupportedCallee),
        },
        AstModel::ASSIGN(lhs, rhs) => match *lhs {
            AstModel::IDENTIFIER(target) => {
                let r = lower(*rhs, st, block, opts);
                match r.result {
                    Err(_) => r,
                    Ok((_, None)) => stop(r.state, r.block, LoweringError::MissingValue),
                    Ok((_, Some(v))) => give(
                        r.state,
                        r.block.push(InstrModel::STORE(target, v)),
                        None,
                        None,
                    ),
                }
            },
            _ => stop(st, block, LoweringError::InvalidAssignmentTarget),
        },
        AstModel::FN(identifier, params, body) => if identifier is None && st.lambda_counter
            == usize::MAX {
            stop(st, block, LoweringError::CounterOverflow)
        } else {
            let name = match identifier {
                Some(n) => n,
                None => lambda_name(st.lambda_counter as nat),
            };
            let named = match identifier {
                Some(_) => st,
                None => take_lambda(st),
            };
            let b = lower(*body, named, block, opts);
            match b.result {
                Err(_) => b,
                Ok((bi, _)) => match param_types(params) {
                    None => stop(b.state, b.block, LoweringError::MissingParameterType),
                    Some(types) => match bi {
                        None => stop(b.state, b.block, LoweringError::MissingBody),
                        Some(bi) => give(
                            b.state,
                            b.block,
                            Some(InstrModel::FUNC(name, types, Box::new(bi))),
                            None,
                        ),
                    },
                },
            }
        },
        AstModel::TYPE(fields, _) => if st.type_counter == usize::MAX {
            stop(st, block, LoweringError::CounterOverflow)
        } else {
            let name = struct_type_name(st.type_counter as nat);
            give(
                take_type(st),
                block.push(InstrModel::TYPE(name, field_types(fields))),
                None,
                Some(ValueModel::REF(name)),
            )
        },
        AstModel::LEFT_UNARY(operand) => evaluate_now(
            lower(*operand, st, Seq::empty(), opts),
            block,
            opts,
        ),
        _ => stop(st, block, LoweringError::UnsupportedNode),
    }
}

/// The meaning of lowering the statements of a list from position `from`
/// on: each is lowered in order, and the instruction it produces, if any,
/// is appended to the current block.
pub open spec fn lower_items(
    items: Seq<AstModel>,
    from: int,
    st: LowerState,
    block: Seq<InstrModel>,
    opts: OptionsModel,
) -> Lowered
    decreases items, items.len() - from,
{
    if 0 <= from < items.len() {
        let r = lower(items[from], st, block, opts);
        match r.result {
            Err(_) => r,
            Ok((instruction, _)) => lower_items(
                items,
                from + 1,
                r.state,
                match instruction {
                    Some(i) => r.block.push(i),
                    None => r.block,
                },
                opts,
            ),
        }
    } else {
        give(st, block, None, None)
    }
}

/// The meaning of lowering the arguments of a call from position `from`
/// on, left to right, where `values` are the values of the arguments before
/// them. Every argument must produce a value.
pub open spec fn lower_args(
    args: Seq<AstModel>,
    from: int,
    st: LowerState,
    block: Seq<InstrModel>,
    values: Seq<ValueModel>,
    opts: OptionsModel,
) -> LoweredArgs
    decreases args, args.len() - from,
{
    if 0 <= from < args.len() {
        let r = lower(args[from], st, block, opts);
        match r.result {
            Err(e) => LoweredArgs { state: r.state, block: r.block, result: Err(e) },
            Ok((_, None)) => LoweredArgs {
                state: r.state,
                block: r.block,
                result: Err(LoweringError::MissingValue),
            },
            Ok((_, Some(v))) => lower_args(args, from + 1, r.state, r.block, values.push(v), opts),
        }
    } else {
        LoweredArgs { state: st, block, result: Ok(values) }
    }
}

/// Outcome of lowering a whole tree.
pub struct LoweredProgram {
    pub state: LowerState,
    pub result: Result<InstrModel, LoweringError>,
}

/// The meaning of lowering a whole tree: the tree is lowered into an empty
/// block, and that block becomes the program.
pub open spec fn lower_program(a: AstModel, st: LowerState, opts: OptionsModel) -> LoweredProgram {
    let r = lower(a, st, Seq::empty(), opts);
    LoweredProgram {
        state: r.state,
        result: match r.result {
            Err(e) => Err(e),
            Ok(_) => Ok(InstrModel::PROGRAM(r.block)),
        },
    }
}

/// Two integer literals under `+`: with optimization on, lowering emits
/// nothing and produces their sum as an immediate; with optimization off,
/// it emits exactly one addition and produces a reference to its slot.
pub proof fn lemma_constant_folding(
    a: i32,
    b: i32,
    st: LowerState,
    block: Seq<InstrModel>,
    opts: OptionsModel,
)
    requires
        st.counter + 2 <= usize::MAX,
        st.locals_counter < usize::MAX,
        opts.optimization > 0 ==> i32::MIN <= a + b <= i32::MAX,
    ensures
        ({
            let node = AstModel::BINARY(
                Box::new(AstModel::NUMBER(Number::INTEGER(a))),
                TokenModel::PLUS,
                Box::new(AstModel::NUMBER(Number::INTEGER(b))),
            );
            let slot = decimal_nat(st.locals_counter as nat);
            let r = lower(node, st, block, opts);
            if opts.optimization > 0 {
                &&& r.block == block
                &&& r.result == Ok::<(Option<InstrModel>, Option<ValueModel>), LoweringError>(
                    (None, Some(ValueModel::INT((a + b) as i32))),
                )
            } else {
                &&& r.block == block.push(
                    InstrModel::ADD(slot, ValueModel::INT(a), ValueModel::INT(b)),
                )
                &&& r.result == Ok::<(Option<InstrModel>, Option<ValueModel>), LoweringError>(
                    (None, Some(ValueModel::REF(slot))),
                )
            }
        }),
{
    reveal_with_fuel(lower, 2);
}

/// The evaluate-now operator keeps what it evaluates to itself: nothing
/// joins the current block, no instruction comes back, and the operand is
/// lowered and run on its own, from an empty block and an empty
/// environment. Only the value and the emitted lines leave.
pub proof fn lemma_evaluate_now_is_isolated(
    operand: AstModel,
    st: LowerState,
    block: Seq<InstrModel>,
    other_block: Seq<InstrModel>,
    opts: OptionsModel,
)
    ensures
        ({
            let r = lower(AstModel::LEFT_UNARY(Box::new(operand)), st, block, opts);
            let other = lower(AstModel::LEFT_UNARY(Box::new(operand)), st, other_block, opts);
            &&& r.block == block
            &&& r.result matches Ok((instruction, _)) ==> instruction is None
            &&& r.state == other.state
            &&& r.result == other.result
        }),
{
}

/// Whether a state can follow another in one lowering pass: no counter has
/// gone back, and the lines emitted before are still there, in front.
pub open spec fn follows(before: LowerState, after: LowerState) -> bool {
    &&& before.counter <= after.counter
    &&& before.lambda_counter <= after.lambda_counter
    &&& before.block_counter <= after.block_counter
    &&& before.locals_counter <= after.locals_counter
    &&& before.type_counter <= after.type_counter
    &&& before.out.is_prefix_of(after.out)
}

/// A sequence is a prefix of what it is a prefix of a prefix of.
proof fn lemma_prefix_chain<T>(a: Seq<T>, b: Seq<T>, c: Seq<T>)
    requires
        a.is_prefix_of(b),
        b.is_prefix_of(c),
    ensures
        a.is_prefix_of(c),
{
    assert(a =~= c.subrange(0, a.len() as int)) by {
        assert(b =~= c.subrange(0, b.len() as int));
        assert(a =~= b.subrange(0, a.len() as int));
    }
}

/// Lowering only adds: the instructions that were in the current block stay
/// in front of those that lowering appends, the lines that were emitted
/// stay in front of those that compile-time evaluation emits, and no
/// counter for synthetic names ever goes back.
#[verifier::spinoff_prover]
pub proof fn lemma_lower_appends(
    a: AstModel,
    st: LowerState,
    block: Seq<InstrModel>,
    opts: OptionsModel,
)
    ensures
        follows(st, lower(a, st, block, opts).state),
        block.is_prefix_of(lower(a, st, block, opts).block),
    decreases a,
{
    match a {
        AstModel::PROGRAM(items) => lemma_lower_items_appends(items, 0, st, block, opts),
        AstModel::STMT(inner) => lemma_lower_appends(*inner, st, block, opts),
        AstModel::BINARY(left, op, right) => {
            lemma_lower_appends(*left, st, block, opts);
            let l = lower(*left, st, block, opts);
            if l.result is Ok {
                lemma_lower_appends(*right, l.state, l.block, opts);
                let r = lower(*right, l.state, l.block, opts);
                lemma_prefix_chain(st.out, l.state.out, r.state.out);
                lemma_prefix_chain(block, l.block, r.block);
                if r.result is Ok {
                    let whole = lower(a, st, block, opts);
                    lemma_prefix_chain(block, r.block, whole.block);
                }
            }
        },
        AstModel::DECL(d) => {
            match d.value {
                Some(v) => {
                    lemma_lower_appends(*v, st, block, opts);
                    if !(d.typ matches Some(TypeModel::STRUCT(_))) {
                        let init = lower(*v, st, block, opts);
                        lemma_prefix_chain(block, init.block, lower(a, st, block, opts).block);
                    }
                },
                None => {},
            }
        },
        AstModel::BLOCK(_, items) => {
            if st.block_counter != usize::MAX {
                lemma_lower_items_appends(items, 0, take_block(st), Seq::empty(), opts);
            }
        },
        AstModel::IF(condition, body, else_body) => {
            lemma_lower_appends(*condition, st, block, opts);
            let c = lower(*condition, st, block, opts);
            if c.result matches Ok((_, Some(_))) {
                lemma_lower_appends(*body, c.state, c.block, opts);
                let b = lower(*body, c.state, c.block, opts);
                lemma_prefix_chain(st.out, c.state.out, b.state.out);
                lemma_prefix_chain(block, c.block, b.block);
                if b.result matches Ok((Some(_), _)) {
                    match else_body {
                        Some(other) => {
                            lemma_lower_appends(*other, b.state, b.block, opts);
                            let e = lower(*other, b.state, b.block, opts);
                            lemma_prefix_chain(st.out, b.state.out, e.state.out);
                            lemma_prefix_chain(block, b.block, e.block);
                        },
                        None => {},
                    }
                }
            }
        },
        AstModel::CALL(callee, args) => {
            match *callee {
                AstModel::IDENTIFIER(f) => {
                    if st.locals_counter != usize::MAX {
                        lemma_lower_args_appends(
                            args,
                            0,
                            take_local(st),
                            block,
                            Seq::empty(),
                            opts,
                        );
                        let r = lower_args(args, 0, take_local(st), block, Seq::empty(), opts);
                        lemma_prefix_chain(block, r.block, lower(a, st, block, opts).block);
                    }
                },
                _ => {},
            }
        },
        AstModel::ASSIGN(lhs, rhs) => {
            match *lhs {
                AstModel::IDENTIFIER(target) => {
                    lemma_lower_appends(*rhs, st, block, opts);
                    let r = lower(*rhs, st, block, opts);
                    lemma_prefix_chain(block, r.block, lower(a, st, block, opts).block);
                },
                _ => {},
            }
        },
        AstModel::FN(identifier, params, body) => {
            if !(identifier is None && st.lambda_counter == usize::MAX) {
                let named = match identifier {
                    Some(_) => st,
                    None => take_lambda(st),
                };
                lemma_lower_appends(*body, named, block, opts);
            }
        },
        AstModel::LEFT_UNARY(operand) => {
            lemma_lower_appends(*operand, st, Seq::empty(), opts);
            let inner = lower(*operand, st, Seq::empty(), opts);
            lemma_prefix_chain(st.out, inner.state.out, lower(a, st, block, opts).state.out);
        },
        _ => {},
    }
}

/// Lowering a list of statements only adds.
pub proof fn lemma_lower_items_appends(
    items: Seq<AstModel>,
    from: int,
    st: LowerState,
    block: Seq<InstrModel>,
    opts: OptionsModel,
)
    ensures
        follows(st, lower_items(items, from, st, block, opts).state),
        block.is_prefix_of(lower_items(items, from, st, block, opts).block),
    decreases items, items.len() - from,
{
    if 0 <= from < items.len() {
        lemma_lower_appends(items[from], st, block, opts);
        let r = lower(items[from], st, block, opts);
        match r.result {
            Err(_) => {},
            Ok((instruction, _)) => {
                let next = match instruction {
                    Some(i) => r.block.push(i),
                    None => r.block,
                };
                lemma_lower_items_appends(items, from + 1, r.state, next, opts);
                let rest = lower_items(items, from + 1, r.state, next, opts);
                lemma_prefix_chain(block, r.block, next);
                lemma_prefix_chain(block, next, rest.block);
                lemma_prefix_chain(st.out, r.state.out, rest.state.out);
            },
        }
    }
}

/// Lowering the arguments of a call only adds.
pub proof fn lemma_lower_args_appends(
    args: Seq<AstModel>,
    from: int,
    st: LowerState,
    block: Seq<InstrModel>,
    values: Seq<ValueModel>,
    opts: OptionsModel,
)
    ensures
        follows(st, lower_args(args, from, st, block, values, opts).state),
        block.is_prefix_of(lower_args(args, from, st, block, values, opts).block),
    decreases args, args.len() - from,
{
    if 0 <= from < args.len() {
        lemma_lower_appends(args[from], st, block, opts);
        let r = lower(args[from], st, block, opts);
        match r.result {
            Ok((_, Some(v))) => {
                lemma_lower_args_appends(args, from + 1, r.state, r.block, values.push(v), opts);
                let rest = lower_args(args, from + 1, r.state, r.block, values.push(v), opts);
                lemma_prefix_chain(block, r.block, rest.block);
                lemma_prefix_chain(st.out, r.state.out, rest.state.out);
            },
            _ => {},
        }
    }
}

/// Operands are lowered left to right. Whatever lowering the left operand
/// of a binary expression emits, as instructions or as lines, stands in
/// front of whatever lowering the right operand emits, and the right
/// operand is lowered from the state that the left one left behind.
pub proof fn lemma_operands_in_order(
    left: AstModel,
    op: TokenModel,
    right: AstModel,
    st: LowerState,
    block: Seq<InstrModel>,
    opts: OptionsModel,
)
    ensures
        ({
            let whole = lower(AstModel::BINARY(Box::new(left), op, Box::new(right)), st, block, opts);
            let l = lower(left, st, block, opts);
            let r = lower(right, l.state, l.block, opts);
            &&& follows(st, l.state)
            &&& block.is_prefix_of(l.block)
            &&& l.result is Err ==> whole == l
            &&& l.result is Ok ==> {
                &&& follows(l.state, r.state)
                &&& l.block.is_prefix_of(r.block)
                &&& whole.state.out == r.state.out
                &&& r.block.is_prefix_of(whole.block)
            }
        }),
{
    lemma_lower_appends(left, st, block, opts);
    let l = lower(left, st, block, opts);
    lemma_lower_appends(right, l.state, l.block, opts);
}

/// Whether two sets of options agree on everything but the name of the
/// current file.
pub open spec fn same_but_file(a: OptionsModel, b: OptionsModel) -> bool {
    a.optimization == b.optimization
}

/// A list that is free of loads stays so when an instruction that is free
/// of loads joins it.
proof fn lemma_push_keeps_load_free(items: Seq<InstrModel>, i: InstrModel)
    requires
        load_free(items),
        loads_nothing(i),
    ensures
        load_free(items.push(i)),
{
    assert forall|k: int| 0 <= k < items.push(i).len() implies loads_nothing(
        #[trigger] items.push(i)[k],
    ) by {
        if k < items.len() {
            assert(items.push(i)[k] == items[k]);
        }
    }
}

/// Lowering emits no load, and so what it produces does not depend on the
/// name of the current file, not even where it evaluates while compiling.
pub proof fn lemma_lower_ignores_file(
    a: AstModel,
    st: LowerState,
    block: Seq<InstrModel>,
    opts: OptionsModel,
    other: OptionsModel,
)
    requires
        same_but_file(opts, other),
        load_free(block),
    ensures
        lower(a, st, block, opts) == lower(a, st, block, other),
        load_free(lower(a, st, block, opts).block),
        lower(a, st, block, opts).result matches Ok((Some(i), _)) ==> loads_nothing(i),
    decreases a,
{
    match a {
        AstModel::PROGRAM(items) => lemma_lower_items_ignores_file(items, 0, st, block, opts, other),
        AstModel::STMT(inner) => lemma_lower_ignores_file(*inner, st, block, opts, other),
        AstModel::BINARY(left, op, right) => {
            lemma_lower_ignores_file(*left, st, block, opts, other);
            let l = lower(*left, st, block, opts);
            if l.result is Ok {
                lemma_lower_ignores_file(*right, l.state, l.block, opts, other);
                let r = lower(*right, l.state, l.block, opts);
                if r.result is Ok {
                    let lv = l.result->Ok_0.1;
                    let rv = r.result->Ok_0.1;
                    if lv is Some && rv is Some && r.state.locals_counter != usize::MAX {
                        let name = decimal_nat(r.state.locals_counter as nat);
                        lemma_push_keeps_load_free(
                            r.block,
                            InstrModel::ADD(name, lv->0, rv->0),
                        );
                    }
                }
            }
        },
        AstModel::DECL(d) => {
            match d.typ {
                Some(TypeModel::STRUCT(name)) => {
                    lemma_push_keeps_load_free(
                        block,
                        InstrModel::STACK_VAR(d.identifier, TypeModel::STRUCT(name), None),
                    );
                },
                _ => {
                    let init = match d.value {
                        Some(v) => {
                            lemma_lower_ignores_file(*v, st, block, opts, other);
                            lower(*v, st, block, opts)
                        },
                        None => give(st, block, None, None),
                    };
                    if init.result is Ok {
                        let data = init.result->Ok_0.1;
                        lemma_push_keeps_load_free(
                            init.block,
                            InstrModel::STACK_VAR(
                                d.identifier,
                                runtime_type(),
                                Some(runtime_type_value()),
                            ),
                        );
                        lemma_push_keeps_load_free(
                            init.block,
                            InstrModel::STACK_VAR(d.identifier, TypeModel::I32, data),
                        );
                    }
                },
            }
        },
        AstModel::BLOCK(_, items) => {
            if st.block_counter != usize::MAX {
                lemma_lower_items_ignores_file(
                    items,
                    0,
                    take_block(st),
                    Seq::empty(),
                    opts,
                    other,
                );
            }
        },
        AstModel::IF(condition, body, else_body) => {
            lemma_lower_ignores_file(*condition, st, block, opts, other);
            let c = lower(*condition, st, block, opts);
            if c.result matches Ok((_, Some(_))) {
                lemma_lower_ignores_file(*body, c.state, c.block, opts, other);
                let b = lower(*body, c.state, c.block, opts);
                if b.result matches Ok((Some(_), _)) {
                    match else_body {
                        Some(e) => {
                            lemma_lower_ignores_file(*e, b.state, b.block, opts, other);
                        },
                        None => {},
                    }
                }
            }
        },
        AstModel::CALL(callee, args) => {
            match *callee {
                AstModel::IDENTIFIER(f) => {
                    if st.locals_counter != usize::MAX {
                        lemma_lower_args_ignores_file(
                            args,
                            0,
                            take_local(st),
                            block,
                            Seq::empty(),
                            opts,
                            other,
                        );
                        let r = lower_args(args, 0, take_local(st), block, Seq::empty(), opts);
                        if r.result is Ok {
                            let values = r.result->Ok_0;
                            lemma_push_keeps_load_free(
                                r.block,
                                InstrModel::CALL(
                                    decimal_nat(st.locals_counter as nat),
                                    f,
                                    values,
                                ),
                            );
                        }
                    }
                },
                _ => {},
            }
        },
        AstModel::ASSIGN(lhs, rhs) => {
            match *lhs {
                AstModel::IDENTIFIER(target) => {
                    lemma_lower_ignores_file(*rhs, st, block, opts, other);
                    let r = lower(*rhs, st, block, opts);
                    if r.result matches Ok((_, Some(_))) {
                        let v = r.result->Ok_0.1->0;
                        lemma_push_keeps_load_free(r.block, InstrModel::STORE(target, v));
                    }
                },
                _ => {},
            }
        },
        AstModel::FN(identifier, params, body) => {
            if !(identifier is None && st.lambda_counter == usize::MAX) {
                let named = match identifier {
                    Some(_) => st,
                    None => take_lambda(st),
                };
                lemma_lower_ignores_file(*body, named, block, opts, other);
            }
        },
        AstModel::TYPE(fields, _) => {
            lemma_push_keeps_load_free(
                block,
                InstrModel::TYPE(struct_type_name(st.type_counter as nat), field_types(fields)),
            );
        },
        AstModel::LEFT_UNARY(operand) => {
            lemma_lower_ignores_file(*operand, st, Seq::empty(), opts, other);
            let inner = lower(*operand, st, Seq::empty(), opts);
            let fresh = ExecState { env: Map::empty(), out: Seq::empty() };
            lemma_run_ignores_file(
                InstrModel::PROGRAM(inner.block),
                bind(fresh, print_name(), ValueModel::INTRINSIC(print_name())),
                opts.current_file,
                other.current_file,
            );
        },
        _ => {},
    }
}

/// Lowering a list of statements emits no load and does not depend on the
/// name of the current file.
pub proof fn lemma_lower_items_ignores_file(
    items: Seq<AstModel>,
    from: int,
    st: LowerState,
    block: Seq<InstrModel>,
    opts: OptionsModel,
    other: OptionsModel,
)
    requires
        same_but_file(opts, other),
        load_free(block),
    ensures
        lower_items(items, from, st, block, opts) == lower_items(items, from, st, block, other),
        load_free(lower_items(items, from, st, block, opts).block),
        lower_items(items, from, st, block, opts).result matches Ok((i, _)) ==> i is None,
    decreases items, items.len() - from,
{
    if 0 <= from < items.len() {
        lemma_lower_ignores_file(items[from], st, block, opts, other);
        let r = lower(items[from], st, block, opts);
        match r.result {
            Err(_) => {},
            Ok((instruction, _)) => {
                let next = match instruction {
                    Some(i) => {
                        lemma_push_keeps_load_free(r.block, i);
                        r.block.push(i)
                    },
                    None => r.block,
                };
                lemma_lower_items_ignores_file(items, from + 1, r.state, next, opts, other);
            },
        }
    }
}

/// Lowering the arguments of a call emits no load and does not depend on
/// the name of the current file.
pub proof fn lemma_lower_args_ignores_file(
    args: Seq<AstModel>,
    from: int,
    st: LowerState,
    block: Seq<InstrModel>,
    values: Seq<ValueModel>,
    opts: OptionsModel,
    other: OptionsModel,
)
    requires
        same_but_file(opts, other),
        load_free(block),
    ensures
        lower_args(args, from, st, block, values, opts) == lower_args(
            args,
            from,
            st,
            block,
            values,
            other,
        ),
        load_free(lower_args(args, from, st, block, values, opts).block),
    decreases args, args.len() - from,
{
    if 0 <= from < args.len() {
        lemma_lower_ignores_file(args[from], st, block, opts, other);
        let r = lower(args[from], st, block, opts);
        match r.result {
            Ok((_, Some(v))) => {
                lemma_lower_args_ignores_file(
                    args,
                    from + 1,
                    r.state,
                    r.block,
                    values.push(v),
                    opts,
                    other,
                );
            },
            _ => {},
        }
    }
}

/// Lowering is a function of the tree, the counters and the optimization
/// level alone: two passes over the same tree, from the same counters and
/// with the same optimization level, produce the same program, name for
/// name and instruction for instruction, and emit the same lines.
pub proof fn lemma_lowering_is_deterministic(
    a: AstModel,
    st: LowerState,
    opts: OptionsModel,
    other: OptionsModel,
)
    requires
        opts.optimization == other.optimization,
    ensures
        lower_program(a, st, opts) == lower_program(a, st, other),
{
    lemma_lower_ignores_file(a, st, Seq::empty(), opts, other);
}

/// What the outcome of lowering `a + b` is for two integer literals, where
/// the counters have room: with optimization on and a sum that fits, the
/// sum as an immediate and nothing emitted; with optimization off, one
/// addition emitted and a reference to its slot.
pub open spec fn folds_or_adds(
    a: i32,
    b: i32,
    op: TokenModel,
    st: LowerState,
    block: Seq<InstrModel>,
    opts: OptionsModel,
    outcome: Lowered,
) -> bool {
    let slot = decimal_nat(st.locals_counter as nat);
    (op == TokenModel::PLUS && st.counter + 2 <= usize::MAX && st.locals_counter < usize::MAX)
        ==> (if opts.optimization > 0 {
        i32::MIN <= a + b <= i32::MAX ==> outcome.block == block && outcome.result == Ok::<
            (Option<InstrModel>, Option<ValueModel>),
            LoweringError,
        >((None, Some(ValueModel::INT((a + b) as i32))))
    } else {
        outcome.block == block.push(
            InstrModel::ADD(slot, ValueModel::INT(a), ValueModel::INT(b)),
        ) && outcome.result == Ok::<(Option<InstrModel>, Option<ValueModel>), LoweringError>(
            (None, Some(ValueModel::REF(slot))),
        )
    })
}

/// Whether an outcome is that of a binary expression whose operands were
/// lowered left to right: what the left operand emitted, as lines and as
/// instructions, stands in front of what the right one emitted, and what
/// the expression itself emits comes after both.
pub open spec fn left_then_right(
    left: AstModel,
    right: AstModel,
    st: LowerState,
    block: Seq<InstrModel>,
    opts: OptionsModel,
    outcome: Lowered,
) -> bool {
    let l = lower(left, st, block, opts);
    let r = lower(right, l.state, l.block, opts);
    &&& follows(st, l.state)
    &&& block.is_prefix_of(l.block)
    &&& l.result is Err ==> outcome == l
    &&& l.result is Ok ==> {
        &&& follows(l.state, r.state)
        &&& l.block.is_prefix_of(r.block)
        &&& outcome.state.out == r.state.out
        &&& r.block.is_prefix_of(outcome.block)
    }
}

/// The operand of an operator that stands in front of it.
pub open spec fn operand_model(u: LeftUnary) -> AstModel {
    match u {
        LeftUnary::COMP(operand) => (*operand)@,
    }
}

/// Whether a result is that of evaluating an operand on its own: the
/// operand lowered into an empty block, that block run as a program from
/// an empty environment, and the value of the run handed back.
pub open spec fn evaluated_alone(
    operand: AstModel,
    st: LowerState,
    opts: OptionsModel,
    result: Result<(Option<InstrModel>, Option<ValueModel>), LoweringError>,
) -> bool {
    let inner = lower(operand, st, Seq::empty(), opts);
    let fresh = ExecState { env: Map::empty(), out: Seq::empty() };
    let run = run_program(InstrModel::PROGRAM(inner.block), fresh, opts.current_file);
    match inner.result {
        Err(e) => result == Err::<(Option<InstrModel>, Option<ValueModel>), LoweringError>(e),
        Ok(_) => match run.result {
            Ok(v) => result == Ok::<(Option<InstrModel>, Option<ValueModel>), LoweringError>(
                (None, v),
            ),
            Err(e) => result == Err::<(Option<InstrModel>, Option<ValueModel>), LoweringError>(
                LoweringError::Comptime(e),
            ),
        },
    }
}

/// Model of what lowering a node hands back.
pub open spec fn produced_view(
    r: Result<(Option<Instruction>, Option<IRValue>), LoweringError>,
) -> Result<(Option<InstrModel>, Option<ValueModel>), LoweringError> {
    match r {
        Ok((i, v)) => Ok((opt_instr_view(i), opt_value_view(v))),
        Err(e) => Err(e),
    }
}

/// Model of what lowering a whole tree hands back.
pub open spec fn program_view(r: Result<Instruction, LoweringError>) -> Result<
    InstrModel,
    LoweringError,
> {
    match r {
        Ok(i) => Ok(i@),
        Err(e) => Err(e),
    }
}

/// Lowers a syntax tree to instructions.
pub struct IRParser<'a> {
    pub compiler_options: &'a CompilerOptions,
    /// Number of nodes counted so far.
    pub counter: usize,
    /// Next number for the name of an anonymous function.
    pub lambda_counter: usize,
    /// Next number for the name of a block.
    pub block_counter: usize,
    /// Next number for the name of a temporary.
    pub locals_counter: usize,
    /// Next number for the name of a struct type literal.
    pub type_counter: usize,
    /// Every line emitted by compile-time evaluation, in order.
    pub output: Vec<Emitted>,
}

impl<'a> IRParser<'a> {
    /// Counters and emitted lines together.
    pub open spec fn state(&self) -> LowerState {
        LowerState {
            counter: self.counter,
            lambda_counter: self.lambda_counter,
            block_counter: self.block_counter,
            locals_counter: self.locals_counter,
            type_counter: self.type_counter,
            out: emitted_view(self.output@),
        }
    }

    /// What a method has done, in the shape of the model's outcome.
    pub open spec fn outcome(
        &self,
        block: &Vec<Instruction>,
        r: Result<(Option<Instruction>, Option<IRValue>), LoweringError>,
    ) -> Lowered {
        Lowered { state: self.state(), block: instrs_view(block@), result: produced_view(r) }
    }

    /// A lowering pass with all counters at zero and nothing emitted.
    pub fn new(compiler_options: &'a CompilerOptions) -> (r: Self)
        ensures
            r.compiler_options == compiler_options,
            r.state() == (LowerState {
                counter: 0,
                lambda_counter: 0,
                block_counter: 0,
                locals_counter: 0,
                type_counter: 0,
                out: Seq::empty(),
            }),
    {
        let r = IRParser {
            compiler_options,
            counter: 0,
            lambda_counter: 0,
            block_counter: 0,
            locals_counter: 0,
            type_counter: 0,
            output: Vec::new(),
        };
        assert(emitted_view(r.output@) =~= Seq::<EmittedModel>::empty());
        r
    }

    /// Lowers a whole tree. The result is a program that holds, in order,
    /// every instruction that lowering the tree appended. No counter goes
    /// back, and no synthetic name is used twice in the program.
    pub fn parse(&mut self, ast: Box<ParsedAST>) -> (r: Result<Instruction, LoweringError>)
        ensures
            final(self).compiler_options == old(self).compiler_options,
            final(self).state() == lower_program(
                ast@,
                old(self).state(),
                old(self).compiler_options@,
            ).state,
            program_view(r) == lower_program(
                ast@,
                old(self).state(),
                old(self).compiler_options@,
            ).result,
            follows(old(self).state(), final(self).state()),
            plainly_named(ast@) ==> (r matches Ok(program) ==> forall|name: Seq<char>|
                names_in(program@).count(name) <= 1),
    {
        proof {
            reveal_with_fuel(ast_model, 2);
            lemma_lower_appends(
                ast@,
                self.state(),
                Seq::empty(),
                self.compiler_options@,
            );
            if plainly_named(ast@) {
                lemma_synthetic_names_are_unique(ast@, self.state(), self.compiler_options@);
            }
        }
        let mut main_block_instructions: Vec<Instruction> = Vec::new();
        assert(instrs_view(main_block_instructions@) =~= Seq::<InstrModel>::empty());
        match self.gen_ast(&*ast, &mut main_block_instructions) {
            Ok(_) => Ok(Instruction::PROGRAM(Box::new(main_block_instructions))),
            Err(e) => Err(e),
        }
    }

    fn write_instruction_to_block(
        &mut self,
        instruction: Instruction,
        instructions: &mut Vec<Instruction>,
    )
        ensures
            *final(self) == *old(self),
            instrs_view(final(instructions)@) == instrs_view(old(instructions)@).push(
                instruction@,
            ),
    {
        push_instruction(instructions, instruction);
    }

    fn gen_ast(&mut self, ast: &ParsedAST, current_block: &mut Vec<Instruction>) -> (r: Result<
        (Option<Instruction>, Option<IRValue>),
        LoweringError,
    >)
        ensures
            final(self).compiler_options == old(self).compiler_options,
            final(self).outcome(final(current_block), r) == lower(
                ast@,
                old(self).state(),
                instrs_view(old(current_block)@),
                old(self).compiler_options@,
            ),
        decreases ast, 1nat,
    {
        proof {
            reveal_with_fuel(ast_model, 2);
        }
        match ast {
            ParsedAST::PROGRAM(program) => self.gen_program(program, current_block),
            ParsedAST::STMT(stmt) => self.gen_stmt(stmt, current_block),
            ParsedAST::BINARY(binary) => self.gen_binary(binary, current_block),
            ParsedAST::NUMBER(num) => self.gen_num(num, current_block),
            ParsedAST::STRING(s) => self.gen_string(s, current_block),
            ParsedAST::DECL(decl) => self.gen_decl(decl, current_block),
            ParsedAST::IDENTIFIER(identifier) => self.gen_identifier(identifier, current_block),
            ParsedAST::BLOCK(block) => self.gen_block(block, current_block),
            ParsedAST::IF(iff) => self.gen_if(iff, current_block),
            ParsedAST::CALL(call) => self.gen_call(call, current_block),
            ParsedAST::ASSIGN(assign) => self.gen_assign(assign, current_block),
            ParsedAST::FN(func) => self.gen_func(func, current_block),
            ParsedAST::TYPE(typ) => self.gen_type(typ, current_block),
            ParsedAST::LEFT_UNARY(left_unary) => self.gen_left_unary(left_unary, current_block),
            _ => Err(LoweringError::UnsupportedNode),
        }
    }

    #[verifier::loop_isolation(false)]
    fn gen_items(&mut self, items: &Vec<ParsedAST>, current_block: &mut Vec<Instruction>) -> (r:
        Result<(Option<Instruction>, Option<IRValue>), LoweringError>)
        ensures
            final(self).compiler_options == old(self).compiler_options,
            final(self).outcome(final(current_block), r) == lower_items(
                asts_view(items@),
                0,
                old(self).state(),
                instrs_view(old(current_block)@),
                old(self).compiler_options@,
            ),
        decreases items, 0nat,
    {
        proof {
            reveal_with_fuel(ast_model, 2);
        }
        let ghost models = asts_view(items@);
        let ghost opts = self.compiler_options@;
        let ghost whole = lower_items(models, 0, self.state(), instrs_view(current_block@), opts);
        let mut i: usize = 0;
        while i < items.len()
            invariant
                i <= items.len(),
                models == asts_view(items@),
                opts == self.compiler_options@,
                self.compiler_options == old(self).compiler_options,
                whole == lower_items(
                    models,
                    0,
                    old(self).state(),
                    instrs_view(old(current_block)@),
                    opts,
                ),
                lower_items(models, i as int, self.state(), instrs_view(current_block@), opts)
                    == whole,
            decreases items.len() - i,
        {
            let ghost before = self.state();
            let ghost block_before = instrs_view(current_block@);
            let step = self.gen_ast(&items[i], current_block);
            proof {
                assert(models.len() == items.len());
                assert(models[i as int] == items[i as int]@);
                let r = lower(models[i as int], before, block_before, opts);
                assert(lower_items(models, i as int, before, block_before, opts) == match r.result {
                    Err(_) => r,
                    Ok((instruction, _)) => lower_items(
                        models,
                        i + 1,
                        r.state,
                        match instruction {
                            Some(i) => r.block.push(i),
                            None => r.block,
                        },
                        opts,
                    ),
                });
            }
            match step {
                Err(e) => {
                    return Err(e);
                },
                Ok((instruction, _)) => {
                    match instruction {
                        Some(instruction_unwrapped) => {
                            self.write_instruction_to_block(instruction_unwrapped, current_block);
                        },
                        None => {},
                    }
                },
            }
            i += 1;
        }
        Ok((None, None))
    }

    fn gen_program(&mut self, program: &Program, current_block: &mut Vec<Instruction>) -> (r:
        Result<(Option<Instruction>, Option<IRValue>), LoweringError>)
        ensures
            final(self).compiler_options == old(self).compiler_options,
            final(self).outcome(final(current_block), r) == lower(
                ParsedAST::PROGRAM(*program)@,
                old(self).state(),
                instrs_view(old(current_block)@),
                old(self).compiler_options@,
            ),
        decreases program, 0nat,
    {
        proof {
            reveal_with_fuel(ast_model, 2);
        }
        self.gen_items(&program.body, current_block)
    }

    fn gen_stmt(&mut self, stmt: &Box<ParsedAST>, current_block: &mut Vec<Instruction>) -> (r:
        Result<(Option<Instruction>, Option<IRValue>), LoweringError>)
        ensures
            final(self).compiler_options == old(self).compiler_options,
            final(self).outcome(final(current_block), r) == lower(
                ParsedAST::STMT(*stmt)@,
                old(self).state(),
                instrs_view(old(current_block)@),
                old(self).compiler_options@,
            ),
        decreases ParsedAST::STMT(*stmt), 0nat,
    {
        proof {
            reveal_with_fuel(ast_model, 2);
        }
        proof {
            let parent = ParsedAST::STMT(*stmt);
            assert(parent->STMT_0 == *stmt);
            assert(decreases_to!(parent => parent->STMT_0));
        }
        self.gen_ast(stmt, current_block)
    }

    /// Lowers a binary expression: the left operand, then the right one,
    /// then the operator.
    pub fn gen_binary(&mut self, binary: &Binary, current_block: &mut Vec<Instruction>) -> (r:
        Result<(Option<Instruction>, Option<IRValue>), LoweringError>)
        ensures
            final(self).compiler_options == old(self).compiler_options,
            final(self).outcome(final(current_block), r) == lower(
                ParsedAST::BINARY(*binary)@,
                old(self).state(),
                instrs_view(old(current_block)@),
                old(self).compiler_options@,
            ),
            left_then_right(
                (*binary.left)@,
                (*binary.right)@,
                old(self).state(),
                instrs_view(old(current_block)@),
                old(self).compiler_options@,
                final(self).outcome(final(current_block), r),
            ),
            (*binary.left)@ matches AstModel::NUMBER(Number::INTEGER(a)) ==> ((*binary.right)@
                matches AstModel::NUMBER(Number::INTEGER(b)) ==> folds_or_adds(
                a,
                b,
                binary.op@,
                old(self).state(),
                instrs_view(old(current_block)@),
                old(self).compiler_options@,
                final(self).outcome(final(current_block), r),
            )),
        decreases binary, 0nat,
    {
        proof {
            reveal_with_fuel(ast_model, 2);
            let st = self.state();
            let block = instrs_view(current_block@);
            let opts = self.compiler_options@;
            lemma_operands_in_order((*binary.left)@, binary.op@, (*binary.right)@, st, block, opts);
            match ((*binary.left)@, (*binary.right)@) {
                (AstModel::NUMBER(Number::INTEGER(a)), AstModel::NUMBER(Number::INTEGER(b))) => {
                    if binary.op@ == TokenModel::PLUS && st.counter + 2 <= usize::MAX
                        && st.locals_counter < usize::MAX && (opts.optimization > 0 ==> i32::MIN
                        <= a + b <= i32::MAX) {
                        lemma_constant_folding(a, b, st, block, opts);
                    }
                },
                _ => {},
            }
        }
        let left_address = match self.gen_ast(&binary.left, current_block) {
            Ok((_, v)) => v,
            Err(e) => {
                return Err(e);
            },
        };
        let right_address = match self.gen_ast(&binary.right, current_block) {
            Ok((_, v)) => v,
            Err(e) => {
                return Err(e);
            },
        };
        let l = match left_address {
            Some(left) => left,
            None => {
                return Err(LoweringError::MissingOperand);
            },
        };
        let r = match right_address {
            Some(right) => right,
            None => {
                return Err(LoweringError::MissingOperand);
            },
        };
        if self.locals_counter == usize::MAX {
            return Err(LoweringError::CounterOverflow);
        }
        let locals_id = self.locals_counter;
        self.locals_counter += 1;
        match binary.op {
            Token::PLUS => {
                match (&l, &r) {
                    (IRValue::INT(lhs_value), IRValue::INT(rhs_value)) => {
                        if self.compiler_options.optimization > 0 {
                            return match lhs_value.checked_add(*rhs_value) {
                                Some(sum) => Ok((None, Some(IRValue::INT(sum)))),
                                None => Err(LoweringError::ArithmeticOverflow),
                            };
                        }
                    },
                    _ => {},
                }
                let name = counter_text(locals_id);
                let target = counter_text(locals_id);
                self.write_instruction_to_block(Instruction::ADD(name, l, r), current_block);
                Ok((None, Some(IRValue::REF(Ref { value: target }))))
            },
            _ => Err(LoweringError::UnsupportedOperator),
        }
    }

    fn gen_num(&mut self, num: &Number, current_block: &mut Vec<Instruction>) -> (r: Result<
        (Option<Instruction>, Option<IRValue>),
        LoweringError,
    >)
        ensures
            final(self).compiler_options == old(self).compiler_options,
            final(self).outcome(final(current_block), r) == lower(
                ParsedAST::NUMBER(*num)@,
                old(self).state(),
                instrs_view(old(current_block)@),
                old(self).compiler_options@,
            ),
    {
        proof {
            reveal_with_fuel(ast_model, 2);
        }
        if self.counter == usize::MAX {
            return Err(LoweringError::CounterOverflow);
        }
        self.counter += 1;
        match num {
            Number::INTEGER(i) => Ok((None, Some(IRValue::INT(*i)))),
            Number::FLOAT(f) => Ok((None, Some(IRValue::FLOAT(*f)))),
        }
    }

    fn gen_string(&mut self, s: &String, current_block: &mut Vec<Instruction>) -> (r: Result<
        (Option<Instruction>, Option<IRValue>),
        LoweringError,
    >)
        ensures
            final(self).compiler_options == old(self).compiler_options,
            final(self).outcome(final(current_block), r) == lower(
                ParsedAST::STRING(*s)@,
                old(self).state(),
                instrs_view(old(current_block)@),
                old(self).compiler_options@,
            ),
    {
        proof {
            reveal_with_fuel(ast_model, 2);
        }
        Ok((None, Some(IRValue::STRING(s.clone()))))
    }

    fn gen_decl(&mut self, decl: &Decl, current_block: &mut Vec<Instruction>) -> (r: Result<
        (Option<Instruction>, Option<IRValue>),
        LoweringError,
    >)
        ensures
            final(self).compiler_options == old(self).compiler_options,
            final(self).outcome(final(current_block), r) == lower(
                ParsedAST::DECL(*decl)@,
                old(self).state(),
                instrs_view(old(current_block)@),
                old(self).compiler_options@,
            ),
        decreases decl, 0nat,
    {
        proof {
            reveal_with_fuel(ast_model, 2);
        }
        match &decl.typ {
            Some(Type::STRUCT(name)) => {
                self.write_instruction_to_block(
                    Instruction::STACK_VAR(
                        decl.identifier.clone(),
                        Type::STRUCT(name.clone()),
                        None,
                    ),
                    current_block,
                );
                Ok((None, None))
            },
            Some(Type::TYPE) => {
                match &decl.value {
                    Some(value) => {
                        match self.gen_ast(value, current_block) {
                            Ok(_) => {},
                            Err(e) => {
                                return Err(e);
                            },
                        }
                    },
                    None => {},
                }
                let mut fields: Vec<IRValue> = Vec::new();
                fields.push(IRValue::INT(123));
                assert(values_view(fields@) =~= seq![ValueModel::INT(123)]);
                self.write_instruction_to_block(
                    Instruction::STACK_VAR(
                        decl.identifier.clone(),
                        Type::STRUCT(String::from_str("Runtime_Type")),
                        Some(IRValue::STRUCT(fields)),
                    ),
                    current_block,
                );
                Ok((None, None))
            },
            _ => {
                let mut instruction_data: Option<IRValue> = None;
                match &decl.value {
                    Some(value) => {
                        match self.gen_ast(value, current_block) {
                            Ok((_, data)) => {
                                instruction_data = data;
                            },
                            Err(e) => {
                                return Err(e);
                            },
                        }
                    },
                    None => {},
                }
                if self.counter == usize::MAX {
                    return Err(LoweringError::CounterOverflow);
                }
                self.counter += 1;
                self.write_instruction_to_block(
                    Instruction::STACK_VAR(decl.identifier.clone(), Type::I32, instruction_data),
                    current_block,
                );
                Ok((None, None))
            },
        }
    }

    fn gen_block(&mut self, block: &Block, current_block: &mut Vec<Instruction>) -> (r: Result<
        (Option<Instruction>, Option<IRValue>),
        LoweringError,
    >)
        ensures
            final(self).compiler_options == old(self).compiler_options,
            final(self).outcome(final(current_block), r) == lower(
                ParsedAST::BLOCK(*block)@,
                old(self).state(),
                instrs_view(old(current_block)@),
                old(self).compiler_options@,
            ),
        decreases block, 0nat,
    {
        proof {
            reveal_with_fuel(ast_model, 2);
        }
        if self.block_counter == usize::MAX {
            return Err(LoweringError::CounterOverflow);
        }
        let block_id = self.block_counter;
        self.block_counter += 1;
        let mut new_block_instructions: Vec<Instruction> = Vec::new();
        assert(instrs_view(new_block_instructions@) =~= Seq::<InstrModel>::empty());
        match self.gen_items(&block.body, &mut new_block_instructions) {
            Ok(_) => {},
            Err(e) => {
                return Err(e);
            },
        }
        let mut name = counter_text(block_id);
        name.append("_block");
        let new_block = Instruction::BLOCK(name, Box::new(new_block_instructions));
        Ok((Some(new_block), None))
    }

    /// Lowers the evaluate-now operator: its operand is lowered and run on
    /// its own, and only the value of the run comes back.
    pub fn gen_left_unary(
        &mut self,
        left_unary: &LeftUnary,
        current_block: &mut Vec<Instruction>,
    ) -> (r: Result<(Option<Instruction>, Option<IRValue>), LoweringError>)
        ensures
            final(self).compiler_options == old(self).compiler_options,
            final(self).outcome(final(current_block), r) == lower(
                ParsedAST::LEFT_UNARY(*left_unary)@,
                old(self).state(),
                instrs_view(old(current_block)@),
                old(self).compiler_options@,
            ),
            instrs_view(final(current_block)@) == instrs_view(old(current_block)@),
            r matches Ok((instruction, _)) ==> instruction is None,
            evaluated_alone(
                operand_model(*left_unary),
                old(self).state(),
                old(self).compiler_options@,
                produced_view(r),
            ),
        decreases left_unary, 0nat,
    {
        proof {
            reveal_with_fuel(ast_model, 2);
        }
        match left_unary {
            LeftUnary::COMP(expr) => {
                let mut comptime_block: Vec<Instruction> = Vec::new();
                assert(instrs_view(comptime_block@) =~= Seq::<InstrModel>::empty());
                match self.gen_ast(expr, &mut comptime_block) {
                    Ok(_) => {},
                    Err(e) => {
                        return Err(e);
                    },
                }
                let comptime_instruction = Instruction::PROGRAM(Box::new(comptime_block));
                let mut ir_executor = IRInterpreter::new(self.compiler_options);
                let result = ir_executor.execute(&comptime_instruction);
                self.take_lines(&ir_executor.output);
                match result {
                    Ok(v) => Ok((None, v)),
                    Err(e) => Err(LoweringError::Comptime(e)),
                }
            },
        }
    }

    fn take_lines(&mut self, lines: &Vec<Emitted>)
        ensures
            final(self).compiler_options == old(self).compiler_options,
            final(self).state() == emit_all(old(self).state(), emitted_view(lines@)),
    {
        let mut i: usize = 0;
        while i < lines.len()
            invariant
                i <= lines.len(),
                self.compiler_options == old(self).compiler_options,
                self.counter == old(self).counter,
                self.lambda_counter == old(self).lambda_counter,
                self.block_counter == old(self).block_counter,
                self.locals_counter == old(self).locals_counter,
                self.type_counter == old(self).type_counter,
                emitted_view(self.output@) == emitted_view(old(self).output@) + emitted_view(
                    lines@,
                ).take(i as int),
            decreases lines.len() - i,
        {
            let line = lines[i].clone();
            proof {
                let all = emitted_view(lines@);
                assert(all.take(i + 1) =~= all.take(i as int).push(all[i as int]));
                assert(emitted_view(self.output@.push(line)) =~= emitted_view(self.output@).push(
                    line@,
                ));
            }
            self.output.push(line);
            i += 1;
        }
        assert(emitted_view(lines@).take(i as int) =~= emitted_view(lines@));
    }

    fn gen_type(&mut self, typ: &Typ, current_block: &mut Vec<Instruction>) -> (r: Result<
        (Option<Instruction>, Option<IRValue>),
        LoweringError,
    >)
        ensures
            final(self).compiler_options == old(self).compiler_options,
            final(self).outcome(final(current_block), r) == lower(
                ParsedAST::TYPE(*typ)@,
                old(self).state(),
                instrs_view(old(current_block)@),
                old(self).compiler_options@,
            ),
    {
        proof {
            reveal_with_fuel(ast_model, 2);
        }
        if self.type_counter == usize::MAX {
            return Err(LoweringError::CounterOverflow);
        }
        let mut types: Vec<Type> = Vec::new();
        let mut i: usize = 0;
        while i < typ.fields.len()
            invariant
                i <= typ.fields.len(),
                types.len() == i,
                forall|j: int| 0 <= j < i ==> types[j]@ == typ.fields[j].typ@,
            decreases typ.fields.len() - i,
        {
            types.push(typ.fields[i].typ.clone());
            i += 1;
        }
        assert(types_view(types@) =~= field_types(fields_view(typ.fields@)));
        let mut name = counter_text(self.type_counter);
        name.append("_anon_type");
        let mut target = counter_text(self.type_counter);
        target.append("_anon_type");
        self.type_counter += 1;
        let type_instruction = Instruction::TYPE(name, types);
        self.write_instruction_to_block(type_instruction, current_block);
        Ok((None, Some(IRValue::REF(Ref { value: target }))))
    }

    #[verifier::loop_isolation(false)]
    fn gen_func(&mut self, func: &Fun, current_block: &mut Vec<Instruction>) -> (r: Result<
        (Option<Instruction>, Option<IRValue>),
        LoweringError,
    >)
        ensures
            final(self).compiler_options == old(self).compiler_options,
            final(self).outcome(final(current_block), r) == lower(
                ParsedAST::FN(*func)@,
                old(self).state(),
                instrs_view(old(current_block)@),
                old(self).compiler_options@,
            ),
        decreases func, 0nat,
    {
        proof {
            reveal_with_fuel(ast_model, 2);
        }
        let name = match &func.identifier {
            Some(identifier) => identifier.clone(),
            None => {
                if self.lambda_counter == usize::MAX {
                    return Err(LoweringError::CounterOverflow);
                }
                let mut lambda = counter_text(self.lambda_counter);
                lambda.append("_lambda");
                self.lambda_counter += 1;
                lambda
            },
        };
        let i = match self.gen_ast(&func.body, current_block) {
            Ok((i, _)) => i,
            Err(e) => {
                return Err(e);
            },
        };
        let ghost decls = decls_view(func.params@);
        let mut params: Vec<Type> = Vec::new();
        let mut k: usize = 0;
        while k < func.params.len()
            invariant
                k <= func.params.len(),
                params.len() == k,
                decls == decls_view(func.params@),
                forall|j: int| 0 <= j < k ==> (#[trigger] decls[j]).typ == Some(params[j]@),
            decreases func.params.len() - k,
        {
            assert(decls[k as int] == func.params[k as int]@);
            match &func.params[k].typ {
                Some(t) => {
                    params.push(t.clone());
                },
                None => {
                    assert(param_types(decls) is None);
                    return Err(LoweringError::MissingParameterType);
                },
            }
            k += 1;
        }
        proof {
            assert(decls.len() == func.params.len());
            assert(param_types(decls) is Some);
            assert(types_view(params@) =~= param_types(decls)->0);
        }
        match i {
            Some(body) => Ok((Some(Instruction::FUNC(name, params, Box::new(body))), None)),
            None => Err(LoweringError::MissingBody),
        }
    }

    fn gen_assign(&mut self, assign: &Assign, current_block: &mut Vec<Instruction>) -> (r: Result<
        (Option<Instruction>, Option<IRValue>),
        LoweringError,
    >)
        ensures
            final(self).compiler_options == old(self).compiler_options,
            final(self).outcome(final(current_block), r) == lower(
                ParsedAST::ASSIGN(*assign)@,
                old(self).state(),
                instrs_view(old(current_block)@),
                old(self).compiler_options@,
            ),
        decreases assign, 0nat,
    {
        proof {
            reveal_with_fuel(ast_model, 2);
        }
        match &*assign.lhs {
            ParsedAST::IDENTIFIER(i) => {
                let value = match self.gen_ast(&assign.rhs, current_block) {
                    Ok((_, value)) => value,
                    Err(e) => {
                        return Err(e);
                    },
                };
                match value {
                    Some(v) => {
                        self.write_instruction_to_block(
                            Instruction::STORE(Ref { value: i.clone() }, v),
                            current_block,
                        );
                        Ok((None, None))
                    },
                    None => Err(LoweringError::MissingValue),
                }
            },
            _ => Err(LoweringError::InvalidAssignmentTarget),
        }
    }

    #[verifier::loop_isolation(false)]
    fn gen_call(&mut self, call: &Call, current_block: &mut Vec<Instruction>) -> (r: Result<
        (Option<Instruction>, Option<IRValue>),
        LoweringError,
    >)
        ensures
            final(self).compiler_options == old(self).compiler_options,
            final(self).outcome(final(current_block), r) == lower(
                ParsedAST::CALL(*call)@,
                old(self).state(),
                instrs_view(old(current_block)@),
                old(self).compiler_options@,
            ),
        decreases call, 0nat,
    {
        proof {
            reveal_with_fuel(ast_model, 2);
        }
        let f = match &*call.callee {
            ParsedAST::IDENTIFIER(i) => i.clone(),
            _ => {
                return Err(LoweringError::UnsupportedCallee);
            },
        };
        if self.locals_counter == usize::MAX {
            return Err(LoweringError::CounterOverflow);
        }
        let locals_id = self.locals_counter;
        self.locals_counter += 1;
        let ghost models = asts_view(call.args@);
        let ghost opts = self.compiler_options@;
        let ghost whole = lower_args(
            models,
            0,
            self.state(),
            instrs_view(current_block@),
            Seq::empty(),
            opts,
        );
        let mut args: Vec<IRValue> = Vec::new();
        assert(values_view(args@) =~= Seq::<ValueModel>::empty());
        let mut k: usize = 0;
        while k < call.args.len()
            invariant
                k <= call.args.len(),
                models == asts_view(call.args@),
                opts == self.compiler_options@,
                self.compiler_options == old(self).compiler_options,
                lower_args(
                    models,
                    k as int,
                    self.state(),
                    instrs_view(current_block@),
                    values_view(args@),
                    opts,
                ) == whole,
            decreases call.args.len() - k,
        {
            let ghost before = self.state();
            let ghost block_before = instrs_view(current_block@);
            let ghost values_before = values_view(args@);
            let step = self.gen_ast(&call.args[k], current_block);
            proof {
                assert(models.len() == call.args.len());
                assert(models[k as int] == call.args[k as int]@);
                let r = lower(models[k as int], before, block_before, opts);
                assert(lower_args(models, k as int, before, block_before, values_before, opts)
                    == match r.result {
                    Err(e) => LoweredArgs { state: r.state, block: r.block, result: Err(e) },
                    Ok((_, None)) => LoweredArgs {
                        state: r.state,
                        block: r.block,
                        result: Err(LoweringError::MissingValue),
                    },
                    Ok((_, Some(v))) => lower_args(
                        models,
                        k + 1,
                        r.state,
                        r.block,
                        values_before.push(v),
                        opts,
                    ),
                });
            }
            match step {
                Err(e) => {
                    return Err(e);
                },
                Ok((_, val)) => match val {
                    Some(v) => {
                        push_value(&mut args, v);
                    },
                    None => {
                        return Err(LoweringError::MissingValue);
                    },
                },
            }
            k += 1;
        }
        let name = counter_text(locals_id);
        let target = counter_text(locals_id);
        self.write_instruction_to_block(Instruction::CALL(name, f, args), current_block);
        Ok((None, Some(IRValue::REF(Ref { value: target }))))
    }

    fn gen_if(&mut self, iff: &If, current_block: &mut Vec<Instruction>) -> (r: Result<
        (Option<Instruction>, Option<IRValue>),
        LoweringError,
    >)
        ensures
            final(self).compiler_options == old(self).compiler_options,
            final(self).outcome(final(current_block), r) == lower(
                ParsedAST::IF(*iff)@,
                old(self).state(),
                instrs_view(old(current_block)@),
                old(self).compiler_options@,
            ),
        decreases iff, 0nat,
    {
        proof {
            reveal_with_fuel(ast_model, 2);
        }
        let condition_data = match self.gen_ast(&iff.condition, current_block) {
            Ok((_, v)) => v,
            Err(e) => {
                return Err(e);
            },
        };
        let condition_data_unwrapped = match condition_data {
            Some(c) => c,
            None => {
                return Err(LoweringError::MissingCondition);
            },
        };
        let body_instruction = match self.gen_ast(&iff.body, current_block) {
            Ok((i, _)) => i,
            Err(e) => {
                return Err(e);
            },
        };
        let body_instruction_unwrapped = match body_instruction {
            Some(i) => i,
            None => {
                return Err(LoweringError::MissingBody);
            },
        };
        match &iff.else_body {
            Some(else_body) => {
                let else_body_instruction = match self.gen_ast(else_body, current_block) {
                    Ok((i, _)) => i,
                    Err(e) => {
                        return Err(e);
                    },
                };
                match else_body_instruction {
                    Some(e) => Ok(
                        (
                            Some(
                                Instruction::COND_BR(
                                    condition_data_unwrapped,
                                    Box::new(body_instruction_unwrapped),
                                    Some(Box::new(e)),
                                ),
                            ),
                            None,
                        ),
                    ),
                    None => Err(LoweringError::MissingBody),
                }
            },
            None => Ok(
                (
                    Some(
                        Instruction::COND_BR(
                            condition_data_unwrapped,
                            Box::new(body_instruction_unwrapped),
                            None,
                        ),
                    ),
                    None,
                ),
            ),
        }
    }

    fn gen_identifier(&mut self, identifier: &String, current_block: &mut Vec<Instruction>) -> (r:
        Result<(Option<Instruction>, Option<IRValue>), LoweringError>)
        ensures
            final(self).compiler_options == old(self).compiler_options,
            final(self).outcome(final(current_block), r) == lower(
                ParsedAST::IDENTIFIER(*identifier)@,
                old(self).state(),
                instrs_view(old(current_block)@),
                old(self).compiler_options@,
            ),
    {
        proof {
            reveal_with_fuel(ast_model, 2);
        }
        if self.locals_counter == usize::MAX {
            return Err(LoweringError::CounterOverflow);
        }
        self.locals_counter += 1;
        if self.counter == usize::MAX {
            return Err(LoweringError::CounterOverflow);
        }
        self.counter += 1;
        Ok((None, Some(IRValue::REF(Ref { value: identifier.clone() }))))
    }
}

} // verus!
