use crate::ir::{
    instrs_view, opt_value_view, values_view, IRValue, InstrModel, Instruction, Ref, ValueModel,
};
use crate::symtable::SymTable;
use crate::text::{counter_text, decimal_nat};
use vstd::prelude::*;
use vstd::string::{StrSliceExecFns, StringExecFns};

verus! {

/// The type of a value that the builder is asked for.
#[derive(Debug, Clone, Copy, PartialEq, Eq, Structural)]
pub enum LlvmType {
    /// A one-bit integer.
    Int1,
    /// A 32-bit integer.
    Int32,
    /// A pointer to bytes.
    BytePointer,
}

/// The type of a function that is added to the module.
#[derive(Debug, Clone, Copy, PartialEq, Eq, Structural)]
pub enum Signature {
    /// No arguments and no result.
    Procedure,
    /// A pointer to bytes as argument and a 32-bit integer as result.
    Print,
}

/// A value that a call to the builder has made, and whether it is the
/// address of a slot rather than the value itself. The value is known by
/// the position of the call that made it in the list of calls.
#[derive(Debug, Clone, Copy, PartialEq, Eq, Structural)]
pub struct LLVMValueBundle {
    pub llvm_value: usize,
    pub is_ref: bool,
}

/// One call to the LLVM builder. Values, functions and basic blocks are
/// named by the position, in the list of calls, of the call that made them.
#[derive(Debug, PartialEq, Eq)]
pub enum LlvmCall {
    /// Adds a function to the module.
    AddFunction { name: String, signature: Signature },
    /// Appends a basic block to a function.
    AppendBlock { function: usize, name: String },
    /// Makes the builder go on at the end of a basic block.
    PositionAtEnd { block: usize },
    /// A 32-bit integer constant.
    ConstInt { number: i32 },
    /// Reads a value of a type through a pointer.
    Load { ty: LlvmType, pointer: usize, name: String },
    /// Writes a value through a pointer.
    Store { value: usize, pointer: usize },
    /// Makes room for a value of a type on the stack.
    Alloca { ty: LlvmType, name: String },
    /// A string as a global of the module.
    GlobalString { text: String, name: String },
    /// The sum of two integers.
    Add { left: usize, right: usize, name: String },
    /// An integer cast to another integer type.
    IntCast { value: usize, ty: LlvmType, name: String },
    /// Whether two integers differ.
    CompareNotEqual { left: usize, right: usize, name: String },
    /// Branches to one of two basic blocks.
    CondBr { condition: usize, then_block: usize, else_block: usize },
    /// Branches to a basic block.
    Br { block: usize },
    /// Calls a function of a type with one argument.
    Call { signature: Signature, callee: usize, argument: usize, name: String },
    /// Returns from the function without a value.
    RetVoid,
}

/// Mathematical model of an [`LlvmCall`].
pub enum CallModel {
    AddFunction { name: Seq<char>, signature: Signature },
    AppendBlock { function: usize, name: Seq<char> },
    PositionAtEnd { block: usize },
    ConstInt { number: i32 },
    Load { ty: LlvmType, pointer: usize, name: Seq<char> },
    Store { value: usize, pointer: usize },
    Alloca { ty: LlvmType, name: Seq<char> },
    GlobalString { text: Seq<char>, name: Seq<char> },
    Add { left: usize, right: usize, name: Seq<char> },
    IntCast { value: usize, ty: LlvmType, name: Seq<char> },
    CompareNotEqual { left: usize, right: usize, name: Seq<char> },
    CondBr { condition: usize, then_block: usize, else_block: usize },
    Br { block: usize },
    Call { signature: Signature, callee: usize, argument: usize, name: Seq<char> },
    RetVoid,
}

impl View for LlvmCall {
    type V = CallModel;

    open spec fn view(&self) -> CallModel {
        match self {
            LlvmCall::AddFunction { name, signature } => CallModel::AddFunction {
                name: name@,
                signature: *signature,
            },
            LlvmCall::AppendBlock { function, name } => CallModel::AppendBlock {
                function: *function,
                name: name@,
            },
            LlvmCall::PositionAtEnd { block } => CallModel::PositionAtEnd { block: *block },
            LlvmCall::ConstInt { number } => CallModel::ConstInt { number: *number },
            LlvmCall::Load { ty, pointer, name } => CallModel::Load {
                ty: *ty,
                pointer: *pointer,
                name: name@,
            },
            LlvmCall::Store { value, pointer } => CallModel::Store {
                value: *value,
                pointer: *pointer,
            },
            LlvmCall::Alloca { ty, name } => CallModel::Alloca { ty: *ty, name: name@ },
            LlvmCall::GlobalString { text, name } => CallModel::GlobalString {
                text: text@,
                name: name@,
            },
            LlvmCall::Add { left, right, name } => CallModel::Add {
                left: *left,
                right: *right,
                name: name@,
            },
            LlvmCall::IntCast { value, ty, name } => CallModel::IntCast {
                value: *value,
                ty: *ty,
                name: name@,
            },
            LlvmCall::CompareNotEqual { left, right, name } => CallModel::CompareNotEqual {
                left: *left,
                right: *right,
                name: name@,
            },
            LlvmCall::CondBr { condition, then_block, else_block } => CallModel::CondBr {
                condition: *condition,
                then_block: *then_block,
                else_block: *else_block,
            },
            LlvmCall::Br { block } => CallModel::Br { block: *block },
            LlvmCall::Call { signature, callee, argument, name } => CallModel::Call {
                signature: *signature,
                callee: *callee,
                argument: *argument,
                name: name@,
            },
            LlvmCall::RetVoid => CallModel::RetVoid,
        }
    }
}

/// Models of a list of calls, element by element.
pub open spec fn calls_view(calls: Seq<LlvmCall>) -> Seq<CallModel> {
    Seq::new(calls.len(), |i: int| calls[i]@)
}

/// Why no calls were planned for an instruction.
#[derive(Debug, Clone, Copy, PartialEq, Eq, Structural)]
pub enum LlvmError {
    /// The instruction is one that the generator does not handle.
    UnsupportedInstruction,
    /// The value is of a kind that has no LLVM value where it stands.
    UnsupportedValue,
    /// A name is used that nothing has bound.
    MissingSymbol,
    /// A local is given a negative integer as its first value.
    NegativeConstant,
    /// A name or a string holds a NUL character, which cannot be handed
    /// to LLVM.
    InteriorNul,
    /// A load, which the generator always rejects once it has found what
    /// to load from.
    LoadRejected,
    /// A call has no argument.
    MissingArgument,
    /// A counter for generated names has run out.
    CounterOverflow,
}

/// What the generator carries along: its counters, what the names of the
/// innermost scope stand for, and the calls planned so far.
pub struct PlanState {
    pub locals: usize,
    pub strings: usize,
    pub blocks: usize,
    pub symbols: Map<Seq<char>, LLVMValueBundle>,
    pub calls: Seq<CallModel>,
}

/// A planned value: the state after planning it, and the position of the
/// call that makes it.
pub struct PlannedValue {
    pub state: PlanState,
    pub value: usize,
}

/// Whether a text holds a NUL character.
pub open spec fn has_nul(s: Seq<char>) -> bool {
    s.contains('\0')
}

/// The position that the next call will take.
pub open spec fn next_handle(st: PlanState) -> usize {
    st.calls.len() as usize
}

/// The state with one more call.
pub open spec fn with_call(st: PlanState, call: CallModel) -> PlanState {
    PlanState { calls: st.calls.push(call), ..st }
}

/// The state with one more binding.
pub open spec fn with_symbol(st: PlanState, name: Seq<char>, bundle: LLVMValueBundle) -> PlanState {
    PlanState { symbols: st.symbols.insert(name, bundle), ..st }
}

/// What a name is bound to.
pub open spec fn symbol(st: PlanState, name: Seq<char>) -> Result<LLVMValueBundle, LlvmError> {
    if st.symbols.contains_key(name) {
        Ok(st.symbols[name])
    } else {
        Err(LlvmError::MissingSymbol)
    }
}

/// Name of the n-th anonymous local.
pub open spec fn local_name(n: nat) -> Seq<char> {
    decimal_nat(n) + "_local"@
}

/// Name of the n-th anonymous string.
pub open spec fn string_name(n: nat) -> Seq<char> {
    decimal_nat(n) + "_anon_string"@
}

/// Name of the n-th basic block that a branch goes to.
pub open spec fn block_name(n: nat) -> Seq<char> {
    decimal_nat(n) + "_block"@
}

/// Name of the n-th basic block where the branches meet again.
pub open spec fn done_name(n: nat) -> Seq<char> {
    decimal_nat(n) + "_done"@
}

/// The LLVM value that stands for an operand: a constant for an integer,
/// and for a reference what its name is bound to, loaded where that is the
/// address of a slot. A reference takes the name of an anonymous local
/// whether it loads or not.
pub open spec fn operand_value(v: ValueModel, st: PlanState) -> Result<PlannedValue, LlvmError> {
    match v {
        ValueModel::INT(i) => Ok(
            PlannedValue {
                state: with_call(st, CallModel::ConstInt { number: i }),
                value: next_handle(st),
            },
        ),
        ValueModel::REF(name) => match symbol(st, name) {
            Err(e) => Err(e),
            Ok(bundle) => if st.locals == usize::MAX {
                Err(LlvmError::CounterOverflow)
            } else {
                let named = PlanState { locals: (st.locals + 1) as usize, ..st };
                if bundle.is_ref {
                    Ok(
                        PlannedValue {
                            state: with_call(
                                named,
                                CallModel::Load {
                                    ty: LlvmType::Int32,
                                    pointer: bundle.llvm_value,
                                    name: local_name(st.locals as nat),
                                },
                            ),
                            value: next_handle(st),
                        },
                    )
                } else {
                    Ok(PlannedValue { state: named, value: bundle.llvm_value })
                }
            },
        },
        _ => Err(LlvmError::UnsupportedValue),
    }
}

/// The calls for an addition: the two operands, the sum under the name of
/// the slot, and the slot bound to the sum.
pub open spec fn plan_add(name: Seq<char>, l: ValueModel, r: ValueModel, st: PlanState) -> Result<
    PlanState,
    LlvmError,
> {
    match operand_value(l, st) {
        Err(e) => Err(e),
        Ok(left) => match operand_value(r, left.state) {
            Err(e) => Err(e),
            Ok(right) => if has_nul(name) {
                Err(LlvmError::InteriorNul)
            } else {
                let sum = next_handle(right.state);
                Ok(
                    with_symbol(
                        with_call(
                            right.state,
                            CallModel::Add { left: left.value, right: right.value, name },
                        ),
                        name,
                        LLVMValueBundle { llvm_value: sum, is_ref: false },
                    ),
                )
            },
        },
    }
}

/// The calls for the declaration of a local. A local that begins as an
/// integer or as a copy of another slot gets room on the stack and is
/// bound to its address; one that begins as a string is bound to a pointer
/// to a global. One without a first value needs no call.
pub open spec fn plan_stack_var(name: Seq<char>, value: Option<ValueModel>, st: PlanState) -> Result<
    PlanState,
    LlvmError,
> {
    if has_nul(name) {
        Err(LlvmError::InteriorNul)
    } else {
        match value {
            None => Ok(st),
            Some(ValueModel::REF(source)) => match symbol(st, source) {
                Err(e) => Err(e),
                Ok(bundle) => {
                    let slot = next_handle(st);
                    let a = with_call(st, CallModel::Alloca { ty: LlvmType::Int32, name });
                    let b = with_call(
                        a,
                        CallModel::Store { value: bundle.llvm_value, pointer: slot },
                    );
                    Ok(with_symbol(b, name, LLVMValueBundle { llvm_value: slot, is_ref: true }))
                },
            },
            Some(ValueModel::INT(i)) => if i < 0 {
                Err(LlvmError::NegativeConstant)
            } else {
                let slot = next_handle(st);
                let a = with_call(st, CallModel::Alloca { ty: LlvmType::Int32, name });
                let constant = next_handle(a);
                let b = with_call(a, CallModel::ConstInt { number: i });
                let c = with_call(b, CallModel::Store { value: constant, pointer: slot });
                Ok(with_symbol(c, name, LLVMValueBundle { llvm_value: slot, is_ref: true }))
            },
            Some(ValueModel::STRING(text)) => if has_nul(text) {
                Err(LlvmError::InteriorNul)
            } else if st.strings == usize::MAX {
                Err(LlvmError::CounterOverflow)
            } else {
                let named = PlanState { strings: (st.strings + 1) as usize, ..st };
                let global = next_handle(named);
                let a = with_call(
                    named,
                    CallModel::GlobalString { text, name: string_name(st.strings as nat) },
                );
                let slot = next_handle(a);
                let b = with_call(
                    a,
                    CallModel::Alloca { ty: LlvmType::BytePointer, name: name + ".0"@ },
                );
                let c = with_call(b, CallModel::Store { value: global, pointer: slot });
                let loaded = next_handle(c);
                let d = with_call(
                    c,
                    CallModel::Load { ty: LlvmType::BytePointer, pointer: slot, name },
                );
                Ok(with_symbol(d, name, LLVMValueBundle { llvm_value: loaded, is_ref: false }))
            },
            Some(_) => Err(LlvmError::UnsupportedValue),
        }
    }
}

/// What a load comes to: it is rejected, whatever it loads from.
pub open spec fn plan_load(name: Seq<char>, source: Seq<char>, st: PlanState) -> Result<
    PlanState,
    LlvmError,
> {
    if has_nul(name) {
        Err(LlvmError::InteriorNul)
    } else {
        match symbol(st, source) {
            Err(e) => Err(e),
            Ok(_) => Err(LlvmError::LoadRejected),
        }
    }
}

/// The calls for a store: the value, and a write through what the slot is
/// bound to.
pub open spec fn plan_store(target: Seq<char>, v: ValueModel, st: PlanState) -> Result<
    PlanState,
    LlvmError,
> {
    match operand_value(v, st) {
        Err(e) => Err(e),
        Ok(value) => match symbol(value.state, target) {
            Err(e) => Err(e),
            Ok(bundle) => Ok(
                with_call(
                    value.state,
                    CallModel::Store { value: value.value, pointer: bundle.llvm_value },
                ),
            ),
        },
    }
}

/// The calls for a call: the callee is called with its first argument,
/// where that is a reference or a string. An integer argument needs no
/// call at all.
pub open spec fn plan_call(callee: Seq<char>, args: Seq<ValueModel>, st: PlanState) -> Result<
    PlanState,
    LlvmError,
> {
    match symbol(st, callee) {
        Err(e) => Err(e),
        Ok(function) => if args.len() == 0 {
            Err(LlvmError::MissingArgument)
        } else {
            match args[0] {
                ValueModel::INT(_) => Ok(st),
                ValueModel::REF(name) => match symbol(st, name) {
                    Err(e) => Err(e),
                    Ok(argument) => Ok(
                        with_call(
                            st,
                            CallModel::Call {
                                signature: Signature::Print,
                                callee: function.llvm_value,
                                argument: argument.llvm_value,
                                name: "call_result"@,
                            },
                        ),
                    ),
                },
                ValueModel::STRING(text) => if has_nul(text) {
                    Err(LlvmError::InteriorNul)
                } else if st.strings == usize::MAX {
                    Err(LlvmError::CounterOverflow)
                } else {
                    let named = PlanState { strings: (st.strings + 1) as usize, ..st };
                    let global = next_handle(named);
                    let a = with_call(
                        named,
                        CallModel::GlobalString { text, name: string_name(st.strings as nat) },
                    );
                    Ok(
                        with_call(
                            a,
                            CallModel::Call {
                                signature: Signature::Print,
                                callee: function.llvm_value,
                                argument: global,
                                name: "call_result"@,
                            },
                        ),
                    )
                },
                _ => Err(LlvmError::UnsupportedValue),
            }
        },
    }
}

/// The calls that turn a condition into one bit: an integer is cast, and
/// what a reference stands for is compared with zero.
pub open spec fn plan_condition(c: ValueModel, st: PlanState) -> Result<PlannedValue, LlvmError> {
    if st.locals == usize::MAX {
        Err(LlvmError::CounterOverflow)
    } else {
        let name = decimal_nat(st.locals as nat);
        let named = PlanState { locals: (st.locals + 1) as usize, ..st };
        match c {
            ValueModel::INT(i) => {
                let constant = next_handle(named);
                let a = with_call(named, CallModel::ConstInt { number: i });
                Ok(
                    PlannedValue {
                        state: with_call(
                            a,
                            CallModel::IntCast { value: constant, ty: LlvmType::Int1, name },
                        ),
                        value: next_handle(a),
                    },
                )
            },
            ValueModel::REF(source) => match symbol(named, source) {
                Err(e) => Err(e),
                Ok(bundle) => if named.locals == usize::MAX {
                    Err(LlvmError::CounterOverflow)
                } else {
                    let load_name = decimal_nat(named.locals as nat);
                    let again = PlanState { locals: (named.locals + 1) as usize, ..named };
                    if bundle.is_ref {
                        let loaded = next_handle(again);
                        let a = with_call(
                            again,
                            CallModel::Load {
                                ty: LlvmType::Int32,
                                pointer: bundle.llvm_value,
                                name: load_name,
                            },
                        );
                        let zero = next_handle(a);
                        let b = with_call(a, CallModel::ConstInt { number: 0 });
                        Ok(
                            PlannedValue {
                                state: with_call(
                                    b,
                                    CallModel::CompareNotEqual { left: loaded, right: zero, name },
                                ),
                                value: next_handle(b),
                            },
                        )
                    } else {
                        let zero = next_handle(again);
                        let a = with_call(again, CallModel::ConstInt { number: 0 });
                        Ok(
                            PlannedValue {
                                state: with_call(
                                    a,
                                    CallModel::CompareNotEqual {
                                        left: bundle.llvm_value,
                                        right: zero,
                                        name,
                                    },
                                ),
                                value: next_handle(a),
                            },
                        )
                    }
                },
            },
            _ => Err(LlvmError::UnsupportedValue),
        }
    }
}

/// The three basic blocks of a branch, in the order in which they are
/// appended to the function: where it goes when the condition holds,
/// where it goes otherwise, and where the two meet again.
pub struct BranchBlocks {
    pub state: PlanState,
    pub then_block: usize,
    pub else_block: usize,
    pub done_block: usize,
}

/// The calls that append the three basic blocks of a branch and branch on
/// the condition.
pub open spec fn plan_branch(condition: usize, function: usize, st: PlanState) -> Result<
    BranchBlocks,
    LlvmError,
> {
    if st.blocks > usize::MAX - 3 {
        Err(LlvmError::CounterOverflow)
    } else {
        let named = PlanState { blocks: (st.blocks + 3) as usize, ..st };
        let then_block = next_handle(named);
        let a = with_call(
            named,
            CallModel::AppendBlock { function, name: block_name(st.blocks as nat) },
        );
        let else_block = next_handle(a);
        let b = with_call(
            a,
            CallModel::AppendBlock { function, name: block_name((st.blocks + 1) as nat) },
        );
        let done_block = next_handle(b);
        let c = with_call(
            b,
            CallModel::AppendBlock { function, name: done_name((st.blocks + 2) as nat) },
        );
        let d = with_call(c, CallModel::CondBr { condition, then_block, else_block });
        Ok(
            BranchBlocks {
                state: with_call(d, CallModel::PositionAtEnd { block: then_block }),
                then_block,
                else_block,
                done_block,
            },
        )
    }
}

/// The calls for an instruction, planned into the basic block and the
/// function that the builder stands in.
pub open spec fn plan(i: InstrModel, st: PlanState, block: usize, function: usize) -> Result<
    PlanState,
    LlvmError,
>
    decreases i,
{
    match i {
        InstrModel::PROGRAM(items) => plan_all(items, 0, st, block, function),
        InstrModel::BLOCK(_, items) => plan_all(items, 0, st, block, function),
        InstrModel::ADD(name, l, r) => plan_add(name, l, r, st),
        InstrModel::STACK_VAR(name, _, value) => plan_stack_var(name, value, st),
        InstrModel::LOAD(name, source) => plan_load(name, source, st),
        InstrModel::CALL(_, callee, args) => plan_call(callee, args, st),
        InstrModel::STORE(target, v) => plan_store(target, v, st),
        InstrModel::FUNC(name, _, body) => if has_nul(name) {
            Err(LlvmError::InteriorNul)
        } else {
            let f = next_handle(st);
            let a = with_call(
                st,
                CallModel::AddFunction { name, signature: Signature::Procedure },
            );
            let entry = next_handle(a);
            let b = with_call(a, CallModel::AppendBlock { function: f, name: "entry"@ });
            let c = with_symbol(b, name, LLVMValueBundle { llvm_value: f, is_ref: false });
            let d = with_call(c, CallModel::PositionAtEnd { block: entry });
            match plan(*body, d, entry, f) {
                Err(e) => Err(e),
                Ok(inner) => Ok(
                    with_call(
                        with_call(inner, CallModel::RetVoid),
                        CallModel::PositionAtEnd { block },
                    ),
                ),
            }
        },
        InstrModel::COND_BR(c, body, else_body) => match plan_condition(c, st) {
            Err(e) => Err(e),
            Ok(condition) => match plan_branch(condition.value, function, condition.state) {
                Err(e) => Err(e),
                Ok(blocks) => match plan(*body, blocks.state, block, function) {
                    Err(e) => Err(e),
                    Ok(then_done) => {
                        let a = with_call(then_done, CallModel::Br { block: blocks.done_block });
                        let b = with_call(
                            a,
                            CallModel::PositionAtEnd { block: blocks.else_block },
                        );
                        let other = match else_body {
                            Some(e) => plan(*e, b, block, function),
                            None => Ok(b),
                        };
                        match other {
                            Err(e) => Err(e),
                            Ok(else_done) => Ok(
                                with_call(
                                    with_call(
                                        else_done,
                                        CallModel::Br { block: blocks.done_block },
                                    ),
                                    CallModel::PositionAtEnd { block: blocks.done_block },
                                ),
                            ),
                        }
                    },
                },
            },
        },
        _ => Err(LlvmError::UnsupportedInstruction),
    }
}

/// The calls for the instructions of a list from position `from` on.
pub open spec fn plan_all(
    items: Seq<InstrModel>,
    from: int,
    st: PlanState,
    block: usize,
    function: usize,
) -> Result<PlanState, LlvmError>
    decreases items, items.len() - from,
{
    if 0 <= from < items.len() {
        match plan(items[from], st, block, function) {
            Err(e) => Err(e),
            Ok(next) => plan_all(items, from + 1, next, block, function),
        }
    } else {
        Ok(st)
    }
}

/// The calls for a whole module: the print function is declared and bound
/// under its name, the main function gets its entry block, the instruction
/// is planned into it, and the main function returns.
pub open spec fn plan_module(i: InstrModel, st: PlanState) -> Result<PlanState, LlvmError> {
    let print = next_handle(st);
    let a = with_call(
        st,
        CallModel::AddFunction { name: "printf"@, signature: Signature::Print },
    );
    let b = with_symbol(a, "printf"@, LLVMValueBundle { llvm_value: print, is_ref: false });
    let main = next_handle(b);
    let c = with_call(b, CallModel::AddFunction { name: "main"@, signature: Signature::Procedure });
    let entry = next_handle(c);
    let d = with_call(c, CallModel::AppendBlock { function: main, name: "entry"@ });
    let e = with_call(d, CallModel::PositionAtEnd { block: entry });
    match plan(i, e, entry, main) {
        Err(e) => Err(e),
        Ok(done) => Ok(with_call(done, CallModel::RetVoid)),
    }
}

/// Whether a text holds a NUL character.
pub fn contains_nul(s: &str) -> (r: bool)
    ensures
        r == has_nul(s@),
{
    let n = s.unicode_len();
    let mut i: usize = 0;
    while i < n
        invariant
            i <= n,
            n == s@.len(),
            forall|j: int| 0 <= j < i ==> s@[j] != '\0',
        decreases n - i,
    {
        if s.get_char(i) == '\0' {
            return true;
        }
        i += 1;
    }
    false
}

fn emit(calls: &mut Vec<LlvmCall>, call: LlvmCall) -> (handle: usize)
    ensures
        handle == old(calls).len(),
        calls_view(final(calls)@) == calls_view(old(calls)@).push(call@),
{
    let handle = calls.len();
    calls.push(call);
    assert(calls_view(calls@) =~= calls_view(old(calls)@).push(call@));
    handle
}

/// Plans the calls to the LLVM builder that generate code for instructions.
pub struct LLVMCodeGenerator {
    /// Next number for the name of an anonymous local.
    pub anon_local_counter: usize,
    /// Next number for the name of an anonymous string.
    pub anon_string_counter: usize,
    /// Next number for the name of a basic block.
    pub anon_local_block_counter: usize,
    pub str_buffer: String,
    /// What each name stands for.
    pub sym_table: SymTable<LLVMValueBundle>,
}

impl LLVMCodeGenerator {
    /// Counters, bindings of the innermost scope and planned calls
    /// together.
    pub open spec fn state(&self, calls: Seq<LlvmCall>) -> PlanState {
        PlanState {
            locals: self.anon_local_counter,
            strings: self.anon_string_counter,
            blocks: self.anon_local_block_counter,
            symbols: self.sym_table.innermost(),
            calls: calls_view(calls),
        }
    }

    /// Whether everything but the counters and the innermost scope is as
    /// in `other`.
    pub open spec fn framed(&self, other: &Self) -> bool {
        &&& self.sym_table.in_range()
        &&& self.sym_table.scope == other.sym_table.scope
        &&& self.sym_table.scopes().len() == other.sym_table.scopes().len()
        &&& forall|i: int|
            0 <= i < self.sym_table.scopes().len() && i != self.sym_table.scope
                ==> #[trigger] self.sym_table.scopes()[i] == other.sym_table.scopes()[i]
        &&& self.str_buffer == other.str_buffer
    }

    /// Whether a step did what the model says.
    pub open spec fn planned(
        &self,
        other: &Self,
        calls: Seq<LlvmCall>,
        r: Result<(), LlvmError>,
        expected: Result<PlanState, LlvmError>,
    ) -> bool {
        match r {
            Ok(_) => expected == Ok::<PlanState, LlvmError>(self.state(calls)) && self.framed(other),
            Err(e) => expected == Err::<PlanState, LlvmError>(e),
        }
    }

    /// Whether a step that makes a value did what the model says.
    pub open spec fn planned_value(
        &self,
        other: &Self,
        calls: Seq<LlvmCall>,
        r: Result<usize, LlvmError>,
        expected: Result<PlannedValue, LlvmError>,
    ) -> bool {
        match r {
            Ok(value) => expected == Ok::<PlannedValue, LlvmError>(
                PlannedValue { state: self.state(calls), value },
            ) && self.framed(other),
            Err(e) => expected == Err::<PlannedValue, LlvmError>(e),
        }
    }

    /// A generator with all counters at zero and nothing bound.
    pub fn new() -> (r: Self)
        ensures
            r.sym_table.wf(),
            r.sym_table.scope == 0,
            r.state(Seq::empty()) == (PlanState {
                locals: 0,
                strings: 0,
                blocks: 0,
                symbols: Map::empty(),
                calls: Seq::empty(),
            }),
    {
        let r = LLVMCodeGenerator {
            anon_local_counter: 0,
            anon_string_counter: 0,
            anon_local_block_counter: 0,
            str_buffer: String::new(),
            sym_table: SymTable::new(),
        };
        assert(calls_view(Seq::<LlvmCall>::empty()) =~= Seq::<CallModel>::empty());
        r
    }

    /// Plans the calls that build a module for an instruction. The calls
    /// come in the order in which they are to be made; a call that uses a
    /// value names it by the position of the call that made it.
    pub fn generate(&mut self, instruction: &Instruction) -> (r: Result<Vec<LlvmCall>, LlvmError>)
        requires
            old(self).sym_table.in_range(),
        ensures
            match r {
                Ok(calls) => plan_module(instruction@, old(self).state(Seq::empty())) == Ok::<
                    PlanState,
                    LlvmError,
                >(final(self).state(calls@)) && final(self).framed(old(self)),
                Err(e) => plan_module(instruction@, old(self).state(Seq::empty())) == Err::<
                    PlanState,
                    LlvmError,
                >(e),
            },
    {
        let mut calls: Vec<LlvmCall> = Vec::new();
        assert(calls_view(calls@) =~= calls_view(Seq::<LlvmCall>::empty()));
        self.generate_builtins(&mut calls);
        let function = emit(
            &mut calls,
            LlvmCall::AddFunction {
                name: String::from_str("main"),
                signature: Signature::Procedure,
            },
        );
        let bb = emit(
            &mut calls,
            LlvmCall::AppendBlock { function, name: String::from_str("entry") },
        );
        emit(&mut calls, LlvmCall::PositionAtEnd { block: bb });
        match self.generate_instruction(instruction, &mut calls, bb, function) {
            Ok(()) => {},
            Err(e) => {
                return Err(e);
            },
        }
        emit(&mut calls, LlvmCall::RetVoid);
        Ok(calls)
    }

    fn bind(&mut self, name: String, bundle: LLVMValueBundle)
        requires
            old(self).sym_table.in_range(),
        ensures
            final(self).framed(old(self)),
            final(self).anon_local_counter == old(self).anon_local_counter,
            final(self).anon_string_counter == old(self).anon_string_counter,
            final(self).anon_local_block_counter == old(self).anon_local_block_counter,
            final(self).sym_table.innermost() == old(self).sym_table.innermost().insert(
                name@,
                bundle,
            ),
    {
        self.sym_table.add(name, bundle);
        assert forall|i: int|
            0 <= i < self.sym_table.scopes().len() && i != self.sym_table.scope implies (
        #[trigger] self.sym_table.scopes()[i]) == old(self).sym_table.scopes()[i] by {}
    }

    fn lookup(&self, name: &String) -> (r: Result<LLVMValueBundle, LlvmError>)
        requires
            self.sym_table.in_range(),
        ensures
            r == (if self.sym_table.innermost().contains_key(name@) {
                Ok::<LLVMValueBundle, LlvmError>(self.sym_table.innermost()[name@])
            } else {
                Err(LlvmError::MissingSymbol)
            }),
    {
        match self.sym_table.get(name.clone()) {
            Some(bundle) => Ok(*bundle),
            None => Err(LlvmError::MissingSymbol),
        }
    }

    /// Declares the print function and binds it under its name.
    fn generate_builtins(&mut self, calls: &mut Vec<LlvmCall>)
        requires
            old(self).sym_table.in_range(),
        ensures
            final(self).framed(old(self)),
            final(self).state(final(calls)@) == with_symbol(
                with_call(
                    old(self).state(old(calls)@),
                    CallModel::AddFunction { name: "printf"@, signature: Signature::Print },
                ),
                "printf"@,
                LLVMValueBundle {
                    llvm_value: next_handle(old(self).state(old(calls)@)),
                    is_ref: false,
                },
            ),
    {
        let function = emit(
            calls,
            LlvmCall::AddFunction { name: String::from_str("printf"), signature: Signature::Print },
        );
        self.bind(
            String::from_str("printf"),
            LLVMValueBundle { llvm_value: function, is_ref: false },
        );
    }

    fn generate_instruction(
        &mut self,
        instruction: &Instruction,
        calls: &mut Vec<LlvmCall>,
        current_block: usize,
        current_function: usize,
    ) -> (r: Result<(), LlvmError>)
        requires
            old(self).sym_table.in_range(),
        ensures
            final(self).planned(
                old(self),
                final(calls)@,
                r,
                plan(
                    instruction@,
                    old(self).state(old(calls)@),
                    current_block,
                    current_function,
                ),
            ),
        decreases instruction, 2nat,
    {
        match instruction {
            Instruction::PROGRAM(instructions) => self.generate_program(
                instructions,
                calls,
                current_block,
                current_function,
            ),
            Instruction::BLOCK(_, instructions) => self.generate_block(
                instructions,
                calls,
                current_block,
                current_function,
            ),
            Instruction::ADD(location, first, second) => self.generate_add(
                location,
                first,
                second,
                calls,
            ),
            Instruction::STACK_VAR(location, _, value) => self.generate_stack_var(
                location,
                value,
                calls,
            ),
            Instruction::LOAD(location, value) => self.generate_load(location, value, calls),
            Instruction::CALL(location, callee, arg) => self.generate_call(
                location,
                callee,
                arg,
                calls,
            ),
            Instruction::STORE(storee, value) => self.generate_store(storee, value, calls),
            Instruction::FUNC(name, _, instruction) => self.generate_func(
                name,
                instruction,
                calls,
                current_block,
            ),
            Instruction::COND_BR(condition, body, else_body) => self.generate_cond_br(
                condition,
                body,
                else_body,
                calls,
                current_block,
                current_function,
            ),
            _ => Err(LlvmError::UnsupportedInstruction),
        }
    }

    /// A copy of a text that can be handed to LLVM: one without a NUL
    /// character.
    fn string_to_c_str(&self, string: &String) -> (r: Result<String, LlvmError>)
        ensures
            match r {
                Ok(c) => !has_nul(string@) && c@ == string@,
                Err(e) => has_nul(string@) && e == LlvmError::InteriorNul,
            },
    {
        if contains_nul(string.as_str()) {
            Err(LlvmError::InteriorNul)
        } else {
            Ok(string.clone())
        }
    }

    fn ir_value_to_llvm_value(&mut self, ir_value: &IRValue, calls: &mut Vec<LlvmCall>) -> (r:
        Result<usize, LlvmError>)
        requires
            old(self).sym_table.in_range(),
        ensures
            final(self).planned_value(
                old(self),
                final(calls)@,
                r,
                operand_value(ir_value@, old(self).state(old(calls)@)),
            ),
    {
        match ir_value {
            IRValue::INT(i) => Ok(emit(calls, LlvmCall::ConstInt { number: *i })),
            IRValue::REF(r) => {
                let value_bundle = match self.lookup(&r.value) {
                    Ok(b) => b,
                    Err(e) => {
                        return Err(e);
                    },
                };
                if self.anon_local_counter == usize::MAX {
                    return Err(LlvmError::CounterOverflow);
                }
                let mut name = counter_text(self.anon_local_counter);
                name.append("_local");
                self.anon_local_counter += 1;
                if value_bundle.is_ref {
                    return Ok(
                        emit(
                            calls,
                            LlvmCall::Load {
                                ty: LlvmType::Int32,
                                pointer: value_bundle.llvm_value,
                                name,
                            },
                        ),
                    );
                }
                Ok(value_bundle.llvm_value)
            },
            _ => Err(LlvmError::UnsupportedValue),
        }
    }

    #[verifier::loop_isolation(false)]
    fn generate_items(
        &mut self,
        instructions: &Vec<Instruction>,
        calls: &mut Vec<LlvmCall>,
        current_block: usize,
        current_function: usize,
    ) -> (r: Result<(), LlvmError>)
        requires
            old(self).sym_table.in_range(),
        ensures
            final(self).planned(
                old(self),
                final(calls)@,
                r,
                plan_all(
                    instrs_view(instructions@),
                    0,
                    old(self).state(old(calls)@),
                    current_block,
                    current_function,
                ),
            ),
        decreases instructions, 0nat,
    {
        let ghost items = instrs_view(instructions@);
        let ghost whole = plan_all(
            items,
            0,
            self.state(calls@),
            current_block,
            current_function,
        );
        let mut i: usize = 0;
        while i < instructions.len()
            invariant
                i <= instructions.len(),
                items == instrs_view(instructions@),
                self.framed(old(self)),
                plan_all(items, i as int, self.state(calls@), current_block, current_function)
                    == whole,
            decreases instructions.len() - i,
        {
            assert(items[i as int] == instructions[i as int]@);
            match self.generate_instruction(
                &instructions[i],
                calls,
                current_block,
                current_function,
            ) {
                Ok(()) => {},
                Err(e) => {
                    return Err(e);
                },
            }
            i += 1;
        }
        Ok(())
    }

    fn generate_program(
        &mut self,
        instructions: &Box<Vec<Instruction>>,
        calls: &mut Vec<LlvmCall>,
        current_block: usize,
        current_function: usize,
    ) -> (r: Result<(), LlvmError>)
        requires
            old(self).sym_table.in_range(),
        ensures
            final(self).planned(
                old(self),
                final(calls)@,
                r,
                plan_all(
                    instrs_view(instructions@),
                    0,
                    old(self).state(old(calls)@),
                    current_block,
                    current_function,
                ),
            ),
        decreases instructions, 1nat,
    {
        self.generate_items(instructions, calls, current_block, current_function)
    }

    fn generate_block(
        &mut self,
        instructions: &Box<Vec<Instruction>>,
        calls: &mut Vec<LlvmCall>,
        current_block: usize,
        current_function: usize,
    ) -> (r: Result<(), LlvmError>)
        requires
            old(self).sym_table.in_range(),
        ensures
            final(self).planned(
                old(self),
                final(calls)@,
                r,
                plan_all(
                    instrs_view(instructions@),
                    0,
                    old(self).state(old(calls)@),
                    current_block,
                    current_function,
                ),
            ),
        decreases instructions, 1nat,
    {
        self.generate_items(instructions, calls, current_block, current_function)
    }

    fn generate_load(&mut self, label: &String, value: &Ref, calls: &mut Vec<LlvmCall>) -> (r:
        Result<(), LlvmError>)
        requires
            old(self).sym_table.in_range(),
        ensures
            final(self).planned(
                old(self),
                final(calls)@,
                r,
                plan_load(label@, value@, old(self).state(old(calls)@)),
            ),
    {
        match self.string_to_c_str(label) {
            Ok(_) => {},
            Err(e) => {
                return Err(e);
            },
        }
        match self.lookup(&value.value) {
            Ok(_) => Err(LlvmError::LoadRejected),
            Err(e) => Err(e),
        }
    }

    /// Plans the calls that turn a condition into one bit.
    fn generate_condition(&mut self, condition: &IRValue, calls: &mut Vec<LlvmCall>) -> (r: Result<
        usize,
        LlvmError,
    >)
        requires
            old(self).sym_table.in_range(),
        ensures
            final(self).planned_value(
                old(self),
                final(calls)@,
                r,
                plan_condition(condition@, old(self).state(old(calls)@)),
            ),
    {
        if self.anon_local_counter == usize::MAX {
            return Err(LlvmError::CounterOverflow);
        }
        let name = counter_text(self.anon_local_counter);
        self.anon_local_counter += 1;
        match condition {
            IRValue::INT(i) => {
                let constant = emit(calls, LlvmCall::ConstInt { number: *i });
                Ok(emit(calls, LlvmCall::IntCast { value: constant, ty: LlvmType::Int1, name }))
            },
            IRValue::REF(r) => {
                let int_val = match self.lookup(&r.value) {
                    Ok(b) => b,
                    Err(e) => {
                        return Err(e);
                    },
                };
                if self.anon_local_counter == usize::MAX {
                    return Err(LlvmError::CounterOverflow);
                }
                let load_name = counter_text(self.anon_local_counter);
                self.anon_local_counter += 1;
                if int_val.is_ref {
                    let load_instr = emit(
                        calls,
                        LlvmCall::Load {
                            ty: LlvmType::Int32,
                            pointer: int_val.llvm_value,
                            name: load_name,
                        },
                    );
                    let zero = emit(calls, LlvmCall::ConstInt { number: 0 });
                    Ok(
                        emit(
                            calls,
                            LlvmCall::CompareNotEqual { left: load_instr, right: zero, name },
                        ),
                    )
                } else {
                    let zero = emit(calls, LlvmCall::ConstInt { number: 0 });
                    Ok(
                        emit(
                            calls,
                            LlvmCall::CompareNotEqual {
                                left: int_val.llvm_value,
                                right: zero,
                                name,
                            },
                        ),
                    )
                }
            },
            _ => Err(LlvmError::UnsupportedValue),
        }
    }

    /// Plans the calls that append the three basic blocks of a branch and
    /// branch on the condition. Hands back the blocks for the other side
    /// and for where the two sides meet.
    fn generate_branch(
        &mut self,
        condition: usize,
        current_function: usize,
        calls: &mut Vec<LlvmCall>,
    ) -> (r: Result<(usize, usize), LlvmError>)
        requires
            old(self).sym_table.in_range(),
        ensures
            match r {
                Ok((else_block, done_block)) => {
                    &&& plan_branch(condition, current_function, old(self).state(old(calls)@))
                        matches Ok(blocks)
                    &&& blocks.state == final(self).state(final(calls)@)
                    &&& blocks.else_block == else_block
                    &&& blocks.done_block == done_block
                    &&& final(self).framed(old(self))
                },
                Err(e) => plan_branch(condition, current_function, old(self).state(old(calls)@))
                    == Err::<BranchBlocks, LlvmError>(e),
            },
    {
        if self.anon_local_block_counter > usize::MAX - 3 {
            return Err(LlvmError::CounterOverflow);
        }
        let mut then_name = counter_text(self.anon_local_block_counter);
        then_name.append("_block");
        let mut else_name = counter_text(self.anon_local_block_counter + 1);
        else_name.append("_block");
        let mut done_name = counter_text(self.anon_local_block_counter + 2);
        done_name.append("_done");
        self.anon_local_block_counter += 3;
        let then_block = emit(
            calls,
            LlvmCall::AppendBlock { function: current_function, name: then_name },
        );
        let else_block = emit(
            calls,
            LlvmCall::AppendBlock { function: current_function, name: else_name },
        );
        let done_block = emit(
            calls,
            LlvmCall::AppendBlock { function: current_function, name: done_name },
        );
        emit(calls, LlvmCall::CondBr { condition, then_block, else_block });
        emit(calls, LlvmCall::PositionAtEnd { block: then_block });
        Ok((else_block, done_block))
    }

    fn generate_cond_br(
        &mut self,
        condition: &IRValue,
        body: &Box<Instruction>,
        else_body: &Option<Box<Instruction>>,
        calls: &mut Vec<LlvmCall>,
        current_block: usize,
        current_function: usize,
    ) -> (r: Result<(), LlvmError>)
        requires
            old(self).sym_table.in_range(),
        ensures
            final(self).planned(
                old(self),
                final(calls)@,
                r,
                plan(
                    InstrModel::COND_BR(
                        condition@,
                        Box::new((**body)@),
                        match *else_body {
                            Some(e) => Some(Box::new((*e)@)),
                            None => None,
                        },
                    ),
                    old(self).state(old(calls)@),
                    current_block,
                    current_function,
                ),
            ),
        decreases Instruction::COND_BR(*condition, *body, *else_body), 1nat,
    {
        proof {
            let parent = Instruction::COND_BR(*condition, *body, *else_body);
            assert(parent->COND_BR_1 == *body);
            assert(parent->COND_BR_2 == *else_body);
            assert(decreases_to!(parent => parent->COND_BR_1));
            assert(decreases_to!(parent => parent->COND_BR_2));
        }
        let cond_value = match self.generate_condition(condition, calls) {
            Ok(v) => v,
            Err(e) => {
                return Err(e);
            },
        };
        let (else_block, done_block) = match self.generate_branch(
            cond_value,
            current_function,
            calls,
        ) {
            Ok(blocks) => blocks,
            Err(e) => {
                return Err(e);
            },
        };
        match self.generate_instruction(body, calls, current_block, current_function) {
            Ok(()) => {},
            Err(e) => {
                return Err(e);
            },
        }
        emit(calls, LlvmCall::Br { block: done_block });
        emit(calls, LlvmCall::PositionAtEnd { block: else_block });
        match else_body {
            Some(else_body_instruction) => {
                match self.generate_instruction(
                    else_body_instruction,
                    calls,
                    current_block,
                    current_function,
                ) {
                    Ok(()) => {},
                    Err(e) => {
                        return Err(e);
                    },
                }
            },
            None => {},
        }
        emit(calls, LlvmCall::Br { block: done_block });
        emit(calls, LlvmCall::PositionAtEnd { block: done_block });
        Ok(())
    }

    fn generate_store(&mut self, storee: &Ref, value: &IRValue, calls: &mut Vec<LlvmCall>) -> (r:
        Result<(), LlvmError>)
        requires
            old(self).sym_table.in_range(),
        ensures
            final(self).planned(
                old(self),
                final(calls)@,
                r,
                plan_store(storee@, value@, old(self).state(old(calls)@)),
            ),
    {
        let llvm_value = match self.ir_value_to_llvm_value(value, calls) {
            Ok(v) => v,
            Err(e) => {
                return Err(e);
            },
        };
        let storee_ptr = match self.lookup(&storee.value) {
            Ok(b) => b,
            Err(e) => {
                return Err(e);
            },
        };
        emit(calls, LlvmCall::Store { value: llvm_value, pointer: storee_ptr.llvm_value });
        Ok(())
    }

    fn generate_func(
        &mut self,
        name: &String,
        instruction: &Instruction,
        calls: &mut Vec<LlvmCall>,
        current_block: usize,
    ) -> (r: Result<(), LlvmError>)
        requires
            old(self).sym_table.in_range(),
        ensures
            final(self).planned(
                old(self),
                final(calls)@,
                r,
                plan(
                    InstrModel::FUNC(name@, Seq::empty(), Box::new(instruction@)),
                    old(self).state(old(calls)@),
                    current_block,
                    current_block,
                ),
            ),
        decreases instruction, 3nat,
    {
        let fn_name = match self.string_to_c_str(name) {
            Ok(c) => c,
            Err(e) => {
                return Err(e);
            },
        };
        let function = emit(
            calls,
            LlvmCall::AddFunction { name: fn_name, signature: Signature::Procedure },
        );
        let bb = emit(
            calls,
            LlvmCall::AppendBlock { function, name: String::from_str("entry") },
        );
        self.bind(name.clone(), LLVMValueBundle { llvm_value: function, is_ref: false });
        emit(calls, LlvmCall::PositionAtEnd { block: bb });
        match self.generate_instruction(instruction, calls, bb, function) {
            Ok(()) => {},
            Err(e) => {
                return Err(e);
            },
        }
        emit(calls, LlvmCall::RetVoid);
        emit(calls, LlvmCall::PositionAtEnd { block: current_block });
        Ok(())
    }

    fn generate_call(
        &mut self,
        label: &String,
        callee: &String,
        args: &Vec<IRValue>,
        calls: &mut Vec<LlvmCall>,
    ) -> (r: Result<(), LlvmError>)
        requires
            old(self).sym_table.in_range(),
        ensures
            final(self).planned(
                old(self),
                final(calls)@,
                r,
                plan_call(callee@, values_view(args@), old(self).state(old(calls)@)),
            ),
    {
        let func_value = match self.lookup(callee) {
            Ok(b) => b.llvm_value,
            Err(e) => {
                return Err(e);
            },
        };
        if args.len() == 0 {
            return Err(LlvmError::MissingArgument);
        }
        assert(values_view(args@)[0] == args[0]@);
        match &args[0] {
            IRValue::INT(_) => Ok(()),
            IRValue::REF(r) => {
                let arg0 = match self.lookup(&r.value) {
                    Ok(b) => b.llvm_value,
                    Err(e) => {
                        return Err(e);
                    },
                };
                emit(
                    calls,
                    LlvmCall::Call {
                        signature: Signature::Print,
                        callee: func_value,
                        argument: arg0,
                        name: String::from_str("call_result"),
                    },
                );
                Ok(())
            },
            IRValue::STRING(s) => {
                let s_value = match self.string_to_c_str(s) {
                    Ok(c) => c,
                    Err(e) => {
                        return Err(e);
                    },
                };
                if self.anon_string_counter == usize::MAX {
                    return Err(LlvmError::CounterOverflow);
                }
                let mut global_label = counter_text(self.anon_string_counter);
                global_label.append("_anon_string");
                let string_value = emit(
                    calls,
                    LlvmCall::GlobalString { text: s_value, name: global_label },
                );
                emit(
                    calls,
                    LlvmCall::Call {
                        signature: Signature::Print,
                        callee: func_value,
                        argument: string_value,
                        name: String::from_str("call_result"),
                    },
                );
                self.anon_string_counter += 1;
                Ok(())
            },
            _ => Err(LlvmError::UnsupportedValue),
        }
    }

    fn generate_stack_var(
        &mut self,
        label: &String,
        value: &Option<IRValue>,
        calls: &mut Vec<LlvmCall>,
    ) -> (r: Result<(), LlvmError>)
        requires
            old(self).sym_table.in_range(),
        ensures
            final(self).planned(
                old(self),
                final(calls)@,
                r,
                plan_stack_var(label@, opt_value_view(*value), old(self).state(old(calls)@)),
            ),
    {
        let c_str = match self.string_to_c_str(label) {
            Ok(c) => c,
            Err(e) => {
                return Err(e);
            },
        };
        match value {
            Some(IRValue::REF(r)) => {
                let initializer_value = match self.lookup(&r.value) {
                    Ok(b) => b.llvm_value,
                    Err(e) => {
                        return Err(e);
                    },
                };
                let alloca_instruction = emit(
                    calls,
                    LlvmCall::Alloca { ty: LlvmType::Int32, name: c_str },
                );
                emit(
                    calls,
                    LlvmCall::Store { value: initializer_value, pointer: alloca_instruction },
                );
                self.bind(
                    label.clone(),
                    LLVMValueBundle { llvm_value: alloca_instruction, is_ref: true },
                );
                Ok(())
            },
            Some(IRValue::INT(i)) => {
                if *i < 0 {
                    return Err(LlvmError::NegativeConstant);
                }
                let alloca_instruction = emit(
                    calls,
                    LlvmCall::Alloca { ty: LlvmType::Int32, name: c_str },
                );
                let constant = emit(calls, LlvmCall::ConstInt { number: *i });
                emit(calls, LlvmCall::Store { value: constant, pointer: alloca_instruction });
                self.bind(
                    label.clone(),
                    LLVMValueBundle { llvm_value: alloca_instruction, is_ref: true },
                );
                Ok(())
            },
            Some(IRValue::STRING(s)) => {
                let text = match self.string_to_c_str(s) {
                    Ok(c) => c,
                    Err(e) => {
                        return Err(e);
                    },
                };
                if self.anon_string_counter == usize::MAX {
                    return Err(LlvmError::CounterOverflow);
                }
                let mut c_str_label = counter_text(self.anon_string_counter);
                c_str_label.append("_anon_string");
                self.anon_string_counter += 1;
                let llvm_string_value = emit(
                    calls,
                    LlvmCall::GlobalString { text, name: c_str_label },
                );
                let mut tmp_name = label.clone();
                tmp_name.append(".0");
                let alloca_instruction = emit(
                    calls,
                    LlvmCall::Alloca { ty: LlvmType::BytePointer, name: tmp_name },
                );
                emit(
                    calls,
                    LlvmCall::Store { value: llvm_string_value, pointer: alloca_instruction },
                );
                let load = emit(
                    calls,
                    LlvmCall::Load {
                        ty: LlvmType::BytePointer,
                        pointer: alloca_instruction,
                        name: c_str,
                    },
                );
                self.bind(label.clone(), LLVMValueBundle { llvm_value: load, is_ref: false });
                Ok(())
            },
            Some(_) => Err(LlvmError::UnsupportedValue),
            None => Ok(()),
        }
    }

    fn generate_add(
        &mut self,
        location: &String,
        first: &IRValue,
        second: &IRValue,
        calls: &mut Vec<LlvmCall>,
    ) -> (r: Result<(), LlvmError>)
        requires
            old(self).sym_table.in_range(),
        ensures
            final(self).planned(
                old(self),
                final(calls)@,
                r,
                plan_add(location@, first@, second@, old(self).state(old(calls)@)),
            ),
    {
        let left = match self.ir_value_to_llvm_value(first, calls) {
            Ok(v) => v,
            Err(e) => {
                return Err(e);
            },
        };
        let right = match self.ir_value_to_llvm_value(second, calls) {
            Ok(v) => v,
            Err(e) => {
                return Err(e);
            },
        };
        let name = match self.string_to_c_str(location) {
            Ok(c) => c,
            Err(e) => {
                return Err(e);
            },
        };
        let add_instr = emit(calls, LlvmCall::Add { left, right, name });
        self.bind(location.clone(), LLVMValueBundle { llvm_value: add_instr, is_ref: false });
        Ok(())
    }
}

} // verus!
