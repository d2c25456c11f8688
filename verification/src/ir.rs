use crate::number::FloatBits;
use crate::types::{clone_types, types_view, Type, TypeModel};
use vstd::prelude::*;

verus! {

/// A named slot. Where the slot lives (a register, the stack) is left to
/// whoever consumes the instructions.
#[derive(Debug, PartialEq, Eq)]
pub struct Ref {
    pub value: String,
}

/// A value that an instruction operates on: an immediate, or a reference to
/// a slot that an earlier instruction produced.
#[derive(Debug, PartialEq, Eq)]
pub enum IRValue {
    REF(Ref),
    INT(i32),
    FLOAT(FloatBits),
    STRING(String),
    STRUCT(Vec<IRValue>),
    /// A builtin function, by its name.
    INTRINSIC(String),
}

/// One instruction of the intermediate representation.
#[derive(Debug, PartialEq, Eq)]
pub enum Instruction {
    NONE,
    /// The root: an ordered list of instructions.
    PROGRAM(Box<Vec<Instruction>>),
    /// A named, nested list of instructions.
    BLOCK(String, Box<Vec<Instruction>>),
    /// Integer addition into a new slot.
    ADD(String, IRValue, IRValue),
    /// Integer subtraction into a new slot.
    SUB(String, IRValue, IRValue),
    /// Copies the value found at a slot into a new slot.
    LOAD(String, Ref),
    /// Stores a value into an existing slot.
    STORE(Ref, IRValue),
    /// Declares a local slot with a type and, optionally, a first value.
    STACK_VAR(String, Type, Option<IRValue>),
    /// Conditional branch: the condition, what runs when it holds, and what
    /// runs otherwise.
    COND_BR(IRValue, Box<Instruction>, Option<Box<Instruction>>),
    /// Calls the named callee with arguments; the first name is the result's slot.
    CALL(String, String, Vec<IRValue>),
    /// Function definition: name, parameter types, body.
    FUNC(String, Vec<Type>, Box<Instruction>),
    /// Type declaration: name and field types in order.
    TYPE(String, Vec<Type>),
}

/// Mathematical model of an [`IRValue`].
pub enum ValueModel {
    REF(Seq<char>),
    INT(i32),
    FLOAT(FloatBits),
    STRING(Seq<char>),
    STRUCT(Seq<ValueModel>),
    INTRINSIC(Seq<char>),
}

/// Mathematical model of an [`Instruction`].
pub enum InstrModel {
    NONE,
    PROGRAM(Seq<InstrModel>),
    BLOCK(Seq<char>, Seq<InstrModel>),
    ADD(Seq<char>, ValueModel, ValueModel),
    SUB(Seq<char>, ValueModel, ValueModel),
    LOAD(Seq<char>, Seq<char>),
    STORE(Seq<char>, ValueModel),
    STACK_VAR(Seq<char>, TypeModel, Option<ValueModel>),
    COND_BR(ValueModel, Box<InstrModel>, Option<Box<InstrModel>>),
    CALL(Seq<char>, Seq<char>, Seq<ValueModel>),
    FUNC(Seq<char>, Seq<TypeModel>, Box<InstrModel>),
    TYPE(Seq<char>, Seq<TypeModel>),
}

impl View for Ref {
    type V = Seq<char>;

    open spec fn view(&self) -> Seq<char> {
        self.value@
    }
}

/// Model of a value.
pub open spec fn value_model(v: IRValue) -> ValueModel
    decreases v,
{
    match v {
        IRValue::REF(r) => ValueModel::REF(r.value@),
        IRValue::INT(i) => ValueModel::INT(i),
        IRValue::FLOAT(f) => ValueModel::FLOAT(f),
        IRValue::STRING(s) => ValueModel::STRING(s@),
        IRValue::STRUCT(items) => ValueModel::STRUCT(values_view(items@)),
        IRValue::INTRINSIC(name) => ValueModel::INTRINSIC(name@),
    }
}

/// Models of a sequence of values, element by element.
pub open spec fn values_view(values: Seq<IRValue>) -> Seq<ValueModel>
    decreases values,
{
    Seq::new(
        values.len(),
        |i: int|
            if 0 <= i < values.len() {
                value_model(values[i])
            } else {
                ValueModel::INT(0)
            },
    )
}

impl View for IRValue {
    type V = ValueModel;

    open spec fn view(&self) -> ValueModel {
        value_model(*self)
    }
}

/// Model of an optional value.
pub open spec fn opt_value_view(v: Option<IRValue>) -> Option<ValueModel> {
    match v {
        Some(v) => Some(v@),
        None => None,
    }
}

/// Model of an instruction.
pub open spec fn instr_model(i: Instruction) -> InstrModel
    decreases i,
{
    match i {
        Instruction::NONE => InstrModel::NONE,
        Instruction::PROGRAM(items) => InstrModel::PROGRAM(instrs_view(items@)),
        Instruction::BLOCK(name, items) => InstrModel::BLOCK(name@, instrs_view(items@)),
        Instruction::ADD(name, l, r) => InstrModel::ADD(name@, l@, r@),
        Instruction::SUB(name, l, r) => InstrModel::SUB(name@, l@, r@),
        Instruction::LOAD(name, source) => InstrModel::LOAD(name@, source@),
        Instruction::STORE(target, v) => InstrModel::STORE(target@, v@),
        Instruction::STACK_VAR(name, t, v) => InstrModel::STACK_VAR(name@, t@, opt_value_view(v)),
        Instruction::COND_BR(c, body, else_body) => InstrModel::COND_BR(
            c@,
            Box::new(instr_model(*body)),
            match else_body {
                Some(e) => Some(Box::new(instr_model(*e))),
                None => None,
            },
        ),
        Instruction::CALL(name, callee, args) => InstrModel::CALL(
            name@,
            callee@,
            values_view(args@),
        ),
        Instruction::FUNC(name, params, body) => InstrModel::FUNC(
            name@,
            types_view(params@),
            Box::new(instr_model(*body)),
        ),
        Instruction::TYPE(name, fields) => InstrModel::TYPE(name@, types_view(fields@)),
    }
}

/// Models of a sequence of instructions, element by element.
pub open spec fn instrs_view(items: Seq<Instruction>) -> Seq<InstrModel>
    decreases items,
{
    Seq::new(
        items.len(),
        |i: int|
            if 0 <= i < items.len() {
                instr_model(items[i])
            } else {
                InstrModel::NONE
            },
    )
}

impl View for Instruction {
    type V = InstrModel;

    open spec fn view(&self) -> InstrModel {
        instr_model(*self)
    }
}

/// Model of an optional instruction.
pub open spec fn opt_instr_view(i: Option<Instruction>) -> Option<InstrModel> {
    match i {
        Some(i) => Some(i@),
        None => None,
    }
}

impl Clone for Ref {
    fn clone(&self) -> (r: Ref)
        ensures
            r@ == self@,
    {
        Ref { value: self.value.clone() }
    }
}

impl Clone for IRValue {
    #[verifier::loop_isolation(false)]
    fn clone(&self) -> (r: IRValue)
        ensures
            r@ == self@,
        decreases self,
    {
        match self {
            IRValue::REF(r) => IRValue::REF(r.clone()),
            IRValue::INT(i) => IRValue::INT(*i),
            IRValue::FLOAT(f) => IRValue::FLOAT(*f),
            IRValue::STRING(s) => IRValue::STRING(s.clone()),
            IRValue::STRUCT(items) => {
                let mut copy: Vec<IRValue> = Vec::new();
                let mut i: usize = 0;
                while i < items.len()
                    invariant
                        i <= items.len(),
                        copy.len() == i,
                        forall|j: int| 0 <= j < i ==> copy[j]@ == items[j]@,
                    decreases items.len() - i,
                {
                    let item = items[i].clone();
                    copy.push(item);
                    i += 1;
                }
                assert(values_view(copy@) =~= values_view(items@));
                IRValue::STRUCT(copy)
            },
            IRValue::INTRINSIC(name) => IRValue::INTRINSIC(name.clone()),
        }
    }
}

/// Copies a list of values.
pub fn clone_values(values: &Vec<IRValue>) -> (r: Vec<IRValue>)
    ensures
        values_view(r@) == values_view(values@),
{
    let mut copy: Vec<IRValue> = Vec::new();
    let mut i: usize = 0;
    while i < values.len()
        invariant
            i <= values.len(),
            copy.len() == i,
            forall|j: int| 0 <= j < i ==> copy[j]@ == values[j]@,
        decreases values.len() - i,
    {
        copy.push(values[i].clone());
        i += 1;
    }
    assert(values_view(copy@) =~= values_view(values@));
    copy
}

/// Copies an optional value.
pub fn clone_opt_value(v: &Option<IRValue>) -> (r: Option<IRValue>)
    ensures
        opt_value_view(r) == opt_value_view(*v),
{
    match v {
        Some(v) => Some(v.clone()),
        None => None,
    }
}

impl Clone for Instruction {
    #[verifier::loop_isolation(false)]
    fn clone(&self) -> (r: Instruction)
        ensures
            r@ == self@,
        decreases self,
    {
        match self {
            Instruction::NONE => Instruction::NONE,
            Instruction::PROGRAM(items) => {
                let mut copy: Vec<Instruction> = Vec::new();
                let mut i: usize = 0;
                while i < items.len()
                    invariant
                        i <= items.len(),
                        copy.len() == i,
                        forall|j: int| 0 <= j < i ==> copy[j]@ == items[j]@,
                    decreases items.len() - i,
                {
                    let item = items[i].clone();
                    copy.push(item);
                    i += 1;
                }
                assert(instrs_view(copy@) =~= instrs_view(items@));
                Instruction::PROGRAM(Box::new(copy))
            },
            Instruction::BLOCK(name, items) => {
                let mut copy: Vec<Instruction> = Vec::new();
                let mut i: usize = 0;
                while i < items.len()
                    invariant
                        i <= items.len(),
                        copy.len() == i,
                        forall|j: int| 0 <= j < i ==> copy[j]@ == items[j]@,
                    decreases items.len() - i,
                {
                    let item = items[i].clone();
                    copy.push(item);
                    i += 1;
                }
                assert(instrs_view(copy@) =~= instrs_view(items@));
                Instruction::BLOCK(name.clone(), Box::new(copy))
            },
            Instruction::ADD(name, l, r) => Instruction::ADD(name.clone(), l.clone(), r.clone()),
            Instruction::SUB(name, l, r) => Instruction::SUB(name.clone(), l.clone(), r.clone()),
            Instruction::LOAD(name, source) => Instruction::LOAD(name.clone(), source.clone()),
            Instruction::STORE(target, v) => Instruction::STORE(target.clone(), v.clone()),
            Instruction::STACK_VAR(name, t, v) => Instruction::STACK_VAR(
                name.clone(),
                t.clone(),
                clone_opt_value(v),
            ),
            Instruction::COND_BR(c, body, else_body) => {
                let else_copy = match else_body {
                    Some(e) => Some(Box::new((**e).clone())),
                    None => None,
                };
                Instruction::COND_BR(c.clone(), Box::new((**body).clone()), else_copy)
            },
            Instruction::CALL(name, callee, args) => Instruction::CALL(
                name.clone(),
                callee.clone(),
                clone_values(args),
            ),
            Instruction::FUNC(name, params, body) => Instruction::FUNC(
                name.clone(),
                clone_types(params),
                Box::new((**body).clone()),
            ),
            Instruction::TYPE(name, fields) => Instruction::TYPE(name.clone(), clone_types(fields)),
        }
    }
}

/// Appends an instruction to a list.
pub fn push_instruction(block: &mut Vec<Instruction>, instruction: Instruction)
    ensures
        instrs_view(final(block)@) == instrs_view(old(block)@).push(instruction@),
{
    block.push(instruction);
    assert(instrs_view(block@) =~= instrs_view(old(block)@).push(instruction@));
}

/// Appends a value to a list.
pub fn push_value(values: &mut Vec<IRValue>, value: IRValue)
    ensures
        values_view(final(values)@) == values_view(old(values)@).push(value@),
{
    values.push(value);
    assert(values_view(values@) =~= values_view(old(values)@).push(value@));
}

} // verus!
