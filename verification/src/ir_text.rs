use crate::ir::{
    instrs_view, opt_value_view, values_view, IRValue, InstrModel, Instruction, Ref, ValueModel,
};
use crate::text::{decimal_int, decimal_nat, int_text, nat_text};
use crate::types::{types_view, Type, TypeModel};
use vstd::prelude::*;
use vstd::string::{StrSliceExecFns, StringExecFns};

verus! {

/// A string as the `Debug` formatter of `str` shows it: in double quotes,
/// with what cannot be shown as it is written as an escape.
pub uninterp spec fn quoted(s: Seq<char>) -> Seq<char>;

/// Formats a string with the `Debug` formatter of `str`. The text depends
/// on the string alone; the contract gives it a name and says nothing more
/// of it.
#[verifier::external_body]
fn debug_quoted(s: &str) -> (r: String)
    ensures
        r@ == quoted(s@),
{
    format!("{:?}", s)
}

/// A run of spaces.
pub open spec fn spaces(n: nat) -> Seq<char> {
    Seq::new(n, |i: int| ' ')
}

/// A text filled up with spaces on the right to a width. A text that is as
/// wide or wider stays as it is.
pub open spec fn padded(s: Seq<char>, width: nat) -> Seq<char> {
    if s.len() >= width {
        s
    } else {
        s + spaces((width - s.len()) as nat)
    }
}

/// Fills a text up with spaces on the right to a width.
pub fn pad_right(text: &str, width: usize) -> (r: String)
    ensures
        r@ == padded(text@, width as nat),
{
    let mut s = String::from_str(text);
    let n = text.unicode_len();
    if n >= width {
        return s;
    }
    let ghost start = s@;
    let mut k: usize = 0;
    assert(start + spaces(0) =~= start);
    while k < width - n
        invariant
            n < width,
            k <= width - n,
            s@ == start + spaces(k as nat),
        decreases width - n - k,
    {
        s.append(" ");
        proof {
            reveal_strlit(" ");
            assert(s@ =~= start + spaces((k + 1) as nat));
        }
        k += 1;
    }
    s
}

/// A type as the `Debug` formatter shows it.
pub open spec fn type_text(t: TypeModel) -> Seq<char>
    decreases t,
{
    match t {
        TypeModel::U32 => "U32"@,
        TypeModel::I32 => "I32"@,
        TypeModel::F32 => "F32"@,
        TypeModel::BOOL => "BOOL"@,
        TypeModel::STRING => "STRING"@,
        TypeModel::SLICE => "SLICE"@,
        TypeModel::FN(args, ret) => "FN(FnPrimative { args: ["@ + types_joined(
            args,
            args.len(),
        ) + "], return_type: "@ + (match ret {
            Some(r) => "Some("@ + type_text(*r) + ")"@,
            None => "None"@,
        }) + " })"@,
        TypeModel::BLOCK => "BLOCK"@,
        TypeModel::TYPE => "TYPE"@,
        TypeModel::STRUCT(name) => "STRUCT("@ + quoted(name) + ")"@,
    }
}

/// The first `n` types of a list, each as the `Debug` formatter shows it,
/// with a comma and a space between two of them.
pub open spec fn types_joined(types: Seq<TypeModel>, n: nat) -> Seq<char>
    decreases types, n,
{
    if n == 0 || n > types.len() {
        Seq::empty()
    } else if n == 1 {
        type_text(types[0])
    } else {
        types_joined(types, (n - 1) as nat) + ", "@ + type_text(types[n - 1])
    }
}

/// A list of types as the `Debug` formatter shows it.
pub open spec fn types_text(types: Seq<TypeModel>) -> Seq<char> {
    "["@ + types_joined(types, types.len()) + "]"@
}

/// A reference as the `Debug` formatter shows it.
pub open spec fn ref_text(name: Seq<char>) -> Seq<char> {
    "Ref { value: "@ + quoted(name) + " }"@
}

/// A value as the `Debug` formatter shows it. A float is shown by its bit
/// pattern.
pub open spec fn value_text(v: ValueModel) -> Seq<char>
    decreases v,
{
    match v {
        ValueModel::REF(name) => "REF("@ + ref_text(name) + ")"@,
        ValueModel::INT(i) => "INT("@ + decimal_int(i as int) + ")"@,
        ValueModel::FLOAT(f) => "FLOAT(FloatBits { bits: "@ + decimal_nat(f.bits as nat) + " })"@,
        ValueModel::STRING(s) => "STRING("@ + quoted(s) + ")"@,
        ValueModel::STRUCT(items) => "STRUCT(["@ + values_joined(items, items.len()) + "])"@,
        ValueModel::INTRINSIC(name) => "INTRINSIC("@ + quoted(name) + ")"@,
    }
}

/// The first `n` values of a list, each as the `Debug` formatter shows it,
/// with a comma and a space between two of them.
pub open spec fn values_joined(values: Seq<ValueModel>, n: nat) -> Seq<char>
    decreases values, n,
{
    if n == 0 || n > values.len() {
        Seq::empty()
    } else if n == 1 {
        value_text(values[0])
    } else {
        values_joined(values, (n - 1) as nat) + ", "@ + value_text(values[n - 1])
    }
}

/// A list of values as the `Debug` formatter shows it.
pub open spec fn values_text(values: Seq<ValueModel>) -> Seq<char> {
    "["@ + values_joined(values, values.len()) + "]"@
}

/// An optional value as the `Debug` formatter shows it.
pub open spec fn opt_value_text(v: Option<ValueModel>) -> Seq<char> {
    match v {
        Some(v) => "Some("@ + value_text(v) + ")"@,
        None => "None"@,
    }
}

/// An instruction as the `Debug` formatter shows it: on one line, with
/// everything it holds.
pub open spec fn instr_debug_text(i: InstrModel) -> Seq<char>
    decreases i,
{
    match i {
        InstrModel::NONE => "NONE"@,
        InstrModel::PROGRAM(items) => "PROGRAM(["@ + instrs_joined(items, items.len()) + "])"@,
        InstrModel::BLOCK(name, items) => "BLOCK("@ + quoted(name) + ", ["@ + instrs_joined(
            items,
            items.len(),
        ) + "])"@,
        InstrModel::ADD(name, l, r) => "ADD("@ + quoted(name) + ", "@ + value_text(l) + ", "@
            + value_text(r) + ")"@,
        InstrModel::SUB(name, l, r) => "SUB("@ + quoted(name) + ", "@ + value_text(l) + ", "@
            + value_text(r) + ")"@,
        InstrModel::LOAD(name, source) => "LOAD("@ + quoted(name) + ", "@ + ref_text(source)
            + ")"@,
        InstrModel::STORE(target, v) => "STORE("@ + ref_text(target) + ", "@ + value_text(v)
            + ")"@,
        InstrModel::STACK_VAR(name, t, v) => "STACK_VAR("@ + quoted(name) + ", "@ + type_text(t)
            + ", "@ + opt_value_text(v) + ")"@,
        InstrModel::COND_BR(c, body, else_body) => "COND_BR("@ + value_text(c) + ", "@
            + instr_debug_text(*body) + ", "@ + (match else_body {
            Some(e) => "Some("@ + instr_debug_text(*e) + ")"@,
            None => "None"@,
        }) + ")"@,
        InstrModel::CALL(name, callee, args) => "CALL("@ + quoted(name) + ", "@ + quoted(callee)
            + ", "@ + values_text(args) + ")"@,
        InstrModel::FUNC(name, params, body) => "FUNC("@ + quoted(name) + ", "@ + types_text(
            params,
        ) + ", "@ + instr_debug_text(*body) + ")"@,
        InstrModel::TYPE(name, fields) => "TYPE("@ + quoted(name) + ", "@ + types_text(fields)
            + ")"@,
    }
}

/// The first `n` instructions of a list, each as the `Debug` formatter
/// shows it, with a comma and a space between two of them.
pub open spec fn instrs_joined(items: Seq<InstrModel>, n: nat) -> Seq<char>
    decreases items, n,
{
    if n == 0 || n > items.len() {
        Seq::empty()
    } else if n == 1 {
        instr_debug_text(items[0])
    } else {
        instrs_joined(items, (n - 1) as nat) + ", "@ + instr_debug_text(items[n - 1])
    }
}

/// The written form of an instruction, as it goes into a listing.
///
/// An instruction that fills a slot begins with the slot's name, filled up
/// to fifteen characters; the mnemonic is filled up to ten. A program is
/// its instructions, each followed by a line end. A block is its label on a
/// line of its own, then its instructions.
pub open spec fn written(i: InstrModel) -> Seq<char>
    decreases i,
{
    match i {
        InstrModel::NONE => "none"@,
        InstrModel::PROGRAM(items) => written_lines(items, items.len()),
        InstrModel::BLOCK(name, items) => "\n"@ + padded(name + ":"@, 15) + "\n"@ + padded(
            written_lines(items, items.len()),
            10,
        ) + "\n"@,
        InstrModel::LOAD(name, source) => padded(name, 15) + " = "@ + padded("load"@, 10) + " "@
            + ref_text(source),
        InstrModel::STORE(target, v) => "         "@ + padded("store"@, 10) + " "@ + ref_text(
            target,
        ) + " "@ + value_text(v),
        InstrModel::STACK_VAR(name, t, v) => padded(name, 15) + " = "@ + padded("stack_var"@, 10)
            + " "@ + type_text(t) + " "@ + opt_value_text(v),
        InstrModel::ADD(name, l, r) => padded(name, 15) + " = "@ + padded("add"@, 10) + " "@
            + value_text(l) + " + "@ + value_text(r),
        InstrModel::SUB(name, l, r) => padded(name, 15) + " = "@ + padded("sub"@, 10) + " "@
            + value_text(l) + " - "@ + value_text(r),
        InstrModel::CALL(name, callee, args) => padded(name, 15) + " = "@ + padded("call"@, 10)
            + " "@ + callee + " args ["@ + values_text(args) + "]"@,
        InstrModel::FUNC(name, params, body) => "def "@ + padded(name, 15) + " = "@ + types_text(
            params,
        ) + " "@ + instr_debug_text(*body),
        InstrModel::TYPE(name, fields) => padded(name, 15) + " = type "@ + types_text(fields),
        InstrModel::COND_BR(c, body, else_body) => padded("if"@, 15) + " "@ + value_text(c)
            + " then "@ + written(*body) + (match else_body {
            Some(e) => " else "@ + written(*e),
            None => Seq::empty(),
        }),
    }
}

/// The written forms of the first `n` instructions of a list, each
/// followed by a line end.
pub open spec fn written_lines(items: Seq<InstrModel>, n: nat) -> Seq<char>
    decreases items, n,
{
    if n == 0 || n > items.len() {
        Seq::empty()
    } else {
        written_lines(items, (n - 1) as nat) + written(items[n - 1]) + "\n"@
    }
}

impl Type {
    /// The type as the `Debug` formatter shows it.
    #[verifier::loop_isolation(false)]
    pub fn debug_string(&self) -> (r: String)
        ensures
            r@ == type_text(self@),
        decreases self, 1nat,
    {
        match self {
            Type::U32 => String::from_str("U32"),
            Type::I32 => String::from_str("I32"),
            Type::F32 => String::from_str("F32"),
            Type::BOOL => String::from_str("BOOL"),
            Type::STRING => String::from_str("STRING"),
            Type::SLICE => String::from_str("SLICE"),
            Type::FN(f) => {
                let mut s = String::from_str("FN(FnPrimative { args: [");
                let args = types_joined_string(&f.args);
                s.append(args.as_str());
                s.append("], return_type: ");
                match &f.return_type {
                    Some(r) => {
                        let mut inner = String::from_str("Some(");
                        let text = r.debug_string();
                        inner.append(text.as_str());
                        inner.append(")");
                        s.append(inner.as_str());
                    },
                    None => {
                        s.append("None");
                    },
                }
                s.append(" })");
                s
            },
            Type::BLOCK => String::from_str("BLOCK"),
            Type::TYPE => String::from_str("TYPE"),
            Type::STRUCT(name) => {
                let mut s = String::from_str("STRUCT(");
                let q = debug_quoted(name.as_str());
                s.append(q.as_str());
                s.append(")");
                s
            },
        }
    }
}

#[verifier::loop_isolation(false)]
fn types_joined_string(types: &Vec<Type>) -> (r: String)
    ensures
        r@ == types_joined(types_view(types@), types.len() as nat),
    decreases types, 0nat,
{
    let ghost models = types_view(types@);
    let mut s = String::new();
    let mut i: usize = 0;
    while i < types.len()
        invariant
            i <= types.len(),
            models == types_view(types@),
            s@ == types_joined(models, i as nat),
        decreases types.len() - i,
    {
        assert(models[i as int] == types[i as int]@);
        let text = types[i].debug_string();
        if i > 0 {
            s.append(", ");
            s.append(text.as_str());
        } else {
            s.append(text.as_str());
            assert(s@ =~= text@);
        }
        i += 1;
    }
    s
}

fn types_string(types: &Vec<Type>) -> (r: String)
    ensures
        r@ == types_text(types_view(types@)),
{
    let mut s = String::from_str("[");
    let inner = types_joined_string(types);
    s.append(inner.as_str());
    s.append("]");
    s
}

impl Ref {
    /// The reference as the `Debug` formatter shows it.
    pub fn debug_string(&self) -> (r: String)
        ensures
            r@ == ref_text(self@),
    {
        let mut s = String::from_str("Ref { value: ");
        let q = debug_quoted(self.value.as_str());
        s.append(q.as_str());
        s.append(" }");
        s
    }
}

impl IRValue {
    /// The value as the `Debug` formatter shows it.
    pub fn debug_string(&self) -> (r: String)
        ensures
            r@ == value_text(self@),
        decreases self, 1nat,
    {
        match self {
            IRValue::REF(r) => {
                let mut s = String::from_str("REF(");
                let inner = r.debug_string();
                s.append(inner.as_str());
                s.append(")");
                s
            },
            IRValue::INT(i) => {
                let mut s = String::from_str("INT(");
                let digits = int_text(*i);
                s.append(digits.as_str());
                s.append(")");
                s
            },
            IRValue::FLOAT(f) => {
                let mut s = String::from_str("FLOAT(FloatBits { bits: ");
                let digits = nat_text(f.bits as u64);
                s.append(digits.as_str());
                s.append(" })");
                s
            },
            IRValue::STRING(text) => {
                let mut s = String::from_str("STRING(");
                let q = debug_quoted(text.as_str());
                s.append(q.as_str());
                s.append(")");
                s
            },
            IRValue::STRUCT(items) => {
                let mut s = String::from_str("STRUCT([");
                let inner = values_joined_string(items);
                s.append(inner.as_str());
                s.append("])");
                s
            },
            IRValue::INTRINSIC(name) => {
                let mut s = String::from_str("INTRINSIC(");
                let q = debug_quoted(name.as_str());
                s.append(q.as_str());
                s.append(")");
                s
            },
        }
    }
}

#[verifier::loop_isolation(false)]
fn values_joined_string(values: &Vec<IRValue>) -> (r: String)
    ensures
        r@ == values_joined(values_view(values@), values.len() as nat),
    decreases values, 0nat,
{
    let ghost models = values_view(values@);
    let mut s = String::new();
    let mut i: usize = 0;
    while i < values.len()
        invariant
            i <= values.len(),
            models == values_view(values@),
            s@ == values_joined(models, i as nat),
        decreases values.len() - i,
    {
        assert(models[i as int] == values[i as int]@);
        let text = values[i].debug_string();
        if i > 0 {
            s.append(", ");
            s.append(text.as_str());
        } else {
            s.append(text.as_str());
            assert(s@ =~= text@);
        }
        i += 1;
    }
    s
}

fn values_string(values: &Vec<IRValue>) -> (r: String)
    ensures
        r@ == values_text(values_view(values@)),
{
    let mut s = String::from_str("[");
    let inner = values_joined_string(values);
    s.append(inner.as_str());
    s.append("]");
    s
}

fn opt_value_string(v: &Option<IRValue>) -> (r: String)
    ensures
        r@ == opt_value_text(opt_value_view(*v)),
{
    match v {
        Some(v) => {
            let mut s = String::from_str("Some(");
            let inner = v.debug_string();
            s.append(inner.as_str());
            s.append(")");
            s
        },
        None => String::from_str("None"),
    }
}

#[verifier::loop_isolation(false)]
fn instrs_joined_string(items: &Vec<Instruction>) -> (r: String)
    ensures
        r@ == instrs_joined(instrs_view(items@), items.len() as nat),
    decreases items, 0nat,
{
    let ghost models = instrs_view(items@);
    let mut s = String::new();
    let mut i: usize = 0;
    while i < items.len()
        invariant
            i <= items.len(),
            models == instrs_view(items@),
            s@ == instrs_joined(models, i as nat),
        decreases items.len() - i,
    {
        assert(models[i as int] == items[i as int]@);
        let text = items[i].debug_string();
        if i > 0 {
            s.append(", ");
            s.append(text.as_str());
        } else {
            s.append(text.as_str());
            assert(s@ =~= text@);
        }
        i += 1;
    }
    s
}

#[verifier::loop_isolation(false)]
fn written_lines_string(items: &Vec<Instruction>) -> (r: String)
    ensures
        r@ == written_lines(instrs_view(items@), items.len() as nat),
    decreases items, 0nat,
{
    let ghost models = instrs_view(items@);
    let mut s = String::new();
    let mut i: usize = 0;
    while i < items.len()
        invariant
            i <= items.len(),
            models == instrs_view(items@),
            s@ == written_lines(models, i as nat),
        decreases items.len() - i,
    {
        assert(models[i as int] == items[i as int]@);
        let text = items[i].to_string_for_writing();
        s.append(text.as_str());
        s.append("\n");
        i += 1;
    }
    s
}

impl Instruction {
    /// The instruction as the `Debug` formatter shows it.
    #[verifier::spinoff_prover]
    pub fn debug_string(&self) -> (r: String)
        ensures
            r@ == instr_debug_text(self@),
        decreases self, 1nat,
    {
        match self {
            Instruction::NONE => String::from_str("NONE"),
            Instruction::PROGRAM(items) => {
                let mut s = String::from_str("PROGRAM([");
                let inner = instrs_joined_string(items);
                s.append(inner.as_str());
                s.append("])");
                s
            },
            Instruction::BLOCK(name, items) => {
                let mut s = String::from_str("BLOCK(");
                let q = debug_quoted(name.as_str());
                s.append(q.as_str());
                s.append(", [");
                let inner = instrs_joined_string(items);
                s.append(inner.as_str());
                s.append("])");
                s
            },
            Instruction::ADD(name, l, r) => {
                let mut s = String::from_str("ADD(");
                let q = debug_quoted(name.as_str());
                s.append(q.as_str());
                s.append(", ");
                let left = l.debug_string();
                s.append(left.as_str());
                s.append(", ");
                let right = r.debug_string();
                s.append(right.as_str());
                s.append(")");
                s
            },
            Instruction::SUB(name, l, r) => {
                let mut s = String::from_str("SUB(");
                let q = debug_quoted(name.as_str());
                s.append(q.as_str());
                s.append(", ");
                let left = l.debug_string();
                s.append(left.as_str());
                s.append(", ");
                let right = r.debug_string();
                s.append(right.as_str());
                s.append(")");
                s
            },
            Instruction::LOAD(name, source) => {
                let mut s = String::from_str("LOAD(");
                let q = debug_quoted(name.as_str());
                s.append(q.as_str());
                s.append(", ");
                let inner = source.debug_string();
                s.append(inner.as_str());
                s.append(")");
                s
            },
            Instruction::STORE(target, v) => {
                let mut s = String::from_str("STORE(");
                let inner = target.debug_string();
                s.append(inner.as_str());
                s.append(", ");
                let value = v.debug_string();
                s.append(value.as_str());
                s.append(")");
                s
            },
            Instruction::STACK_VAR(name, t, v) => {
                let mut s = String::from_str("STACK_VAR(");
                let q = debug_quoted(name.as_str());
                s.append(q.as_str());
                s.append(", ");
                let typ = t.debug_string();
                s.append(typ.as_str());
                s.append(", ");
                let value = opt_value_string(v);
                s.append(value.as_str());
                s.append(")");
                s
            },
            Instruction::COND_BR(c, body, else_body) => {
                let mut s = String::from_str("COND_BR(");
                let condition = c.debug_string();
                s.append(condition.as_str());
                s.append(", ");
                let then = body.debug_string();
                s.append(then.as_str());
                s.append(", ");
                match else_body {
                    Some(e) => {
                        let mut inner = String::from_str("Some(");
                        let text = e.debug_string();
                        inner.append(text.as_str());
                        inner.append(")");
                        s.append(inner.as_str());
                    },
                    None => {
                        s.append("None");
                    },
                }
                s.append(")");
                s
            },
            Instruction::CALL(name, callee, args) => {
                let mut s = String::from_str("CALL(");
                let q = debug_quoted(name.as_str());
                s.append(q.as_str());
                s.append(", ");
                let c = debug_quoted(callee.as_str());
                s.append(c.as_str());
                s.append(", ");
                let list = values_string(args);
                s.append(list.as_str());
                s.append(")");
                s
            },
            Instruction::FUNC(name, params, body) => {
                let mut s = String::from_str("FUNC(");
                let q = debug_quoted(name.as_str());
                s.append(q.as_str());
                s.append(", ");
                let list = types_string(params);
                s.append(list.as_str());
                s.append(", ");
                let inner = body.debug_string();
                s.append(inner.as_str());
                s.append(")");
                s
            },
            Instruction::TYPE(name, fields) => {
                let mut s = String::from_str("TYPE(");
                let q = debug_quoted(name.as_str());
                s.append(q.as_str());
                s.append(", ");
                let list = types_string(fields);
                s.append(list.as_str());
                s.append(")");
                s
            },
        }
    }

    /// The written form of the instruction, as it goes into a listing.
    #[verifier::spinoff_prover]
    pub fn to_string_for_writing(&self) -> (r: String)
        ensures
            r@ == written(self@),
        decreases self, 1nat,
    {
        match self {
            Instruction::NONE => String::from_str("none"),
            Instruction::BLOCK(location, instruction_data) => {
                let lines = written_lines_string(instruction_data);
                let mut label = location.clone();
                label.append(":");
                let mut s = String::from_str("\n");
                let head = pad_right(label.as_str(), 15);
                s.append(head.as_str());
                s.append("\n");
                let body = pad_right(lines.as_str(), 10);
                s.append(body.as_str());
                s.append("\n");
                s
            },
            Instruction::PROGRAM(instructions) => written_lines_string(instructions),
            Instruction::LOAD(location, instruction_data) => {
                let mut s = pad_right(location.as_str(), 15);
                s.append(" = ");
                let mnemonic = pad_right("load", 10);
                s.append(mnemonic.as_str());
                s.append(" ");
                let source = instruction_data.debug_string();
                s.append(source.as_str());
                s
            },
            Instruction::STORE(the_storee, value) => {
                let mut s = String::from_str("         ");
                let mnemonic = pad_right("store", 10);
                s.append(mnemonic.as_str());
                s.append(" ");
                let target = the_storee.debug_string();
                s.append(target.as_str());
                s.append(" ");
                let v = value.debug_string();
                s.append(v.as_str());
                s
            },
            Instruction::STACK_VAR(location, typ, instruction_data) => {
                let mut s = pad_right(location.as_str(), 15);
                s.append(" = ");
                let mnemonic = pad_right("stack_var", 10);
                s.append(mnemonic.as_str());
                s.append(" ");
                let t = typ.debug_string();
                s.append(t.as_str());
                s.append(" ");
                let v = opt_value_string(instruction_data);
                s.append(v.as_str());
                s
            },
            Instruction::ADD(location, left, right) => {
                let mut s = pad_right(location.as_str(), 15);
                s.append(" = ");
                let mnemonic = pad_right("add", 10);
                s.append(mnemonic.as_str());
                s.append(" ");
                let l = left.debug_string();
                s.append(l.as_str());
                s.append(" + ");
                let r = right.debug_string();
                s.append(r.as_str());
                s
            },
            Instruction::SUB(location, left, right) => {
                let mut s = pad_right(location.as_str(), 15);
                s.append(" = ");
                let mnemonic = pad_right("sub", 10);
                s.append(mnemonic.as_str());
                s.append(" ");
                let l = left.debug_string();
                s.append(l.as_str());
                s.append(" - ");
                let r = right.debug_string();
                s.append(r.as_str());
                s
            },
            Instruction::CALL(location, callee, arg) => {
                let mut s = pad_right(location.as_str(), 15);
                s.append(" = ");
                let mnemonic = pad_right("call", 10);
                s.append(mnemonic.as_str());
                s.append(" ");
                s.append(callee.as_str());
                s.append(" args [");
                let list = values_string(arg);
                s.append(list.as_str());
                s.append("]");
                s
            },
            Instruction::FUNC(name, params, instructions) => {
                let mut s = String::from_str("def ");
                let head = pad_right(name.as_str(), 15);
                s.append(head.as_str());
                s.append(" = ");
                let list = types_string(params);
                s.append(list.as_str());
                s.append(" ");
                let body = instructions.debug_string();
                s.append(body.as_str());
                s
            },
            Instruction::TYPE(label, types) => {
                let mut s = pad_right(label.as_str(), 15);
                s.append(" = type ");
                let list = types_string(types);
                s.append(list.as_str());
                s
            },
            Instruction::COND_BR(condition, body, else_body) => {
                let mut s = pad_right("if", 15);
                s.append(" ");
                let c = condition.debug_string();
                s.append(c.as_str());
                s.append(" then ");
                let then = body.to_string_for_writing();
                s.append(then.as_str());
                match else_body {
                    Some(else_body_unwrapped) => {
                        let mut tail = String::from_str(" else ");
                        let other = else_body_unwrapped.to_string_for_writing();
                        tail.append(other.as_str());
                        s.append(tail.as_str());
                    },
                    None => {
                        assert(s@ + Seq::<char>::empty() =~= s@);
                    },
                }
                s
            },
        }
    }
}

} // verus!
