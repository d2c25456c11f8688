use crate::number::FloatBits;
use crate::token::{Token, TokenModel};
use crate::types::{Type, TypeModel};
use vstd::prelude::*;

verus! {

/// Whether a declared name may be assigned again.
#[derive(Debug, Clone, Copy, PartialEq, Eq, Structural)]
pub enum Qualifier {
    CONST,
    VAR,
}

/// The root of a source file: its statements in order.
#[derive(Debug, PartialEq, Eq)]
pub struct Program {
    pub body: Vec<ParsedAST>,
}

#[derive(Debug, PartialEq, Eq)]
pub struct Assign {
    pub lhs: Box<ParsedAST>,
    pub rhs: Box<ParsedAST>,
}

#[derive(Debug, PartialEq, Eq)]
pub struct Binary {
    pub left: Box<ParsedAST>,
    pub op: Token,
    pub right: Box<ParsedAST>,
}

#[derive(Debug, PartialEq, Eq)]
pub struct Call {
    pub callee: Box<ParsedAST>,
    pub args: Vec<ParsedAST>,
}

#[derive(Debug, PartialEq, Eq)]
pub struct Decl {
    pub identifier: String,
    pub qualifier: Qualifier,
    pub typ: Option<Type>,
    pub requires_infering: bool,
    pub value: Option<Box<ParsedAST>>,
}

#[derive(Debug, PartialEq, Eq)]
pub struct If {
    pub condition: Box<ParsedAST>,
    pub body: Box<ParsedAST>,
    pub else_body: Option<Box<ParsedAST>>,
}

#[derive(Debug, PartialEq, Eq)]
pub struct LhsAccess {
    pub left: Box<ParsedAST>,
    pub right: Box<ParsedAST>,
}

/// A number literal.
#[derive(Debug, Clone, Copy, PartialEq, Eq, Structural)]
pub enum Number {
    INTEGER(i32),
    FLOAT(FloatBits),
}

#[derive(Debug, Clone, Copy, PartialEq, Eq, Structural)]
pub enum ExpressionInstructionEnum {
    COMP,
}

#[derive(Debug, PartialEq, Eq)]
pub struct ExpressionInstruction {
    pub instr: ExpressionInstructionEnum,
    pub rhs: Box<ParsedAST>,
}

#[derive(Debug, PartialEq, Eq)]
pub struct Block {
    pub new_scope: bool,
    pub body: Vec<ParsedAST>,
}

#[derive(Debug, PartialEq, Eq)]
pub struct Fun {
    pub identifier: Option<String>,
    pub params: Vec<Decl>,
    pub body: Box<ParsedAST>,
}

/// An operator that stands in front of its operand.
#[derive(Debug, PartialEq, Eq)]
pub enum LeftUnary {
    /// Evaluate the operand now, while compiling.
    COMP(Box<ParsedAST>),
}

/// One field of a struct type literal.
#[derive(Debug, PartialEq, Eq)]
pub struct Field {
    pub name: String,
    pub typ: Type,
}

/// A struct type literal. No field name occurs twice; the fields stand in
/// the order in which their names first appeared.
#[derive(Debug, PartialEq, Eq)]
pub struct Typ {
    pub fields: Vec<Field>,
    pub anon_name: Option<String>,
}

/// A node of the syntax tree. Every node owns its children.
#[derive(Debug, PartialEq, Eq)]
pub enum ParsedAST {
    PROGRAM(Program),
    STMT(Box<ParsedAST>),
    EXPRESSION_INSTRUCTION(ExpressionInstruction),
    BLOCK(Block),
    IF(If),
    DECL(Decl),
    ASSIGN(Assign),
    IDENTIFIER(String),
    STRING(String),
    FN(Fun),
    NUMBER(Number),
    LEFT_UNARY(LeftUnary),
    BINARY(Binary),
    CALL(Call),
    TYPE(Typ),
    LHS_ACCESS(LhsAccess),
}

/// Mathematical model of a [`Decl`].
pub struct DeclModel {
    pub identifier: Seq<char>,
    pub qualifier: Qualifier,
    pub typ: Option<TypeModel>,
    pub requires_infering: bool,
    pub value: Option<Box<AstModel>>,
}

/// Mathematical model of a [`Field`].
pub struct FieldModel {
    pub name: Seq<char>,
    pub typ: TypeModel,
}

/// Mathematical model of a [`ParsedAST`].
pub enum AstModel {
    PROGRAM(Seq<AstModel>),
    STMT(Box<AstModel>),
    EXPRESSION_INSTRUCTION(ExpressionInstructionEnum, Box<AstModel>),
    BLOCK(bool, Seq<AstModel>),
    IF(Box<AstModel>, Box<AstModel>, Option<Box<AstModel>>),
    DECL(DeclModel),
    ASSIGN(Box<AstModel>, Box<AstModel>),
    IDENTIFIER(Seq<char>),
    STRING(Seq<char>),
    FN(Option<Seq<char>>, Seq<DeclModel>, Box<AstModel>),
    NUMBER(Number),
    /// The operand of the evaluate-now operator.
    LEFT_UNARY(Box<AstModel>),
    BINARY(Box<AstModel>, TokenModel, Box<AstModel>),
    CALL(Box<AstModel>, Seq<AstModel>),
    TYPE(Seq<FieldModel>, Option<Seq<char>>),
    LHS_ACCESS(Box<AstModel>, Box<AstModel>),
}

/// Model of an optional string.
pub open spec fn opt_string_view(s: Option<String>) -> Option<Seq<char>> {
    match s {
        Some(s) => Some(s@),
        None => None,
    }
}

impl View for Field {
    type V = FieldModel;

    open spec fn view(&self) -> FieldModel {
        FieldModel { name: self.name@, typ: self.typ@ }
    }
}

/// Whether no two fields of a list have the same name.
pub open spec fn names_unique(fields: Seq<FieldModel>) -> bool {
    forall|i: int, j: int|
        0 <= i < j < fields.len() ==> (#[trigger] fields[i]).name != (#[trigger] fields[j]).name
}

impl Typ {
    /// Whether no field name occurs twice.
    pub open spec fn wf(&self) -> bool {
        names_unique(fields_view(self.fields@))
    }
}

/// Models of the fields of a struct type literal, in order.
pub open spec fn fields_view(fields: Seq<Field>) -> Seq<FieldModel> {
    Seq::new(fields.len(), |i: int| fields[i]@)
}

/// Model of a syntax tree.
#[verifier::opaque]
pub open spec fn ast_model(a: ParsedAST) -> AstModel
    decreases a,
{
    match a {
        ParsedAST::PROGRAM(p) => AstModel::PROGRAM(asts_view(p.body@)),
        ParsedAST::STMT(inner) => AstModel::STMT(Box::new(ast_model(*inner))),
        ParsedAST::EXPRESSION_INSTRUCTION(e) => AstModel::EXPRESSION_INSTRUCTION(
            e.instr,
            Box::new(ast_model(*e.rhs)),
        ),
        ParsedAST::BLOCK(b) => AstModel::BLOCK(b.new_scope, asts_view(b.body@)),
        ParsedAST::IF(i) => AstModel::IF(
            Box::new(ast_model(*i.condition)),
            Box::new(ast_model(*i.body)),
            match i.else_body {
                Some(e) => Some(Box::new(ast_model(*e))),
                None => None,
            },
        ),
        ParsedAST::DECL(d) => AstModel::DECL(decl_model(d)),
        ParsedAST::ASSIGN(a) => AstModel::ASSIGN(
            Box::new(ast_model(*a.lhs)),
            Box::new(ast_model(*a.rhs)),
        ),
        ParsedAST::IDENTIFIER(name) => AstModel::IDENTIFIER(name@),
        ParsedAST::STRING(s) => AstModel::STRING(s@),
        ParsedAST::FN(f) => AstModel::FN(
            opt_string_view(f.identifier),
            decls_view(f.params@),
            Box::new(ast_model(*f.body)),
        ),
        ParsedAST::NUMBER(n) => AstModel::NUMBER(n),
        ParsedAST::LEFT_UNARY(u) => match u {
            LeftUnary::COMP(operand) => AstModel::LEFT_UNARY(Box::new(ast_model(*operand))),
        },
        ParsedAST::BINARY(b) => AstModel::BINARY(
            Box::new(ast_model(*b.left)),
            b.op@,
            Box::new(ast_model(*b.right)),
        ),
        ParsedAST::CALL(c) => AstModel::CALL(Box::new(ast_model(*c.callee)), asts_view(c.args@)),
        ParsedAST::TYPE(t) => AstModel::TYPE(fields_view(t.fields@), opt_string_view(t.anon_name)),
        ParsedAST::LHS_ACCESS(l) => AstModel::LHS_ACCESS(
            Box::new(ast_model(*l.left)),
            Box::new(ast_model(*l.right)),
        ),
    }
}

/// Models of a sequence of syntax trees, element by element.
pub open spec fn asts_view(items: Seq<ParsedAST>) -> Seq<AstModel>
    decreases items,
{
    Seq::new(
        items.len(),
        |i: int|
            if 0 <= i < items.len() {
                ast_model(items[i])
            } else {
                AstModel::NUMBER(Number::INTEGER(0))
            },
    )
}

/// Model of a declaration.
pub open spec fn decl_model(d: Decl) -> DeclModel
    decreases d,
{
    DeclModel {
        identifier: d.identifier@,
        qualifier: d.qualifier,
        typ: match d.typ {
            Some(t) => Some(t@),
            None => None,
        },
        requires_infering: d.requires_infering,
        value: match d.value {
            Some(v) => Some(Box::new(ast_model(*v))),
            None => None,
        },
    }
}

/// Models of a sequence of declarations, element by element.
pub open spec fn decls_view(items: Seq<Decl>) -> Seq<DeclModel>
    decreases items,
{
    Seq::new(
        items.len(),
        |i: int|
            if 0 <= i < items.len() {
                decl_model(items[i])
            } else {
                DeclModel {
                    identifier: Seq::empty(),
                    qualifier: Qualifier::CONST,
                    typ: None,
                    requires_infering: false,
                    value: None,
                }
            },
    )
}

impl View for ParsedAST {
    type V = AstModel;

    open spec fn view(&self) -> AstModel {
        ast_model(*self)
    }
}

impl View for Decl {
    type V = DeclModel;

    open spec fn view(&self) -> DeclModel {
        decl_model(*self)
    }
}

/// Model of an optional syntax tree.
pub open spec fn opt_ast_view(a: Option<ParsedAST>) -> Option<Box<AstModel>> {
    match a {
        Some(a) => Some(Box::new(a@)),
        None => None,
    }
}

impl ParsedAST {
    /// A program with the given statements.
    pub fn program(body: Vec<ParsedAST>) -> (r: ParsedAST)
        ensures
            r@ == AstModel::PROGRAM(asts_view(body@)),
    {
        reveal_with_fuel(ast_model, 2);
        ParsedAST::PROGRAM(Program { body })
    }

    /// A statement that holds one expression.
    pub fn stmt(inner: ParsedAST) -> (r: ParsedAST)
        ensures
            r@ == AstModel::STMT(Box::new(inner@)),
    {
        reveal_with_fuel(ast_model, 2);
        ParsedAST::STMT(Box::new(inner))
    }

    /// A block that opens a scope of its own.
    pub fn block(body: Vec<ParsedAST>) -> (r: ParsedAST)
        ensures
            r@ == AstModel::BLOCK(true, asts_view(body@)),
    {
        reveal_with_fuel(ast_model, 2);
        ParsedAST::BLOCK(Block { new_scope: true, body })
    }

    /// A conditional.
    pub fn conditional(condition: ParsedAST, body: ParsedAST, else_body: Option<ParsedAST>) -> (r:
        ParsedAST)
        ensures
            r@ == AstModel::IF(
                Box::new(condition@),
                Box::new(body@),
                opt_ast_view(else_body),
            ),
    {
        reveal_with_fuel(ast_model, 2);
        let else_body = match else_body {
            Some(e) => Some(Box::new(e)),
            None => None,
        };
        ParsedAST::IF(If { condition: Box::new(condition), body: Box::new(body), else_body })
    }

    /// A declaration with a value, whose type is still to be inferred.
    pub fn declaration(
        identifier: String,
        qualifier: Qualifier,
        typ: Option<Type>,
        value: ParsedAST,
    ) -> (r: ParsedAST)
        ensures
            r@ == AstModel::DECL(
                DeclModel {
                    identifier: identifier@,
                    qualifier,
                    typ: match typ {
                        Some(t) => Some(t@),
                        None => None,
                    },
                    requires_infering: true,
                    value: Some(Box::new(value@)),
                },
            ),
    {
        reveal_with_fuel(ast_model, 2);
        ParsedAST::DECL(
            Decl {
                identifier,
                qualifier,
                typ,
                requires_infering: true,
                value: Some(Box::new(value)),
            },
        )
    }

    /// An assignment.
    pub fn assign(lhs: ParsedAST, rhs: ParsedAST) -> (r: ParsedAST)
        ensures
            r@ == AstModel::ASSIGN(Box::new(lhs@), Box::new(rhs@)),
    {
        reveal_with_fuel(ast_model, 2);
        ParsedAST::ASSIGN(Assign { lhs: Box::new(lhs), rhs: Box::new(rhs) })
    }

    /// A use of a name.
    pub fn identifier(name: String) -> (r: ParsedAST)
        ensures
            r@ == AstModel::IDENTIFIER(name@),
    {
        reveal_with_fuel(ast_model, 2);
        ParsedAST::IDENTIFIER(name)
    }

    /// A string literal.
    pub fn string(text: String) -> (r: ParsedAST)
        ensures
            r@ == AstModel::STRING(text@),
    {
        reveal_with_fuel(ast_model, 2);
        ParsedAST::STRING(text)
    }

    /// A named function.
    pub fn function(name: String, params: Vec<Decl>, body: ParsedAST) -> (r: ParsedAST)
        ensures
            r@ == AstModel::FN(Some(name@), decls_view(params@), Box::new(body@)),
    {
        reveal_with_fuel(ast_model, 2);
        ParsedAST::FN(Fun { identifier: Some(name), params, body: Box::new(body) })
    }

    /// A number literal.
    pub fn number(n: Number) -> (r: ParsedAST)
        ensures
            r@ == AstModel::NUMBER(n),
    {
        reveal_with_fuel(ast_model, 2);
        ParsedAST::NUMBER(n)
    }

    /// The evaluate-now operator in front of an operand.
    pub fn evaluate_now(operand: ParsedAST) -> (r: ParsedAST)
        ensures
            r@ == AstModel::LEFT_UNARY(Box::new(operand@)),
    {
        reveal_with_fuel(ast_model, 2);
        ParsedAST::LEFT_UNARY(LeftUnary::COMP(Box::new(operand)))
    }

    /// A binary expression.
    pub fn binary(left: ParsedAST, op: Token, right: ParsedAST) -> (r: ParsedAST)
        ensures
            r@ == AstModel::BINARY(Box::new(left@), op@, Box::new(right@)),
    {
        reveal_with_fuel(ast_model, 2);
        ParsedAST::BINARY(Binary { left: Box::new(left), op, right: Box::new(right) })
    }

    /// A call.
    pub fn call(callee: ParsedAST, args: Vec<ParsedAST>) -> (r: ParsedAST)
        ensures
            r@ == AstModel::CALL(Box::new(callee@), asts_view(args@)),
    {
        reveal_with_fuel(ast_model, 2);
        ParsedAST::CALL(Call { callee: Box::new(callee), args })
    }

    /// A struct type literal without a name.
    pub fn struct_type(fields: Vec<Field>) -> (r: ParsedAST)
        ensures
            r@ == AstModel::TYPE(fields_view(fields@), None),
    {
        reveal_with_fuel(ast_model, 2);
        ParsedAST::TYPE(Typ { fields, anon_name: None })
    }

    /// An access to a member.
    pub fn access(left: ParsedAST, right: ParsedAST) -> (r: ParsedAST)
        ensures
            r@ == AstModel::LHS_ACCESS(Box::new(left@), Box::new(right@)),
    {
        reveal_with_fuel(ast_model, 2);
        ParsedAST::LHS_ACCESS(LhsAccess { left: Box::new(left), right: Box::new(right) })
    }
}

} // verus!
