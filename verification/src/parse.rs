use crate::ast::{
    asts_view, decls_view, fields_view, names_unique, AstModel, Decl, DeclModel, Field,
    FieldModel, Number, ParsedAST, Qualifier,
};
use crate::number::FloatBits;
use crate::text::{int_of_text, parse_integer};
use crate::token::{tokens_view, Token, TokenModel};
use crate::types::{Type, TypeModel};
use vstd::prelude::*;

verus! {

/// Why parsing stopped.
#[derive(Debug, Clone, Copy, PartialEq, Eq, Structural)]
pub enum ParseError {
    /// The tokens end where the grammar needs one more.
    UnexpectedEnd,
    /// The token cannot stand where it stands.
    UnexpectedToken,
    /// A name was needed and the token is no identifier.
    ExpectedIdentifier,
    /// A type was needed and the token names none.
    ExpectedType,
    /// The text of a number is neither an integer nor a float.
    InvalidNumber,
}

/// A parsed node and how many tokens it takes beyond its first.
pub struct Node {
    pub ast: AstModel,
    pub extra: nat,
}

/// A parsed list of nodes and how many tokens it takes, the token that
/// closes it included.
pub struct Items {
    pub items: Seq<AstModel>,
    pub consumed: nat,
}

/// A parsed list of parameters and how many tokens it takes, the closing
/// parenthesis included.
pub struct Params {
    pub items: Seq<DeclModel>,
    pub consumed: nat,
}

/// A parsed list of fields and how many tokens it takes, the closing brace
/// included.
pub struct Fields {
    pub items: Seq<FieldModel>,
    pub consumed: nat,
}

/// How many tokens are left from a position on.
pub open spec fn left(ts: Seq<TokenModel>, cur: int) -> nat {
    if cur < ts.len() {
        (ts.len() - cur) as nat
    } else {
        0
    }
}

/// The token at a position. There is none before the first and after the
/// last.
pub open spec fn token_at(ts: Seq<TokenModel>, cur: int) -> Result<TokenModel, ParseError> {
    if 0 <= cur < ts.len() {
        Ok(ts[cur])
    } else {
        Err(ParseError::UnexpectedEnd)
    }
}

/// The bit pattern that the float reader found for the token at a position.
pub open spec fn float_at(fs: Seq<Option<FloatBits>>, cur: int) -> Option<FloatBits> {
    if 0 <= cur < fs.len() {
        fs[cur]
    } else {
        None
    }
}

/// The type that a token names where a declaration gives its type.
pub open spec fn declared_type(t: TokenModel) -> Result<TypeModel, ParseError> {
    match t {
        TokenModel::I32 => Ok(TypeModel::I32),
        TokenModel::TYPE => Ok(TypeModel::TYPE),
        TokenModel::IDENTIFIER(name) => Ok(TypeModel::STRUCT(name)),
        _ => Err(ParseError::ExpectedType),
    }
}

/// The type that a token names where a struct type literal gives the type
/// of a field.
pub open spec fn field_type(t: TokenModel) -> Result<TypeModel, ParseError> {
    match t {
        TokenModel::U32 => Ok(TypeModel::U32),
        TokenModel::I32 => Ok(TypeModel::I32),
        _ => Err(ParseError::ExpectedType),
    }
}

/// The type named by the token at a position.
pub open spec fn type_at(ts: Seq<TokenModel>, cur: int) -> Result<TypeModel, ParseError> {
    match token_at(ts, cur) {
        Ok(t) => declared_type(t),
        Err(e) => Err(e),
    }
}

/// The number that a number token stands for: an integer where its text is
/// one, else the float that the float reader found for it.
#[verifier::opaque]
pub open spec fn number_of(text: Seq<char>, float: Option<FloatBits>) -> Result<
    Number,
    ParseError,
> {
    match int_of_text(text) {
        Some(i) => Ok(Number::INTEGER(i)),
        None => match float {
            Some(f) => Ok(Number::FLOAT(f)),
            None => Err(ParseError::InvalidNumber),
        },
    }
}

/// Position of the first field with a name, from position `from` on.
pub open spec fn field_index(fields: Seq<FieldModel>, name: Seq<char>, from: int) -> Option<int>
    decreases fields.len() - from,
{
    if 0 <= from < fields.len() {
        if fields[from].name == name {
            Some(from)
        } else {
            field_index(fields, name, from + 1)
        }
    } else {
        None
    }
}

/// The fields with one more: a field whose name is there already takes
/// the place of the one that has it, any other goes to the end.
pub open spec fn insert_field(fields: Seq<FieldModel>, name: Seq<char>, typ: TypeModel) -> Seq<
    FieldModel,
> {
    match field_index(fields, name, 0) {
        Some(k) => fields.update(k, FieldModel { name, typ }),
        None => fields.push(FieldModel { name, typ }),
    }
}

/// Where the search for a name ends: at a field that has the name, which
/// no field between the start and it has; or nowhere, and then no field
/// from the start on has the name.
proof fn lemma_field_index(fields: Seq<FieldModel>, name: Seq<char>, from: int)
    requires
        0 <= from,
    ensures
        match field_index(fields, name, from) {
            Some(k) => from <= k < fields.len() && fields[k].name == name,
            None => forall|k: int| from <= k < fields.len() ==> (#[trigger] fields[k]).name != name,
        },
    decreases fields.len() - from,
{
    if from < fields.len() && fields[from].name != name {
        lemma_field_index(fields, name, from + 1);
    }
}

/// Adding a field to fields with different names leaves the names
/// different.
pub proof fn lemma_insert_keeps_names_unique(
    fields: Seq<FieldModel>,
    name: Seq<char>,
    typ: TypeModel,
)
    requires
        names_unique(fields),
    ensures
        names_unique(insert_field(fields, name, typ)),
{
    lemma_field_index(fields, name, 0);
}

/// The fields of a struct type literal from a position on, up to the
/// closing brace: each a name, a colon and a type.
pub open spec fn fields_at(ts: Seq<TokenModel>, pos: int, acc: Seq<FieldModel>) -> Result<
    Fields,
    ParseError,
>
    decreases left(ts, pos),
{
    match token_at(ts, pos) {
        Err(e) => Err(e),
        Ok(TokenModel::RCURLY) => Ok(Fields { items: acc, consumed: 1 }),
        Ok(TokenModel::IDENTIFIER(name)) => match token_at(ts, pos + 1) {
            Err(e) => Err(e),
            Ok(colon) => if colon != TokenModel::COLON {
                Err(ParseError::UnexpectedToken)
            } else {
                match token_at(ts, pos + 2) {
                    Err(e) => Err(e),
                    Ok(t) => match field_type(t) {
                        Err(e) => Err(e),
                        Ok(typ) => match fields_at(ts, pos + 3, insert_field(acc, name, typ)) {
                            Err(e) => Err(e),
                            Ok(rest) => Ok(
                                Fields { items: rest.items, consumed: rest.consumed + 3 },
                            ),
                        },
                    },
                }
            },
        },
        Ok(_) => Err(ParseError::ExpectedIdentifier),
    }
}

/// A struct type literal: the keyword, an opening token, the fields, and
/// the closing brace.
#[verifier::opaque]
pub open spec fn type_literal(ts: Seq<TokenModel>, cur: int) -> Result<Node, ParseError> {
    match token_at(ts, cur + 1) {
        Err(e) => Err(e),
        Ok(_) => match fields_at(ts, cur + 2, Seq::empty()) {
            Err(e) => Err(e),
            Ok(fields) => Ok(
                Node { ast: AstModel::TYPE(fields.items, None), extra: fields.consumed + 1 },
            ),
        },
    }
}

/// The fields of a struct type literal have different names.
pub proof fn lemma_fields_have_unique_names(ts: Seq<TokenModel>, pos: int, acc: Seq<FieldModel>)
    requires
        names_unique(acc),
    ensures
        fields_at(ts, pos, acc) matches Ok(found) ==> names_unique(found.items),
    decreases left(ts, pos),
{
    if token_at(ts, pos) matches Ok(TokenModel::IDENTIFIER(name)) {
        if token_at(ts, pos + 1) == Ok::<TokenModel, ParseError>(TokenModel::COLON) {
            if token_at(ts, pos + 2) matches Ok(t) && field_type(t) is Ok {
                let name = token_at(ts, pos)->Ok_0->IDENTIFIER_0;
                let typ = field_type(token_at(ts, pos + 2)->Ok_0)->Ok_0;
                lemma_insert_keeps_names_unique(acc, name, typ);
                lemma_fields_have_unique_names(ts, pos + 3, insert_field(acc, name, typ));
            }
        }
    }
}

/// A struct type literal that parses names no field twice.
pub proof fn lemma_struct_type_has_unique_names(ts: Seq<TokenModel>, cur: int)
    ensures
        type_literal(ts, cur) matches Ok(node) ==> node.ast matches AstModel::TYPE(fields, _)
            && names_unique(fields),
{
    reveal(type_literal);
    lemma_fields_have_unique_names(ts, cur + 2, Seq::empty());
}

/// The parameters of a function from a position on, up to the closing
/// parenthesis: each a name, a separator and a type, and one token between
/// two of them.
pub open spec fn parameters(ts: Seq<TokenModel>, pos: int, acc: Seq<DeclModel>) -> Result<
    Params,
    ParseError,
>
    decreases left(ts, pos),
{
    match token_at(ts, pos) {
        Err(e) => Err(e),
        Ok(TokenModel::RPAREN) => Ok(Params { items: acc, consumed: 1 }),
        Ok(name) => match token_at(ts, pos + 1) {
            Err(e) => Err(e),
            Ok(_) => match type_at(ts, pos + 2) {
                Err(e) => Err(e),
                Ok(typ) => match name {
                    TokenModel::IDENTIFIER(identifier) => {
                        let decl = DeclModel {
                            identifier,
                            qualifier: Qualifier::CONST,
                            typ: Some(typ),
                            requires_infering: false,
                            value: None,
                        };
                        match token_at(ts, pos + 3) {
                            Err(e) => Err(e),
                            Ok(next) => {
                                let skip: nat = if next == TokenModel::RPAREN {
                                    3
                                } else {
                                    4
                                };
                                match parameters(ts, pos + skip, acc.push(decl)) {
                                    Err(e) => Err(e),
                                    Ok(rest) => Ok(
                                        Params {
                                            items: rest.items,
                                            consumed: rest.consumed + skip,
                                        },
                                    ),
                                }
                            },
                        }
                    },
                    _ => Err(ParseError::ExpectedIdentifier),
                },
            },
        },
    }
}

/// A statement: a conditional, or an expression.
#[verifier::opaque]
pub open spec fn statement(ts: Seq<TokenModel>, fs: Seq<Option<FloatBits>>, cur: int) -> Result<
    Node,
    ParseError,
>
    decreases left(ts, cur), 220nat,
{
    match token_at(ts, cur) {
        Err(e) => Err(e),
        Ok(TokenModel::IF) => if_stmt(ts, fs, cur),
        Ok(_) => match expression(ts, fs, cur) {
            Err(e) => Err(e),
            Ok(n) => Ok(Node { ast: AstModel::STMT(Box::new(n.ast)), extra: n.extra }),
        },
    }
}

/// A conditional: the keyword, the condition, the statement to run, and
/// after `else` the statement to run otherwise.
#[verifier::opaque]
pub open spec fn if_stmt(ts: Seq<TokenModel>, fs: Seq<Option<FloatBits>>, cur: int) -> Result<
    Node,
    ParseError,
>
    decreases left(ts, cur), 210nat,
{
    match token_at(ts, cur) {
        Err(e) => Err(e),
        Ok(_) => match expression(ts, fs, cur + 1) {
            Err(e) => Err(e),
            Ok(c) => match statement(ts, fs, cur + 2 + c.extra) {
                Err(e) => Err(e),
                Ok(b) => {
                    let after = cur + 3 + c.extra + b.extra;
                    if token_at(ts, after) == Ok::<TokenModel, ParseError>(TokenModel::ELSE) {
                        match statement(ts, fs, after + 1) {
                            Err(e) => Err(e),
                            Ok(e) => Ok(
                                Node {
                                    ast: AstModel::IF(
                                        Box::new(c.ast),
                                        Box::new(b.ast),
                                        Some(Box::new(e.ast)),
                                    ),
                                    extra: c.extra + b.extra + e.extra + 4,
                                },
                            ),
                        }
                    } else {
                        Ok(
                            Node {
                                ast: AstModel::IF(Box::new(c.ast), Box::new(b.ast), None),
                                extra: c.extra + b.extra + 2,
                            },
                        )
                    }
                },
            },
        },
    }
}

/// An expression: a declaration, an assignment to a name, or whatever
/// binds more tightly.
#[verifier::opaque]
pub open spec fn expression(ts: Seq<TokenModel>, fs: Seq<Option<FloatBits>>, cur: int) -> Result<
    Node,
    ParseError,
>
    decreases left(ts, cur), 200nat,
{
    match token_at(ts, cur) {
        Err(e) => Err(e),
        Ok(first) => if cur + 1 >= ts.len() {
            assign(ts, fs, cur)
        } else {
            match first {
                TokenModel::CONST => declaration(ts, fs, cur, Qualifier::CONST),
                TokenModel::VAR => declaration(ts, fs, cur, Qualifier::VAR),
                TokenModel::IDENTIFIER(name) => if ts[cur + 1] == TokenModel::EQUAL {
                    match expression(ts, fs, cur + 2) {
                        Err(e) => Err(e),
                        Ok(r) => Ok(
                            Node {
                                ast: AstModel::ASSIGN(
                                    Box::new(AstModel::IDENTIFIER(name)),
                                    Box::new(r.ast),
                                ),
                                extra: r.extra + 2,
                            },
                        ),
                    }
                } else {
                    assign(ts, fs, cur)
                },
                _ => assign(ts, fs, cur),
            }
        },
    }
}

/// A declaration: the qualifier, the name, after a colon the type, one
/// token more, and the value.
#[verifier::opaque]
pub open spec fn declaration(
    ts: Seq<TokenModel>,
    fs: Seq<Option<FloatBits>>,
    cur: int,
    qualifier: Qualifier,
) -> Result<Node, ParseError>
    decreases left(ts, cur), 190nat,
{
    match token_at(ts, cur + 1) {
        Err(e) => Err(e),
        Ok(TokenModel::IDENTIFIER(identifier)) => match token_at(ts, cur + 2) {
            Err(e) => Err(e),
            Ok(colon) => {
                let typed = colon == TokenModel::COLON;
                let skip: nat = if typed {
                    2
                } else {
                    0
                };
                let typ = if typed {
                    type_at(ts, cur + 3)
                } else {
                    Ok(TypeModel::I32)
                };
                match typ {
                    Err(e) => Err(e),
                    Ok(t) => match token_at(ts, cur + 2 + skip) {
                        Err(e) => Err(e),
                        Ok(_) => match expression(ts, fs, cur + 3 + skip) {
                            Err(e) => Err(e),
                            Ok(v) => Ok(
                                Node {
                                    ast: AstModel::DECL(
                                        DeclModel {
                                            identifier,
                                            qualifier,
                                            typ: if typed {
                                                Some(t)
                                            } else {
                                                None
                                            },
                                            requires_infering: true,
                                            value: Some(Box::new(v.ast)),
                                        },
                                    ),
                                    extra: v.extra + 3 + skip,
                                },
                            ),
                        },
                    },
                }
            },
        },
        Ok(_) => Err(ParseError::ExpectedIdentifier),
    }
}

/// An assignment to anything, or what binds more tightly.
#[verifier::opaque]
pub open spec fn assign(ts: Seq<TokenModel>, fs: Seq<Option<FloatBits>>, cur: int) -> Result<
    Node,
    ParseError,
>
    decreases left(ts, cur), 180nat,
{
    match plus_or_minus(ts, fs, cur) {
        Err(e) => Err(e),
        Ok(h) => {
            let after = cur + 1 + h.extra;
            if 0 <= cur && after < ts.len() && ts[after] == TokenModel::EQUAL {
                match plus_or_minus(ts, fs, after + 1) {
                    Err(e) => Err(e),
                    Ok(r) => Ok(
                        Node {
                            ast: AstModel::ASSIGN(Box::new(h.ast), Box::new(r.ast)),
                            extra: h.extra + r.extra + 2,
                        },
                    ),
                }
            } else {
                Ok(h)
            }
        },
    }
}

/// A sum or a difference, or what binds more tightly. The right operand is
/// a whole expression.
#[verifier::opaque]
pub open spec fn plus_or_minus(ts: Seq<TokenModel>, fs: Seq<Option<FloatBits>>, cur: int) -> Result<
    Node,
    ParseError,
>
    decreases left(ts, cur), 170nat,
{
    match mul_or_div(ts, fs, cur) {
        Err(e) => Err(e),
        Ok(h) => {
            let after = cur + 1 + h.extra;
            if 0 <= cur && after < ts.len() && (ts[after] == TokenModel::PLUS || ts[after]
                == TokenModel::MINUS) {
                match expression(ts, fs, after + 1) {
                    Err(e) => Err(e),
                    Ok(r) => Ok(
                        Node {
                            ast: AstModel::BINARY(Box::new(h.ast), ts[after], Box::new(r.ast)),
                            extra: h.extra + r.extra + 2,
                        },
                    ),
                }
            } else {
                Ok(h)
            }
        },
    }
}

/// A product or a quotient, or what binds more tightly. The right operand
/// is a whole expression.
#[verifier::opaque]
pub open spec fn mul_or_div(ts: Seq<TokenModel>, fs: Seq<Option<FloatBits>>, cur: int) -> Result<
    Node,
    ParseError,
>
    decreases left(ts, cur), 160nat,
{
    match unary(ts, fs, cur) {
        Err(e) => Err(e),
        Ok(h) => {
            let after = cur + 1 + h.extra;
            if 0 <= cur && after < ts.len() && (ts[after] == TokenModel::STAR || ts[after]
                == TokenModel::DIV) {
                match expression(ts, fs, after + 1) {
                    Err(e) => Err(e),
                    Ok(r) => Ok(
                        Node {
                            ast: AstModel::BINARY(Box::new(h.ast), ts[after], Box::new(r.ast)),
                            extra: h.extra + r.extra + 2,
                        },
                    ),
                }
            } else {
                Ok(h)
            }
        },
    }
}

/// The evaluate-now operator in front of an expression, or a call.
#[verifier::opaque]
pub open spec fn unary(ts: Seq<TokenModel>, fs: Seq<Option<FloatBits>>, cur: int) -> Result<
    Node,
    ParseError,
>
    decreases left(ts, cur), 150nat,
{
    match token_at(ts, cur) {
        Err(e) => Err(e),
        Ok(TokenModel::COMP) => match expression(ts, fs, cur + 1) {
            Err(e) => Err(e),
            Ok(r) => Ok(
                Node { ast: AstModel::LEFT_UNARY(Box::new(r.ast)), extra: r.extra + 1 },
            ),
        },
        Ok(_) => call(ts, fs, cur),
    }
}

/// A call, or what binds more tightly. What comes before the parenthesis
/// is a callee only where its last token is an identifier and at least two
/// tokens follow it.
#[verifier::opaque]
pub open spec fn call(ts: Seq<TokenModel>, fs: Seq<Option<FloatBits>>, cur: int) -> Result<
    Node,
    ParseError,
>
    decreases left(ts, cur), 140nat,
{
    match struct_access(ts, fs, cur) {
        Err(e) => Err(e),
        Ok(h) => {
            let after = cur + 1 + h.extra;
            if 0 <= cur && after + 1 < ts.len() && ts[after - 1] is IDENTIFIER && ts[after]
                == TokenModel::LPAREN {
                match arguments(ts, fs, after + 1, Seq::empty()) {
                    Err(e) => Err(e),
                    Ok(args) => Ok(
                        Node {
                            ast: AstModel::CALL(Box::new(h.ast), args.items),
                            extra: h.extra + args.consumed + 1,
                        },
                    ),
                }
            } else {
                Ok(h)
            }
        },
    }
}

/// The arguments of a call from a position on, up to the closing
/// parenthesis: expressions, with one token between two of them.
#[verifier::opaque]
pub open spec fn arguments(
    ts: Seq<TokenModel>,
    fs: Seq<Option<FloatBits>>,
    pos: int,
    acc: Seq<AstModel>,
) -> Result<Items, ParseError>
    decreases left(ts, pos), 280nat,
{
    match token_at(ts, pos) {
        Err(e) => Err(e),
        Ok(TokenModel::RPAREN) => Ok(Items { items: acc, consumed: 1 }),
        Ok(_) => match expression(ts, fs, pos) {
            Err(e) => Err(e),
            Ok(a) => match token_at(ts, pos + 1 + a.extra) {
                Err(e) => Err(e),
                Ok(next) => {
                    let skip: nat = if next == TokenModel::RPAREN {
                        1 + a.extra
                    } else {
                        2 + a.extra
                    };
                    match arguments(ts, fs, pos + skip, acc.push(a.ast)) {
                        Err(e) => Err(e),
                        Ok(rest) => Ok(
                            Items { items: rest.items, consumed: rest.consumed + skip },
                        ),
                    }
                },
            },
        },
    }
}

/// An access to a member, or a single node.
#[verifier::opaque]
pub open spec fn struct_access(ts: Seq<TokenModel>, fs: Seq<Option<FloatBits>>, cur: int) -> Result<
    Node,
    ParseError,
>
    decreases left(ts, cur), 130nat,
{
    match single(ts, fs, cur) {
        Err(e) => Err(e),
        Ok(h) => {
            let after = cur + 1 + h.extra;
            if 0 <= cur && after < ts.len() && ts[after] == TokenModel::DOT {
                match expression(ts, fs, after + 1) {
                    Err(e) => Err(e),
                    Ok(r) => Ok(
                        Node {
                            ast: AstModel::LHS_ACCESS(Box::new(h.ast), Box::new(r.ast)),
                            extra: h.extra + r.extra + 2,
                        },
                    ),
                }
            } else {
                Ok(h)
            }
        },
    }
}

/// A single node: a function, a struct type literal, a truth value, a
/// name, a string, a number or a block.
#[verifier::opaque]
pub open spec fn single(ts: Seq<TokenModel>, fs: Seq<Option<FloatBits>>, cur: int) -> Result<
    Node,
    ParseError,
>
    decreases left(ts, cur), 120nat,
{
    match token_at(ts, cur) {
        Err(e) => Err(e),
        Ok(TokenModel::FN) => function_at(ts, fs, cur),
        Ok(TokenModel::TYPE) => type_literal(ts, cur),
        Ok(TokenModel::TRUE) => Ok(
            Node { ast: AstModel::NUMBER(Number::INTEGER(1)), extra: 0 },
        ),
        Ok(TokenModel::FALSE) => Ok(
            Node { ast: AstModel::NUMBER(Number::INTEGER(0)), extra: 0 },
        ),
        Ok(TokenModel::IDENTIFIER(name)) => Ok(
            Node { ast: AstModel::IDENTIFIER(name), extra: 0 },
        ),
        Ok(TokenModel::STRING(s)) => Ok(Node { ast: AstModel::STRING(s), extra: 0 }),
        Ok(TokenModel::NUMBER(text)) => match number_of(text, float_at(fs, cur)) {
            Ok(n) => Ok(Node { ast: AstModel::NUMBER(n), extra: 0 }),
            Err(e) => Err(e),
        },
        Ok(TokenModel::LCURLY) => block(ts, fs, cur),
        Ok(_) => Err(ParseError::UnexpectedToken),
    }
}

/// A function: the keyword, the name, optionally the parameters in
/// parentheses, and the body.
#[verifier::opaque]
pub open spec fn function_at(ts: Seq<TokenModel>, fs: Seq<Option<FloatBits>>, cur: int) -> Result<
    Node,
    ParseError,
>
    decreases left(ts, cur), 110nat,
{
    match token_at(ts, cur + 1) {
        Err(e) => Err(e),
        Ok(name) => match token_at(ts, cur + 2) {
            Err(e) => Err(e),
            Ok(open) => {
                let params = if open == TokenModel::LPAREN {
                    parameters(ts, cur + 3, Seq::empty())
                } else {
                    Ok(Params { items: Seq::empty(), consumed: 0 })
                };
                match params {
                    Err(e) => Err(e),
                    Ok(p) => {
                        let skip: nat = if open == TokenModel::LPAREN {
                            p.consumed + 1
                        } else {
                            0
                        };
                        match name {
                            TokenModel::IDENTIFIER(identifier) => match statement(
                                ts,
                                fs,
                                cur + 2 + skip,
                            ) {
                                Err(e) => Err(e),
                                Ok(b) => Ok(
                                    Node {
                                        ast: AstModel::FN(
                                            Some(identifier),
                                            p.items,
                                            Box::new(b.ast),
                                        ),
                                        extra: b.extra + skip + 2,
                                    },
                                ),
                            },
                            _ => Err(ParseError::ExpectedIdentifier),
                        }
                    },
                }
            },
        }
    }
}

/// A block: an opening token, statements, and the closing brace.
#[verifier::opaque]
pub open spec fn block(ts: Seq<TokenModel>, fs: Seq<Option<FloatBits>>, cur: int) -> Result<
    Node,
    ParseError,
>
    decreases left(ts, cur), 110nat,
{
    match token_at(ts, cur) {
        Err(e) => Err(e),
        Ok(_) => match block_items(ts, fs, cur + 1, Seq::empty()) {
            Err(e) => Err(e),
            Ok(body) => Ok(
                Node { ast: AstModel::BLOCK(true, body.items), extra: body.consumed },
            ),
        },
    }
}

/// The statements of a block from a position on, up to the closing brace.
#[verifier::opaque]
pub open spec fn block_items(
    ts: Seq<TokenModel>,
    fs: Seq<Option<FloatBits>>,
    pos: int,
    acc: Seq<AstModel>,
) -> Result<Items, ParseError>
    decreases left(ts, pos), 290nat,
{
    match token_at(ts, pos) {
        Err(e) => Err(e),
        Ok(TokenModel::RCURLY) => Ok(Items { items: acc, consumed: 1 }),
        Ok(_) => match statement(ts, fs, pos) {
            Err(e) => Err(e),
            Ok(s) => match block_items(ts, fs, pos + 1 + s.extra, acc.push(s.ast)) {
                Err(e) => Err(e),
                Ok(rest) => Ok(
                    Items { items: rest.items, consumed: rest.consumed + 1 + s.extra },
                ),
            },
        },
    }
}

/// The statements of a program from a position on, up to the last token.
#[verifier::opaque]
pub open spec fn program_items(
    ts: Seq<TokenModel>,
    fs: Seq<Option<FloatBits>>,
    pos: int,
    acc: Seq<AstModel>,
) -> Result<Seq<AstModel>, ParseError>
    decreases left(ts, pos), 300nat,
{
    if 0 <= pos < ts.len() {
        match statement(ts, fs, pos) {
            Err(e) => Err(e),
            Ok(s) => program_items(ts, fs, pos + 1 + s.extra, acc.push(s.ast)),
        }
    } else {
        Ok(acc)
    }
}

/// The meaning of parsing: the statements of the token sequence, one after
/// the other, as the body of a program.
pub open spec fn parse_tokens(ts: Seq<TokenModel>, fs: Seq<Option<FloatBits>>) -> Result<
    AstModel,
    ParseError,
> {
    match program_items(ts, fs, 0, Seq::empty()) {
        Ok(items) => Ok(AstModel::PROGRAM(items)),
        Err(e) => Err(e),
    }
}

/// Model of what parsing hands back.
pub open spec fn parse_result_view(r: Result<Box<ParsedAST>, ParseError>) -> Result<
    AstModel,
    ParseError,
> {
    match r {
        Ok(ast) => Ok((*ast)@),
        Err(e) => Err(e),
    }
}

/// Whether a method did what the model says: on success it hands back the
/// node and has moved past all of its tokens, on failure it hands back the
/// error.
pub open spec fn agrees(
    r: Result<ParsedAST, ParseError>,
    before: usize,
    after: usize,
    expected: Result<Node, ParseError>,
) -> bool {
    match r {
        Ok(ast) => expected is Ok && expected->Ok_0.ast == ast@ && after == before + 1
            + expected->Ok_0.extra,
        Err(e) => expected == Err::<Node, ParseError>(e),
    }
}

/// A list with the tokens counted that were taken before it.
pub open spec fn items_after(r: Result<Items, ParseError>, taken: int) -> Result<
    Items,
    ParseError,
> {
    match r {
        Ok(l) => Ok(Items { items: l.items, consumed: (l.consumed + taken) as nat }),
        Err(e) => Err(e),
    }
}

/// A list of parameters with the tokens counted that were taken before it.
pub open spec fn params_after(r: Result<Params, ParseError>, taken: int) -> Result<
    Params,
    ParseError,
> {
    match r {
        Ok(l) => Ok(Params { items: l.items, consumed: (l.consumed + taken) as nat }),
        Err(e) => Err(e),
    }
}

/// A list of fields with the tokens counted that were taken before it.
pub open spec fn fields_after(r: Result<Fields, ParseError>, taken: int) -> Result<
    Fields,
    ParseError,
> {
    match r {
        Ok(l) => Ok(Fields { items: l.items, consumed: (l.consumed + taken) as nat }),
        Err(e) => Err(e),
    }
}

fn push_ast(items: &mut Vec<ParsedAST>, item: ParsedAST)
    ensures
        asts_view(final(items)@) == asts_view(old(items)@).push(item@),
{
    items.push(item);
    assert(asts_view(items@) =~= asts_view(old(items)@).push(item@));
}

fn push_decl(items: &mut Vec<Decl>, item: Decl)
    ensures
        decls_view(final(items)@) == decls_view(old(items)@).push(item@),
{
    items.push(item);
    assert(decls_view(items@) =~= decls_view(old(items)@).push(item@));
}

/// Adds a field to the fields of a struct type literal. A field whose name
/// is there already takes the place of the one that has it.
fn add_field(fields: &mut Vec<Field>, name: String, typ: Type)
    ensures
        fields_view(final(fields)@) == insert_field(fields_view(old(fields)@), name@, typ@),
{
    let ghost models = fields_view(fields@);
    let mut k: usize = 0;
    while k < fields.len()
        invariant
            k <= fields.len(),
            *fields == *old(fields),
            models == fields_view(fields@),
            field_index(models, name@, k as int) == field_index(models, name@, 0),
        decreases fields.len() - k,
    {
        assert(models[k as int] == fields[k as int]@);
        if fields[k].name == name {
            fields[k] = Field { name, typ };
            assert(fields_view(fields@) =~= models.update(
                k as int,
                FieldModel { name: name@, typ: typ@ },
            ));
            return ;
        }
        k += 1;
    }
    fields.push(Field { name, typ });
    assert(fields_view(fields@) =~= models.push(FieldModel { name: name@, typ: typ@ }));
}

/// Turns tokens into a syntax tree by recursive descent.
pub struct Parser<'a> {
    pub tokens: &'a Box<Vec<Token>>,
    /// For each token, the bit pattern of the float that its text stands
    /// for, where it is the text of one. Tokens past the end of the table
    /// have none.
    pub floats: &'a Vec<Option<FloatBits>>,
}

impl<'a> Parser<'a> {
    /// The tokens, as a mathematical sequence.
    pub open spec fn ts(&self) -> Seq<TokenModel> {
        tokens_view(self.tokens@)
    }

    /// The table of floats, as a mathematical sequence.
    pub open spec fn fs(&self) -> Seq<Option<FloatBits>> {
        self.floats@
    }

    /// Parses all the tokens as one program.
    pub fn parse(&mut self) -> (r: Result<Box<ParsedAST>, ParseError>)
        ensures
            *final(self) == *old(self),
            parse_result_view(r) == parse_tokens(old(self).ts(), old(self).fs()),
    {
        match self.parse_program() {
            Ok(ast) => Ok(Box::new(ast)),
            Err(e) => Err(e),
        }
    }

    #[verifier::loop_isolation(false)]
    fn parse_program(&mut self) -> (r: Result<ParsedAST, ParseError>)
        ensures
            *final(self) == *old(self),
            match r {
                Ok(ast) => parse_tokens(old(self).ts(), old(self).fs()) == Ok::<
                    AstModel,
                    ParseError,
                >(ast@),
                Err(e) => parse_tokens(old(self).ts(), old(self).fs()) == Err::<
                    AstModel,
                    ParseError,
                >(e),
            },
    {
        proof {
            reveal(program_items);
            reveal(statement);
        }
        let mut current: usize = 0;
        let mut body: Vec<ParsedAST> = Vec::new();
        let ghost whole = program_items(self.ts(), self.fs(), 0, Seq::empty());
        assert(asts_view(body@) =~= Seq::<AstModel>::empty());
        while !self.end(&current)
            invariant
                *self == *old(self),
                current <= self.tokens.len(),
                program_items(self.ts(), self.fs(), current as int, asts_view(body@)) == whole,
            decreases self.tokens.len() - current,
        {
            match self.statement(&mut current) {
                Ok(s) => {
                    push_ast(&mut body, s);
                },
                Err(e) => {
                    return Err(e);
                },
            }
        }
        Ok(ParsedAST::program(body))
    }

    fn statement(&self, current: &mut usize) -> (r: Result<ParsedAST, ParseError>)
        ensures
            agrees(
                r,
                *old(current),
                *final(current),
                statement(self.ts(), self.fs(), *old(current) as int),
            ),
            r is Ok ==> *final(current) <= self.tokens.len(),
        decreases left(self.ts(), *old(current) as int), 220nat,
    {
        proof {
            reveal(statement);
            reveal(if_stmt);
            reveal(expression);
        }
        match self.peek(current) {
            Err(e) => Err(e),
            Ok(Token::IF) => self.if_stmt(current),
            Ok(_) => match self.expression(current) {
                Ok(e) => Ok(ParsedAST::stmt(e)),
                Err(e) => Err(e),
            },
        }
    }

    fn if_stmt(&self, current: &mut usize) -> (r: Result<ParsedAST, ParseError>)
        ensures
            agrees(
                r,
                *old(current),
                *final(current),
                if_stmt(self.ts(), self.fs(), *old(current) as int),
            ),
            r is Ok ==> *final(current) <= self.tokens.len(),
        decreases left(self.ts(), *old(current) as int), 210nat,
    {
        proof {
            reveal(if_stmt);
            reveal(expression);
            reveal(statement);
        }
        match self.consume(current) {
            Ok(_) => {},
            Err(e) => {
                return Err(e);
            },
        }
        let condition = match self.expression(current) {
            Ok(c) => c,
            Err(e) => {
                return Err(e);
            },
        };
        let body = match self.statement(current) {
            Ok(b) => b,
            Err(e) => {
                return Err(e);
            },
        };
        let mut else_body: Option<ParsedAST> = None;
        if !self.end(current) {
            let is_else = match self.expecting(Token::ELSE, current) {
                Ok(b) => b,
                Err(e) => {
                    return Err(e);
                },
            };
            if is_else {
                match self.consume(current) {
                    Ok(_) => {},
                    Err(e) => {
                        return Err(e);
                    },
                }
                match self.statement(current) {
                    Ok(e) => {
                        else_body = Some(e);
                    },
                    Err(e) => {
                        return Err(e);
                    },
                }
            }
        }
        Ok(ParsedAST::conditional(condition, body, else_body))
    }

    fn expression(&self, current: &mut usize) -> (r: Result<ParsedAST, ParseError>)
        ensures
            agrees(
                r,
                *old(current),
                *final(current),
                expression(self.ts(), self.fs(), *old(current) as int),
            ),
            r is Ok ==> *final(current) <= self.tokens.len(),
        decreases left(self.ts(), *old(current) as int), 200nat, 2nat,
    {
        self.comparison(current)
    }

    fn comparison(&self, current: &mut usize) -> (r: Result<ParsedAST, ParseError>)
        ensures
            agrees(
                r,
                *old(current),
                *final(current),
                expression(self.ts(), self.fs(), *old(current) as int),
            ),
            r is Ok ==> *final(current) <= self.tokens.len(),
        decreases left(self.ts(), *old(current) as int), 200nat, 1nat,
    {
        self.decl_or_assign(current)
    }

    fn parse_type(&self, current: &mut usize) -> (r: Result<Type, ParseError>)
        ensures
            match r {
                Ok(t) => type_at(self.ts(), *old(current) as int) == Ok::<TypeModel, ParseError>(
                    t@,
                ) && *final(current) == *old(current) + 1 && *final(current)
                    <= self.tokens.len(),
                Err(e) => type_at(self.ts(), *old(current) as int) == Err::<
                    TypeModel,
                    ParseError,
                >(e),
            },
    {
        match self.consume(current) {
            Err(e) => Err(e),
            Ok(Token::I32) => Ok(Type::I32),
            Ok(Token::TYPE) => Ok(Type::TYPE),
            Ok(Token::IDENTIFIER(i)) => Ok(Type::STRUCT(i.clone())),
            Ok(_) => Err(ParseError::ExpectedType),
        }
    }

    fn decl_or_assign(&self, current: &mut usize) -> (r: Result<ParsedAST, ParseError>)
        ensures
            agrees(
                r,
                *old(current),
                *final(current),
                expression(self.ts(), self.fs(), *old(current) as int),
            ),
            r is Ok ==> *final(current) <= self.tokens.len(),
        decreases left(self.ts(), *old(current) as int), 200nat, 0nat,
    {
        proof {
            reveal(expression);
            reveal(declaration);
            reveal(assign);
        }
        let first = match self.peek(current) {
            Ok(t) => t,
            Err(e) => {
                return Err(e);
            },
        };
        if self.end_ahead(current, 1) {
            return self.assign(current);
        }
        match first {
            Token::CONST => self.declaration(current, Qualifier::CONST),
            Token::VAR => self.declaration(current, Qualifier::VAR),
            Token::IDENTIFIER(identifier) => {
                let second = match self.peek_ahead(current, 1) {
                    Ok(t) => t,
                    Err(e) => {
                        return Err(e);
                    },
                };
                match second {
                    Token::EQUAL => {
                        *current += 2;
                        match self.expression(current) {
                            Ok(rhs) => Ok(
                                ParsedAST::assign(
                                    ParsedAST::identifier(identifier.clone()),
                                    rhs,
                                ),
                            ),
                            Err(e) => Err(e),
                        }
                    },
                    _ => self.assign(current),
                }
            },
            _ => self.assign(current),
        }
    }

    /// Parses a declaration that begins with its qualifier at the current
    /// position.
    fn declaration(&self, current: &mut usize, qualifier: Qualifier) -> (r: Result<
        ParsedAST,
        ParseError,
    >)
        ensures
            agrees(
                r,
                *old(current),
                *final(current),
                declaration(self.ts(), self.fs(), *old(current) as int, qualifier),
            ),
            r is Ok ==> *final(current) <= self.tokens.len(),
        decreases left(self.ts(), *old(current) as int), 190nat,
    {
        proof {
            reveal(declaration);
            reveal(expression);
        }
        if *current >= self.tokens.len() {
            return Err(ParseError::UnexpectedEnd);
        }
        *current += 1;
        let identifier = match self.consume(current) {
            Ok(Token::IDENTIFIER(i)) => i.clone(),
            Ok(_) => {
                return Err(ParseError::ExpectedIdentifier);
            },
            Err(e) => {
                return Err(e);
            },
        };
        let mut typ: Option<Type> = None;
        let typed = match self.expecting(Token::COLON, current) {
            Ok(b) => b,
            Err(e) => {
                return Err(e);
            },
        };
        if typed {
            *current += 1;
            match self.parse_type(current) {
                Ok(t) => {
                    typ = Some(t);
                },
                Err(e) => {
                    return Err(e);
                },
            }
        }
        match self.consume(current) {
            Ok(_) => {},
            Err(e) => {
                return Err(e);
            },
        }
        match self.expression(current) {
            Ok(value) => Ok(ParsedAST::declaration(identifier, qualifier, typ, value)),
            Err(e) => Err(e),
        }
    }

    fn assign(&self, current: &mut usize) -> (r: Result<ParsedAST, ParseError>)
        ensures
            agrees(
                r,
                *old(current),
                *final(current),
                assign(self.ts(), self.fs(), *old(current) as int),
            ),
            r is Ok ==> *final(current) <= self.tokens.len(),
        decreases left(self.ts(), *old(current) as int), 180nat,
    {
        proof {
            reveal(assign);
            reveal(plus_or_minus);
        }
        let higher_precedence = match self.expression_instructions(current) {
            Ok(h) => h,
            Err(e) => {
                return Err(e);
            },
        };
        if !self.end(current) {
            let is_equal = match self.expecting(Token::EQUAL, current) {
                Ok(b) => b,
                Err(e) => {
                    return Err(e);
                },
            };
            if is_equal {
                *current += 1;
                return match self.expression_instructions(current) {
                    Ok(rhs) => Ok(ParsedAST::assign(higher_precedence, rhs)),
                    Err(e) => Err(e),
                };
            }
        }
        Ok(higher_precedence)
    }

    fn expression_instructions(&self, current: &mut usize) -> (r: Result<ParsedAST, ParseError>)
        ensures
            agrees(
                r,
                *old(current),
                *final(current),
                plus_or_minus(self.ts(), self.fs(), *old(current) as int),
            ),
            r is Ok ==> *final(current) <= self.tokens.len(),
        decreases left(self.ts(), *old(current) as int), 170nat, 1nat,
    {
        self.plus_or_minus(current)
    }

    fn plus_or_minus(&self, current: &mut usize) -> (r: Result<ParsedAST, ParseError>)
        ensures
            agrees(
                r,
                *old(current),
                *final(current),
                plus_or_minus(self.ts(), self.fs(), *old(current) as int),
            ),
            r is Ok ==> *final(current) <= self.tokens.len(),
        decreases left(self.ts(), *old(current) as int), 170nat, 0nat,
    {
        proof {
            reveal(plus_or_minus);
            reveal(mul_or_div);
            reveal(expression);
        }
        let higher_precedence = match self.mul_or_div(current) {
            Ok(h) => h,
            Err(e) => {
                return Err(e);
            },
        };
        if !self.end(current) {
            let next = match self.peek(current) {
                Ok(t) => t,
                Err(e) => {
                    return Err(e);
                },
            };
            match next {
                Token::PLUS | Token::MINUS => {
                    let token = next.clone();
                    *current += 1;
                    return match self.expression(current) {
                        Ok(right) => Ok(ParsedAST::binary(higher_precedence, token, right)),
                        Err(e) => Err(e),
                    };
                },
                _ => {
                    return Ok(higher_precedence);
                },
            }
        }
        Ok(higher_precedence)
    }

    fn mul_or_div(&self, current: &mut usize) -> (r: Result<ParsedAST, ParseError>)
        ensures
            agrees(
                r,
                *old(current),
                *final(current),
                mul_or_div(self.ts(), self.fs(), *old(current) as int),
            ),
            r is Ok ==> *final(current) <= self.tokens.len(),
        decreases left(self.ts(), *old(current) as int), 160nat,
    {
        proof {
            reveal(mul_or_div);
            reveal(unary);
            reveal(expression);
        }
        let higher_precedence = match self.unary(current) {
            Ok(h) => h,
            Err(e) => {
                return Err(e);
            },
        };
        if !self.end(current) {
            let next = match self.peek(current) {
                Ok(t) => t,
                Err(e) => {
                    return Err(e);
                },
            };
            match next {
                Token::STAR | Token::DIV => {
                    let token = next.clone();
                    *current += 1;
                    return match self.expression(current) {
                        Ok(right) => Ok(ParsedAST::binary(higher_precedence, token, right)),
                        Err(e) => Err(e),
                    };
                },
                _ => {
                    return Ok(higher_precedence);
                },
            }
        }
        Ok(higher_precedence)
    }

    fn unary(&self, current: &mut usize) -> (r: Result<ParsedAST, ParseError>)
        ensures
            agrees(
                r,
                *old(current),
                *final(current),
                unary(self.ts(), self.fs(), *old(current) as int),
            ),
            r is Ok ==> *final(current) <= self.tokens.len(),
        decreases left(self.ts(), *old(current) as int), 150nat,
    {
        proof {
            reveal(unary);
            reveal(expression);
            reveal(call);
        }
        let is_comp = match self.expecting(Token::COMP, current) {
            Ok(b) => b,
            Err(e) => {
                return Err(e);
            },
        };
        if is_comp {
            *current += 1;
            return match self.expression(current) {
                Ok(rhs) => Ok(ParsedAST::evaluate_now(rhs)),
                Err(e) => Err(e),
            };
        }
        self.call(current)
    }

    #[verifier::spinoff_prover]
    #[verifier::loop_isolation(false)]
    fn call(&self, current: &mut usize) -> (r: Result<ParsedAST, ParseError>)
        ensures
            agrees(
                r,
                *old(current),
                *final(current),
                call(self.ts(), self.fs(), *old(current) as int),
            ),
            r is Ok ==> *final(current) <= self.tokens.len(),
        decreases left(self.ts(), *old(current) as int), 140nat,
    {
        proof {
            reveal(call);
            reveal(struct_access);
            reveal(arguments);
            reveal(expression);
        }
        let higher_presedence = match self.struct_access(current) {
            Ok(h) => h,
            Err(e) => {
                return Err(e);
            },
        };
        if self.end(current) {
            return Ok(higher_presedence);
        }
        let previous = match self.peek_ahead(current, -1) {
            Ok(t) => t,
            Err(e) => {
                return Err(e);
            },
        };
        match previous {
            Token::IDENTIFIER(_) => {},
            _ => {
                return Ok(higher_presedence);
            },
        }
        if self.end_ahead(current, 1) {
            return Ok(higher_presedence);
        }
        match self.peek(current) {
            Ok(Token::LPAREN) => {},
            Ok(_) => {
                return Ok(higher_presedence);
            },
            Err(e) => {
                return Err(e);
            },
        }
        *current += 1;
        let ghost start = *current as int;
        let ghost whole = arguments(self.ts(), self.fs(), start, Seq::empty());
        let mut args: Vec<ParsedAST> = Vec::new();
        assert(asts_view(args@) =~= Seq::<AstModel>::empty());
        loop
            invariant
                start <= *current <= self.tokens.len(),
                items_after(
                    arguments(self.ts(), self.fs(), *current as int, asts_view(args@)),
                    *current - start,
                ) == whole,
            decreases self.tokens.len() - *current,
        {
            let closing = match self.expecting(Token::RPAREN, current) {
                Ok(b) => b,
                Err(e) => {
                    return Err(e);
                },
            };
            if closing {
                *current += 1;
                break ;
            }
            match self.expression(current) {
                Ok(a) => {
                    push_ast(&mut args, a);
                },
                Err(e) => {
                    return Err(e);
                },
            }
            let closing_next = match self.expecting(Token::RPAREN, current) {
                Ok(b) => b,
                Err(e) => {
                    return Err(e);
                },
            };
            if !closing_next {
                *current += 1;
            }
        }
        Ok(ParsedAST::call(higher_presedence, args))
    }

    #[verifier::spinoff_prover]
    fn struct_access(&self, current: &mut usize) -> (r: Result<ParsedAST, ParseError>)
        ensures
            agrees(
                r,
                *old(current),
                *final(current),
                struct_access(self.ts(), self.fs(), *old(current) as int),
            ),
            r is Ok ==> *final(current) <= self.tokens.len(),
        decreases left(self.ts(), *old(current) as int), 130nat,
    {
        proof {
            reveal(struct_access);
            reveal(single);
            reveal(expression);
        }
        let higher_precedence = match self.single(current) {
            Ok(h) => h,
            Err(e) => {
                return Err(e);
            },
        };
        if !self.end(current) {
            let is_dot = match self.expecting(Token::DOT, current) {
                Ok(b) => b,
                Err(e) => {
                    return Err(e);
                },
            };
            if is_dot {
                *current += 1;
                return match self.expression(current) {
                    Ok(rhs) => Ok(ParsedAST::access(higher_precedence, rhs)),
                    Err(e) => Err(e),
                };
            }
        }
        Ok(higher_precedence)
    }

    #[verifier::spinoff_prover]
    fn single(&self, current: &mut usize) -> (r: Result<ParsedAST, ParseError>)
        ensures
            agrees(
                r,
                *old(current),
                *final(current),
                single(self.ts(), self.fs(), *old(current) as int),
            ),
            r is Ok ==> *final(current) <= self.tokens.len(),
        decreases left(self.ts(), *old(current) as int), 120nat,
    {
        proof {
            reveal(single);
            reveal(function_at);
            reveal(block);
        }
        let first = match self.peek(current) {
            Ok(t) => t,
            Err(e) => {
                return Err(e);
            },
        };
        match first {
            Token::FN => self.function(current),
            Token::TYPE => self.type_literal(current),
            Token::TRUE => {
                *current += 1;
                Ok(ParsedAST::number(Number::INTEGER(1)))
            },
            Token::FALSE => {
                *current += 1;
                Ok(ParsedAST::number(Number::INTEGER(0)))
            },
            Token::IDENTIFIER(identifier) => {
                *current += 1;
                Ok(ParsedAST::identifier(identifier.clone()))
            },
            Token::STRING(string) => {
                *current += 1;
                Ok(ParsedAST::string(string.clone()))
            },
            Token::NUMBER(number) => {
                proof {
                    reveal(number_of);
                }
                let float = if *current < self.floats.len() {
                    self.floats[*current]
                } else {
                    None
                };
                *current += 1;
                match parse_integer(number.as_str()) {
                    Some(i) => Ok(ParsedAST::number(Number::INTEGER(i))),
                    None => match float {
                        Some(f) => Ok(ParsedAST::number(Number::FLOAT(f))),
                        None => Err(ParseError::InvalidNumber),
                    },
                }
            },
            Token::LCURLY => self.block(current),
            _ => Err(ParseError::UnexpectedToken),
        }
    }

    /// Parses a function that begins with its keyword at the current
    /// position.
    #[verifier::spinoff_prover]
    #[verifier::loop_isolation(false)]
    fn function(&self, current: &mut usize) -> (r: Result<ParsedAST, ParseError>)
        ensures
            agrees(
                r,
                *old(current),
                *final(current),
                function_at(self.ts(), self.fs(), *old(current) as int),
            ),
            r is Ok ==> *final(current) <= self.tokens.len(),
        decreases left(self.ts(), *old(current) as int), 110nat,
    {
        proof {
            reveal(function_at);
            reveal(statement);
        }
        if *current >= self.tokens.len() {
            return Err(ParseError::UnexpectedEnd);
        }
        *current += 1;
        let identifier = match self.consume(current) {
            Ok(t) => t,
            Err(e) => {
                return Err(e);
            },
        };
        let mut params: Vec<Decl> = Vec::new();
        assert(decls_view(params@) =~= Seq::<DeclModel>::empty());
        let has_params = match self.expecting(Token::LPAREN, current) {
            Ok(b) => b,
            Err(e) => {
                return Err(e);
            },
        };
        if has_params {
            *current += 1;
            let ghost start = *current as int;
            let ghost whole = parameters(self.ts(), start, Seq::empty());
            loop
                invariant
                    start <= *current <= self.tokens.len(),
                    params_after(
                        parameters(self.ts(), *current as int, decls_view(params@)),
                        *current - start,
                    ) == whole,
                decreases self.tokens.len() - *current,
            {
                let closing = match self.expecting(Token::RPAREN, current) {
                    Ok(b) => b,
                    Err(e) => {
                        return Err(e);
                    },
                };
                if closing {
                    *current += 1;
                    break ;
                }
                let name = match self.consume(current) {
                    Ok(t) => t,
                    Err(e) => {
                        return Err(e);
                    },
                };
                match self.consume(current) {
                    Ok(_) => {},
                    Err(e) => {
                        return Err(e);
                    },
                }
                let typ = match self.parse_type(current) {
                    Ok(t) => t,
                    Err(e) => {
                        return Err(e);
                    },
                };
                let i = match name {
                    Token::IDENTIFIER(i) => i.clone(),
                    _ => {
                        return Err(ParseError::ExpectedIdentifier);
                    },
                };
                push_decl(
                    &mut params,
                    Decl {
                        identifier: i,
                        qualifier: Qualifier::CONST,
                        typ: Some(typ),
                        requires_infering: false,
                        value: None,
                    },
                );
                let closing_next = match self.expecting(Token::RPAREN, current) {
                    Ok(b) => b,
                    Err(e) => {
                        return Err(e);
                    },
                };
                if !closing_next {
                    *current += 1;
                }
            }
        }
        match identifier {
            Token::IDENTIFIER(i) => match self.statement(current) {
                Ok(body) => Ok(ParsedAST::function(i.clone(), params, body)),
                Err(e) => Err(e),
            },
            _ => Err(ParseError::ExpectedIdentifier),
        }
    }

    /// Parses a struct type literal that begins with its keyword at the
    /// current position.
    #[verifier::loop_isolation(false)]
    fn type_literal(&self, current: &mut usize) -> (r: Result<ParsedAST, ParseError>)
        ensures
            agrees(r, *old(current), *final(current), type_literal(self.ts(), *old(current) as int)),
            r is Ok ==> *final(current) <= self.tokens.len(),
    {
        proof {
            reveal(type_literal);
        }
        if *current >= self.tokens.len() {
            return Err(ParseError::UnexpectedEnd);
        }
        *current += 1;
        match self.consume(current) {
            Ok(_) => {},
            Err(e) => {
                return Err(e);
            },
        }
        let ghost start = *current as int;
        let ghost whole = fields_at(self.ts(), start, Seq::empty());
        let mut fields: Vec<Field> = Vec::new();
        assert(fields_view(fields@) =~= Seq::<FieldModel>::empty());
        loop
            invariant
                start <= *current <= self.tokens.len(),
                fields_after(
                    fields_at(self.ts(), *current as int, fields_view(fields@)),
                    *current - start,
                ) == whole,
            decreases self.tokens.len() - *current,
        {
            let closing = match self.expecting(Token::RCURLY, current) {
                Ok(b) => b,
                Err(e) => {
                    return Err(e);
                },
            };
            if closing {
                *current += 1;
                break ;
            }
            let identifier = match self.consume(current) {
                Ok(t) => t,
                Err(e) => {
                    return Err(e);
                },
            };
            match identifier {
                Token::IDENTIFIER(i) => {
                    match self.consume_expected(current, Token::COLON) {
                        Ok(_) => {},
                        Err(e) => {
                            return Err(e);
                        },
                    }
                    let token = match self.consume(current) {
                        Ok(t) => t,
                        Err(e) => {
                            return Err(e);
                        },
                    };
                    let typ = match self.type_from_token(token) {
                        Ok(t) => t,
                        Err(e) => {
                            return Err(e);
                        },
                    };
                    add_field(&mut fields, i.clone(), typ);
                },
                _ => {
                    return Err(ParseError::ExpectedIdentifier);
                },
            }
        }
        Ok(ParsedAST::struct_type(fields))
    }

    #[verifier::spinoff_prover]
    #[verifier::loop_isolation(false)]
    fn block(&self, current: &mut usize) -> (r: Result<ParsedAST, ParseError>)
        ensures
            agrees(
                r,
                *old(current),
                *final(current),
                block(self.ts(), self.fs(), *old(current) as int),
            ),
            r is Ok ==> *final(current) <= self.tokens.len(),
        decreases left(self.ts(), *old(current) as int), 110nat,
    {
        proof {
            reveal(block);
            reveal(block_items);
            reveal(statement);
        }
        match self.consume(current) {
            Ok(_) => {},
            Err(e) => {
                return Err(e);
            },
        }
        let ghost start = *current as int;
        let ghost whole = block_items(self.ts(), self.fs(), start, Seq::empty());
        let mut body: Vec<ParsedAST> = Vec::new();
        assert(asts_view(body@) =~= Seq::<AstModel>::empty());
        loop
            invariant
                start <= *current <= self.tokens.len(),
                items_after(
                    block_items(self.ts(), self.fs(), *current as int, asts_view(body@)),
                    *current - start,
                ) == whole,
            decreases self.tokens.len() - *current,
        {
            if self.end(current) {
                return Err(ParseError::UnexpectedEnd);
            }
            let closing = match self.expecting(Token::RCURLY, current) {
                Ok(b) => b,
                Err(e) => {
                    return Err(e);
                },
            };
            if closing {
                *current += 1;
                break ;
            }
            match self.statement(current) {
                Ok(s) => {
                    push_ast(&mut body, s);
                },
                Err(e) => {
                    return Err(e);
                },
            }
        }
        Ok(ParsedAST::block(body))
    }

    fn peek(&self, current: &usize) -> (r: Result<&Token, ParseError>)
        ensures
            match r {
                Ok(t) => token_at(self.ts(), *current as int) == Ok::<TokenModel, ParseError>(t@)
                    && *current < self.tokens.len(),
                Err(e) => token_at(self.ts(), *current as int) == Err::<TokenModel, ParseError>(e),
            },
    {
        if *current < self.tokens.len() {
            Ok(&self.tokens[*current])
        } else {
            Err(ParseError::UnexpectedEnd)
        }
    }

    fn peek_ahead(&self, current: &usize, amount: i32) -> (r: Result<&Token, ParseError>)
        ensures
            match r {
                Ok(t) => token_at(self.ts(), *current + amount) == Ok::<TokenModel, ParseError>(
                    t@,
                ),
                Err(e) => token_at(self.ts(), *current + amount) == Err::<
                    TokenModel,
                    ParseError,
                >(e),
            },
    {
        if self.end_ahead(current, amount) {
            Err(ParseError::UnexpectedEnd)
        } else if amount >= 0 {
            Ok(&self.tokens[*current + amount as usize])
        } else {
            Ok(&self.tokens[*current - (-(amount as i64)) as usize])
        }
    }

    fn end(&self, current: &usize) -> (r: bool)
        ensures
            r == (*current >= self.tokens.len()),
    {
        *current >= self.tokens.len()
    }

    fn end_ahead(&self, current: &usize, amount: i32) -> (r: bool)
        ensures
            r == !(0 <= *current + amount < self.tokens.len()),
    {
        let n = self.tokens.len();
        if amount >= 0 {
            *current >= n || amount as usize >= n - *current
        } else {
            let back = (-(amount as i64)) as usize;
            back > *current || *current - back >= n
        }
    }

    fn expecting(&self, token: Token, current: &usize) -> (r: Result<bool, ParseError>)
        ensures
            match r {
                Ok(b) => token_at(self.ts(), *current as int) is Ok && b == (token_at(
                    self.ts(),
                    *current as int,
                )->Ok_0 == token@) && *current < self.tokens.len(),
                Err(e) => token_at(self.ts(), *current as int) == Err::<TokenModel, ParseError>(e),
            },
    {
        match self.peek(current) {
            Ok(next) => Ok(token.same_as(next)),
            Err(e) => Err(e),
        }
    }

    fn consume(&self, current: &mut usize) -> (r: Result<&Token, ParseError>)
        ensures
            match r {
                Ok(t) => token_at(self.ts(), *old(current) as int) == Ok::<
                    TokenModel,
                    ParseError,
                >(t@) && *final(current) == *old(current) + 1 && *final(current)
                    <= self.tokens.len(),
                Err(e) => token_at(self.ts(), *old(current) as int) == Err::<
                    TokenModel,
                    ParseError,
                >(e) && *final(current) == *old(current),
            },
    {
        if *current < self.tokens.len() {
            let t = &self.tokens[*current];
            *current += 1;
            Ok(t)
        } else {
            Err(ParseError::UnexpectedEnd)
        }
    }

    fn consume_expected(&self, current: &mut usize, token_expected: Token) -> (r: Result<
        &Token,
        ParseError,
    >)
        ensures
            match r {
                Ok(t) => token_at(self.ts(), *old(current) as int) == Ok::<
                    TokenModel,
                    ParseError,
                >(t@) && t@ == token_expected@ && *final(current) == *old(current) + 1
                    && *final(current) <= self.tokens.len(),
                Err(e) => *final(current) == *old(current) && (match token_at(
                    self.ts(),
                    *old(current) as int,
                ) {
                    Ok(t) => t != token_expected@ && e == ParseError::UnexpectedToken,
                    Err(end) => e == end,
                }),
            },
    {
        if *current < self.tokens.len() {
            let t = &self.tokens[*current];
            if !t.same_as(&token_expected) {
                return Err(ParseError::UnexpectedToken);
            }
            *current += 1;
            Ok(t)
        } else {
            Err(ParseError::UnexpectedEnd)
        }
    }

    fn type_from_token(&self, token: &Token) -> (r: Result<Type, ParseError>)
        ensures
            match r {
                Ok(t) => field_type(token@) == Ok::<TypeModel, ParseError>(t@),
                Err(e) => field_type(token@) == Err::<TypeModel, ParseError>(e),
            },
    {
        match token {
            Token::U32 => Ok(Type::U32),
            Token::I32 => Ok(Type::I32),
            _ => Err(ParseError::ExpectedType),
        }
    }
}

} // verus!
