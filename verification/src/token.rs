use vstd::prelude::*;

verus! {

/// A lexical token. Numbers, strings and identifiers carry their text.
#[derive(Debug, PartialEq, Eq)]
pub enum Token {
    END,
    DOLLAR,
    AT,
    HASH,
    PLUS,
    MINUS,
    STAR,
    DIV,
    LCURLY,
    RCURLY,
    LPAREN,
    RPAREN,
    LBRACKET,
    RBRACKET,
    DOT,
    COMMA,
    COLON,
    SEMICOLON,
    EQUAL,
    NUMBER(String),
    STRING(String),
    IDENTIFIER(String),
    VAR,
    MUT,
    CONST,
    COMP,
    PUB,
    PRIV,
    U32,
    I32,
    F32,
    BOOL,
    FN,
    TYPE,
    TRUE,
    FALSE,
    IF,
    ELSE,
    FOR,
    RET,
}

/// Mathematical model of a [`Token`].
pub enum TokenModel {
    END,
    DOLLAR,
    AT,
    HASH,
    PLUS,
    MINUS,
    STAR,
    DIV,
    LCURLY,
    RCURLY,
    LPAREN,
    RPAREN,
    LBRACKET,
    RBRACKET,
    DOT,
    COMMA,
    COLON,
    SEMICOLON,
    EQUAL,
    NUMBER(Seq<char>),
    STRING(Seq<char>),
    IDENTIFIER(Seq<char>),
    VAR,
    MUT,
    CONST,
    COMP,
    PUB,
    PRIV,
    U32,
    I32,
    F32,
    BOOL,
    FN,
    TYPE,
    TRUE,
    FALSE,
    IF,
    ELSE,
    FOR,
    RET,
}

impl View for Token {
    type V = TokenModel;

    open spec fn view(&self) -> TokenModel {
        match self {
            Token::END => TokenModel::END,
            Token::DOLLAR => TokenModel::DOLLAR,
            Token::AT => TokenModel::AT,
            Token::HASH => TokenModel::HASH,
            Token::PLUS => TokenModel::PLUS,
            Token::MINUS => TokenModel::MINUS,
            Token::STAR => TokenModel::STAR,
            Token::DIV => TokenModel::DIV,
            Token::LCURLY => TokenModel::LCURLY,
            Token::RCURLY => TokenModel::RCURLY,
            Token::LPAREN => TokenModel::LPAREN,
            Token::RPAREN => TokenModel::RPAREN,
            Token::LBRACKET => TokenModel::LBRACKET,
            Token::RBRACKET => TokenModel::RBRACKET,
            Token::DOT => TokenModel::DOT,
            Token::COMMA => TokenModel::COMMA,
            Token::COLON => TokenModel::COLON,
            Token::SEMICOLON => TokenModel::SEMICOLON,
            Token::EQUAL => TokenModel::EQUAL,
            Token::NUMBER(text) => TokenModel::NUMBER(text@),
            Token::STRING(text) => TokenModel::STRING(text@),
            Token::IDENTIFIER(text) => TokenModel::IDENTIFIER(text@),
            Token::VAR => TokenModel::VAR,
            Token::MUT => TokenModel::MUT,
            Token::CONST => TokenModel::CONST,
            Token::COMP => TokenModel::COMP,
            Token::PUB => TokenModel::PUB,
            Token::PRIV => TokenModel::PRIV,
            Token::U32 => TokenModel::U32,
            Token::I32 => TokenModel::I32,
            Token::F32 => TokenModel::F32,
            Token::BOOL => TokenModel::BOOL,
            Token::FN => TokenModel::FN,
            Token::TYPE => TokenModel::TYPE,
            Token::TRUE => TokenModel::TRUE,
            Token::FALSE => TokenModel::FALSE,
            Token::IF => TokenModel::IF,
            Token::ELSE => TokenModel::ELSE,
            Token::FOR => TokenModel::FOR,
            Token::RET => TokenModel::RET,
        }
    }
}

impl Clone for Token {
    fn clone(&self) -> (r: Token)
        ensures
            r@ == self@,
    {
        match self {
            Token::END => Token::END,
            Token::DOLLAR => Token::DOLLAR,
            Token::AT => Token::AT,
            Token::HASH => Token::HASH,
            Token::PLUS => Token::PLUS,
            Token::MINUS => Token::MINUS,
            Token::STAR => Token::STAR,
            Token::DIV => Token::DIV,
            Token::LCURLY => Token::LCURLY,
            Token::RCURLY => Token::RCURLY,
            Token::LPAREN => Token::LPAREN,
            Token::RPAREN => Token::RPAREN,
            Token::LBRACKET => Token::LBRACKET,
            Token::RBRACKET => Token::RBRACKET,
            Token::DOT => Token::DOT,
            Token::COMMA => Token::COMMA,
            Token::COLON => Token::COLON,
            Token::SEMICOLON => Token::SEMICOLON,
            Token::EQUAL => Token::EQUAL,
            Token::NUMBER(text) => Token::NUMBER(text.clone()),
            Token::STRING(text) => Token::STRING(text.clone()),
            Token::IDENTIFIER(text) => Token::IDENTIFIER(text.clone()),
            Token::VAR => Token::VAR,
            Token::MUT => Token::MUT,
            Token::CONST => Token::CONST,
            Token::COMP => Token::COMP,
            Token::PUB => Token::PUB,
            Token::PRIV => Token::PRIV,
            Token::U32 => Token::U32,
            Token::I32 => Token::I32,
            Token::F32 => Token::F32,
            Token::BOOL => Token::BOOL,
            Token::FN => Token::FN,
            Token::TYPE => Token::TYPE,
            Token::TRUE => Token::TRUE,
            Token::FALSE => Token::FALSE,
            Token::IF => Token::IF,
            Token::ELSE => Token::ELSE,
            Token::FOR => Token::FOR,
            Token::RET => Token::RET,
        }
    }
}

impl Token {
    /// Whether two tokens are of the same kind and carry the same text.
    pub fn same_as(&self, other: &Token) -> (r: bool)
        ensures
            r == (self@ == other@),
    {
        match (self, other) {
            (Token::END, Token::END) => true,
            (Token::DOLLAR, Token::DOLLAR) => true,
            (Token::AT, Token::AT) => true,
            (Token::HASH, Token::HASH) => true,
            (Token::PLUS, Token::PLUS) => true,
            (Token::MINUS, Token::MINUS) => true,
            (Token::STAR, Token::STAR) => true,
            (Token::DIV, Token::DIV) => true,
            (Token::LCURLY, Token::LCURLY) => true,
            (Token::RCURLY, Token::RCURLY) => true,
            (Token::LPAREN, Token::LPAREN) => true,
            (Token::RPAREN, Token::RPAREN) => true,
            (Token::LBRACKET, Token::LBRACKET) => true,
            (Token::RBRACKET, Token::RBRACKET) => true,
            (Token::DOT, Token::DOT) => true,
            (Token::COMMA, Token::COMMA) => true,
            (Token::COLON, Token::COLON) => true,
            (Token::SEMICOLON, Token::SEMICOLON) => true,
            (Token::EQUAL, Token::EQUAL) => true,
            (Token::NUMBER(a), Token::NUMBER(b)) => *a == *b,
            (Token::STRING(a), Token::STRING(b)) => *a == *b,
            (Token::IDENTIFIER(a), Token::IDENTIFIER(b)) => *a == *b,
            (Token::VAR, Token::VAR) => true,
            (Token::MUT, Token::MUT) => true,
            (Token::CONST, Token::CONST) => true,
            (Token::COMP, Token::COMP) => true,
            (Token::PUB, Token::PUB) => true,
            (Token::PRIV, Token::PRIV) => true,
            (Token::U32, Token::U32) => true,
            (Token::I32, Token::I32) => true,
            (Token::F32, Token::F32) => true,
            (Token::BOOL, Token::BOOL) => true,
            (Token::FN, Token::FN) => true,
            (Token::TYPE, Token::TYPE) => true,
            (Token::TRUE, Token::TRUE) => true,
            (Token::FALSE, Token::FALSE) => true,
            (Token::IF, Token::IF) => true,
            (Token::ELSE, Token::ELSE) => true,
            (Token::FOR, Token::FOR) => true,
            (Token::RET, Token::RET) => true,
            _ => false,
        }
    }
}

/// Model of an optional token.
pub open spec fn opt_token_view(t: Option<Token>) -> Option<TokenModel> {
    match t {
        Some(t) => Some(t@),
        None => None,
    }
}

/// Models of a sequence of tokens, element by element.
pub open spec fn tokens_view(tokens: Seq<Token>) -> Seq<TokenModel> {
    Seq::new(tokens.len(), |i: int| tokens[i]@)
}

/// Where a token stands in the source text.
pub struct Position {
    col_start: u32,
    col_end: u32,
    line_start: u32,
    line_end: u32,
}

} // verus!
