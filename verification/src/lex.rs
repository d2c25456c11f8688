use crate::text::{is_decimal_digit, is_digit};
use crate::token::{opt_token_view, tokens_view, Token, TokenModel};
use vstd::prelude::*;
use vstd::string::{StrSliceExecFns, StringExecFns};

verus! {

/// Why lexing stopped.
#[derive(Debug, Clone, Copy, PartialEq, Eq, Structural)]
pub enum LexError {
    /// The text ends right after a backslash in a string.
    UnexpectedEnd,
    /// A backslash in a string is followed by something other than a quote,
    /// `n` or `t`.
    InvalidEscape,
    /// The character starts no token.
    InvalidCharacter,
}

/// Whether a character has the Unicode property Alphabetic.
pub uninterp spec fn char_is_alphabetic(c: char) -> bool;

/// Asks `char::is_alphabetic`. The answer depends on the character alone;
/// the contract gives it a name and says nothing more of it.
#[verifier::external_body]
fn is_alphabetic(c: char) -> (r: bool)
    ensures
        r == char_is_alphabetic(c),
{
    c.is_alphabetic()
}

/// Whether a character can stand in a number: a digit or a dot.
pub open spec fn is_number_char(c: char) -> bool {
    is_decimal_digit(c) || c == '.'
}

/// Whether a character can stand in an identifier: a letter or an underscore.
pub open spec fn is_identifier_char(c: char) -> bool {
    char_is_alphabetic(c) || c == '_'
}

/// Whether a character separates tokens without being one.
pub open spec fn is_blank(c: char) -> bool {
    c == '\n' || c == '\t' || c == '\r' || c == ' '
}

/// The token that a character is by itself, if it is one.
pub open spec fn symbol_of(c: char) -> Option<TokenModel> {
    if c == '$' {
        Some(TokenModel::DOLLAR)
    } else if c == '@' {
        Some(TokenModel::AT)
    } else if c == '#' {
        Some(TokenModel::HASH)
    } else if c == '+' {
        Some(TokenModel::PLUS)
    } else if c == '-' {
        Some(TokenModel::MINUS)
    } else if c == '*' {
        Some(TokenModel::STAR)
    } else if c == '{' {
        Some(TokenModel::LCURLY)
    } else if c == '}' {
        Some(TokenModel::RCURLY)
    } else if c == '(' {
        Some(TokenModel::LPAREN)
    } else if c == ')' {
        Some(TokenModel::RPAREN)
    } else if c == '[' {
        Some(TokenModel::LBRACKET)
    } else if c == ']' {
        Some(TokenModel::RBRACKET)
    } else if c == '.' {
        Some(TokenModel::DOT)
    } else if c == ',' {
        Some(TokenModel::COMMA)
    } else if c == ':' {
        Some(TokenModel::COLON)
    } else if c == ';' {
        Some(TokenModel::SEMICOLON)
    } else if c == '=' {
        Some(TokenModel::EQUAL)
    } else {
        None
    }
}

/// A keyword and the token it stands for.
pub struct KeywordModel {
    pub text: Seq<char>,
    pub token: TokenModel,
}

/// The keywords that begin with a character, in the order in which they
/// are tried.
pub open spec fn keywords_of(c: char) -> Seq<KeywordModel> {
    if c == 'b' {
        seq![KeywordModel { text: "bool"@, token: TokenModel::BOOL }]
    } else if c == 'c' {
        seq![
            KeywordModel { text: "const"@, token: TokenModel::CONST },
            KeywordModel { text: "comp"@, token: TokenModel::COMP },
        ]
    } else if c == 'e' {
        seq![KeywordModel { text: "else"@, token: TokenModel::ELSE }]
    } else if c == 'f' {
        seq![
            KeywordModel { text: "false"@, token: TokenModel::FALSE },
            KeywordModel { text: "fn"@, token: TokenModel::FN },
            KeywordModel { text: "f32"@, token: TokenModel::F32 },
            KeywordModel { text: "for"@, token: TokenModel::FOR },
        ]
    } else if c == 'i' {
        seq![
            KeywordModel { text: "i32"@, token: TokenModel::I32 },
            KeywordModel { text: "if"@, token: TokenModel::IF },
        ]
    } else if c == 'm' {
        seq![KeywordModel { text: "mut"@, token: TokenModel::MUT }]
    } else if c == 'p' {
        seq![
            KeywordModel { text: "pub"@, token: TokenModel::PUB },
            KeywordModel { text: "priv"@, token: TokenModel::PRIV },
        ]
    } else if c == 'r' {
        seq![KeywordModel { text: "ret"@, token: TokenModel::RET }]
    } else if c == 't' {
        seq![
            KeywordModel { text: "true"@, token: TokenModel::TRUE },
            KeywordModel { text: "type"@, token: TokenModel::TYPE },
        ]
    } else if c == 'u' {
        seq![KeywordModel { text: "u32"@, token: TokenModel::U32 }]
    } else if c == 'v' {
        seq![KeywordModel { text: "var"@, token: TokenModel::VAR }]
    } else {
        Seq::empty()
    }
}

/// What one token takes up: the token, or none where the text is only
/// skipped, and how many characters it takes beyond its first.
pub struct Scanned {
    pub token: Option<TokenModel>,
    pub extra: nat,
}

/// Whether the text holds a keyword at a position. A text that ends
/// before the keyword would holds none there.
pub open spec fn keyword_matches(p: Seq<char>, at: int, keyword: Seq<char>) -> bool {
    0 <= at && at + keyword.len() <= p.len() && p.subrange(at, at + keyword.len()) == keyword
}

/// The first of the candidates, from position `from` of their list on, that
/// the text holds at a position.
pub open spec fn first_keyword(
    p: Seq<char>,
    at: int,
    candidates: Seq<KeywordModel>,
    from: int,
) -> Option<Scanned>
    decreases candidates.len() - from,
{
    if 0 <= from < candidates.len() {
        if keyword_matches(p, at, candidates[from].text) {
            Some(
                Scanned {
                    token: Some(candidates[from].token),
                    extra: (candidates[from].text.len() - 1) as nat,
                },
            )
        } else {
            first_keyword(p, at, candidates, from + 1)
        }
    } else {
        None
    }
}

/// How many characters that can stand in a number follow each other from a
/// position on.
pub open spec fn number_run(p: Seq<char>, from: int) -> nat
    decreases p.len() - from,
{
    if 0 <= from < p.len() && is_number_char(p[from]) {
        1 + number_run(p, from + 1)
    } else {
        0
    }
}

/// How many characters that can stand in an identifier follow each other
/// from a position on.
pub open spec fn identifier_run(p: Seq<char>, from: int) -> nat
    decreases p.len() - from,
{
    if 0 <= from < p.len() && is_identifier_char(p[from]) {
        1 + identifier_run(p, from + 1)
    } else {
        0
    }
}

/// How far the rest of a line comment reaches: the number of characters
/// from a position up to the next line end, or up to the end of the text.
pub open spec fn comment_run(p: Seq<char>, from: int) -> nat
    decreases p.len() - from,
{
    if 0 <= from < p.len() && p[from] != '\n' && p[from] != '\r' {
        1 + comment_run(p, from + 1)
    } else {
        0
    }
}

/// Whether a character may follow a backslash in a string.
pub open spec fn is_escapable(c: char) -> bool {
    c == '"' || c == '\'' || c == 'n' || c == 't'
}

/// How far the inside of a string reaches from a position on: up to the
/// closing quote or the end of the text. A backslash takes the character
/// after it along.
pub open spec fn string_run(p: Seq<char>, from: int, quote: char) -> Result<nat, LexError>
    decreases p.len() - from,
{
    if 0 <= from < p.len() && p[from] != quote {
        if p[from] == '\\' {
            if from + 1 >= p.len() {
                Err(LexError::UnexpectedEnd)
            } else if !is_escapable(p[from + 1]) {
                Err(LexError::InvalidEscape)
            } else {
                match string_run(p, from + 2, quote) {
                    Ok(n) => Ok(n + 2),
                    Err(e) => Err(e),
                }
            }
        } else {
            match string_run(p, from + 1, quote) {
                Ok(n) => Ok(n + 1),
                Err(e) => Err(e),
            }
        }
    } else {
        Ok(0)
    }
}

/// What a slash begins: a comment up to the end of its line, where a second
/// slash follows, and the division sign otherwise.
pub open spec fn slash_at(p: Seq<char>, at: int) -> Scanned {
    if at + 1 < p.len() && p[at + 1] == '/' {
        Scanned { token: None, extra: comment_run(p, at + 2) + 1 }
    } else {
        Scanned { token: Some(TokenModel::DIV), extra: 0 }
    }
}

/// What a character that is no symbol and begins no keyword begins: a
/// number, an identifier or a string. The text of a string is what stands
/// between its quotes, escapes as they were written.
pub open spec fn other_at(p: Seq<char>, at: int) -> Result<Scanned, LexError> {
    let c = p[at];
    if is_decimal_digit(c) {
        let n = number_run(p, at + 1);
        Ok(Scanned { token: Some(TokenModel::NUMBER(p.subrange(at, at + 1 + n))), extra: n })
    } else if char_is_alphabetic(c) {
        let n = identifier_run(p, at + 1);
        Ok(Scanned { token: Some(TokenModel::IDENTIFIER(p.subrange(at, at + 1 + n))), extra: n })
    } else if c == '"' || c == '\'' {
        match string_run(p, at + 1, c) {
            Ok(n) => Ok(
                Scanned {
                    token: Some(TokenModel::STRING(p.subrange(at + 1, at + 1 + n))),
                    extra: n + 1,
                },
            ),
            Err(e) => Err(e),
        }
    } else {
        Err(LexError::InvalidCharacter)
    }
}

/// The token that begins at a position.
pub open spec fn token_at(p: Seq<char>, at: int) -> Result<Scanned, LexError> {
    let c = p[at];
    if is_blank(c) {
        Ok(Scanned { token: None, extra: 0 })
    } else if c == '/' {
        Ok(slash_at(p, at))
    } else if symbol_of(c) is Some {
        Ok(Scanned { token: symbol_of(c), extra: 0 })
    } else {
        match first_keyword(p, at, keywords_of(c), 0) {
            Some(found) => Ok(found),
            None => other_at(p, at),
        }
    }
}

/// Outcome of lexing: where it stopped, the tokens up to there, and the
/// error if it stopped on one.
pub struct Lexed {
    pub current: int,
    pub tokens: Seq<TokenModel>,
    pub error: Option<LexError>,
}

/// The meaning of lexing: from a position on, token after token, to the end
/// of the text or to the first token that fails. On failure the position is
/// that of the failing token's first character.
pub open spec fn lex_from(p: Seq<char>, at: int, tokens: Seq<TokenModel>) -> Lexed
    decreases p.len() - at,
{
    if 0 <= at < p.len() {
        match token_at(p, at) {
            Err(e) => Lexed { current: at, tokens, error: Some(e) },
            Ok(found) => {
                let next = at + 1 + found.extra;
                let grown = match found.token {
                    Some(t) => tokens.push(t),
                    None => tokens,
                };
                if next < p.len() {
                    lex_from(p, next, grown)
                } else {
                    Lexed { current: next, tokens: grown, error: None }
                }
            },
        }
    } else {
        Lexed { current: at, tokens, error: None }
    }
}

/// A keyword and the token it stands for.
pub struct Keyword {
    pub text: &'static str,
    pub token: Token,
}

impl View for Keyword {
    type V = KeywordModel;

    open spec fn view(&self) -> KeywordModel {
        KeywordModel { text: self.text@, token: self.token@ }
    }
}

/// Models of a list of keywords, element by element.
pub open spec fn keywords_view(keywords: Seq<Keyword>) -> Seq<KeywordModel> {
    Seq::new(keywords.len(), |i: int| keywords[i]@)
}

fn keyword_list(c: char) -> (r: Vec<Keyword>)
    ensures
        keywords_view(r@) == keywords_of(c),
        forall|i: int| 0 <= i < r.len() ==> (#[trigger] r[i]).text@.len() > 0,
{
    proof {
        reveal_strlit("bool");
        reveal_strlit("const");
        reveal_strlit("comp");
        reveal_strlit("else");
        reveal_strlit("false");
        reveal_strlit("fn");
        reveal_strlit("f32");
        reveal_strlit("for");
        reveal_strlit("i32");
        reveal_strlit("if");
        reveal_strlit("mut");
        reveal_strlit("pub");
        reveal_strlit("priv");
        reveal_strlit("ret");
        reveal_strlit("true");
        reveal_strlit("type");
        reveal_strlit("u32");
        reveal_strlit("var");
    }
    let mut r: Vec<Keyword> = Vec::new();
    if c == 'b' {
        r.push(Keyword { text: "bool", token: Token::BOOL });
    } else if c == 'c' {
        r.push(Keyword { text: "const", token: Token::CONST });
        r.push(Keyword { text: "comp", token: Token::COMP });
    } else if c == 'e' {
        r.push(Keyword { text: "else", token: Token::ELSE });
    } else if c == 'f' {
        r.push(Keyword { text: "false", token: Token::FALSE });
        r.push(Keyword { text: "fn", token: Token::FN });
        r.push(Keyword { text: "f32", token: Token::F32 });
        r.push(Keyword { text: "for", token: Token::FOR });
    } else if c == 'i' {
        r.push(Keyword { text: "i32", token: Token::I32 });
        r.push(Keyword { text: "if", token: Token::IF });
    } else if c == 'm' {
        r.push(Keyword { text: "mut", token: Token::MUT });
    } else if c == 'p' {
        r.push(Keyword { text: "pub", token: Token::PUB });
        r.push(Keyword { text: "priv", token: Token::PRIV });
    } else if c == 'r' {
        r.push(Keyword { text: "ret", token: Token::RET });
    } else if c == 't' {
        r.push(Keyword { text: "true", token: Token::TRUE });
        r.push(Keyword { text: "type", token: Token::TYPE });
    } else if c == 'u' {
        r.push(Keyword { text: "u32", token: Token::U32 });
    } else if c == 'v' {
        r.push(Keyword { text: "var", token: Token::VAR });
    }
    assert(keywords_view(r@) =~= keywords_of(c));
    r
}

fn symbol(c: char) -> (r: Option<Token>)
    ensures
        opt_token_view(r) == symbol_of(c),
{
    if c == '$' {
        Some(Token::DOLLAR)
    } else if c == '@' {
        Some(Token::AT)
    } else if c == '#' {
        Some(Token::HASH)
    } else if c == '+' {
        Some(Token::PLUS)
    } else if c == '-' {
        Some(Token::MINUS)
    } else if c == '*' {
        Some(Token::STAR)
    } else if c == '{' {
        Some(Token::LCURLY)
    } else if c == '}' {
        Some(Token::RCURLY)
    } else if c == '(' {
        Some(Token::LPAREN)
    } else if c == ')' {
        Some(Token::RPAREN)
    } else if c == '[' {
        Some(Token::LBRACKET)
    } else if c == ']' {
        Some(Token::RBRACKET)
    } else if c == '.' {
        Some(Token::DOT)
    } else if c == ',' {
        Some(Token::COMMA)
    } else if c == ':' {
        Some(Token::COLON)
    } else if c == ';' {
        Some(Token::SEMICOLON)
    } else if c == '=' {
        Some(Token::EQUAL)
    } else {
        None
    }
}

/// Turns source text into tokens.
pub struct Lexer {
    /// Index of the next character to look at.
    pub current: usize,
    /// The source text.
    pub program: Box<String>,
    /// The tokens found so far.
    pub tokens: Box<Vec<Token>>,
}

impl Lexer {
    /// The tokens found so far, as a mathematical sequence.
    pub open spec fn found(&self) -> Seq<TokenModel> {
        tokens_view(self.tokens@)
    }

    /// A lexer at the start of an empty text, with no tokens.
    pub fn new() -> (r: Lexer)
        ensures
            r.current == 0,
            r.program@ == Seq::<char>::empty(),
            r.found() == Seq::<TokenModel>::empty(),
    {
        let r = Lexer {
            current: 0,
            program: Box::new(String::from_str("")),
            tokens: Box::new(Vec::new()),
        };
        proof {
            reveal_strlit("");
            assert(r.program@ =~= Seq::<char>::empty());
            assert(r.found() =~= Seq::<TokenModel>::empty());
        }
        r
    }

    /// Lexes a text from the current position on, and appends the tokens to
    /// those found so far.
    #[verifier::loop_isolation(false)]
    pub fn lex(&mut self, program: Box<String>) -> (r: Result<(), LexError>)
        requires
            program@.len() < usize::MAX,
        ensures
            final(self).program@ == program@,
            final(self).current == lex_from(
                program@,
                old(self).current as int,
                old(self).found(),
            ).current,
            final(self).found() == lex_from(
                program@,
                old(self).current as int,
                old(self).found(),
            ).tokens,
            r == (match lex_from(program@, old(self).current as int, old(self).found()).error {
                Some(e) => Err::<(), LexError>(e),
                None => Ok(()),
            }),
    {
        self.program = program;
        let ghost p = self.program@;
        let ghost whole = lex_from(p, self.current as int, self.found());
        while !self.end()
            invariant
                p == self.program@,
                p.len() < usize::MAX,
                lex_from(p, self.current as int, self.found()) == whole,
            decreases p.len() + 1 - self.current,
        {
            let ghost at = self.current as int;
            let ghost before = self.found();
            let step = self.scan_token();
            proof {
                assert(lex_from(p, at, before) == match token_at(p, at) {
                    Err(e) => Lexed { current: at, tokens: before, error: Some(e) },
                    Ok(found) => lex_from(
                        p,
                        at + 1 + found.extra,
                        match found.token {
                            Some(t) => before.push(t),
                            None => before,
                        },
                    ),
                });
            }
            match step {
                Ok(()) => {},
                Err(e) => {
                    return Err(e);
                },
            }
        }
        Ok(())
    }

    fn push_token(&mut self, token: Token)
        ensures
            final(self).current == old(self).current,
            final(self).program == old(self).program,
            final(self).found() == old(self).found().push(token@),
    {
        self.tokens.push(token);
        assert(self.found() =~= old(self).found().push(token@));
    }

    fn char_at(&self, i: usize) -> (c: char)
        requires
            i < self.program@.len(),
        ensures
            c == self.program@[i as int],
    {
        self.program.as_str().get_char(i)
    }

    fn length(&self) -> (n: usize)
        ensures
            n == self.program@.len(),
    {
        self.program.as_str().unicode_len()
    }

    fn text_between(&self, from: usize, to: usize) -> (r: String)
        requires
            from <= to <= self.program@.len(),
        ensures
            r@ == self.program@.subrange(from as int, to as int),
    {
        String::from_str(self.program.as_str().substring_char(from, to))
    }

    /// Lexes the token at the current position.
    #[verifier::loop_isolation(false)]
    fn scan_token(&mut self) -> (r: Result<(), LexError>)
        requires
            old(self).current < old(self).program@.len(),
            old(self).program@.len() < usize::MAX,
        ensures
            final(self).program == old(self).program,
            final(self).current <= old(self).program@.len() + 1,
            match token_at(old(self).program@, old(self).current as int) {
                Err(e) => r == Err::<(), LexError>(e) && final(self).current == old(self).current
                    && final(self).found() == old(self).found(),
                Ok(found) => r == Ok::<(), LexError>(()) && final(self).current == old(
                    self,
                ).current + 1 + found.extra && final(self).found() == (match found.token {
                    Some(t) => old(self).found().push(t),
                    None => old(self).found(),
                }),
            },
    {
        let c = self.char_at(self.current);
        if c == '\n' || c == '\t' || c == '\r' || c == ' ' {
            self.current += 1;
            return Ok(());
        }
        if c == '/' {
            let n = self.length();
            if self.current + 1 < n && self.char_at(self.current + 1) == '/' {
                self.single_line_comment();
                return Ok(());
            }
            self.push_token(Token::DIV);
            self.current += 1;
            return Ok(());
        }
        match symbol(c) {
            Some(token) => {
                self.push_token(token);
                self.current += 1;
                return Ok(());
            },
            None => {},
        }
        let candidates = keyword_list(c);
        let ghost p = self.program@;
        let ghost at = self.current as int;
        let mut k: usize = 0;
        while k < candidates.len()
            invariant
                k <= candidates.len(),
                *self == *old(self),
                p == self.program@,
                at == self.current,
                at < p.len() < usize::MAX,
                keywords_view(candidates@) == keywords_of(c),
                forall|i: int| 0 <= i < candidates.len() ==> (#[trigger] candidates[i]).text@.len() > 0,
                first_keyword(p, at, keywords_of(c), k as int) == first_keyword(
                    p,
                    at,
                    keywords_of(c),
                    0,
                ),
            decreases candidates.len() - k,
        {
            assert(keywords_of(c)[k as int] == candidates[k as int]@);
            let keyword = &candidates[k];
            if self.is_keyword(keyword.text) {
                let length = keyword.text.unicode_len();
                self.push_token(keyword.token.clone());
                self.current += length;
                return Ok(());
            }
            k += 1;
        }
        self.other()
    }

    /// Skips a comment that begins at the current position with two slashes,
    /// up to the line end that closes it or to the end of the text.
    fn single_line_comment(&mut self)
        requires
            old(self).current + 2 <= old(self).program@.len() < usize::MAX,
        ensures
            final(self).program == old(self).program,
            final(self).found() == old(self).found(),
            final(self).current <= old(self).program@.len(),
            final(self).current == old(self).current + 2 + comment_run(
                old(self).program@,
                old(self).current + 2,
            ),
    {
        let n = self.length();
        let start = self.current + 2;
        let mut cursor = start;
        while cursor < n && self.char_at(cursor) != '\n' && self.char_at(cursor) != '\r'
            invariant
                *self == *old(self),
                n == self.program@.len(),
                start == self.current + 2,
                start <= cursor <= n,
                comment_run(self.program@, start as int) == (cursor - start) + comment_run(
                    self.program@,
                    cursor as int,
                ),
            decreases n - cursor,
        {
            cursor += 1;
        }
        self.current = cursor;
    }

    /// Whether the text holds a keyword at the current position.
    fn is_keyword(&self, keyword: &str) -> (r: bool)
        ensures
            r == keyword_matches(self.program@, self.current as int, keyword@),
    {
        let n = self.length();
        let length = keyword.unicode_len();
        if self.current > n || length > n - self.current {
            return false;
        }
        let mut matched = true;
        let mut i: usize = 0;
        while i < length
            invariant
                i <= length,
                length == keyword@.len(),
                n == self.program@.len(),
                self.current + length <= n,
                matched == (forall|j: int|
                    0 <= j < i ==> self.program@[self.current + j] == keyword@[j]),
            decreases length - i,
        {
            if self.char_at(self.current + i) != keyword.get_char(i) {
                matched = false;
            }
            i += 1;
        }
        proof {
            let part = self.program@.subrange(self.current as int, self.current + length);
            if matched {
                assert(part =~= keyword@);
            } else {
                let j = choose|j: int|
                    0 <= j < length && self.program@[self.current + j] != keyword@[j];
                assert(part[j] != keyword@[j]);
            }
        }
        matched
    }

    /// Whether the whole text has been looked at.
    fn end(&self) -> (r: bool)
        ensures
            r == (self.current >= self.program@.len()),
    {
        self.current >= self.length()
    }

    /// Lexes a number, an identifier or a string at the current position.
    fn other(&mut self) -> (r: Result<(), LexError>)
        requires
            old(self).current < old(self).program@.len(),
            old(self).program@.len() < usize::MAX,
        ensures
            final(self).program == old(self).program,
            final(self).current <= old(self).program@.len() + 1,
            match other_at(old(self).program@, old(self).current as int) {
                Err(e) => r == Err::<(), LexError>(e) && final(self).current == old(self).current
                    && final(self).found() == old(self).found(),
                Ok(found) => r == Ok::<(), LexError>(()) && final(self).current == old(
                    self,
                ).current + 1 + found.extra && found.token is Some && final(self).found() == old(
                    self,
                ).found().push(found.token->0),
            },
    {
        let c = self.char_at(self.current);
        if is_digit(c) {
            self.number();
            Ok(())
        } else if is_alphabetic(c) {
            self.identifier();
            Ok(())
        } else if c == '"' || c == '\'' {
            self.string()
        } else {
            Err(LexError::InvalidCharacter)
        }
    }

    /// Lexes the digits and dots that follow each other at the current
    /// position as one number.
    fn number(&mut self)
        requires
            old(self).current <= old(self).program@.len() < usize::MAX,
        ensures
            final(self).program == old(self).program,
            final(self).current <= old(self).program@.len(),
            final(self).current == old(self).current + number_run(
                old(self).program@,
                old(self).current as int,
            ),
            final(self).found() == old(self).found().push(
                TokenModel::NUMBER(
                    old(self).program@.subrange(
                        old(self).current as int,
                        old(self).current + number_run(
                            old(self).program@,
                            old(self).current as int,
                        ),
                    ),
                ),
            ),
    {
        let n = self.length();
        let start = self.current;
        let mut cursor = start;
        while cursor < n && (is_digit(self.char_at(cursor)) || self.char_at(cursor) == '.')
            invariant
                *self == *old(self),
                n == self.program@.len(),
                start == self.current,
                start <= cursor <= n,
                number_run(self.program@, start as int) == (cursor - start) + number_run(
                    self.program@,
                    cursor as int,
                ),
            decreases n - cursor,
        {
            cursor += 1;
        }
        let s = self.text_between(start, cursor);
        self.current = cursor;
        self.push_token(Token::NUMBER(s));
    }

    /// Lexes the letters and underscores that follow each other at the
    /// current position as one identifier.
    fn identifier(&mut self)
        requires
            old(self).current <= old(self).program@.len() < usize::MAX,
        ensures
            final(self).program == old(self).program,
            final(self).current <= old(self).program@.len(),
            final(self).current == old(self).current + identifier_run(
                old(self).program@,
                old(self).current as int,
            ),
            final(self).found() == old(self).found().push(
                TokenModel::IDENTIFIER(
                    old(self).program@.subrange(
                        old(self).current as int,
                        old(self).current + identifier_run(
                            old(self).program@,
                            old(self).current as int,
                        ),
                    ),
                ),
            ),
    {
        let n = self.length();
        let start = self.current;
        let mut cursor = start;
        while cursor < n && (is_alphabetic(self.char_at(cursor)) || self.char_at(cursor) == '_')
            invariant
                *self == *old(self),
                n == self.program@.len(),
                start == self.current,
                start <= cursor <= n,
                identifier_run(self.program@, start as int) == (cursor - start) + identifier_run(
                    self.program@,
                    cursor as int,
                ),
            decreases n - cursor,
        {
            cursor += 1;
        }
        let s = self.text_between(start, cursor);
        self.current = cursor;
        self.push_token(Token::IDENTIFIER(s));
    }

    /// Lexes a string that begins with a quote at the current position.
    fn string(&mut self) -> (r: Result<(), LexError>)
        requires
            old(self).current < old(self).program@.len(),
            old(self).program@.len() < usize::MAX,
        ensures
            final(self).program == old(self).program,
            final(self).current <= old(self).program@.len() + 1,
            match string_run(
                old(self).program@,
                old(self).current + 1,
                old(self).program@[old(self).current as int],
            ) {
                Err(e) => r == Err::<(), LexError>(e) && final(self).current == old(self).current
                    && final(self).found() == old(self).found(),
                Ok(n) => r == Ok::<(), LexError>(()) && final(self).current == old(self).current
                    + 1 + n + 1 && final(self).found() == old(self).found().push(
                    TokenModel::STRING(
                        old(self).program@.subrange(
                            old(self).current + 1,
                            old(self).current + 1 + n,
                        ),
                    ),
                ),
            },
    {
        let n = self.length();
        let first_char = self.char_at(self.current);
        let start = self.current + 1;
        let mut cursor = start;
        let ghost p = self.program@;
        while cursor < n && self.char_at(cursor) != first_char
            invariant
                *self == *old(self),
                p == self.program@,
                n == p.len(),
                n < usize::MAX,
                start == self.current + 1,
                start <= cursor <= n,
                first_char == p[self.current as int],
                string_run(p, start as int, first_char) == (match string_run(
                    p,
                    cursor as int,
                    first_char,
                ) {
                    Ok(m) => Ok::<nat, LexError>((m + (cursor - start)) as nat),
                    Err(e) => Err(e),
                }),
            decreases n - cursor,
        {
            if self.char_at(cursor) == '\\' {
                if cursor + 1 >= n {
                    return Err(LexError::UnexpectedEnd);
                }
                let escaped = self.char_at(cursor + 1);
                if escaped == '"' || escaped == '\'' || escaped == 'n' || escaped == 't' {
                    cursor += 2;
                } else {
                    return Err(LexError::InvalidEscape);
                }
            } else {
                cursor += 1;
            }
        }
        let s = self.text_between(start, cursor);
        self.current = cursor + 1;
        self.push_token(Token::STRING(s));
        Ok(())
    }
}

} // verus!
