use synth::lex::{LexError, Lexer};
use synth::token::Token;

fn lex(source: &str) -> (Result<(), LexError>, Vec<Token>, usize) {
    let mut lexer = Lexer::new();
    let result = lexer.lex(Box::new(source.to_string()));
    (result, *lexer.tokens, lexer.current)
}

fn tokens(source: &str) -> Vec<Token> {
    let (result, tokens, current) = lex(source);
    assert_eq!(result, Ok(()));
    assert!(current >= source.chars().count());
    tokens
}

fn word(s: &str) -> Token {
    Token::IDENTIFIER(s.to_string())
}

fn number(s: &str) -> Token {
    Token::NUMBER(s.to_string())
}

fn string(s: &str) -> Token {
    Token::STRING(s.to_string())
}

#[test]
fn a_new_lexer_is_empty() {
    let lexer = Lexer::new();
    assert_eq!(lexer.current, 0);
    assert_eq!(*lexer.program, "");
    assert!(lexer.tokens.is_empty());
}

#[test]
fn empty_text_has_no_tokens() {
    assert_eq!(tokens(""), vec![]);
    assert_eq!(tokens(" \n\t\r "), vec![]);
}

#[test]
fn lexes_a_declaration() {
    assert_eq!(
        tokens("const x = 2"),
        vec![Token::CONST, word("x"), Token::EQUAL, number("2")]
    );
}

#[test]
fn lexes_three_declarations() {
    assert_eq!(
        tokens("const x = 2; const y = 3; const z = x + y;"),
        vec![
            Token::CONST,
            word("x"),
            Token::EQUAL,
            number("2"),
            Token::SEMICOLON,
            Token::CONST,
            word("y"),
            Token::EQUAL,
            number("3"),
            Token::SEMICOLON,
            Token::CONST,
            word("z"),
            Token::EQUAL,
            word("x"),
            Token::PLUS,
            word("y"),
            Token::SEMICOLON,
        ]
    );
}

#[test]
fn lexes_every_symbol() {
    assert_eq!(
        tokens("$@#+-*/ {}()[].,:;="),
        vec![
            Token::DOLLAR,
            Token::AT,
            Token::HASH,
            Token::PLUS,
            Token::MINUS,
            Token::STAR,
            Token::DIV,
            Token::LCURLY,
            Token::RCURLY,
            Token::LPAREN,
            Token::RPAREN,
            Token::LBRACKET,
            Token::RBRACKET,
            Token::DOT,
            Token::COMMA,
            Token::COLON,
            Token::SEMICOLON,
            Token::EQUAL,
        ]
    );
}

#[test]
fn lexes_every_keyword() {
    assert_eq!(
        tokens("bool const comp else false fn f32 for i32 if mut pub priv ret true type u32 var      "),
        vec![
            Token::BOOL,
            Token::CONST,
            Token::COMP,
            Token::ELSE,
            Token::FALSE,
            Token::FN,
            Token::F32,
            Token::FOR,
            Token::I32,
            Token::IF,
            Token::MUT,
            Token::PUB,
            Token::PRIV,
            Token::RET,
            Token::TRUE,
            Token::TYPE,
            Token::U32,
            Token::VAR,
        ]
    );
}

#[test]
fn a_keyword_is_found_at_the_start_of_a_longer_word() {
    assert_eq!(tokens("iffy      "), vec![Token::IF, word("fy")]);
    assert_eq!(tokens("constant      "), vec![Token::CONST, word("ant")]);
    assert_eq!(tokens("variable      "), vec![Token::VAR, word("iable")]);
    assert_eq!(tokens("format     "), vec![Token::FOR, word("mat")]);
    assert_eq!(tokens("formut     "), vec![Token::FOR, Token::MUT]);
}

#[test]
fn a_keyword_is_not_found_inside_a_word() {
    assert_eq!(tokens("xif       "), vec![word("xif")]);
    assert_eq!(tokens("gift      "), vec![word("gift")]);
}

#[test]
fn words_that_begin_like_keywords_are_identifiers() {
    assert_eq!(tokens("boo      "), vec![word("boo")]);
    assert_eq!(tokens("printf      "), vec![word("printf")]);
    assert_eq!(tokens("tree      "), vec![word("tree")]);
    assert_eq!(tokens("mug us      "), vec![word("mug"), word("us")]);
}

#[test]
fn a_word_at_the_end_that_begins_like_a_keyword_is_an_identifier() {
    assert_eq!(tokens("b"), vec![word("b")]);
    assert_eq!(tokens("boo"), vec![word("boo")]);
    assert_eq!(tokens("fn x"), vec![Token::FN, word("x")]);
    assert_eq!(tokens("x = v"), vec![word("x"), Token::EQUAL, word("v")]);
    assert_eq!(tokens("a + f"), vec![word("a"), Token::PLUS, word("f")]);
    assert_eq!(tokens("tru"), vec![word("tru")]);
    assert_eq!(tokens("p"), vec![word("p")]);
}

#[test]
fn a_keyword_at_the_end_is_a_keyword() {
    assert_eq!(tokens("bool"), vec![Token::BOOL]);
    assert_eq!(tokens("if"), vec![Token::IF]);
    assert_eq!(tokens("x fn"), vec![word("x"), Token::FN]);
    assert_eq!(tokens("for"), vec![Token::FOR]);
    assert_eq!(tokens("true"), vec![Token::TRUE]);
    assert_eq!(tokens("ret"), vec![Token::RET]);
}

#[test]
fn identifiers_are_letters_and_underscores() {
    assert_eq!(tokens("snake_case"), vec![word("snake_case")]);
    assert_eq!(tokens("x1"), vec![word("x"), number("1")]);
    assert_eq!(tokens("a_1"), vec![word("a_"), number("1")]);
    assert_eq!(tokens("\u{e9}t\u{e9} \u{3b1}\u{3b2}"), vec![word("\u{e9}t\u{e9}"), word("\u{3b1}\u{3b2}")]);
}

#[test]
fn an_identifier_does_not_begin_with_an_underscore() {
    let (result, found, current) = lex("x _y");
    assert_eq!(result, Err(LexError::InvalidCharacter));
    assert_eq!(found, vec![word("x")]);
    assert_eq!(current, 2);
}

#[test]
fn characters_that_begin_nothing_are_refused() {
    for source in ["!", "x % y", "a & z", "1 < 2", "\u{1f600}"] {
        assert_eq!(lex(source).0, Err(LexError::InvalidCharacter), "{}", source);
    }
    let (result, found, current) = lex("x = !");
    assert_eq!(result, Err(LexError::InvalidCharacter));
    assert_eq!(found, vec![word("x"), Token::EQUAL]);
    assert_eq!(current, 4);
}

#[test]
fn numbers_are_digits_and_dots() {
    assert_eq!(tokens("12.5 7"), vec![number("12.5"), number("7")]);
    assert_eq!(tokens("1.2.3"), vec![number("1.2.3")]);
    assert_eq!(tokens("007"), vec![number("007")]);
    assert_eq!(tokens("5."), vec![number("5.")]);
    assert_eq!(tokens(".5"), vec![Token::DOT, number("5")]);
    assert_eq!(tokens("-3"), vec![Token::MINUS, number("3")]);
    assert_eq!(tokens("1+2"), vec![number("1"), Token::PLUS, number("2")]);
}

#[test]
fn strings_hold_what_stands_between_their_quotes() {
    assert_eq!(tokens("\"hi\""), vec![string("hi")]);
    assert_eq!(tokens("'hi'"), vec![string("hi")]);
    assert_eq!(tokens("\"\""), vec![string("")]);
    assert_eq!(tokens("\"it's\""), vec![string("it's")]);
    assert_eq!(tokens("'say \"x\"'"), vec![string("say \"x\"")]);
    assert_eq!(tokens("\"a b\" \"c\""), vec![string("a b"), string("c")]);
    assert_eq!(tokens("\"if const 12 !\""), vec![string("if const 12 !")]);
}

#[test]
fn escapes_are_kept_as_written() {
    assert_eq!(tokens("\"a\\\"b\""), vec![string("a\\\"b")]);
    assert_eq!(tokens("\"a\\nb\""), vec![string("a\\nb")]);
    assert_eq!(tokens("\"a\\tb\""), vec![string("a\\tb")]);
    assert_eq!(tokens("'a\\'b'"), vec![string("a\\'b")]);
}

#[test]
fn other_escapes_are_refused() {
    let (result, found, current) = lex("x \"a\\qb\"");
    assert_eq!(result, Err(LexError::InvalidEscape));
    assert_eq!(found, vec![word("x")]);
    assert_eq!(current, 2);
    assert_eq!(lex("\"a\\\\b\"").0, Err(LexError::InvalidEscape));
    assert_eq!(lex("\"ab\\").0, Err(LexError::UnexpectedEnd));
}

#[test]
fn a_string_without_a_closing_quote_runs_to_the_end() {
    let (result, found, current) = lex("\"abc");
    assert_eq!(result, Ok(()));
    assert_eq!(found, vec![string("abc")]);
    assert_eq!(current, 5);
    let (result, found, current) = lex("'");
    assert_eq!(result, Ok(()));
    assert_eq!(found, vec![string("")]);
    assert_eq!(current, 2);
}

#[test]
fn a_comment_runs_to_the_end_of_its_line() {
    assert_eq!(tokens("x // note here\ny"), vec![word("x"), word("y")]);
    assert_eq!(tokens("x // note\r\ny"), vec![word("x"), word("y")]);
    assert_eq!(tokens("//\n"), vec![]);
    assert_eq!(tokens("// if ! \"\n1"), vec![number("1")]);
}

#[test]
fn a_comment_may_end_with_the_text() {
    assert_eq!(tokens("x // note"), vec![word("x")]);
    assert_eq!(tokens("//"), vec![]);
    assert_eq!(tokens("x //"), vec![word("x")]);
    let (result, found, current) = lex("x // note");
    assert_eq!(result, Ok(()));
    assert_eq!(found, vec![word("x")]);
    assert_eq!(current, 9);
}

#[test]
fn a_slash_is_the_division_sign() {
    assert_eq!(tokens("a / z"), vec![word("a"), Token::DIV, word("z")]);
    assert_eq!(tokens("/ /\n"), vec![Token::DIV, Token::DIV]);
    assert_eq!(tokens("a /"), vec![word("a"), Token::DIV]);
    assert_eq!(tokens("/"), vec![Token::DIV]);
}

#[test]
fn lexing_goes_on_from_the_current_position() {
    let mut lexer = Lexer::new();
    assert_eq!(lexer.lex(Box::new("a + ".to_string())), Ok(()));
    assert_eq!(lexer.current, 4);
    assert_eq!(lexer.lex(Box::new("a + 12 * z".to_string())), Ok(()));
    assert_eq!(
        *lexer.tokens,
        vec![word("a"), Token::PLUS, number("12"), Token::STAR, word("z")]
    );
    assert_eq!(*lexer.program, "a + 12 * z");
    assert_eq!(lexer.current, 10);
}

#[test]
fn positions_count_characters() {
    let (result, found, current) = lex("\u{e9}\u{e9} \"\u{3b1}\" !");
    assert_eq!(result, Err(LexError::InvalidCharacter));
    assert_eq!(found, vec![word("\u{e9}\u{e9}"), string("\u{3b1}")]);
    assert_eq!(current, 7);
}
