use num_bigint::BigInt;
use rlox::num::Num;
use rlox::scanner::{Scanner, Token};

fn scan(src: &str) -> Vec<Token> {
    let mut scanner = Scanner::new(src);
    scanner.try_scan_tokens().expect("the text scans")
}

fn num(v: i64) -> Token {
    Token::Number(Num::from_i64(v))
}

fn ident(s: &str) -> Token {
    Token::Identifier(s.to_string())
}

#[test]
fn scans_a_declaration() {
    assert_eq!(
        scan("var x = 1;"),
        vec![Token::Var, ident("x"), Token::Equal, num(1), Token::Semicolon, Token::Eof]
    );
}

#[test]
fn scans_single_and_double_character_operators() {
    assert_eq!(
        scan("!= == >= <= ! = > < ( ) { } , - + ; * /"),
        vec![
            Token::BangEqual,
            Token::EqualEqual,
            Token::GreaterEqual,
            Token::LessEqual,
            Token::Bang,
            Token::Equal,
            Token::Greater,
            Token::Less,
            Token::LeftParen,
            Token::RightParen,
            Token::LeftBrace,
            Token::RightBrace,
            Token::Comma,
            Token::Minus,
            Token::Plus,
            Token::Semicolon,
            Token::Star,
            Token::Slash,
            Token::Eof,
        ]
    );
}

#[test]
fn operators_end_words() {
    assert_eq!(
        scan("a+b>=c"),
        vec![ident("a"), Token::Plus, ident("b"), Token::GreaterEqual, ident("c"), Token::Eof]
    );
}

#[test]
fn scans_every_keyword() {
    assert_eq!(
        scan("and class else false fun for if nil or print return super this true var while"),
        vec![
            Token::And,
            Token::Class,
            Token::Else,
            Token::False,
            Token::Fun,
            Token::For,
            Token::If,
            Token::Nil,
            Token::Or,
            Token::Print,
            Token::Return,
            Token::Super,
            Token::This,
            Token::True,
            Token::Var,
            Token::While,
            Token::Eof,
        ]
    );
}

#[test]
fn a_word_that_only_starts_like_a_keyword_is_an_identifier() {
    assert_eq!(scan("variable iffy"), vec![ident("variable"), ident("iffy"), Token::Eof]);
}

#[test]
fn empty_text_is_just_the_end() {
    assert_eq!(scan(""), vec![Token::Eof]);
    assert_eq!(scan(" \t\n"), vec![Token::Eof]);
}

#[test]
fn comments_run_to_the_end_of_the_line() {
    assert_eq!(scan("1 // two\n3"), vec![num(1), num(3), Token::Eof]);
    assert_eq!(scan("// only a comment"), vec![Token::Eof]);
}

#[test]
fn a_comment_does_not_end_a_word() {
    assert_eq!(scan("ab//c\nd"), vec![ident("abd"), Token::Eof]);
}

#[test]
fn string_literals_with_either_quote() {
    assert_eq!(
        scan("\"hi there\" 'x'"),
        vec![
            Token::StringLiteral("hi there".to_string()),
            Token::StringLiteral("x".to_string()),
            Token::Eof
        ]
    );
}

#[test]
fn a_backslash_keeps_the_next_character() {
    assert_eq!(
        scan("\"a\\\"b\""),
        vec![Token::StringLiteral("a\\\"b".to_string()), Token::Eof]
    );
}

#[test]
fn an_unclosed_literal_is_flagged() {
    let mut scanner = Scanner::new("print \"abc");
    let tokens = scanner.try_scan_tokens().unwrap();
    assert_eq!(
        tokens,
        vec![Token::Print, Token::StringLiteral("abc".to_string()), Token::Eof]
    );
    assert!(scanner.unclosed_string);
    let mut closed = Scanner::new("\"abc\"");
    closed.try_scan_tokens().unwrap();
    assert!(!closed.unclosed_string);
}

#[test]
fn a_backslash_ending_a_literal_at_the_end_is_refused() {
    let mut scanner = Scanner::new("\"abc\\");
    assert!(scanner.try_scan_tokens().is_none());
}

#[test]
fn scan_tokens_gives_the_same_tokens() {
    let mut scanner = Scanner::new("print 1;");
    assert_eq!(scanner.scan_tokens(), vec![Token::Print, num(1), Token::Semicolon, Token::Eof]);
}

#[test]
fn a_number_after_a_number_with_a_dot_stays_one_word() {
    assert_eq!(scan("3.5"), vec![ident("3.5"), Token::Eof]);
    assert_eq!(scan("a.b"), vec![ident("a"), Token::Dot, ident("b"), Token::Eof]);
    assert_eq!(scan(".5"), vec![Token::Dot, num(5), Token::Eof]);
}

#[test]
fn minus_is_its_own_token() {
    assert_eq!(scan("-5"), vec![Token::Minus, num(5), Token::Eof]);
}

#[test]
fn numbers_may_hold_separators_and_any_size() {
    assert_eq!(scan("1_000"), vec![num(1000), Token::Eof]);
    assert_eq!(scan("_1"), vec![ident("_1"), Token::Eof]);
    let big: BigInt = "123456789012345678901234567890".parse().unwrap();
    assert_eq!(
        scan("123456789012345678901234567890"),
        vec![Token::Number(Num::from_signed_bytes_le(big.to_signed_bytes_le())), Token::Eof]
    );
}

#[test]
fn unicode_white_space_separates_words() {
    assert_eq!(scan("a\u{3000}b\u{a0}c"), vec![ident("a"), ident("b"), ident("c"), Token::Eof]);
}

#[test]
fn a_dot_joins_a_word_only_after_number_text() {
    assert_eq!(scan("1e5.2"), vec![ident("1e5.2"), Token::Eof]);
    assert_eq!(
        scan("1e.2"),
        vec![ident("1e"), Token::Dot, num(2), Token::Eof]
    );
    assert_eq!(scan("inf.5"), vec![ident("inf.5"), Token::Eof]);
    assert_eq!(scan("NaN.1"), vec![ident("NaN.1"), Token::Eof]);
    assert_eq!(scan("2..3"), vec![ident("2..3"), Token::Eof]);
}

#[test]
fn the_other_quote_is_plain_text_in_a_literal() {
    assert_eq!(
        scan("\"it's\""),
        vec![Token::StringLiteral("it's".to_string()), Token::Eof]
    );
}
