//! The scanner: source text to tokens.
use crate::num::{num_parse, parse_integer, Num};
use crate::text::{
    chars_equal, chars_of, float_syntax, is_float_text, is_white_space, is_whitespace,
    string_from_chars,
};
use vstd::prelude::*;

verus! {

broadcast use vstd::string::to_string_from_display_ensures_for_str;

/// A token of the language.
#[derive(Debug, PartialEq)]
pub enum Token {
    NoToken,
    // Single-character tokens.
    LeftParen,
    RightParen,
    LeftBrace,
    RightBrace,
    Comma,
    Dot,
    Minus,
    Plus,
    Semicolon,
    Slash,
    Star,
    // One or two character tokens.
    Bang,
    BangEqual,
    Equal,
    EqualEqual,
    Greater,
    GreaterEqual,
    Less,
    LessEqual,
    // Literals.
    Identifier(String),
    StringLiteral(String),
    Number(Num),
    // Keywords.
    And,
    Class,
    Else,
    False,
    Fun,
    For,
    If,
    Nil,
    Or,
    Print,
    Return,
    Super,
    This,
    True,
    Var,
    While,
    Eof,
}

/// A token as a mathematical value: texts as character sequences, numbers as integers.
pub enum TokenV {
    NoToken,
    LeftParen,
    RightParen,
    LeftBrace,
    RightBrace,
    Comma,
    Dot,
    Minus,
    Plus,
    Semicolon,
    Slash,
    Star,
    Bang,
    BangEqual,
    Equal,
    EqualEqual,
    Greater,
    GreaterEqual,
    Less,
    LessEqual,
    Identifier(Seq<char>),
    StringLiteral(Seq<char>),
    Number(int),
    And,
    Class,
    Else,
    False,
    Fun,
    For,
    If,
    Nil,
    Or,
    Print,
    Return,
    Super,
    This,
    True,
    Var,
    While,
    Eof,
}

impl View for Token {
    type V = TokenV;

    open spec fn view(&self) -> TokenV {
        match self {
            Token::NoToken => TokenV::NoToken,
            Token::LeftParen => TokenV::LeftParen,
            Token::RightParen => TokenV::RightParen,
            Token::LeftBrace => TokenV::LeftBrace,
            Token::RightBrace => TokenV::RightBrace,
            Token::Comma => TokenV::Comma,
            Token::Dot => TokenV::Dot,
            Token::Minus => TokenV::Minus,
            Token::Plus => TokenV::Plus,
            Token::Semicolon => TokenV::Semicolon,
            Token::Slash => TokenV::Slash,
            Token::Star => TokenV::Star,
            Token::Bang => TokenV::Bang,
            Token::BangEqual => TokenV::BangEqual,
            Token::Equal => TokenV::Equal,
            Token::EqualEqual => TokenV::EqualEqual,
            Token::Greater => TokenV::Greater,
            Token::GreaterEqual => TokenV::GreaterEqual,
            Token::Less => TokenV::Less,
            Token::LessEqual => TokenV::LessEqual,
            Token::Identifier(s) => TokenV::Identifier(s@),
            Token::StringLiteral(s) => TokenV::StringLiteral(s@),
            Token::Number(n) => TokenV::Number(n@),
            Token::And => TokenV::And,
            Token::Class => TokenV::Class,
            Token::Else => TokenV::Else,
            Token::False => TokenV::False,
            Token::Fun => TokenV::Fun,
            Token::For => TokenV::For,
            Token::If => TokenV::If,
            Token::Nil => TokenV::Nil,
            Token::Or => TokenV::Or,
            Token::Print => TokenV::Print,
            Token::Return => TokenV::Return,
            Token::Super => TokenV::Super,
            Token::This => TokenV::This,
            Token::True => TokenV::True,
            Token::Var => TokenV::Var,
            Token::While => TokenV::While,
            Token::Eof => TokenV::Eof,
        }
    }
}

/// The kind of a token, as a number: tokens of one kind differ at most in their contents.
pub open spec fn kind_of(t: TokenV) -> int {
    match t {
        TokenV::NoToken => 0,
        TokenV::LeftParen => 1,
        TokenV::RightParen => 2,
        TokenV::LeftBrace => 3,
        TokenV::RightBrace => 4,
        TokenV::Comma => 5,
        TokenV::Dot => 6,
        TokenV::Minus => 7,
        TokenV::Plus => 8,
        TokenV::Semicolon => 9,
        TokenV::Slash => 10,
        TokenV::Star => 11,
        TokenV::Bang => 12,
        TokenV::BangEqual => 13,
        TokenV::Equal => 14,
        TokenV::EqualEqual => 15,
        TokenV::Greater => 16,
        TokenV::GreaterEqual => 17,
        TokenV::Less => 18,
        TokenV::LessEqual => 19,
        TokenV::Identifier(..) => 20,
        TokenV::StringLiteral(..) => 21,
        TokenV::Number(..) => 22,
        TokenV::And => 23,
        TokenV::Class => 24,
        TokenV::Else => 25,
        TokenV::False => 26,
        TokenV::Fun => 27,
        TokenV::For => 28,
        TokenV::If => 29,
        TokenV::Nil => 30,
        TokenV::Or => 31,
        TokenV::Print => 32,
        TokenV::Return => 33,
        TokenV::Super => 34,
        TokenV::This => 35,
        TokenV::True => 36,
        TokenV::Var => 37,
        TokenV::While => 38,
        TokenV::Eof => 39,
    }
}
impl Token {
    /// The kind of the token.
    pub fn kind(&self) -> (r: u8)
        ensures
            r == kind_of(self@),
    {
        match self {
            Token::NoToken => 0,
            Token::LeftParen => 1,
            Token::RightParen => 2,
            Token::LeftBrace => 3,
            Token::RightBrace => 4,
            Token::Comma => 5,
            Token::Dot => 6,
            Token::Minus => 7,
            Token::Plus => 8,
            Token::Semicolon => 9,
            Token::Slash => 10,
            Token::Star => 11,
            Token::Bang => 12,
            Token::BangEqual => 13,
            Token::Equal => 14,
            Token::EqualEqual => 15,
            Token::Greater => 16,
            Token::GreaterEqual => 17,
            Token::Less => 18,
            Token::LessEqual => 19,
            Token::Identifier(..) => 20,
            Token::StringLiteral(..) => 21,
            Token::Number(..) => 22,
            Token::And => 23,
            Token::Class => 24,
            Token::Else => 25,
            Token::False => 26,
            Token::Fun => 27,
            Token::For => 28,
            Token::If => 29,
            Token::Nil => 30,
            Token::Or => 31,
            Token::Print => 32,
            Token::Return => 33,
            Token::Super => 34,
            Token::This => 35,
            Token::True => 36,
            Token::Var => 37,
            Token::While => 38,
            Token::Eof => 39,
        }
    }

    /// A copy of the token.
    pub fn duplicate(&self) -> (r: Token)
        ensures
            r@ == self@,
    {
        match self {
            Token::NoToken => Token::NoToken,
            Token::LeftParen => Token::LeftParen,
            Token::RightParen => Token::RightParen,
            Token::LeftBrace => Token::LeftBrace,
            Token::RightBrace => Token::RightBrace,
            Token::Comma => Token::Comma,
            Token::Dot => Token::Dot,
            Token::Minus => Token::Minus,
            Token::Plus => Token::Plus,
            Token::Semicolon => Token::Semicolon,
            Token::Slash => Token::Slash,
            Token::Star => Token::Star,
            Token::Bang => Token::Bang,
            Token::BangEqual => Token::BangEqual,
            Token::Equal => Token::Equal,
            Token::EqualEqual => Token::EqualEqual,
            Token::Greater => Token::Greater,
            Token::GreaterEqual => Token::GreaterEqual,
            Token::Less => Token::Less,
            Token::LessEqual => Token::LessEqual,
            Token::Identifier(s) => Token::Identifier(s.clone()),
            Token::StringLiteral(s) => Token::StringLiteral(s.clone()),
            Token::Number(n) => Token::Number(n.duplicate()),
            Token::And => Token::And,
            Token::Class => Token::Class,
            Token::Else => Token::Else,
            Token::False => Token::False,
            Token::Fun => Token::Fun,
            Token::For => Token::For,
            Token::If => Token::If,
            Token::Nil => Token::Nil,
            Token::Or => Token::Or,
            Token::Print => Token::Print,
            Token::Return => Token::Return,
            Token::Super => Token::Super,
            Token::This => Token::This,
            Token::True => Token::True,
            Token::Var => Token::Var,
            Token::While => Token::While,
            Token::Eof => Token::Eof,
        }
    }
}

/// The views of a sequence of tokens.
pub open spec fn tokens_view(ts: Seq<Token>) -> Seq<TokenV> {
    ts.map_values(|t: Token| t@)
}

/// The keyword that a word spells, if any.
pub open spec fn keyword(w: Seq<char>) -> Option<TokenV> {
    if w == seq!['a', 'n', 'd'] {
        Some(TokenV::And)
    } else if w == seq!['c', 'l', 'a', 's', 's'] {
        Some(TokenV::Class)
    } else if w == seq!['e', 'l', 's', 'e'] {
        Some(TokenV::Else)
    } else if w == seq!['f', 'a', 'l', 's', 'e'] {
        Some(TokenV::False)
    } else if w == seq!['f', 'u', 'n'] {
        Some(TokenV::Fun)
    } else if w == seq!['f', 'o', 'r'] {
        Some(TokenV::For)
    } else if w == seq!['i', 'f'] {
        Some(TokenV::If)
    } else if w == seq!['n', 'i', 'l'] {
        Some(TokenV::Nil)
    } else if w == seq!['o', 'r'] {
        Some(TokenV::Or)
    } else if w == seq!['p', 'r', 'i', 'n', 't'] {
        Some(TokenV::Print)
    } else if w == seq!['r', 'e', 't', 'u', 'r', 'n'] {
        Some(TokenV::Return)
    } else if w == seq!['s', 'u', 'p', 'e', 'r'] {
        Some(TokenV::Super)
    } else if w == seq!['t', 'h', 'i', 's'] {
        Some(TokenV::This)
    } else if w == seq!['t', 'r', 'u', 'e'] {
        Some(TokenV::True)
    } else if w == seq!['v', 'a', 'r'] {
        Some(TokenV::Var)
    } else if w == seq!['w', 'h', 'i', 'l', 'e'] {
        Some(TokenV::While)
    } else {
        None
    }
}

/// The token of a word: a number if it is integer text, else a keyword, else an identifier.
pub open spec fn word_token(w: Seq<char>) -> TokenV {
    match parse_integer(w) {
        Some(v) => TokenV::Number(v),
        None => match keyword(w) {
            Some(k) => k,
            None => TokenV::Identifier(w),
        },
    }
}

/// The tokens so far, with the pending word's token added when there is a pending word.
pub open spec fn flush_word(word: Seq<char>, out: Seq<TokenV>) -> Seq<TokenV> {
    if word.len() > 0 {
        out.push(word_token(word))
    } else {
        out
    }
}

/// The token of a character that is a token by itself.
pub open spec fn single_char_token(c: char) -> Option<TokenV> {
    if c == '(' {
        Some(TokenV::LeftParen)
    } else if c == ')' {
        Some(TokenV::RightParen)
    } else if c == '{' {
        Some(TokenV::LeftBrace)
    } else if c == '}' {
        Some(TokenV::RightBrace)
    } else if c == ',' {
        Some(TokenV::Comma)
    } else if c == '-' {
        Some(TokenV::Minus)
    } else if c == '+' {
        Some(TokenV::Plus)
    } else if c == ';' {
        Some(TokenV::Semicolon)
    } else if c == '*' {
        Some(TokenV::Star)
    } else {
        None
    }
}

/// For a character that may be followed by `=`: its token alone, and the token with `=`.
pub open spec fn operator_tokens(c: char) -> Option<(TokenV, TokenV)> {
    if c == '!' {
        Some((TokenV::Bang, TokenV::BangEqual))
    } else if c == '=' {
        Some((TokenV::Equal, TokenV::EqualEqual))
    } else if c == '>' {
        Some((TokenV::Greater, TokenV::GreaterEqual))
    } else if c == '<' {
        Some((TokenV::Less, TokenV::LessEqual))
    } else {
        None
    }
}

/// The index just past the first line break at or after `i`, or the end of the text.
pub open spec fn line_end(cs: Seq<char>, i: int) -> int
    decreases cs.len() - i,
{
    if i < 0 || i >= cs.len() {
        cs.len() as int
    } else if cs[i] == '\n' {
        i + 1
    } else {
        line_end(cs, i + 1)
    }
}

/// The rest of a string literal from index `i`, closed by `quote`, with `lit` read so far:
/// the literal's text, the index after it, and whether the closing quote was found.
/// A backslash keeps the character after it in the text, even a quote; a backslash as
/// the last character of the text has nothing after it (`None`).
pub open spec fn string_literal(cs: Seq<char>, i: int, quote: char, lit: Seq<char>) -> Option<
    (Seq<char>, int, bool),
>
    decreases cs.len() - i,
{
    if i < 0 || i >= cs.len() {
        Some((lit, cs.len() as int, false))
    } else if cs[i] == quote {
        Some((lit, i + 1, true))
    } else if cs[i] == '\\' {
        if i + 1 >= cs.len() {
            None
        } else {
            string_literal(cs, i + 2, quote, lit.push('\\').push(cs[i + 1]))
        }
    } else {
        string_literal(cs, i + 1, quote, lit.push(cs[i]))
    }
}

pub proof fn lemma_line_end(cs: Seq<char>, i: int)
    requires
        0 <= i < cs.len(),
    ensures
        i < line_end(cs, i) <= cs.len(),
    decreases cs.len() - i,
{
    if cs[i] != '\n' {
        if i + 1 < cs.len() {
            lemma_line_end(cs, i + 1);
        } else {
            assert(line_end(cs, i + 1) == cs.len());
        }
    }
}

pub proof fn lemma_string_literal(cs: Seq<char>, i: int, quote: char, lit: Seq<char>)
    requires
        0 <= i <= cs.len(),
    ensures
        string_literal(cs, i, quote, lit) matches Some((_, j, _)) ==> i <= j <= cs.len() && (i
            < cs.len() ==> i < j),
    decreases cs.len() - i,
{
    if 0 <= i < cs.len() && cs[i] != quote {
        if cs[i] == '\\' {
            if i + 1 < cs.len() {
                lemma_string_literal(cs, i + 2, quote, lit.push('\\').push(cs[i + 1]));
            }
        } else {
            lemma_string_literal(cs, i + 1, quote, lit.push(cs[i]));
        }
    }
}

/// The scan of `cs` from index `i`, with `word` the pending word and `out` the tokens so far:
/// the tokens, and whether a string literal was left unclosed; `None` where a backslash ends
/// the text inside a string literal.
pub open spec fn scan_from(cs: Seq<char>, i: int, word: Seq<char>, out: Seq<TokenV>) -> Option<
    (Seq<TokenV>, bool),
>
    decreases cs.len() - i,
{
    if i < 0 || i >= cs.len() {
        Some((flush_word(word, out).push(TokenV::Eof), false))
    } else {
        let c = cs[i];
        let next_is_eq = i + 1 < cs.len() && cs[i + 1] == '=';
        if single_char_token(c) is Some {
            scan_from(cs, i + 1, seq![], flush_word(word, out).push(single_char_token(c)->0))
        } else if c == '.' {
            if float_syntax(word) {
                scan_from(cs, i + 1, word.push('.'), out)
            } else {
                scan_from(cs, i + 1, seq![], flush_word(word, out).push(TokenV::Dot))
            }
        } else if operator_tokens(c) is Some {
            let (alone, with_eq) = operator_tokens(c)->0;
            if next_is_eq {
                scan_from(cs, i + 2, seq![], flush_word(word, out).push(with_eq))
            } else {
                scan_from(cs, i + 1, seq![], flush_word(word, out).push(alone))
            }
        } else if c == '/' {
            if i + 1 < cs.len() && cs[i + 1] == '/' {
                proof {
                    lemma_line_end(cs, i + 1);
                }
                scan_from(cs, line_end(cs, i + 1), word, out)
            } else {
                scan_from(cs, i + 1, seq![], flush_word(word, out).push(TokenV::Slash))
            }
        } else if c == '"' || c == '\'' {
            proof {
                lemma_string_literal(cs, i + 1, c, seq![]);
            }
            match string_literal(cs, i + 1, c, seq![]) {
                None => None,
                Some((lit, j, closed)) => match scan_from(
                    cs,
                    j,
                    seq![],
                    flush_word(word, out).push(TokenV::StringLiteral(lit)),
                ) {
                    None => None,
                    Some((ts, unclosed)) => Some((ts, unclosed || !closed)),
                },
            }
        } else if is_white_space(c) {
            scan_from(cs, i + 1, seq![], flush_word(word, out))
        } else {
            scan_from(cs, i + 1, word.push(c), out)
        }
    }
}

/// The scan of a whole text.
pub open spec fn scan(cs: Seq<char>) -> Option<(Seq<TokenV>, bool)> {
    scan_from(cs, 0, seq![], seq![])
}

/// A scan result with the unclosed-literal flag also set when `flag` is.
pub open spec fn or_unclosed(r: Option<(Seq<TokenV>, bool)>, flag: bool) -> Option<
    (Seq<TokenV>, bool),
> {
    match r {
        None => None,
        Some((ts, u)) => Some((ts, u || flag)),
    }
}

/// A token that the scanner emits before the end: neither `NoToken` nor `Eof`.
pub open spec fn is_regular(t: TokenV) -> bool {
    t !is NoToken && t !is Eof
}

pub open spec fn all_regular(ts: Seq<TokenV>) -> bool {
    forall|k: int| 0 <= k < ts.len() ==> is_regular(#[trigger] ts[k])
}

proof fn lemma_word_token_regular(w: Seq<char>)
    ensures
        is_regular(word_token(w)),
{
}

proof fn lemma_scan_from_shape(cs: Seq<char>, i: int, word: Seq<char>, out: Seq<TokenV>)
    requires
        all_regular(out),
    ensures
        scan_from(cs, i, word, out) matches Some((ts, _)) ==> ts.len() > 0 && ts.last() is Eof
            && all_regular(ts.drop_last()),
    decreases cs.len() - i,
{
    lemma_word_token_regular(word);
    let f = flush_word(word, out);
    assert(all_regular(f));
    if 0 <= i < cs.len() {
        let c = cs[i];
        let next_is_eq = i + 1 < cs.len() && cs[i + 1] == '=';
        if single_char_token(c) is Some {
            assert(all_regular(f.push(single_char_token(c)->0)));
            lemma_scan_from_shape(cs, i + 1, seq![], f.push(single_char_token(c)->0));
        } else if c == '.' {
            if float_syntax(word) {
                lemma_scan_from_shape(cs, i + 1, word.push('.'), out);
            } else {
                assert(all_regular(f.push(TokenV::Dot)));
                lemma_scan_from_shape(cs, i + 1, seq![], f.push(TokenV::Dot));
            }
        } else if operator_tokens(c) is Some {
            let (alone, with_eq) = operator_tokens(c)->0;
            if next_is_eq {
                assert(all_regular(f.push(with_eq)));
                lemma_scan_from_shape(cs, i + 2, seq![], f.push(with_eq));
            } else {
                assert(all_regular(f.push(alone)));
                lemma_scan_from_shape(cs, i + 1, seq![], f.push(alone));
            }
        } else if c == '/' {
            if i + 1 < cs.len() && cs[i + 1] == '/' {
                lemma_line_end(cs, i + 1);
                lemma_scan_from_shape(cs, line_end(cs, i + 1), word, out);
            } else {
                assert(all_regular(f.push(TokenV::Slash)));
                lemma_scan_from_shape(cs, i + 1, seq![], f.push(TokenV::Slash));
            }
        } else if c == '"' || c == '\'' {
            lemma_string_literal(cs, i + 1, c, seq![]);
            if let Some((lit, j, closed)) = string_literal(cs, i + 1, c, seq![]) {
                assert(all_regular(f.push(TokenV::StringLiteral(lit))));
                lemma_scan_from_shape(cs, j, seq![], f.push(TokenV::StringLiteral(lit)));
            }
        } else if is_white_space(c) {
            lemma_scan_from_shape(cs, i + 1, seq![], f);
        } else {
            lemma_scan_from_shape(cs, i + 1, word.push(c), out);
        }
    } else {
        assert(f.push(TokenV::Eof).drop_last() =~= f);
    }
}

/// A scan's tokens end in `Eof`, and none before it is `Eof` or `NoToken`.
pub proof fn lemma_scan_ends_in_eof(cs: Seq<char>)
    ensures
        scan(cs) matches Some((ts, _)) ==> ts.len() > 0 && ts.last() is Eof && all_regular(
            ts.drop_last(),
        ),
{
    lemma_scan_from_shape(cs, 0, seq![], seq![]);
}

/// A character that the scanner adds to the pending word: one that is no token, no
/// separator, no comment or literal start and no white space.
pub open spec fn is_word_char(c: char) -> bool {
    &&& single_char_token(c) is None
    &&& operator_tokens(c) is None
    &&& c != '.'
    &&& c != '/'
    &&& c != '"'
    &&& c != '\''
    &&& !is_white_space(c)
}

/// Reading a run of word characters only adds them to the pending word.
proof fn lemma_scan_word_run(cs: Seq<char>, i: int, j: int, word: Seq<char>, out: Seq<TokenV>)
    requires
        0 <= i <= j <= cs.len(),
        forall|k: int| i <= k < j ==> is_word_char(#[trigger] cs[k]),
    ensures
        scan_from(cs, i, word, out) == scan_from(cs, j, word + cs.subrange(i, j), out),
    decreases j - i,
{
    if i == j {
        assert(word + cs.subrange(i, j) =~= word);
    } else {
        assert(is_word_char(cs[i]));
        lemma_scan_word_run(cs, i + 1, j, word.push(cs[i]), out);
        assert(word.push(cs[i]) + cs.subrange(i + 1, j) =~= word + cs.subrange(i, j));
    }
}

/// Tokens come out in the order of the text: a word, a one-character token and a word
/// scan to the first word's token, that token, the second word's token and the end.
pub proof fn lemma_scan_keeps_order(w: Seq<char>, c: char, x: Seq<char>)
    requires
        w.len() > 0,
        x.len() > 0,
        forall|k: int| 0 <= k < w.len() ==> is_word_char(#[trigger] w[k]),
        forall|k: int| 0 <= k < x.len() ==> is_word_char(#[trigger] x[k]),
        single_char_token(c) is Some,
    ensures
        scan(w + seq![c] + x) == Some(
            (seq![word_token(w), single_char_token(c)->0, word_token(x), TokenV::Eof], false),
        ),
{
    let cs = w + seq![c] + x;
    let n = w.len() as int;
    assert forall|k: int| 0 <= k < n implies is_word_char(#[trigger] cs[k]) by {
        assert(cs[k] == w[k]);
    }
    lemma_scan_word_run(cs, 0, n, seq![], seq![]);
    assert(Seq::<char>::empty() + cs.subrange(0, n) =~= w);
    assert(cs[n] == c);
    let out = seq![word_token(w), single_char_token(c)->0];
    assert(flush_word(w, seq![]).push(single_char_token(c)->0) =~= out);
    assert forall|k: int| n + 1 <= k < cs.len() implies is_word_char(#[trigger] cs[k]) by {
        assert(cs[k] == x[k - n - 1]);
    }
    lemma_scan_word_run(cs, n + 1, cs.len() as int, seq![], out);
    assert(Seq::<char>::empty() + cs.subrange(n + 1, cs.len() as int) =~= x);
    assert(flush_word(x, out).push(TokenV::Eof) =~= seq![
        word_token(w),
        single_char_token(c)->0,
        word_token(x),
        TokenV::Eof,
    ]);
}

/// Tokens come out in the order of the text also around an operator that may take `=`:
/// `w c x` scans to the word, the operator alone and the word, and `w c= x` to the word,
/// the operator with `=` and the word.
pub proof fn lemma_scan_keeps_order_around_operators(w: Seq<char>, c: char, x: Seq<char>)
    requires
        w.len() > 0,
        x.len() > 0,
        forall|k: int| 0 <= k < w.len() ==> is_word_char(#[trigger] w[k]),
        forall|k: int| 0 <= k < x.len() ==> is_word_char(#[trigger] x[k]),
        operator_tokens(c) is Some,
    ensures
        operator_tokens(c) matches Some((alone, with_eq)) && scan(w + seq![c] + x) == Some(
            (seq![word_token(w), alone, word_token(x), TokenV::Eof], false),
        ) && scan(w + seq![c, '='] + x) == Some(
            (seq![word_token(w), with_eq, word_token(x), TokenV::Eof], false),
        ),
{
    let n = w.len() as int;
    let (alone, with_eq) = operator_tokens(c)->0;
    assert(!is_word_char('='));
    let cs = w + seq![c] + x;
    assert forall|k: int| 0 <= k < n implies is_word_char(#[trigger] cs[k]) by {
        assert(cs[k] == w[k]);
    }
    lemma_scan_word_run(cs, 0, n, seq![], seq![]);
    assert(Seq::<char>::empty() + cs.subrange(0, n) =~= w);
    assert(cs[n] == c);
    assert(cs[n + 1] == x[0]);
    let out = seq![word_token(w), alone];
    assert(flush_word(w, seq![]).push(alone) =~= out);
    assert forall|k: int| n + 1 <= k < cs.len() implies is_word_char(#[trigger] cs[k]) by {
        assert(cs[k] == x[k - n - 1]);
    }
    lemma_scan_word_run(cs, n + 1, cs.len() as int, seq![], out);
    assert(Seq::<char>::empty() + cs.subrange(n + 1, cs.len() as int) =~= x);
    assert(flush_word(x, out).push(TokenV::Eof) =~= seq![word_token(w), alone, word_token(x), TokenV::Eof]);

    let ds = w + seq![c, '='] + x;
    assert forall|k: int| 0 <= k < n implies is_word_char(#[trigger] ds[k]) by {
        assert(ds[k] == w[k]);
    }
    lemma_scan_word_run(ds, 0, n, seq![], seq![]);
    assert(Seq::<char>::empty() + ds.subrange(0, n) =~= w);
    assert(ds[n] == c);
    assert(ds[n + 1] == '=');
    let out2 = seq![word_token(w), with_eq];
    assert(flush_word(w, seq![]).push(with_eq) =~= out2);
    assert forall|k: int| n + 2 <= k < ds.len() implies is_word_char(#[trigger] ds[k]) by {
        assert(ds[k] == x[k - n - 2]);
    }
    lemma_scan_word_run(ds, n + 2, ds.len() as int, seq![], out2);
    assert(Seq::<char>::empty() + ds.subrange(n + 2, ds.len() as int) =~= x);
    assert(flush_word(x, out2).push(TokenV::Eof) =~= seq![word_token(w), with_eq, word_token(x), TokenV::Eof]);
}

/// Turns source text into tokens.
pub struct Scanner {
    pub contents: String,
    /// Set by a scan that met a string literal without its closing quote.
    pub unclosed_string: bool,
}

impl Scanner {
    pub fn new(buf: &str) -> (r: Self)
        ensures
            r.contents@ == buf@,
            !r.unclosed_string,
    {
        Self { contents: buf.to_string(), unclosed_string: false }
    }

    /// The tokens of the contents, ending in `Eof`; `None` where a backslash ends the
    /// contents inside a string literal. Records whether a string literal was left unclosed.
    pub fn try_scan_tokens(&mut self) -> (r: Option<Vec<Token>>)
        ensures
            final(self).contents == old(self).contents,
            match scan(old(self).contents@) {
                None => r is None,
                Some((ts, unclosed)) => r matches Some(v) && tokens_view(v@) == ts
                    && final(self).unclosed_string == unclosed,
            },
    {
        let cs = chars_of(self.contents.as_str());
        let n = cs.len();
        let mut res: Vec<Token> = Vec::new();
        let mut word: Vec<char> = Vec::new();
        let mut unclosed = false;
        let mut i: usize = 0;
        assert(tokens_view(res@) =~= seq![]);
        while i < n
            invariant
                n == cs@.len(),
                cs@ == self.contents@,
                self.contents == old(self).contents,
                i <= n,
                scan(cs@) == or_unclosed(scan_from(cs@, i as int, word@, tokens_view(res@)), unclosed),
            decreases n - i,
        {
            let c = cs[i];
            if c == '(' || c == ')' || c == '{' || c == '}' || c == ',' || c == '-' || c == '+' || c
                == ';' || c == '*' {
                let t = if c == '(' {
                    Token::LeftParen
                } else if c == ')' {
                    Token::RightParen
                } else if c == '{' {
                    Token::LeftBrace
                } else if c == '}' {
                    Token::RightBrace
                } else if c == ',' {
                    Token::Comma
                } else if c == '-' {
                    Token::Minus
                } else if c == '+' {
                    Token::Plus
                } else if c == ';' {
                    Token::Semicolon
                } else {
                    Token::Star
                };
                self.emit(&mut word, &mut res, t);
                i += 1;
            } else if c == '.' {
                if is_float_text(&word) {
                    word.push('.');
                } else {
                    self.emit(&mut word, &mut res, Token::Dot);
                }
                i += 1;
            } else if c == '!' || c == '=' || c == '>' || c == '<' {
                let next_is_eq = i + 1 < n && cs[i + 1] == '=';
                let t = if c == '!' {
                    if next_is_eq {
                        Token::BangEqual
                    } else {
                        Token::Bang
                    }
                } else if c == '=' {
                    if next_is_eq {
                        Token::EqualEqual
                    } else {
                        Token::Equal
                    }
                } else if c == '>' {
                    if next_is_eq {
                        Token::GreaterEqual
                    } else {
                        Token::Greater
                    }
                } else {
                    if next_is_eq {
                        Token::LessEqual
                    } else {
                        Token::Less
                    }
                };
                self.emit(&mut word, &mut res, t);
                i = if next_is_eq {
                    i + 2
                } else {
                    i + 1
                };
            } else if c == '/' {
                if i + 1 < n && cs[i + 1] == '/' {
                    let mut j = i + 1;
                    while j < n && cs[j] != '\n'
                        invariant
                            n == cs@.len(),
                            i + 1 <= j <= n,
                            line_end(cs@, i + 1) == line_end(cs@, j as int),
                        decreases n - j,
                    {
                        j += 1;
                    }
                    i = if j < n {
                        j + 1
                    } else {
                        j
                    };
                } else {
                    self.emit(&mut word, &mut res, Token::Slash);
                    i += 1;
                }
            } else if c == '"' || c == '\'' {
                let mut lit: Vec<char> = Vec::new();
                let mut j = i + 1;
                let mut closed = false;
                while j < n
                    invariant_except_break
                        n == cs@.len(),
                        i < n,
                        cs@ == self.contents@,
                        self.contents == old(self).contents,
                        c == cs@[i as int],
                        c == '"' || c == '\'',
                        scan(cs@) == or_unclosed(scan_from(cs@, i as int, word@, tokens_view(res@)), unclosed),
                        i + 1 <= j <= n,
                        !closed,
                        string_literal(cs@, i + 1, c, seq![]) == string_literal(cs@, j as int, c, lit@),
                    ensures
                        i + 1 <= j <= n,
                        closed ==> string_literal(cs@, i + 1, c, seq![]) == Some((lit@, j as int, true)),
                        !closed ==> j == n && string_literal(cs@, i + 1, c, seq![]) == Some((lit@, n as int, false)),
                    decreases n - j,
                {
                    let d = cs[j];
                    if d == c {
                        closed = true;
                        j += 1;
                        break;
                    }
                    if d == '\\' {
                        if j + 1 >= n {
                            proof {
                                assert(string_literal(cs@, j as int, c, lit@) is None);
                                assert(scan_from(cs@, i as int, word@, tokens_view(res@)) is None);
                            }
                            return None;
                        }
                        lit.push(d);
                        lit.push(cs[j + 1]);
                        j += 2;
                    } else {
                        lit.push(d);
                        j += 1;
                    }
                }
                let s = string_from_chars(lit.as_slice());
                self.emit(&mut word, &mut res, Token::StringLiteral(s));
                if !closed {
                    unclosed = true;
                }
                i = j;
            } else if is_whitespace(c) {
                self.flush(&mut word, &mut res);
                i += 1;
            } else {
                word.push(c);
                i += 1;
            }
        }
        self.flush(&mut word, &mut res);
        res.push(Token::Eof);
        assert(tokens_view(res@) =~= tokens_view(res@.drop_last()).push(TokenV::Eof));
        self.unclosed_string = unclosed;
        Some(res)
    }

    /// The tokens of the contents, ending in `Eof`. Records whether a string literal was
    /// left unclosed.
    pub fn scan_tokens(&mut self) -> (r: Vec<Token>)
        requires
            scan(old(self).contents@) is Some,
        ensures
            final(self).contents == old(self).contents,
            tokens_view(r@) == scan(old(self).contents@).unwrap().0,
            final(self).unclosed_string == scan(old(self).contents@).unwrap().1,
    {
        match self.try_scan_tokens() {
            Some(v) => v,
            None => Vec::new(),
        }
    }

    /// Adds the pending word's token, if there is a pending word, and clears the word.
    fn flush(&self, word: &mut Vec<char>, res: &mut Vec<Token>)
        ensures
            final(word)@ == Seq::<char>::empty(),
            tokens_view(final(res)@) == flush_word(old(word)@, tokens_view(old(res)@)),
    {
        if word.len() > 0 {
            let s = string_from_chars(word.as_slice());
            let t = self.parse_word(s);
            res.push(t);
            assert(tokens_view(res@) =~= tokens_view(old(res)@).push(t@));
            *word = Vec::new();
        }
    }

    /// Adds the pending word's token, if any, then `t`.
    fn emit(&self, word: &mut Vec<char>, res: &mut Vec<Token>, t: Token)
        ensures
            final(word)@ == Seq::<char>::empty(),
            tokens_view(final(res)@) == flush_word(old(word)@, tokens_view(old(res)@)).push(t@),
    {
        self.flush(word, res);
        let ghost before = res@;
        res.push(t);
        assert(tokens_view(res@) =~= tokens_view(before).push(t@));
    }

    /// The token of a word.
    fn parse_word(&self, s: String) -> (r: Token)
        ensures
            r@ == word_token(s@),
    {
        if let Some(n) = num_parse(s.as_str()) {
            return Token::Number(n);
        }
        let w = chars_of(s.as_str());
        if chars_equal(&w, &['a', 'n', 'd']) {
            Token::And
        } else if chars_equal(&w, &['c', 'l', 'a', 's', 's']) {
            Token::Class
        } else if chars_equal(&w, &['e', 'l', 's', 'e']) {
            Token::Else
        } else if chars_equal(&w, &['f', 'a', 'l', 's', 'e']) {
            Token::False
        } else if chars_equal(&w, &['f', 'u', 'n']) {
            Token::Fun
        } else if chars_equal(&w, &['f', 'o', 'r']) {
            Token::For
        } else if chars_equal(&w, &['i', 'f']) {
            Token::If
        } else if chars_equal(&w, &['n', 'i', 'l']) {
            Token::Nil
        } else if chars_equal(&w, &['o', 'r']) {
            Token::Or
        } else if chars_equal(&w, &['p', 'r', 'i', 'n', 't']) {
            Token::Print
        } else if chars_equal(&w, &['r', 'e', 't', 'u', 'r', 'n']) {
            Token::Return
        } else if chars_equal(&w, &['s', 'u', 'p', 'e', 'r']) {
            Token::Super
        } else if chars_equal(&w, &['t', 'h', 'i', 's']) {
            Token::This
        } else if chars_equal(&w, &['t', 'r', 'u', 'e']) {
            Token::True
        } else if chars_equal(&w, &['v', 'a', 'r']) {
            Token::Var
        } else if chars_equal(&w, &['w', 'h', 'i', 'l', 'e']) {
            Token::While
        } else {
            Token::Identifier(s)
        }
    }
}

} // verus!
