//! Character classes and small string utilities used by the scanner.
use vstd::prelude::*;

verus! {

/// Unicode's White_Space property, which `char::is_whitespace` tests.
pub open spec fn is_white_space(c: char) -> bool {
    let u = c as u32;
    ||| 0x09 <= u <= 0x0d
    ||| u == 0x20
    ||| u == 0x85
    ||| u == 0xa0
    ||| u == 0x1680
    ||| 0x2000 <= u <= 0x200a
    ||| u == 0x2028
    ||| u == 0x2029
    ||| u == 0x202f
    ||| u == 0x205f
    ||| u == 0x3000
}

/// Whether `c` is a white-space character.
pub fn is_whitespace(c: char) -> (r: bool)
    ensures
        r == is_white_space(c),
{
    let u = c as u32;
    (0x09 <= u && u <= 0x0d) || u == 0x20 || u == 0x85 || u == 0xa0 || u == 0x1680 || (0x2000
        <= u && u <= 0x200a) || u == 0x2028 || u == 0x2029 || u == 0x202f || u == 0x205f || u
        == 0x3000
}

pub open spec fn is_digit(c: char) -> bool {
    '0' <= c <= '9'
}

/// ASCII lower case of a character; other characters are unchanged.
pub open spec fn ascii_lower(c: char) -> char {
    if 'A' <= c <= 'Z' {
        ((c as u32) + 32) as char
    } else {
        c
    }
}

/// Whether `s`, with ASCII letters in lower case, is the word `w`.
pub open spec fn equals_ignoring_case(s: Seq<char>, w: Seq<char>) -> bool {
    &&& s.len() == w.len()
    &&& forall|i: int| 0 <= i < s.len() ==> ascii_lower(#[trigger] s[i]) == w[i]
}

/// The number of consecutive decimal digits in `s` from index `i` on.
pub open spec fn digit_run(s: Seq<char>, i: int) -> int
    decreases s.len() - i,
{
    if 0 <= i < s.len() && is_digit(s[i]) {
        1 + digit_run(s, i + 1)
    } else {
        0
    }
}

/// The syntax of a decimal number without sign:
/// `( Digit+ | Digit+ '.' Digit* | Digit* '.' Digit+ ) ( ('e'|'E') Sign? Digit+ )?`.
pub open spec fn decimal_number_syntax(s: Seq<char>) -> bool {
    let a = digit_run(s, 0);
    let has_dot = a < s.len() && s[a] == '.';
    let b = if has_dot {
        digit_run(s, a + 1)
    } else {
        0
    };
    let j = if has_dot {
        a + 1 + b
    } else {
        a
    };
    let mantissa = a > 0 || (has_dot && b > 0);
    let exponent = j == s.len() || ((s[j] == 'e' || s[j] == 'E') && {
        let k = if j + 1 < s.len() && (s[j + 1] == '+' || s[j + 1] == '-') {
            j + 2
        } else {
            j + 1
        };
        let d = digit_run(s, k);
        d > 0 && k + d == s.len()
    });
    mantissa && exponent
}

/// The strings that a floating-point number parses from:
/// `Sign? ( 'inf' | 'infinity' | 'nan' | Number )`, letters in either case.
pub open spec fn float_syntax(s: Seq<char>) -> bool {
    let t = if s.len() > 0 && (s[0] == '+' || s[0] == '-') {
        s.drop_first()
    } else {
        s
    };
    ||| equals_ignoring_case(t, seq!['i', 'n', 'f'])
    ||| equals_ignoring_case(t, seq!['i', 'n', 'f', 'i', 'n', 'i', 't', 'y'])
    ||| equals_ignoring_case(t, seq!['n', 'a', 'n'])
    ||| decimal_number_syntax(t)
}

fn lower(c: char) -> (r: char)
    ensures
        r == ascii_lower(c),
{
    if 'A' <= c && c <= 'Z' {
        (((c as u32) + 32) as u8) as char
    } else {
        c
    }
}

/// Whether `s[from..]`, with ASCII letters in lower case, is the word `w`.
fn matches_word_ignoring_case(s: &Vec<char>, from: usize, w: &[char]) -> (r: bool)
    requires
        from <= s@.len(),
    ensures
        r == equals_ignoring_case(s@.subrange(from as int, s@.len() as int), w@),
{
    let ghost t = s@.subrange(from as int, s@.len() as int);
    if s.len() - from != w.len() {
        return false;
    }
    let mut i: usize = 0;
    while i < w.len()
        invariant
            t == s@.subrange(from as int, s@.len() as int),
            s.len() - from == w.len(),
            0 <= i <= w.len(),
            forall|k: int| 0 <= k < i ==> ascii_lower(#[trigger] t[k]) == w@[k],
        decreases w.len() - i,
    {
        if lower(s[from + i]) != w[i] {
            assert(ascii_lower(t[i as int]) != w@[i as int]);
            return false;
        }
        i += 1;
    }
    true
}

/// The length of the run of digits in `s` from index `i` on.
fn count_digits(s: &Vec<char>, i: usize) -> (r: usize)
    requires
        i <= s@.len(),
    ensures
        r == digit_run(s@, i as int),
        i + r <= s@.len(),
{
    let mut j = i;
    while j < s.len() && '0' <= s[j] && s[j] <= '9'
        invariant
            i <= j <= s@.len(),
            digit_run(s@, i as int) == (j - i) + digit_run(s@, j as int),
        decreases s.len() - j,
    {
        j += 1;
    }
    j - i
}

/// Whether `s` is the text of a floating-point number.
pub fn is_float_text(s: &Vec<char>) -> (r: bool)
    ensures
        r == float_syntax(s@),
{
    let start: usize = if s.len() > 0 && (s[0] == '+' || s[0] == '-') {
        1
    } else {
        0
    };
    let ghost t = s@.subrange(start as int, s@.len() as int);
    assert(t =~= (if s@.len() > 0 && (s@[0] == '+' || s@[0] == '-') {
        s@.drop_first()
    } else {
        s@
    }));
    if matches_word_ignoring_case(s, start, &['i', 'n', 'f']) || matches_word_ignoring_case(
        s,
        start,
        &['i', 'n', 'f', 'i', 'n', 'i', 't', 'y'],
    ) || matches_word_ignoring_case(s, start, &['n', 'a', 'n']) {
        return true;
    }
    let mut body: Vec<char> = Vec::new();
    let mut i = start;
    while i < s.len()
        invariant
            start <= i <= s@.len(),
            body@ =~= s@.subrange(start as int, i as int),
        decreases s.len() - i,
    {
        body.push(s[i]);
        i += 1;
    }
    assert(body@ =~= t);
    is_number_text(&body)
}

fn is_number_text(s: &Vec<char>) -> (r: bool)
    ensures
        r == decimal_number_syntax(s@),
{
    let a = count_digits(s, 0);
    let has_dot = a < s.len() && s[a] == '.';
    let b = if has_dot {
        count_digits(s, a + 1)
    } else {
        0
    };
    let j = if has_dot {
        a + 1 + b
    } else {
        a
    };
    let mantissa = a > 0 || (has_dot && b > 0);
    let exponent = if j == s.len() {
        true
    } else if s[j] == 'e' || s[j] == 'E' {
        let k = if j + 1 < s.len() && (s[j + 1] == '+' || s[j + 1] == '-') {
            j + 2
        } else {
            j + 1
        };
        let d = count_digits(s, k);
        d > 0 && k + d == s.len()
    } else {
        false
    };
    mantissa && exponent
}

/// The characters of `s`, in order.
pub fn chars_of(s: &str) -> (r: Vec<char>)
    ensures
        r@ == s@,
{
    let mut r: Vec<char> = Vec::new();
    for c in it: s.chars()
        invariant
            r@ == it.seq().take(it.index() as int),
            it.seq() == s@,
    {
        r.push(c);
    }
    r
}

/// `String::from_iter`: the string of the given characters.
#[verifier::external_body]
pub(crate) fn string_from_chars(v: &[char]) -> (r: String)
    ensures
        r@ == v@,
{
    String::from_iter(v.iter())
}

/// Whether two texts are equal.
pub fn str_eq(a: &str, b: &str) -> (r: bool)
    ensures
        r == (a@ == b@),
{
    let ca = chars_of(a);
    let cb = chars_of(b);
    chars_equal(ca.as_slice(), cb.as_slice())
}

/// Whether the two character sequences are equal.
pub fn chars_equal(a: &[char], b: &[char]) -> (r: bool)
    ensures
        r == (a@ == b@),
{
    if a.len() != b.len() {
        return false;
    }
    let mut i: usize = 0;
    while i < a.len()
        invariant
            a@.len() == b@.len(),
            0 <= i <= a@.len(),
            forall|k: int| 0 <= k < i ==> a@[k] == b@[k],
        decreases a.len() - i,
    {
        if a[i] != b[i] {
            return false;
        }
        i += 1;
    }
    assert(a@ =~= b@);
    true
}

} // verus!
