//! Arbitrary-precision integers, as the interpreter's numbers.
//!
//! A `Num` holds the two's-complement little-endian bytes of an integer.
//! All arithmetic is done by `num_bigint`; the functions here convert a
//! `Num` to a `BigInt`, make one call, and convert the result back.
use num_bigint::BigInt;
use vstd::prelude::*;
use vstd::std_specs::cmp::PartialEqSpecImpl;

verus! {

/// `256^n`.
pub open spec fn pow256(n: nat) -> nat
    decreases n,
{
    if n == 0 {
        1
    } else {
        256 * pow256((n - 1) as nat)
    }
}

/// The unsigned value of little-endian bytes.
pub open spec fn le_unsigned(b: Seq<u8>) -> nat
    decreases b.len(),
{
    if b.len() == 0 {
        0
    } else {
        (b[0] + 256 * le_unsigned(b.drop_first())) as nat
    }
}

/// The value of two's-complement little-endian bytes (the empty sequence is zero).
pub open spec fn le_signed(b: Seq<u8>) -> int {
    if b.len() > 0 && b.last() >= 128 {
        le_unsigned(b) - pow256(b.len())
    } else {
        le_unsigned(b) as int
    }
}

/// Division rounding toward zero, as Rust's integers and `BigInt` divide.
pub open spec fn trunc_div(a: int, b: int) -> int {
    let q = abs(a) / abs(b);
    if (a < 0) == (b < 0) {
        q
    } else {
        -q
    }
}

pub open spec fn abs(a: int) -> int {
    if a < 0 {
        -a
    } else {
        a
    }
}

/// The value of decimal digits, `_` separators skipped.
pub open spec fn digits_value(s: Seq<char>) -> int
    decreases s.len(),
{
    if s.len() == 0 {
        0
    } else if s.last() == '_' {
        digits_value(s.drop_last())
    } else {
        digits_value(s.drop_last()) * 10 + (s.last() as int - '0' as int)
    }
}

/// Unsigned decimal text: a digit first, then digits and `_` separators.
pub open spec fn unsigned_decimal(s: Seq<char>) -> Option<int> {
    if s.len() == 0 || s[0] == '_' || !(forall|i: int|
        0 <= i < s.len() ==> (crate::text::is_digit(#[trigger] s[i]) || s[i] == '_')) {
        None
    } else {
        Some(digits_value(s))
    }
}

/// The integers that `BigInt` parses from text in base 10: an optional `-` or `+`
/// (but never `-+` or `++`), then unsigned decimal text.
pub open spec fn parse_integer(s: Seq<char>) -> Option<int> {
    if s.len() > 0 && s[0] == '-' {
        let t = s.drop_first();
        if t.len() > 0 && t[0] == '+' {
            None
        } else {
            match unsigned_decimal(t) {
                Some(v) => Some(-v),
                None => None,
            }
        }
    } else if s.len() > 0 && s[0] == '+' {
        let t = s.drop_first();
        if t.len() > 0 && t[0] == '+' {
            None
        } else {
            unsigned_decimal(t)
        }
    } else {
        unsigned_decimal(s)
    }
}

/// The decimal digits of a natural number, most significant first, with no leading zero.
pub open spec fn decimal_digits(n: nat) -> Seq<char>
    decreases n,
{
    if n < 10 {
        seq![('0' as nat + n) as char]
    } else {
        decimal_digits(n / 10).push(('0' as nat + n % 10) as char)
    }
}

/// The base-10 text of an integer: its digits, after a `-` where it is negative.
pub open spec fn decimal_text(v: int) -> Seq<char> {
    if v < 0 {
        seq!['-'] + decimal_digits((-v) as nat)
    } else {
        decimal_digits(v as nat)
    }
}

/// An integer of any size.
#[derive(Debug)]
pub struct Num {
    bytes: Vec<u8>,
}

impl PartialEq for Num {
    fn eq(&self, other: &Num) -> (r: bool) {
        num_eq(self, other)
    }
}

impl PartialEqSpecImpl for Num {
    open spec fn obeys_eq_spec() -> bool {
        true
    }

    open spec fn eq_spec(&self, other: &Num) -> bool {
        self@ == other@
    }
}

impl View for Num {
    type V = int;

    closed spec fn view(&self) -> int {
        le_signed(self.bytes@)
    }
}

impl Num {
    /// A copy of the number.
    pub fn duplicate(&self) -> (r: Num)
        ensures
            r@ == self@,
    {
        let bytes = self.bytes.clone();
        assert(bytes@ =~= self.bytes@);
        Num { bytes }
    }

    /// The number whose two's-complement little-endian bytes are `bytes`.
    pub fn from_signed_bytes_le(bytes: Vec<u8>) -> (r: Num)
        ensures
            r@ == le_signed(bytes@),
    {
        Num { bytes }
    }

    /// The two's-complement little-endian bytes of the number.
    pub fn to_signed_bytes_le(&self) -> (r: Vec<u8>)
        ensures
            le_signed(r@) == self@,
    {
        self.bytes.clone()
    }

    /// The number `v`.
    pub fn from_i64(v: i64) -> (r: Num)
        ensures
            r@ == v,
    {
        num_from_i64(v)
    }
}

/// `BigInt::from(i64)` then `BigInt::to_signed_bytes_le`: the integer `v`.
#[verifier::external_body]
fn num_from_i64(v: i64) -> (r: Num)
    ensures
        r@ == v,
{
    Num { bytes: BigInt::from(v).to_signed_bytes_le() }
}

/// `BigInt + BigInt`: the sum of the two integers.
#[verifier::external_body]
pub(crate) fn num_add(a: &Num, b: &Num) -> (r: Num)
    ensures
        r@ == a@ + b@,
{
    Num {
        bytes: (BigInt::from_signed_bytes_le(&a.bytes) + BigInt::from_signed_bytes_le(
            &b.bytes,
        )).to_signed_bytes_le(),
    }
}

/// `BigInt - BigInt`: the difference of the two integers.
#[verifier::external_body]
pub(crate) fn num_sub(a: &Num, b: &Num) -> (r: Num)
    ensures
        r@ == a@ - b@,
{
    Num {
        bytes: (BigInt::from_signed_bytes_le(&a.bytes) - BigInt::from_signed_bytes_le(
            &b.bytes,
        )).to_signed_bytes_le(),
    }
}

/// `BigInt * BigInt`: the product of the two integers.
#[verifier::external_body]
pub(crate) fn num_mul(a: &Num, b: &Num) -> (r: Num)
    ensures
        r@ == a@ * b@,
{
    Num {
        bytes: (BigInt::from_signed_bytes_le(&a.bytes) * BigInt::from_signed_bytes_le(
            &b.bytes,
        )).to_signed_bytes_le(),
    }
}

/// `BigInt / BigInt`: the quotient rounded toward zero; `num_bigint` panics on a zero divisor.
#[verifier::external_body]
pub(crate) fn num_div(a: &Num, b: &Num) -> (r: Num)
    requires
        b@ != 0,
    ensures
        r@ == trunc_div(a@, b@),
{
    Num {
        bytes: (BigInt::from_signed_bytes_le(&a.bytes) / BigInt::from_signed_bytes_le(
            &b.bytes,
        )).to_signed_bytes_le(),
    }
}

/// `-BigInt`: the negated integer.
#[verifier::external_body]
pub(crate) fn num_neg(a: &Num) -> (r: Num)
    ensures
        r@ == -a@,
{
    Num { bytes: (-BigInt::from_signed_bytes_le(&a.bytes)).to_signed_bytes_le() }
}

/// `BigInt < BigInt`: whether the first integer is the smaller.
#[verifier::external_body]
pub(crate) fn num_lt(a: &Num, b: &Num) -> (r: bool)
    ensures
        r == (a@ < b@),
{
    BigInt::from_signed_bytes_le(&a.bytes) < BigInt::from_signed_bytes_le(&b.bytes)
}

/// `BigInt == BigInt`: whether the two integers are equal.
#[verifier::external_body]
pub(crate) fn num_eq(a: &Num, b: &Num) -> (r: bool)
    ensures
        r == (a@ == b@),
{
    BigInt::from_signed_bytes_le(&a.bytes) == BigInt::from_signed_bytes_le(&b.bytes)
}

/// `usize::try_from(&BigInt)`: the integer as a `usize` when it lies in `0..=usize::MAX`.
#[verifier::external_body]
pub(crate) fn num_to_usize(a: &Num) -> (r: Option<usize>)
    ensures
        r == (if 0 <= a@ <= usize::MAX {
            Some(a@ as usize)
        } else {
            None::<usize>
        }),
{
    usize::try_from(&BigInt::from_signed_bytes_le(&a.bytes)).ok()
}

/// `BigInt`'s `Display`, through `to_string`: the integer's base-10 text, a `-` before the
/// digits of a negative one, with no padding and no `+`.
#[verifier::external_body]
pub(crate) fn num_to_decimal(a: &Num) -> (r: String)
    ensures
        r@ == decimal_text(a@),
{
    BigInt::from_signed_bytes_le(&a.bytes).to_string()
}

/// `<BigInt as FromStr>::from_str`: the integer that base-10 text denotes, if it is one.
#[verifier::external_body]
pub(crate) fn num_parse(s: &str) -> (r: Option<Num>)
    ensures
        match r {
            Some(n) => parse_integer(s@) == Some(n@),
            None => parse_integer(s@) is None,
        },
{
    match s.parse::<BigInt>() {
        Ok(n) => Some(Num { bytes: n.to_signed_bytes_le() }),
        Err(_) => None,
    }
}

} // verus!
