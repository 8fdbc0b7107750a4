//! Run-time values and the operations on them.
use crate::num::{
    decimal_text, num_add, num_div, num_eq, num_lt, num_mul, num_neg, num_sub, num_to_decimal,
    num_to_usize, trunc_div, Num,
};
use crate::text::string_from_chars;
use vstd::prelude::*;
use vstd::string::StringExecFns;

verus! {

/// An operation of the language, as named in a run-time error.
#[derive(Debug, Clone, Copy, PartialEq, Eq, Structural)]
pub enum Operation {
    Add,
    Sub,
    Mult,
    Div,
    Compare,
    Bang,
    Negate,
}

/// What stops a program at run time.
#[derive(Debug, Clone, Copy, PartialEq, Eq, Structural)]
pub enum RuntimeError {
    /// The operation does not apply to values of these kinds.
    CannotApply(Operation),
    /// A division by zero.
    DivisionByZero,
    /// A repeated string would be longer than memory can index.
    RepeatTooLong,
    /// A token that is no operator stands as an operator.
    InvalidOperator,
    /// A variable that has no value is read.
    UndefinedVariable,
    /// A token that is no identifier stands as a variable's name.
    NotAnIdentifier,
    /// The interpreter's budget of loop iterations is spent.
    LoopLimit,
}

/// A run-time value.
#[derive(Debug, PartialEq)]
pub enum Object {
    Number(Num),
    Boolean(bool),
    Str(String),
    Null,
}

/// A run-time value as a mathematical value.
pub enum ObjV {
    Number(int),
    Boolean(bool),
    Str(Seq<char>),
    Null,
}

impl View for Object {
    type V = ObjV;

    open spec fn view(&self) -> ObjV {
        match self {
            Object::Number(n) => ObjV::Number(n@),
            Object::Boolean(b) => ObjV::Boolean(*b),
            Object::Str(s) => ObjV::Str(s@),
            Object::Null => ObjV::Null,
        }
    }
}

/// `nil` and `false` are false; every other value is true.
pub open spec fn truthy(o: ObjV) -> bool {
    !(o is Null) && o != ObjV::Boolean(false)
}

/// `s` repeated `n` times.
pub open spec fn repeat(s: Seq<char>, n: nat) -> Seq<char>
    decreases n,
{
    if n == 0 {
        seq![]
    } else {
        repeat(s, (n - 1) as nat) + s
    }
}

pub open spec fn spec_add(a: ObjV, b: ObjV) -> Result<ObjV, RuntimeError> {
    match (a, b) {
        (ObjV::Str(s1), ObjV::Str(s2)) => Ok(ObjV::Str(s1 + s2)),
        (ObjV::Number(n1), ObjV::Number(n2)) => Ok(ObjV::Number(n1 + n2)),
        _ => Err(RuntimeError::CannotApply(Operation::Add)),
    }
}

pub open spec fn spec_sub(a: ObjV, b: ObjV) -> Result<ObjV, RuntimeError> {
    match (a, b) {
        (ObjV::Number(n1), ObjV::Number(n2)) => Ok(ObjV::Number(n1 - n2)),
        _ => Err(RuntimeError::CannotApply(Operation::Sub)),
    }
}

pub open spec fn spec_div(a: ObjV, b: ObjV) -> Result<ObjV, RuntimeError> {
    match (a, b) {
        (ObjV::Number(n1), ObjV::Number(n2)) => if n2 == 0 {
            Err(RuntimeError::DivisionByZero)
        } else {
            Ok(ObjV::Number(trunc_div(n1, n2)))
        },
        _ => Err(RuntimeError::CannotApply(Operation::Div)),
    }
}

/// A string times a number is the string repeated that many times (none for a negative
/// number); two numbers multiply.
pub open spec fn spec_mult(a: ObjV, b: ObjV) -> Result<ObjV, RuntimeError> {
    match (a, b) {
        (ObjV::Str(s), ObjV::Number(n)) => {
            let count: nat = if n < 0 {
                0
            } else {
                n as nat
            };
            if s.len() * count > usize::MAX {
                Err(RuntimeError::RepeatTooLong)
            } else {
                Ok(ObjV::Str(repeat(s, count)))
            }
        },
        (ObjV::Number(n1), ObjV::Number(n2)) => Ok(ObjV::Number(n1 * n2)),
        _ => Err(RuntimeError::CannotApply(Operation::Mult)),
    }
}

/// Comparison of two numbers by `rel`: 0 for `<`, 1 for `<=`, 2 for `>`, 3 for `>=`.
pub open spec fn spec_compare(a: ObjV, b: ObjV, rel: int) -> Result<ObjV, RuntimeError> {
    match (a, b) {
        (ObjV::Number(n1), ObjV::Number(n2)) => Ok(
            ObjV::Boolean(
                if rel == 0 {
                    n1 < n2
                } else if rel == 1 {
                    n1 <= n2
                } else if rel == 2 {
                    n1 > n2
                } else {
                    n1 >= n2
                },
            ),
        ),
        _ => Err(RuntimeError::CannotApply(Operation::Compare)),
    }
}

pub open spec fn spec_bang(a: ObjV) -> Result<ObjV, RuntimeError> {
    match a {
        ObjV::Boolean(b) => Ok(ObjV::Boolean(!b)),
        _ => Err(RuntimeError::CannotApply(Operation::Bang)),
    }
}

pub open spec fn spec_negate(a: ObjV) -> Result<ObjV, RuntimeError> {
    match a {
        ObjV::Number(n) => Ok(ObjV::Number(-n)),
        _ => Err(RuntimeError::CannotApply(Operation::Negate)),
    }
}

/// `a and b`: `a` when it is false, else `b`.
pub open spec fn spec_and(a: ObjV, b: ObjV) -> ObjV {
    if truthy(a) {
        b
    } else {
        a
    }
}

/// `a or b`: `a` when it is true, else `b`.
pub open spec fn spec_or(a: ObjV, b: ObjV) -> ObjV {
    if truthy(a) {
        a
    } else {
        b
    }
}

/// `!` undoes itself on a boolean.
pub proof fn lemma_bang_twice(a: ObjV)
    requires
        spec_bang(a) is Ok,
    ensures
        spec_bang(spec_bang(a)->Ok_0) == Ok::<ObjV, RuntimeError>(a),
{
}

/// Unary `-` undoes itself on a number.
pub proof fn lemma_negate_twice(a: ObjV)
    requires
        spec_negate(a) is Ok,
    ensures
        spec_negate(spec_negate(a)->Ok_0) == Ok::<ObjV, RuntimeError>(a),
{
}

/// Adding numbers does not depend on their order.
pub proof fn lemma_add_numbers_commute(x: int, y: int)
    ensures
        spec_add(ObjV::Number(x), ObjV::Number(y)) == spec_add(ObjV::Number(y), ObjV::Number(x)),
{
}

/// `a < b` exactly when `b > a`, and `a <= b` exactly when `b >= a`.
pub proof fn lemma_compare_flip(a: ObjV, b: ObjV)
    requires
        a is Number && b is Number,
    ensures
        spec_compare(a, b, 0) == spec_compare(b, a, 2),
        spec_compare(a, b, 1) == spec_compare(b, a, 3),
{
}

/// A string times a count that is not too large is the string repeated, of length the
/// string's length times the count.
pub proof fn lemma_mult_repeat_len(s: Seq<char>, n: int)
    requires
        n >= 0,
        spec_mult(ObjV::Str(s), ObjV::Number(n)) is Ok,
    ensures
        spec_mult(ObjV::Str(s), ObjV::Number(n)) matches Ok(ObjV::Str(r)) && r.len() == s.len()
            * n,
{
    lemma_repeat_len(s, n as nat);
}

/// `a and b` is true exactly when both are; `a or b` exactly when either is.
pub proof fn lemma_and_or_truth(a: ObjV, b: ObjV)
    ensures
        truthy(spec_and(a, b)) == (truthy(a) && truthy(b)),
        truthy(spec_or(a, b)) == (truthy(a) || truthy(b)),
{
}

/// Dividing two numbers rounds the quotient toward zero, whatever their signs: with `q`
/// the quotient, the remainder `a - q * b` is smaller than the divisor in size and is
/// zero or of the sign of the dividend. Dividing by zero is an error.
pub proof fn lemma_division_truncates(a: int, b: int)
    ensures
        b == 0 ==> spec_div(ObjV::Number(a), ObjV::Number(b)) == Err::<ObjV, RuntimeError>(
            RuntimeError::DivisionByZero,
        ),
        b != 0 ==> (spec_div(ObjV::Number(a), ObjV::Number(b)) matches Ok(ObjV::Number(q)) && {
            let r = a - q * b;
            &&& (if r < 0 { -r } else { r }) < (if b < 0 { -b } else { b })
            &&& (r == 0 || (r < 0) == (a < 0))
        }),
{
    if b != 0 {
        let x = if a < 0 { -a } else { a };
        let d = if b < 0 { -b } else { b };
        let q0 = x / d;
        let r0 = x % d;
        vstd::arithmetic::div_mod::lemma_fundamental_div_mod(x, d);
        vstd::arithmetic::div_mod::lemma_mod_pos_bound(x, d);
        assert(x == d * q0 + r0);
        let q = trunc_div(a, b);
        if (a < 0) == (b < 0) {
            assert(q == q0);
            if b < 0 {
                assert(q * b == -(d * q0)) by (nonlinear_arith)
                    requires
                        b == -d,
                        q == q0,
                ;
                assert(a - q * b == -r0);
            } else {
                assert(q * b == d * q0) by (nonlinear_arith)
                    requires
                        b == d,
                        q == q0,
                ;
                assert(a - q * b == r0);
            }
        } else {
            assert(q == -q0);
            if b < 0 {
                assert(q * b == d * q0) by (nonlinear_arith)
                    requires
                        b == -d,
                        q == -q0,
                ;
                assert(a - q * b == r0);
            } else {
                assert(q * b == -(d * q0)) by (nonlinear_arith)
                    requires
                        b == d,
                        q == -q0,
                ;
                assert(a - q * b == -r0);
            }
        }
    }
}

/// Negating both numbers of a division does not change the quotient.
pub proof fn lemma_division_sign_symmetric(a: int, b: int)
    ensures
        spec_div(ObjV::Number(-a), ObjV::Number(-b)) == spec_div(ObjV::Number(a), ObjV::Number(b)),
{
}

/// The view of an operation's result.
pub open spec fn result_view(r: Result<Object, RuntimeError>) -> Result<ObjV, RuntimeError> {
    match r {
        Ok(o) => Ok(o@),
        Err(e) => Err(e),
    }
}

/// How a `print` statement shows a value: a number in base 10, `true` or `false`, a
/// string as it is, and `(nil)` for nil.
pub open spec fn printed(o: ObjV) -> Seq<char> {
    match o {
        ObjV::Number(n) => decimal_text(n),
        ObjV::Boolean(b) => if b {
            "true"@
        } else {
            "false"@
        },
        ObjV::Str(s) => s,
        ObjV::Null => "(nil)"@,
    }
}

impl Object {
    /// The text that a `print` statement shows for the value.
    pub fn print_text(&self) -> (r: String)
        ensures
            r@ == printed(self@),
    {
        match self {
            Object::Number(n) => num_to_decimal(n),
            Object::Boolean(b) => if *b {
                String::from_str("true")
            } else {
                String::from_str("false")
            },
            Object::Str(s) => s.clone(),
            Object::Null => String::from_str("(nil)"),
        }
    }

    /// A copy of the value.
    pub fn duplicate(&self) -> (r: Object)
        ensures
            r@ == self@,
    {
        match self {
            Object::Number(n) => Object::Number(n.duplicate()),
            Object::Boolean(b) => Object::Boolean(*b),
            Object::Str(s) => Object::Str(s.clone()),
            Object::Null => Object::Null,
        }
    }

    /// Whether the value counts as true in a condition.
    pub fn truth_value(&self) -> (r: bool)
        ensures
            r == truthy(self@),
    {
        match self {
            Object::Null => false,
            Object::Boolean(b) => *b,
            _ => true,
        }
    }

    /// Whether two values are equal: of the same kind, with equal contents.
    pub fn same_value(&self, rhs: &Object) -> (r: bool)
        ensures
            r == (self@ == rhs@),
    {
        match (self, rhs) {
            (Object::Number(a), Object::Number(b)) => num_eq(a, b),
            (Object::Boolean(a), Object::Boolean(b)) => *a == *b,
            (Object::Str(a), Object::Str(b)) => *a == *b,
            (Object::Null, Object::Null) => true,
            _ => false,
        }
    }

    pub fn equal(self, rhs: Self) -> (r: Object)
        ensures
            r@ == ObjV::Boolean(self@ == rhs@),
    {
        Object::Boolean(self.same_value(&rhs))
    }

    pub fn nequal(self, rhs: Self) -> (r: Object)
        ensures
            r@ == ObjV::Boolean(self@ != rhs@),
    {
        Object::Boolean(!self.same_value(&rhs))
    }

    pub fn add(self, rhs: Self) -> (r: Result<Object, RuntimeError>)
        ensures
            result_view(r) == spec_add(self@, rhs@),
    {
        match (self, rhs) {
            (Object::Str(s1), Object::Str(s2)) => Ok(Object::Str(s1.concat(s2.as_str()))),
            (Object::Number(n1), Object::Number(n2)) => Ok(Object::Number(num_add(&n1, &n2))),
            _ => Err(RuntimeError::CannotApply(Operation::Add)),
        }
    }

    pub fn sub(self, rhs: Self) -> (r: Result<Object, RuntimeError>)
        ensures
            result_view(r) == spec_sub(self@, rhs@),
    {
        match (self, rhs) {
            (Object::Number(n1), Object::Number(n2)) => Ok(Object::Number(num_sub(&n1, &n2))),
            _ => Err(RuntimeError::CannotApply(Operation::Sub)),
        }
    }

    pub fn div(self, rhs: Self) -> (r: Result<Object, RuntimeError>)
        ensures
            result_view(r) == spec_div(self@, rhs@),
    {
        match (self, rhs) {
            (Object::Number(n1), Object::Number(n2)) => {
                let zero = Num::from_i64(0);
                if num_eq(&n2, &zero) {
                    Err(RuntimeError::DivisionByZero)
                } else {
                    Ok(Object::Number(num_div(&n1, &n2)))
                }
            },
            _ => Err(RuntimeError::CannotApply(Operation::Div)),
        }
    }

    pub fn mult(self, rhs: Self) -> (r: Result<Object, RuntimeError>)
        ensures
            result_view(r) == spec_mult(self@, rhs@),
    {
        match (self, rhs) {
            (Object::Str(s), Object::Number(n)) => {
                let zero = Num::from_i64(0);
                if num_lt(&n, &zero) {
                    assert(repeat(s@, 0) =~= seq![]);
                    return Ok(Object::Str(String::new()));
                }
                let cs = crate::text::chars_of(s.as_str());
                match num_to_usize(&n) {
                    None => {
                        if cs.len() == 0 {
                            proof {
                                assert(repeat(s@, n@ as nat) =~= seq![]) by {
                                    lemma_repeat_empty(s@, n@ as nat);
                                }
                            }
                            Ok(Object::Str(String::new()))
                        } else {
                            proof {
                                assert(s@.len() * (n@ as nat) >= n@) by (nonlinear_arith)
                                    requires
                                        s@.len() >= 1,
                                        n@ >= 0,
                                ;
                            }
                            Err(RuntimeError::RepeatTooLong)
                        }
                    },
                    Some(count) => {
                        assert(count == n@);
                        match cs.len().checked_mul(count) {
                            None => {
                                assert(s@.len() * (count as nat) > usize::MAX);
                                Err(RuntimeError::RepeatTooLong)
                            },
                            Some(_) => {
                                let r = repeat_chars(&cs, count);
                                Ok(Object::Str(string_from_chars(r.as_slice())))
                            },
                        }
                    },
                }
            },
            (Object::Number(n1), Object::Number(n2)) => Ok(Object::Number(num_mul(&n1, &n2))),
            _ => Err(RuntimeError::CannotApply(Operation::Mult)),
        }
    }

    fn compare(self, rhs: Self, rel: u8) -> (r: Result<Object, RuntimeError>)
        requires
            rel < 4,
        ensures
            result_view(r) == spec_compare(self@, rhs@, rel as int),
    {
        match (self, rhs) {
            (Object::Number(n1), Object::Number(n2)) => {
                let b = if rel == 0 {
                    num_lt(&n1, &n2)
                } else if rel == 1 {
                    !num_lt(&n2, &n1)
                } else if rel == 2 {
                    num_lt(&n2, &n1)
                } else {
                    !num_lt(&n1, &n2)
                };
                Ok(Object::Boolean(b))
            },
            _ => Err(RuntimeError::CannotApply(Operation::Compare)),
        }
    }

    pub fn less(self, rhs: Self) -> (r: Result<Object, RuntimeError>)
        ensures
            result_view(r) == spec_compare(self@, rhs@, 0),
    {
        self.compare(rhs, 0)
    }

    pub fn less_eq(self, rhs: Self) -> (r: Result<Object, RuntimeError>)
        ensures
            result_view(r) == spec_compare(self@, rhs@, 1),
    {
        self.compare(rhs, 1)
    }

    pub fn greater(self, rhs: Self) -> (r: Result<Object, RuntimeError>)
        ensures
            result_view(r) == spec_compare(self@, rhs@, 2),
    {
        self.compare(rhs, 2)
    }

    pub fn greater_eq(self, rhs: Self) -> (r: Result<Object, RuntimeError>)
        ensures
            result_view(r) == spec_compare(self@, rhs@, 3),
    {
        self.compare(rhs, 3)
    }

    pub fn bang(self) -> (r: Result<Object, RuntimeError>)
        ensures
            result_view(r) == spec_bang(self@),
    {
        match self {
            Object::Boolean(b) => Ok(Object::Boolean(!b)),
            _ => Err(RuntimeError::CannotApply(Operation::Bang)),
        }
    }

    pub fn negate(self) -> (r: Result<Object, RuntimeError>)
        ensures
            result_view(r) == spec_negate(self@),
    {
        match self {
            Object::Number(n) => Ok(Object::Number(num_neg(&n))),
            _ => Err(RuntimeError::CannotApply(Operation::Negate)),
        }
    }

    pub fn and(self, rhs: Self) -> (r: Object)
        ensures
            r@ == spec_and(self@, rhs@),
    {
        if self.truth_value() {
            rhs
        } else {
            self
        }
    }

    pub fn or(self, rhs: Self) -> (r: Object)
        ensures
            r@ == spec_or(self@, rhs@),
    {
        if self.truth_value() {
            self
        } else {
            rhs
        }
    }
}

proof fn lemma_repeat_empty(s: Seq<char>, n: nat)
    requires
        s.len() == 0,
    ensures
        repeat(s, n) =~= seq![],
    decreases n,
{
    if n > 0 {
        lemma_repeat_empty(s, (n - 1) as nat);
    }
}

proof fn lemma_repeat_len(s: Seq<char>, n: nat)
    ensures
        repeat(s, n).len() == s.len() * n,
    decreases n,
{
    if n > 0 {
        let m = (n - 1) as nat;
        lemma_repeat_len(s, m);
        assert(s.len() * n == s.len() * m + s.len()) by (nonlinear_arith)
            requires
                n == m + 1,
        ;
    } else {
        assert(s.len() * n == 0) by (nonlinear_arith)
            requires
                n == 0,
        ;
    }
}

/// `s` repeated `count` times.
fn repeat_chars(s: &Vec<char>, count: usize) -> (r: Vec<char>)
    requires
        s@.len() * count <= usize::MAX,
    ensures
        r@ == repeat(s@, count as nat),
{
    let mut r: Vec<char> = Vec::new();
    let mut k: usize = 0;
    while k < count
        invariant
            k <= count,
            s@.len() * count <= usize::MAX,
            r@ == repeat(s@, k as nat),
        decreases count - k,
    {
        proof {
            lemma_repeat_len(s@, k as nat);
            assert(s@.len() * k + s@.len() <= s@.len() * count) by (nonlinear_arith)
                requires
                    k < count,
            ;
        }
        let mut j: usize = 0;
        let ghost before = r@;
        while j < s.len()
            invariant
                j <= s@.len(),
                r@ == before + s@.subrange(0, j as int),
                before.len() + s@.len() <= usize::MAX,
            decreases s.len() - j,
        {
            r.push(s[j]);
            j += 1;
        }
        assert(s@.subrange(0, s@.len() as int) =~= s@);
        k += 1;
    }
    r
}

} // verus!
