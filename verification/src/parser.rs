//! The parser: tokens to a syntax tree, by recursive descent.
//!
//! The `p_*` spec functions state the grammar over token views and positions; each
//! parsing method of `Parser` is proved to compute its `p_*` function.
use crate::ast::{
    expr_view, is_literal_token, literal_value, stmt_view, stmts_view, Expr, ExprV, Program, Stmt,
    StmtV,
};
use crate::num::Num;
use crate::scanner::{kind_of, tokens_view, Token, TokenV};
use vstd::prelude::*;

verus! {

/// Why a token sequence is no program.
#[derive(Debug, Clone, Copy, PartialEq, Eq, Structural)]
pub enum ParseError {
    /// No `Eof` token ends the tokens.
    NoEof,
    /// `var` is not followed by a name.
    ExpectedVarName,
    /// A variable declaration does not end in `;`.
    ExpectedSemicolonAfterVar,
    /// A statement does not end in `;`.
    ExpectedSemicolonAfterStatement,
    /// `while` is not followed by `(`.
    ExpectedLeftParenAfterWhile,
    /// A `while` condition is not closed by `)`.
    ExpectedRightParenAfterWhile,
    /// `if` is not followed by `(`.
    ExpectedLeftParenAfterIf,
    /// An `if` condition is not closed by `)`.
    ExpectedRightParenAfterIf,
    /// A block is not closed by `}`.
    ExpectedRightBrace,
    /// A parenthesized expression is not closed by `)`.
    ExpectedRightParen,
    /// The left side of `=` is not a variable.
    InvalidAssignTarget,
    /// The token at this index cannot begin an expression.
    UnexpectedToken(usize),
}

pub type ExprParse = Result<(ExprV, int), ParseError>;

pub type StmtParse = Result<(StmtV, int), ParseError>;

pub type StmtsParse = Result<(Seq<StmtV>, int), ParseError>;

/// The token at `p`; past the end, `Eof`.
pub open spec fn tok(ts: Seq<TokenV>, p: int) -> TokenV {
    if 0 <= p < ts.len() {
        ts[p]
    } else {
        TokenV::Eof
    }
}

pub open spec fn at_end(ts: Seq<TokenV>, p: int) -> bool {
    tok(ts, p) is Eof
}

/// Whether the token at `p` is of the kind of `k` (and not the end).
pub open spec fn check(ts: Seq<TokenV>, p: int, k: TokenV) -> bool {
    !at_end(ts, p) && kind_of(tok(ts, p)) == kind_of(k)
}

/// Whether the token at `p` is of the kind of one of `ks` (and not the end).
pub open spec fn check_any(ts: Seq<TokenV>, p: int, ks: Seq<TokenV>) -> bool {
    !at_end(ts, p) && exists|i: int| 0 <= i < ks.len() && kind_of(tok(ts, p)) == kind_of(#[trigger] ks[i])
}

/// Whether an `Eof` token stands at `p` or after it.
pub open spec fn eof_after(ts: Seq<TokenV>, p: int) -> bool {
    exists|k: int| p <= k < ts.len() && (#[trigger] ts[k]) is Eof
}

/// A parse that went from `p` to `q` read at least one token and stayed in the tokens.
pub open spec fn advanced(ts: Seq<TokenV>, p: int, q: int) -> bool {
    p < q <= ts.len()
}

/// The operators of each binary level: `or`, `and`, equality, comparison, terms, factors.
pub open spec fn level_ops(level: nat) -> Seq<TokenV> {
    if level == 0 {
        seq![TokenV::Or]
    } else if level == 1 {
        seq![TokenV::And]
    } else if level == 2 {
        seq![TokenV::BangEqual, TokenV::EqualEqual]
    } else if level == 3 {
        seq![TokenV::Greater, TokenV::GreaterEqual, TokenV::Less, TokenV::LessEqual]
    } else if level == 4 {
        seq![TokenV::Minus, TokenV::Plus]
    } else {
        seq![TokenV::Slash, TokenV::Star]
    }
}

pub open spec fn unary_ops() -> Seq<TokenV> {
    seq![TokenV::Bang, TokenV::Minus]
}

pub open spec fn literal_kinds() -> Seq<TokenV> {
    seq![TokenV::False, TokenV::True, TokenV::Nil, TokenV::Number(0), TokenV::StringLiteral(seq![])]
}

pub open spec fn level_rank(level: nat) -> int {
    if level >= 5 {
        8
    } else {
        18 - 2 * level
    }
}

/// expression → assignment
pub open spec fn p_expression(ts: Seq<TokenV>, p: int) -> ExprParse
    decreases ts.len() - p, 20int,
{
    p_assignment(ts, p)
}

/// assignment → or ( "=" assignment )?, where the left side must be a variable.
pub open spec fn p_assignment(ts: Seq<TokenV>, p: int) -> ExprParse
    decreases ts.len() - p, 19int,
{
    match p_binary(ts, p, 0) {
        Err(e) => Err(e),
        Ok((target, p1)) => if check(ts, p1, TokenV::Equal) {
            if advanced(ts, p, p1) {
                match p_assignment(ts, p1 + 1) {
                    Err(e) => Err(e),
                    Ok((value, p2)) => match target {
                        ExprV::Variable { identifier } => Ok(
                            (ExprV::Assignment { identifier, value: Box::new(value) }, p2),
                        ),
                        _ => Err(ParseError::InvalidAssignTarget),
                    },
                }
            } else {
                Err(ParseError::UnexpectedToken(p as usize))
            }
        } else {
            Ok((target, p1))
        },
    }
}

/// A binary level: its operand, then any number of (operator operand), grouped to the left.
pub open spec fn p_binary(ts: Seq<TokenV>, p: int, level: nat) -> ExprParse
    decreases ts.len() - p, level_rank(level),
{
    let first = if level >= 5 {
        p_unary(ts, p)
    } else {
        p_binary(ts, p, level + 1)
    };
    match first {
        Err(e) => Err(e),
        Ok((left, p1)) => if advanced(ts, p, p1) {
            p_binary_rest(ts, p1, level, left)
        } else {
            Err(ParseError::UnexpectedToken(p as usize))
        },
    }
}

pub open spec fn p_binary_rest(ts: Seq<TokenV>, p: int, level: nat, left: ExprV) -> ExprParse
    decreases ts.len() - p, level_rank(level) - 1,
{
    if check_any(ts, p, level_ops(level)) {
        let operand = if level >= 5 {
            p_unary(ts, p + 1)
        } else {
            p_binary(ts, p + 1, level + 1)
        };
        match operand {
            Err(e) => Err(e),
            Ok((right, p2)) => if advanced(ts, p + 1, p2) {
                p_binary_rest(
                    ts,
                    p2,
                    level,
                    ExprV::Binary { left: Box::new(left), operator: tok(ts, p), right: Box::new(right) },
                )
            } else {
                Err(ParseError::UnexpectedToken(p as usize))
            },
        }
    } else {
        Ok((left, p))
    }
}

/// unary → ( "!" | "-" ) unary | primary
pub open spec fn p_unary(ts: Seq<TokenV>, p: int) -> ExprParse
    decreases ts.len() - p, 6int,
{
    if check_any(ts, p, unary_ops()) {
        match p_unary(ts, p + 1) {
            Err(e) => Err(e),
            Ok((right, q)) => Ok((ExprV::Unary { operator: tok(ts, p), right: Box::new(right) }, q)),
        }
    } else {
        p_primary(ts, p)
    }
}

/// primary → literal | "(" expression ")" | identifier
pub open spec fn p_primary(ts: Seq<TokenV>, p: int) -> ExprParse
    decreases ts.len() - p, 5int,
{
    if check_any(ts, p, literal_kinds()) {
        Ok((ExprV::Literal(literal_value(tok(ts, p))), p + 1))
    } else if check(ts, p, TokenV::LeftParen) {
        match p_expression(ts, p + 1) {
            Err(e) => Err(e),
            Ok((e, q)) => if check(ts, q, TokenV::RightParen) {
                Ok((ExprV::Grouping { expression: Box::new(e) }, q + 1))
            } else {
                Err(ParseError::ExpectedRightParen)
            },
        }
    } else if check(ts, p, TokenV::Identifier(seq![])) {
        Ok((ExprV::Variable { identifier: tok(ts, p) }, p + 1))
    } else {
        Err(ParseError::UnexpectedToken(p as usize))
    }
}

/// declaration → "var" varDeclaration | statement
pub open spec fn p_declaration(ts: Seq<TokenV>, p: int) -> StmtParse
    decreases ts.len() - p, 25int,
{
    if check(ts, p, TokenV::Var) {
        p_var_declaration(ts, p + 1)
    } else {
        p_stmt(ts, p)
    }
}

/// varDeclaration → identifier ( "=" expression )? ";"
pub open spec fn p_var_declaration(ts: Seq<TokenV>, p: int) -> StmtParse
    decreases ts.len() - p, 24int,
{
    if !check(ts, p, TokenV::Identifier(seq![])) {
        Err(ParseError::ExpectedVarName)
    } else if check(ts, p + 1, TokenV::Equal) {
        match p_expression(ts, p + 2) {
            Err(e) => Err(e),
            Ok((e, q)) => if check(ts, q, TokenV::Semicolon) {
                Ok((StmtV::Var { name: tok(ts, p), initializer: Some(e) }, q + 1))
            } else {
                Err(ParseError::ExpectedSemicolonAfterVar)
            },
        }
    } else if check(ts, p + 1, TokenV::Semicolon) {
        Ok((StmtV::Var { name: tok(ts, p), initializer: None }, p + 2))
    } else {
        Err(ParseError::ExpectedSemicolonAfterVar)
    }
}

/// statement → "print" expression ";" | "{" block | "if" ifStmt | "while" whileStmt
///           | expression ";"
pub open spec fn p_stmt(ts: Seq<TokenV>, p: int) -> StmtParse
    decreases ts.len() - p, 24int,
{
    if check(ts, p, TokenV::Print) {
        match p_expression(ts, p + 1) {
            Err(e) => Err(e),
            Ok((e, q)) => if check(ts, q, TokenV::Semicolon) {
                Ok((StmtV::Print(e), q + 1))
            } else {
                Err(ParseError::ExpectedSemicolonAfterStatement)
            },
        }
    } else if check(ts, p, TokenV::LeftBrace) {
        match p_block(ts, p + 1, seq![]) {
            Err(e) => Err(e),
            Ok((ss, q)) => Ok((StmtV::Block(ss), q)),
        }
    } else if check(ts, p, TokenV::If) {
        p_if(ts, p + 1)
    } else if check(ts, p, TokenV::While) {
        p_while(ts, p + 1)
    } else {
        match p_expression(ts, p) {
            Err(e) => Err(e),
            Ok((e, q)) => if check(ts, q, TokenV::Semicolon) {
                Ok((StmtV::Expression(e), q + 1))
            } else {
                Err(ParseError::ExpectedSemicolonAfterStatement)
            },
        }
    }
}

/// block → declaration* "}", with `acc` the declarations read so far.
pub open spec fn p_block(ts: Seq<TokenV>, p: int, acc: Seq<StmtV>) -> StmtsParse
    decreases ts.len() - p, 30int,
{
    if !check(ts, p, TokenV::RightBrace) && !at_end(ts, p) {
        match p_declaration(ts, p) {
            Err(e) => Err(e),
            Ok((s, q)) => if advanced(ts, p, q) {
                p_block(ts, q, acc.push(s))
            } else {
                Err(ParseError::UnexpectedToken(p as usize))
            },
        }
    } else if check(ts, p, TokenV::RightBrace) {
        Ok((acc, p + 1))
    } else {
        Err(ParseError::ExpectedRightBrace)
    }
}

/// ifStmt → "(" expression ")" statement ( "else" statement )?
pub open spec fn p_if(ts: Seq<TokenV>, p: int) -> StmtParse
    decreases ts.len() - p, 23int,
{
    if !check(ts, p, TokenV::LeftParen) {
        Err(ParseError::ExpectedLeftParenAfterIf)
    } else {
        match p_expression(ts, p + 1) {
            Err(e) => Err(e),
            Ok((c, q)) => if !check(ts, q, TokenV::RightParen) {
                Err(ParseError::ExpectedRightParenAfterIf)
            } else if !advanced(ts, p, q) {
                Err(ParseError::UnexpectedToken(p as usize))
            } else {
                match p_stmt(ts, q + 1) {
                    Err(e) => Err(e),
                    Ok((t, q2)) => if check(ts, q2, TokenV::Else) {
                        if !advanced(ts, p, q2) {
                            Err(ParseError::UnexpectedToken(p as usize))
                        } else {
                            match p_stmt(ts, q2 + 1) {
                                Err(e) => Err(e),
                                Ok((e, q3)) => Ok(
                                    (
                                        StmtV::If {
                                            condition: c,
                                            then_branch: Box::new(t),
                                            else_branch: Some(Box::new(e)),
                                        },
                                        q3,
                                    ),
                                ),
                            }
                        }
                    } else {
                        Ok(
                            (
                                StmtV::If {
                                    condition: c,
                                    then_branch: Box::new(t),
                                    else_branch: None,
                                },
                                q2,
                            ),
                        )
                    },
                }
            },
        }
    }
}

/// whileStmt → "(" expression ")" statement
pub open spec fn p_while(ts: Seq<TokenV>, p: int) -> StmtParse
    decreases ts.len() - p, 23int,
{
    if !check(ts, p, TokenV::LeftParen) {
        Err(ParseError::ExpectedLeftParenAfterWhile)
    } else {
        match p_expression(ts, p + 1) {
            Err(e) => Err(e),
            Ok((c, q)) => if !check(ts, q, TokenV::RightParen) {
                Err(ParseError::ExpectedRightParenAfterWhile)
            } else if !advanced(ts, p, q) {
                Err(ParseError::UnexpectedToken(p as usize))
            } else {
                match p_stmt(ts, q + 1) {
                    Err(e) => Err(e),
                    Ok((b, q2)) => Ok((StmtV::While { condition: c, body: Box::new(b) }, q2)),
                }
            },
        }
    }
}

/// program → declaration* Eof, with `acc` the declarations read so far.
pub open spec fn p_program(ts: Seq<TokenV>, p: int, acc: Seq<StmtV>) -> Result<
    Seq<StmtV>,
    ParseError,
>
    decreases ts.len() - p,
{
    if !at_end(ts, p) {
        match p_declaration(ts, p) {
            Err(e) => Err(e),
            Ok((s, q)) => if advanced(ts, p, q) {
                p_program(ts, q, acc.push(s))
            } else {
                Err(ParseError::UnexpectedToken(p as usize))
            },
        }
    } else {
        Ok(acc)
    }
}

/// The program that the tokens from `p` on spell: an error when no `Eof` ends them.
pub open spec fn spec_parse(ts: Seq<TokenV>, p: int) -> Result<Seq<StmtV>, ParseError> {
    if eof_after(ts, p) {
        p_program(ts, p, seq![])
    } else {
        Err(ParseError::NoEof)
    }
}

/// The tokens of any successful scan hold an `Eof`, so the parser reads them as a program
/// rather than failing with `NoEof`.
pub proof fn lemma_scanned_tokens_end(cs: Seq<char>)
    ensures
        crate::scanner::scan(cs) matches Some((ts, _)) ==> eof_after(ts, 0) && spec_parse(ts, 0)
            == p_program(ts, 0, seq![]),
{
    crate::scanner::lemma_scan_ends_in_eof(cs);
    if let Some((ts, _)) = crate::scanner::scan(cs) {
        assert(ts[ts.len() - 1] is Eof);
        assert(eof_after(ts, 0));
    }
}

/// How tightly each binary operator binds, loosest first: `or`, `and`, equality,
/// comparison, `+` and `-`, `*` and `/`; `None` for a token that is no binary operator.
pub open spec fn binding_level(t: TokenV) -> Option<nat> {
    match t {
        TokenV::Or => Some(0),
        TokenV::And => Some(1),
        TokenV::BangEqual | TokenV::EqualEqual => Some(2),
        TokenV::Greater | TokenV::GreaterEqual | TokenV::Less | TokenV::LessEqual => Some(3),
        TokenV::Minus | TokenV::Plus => Some(4),
        TokenV::Slash | TokenV::Star => Some(5),
        _ => None,
    }
}

/// The token at `q` ends an expression of binary level `level`: it is `;`, or an operator
/// of another level.
spec fn ends_level(ts: Seq<TokenV>, q: int, level: nat) -> bool {
    ts[q] is Semicolon || (binding_level(ts[q]) matches Some(r) && r != level)
}

/// An operator of level `level` continues an expression of that level.
proof fn lemma_operator_of_level(ts: Seq<TokenV>, q: int, level: nat)
    requires
        0 <= q < ts.len(),
        binding_level(ts[q]) == Some(level),
    ensures
        check_any(ts, q, level_ops(level)),
{
    let ops = level_ops(level);
    let t = ts[q];
    assert(tok(ts, q) == t);
    if t is Or || t is And || t is BangEqual || t is Greater || t is Minus || t is Slash {
        assert(kind_of(t) == kind_of(ops[0]));
    } else if t is EqualEqual || t is GreaterEqual || t is Plus || t is Star {
        assert(kind_of(t) == kind_of(ops[1]));
    } else if t is Less {
        assert(kind_of(t) == kind_of(ops[2]));
    } else {
        assert(kind_of(t) == kind_of(ops[3]));
    }
}

/// A token that ends a level stops that level's list of operators.
proof fn lemma_level_stops(ts: Seq<TokenV>, q: int, level: nat, e: ExprV)
    requires
        0 <= q < ts.len(),
        level <= 5,
        ends_level(ts, q, level),
    ensures
        p_binary_rest(ts, q, level, e) == Ok::<(ExprV, int), ParseError>((e, q)),
{
    let ops = level_ops(level);
    assert(tok(ts, q) == ts[q]);
    assert forall|i: int| 0 <= i < ops.len() implies kind_of(tok(ts, q)) != kind_of(
        #[trigger] ops[i],
    ) by {
        if level == 0 {
        } else if level == 1 {
        } else if level == 2 {
        } else if level == 3 {
        } else if level == 4 {
        } else {
        }
    }
    assert(!check_any(ts, q, ops));
}

/// An expression of level `hi` that ends at a token ending every level from `lo` up is
/// also the expression of each of those looser levels.
proof fn lemma_climb(ts: Seq<TokenV>, p: int, e: ExprV, q: int, lo: nat, hi: nat)
    requires
        0 <= p < q < ts.len(),
        lo <= hi <= 5,
        p_binary(ts, p, hi) == Ok::<(ExprV, int), ParseError>((e, q)),
        forall|l: nat| lo <= l < hi ==> #[trigger] ends_level(ts, q, l),
    ensures
        p_binary(ts, p, lo) == Ok::<(ExprV, int), ParseError>((e, q)),
    decreases hi - lo,
{
    if lo < hi {
        lemma_climb(ts, p, e, q, (lo + 1) as nat, hi);
        assert(ends_level(ts, q, lo));
        lemma_level_stops(ts, q, lo, e);
    }
}

/// A literal token is a whole unary expression.
proof fn lemma_literal_unary(ts: Seq<TokenV>, p: int)
    requires
        0 <= p < ts.len(),
        is_literal_token(ts[p]),
    ensures
        p_unary(ts, p) == Ok::<(ExprV, int), ParseError>(
            (ExprV::Literal(literal_value(ts[p])), p + 1),
        ),
{
    let lit = ts[p];
    let le = ExprV::Literal(literal_value(lit));
    assert(tok(ts, p) == lit);
    let us = unary_ops();
    assert(!check_any(ts, p, us)) by {
        assert forall|i: int| 0 <= i < us.len() implies kind_of(tok(ts, p)) != kind_of(
            #[trigger] us[i],
        ) by {}
    }
    let lk = literal_kinds();
    assert(check_any(ts, p, lk)) by {
        if lit is False {
            assert(kind_of(tok(ts, p)) == kind_of(lk[0]));
        } else if lit is True {
            assert(kind_of(tok(ts, p)) == kind_of(lk[1]));
        } else if lit is Nil {
            assert(kind_of(tok(ts, p)) == kind_of(lk[2]));
        } else if lit is Number {
            assert(kind_of(tok(ts, p)) == kind_of(lk[3]));
        } else {
            assert(kind_of(tok(ts, p)) == kind_of(lk[4]));
        }
    }
    assert(p_primary(ts, p) == Ok::<(ExprV, int), ParseError>((le, p + 1)));
}

/// A literal is a whole operand of every level tighter than that of the operator after it.
proof fn lemma_literal_operand(ts: Seq<TokenV>, p: int, level: nat)
    requires
        0 <= p,
        p + 1 < ts.len(),
        is_literal_token(ts[p]),
        level <= 5,
        ts[p + 1] is Semicolon || (binding_level(ts[p + 1]) matches Some(r) && r < level),
    ensures
        p_binary(ts, p, level) == Ok::<(ExprV, int), ParseError>(
            (ExprV::Literal(literal_value(ts[p])), p + 1),
        ),
{
    let le = ExprV::Literal(literal_value(ts[p]));
    lemma_literal_unary(ts, p);
    assert(ends_level(ts, p + 1, 5));
    lemma_level_stops(ts, p + 1, 5, le);
    assert(p_binary(ts, p, 5) == Ok::<(ExprV, int), ParseError>((le, p + 1)));
    lemma_climb(ts, p, le, p + 1, level, 5);
}

/// Binary operators group by how tightly they bind: between three literals, `a o1 b o2 c`
/// groups as `a o1 (b o2 c)` where `o2` binds tighter than `o1`, and as `(a o1 b) o2 c`
/// where it does not (operators of one level group to the left).
pub proof fn lemma_binary_precedence(a: TokenV, o1: TokenV, b: TokenV, o2: TokenV, c: TokenV)
    requires
        is_literal_token(a),
        is_literal_token(b),
        is_literal_token(c),
        binding_level(o1) is Some,
        binding_level(o2) is Some,
    ensures
        binding_level(o1)->0 < binding_level(o2)->0 ==> p_expression(
            seq![a, o1, b, o2, c, TokenV::Semicolon, TokenV::Eof],
            0,
        ) == Ok::<(ExprV, int), ParseError>(
            (
                ExprV::Binary {
                    left: Box::new(ExprV::Literal(literal_value(a))),
                    operator: o1,
                    right: Box::new(
                        ExprV::Binary {
                            left: Box::new(ExprV::Literal(literal_value(b))),
                            operator: o2,
                            right: Box::new(ExprV::Literal(literal_value(c))),
                        },
                    ),
                },
                5,
            ),
        ),
        binding_level(o1)->0 >= binding_level(o2)->0 ==> p_expression(
            seq![a, o1, b, o2, c, TokenV::Semicolon, TokenV::Eof],
            0,
        ) == Ok::<(ExprV, int), ParseError>(
            (
                ExprV::Binary {
                    left: Box::new(
                        ExprV::Binary {
                            left: Box::new(ExprV::Literal(literal_value(a))),
                            operator: o1,
                            right: Box::new(ExprV::Literal(literal_value(b))),
                        },
                    ),
                    operator: o2,
                    right: Box::new(ExprV::Literal(literal_value(c))),
                },
                5,
            ),
        ),
{
    let ts = seq![a, o1, b, o2, c, TokenV::Semicolon, TokenV::Eof];
    let l1 = binding_level(o1)->0;
    let l2 = binding_level(o2)->0;
    let la = ExprV::Literal(literal_value(a));
    let lb = ExprV::Literal(literal_value(b));
    let lc = ExprV::Literal(literal_value(c));
    assert(ts[0] == a && ts[1] == o1 && ts[2] == b && ts[3] == o2 && ts[4] == c);
    assert(ts[5] is Semicolon);
    assert(tok(ts, 1) == o1 && tok(ts, 3) == o2);
    assert forall|l: nat| 0 <= l < 6 implies #[trigger] ends_level(ts, 5, l) by {}
    lemma_operator_of_level(ts, 1, l1);
    lemma_operator_of_level(ts, 3, l2);
    if l1 < l2 {
        let bc = ExprV::Binary { left: Box::new(lb), operator: o2, right: Box::new(lc) };
        let whole = ExprV::Binary { left: Box::new(la), operator: o1, right: Box::new(bc) };
        // b o2 c at level l2
        lemma_literal_unary(ts, 2);
        lemma_literal_unary(ts, 4);
        lemma_literal_operand(ts, 4, 5);
        if l2 < 5 {
            lemma_literal_operand(ts, 4, l2 + 1);
        }
        lemma_level_stops(ts, 5, l2, bc);
        assert(p_binary_rest(ts, 3, l2, lb) == Ok::<(ExprV, int), ParseError>((bc, 5)));
        if l2 < 5 {
            lemma_literal_operand(ts, 2, l2 + 1);
        }
        assert(p_binary(ts, 2, l2) == Ok::<(ExprV, int), ParseError>((bc, 5)));
        lemma_climb(ts, 2, bc, 5, l1 + 1, l2);
        // a o1 (b o2 c) at level l1
        lemma_literal_operand(ts, 0, l1 + 1);
        lemma_level_stops(ts, 5, l1, whole);
        assert(p_binary_rest(ts, 1, l1, la) == Ok::<(ExprV, int), ParseError>((whole, 5)));
        assert(p_binary(ts, 0, l1) == Ok::<(ExprV, int), ParseError>((whole, 5)));
        lemma_climb(ts, 0, whole, 5, 0, l1);
        assert(!check(ts, 5, TokenV::Equal));
    } else {
        let ab = ExprV::Binary { left: Box::new(la), operator: o1, right: Box::new(lb) };
        let whole = ExprV::Binary { left: Box::new(ab), operator: o2, right: Box::new(lc) };
        // a o1 b at level l1
        lemma_literal_unary(ts, 0);
        lemma_literal_unary(ts, 2);
        if l1 < 5 {
            lemma_literal_operand(ts, 0, l1 + 1);
            lemma_literal_operand(ts, 2, l1 + 1);
        }
        lemma_literal_unary(ts, 4);
        lemma_literal_operand(ts, 4, 5);
        if l2 < 5 {
            lemma_literal_operand(ts, 4, l2 + 1);
        }
        if l1 == l2 {
            lemma_level_stops(ts, 5, l1, whole);
            assert(p_binary_rest(ts, 3, l1, ab) == Ok::<(ExprV, int), ParseError>((whole, 5)));
            assert(p_binary_rest(ts, 1, l1, la) == Ok::<(ExprV, int), ParseError>((whole, 5)));
            assert(p_binary(ts, 0, l1) == Ok::<(ExprV, int), ParseError>((whole, 5)));
            lemma_climb(ts, 0, whole, 5, 0, l1);
        } else {
            assert(ends_level(ts, 3, l1));
            lemma_level_stops(ts, 3, l1, ab);
            assert(p_binary_rest(ts, 1, l1, la) == Ok::<(ExprV, int), ParseError>((ab, 3)));
            assert(p_binary(ts, 0, l1) == Ok::<(ExprV, int), ParseError>((ab, 3)));
            assert forall|l: nat| l2 + 1 <= l < l1 implies #[trigger] ends_level(ts, 3, l) by {}
            lemma_climb(ts, 0, ab, 3, l2 + 1, l1);
            lemma_level_stops(ts, 5, l2, whole);
            assert(p_binary_rest(ts, 3, l2, ab) == Ok::<(ExprV, int), ParseError>((whole, 5)));
            assert(p_binary(ts, 0, l2) == Ok::<(ExprV, int), ParseError>((whole, 5)));
            lemma_climb(ts, 0, whole, 5, 0, l2);
        }
        assert(!check(ts, 5, TokenV::Equal));
    }
}

/// `and` binds tighter than `or`: between three literals, `a or b and c` groups as
/// `a or (b and c)` and `a and b or c` as `(a and b) or c`.
pub proof fn lemma_and_binds_tighter_than_or(a: TokenV, b: TokenV, c: TokenV)
    requires
        is_literal_token(a),
        is_literal_token(b),
        is_literal_token(c),
    ensures
        p_expression(
            seq![a, TokenV::Or, b, TokenV::And, c, TokenV::Semicolon, TokenV::Eof],
            0,
        ) == Ok::<(ExprV, int), ParseError>(
            (
                ExprV::Binary {
                    left: Box::new(ExprV::Literal(literal_value(a))),
                    operator: TokenV::Or,
                    right: Box::new(
                        ExprV::Binary {
                            left: Box::new(ExprV::Literal(literal_value(b))),
                            operator: TokenV::And,
                            right: Box::new(ExprV::Literal(literal_value(c))),
                        },
                    ),
                },
                5,
            ),
        ),
        p_expression(
            seq![a, TokenV::And, b, TokenV::Or, c, TokenV::Semicolon, TokenV::Eof],
            0,
        ) == Ok::<(ExprV, int), ParseError>(
            (
                ExprV::Binary {
                    left: Box::new(
                        ExprV::Binary {
                            left: Box::new(ExprV::Literal(literal_value(a))),
                            operator: TokenV::And,
                            right: Box::new(ExprV::Literal(literal_value(b))),
                        },
                    ),
                    operator: TokenV::Or,
                    right: Box::new(ExprV::Literal(literal_value(c))),
                },
                5,
            ),
        ),
{
    lemma_binary_precedence(a, TokenV::Or, b, TokenV::And, c);
    lemma_binary_precedence(a, TokenV::And, b, TokenV::Or, c);
}

pub open spec fn expr_result(r: Result<Expr, ParseError>, pos: usize) -> ExprParse {
    match r {
        Ok(e) => Ok((e@, pos as int)),
        Err(e) => Err(e),
    }
}

pub open spec fn stmt_result(r: Result<Stmt, ParseError>, pos: usize) -> StmtParse {
    match r {
        Ok(s) => Ok((s@, pos as int)),
        Err(e) => Err(e),
    }
}

pub open spec fn stmts_result(r: Result<Vec<Stmt>, ParseError>, pos: usize) -> StmtsParse {
    match r {
        Ok(ss) => Ok((stmts_view(ss@), pos as int)),
        Err(e) => Err(e),
    }
}

pub open spec fn program_result(r: Result<Program, ParseError>) -> Result<Seq<StmtV>, ParseError> {
    match r {
        Ok(p) => Ok(p@),
        Err(e) => Err(e),
    }
}

/// Builds a syntax tree from tokens.
pub struct Parser {
    tokens: Vec<Token>,
    current: usize,
}

impl Parser {
    /// The views of the tokens.
    pub closed spec fn ts(&self) -> Seq<TokenV> {
        tokens_view(self.tokens@)
    }

    /// The index of the next token.
    pub closed spec fn pos(&self) -> int {
        self.current as int
    }

    spec fn wf(&self) -> bool {
        eof_after(self.ts(), self.current as int)
    }

    pub fn new(tokens: Vec<Token>) -> (r: Self)
        ensures
            r.ts() == tokens_view(tokens@),
            r.pos() == 0,
    {
        Self { tokens, current: 0 }
    }

    /// The program that the tokens spell, or why they spell none.
    pub fn try_parse(&mut self) -> (r: Result<Program, ParseError>)
        ensures
            final(self).ts() == old(self).ts(),
            program_result(r) == spec_parse(old(self).ts(), old(self).pos()),
    {
        if !self.has_eof() {
            return Err(ParseError::NoEof);
        }
        self.program()
    }

    /// The program that the tokens spell.
    pub fn parse(&mut self) -> (r: Program)
        requires
            spec_parse(old(self).ts(), old(self).pos()) is Ok,
        ensures
            final(self).ts() == old(self).ts(),
            spec_parse(old(self).ts(), old(self).pos()) == Ok::<Seq<StmtV>, ParseError>(r@),
    {
        match self.try_parse() {
            Ok(p) => p,
            Err(_) => Program(Vec::new()),
        }
    }

    fn has_eof(&self) -> (r: bool)
        ensures
            r == self.wf(),
    {
        if self.current >= self.tokens.len() {
            return false;
        }
        let mut k = self.current;
        while k < self.tokens.len()
            invariant
                self.current <= k <= self.tokens@.len(),
                forall|j: int| self.current <= j < k ==> !(self.ts()[j] is Eof),
            decreases self.tokens.len() - k,
        {
            if matches!(self.tokens[k], Token::Eof) {
                assert(self.ts()[k as int] is Eof);
                return true;
            }
            k += 1;
        }
        false
    }

    fn program(&mut self) -> (r: Result<Program, ParseError>)
        requires
            old(self).wf(),
        ensures
            final(self).ts() == old(self).ts(),
            program_result(r) == p_program(old(self).ts(), old(self).pos(), seq![]),
    {
        let mut stmts: Vec<Stmt> = Vec::new();
        assert(stmts_view(stmts@) =~= seq![]);
        loop
            invariant
                self.wf(),
                self.ts() == old(self).ts(),
                p_program(old(self).ts(), old(self).pos(), seq![]) == p_program(
                    self.ts(),
                    self.pos(),
                    stmts_view(stmts@),
                ),
            decreases self.tokens@.len() - self.current,
        {
            if self.is_at_end() {
                return Ok(Program(stmts));
            }
            let stmt = match self.declaration() {
                Ok(s) => s,
                Err(e) => return Err(e),
            };
            let ghost before = stmts@;
            stmts.push(stmt);
            assert(stmts@.drop_last() =~= before);
        }
    }

    fn declaration(&mut self) -> (r: Result<Stmt, ParseError>)
        requires
            old(self).wf(),
        ensures
            final(self).wf(),
            final(self).ts() == old(self).ts(),
            stmt_result(r, final(self).current) == p_declaration(old(self).ts(), old(self).pos()),
            r is Ok ==> final(self).current > old(self).current,
        decreases old(self).ts().len() - old(self).pos(), 25int,
    {
        if self.check(&Token::Var) {
            self.advance();
            self.var_declaration()
        } else {
            self.stmt()
        }
    }

    fn var_declaration(&mut self) -> (r: Result<Stmt, ParseError>)
        requires
            old(self).wf(),
        ensures
            final(self).wf(),
            final(self).ts() == old(self).ts(),
            stmt_result(r, final(self).current) == p_var_declaration(old(self).ts(), old(self).pos()),
            r is Ok ==> final(self).current > old(self).current,
        decreases old(self).ts().len() - old(self).pos(), 24int,
    {
        let name = match self.consume(Token::Identifier(String::new())) {
            Some(t) => t,
            None => return Err(ParseError::ExpectedVarName),
        };
        let initializer = if self.check(&Token::Equal) {
            self.advance();
            match self.expression() {
                Ok(e) => Some(e),
                Err(e) => return Err(e),
            }
        } else {
            None
        };
        match self.consume(Token::Semicolon) {
            Some(_) => Ok(Stmt::Var { name, initializer }),
            None => Err(ParseError::ExpectedSemicolonAfterVar),
        }
    }

    fn stmt(&mut self) -> (r: Result<Stmt, ParseError>)
        requires
            old(self).wf(),
        ensures
            final(self).wf(),
            final(self).ts() == old(self).ts(),
            stmt_result(r, final(self).current) == p_stmt(old(self).ts(), old(self).pos()),
            r is Ok ==> final(self).current > old(self).current,
        decreases old(self).ts().len() - old(self).pos(), 24int,
    {
        if self.check(&Token::Print) {
            self.advance();
            let e = match self.expression() {
                Ok(e) => e,
                Err(e) => return Err(e),
            };
            match self.consume(Token::Semicolon) {
                Some(_) => Ok(Stmt::Print(e)),
                None => Err(ParseError::ExpectedSemicolonAfterStatement),
            }
        } else if self.check(&Token::LeftBrace) {
            self.advance();
            match self.block() {
                Ok(ss) => Ok(Stmt::Block(ss)),
                Err(e) => Err(e),
            }
        } else if self.check(&Token::If) {
            self.advance();
            self.if_stmt()
        } else if self.check(&Token::While) {
            self.advance();
            self.while_stmt()
        } else {
            let e = match self.expression() {
                Ok(e) => e,
                Err(e) => return Err(e),
            };
            match self.consume(Token::Semicolon) {
                Some(_) => Ok(Stmt::Expression(e)),
                None => Err(ParseError::ExpectedSemicolonAfterStatement),
            }
        }
    }

    fn while_stmt(&mut self) -> (r: Result<Stmt, ParseError>)
        requires
            old(self).wf(),
        ensures
            final(self).wf(),
            final(self).ts() == old(self).ts(),
            stmt_result(r, final(self).current) == p_while(old(self).ts(), old(self).pos()),
            r is Ok ==> final(self).current > old(self).current,
        decreases old(self).ts().len() - old(self).pos(), 23int,
    {
        if self.consume(Token::LeftParen).is_none() {
            return Err(ParseError::ExpectedLeftParenAfterWhile);
        }
        let while_cond = match self.expression() {
            Ok(e) => e,
            Err(e) => return Err(e),
        };
        if self.consume(Token::RightParen).is_none() {
            return Err(ParseError::ExpectedRightParenAfterWhile);
        }
        let while_stmt = match self.stmt() {
            Ok(s) => s,
            Err(e) => return Err(e),
        };
        Ok(Stmt::build_while_stmt(while_cond, while_stmt))
    }

    fn if_stmt(&mut self) -> (r: Result<Stmt, ParseError>)
        requires
            old(self).wf(),
        ensures
            final(self).wf(),
            final(self).ts() == old(self).ts(),
            stmt_result(r, final(self).current) == p_if(old(self).ts(), old(self).pos()),
            r is Ok ==> final(self).current > old(self).current,
        decreases old(self).ts().len() - old(self).pos(), 23int,
    {
        let ghost ts = old(self).ts();
        let ghost p = old(self).pos();
        if self.consume(Token::LeftParen).is_none() {
            return Err(ParseError::ExpectedLeftParenAfterIf);
        }
        let condition = match self.expression() {
            Ok(e) => e,
            Err(e) => return Err(e),
        };
        let ghost q = self.pos();
        if self.consume(Token::RightParen).is_none() {
            return Err(ParseError::ExpectedRightParenAfterIf);
        }
        assert(advanced(ts, p, q));
        let then_branch = match self.stmt() {
            Ok(s) => s,
            Err(e) => return Err(e),
        };
        let ghost q2 = self.pos();
        assert(p_stmt(ts, q + 1) == Ok::<(StmtV, int), ParseError>((then_branch@, q2)));
        let else_kw = [Token::Else];
        assert(else_kw@.map_values(|t: Token| t@) =~= seq![TokenV::Else]);
        assert(seq![TokenV::Else][0] == TokenV::Else);
        let else_branch = if self.matches(&else_kw) {
            assert(check(ts, q2, TokenV::Else));
            assert(advanced(ts, p, q2));
            match self.stmt() {
                Ok(s) => Some(s),
                Err(e) => return Err(e),
            }
        } else {
            assert(!check(ts, q2, TokenV::Else));
            None
        };
        Ok(Stmt::build_if(condition, then_branch, else_branch))
    }

    fn block(&mut self) -> (r: Result<Vec<Stmt>, ParseError>)
        requires
            old(self).wf(),
        ensures
            final(self).wf(),
            final(self).ts() == old(self).ts(),
            stmts_result(r, final(self).current) == p_block(old(self).ts(), old(self).pos(), seq![]),
            r is Ok ==> final(self).current > old(self).current,
        decreases old(self).ts().len() - old(self).pos(), 30int,
    {
        let mut stmts: Vec<Stmt> = Vec::new();
        assert(stmts_view(stmts@) =~= seq![]);
        loop
            invariant
                self.wf(),
                self.ts() == old(self).ts(),
                self.current >= old(self).current,
                p_block(old(self).ts(), old(self).pos(), seq![]) == p_block(
                    self.ts(),
                    self.pos(),
                    stmts_view(stmts@),
                ),
            decreases self.tokens@.len() - self.current,
        {
            if self.check(&Token::RightBrace) || self.is_at_end() {
                return match self.consume(Token::RightBrace) {
                    Some(_) => Ok(stmts),
                    None => Err(ParseError::ExpectedRightBrace),
                };
            }
            let s = match self.declaration() {
                Ok(s) => s,
                Err(e) => return Err(e),
            };
            let ghost before = stmts@;
            stmts.push(s);
            assert(stmts@.drop_last() =~= before);
        }
    }

    fn expression(&mut self) -> (r: Result<Expr, ParseError>)
        requires
            old(self).wf(),
        ensures
            final(self).wf(),
            final(self).ts() == old(self).ts(),
            expr_result(r, final(self).current) == p_expression(old(self).ts(), old(self).pos()),
            r is Ok ==> final(self).current > old(self).current,
        decreases old(self).ts().len() - old(self).pos(), 20int,
    {
        self.assignment()
    }

    fn assignment(&mut self) -> (r: Result<Expr, ParseError>)
        requires
            old(self).wf(),
        ensures
            final(self).wf(),
            final(self).ts() == old(self).ts(),
            expr_result(r, final(self).current) == p_assignment(old(self).ts(), old(self).pos()),
            r is Ok ==> final(self).current > old(self).current,
        decreases old(self).ts().len() - old(self).pos(), 19int,
    {
        let expr = match self.or() {
            Ok(e) => e,
            Err(e) => return Err(e),
        };
        if self.check(&Token::Equal) {
            self.advance();
            let value = match self.assignment() {
                Ok(v) => v,
                Err(e) => return Err(e),
            };
            match expr {
                Expr::Variable { identifier } => Ok(Expr::build_assignment(identifier, value)),
                _ => Err(ParseError::InvalidAssignTarget),
            }
        } else {
            Ok(expr)
        }
    }

    fn or(&mut self) -> (r: Result<Expr, ParseError>)
        requires
            old(self).wf(),
        ensures
            final(self).wf(),
            final(self).ts() == old(self).ts(),
            expr_result(r, final(self).current) == p_binary(old(self).ts(), old(self).pos(), 0),
            r is Ok ==> final(self).current > old(self).current,
        decreases old(self).ts().len() - old(self).pos(), level_rank(0),
    {
        let mut expr = match self.and() {
            Ok(e) => e,
            Err(e) => return Err(e),
        };
        loop
            invariant
                self.wf(),
                self.ts() == old(self).ts(),
                self.current > old(self).current,
                p_binary(old(self).ts(), old(self).pos(), 0) == p_binary_rest(
                    self.ts(),
                    self.pos(),
                    0,
                    expr@,
                ),
            decreases self.tokens@.len() - self.current,
        {
            let ops = [Token::Or];
            assert(ops@.map_values(|t: Token| t@) =~= level_ops(0));
            if !self.matches(&ops) {
                return Ok(expr);
            }
            let operator = self.previous().duplicate();
            let right = match self.and() {
                Ok(e) => e,
                Err(e) => return Err(e),
            };
            expr = Expr::build_binary(expr, operator, right);
        }
    }

    fn and(&mut self) -> (r: Result<Expr, ParseError>)
        requires
            old(self).wf(),
        ensures
            final(self).wf(),
            final(self).ts() == old(self).ts(),
            expr_result(r, final(self).current) == p_binary(old(self).ts(), old(self).pos(), 1),
            r is Ok ==> final(self).current > old(self).current,
        decreases old(self).ts().len() - old(self).pos(), level_rank(1),
    {
        let mut expr = match self.equality() {
            Ok(e) => e,
            Err(e) => return Err(e),
        };
        loop
            invariant
                self.wf(),
                self.ts() == old(self).ts(),
                self.current > old(self).current,
                p_binary(old(self).ts(), old(self).pos(), 1) == p_binary_rest(
                    self.ts(),
                    self.pos(),
                    1,
                    expr@,
                ),
            decreases self.tokens@.len() - self.current,
        {
            let ops = [Token::And];
            assert(ops@.map_values(|t: Token| t@) =~= level_ops(1));
            if !self.matches(&ops) {
                return Ok(expr);
            }
            let operator = self.previous().duplicate();
            let right = match self.equality() {
                Ok(e) => e,
                Err(e) => return Err(e),
            };
            expr = Expr::build_binary(expr, operator, right);
        }
    }

    fn equality(&mut self) -> (r: Result<Expr, ParseError>)
        requires
            old(self).wf(),
        ensures
            final(self).wf(),
            final(self).ts() == old(self).ts(),
            expr_result(r, final(self).current) == p_binary(old(self).ts(), old(self).pos(), 2),
            r is Ok ==> final(self).current > old(self).current,
        decreases old(self).ts().len() - old(self).pos(), level_rank(2),
    {
        let mut expr = match self.comparison() {
            Ok(e) => e,
            Err(e) => return Err(e),
        };
        loop
            invariant
                self.wf(),
                self.ts() == old(self).ts(),
                self.current > old(self).current,
                p_binary(old(self).ts(), old(self).pos(), 2) == p_binary_rest(
                    self.ts(),
                    self.pos(),
                    2,
                    expr@,
                ),
            decreases self.tokens@.len() - self.current,
        {
            let ops = [Token::BangEqual, Token::EqualEqual];
            assert(ops@.map_values(|t: Token| t@) =~= level_ops(2));
            if !self.matches(&ops) {
                return Ok(expr);
            }
            let operator = self.previous().duplicate();
            let right = match self.comparison() {
                Ok(e) => e,
                Err(e) => return Err(e),
            };
            expr = Expr::build_binary(expr, operator, right);
        }
    }

    fn comparison(&mut self) -> (r: Result<Expr, ParseError>)
        requires
            old(self).wf(),
        ensures
            final(self).wf(),
            final(self).ts() == old(self).ts(),
            expr_result(r, final(self).current) == p_binary(old(self).ts(), old(self).pos(), 3),
            r is Ok ==> final(self).current > old(self).current,
        decreases old(self).ts().len() - old(self).pos(), level_rank(3),
    {
        let mut expr = match self.term() {
            Ok(e) => e,
            Err(e) => return Err(e),
        };
        loop
            invariant
                self.wf(),
                self.ts() == old(self).ts(),
                self.current > old(self).current,
                p_binary(old(self).ts(), old(self).pos(), 3) == p_binary_rest(
                    self.ts(),
                    self.pos(),
                    3,
                    expr@,
                ),
            decreases self.tokens@.len() - self.current,
        {
            let ops = [Token::Greater, Token::GreaterEqual, Token::Less, Token::LessEqual];
            assert(ops@.map_values(|t: Token| t@) =~= level_ops(3));
            if !self.matches(&ops) {
                return Ok(expr);
            }
            let operator = self.previous().duplicate();
            let right = match self.term() {
                Ok(e) => e,
                Err(e) => return Err(e),
            };
            expr = Expr::build_binary(expr, operator, right);
        }
    }

    fn term(&mut self) -> (r: Result<Expr, ParseError>)
        requires
            old(self).wf(),
        ensures
            final(self).wf(),
            final(self).ts() == old(self).ts(),
            expr_result(r, final(self).current) == p_binary(old(self).ts(), old(self).pos(), 4),
            r is Ok ==> final(self).current > old(self).current,
        decreases old(self).ts().len() - old(self).pos(), level_rank(4),
    {
        let mut expr = match self.factor() {
            Ok(e) => e,
            Err(e) => return Err(e),
        };
        loop
            invariant
                self.wf(),
                self.ts() == old(self).ts(),
                self.current > old(self).current,
                p_binary(old(self).ts(), old(self).pos(), 4) == p_binary_rest(
                    self.ts(),
                    self.pos(),
                    4,
                    expr@,
                ),
            decreases self.tokens@.len() - self.current,
        {
            let ops = [Token::Minus, Token::Plus];
            assert(ops@.map_values(|t: Token| t@) =~= level_ops(4));
            if !self.matches(&ops) {
                return Ok(expr);
            }
            let operator = self.previous().duplicate();
            let right = match self.factor() {
                Ok(e) => e,
                Err(e) => return Err(e),
            };
            expr = Expr::build_binary(expr, operator, right);
        }
    }

    fn factor(&mut self) -> (r: Result<Expr, ParseError>)
        requires
            old(self).wf(),
        ensures
            final(self).wf(),
            final(self).ts() == old(self).ts(),
            expr_result(r, final(self).current) == p_binary(old(self).ts(), old(self).pos(), 5),
            r is Ok ==> final(self).current > old(self).current,
        decreases old(self).ts().len() - old(self).pos(), level_rank(5),
    {
        let mut expr = match self.unary() {
            Ok(e) => e,
            Err(e) => return Err(e),
        };
        loop
            invariant
                self.wf(),
                self.ts() == old(self).ts(),
                self.current > old(self).current,
                p_binary(old(self).ts(), old(self).pos(), 5) == p_binary_rest(
                    self.ts(),
                    self.pos(),
                    5,
                    expr@,
                ),
            decreases self.tokens@.len() - self.current,
        {
            let ops = [Token::Slash, Token::Star];
            assert(ops@.map_values(|t: Token| t@) =~= level_ops(5));
            if !self.matches(&ops) {
                return Ok(expr);
            }
            let operator = self.previous().duplicate();
            let right = match self.unary() {
                Ok(e) => e,
                Err(e) => return Err(e),
            };
            expr = Expr::build_binary(expr, operator, right);
        }
    }

    fn unary(&mut self) -> (r: Result<Expr, ParseError>)
        requires
            old(self).wf(),
        ensures
            final(self).wf(),
            final(self).ts() == old(self).ts(),
            expr_result(r, final(self).current) == p_unary(old(self).ts(), old(self).pos()),
            r is Ok ==> final(self).current > old(self).current,
        decreases old(self).ts().len() - old(self).pos(), 6int,
    {
        let ops = [Token::Bang, Token::Minus];
        assert(ops@.map_values(|t: Token| t@) =~= unary_ops());
        if self.matches(&ops) {
            let operator = self.previous().duplicate();
            let right = match self.unary() {
                Ok(e) => e,
                Err(e) => return Err(e),
            };
            return Ok(Expr::build_unary(operator, right));
        }
        self.primary()
    }

    fn primary(&mut self) -> (r: Result<Expr, ParseError>)
        requires
            old(self).wf(),
        ensures
            final(self).wf(),
            final(self).ts() == old(self).ts(),
            expr_result(r, final(self).current) == p_primary(old(self).ts(), old(self).pos()),
            r is Ok ==> final(self).current > old(self).current,
            !(check_any(old(self).ts(), old(self).pos(), literal_kinds()) || check(
                old(self).ts(),
                old(self).pos(),
                TokenV::LeftParen,
            ) || check(old(self).ts(), old(self).pos(), TokenV::Identifier(seq![])))
                ==> final(self).current == old(self).current,
        decreases old(self).ts().len() - old(self).pos(), 5int,
    {
        let literals = [
            Token::False,
            Token::True,
            Token::Nil,
            Token::Number(Num::from_i64(0)),
            Token::StringLiteral(String::new()),
        ];
        assert(literals@.map_values(|t: Token| t@) =~= literal_kinds());
        if self.matches(&literals) {
            return Ok(Expr::build_literal(self.previous().duplicate()));
        }
        if self.check(&Token::LeftParen) {
            self.advance();
            let expr = match self.expression() {
                Ok(e) => e,
                Err(e) => return Err(e),
            };
            return match self.consume(Token::RightParen) {
                Some(_) => Ok(Expr::build_grouping(expr)),
                None => Err(ParseError::ExpectedRightParen),
            };
        }
        if self.check(&Token::Identifier(String::new())) {
            self.advance();
            return Ok(Expr::build_variable(self.previous().duplicate()));
        }
        Err(ParseError::UnexpectedToken(self.current))
    }
}

// utils
impl Parser {
    fn is_at_end(&self) -> (r: bool)
        requires
            self.wf(),
        ensures
            r == at_end(self.ts(), self.pos()),
    {
        matches!(self.peek(), Token::Eof)
    }

    fn peek(&self) -> (r: &Token)
        requires
            self.wf(),
        ensures
            r@ == tok(self.ts(), self.pos()),
    {
        &self.tokens[self.current]
    }

    fn previous(&self) -> (r: &Token)
        requires
            0 < self.current <= self.tokens@.len(),
        ensures
            r@ == self.ts()[self.pos() - 1],
    {
        &self.tokens[self.current - 1]
    }

    fn check(&self, token: &Token) -> (r: bool)
        requires
            self.wf(),
        ensures
            r == check(self.ts(), self.pos(), token@),
    {
        if self.is_at_end() {
            false
        } else {
            self.peek().kind() == token.kind()
        }
    }

    fn matches(&mut self, token_list: &[Token]) -> (r: bool)
        requires
            old(self).wf(),
        ensures
            final(self).wf(),
            final(self).ts() == old(self).ts(),
            r == check_any(old(self).ts(), old(self).pos(), token_list@.map_values(|t: Token| t@)),
            final(self).current == (if r {
                old(self).current + 1
            } else {
                old(self).current as int
            }),
    {
        let ghost ks = token_list@.map_values(|t: Token| t@);
        let mut i: usize = 0;
        while i < token_list.len()
            invariant
                self == old(self),
                self.wf(),
                i <= token_list@.len(),
                ks == token_list@.map_values(|t: Token| t@),
                forall|j: int| 0 <= j < i ==> !check(self.ts(), self.pos(), #[trigger] ks[j]),
            decreases token_list.len() - i,
        {
            if self.check(&token_list[i]) {
                assert(kind_of(tok(self.ts(), self.pos())) == kind_of(ks[i as int]));
                self.advance();
                return true;
            }
            i += 1;
        }
        assert(!check_any(old(self).ts(), old(self).pos(), ks)) by {
            if check_any(old(self).ts(), old(self).pos(), ks) {
                let j = choose|j: int| 0 <= j < ks.len() && kind_of(tok(self.ts(), self.pos())) == kind_of(ks[j]);
                assert(check(self.ts(), self.pos(), ks[j]));
            }
        }
        false
    }

    fn advance(&mut self)
        requires
            old(self).wf(),
        ensures
            final(self).wf(),
            final(self).ts() == old(self).ts(),
            final(self).current == (if at_end(old(self).ts(), old(self).pos()) {
                old(self).current as int
            } else {
                old(self).current + 1
            }),
    {
        let n = self.tokens.len();
        if !self.is_at_end() {
            proof {
                let k = choose|k: int| self.pos() <= k < self.ts().len() && (#[trigger] self.ts()[k]) is Eof;
                assert(self.pos() + 1 <= k);
                assert(self.ts().len() == self.tokens@.len());
                assert(self.current + 1 <= self.tokens@.len());
            }
            self.current += 1;
        }
    }

    fn consume(&mut self, token: Token) -> (r: Option<Token>)
        requires
            old(self).wf(),
        ensures
            final(self).wf(),
            final(self).ts() == old(self).ts(),
            check(old(self).ts(), old(self).pos(), token@) ==> (r matches Some(t) && t@ == tok(
                old(self).ts(),
                old(self).pos(),
            ) && final(self).current == old(self).current + 1),
            !check(old(self).ts(), old(self).pos(), token@) ==> (r is None && final(self).current
                == old(self).current),
    {
        if self.check(&token) {
            let token = self.peek().duplicate();
            self.advance();
            Some(token)
        } else {
            None
        }
    }
}

} // verus!
