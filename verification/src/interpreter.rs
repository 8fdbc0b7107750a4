//! The interpreter: runs a syntax tree.
//!
//! `eval_expr` and `exec_stmt` state the language's meaning over mathematical values;
//! the methods of `Interpreter` are proved to compute them. Both give the state reached
//! together with the result, so that a run that stops on an error still says what it
//! left behind: the scopes as the failing step left them, and every value printed
//! before it. A `print` statement does not write anything itself: it appends its value
//! to the interpreter's output, which the caller takes with `take_output`.
use crate::ast::{
    stmt_view, stmts_view, Expr, ExprV, ExpressionVisitor, Stmt, StatementVisitor, StmtV,
};
use crate::environment::{env_assign, env_define, env_get, opt_view, Environment, Scope};
use crate::object::{
    result_view, spec_add, spec_and, spec_bang, spec_compare, spec_div, spec_mult, spec_negate,
    spec_or, spec_sub, truthy, ObjV, Object, RuntimeError,
};
use crate::scanner::{Token, TokenV};
use vstd::prelude::*;

verus! {

/// The state that running a program changes: the scopes, the printed values, and the
/// number of loop iterations that may still run.
pub struct Machine {
    pub env: Seq<Scope>,
    pub out: Seq<ObjV>,
    pub fuel: nat,
}

/// The machine of a new interpreter: one empty scope, nothing printed, and the largest
/// loop budget.
pub open spec fn initial_machine() -> Machine {
    Machine { env: seq![Scope::empty()], out: seq![], fuel: u64::MAX as nat }
}

pub open spec fn is_unary_operator(op: TokenV) -> bool {
    op is Minus || op is Bang
}

pub open spec fn unary_result(op: TokenV, v: ObjV) -> Result<ObjV, RuntimeError> {
    match op {
        TokenV::Minus => spec_negate(v),
        TokenV::Bang => spec_bang(v),
        _ => Err(RuntimeError::InvalidOperator),
    }
}

pub open spec fn is_binary_operator(op: TokenV) -> bool {
    op is BangEqual || op is EqualEqual || op is Greater || op is GreaterEqual || op is Less
        || op is LessEqual || op is Plus || op is Minus || op is Star || op is Slash || op is And
        || op is Or
}

pub open spec fn binary_result(op: TokenV, a: ObjV, b: ObjV) -> Result<ObjV, RuntimeError> {
    match op {
        TokenV::BangEqual => Ok(ObjV::Boolean(a != b)),
        TokenV::EqualEqual => Ok(ObjV::Boolean(a == b)),
        TokenV::Greater => spec_compare(a, b, 2),
        TokenV::GreaterEqual => spec_compare(a, b, 3),
        TokenV::Less => spec_compare(a, b, 0),
        TokenV::LessEqual => spec_compare(a, b, 1),
        TokenV::Plus => spec_add(a, b),
        TokenV::Minus => spec_sub(a, b),
        TokenV::Star => spec_mult(a, b),
        TokenV::Slash => spec_div(a, b),
        TokenV::And => Ok(spec_and(a, b)),
        TokenV::Or => Ok(spec_or(a, b)),
        _ => Err(RuntimeError::InvalidOperator),
    }
}

/// The value of an expression (or the error that stops it) and the scopes after it. An
/// operator is checked before its operands are evaluated, and operands are evaluated left
/// to right; an error leaves the scopes as the operands evaluated so far left them.
pub open spec fn eval_expr(env: Seq<Scope>, e: ExprV) -> (Result<ObjV, RuntimeError>, Seq<Scope>)
    decreases e,
{
    match e {
        ExprV::Literal(o) => (Ok(o), env),
        ExprV::Grouping { expression } => eval_expr(env, *expression),
        ExprV::Unary { operator, right } => if !is_unary_operator(operator) {
            (Err(RuntimeError::InvalidOperator), env)
        } else {
            let (r, env1) = eval_expr(env, *right);
            match r {
                Ok(v) => (unary_result(operator, v), env1),
                Err(x) => (Err(x), env1),
            }
        },
        ExprV::Binary { left, operator, right } => if !is_binary_operator(operator) {
            (Err(RuntimeError::InvalidOperator), env)
        } else {
            let (ra, env1) = eval_expr(env, *left);
            match ra {
                Err(x) => (Err(x), env1),
                Ok(a) => {
                    let (rb, env2) = eval_expr(env1, *right);
                    match rb {
                        Err(x) => (Err(x), env2),
                        Ok(b) => (binary_result(operator, a, b), env2),
                    }
                },
            }
        },
        ExprV::Variable { identifier } => match identifier {
            TokenV::Identifier(n) => match env_get(env, n) {
                Some(v) => (Ok(v), env),
                None => (Err(RuntimeError::UndefinedVariable), env),
            },
            _ => (Err(RuntimeError::NotAnIdentifier), env),
        },
        ExprV::Assignment { identifier, value } => match identifier {
            TokenV::Identifier(n) => {
                let (r, env1) = eval_expr(env, *value);
                match r {
                    Err(x) => (Err(x), env1),
                    Ok(v) => (Ok(ObjV::Null), env_assign(env1, n, v)),
                }
            },
            _ => (Err(RuntimeError::NotAnIdentifier), env),
        },
    }
}

/// The machine with other scopes.
pub open spec fn with_env(m: Machine, env: Seq<Scope>) -> Machine {
    Machine { env, out: m.out, fuel: m.fuel }
}

/// The result of a statement (the value of an expression statement, or of the branch that
/// an `if` runs; nothing for the others), or the error that stops it, and the machine
/// after it. A block that fails still leaves its scope.
pub open spec fn exec_stmt(m: Machine, s: StmtV) -> (Result<Option<ObjV>, RuntimeError>, Machine)
    decreases m.fuel, s,
{
    match s {
        StmtV::Expression(e) => {
            let (r, env1) = eval_expr(m.env, e);
            match r {
                Ok(v) => (Ok(Some(v)), with_env(m, env1)),
                Err(x) => (Err(x), with_env(m, env1)),
            }
        },
        StmtV::Print(e) => {
            let (r, env1) = eval_expr(m.env, e);
            match r {
                Ok(v) => (Ok(None), Machine { env: env1, out: m.out.push(v), fuel: m.fuel }),
                Err(x) => (Err(x), with_env(m, env1)),
            }
        },
        StmtV::Var { name, initializer } => {
            let (r, env1) = match initializer {
                Some(e) => {
                    let (r, env1) = eval_expr(m.env, e);
                    match r {
                        Ok(v) => (Ok(Some(v)), env1),
                        Err(x) => (Err(x), env1),
                    }
                },
                None => (Ok(None), m.env),
            };
            match r {
                Err(x) => (Err(x), with_env(m, env1)),
                Ok(value) => (
                    Ok(None),
                    with_env(
                        m,
                        match name {
                            TokenV::Identifier(n) => env_define(env1, n, value),
                            _ => env1,
                        },
                    ),
                ),
            }
        },
        StmtV::Block(ss) => {
            let (r, m2) = exec_stmts(with_env(m, m.env.push(Scope::empty())), ss);
            (
                match r {
                    None => Ok(None),
                    Some(x) => Err(x),
                },
                with_env(m2, m2.env.drop_last()),
            )
        },
        StmtV::If { condition, then_branch, else_branch } => {
            let (r, env1) = eval_expr(m.env, condition);
            match r {
                Err(x) => (Err(x), with_env(m, env1)),
                Ok(v) => if truthy(v) {
                    exec_stmt(with_env(m, env1), *then_branch)
                } else {
                    match else_branch {
                        Some(e) => exec_stmt(with_env(m, env1), *e),
                        None => (Ok(None), with_env(m, env1)),
                    }
                },
            }
        },
        StmtV::While { condition, body } => {
            let (r, env1) = eval_expr(m.env, condition);
            match r {
                Err(x) => (Err(x), with_env(m, env1)),
                Ok(v) => if !truthy(v) {
                    (Ok(None), with_env(m, env1))
                } else if m.fuel == 0 {
                    (Err(RuntimeError::LoopLimit), with_env(m, env1))
                } else {
                    let m1 = Machine { env: env1, out: m.out, fuel: (m.fuel - 1) as nat };
                    let (rb, m2) = exec_stmt(m1, *body);
                    match rb {
                        Err(x) => (Err(x), m2),
                        Ok(_) => if m2.fuel <= m1.fuel {
                            exec_stmt(m2, s)
                        } else {
                            (Err(RuntimeError::LoopLimit), m2)
                        },
                    }
                },
            }
        },
    }
}

/// The error that stops the statements, run in order, if one does, and the machine they
/// leave.
pub open spec fn exec_stmts(m: Machine, ss: Seq<StmtV>) -> (Option<RuntimeError>, Machine)
    decreases m.fuel, ss,
{
    if ss.len() == 0 {
        (None, m)
    } else {
        let (r, m2) = exec_stmts(m, ss.drop_last());
        match r {
            Some(x) => (Some(x), m2),
            None => if m2.fuel <= m.fuel {
                let (r3, m3) = exec_stmt(m2, ss.last());
                (
                    match r3 {
                        Ok(_) => None,
                        Err(x) => Some(x),
                    },
                    m3,
                )
            } else {
                (Some(RuntimeError::LoopLimit), m2)
            },
        }
    }
}

/// A program's result: the result of its last statement (nothing for no statements), or
/// the error that stops it, and the machine it leaves.
pub open spec fn run_program(m: Machine, ss: Seq<StmtV>) -> (
    Result<Option<ObjV>, RuntimeError>,
    Machine,
) {
    if ss.len() == 0 {
        (Ok(None), m)
    } else {
        let (r, m2) = exec_stmts(m, ss.drop_last());
        match r {
            Some(x) => (Err(x), m2),
            None => exec_stmt(m2, ss.last()),
        }
    }
}

pub proof fn lemma_env_assign_len(env: Seq<Scope>, n: Seq<char>, v: ObjV)
    ensures
        env_assign(env, n, v).len() == env.len(),
    decreases env.len(),
{
    if env.len() > 0 && !env.last().contains_key(n) {
        lemma_env_assign_len(env.drop_last(), n, v);
    }
}

/// Evaluating an expression keeps the number of scopes, whether or not it fails.
pub proof fn lemma_eval_keeps_depth(env: Seq<Scope>, e: ExprV)
    ensures
        eval_expr(env, e).1.len() == env.len(),
    decreases e,
{
    match e {
        ExprV::Grouping { expression } => lemma_eval_keeps_depth(env, *expression),
        ExprV::Unary { operator, right } => lemma_eval_keeps_depth(env, *right),
        ExprV::Binary { left, operator, right } => {
            lemma_eval_keeps_depth(env, *left);
            lemma_eval_keeps_depth(eval_expr(env, *left).1, *right);
        },
        ExprV::Assignment { identifier, value } => {
            lemma_eval_keeps_depth(env, *value);
            if let (TokenV::Identifier(n), (Ok(v), env1)) = (identifier, eval_expr(env, *value)) {
                lemma_env_assign_len(env1, n, v);
            }
        },
        _ => {},
    }
}

/// Running a statement, whether or not it fails, keeps the number of scopes and the
/// printed values already there, and spends no more than the loop budget it had.
pub proof fn lemma_exec_stmt_frame(m: Machine, s: StmtV)
    ensures
        exec_stmt(m, s).1.env.len() == m.env.len(),
        exec_stmt(m, s).1.fuel <= m.fuel,
        m.out.is_prefix_of(exec_stmt(m, s).1.out),
    decreases m.fuel, s,
{
    match s {
        StmtV::Expression(e) => lemma_eval_keeps_depth(m.env, e),
        StmtV::Print(e) => lemma_eval_keeps_depth(m.env, e),
        StmtV::Var { name, initializer } => {
            if let Some(e) = initializer {
                lemma_eval_keeps_depth(m.env, e);
            }
        },
        StmtV::Block(ss) => {
            let m0 = with_env(m, m.env.push(Scope::empty()));
            lemma_exec_stmts_frame(m0, ss);
        },
        StmtV::If { condition, then_branch, else_branch } => {
            lemma_eval_keeps_depth(m.env, condition);
            let env1 = eval_expr(m.env, condition).1;
            lemma_exec_stmt_frame(with_env(m, env1), *then_branch);
            if let Some(e) = else_branch {
                lemma_exec_stmt_frame(with_env(m, env1), *e);
            }
        },
        StmtV::While { condition, body } => {
            lemma_eval_keeps_depth(m.env, condition);
            let (r, env1) = eval_expr(m.env, condition);
            if r is Ok && truthy(r->Ok_0) && m.fuel > 0 {
                let m1 = Machine { env: env1, out: m.out, fuel: (m.fuel - 1) as nat };
                lemma_exec_stmt_frame(m1, *body);
                let (rb, m2) = exec_stmt(m1, *body);
                if rb is Ok && m2.fuel <= m1.fuel {
                    lemma_exec_stmt_frame(m2, s);
                }
            }
        },
    }
}

/// Running statements, whether or not they fail, keeps the number of scopes and the
/// printed values already there, and spends no more than the loop budget it had.
pub proof fn lemma_exec_stmts_frame(m: Machine, ss: Seq<StmtV>)
    ensures
        exec_stmts(m, ss).1.env.len() == m.env.len(),
        exec_stmts(m, ss).1.fuel <= m.fuel,
        m.out.is_prefix_of(exec_stmts(m, ss).1.out),
    decreases m.fuel, ss,
{
    if ss.len() > 0 {
        lemma_exec_stmts_frame(m, ss.drop_last());
        let (r, m2) = exec_stmts(m, ss.drop_last());
        if r is None && m2.fuel <= m.fuel {
            lemma_exec_stmt_frame(m2, ss.last());
        }
    }
}

/// A program, whether or not it fails, keeps the number of scopes and the values printed
/// before it ran, and spends no more than the loop budget it had.
pub proof fn lemma_run_program_frame(m: Machine, p: Seq<StmtV>)
    ensures
        run_program(m, p).1.env.len() == m.env.len(),
        run_program(m, p).1.fuel <= m.fuel,
        m.out.is_prefix_of(run_program(m, p).1.out),
{
    if p.len() > 0 {
        lemma_exec_stmts_frame(m, p.drop_last());
        let m2 = exec_stmts(m, p.drop_last()).1;
        lemma_exec_stmt_frame(m2, p.last());
    }
}

/// Once the first `k` statements of `ss` fail, running all of them fails with the same
/// error and leaves the same machine.
proof fn lemma_exec_stmts_prefix_err(m: Machine, ss: Seq<StmtV>, k: int)
    requires
        0 <= k <= ss.len(),
        exec_stmts(m, ss.take(k)).0 is Some,
    ensures
        exec_stmts(m, ss) == exec_stmts(m, ss.take(k)),
    decreases ss.len(),
{
    if k < ss.len() {
        assert(ss.drop_last().take(k) =~= ss.take(k));
        lemma_exec_stmts_prefix_err(m, ss.drop_last(), k);
    } else {
        assert(ss.take(k) =~= ss);
    }
}

/// Running statements `a` then `b` is running `a`, then `b` on the machine that `a` left;
/// where `a` fails, the two stop where `a` stopped.
pub proof fn lemma_exec_stmts_append(m: Machine, a: Seq<StmtV>, b: Seq<StmtV>)
    ensures
        exec_stmts(m, a).0 is Some ==> exec_stmts(m, a + b) == exec_stmts(m, a),
        exec_stmts(m, a).0 is None ==> exec_stmts(m, a + b) == exec_stmts(exec_stmts(m, a).1, b),
    decreases b.len(),
{
    if b.len() == 0 {
        assert(a + b =~= a);
    } else {
        assert((a + b).drop_last() =~= a + b.drop_last());
        assert((a + b).last() == b.last());
        lemma_exec_stmts_append(m, a, b.drop_last());
        lemma_exec_stmts_frame(m, a);
        lemma_exec_stmts_frame(exec_stmts(m, a).1, b.drop_last());
    }
}

/// A non-empty program's run leaves the machine that running its statements leaves, and
/// fails exactly where they fail.
proof fn lemma_run_program_machine(m: Machine, p: Seq<StmtV>)
    requires
        p.len() > 0,
    ensures
        exec_stmts(m, p) == (
            match run_program(m, p).0 {
                Ok(_) => None,
                Err(x) => Some(x),
            },
            run_program(m, p).1,
        ),
{
    lemma_exec_stmts_frame(m, p.drop_last());
}

/// Running one program and then another on the machine the first left is running the two
/// as one program; where the first fails, the two stop where it stopped.
pub proof fn lemma_run_in_sequence(m: Machine, p1: Seq<StmtV>, p2: Seq<StmtV>)
    requires
        p2.len() > 0,
    ensures
        run_program(m, p1).0 is Ok ==> run_program(run_program(m, p1).1, p2) == run_program(
            m,
            p1 + p2,
        ),
        run_program(m, p1).0 is Err ==> run_program(m, p1 + p2) == run_program(m, p1),
{
    assert((p1 + p2).drop_last() =~= p1 + p2.drop_last());
    assert((p1 + p2).last() == p2.last());
    lemma_exec_stmts_append(m, p1, p2.drop_last());
    if p1.len() == 0 {
        assert(p1 + p2 =~= p2);
    } else {
        lemma_run_program_machine(m, p1);
    }
}

/// A variable declared with a value reads back that value.
pub proof fn lemma_declare_then_read(m: Machine, n: Seq<char>, o: ObjV)
    requires
        m.env.len() >= 1,
    ensures
        run_program(
            m,
            seq![
                StmtV::Var { name: TokenV::Identifier(n), initializer: Some(ExprV::Literal(o)) },
                StmtV::Expression(ExprV::Variable { identifier: TokenV::Identifier(n) }),
            ],
        ).0 == Ok::<Option<ObjV>, RuntimeError>(Some(o)),
{
    let decl = StmtV::Var { name: TokenV::Identifier(n), initializer: Some(ExprV::Literal(o)) };
    let read = StmtV::Expression(ExprV::Variable { identifier: TokenV::Identifier(n) });
    let p = seq![decl, read];
    assert(p.drop_last() =~= seq![decl]);
    assert(p.last() == read);
    assert(seq![decl].drop_last() =~= Seq::<StmtV>::empty());
    let m1 = with_env(m, env_define(m.env, n, Some(o)));
    assert(exec_stmt(m, decl) == (Ok::<Option<ObjV>, RuntimeError>(None), m1));
    assert(exec_stmts(m, seq![decl].drop_last()) == (None::<RuntimeError>, m));
    assert(seq![decl].last() == decl);
    assert(exec_stmts(m, seq![decl]) == (None::<RuntimeError>, m1));
    crate::environment::lemma_get_after_define(m.env, n, Some(o));
    assert(eval_expr(m1.env, ExprV::Variable { identifier: TokenV::Identifier(n) }) == (
        Ok::<ObjV, RuntimeError>(o),
        m1.env,
    ));
}

/// After an assignment to a variable that some scope binds, the variable reads as the
/// assigned value; the assignment itself has the value `nil`.
pub proof fn lemma_assign_then_read(env: Seq<Scope>, n: Seq<char>, o: ObjV)
    requires
        exists|i: int| 0 <= i < env.len() && (#[trigger] env[i]).contains_key(n),
    ensures
        eval_expr(
            env,
            ExprV::Assignment { identifier: TokenV::Identifier(n), value: Box::new(ExprV::Literal(o)) },
        ).0 == Ok::<ObjV, RuntimeError>(ObjV::Null),
        ({
            let env1 = eval_expr(
                env,
                ExprV::Assignment {
                    identifier: TokenV::Identifier(n),
                    value: Box::new(ExprV::Literal(o)),
                },
            ).1;
            eval_expr(env1, ExprV::Variable { identifier: TokenV::Identifier(n) }) == (
                Ok::<ObjV, RuntimeError>(o),
                env1,
            )
        }),
{
    let e = ExprV::Assignment {
        identifier: TokenV::Identifier(n),
        value: Box::new(ExprV::Literal(o)),
    };
    let env1 = env_assign(env, n, o);
    assert(eval_expr(env, ExprV::Literal(o)) == (Ok::<ObjV, RuntimeError>(o), env));
    assert(eval_expr(env, e) == (Ok::<ObjV, RuntimeError>(ObjV::Null), env1));
    crate::environment::lemma_get_after_assign(env, n, o);
}

/// A declaration inside a block does not outlive the block: the block leaves the machine
/// as it found it.
pub proof fn lemma_block_declaration_is_local(m: Machine, n: Seq<char>, o: ObjV)
    ensures
        exec_stmt(
            m,
            StmtV::Block(
                seq![
                    StmtV::Var {
                        name: TokenV::Identifier(n),
                        initializer: Some(ExprV::Literal(o)),
                    },
                ],
            ),
        ) == (Ok::<Option<ObjV>, RuntimeError>(None), m),
{
    let decl = StmtV::Var { name: TokenV::Identifier(n), initializer: Some(ExprV::Literal(o)) };
    let ss = seq![decl];
    assert(ss.drop_last() =~= Seq::<StmtV>::empty());
    let start = with_env(m, m.env.push(Scope::empty()));
    let inner = env_define(m.env.push(Scope::empty()), n, Some(o));
    assert(exec_stmt(start, decl) == (Ok::<Option<ObjV>, RuntimeError>(None), with_env(start, inner)));
    assert(exec_stmts(start, ss.drop_last()) == (None::<RuntimeError>, start));
    assert(ss.last() == decl);
    assert(exec_stmts(start, ss) == (None::<RuntimeError>, with_env(start, inner)));
    crate::environment::lemma_shadow_then_leave(m.env, n, Some(o), n);
    assert(with_env(with_env(start, inner), inner.drop_last()) == m);
}

/// A `print` statement appends its value to the output and changes nothing else.
pub proof fn lemma_print_appends(m: Machine, o: ObjV)
    ensures
        exec_stmt(m, StmtV::Print(ExprV::Literal(o))) == (
            Ok::<Option<ObjV>, RuntimeError>(None),
            Machine { env: m.env, out: m.out.push(o), fuel: m.fuel },
        ),
{
}

/// Reading a variable that no scope binds to a value fails, and changes nothing.
pub proof fn lemma_undefined_read_changes_nothing(m: Machine, n: Seq<char>)
    requires
        env_get(m.env, n) is None,
    ensures
        exec_stmt(m, StmtV::Expression(ExprV::Variable { identifier: TokenV::Identifier(n) }))
            == (Err::<Option<ObjV>, RuntimeError>(RuntimeError::UndefinedVariable), m),
{
}

/// A new interpreter binds no variable, so reading any variable fails and changes nothing;
/// running no statements gives no value.
pub proof fn lemma_fresh_has_no_variables(n: Seq<char>)
    ensures
        env_get(initial_machine().env, n) is None,
        eval_expr(initial_machine().env, ExprV::Variable { identifier: TokenV::Identifier(n) })
            == (Err::<ObjV, RuntimeError>(RuntimeError::UndefinedVariable), initial_machine().env),
        run_program(initial_machine(), seq![]) == (
            Ok::<Option<ObjV>, RuntimeError>(None),
            initial_machine(),
        ),
{
    let env = initial_machine().env;
    assert(env.last() == Scope::empty());
    assert(!env.last().contains_key(n));
    assert(env.drop_last().len() == 0);
    reveal_with_fuel(env_get, 2);
}

/// A statement that fails after a `print` keeps the printed value: the output holds every
/// value printed before the failing statement.
pub proof fn lemma_failure_keeps_printed(m: Machine, o: ObjV, n: Seq<char>)
    requires
        env_get(m.env, n) is None,
    ensures
        run_program(
            m,
            seq![
                StmtV::Print(ExprV::Literal(o)),
                StmtV::Expression(ExprV::Variable { identifier: TokenV::Identifier(n) }),
            ],
        ) == (
            Err::<Option<ObjV>, RuntimeError>(RuntimeError::UndefinedVariable),
            Machine { env: m.env, out: m.out.push(o), fuel: m.fuel },
        ),
{
    let pr = StmtV::Print(ExprV::Literal(o));
    let read = StmtV::Expression(ExprV::Variable { identifier: TokenV::Identifier(n) });
    let p = seq![pr, read];
    let m1 = Machine { env: m.env, out: m.out.push(o), fuel: m.fuel };
    assert(p.drop_last() =~= seq![pr]);
    assert(p.last() == read);
    assert(seq![pr].drop_last() =~= Seq::<StmtV>::empty());
    assert(seq![pr].last() == pr);
    assert(exec_stmts(m, seq![pr].drop_last()) == (None::<RuntimeError>, m));
    assert(exec_stmt(m, pr) == (Ok::<Option<ObjV>, RuntimeError>(None), m1));
    assert(exec_stmts(m, seq![pr]) == (None::<RuntimeError>, m1));
}

/// An `if` whose condition is a value runs as the branch that the value picks: the
/// then-branch, result included, when the value counts as true; else the else-branch, or
/// nothing at all.
pub proof fn lemma_if_runs_its_branch(m: Machine, v: ObjV, t: StmtV, e: Option<StmtV>)
    ensures
        truthy(v) ==> exec_stmt(
            m,
            StmtV::If { condition: ExprV::Literal(v), then_branch: Box::new(t), else_branch: match e {
                Some(s) => Some(Box::new(s)),
                None => None,
            } },
        ) == exec_stmt(m, t),
        !truthy(v) ==> exec_stmt(
            m,
            StmtV::If { condition: ExprV::Literal(v), then_branch: Box::new(t), else_branch: match e {
                Some(s) => Some(Box::new(s)),
                None => None,
            } },
        ) == match e {
            Some(s) => exec_stmt(m, s),
            None => (Ok::<Option<ObjV>, RuntimeError>(None), m),
        },
{
    assert(with_env(m, m.env) == m);
}

/// An `if` whose condition holds has the value of its then-branch's expression, whatever
/// its else-branch.
pub proof fn lemma_if_true_has_the_then_value(m: Machine, o: ObjV, e: Option<StmtV>)
    ensures
        exec_stmt(
            m,
            StmtV::If {
                condition: ExprV::Literal(ObjV::Boolean(true)),
                then_branch: Box::new(StmtV::Expression(ExprV::Literal(o))),
                else_branch: match e {
                    Some(s) => Some(Box::new(s)),
                    None => None,
                },
            },
        ) == (Ok::<Option<ObjV>, RuntimeError>(Some(o)), m),
{
    let t = StmtV::Expression(ExprV::Literal(o));
    assert(eval_expr(m.env, ExprV::Literal(o)) == (Ok::<ObjV, RuntimeError>(o), m.env));
    assert(with_env(m, m.env) == m);
    assert(exec_stmt(m, t) == (Ok::<Option<ObjV>, RuntimeError>(Some(o)), m));
    lemma_if_runs_its_branch(m, ObjV::Boolean(true), t, e);
}

/// The value of a binary expression on two numbers, by operator: comparisons compare them,
/// `==` and `!=` test equality, `+`, `-` and `*` compute, and `/` divides rounding toward
/// zero (the remainder smaller than the divisor and zero or of the dividend's sign). None
/// of them changes the scopes.
pub proof fn lemma_number_operators(env: Seq<Scope>, x: int, y: int)
    ensures
        eval_expr(env, number_binary(x, TokenV::Greater, y)) == (
            Ok::<ObjV, RuntimeError>(ObjV::Boolean(x > y)),
            env,
        ),
        eval_expr(env, number_binary(x, TokenV::GreaterEqual, y)) == (
            Ok::<ObjV, RuntimeError>(ObjV::Boolean(x >= y)),
            env,
        ),
        eval_expr(env, number_binary(x, TokenV::Less, y)) == (
            Ok::<ObjV, RuntimeError>(ObjV::Boolean(x < y)),
            env,
        ),
        eval_expr(env, number_binary(x, TokenV::LessEqual, y)) == (
            Ok::<ObjV, RuntimeError>(ObjV::Boolean(x <= y)),
            env,
        ),
        eval_expr(env, number_binary(x, TokenV::EqualEqual, y)) == (
            Ok::<ObjV, RuntimeError>(ObjV::Boolean(x == y)),
            env,
        ),
        eval_expr(env, number_binary(x, TokenV::BangEqual, y)) == (
            Ok::<ObjV, RuntimeError>(ObjV::Boolean(x != y)),
            env,
        ),
        eval_expr(env, number_binary(x, TokenV::Plus, y)) == (
            Ok::<ObjV, RuntimeError>(ObjV::Number(x + y)),
            env,
        ),
        eval_expr(env, number_binary(x, TokenV::Minus, y)) == (
            Ok::<ObjV, RuntimeError>(ObjV::Number(x - y)),
            env,
        ),
        eval_expr(env, number_binary(x, TokenV::Star, y)) == (
            Ok::<ObjV, RuntimeError>(ObjV::Number(x * y)),
            env,
        ),
        y == 0 ==> eval_expr(env, number_binary(x, TokenV::Slash, y)) == (
            Err::<ObjV, RuntimeError>(RuntimeError::DivisionByZero),
            env,
        ),
        y != 0 ==> (eval_expr(env, number_binary(x, TokenV::Slash, y)) matches (
            Ok(ObjV::Number(q)),
            env1,
        ) && env1 == env && {
            let r = x - q * y;
            &&& (if r < 0 { -r } else { r }) < (if y < 0 { -y } else { y })
            &&& (r == 0 || (r < 0) == (x < 0))
        }),
{
    assert(eval_expr(env, ExprV::Literal(ObjV::Number(x))) == (
        Ok::<ObjV, RuntimeError>(ObjV::Number(x)),
        env,
    ));
    assert(eval_expr(env, ExprV::Literal(ObjV::Number(y))) == (
        Ok::<ObjV, RuntimeError>(ObjV::Number(y)),
        env,
    ));
    crate::object::lemma_division_truncates(x, y);
}

/// The value of the other operators on literals: unary `-` negates a number and `!`
/// negates a boolean; `+` joins two strings; `==` and `!=` compare any two values;
/// `and` gives its left operand when that is `nil` or `false` and its right one otherwise,
/// and `or` the reverse. None of them changes the scopes.
pub proof fn lemma_other_operators(env: Seq<Scope>, x: int, flag: bool, s1: Seq<char>, s2: Seq<char>, a: ObjV, b: ObjV)
    ensures
        eval_expr(env, unary_of(TokenV::Minus, ObjV::Number(x))) == (
            Ok::<ObjV, RuntimeError>(ObjV::Number(-x)),
            env,
        ),
        eval_expr(env, unary_of(TokenV::Bang, ObjV::Boolean(flag))) == (
            Ok::<ObjV, RuntimeError>(ObjV::Boolean(!flag)),
            env,
        ),
        eval_expr(env, binary_of(ObjV::Str(s1), TokenV::Plus, ObjV::Str(s2))) == (
            Ok::<ObjV, RuntimeError>(ObjV::Str(s1 + s2)),
            env,
        ),
        eval_expr(env, binary_of(a, TokenV::EqualEqual, b)) == (
            Ok::<ObjV, RuntimeError>(ObjV::Boolean(a == b)),
            env,
        ),
        eval_expr(env, binary_of(a, TokenV::BangEqual, b)) == (
            Ok::<ObjV, RuntimeError>(ObjV::Boolean(a != b)),
            env,
        ),
        eval_expr(env, binary_of(ObjV::Null, TokenV::And, b)) == (
            Ok::<ObjV, RuntimeError>(ObjV::Null),
            env,
        ),
        eval_expr(env, binary_of(ObjV::Boolean(false), TokenV::And, b)) == (
            Ok::<ObjV, RuntimeError>(ObjV::Boolean(false)),
            env,
        ),
        eval_expr(env, binary_of(ObjV::Number(x), TokenV::And, b)) == (
            Ok::<ObjV, RuntimeError>(b),
            env,
        ),
        eval_expr(env, binary_of(ObjV::Boolean(true), TokenV::And, b)) == (
            Ok::<ObjV, RuntimeError>(b),
            env,
        ),
        eval_expr(env, binary_of(ObjV::Null, TokenV::Or, b)) == (Ok::<ObjV, RuntimeError>(b), env),
        eval_expr(env, binary_of(ObjV::Boolean(false), TokenV::Or, b)) == (
            Ok::<ObjV, RuntimeError>(b),
            env,
        ),
        eval_expr(env, binary_of(ObjV::Str(s1), TokenV::Or, b)) == (
            Ok::<ObjV, RuntimeError>(ObjV::Str(s1)),
            env,
        ),
        eval_expr(env, binary_of(ObjV::Boolean(true), TokenV::Or, b)) == (
            Ok::<ObjV, RuntimeError>(ObjV::Boolean(true)),
            env,
        ),
{
    assert(eval_expr(env, ExprV::Literal(ObjV::Null)) == (Ok::<ObjV, RuntimeError>(ObjV::Null), env));
    assert(eval_expr(env, ExprV::Literal(ObjV::Boolean(true))) == (
        Ok::<ObjV, RuntimeError>(ObjV::Boolean(true)),
        env,
    ));
    assert(eval_expr(env, ExprV::Literal(ObjV::Boolean(false))) == (
        Ok::<ObjV, RuntimeError>(ObjV::Boolean(false)),
        env,
    ));
    assert(eval_expr(env, ExprV::Literal(ObjV::Str(s1))) == (
        Ok::<ObjV, RuntimeError>(ObjV::Str(s1)),
        env,
    ));
    assert(eval_expr(env, ExprV::Literal(ObjV::Str(s2))) == (
        Ok::<ObjV, RuntimeError>(ObjV::Str(s2)),
        env,
    ));
    assert(eval_expr(env, ExprV::Literal(ObjV::Number(x))) == (
        Ok::<ObjV, RuntimeError>(ObjV::Number(x)),
        env,
    ));
    assert(eval_expr(env, ExprV::Literal(ObjV::Boolean(flag))) == (
        Ok::<ObjV, RuntimeError>(ObjV::Boolean(flag)),
        env,
    ));
    assert(eval_expr(env, ExprV::Literal(a)) == (Ok::<ObjV, RuntimeError>(a), env));
    assert(eval_expr(env, ExprV::Literal(b)) == (Ok::<ObjV, RuntimeError>(b), env));
}

/// `while` with a condition that does not hold runs nothing and changes nothing.
pub proof fn lemma_while_false_runs_nothing(m: Machine, body: StmtV)
    ensures
        exec_stmt(
            m,
            StmtV::While {
                condition: ExprV::Literal(ObjV::Boolean(false)),
                body: Box::new(body),
            },
        ) == (Ok::<Option<ObjV>, RuntimeError>(None), m),
{
    assert(with_env(m, m.env) == m);
}

/// The expression `op v` on a literal.
pub open spec fn unary_of(op: TokenV, v: ObjV) -> ExprV {
    ExprV::Unary { operator: op, right: Box::new(ExprV::Literal(v)) }
}

/// The expression `a op b` on two literals.
pub open spec fn binary_of(a: ObjV, op: TokenV, b: ObjV) -> ExprV {
    ExprV::Binary {
        left: Box::new(ExprV::Literal(a)),
        operator: op,
        right: Box::new(ExprV::Literal(b)),
    }
}

/// The expression `x op y` on two number literals.
pub open spec fn number_binary(x: int, op: TokenV, y: int) -> ExprV {
    ExprV::Binary {
        left: Box::new(ExprV::Literal(ObjV::Number(x))),
        operator: op,
        right: Box::new(ExprV::Literal(ObjV::Number(y))),
    }
}

pub open spec fn outputs_view(v: Seq<Object>) -> Seq<ObjV> {
    v.map_values(|o: Object| o@)
}

/// A statement's result as a mathematical value.
pub open spec fn outcome_view(r: Result<Option<Object>, RuntimeError>) -> Result<
    Option<ObjV>,
    RuntimeError,
> {
    match r {
        Ok(o) => Ok(opt_view(o)),
        Err(e) => Err(e),
    }
}

/// Runs programs, keeping its variables from one program to the next.
pub struct Interpreter {
    environment: Environment,
    output: Vec<Object>,
    fuel: u64,
}

impl Interpreter {
    /// The interpreter's state as a machine.
    pub closed spec fn machine(&self) -> Machine {
        Machine { env: self.environment@, out: outputs_view(self.output@), fuel: self.fuel as nat }
    }

    /// An interpreter with one empty scope, nothing printed, and the largest loop budget.
    pub fn new() -> (r: Self)
        ensures
            r.machine() == initial_machine(),
    {
        let r = Self { environment: Environment::new(), output: Vec::new(), fuel: u64::MAX };
        assert(outputs_view(r.output@) =~= seq![]);
        r
    }

    /// Runs the statements in order: the result of the last one, or the error that stops
    /// the program. After an error the interpreter keeps the state the failing statement
    /// left: what was printed before it, and the variables as they then stood.
    pub fn try_run(&mut self, program: &[Stmt]) -> (r: Result<Option<Object>, RuntimeError>)
        ensures
            run_program(old(self).machine(), stmts_view(program@)) == (
                outcome_view(r),
                final(self).machine(),
            ),
    {
        if program.len() < 1 {
            return Ok(None);
        }
        let n = program.len();
        let mut i: usize = 0;
        assert(program@.take(0) =~= seq![]);
        while i < n - 1
            invariant
                n == program@.len(),
                n >= 1,
                i <= n - 1,
                exec_stmts(old(self).machine(), stmts_view(program@.take(i as int))) == (
                    None::<RuntimeError>,
                    self.machine(),
                ),
            decreases n - 1 - i,
        {
            let ghost before = self.machine();
            proof {
                lemma_stmts_view_take(program@, i as int);
                lemma_stmts_view_take(program@, i + 1);
                lemma_exec_stmts_frame(old(self).machine(), stmts_view(program@.take(i as int)));
                assert(program@.take(i + 1).drop_last() =~= program@.take(i as int));
                assert(program@.take(i + 1).last() == program@[i as int]);
            }
            let res = self.visit_statement(&program[i]);
            proof {
                let v1 = stmts_view(program@.take(i + 1));
                assert(v1.drop_last() == stmts_view(program@.take(i as int)));
                assert(v1.last() == stmt_view(program@[i as int]));
                assert(exec_stmts(old(self).machine(), v1.drop_last()) == (
                    None::<RuntimeError>,
                    before,
                ));
                assert(before.fuel <= old(self).machine().fuel);
            }
            match res {
                Ok(_) => {},
                Err(e) => {
                    proof {
                        lemma_stmts_view_take(program@, n - 1);
                        let v1 = stmts_view(program@.take(i + 1));
                        assert(exec_stmts(old(self).machine(), v1) == (
                            Some(e),
                            self.machine(),
                        ));
                        assert(stmts_view(program@.take(n - 1)).take(i + 1) =~= v1);
                        lemma_exec_stmts_prefix_err(
                            old(self).machine(),
                            stmts_view(program@.take(n - 1)),
                            i + 1,
                        );
                        assert(stmts_view(program@).drop_last() =~= stmts_view(program@.take(n - 1)));
                    }
                    return Err(e);
                },
            }
            i += 1;
        }
        proof {
            lemma_stmts_view_take(program@, n - 1);
            assert(stmts_view(program@).drop_last() =~= stmts_view(program@.take(n - 1)));
            assert(stmts_view(program@).last() == stmt_view(program@[n - 1]));
        }
        self.visit_statement(&program[n - 1])
    }

    /// Runs the statements in order: the result of the last one.
    pub fn run(&mut self, program: &[Stmt]) -> (r: Option<Object>)
        requires
            run_program(old(self).machine(), stmts_view(program@)).0 is Ok,
        ensures
            run_program(old(self).machine(), stmts_view(program@)) == (
                Ok::<Option<ObjV>, RuntimeError>(opt_view(r)),
                final(self).machine(),
            ),
    {
        match self.try_run(program) {
            Ok(r) => r,
            Err(_) => None,
        }
    }

    /// The values printed so far, which it removes from the interpreter.
    pub fn take_output(&mut self) -> (r: Vec<Object>)
        ensures
            outputs_view(r@) == old(self).machine().out,
            final(self).machine() == (Machine { out: seq![], ..old(self).machine() }),
    {
        let mut out: Vec<Object> = Vec::new();
        std::mem::swap(&mut out, &mut self.output);
        assert(outputs_view(self.output@) =~= seq![]);
        out
    }
}

impl StatementVisitor<Result<Option<Object>, RuntimeError>> for Interpreter {
    /// Running the statement from the state of `before` gives `r` and the state of `after`.
    open spec fn visited(
        before: Interpreter,
        stmt: StmtV,
        after: Interpreter,
        r: Result<Option<Object>, RuntimeError>,
    ) -> bool {
        exec_stmt(before.machine(), stmt) == (outcome_view(r), after.machine())
    }

    fn visit_statement(&mut self, stmt: &Stmt) -> (r: Result<Option<Object>, RuntimeError>)
        ensures
            exec_stmt(old(self).machine(), stmt@) == (outcome_view(r), final(self).machine()),
        decreases old(self).machine().fuel, stmt@, 1int,
    {
        match stmt {
            Stmt::Expression(_) => self.visit_expression_stmt(stmt),
            Stmt::Print(_) => self.visit_print_stmt(stmt),
            Stmt::Var { .. } => self.visit_variable_stmt(stmt),
            Stmt::Block(_) => self.visit_block_stmt(stmt),
            Stmt::If { .. } => self.visit_if_stmt(stmt),
            Stmt::While { .. } => self.visit_while_stmt(stmt),
        }
    }

    fn visit_print_stmt(&mut self, stmt: &Stmt) -> (r: Result<Option<Object>, RuntimeError>)
        ensures
            exec_stmt(old(self).machine(), stmt@) == (outcome_view(r), final(self).machine()),
        decreases old(self).machine().fuel, stmt@, 0int,
    {
        let Stmt::Print(e) = stmt else {
            return Ok(None);
        };
        let res = match self.eval(e) {
            Ok(v) => v,
            Err(x) => return Err(x),
        };
        let ghost before = self.output@;
        self.output.push(res);
        assert(outputs_view(self.output@) =~= outputs_view(before).push(res@));
        Ok(None)
    }

    fn visit_variable_stmt(&mut self, stmt: &Stmt) -> (r: Result<Option<Object>, RuntimeError>)
        ensures
            stmt is Var ==> exec_stmt(old(self).machine(), stmt@) == (
                outcome_view(r),
                final(self).machine(),
            ),
            !(stmt is Var) ==> r == Ok::<Option<Object>, RuntimeError>(None) && final(self).machine()
                == old(self).machine(),
        decreases old(self).machine().fuel, stmt@, 0int,
    {
        if let Stmt::Var { name, initializer } = stmt {
            let value = match initializer {
                Some(expr) => match self.eval(expr) {
                    Ok(v) => Some(v),
                    Err(x) => return Err(x),
                },
                None => None,
            };
            self.environment.set(name, value);
        }
        Ok(None)
    }

    fn visit_expression_stmt(&mut self, stmt: &Stmt) -> (r: Result<Option<Object>, RuntimeError>)
        ensures
            exec_stmt(old(self).machine(), stmt@) == (outcome_view(r), final(self).machine()),
        decreases old(self).machine().fuel, stmt@, 0int,
    {
        let Stmt::Expression(e) = stmt else {
            return Ok(None);
        };
        match self.eval(e) {
            Ok(v) => Ok(Some(v)),
            Err(x) => Err(x),
        }
    }

    fn visit_block_stmt(&mut self, stmt: &Stmt) -> (r: Result<Option<Object>, RuntimeError>)
        ensures
            exec_stmt(old(self).machine(), stmt@) == (outcome_view(r), final(self).machine()),
        decreases old(self).machine().fuel, stmt@, 0int,
    {
        let Stmt::Block(stmts) = stmt else {
            return Ok(None);
        };
        let ghost m0 = self.machine();
        proof {
            crate::environment::lemma_env_view_len(self.environment);
        }
        let ghost start = with_env(m0, m0.env.push(Scope::empty()));
        let mut prev = Environment::new();
        std::mem::swap(&mut prev, &mut self.environment);
        self.environment = Environment::new_with_enclosing(prev);
        assert(self.machine() == start);
        let n = stmts.len();
        let mut i: usize = 0;
        assert(stmts@.take(0) =~= seq![]);
        let mut failure: Option<RuntimeError> = None;
        while i < n
            invariant
                n == stmts@.len(),
                i <= n,
                self.fuel <= old(self).fuel,
                m0 == old(self).machine(),
                start == with_env(m0, m0.env.push(Scope::empty())),
                stmt@ == StmtV::Block(stmts_view(stmts@)),
                failure is None ==> exec_stmts(start, stmts_view(stmts@.take(i as int))) == (
                    None::<RuntimeError>,
                    self.machine(),
                ),
                failure is Some ==> exec_stmts(start, stmts_view(stmts@)) == (
                    failure,
                    self.machine(),
                ),
                failure is Some ==> i == n,
            decreases n - i,
        {
            proof {
                lemma_stmts_view_take(stmts@, i as int);
                lemma_stmts_view_take(stmts@, i + 1);
                lemma_exec_stmts_frame(start, stmts_view(stmts@.take(i as int)));
                assert(stmts@.take(i + 1).drop_last() =~= stmts@.take(i as int));
                assert(stmts@.take(i + 1).last() == stmts@[i as int]);
                lemma_stmts_view_take(stmts@, n as int);
                assert(stmts_view(stmts@)[i as int] == stmt_view(stmts@[i as int]));
                assert(decreases_to!(stmt@ => stmt@->Block_0));
                assert(decreases_to!(stmts_view(stmts@) => stmts_view(stmts@)[i as int]));
            }
            let ghost mi = self.machine();
            let res = self.visit_statement(&stmts[i]);
            proof {
                lemma_exec_stmt_frame(mi, stmt_view(stmts@[i as int]));
                let v1 = stmts_view(stmts@.take(i + 1));
                assert(v1.drop_last() == stmts_view(stmts@.take(i as int)));
                assert(v1.last() == stmt_view(stmts@[i as int]));
                assert(exec_stmts(start, v1.drop_last()) == (None::<RuntimeError>, mi));
                assert(mi.fuel <= start.fuel);
            }
            match res {
                Ok(_) => {
                    i += 1;
                },
                Err(e) => {
                    proof {
                        let v1 = stmts_view(stmts@.take(i + 1));
                        assert(exec_stmts(start, v1) == (Some(e), self.machine()));
                        assert(stmts@.take(n as int) =~= stmts@);
                        assert(stmts_view(stmts@).take(i + 1) =~= v1);
                        lemma_exec_stmts_prefix_err(start, stmts_view(stmts@), i + 1);
                    }
                    failure = Some(e);
                    i = n;
                },
            }
        }
        proof {
            assert(stmts@.take(n as int) =~= stmts@);
            lemma_exec_stmts_frame(start, stmts_view(stmts@));
        }
        let mut inner = Environment::new();
        std::mem::swap(&mut inner, &mut self.environment);
        assert(inner@.len() == m0.env.len() + 1);
        self.environment = inner.into_enclosing();
        match failure {
            None => Ok(None),
            Some(e) => Err(e),
        }
    }

    fn visit_if_stmt(&mut self, stmt: &Stmt) -> (r: Result<Option<Object>, RuntimeError>)
        ensures
            exec_stmt(old(self).machine(), stmt@) == (outcome_view(r), final(self).machine()),
        decreases old(self).machine().fuel, stmt@, 0int,
    {
        let Stmt::If { condition, then_branch, else_branch } = stmt else {
            return Ok(None);
        };
        let enter_if = match self.eval(condition) {
            Ok(v) => v.truth_value(),
            Err(x) => return Err(x),
        };
        if enter_if {
            self.visit_statement(then_branch)
        } else if let Some(els) = else_branch {
            self.visit_statement(els)
        } else {
            Ok(None)
        }
    }

    fn visit_while_stmt(&mut self, stmt: &Stmt) -> (r: Result<Option<Object>, RuntimeError>)
        ensures
            exec_stmt(old(self).machine(), stmt@) == (outcome_view(r), final(self).machine()),
        decreases old(self).machine().fuel, stmt@, 0int,
    {
        let Stmt::While { condition, body } = stmt else {
            return Ok(None);
        };
        loop
            invariant
                self.fuel <= old(self).fuel,
                stmt@ == (StmtV::While { condition: condition@, body: Box::new((**body)@) }),
                exec_stmt(old(self).machine(), stmt@) == exec_stmt(self.machine(), stmt@),
            decreases self.fuel,
        {
            let enter = match self.eval(condition) {
                Ok(v) => v.truth_value(),
                Err(x) => return Err(x),
            };
            if !enter {
                return Ok(None);
            }
            if self.fuel == 0 {
                return Err(RuntimeError::LoopLimit);
            }
            self.fuel = self.fuel - 1;
            let ghost m1 = self.machine();
            match self.visit_statement(body) {
                Ok(_) => {},
                Err(x) => return Err(x),
            }
            proof {
                lemma_exec_stmt_frame(m1, (**body)@);
            }
        }
    }
}

impl ExpressionVisitor<Result<Object, RuntimeError>> for Interpreter {
    /// Evaluating the expression in the scopes of `before` gives `r` and the scopes of
    /// `after`, and changes neither the output nor the loop budget.
    open spec fn evaluated(
        before: Interpreter,
        expr: ExprV,
        after: Interpreter,
        r: Result<Object, RuntimeError>,
    ) -> bool {
        &&& eval_expr(before.machine().env, expr) == (result_view(r), after.machine().env)
        &&& after.machine().out == before.machine().out
        &&& after.machine().fuel == before.machine().fuel
    }

    fn eval(&mut self, expr: &Expr) -> (r: Result<Object, RuntimeError>)
        ensures
            eval_expr(old(self).machine().env, expr@) == (result_view(r), final(self).machine().env),
            final(self).machine().out == old(self).machine().out,
            final(self).machine().fuel == old(self).machine().fuel,
        decreases expr, 1int,
    {
        match expr {
            Expr::Binary { .. } => self.visit_binary(expr),
            Expr::Unary { .. } => self.visit_unary(expr),
            Expr::Literal(_) => self.visit_literal(expr),
            Expr::Grouping { .. } => self.visit_grouping(expr),
            Expr::Variable { .. } => self.visit_variable_expr(expr),
            Expr::Assignment { .. } => self.visit_assignment_expr(expr),
        }
    }

    fn visit_binary(&mut self, expr: &Expr) -> (r: Result<Object, RuntimeError>)
        ensures
            eval_expr(old(self).machine().env, expr@) == (result_view(r), final(self).machine().env),
            final(self).machine().out == old(self).machine().out,
            final(self).machine().fuel == old(self).machine().fuel,
        decreases expr, 0int,
    {
        let Expr::Binary { left, operator, right } = expr else {
            return Err(RuntimeError::InvalidOperator);
        };
        let known = match operator {
            Token::BangEqual | Token::EqualEqual | Token::Greater | Token::GreaterEqual
            | Token::Less | Token::LessEqual | Token::Plus | Token::Minus | Token::Star
            | Token::Slash | Token::And | Token::Or => true,
            _ => false,
        };
        if !known {
            return Err(RuntimeError::InvalidOperator);
        }
        let a = match self.eval(left) {
            Ok(v) => v,
            Err(x) => return Err(x),
        };
        let b = match self.eval(right) {
            Ok(v) => v,
            Err(x) => return Err(x),
        };
        match operator {
            Token::BangEqual => Ok(a.nequal(b)),
            Token::EqualEqual => Ok(a.equal(b)),
            Token::Greater => a.greater(b),
            Token::GreaterEqual => a.greater_eq(b),
            Token::Less => a.less(b),
            Token::LessEqual => a.less_eq(b),
            Token::Plus => a.add(b),
            Token::Minus => a.sub(b),
            Token::Star => a.mult(b),
            Token::Slash => a.div(b),
            Token::And => Ok(a.and(b)),
            Token::Or => Ok(a.or(b)),
            _ => Err(RuntimeError::InvalidOperator),
        }
    }

    fn visit_unary(&mut self, expr: &Expr) -> (r: Result<Object, RuntimeError>)
        ensures
            eval_expr(old(self).machine().env, expr@) == (result_view(r), final(self).machine().env),
            final(self).machine().out == old(self).machine().out,
            final(self).machine().fuel == old(self).machine().fuel,
        decreases expr, 0int,
    {
        let Expr::Unary { operator, right } = expr else {
            return Err(RuntimeError::InvalidOperator);
        };
        match operator {
            Token::Minus => match self.eval(right) {
                Ok(v) => v.negate(),
                Err(x) => Err(x),
            },
            Token::Bang => match self.eval(right) {
                Ok(v) => v.bang(),
                Err(x) => Err(x),
            },
            _ => Err(RuntimeError::InvalidOperator),
        }
    }

    fn visit_literal(&mut self, expr: &Expr) -> (r: Result<Object, RuntimeError>)
        ensures
            eval_expr(old(self).machine().env, expr@) == (result_view(r), final(self).machine().env),
            final(self).machine().out == old(self).machine().out,
            final(self).machine().fuel == old(self).machine().fuel,
        decreases expr, 0int,
    {
        let Expr::Literal(l) = expr else {
            return Err(RuntimeError::InvalidOperator);
        };
        Ok(l.duplicate())
    }

    fn visit_grouping(&mut self, expr: &Expr) -> (r: Result<Object, RuntimeError>)
        ensures
            eval_expr(old(self).machine().env, expr@) == (result_view(r), final(self).machine().env),
            final(self).machine().out == old(self).machine().out,
            final(self).machine().fuel == old(self).machine().fuel,
        decreases expr, 0int,
    {
        let Expr::Grouping { expression } = expr else {
            return Err(RuntimeError::InvalidOperator);
        };
        self.eval(expression)
    }

    fn visit_variable_expr(&mut self, expr: &Expr) -> (r: Result<Object, RuntimeError>)
        ensures
            eval_expr(old(self).machine().env, expr@) == (result_view(r), final(self).machine().env),
            final(self).machine().out == old(self).machine().out,
            final(self).machine().fuel == old(self).machine().fuel,
        decreases expr, 0int,
    {
        let Expr::Variable { identifier } = expr else {
            return Err(RuntimeError::InvalidOperator);
        };
        match self.environment.get_token(identifier) {
            Ok(Some(val)) => Ok(val),
            Ok(None) => Err(RuntimeError::UndefinedVariable),
            Err(x) => Err(x),
        }
    }

    fn visit_assignment_expr(&mut self, expr: &Expr) -> (r: Result<Object, RuntimeError>)
        ensures
            eval_expr(old(self).machine().env, expr@) == (result_view(r), final(self).machine().env),
            final(self).machine().out == old(self).machine().out,
            final(self).machine().fuel == old(self).machine().fuel,
        decreases expr, 0int,
    {
        let Expr::Assignment { identifier, value } = expr else {
            return Err(RuntimeError::InvalidOperator);
        };
        let Token::Identifier(s) = identifier else {
            return Err(RuntimeError::NotAnIdentifier);
        };
        let value = match self.eval(value) {
            Ok(v) => v,
            Err(x) => return Err(x),
        };
        self.environment.assign(s.as_str(), value);
        Ok(Object::Null)
    }
}

/// The views of the first `k` statements are the first `k` views.
proof fn lemma_stmts_view_take(ss: Seq<Stmt>, k: int)
    requires
        0 <= k <= ss.len(),
    ensures
        stmts_view(ss.take(k)) == stmts_view(ss).take(k),
        stmts_view(ss).len() == ss.len(),
        forall|j: int| 0 <= j < ss.len() ==> #[trigger] stmts_view(ss)[j] == stmt_view(ss[j]),
    decreases ss.len(),
{
    if ss.len() > 0 {
        if k < ss.len() {
            lemma_stmts_view_take(ss.drop_last(), k);
            assert(ss.drop_last().take(k) =~= ss.take(k));
        } else {
            lemma_stmts_view_take(ss.drop_last(), k - 1);
            assert(ss.take(k) =~= ss);
        }
        assert(stmts_view(ss).take(k) =~= stmts_view(ss.take(k)));
    } else {
        assert(stmts_view(ss).take(k) =~= stmts_view(ss.take(k)));
    }
}

} // verus!
