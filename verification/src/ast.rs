//! The syntax tree of programs.
use crate::object::{ObjV, Object};
use crate::scanner::{Token, TokenV};
use vstd::prelude::*;

verus! {

/// A whole program: its statements in order.
#[derive(Debug)]
pub struct Program(pub Vec<Stmt>);

/// A statement.
#[derive(Debug)]
pub enum Stmt {
    Expression(Expr),
    Print(Expr),
    Var { name: Token, initializer: Option<Expr> },
    Block(Vec<Stmt>),
    If { condition: Expr, then_branch: Box<Stmt>, else_branch: Option<Box<Stmt>> },
    While { condition: Expr, body: Box<Stmt> },
}

/// An expression.
#[derive(Debug)]
pub enum Expr {
    Binary { left: Box<Expr>, operator: Token, right: Box<Expr> },
    Grouping { expression: Box<Expr> },
    Unary { operator: Token, right: Box<Expr> },
    Variable { identifier: Token },
    Assignment { identifier: Token, value: Box<Expr> },
    Literal(Object),
}

/// An expression as a mathematical value.
pub enum ExprV {
    Binary { left: Box<ExprV>, operator: TokenV, right: Box<ExprV> },
    Grouping { expression: Box<ExprV> },
    Unary { operator: TokenV, right: Box<ExprV> },
    Variable { identifier: TokenV },
    Assignment { identifier: TokenV, value: Box<ExprV> },
    Literal(ObjV),
}

/// A statement as a mathematical value.
pub enum StmtV {
    Expression(ExprV),
    Print(ExprV),
    Var { name: TokenV, initializer: Option<ExprV> },
    Block(Seq<StmtV>),
    If { condition: ExprV, then_branch: Box<StmtV>, else_branch: Option<Box<StmtV>> },
    While { condition: ExprV, body: Box<StmtV> },
}

pub open spec fn expr_view(e: Expr) -> ExprV
    decreases e,
{
    match e {
        Expr::Binary { left, operator, right } => ExprV::Binary {
            left: Box::new(expr_view(*left)),
            operator: operator@,
            right: Box::new(expr_view(*right)),
        },
        Expr::Grouping { expression } => ExprV::Grouping {
            expression: Box::new(expr_view(*expression)),
        },
        Expr::Unary { operator, right } => ExprV::Unary {
            operator: operator@,
            right: Box::new(expr_view(*right)),
        },
        Expr::Variable { identifier } => ExprV::Variable { identifier: identifier@ },
        Expr::Assignment { identifier, value } => ExprV::Assignment {
            identifier: identifier@,
            value: Box::new(expr_view(*value)),
        },
        Expr::Literal(o) => ExprV::Literal(o@),
    }
}

pub open spec fn stmt_view(s: Stmt) -> StmtV
    decreases s, 0int,
{
    match s {
        Stmt::Expression(e) => StmtV::Expression(expr_view(e)),
        Stmt::Print(e) => StmtV::Print(expr_view(e)),
        Stmt::Var { name, initializer } => StmtV::Var {
            name: name@,
            initializer: match initializer {
                Some(e) => Some(expr_view(e)),
                None => None,
            },
        },
        Stmt::Block(ss) => StmtV::Block(stmts_view(ss@)),
        Stmt::If { condition, then_branch, else_branch } => StmtV::If {
            condition: expr_view(condition),
            then_branch: Box::new(stmt_view(*then_branch)),
            else_branch: match else_branch {
                Some(e) => Some(Box::new(stmt_view(*e))),
                None => None,
            },
        },
        Stmt::While { condition, body } => StmtV::While {
            condition: expr_view(condition),
            body: Box::new(stmt_view(*body)),
        },
    }
}

pub open spec fn stmts_view(ss: Seq<Stmt>) -> Seq<StmtV>
    decreases ss, 1int,
{
    if ss.len() == 0 {
        seq![]
    } else {
        stmts_view(ss.drop_last()).push(stmt_view(ss.last()))
    }
}

impl View for Expr {
    type V = ExprV;

    open spec fn view(&self) -> ExprV {
        expr_view(*self)
    }
}

impl View for Stmt {
    type V = StmtV;

    open spec fn view(&self) -> StmtV {
        stmt_view(*self)
    }
}

impl View for Program {
    type V = Seq<StmtV>;

    open spec fn view(&self) -> Seq<StmtV> {
        stmts_view(self.0@)
    }
}

/// Whether a token is a literal: `false`, `true`, `nil`, a number or a string.
pub open spec fn is_literal_token(t: TokenV) -> bool {
    t is False || t is True || t is Nil || t is Number || t is StringLiteral
}

/// The value of a literal token.
pub open spec fn literal_value(t: TokenV) -> ObjV {
    match t {
        TokenV::False => ObjV::Boolean(false),
        TokenV::True => ObjV::Boolean(true),
        TokenV::Number(n) => ObjV::Number(n),
        TokenV::StringLiteral(s) => ObjV::Str(s),
        _ => ObjV::Null,
    }
}

impl Stmt {
    pub fn build_if(condition: Expr, then_branch: Stmt, else_branch: Option<Stmt>) -> (r: Stmt)
        ensures
            r@ == (StmtV::If {
                condition: condition@,
                then_branch: Box::new(then_branch@),
                else_branch: match else_branch {
                    Some(s) => Some(Box::new(s@)),
                    None => None,
                },
            }),
    {
        Self::If {
            condition,
            then_branch: Box::new(then_branch),
            else_branch: match else_branch {
                Some(s) => Some(Box::new(s)),
                None => None,
            },
        }
    }

    pub fn build_while_stmt(condition: Expr, body: Stmt) -> (r: Stmt)
        ensures
            r@ == (StmtV::While { condition: condition@, body: Box::new(body@) }),
    {
        Self::While { condition, body: Box::new(body) }
    }
}

impl Expr {
    pub fn build_binary(left: Expr, operator: Token, right: Expr) -> (r: Self)
        ensures
            r@ == (ExprV::Binary {
                left: Box::new(left@),
                operator: operator@,
                right: Box::new(right@),
            }),
    {
        Self::Binary { left: Box::new(left), operator, right: Box::new(right) }
    }

    pub fn build_grouping(expression: Expr) -> (r: Self)
        ensures
            r@ == (ExprV::Grouping { expression: Box::new(expression@) }),
    {
        Self::Grouping { expression: Box::new(expression) }
    }

    /// The literal expression of a literal token (`false`, `true`, `nil`, a number, a string).
    pub fn build_literal(value: Token) -> (r: Self)
        requires
            is_literal_token(value@),
        ensures
            r@ == ExprV::Literal(literal_value(value@)),
    {
        let value = match value {
            Token::False => Object::Boolean(false),
            Token::True => Object::Boolean(true),
            Token::Number(n) => Object::Number(n),
            Token::StringLiteral(s) => Object::Str(s),
            _ => Object::Null,
        };
        Self::Literal(value)
    }

    pub fn build_unary(operator: Token, right: Expr) -> (r: Self)
        ensures
            r@ == (ExprV::Unary { operator: operator@, right: Box::new(right@) }),
    {
        Self::Unary { operator, right: Box::new(right) }
    }

    pub fn build_variable(identifier: Token) -> (r: Self)
        ensures
            r@ == (ExprV::Variable { identifier: identifier@ }),
    {
        Self::Variable { identifier }
    }

    pub fn build_assignment(identifier: Token, value: Expr) -> (r: Self)
        ensures
            r@ == (ExprV::Assignment { identifier: identifier@, value: Box::new(value@) }),
    {
        Self::Assignment { identifier, value: Box::new(value) }
    }
}

/// Runs statements, one method per kind of statement. Each method but the one for
/// declarations is for statements of its own kind only.
pub trait StatementVisitor<T>: Sized {
    /// What running `stmt` from state `before` may give: the result `r` and the state `after`.
    spec fn visited(before: Self, stmt: StmtV, after: Self, r: T) -> bool;

    /// Runs a statement by the method for its kind.
    fn visit_statement(&mut self, stmt: &Stmt) -> (r: T)
        ensures
            Self::visited(*old(self), stmt@, *final(self), r),
    {
        match stmt {
            Stmt::Expression(_) => self.visit_expression_stmt(stmt),
            Stmt::Print(_) => self.visit_print_stmt(stmt),
            Stmt::Var { .. } => self.visit_variable_stmt(stmt),
            Stmt::Block(_) => self.visit_block_stmt(stmt),
            Stmt::If { .. } => self.visit_if_stmt(stmt),
            Stmt::While { .. } => self.visit_while_stmt(stmt),
        }
    }

    fn visit_print_stmt(&mut self, stmt: &Stmt) -> (r: T)
        requires
            stmt is Print,
        ensures
            Self::visited(*old(self), stmt@, *final(self), r),
    ;

    fn visit_expression_stmt(&mut self, stmt: &Stmt) -> (r: T)
        requires
            stmt is Expression,
        ensures
            Self::visited(*old(self), stmt@, *final(self), r),
    ;

    fn visit_variable_stmt(&mut self, stmt: &Stmt) -> (r: T)
        ensures
            stmt is Var ==> Self::visited(*old(self), stmt@, *final(self), r),
    ;

    fn visit_block_stmt(&mut self, stmt: &Stmt) -> (r: T)
        requires
            stmt is Block,
        ensures
            Self::visited(*old(self), stmt@, *final(self), r),
    ;

    fn visit_if_stmt(&mut self, stmt: &Stmt) -> (r: T)
        requires
            stmt is If,
        ensures
            Self::visited(*old(self), stmt@, *final(self), r),
    ;

    fn visit_while_stmt(&mut self, stmt: &Stmt) -> (r: T)
        requires
            stmt is While,
        ensures
            Self::visited(*old(self), stmt@, *final(self), r),
    ;
}

/// Evaluates expressions, one method per kind of expression; each method is for
/// expressions of its own kind only.
pub trait ExpressionVisitor<T>: Sized {
    /// What evaluating `expr` from state `before` may give: the result `r` and the state
    /// `after`.
    spec fn evaluated(before: Self, expr: ExprV, after: Self, r: T) -> bool;

    /// Evaluates an expression by the method for its kind.
    fn eval(&mut self, expr: &Expr) -> (r: T)
        ensures
            Self::evaluated(*old(self), expr@, *final(self), r),
    {
        match expr {
            Expr::Binary { .. } => self.visit_binary(expr),
            Expr::Unary { .. } => self.visit_unary(expr),
            Expr::Literal(_) => self.visit_literal(expr),
            Expr::Grouping { .. } => self.visit_grouping(expr),
            Expr::Variable { .. } => self.visit_variable_expr(expr),
            Expr::Assignment { .. } => self.visit_assignment_expr(expr),
        }
    }

    fn visit_unary(&mut self, expr: &Expr) -> (r: T)
        requires
            expr is Unary,
        ensures
            Self::evaluated(*old(self), expr@, *final(self), r),
    ;

    fn visit_literal(&mut self, expr: &Expr) -> (r: T)
        requires
            expr is Literal,
        ensures
            Self::evaluated(*old(self), expr@, *final(self), r),
    ;

    fn visit_grouping(&mut self, expr: &Expr) -> (r: T)
        requires
            expr is Grouping,
        ensures
            Self::evaluated(*old(self), expr@, *final(self), r),
    ;

    fn visit_binary(&mut self, expr: &Expr) -> (r: T)
        requires
            expr is Binary,
        ensures
            Self::evaluated(*old(self), expr@, *final(self), r),
    ;

    fn visit_variable_expr(&mut self, expr: &Expr) -> (r: T)
        requires
            expr is Variable,
        ensures
            Self::evaluated(*old(self), expr@, *final(self), r),
    ;

    fn visit_assignment_expr(&mut self, expr: &Expr) -> (r: T)
        requires
            expr is Assignment,
        ensures
            Self::evaluated(*old(self), expr@, *final(self), r),
    ;
}

} // verus!
