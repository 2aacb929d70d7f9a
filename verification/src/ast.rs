//! Abstract syntax tree for the expression language, together with the
//! mathematical view of each node used by the contracts.

use vstd::prelude::*;

use crate::lexer::SpecToken;
use crate::lexer::Token;

verus! {

/// AST nodes for expressions.
#[derive(Debug, PartialEq)]
pub enum Expr {
    /// Numeric literal: `42`
    Number(i64),
    /// Boolean literal: `true` or `false`
    Bool(bool),
    /// Variable reference: `x`
    Variable(String),
    /// Function call: `foo(a, b, c)`
    FunctionCall { name: String, args: Vec<Expr> },
    /// Binary operation: `a + b`, `x == y`, etc.
    BinaryOp { op: Token, left: Box<Expr>, right: Box<Expr> },
    /// Unary operation: `-x`, `!y`
    UnaryOp { op: Token, expr: Box<Expr> },
}

/// AST nodes for statements.
#[derive(Debug, PartialEq)]
pub enum Stmt {
    /// Standalone expression as a statement.
    ExprStmt(Expr),
    /// Variable declaration: `let x = 10`
    LetDecl { name: String, value: Expr },
}

/// The entire program: an ordered sequence of statements.
#[derive(Debug, PartialEq)]
pub struct Program {
    pub stmts: Vec<Stmt>,
}

/// Mathematical mirror of `Expr`: identifiers as character sequences.
pub enum SpecExpr {
    Number(i64),
    Bool(bool),
    Variable(Seq<char>),
    FunctionCall { name: Seq<char>, args: Seq<SpecExpr> },
    BinaryOp { op: SpecToken, left: Box<SpecExpr>, right: Box<SpecExpr> },
    UnaryOp { op: SpecToken, expr: Box<SpecExpr> },
}

/// Mathematical mirror of `Stmt`.
pub enum SpecStmt {
    ExprStmt(SpecExpr),
    LetDecl { name: Seq<char>, value: SpecExpr },
}

/// The mathematical value of an expression node.
pub open spec fn expr_view(e: Expr) -> SpecExpr
    decreases e,
{
    match e {
        Expr::Number(n) => SpecExpr::Number(n),
        Expr::Bool(b) => SpecExpr::Bool(b),
        Expr::Variable(name) => SpecExpr::Variable(name@),
        Expr::FunctionCall { name, args } => SpecExpr::FunctionCall {
            name: name@,
            args: exprs_view(args@),
        },
        Expr::BinaryOp { op, left, right } => SpecExpr::BinaryOp {
            op: op@,
            left: Box::new(expr_view(*left)),
            right: Box::new(expr_view(*right)),
        },
        Expr::UnaryOp { op, expr } => SpecExpr::UnaryOp {
            op: op@,
            expr: Box::new(expr_view(*expr)),
        },
    }
}

/// The mathematical value of a sequence of expression nodes.
pub open spec fn exprs_view(es: Seq<Expr>) -> Seq<SpecExpr>
    decreases es,
{
    if es.len() == 0 {
        Seq::empty()
    } else {
        seq![expr_view(es[0])] + exprs_view(es.subrange(1, es.len() as int))
    }
}

/// The mathematical value of a statement node.
pub open spec fn stmt_view(s: Stmt) -> SpecStmt {
    match s {
        Stmt::ExprStmt(e) => SpecStmt::ExprStmt(expr_view(e)),
        Stmt::LetDecl { name, value } => SpecStmt::LetDecl {
            name: name@,
            value: expr_view(value),
        },
    }
}

impl View for Expr {
    type V = SpecExpr;

    open spec fn view(&self) -> SpecExpr {
        expr_view(*self)
    }
}

impl View for Stmt {
    type V = SpecStmt;

    open spec fn view(&self) -> SpecStmt {
        stmt_view(*self)
    }
}

/// The mathematical value of a sequence of statement nodes.
pub open spec fn stmts_view(ss: Seq<Stmt>) -> Seq<SpecStmt> {
    Seq::new(ss.len(), |i: int| stmt_view(ss[i]))
}

impl View for Program {
    type V = Seq<SpecStmt>;

    open spec fn view(&self) -> Seq<SpecStmt> {
        stmts_view(self.stmts@)
    }
}

/// Appending an expression node commutes with taking views.
pub proof fn lemma_exprs_view_push(es: Seq<Expr>, e: Expr)
    ensures
        exprs_view(es.push(e)) == exprs_view(es).push(expr_view(e)),
    decreases es.len(),
{
    let l = es.push(e);
    if es.len() == 0 {
        assert(l[0] == e);
        assert(l.subrange(1, l.len() as int) =~= Seq::<Expr>::empty());
        assert(exprs_view(Seq::<Expr>::empty()) == Seq::<SpecExpr>::empty());
        assert(exprs_view(l) == seq![expr_view(e)] + exprs_view(l.subrange(1, l.len() as int)));
        assert(exprs_view(l) =~= exprs_view(es).push(expr_view(e)));
    } else {
        assert(l[0] == es[0]);
        assert(l.subrange(1, l.len() as int) =~= es.subrange(1, es.len() as int).push(e));
        lemma_exprs_view_push(es.subrange(1, es.len() as int), e);
        assert(exprs_view(l) == seq![expr_view(l[0])] + exprs_view(l.subrange(1, l.len() as int)));
        assert(exprs_view(es) == seq![expr_view(es[0])] + exprs_view(es.subrange(1, es.len() as int)));
        assert(exprs_view(l) =~= exprs_view(es).push(expr_view(e)));
    }
}

/// Views of expression sequences act pointwise.
pub proof fn lemma_exprs_view_index(es: Seq<Expr>)
    ensures
        exprs_view(es).len() == es.len(),
        forall|i: int| 0 <= i < es.len() ==> exprs_view(es)[i] == expr_view(#[trigger] es[i]),
    decreases es.len(),
{
    if es.len() > 0 {
        lemma_exprs_view_index(es.subrange(1, es.len() as int));
        assert forall|i: int| 0 <= i < es.len() implies exprs_view(es)[i] == expr_view(es[i]) by {
            if i > 0 {
                assert(es.subrange(1, es.len() as int)[i - 1] == es[i]);
                assert(exprs_view(es)[i] == exprs_view(es.subrange(1, es.len() as int))[i - 1]);
            }
        }
    }
}

/// Appending a statement node commutes with taking views.
pub proof fn lemma_stmts_view_push(ss: Seq<Stmt>, s: Stmt)
    ensures
        stmts_view(ss.push(s)) == stmts_view(ss).push(stmt_view(s)),
{
    assert(stmts_view(ss.push(s)) =~= stmts_view(ss).push(stmt_view(s)));
}

/// The binary operators admitted in a `BinaryOp` node.
pub open spec fn is_binary_op(t: SpecToken) -> bool {
    ||| t == SpecToken::Plus
    ||| t == SpecToken::Minus
    ||| t == SpecToken::Star
    ||| t == SpecToken::Slash
    ||| t == SpecToken::Percent
    ||| t == SpecToken::EqualEqual
    ||| t == SpecToken::NotEqual
    ||| t == SpecToken::Less
    ||| t == SpecToken::LessEqual
    ||| t == SpecToken::Greater
    ||| t == SpecToken::GreaterEqual
    ||| t == SpecToken::AndAnd
    ||| t == SpecToken::OrOr
}

/// The unary operators admitted in a `UnaryOp` node.
pub open spec fn is_unary_op(t: SpecToken) -> bool {
    t == SpecToken::Minus || t == SpecToken::Not
}

} // verus!
