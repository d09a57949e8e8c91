//! The expression tree that the parser builds, and its model in contracts.
use vstd::prelude::*;

pub use crate::parser::{infix_op, prefix_op};

verus! {

#[derive(Debug, Clone, Copy, PartialEq, Eq, Structural)]
pub enum BinaryOp {
    Add,
    Sub,
    Mul,
    Div,
    Modulo,
    Equal,
    EqualEqual,
    Less,
    LessEqual,
    Greater,
    GreaterEqual,
    NotEqual,
}

/// A literal value. `S` is the type of text, as for `TokenType`.
#[derive(Debug)]
pub enum Lit<S = String> {
    Str(S),
    Int(i64),
    /// A floating-point literal, held as its source text.
    FLoat(S),
    Boolean(bool),
}

impl View for Lit<String> {
    type V = Lit<Seq<char>>;

    open spec fn view(&self) -> Lit<Seq<char>> {
        match self {
            Lit::Str(s) => Lit::Str(s@),
            Lit::Int(v) => Lit::Int(*v),
            Lit::FLoat(s) => Lit::FLoat(s@),
            Lit::Boolean(b) => Lit::Boolean(*b),
        }
    }
}

/// An expression; the last field of each variant is the byte offset of its leading token.
#[derive(Debug)]
pub enum Expr {
    Literal(Lit, usize),
    Identifier(String, usize),
    Let(Box<Expr>, usize),
    Group(Box<Expr>, usize),
    Block(Vec<Expr>, usize),
    Binary { left: Box<Expr>, op: BinaryOp, right: Box<Expr>, start: usize },
}

/// An expression as contracts see it.
pub enum SExpr {
    Literal(Lit<Seq<char>>, nat),
    Identifier(Seq<char>, nat),
    Let(Box<SExpr>, nat),
    Group(Box<SExpr>, nat),
    Block(Seq<SExpr>, nat),
    Binary { left: Box<SExpr>, op: BinaryOp, right: Box<SExpr>, start: nat },
}

pub open spec fn expr_view(e: Expr) -> SExpr
    decreases e,
{
    match e {
        Expr::Literal(l, p) => SExpr::Literal(l@, p as nat),
        Expr::Identifier(s, p) => SExpr::Identifier(s@, p as nat),
        Expr::Let(x, p) => SExpr::Let(Box::new(expr_view(*x)), p as nat),
        Expr::Group(x, p) => SExpr::Group(Box::new(expr_view(*x)), p as nat),
        Expr::Block(v, p) => SExpr::Block(exprs_view(v@), p as nat),
        Expr::Binary { left, op, right, start } => SExpr::Binary {
            left: Box::new(expr_view(*left)),
            op,
            right: Box::new(expr_view(*right)),
            start: start as nat,
        },
    }
}

pub open spec fn exprs_view(v: Seq<Expr>) -> Seq<SExpr>
    decreases v,
{
    if v.len() == 0 {
        seq![]
    } else {
        exprs_view(v.subrange(0, v.len() - 1)).push(expr_view(v[v.len() - 1]))
    }
}

impl View for Expr {
    type V = SExpr;

    open spec fn view(&self) -> SExpr {
        expr_view(*self)
    }
}

} // verus!
