//! Expression trees.

use vstd::prelude::*;
use crate::token::{Token, TokenView};

verus! {

/// A constant. A number is kept as its decimal text.
#[derive(Debug, PartialEq)]
pub enum LiteralValue {
    Nil,
    Boolean(bool),
    Number(String),
    String(String),
}

/// The mathematical value of a constant.
pub enum LiteralView {
    Nil,
    Boolean(bool),
    Number(Seq<char>),
    Text(Seq<char>),
}

impl View for LiteralValue {
    type V = LiteralView;

    open spec fn view(&self) -> LiteralView {
        match self {
            LiteralValue::Nil => LiteralView::Nil,
            LiteralValue::Boolean(b) => LiteralView::Boolean(*b),
            LiteralValue::Number(s) => LiteralView::Number(s@),
            LiteralValue::String(s) => LiteralView::Text(s@),
        }
    }
}

/// An expression: a tree that owns its operands.
#[derive(Debug, PartialEq)]
pub enum Expr {
    Literal(LiteralValue),
    Grouping(Box<Expr>),
    Unary { operator: Token, right: Box<Expr> },
    Binary { left: Box<Expr>, operator: Token, right: Box<Expr> },
}

/// The mathematical value of an expression.
pub enum ExprView {
    Literal(LiteralView),
    Grouping(Box<ExprView>),
    Unary(TokenView, Box<ExprView>),
    Binary(Box<ExprView>, TokenView, Box<ExprView>),
}

/// The value of `e`, node by node.
pub open spec fn expr_view(e: Expr) -> ExprView
    decreases e,
{
    match e {
        Expr::Literal(v) => ExprView::Literal(v@),
        Expr::Grouping(inner) => ExprView::Grouping(Box::new(expr_view(*inner))),
        Expr::Unary { operator, right } => ExprView::Unary(
            operator@,
            Box::new(expr_view(*right)),
        ),
        Expr::Binary { left, operator, right } => ExprView::Binary(
            Box::new(expr_view(*left)),
            operator@,
            Box::new(expr_view(*right)),
        ),
    }
}

impl View for Expr {
    type V = ExprView;

    open spec fn view(&self) -> ExprView {
        expr_view(*self)
    }
}

} // verus!
