//! The abstract syntax tree built by the parser.

use crate::rat::Rat;
use crate::token::Token;
use vstd::prelude::*;

verus! {

/// An expression tree.  Each node owns its children; the tree is built
/// bottom-up by the parser and is immutable afterwards.
#[derive(Debug, PartialEq)]
pub enum Expr {
    Literal(Rat),
    UnaryOp { op: Token, expr: Box<Expr> },
    BinaryOp { op: Token, left: Box<Expr>, right: Box<Expr> },
}

impl Expr {
    /// Every literal in the tree carries a well-formed rational.
    pub open spec fn wf(self) -> bool
        decreases self,
    {
        match self {
            Expr::Literal(v) => v.wf(),
            Expr::UnaryOp { op, expr } => expr.wf(),
            Expr::BinaryOp { op, left, right } => left.wf() && right.wf(),
        }
    }

    /// The operators are the ones the grammar can produce: every unary
    /// node carries `UnaryMinus` and every binary node carries one of
    /// `Plus`, `Minus`, `Multiply`, `Divide`.
    pub open spec fn ops_wf(self) -> bool
        decreases self,
    {
        match self {
            Expr::Literal(_) => true,
            Expr::UnaryOp { op, expr } => op == Token::UnaryMinus && expr.ops_wf(),
            Expr::BinaryOp { op, left, right } => (op == Token::Plus || op == Token::Minus
                || op == Token::Multiply || op == Token::Divide) && left.ops_wf()
                && right.ops_wf(),
        }
    }
}

} // verus!
