//! Recursive evaluation of an expression tree.
//!
//! The walk is post-order: children are evaluated before their results are
//! combined.  Arithmetic is exact, so division by zero is detected exactly
//! (the divisor's numerator is zero), never approximated.

use crate::ast::Expr;
use crate::rat::{
    add_ok, add_pair, div_ok, div_pair, in_range, mul_ok, mul_pair, sub_ok, sub_pair, Rat,
};
use crate::token::Token;
use vstd::prelude::*;

verus! {

/// Why evaluation failed.
#[derive(Debug, Clone, Copy, PartialEq, Eq, Structural)]
pub enum EvalError {
    /// The right operand of a division is exactly zero.
    DivisionByZero,
    /// A node carries an operator the grammar cannot produce.  Defensive:
    /// unreachable on trees returned by the parser.
    MalformedAst,
    /// An exact intermediate value does not fit in an `i128`.
    Overflow,
}

/// The exact mathematical outcome of evaluating a tree: a rational value
/// over unbounded integers, a division by zero, or a malformed node.
pub enum SpecEval {
    Val { num: int, den: int },
    DivZero,
    Malformed,
}

/// Exact evaluation over unbounded integers.  Children are evaluated
/// left to right and before the operator is examined, so the first failure
/// in post-order wins.
pub open spec fn eval_spec(e: Expr) -> SpecEval
    decreases e,
{
    match e {
        Expr::Literal(v) => SpecEval::Val { num: v.num as int, den: v.den as int },
        Expr::UnaryOp { op, expr } => match eval_spec(*expr) {
            SpecEval::Val { num, den } => match op {
                Token::UnaryMinus => SpecEval::Val { num: -num, den: den },
                _ => SpecEval::Malformed,
            },
            err => err,
        },
        Expr::BinaryOp { op, left, right } => match eval_spec(*left) {
            SpecEval::Val { num: ln, den: ld } => match eval_spec(*right) {
                SpecEval::Val { num: rn, den: rd } => match op {
                    Token::Plus => SpecEval::Val {
                        num: add_pair(ln, ld, rn, rd).0,
                        den: add_pair(ln, ld, rn, rd).1,
                    },
                    Token::Minus => SpecEval::Val {
                        num: sub_pair(ln, ld, rn, rd).0,
                        den: sub_pair(ln, ld, rn, rd).1,
                    },
                    Token::Multiply => SpecEval::Val {
                        num: mul_pair(ln, ld, rn, rd).0,
                        den: mul_pair(ln, ld, rn, rd).1,
                    },
                    Token::Divide => if rn == 0 {
                        SpecEval::DivZero
                    } else {
                        SpecEval::Val {
                            num: div_pair(ln, ld, rn, rd).0,
                            den: div_pair(ln, ld, rn, rd).1,
                        }
                    },
                    _ => SpecEval::Malformed,
                },
                err => err,
            },
            err => err,
        },
    }
}

/// Every exact value met while evaluating `e` fits in an `i128`, so the
/// executable evaluator cannot fail with `Overflow` on `e`.  Only the
/// subtrees the post-order walk actually reaches are constrained.
pub open spec fn in_bounds(e: Expr) -> bool
    decreases e,
{
    match e {
        Expr::Literal(_) => true,
        Expr::UnaryOp { op, expr } => in_bounds(*expr) && (match eval_spec(*expr) {
            SpecEval::Val { num, den } => op == Token::UnaryMinus ==> in_range(-num),
            _ => true,
        }),
        Expr::BinaryOp { op, left, right } => in_bounds(*left) && (match eval_spec(*left) {
            SpecEval::Val { num: ln, den: ld } => in_bounds(*right) && (match eval_spec(*right) {
                SpecEval::Val { num: rn, den: rd } => match op {
                    Token::Plus => add_ok(ln, ld, rn, rd),
                    Token::Minus => sub_ok(ln, ld, rn, rd),
                    Token::Multiply => mul_ok(ln, ld, rn, rd),
                    Token::Divide => rn != 0 ==> div_ok(ln, ld, rn, rd),
                    _ => true,
                },
                _ => true,
            }),
            _ => true,
        }),
    }
}

/// Evaluation never reports `MalformedAst` on a tree whose operators the
/// grammar can produce, so the defensive error is unreachable on parser
/// output.
pub proof fn lemma_ops_wf_no_malformed(e: Expr)
    ensures
        e.ops_wf() ==> !(eval_spec(e) is Malformed),
    decreases e,
{
    match e {
        Expr::Literal(_) => {},
        Expr::UnaryOp { op, expr } => {
            lemma_ops_wf_no_malformed(*expr);
        },
        Expr::BinaryOp { op, left, right } => {
            lemma_ops_wf_no_malformed(*left);
            lemma_ops_wf_no_malformed(*right);
        },
    }
}

/// Evaluate a tree to an exact rational.
///
/// On `Ok` the result is exactly the mathematical value of the tree; a
/// `DivisionByZero` or `MalformedAst` error is returned exactly when exact
/// evaluation meets one; `Overflow` can come only from a tree some exact
/// intermediate value of which does not fit in an `i128`, so on trees that
/// stay in bounds the result is determined completely.
pub fn evaluate_ast(expr: &Expr) -> (r: Result<Rat, EvalError>)
    requires
        expr.wf(),
    ensures
        match r {
            Ok(q) => eval_spec(*expr) == (SpecEval::Val {
                num: q.num as int,
                den: q.den as int,
            }) && q.wf(),
            Err(e) => match e {
                EvalError::DivisionByZero => eval_spec(*expr) is DivZero,
                EvalError::MalformedAst => eval_spec(*expr) is Malformed,
                EvalError::Overflow => !in_bounds(*expr),
            },
        },
    decreases expr,
{
    match expr {
        Expr::Literal(v) => Ok(*v),
        Expr::UnaryOp { op, expr: inner } => {
            let val = match evaluate_ast(inner) {
                Ok(v) => v,
                Err(e) => {
                    return Err(e);
                },
            };
            match *op {
                Token::UnaryMinus => match val.checked_neg() {
                    Some(q) => Ok(q),
                    None => Err(EvalError::Overflow),
                },
                _ => Err(EvalError::MalformedAst),
            }
        },
        Expr::BinaryOp { op, left, right } => {
            let lv = match evaluate_ast(left) {
                Ok(v) => v,
                Err(e) => {
                    return Err(e);
                },
            };
            let rv = match evaluate_ast(right) {
                Ok(v) => v,
                Err(e) => {
                    return Err(e);
                },
            };
            match *op {
                Token::Plus => match lv.checked_add(rv) {
                    Some(q) => Ok(q),
                    None => Err(EvalError::Overflow),
                },
                Token::Minus => match lv.checked_sub(rv) {
                    Some(q) => Ok(q),
                    None => Err(EvalError::Overflow),
                },
                Token::Multiply => match lv.checked_mul(rv) {
                    Some(q) => Ok(q),
                    None => Err(EvalError::Overflow),
                },
                Token::Divide => {
                    if rv.num == 0 {
                        Err(EvalError::DivisionByZero)
                    } else {
                        match lv.checked_div(rv) {
                            Some(q) => Ok(q),
                            None => Err(EvalError::Overflow),
                        }
                    }
                },
                _ => Err(EvalError::MalformedAst),
            }
        },
    }
}

} // verus!
