//! The whole interpreter as one call: lex, parse, evaluate.  The first
//! failing stage short-circuits the rest, and the error says which stage
//! failed and why.

use crate::ast::Expr;
use crate::eval::{eval_spec, evaluate_ast, in_bounds, lemma_ops_wf_no_malformed, EvalError, SpecEval};
use crate::lexer::{lex_spec, lexer, LexError, LexOut};
use crate::parser::{lemma_parse_result_wf, spec_parse, ParseError, Parser};
use crate::rat::Rat;
use crate::token::Token;
use vstd::prelude::*;

verus! {

/// The error of whichever stage failed first.
#[derive(Debug, Clone, PartialEq)]
pub enum CalcError {
    Lex(LexError),
    Parse(ParseError),
    Eval(EvalError),
}

impl CalcError {
    /// A short human-readable description, for the surrounding
    /// presentation layer to display.
    pub fn message(&self) -> String {
        match self {
            CalcError::Lex(e) => match e {
                LexError::InvalidNumber(sub) => {
                    let mut msg = String::from_str("invalid number: ");
                    msg.append(sub.as_str());
                    msg
                },
                LexError::UnexpectedChar(_) => String::from_str("unexpected character in input"),
            },
            CalcError::Parse(e) => match e {
                ParseError::UnexpectedToken(_) => String::from_str("unexpected token"),
                ParseError::UnexpectedEnd => String::from_str("unexpected end of input"),
                ParseError::ExpectedToken(t) => match t {
                    Token::RParen => String::from_str("expected a closing parenthesis"),
                    _ => String::from_str("expected a different token"),
                },
                ParseError::TrailingTokens => String::from_str(
                    "unexpected tokens after the expression",
                ),
            },
            CalcError::Eval(e) => match e {
                EvalError::DivisionByZero => String::from_str("division by zero"),
                EvalError::MalformedAst => String::from_str("malformed expression tree"),
                EvalError::Overflow => String::from_str("value out of range"),
            },
        }
    }
}

/// Interpret `input` as one arithmetic expression and return its exact
/// value.
///
/// On `Ok` the result is exactly the value of the tree that the grammar
/// assigns to the lexed input.  Each error comes exactly from its stage:
/// a lexing error carries what `lex_spec` rejects, a parse error is the
/// one `spec_parse` gives on the lexed tokens, division by zero is
/// reported exactly when exact evaluation divides by zero, `MalformedAst`
/// never escapes this function, and `Overflow` can come only from a tree
/// some exact intermediate value of which does not fit in an `i128`.
pub fn evaluate_expression(input: &str) -> (r: Result<Rat, CalcError>)
    ensures
        match r {
            Ok(q) => lex_spec(input@) matches LexOut::Toks(ts) && spec_parse(ts, 0) matches Ok(ast)
                && eval_spec(ast) == (SpecEval::Val { num: q.num as int, den: q.den as int })
                && q.wf(),
            Err(e) => match e {
                CalcError::Lex(le) => match le {
                    LexError::InvalidNumber(sub) => lex_spec(input@) == LexOut::BadNumber(sub@),
                    LexError::UnexpectedChar(c) => lex_spec(input@) == LexOut::BadChar(c),
                },
                CalcError::Parse(pe) => lex_spec(input@) matches LexOut::Toks(ts) && spec_parse(
                    ts,
                    0,
                ) == Err::<Expr, ParseError>(pe),
                CalcError::Eval(ee) => lex_spec(input@) matches LexOut::Toks(ts) && spec_parse(
                    ts,
                    0,
                ) matches Ok(ast) && match ee {
                    EvalError::DivisionByZero => eval_spec(ast) is DivZero,
                    EvalError::MalformedAst => false,
                    EvalError::Overflow => !in_bounds(ast),
                },
            },
        },
{
    let tokens = match lexer(input) {
        Ok(t) => t,
        Err(e) => {
            return Err(CalcError::Lex(e));
        },
    };
    let ghost toks = tokens@;
    let mut parser = Parser::new(tokens);
    let ast = match parser.parse() {
        Ok(a) => a,
        Err(e) => {
            return Err(CalcError::Parse(e));
        },
    };
    proof {
        lemma_parse_result_wf(toks, 0);
        lemma_ops_wf_no_malformed(ast);
    }
    match evaluate_ast(&ast) {
        Ok(q) => Ok(q),
        Err(e) => Err(CalcError::Eval(e)),
    }
}

} // verus!
