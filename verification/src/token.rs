//! Tokens produced by the lexer and consumed read-only by the parser.

use crate::rat::Rat;
use vstd::prelude::*;

verus! {

/// One lexical token.  `Number` carries the exact rational value of a
/// decimal literal; `UnaryMinus` is a `-` that the lexer saw in operand
/// position (at the start of the input or right after an operator or an
/// opening parenthesis), as opposed to a binary `Minus`.
#[derive(Debug, Clone, Copy, PartialEq, Eq, Structural)]
pub enum Token {
    Number(Rat),
    Plus,
    Minus,
    Multiply,
    Divide,
    LParen,
    RParen,
    UnaryMinus,
}

impl Token {
    /// A `Number` token carries a well-formed rational.
    pub open spec fn wf(self) -> bool {
        match self {
            Token::Number(v) => v.wf(),
            _ => true,
        }
    }
}

/// Every token of the sequence is well-formed.
pub open spec fn tokens_wf(ts: Seq<Token>) -> bool {
    forall|i: int| 0 <= i < ts.len() ==> (#[trigger] ts[i]).wf()
}

} // verus!
