//! An arithmetic-expression interpreter.
//!
//! The pipeline has three stages, each consuming the previous one's output:
//! a lexer that turns a character string into a token sequence, a
//! recursive-descent parser that builds an abstract syntax tree honoring
//! the usual precedence and associativity, and an evaluator that walks the
//! tree and computes the value as an exact decimal rational.

pub mod ast;
pub mod eval;
pub mod lexer;
pub mod parser;
pub mod pipeline;
pub mod rat;
pub mod simple;
pub mod token;
