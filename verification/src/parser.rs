//! Recursive-descent parsing of a token sequence into an expression tree.
//!
//! Grammar, with left-associative binary operators:
//!
//! ```text
//! expression := term (('+' | '-') term)*
//! term       := factor (('*' | '/') factor)*
//! factor     := Number | UnaryMinus factor | '(' expression ')'
//! ```
//!
//! The spec functions below give the parse of each nonterminal at a given
//! position as a mathematical function of the token sequence; the `Parser`
//! methods are proved to return exactly those values.

use crate::ast::Expr;
use crate::token::{tokens_wf, Token};
use vstd::prelude::*;

verus! {

/// Why parsing failed.
#[derive(Debug, Clone, Copy, PartialEq, Eq, Structural)]
pub enum ParseError {
    /// A token appeared where the grammar forbids it.
    UnexpectedToken(Token),
    /// The input ended where the grammar demands another token.
    UnexpectedEnd,
    /// A specific token (the closing parenthesis) was required but another
    /// one was found.
    ExpectedToken(Token),
    /// A complete expression was parsed but tokens remained.
    TrailingTokens,
}

/// Outcome of parsing one nonterminal: the tree it produced and the
/// position of the first token it did not consume, or the error.
pub enum ParseStep {
    Done { e: Expr, next: int },
    Fail { err: ParseError },
}

/// The position a nonterminal hands on to the rest of the parse, clamped
/// into `lo..=len` so that termination of the definitions below is plain.
/// On every parse that actually happens, `lo <= next <= len` holds and the
/// clamp returns `next` unchanged.
pub open spec fn advance(len: int, lo: int, next: int) -> int {
    if lo <= next <= len {
        next
    } else if lo <= len {
        lo
    } else {
        len
    }
}

/// Parse of `factor` at `pos`.
pub open spec fn spec_parse_factor(toks: Seq<Token>, pos: int) -> ParseStep
    decreases toks.len() - pos, 0int,
{
    if !(0 <= pos < toks.len()) {
        ParseStep::Fail { err: ParseError::UnexpectedEnd }
    } else {
        match toks[pos] {
            Token::Number(v) => ParseStep::Done { e: Expr::Literal(v), next: pos + 1 },
            Token::UnaryMinus => match spec_parse_factor(toks, pos + 1) {
                ParseStep::Done { e, next } => ParseStep::Done {
                    e: Expr::UnaryOp { op: Token::UnaryMinus, expr: Box::new(e) },
                    next: next,
                },
                fail => fail,
            },
            Token::LParen => match spec_parse_expression(toks, pos + 1) {
                ParseStep::Done { e, next } => if 0 <= next < toks.len() && toks[next]
                    == Token::RParen {
                    ParseStep::Done { e: e, next: next + 1 }
                } else if !(0 <= next < toks.len()) {
                    ParseStep::Fail { err: ParseError::UnexpectedEnd }
                } else {
                    ParseStep::Fail { err: ParseError::ExpectedToken(Token::RParen) }
                },
                fail => fail,
            },
            t => ParseStep::Fail { err: ParseError::UnexpectedToken(t) },
        }
    }
}

/// Parse of `term` at `pos`.
pub open spec fn spec_parse_term(toks: Seq<Token>, pos: int) -> ParseStep
    decreases toks.len() - pos, 1int,
{
    if !(0 <= pos <= toks.len()) {
        ParseStep::Fail { err: ParseError::UnexpectedEnd }
    } else {
        match spec_parse_factor(toks, pos) {
            ParseStep::Done { e, next } => spec_parse_term_more(
                toks,
                advance(toks.len() as int, pos + 1, next),
                e,
            ),
            fail => fail,
        }
    }
}

/// The left-folding `(('*' | '/') factor)*` tail of `term`: wraps the tree
/// built so far as the left child of each further operator.
pub open spec fn spec_parse_term_more(toks: Seq<Token>, pos: int, left: Expr) -> ParseStep
    decreases toks.len() - pos, 0int,
{
    if 0 <= pos < toks.len() && (toks[pos] == Token::Multiply || toks[pos] == Token::Divide) {
        match spec_parse_factor(toks, pos + 1) {
            ParseStep::Done { e, next } => spec_parse_term_more(
                toks,
                advance(toks.len() as int, pos + 2, next),
                Expr::BinaryOp { op: toks[pos], left: Box::new(left), right: Box::new(e) },
            ),
            fail => fail,
        }
    } else {
        ParseStep::Done { e: left, next: pos }
    }
}

/// Parse of `expression` at `pos`.
pub open spec fn spec_parse_expression(toks: Seq<Token>, pos: int) -> ParseStep
    decreases toks.len() - pos, 2int,
{
    if !(0 <= pos <= toks.len()) {
        ParseStep::Fail { err: ParseError::UnexpectedEnd }
    } else {
        match spec_parse_term(toks, pos) {
            ParseStep::Done { e, next } => spec_parse_expr_more(
                toks,
                advance(toks.len() as int, pos + 1, next),
                e,
            ),
            fail => fail,
        }
    }
}

/// The left-folding `(('+' | '-') term)*` tail of `expression`.
pub open spec fn spec_parse_expr_more(toks: Seq<Token>, pos: int, left: Expr) -> ParseStep
    decreases toks.len() - pos, 0int,
{
    if 0 <= pos < toks.len() && (toks[pos] == Token::Plus || toks[pos] == Token::Minus) {
        match spec_parse_term(toks, pos + 1) {
            ParseStep::Done { e, next } => spec_parse_expr_more(
                toks,
                advance(toks.len() as int, pos + 2, next),
                Expr::BinaryOp { op: toks[pos], left: Box::new(left), right: Box::new(e) },
            ),
            fail => fail,
        }
    } else {
        ParseStep::Done { e: left, next: pos }
    }
}

/// Parse of the whole sequence from `pos`: a complete `expression` that
/// consumes every remaining token, `TrailingTokens` otherwise.
pub open spec fn spec_parse(toks: Seq<Token>, pos: int) -> Result<Expr, ParseError> {
    match spec_parse_expression(toks, pos) {
        ParseStep::Done { e, next } => if next < toks.len() {
            Err(ParseError::TrailingTokens)
        } else {
            Ok(e)
        },
        ParseStep::Fail { err } => Err(err),
    }
}

/// On success `factor` consumes at least one token, stops inside the
/// sequence, and builds a tree of grammar operators whose literals are
/// well-formed when every token is.
proof fn lemma_parse_factor_wf(toks: Seq<Token>, pos: int)
    ensures
        spec_parse_factor(toks, pos) matches ParseStep::Done { e, next } ==> pos < next
            <= toks.len() && e.ops_wf() && (tokens_wf(toks) ==> e.wf()),
    decreases toks.len() - pos, 0int,
{
    if 0 <= pos < toks.len() {
        match toks[pos] {
            Token::Number(v) => {
                assert(tokens_wf(toks) ==> toks[pos].wf());
            },
            Token::UnaryMinus => {
                lemma_parse_factor_wf(toks, pos + 1);
            },
            Token::LParen => {
                lemma_parse_expression_wf(toks, pos + 1);
            },
            _ => {},
        }
    }
}

/// As `lemma_parse_factor_wf`, for `term`.
proof fn lemma_parse_term_wf(toks: Seq<Token>, pos: int)
    ensures
        spec_parse_term(toks, pos) matches ParseStep::Done { e, next } ==> pos < next
            <= toks.len() && e.ops_wf() && (tokens_wf(toks) ==> e.wf()),
    decreases toks.len() - pos, 1int,
{
    if 0 <= pos <= toks.len() {
        lemma_parse_factor_wf(toks, pos);
        match spec_parse_factor(toks, pos) {
            ParseStep::Done { e, next } => {
                lemma_parse_term_more_wf(toks, advance(toks.len() as int, pos + 1, next), e);
            },
            _ => {},
        }
    }
}

/// As `lemma_parse_factor_wf`, for the folded tail of `term`; the fold can
/// also stop at once, so the position only fails to move when no operator
/// follows.
proof fn lemma_parse_term_more_wf(toks: Seq<Token>, pos: int, left: Expr)
    requires
        0 <= pos <= toks.len(),
    ensures
        spec_parse_term_more(toks, pos, left) matches ParseStep::Done { e, next } ==> pos <= next
            <= toks.len() && (left.ops_wf() ==> e.ops_wf()) && ((left.wf() && tokens_wf(toks))
            ==> e.wf()),
    decreases toks.len() - pos, 0int,
{
    if 0 <= pos < toks.len() && (toks[pos] == Token::Multiply || toks[pos] == Token::Divide) {
        lemma_parse_factor_wf(toks, pos + 1);
        match spec_parse_factor(toks, pos + 1) {
            ParseStep::Done { e, next } => {
                lemma_parse_term_more_wf(
                    toks,
                    advance(toks.len() as int, pos + 2, next),
                    Expr::BinaryOp { op: toks[pos], left: Box::new(left), right: Box::new(e) },
                );
            },
            _ => {},
        }
    }
}

/// As `lemma_parse_factor_wf`, for `expression`.
proof fn lemma_parse_expression_wf(toks: Seq<Token>, pos: int)
    ensures
        spec_parse_expression(toks, pos) matches ParseStep::Done { e, next } ==> pos < next
            <= toks.len() && e.ops_wf() && (tokens_wf(toks) ==> e.wf()),
    decreases toks.len() - pos, 2int,
{
    if 0 <= pos <= toks.len() {
        lemma_parse_term_wf(toks, pos);
        match spec_parse_term(toks, pos) {
            ParseStep::Done { e, next } => {
                lemma_parse_expr_more_wf(toks, advance(toks.len() as int, pos + 1, next), e);
            },
            _ => {},
        }
    }
}

/// As `lemma_parse_term_more_wf`, for the folded tail of `expression`.
proof fn lemma_parse_expr_more_wf(toks: Seq<Token>, pos: int, left: Expr)
    requires
        0 <= pos <= toks.len(),
    ensures
        spec_parse_expr_more(toks, pos, left) matches ParseStep::Done { e, next } ==> pos <= next
            <= toks.len() && (left.ops_wf() ==> e.ops_wf()) && ((left.wf() && tokens_wf(toks))
            ==> e.wf()),
    decreases toks.len() - pos, 0int,
{
    if 0 <= pos < toks.len() && (toks[pos] == Token::Plus || toks[pos] == Token::Minus) {
        lemma_parse_term_wf(toks, pos + 1);
        match spec_parse_term(toks, pos + 1) {
            ParseStep::Done { e, next } => {
                lemma_parse_expr_more_wf(
                    toks,
                    advance(toks.len() as int, pos + 2, next),
                    Expr::BinaryOp { op: toks[pos], left: Box::new(left), right: Box::new(e) },
                );
            },
            _ => {},
        }
    }
}

/// A tree returned by a successful parse can only be one the grammar
/// produces: every unary node carries `UnaryMinus`, every binary node one
/// of `Plus`, `Minus`, `Multiply`, `Divide`, and every literal holds a
/// well-formed rational whenever every `Number` token does.
pub proof fn lemma_parse_result_wf(toks: Seq<Token>, pos: int)
    ensures
        spec_parse(toks, pos) matches Ok(e) ==> e.ops_wf() && (tokens_wf(toks) ==> e.wf()),
{
    lemma_parse_expression_wf(toks, pos);
}

/// The parser cursor: the token sequence, immutable after construction,
/// and a read position that only moves forward.
pub struct Parser {
    pub tokens: Vec<Token>,
    pub position: usize,
}

impl Parser {
    /// The position never passes the end of the sequence.
    pub open spec fn wf(self) -> bool {
        self.position <= self.tokens@.len()
    }

    pub fn new(tokens: Vec<Token>) -> (p: Parser)
        ensures
            p.tokens == tokens,
            p.position == 0,
            p.wf(),
    {
        Parser { tokens, position: 0 }
    }

    /// The next token, without consuming it.
    pub fn peek(&self) -> (t: Option<&Token>)
        ensures
            match t {
                Some(tok) => self.position < self.tokens@.len() && *tok == self.tokens@[self.position as int],
                None => self.position >= self.tokens@.len(),
            },
    {
        if self.position < self.tokens.len() {
            Some(&self.tokens[self.position])
        } else {
            None
        }
    }

    /// Consume and return the next token.
    pub fn next(&mut self) -> (t: Option<Token>)
        ensures
            final(self).tokens == old(self).tokens,
            match t {
                Some(tok) => old(self).position < old(self).tokens@.len()
                    && tok == old(self).tokens@[old(self).position as int]
                    && final(self).position == old(self).position + 1,
                None => old(self).position >= old(self).tokens@.len()
                    && final(self).position == old(self).position,
            },
    {
        if self.position < self.tokens.len() {
            let token = self.tokens[self.position];
            self.position = self.position + 1;
            Some(token)
        } else {
            None
        }
    }

    /// Consume the next token, demanding that it equals `expected_token`.
    pub fn expect(&mut self, expected_token: Token) -> (r: Result<Token, ParseError>)
        ensures
            final(self).tokens == old(self).tokens,
            match r {
                Ok(tok) => old(self).position < old(self).tokens@.len()
                    && old(self).tokens@[old(self).position as int] == expected_token
                    && tok == expected_token && final(self).position == old(self).position + 1,
                Err(err) => match err {
                    ParseError::UnexpectedEnd => old(self).position >= old(self).tokens@.len()
                        && final(self).position == old(self).position,
                    ParseError::ExpectedToken(exp) => exp == expected_token
                        && old(self).position < old(self).tokens@.len()
                        && old(self).tokens@[old(self).position as int] != expected_token
                        && final(self).position == old(self).position + 1,
                    _ => false,
                },
            },
    {
        match self.next() {
            None => Err(ParseError::UnexpectedEnd),
            Some(token) => {
                if token == expected_token {
                    Ok(token)
                } else {
                    Err(ParseError::ExpectedToken(expected_token))
                }
            },
        }
    }

    /// Entry point: parse a complete expression covering the whole token
    /// sequence.
    pub fn parse(&mut self) -> (r: Result<Expr, ParseError>)
        requires
            old(self).wf(),
        ensures
            final(self).tokens == old(self).tokens,
            r == spec_parse(old(self).tokens@, old(self).position as int),
            r is Ok ==> final(self).position == final(self).tokens@.len(),
    {
        let expr = match self.parse_expression() {
            Ok(e) => e,
            Err(err) => {
                return Err(err);
            },
        };
        if self.position < self.tokens.len() {
            Err(ParseError::TrailingTokens)
        } else {
            Ok(expr)
        }
    }

    /// Parse one `expression`.
    #[verifier::loop_isolation(false)]
    pub fn parse_expression(&mut self) -> (r: Result<Expr, ParseError>)
        requires
            old(self).wf(),
        ensures
            final(self).wf(),
            final(self).tokens == old(self).tokens,
            final(self).position >= old(self).position,
            match r {
                Ok(e) => spec_parse_expression(old(self).tokens@, old(self).position as int)
                    == (ParseStep::Done { e: e, next: final(self).position as int })
                    && final(self).position > old(self).position,
                Err(err) => spec_parse_expression(old(self).tokens@, old(self).position as int)
                    == (ParseStep::Fail { err }),
            },
        decreases old(self).tokens@.len() - old(self).position, 2int,
    {
        let ghost toks = self.tokens@;
        let ghost pos0 = self.position as int;
        let mut expr = match self.parse_term() {
            Ok(e) => e,
            Err(err) => {
                return Err(err);
            },
        };
        proof {
            assert(advance(toks.len() as int, pos0 + 1, self.position as int)
                == self.position as int);
        }
        loop
            invariant
                self.wf(),
                self.tokens == old(self).tokens,
                pos0 < self.position <= toks.len(),
                spec_parse_expression(toks, pos0) == spec_parse_expr_more(
                    toks,
                    self.position as int,
                    expr,
                ),
            decreases toks.len() - self.position,
        {
            let at_op = match self.peek() {
                Some(token) => match token {
                    Token::Plus => true,
                    Token::Minus => true,
                    _ => false,
                },
                None => false,
            };
            if !at_op {
                return Ok(expr);
            }
            let ghost p = self.position as int;
            let op = match self.next() {
                Some(token) => token,
                None => {
                    return Err(ParseError::UnexpectedEnd);
                },
            };
            let right = match self.parse_term() {
                Ok(e) => e,
                Err(err) => {
                    return Err(err);
                },
            };
            proof {
                assert(advance(toks.len() as int, p + 2, self.position as int)
                    == self.position as int);
            }
            expr = Expr::BinaryOp { op, left: Box::new(expr), right: Box::new(right) };
        }
    }

    /// Parse one `term`.
    #[verifier::loop_isolation(false)]
    pub fn parse_term(&mut self) -> (r: Result<Expr, ParseError>)
        requires
            old(self).wf(),
        ensures
            final(self).wf(),
            final(self).tokens == old(self).tokens,
            final(self).position >= old(self).position,
            match r {
                Ok(e) => spec_parse_term(old(self).tokens@, old(self).position as int)
                    == (ParseStep::Done { e: e, next: final(self).position as int })
                    && final(self).position > old(self).position,
                Err(err) => spec_parse_term(old(self).tokens@, old(self).position as int)
                    == (ParseStep::Fail { err }),
            },
        decreases old(self).tokens@.len() - old(self).position, 1int,
    {
        let ghost toks = self.tokens@;
        let ghost pos0 = self.position as int;
        let mut expr = match self.parse_factor() {
            Ok(e) => e,
            Err(err) => {
                return Err(err);
            },
        };
        proof {
            assert(advance(toks.len() as int, pos0 + 1, self.position as int)
                == self.position as int);
        }
        loop
            invariant
                self.wf(),
                self.tokens == old(self).tokens,
                pos0 < self.position <= toks.len(),
                spec_parse_term(toks, pos0) == spec_parse_term_more(
                    toks,
                    self.position as int,
                    expr,
                ),
            decreases toks.len() - self.position,
        {
            let at_op = match self.peek() {
                Some(token) => match token {
                    Token::Multiply => true,
                    Token::Divide => true,
                    _ => false,
                },
                None => false,
            };
            if !at_op {
                return Ok(expr);
            }
            let ghost p = self.position as int;
            let op = match self.next() {
                Some(token) => token,
                None => {
                    return Err(ParseError::UnexpectedEnd);
                },
            };
            let right = match self.parse_factor() {
                Ok(e) => e,
                Err(err) => {
                    return Err(err);
                },
            };
            proof {
                assert(advance(toks.len() as int, p + 2, self.position as int)
                    == self.position as int);
            }
            expr = Expr::BinaryOp { op, left: Box::new(expr), right: Box::new(right) };
        }
    }

    /// Parse one `factor`.
    pub fn parse_factor(&mut self) -> (r: Result<Expr, ParseError>)
        requires
            old(self).wf(),
        ensures
            final(self).wf(),
            final(self).tokens == old(self).tokens,
            final(self).position >= old(self).position,
            match r {
                Ok(e) => spec_parse_factor(old(self).tokens@, old(self).position as int)
                    == (ParseStep::Done { e: e, next: final(self).position as int })
                    && final(self).position > old(self).position,
                Err(err) => spec_parse_factor(old(self).tokens@, old(self).position as int)
                    == (ParseStep::Fail { err }),
            },
        decreases old(self).tokens@.len() - old(self).position, 0int,
    {
        let token = match self.next() {
            None => {
                return Err(ParseError::UnexpectedEnd);
            },
            Some(t) => t,
        };
        match token {
            Token::Number(value) => Ok(Expr::Literal(value)),
            Token::UnaryMinus => {
                let inner = match self.parse_factor() {
                    Ok(e) => e,
                    Err(err) => {
                        return Err(err);
                    },
                };
                Ok(Expr::UnaryOp { op: Token::UnaryMinus, expr: Box::new(inner) })
            },
            Token::LParen => {
                let inner = match self.parse_expression() {
                    Ok(e) => e,
                    Err(err) => {
                        return Err(err);
                    },
                };
                match self.expect(Token::RParen) {
                    Ok(_) => Ok(inner),
                    Err(err) => Err(err),
                }
            },
            other => Err(ParseError::UnexpectedToken(other)),
        }
    }
}

} // verus!
