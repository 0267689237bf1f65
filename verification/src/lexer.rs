//! Lexical analysis: one left-to-right scan over the characters of the
//! input, with no backtracking.
//!
//! Digits and `.` accumulate into a numeral substring that becomes one
//! `Number` token holding its exact rational value (`InvalidNumber` if the
//! substring is malformed, or if its exact value would not fit the `i128`
//! components of a [`Rat`]).  Whitespace (space, tab, carriage return,
//! newline) is skipped.  `+ * / ( )` map directly to their tokens, and `-`
//! becomes `UnaryMinus` exactly when the token before it (if any) was an
//! operator or an opening parenthesis, so that a sign is told apart from a
//! subtraction without parser lookahead.  Any other character fails with
//! `UnexpectedChar`.

use crate::rat::Rat;
use crate::token::{tokens_wf, Token};
use vstd::prelude::*;

verus! {

/// Why lexing failed.
#[derive(Debug, Clone, PartialEq)]
pub enum LexError {
    /// The numeral substring carried along is malformed (no digit, or more
    /// than one `.`), or its exact value does not fit a [`Rat`].
    InvalidNumber(String),
    /// A character outside the recognized set.
    UnexpectedChar(char),
}

/// An ASCII decimal digit.
pub open spec fn is_digit(c: char) -> bool {
    48 <= c as u32 <= 57
}

/// The numeric value of a digit.
pub open spec fn digit_val(c: char) -> int {
    c as u32 - 48
}

/// A character that accumulates into a numeral substring.
pub open spec fn is_numeral_char(c: char) -> bool {
    is_digit(c) || c == '.'
}

/// Whitespace that the scan skips.
pub open spec fn is_space_char(c: char) -> bool {
    c == ' ' || c == '\t' || c == '\n' || c == '\r'
}

/// First index at or after `i` whose character does not belong to a
/// numeral; the numeral starting at `i` covers `i..numeral_end(s, i)`.
pub open spec fn numeral_end(s: Seq<char>, i: int) -> int
    decreases s.len() - i,
{
    if 0 <= i < s.len() && is_numeral_char(s[i]) {
        numeral_end(s, i + 1)
    } else {
        i
    }
}

/// How many `.` the numeral holds.
pub open spec fn dots(d: Seq<char>) -> int
    decreases d.len(),
{
    if d.len() == 0 {
        0
    } else {
        dots(d.drop_last()) + if d.last() == '.' {
            1int
        } else {
            0int
        }
    }
}

/// The numeral holds at least one digit.
pub open spec fn has_digit(d: Seq<char>) -> bool
    decreases d.len(),
{
    if d.len() == 0 {
        false
    } else {
        has_digit(d.drop_last()) || is_digit(d.last())
    }
}

/// The digits of the numeral read as one integer, the `.` ignored:
/// the mantissa of its value.
pub open spec fn mantissa(d: Seq<char>) -> int
    decreases d.len(),
{
    if d.len() == 0 {
        0
    } else if is_digit(d.last()) {
        10 * mantissa(d.drop_last()) + digit_val(d.last())
    } else {
        mantissa(d.drop_last())
    }
}

/// How many digits follow the last `.`: the scale of the numeral's value.
pub open spec fn frac(d: Seq<char>) -> int
    decreases d.len(),
{
    if d.len() == 0 {
        0
    } else if d.last() == '.' {
        0
    } else if dots(d.drop_last()) > 0 {
        frac(d.drop_last()) + 1
    } else {
        frac(d.drop_last())
    }
}

/// Ten to the `k`-th power (one for `k <= 0`).
pub open spec fn pow10(k: int) -> int
    decreases k,
{
    if k <= 0 {
        1
    } else {
        10 * pow10(k - 1)
    }
}

/// The numeral is well formed (at least one digit, at most one `.`) and its
/// exact value `mantissa / 10^frac` fits the components of a [`Rat`].
pub open spec fn numeral_ok(d: Seq<char>) -> bool {
    has_digit(d) && dots(d) <= 1 && mantissa(d) <= i128::MAX && pow10(frac(d)) <= i128::MAX
}

/// The exact rational value of a well-formed numeral.
pub open spec fn numeral_rat(d: Seq<char>) -> Rat {
    Rat { num: mantissa(d) as i128, den: pow10(frac(d)) as i128 }
}

/// What lexing returns: the token sequence, or the failing numeral
/// substring, or the unexpected character.
pub enum LexOut {
    Toks(Seq<Token>),
    BadNumber(Seq<char>),
    BadChar(char),
}

/// Prepend one token to a successful outcome; errors pass through.
pub open spec fn cons_tok(t: Token, rest: LexOut) -> LexOut {
    match rest {
        LexOut::Toks(ts) => LexOut::Toks(seq![t] + ts),
        err => err,
    }
}

/// The tokens of `s` from position `i` on, given whether the token emitted
/// last (if any) makes a following `-` a unary sign.
pub open spec fn lex_from(s: Seq<char>, i: int, was_op: bool) -> LexOut
    decreases s.len() - i,
{
    if !(0 <= i < s.len()) {
        LexOut::Toks(Seq::empty())
    } else {
        let c = s[i];
        if is_numeral_char(c) {
            let end0 = numeral_end(s, i);
            let end = if i < end0 <= s.len() {
                end0
            } else {
                i + 1
            };
            let d = s.subrange(i, end);
            if numeral_ok(d) {
                cons_tok(Token::Number(numeral_rat(d)), lex_from(s, end, false))
            } else {
                LexOut::BadNumber(d)
            }
        } else if c == '+' {
            cons_tok(Token::Plus, lex_from(s, i + 1, true))
        } else if c == '-' {
            cons_tok(
                if was_op {
                    Token::UnaryMinus
                } else {
                    Token::Minus
                },
                lex_from(s, i + 1, true),
            )
        } else if c == '*' {
            cons_tok(Token::Multiply, lex_from(s, i + 1, true))
        } else if c == '/' {
            cons_tok(Token::Divide, lex_from(s, i + 1, true))
        } else if c == '(' {
            cons_tok(Token::LParen, lex_from(s, i + 1, true))
        } else if c == ')' {
            cons_tok(Token::RParen, lex_from(s, i + 1, false))
        } else if is_space_char(c) {
            lex_from(s, i + 1, was_op)
        } else {
            LexOut::BadChar(c)
        }
    }
}

/// The tokens of the whole input.  The scan starts as if an operator had
/// just been seen, so a leading `-` is a unary sign.
pub open spec fn lex_spec(s: Seq<char>) -> LexOut {
    lex_from(s, 0, true)
}

/// Prepending tokens to an outcome, one at a time or all at once, agree.
proof fn lemma_cons_all_assoc(pre: Seq<Token>, t: Token, rest: LexOut)
    ensures
        cons_all(pre.push(t), rest) == cons_all(pre, cons_tok(t, rest)),
{
    match rest {
        LexOut::Toks(ts) => {
            assert(pre.push(t) + ts =~= pre + (seq![t] + ts));
        },
        _ => {},
    }
}

/// Prepend a whole token sequence to an outcome.
pub open spec fn cons_all(pre: Seq<Token>, rest: LexOut) -> LexOut {
    match rest {
        LexOut::Toks(ts) => LexOut::Toks(pre + ts),
        err => err,
    }
}

/// `numeral_end` stays between its start and the end of the string.
pub(crate) proof fn lemma_numeral_end_bounds(s: Seq<char>, i: int)
    requires
        0 <= i <= s.len(),
    ensures
        i <= numeral_end(s, i) <= s.len(),
    decreases s.len() - i,
{
    if i < s.len() && is_numeral_char(s[i]) {
        lemma_numeral_end_bounds(s, i + 1);
    }
}

/// Where a numeral run stops short of the string's end, a character that
/// belongs to no numeral stands there.
pub(crate) proof fn lemma_numeral_end_stop(s: Seq<char>, i: int)
    requires
        0 <= i,
        numeral_end(s, i) < s.len(),
    ensures
        !is_numeral_char(s[numeral_end(s, i)]),
    decreases s.len() - i,
{
    if i < s.len() && is_numeral_char(s[i]) {
        lemma_numeral_end_stop(s, i + 1);
    }
}

/// A numeral's mantissa is never negative.
pub(crate) proof fn lemma_mantissa_nonneg(d: Seq<char>)
    ensures
        mantissa(d) >= 0,
    decreases d.len(),
{
    if d.len() > 0 {
        lemma_mantissa_nonneg(d.drop_last());
    }
}

/// Where `pow10` outgrows an `i128`: ten to the 38th still fits, ten to
/// the 39th no longer does.
proof fn lemma_pow10_cap()
    ensures
        pow10(38) <= i128::MAX,
        pow10(39) > i128::MAX,
{
    reveal_with_fuel(pow10, 40);
    assert(pow10(38) == 100000000000000000000000000000000000000int);
    assert(pow10(39) == 1000000000000000000000000000000000000000int);
}

/// `pow10` is at least one and monotone.
proof fn lemma_pow10_monotone(a: int, b: int)
    requires
        0 <= a <= b,
    ensures
        1 <= pow10(a) <= pow10(b),
    decreases b,
{
    if a < b {
        lemma_pow10_monotone(a, b - 1);
    } else {
        if a > 0 {
            lemma_pow10_monotone(0, a - 1);
        }
    }
}

/// Extending a numeral by one character steps each of its measures the way
/// the scan does.
proof fn lemma_numeral_step(p: Seq<char>, c: char)
    ensures
        dots(p.push(c)) == dots(p) + (if c == '.' {
            1int
        } else {
            0int
        }),
        has_digit(p.push(c)) == (has_digit(p) || is_digit(c)),
        mantissa(p.push(c)) == (if is_digit(c) {
            10 * mantissa(p) + digit_val(c)
        } else {
            mantissa(p)
        }),
        frac(p.push(c)) == (if c == '.' {
            0int
        } else if dots(p) > 0 {
            frac(p) + 1
        } else {
            frac(p)
        }),
{
    let p2 = p.push(c);
    assert(p2.drop_last() =~= p);
    assert(p2.last() == c);
}

/// An ASCII decimal digit.
fn is_digit_exec(c: char) -> (b: bool)
    ensures
        b == is_digit(c),
{
    let u = c as u32;
    48 <= u && u <= 57
}

/// A character of a numeral substring.
pub(crate) fn is_numeral_char_exec(c: char) -> (b: bool)
    ensures
        b == is_numeral_char(c),
{
    is_digit_exec(c) || c == '.'
}

/// Whitespace that the scan skips.
fn is_space_char_exec(c: char) -> (b: bool)
    ensures
        b == is_space_char(c),
{
    c == ' ' || c == '\t' || c == '\n' || c == '\r'
}

/// Scan the numeral substring starting at `start` and return its exact
/// value and the position just past it, or the substring itself when it is
/// malformed or its value does not fit.
#[verifier::loop_isolation(false)]
pub(crate) fn lex_numeral(input: &str, start: usize) -> (r: Result<(Rat, usize), LexError>)
    requires
        start < input@.len(),
        is_numeral_char(input@[start as int]),
    ensures
        start < numeral_end(input@, start as int) <= input@.len(),
        match r {
            Ok((value, end)) => end == numeral_end(input@, start as int) && numeral_ok(
                input@.subrange(start as int, end as int),
            ) && value == numeral_rat(input@.subrange(start as int, end as int)) && value.wf(),
            Err(e) => match e {
                LexError::InvalidNumber(sub) => !numeral_ok(
                    input@.subrange(start as int, numeral_end(input@, start as int)),
                ) && sub@ == input@.subrange(start as int, numeral_end(input@, start as int)),
                LexError::UnexpectedChar(_) => false,
            },
        },
{
    let ghost s = input@;
    let n = input.unicode_len();
    let mut j: usize = start;
    while j < n && is_numeral_char_exec(input.get_char(j))
        invariant
            start <= j <= n,
            numeral_end(s, start as int) == numeral_end(s, j as int),
        decreases n - j,
    {
        j = j + 1;
    }
    proof {
        lemma_numeral_end_bounds(s, start as int);
        assert(numeral_end(s, j as int) == j);
        assert(numeral_end(s, start as int) == j);
        assert(start < j) by {
            assert(numeral_end(s, start as int) == numeral_end(s, start + 1));
            lemma_numeral_end_bounds(s, start + 1);
        }
    }
    let ghost d = s.subrange(start as int, j as int);

    let mut m: i128 = 0;
    let mut m_ok: bool = true;
    let mut ndots: u32 = 0;
    let mut hasdig: bool = false;
    let mut kfrac: u32 = 0;
    let mut k: usize = start;
    while k < j
        invariant
            start <= k <= j,
            (dots(s.subrange(start as int, k as int)) >= 2 ==> ndots == 2),
            (dots(s.subrange(start as int, k as int)) < 2 ==> ndots == dots(
                s.subrange(start as int, k as int),
            )),
            hasdig == has_digit(s.subrange(start as int, k as int)),
            m_ok ==> m == mantissa(s.subrange(start as int, k as int)),
            !m_ok ==> mantissa(s.subrange(start as int, k as int)) > i128::MAX,
            m >= 0,
            (kfrac < 39 ==> kfrac == frac(s.subrange(start as int, k as int))),
            (kfrac == 39 ==> frac(s.subrange(start as int, k as int)) >= 39),
            kfrac <= 39,
        decreases j - k,
    {
        let ghost p = s.subrange(start as int, k as int);
        let c = input.get_char(k);
        proof {
            assert(s.subrange(start as int, k + 1) =~= p.push(s[k as int]));
            lemma_numeral_range(s, start as int, k as int);
            lemma_numeral_step(p, c);
            lemma_mantissa_nonneg(p);
        }
        if c == '.' {
            if ndots < 2 {
                ndots = ndots + 1;
            }
            kfrac = 0;
        } else {
            hasdig = true;
            if ndots > 0 {
                if kfrac < 39 {
                    kfrac = kfrac + 1;
                }
            }
            if m_ok {
                let u = c as u32;
                let dv: i128 = (u - 48) as i128;
                match m.checked_mul(10) {
                    Some(m10) => match m10.checked_add(dv) {
                        Some(m2) => {
                            m = m2;
                        },
                        None => {
                            m_ok = false;
                        },
                    },
                    None => {
                        m_ok = false;
                    },
                }
            }
        }
        k = k + 1;
    }
    proof {
        assert(s.subrange(start as int, k as int) == d);
    }

    if !(hasdig && ndots <= 1) {
        let sub = input.substring_char(start, j);
        return Err(LexError::InvalidNumber(String::from_str(sub)));
    }
    if !m_ok {
        let sub = input.substring_char(start, j);
        return Err(LexError::InvalidNumber(String::from_str(sub)));
    }
    if kfrac >= 39 {
        proof {
            lemma_pow10_monotone(39, frac(d));
            lemma_pow10_cap();
        }
        let sub = input.substring_char(start, j);
        return Err(LexError::InvalidNumber(String::from_str(sub)));
    }
    let mut den: i128 = 1;
    let mut t: u32 = 0;
    while t < kfrac
        invariant
            t <= kfrac <= 38,
            den == pow10(t as int),
            1 <= den,
        decreases kfrac - t,
    {
        proof {
            lemma_pow10_monotone(t + 1, 38);
            lemma_pow10_cap();
        }
        den = den * 10;
        t = t + 1;
    }
    Ok((Rat { num: m, den }, j))
}

/// Every character of a numeral run is a numeral character.
pub(crate) proof fn lemma_numeral_range(s: Seq<char>, i: int, q: int)
    requires
        0 <= i <= q,
        q < numeral_end(s, i),
    ensures
        q < s.len() && is_numeral_char(s[q]),
    decreases q - i,
{
    if numeral_end(s, i) == i {
    } else {
        if i < q {
            lemma_numeral_range(s, i + 1, q);
        }
    }
}

/// Helper for `lemma_lex_no_unexpected_char`: the scan from any position
/// and in either scanner state meets no unexpected character when the
/// string holds only digits, dots and whitespace.
proof fn lemma_lex_from_no_bad_char(s: Seq<char>, i: int, was_op: bool)
    requires
        forall|q: int| 0 <= q < s.len() ==> is_numeral_char(#[trigger] s[q]) || is_space_char(
            s[q],
        ),
    ensures
        !(lex_from(s, i, was_op) is BadChar),
    decreases s.len() - i,
{
    if 0 <= i < s.len() {
        let c = s[i];
        if is_numeral_char(c) {
            lemma_numeral_end_bounds(s, i + 1);
            let end0 = numeral_end(s, i);
            let end = if i < end0 <= s.len() {
                end0
            } else {
                i + 1
            };
            lemma_lex_from_no_bad_char(s, end, false);
        } else {
            lemma_lex_from_no_bad_char(s, i + 1, was_op);
        }
    }
}

/// On input made only of digits, `.` and whitespace, lexing never fails
/// with `UnexpectedChar` (it can still fail with `InvalidNumber`, on a
/// malformed numeral).
pub proof fn lemma_lex_no_unexpected_char(s: Seq<char>)
    requires
        forall|q: int| 0 <= q < s.len() ==> is_numeral_char(#[trigger] s[q]) || is_space_char(
            s[q],
        ),
    ensures
        !(lex_spec(s) is BadChar),
{
    lemma_lex_from_no_bad_char(s, 0, true);
}

/// Lexing is a pure function of the input string: equal strings lex to the
/// same outcome, so re-lexing a string yields the identical token sequence
/// and no state hides between calls.
pub proof fn lemma_lex_idempotent(s1: Seq<char>, s2: Seq<char>)
    requires
        s1 == s2,
    ensures
        lex_spec(s1) == lex_spec(s2),
{
}

/// Turn the input string into its token sequence.
///
/// On success the tokens are exactly `lex_spec` of the input (so lexing is
/// a pure function of the string) and every `Number` token is well-formed;
/// the errors return exactly the substring or character on which `lex_spec`
/// fails.
#[verifier::loop_isolation(false)]
pub fn lexer(input: &str) -> (r: Result<Vec<Token>, LexError>)
    ensures
        match r {
            Ok(v) => lex_spec(input@) == LexOut::Toks(v@) && tokens_wf(v@),
            Err(e) => match e {
                LexError::InvalidNumber(sub) => lex_spec(input@) == LexOut::BadNumber(sub@),
                LexError::UnexpectedChar(c) => lex_spec(input@) == LexOut::BadChar(c),
            },
        },
{
    let ghost s = input@;
    let n = input.unicode_len();
    let mut tokens: Vec<Token> = Vec::new();
    let mut i: usize = 0;
    let mut last_token_was_operator: bool = true;
    while i < n
        invariant
            i <= n,
            tokens_wf(tokens@),
            lex_spec(s) == cons_all(tokens@, lex_from(s, i as int, last_token_was_operator)),
        decreases n - i,
    {
        let ghost toks0 = tokens@;
        let c = input.get_char(i);
        if is_numeral_char_exec(c) {
            match lex_numeral(input, i) {
                Ok((value, end)) => {
                    let tok = Token::Number(value);
                    proof {
                        lemma_cons_all_assoc(
                            toks0,
                            tok,
                            lex_from(s, end as int, false),
                        );
                    }
                    tokens.push(tok);
                    i = end;
                    last_token_was_operator = false;
                },
                Err(e) => {
                    return Err(e);
                },
            }
        } else if c == '+' {
            proof {
                lemma_cons_all_assoc(toks0, Token::Plus, lex_from(s, i + 1, true));
            }
            tokens.push(Token::Plus);
            i = i + 1;
            last_token_was_operator = true;
        } else if c == '-' {
            let tok = if last_token_was_operator {
                Token::UnaryMinus
            } else {
                Token::Minus
            };
            proof {
                lemma_cons_all_assoc(toks0, tok, lex_from(s, i + 1, true));
            }
            tokens.push(tok);
            i = i + 1;
            last_token_was_operator = true;
        } else if c == '*' {
            proof {
                lemma_cons_all_assoc(toks0, Token::Multiply, lex_from(s, i + 1, true));
            }
            tokens.push(Token::Multiply);
            i = i + 1;
            last_token_was_operator = true;
        } else if c == '/' {
            proof {
                lemma_cons_all_assoc(toks0, Token::Divide, lex_from(s, i + 1, true));
            }
            tokens.push(Token::Divide);
            i = i + 1;
            last_token_was_operator = true;
        } else if c == '(' {
            proof {
                lemma_cons_all_assoc(toks0, Token::LParen, lex_from(s, i + 1, true));
            }
            tokens.push(Token::LParen);
            i = i + 1;
            last_token_was_operator = true;
        } else if c == ')' {
            proof {
                lemma_cons_all_assoc(toks0, Token::RParen, lex_from(s, i + 1, false));
            }
            tokens.push(Token::RParen);
            i = i + 1;
            last_token_was_operator = false;
        } else if is_space_char_exec(c) {
            i = i + 1;
        } else {
            return Err(LexError::UnexpectedChar(c));
        }
    }
    proof {
        assert(lex_from(s, i as int, last_token_was_operator) == LexOut::Toks(
            Seq::<Token>::empty(),
        ));
        assert(tokens@ + Seq::<Token>::empty() =~= tokens@);
    }
    Ok(tokens)
}

} // verus!
