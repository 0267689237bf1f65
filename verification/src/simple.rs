//! The simplified two-operand evaluator behind the line-oriented console
//! collaborator: it takes one signed decimal number, one operator and one
//! signed decimal number, each already split out as its own word, and is
//! deliberately more limited than the full grammar (no parentheses, no
//! chained operators).

use crate::eval::{EvalError, SpecEval};
use crate::lexer::{
    frac, is_numeral_char, is_numeral_char_exec, lemma_mantissa_nonneg, lemma_numeral_end_bounds,
    lemma_numeral_end_stop, lemma_numeral_range, lex_numeral, mantissa, numeral_end, numeral_ok,
    numeral_rat, pow10, LexError,
};
use crate::pipeline::CalcError;
use crate::rat::{add_ok, add_pair, div_ok, div_pair, mul_ok, mul_pair, sub_ok, sub_pair, Rat};
use vstd::prelude::*;

verus! {

/// Every character of the word belongs to a numeral.
pub open spec fn all_numeral(s: Seq<char>) -> bool {
    forall|q: int| 0 <= q < s.len() ==> is_numeral_char(#[trigger] s[q])
}

/// The word is one decimal numeral with an optional leading minus sign,
/// well formed and in range.
pub open spec fn signed_numeral_ok(s: Seq<char>) -> bool {
    if s.len() > 0 && s[0] == '-' {
        all_numeral(s.subrange(1, s.len() as int)) && numeral_ok(s.subrange(1, s.len() as int))
    } else {
        all_numeral(s) && numeral_ok(s)
    }
}

/// The exact value of such a word.
pub open spec fn signed_numeral_rat(s: Seq<char>) -> Rat {
    if s.len() > 0 && s[0] == '-' {
        Rat {
            num: (-mantissa(s.subrange(1, s.len() as int))) as i128,
            den: pow10(frac(s.subrange(1, s.len() as int))) as i128,
        }
    } else {
        numeral_rat(s)
    }
}

/// Parse one word as a signed decimal number, exactly when the whole word
/// is one such numeral; the error carries the word.
pub fn parse_number(input: &str) -> (r: Result<Rat, LexError>)
    ensures
        match r {
            Ok(q) => signed_numeral_ok(input@) && q == signed_numeral_rat(input@) && q.wf(),
            Err(e) => match e {
                LexError::InvalidNumber(sub) => !signed_numeral_ok(input@) && sub@ == input@,
                LexError::UnexpectedChar(_) => false,
            },
        },
{
    let ghost s = input@;
    let n = input.unicode_len();
    let neg = n > 0 && input.get_char(0) == '-';
    let start: usize = if neg {
        1
    } else {
        0
    };
    if start >= n {
        return Err(LexError::InvalidNumber(String::from_str(input)));
    }
    let c = input.get_char(start);
    if !is_numeral_char_exec(c) {
        proof {
            if neg {
                assert(s.subrange(1, s.len() as int)[0] == s[1]);
            }
        }
        return Err(LexError::InvalidNumber(String::from_str(input)));
    }
    match lex_numeral(input, start) {
        Ok((value, end)) => {
            if end != n {
                proof {
                    lemma_numeral_end_stop(s, start as int);
                    if neg {
                        assert(s.subrange(1, s.len() as int)[end - 1] == s[end as int]);
                    }
                }
                return Err(LexError::InvalidNumber(String::from_str(input)));
            }
            proof {
                let ghost d = if neg {
                    s.subrange(1, s.len() as int)
                } else {
                    s
                };
                assert(d =~= s.subrange(start as int, end as int));
                assert forall|q: int| 0 <= q < d.len() implies is_numeral_char(
                    #[trigger] d[q],
                ) by {
                    lemma_numeral_range(s, start as int, q + start);
                }
            }
            if neg {
                proof {
                    lemma_mantissa_nonneg(s.subrange(start as int, end as int));
                }
                match value.checked_neg() {
                    Some(q) => Ok(q),
                    None => {
                        proof {
                            assert(false);
                        }
                        Err(LexError::InvalidNumber(String::from_str(input)))
                    },
                }
            } else {
                Ok(value)
            }
        },
        Err(_) => {
            proof {
                if numeral_end(s, start as int) < s.len() {
                    lemma_numeral_end_stop(s, start as int);
                    if neg {
                        let ghost e = numeral_end(s, start as int);
                        assert(s.subrange(1, s.len() as int)[e - 1] == s[e]);
                    }
                } else {
                    lemma_numeral_end_bounds(s, start as int);
                    if neg {
                        assert(s.subrange(1, s.len() as int) =~= s.subrange(
                            start as int,
                            numeral_end(s, start as int),
                        ));
                    } else {
                        assert(s =~= s.subrange(start as int, numeral_end(s, start as int)));
                    }
                }
            }
            Err(LexError::InvalidNumber(String::from_str(input)))
        },
    }
}

/// The exact outcome of one operator applied to two rationals: the value,
/// a division by zero, or (`Malformed`) an unrecognized operator.
pub open spec fn apply_op_spec(l: Rat, op: char, rr: Rat) -> SpecEval {
    if op == '+' {
        SpecEval::Val {
            num: add_pair(l.num as int, l.den as int, rr.num as int, rr.den as int).0,
            den: add_pair(l.num as int, l.den as int, rr.num as int, rr.den as int).1,
        }
    } else if op == '-' {
        SpecEval::Val {
            num: sub_pair(l.num as int, l.den as int, rr.num as int, rr.den as int).0,
            den: sub_pair(l.num as int, l.den as int, rr.num as int, rr.den as int).1,
        }
    } else if op == '*' {
        SpecEval::Val {
            num: mul_pair(l.num as int, l.den as int, rr.num as int, rr.den as int).0,
            den: mul_pair(l.num as int, l.den as int, rr.num as int, rr.den as int).1,
        }
    } else if op == '/' {
        if rr.num == 0 {
            SpecEval::DivZero
        } else {
            SpecEval::Val {
                num: div_pair(l.num as int, l.den as int, rr.num as int, rr.den as int).0,
                den: div_pair(l.num as int, l.den as int, rr.num as int, rr.den as int).1,
            }
        }
    } else {
        SpecEval::Malformed
    }
}

/// The exact intermediate values of the one operation fit in an `i128`.
pub open spec fn apply_op_in_bounds(l: Rat, op: char, rr: Rat) -> bool {
    if op == '+' {
        add_ok(l.num as int, l.den as int, rr.num as int, rr.den as int)
    } else if op == '-' {
        sub_ok(l.num as int, l.den as int, rr.num as int, rr.den as int)
    } else if op == '*' {
        mul_ok(l.num as int, l.den as int, rr.num as int, rr.den as int)
    } else if op == '/' {
        rr.num != 0 ==> div_ok(l.num as int, l.den as int, rr.num as int, rr.den as int)
    } else {
        true
    }
}

/// Apply one operator to two numbers, exactly: the result is the
/// mathematical value, division by zero is reported exactly when the
/// divisor is zero, a character other than the four operators is rejected,
/// and `Overflow` can come only when an exact intermediate value does not
/// fit in an `i128`.
pub fn apply_op(left: Rat, op: char, right: Rat) -> (r: Result<Rat, CalcError>)
    requires
        left.wf(),
        right.wf(),
    ensures
        match r {
            Ok(q) => apply_op_spec(left, op, right) == (SpecEval::Val {
                num: q.num as int,
                den: q.den as int,
            }) && q.wf(),
            Err(e) => match e {
                CalcError::Eval(ee) => match ee {
                    EvalError::DivisionByZero => apply_op_spec(left, op, right) is DivZero,
                    EvalError::Overflow => !apply_op_in_bounds(left, op, right),
                    EvalError::MalformedAst => false,
                },
                CalcError::Lex(le) => match le {
                    LexError::UnexpectedChar(c) => c == op && apply_op_spec(left, op, right)
                        is Malformed,
                    LexError::InvalidNumber(_) => false,
                },
                CalcError::Parse(_) => false,
            },
        },
{
    if op == '+' {
        match left.checked_add(right) {
            Some(q) => Ok(q),
            None => Err(CalcError::Eval(EvalError::Overflow)),
        }
    } else if op == '-' {
        match left.checked_sub(right) {
            Some(q) => Ok(q),
            None => Err(CalcError::Eval(EvalError::Overflow)),
        }
    } else if op == '*' {
        match left.checked_mul(right) {
            Some(q) => Ok(q),
            None => Err(CalcError::Eval(EvalError::Overflow)),
        }
    } else if op == '/' {
        if right.num == 0 {
            Err(CalcError::Eval(EvalError::DivisionByZero))
        } else {
            match left.checked_div(right) {
                Some(q) => Ok(q),
                None => Err(CalcError::Eval(EvalError::Overflow)),
            }
        }
    } else {
        Err(CalcError::Lex(LexError::UnexpectedChar(op)))
    }
}

} // verus!
