//! Exact rational numbers with checked arithmetic.
//!
//! Number literals are decimal strings, so every value the interpreter
//! handles is a rational whose denominator is a product of powers of ten
//! and of other literals' mantissas.  All arithmetic is exact: each
//! operation either returns the mathematically exact rational or reports
//! that a component would not fit in an `i128`.

use vstd::prelude::*;

verus! {

/// A rational number `num / den`.  Well-formed values keep `den` positive,
/// so the value is zero exactly when `num` is zero.
#[derive(Debug, Clone, Copy, PartialEq, Eq, Structural)]
pub struct Rat {
    pub num: i128,
    pub den: i128,
}

/// `x` fits in an `i128`.
pub open spec fn in_range(x: int) -> bool {
    i128::MIN <= x <= i128::MAX
}

/// Exact negation of `n / d`.
pub open spec fn neg_pair(n: int, d: int) -> (int, int) {
    (-n, d)
}

pub open spec fn neg_ok(n: int, d: int) -> bool {
    in_range(-n)
}

/// Exact sum of `ln / ld` and `rn / rd`.
pub open spec fn add_pair(ln: int, ld: int, rn: int, rd: int) -> (int, int) {
    (ln * rd + rn * ld, ld * rd)
}

/// The sum can be computed with every intermediate product in range.
pub open spec fn add_ok(ln: int, ld: int, rn: int, rd: int) -> bool {
    in_range(ln * rd) && in_range(rn * ld) && in_range(ld * rd) && in_range(ln * rd + rn * ld)
}

/// Exact difference of `ln / ld` and `rn / rd`.
pub open spec fn sub_pair(ln: int, ld: int, rn: int, rd: int) -> (int, int) {
    (ln * rd - rn * ld, ld * rd)
}

pub open spec fn sub_ok(ln: int, ld: int, rn: int, rd: int) -> bool {
    in_range(ln * rd) && in_range(rn * ld) && in_range(ld * rd) && in_range(ln * rd - rn * ld)
}

/// Exact product of `ln / ld` and `rn / rd`.
pub open spec fn mul_pair(ln: int, ld: int, rn: int, rd: int) -> (int, int) {
    (ln * rn, ld * rd)
}

pub open spec fn mul_ok(ln: int, ld: int, rn: int, rd: int) -> bool {
    in_range(ln * rn) && in_range(ld * rd)
}

/// Exact quotient of `ln / ld` by `rn / rd`, with the sign moved into the
/// numerator so that a positive denominator stays positive.  Meaningful
/// only when `rn != 0`.
pub open spec fn div_pair(ln: int, ld: int, rn: int, rd: int) -> (int, int) {
    if rn > 0 {
        (ln * rd, ld * rn)
    } else {
        (-(ln * rd), -(ld * rn))
    }
}

pub open spec fn div_ok(ln: int, ld: int, rn: int, rd: int) -> bool {
    in_range(ln * rd) && in_range(ld * rn) && (rn < 0 ==> in_range(-(ln * rd)) && in_range(
        -(ld * rn),
    ))
}

impl Rat {
    /// The denominator is positive.
    pub open spec fn wf(self) -> bool {
        self.den > 0
    }

    /// Exact negation, or `None` if the numerator would not fit.
    pub fn checked_neg(self) -> (r: Option<Rat>)
        ensures
            match r {
                Some(q) => neg_ok(self.num as int, self.den as int) && q.num == neg_pair(
                    self.num as int,
                    self.den as int,
                ).0 && q.den == neg_pair(self.num as int, self.den as int).1,
                None => !neg_ok(self.num as int, self.den as int),
            },
            r is Some && self.wf() ==> r->0.wf(),
    {
        if self.num == i128::MIN {
            None
        } else {
            Some(Rat { num: -self.num, den: self.den })
        }
    }

    /// Exact addition, or `None` if an intermediate product would not fit.
    pub fn checked_add(self, other: Rat) -> (r: Option<Rat>)
        ensures
            match r {
                Some(q) => add_ok(
                    self.num as int,
                    self.den as int,
                    other.num as int,
                    other.den as int,
                ) && q.num == add_pair(
                    self.num as int,
                    self.den as int,
                    other.num as int,
                    other.den as int,
                ).0 && q.den == add_pair(
                    self.num as int,
                    self.den as int,
                    other.num as int,
                    other.den as int,
                ).1,
                None => !add_ok(
                    self.num as int,
                    self.den as int,
                    other.num as int,
                    other.den as int,
                ),
            },
            r is Some && self.wf() && other.wf() ==> r->0.wf(),
    {
        proof {
            lemma_pos_den_product(self, other);
        }
        match (self.num.checked_mul(other.den), other.num.checked_mul(self.den), self.den.checked_mul(other.den)) {
            (Some(x), Some(y), Some(d)) => match x.checked_add(y) {
                Some(n) => Some(Rat { num: n, den: d }),
                None => None,
            },
            _ => None,
        }
    }

    /// Exact subtraction, or `None` if an intermediate product would not fit.
    pub fn checked_sub(self, other: Rat) -> (r: Option<Rat>)
        ensures
            match r {
                Some(q) => sub_ok(
                    self.num as int,
                    self.den as int,
                    other.num as int,
                    other.den as int,
                ) && q.num == sub_pair(
                    self.num as int,
                    self.den as int,
                    other.num as int,
                    other.den as int,
                ).0 && q.den == sub_pair(
                    self.num as int,
                    self.den as int,
                    other.num as int,
                    other.den as int,
                ).1,
                None => !sub_ok(
                    self.num as int,
                    self.den as int,
                    other.num as int,
                    other.den as int,
                ),
            },
            r is Some && self.wf() && other.wf() ==> r->0.wf(),
    {
        proof {
            lemma_pos_den_product(self, other);
        }
        match (self.num.checked_mul(other.den), other.num.checked_mul(self.den), self.den.checked_mul(other.den)) {
            (Some(x), Some(y), Some(d)) => match x.checked_sub(y) {
                Some(n) => Some(Rat { num: n, den: d }),
                None => None,
            },
            _ => None,
        }
    }

    /// Exact multiplication, or `None` if a product would not fit.
    pub fn checked_mul(self, other: Rat) -> (r: Option<Rat>)
        ensures
            match r {
                Some(q) => mul_ok(
                    self.num as int,
                    self.den as int,
                    other.num as int,
                    other.den as int,
                ) && q.num == mul_pair(
                    self.num as int,
                    self.den as int,
                    other.num as int,
                    other.den as int,
                ).0 && q.den == mul_pair(
                    self.num as int,
                    self.den as int,
                    other.num as int,
                    other.den as int,
                ).1,
                None => !mul_ok(
                    self.num as int,
                    self.den as int,
                    other.num as int,
                    other.den as int,
                ),
            },
            r is Some && self.wf() && other.wf() ==> r->0.wf(),
    {
        proof {
            lemma_pos_den_product(self, other);
        }
        match (self.num.checked_mul(other.num), self.den.checked_mul(other.den)) {
            (Some(n), Some(d)) => Some(Rat { num: n, den: d }),
            _ => None,
        }
    }

    /// Exact division, or `None` if an intermediate product would not fit.
    /// The divisor must not be zero; the caller tests `other.num` first.
    pub fn checked_div(self, other: Rat) -> (r: Option<Rat>)
        requires
            other.num != 0,
        ensures
            match r {
                Some(q) => div_ok(
                    self.num as int,
                    self.den as int,
                    other.num as int,
                    other.den as int,
                ) && q.num == div_pair(
                    self.num as int,
                    self.den as int,
                    other.num as int,
                    other.den as int,
                ).0 && q.den == div_pair(
                    self.num as int,
                    self.den as int,
                    other.num as int,
                    other.den as int,
                ).1,
                None => !div_ok(
                    self.num as int,
                    self.den as int,
                    other.num as int,
                    other.den as int,
                ),
            },
            r is Some && self.wf() && other.wf() ==> r->0.wf(),
    {
        proof {
            lemma_div_den_sign(self, other);
        }
        match (self.num.checked_mul(other.den), self.den.checked_mul(other.num)) {
            (Some(x), Some(y)) => {
                if other.num > 0 {
                    Some(Rat { num: x, den: y })
                } else {
                    if x == i128::MIN || y == i128::MIN {
                        None
                    } else {
                        Some(Rat { num: -x, den: -y })
                    }
                }
            },
            _ => None,
        }
    }
}

/// The product of two positive denominators is positive.
proof fn lemma_pos_den_product(a: Rat, b: Rat)
    ensures
        a.wf() && b.wf() ==> a.den * b.den > 0,
{
    if a.wf() && b.wf() {
        assert(a.den * b.den > 0) by (nonlinear_arith)
            requires
                a.den > 0,
                b.den > 0,
        ;
    }
}

/// Moving the divisor's sign into the numerator keeps the denominator positive.
proof fn lemma_div_den_sign(a: Rat, b: Rat)
    ensures
        a.wf() && b.num > 0 ==> a.den * b.num > 0,
        a.wf() && b.num < 0 ==> a.den * b.num < 0,
{
    if a.wf() && b.num > 0 {
        assert(a.den * b.num > 0) by (nonlinear_arith)
            requires
                a.den > 0,
                b.num > 0,
        ;
    }
    if a.wf() && b.num < 0 {
        assert(a.den * b.num < 0) by (nonlinear_arith)
            requires
                a.den > 0,
                b.num < 0,
        ;
    }
}

} // verus!
