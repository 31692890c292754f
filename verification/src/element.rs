//! Matrix elements: exact fractions with bounded components.
//!
//! A [`MatrixElement`] stores one value as a fraction of two signed
//! machine integers.  Every operation forms the exact result, divides out
//! the greatest common divisor, and rejects results whose components
//! would exceed [`crate::rat::BOUND`]; the arithmetic itself is exact.
//! Comparisons come in a tolerant family: values closer than
//! `1 / EPS_DEN` count as equal, which is how near-zero entries are
//! recognised during elimination.

use crate::rat::{
    bounded, eps_eq, eps_gt, eps_lt, eps_one, eps_zero, gcd_nn, rabs, radd, rat_int,
    rat_lt, rat_one, rat_poison, rat_zero, rdiv, reduce, rfract, rmul, rneg, rsub, rtrunc, sabs,
    same_value, stored, trunc_q, Rat, lemma_abs_mul_ge_one, lemma_abs_mul_le, lemma_mul_ge_one,
    lemma_reduce_shrinks, lemma_stored_keeps_value, BOUND, EPS_DEN, RAW_BOUND,
};
use std::cmp::Ordering;
use vstd::arithmetic::div_mod::lemma_fundamental_div_mod;
use vstd::prelude::*;

verus! {

/// A matrix element: the exact fraction `num / den`, with `den >= 1`.
#[derive(Debug, Clone, Copy, PartialEq, Eq, Structural)]
pub struct MatrixElement {
    num: i128,
    den: i128,
}

impl View for MatrixElement {
    type V = Rat;

    closed spec fn view(&self) -> Rat {
        Rat { n: self.num as int, d: self.den as int }
    }
}

/// The fractions a sequence of elements stands for.
pub open spec fn vals(v: Seq<MatrixElement>) -> Seq<Rat> {
    Seq::new(v.len(), |i: int| v[i]@)
}

/// Indexing the fractions of a row reads the fraction of its element.
pub broadcast proof fn lemma_vals_index(v: Seq<MatrixElement>, i: int)
    requires
        0 <= i < v.len(),
    ensures
        #![trigger vals(v)[i]]
        #![trigger v[i]@]
        vals(v)[i] == v[i]@,
{
}

/// The fraction a checked operation produced: its result where there is
/// one, [`rat_poison`] where the value left the representable range.
pub open spec fn opt_rat(r: Option<MatrixElement>) -> Rat {
    match r {
        Some(e) => e@,
        None => rat_poison(),
    }
}

/// True where every element of an optional result is well-formed.
pub open spec fn opt_wf(r: Option<MatrixElement>) -> bool {
    match r {
        Some(e) => e.wf(),
        None => true,
    }
}

/// Greatest common divisor of two nonnegative integers.
fn gcd_i128(a0: i128, b0: i128) -> (g: i128)
    requires
        0 <= a0,
        0 <= b0,
    ensures
        g as int == gcd_nn(a0 as int, b0 as int),
        g >= 0,
{
    let mut a = a0;
    let mut b = b0;
    while b > 0
        invariant
            0 <= a,
            0 <= b,
            gcd_nn(a as int, b as int) == gcd_nn(a0 as int, b0 as int),
        decreases b,
    {
        let t = a % b;
        a = b;
        b = t;
    }
    a
}

/// Reduces a raw fraction and stores it where it fits the bound.
fn normalize(n: i128, d: i128) -> (r: Option<MatrixElement>)
    requires
        1 <= d <= RAW_BOUND,
        -RAW_BOUND <= n <= RAW_BOUND,
    ensures
        opt_rat(r) == stored(Rat { n: n as int, d: d as int }),
        opt_wf(r),
        r matches Some(e) ==> same_value(e@, Rat { n: n as int, d: d as int }),
{
    proof {
        lemma_stored_keeps_value(Rat { n: n as int, d: d as int });
    }
    let m: i128 = if n < 0 {
        -n
    } else {
        n
    };
    let g = gcd_i128(m, d);
    let (nn, dd): (i128, i128) = if g >= 1 && m % g == 0 && d % g == 0 {
        let q = m / g;
        let dq = d / g;
        (
            if n < 0 {
                -q
            } else {
                q
            },
            dq,
        )
    } else {
        (n, d)
    };
    proof {
        assert(Rat { n: nn as int, d: dd as int } == reduce(Rat { n: n as int, d: d as int }));
    }
    if -BOUND <= nn && nn <= BOUND && 1 <= dd && dd <= BOUND {
        Some(MatrixElement { num: nn, den: dd })
    } else {
        None
    }
}

impl MatrixElement {
    /// True where the stored fraction is valid and within bounds.
    pub open spec fn wf(&self) -> bool {
        bounded(self@)
    }

    /// Creates a matrix element holding the exact fraction
    /// `num / den`, or `None` where its reduced form exceeds the
    /// representable range.
    pub fn new(num: i64, den: i64) -> (r: Option<Self>)
        requires
            den != 0,
        ensures
            opt_rat(r) == stored(
                if den < 0 {
                    Rat { n: -(num as int), d: -(den as int) }
                } else {
                    Rat { n: num as int, d: den as int }
                },
            ),
            opt_wf(r),
    {
        let (n, d): (i128, i128) = if den < 0 {
            (-(num as i128), -(den as i128))
        } else {
            (num as i128, den as i128)
        };
        normalize(n, d)
    }

    /// Creates a matrix element holding an integer value.
    pub fn from_int(value: i32) -> (r: Self)
        ensures
            r@ == rat_int(value as int),
            r.wf(),
    {
        MatrixElement { num: value as i128, den: 1 }
    }

    /// The element with value `0`.
    pub fn zero() -> (r: Self)
        ensures
            r@ == rat_zero(),
            r.wf(),
    {
        MatrixElement { num: 0, den: 1 }
    }

    /// The element with value `1`.
    pub fn one() -> (r: Self)
        ensures
            r@ == rat_one(),
            r.wf(),
    {
        MatrixElement { num: 1, den: 1 }
    }

    /// The stored numerator and denominator.
    pub(crate) fn parts(&self) -> (r: (i128, i128))
        ensures
            r.0 as int == self@.n,
            r.1 as int == self@.d,
    {
        (self.num, self.den)
    }

    /// Exact sum, or `None` where the result leaves the representable
    /// range.
    pub fn add(self, rhs: Self) -> (r: Option<Self>)
        requires
            self.wf(),
            rhs.wf(),
        ensures
            opt_rat(r) == radd(self@, rhs@),
            opt_wf(r),
            r matches Some(e) ==> same_value(
                e@,
                Rat { n: self@.n * rhs@.d + rhs@.n * self@.d, d: self@.d * rhs@.d },
            ),
    {
        proof {
            lemma_abs_mul_le(self@.n, rhs@.d, BOUND as int, BOUND as int);
            lemma_abs_mul_le(rhs@.n, self@.d, BOUND as int, BOUND as int);
            lemma_abs_mul_le(self@.d, rhs@.d, BOUND as int, BOUND as int);
            lemma_mul_ge_one(self@.d, rhs@.d);
        }
        let n = self.num * rhs.den + rhs.num * self.den;
        let d = self.den * rhs.den;
        normalize(n, d)
    }

    /// Exact difference, or `None` where the result leaves the
    /// representable range.
    pub fn sub(self, rhs: Self) -> (r: Option<Self>)
        requires
            self.wf(),
            rhs.wf(),
        ensures
            opt_rat(r) == rsub(self@, rhs@),
            opt_wf(r),
            r matches Some(e) ==> same_value(
                e@,
                Rat { n: self@.n * rhs@.d - rhs@.n * self@.d, d: self@.d * rhs@.d },
            ),
    {
        proof {
            lemma_abs_mul_le(self@.n, rhs@.d, BOUND as int, BOUND as int);
            lemma_abs_mul_le(rhs@.n, self@.d, BOUND as int, BOUND as int);
            lemma_abs_mul_le(self@.d, rhs@.d, BOUND as int, BOUND as int);
            lemma_mul_ge_one(self@.d, rhs@.d);
        }
        let n = self.num * rhs.den - rhs.num * self.den;
        let d = self.den * rhs.den;
        normalize(n, d)
    }

    /// Exact product, or `None` where the result leaves the representable
    /// range.
    pub fn mul(self, rhs: Self) -> (r: Option<Self>)
        requires
            self.wf(),
            rhs.wf(),
        ensures
            opt_rat(r) == rmul(self@, rhs@),
            opt_wf(r),
            r matches Some(e) ==> same_value(
                e@,
                Rat { n: self@.n * rhs@.n, d: self@.d * rhs@.d },
            ),
    {
        proof {
            lemma_abs_mul_le(self@.n, rhs@.n, BOUND as int, BOUND as int);
            lemma_abs_mul_le(self@.d, rhs@.d, BOUND as int, BOUND as int);
            lemma_mul_ge_one(self@.d, rhs@.d);
        }
        let n = self.num * rhs.num;
        let d = self.den * rhs.den;
        normalize(n, d)
    }

    /// Exact quotient, or `None` where the result leaves the
    /// representable range.  The divisor must not be a tolerant zero.
    pub fn div(self, rhs: Self) -> (r: Option<Self>)
        requires
            self.wf(),
            rhs.wf(),
            !eps_zero(rhs@),
        ensures
            opt_rat(r) == rdiv(self@, rhs@),
            opt_wf(r),
            r matches Some(e) ==> e@.n * (self@.d * rhs@.n) == (self@.n * rhs@.d) * e@.d,
    {
        proof {
            lemma_abs_mul_le(self@.n, rhs@.d, BOUND as int, BOUND as int);
            lemma_abs_mul_le(self@.d, rhs@.n, BOUND as int, BOUND as int);
            if rhs@.n == 0 {
                assert(sabs(rhs@.n * 1 - 0 * rhs@.d) * (EPS_DEN as int) == 0);
                assert(eps_zero(rhs@));
            }
            lemma_abs_mul_ge_one(self@.d, rhs@.n);
        }
        let nn = self.num * rhs.den;
        let dd = self.den * rhs.num;
        if dd < 0 {
            let r = normalize(-nn, -dd);
            proof {
                match r {
                    Some(e) => {
                        assert(e@.n * (dd as int) == (nn as int) * e@.d) by (nonlinear_arith)
                            requires
                                e@.n * (-(dd as int)) == (-(nn as int)) * e@.d,
                        ;
                    },
                    None => {},
                }
            }
            r
        } else {
            normalize(nn, dd)
        }
    }

    /// Negation; exact and always representable.
    pub fn negate(&self) -> (r: Self)
        requires
            self.wf(),
        ensures
            r@ == rneg(self@),
            r.wf(),
    {
        MatrixElement { num: -self.num, den: self.den }
    }

    /// Absolute value; exact and always representable.
    pub fn abs(&self) -> (r: Self)
        requires
            self.wf(),
        ensures
            r@ == rabs(self@),
            r.wf(),
    {
        if self.num < 0 {
            MatrixElement { num: -self.num, den: self.den }
        } else {
            *self
        }
    }

    /// Reciprocal; exact and always representable.  The element must not
    /// be a tolerant zero.
    pub fn inverse(&self) -> (r: Self)
        requires
            self.wf(),
            !eps_zero(self@),
        ensures
            r@ == rdiv(rat_one(), self@),
            r.wf(),
    {
        let r = Self::one().div(*self);
        proof {
            let v = rdiv(rat_one(), self@);
            if self@.n < 0 {
                lemma_reduce_shrinks(Rat { n: -self@.d, d: -self@.n });
            } else {
                lemma_reduce_shrinks(Rat { n: self@.d, d: self@.n });
            }
            assert(bounded(v));
        }
        match r {
            Some(e) => e,
            None => unreached(),
        }
    }

    /// Integer part, truncated toward zero.
    pub fn trunc(&self) -> (r: Self)
        requires
            self.wf(),
        ensures
            r@ == rtrunc(self@),
            r.wf(),
    {
        let t: i128 = if self.num >= 0 {
            self.num / self.den
        } else {
            -((-self.num) / self.den)
        };
        proof {
            lemma_fundamental_div_mod(sabs(self@.n), self@.d);
            let q = sabs(self@.n) / self@.d;
            assert(0 <= q <= sabs(self@.n)) by (nonlinear_arith)
                requires
                    sabs(self@.n) == self@.d * q + sabs(self@.n) % self@.d,
                    0 <= sabs(self@.n) % self@.d,
                    self@.d >= 1,
                    sabs(self@.n) >= 0,
            ;
        }
        MatrixElement { num: t, den: 1 }
    }

    /// Fractional part: what truncation removes.
    pub fn fract(&self) -> (r: Self)
        requires
            self.wf(),
        ensures
            r@ == rfract(self@),
            r.wf(),
    {
        let t = self.trunc();
        proof {
            lemma_fundamental_div_mod(sabs(self@.n), self@.d);
            let q = sabs(self@.n) / self@.d;
            assert(0 <= q * self@.d <= sabs(self@.n)) by (nonlinear_arith)
                requires
                    sabs(self@.n) == self@.d * q + sabs(self@.n) % self@.d,
                    0 <= sabs(self@.n) % self@.d,
                    self@.d >= 1,
            ;
            assert((-q) * self@.d == -(q * self@.d)) by (nonlinear_arith);
            assert(trunc_q(self@) * self@.d == if self@.n < 0 {
                -(q * self@.d)
            } else {
                q * self@.d
            });
        }
        MatrixElement { num: self.num - t.num * self.den, den: self.den }
    }

    /// Tolerant equality: true where the two values differ by less than
    /// the tolerance.
    pub fn epsilon_equals(&self, other: &Self) -> (r: bool)
        requires
            self.wf(),
            other.wf(),
        ensures
            r == eps_eq(self@, other@),
    {
        proof {
            lemma_abs_mul_le(self@.n, other@.d, BOUND as int, BOUND as int);
            lemma_abs_mul_le(other@.n, self@.d, BOUND as int, BOUND as int);
            lemma_abs_mul_le(self@.d, other@.d, BOUND as int, BOUND as int);
        }
        let cross = self.num * other.den - other.num * self.den;
        let c: i128 = if cross < 0 {
            -cross
        } else {
            cross
        };
        c * EPS_DEN < self.den * other.den
    }

    /// Tolerant zero test.
    pub fn is_zero(&self) -> (r: bool)
        requires
            self.wf(),
        ensures
            r == eps_zero(self@),
    {
        self.epsilon_equals(&Self::zero())
    }

    /// Tolerant one test.
    pub fn is_one(&self) -> (r: bool)
        requires
            self.wf(),
        ensures
            r == eps_one(self@),
    {
        self.epsilon_equals(&Self::one())
    }

    /// True where the fractional part is a tolerant zero.
    pub fn is_integer(&self) -> (r: bool)
        requires
            self.wf(),
        ensures
            r == eps_zero(rfract(self@)),
    {
        self.fract().is_zero()
    }

    /// True where the value is not an integer under the tolerance.
    pub fn is_float(&self) -> (r: bool)
        requires
            self.wf(),
        ensures
            r == !eps_zero(rfract(self@)),
    {
        !self.is_integer()
    }

    /// Exact sign test: strictly positive.
    pub fn is_positive(&self) -> (r: bool)
        requires
            self.wf(),
        ensures
            r == (self@.n > 0),
    {
        self.num > 0
    }

    /// Exact sign test: strictly negative.
    pub fn is_negative(&self) -> (r: bool)
        requires
            self.wf(),
        ensures
            r == (self@.n < 0),
    {
        self.num < 0
    }

    /// Tolerant three-way comparison: equal within the tolerance, else
    /// ordered exactly.
    pub fn epsilon_cmp(&self, other: &Self) -> (r: Ordering)
        requires
            self.wf(),
            other.wf(),
        ensures
            r == eps_cmp(self@, other@),
    {
        if self.epsilon_equals(other) {
            Ordering::Equal
        } else {
            proof {
                lemma_abs_mul_le(self@.n, other@.d, BOUND as int, BOUND as int);
                lemma_abs_mul_le(other@.n, self@.d, BOUND as int, BOUND as int);
            }
            if self.num * other.den < other.num * self.den {
                Ordering::Less
            } else {
                Ordering::Greater
            }
        }
    }

    /// Tolerant strict order: below by at least the tolerance.
    pub fn epsilon_lt(&self, other: &Self) -> (r: bool)
        requires
            self.wf(),
            other.wf(),
        ensures
            r == eps_lt(self@, other@),
    {
        matches!(self.epsilon_cmp(other), Ordering::Less)
    }

    /// Tolerant order: below, or equal within the tolerance.
    pub fn epsilon_le(&self, other: &Self) -> (r: bool)
        requires
            self.wf(),
            other.wf(),
        ensures
            r == (eps_lt(self@, other@) || eps_eq(self@, other@)),
    {
        matches!(self.epsilon_cmp(other), Ordering::Less | Ordering::Equal)
    }

    /// Tolerant strict order: above by at least the tolerance.
    pub fn epsilon_gt(&self, other: &Self) -> (r: bool)
        requires
            self.wf(),
            other.wf(),
        ensures
            r == eps_gt(self@, other@),
    {
        matches!(self.epsilon_cmp(other), Ordering::Greater)
    }

    /// Tolerant order: above, or equal within the tolerance.
    pub fn epsilon_ge(&self, other: &Self) -> (r: bool)
        requires
            self.wf(),
            other.wf(),
        ensures
            r == (eps_gt(self@, other@) || eps_eq(self@, other@)),
    {
        matches!(self.epsilon_cmp(other), Ordering::Greater | Ordering::Equal)
    }
}

/// Tolerant three-way comparison of two fractions.
pub open spec fn eps_cmp(a: Rat, b: Rat) -> Ordering {
    if eps_eq(a, b) {
        Ordering::Equal
    } else if rat_lt(a, b) {
        Ordering::Less
    } else {
        Ordering::Greater
    }
}

} // verus!
