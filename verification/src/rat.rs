//! The mathematical model of matrix elements: exact fractions.
//!
//! A [`Rat`] is a ghost fraction `n / d`.  Valid fractions have `d >= 1`;
//! the special value with `d == 0` ([`rat_poison`]) marks a computation
//! whose result left the representable range, and every operation
//! propagates it.  Executable arithmetic on
//! [`crate::element::MatrixElement`] is specified against the functions in
//! this module: each operation forms the exact fraction, divides out the
//! greatest common divisor, and checks the result against [`BOUND`].

use vstd::arithmetic::div_mod::lemma_fundamental_div_mod;
use vstd::prelude::*;

verus! {

/// Largest magnitude allowed for a stored numerator or denominator.
pub const BOUND: i128 = 1_000_000_000_000_000;

/// Largest magnitude an unreduced intermediate fraction may reach: the
/// product of two values bounded by [`BOUND`], doubled for one addition.
pub const RAW_BOUND: i128 = 2_000_000_000_000_000_000_000_000_000_000;

/// Denominator of the comparison tolerance: two fractions closer than
/// `1 / EPS_DEN` count as equal.
pub const EPS_DEN: i128 = 10_000_000;

/// A fraction `n / d`.  Valid values keep `d >= 1`.
pub ghost struct Rat {
    /// Numerator.
    pub n: int,
    /// Denominator; `0` marks an out-of-range result.
    pub d: int,
}

/// Magnitude of an integer.
pub open spec fn sabs(i: int) -> int {
    if i < 0 {
        -i
    } else {
        i
    }
}

/// True of fractions that stand for a value; false of [`rat_poison`].
pub open spec fn r_ok(a: Rat) -> bool {
    a.d >= 1
}

/// The marker for a result outside the representable range.
pub open spec fn rat_poison() -> Rat {
    Rat { n: 0, d: 0 }
}

/// The fraction `0 / 1`.
pub open spec fn rat_zero() -> Rat {
    Rat { n: 0, d: 1 }
}

/// The fraction `1 / 1`.
pub open spec fn rat_one() -> Rat {
    Rat { n: 1, d: 1 }
}

/// The fraction `i / 1`.
pub open spec fn rat_int(i: int) -> Rat {
    Rat { n: i, d: 1 }
}

/// Greatest common divisor by Euclid's rule, on nonnegative arguments.
pub open spec fn gcd_nn(a: int, b: int) -> int
    decreases b,
{
    if b <= 0 {
        a
    } else {
        gcd_nn(b, a % b)
    }
}

/// Divides numerator and denominator by their greatest common divisor,
/// where that division is exact; otherwise returns the fraction unchanged.
pub open spec fn reduce(v: Rat) -> Rat {
    let m = sabs(v.n);
    let g = gcd_nn(m, v.d);
    if g >= 1 && m % g == 0 && v.d % g == 0 {
        Rat { n: if v.n < 0 { -(m / g) } else { m / g }, d: v.d / g }
    } else {
        v
    }
}

/// True where both components lie within [`BOUND`] and the denominator is
/// positive.
pub open spec fn bounded(v: Rat) -> bool {
    &&& 1 <= v.d <= BOUND
    &&& -BOUND <= v.n <= BOUND
}

/// Keeps a bounded fraction, and turns any other into [`rat_poison`].
pub open spec fn capped(v: Rat) -> Rat {
    if bounded(v) {
        v
    } else {
        rat_poison()
    }
}

/// The stored form of an exact fraction: reduced, then checked against the
/// bound.
pub open spec fn stored(v: Rat) -> Rat {
    capped(reduce(v))
}

/// Exact sum.
pub open spec fn radd(a: Rat, b: Rat) -> Rat {
    if r_ok(a) && r_ok(b) {
        stored(Rat { n: a.n * b.d + b.n * a.d, d: a.d * b.d })
    } else {
        rat_poison()
    }
}

/// Exact difference.
pub open spec fn rsub(a: Rat, b: Rat) -> Rat {
    if r_ok(a) && r_ok(b) {
        stored(Rat { n: a.n * b.d - b.n * a.d, d: a.d * b.d })
    } else {
        rat_poison()
    }
}

/// Exact product.
pub open spec fn rmul(a: Rat, b: Rat) -> Rat {
    if r_ok(a) && r_ok(b) {
        stored(Rat { n: a.n * b.n, d: a.d * b.d })
    } else {
        rat_poison()
    }
}

/// Exact quotient; the divisor must not be the zero fraction.
pub open spec fn rdiv(a: Rat, b: Rat) -> Rat {
    if r_ok(a) && r_ok(b) && b.n != 0 {
        let nn = a.n * b.d;
        let dd = a.d * b.n;
        if dd < 0 {
            stored(Rat { n: -nn, d: -dd })
        } else {
            stored(Rat { n: nn, d: dd })
        }
    } else {
        rat_poison()
    }
}

/// Exact negation; bounded inputs stay bounded, so nothing is reduced.
pub open spec fn rneg(a: Rat) -> Rat {
    if r_ok(a) {
        Rat { n: -a.n, d: a.d }
    } else {
        rat_poison()
    }
}

/// Exact magnitude.
pub open spec fn rabs(a: Rat) -> Rat {
    if r_ok(a) {
        Rat { n: sabs(a.n), d: a.d }
    } else {
        rat_poison()
    }
}

/// Tolerant equality: `|a - b| < 1 / EPS_DEN`.  False whenever either side
/// is [`rat_poison`].
pub open spec fn eps_eq(a: Rat, b: Rat) -> bool {
    sabs(a.n * b.d - b.n * a.d) * (EPS_DEN as int) < a.d * b.d
}

/// Tolerant zero test.
pub open spec fn eps_zero(a: Rat) -> bool {
    eps_eq(a, rat_zero())
}

/// Tolerant one test.
pub open spec fn eps_one(a: Rat) -> bool {
    eps_eq(a, rat_one())
}

/// Exact order on valid fractions.
pub open spec fn rat_lt(a: Rat, b: Rat) -> bool {
    a.n * b.d < b.n * a.d
}

/// Tolerant strict order: apart by at least the tolerance, and below.
pub open spec fn eps_lt(a: Rat, b: Rat) -> bool {
    !eps_eq(a, b) && rat_lt(a, b)
}

/// Tolerant strict order, above.
pub open spec fn eps_gt(a: Rat, b: Rat) -> bool {
    !eps_eq(a, b) && !rat_lt(a, b)
}

/// Integer part of a valid fraction, truncated toward zero.
pub open spec fn trunc_q(v: Rat) -> int {
    if v.n >= 0 {
        v.n / v.d
    } else {
        -((-v.n) / v.d)
    }
}

/// Integer part of a fraction, as a fraction.
pub open spec fn rtrunc(v: Rat) -> Rat {
    if r_ok(v) {
        Rat { n: trunc_q(v), d: 1 }
    } else {
        rat_poison()
    }
}

/// Fractional part of a fraction: what truncation removes.
pub open spec fn rfract(v: Rat) -> Rat {
    if r_ok(v) {
        Rat { n: v.n - trunc_q(v) * v.d, d: v.d }
    } else {
        rat_poison()
    }
}

/// Writing a value: tolerant zeros are stored as the exact zero.
pub open spec fn snap(v: Rat) -> Rat {
    if r_ok(v) && eps_zero(v) {
        rat_zero()
    } else {
        v
    }
}

/// Two fractions stand for the same value exactly when their cross
/// products agree.
pub open spec fn same_value(a: Rat, b: Rat) -> bool {
    a.n * b.d == b.n * a.d
}

/// Reduction, and the bound check after it, never change a fraction's
/// value: a stored result is either the same value or the out-of-range
/// marker.
pub proof fn lemma_stored_keeps_value(v: Rat)
    requires
        r_ok(v),
    ensures
        r_ok(stored(v)) ==> same_value(stored(v), v),
{
    let m = sabs(v.n);
    let g = gcd_nn(m, v.d);
    if g >= 1 && m % g == 0 && v.d % g == 0 {
        let q = m / g;
        let dq = v.d / g;
        lemma_fundamental_div_mod(m, g);
        lemma_fundamental_div_mod(v.d, g);
        assert(q * v.d == m * dq) by (nonlinear_arith)
            requires
                m == g * q,
                v.d == g * dq,
        ;
        assert((-q) * v.d == (-m) * dq) by (nonlinear_arith)
            requires
                q * v.d == m * dq,
        ;
    }
}

/// Bounds of a product follow bounds of its factors.
pub proof fn lemma_abs_mul_le(a: int, b: int, aa: int, bb: int)
    by (nonlinear_arith)
    requires
        sabs(a) <= aa,
        sabs(b) <= bb,
    ensures
        sabs(a * b) <= aa * bb,
{
}

/// A product of integers of magnitude at least one keeps magnitude at
/// least one.
pub proof fn lemma_abs_mul_ge_one(a: int, b: int)
    by (nonlinear_arith)
    requires
        sabs(a) >= 1,
        sabs(b) >= 1,
    ensures
        sabs(a * b) >= 1,
{
}

/// A product of two integers at least one is at least one.
pub proof fn lemma_mul_ge_one(a: int, b: int)
    by (nonlinear_arith)
    requires
        a >= 1,
        b >= 1,
    ensures
        a * b >= 1,
{
}

/// Reducing a valid fraction keeps it valid and never grows a component.
pub proof fn lemma_reduce_shrinks(v: Rat)
    requires
        r_ok(v),
    ensures
        r_ok(reduce(v)),
        sabs(reduce(v).n) <= sabs(v.n),
        reduce(v).d <= v.d,
{
    let m = sabs(v.n);
    let g = gcd_nn(m, v.d);
    if g >= 1 && m % g == 0 && v.d % g == 0 {
        let q = m / g;
        let dq = v.d / g;
        lemma_fundamental_div_mod(m, g);
        lemma_fundamental_div_mod(v.d, g);
        assert(m == g * q);
        assert(v.d == g * dq);
        assert(q >= 0 && q <= m) by (nonlinear_arith)
            requires
                m == g * q,
                g >= 1,
                m >= 0,
        ;
        assert(dq >= 1 && dq <= v.d) by (nonlinear_arith)
            requires
                v.d == g * dq,
                g >= 1,
                v.d >= 1,
        ;
    }
}

} // verus!
