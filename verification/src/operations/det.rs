//! Determinants.

use crate::element::{lemma_vals_index, MatrixElement};
use crate::matrix::{lemma_grid_index, Matrix};
use crate::matrix::g_col;
use crate::operations::mul::mat_mul;
use crate::operations::mul_vec::mv_prefix;
use crate::operations::reduce::{echelon_ok, echelon_rec};
use crate::rat::{
    eps_eq, lemma_mul_ge_one, lemma_stored_keeps_value, r_ok, radd, rat_int, rat_one, rat_zero,
    rmul, rsub, sabs, same_value, stored, Rat,
};
use crate::Error;
use vstd::prelude::*;

verus! {

broadcast use lemma_vals_index, lemma_grid_index;

/// Product of the first `k` diagonal entries, accumulated left to right
/// from one.
pub open spec fn diag_prod(g: Seq<Seq<Rat>>, k: int) -> Rat
    decreases k,
{
    if k <= 0 {
        rat_one()
    } else {
        rmul(diag_prod(g, k - 1), g[k - 1][k - 1])
    }
}

/// Once a diagonal-product prefix marks an out-of-range result, every
/// longer prefix does too.
pub proof fn lemma_diag_prod_poison(g: Seq<Seq<Rat>>, k: int, n: int)
    requires
        k <= n,
        !r_ok(diag_prod(g, k)),
    ensures
        !r_ok(diag_prod(g, n)),
    decreases n - k,
{
    if k < n {
        lemma_diag_prod_poison(g, k + 1, n);
    }
}

/// The sign a number of row swaps contributes to the determinant.
pub open spec fn det_sign(swaps: int) -> Rat {
    if swaps % 2 == 0 {
        rat_int(1)
    } else {
        rat_int(-1)
    }
}

/// The determinant of a square grid of size `n`, as this crate computes
/// it: the entry itself for size one, the closed form for size two,
/// and, beyond that, the diagonal product of the row echelon form times
/// the sign of the swap count.
pub open spec fn det_val(g: Seq<Seq<Rat>>, n: int) -> Rat {
    if n == 1 {
        g[0][0]
    } else if n == 2 {
        rsub(rmul(g[0][0], g[1][1]), rmul(g[0][1], g[1][0]))
    } else {
        let e = echelon_rec(g, g, 0, 0, 0, n, n);
        rmul(det_sign(e.2), diag_prod(e.0, n))
    }
}

/// Every value formed while computing the determinant stays
/// representable.
pub open spec fn det_ok(g: Seq<Seq<Rat>>, n: int) -> bool {
    if n <= 2 {
        r_ok(det_val(g, n))
    } else {
        echelon_ok(g, g, 0, 0, n, n) && r_ok(det_val(g, n))
    }
}

/// For square grids of size at least three, the determinant equals the
/// product of the diagonal entries of the row echelon form, multiplied
/// by minus one for each row swap the reduction performed.  This is
/// exactly what [`Matrix::det`] returns and what [`Matrix::row_echelon`]
/// produces, so the relation holds of the two operations' results; the
/// sizes one and two, which the determinant special-cases in closed
/// form, are excluded.
pub proof fn lemma_det_matches_row_echelon(g: Seq<Seq<Rat>>, n: int)
    requires
        n >= 3,
    ensures
        det_val(g, n) == rmul(
            det_sign(echelon_rec(g, g, 0, 0, 0, n, n).2),
            diag_prod(echelon_rec(g, g, 0, 0, 0, n, n).0, n),
        ),
{
}

/// For one-by-one matrices, the determinant of a product is, up to the
/// tolerance, the product of the determinants.  For larger sizes the
/// relation is approximate — elimination snaps tolerant zeros to exact
/// zeros — and is checked by tests on concrete matrices instead.
pub proof fn lemma_det_of_product_one_by_one(a: Seq<Seq<Rat>>, b: Seq<Seq<Rat>>)
    requires
        a.len() == 1,
        b.len() == 1,
        r_ok(det_val(mat_mul(a, b, 1), 1)),
        r_ok(rmul(det_val(a, 1), det_val(b, 1))),
    ensures
        eps_eq(det_val(mat_mul(a, b, 1), 1), rmul(det_val(a, 1), det_val(b, 1))),
{
    let p = rmul(a[0][0], b[0][0]);
    assert(mv_prefix(a, g_col(b, 0), 0)[0] == rat_zero());
    assert(mv_prefix(a, g_col(b, 0), 1)[0] == radd(rat_zero(), p));
    assert(det_val(mat_mul(a, b, 1), 1) == radd(rat_zero(), p));
    assert(r_ok(p)) by {
        if !r_ok(p) {
            assert(radd(rat_zero(), p) == crate::rat::rat_poison());
        }
    }
    assert(radd(rat_zero(), p) == stored(Rat { n: 0 * p.d + p.n * 1, d: 1 * p.d }));
    assert(Rat { n: 0 * p.d + p.n * 1, d: 1 * p.d } == Rat { n: p.n, d: p.d });
    assert(radd(rat_zero(), p) == stored(Rat { n: p.n, d: p.d }));
    assert(stored(Rat { n: p.n, d: p.d }) == stored(p));
    lemma_stored_keeps_value(p);
    let s = stored(p);
    assert(same_value(s, p));
    lemma_mul_ge_one(s.d, p.d);
    assert(sabs(s.n * p.d - p.n * s.d) == 0);
    assert(eps_eq(s, p));
}

impl Matrix {
    /// The determinant.  Fails on a non-square matrix, and where an
    /// intermediate value leaves the representable range.
    pub fn det(&self) -> (r: Result<MatrixElement, Error>)
        requires
            self.wf(),
        ensures
            r is Ok <==> self.is_square() && det_ok(self@, self.rows_number as int),
            r matches Ok(d) ==> d@ == det_val(self@, self.rows_number as int) && d.wf(),
            r matches Err(e) ==> if self.is_square() {
                e matches Error::InvalidOperation(_)
            } else {
                e matches Error::ShouldBeSquare(_)
            },
    {
        match self.assert_square("Only square matrices have determinants") {
            Err(e) => {
                return Err(e);
            },
            Ok(()) => {},
        }
        let n = self.rows_number;
        if n == 1 {
            return self.get(0, 0);
        }
        if n == 2 {
            let a = match self.get(0, 0) {
                Ok(e) => e,
                Err(_) => unreached(),
            };
            let b = match self.get(0, 1) {
                Ok(e) => e,
                Err(_) => unreached(),
            };
            let c = match self.get(1, 0) {
                Ok(e) => e,
                Err(_) => unreached(),
            };
            let d = match self.get(1, 1) {
                Ok(e) => e,
                Err(_) => unreached(),
            };
            let ad = match a.mul(d) {
                Some(v) => v,
                None => {
                    return Err(
                        Error::InvalidOperation("Determinant left the representable range"),
                    );
                },
            };
            let bc = match b.mul(c) {
                Some(v) => v,
                None => {
                    return Err(
                        Error::InvalidOperation("Determinant left the representable range"),
                    );
                },
            };
            return match ad.sub(bc) {
                Some(v) => Ok(v),
                None => Err(Error::InvalidOperation("Determinant left the representable range")),
            };
        }
        let (echelon, swap_count) = match self.row_echelon() {
            Ok(v) => v,
            Err(e) => {
                return Err(e);
            },
        };
        let ghost eg = echelon_rec(self@, self@, 0, 0, 0, n as int, n as int);
        let mut d = MatrixElement::one();
        let mut i: usize = 0;
        while i < n
            invariant
                self.wf(),
                echelon.wf(),
                echelon.rows_number == n,
                echelon.cols_number == n,
                n == self.rows_number,
                n == self.cols_number,
                2 < n,
                eg == echelon_rec(self@, self@, 0, 0, 0, n as int, n as int),
                echelon@ == eg.0,
                echelon_ok(self@, self@, 0, 0, n as int, n as int),
                i <= n,
                d.wf(),
                d@ == diag_prod(echelon@, i as int),
            decreases n - i,
        {
            let e = match echelon.get(i, i) {
                Ok(e) => e,
                Err(_) => unreached(),
            };
            d = match d.mul(e) {
                Some(v) => v,
                None => {
                    proof {
                        lemma_diag_prod_poison(echelon@, i + 1 as int, n as int);
                        assert(det_val(self@, n as int) == rmul(
                            det_sign(eg.2),
                            diag_prod(eg.0, n as int),
                        ));
                        assert(!r_ok(det_val(self@, n as int)));
                    }
                    return Err(
                        Error::InvalidOperation("Determinant left the representable range"),
                    );
                },
            };
            i = i + 1;
        }
        let sign = if swap_count % 2 == 0 {
            MatrixElement::from_int(1)
        } else {
            MatrixElement::from_int(-1)
        };
        match sign.mul(d) {
            Some(v) => Ok(v),
            None => Err(Error::InvalidOperation("Determinant left the representable range")),
        }
    }
}

} // verus!
