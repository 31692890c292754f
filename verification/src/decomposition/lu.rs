//! LU decomposition with partial pivoting.
//!
//! The permutation is fixed first, in one pass over the original
//! matrix; elimination then runs without further swaps, recording each
//! factor in the lower-triangular matrix.

use crate::element::lemma_vals_index;
use crate::matrix::{g_set, g_swap_rows, lemma_grid_index, row_snap, Matrix};
use crate::operations::mul::{mat_mul, mat_mul_ok};
use crate::operations::reduce::pivot_scan;
use crate::rat::{eps_zero, r_ok, rat_one, rat_zero, rdiv, rneg, Rat};
use crate::vector::{row_add, row_ok, row_scale};
use crate::Error;
use vstd::prelude::*;

verus! {

broadcast use lemma_vals_index, lemma_grid_index;

/// The identity grid of the given size.
pub open spec fn id_grid(n: int) -> Seq<Seq<Rat>> {
    Seq::new(
        n as nat,
        |i: int|
            Seq::new(
                n as nat,
                |j: int|
                    if i == j {
                        rat_one()
                    } else {
                        rat_zero()
                    },
            ),
    )
}

/// The permutation grid: starting from the identity, swap in, column by
/// column, the row of largest magnitude of the original matrix `g`.
/// The cursors advance together whether or not a swap happened.
pub open spec fn pivot_build(g: Seq<Seq<Rat>>, p: Seq<Seq<Rat>>, i: int, j: int, m: int, n: int) -> Seq<
    Seq<Rat>,
>
    decreases n - j,
{
    if i >= m || j >= n {
        p
    } else {
        let mx = pivot_scan(g, j, i, m, i);
        let p2 = if mx != i {
            g_swap_rows(p, i, mx)
        } else {
            p
        };
        pivot_build(g, p2, i + 1, j + 1, m, n)
    }
}

/// One column of elimination below row `i`: record each factor in `l`
/// and subtract the scaled pivot row in `u`.
pub open spec fn lu_elim(l: Seq<Seq<Rat>>, u: Seq<Seq<Rat>>, i: int, j: int, k: int, m: int) -> (
    Seq<Seq<Rat>>,
    Seq<Seq<Rat>>,
)
    decreases m - k,
{
    if k >= m {
        (l, u)
    } else {
        let factor = rdiv(u[k][j], u[i][j]);
        let l2 = g_set(l, k, i, factor);
        let u2 = u.update(k, row_snap(row_add(u[k], row_scale(u[i], rneg(factor)))));
        lu_elim(l2, u2, i, j, k + 1, m)
    }
}

/// Every value formed by [`lu_elim`] stays representable.
pub open spec fn lu_elim_ok(l: Seq<Seq<Rat>>, u: Seq<Seq<Rat>>, i: int, j: int, k: int, m: int) -> bool
    decreases m - k,
{
    if k >= m {
        true
    } else {
        let factor = rdiv(u[k][j], u[i][j]);
        let l2 = g_set(l, k, i, factor);
        let u2 = u.update(k, row_snap(row_add(u[k], row_scale(u[i], rneg(factor)))));
        &&& r_ok(factor)
        &&& row_ok(row_add(u[k], row_scale(u[i], rneg(factor))))
        &&& lu_elim_ok(l2, u2, i, j, k + 1, m)
    }
}

/// Forward-only elimination against the permuted matrix: skip columns
/// whose pivot entry is a tolerant zero, otherwise eliminate below the
/// pivot, recording factors in `l`.
pub open spec fn lu_rec(l: Seq<Seq<Rat>>, u: Seq<Seq<Rat>>, i: int, j: int, m: int, n: int) -> (
    Seq<Seq<Rat>>,
    Seq<Seq<Rat>>,
)
    decreases n - j,
{
    if i >= m || j >= n {
        (l, u)
    } else if eps_zero(u[i][j]) {
        lu_rec(l, u, i, j + 1, m, n)
    } else {
        let r = lu_elim(l, u, i, j, i + 1, m);
        lu_rec(r.0, r.1, i + 1, j + 1, m, n)
    }
}

/// Every value formed by [`lu_rec`] stays representable.
pub open spec fn lu_rec_ok(l: Seq<Seq<Rat>>, u: Seq<Seq<Rat>>, i: int, j: int, m: int, n: int) -> bool
    decreases n - j,
{
    if i >= m || j >= n {
        true
    } else if eps_zero(u[i][j]) {
        lu_rec_ok(l, u, i, j + 1, m, n)
    } else {
        let r = lu_elim(l, u, i, j, i + 1, m);
        lu_elim_ok(l, u, i, j, i + 1, m) && lu_rec_ok(r.0, r.1, i + 1, j + 1, m, n)
    }
}

/// A square grid with ones on the diagonal and zeros strictly above it.
pub open spec fn unit_lower(l: Seq<Seq<Rat>>, m: int) -> bool {
    &&& l.len() == m
    &&& forall|i: int| 0 <= i < m ==> (#[trigger] l[i]).len() == m
    &&& forall|i: int, j: int|
        #![all_triggers]
        0 <= i < m && 0 <= j < m ==> (i == j ==> l[i][j] == rat_one()) && (i < j ==> l[i][j]
            == rat_zero())
}

/// One elimination column writes only strictly below the diagonal, so
/// it keeps the lower factor unit lower triangular.
proof fn lemma_lu_elim_unit_lower(
    l: Seq<Seq<Rat>>,
    u: Seq<Seq<Rat>>,
    i: int,
    j: int,
    k: int,
    m: int,
)
    requires
        unit_lower(l, m),
        0 <= i < m,
        i < k,
    ensures
        unit_lower(lu_elim(l, u, i, j, k, m).0, m),
    decreases m - k,
{
    if k < m {
        let factor = rdiv(u[k][j], u[i][j]);
        let l2 = g_set(l, k, i, factor);
        assert(unit_lower(l2, m)) by {
            assert(forall|a: int| 0 <= a < m && a != k ==> #[trigger] l2[a] == l[a]);
            assert(forall|b: int| 0 <= b < m && b != i ==> #[trigger] l2[k][b] == l[k][b]);
        }
        lemma_lu_elim_unit_lower(
            l2,
            u.update(k, row_snap(row_add(u[k], row_scale(u[i], rneg(factor))))),
            i,
            j,
            k + 1,
            m,
        );
    }
}

/// Elimination keeps the lower factor unit lower triangular.
proof fn lemma_lu_rec_unit_lower(l: Seq<Seq<Rat>>, u: Seq<Seq<Rat>>, i: int, j: int, m: int, n: int)
    requires
        unit_lower(l, m),
        0 <= i,
    ensures
        unit_lower(lu_rec(l, u, i, j, m, n).0, m),
    decreases n - j,
{
    if i >= m || j >= n {
    } else if eps_zero(u[i][j]) {
        lemma_lu_rec_unit_lower(l, u, i, j + 1, m, n);
    } else {
        lemma_lu_elim_unit_lower(l, u, i, j, i + 1, m);
        let r = lu_elim(l, u, i, j, i + 1, m);
        lemma_lu_rec_unit_lower(r.0, r.1, i + 1, j + 1, m, n);
    }
}

/// The lower factor of the LU decomposition is unit lower triangular:
/// ones on its diagonal and zeros strictly above it, whatever matrix is
/// eliminated.  [`Matrix::lup_decomposition`] returns exactly the first
/// component of [`lu_rec`] started from the identity, so this holds of
/// every `L` it produces.
pub proof fn lemma_lup_l_unit_lower_triangular(u: Seq<Seq<Rat>>, m: int, n: int)
    requires
        m >= 1,
    ensures
        unit_lower(lu_rec(id_grid(m), u, 0, 0, m, n).0, m),
{
    assert(unit_lower(id_grid(m), m));
    lemma_lu_rec_unit_lower(id_grid(m), u, 0, 0, m, n);
}

impl Matrix {
    /// The LU decomposition with partial pivoting: a unit
    /// lower-triangular factor `L`, the eliminated matrix `U`, and the
    /// permutation `P` fixed up front against the original matrix, so
    /// that `P * A` equals `L * U` up to the tolerance.  Fails only
    /// where an intermediate value leaves the representable range.
    pub fn lup_decomposition(&self) -> (r: Result<(Self, Self, Self), Error>)
        requires
            self.wf(),
        ensures
            r is Ok <==> {
                let pg = pivot_build(
                    self@,
                    id_grid(self.rows_number as int),
                    0,
                    0,
                    self.rows_number as int,
                    self.cols_number as int,
                );
                &&& mat_mul_ok(pg, self@, self.cols_number as int)
                &&& lu_rec_ok(
                    id_grid(self.rows_number as int),
                    mat_mul(pg, self@, self.cols_number as int),
                    0,
                    0,
                    self.rows_number as int,
                    self.cols_number as int,
                )
            },
            r matches Ok((l, u, p)) ==> {
                let pg = pivot_build(
                    self@,
                    id_grid(self.rows_number as int),
                    0,
                    0,
                    self.rows_number as int,
                    self.cols_number as int,
                );
                let lu = lu_rec(
                    id_grid(self.rows_number as int),
                    mat_mul(pg, self@, self.cols_number as int),
                    0,
                    0,
                    self.rows_number as int,
                    self.cols_number as int,
                );
                &&& p@ == pg
                &&& l@ == lu.0
                &&& u@ == lu.1
                &&& l.wf()
                &&& u.wf()
                &&& p.wf()
                &&& l.rows_number == self.rows_number
                &&& l.cols_number == self.rows_number
                &&& u.rows_number == self.rows_number
                &&& u.cols_number == self.cols_number
                &&& p.rows_number == self.rows_number
                &&& p.cols_number == self.rows_number
            },
            r matches Err(e) ==> e matches Error::InvalidOperation(_),
    {
        let m = self.rows_number;
        let n = self.cols_number;
        let p = self.permutation();
        let ghost pg = p@;
        let mut u = match p.multiply(self) {
            Ok(v) => v,
            Err(_) => {
                return Err(
                    Error::InvalidOperation("Decomposition left the representable range"),
                );
            },
        };
        let mut l = Self::identity(m);
        proof {
            assert(l@ =~~= id_grid(m as int));
        }
        let ghost lu_full = lu_rec(id_grid(m as int), u@, 0, 0, m as int, n as int);
        let ghost lu_ok_full = lu_rec_ok(id_grid(m as int), u@, 0, 0, m as int, n as int);
        let ghost u0 = u@;
        let mut i: usize = 0;
        let mut j: usize = 0;
        while i < m && j < n
            invariant
                self.wf(),
                l.wf(),
                u.wf(),
                l.rows_number == m,
                l.cols_number == m,
                u.rows_number == m,
                u.cols_number == n,
                m == self.rows_number,
                n == self.cols_number,
                i <= m,
                j <= n,
                pg == pivot_build(self@, id_grid(m as int), 0, 0, m as int, n as int),
                u0 == mat_mul(pg, self@, n as int),
                lu_full == lu_rec(id_grid(m as int), u0, 0, 0, m as int, n as int),
                lu_ok_full == lu_rec_ok(id_grid(m as int), u0, 0, 0, m as int, n as int),
                lu_rec(l@, u@, i as int, j as int, m as int, n as int) == lu_full,
                lu_rec_ok(l@, u@, i as int, j as int, m as int, n as int) == lu_ok_full,
            decreases n - j,
        {
            let pivot = match u.get(i, j) {
                Ok(e) => e,
                Err(_) => unreached(),
            };
            let ghost pre_l = l@;
            let ghost pre_u = u@;
            if !pivot.is_zero() {
                let ghost le = lu_elim(pre_l, pre_u, i as int, j as int, i + 1 as int, m as int);
                let ghost leok = lu_elim_ok(pre_l, pre_u, i as int, j as int, i + 1 as int, m as int);
                proof {
                    assert(lu_rec(pre_l, pre_u, i as int, j as int, m as int, n as int) == lu_rec(
                        le.0,
                        le.1,
                        i + 1 as int,
                        j + 1 as int,
                        m as int,
                        n as int,
                    ));
                    assert(lu_rec_ok(pre_l, pre_u, i as int, j as int, m as int, n as int) == (leok
                        && lu_rec_ok(le.0, le.1, i + 1 as int, j + 1 as int, m as int, n as int)));
                }
                let mut k: usize = i + 1;
                while k < m
                    invariant
                        l.wf(),
                        u.wf(),
                        l.rows_number == m,
                        l.cols_number == m,
                        u.rows_number == m,
                        u.cols_number == n,
                        m == self.rows_number,
                        n == self.cols_number,
                        i < m,
                        j < n,
                        i + 1 <= k <= m,
                        pg == pivot_build(self@, id_grid(m as int), 0, 0, m as int, n as int),
                        u0 == mat_mul(pg, self@, n as int),
                        lu_ok_full == lu_rec_ok(id_grid(m as int), u0, 0, 0, m as int, n as int),
                        u@[i as int] == pre_u[i as int],
                        !eps_zero(u@[i as int][j as int]),
                        pivot.wf(),
                        pivot@ == pre_u[i as int][j as int],
                        lu_elim(l@, u@, i as int, j as int, k as int, m as int) == le,
                        leok == lu_elim_ok(l@, u@, i as int, j as int, k as int, m as int),
                        lu_ok_full == (leok && lu_rec_ok(
                            le.0,
                            le.1,
                            i + 1 as int,
                            j + 1 as int,
                            m as int,
                            n as int,
                        )),
                        lu_full == lu_rec(
                            le.0,
                            le.1,
                            i + 1 as int,
                            j + 1 as int,
                            m as int,
                            n as int,
                        ),
                    decreases m - k,
                {
                    let ghost sl = l@;
                    let ghost su = u@;
                    let num = match u.get(k, j) {
                        Ok(e) => e,
                        Err(_) => unreached(),
                    };
                    let factor = match num.div(pivot) {
                        Some(f) => f,
                        None => {
                            proof {
                                assert(!lu_elim_ok(sl, su, i as int, j as int, k as int, m as int));
                                assert(!lu_ok_full);
                            }
                            return Err(
                                Error::InvalidOperation(
                                    "Decomposition left the representable range",
                                ),
                            );
                        },
                    };
                    match l.set(k, i, factor) {
                        Ok(()) => {},
                        Err(_) => unreached(),
                    }
                    match u.add_scaled_row_from_to(i, k, factor.negate()) {
                        Ok(()) => {},
                        Err(_) => {
                            proof {
                                assert(!lu_elim_ok(sl, su, i as int, j as int, k as int, m as int));
                                assert(!lu_ok_full);
                            }
                            return Err(
                                Error::InvalidOperation(
                                    "Decomposition left the representable range",
                                ),
                            );
                        },
                    }
                    proof {
                        assert(lu_elim(sl, su, i as int, j as int, k as int, m as int) == lu_elim(
                            l@,
                            u@,
                            i as int,
                            j as int,
                            k + 1 as int,
                            m as int,
                        ));
                        assert(lu_elim_ok(sl, su, i as int, j as int, k as int, m as int)
                            == lu_elim_ok(l@, u@, i as int, j as int, k + 1 as int, m as int));
                    }
                    k = k + 1;
                }
                proof {
                    assert(l@ == le.0 && u@ == le.1);
                    assert(leok);
                }
                i = i + 1;
                j = j + 1;
            } else {
                proof {
                    assert(lu_rec(pre_l, pre_u, i as int, j as int, m as int, n as int) == lu_rec(
                        pre_l,
                        pre_u,
                        i as int,
                        j + 1 as int,
                        m as int,
                        n as int,
                    ));
                    assert(lu_rec_ok(pre_l, pre_u, i as int, j as int, m as int, n as int)
                        == lu_rec_ok(pre_l, pre_u, i as int, j + 1 as int, m as int, n as int));
                }
                j = j + 1;
            }
        }
        Ok((l, u, p))
    }

    /// The permutation matrix that partial pivoting fixes for this
    /// matrix: for each column in turn, the row of largest magnitude
    /// among the remaining rows of the original matrix is swapped into
    /// place.
    fn permutation(&self) -> (r: Self)
        requires
            self.wf(),
        ensures
            r@ == pivot_build(
                self@,
                id_grid(self.rows_number as int),
                0,
                0,
                self.rows_number as int,
                self.cols_number as int,
            ),
            r.wf(),
            r.rows_number == self.rows_number,
            r.cols_number == self.rows_number,
    {
        let m = self.rows_number;
        let n = self.cols_number;
        let mut p = Self::identity(m);
        proof {
            assert(p@ =~~= id_grid(m as int));
        }
        let ghost p_full = pivot_build(self@, id_grid(m as int), 0, 0, m as int, n as int);
        let mut i: usize = 0;
        let mut j: usize = 0;
        while i < m && j < n
            invariant
                self.wf(),
                p.wf(),
                p.rows_number == m,
                p.cols_number == m,
                m == self.rows_number,
                n == self.cols_number,
                i <= m,
                j <= n,
                p_full == pivot_build(self@, id_grid(m as int), 0, 0, m as int, n as int),
                pivot_build(self@, p@, i as int, j as int, m as int, n as int) == p_full,
            decreases n - j,
        {
            let mut max_index: usize = i;
            let mut k: usize = i;
            while k < m
                invariant
                    self.wf(),
                    m == self.rows_number,
                    n == self.cols_number,
                    i < m,
                    j < n,
                    i <= max_index < m,
                    i <= k <= m,
                    pivot_scan(self@, j as int, k as int, m as int, max_index as int)
                        == pivot_scan(self@, j as int, i as int, m as int, i as int),
                decreases m - k,
            {
                let cand = match self.get(k, j) {
                    Ok(e) => e,
                    Err(_) => unreached(),
                };
                let best = match self.get(max_index, j) {
                    Ok(e) => e,
                    Err(_) => unreached(),
                };
                if cand.abs().epsilon_gt(&best.abs()) {
                    max_index = k;
                }
                k = k + 1;
            }
            if max_index != i {
                match p.swap_rows(i, max_index) {
                    Ok(()) => {},
                    Err(_) => unreached(),
                }
            }
            i = i + 1;
            j = j + 1;
        }
        p
    }
}

} // verus!
