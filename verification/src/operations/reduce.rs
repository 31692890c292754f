//! The elimination engine: row echelon and reduced row echelon forms,
//! with identical row operations optionally replayed onto a companion
//! matrix.
//!
//! The executable passes mirror the recursive functions of this module
//! step for step: [`echelon_rec`] is the forward pass, [`back_rec`] the
//! backward pass, and the matching `..._ok` predicates say exactly when
//! every intermediate value stays representable, which is when the
//! executable functions succeed.

use crate::element::lemma_vals_index;
use crate::matrix::{g_swap_rows, lemma_grid_index, row_snap, Matrix};
use crate::rat::{
    eps_gt, eps_one, eps_zero, r_ok, rabs, rat_one, rdiv, rneg, Rat,
};
use crate::vector::{row_add, row_ok, row_scale};
use crate::Error;
use vstd::prelude::*;

verus! {

broadcast use lemma_vals_index, lemma_grid_index;

/// The row of largest magnitude in column `j` among rows `[k, m)`,
/// starting from candidate `best`: a later row replaces the candidate
/// only when its magnitude is strictly greater than the tolerance
/// allows, so the earliest row wins ties.
pub open spec fn pivot_scan(g: Seq<Seq<Rat>>, j: int, k: int, m: int, best: int) -> int
    decreases m - k,
{
    if k >= m {
        best
    } else {
        let next = if eps_gt(rabs(g[k][j]), rabs(g[best][j])) {
            k
        } else {
            best
        };
        pivot_scan(g, j, k + 1, m, next)
    }
}

/// One column of forward elimination below the pivot row: for each row
/// `k` of `[k, m)`, subtract `origin[k][j] / origin[i][j]` times the
/// pivot row, identically in `origin` and `output`.
pub open spec fn elim_step(
    origin: Seq<Seq<Rat>>,
    output: Seq<Seq<Rat>>,
    i: int,
    j: int,
    k: int,
    m: int,
) -> (Seq<Seq<Rat>>, Seq<Seq<Rat>>)
    decreases m - k,
{
    if k >= m {
        (origin, output)
    } else {
        let factor = rneg(rdiv(origin[k][j], origin[i][j]));
        let o2 = origin.update(k, row_snap(row_add(origin[k], row_scale(origin[i], factor))));
        let u2 = output.update(k, row_snap(row_add(output[k], row_scale(output[i], factor))));
        elim_step(o2, u2, i, j, k + 1, m)
    }
}

/// Every value formed by [`elim_step`] stays representable.
pub open spec fn elim_ok(
    origin: Seq<Seq<Rat>>,
    output: Seq<Seq<Rat>>,
    i: int,
    j: int,
    k: int,
    m: int,
) -> bool
    decreases m - k,
{
    if k >= m {
        true
    } else {
        let factor = rneg(rdiv(origin[k][j], origin[i][j]));
        let o2 = origin.update(k, row_snap(row_add(origin[k], row_scale(origin[i], factor))));
        let u2 = output.update(k, row_snap(row_add(output[k], row_scale(output[i], factor))));
        &&& r_ok(rdiv(origin[k][j], origin[i][j]))
        &&& row_ok(row_add(origin[k], row_scale(origin[i], factor)))
        &&& row_ok(row_add(output[k], row_scale(output[i], factor)))
        &&& elim_ok(o2, u2, i, j, k + 1, m)
    }
}

/// The forward pass over an `m` by `n` subject with a companion: from
/// cursor `(i, j)`, select the pivot row of column `j`; skip the column
/// where the pivot is a tolerant zero; otherwise swap the pivot row up,
/// counting the swap, and eliminate the column below it.  Returns the
/// reduced subject, the companion after the same row operations, and
/// the swap count.
pub open spec fn echelon_rec(
    origin: Seq<Seq<Rat>>,
    output: Seq<Seq<Rat>>,
    i: int,
    j: int,
    swaps: int,
    m: int,
    n: int,
) -> (Seq<Seq<Rat>>, Seq<Seq<Rat>>, int)
    decreases n - j,
{
    if i >= m || j >= n {
        (origin, output, swaps)
    } else {
        let p = pivot_scan(origin, j, i, m, i);
        if eps_zero(origin[p][j]) {
            echelon_rec(origin, output, i, j + 1, swaps, m, n)
        } else if p != i {
            let o1 = g_swap_rows(origin, i, p);
            let u1 = g_swap_rows(output, i, p);
            let r = elim_step(o1, u1, i, j, i + 1, m);
            echelon_rec(r.0, r.1, i + 1, j + 1, swaps + 1, m, n)
        } else {
            let r = elim_step(origin, output, i, j, i + 1, m);
            echelon_rec(r.0, r.1, i + 1, j + 1, swaps, m, n)
        }
    }
}

/// Every value formed by the forward pass stays representable.
pub open spec fn echelon_ok(
    origin: Seq<Seq<Rat>>,
    output: Seq<Seq<Rat>>,
    i: int,
    j: int,
    m: int,
    n: int,
) -> bool
    decreases n - j,
{
    if i >= m || j >= n {
        true
    } else {
        let p = pivot_scan(origin, j, i, m, i);
        if eps_zero(origin[p][j]) {
            echelon_ok(origin, output, i, j + 1, m, n)
        } else if p != i {
            let o1 = g_swap_rows(origin, i, p);
            let u1 = g_swap_rows(output, i, p);
            let r = elim_step(o1, u1, i, j, i + 1, m);
            elim_ok(o1, u1, i, j, i + 1, m) && echelon_ok(r.0, r.1, i + 1, j + 1, m, n)
        } else {
            let r = elim_step(origin, output, i, j, i + 1, m);
            elim_ok(origin, output, i, j, i + 1, m) && echelon_ok(r.0, r.1, i + 1, j + 1, m, n)
        }
    }
}

/// The first column of `[j, n)` whose entry in the row is not a
/// tolerant zero, or `n` where every one is.
pub open spec fn lead_col(row: Seq<Rat>, j: int, n: int) -> int
    decreases n - j,
{
    if j >= n {
        n
    } else if !eps_zero(row[j]) {
        j
    } else {
        lead_col(row, j + 1, n)
    }
}

/// One column of backward elimination above the pivot row `i`: for each
/// row `k` of `[k, i)` whose entry in column `p` is not a tolerant
/// zero, subtract that entry times the pivot row, identically in
/// `origin` and `output`.
pub open spec fn back_elim(
    origin: Seq<Seq<Rat>>,
    output: Seq<Seq<Rat>>,
    i: int,
    p: int,
    k: int,
) -> (Seq<Seq<Rat>>, Seq<Seq<Rat>>)
    decreases i - k,
{
    if k >= i {
        (origin, output)
    } else {
        let factor = rneg(origin[k][p]);
        if !eps_zero(factor) {
            let o2 = origin.update(k, row_snap(row_add(origin[k], row_scale(origin[i], factor))));
            let u2 = output.update(k, row_snap(row_add(output[k], row_scale(output[i], factor))));
            back_elim(o2, u2, i, p, k + 1)
        } else {
            back_elim(origin, output, i, p, k + 1)
        }
    }
}

/// Every value formed by [`back_elim`] stays representable.
pub open spec fn back_elim_ok(
    origin: Seq<Seq<Rat>>,
    output: Seq<Seq<Rat>>,
    i: int,
    p: int,
    k: int,
) -> bool
    decreases i - k,
{
    if k >= i {
        true
    } else {
        let factor = rneg(origin[k][p]);
        if !eps_zero(factor) {
            let o2 = origin.update(k, row_snap(row_add(origin[k], row_scale(origin[i], factor))));
            let u2 = output.update(k, row_snap(row_add(output[k], row_scale(output[i], factor))));
            &&& row_ok(row_add(origin[k], row_scale(origin[i], factor)))
            &&& row_ok(row_add(output[k], row_scale(output[i], factor)))
            &&& back_elim_ok(o2, u2, i, p, k + 1)
        } else {
            back_elim_ok(origin, output, i, p, k + 1)
        }
    }
}

/// The backward pass, bottom row first: normalize each row's leading
/// entry to one and zero the entries above it, identically in `origin`
/// and `output`.
pub open spec fn back_rec(
    origin: Seq<Seq<Rat>>,
    output: Seq<Seq<Rat>>,
    i: int,
    n: int,
) -> (Seq<Seq<Rat>>, Seq<Seq<Rat>>)
    decreases i + 1,
{
    if i < 0 {
        (origin, output)
    } else {
        let p = lead_col(origin[i], 0, n);
        if p >= n {
            back_rec(origin, output, i - 1, n)
        } else {
            let leading = origin[i][p];
            let inv = rdiv(rat_one(), leading);
            if !eps_one(leading) {
                let o1 = origin.update(i, row_snap(row_scale(origin[i], inv)));
                let u1 = output.update(i, row_snap(row_scale(output[i], inv)));
                let r = back_elim(o1, u1, i, p, 0);
                back_rec(r.0, r.1, i - 1, n)
            } else {
                let r = back_elim(origin, output, i, p, 0);
                back_rec(r.0, r.1, i - 1, n)
            }
        }
    }
}

/// Every value formed by the backward pass stays representable.
pub open spec fn back_ok(origin: Seq<Seq<Rat>>, output: Seq<Seq<Rat>>, i: int, n: int) -> bool
    decreases i + 1,
{
    if i < 0 {
        true
    } else {
        let p = lead_col(origin[i], 0, n);
        if p >= n {
            back_ok(origin, output, i - 1, n)
        } else {
            let leading = origin[i][p];
            let inv = rdiv(rat_one(), leading);
            if !eps_one(leading) {
                let o1 = origin.update(i, row_snap(row_scale(origin[i], inv)));
                let u1 = output.update(i, row_snap(row_scale(output[i], inv)));
                let r = back_elim(o1, u1, i, p, 0);
                &&& row_ok(row_scale(origin[i], inv))
                &&& row_ok(row_scale(output[i], inv))
                &&& back_elim_ok(o1, u1, i, p, 0)
                &&& back_ok(r.0, r.1, i - 1, n)
            } else {
                let r = back_elim(origin, output, i, p, 0);
                back_elim_ok(origin, output, i, p, 0) && back_ok(r.0, r.1, i - 1, n)
            }
        }
    }
}

/// The reduced row echelon form of `origin` with the same operations
/// replayed onto `output`: the forward pass, then the backward pass.
pub open spec fn rref_rec(
    origin: Seq<Seq<Rat>>,
    output: Seq<Seq<Rat>>,
    m: int,
    n: int,
) -> (Seq<Seq<Rat>>, Seq<Seq<Rat>>) {
    let f = echelon_rec(origin, output, 0, 0, 0, m, n);
    back_rec(f.0, f.1, m - 1, n)
}

/// Every value formed by the full reduction stays representable.
pub open spec fn rref_ok(origin: Seq<Seq<Rat>>, output: Seq<Seq<Rat>>, m: int, n: int) -> bool {
    echelon_ok(origin, output, 0, 0, m, n) && {
        let f = echelon_rec(origin, output, 0, 0, 0, m, n);
        back_ok(f.0, f.1, m - 1, n)
    }
}

/// The companion grid the forward pass starts from: the grid handed in,
/// or a copy of the subject itself.
pub open spec fn fp_out0(subject: Seq<Seq<Rat>>, apply_to: Option<Matrix>) -> Seq<Seq<Rat>> {
    match apply_to {
        Some(a) => a@,
        None => subject,
    }
}

impl Matrix {
    /// The forward elimination pass, replaying every row operation onto
    /// the companion.  Fails where the companion's row count differs
    /// from the subject's, or where an intermediate value leaves the
    /// representable range; the receiver is never modified.
    pub(crate) fn forward_pass(&self, apply_to: Option<Matrix>) -> (r: Result<
        (Matrix, Matrix, usize),
        Error,
    >)
        requires
            self.wf(),
            apply_to matches Some(a) ==> a.wf(),
        ensures
            r is Ok <==> (apply_to matches Some(a) ==> a.rows_number == self.rows_number)
                && echelon_ok(
                self@,
                fp_out0(self@, apply_to),
                0,
                0,
                self.rows_number as int,
                self.cols_number as int,
            ),
            r matches Ok((o, u, s)) ==> {
                let e = echelon_rec(
                    self@,
                    fp_out0(self@, apply_to),
                    0,
                    0,
                    0,
                    self.rows_number as int,
                    self.cols_number as int,
                );
                &&& o@ == e.0
                &&& u@ == e.1
                &&& s as int == e.2
                &&& o.wf()
                &&& u.wf()
                &&& o.rows_number == self.rows_number
                &&& o.cols_number == self.cols_number
                &&& u.rows_number == self.rows_number
                &&& u.cols_number == (match apply_to {
                    Some(a) => a.cols_number,
                    None => self.cols_number,
                })
            },
            r matches Err(e) ==> e matches Error::InvalidOperation(_),
    {
        let m = self.rows_number;
        let n = self.cols_number;
        let mut origin = self.clone();
        let mut output = match apply_to {
            Some(a) => {
                if a.rows_number != m {
                    return Err(
                        Error::InvalidOperation(
                            "Matrix to apply steps to must have the same number of rows as the original matrix",
                        ),
                    );
                }
                a
            },
            None => self.clone(),
        };
        let ghost out0 = output@;
        let ghost oc = output.cols_number;
        let ghost e_full = echelon_rec(self@, out0, 0, 0, 0, m as int, n as int);
        let ghost ok_full = echelon_ok(self@, out0, 0, 0, m as int, n as int);
        let mut i: usize = 0;
        let mut j: usize = 0;
        let mut swap_count: usize = 0;
        while i < m && j < n
            invariant
                self.wf(),
                origin.wf(),
                output.wf(),
                origin.rows_number == m,
                origin.cols_number == n,
                output.rows_number == m,
                output.cols_number == oc,
                m == self.rows_number,
                n == self.cols_number,
                i <= m,
                j <= n,
                swap_count <= j,
                out0 == fp_out0(self@, apply_to),
                oc == (match apply_to {
                    Some(a) => a.cols_number,
                    None => self.cols_number,
                }),
                e_full == echelon_rec(self@, out0, 0, 0, 0, m as int, n as int),
                ok_full == echelon_ok(self@, out0, 0, 0, m as int, n as int),
                echelon_rec(origin@, output@, i as int, j as int, swap_count as int, m as int, n as int)
                    == e_full,
                echelon_ok(origin@, output@, i as int, j as int, m as int, n as int) == ok_full,
            decreases n - j,
        {
            let mut max_index: usize = i;
            let mut k: usize = i;
            while k < m
                invariant
                    origin.wf(),
                    origin.rows_number == m,
                    origin.cols_number == n,
                    i < m,
                    j < n,
                    i <= max_index < m,
                    i <= k <= m,
                    pivot_scan(origin@, j as int, k as int, m as int, max_index as int)
                        == pivot_scan(origin@, j as int, i as int, m as int, i as int),
                decreases m - k,
            {
                let cand = match origin.get(k, j) {
                    Ok(e) => e,
                    Err(_) => unreached(),
                };
                let best = match origin.get(max_index, j) {
                    Ok(e) => e,
                    Err(_) => unreached(),
                };
                if cand.abs().epsilon_gt(&best.abs()) {
                    max_index = k;
                }
                k = k + 1;
            }
            let ghost p = pivot_scan(origin@, j as int, i as int, m as int, i as int);
            proof {
                assert(max_index as int == p);
            }
            let pivot_e = match origin.get(max_index, j) {
                Ok(e) => e,
                Err(_) => unreached(),
            };
            let ghost pre_o = origin@;
            let ghost pre_u = output@;
            let ghost pre_s = swap_count as int;
            if !pivot_e.is_zero() {
                if max_index != i {
                    swap_count = swap_count + 1;
                    match origin.swap_rows(i, max_index) {
                        Ok(()) => {},
                        Err(_) => unreached(),
                    }
                    match output.swap_rows(i, max_index) {
                        Ok(()) => {},
                        Err(_) => unreached(),
                    }
                }
                let ghost o1 = origin@;
                let ghost u1 = output@;
                let ghost s1 = swap_count as int;
                let ghost eo = elim_step(o1, u1, i as int, j as int, i + 1 as int, m as int);
                let ghost eok = elim_ok(o1, u1, i as int, j as int, i + 1 as int, m as int);
                proof {
                    assert(echelon_rec(pre_o, pre_u, i as int, j as int, pre_s, m as int, n as int)
                        == echelon_rec(eo.0, eo.1, i + 1 as int, j + 1 as int, s1, m as int, n as int));
                    assert(echelon_ok(pre_o, pre_u, i as int, j as int, m as int, n as int) == (eok
                        && echelon_ok(eo.0, eo.1, i + 1 as int, j + 1 as int, m as int, n as int)));
                    assert(!eps_zero(o1[i as int][j as int]));
                }
                let mut k2: usize = i + 1;
                while k2 < m
                    invariant
                        origin.wf(),
                        output.wf(),
                        origin.rows_number == m,
                        origin.cols_number == n,
                        output.rows_number == m,
                        output.cols_number == oc,
                        i < m,
                        j < n,
                        i + 1 <= k2 <= m,
                        m == self.rows_number,
                        n == self.cols_number,
                        out0 == fp_out0(self@, apply_to),
                        ok_full == echelon_ok(self@, out0, 0, 0, m as int, n as int),
                        origin@[i as int] == o1[i as int],
                        output@[i as int] == u1[i as int],
                        !eps_zero(origin@[i as int][j as int]),
                        elim_step(origin@, output@, i as int, j as int, k2 as int, m as int) == eo,
                        eok == elim_ok(
                            origin@,
                            output@,
                            i as int,
                            j as int,
                            k2 as int,
                            m as int,
                        ),
                        ok_full == (eok && echelon_ok(
                            eo.0,
                            eo.1,
                            i + 1 as int,
                            j + 1 as int,
                            m as int,
                            n as int,
                        )),
                        e_full == echelon_rec(
                            eo.0,
                            eo.1,
                            i + 1 as int,
                            j + 1 as int,
                            s1,
                            m as int,
                            n as int,
                        ),
                    decreases m - k2,
                {
                    let ghost so = origin@;
                    let ghost su = output@;
                    let num = match origin.get(k2, j) {
                        Ok(e) => e,
                        Err(_) => unreached(),
                    };
                    let den = match origin.get(i, j) {
                        Ok(e) => e,
                        Err(_) => unreached(),
                    };
                    let factor = match num.div(den) {
                        Some(f) => f.negate(),
                        None => {
                            proof {
                                assert(!elim_ok(so, su, i as int, j as int, k2 as int, m as int));
                                assert(!ok_full);
                            }
                            return Err(
                                Error::InvalidOperation(
                                    "Elimination left the representable range",
                                ),
                            );
                        },
                    };
                    proof {
                        assert(factor@ == rneg(
                            rdiv(so[k2 as int][j as int], so[i as int][j as int]),
                        ));
                    }
                    match origin.add_scaled_row_from_to(i, k2, factor) {
                        Ok(()) => {},
                        Err(_) => {
                            proof {
                                assert(!elim_ok(so, su, i as int, j as int, k2 as int, m as int));
                                assert(!ok_full);
                            }
                            return Err(
                                Error::InvalidOperation(
                                    "Elimination left the representable range",
                                ),
                            );
                        },
                    }
                    match output.add_scaled_row_from_to(i, k2, factor) {
                        Ok(()) => {},
                        Err(_) => {
                            proof {
                                assert(!elim_ok(so, su, i as int, j as int, k2 as int, m as int));
                                assert(!ok_full);
                            }
                            return Err(
                                Error::InvalidOperation(
                                    "Elimination left the representable range",
                                ),
                            );
                        },
                    }
                    proof {
                        assert(elim_step(so, su, i as int, j as int, k2 as int, m as int)
                            == elim_step(
                            origin@,
                            output@,
                            i as int,
                            j as int,
                            k2 + 1 as int,
                            m as int,
                        ));
                        assert(elim_ok(so, su, i as int, j as int, k2 as int, m as int) == elim_ok(
                            origin@,
                            output@,
                            i as int,
                            j as int,
                            k2 + 1 as int,
                            m as int,
                        ));
                    }
                    k2 = k2 + 1;
                }
                proof {
                    assert(origin@ == eo.0 && output@ == eo.1);
                    assert(eok);
                }
                i = i + 1;
                j = j + 1;
            } else {
                proof {
                    assert(echelon_rec(pre_o, pre_u, i as int, j as int, pre_s, m as int, n as int)
                        == echelon_rec(
                        pre_o,
                        pre_u,
                        i as int,
                        j + 1 as int,
                        pre_s,
                        m as int,
                        n as int,
                    ));
                    assert(echelon_ok(pre_o, pre_u, i as int, j as int, m as int, n as int)
                        == echelon_ok(pre_o, pre_u, i as int, j + 1 as int, m as int, n as int));
                }
                j = j + 1;
            }
        }
        Ok((origin, output, swap_count))
    }

    /// The row echelon form of the matrix, together with the number of
    /// row swaps the reduction performed.  Fails only where an
    /// intermediate value leaves the representable range.
    pub fn row_echelon(&self) -> (r: Result<(Self, usize), Error>)
        requires
            self.wf(),
        ensures
            r is Ok <==> echelon_ok(
                self@,
                self@,
                0,
                0,
                self.rows_number as int,
                self.cols_number as int,
            ),
            r matches Ok((e, s)) ==> {
                let f = echelon_rec(
                    self@,
                    self@,
                    0,
                    0,
                    0,
                    self.rows_number as int,
                    self.cols_number as int,
                );
                &&& e@ == f.0
                &&& s as int == f.2
                &&& e.wf()
                &&& e.rows_number == self.rows_number
                &&& e.cols_number == self.cols_number
            },
            r matches Err(e) ==> e matches Error::InvalidOperation(_),
    {
        match self.forward_pass(None) {
            Ok((o, _, s)) => Ok((o, s)),
            Err(e) => Err(e),
        }
    }

    /// The full reduction: the forward pass, then the backward pass,
    /// replaying every row operation onto the companion.
    pub(crate) fn full_reduce(&self, apply_to: Option<Matrix>) -> (r: Result<
        (Matrix, Matrix),
        Error,
    >)
        requires
            self.wf(),
            apply_to matches Some(a) ==> a.wf(),
        ensures
            r is Ok <==> (apply_to matches Some(a) ==> a.rows_number == self.rows_number)
                && rref_ok(
                self@,
                fp_out0(self@, apply_to),
                self.rows_number as int,
                self.cols_number as int,
            ),
            r matches Ok((o, u)) ==> {
                let e = rref_rec(
                    self@,
                    fp_out0(self@, apply_to),
                    self.rows_number as int,
                    self.cols_number as int,
                );
                &&& o@ == e.0
                &&& u@ == e.1
                &&& o.wf()
                &&& u.wf()
                &&& o.rows_number == self.rows_number
                &&& o.cols_number == self.cols_number
                &&& u.rows_number == self.rows_number
                &&& u.cols_number == (match apply_to {
                    Some(a) => a.cols_number,
                    None => self.cols_number,
                })
            },
            r matches Err(e) ==> e matches Error::InvalidOperation(_),
    {
        let m = self.rows_number;
        let n = self.cols_number;
        let ghost out0 = fp_out0(self@, apply_to);
        let ghost oc: usize = match apply_to {
            Some(ref a) => a.cols_number,
            None => self.cols_number,
        };
        let (mut origin, mut output) = match self.forward_pass(apply_to) {
            Ok((o, u, _)) => (o, u),
            Err(e) => {
                return Err(e);
            },
        };
        let ghost b_full = back_rec(origin@, output@, m as int - 1, n as int);
        let ghost bok_full = back_ok(origin@, output@, m as int - 1, n as int);
        let mut ii: usize = m;
        while ii > 0
            invariant
                self.wf(),
                origin.wf(),
                output.wf(),
                origin.rows_number == m,
                origin.cols_number == n,
                output.rows_number == m,
                output.cols_number == oc,
                m == self.rows_number,
                n == self.cols_number,
                ii <= m,
                out0 == fp_out0(self@, apply_to),
                oc == (match apply_to {
                    Some(a) => a.cols_number,
                    None => self.cols_number,
                }),
                b_full == rref_rec(self@, out0, m as int, n as int),
                back_rec(origin@, output@, ii as int - 1, n as int) == b_full,
                rref_ok(self@, out0, m as int, n as int) == back_ok(
                    origin@,
                    output@,
                    ii as int - 1,
                    n as int,
                ),
            decreases ii,
        {
            let i = ii - 1;
            let ghost pre_o = origin@;
            let ghost pre_u = output@;
            let mut pivot_col: usize = n;
            let mut jj: usize = 0;
            while jj < n && pivot_col == n
                invariant
                    origin.wf(),
                    origin.rows_number == m,
                    origin.cols_number == n,
                    i < m,
                    jj <= n,
                    pivot_col <= n,
                    pivot_col == n ==> lead_col(origin@[i as int], jj as int, n as int) == lead_col(
                        origin@[i as int],
                        0,
                        n as int,
                    ),
                    pivot_col < n ==> pivot_col as int == lead_col(origin@[i as int], 0, n as int)
                        && !eps_zero(origin@[i as int][pivot_col as int]),
                decreases n - jj + (if pivot_col == n { 1int } else { 0int }),
            {
                let e = match origin.get(i, jj) {
                    Ok(e) => e,
                    Err(_) => unreached(),
                };
                if !e.is_zero() {
                    pivot_col = jj;
                } else {
                    jj = jj + 1;
                }
            }
            if pivot_col < n {
                let leading = match origin.get(i, pivot_col) {
                    Ok(e) => e,
                    Err(_) => unreached(),
                };
                let ghost p = pivot_col as int;
                if !leading.is_one() {
                    let inv = leading.inverse();
                    let ghost so = origin@;
                    let ghost su = output@;
                    match origin.scale_row(i, inv) {
                        Ok(()) => {},
                        Err(_) => {
                            proof {
                                assert(!back_ok(so, su, i as int, n as int));
                                assert(!rref_ok(self@, out0, m as int, n as int));
                            }
                            return Err(
                                Error::InvalidOperation(
                                    "Reduction left the representable range",
                                ),
                            );
                        },
                    }
                    match output.scale_row(i, inv) {
                        Ok(()) => {},
                        Err(_) => {
                            proof {
                                assert(!back_ok(so, su, i as int, n as int));
                                assert(!rref_ok(self@, out0, m as int, n as int));
                            }
                            return Err(
                                Error::InvalidOperation(
                                    "Reduction left the representable range",
                                ),
                            );
                        },
                    }
                }
                let ghost o1 = origin@;
                let ghost u1 = output@;
                let ghost be = back_elim(o1, u1, i as int, p, 0);
                let ghost beok = back_elim_ok(o1, u1, i as int, p, 0);
                proof {
                    assert(back_rec(pre_o, pre_u, i as int, n as int) == back_rec(
                        be.0,
                        be.1,
                        i as int - 1,
                        n as int,
                    ));
                    assert(back_ok(pre_o, pre_u, i as int, n as int) == (beok && back_ok(
                        be.0,
                        be.1,
                        i as int - 1,
                        n as int,
                    )));
                }
                let mut k: usize = 0;
                while k < i
                    invariant
                        origin.wf(),
                        output.wf(),
                        origin.rows_number == m,
                        origin.cols_number == n,
                        output.rows_number == m,
                        output.cols_number == oc,
                        i < m,
                        p == pivot_col,
                        pivot_col < n,
                        k <= i,
                        m == self.rows_number,
                        n == self.cols_number,
                        out0 == fp_out0(self@, apply_to),
                        rref_ok(self@, out0, m as int, n as int) == back_ok(
                            pre_o,
                            pre_u,
                            i as int,
                            n as int,
                        ),
                        back_ok(pre_o, pre_u, i as int, n as int) == (beok && back_ok(
                            be.0,
                            be.1,
                            i as int - 1,
                            n as int,
                        )),
                        origin@[i as int] == o1[i as int],
                        output@[i as int] == u1[i as int],
                        back_elim(origin@, output@, i as int, p, k as int) == be,
                        beok == back_elim_ok(origin@, output@, i as int, p, k as int),
                    decreases i - k,
                {
                    let ghost so = origin@;
                    let ghost su = output@;
                    let entry = match origin.get(k, pivot_col) {
                        Ok(e) => e,
                        Err(_) => unreached(),
                    };
                    let factor = entry.negate();
                    if !factor.is_zero() {
                        match origin.add_scaled_row_from_to(i, k, factor) {
                            Ok(()) => {},
                            Err(_) => {
                                proof {
                                    assert(!back_elim_ok(so, su, i as int, p, k as int));
                                    assert(!beok);
                                    assert(!rref_ok(self@, out0, m as int, n as int));
                                }
                                return Err(
                                    Error::InvalidOperation(
                                        "Reduction left the representable range",
                                    ),
                                );
                            },
                        }
                        match output.add_scaled_row_from_to(i, k, factor) {
                            Ok(()) => {},
                            Err(_) => {
                                proof {
                                    assert(!back_elim_ok(so, su, i as int, p, k as int));
                                    assert(!beok);
                                    assert(!rref_ok(self@, out0, m as int, n as int));
                                }
                                return Err(
                                    Error::InvalidOperation(
                                        "Reduction left the representable range",
                                    ),
                                );
                            },
                        }
                    }
                    proof {
                        assert(back_elim(so, su, i as int, p, k as int) == back_elim(
                            origin@,
                            output@,
                            i as int,
                            p,
                            k + 1 as int,
                        ));
                        assert(back_elim_ok(so, su, i as int, p, k as int) == back_elim_ok(
                            origin@,
                            output@,
                            i as int,
                            p,
                            k + 1 as int,
                        ));
                    }
                    k = k + 1;
                }
                proof {
                    assert(origin@ == be.0 && output@ == be.1);
                }
            } else {
                proof {
                    assert(back_rec(pre_o, pre_u, i as int, n as int) == back_rec(
                        pre_o,
                        pre_u,
                        i as int - 1,
                        n as int,
                    ));
                    assert(back_ok(pre_o, pre_u, i as int, n as int) == back_ok(
                        pre_o,
                        pre_u,
                        i as int - 1,
                        n as int,
                    ));
                }
            }
            ii = ii - 1;
        }
        Ok((origin, output))
    }

    /// The reduced row echelon form of the matrix.  Fails only where an
    /// intermediate value leaves the representable range.
    pub fn to_rref(&self) -> (r: Result<Self, Error>)
        requires
            self.wf(),
        ensures
            r is Ok <==> rref_ok(self@, self@, self.rows_number as int, self.cols_number as int),
            r matches Ok(e) ==> e@ == rref_rec(
                self@,
                self@,
                self.rows_number as int,
                self.cols_number as int,
            ).0 && e.wf() && e.rows_number == self.rows_number && e.cols_number == self.cols_number,
            r matches Err(e) ==> e matches Error::InvalidOperation(_),
    {
        match self.full_reduce(None) {
            Ok((o, _)) => Ok(o),
            Err(e) => Err(e),
        }
    }

    /// The reduced row echelon form of the matrix, with every row
    /// operation replayed onto `other`, whose row count must match.
    /// Fails on a row-count mismatch, or where an intermediate value
    /// leaves the representable range.
    pub fn to_rref_apply_to(&self, other: Self) -> (r: Result<(Self, Self), Error>)
        requires
            self.wf(),
            other.wf(),
        ensures
            r is Ok <==> other.rows_number == self.rows_number && rref_ok(
                self@,
                other@,
                self.rows_number as int,
                self.cols_number as int,
            ),
            r matches Ok((o, u)) ==> {
                let e = rref_rec(self@, other@, self.rows_number as int, self.cols_number as int);
                &&& o@ == e.0
                &&& u@ == e.1
                &&& o.wf()
                &&& u.wf()
                &&& o.rows_number == self.rows_number
                &&& o.cols_number == self.cols_number
                &&& u.rows_number == self.rows_number
                &&& u.cols_number == other.cols_number
            },
            r matches Err(e) ==> e matches Error::InvalidOperation(_),
    {
        self.full_reduce(Some(other))
    }
}

} // verus!
