//! Matrix-vector multiplication.

use crate::element::lemma_vals_index;
use crate::matrix::{g_col, lemma_grid_index, Matrix};
use crate::rat::{r_ok, radd, rat_zero, Rat};
use crate::vector::{row_add, row_ok, row_scale, Vector};
use crate::Error;
use vstd::prelude::*;

verus! {

broadcast use lemma_vals_index, lemma_grid_index;

/// The product of a grid with a vector, accumulated column by column:
/// the sum of the first `k` columns of `g`, each scaled by the matching
/// entry of `v`.
pub open spec fn mv_prefix(g: Seq<Seq<Rat>>, v: Seq<Rat>, k: int) -> Seq<Rat>
    decreases k,
{
    if k <= 0 {
        Seq::new(g.len(), |i: int| rat_zero())
    } else {
        row_add(mv_prefix(g, v, k - 1), row_scale(g_col(g, k - 1), v[k - 1]))
    }
}

/// The accumulated product always has one entry per row of the grid.
pub proof fn lemma_mv_prefix_len(g: Seq<Seq<Rat>>, v: Seq<Rat>, k: int)
    ensures
        mv_prefix(g, v, k).len() == g.len(),
    decreases k,
{
    if k > 0 {
        lemma_mv_prefix_len(g, v, k - 1);
    }
}

/// Once an entry of the accumulated product marks an out-of-range
/// result, it stays marked in every longer accumulation.
pub proof fn lemma_mv_prefix_poison(g: Seq<Seq<Rat>>, v: Seq<Rat>, i: int, k: int, n: int)
    requires
        0 <= i < g.len(),
        0 <= k <= n,
        !r_ok(mv_prefix(g, v, k)[i]),
    ensures
        !r_ok(mv_prefix(g, v, n)[i]),
    decreases n - k,
{
    if k < n {
        lemma_mv_prefix_len(g, v, k);
        assert(mv_prefix(g, v, k + 1)[i] == radd(
            mv_prefix(g, v, k)[i],
            row_scale(g_col(g, k), v[k])[i],
        ));
        lemma_mv_prefix_poison(g, v, i, k + 1, n);
    }
}

impl Matrix {
    /// The product of the matrix with a column vector, whose length must
    /// equal the column count.  An entry of the exact product leaving
    /// the representable range gives an error.
    pub fn multiply_vector(&self, vector: &Vector) -> (r: Result<Vector, Error>)
        requires
            self.wf(),
            vector.wf(),
        ensures
            r is Ok <==> vector@.len() == self.cols_number && row_ok(
                mv_prefix(self@, vector@, self.cols_number as int),
            ),
            r matches Ok(v) ==> v@ == mv_prefix(self@, vector@, self.cols_number as int) && v.wf(),
            r matches Err(e) ==> e matches Error::InvalidOperation(_),
    {
        let cols = self.as_cols();
        if cols.len() != vector.len() {
            return Err(
                Error::InvalidOperation(
                    "Matrix columns number must be equal to vector length for multiplication",
                ),
            );
        }
        let mut acc = Vector::zero(self.rows_number);
        proof {
            assert(acc@ =~= mv_prefix(self@, vector@, 0));
        }
        let mut j: usize = 0;
        while j < cols.len()
            invariant
                self.wf(),
                vector.wf(),
                vector@.len() == self.cols_number,
                cols@.len() == self.cols_number,
                forall|k: int|
                    0 <= k < self.cols_number ==> (#[trigger] cols@[k])@.len() == self.rows_number
                        && cols@[k].wf(),
                forall|i: int, k: int|
                    0 <= i < self.rows_number && 0 <= k < self.cols_number ==> (
                    #[trigger] cols@[k]@[i]) == self@[i][k],
                j <= self.cols_number,
                acc.wf(),
                acc@ == mv_prefix(self@, vector@, j as int),
                acc@.len() == self.rows_number,
            decreases cols@.len() - j,
        {
            proof {
                assert(cols@[j as int]@ =~= g_col(self@, j as int));
            }
            let scaled = match cols[j].scale(vector.data[j]) {
                Some(v) => v,
                None => {
                    proof {
                        lemma_mv_prefix_len(self@, vector@, j as int);
                        lemma_mv_prefix_len(self@, vector@, self.cols_number as int);
                        let bad = choose|i: int|
                            0 <= i < row_scale(g_col(self@, j as int), vector@[j as int]).len()
                                && !r_ok(
                                row_scale(g_col(self@, j as int), vector@[j as int])[i],
                            );
                        assert(mv_prefix(self@, vector@, j + 1 as int)[bad] == radd(
                            mv_prefix(self@, vector@, j as int)[bad],
                            row_scale(g_col(self@, j as int), vector@[j as int])[bad],
                        ));
                        assert(!r_ok(mv_prefix(self@, vector@, j + 1 as int)[bad]));
                        lemma_mv_prefix_poison(
                            self@,
                            vector@,
                            bad,
                            j + 1 as int,
                            self.cols_number as int,
                        );
                    }
                    return Err(
                        Error::InvalidOperation(
                            "Matrix-vector multiplication left the representable range",
                        ),
                    );
                },
            };
            acc = match acc.add(&scaled) {
                Some(v) => v,
                None => {
                    proof {
                        lemma_mv_prefix_len(self@, vector@, j as int);
                        lemma_mv_prefix_len(self@, vector@, self.cols_number as int);
                        let bad = choose|i: int|
                            0 <= i < row_add(acc@, scaled@).len() && !r_ok(
                                row_add(acc@, scaled@)[i],
                            );
                        assert(mv_prefix(self@, vector@, j + 1 as int) == row_add(
                            acc@,
                            row_scale(g_col(self@, j as int), vector@[j as int]),
                        ));
                        assert(row_scale(g_col(self@, j as int), vector@[j as int]) =~= scaled@);
                        assert(!r_ok(mv_prefix(self@, vector@, j + 1 as int)[bad]));
                        lemma_mv_prefix_poison(
                            self@,
                            vector@,
                            bad,
                            j + 1 as int,
                            self.cols_number as int,
                        );
                    }
                    return Err(
                        Error::InvalidOperation(
                            "Matrix-vector multiplication left the representable range",
                        ),
                    );
                },
            };
            proof {
                assert(acc@ =~= mv_prefix(self@, vector@, j + 1 as int));
            }
            j = j + 1;
        }
        Ok(acc)
    }
}

} // verus!
