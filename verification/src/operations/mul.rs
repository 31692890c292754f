//! Matrix multiplication.

use crate::element::lemma_vals_index;
use crate::matrix::{g_col, lemma_grid_index, Matrix};
use crate::operations::mul_vec::{lemma_mv_prefix_len, mv_prefix};
use crate::rat::Rat;
use crate::vector::{row_ok, Vector};
use crate::Error;
use vstd::prelude::*;

verus! {

broadcast use lemma_vals_index, lemma_grid_index;

/// The matrix product: entry `(i, k)` is the dot product of row `i` of
/// `a` with column `k` of `b`, accumulated as
/// [`Matrix::multiply_vector`] accumulates it.
pub open spec fn mat_mul(a: Seq<Seq<Rat>>, b: Seq<Seq<Rat>>, cols_b: int) -> Seq<Seq<Rat>> {
    Seq::new(
        a.len(),
        |i: int| Seq::new(cols_b as nat, |k: int| mv_prefix(a, g_col(b, k), b.len() as int)[i]),
    )
}

/// Every entry of the exact product is representable.
pub open spec fn mat_mul_ok(a: Seq<Seq<Rat>>, b: Seq<Seq<Rat>>, cols_b: int) -> bool {
    forall|k: int| 0 <= k < cols_b ==> row_ok(#[trigger] mv_prefix(a, g_col(b, k), b.len() as int))
}

impl Matrix {
    /// The product of two matrices; the left column count must equal
    /// the right row count.  An entry of the exact product leaving the
    /// representable range gives an error.
    pub fn multiply(&self, other: &Self) -> (r: Result<Self, Error>)
        requires
            self.wf(),
            other.wf(),
        ensures
            r is Ok <==> self.cols_number == other.rows_number && mat_mul_ok(
                self@,
                other@,
                other.cols_number as int,
            ),
            r matches Ok(m) ==> m@ == mat_mul(self@, other@, other.cols_number as int) && m.wf()
                && m.rows_number == self.rows_number && m.cols_number == other.cols_number,
            r matches Err(e) ==> e matches Error::InvalidOperation(_),
    {
        if self.cols_number != other.rows_number {
            return Err(
                Error::InvalidOperation("Matrix multiplication is only available for MxP * PxN"),
            );
        }
        let bcols = other.as_cols();
        let mut product_cols: Vec<Vector> = Vec::new();
        let mut k: usize = 0;
        while k < bcols.len()
            invariant
                self.wf(),
                other.wf(),
                self.cols_number == other.rows_number,
                bcols@.len() == other.cols_number,
                forall|c: int|
                    0 <= c < other.cols_number ==> (#[trigger] bcols@[c])@.len()
                        == other.rows_number && bcols@[c].wf(),
                forall|i: int, c: int|
                    0 <= i < other.rows_number && 0 <= c < other.cols_number ==> (
                    #[trigger] bcols@[c]@[i]) == other@[i][c],
                k <= other.cols_number,
                product_cols@.len() == k,
                forall|c: int|
                    0 <= c < k ==> (#[trigger] product_cols@[c])@ == mv_prefix(
                        self@,
                        g_col(other@, c),
                        other@.len() as int,
                    ) && product_cols@[c].wf() && product_cols@[c]@.len() == self.rows_number,
            decreases bcols@.len() - k,
        {
            proof {
                assert(bcols@[k as int]@ =~= g_col(other@, k as int));
            }
            let col = match self.multiply_vector(&bcols[k]) {
                Ok(v) => v,
                Err(_) => {
                    proof {
                        assert(!row_ok(
                            mv_prefix(self@, g_col(other@, k as int), other@.len() as int),
                        ));
                    }
                    return Err(
                        Error::InvalidOperation(
                            "Matrix multiplication left the representable range",
                        ),
                    );
                },
            };
            proof {
                lemma_mv_prefix_len(self@, g_col(other@, k as int), other@.len() as int);
                assert(col@ == mv_prefix(self@, g_col(other@, k as int), other@.len() as int));
            }
            product_cols.push(col);
            k = k + 1;
        }
        proof {
            assert forall|c: int| 0 <= c < other.cols_number implies row_ok(
                #[trigger] mv_prefix(self@, g_col(other@, c), other@.len() as int),
            ) by {
                assert(product_cols@[c].wf());
                assert(product_cols@[c]@ == mv_prefix(self@, g_col(other@, c), other@.len() as int));
            }
        }
        let m = Matrix::from_cols(product_cols);
        proof {
            assert(m@ =~~= mat_mul(self@, other@, other.cols_number as int));
        }
        Ok(m)
    }
}

} // verus!
