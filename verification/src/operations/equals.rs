//! Tolerant comparison of whole matrices.

use crate::element::lemma_vals_index;
use crate::matrix::{grid_eps_eq, lemma_grid_index, Matrix};
use crate::operations::reduce::{rref_ok, rref_rec};
use crate::vector::row_eps_eq;
use crate::Error;
use vstd::prelude::*;

verus! {

broadcast use lemma_vals_index, lemma_grid_index;

impl Matrix {
    /// Tolerant equality: every entry over the common extent of the two
    /// matrices differs by less than the tolerance.
    pub fn epsilon_equals(&self, other: &Self) -> (r: bool)
        requires
            self.wf(),
            other.wf(),
        ensures
            r == grid_eps_eq(self@, other@),
    {
        let mut i: usize = 0;
        while i < self.rows_number && i < other.rows_number
            invariant
                self.wf(),
                other.wf(),
                i <= self.rows_number,
                forall|k: int|
                    0 <= k < i && k < other@.len() ==> row_eps_eq(#[trigger] self@[k], other@[k]),
            decreases self.rows_number - i,
        {
            let a = match self.get_row(i) {
                Ok(v) => v,
                Err(_) => unreached(),
            };
            let b = match other.get_row(i) {
                Ok(v) => v,
                Err(_) => unreached(),
            };
            if !a.epsilon_equals(&b) {
                return false;
            }
            i = i + 1;
        }
        true
    }

    /// True where the two matrices have, up to the tolerance, the same
    /// reduced row echelon form.  Fails only where an intermediate
    /// value leaves the representable range.
    pub fn is_equivalent_to(&self, other: &Self) -> (r: Result<bool, Error>)
        requires
            self.wf(),
            other.wf(),
        ensures
            r is Ok <==> rref_ok(self@, self@, self.rows_number as int, self.cols_number as int)
                && rref_ok(other@, other@, other.rows_number as int, other.cols_number as int),
            r matches Ok(b) ==> b == grid_eps_eq(
                rref_rec(self@, self@, self.rows_number as int, self.cols_number as int).0,
                rref_rec(other@, other@, other.rows_number as int, other.cols_number as int).0,
            ),
            r matches Err(e) ==> e matches Error::InvalidOperation(_),
    {
        let a = match self.to_rref() {
            Ok(v) => v,
            Err(e) => {
                return Err(e);
            },
        };
        let b = match other.to_rref() {
            Ok(v) => v,
            Err(e) => {
                return Err(e);
            },
        };
        Ok(a.epsilon_equals(&b))
    }
}

} // verus!
