//! Matrix addition.

use crate::element::{lemma_vals_index, MatrixElement};
use crate::matrix::{lemma_grid_index, row_snap, Matrix};
use crate::rat::snap;
use crate::vector::{row_add, row_ok};
use crate::Error;
use vstd::prelude::*;

verus! {

broadcast use lemma_vals_index, lemma_grid_index;

impl Matrix {
    /// Entrywise sum of two matrices of the same dimensions, written
    /// entry by entry so that tolerant zeros are stored as the exact
    /// zero.  Mismatched dimensions, or an entry of the exact sum
    /// leaving the representable range, give an error.
    pub fn add_s(&self, other: &Self) -> (r: Result<Self, Error>)
        requires
            self.wf(),
            other.wf(),
        ensures
            r is Ok <==> self.rows_number == other.rows_number && self.cols_number
                == other.cols_number && forall|i: int|
                0 <= i < self@.len() ==> row_ok(#[trigger] row_add(self@[i], other@[i])),
            r matches Ok(m) ==> m@ == Seq::new(
                self@.len(),
                |i: int| row_snap(row_add(self@[i], other@[i])),
            ) && m.wf() && m.rows_number == self.rows_number && m.cols_number == self.cols_number,
            r matches Err(e) ==> e matches Error::InvalidOperation(_),
    {
        if self.rows_number != other.rows_number || self.cols_number != other.cols_number {
            return Err(Error::InvalidOperation("Matrix dimensions must match for addition"));
        }
        let mut elements: Vec<Vec<MatrixElement>> = Vec::new();
        let mut i: usize = 0;
        while i < self.rows_number
            invariant
                self.wf(),
                other.wf(),
                self.rows_number == other.rows_number,
                self.cols_number == other.cols_number,
                i <= self.rows_number,
                elements@.len() == i,
                forall|k: int|
                    0 <= k < i ==> (#[trigger] elements@[k])@.len() == self.cols_number,
                forall|k: int, j: int|
                    0 <= k < i && 0 <= j < self.cols_number ==> (#[trigger] elements@[k]@[j])@
                        == snap(row_add(self@[k], other@[k])[j]),
                forall|k: int| 0 <= k < i ==> row_ok(#[trigger] row_add(self@[k], other@[k])),
            decreases self.rows_number - i,
        {
            let a = match self.get_row(i) {
                Ok(v) => v,
                Err(_) => unreached(),
            };
            let b = match other.get_row(i) {
                Ok(v) => v,
                Err(_) => unreached(),
            };
            let sum = match a.add(&b) {
                Some(v) => v,
                None => {
                    return Err(
                        Error::InvalidOperation("Matrix addition left the representable range"),
                    );
                },
            };
            let mut row: Vec<MatrixElement> = Vec::new();
            let mut j: usize = 0;
            while j < sum.data.len()
                invariant
                    sum.wf(),
                    sum@.len() == self.cols_number,
                    j <= self.cols_number,
                    row@.len() == j,
                    forall|k: int| 0 <= k < j ==> (#[trigger] row@[k])@ == snap(sum@[k]),
                decreases sum.data@.len() - j,
            {
                let e = sum.data[j];
                if e.is_zero() {
                    row.push(MatrixElement::zero());
                } else {
                    row.push(e);
                }
                j = j + 1;
            }
            elements.push(row);
            i = i + 1;
        }
        let m = Matrix {
            cols_number: self.cols_number,
            rows_number: self.rows_number,
            elements,
        };
        proof {
            assert(m@ =~~= Seq::new(self@.len(), |i: int| row_snap(row_add(self@[i], other@[i]))));
        }
        Ok(m)
    }
}

} // verus!
