//! Scalar multiplication of a matrix, a row, or a column.

use crate::element::{lemma_vals_index, MatrixElement};
use crate::matrix::{g_col, grid_ok, lemma_grid_index, row_snap, Matrix};
use crate::rat::{rmul, snap, Rat};
use crate::vector::{row_ok, row_scale};
use crate::Error;
use vstd::prelude::*;

verus! {

broadcast use lemma_vals_index, lemma_grid_index;

/// Every row scaled by one scalar.
pub open spec fn grid_scale(g: Seq<Seq<Rat>>, k: Rat) -> Seq<Seq<Rat>> {
    Seq::new(g.len(), |i: int| row_scale(g[i], k))
}

impl Matrix {
    /// The matrix with every entry multiplied by `scalar`, or an error
    /// where an entry of the exact result leaves the representable
    /// range.
    pub fn scale(&self, scalar: MatrixElement) -> (r: Result<Self, Error>)
        requires
            self.wf(),
            scalar.wf(),
        ensures
            r is Ok <==> grid_ok(grid_scale(self@, scalar@)),
            r matches Ok(m) ==> m@ == grid_scale(self@, scalar@) && m.wf() && m.rows_number
                == self.rows_number && m.cols_number == self.cols_number,
            r matches Err(e) ==> e matches Error::InvalidOperation(_),
    {
        let rows = self.as_rows();
        let mut scaled: Vec<crate::vector::Vector> = Vec::new();
        let mut i: usize = 0;
        while i < rows.len()
            invariant
                self.wf(),
                scalar.wf(),
                rows@.len() == self.rows_number,
                forall|k: int|
                    0 <= k < self.rows_number ==> (#[trigger] rows@[k])@ == self@[k]
                        && rows@[k].wf(),
                i <= rows@.len(),
                scaled@.len() == i,
                forall|k: int|
                    0 <= k < i ==> (#[trigger] scaled@[k])@ == row_scale(self@[k], scalar@)
                        && scaled@[k].wf(),
            decreases rows@.len() - i,
        {
            match rows[i].scale(scalar) {
                Some(v) => scaled.push(v),
                None => {
                    proof {
                        assert(!row_ok(grid_scale(self@, scalar@)[i as int]));
                    }
                    return Err(
                        Error::InvalidOperation("Scaling left the representable range"),
                    );
                },
            }
            i = i + 1;
        }
        let mut elements: Vec<Vec<MatrixElement>> = Vec::new();
        let mut k: usize = 0;
        while k < scaled.len()
            invariant
                self.wf(),
                scalar.wf(),
                scaled@.len() == self.rows_number,
                forall|j: int|
                    0 <= j < self.rows_number ==> (#[trigger] scaled@[j])@ == row_scale(
                        self@[j],
                        scalar@,
                    ) && scaled@[j].wf(),
                k <= scaled@.len(),
                elements@.len() == k,
                forall|j: int| 0 <= j < k ==> (#[trigger] elements@[j])@ == scaled@[j].data@,
            decreases scaled@.len() - k,
        {
            elements.push(crate::matrix::clone_row(&scaled[k].data));
            k = k + 1;
        }
        let m = Matrix {
            cols_number: self.cols_number,
            rows_number: self.rows_number,
            elements,
        };
        proof {
            assert(m@ =~~= grid_scale(self@, scalar@));
        }
        Ok(m)
    }

    /// Scales the row at `row` by `scalar`, writing through
    /// [`Matrix::set_row`].  On an out-of-range index, or where an entry
    /// of the exact result leaves the representable range, the matrix is
    /// unchanged.
    pub fn scale_row(&mut self, row: usize, scalar: MatrixElement) -> (r: Result<(), Error>)
        requires
            old(self).wf(),
            scalar.wf(),
        ensures
            r is Ok <==> row < old(self).rows_number && row_ok(
                row_scale(old(self)@[row as int], scalar@),
            ),
            r is Ok ==> final(self)@ == old(self)@.update(
                row as int,
                row_snap(row_scale(old(self)@[row as int], scalar@)),
            ),
            r is Err ==> final(self)@ == old(self)@,
            r matches Err(e) ==> if row < old(self).rows_number {
                e matches Error::InvalidOperation(_)
            } else {
                e matches Error::IndexOutOfBounds(_)
            },
            final(self).wf(),
            final(self).rows_number == old(self).rows_number,
            final(self).cols_number == old(self).cols_number,
    {
        let current = match self.get_row(row) {
            Ok(v) => v,
            Err(e) => {
                return Err(e);
            },
        };
        let scaled = match current.scale(scalar) {
            Some(v) => v,
            None => {
                return Err(Error::InvalidOperation("Row scaling left the representable range"));
            },
        };
        match self.set_row(row, scaled) {
            Ok(()) => Ok(()),
            Err(_) => unreached(),
        }
    }

    /// Scales the column at `col` by `scalar`, writing through
    /// [`Matrix::set_col`].  On an out-of-range index, or where an entry
    /// of the exact result leaves the representable range, the matrix is
    /// unchanged.
    pub fn scale_col(&mut self, col: usize, scalar: MatrixElement) -> (r: Result<(), Error>)
        requires
            old(self).wf(),
            scalar.wf(),
        ensures
            r is Ok <==> col < old(self).cols_number && row_ok(
                row_scale(g_col(old(self)@, col as int), scalar@),
            ),
            r is Ok ==> final(self)@ == Seq::new(
                old(self)@.len(),
                |i: int|
                    old(self)@[i].update(
                        col as int,
                        snap(rmul(old(self)@[i][col as int], scalar@)),
                    ),
            ),
            r is Err ==> final(self)@ == old(self)@,
            r matches Err(e) ==> if col < old(self).cols_number {
                e matches Error::InvalidOperation(_)
            } else {
                e matches Error::IndexOutOfBounds(_)
            },
            final(self).wf(),
            final(self).rows_number == old(self).rows_number,
            final(self).cols_number == old(self).cols_number,
    {
        let current = match self.get_col(col) {
            Ok(v) => v,
            Err(e) => {
                return Err(e);
            },
        };
        proof {
            assert(current@ =~= g_col(self@, col as int));
        }
        let scaled = match current.scale(scalar) {
            Some(v) => v,
            None => {
                return Err(Error::InvalidOperation("Column scaling left the representable range"));
            },
        };
        match self.set_col(col, scaled) {
            Ok(()) => Ok(()),
            Err(_) => unreached(),
        }
    }
}

} // verus!
