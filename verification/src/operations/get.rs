//! Reading entries, rows and columns.

use crate::element::{lemma_vals_index, vals, MatrixElement};
use crate::matrix::{clone_row, lemma_grid_index, Matrix};
use crate::vector::Vector;
use crate::Error;
use vstd::prelude::*;

verus! {

broadcast use lemma_vals_index, lemma_grid_index;

impl Matrix {
    /// The entry at `row`, `col`, or an index error where either index
    /// lies beyond the extent.
    pub fn get(&self, row: usize, col: usize) -> (r: Result<MatrixElement, Error>)
        requires
            self.wf(),
        ensures
            r is Ok <==> row < self.rows_number && col < self.cols_number,
            r matches Ok(e) ==> e@ == self@[row as int][col as int] && e.wf(),
            r matches Err(e) ==> e matches Error::IndexOutOfBounds(_),
    {
        match self.assert_index(row, col) {
            Err(e) => Err(e),
            Ok(()) => Ok(self.elements[row][col]),
        }
    }

    /// The row at `row` as a vector, or an index error where it lies
    /// beyond the extent.
    pub fn get_row(&self, row: usize) -> (r: Result<Vector, Error>)
        requires
            self.wf(),
        ensures
            r is Ok <==> row < self.rows_number,
            r matches Ok(v) ==> v@ == self@[row as int] && v.wf(),
            r matches Err(e) ==> e matches Error::IndexOutOfBounds(_),
    {
        match self.assert_index(row, 0) {
            Err(e) => Err(e),
            Ok(()) => {
                let data = clone_row(&self.elements[row]);
                proof {
                    assert(vals(data@) =~= self@[row as int]);
                }
                Ok(Vector::new(data))
            },
        }
    }

    /// The column at `col` as a vector, or an index error where it lies
    /// beyond the extent.
    pub fn get_col(&self, col: usize) -> (r: Result<Vector, Error>)
        requires
            self.wf(),
        ensures
            r is Ok <==> col < self.cols_number,
            r matches Ok(v) ==> v@.len() == self.rows_number && v.wf() && forall|i: int|
                0 <= i < self.rows_number ==> #[trigger] v@[i] == self@[i][col as int],
            r matches Err(e) ==> e matches Error::IndexOutOfBounds(_),
    {
        match self.assert_index(0, col) {
            Err(e) => Err(e),
            Ok(()) => {
                let mut data: Vec<MatrixElement> = Vec::new();
                let mut i: usize = 0;
                while i < self.rows_number
                    invariant
                        self.wf(),
                        col < self.cols_number,
                        i <= self.rows_number,
                        data@.len() == i,
                        forall|k: int|
                            0 <= k < i ==> (#[trigger] data@[k])@ == self@[k][col as int]
                                && data@[k].wf(),
                    decreases self.rows_number - i,
                {
                    data.push(self.elements[i][col]);
                    i = i + 1;
                }
                Ok(Vector::new(data))
            },
        }
    }

    /// The rows of the matrix, top to bottom.
    pub fn as_rows(&self) -> (r: Vec<Vector>)
        requires
            self.wf(),
        ensures
            r@.len() == self.rows_number,
            forall|i: int|
                0 <= i < self.rows_number ==> (#[trigger] r@[i])@ == self@[i] && r@[i].wf(),
    {
        let mut rows: Vec<Vector> = Vec::new();
        let mut i: usize = 0;
        while i < self.rows_number
            invariant
                self.wf(),
                i <= self.rows_number,
                rows@.len() == i,
                forall|k: int| 0 <= k < i ==> (#[trigger] rows@[k])@ == self@[k] && rows@[k].wf(),
            decreases self.rows_number - i,
        {
            let row = match self.get_row(i) {
                Ok(v) => v,
                Err(_) => unreached(),
            };
            rows.push(row);
            i = i + 1;
        }
        rows
    }

    /// The columns of the matrix, left to right.
    pub fn as_cols(&self) -> (r: Vec<Vector>)
        requires
            self.wf(),
        ensures
            r@.len() == self.cols_number,
            forall|j: int|
                0 <= j < self.cols_number ==> (#[trigger] r@[j])@.len() == self.rows_number
                    && r@[j].wf(),
            forall|i: int, j: int|
                0 <= i < self.rows_number && 0 <= j < self.cols_number ==> #[trigger] r@[j]@[i]
                    == self@[i][j],
    {
        let mut cols: Vec<Vector> = Vec::new();
        let mut j: usize = 0;
        while j < self.cols_number
            invariant
                self.wf(),
                j <= self.cols_number,
                cols@.len() == j,
                forall|k: int|
                    0 <= k < j ==> (#[trigger] cols@[k])@.len() == self.rows_number
                        && cols@[k].wf(),
                forall|i: int, k: int|
                    0 <= i < self.rows_number && 0 <= k < j ==> (#[trigger] cols@[k]@[i])
                        == self@[i][k],
            decreases self.cols_number - j,
        {
            let col = match self.get_col(j) {
                Ok(v) => v,
                Err(_) => unreached(),
            };
            cols.push(col);
            j = j + 1;
        }
        cols
    }
}

} // verus!
