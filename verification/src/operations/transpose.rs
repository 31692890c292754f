//! Transposition.

use crate::element::{lemma_vals_index, MatrixElement};
use crate::matrix::{lemma_grid_index, Matrix};
use crate::rat::Rat;
use vstd::prelude::*;

verus! {

broadcast use lemma_vals_index, lemma_grid_index;

/// The transposed grid: entry `(i, j)` becomes entry `(j, i)`.
pub open spec fn grid_transpose(g: Seq<Seq<Rat>>, rows: int, cols: int) -> Seq<Seq<Rat>> {
    Seq::new(cols as nat, |j: int| Seq::new(rows as nat, |i: int| g[i][j]))
}

impl Matrix {
    /// The transpose of the matrix; exact and always representable.
    pub fn transpose(&self) -> (r: Self)
        requires
            self.wf(),
        ensures
            r.wf(),
            r.rows_number == self.cols_number,
            r.cols_number == self.rows_number,
            r@ == grid_transpose(self@, self.rows_number as int, self.cols_number as int),
    {
        let mut elements: Vec<Vec<MatrixElement>> = Vec::new();
        let mut j: usize = 0;
        while j < self.cols_number
            invariant
                self.wf(),
                j <= self.cols_number,
                elements@.len() == j,
                forall|k: int| 0 <= k < j ==> (#[trigger] elements@[k])@.len() == self.rows_number,
                forall|k: int, i: int|
                    0 <= k < j && 0 <= i < self.rows_number ==> (#[trigger] elements@[k]@[i])@
                        == self@[i][k],
            decreases self.cols_number - j,
        {
            let mut row: Vec<MatrixElement> = Vec::new();
            let mut i: usize = 0;
            while i < self.rows_number
                invariant
                    self.wf(),
                    j < self.cols_number,
                    i <= self.rows_number,
                    row@.len() == i,
                    forall|k: int| 0 <= k < i ==> (#[trigger] row@[k])@ == self@[k][j as int],
                decreases self.rows_number - i,
            {
                row.push(self.elements[i][j]);
                i = i + 1;
            }
            elements.push(row);
            j = j + 1;
        }
        let r = Matrix {
            cols_number: self.rows_number,
            rows_number: self.cols_number,
            elements,
        };
        proof {
            assert(r@ =~~= grid_transpose(self@, self.rows_number as int, self.cols_number as int));
        }
        r
    }
}

} // verus!
