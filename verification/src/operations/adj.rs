//! The adjugate matrix.

use crate::element::lemma_vals_index;
use crate::matrix::{lemma_grid_index, Matrix};
use crate::operations::cofactor::{cof_val, minor_grid};
use crate::operations::det::det_ok;
use crate::rat::r_ok;
use crate::Error;
use vstd::prelude::*;

verus! {

broadcast use lemma_vals_index, lemma_grid_index;

impl Matrix {
    /// The adjugate: the transpose of the cofactor matrix.  Fails
    /// exactly where the cofactor matrix does.
    pub fn adj(&self) -> (r: Result<Self, Error>)
        requires
            self.wf(),
            self.rows_number >= 2,
            self.cols_number >= 2,
        ensures
            r is Ok <==> self.is_square() && forall|i: int, j: int|
                #![all_triggers]
                0 <= i < self.rows_number && 0 <= j < self.rows_number ==> r_ok(
                    cof_val(self@, i, j, self.rows_number as int),
                ) && det_ok(
                    minor_grid(self@, i, j, self.rows_number as int, self.cols_number as int),
                    self.rows_number as int - 1,
                ),
            r matches Ok(a) ==> a.wf() && a.rows_number == self.rows_number && a.cols_number
                == self.cols_number && forall|i: int, j: int|
                0 <= i < self.rows_number && 0 <= j < self.cols_number ==> #[trigger] a@[i][j]
                    == cof_val(self@, j, i, self.rows_number as int),
            r matches Err(e) ==> if !self.is_square() {
                e matches Error::ShouldBeSquare(_)
            } else {
                e matches Error::InvalidOperation(_)
            },
    {
        let cof = match self.get_cofactor_matrix() {
            Ok(c) => c,
            Err(e) => {
                return Err(e);
            },
        };
        Ok(cof.transpose())
    }
}

} // verus!
