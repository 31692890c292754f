//! Writing entries, rows and columns.
//!
//! Every write goes through [`Matrix::set`], which stores tolerant zeros
//! as the exact zero.

use crate::element::{lemma_vals_index, MatrixElement};
use crate::matrix::{g_set, lemma_grid_index, row_snap, Matrix};
use crate::rat::snap;
use crate::vector::Vector;
use crate::Error;
use vstd::prelude::*;

verus! {

broadcast use lemma_vals_index, lemma_grid_index;

impl Matrix {
    /// Writes one entry; tolerant zeros are stored as the exact zero.
    /// Where either index lies beyond the extent, returns an index error
    /// and leaves the matrix unchanged.
    pub fn set(&mut self, row: usize, col: usize, value: MatrixElement) -> (r: Result<(), Error>)
        requires
            old(self).wf(),
            value.wf(),
        ensures
            r is Ok <==> row < old(self).rows_number && col < old(self).cols_number,
            r is Ok ==> final(self)@ == g_set(old(self)@, row as int, col as int, value@),
            r is Err ==> final(self)@ == old(self)@,
            r matches Err(e) ==> e matches Error::IndexOutOfBounds(_),
            final(self).wf(),
            final(self).rows_number == old(self).rows_number,
            final(self).cols_number == old(self).cols_number,
    {
        match self.assert_index(row, col) {
            Err(e) => Err(e),
            Ok(()) => {
                let stored_value = if value.is_zero() {
                    MatrixElement::zero()
                } else {
                    value
                };
                let ghost prev = self@;
                proof {
                    assert(prev[row as int].len() == self.cols_number);
                }
                let row_ref = &mut self.elements[row];
                row_ref[col] = stored_value;
                proof {
                    assert(self@ =~~= g_set(prev, row as int, col as int, value@));
                }
                Ok(())
            },
        }
    }

    /// Replaces one row; its length must match the column count.  On an
    /// out-of-range index or a length mismatch the matrix is unchanged.
    pub fn set_row(&mut self, row: usize, values: Vector) -> (r: Result<(), Error>)
        requires
            old(self).wf(),
            values.wf(),
        ensures
            r is Ok <==> row < old(self).rows_number && values@.len() == old(self).cols_number,
            r is Ok ==> final(self)@ == old(self)@.update(row as int, row_snap(values@)),
            r is Err ==> final(self)@ == old(self)@,
            r matches Err(e) ==> (e matches Error::IndexOutOfBounds(_) && row >= old(
                self,
            ).rows_number) || (e matches Error::InvalidOperation(_) && row < old(self).rows_number
                && values@.len() != old(self).cols_number),
            final(self).wf(),
            final(self).rows_number == old(self).rows_number,
            final(self).cols_number == old(self).cols_number,
    {
        match self.assert_index(row, 0) {
            Err(e) => Err(e),
            Ok(()) => {
                if values.len() != self.cols_number {
                    return Err(
                        Error::InvalidOperation("Values length must be equal to columns to set row"),
                    );
                }
                let ghost initial = self@;
                let mut i: usize = 0;
                while i < self.cols_number
                    invariant
                        self.wf(),
                        old(self).wf(),
                        values.wf(),
                        row < self.rows_number,
                        values@.len() == self.cols_number,
                        self.rows_number == old(self).rows_number,
                        self.cols_number == old(self).cols_number,
                        i <= self.cols_number,
                        initial == old(self)@,
                        self@.len() == initial.len(),
                        forall|k: int| 0 <= k < self@.len() && k != row ==> #[trigger] self@[k]
                            == initial[k],
                        self@[row as int].len() == self.cols_number,
                        forall|j: int|
                            0 <= j < i ==> #[trigger] self@[row as int][j] == snap(values@[j]),
                        forall|j: int|
                            i <= j < self.cols_number ==> #[trigger] self@[row as int][j]
                                == initial[row as int][j],
                    decreases self.cols_number - i,
                {
                    let e = values.data[i];
                    let ghost mid = self@;
                    match self.set(row, i, e) {
                        Ok(()) => {},
                        Err(_) => {
                            proof {
                                assert(false);
                            }
                        },
                    }
                    proof {
                        assert(self@ == g_set(mid, row as int, i as int, values@[i as int]));
                        assert(self@[row as int] =~= mid[row as int].update(
                            i as int,
                            snap(values@[i as int]),
                        ));
                    }
                    i = i + 1;
                }
                proof {
                    assert(self@ =~~= initial.update(row as int, row_snap(values@)));
                }
                Ok(())
            },
        }
    }

    /// Replaces one column; its length must match the row count.  On an
    /// out-of-range index or a length mismatch the matrix is unchanged.
    pub fn set_col(&mut self, col: usize, values: Vector) -> (r: Result<(), Error>)
        requires
            old(self).wf(),
            values.wf(),
        ensures
            r is Ok <==> col < old(self).cols_number && values@.len() == old(self).rows_number,
            r is Ok ==> final(self)@ == Seq::new(
                old(self)@.len(),
                |i: int| old(self)@[i].update(col as int, snap(values@[i])),
            ),
            r is Err ==> final(self)@ == old(self)@,
            r matches Err(e) ==> (e matches Error::IndexOutOfBounds(_) && col >= old(
                self,
            ).cols_number) || (e matches Error::InvalidOperation(_) && col < old(self).cols_number
                && values@.len() != old(self).rows_number),
            final(self).wf(),
            final(self).rows_number == old(self).rows_number,
            final(self).cols_number == old(self).cols_number,
    {
        match self.assert_index(0, col) {
            Err(e) => Err(e),
            Ok(()) => {
                if values.len() != self.rows_number {
                    return Err(
                        Error::InvalidOperation("Values length must be equal to rows to set column"),
                    );
                }
                let ghost initial = self@;
                let mut i: usize = 0;
                while i < self.rows_number
                    invariant
                        self.wf(),
                        old(self).wf(),
                        values.wf(),
                        col < self.cols_number,
                        values@.len() == self.rows_number,
                        self.rows_number == old(self).rows_number,
                        self.cols_number == old(self).cols_number,
                        i <= self.rows_number,
                        initial == old(self)@,
                        self@.len() == initial.len(),
                        forall|k: int|
                            0 <= k < i ==> #[trigger] self@[k] == initial[k].update(
                                col as int,
                                snap(values@[k]),
                            ),
                        forall|k: int| i <= k < self@.len() ==> #[trigger] self@[k] == initial[k],
                    decreases self.rows_number - i,
                {
                    let e = values.data[i];
                    let ghost mid = self@;
                    match self.set(i, col, e) {
                        Ok(()) => {},
                        Err(_) => {
                            proof {
                                assert(false);
                            }
                        },
                    }
                    proof {
                        assert(self@ == g_set(mid, i as int, col as int, values@[i as int]));
                        assert(self@[i as int] =~= initial[i as int].update(
                            col as int,
                            snap(values@[i as int]),
                        ));
                    }
                    i = i + 1;
                }
                proof {
                    assert(self@ =~~= Seq::new(
                        initial.len(),
                        |i: int| initial[i].update(col as int, snap(values@[i])),
                    ));
                }
                Ok(())
            },
        }
    }
}

} // verus!
