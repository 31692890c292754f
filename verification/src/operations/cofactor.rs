//! Minors, cofactors and the cofactor matrix.
//!
//! These build on the determinant and grow combinatorially with the
//! matrix size; they are meant for small inputs, not as an inversion
//! path.

use crate::element::{lemma_vals_index, MatrixElement};
use crate::matrix::{lemma_grid_index, Matrix};
use crate::operations::det::{det_ok, det_val};
use crate::rat::{r_ok, rat_int, rmul, Rat};
use crate::Error;
use vstd::prelude::*;

verus! {

broadcast use lemma_vals_index, lemma_grid_index;

/// The grid left after deleting row `r` and column `c`.
pub open spec fn minor_grid(g: Seq<Seq<Rat>>, r: int, c: int, m: int, n: int) -> Seq<Seq<Rat>> {
    Seq::new(
        (m - 1) as nat,
        |i: int|
            Seq::new(
                (n - 1) as nat,
                |j: int|
                    g[if i < r {
                        i
                    } else {
                        i + 1
                    }][if j < c {
                        j
                    } else {
                        j + 1
                    }],
            ),
    )
}

/// The sign of the cofactor at position `(r, c)`.
pub open spec fn cof_sign(r: int, c: int) -> Rat {
    if (r + c) % 2 == 0 {
        rat_int(1)
    } else {
        rat_int(-1)
    }
}

/// The cofactor at position `(r, c)` of a square grid of size `m`.
pub open spec fn cof_val(g: Seq<Seq<Rat>>, r: int, c: int, m: int) -> Rat {
    rmul(cof_sign(r, c), det_val(minor_grid(g, r, c, m, m), m - 1))
}

impl Matrix {
    /// The minor at `row`, `col`: the determinant of the matrix with
    /// that row and column deleted.  Fails on an out-of-range index, on
    /// a non-square matrix, and where an intermediate value leaves the
    /// representable range.
    pub fn get_minor(&self, row: usize, col: usize) -> (r: Result<MatrixElement, Error>)
        requires
            self.wf(),
            self.rows_number >= 2,
            self.cols_number >= 2,
        ensures
            r is Ok <==> row < self.rows_number && col < self.cols_number && self.is_square()
                && det_ok(
                minor_grid(
                    self@,
                    row as int,
                    col as int,
                    self.rows_number as int,
                    self.cols_number as int,
                ),
                self.rows_number as int - 1,
            ),
            r matches Ok(d) ==> d@ == det_val(
                minor_grid(
                    self@,
                    row as int,
                    col as int,
                    self.rows_number as int,
                    self.cols_number as int,
                ),
                self.rows_number as int - 1,
            ) && d.wf(),
            r matches Err(e) ==> if !(row < self.rows_number && col < self.cols_number) {
                e matches Error::IndexOutOfBounds(_)
            } else if !self.is_square() {
                e matches Error::ShouldBeSquare(_)
            } else {
                e matches Error::InvalidOperation(_)
            },
    {
        match self.assert_index(row, col) {
            Err(e) => {
                return Err(e);
            },
            Ok(()) => {},
        }
        let ghost mg = minor_grid(
            self@,
            row as int,
            col as int,
            self.rows_number as int,
            self.cols_number as int,
        );
        let mut elements: Vec<Vec<MatrixElement>> = Vec::new();
        let mut i: usize = 0;
        while i < self.rows_number
            invariant
                self.wf(),
                row < self.rows_number,
                col < self.cols_number,
                self.rows_number >= 2,
                self.cols_number >= 2,
                mg == minor_grid(
                    self@,
                    row as int,
                    col as int,
                    self.rows_number as int,
                    self.cols_number as int,
                ),
                i <= self.rows_number,
                elements@.len() == (if i <= row {
                    i as int
                } else {
                    i - 1
                }),
                forall|k: int|
                    0 <= k < elements@.len() ==> (#[trigger] elements@[k])@.len()
                        == self.cols_number - 1,
                forall|k: int, jj: int|
                    0 <= k < elements@.len() && 0 <= jj < self.cols_number - 1 ==> (
                    #[trigger] elements@[k]@[jj])@ == mg[k][jj],
            decreases self.rows_number - i,
        {
            if i != row {
                let mut row_elements: Vec<MatrixElement> = Vec::new();
                let mut j: usize = 0;
                while j < self.cols_number
                    invariant
                        self.wf(),
                        row < self.rows_number,
                        col < self.cols_number,
                        i < self.rows_number,
                        i != row,
                        j <= self.cols_number,
                        row_elements@.len() == (if j <= col {
                            j as int
                        } else {
                            j - 1
                        }),
                        forall|jj: int|
                            0 <= jj < row_elements@.len() ==> (#[trigger] row_elements@[jj])@
                                == self@[i as int][if jj < col {
                                jj
                            } else {
                                jj + 1
                            }],
                    decreases self.cols_number - j,
                {
                    if j != col {
                        row_elements.push(self.elements[i][j]);
                    }
                    j = j + 1;
                }
                elements.push(row_elements);
            }
            i = i + 1;
        }
        let sub = Matrix::new(elements);
        proof {
            assert(sub@ =~~= mg);
        }
        sub.det()
    }

    /// The cofactor at `row`, `col`: the minor with the checkerboard
    /// sign applied.  Fails exactly as [`Matrix::get_minor`] does.
    pub fn get_cofactor(&self, row: usize, col: usize) -> (r: Result<MatrixElement, Error>)
        requires
            self.wf(),
            self.rows_number >= 2,
            self.cols_number >= 2,
        ensures
            r is Ok <==> row < self.rows_number && col < self.cols_number && self.is_square()
                && det_ok(
                minor_grid(
                    self@,
                    row as int,
                    col as int,
                    self.rows_number as int,
                    self.cols_number as int,
                ),
                self.rows_number as int - 1,
            ) && r_ok(cof_val(self@, row as int, col as int, self.rows_number as int)),
            r matches Ok(d) ==> d@ == cof_val(self@, row as int, col as int, self.rows_number as int)
                && d.wf(),
            r matches Err(e) ==> if !(row < self.rows_number && col < self.cols_number) {
                e matches Error::IndexOutOfBounds(_)
            } else if !self.is_square() {
                e matches Error::ShouldBeSquare(_)
            } else {
                e matches Error::InvalidOperation(_)
            },
    {
        let sign = if (row % 2) == (col % 2) {
            MatrixElement::from_int(1)
        } else {
            MatrixElement::from_int(-1)
        };
        proof {
            assert(sign@ == cof_sign(row as int, col as int));
        }
        let minor = match self.get_minor(row, col) {
            Ok(d) => d,
            Err(e) => {
                return Err(e);
            },
        };
        match sign.mul(minor) {
            Some(v) => Ok(v),
            None => Err(Error::InvalidOperation("Cofactor left the representable range")),
        }
    }

    /// The matrix of cofactors: the cofactor evaluated at every
    /// position.  Fails exactly where some cofactor does.
    pub fn get_cofactor_matrix(&self) -> (r: Result<Self, Error>)
        requires
            self.wf(),
            self.rows_number >= 2,
            self.cols_number >= 2,
        ensures
            r is Ok <==> self.is_square() && forall|i: int, j: int|
                0 <= i < self.rows_number && 0 <= j < self.rows_number ==> r_ok(
                    #[trigger] cof_val(self@, i, j, self.rows_number as int),
                ) && det_ok(
                    minor_grid(
                        self@,
                        i,
                        j,
                        self.rows_number as int,
                        self.cols_number as int,
                    ),
                    self.rows_number as int - 1,
                ),
            r matches Ok(c) ==> c.wf() && c.rows_number == self.rows_number && c.cols_number
                == self.cols_number && forall|i: int, j: int|
                0 <= i < self.rows_number && 0 <= j < self.cols_number ==> #[trigger] c@[i][j]
                    == cof_val(self@, i, j, self.rows_number as int),
            r matches Err(e) ==> if !self.is_square() {
                e matches Error::ShouldBeSquare(_)
            } else {
                e matches Error::InvalidOperation(_)
            },
    {
        if self.rows_number != self.cols_number {
            match self.get_cofactor(0, 0) {
                Ok(_) => {
                    proof {
                        assert(false);
                    }
                },
                Err(e) => {
                    return Err(e);
                },
            }
        }
        let mut elements: Vec<Vec<MatrixElement>> = Vec::new();
        let mut i: usize = 0;
        while i < self.rows_number
            invariant
                self.wf(),
                self.is_square(),
                self.rows_number >= 2,
                self.cols_number >= 2,
                i <= self.rows_number,
                elements@.len() == i,
                forall|k: int|
                    0 <= k < i ==> (#[trigger] elements@[k])@.len() == self.cols_number,
                forall|k: int, j: int|
                    0 <= k < i && 0 <= j < self.cols_number ==> (#[trigger] elements@[k]@[j])@
                        == cof_val(self@, k, j, self.rows_number as int) && elements@[k]@[j].wf(),
                forall|k: int, j: int|
                    #![all_triggers]
                    0 <= k < i && 0 <= j < self.cols_number ==> r_ok(
                        cof_val(self@, k, j, self.rows_number as int),
                    ) && det_ok(
                        minor_grid(self@, k, j, self.rows_number as int, self.cols_number as int),
                        self.rows_number as int - 1,
                    ),
            decreases self.rows_number - i,
        {
            let mut row: Vec<MatrixElement> = Vec::new();
            let mut j: usize = 0;
            while j < self.cols_number
                invariant
                    self.wf(),
                    self.is_square(),
                    self.rows_number >= 2,
                    self.cols_number >= 2,
                    i < self.rows_number,
                    j <= self.cols_number,
                    row@.len() == j,
                    forall|jj: int|
                        0 <= jj < j ==> (#[trigger] row@[jj])@ == cof_val(
                            self@,
                            i as int,
                            jj,
                            self.rows_number as int,
                        ) && row@[jj].wf(),
                    forall|jj: int|
                        #![all_triggers]
                        0 <= jj < j ==> r_ok(
                            cof_val(self@, i as int, jj, self.rows_number as int),
                        ) && det_ok(
                            minor_grid(
                                self@,
                                i as int,
                                jj,
                                self.rows_number as int,
                                self.cols_number as int,
                            ),
                            self.rows_number as int - 1,
                        ),
                decreases self.cols_number - j,
            {
                let c = match self.get_cofactor(i, j) {
                    Ok(d) => d,
                    Err(e) => {
                        proof {
                            assert(!(r_ok(
                                cof_val(self@, i as int, j as int, self.rows_number as int),
                            ) && det_ok(
                                minor_grid(
                                    self@,
                                    i as int,
                                    j as int,
                                    self.rows_number as int,
                                    self.cols_number as int,
                                ),
                                self.rows_number as int - 1,
                            )));
                        }
                        return Err(e);
                    },
                };
                proof {
                    assert(c@ == cof_val(self@, i as int, j as int, self.rows_number as int));
                    assert(r_ok(cof_val(self@, i as int, j as int, self.rows_number as int)));
                    assert(det_ok(
                        minor_grid(
                            self@,
                            i as int,
                            j as int,
                            self.rows_number as int,
                            self.cols_number as int,
                        ),
                        self.rows_number as int - 1,
                    ));
                }
                row.push(c);
                j = j + 1;
            }
            elements.push(row);
            i = i + 1;
        }
        let r = Matrix::new(elements);
        Ok(r)
    }
}

} // verus!
