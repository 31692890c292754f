//! The dense matrix container.
//!
//! A [`Matrix`] is a rectangular grid of [`MatrixElement`] with at least
//! one row and one column.  Its mathematical model is a sequence of rows
//! of fractions; every operation of the crate is specified against that
//! model.

use crate::element::{lemma_vals_index, vals, MatrixElement};
use crate::rat::{bounded, rat_one, rat_zero, snap, Rat};
use crate::vector::{row_eps_eq, row_ok, row_wf, Vector};
use crate::Error;
use vstd::prelude::*;

verus! {

broadcast use lemma_vals_index;

/// The grid of fractions a list of element rows stands for.
pub open spec fn grid(m: Seq<Vec<MatrixElement>>) -> Seq<Seq<Rat>> {
    Seq::new(m.len(), |i: int| vals(m[i]@))
}

/// Indexing the grid of a list of rows reads the fractions of that row.
pub broadcast proof fn lemma_grid_index(m: Seq<Vec<MatrixElement>>, i: int)
    requires
        0 <= i < m.len(),
    ensures
        #![trigger grid(m)[i]]
        #![trigger m[i]@]
        grid(m)[i] == vals(m[i]@),
{
}

/// A rectangular grid of fractions: `rows` rows of `cols` valid, bounded
/// entries each, with at least one row and one column.
pub open spec fn grid_wf(g: Seq<Seq<Rat>>, rows: int, cols: int) -> bool {
    &&& g.len() == rows
    &&& rows >= 1
    &&& cols >= 1
    &&& forall|i: int| 0 <= i < g.len() ==> (#[trigger] g[i]).len() == cols
    &&& forall|i: int| 0 <= i < g.len() ==> row_wf(#[trigger] g[i])
}

/// Every entry of every row is valid: none marks an out-of-range result.
pub open spec fn grid_ok(g: Seq<Seq<Rat>>) -> bool {
    forall|i: int| 0 <= i < g.len() ==> row_ok(#[trigger] g[i])
}

/// A row as the write primitives store it: entry by entry, with tolerant
/// zeros snapped to the exact zero.
pub open spec fn row_snap(s: Seq<Rat>) -> Seq<Rat> {
    Seq::new(s.len(), |j: int| snap(s[j]))
}

/// One entry written through the write primitive: tolerant zeros become
/// the exact zero.
pub open spec fn g_set(g: Seq<Seq<Rat>>, i: int, j: int, v: Rat) -> Seq<Seq<Rat>> {
    g.update(i, g[i].update(j, snap(v)))
}

/// One column of a grid, top to bottom.
pub open spec fn g_col(g: Seq<Seq<Rat>>, j: int) -> Seq<Rat> {
    Seq::new(g.len(), |i: int| g[i][j])
}

/// Two rows exchanged.
pub open spec fn g_swap_rows(g: Seq<Seq<Rat>>, r1: int, r2: int) -> Seq<Seq<Rat>> {
    g.update(r1, g[r2]).update(r2, g[r1])
}

/// Tolerant equality of two grids, compared over the common prefix of
/// rows.
pub open spec fn grid_eps_eq(a: Seq<Seq<Rat>>, b: Seq<Seq<Rat>>) -> bool {
    forall|i: int| 0 <= i < a.len() && i < b.len() ==> row_eps_eq(#[trigger] a[i], b[i])
}

/// A matrix.
#[derive(Debug)]
pub struct Matrix {
    /// The number of columns.
    pub cols_number: usize,
    /// The number of rows.
    pub rows_number: usize,
    /// The elements of the matrix, one inner vector per row.
    pub elements: Vec<Vec<MatrixElement>>,
}

impl View for Matrix {
    type V = Seq<Seq<Rat>>;

    open spec fn view(&self) -> Seq<Seq<Rat>> {
        grid(self.elements@)
    }
}

/// Copies one row of elements.
pub(crate) fn clone_row(v: &Vec<MatrixElement>) -> (r: Vec<MatrixElement>)
    ensures
        r@ == v@,
{
    let mut data: Vec<MatrixElement> = Vec::new();
    let mut i: usize = 0;
    while i < v.len()
        invariant
            i <= v@.len(),
            data@ == v@.take(i as int),
        decreases v@.len() - i,
    {
        data.push(v[i]);
        proof {
            assert(data@ =~= v@.take(i + 1 as int));
        }
        i = i + 1;
    }
    proof {
        assert(data@ =~= v@);
    }
    data
}

impl Clone for Matrix {
    /// Copies the matrix into a fresh allocation.
    fn clone(&self) -> (r: Self)
        ensures
            r@ == self@,
            r.rows_number == self.rows_number,
            r.cols_number == self.cols_number,
    {
        let mut elements: Vec<Vec<MatrixElement>> = Vec::new();
        let mut i: usize = 0;
        while i < self.elements.len()
            invariant
                i <= self.elements@.len(),
                elements@.len() == i,
                forall|j: int| 0 <= j < i ==> (#[trigger] elements@[j])@ == self.elements@[j]@,
            decreases self.elements@.len() - i,
        {
            elements.push(clone_row(&self.elements[i]));
            i = i + 1;
        }
        proof {
            assert(grid(elements@) =~~= grid(self.elements@));
        }
        Matrix { cols_number: self.cols_number, rows_number: self.rows_number, elements }
    }
}

impl Matrix {
    /// The matrix is rectangular, at least one by one, its recorded
    /// dimensions match the grid, and every entry is well-formed.
    pub open spec fn wf(&self) -> bool {
        grid_wf(self@, self.rows_number as int, self.cols_number as int)
    }

    /// True of a square matrix.
    pub open spec fn is_square(&self) -> bool {
        self.rows_number == self.cols_number
    }

    /// Creates a matrix from a list of rows, which must be nonempty and
    /// rectangular with at least one column.
    pub fn new(elements: Vec<Vec<MatrixElement>>) -> (r: Self)
        requires
            grid_wf(grid(elements@), elements@.len() as int, elements@[0]@.len() as int),
        ensures
            r@ == grid(elements@),
            r.wf(),
            r.rows_number == elements@.len(),
            r.cols_number == elements@[0]@.len(),
    {
        let rows_number = elements.len();
        let cols_number = elements[0].len();
        Matrix { cols_number, rows_number, elements }
    }

    /// Creates a matrix from a list of columns, which must be nonempty
    /// and of one common nonzero length.
    pub fn from_cols(cols: Vec<Vector>) -> (r: Self)
        requires
            cols@.len() >= 1,
            cols@[0]@.len() >= 1,
            forall|j: int| 0 <= j < cols@.len() ==> (#[trigger] cols@[j])@.len() == cols@[0]@.len(),
            forall|j: int| 0 <= j < cols@.len() ==> (#[trigger] cols@[j]).wf(),
        ensures
            r.wf(),
            r.rows_number == cols@[0]@.len(),
            r.cols_number == cols@.len(),
            forall|i: int, j: int|
                0 <= i < r@.len() && 0 <= j < cols@.len() ==> #[trigger] r@[i][j] == cols@[j]@[i],
    {
        let rows_number = cols[0].len();
        let cols_number = cols.len();
        let mut elements: Vec<Vec<MatrixElement>> = Vec::new();
        let mut i: usize = 0;
        while i < rows_number
            invariant
                cols@.len() >= 1,
                rows_number == cols@[0]@.len(),
                cols_number == cols@.len(),
                forall|j: int|
                    0 <= j < cols@.len() ==> (#[trigger] cols@[j])@.len() == cols@[0]@.len(),
                forall|j: int| 0 <= j < cols@.len() ==> (#[trigger] cols@[j]).wf(),
                i <= rows_number,
                elements@.len() == i,
                forall|k: int| 0 <= k < i ==> (#[trigger] elements@[k])@.len() == cols_number,
                forall|k: int, j: int|
                    0 <= k < i && 0 <= j < cols_number ==> (#[trigger] elements@[k]@[j])@
                        == cols@[j]@[k],
            decreases rows_number - i,
        {
            let mut row: Vec<MatrixElement> = Vec::new();
            let mut j: usize = 0;
            while j < cols_number
                invariant
                    cols@.len() == cols_number,
                    i < rows_number,
                    rows_number == cols@[0]@.len(),
                    forall|jj: int|
                        0 <= jj < cols@.len() ==> (#[trigger] cols@[jj])@.len() == cols@[0]@.len(),
                    forall|jj: int| 0 <= jj < cols@.len() ==> (#[trigger] cols@[jj]).wf(),
                    j <= cols_number,
                    row@.len() == j,
                    forall|jj: int| 0 <= jj < j ==> (#[trigger] row@[jj])@ == cols@[jj]@[i as int],
                decreases cols_number - j,
            {
                row.push(cols[j].data[i]);
                j = j + 1;
            }
            elements.push(row);
            i = i + 1;
        }
        let r = Matrix { cols_number, rows_number, elements };
        proof {
            assert forall|i: int| 0 <= i < r@.len() implies row_wf(#[trigger] r@[i]) by {
                assert(forall|j: int|
                    0 <= j < cols_number ==> #[trigger] r@[i][j] == cols@[j]@[i]);
            }
        }
        r
    }

    /// A matrix of the given dimensions whose entries are all zero.
    pub fn zero(rows: usize, cols: usize) -> (r: Self)
        requires
            rows >= 1,
            cols >= 1,
        ensures
            r.wf(),
            r.rows_number == rows,
            r.cols_number == cols,
            forall|i: int, j: int|
                0 <= i < rows && 0 <= j < cols ==> #[trigger] r@[i][j] == rat_zero(),
    {
        let mut elements: Vec<Vec<MatrixElement>> = Vec::new();
        let mut i: usize = 0;
        while i < rows
            invariant
                i <= rows,
                elements@.len() == i,
                forall|k: int| 0 <= k < i ==> (#[trigger] elements@[k])@.len() == cols,
                forall|k: int, j: int|
                    0 <= k < i && 0 <= j < cols ==> (#[trigger] elements@[k]@[j])@ == rat_zero(),
            decreases rows - i,
        {
            let mut row: Vec<MatrixElement> = Vec::new();
            let mut j: usize = 0;
            while j < cols
                invariant
                    j <= cols,
                    row@.len() == j,
                    forall|jj: int| 0 <= jj < j ==> (#[trigger] row@[jj])@ == rat_zero(),
                decreases cols - j,
            {
                row.push(MatrixElement::zero());
                j = j + 1;
            }
            elements.push(row);
            i = i + 1;
        }
        Matrix { cols_number: cols, rows_number: rows, elements }
    }

    /// The identity matrix of the given size.
    pub fn identity(size: usize) -> (r: Self)
        requires
            size >= 1,
        ensures
            r.wf(),
            r.rows_number == size,
            r.cols_number == size,
            forall|i: int, j: int|
                0 <= i < size && 0 <= j < size ==> #[trigger] r@[i][j] == if i == j {
                    rat_one()
                } else {
                    rat_zero()
                },
    {
        let mut matrix = Self::zero(size, size);
        let mut i: usize = 0;
        while i < size
            invariant
                matrix.wf(),
                matrix.rows_number == size,
                matrix.cols_number == size,
                i <= size,
                forall|k: int, j: int|
                    0 <= k < size && 0 <= j < size ==> #[trigger] matrix@[k][j] == if k == j && k
                        < i {
                        rat_one()
                    } else {
                        rat_zero()
                    },
            decreases size - i,
        {
            let one = MatrixElement::one();
            let ghost prev = matrix@;
            proof {
                assert(prev[i as int] == vals(matrix.elements@[i as int]@));
                assert(prev[i as int].len() == size);
            }
            let row = &mut matrix.elements[i];
            row[i] = one;
            proof {
                assert(matrix@ =~~= prev.update(i as int, prev[i as int].update(i as int, rat_one())));
            }
            i = i + 1;
        }
        matrix
    }

    /// Checks that the matrix is square; on a non-square matrix returns
    /// the square-only error carrying `msg`.
    pub fn assert_square(&self, msg: &'static str) -> (r: Result<(), Error>)
        ensures
            r == if self.rows_number != self.cols_number {
                Result::<(), Error>::Err(Error::ShouldBeSquare(msg))
            } else {
                Result::<(), Error>::Ok(())
            },
    {
        if self.rows_number != self.cols_number {
            return Err(Error::ShouldBeSquare(msg));
        }
        Ok(())
    }

    /// Checks that `row` and `col` lie within the matrix extent; returns
    /// an index error naming the offending axis otherwise.
    pub fn assert_index(&self, row: usize, col: usize) -> (r: Result<(), Error>)
        ensures
            r is Ok <==> row < self.rows_number && col < self.cols_number,
            r matches Err(e) ==> e matches Error::IndexOutOfBounds(_),
    {
        if row >= self.rows_number {
            return Err(Error::IndexOutOfBounds("Row index out of bounds"));
        }
        if col >= self.cols_number {
            return Err(Error::IndexOutOfBounds("Column index out of bounds"));
        }
        Ok(())
    }
}

} // verus!
