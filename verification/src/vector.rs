//! Row and column vectors of matrix elements.
//!
//! A [`Vector`] is an ordered sequence of [`MatrixElement`].  Combining
//! operations (add, subtract, dot) demand equal lengths; checked results
//! are `None` exactly where some entry of the exact result leaves the
//! representable range.

use crate::element::{lemma_vals_index, opt_rat, opt_wf, vals, MatrixElement};
use crate::rat::{
    bounded, eps_eq, eps_zero, r_ok, radd, rat_zero, rmul, rneg, rsub, Rat,
};
use vstd::prelude::*;

verus! {

broadcast use lemma_vals_index;

/// Every fraction of the row is valid and within bounds.
pub open spec fn row_wf(s: Seq<Rat>) -> bool {
    forall|i: int| 0 <= i < s.len() ==> bounded(#[trigger] s[i])
}

/// Every fraction of the row is valid: none marks an out-of-range result.
pub open spec fn row_ok(s: Seq<Rat>) -> bool {
    forall|i: int| 0 <= i < s.len() ==> r_ok(#[trigger] s[i])
}

/// Entrywise negation.
pub open spec fn row_neg(a: Seq<Rat>) -> Seq<Rat> {
    Seq::new(a.len(), |i: int| rneg(a[i]))
}

/// Entrywise sum.
pub open spec fn row_add(a: Seq<Rat>, b: Seq<Rat>) -> Seq<Rat> {
    Seq::new(a.len(), |i: int| radd(a[i], b[i]))
}

/// Entrywise difference.
pub open spec fn row_sub(a: Seq<Rat>, b: Seq<Rat>) -> Seq<Rat> {
    Seq::new(a.len(), |i: int| rsub(a[i], b[i]))
}

/// Entrywise product with one scalar.
pub open spec fn row_scale(a: Seq<Rat>, k: Rat) -> Seq<Rat> {
    Seq::new(a.len(), |i: int| rmul(a[i], k))
}

/// Sum of the first `k` products `a[i] * b[i]`, accumulated left to
/// right from zero.
pub open spec fn dot_prefix(a: Seq<Rat>, b: Seq<Rat>, k: int) -> Rat
    decreases k,
{
    if k <= 0 {
        rat_zero()
    } else {
        radd(dot_prefix(a, b, k - 1), rmul(a[k - 1], b[k - 1]))
    }
}

/// Once a dot-product prefix marks an out-of-range result, every longer
/// prefix does too.
pub proof fn lemma_dot_prefix_poison(a: Seq<Rat>, b: Seq<Rat>, k: int, n: int)
    requires
        k <= n,
        !r_ok(dot_prefix(a, b, k)),
    ensures
        !r_ok(dot_prefix(a, b, n)),
    decreases n - k,
{
    if k < n {
        lemma_dot_prefix_poison(a, b, k + 1, n);
    }
}

/// Tolerant equality of two rows, compared entrywise over the shorter
/// length.
pub open spec fn row_eps_eq(a: Seq<Rat>, b: Seq<Rat>) -> bool {
    forall|i: int| 0 <= i < a.len() && i < b.len() ==> eps_eq(#[trigger] a[i], b[i])
}

/// A vector of matrix elements.
#[derive(Debug)]
pub struct Vector {
    /// The elements of the vector.
    pub data: Vec<MatrixElement>,
}

impl View for Vector {
    type V = Seq<Rat>;

    open spec fn view(&self) -> Seq<Rat> {
        vals(self.data@)
    }
}

impl Clone for Vector {
    /// Copies the vector, element by element.
    fn clone(&self) -> (r: Self)
        ensures
            r.data@ == self.data@,
    {
        let mut data: Vec<MatrixElement> = Vec::new();
        let mut i: usize = 0;
        while i < self.data.len()
            invariant
                i <= self.data@.len(),
                data@ == self.data@.take(i as int),
            decreases self.data@.len() - i,
        {
            data.push(self.data[i]);
            proof {
                assert(data@ =~= self.data@.take(i + 1 as int));
            }
            i = i + 1;
        }
        proof {
            assert(data@ =~= self.data@);
        }
        Vector { data }
    }
}

impl Vector {
    /// Every element is well-formed.
    pub open spec fn wf(&self) -> bool {
        row_wf(self@)
    }

    /// Creates a vector from a list of elements.
    pub fn new(data: Vec<MatrixElement>) -> (r: Self)
        ensures
            r.data@ == data@,
            r@ == vals(data@),
    {
        Vector { data }
    }

    /// A vector of the given length whose elements are all zero.
    pub fn zero(len: usize) -> (r: Self)
        ensures
            r@.len() == len,
            forall|i: int| 0 <= i < len ==> r@[i] == rat_zero(),
            r.wf(),
    {
        let mut data: Vec<MatrixElement> = Vec::new();
        let mut i: usize = 0;
        while i < len
            invariant
                i <= len,
                data@.len() == i,
                forall|j: int| 0 <= j < i ==> (#[trigger] data@[j])@ == rat_zero(),
            decreases len - i,
        {
            data.push(MatrixElement::zero());
            i = i + 1;
        }
        Vector { data }
    }

    /// The number of elements.
    pub fn len(&self) -> (r: usize)
        ensures
            r == self@.len(),
    {
        self.data.len()
    }

    /// True of the vector with no elements.
    pub fn is_empty(&self) -> (r: bool)
        ensures
            r == (self@.len() == 0),
    {
        self.data.len() == 0
    }

    /// True where every element is a tolerant zero.
    pub fn is_zero(&self) -> (r: bool)
        requires
            self.wf(),
        ensures
            r == forall|i: int| 0 <= i < self@.len() ==> eps_zero(#[trigger] self@[i]),
    {
        let mut i: usize = 0;
        while i < self.data.len()
            invariant
                self.wf(),
                i <= self@.len(),
                forall|j: int| 0 <= j < i ==> eps_zero(#[trigger] self@[j]),
            decreases self@.len() - i,
        {
            if !self.data[i].is_zero() {
                return false;
            }
            i = i + 1;
        }
        true
    }

    /// Entrywise negation; exact and always representable.
    pub fn negate(&self) -> (r: Self)
        requires
            self.wf(),
        ensures
            r@ == row_neg(self@),
            r.wf(),
    {
        let mut data: Vec<MatrixElement> = Vec::new();
        let mut i: usize = 0;
        while i < self.data.len()
            invariant
                self.wf(),
                i <= self@.len(),
                data@.len() == i,
                forall|j: int| 0 <= j < i ==> (#[trigger] data@[j])@ == row_neg(self@)[j]
                    && data@[j].wf(),
            decreases self@.len() - i,
        {
            data.push(self.data[i].negate());
            i = i + 1;
        }
        proof {
            assert(vals(data@) =~= row_neg(self@));
        }
        Vector { data }
    }

    /// Entrywise sum of two vectors of the same length, or `None` where
    /// some entry of the exact sum leaves the representable range.
    pub fn add(&self, other: &Self) -> (r: Option<Self>)
        requires
            self.wf(),
            other.wf(),
            self@.len() == other@.len(),
        ensures
            r matches Some(v) ==> v@ == row_add(self@, other@) && v.wf(),
            (r is Some) <==> row_ok(row_add(self@, other@)),
    {
        let mut data: Vec<MatrixElement> = Vec::new();
        let mut i: usize = 0;
        while i < self.data.len()
            invariant
                self.wf(),
                other.wf(),
                self@.len() == other@.len(),
                i <= self@.len(),
                data@.len() == i,
                forall|j: int| 0 <= j < i ==> (#[trigger] data@[j])@ == row_add(self@, other@)[j]
                    && data@[j].wf(),
            decreases self@.len() - i,
        {
            match self.data[i].add(other.data[i]) {
                Some(e) => data.push(e),
                None => {
                    proof {
                        assert(!r_ok(row_add(self@, other@)[i as int]));
                    }
                    return None;
                },
            }
            i = i + 1;
        }
        proof {
            assert(vals(data@) =~= row_add(self@, other@));
        }
        Some(Vector { data })
    }

    /// Entrywise difference of two vectors of the same length, or `None`
    /// where some entry of the exact difference leaves the representable
    /// range.
    pub fn subtract(&self, other: &Self) -> (r: Option<Self>)
        requires
            self.wf(),
            other.wf(),
            self@.len() == other@.len(),
        ensures
            r matches Some(v) ==> v@ == row_sub(self@, other@) && v.wf(),
            (r is Some) <==> row_ok(row_sub(self@, other@)),
    {
        let mut data: Vec<MatrixElement> = Vec::new();
        let mut i: usize = 0;
        while i < self.data.len()
            invariant
                self.wf(),
                other.wf(),
                self@.len() == other@.len(),
                i <= self@.len(),
                data@.len() == i,
                forall|j: int| 0 <= j < i ==> (#[trigger] data@[j])@ == row_sub(self@, other@)[j]
                    && data@[j].wf(),
            decreases self@.len() - i,
        {
            match self.data[i].sub(other.data[i]) {
                Some(e) => data.push(e),
                None => {
                    proof {
                        assert(!r_ok(row_sub(self@, other@)[i as int]));
                    }
                    return None;
                },
            }
            i = i + 1;
        }
        proof {
            assert(vals(data@) =~= row_sub(self@, other@));
        }
        Some(Vector { data })
    }

    /// Entrywise product with a scalar, or `None` where some entry of the
    /// exact result leaves the representable range.
    pub fn scale(&self, scalar: MatrixElement) -> (r: Option<Self>)
        requires
            self.wf(),
            scalar.wf(),
        ensures
            r matches Some(v) ==> v@ == row_scale(self@, scalar@) && v.wf(),
            (r is Some) <==> row_ok(row_scale(self@, scalar@)),
    {
        let mut data: Vec<MatrixElement> = Vec::new();
        let mut i: usize = 0;
        while i < self.data.len()
            invariant
                self.wf(),
                scalar.wf(),
                i <= self@.len(),
                data@.len() == i,
                forall|j: int| 0 <= j < i ==> (#[trigger] data@[j])@ == row_scale(self@, scalar@)[j]
                    && data@[j].wf(),
            decreases self@.len() - i,
        {
            match self.data[i].mul(scalar) {
                Some(e) => data.push(e),
                None => {
                    proof {
                        assert(!r_ok(row_scale(self@, scalar@)[i as int]));
                    }
                    return None;
                },
            }
            i = i + 1;
        }
        proof {
            assert(vals(data@) =~= row_scale(self@, scalar@));
        }
        Some(Vector { data })
    }

    /// Dot product of two vectors of the same length, accumulated left to
    /// right, or `None` where an intermediate value leaves the
    /// representable range.
    pub fn dot(&self, other: &Self) -> (r: Option<MatrixElement>)
        requires
            self.wf(),
            other.wf(),
            self@.len() == other@.len(),
        ensures
            opt_rat(r) == dot_prefix(self@, other@, self@.len() as int),
            opt_wf(r),
    {
        let n = self.data.len();
        let mut acc = MatrixElement::zero();
        let mut i: usize = 0;
        while i < n
            invariant
                self.wf(),
                other.wf(),
                self@.len() == other@.len(),
                n == self@.len(),
                i <= n,
                acc.wf(),
                acc@ == dot_prefix(self@, other@, i as int),
            decreases n - i,
        {
            let p = match self.data[i].mul(other.data[i]) {
                Some(e) => e,
                None => {
                    proof {
                        assert(!r_ok(dot_prefix(self@, other@, i + 1 as int)));
                        lemma_dot_prefix_poison(self@, other@, i + 1 as int, n as int);
                    }
                    return None;
                },
            };
            acc = match acc.add(p) {
                Some(e) => e,
                None => {
                    proof {
                        assert(!r_ok(dot_prefix(self@, other@, i + 1 as int)));
                        lemma_dot_prefix_poison(self@, other@, i + 1 as int, n as int);
                    }
                    return None;
                },
            };
            i = i + 1;
        }
        Some(acc)
    }

    /// Tolerant equality, compared entrywise over the shorter length.
    pub fn epsilon_equals(&self, other: &Self) -> (r: bool)
        requires
            self.wf(),
            other.wf(),
        ensures
            r == row_eps_eq(self@, other@),
    {
        let mut i: usize = 0;
        while i < self.data.len() && i < other.data.len()
            invariant
                self.wf(),
                other.wf(),
                i <= self@.len(),
                forall|j: int| 0 <= j < i && j < other@.len() ==> eps_eq(#[trigger] self@[j], other@[j]),
            decreases self@.len() - i,
        {
            if !self.data[i].epsilon_equals(&other.data[i]) {
                return false;
            }
            i = i + 1;
        }
        true
    }
}

} // verus!
