use crate::elem::MatElem;
use crate::elem::RandomElem;
use vstd::arithmetic::div_mod::lemma_fundamental_div_mod_converse;
use vstd::prelude::*;

verus! {

/// The one failure taxonomy of the algebra: `ShapeMismatch` covers
/// every operation whose operands' dimensions disagree, and
/// `SizeMismatch` covers construction from data whose length does not
/// match the requested dimensions.
#[derive(Clone, Copy, Debug, PartialEq, Eq, Structural)]
pub enum MatError {
    ShapeMismatch,
    SizeMismatch,
}

/// The mathematical model of a matrix: a row-major sequence of
/// elements together with its dimensions.
#[verifier::ext_equal]
pub struct MatView<T> {
    pub rows: nat,
    pub cols: nat,
    pub data: Seq<T>,
}

impl<T: MatElem> MatView<T> {
    /// The dimension invariant: the flat data holds exactly one
    /// element per cell.
    pub open spec fn wf(self) -> bool {
        self.data.len() == self.rows * self.cols
    }

    /// The element in row `i`, column `j`, at row-major offset
    /// `i * cols + j`.
    pub open spec fn entry(self, i: int, j: int) -> T {
        self.data[i * self.cols as int + j]
    }

    pub open spec fn same_shape(self, other: MatView<T>) -> bool {
        self.rows == other.rows && self.cols == other.cols
    }

    /// Element-by-element sum.
    pub open spec fn add_view(self, other: MatView<T>) -> MatView<T> {
        MatView {
            rows: self.rows,
            cols: self.cols,
            data: Seq::new(self.data.len(), |k: int| self.data[k].add_spec(other.data[k])),
        }
    }

    /// Element-by-element difference.
    pub open spec fn sub_view(self, other: MatView<T>) -> MatView<T> {
        MatView {
            rows: self.rows,
            cols: self.cols,
            data: Seq::new(self.data.len(), |k: int| self.data[k].sub_spec(other.data[k])),
        }
    }

    /// Element-by-element product.
    pub open spec fn mul_view(self, other: MatView<T>) -> MatView<T> {
        MatView {
            rows: self.rows,
            cols: self.cols,
            data: Seq::new(self.data.len(), |k: int| self.data[k].mul_spec(other.data[k])),
        }
    }

    /// Every element negated, where the negation of `x` is `zero - x`.
    pub open spec fn neg_view(self) -> MatView<T> {
        MatView {
            rows: self.rows,
            cols: self.cols,
            data: Seq::new(self.data.len(), |k: int| T::zero_spec().sub_spec(self.data[k])),
        }
    }

    /// Every element multiplied on the right by the scalar `k`.
    pub open spec fn scale_view(self, k: T) -> MatView<T> {
        MatView {
            rows: self.rows,
            cols: self.cols,
            data: Seq::new(self.data.len(), |t: int| self.data[t].mul_spec(k)),
        }
    }

    /// The mirror image across the diagonal: entry `(j, i)` of the
    /// result is entry `(i, j)` of `self`.
    pub open spec fn transpose_view(self) -> MatView<T> {
        MatView {
            rows: self.cols,
            cols: self.rows,
            data: Seq::new(
                self.cols * self.rows,
                |p: int|
                    self.data[(p % self.rows as int) * self.cols as int + p / self.rows as int],
            ),
        }
    }

    /// The first `k` terms of the inner product of row `i` of `self`
    /// with column `j` of `other`, accumulated from zero on the left.
    pub open spec fn dot_partial(self, other: MatView<T>, i: int, j: int, k: int) -> T
        decreases k,
    {
        if k <= 0 {
            T::zero_spec()
        } else {
            self.dot_partial(other, i, j, k - 1).add_spec(
                self.data[i * self.cols as int + (k - 1)].mul_spec(
                    other.data[(k - 1) * other.cols as int + j],
                ),
            )
        }
    }

    /// The matrix product: shape `(self.rows, other.cols)`, each entry
    /// the inner product of the matching row and column.
    pub open spec fn dot_view(self, other: MatView<T>) -> MatView<T> {
        MatView {
            rows: self.rows,
            cols: other.cols,
            data: Seq::new(
                self.rows * other.cols,
                |p: int|
                    self.dot_partial(
                        other,
                        p / other.cols as int,
                        p % other.cols as int,
                        self.cols as int,
                    ),
            ),
        }
    }
}

/// A row-major offset lies inside the buffer whenever its coordinates
/// lie inside the dimensions.
pub proof fn lemma_index_bound(i: int, j: int, r: int, c: int)
    by (nonlinear_arith)
    requires
        0 <= i < r,
        0 <= j < c,
    ensures
        0 <= i * c + j < r * c,
{
}

/// A generic dense two-dimensional container of numeric elements,
/// stored row-major in a flat buffer of length `rows * cols`.
#[derive(Clone, Debug, PartialEq)]
pub struct Mat<T: MatElem> {
    pub rows: usize,
    pub cols: usize,
    data: Vec<T>,
}

impl<T: MatElem> View for Mat<T> {
    type V = MatView<T>;

    closed spec fn view(&self) -> MatView<T> {
        MatView { rows: self.rows as nat, cols: self.cols as nat, data: self.data@ }
    }
}

impl<T: MatElem> Mat<T> {
    pub open spec fn wf(self) -> bool {
        self@.wf()
    }

    /// The number of rows, as the view knows it.
    pub fn nrows(&self) -> (r: usize)
        ensures
            r == self@.rows,
    {
        self.rows
    }

    /// The number of columns, as the view knows it.
    pub fn ncols(&self) -> (r: usize)
        ensures
            r == self@.cols,
    {
        self.cols
    }

    /// Builds a matrix from explicit dimensions and a flat row-major
    /// buffer; the data must hold exactly one element per cell, and a
    /// wrong amount is rejected as a `SizeMismatch`.
    pub fn new(rows: usize, cols: usize, data: Vec<T>) -> (r: Result<Mat<T>, MatError>)
        ensures
            match r {
                Ok(m) => data@.len() == rows * cols && m@ == (MatView {
                    rows: rows as nat,
                    cols: cols as nat,
                    data: data@,
                }) && m.wf(),
                Err(e) => e == MatError::SizeMismatch && data@.len() != rows * cols,
            },
    {
        let len = data.len();
        let fits = match rows.checked_mul(cols) {
            Some(p) => len == p,
            None => false,
        };
        if fits {
            Ok(Mat { rows, cols, data })
        } else {
            Err(MatError::SizeMismatch)
        }
    }

    /// The element at row `row`, column `col`.
    pub fn at(&self, row: usize, col: usize) -> (r: &T)
        requires
            self.wf(),
            row < self@.rows,
            col < self@.cols,
        ensures
            *r == self@.entry(row as int, col as int),
    {
        proof {
            assert(self.data.len() <= usize::MAX);
            lemma_index_bound(row as int, col as int, self@.rows as int, self@.cols as int);
        }
        &self.data[row * self.cols + col]
    }

    /// A mutable borrow of the element at row `row`, column `col`;
    /// the sole in-place mutation the container offers.
    pub fn at_mut(&mut self, row: usize, col: usize) -> (r: &mut T)
        requires
            old(self).wf(),
            row < old(self)@.rows,
            col < old(self)@.cols,
        ensures
            *r == old(self)@.entry(row as int, col as int),
            final(self)@.rows == old(self)@.rows,
            final(self)@.cols == old(self)@.cols,
            final(self)@.data == old(self)@.data.update(
                row as int * old(self)@.cols as int + col as int,
                *final(r),
            ),
            final(self).wf(),
    {
        proof {
            assert(self.data.len() <= usize::MAX);
            lemma_index_bound(row as int, col as int, self@.rows as int, self@.cols as int);
        }
        &mut self.data[row * self.cols + col]
    }

    /// A copy of row `i`: the contiguous row-major slice from
    /// `i * cols` up to `(i + 1) * cols`.
    pub fn row(&self, i: usize) -> (r: Vec<T>)
        requires
            self.wf(),
            i < self@.rows,
        ensures
            r@ == self@.data.subrange(
                i as int * self@.cols as int,
                (i as int + 1) * self@.cols as int,
            ),
            r@.len() == self@.cols,
    {
        let mut out: Vec<T> = Vec::new();
        let mut k: usize = 0;
        while k < self.cols
            invariant
                k <= self@.cols,
                i < self@.rows,
                self.wf(),
                out@.len() == k,
                forall|t: int|
                    0 <= t < k ==> out@[t] == self@.data[i as int * self@.cols as int + t],
            decreases self@.cols - k,
        {
            proof {
                assert(self.data.len() <= usize::MAX);
                lemma_index_bound(i as int, k as int, self@.rows as int, self@.cols as int);
            }
            out.push(self.data[i * self.cols + k]);
            k += 1;
        }
        proof {
            assert(i as int * self@.cols as int + self@.cols as int == (i as int + 1)
                * self@.cols as int) by (nonlinear_arith);
            assert((i as int + 1) * self@.cols as int <= self@.rows as int * self@.cols as int)
                by (nonlinear_arith)
                requires
                    0 <= i as int + 1 <= self@.rows as int,
                    self@.cols as int >= 0,
            ;
            assert(out@ =~= self@.data.subrange(
                i as int * self@.cols as int,
                (i as int + 1) * self@.cols as int,
            ));
        }
        out
    }

    /// A matrix of the requested shape filled with the element type's
    /// zero.
    pub fn default_with_size(rows: usize, cols: usize) -> (r: Mat<T>)
        requires
            rows * cols <= usize::MAX,
        ensures
            r@.rows == rows,
            r@.cols == cols,
            r@.data == Seq::new((rows * cols) as nat, |k: int| T::zero_spec()),
            r.wf(),
    {
        let n = rows * cols;
        let mut data: Vec<T> = Vec::new();
        let mut k: usize = 0;
        while k < n
            invariant
                k <= n,
                data@.len() == k,
                forall|t: int| 0 <= t < k ==> data@[t] == T::zero_spec(),
            decreases n - k,
        {
            data.push(T::zero_elem());
            k += 1;
        }
        let m = Mat { rows, cols, data };
        proof {
            assert(m@.data =~= Seq::new((rows * cols) as nat, |k: int| T::zero_spec()));
        }
        m
    }

    /// Element-by-element sum; operands of differing shapes are
    /// rejected as a `ShapeMismatch`.
    pub fn add(&self, other: &Mat<T>) -> (r: Result<Mat<T>, MatError>)
        requires
            self.wf(),
            other.wf(),
        ensures
            match r {
                Ok(m) => self@.same_shape(other@) && m@ == self@.add_view(other@) && m.wf(),
                Err(e) => e == MatError::ShapeMismatch && !self@.same_shape(other@),
            },
    {
        if self.rows != other.rows || self.cols != other.cols {
            return Err(MatError::ShapeMismatch);
        }
        let n = self.data.len();
        let mut data: Vec<T> = Vec::new();
        let mut k: usize = 0;
        while k < n
            invariant
                k <= n,
                n == self@.data.len(),
                other@.data.len() == n,
                data@.len() == k,
                forall|t: int|
                    0 <= t < k ==> data@[t] == self@.data[t].add_spec(other@.data[t]),
            decreases n - k,
        {
            data.push(self.data[k].add_elem(other.data[k]));
            k += 1;
        }
        let m = Mat { rows: self.rows, cols: self.cols, data };
        proof {
            assert(m@ =~= self@.add_view(other@));
        }
        Ok(m)
    }

    /// Element-by-element difference; operands of differing shapes are
    /// rejected as a `ShapeMismatch`.
    pub fn sub(&self, other: &Mat<T>) -> (r: Result<Mat<T>, MatError>)
        requires
            self.wf(),
            other.wf(),
        ensures
            match r {
                Ok(m) => self@.same_shape(other@) && m@ == self@.sub_view(other@) && m.wf(),
                Err(e) => e == MatError::ShapeMismatch && !self@.same_shape(other@),
            },
    {
        if self.rows != other.rows || self.cols != other.cols {
            return Err(MatError::ShapeMismatch);
        }
        let n = self.data.len();
        let mut data: Vec<T> = Vec::new();
        let mut k: usize = 0;
        while k < n
            invariant
                k <= n,
                n == self@.data.len(),
                other@.data.len() == n,
                data@.len() == k,
                forall|t: int|
                    0 <= t < k ==> data@[t] == self@.data[t].sub_spec(other@.data[t]),
            decreases n - k,
        {
            data.push(self.data[k].sub_elem(other.data[k]));
            k += 1;
        }
        let m = Mat { rows: self.rows, cols: self.cols, data };
        proof {
            assert(m@ =~= self@.sub_view(other@));
        }
        Ok(m)
    }

    /// Element-by-element product; operands of differing shapes are
    /// rejected as a `ShapeMismatch`.
    pub fn elementwise_mul(&self, other: &Mat<T>) -> (r: Result<Mat<T>, MatError>)
        requires
            self.wf(),
            other.wf(),
        ensures
            match r {
                Ok(m) => self@.same_shape(other@) && m@ == self@.mul_view(other@) && m.wf(),
                Err(e) => e == MatError::ShapeMismatch && !self@.same_shape(other@),
            },
    {
        if self.rows != other.rows || self.cols != other.cols {
            return Err(MatError::ShapeMismatch);
        }
        let n = self.data.len();
        let mut data: Vec<T> = Vec::new();
        let mut k: usize = 0;
        while k < n
            invariant
                k <= n,
                n == self@.data.len(),
                other@.data.len() == n,
                data@.len() == k,
                forall|t: int|
                    0 <= t < k ==> data@[t] == self@.data[t].mul_spec(other@.data[t]),
            decreases n - k,
        {
            data.push(self.data[k].mul_elem(other.data[k]));
            k += 1;
        }
        let m = Mat { rows: self.rows, cols: self.cols, data };
        proof {
            assert(m@ =~= self@.mul_view(other@));
        }
        Ok(m)
    }

    /// The general binary element-wise combinator underlying the three
    /// named ones: pairs up elements of equal-shaped operands and
    /// applies `f`; operands of differing shapes are rejected as a
    /// `ShapeMismatch`.
    pub fn elementwise<F: Fn(T, T) -> T>(&self, other: &Mat<T>, f: &F) -> (r: Result<
        Mat<T>,
        MatError,
    >)
        requires
            self.wf(),
            other.wf(),
            self@.same_shape(other@) ==> forall|k: int|
                0 <= k < self@.data.len() ==> call_requires(*f, (self@.data[k], other@.data[k])),
        ensures
            match r {
                Ok(m) => self@.same_shape(other@) && m@.rows == self@.rows && m@.cols
                    == self@.cols && m@.data.len() == self@.data.len() && m.wf() && forall|k: int|
                    0 <= k < self@.data.len() ==> call_ensures(
                        *f,
                        (self@.data[k], other@.data[k]),
                        #[trigger] m@.data[k],
                    ),
                Err(e) => e == MatError::ShapeMismatch && !self@.same_shape(other@),
            },
    {
        if self.rows != other.rows || self.cols != other.cols {
            return Err(MatError::ShapeMismatch);
        }
        let n = self.data.len();
        let mut data: Vec<T> = Vec::new();
        let mut k: usize = 0;
        while k < n
            invariant
                k <= n,
                n == self@.data.len(),
                other@.data.len() == n,
                data@.len() == k,
                self@.same_shape(other@),
                forall|t: int|
                    0 <= t < n ==> call_requires(*f, (self@.data[t], other@.data[t])),
                forall|t: int|
                    0 <= t < k ==> call_ensures(
                        *f,
                        (self@.data[t], other@.data[t]),
                        #[trigger] data@[t],
                    ),
            decreases n - k,
        {
            data.push(f(self.data[k], other.data[k]));
            k += 1;
        }
        Ok(Mat { rows: self.rows, cols: self.cols, data })
    }

    /// A new matrix with `f` applied to every element, shape
    /// preserved.
    pub fn map<F: Fn(T) -> T>(&self, f: &F) -> (r: Mat<T>)
        requires
            forall|k: int| 0 <= k < self@.data.len() ==> call_requires(*f, (self@.data[k],)),
        ensures
            r@.rows == self@.rows,
            r@.cols == self@.cols,
            r@.data.len() == self@.data.len(),
            forall|k: int|
                0 <= k < self@.data.len() ==> call_ensures(*f, (self@.data[k],), #[trigger] r@.data[k]),
            self.wf() ==> r.wf(),
    {
        let n = self.data.len();
        let mut data: Vec<T> = Vec::new();
        let mut k: usize = 0;
        while k < n
            invariant
                k <= n,
                n == self@.data.len(),
                data@.len() == k,
                forall|t: int| 0 <= t < n ==> call_requires(*f, (self@.data[t],)),
                forall|t: int|
                    0 <= t < k ==> call_ensures(*f, (self@.data[t],), #[trigger] data@[t]),
            decreases n - k,
        {
            data.push(f(self.data[k]));
            k += 1;
        }
        Mat { rows: self.rows, cols: self.cols, data }
    }

    /// Every element multiplied on the right by the scalar `k`, shape
    /// preserved.
    pub fn scale(&self, k: T) -> (r: Mat<T>)
        ensures
            r@ == self@.scale_view(k),
            self.wf() ==> r.wf(),
    {
        let n = self.data.len();
        let mut data: Vec<T> = Vec::new();
        let mut t: usize = 0;
        while t < n
            invariant
                t <= n,
                n == self@.data.len(),
                data@.len() == t,
                forall|u: int| 0 <= u < t ==> data@[u] == self@.data[u].mul_spec(k),
            decreases n - t,
        {
            data.push(self.data[t].mul_elem(k));
            t += 1;
        }
        let m = Mat { rows: self.rows, cols: self.cols, data };
        proof {
            assert(m@ =~= self@.scale_view(k));
        }
        m
    }

    /// The standard matrix product, accumulated from the element
    /// type's zero by the textbook triple loop; operands whose inner
    /// dimensions disagree are rejected as a `ShapeMismatch`.
    pub fn dot(&self, other: &Mat<T>) -> (r: Result<Mat<T>, MatError>)
        requires
            self.wf(),
            other.wf(),
            self@.rows * other@.cols <= usize::MAX,
        ensures
            match r {
                Ok(m) => self@.cols == other@.rows && m@ == self@.dot_view(other@) && m@.rows
                    == self@.rows && m@.cols == other@.cols && m.wf(),
                Err(e) => e == MatError::ShapeMismatch && self@.cols != other@.rows,
            },
    {
        if self.cols != other.rows {
            return Err(MatError::ShapeMismatch);
        }
        let mut data: Vec<T> = Vec::new();
        let mut i: usize = 0;
        while i < self.rows
            invariant
                i <= self@.rows,
                self.wf(),
                other.wf(),
                self@.cols == other@.rows,
                self@.rows * other@.cols <= usize::MAX,
                data@.len() == i * other@.cols,
                forall|p: int|
                    0 <= p < data@.len() ==> data@[p] == self@.dot_partial(
                        other@,
                        p / other@.cols as int,
                        p % other@.cols as int,
                        self@.cols as int,
                    ),
            decreases self@.rows - i,
        {
            let mut j: usize = 0;
            while j < other.cols
                invariant
                    i < self@.rows,
                    j <= other@.cols,
                    self.wf(),
                    other.wf(),
                    self@.cols == other@.rows,
                    self@.rows * other@.cols <= usize::MAX,
                    data@.len() == i * other@.cols + j,
                    forall|p: int|
                        0 <= p < data@.len() ==> data@[p] == self@.dot_partial(
                            other@,
                            p / other@.cols as int,
                            p % other@.cols as int,
                            self@.cols as int,
                        ),
                decreases other@.cols - j,
            {
                proof {
                    lemma_index_bound(i as int, j as int, self@.rows as int, other@.cols as int);
                }
                let mut sum = T::zero_elem();
                let mut k: usize = 0;
                while k < self.cols
                    invariant
                        i < self@.rows,
                        j < other@.cols,
                        k <= self@.cols,
                        self.wf(),
                        other.wf(),
                        self@.cols == other@.rows,
                        sum == self@.dot_partial(other@, i as int, j as int, k as int),
                    decreases self@.cols - k,
                {
                    proof {
                        assert(self.data.len() <= usize::MAX);
                        assert(other.data.len() <= usize::MAX);
                        lemma_index_bound(i as int, k as int, self@.rows as int, self@.cols as int);
                        lemma_index_bound(
                            k as int,
                            j as int,
                            other@.rows as int,
                            other@.cols as int,
                        );
                    }
                    sum = sum.add_elem(self.data[i * self.cols + k].mul_elem(
                        other.data[k * other.cols + j],
                    ));
                    k += 1;
                }
                proof {
                    lemma_fundamental_div_mod_converse(
                        i as int * other@.cols as int + j as int,
                        other@.cols as int,
                        i as int,
                        j as int,
                    );
                }
                data.push(sum);
                j += 1;
            }
            proof {
                assert(i as int * other@.cols as int + other@.cols as int == (i as int + 1)
                    * other@.cols as int) by (nonlinear_arith);
            }
            i += 1;
        }
        let m = Mat { rows: self.rows, cols: other.cols, data };
        proof {
            assert(m@ =~= self@.dot_view(other@));
        }
        Ok(m)
    }

    /// The mirror image across the diagonal: dimensions swapped, entry
    /// `(j, i)` of the result equal to entry `(i, j)` of `self`.
    pub fn transpose(&self) -> (r: Mat<T>)
        requires
            self.wf(),
        ensures
            r@ == self@.transpose_view(),
            r@.rows == self@.cols,
            r@.cols == self@.rows,
            r.wf(),
    {
        let mut data: Vec<T> = Vec::new();
        let mut j: usize = 0;
        while j < self.cols
            invariant
                j <= self@.cols,
                self.wf(),
                data@.len() == j * self@.rows,
                forall|p: int|
                    0 <= p < data@.len() ==> data@[p] == self@.data[(p % self@.rows as int)
                        * self@.cols as int + p / self@.rows as int],
            decreases self@.cols - j,
        {
            let mut i: usize = 0;
            while i < self.rows
                invariant
                    j < self@.cols,
                    i <= self@.rows,
                    self.wf(),
                    data@.len() == j * self@.rows + i,
                    forall|p: int|
                        0 <= p < data@.len() ==> data@[p] == self@.data[(p % self@.rows as int)
                            * self@.cols as int + p / self@.rows as int],
                decreases self@.rows - i,
            {
                proof {
                    assert(self.data.len() <= usize::MAX);
                    lemma_index_bound(j as int, i as int, self@.cols as int, self@.rows as int);
                    lemma_index_bound(i as int, j as int, self@.rows as int, self@.cols as int);
                    lemma_fundamental_div_mod_converse(
                        j as int * self@.rows as int + i as int,
                        self@.rows as int,
                        j as int,
                        i as int,
                    );
                }
                data.push(self.data[i * self.cols + j]);
                i += 1;
            }
            proof {
                assert(j as int * self@.rows as int + self@.rows as int == (j as int + 1)
                    * self@.rows as int) by (nonlinear_arith);
            }
            j += 1;
        }
        let m = Mat { rows: self.cols, cols: self.rows, data };
        proof {
            assert(m@ =~= self@.transpose_view());
        }
        m
    }

    /// A copy of the matrix with the same dimensions and elements.
    pub fn duplicate(&self) -> (r: Mat<T>)
        ensures
            r@ == self@,
    {
        let n = self.data.len();
        let mut data: Vec<T> = Vec::new();
        let mut k: usize = 0;
        while k < n
            invariant
                k <= n,
                n == self@.data.len(),
                data@.len() == k,
                forall|t: int| 0 <= t < k ==> data@[t] == self@.data[t],
            decreases n - k,
        {
            data.push(self.data[k]);
            k += 1;
        }
        let m = Mat { rows: self.rows, cols: self.cols, data };
        proof {
            assert(m@ =~= self@);
        }
        m
    }

    /// Converts a flat sequence into a column vector: one column, one
    /// row per element.
    pub fn from_vec(data: Vec<T>) -> (r: Mat<T>)
        ensures
            r@.rows == data@.len(),
            r@.cols == 1,
            r@.data == data@,
            r.wf(),
    {
        let rows = data.len();
        Mat { rows, cols: 1, data }
    }

    /// Copies a borrowed flat sequence into a column vector: one
    /// column, one row per element.
    pub fn from_column(data: &Vec<T>) -> (r: Mat<T>)
        ensures
            r@.rows == data@.len(),
            r@.cols == 1,
            r@.data == data@,
            r.wf(),
    {
        let n = data.len();
        let mut buf: Vec<T> = Vec::new();
        let mut k: usize = 0;
        while k < n
            invariant
                k <= n,
                n == data@.len(),
                buf@.len() == k,
                forall|t: int| 0 <= t < k ==> buf@[t] == data@[t],
            decreases n - k,
        {
            buf.push(data[k]);
            k += 1;
        }
        let m = Mat { rows: n, cols: 1, data: buf };
        proof {
            assert(m@.data =~= data@);
        }
        m
    }

    /// Converts a sequence of equally long rows into a matrix: the
    /// outer length gives the rows, the first inner length the
    /// columns; a later row of a different length is rejected as a
    /// `SizeMismatch`.
    pub fn from_rows(rows_data: Vec<Vec<T>>) -> (r: Result<Mat<T>, MatError>)
        ensures
            match r {
                Ok(m) => {
                    &&& m@.rows == rows_data@.len()
                    &&& m@.cols == (if rows_data@.len() == 0 {
                        0int
                    } else {
                        rows_data@[0]@.len() as int
                    })
                    &&& m.wf()
                    &&& forall|i: int, j: int|
                        0 <= i < m@.rows && 0 <= j < m@.cols ==> m@.entry(i, j)
                            == rows_data@[i]@[j]
                    &&& forall|i: int| 0 <= i < m@.rows ==> rows_data@[i]@.len() == m@.cols
                },
                Err(e) => e == MatError::SizeMismatch && exists|i: int|
                    0 <= i < rows_data@.len() && (#[trigger] rows_data@[i]@.len())
                        != rows_data@[0]@.len(),
            },
    {
        let rows = rows_data.len();
        let cols = if rows == 0 {
            0
        } else {
            rows_data[0].len()
        };
        let mut data: Vec<T> = Vec::new();
        let mut i: usize = 0;
        while i < rows
            invariant
                i <= rows,
                rows == rows_data@.len(),
                rows > 0 ==> cols == rows_data@[0]@.len(),
                rows == 0 ==> cols == 0,
                data@.len() == i * cols,
                forall|t: int| 0 <= t < i ==> rows_data@[t]@.len() == cols,
                forall|t: int, j: int|
                    0 <= t < i && 0 <= j < cols ==> data@[t * cols as int + j] == rows_data@[t]@[j],
            decreases rows - i,
        {
            let row = &rows_data[i];
            if row.len() != cols {
                return Err(MatError::SizeMismatch);
            }
            let mut j: usize = 0;
            while j < cols
                invariant
                    i < rows,
                    j <= cols,
                    rows == rows_data@.len(),
                    rows_data@[i as int]@.len() == cols,
                    data@.len() == i * cols + j,
                    forall|t: int| 0 <= t < i ==> rows_data@[t]@.len() == cols,
                    forall|t: int, jj: int|
                        0 <= t < i && 0 <= jj < cols ==> data@[t * cols as int + jj]
                            == rows_data@[t]@[jj],
                    forall|jj: int|
                        0 <= jj < j ==> data@[i as int * cols as int + jj]
                            == rows_data@[i as int]@[jj],
                decreases cols - j,
            {
                data.push(rows_data[i][j]);
                proof {
                    assert forall|t: int, jj: int|
                        0 <= t < i && 0 <= jj < cols as int implies (#[trigger] (t * cols as int
                        + jj)) < i as int * cols as int by {
                        lemma_index_bound(t, jj, i as int, cols as int);
                    }
                }
                j += 1;
            }
            proof {
                assert(i as int * cols as int + cols as int == (i as int + 1) * cols as int)
                    by (nonlinear_arith);
            }
            i += 1;
        }
        let m = Mat { rows, cols, data };
        proof {
            assert forall|a: int, b: int|
                0 <= a < m@.rows && 0 <= b < m@.cols implies m@.entry(a, b)
                == rows_data@[a]@[b] by {
                lemma_index_bound(a, b, m@.rows as int, m@.cols as int);
            }
        }
        Ok(m)
    }
}

impl<T: RandomElem> Mat<T> {
    /// A matrix of the requested shape whose every element is drawn
    /// independently from the element type's default random
    /// distribution; only the shape is promised.
    pub fn random(rows: usize, cols: usize) -> (r: Mat<T>)
        requires
            rows * cols <= usize::MAX,
        ensures
            r@.rows == rows,
            r@.cols == cols,
            r.wf(),
    {
        let n = rows * cols;
        let mut data: Vec<T> = Vec::new();
        let mut k: usize = 0;
        while k < n
            invariant
                k <= n,
                data@.len() == k,
            decreases n - k,
        {
            data.push(T::random_elem());
            k += 1;
        }
        Mat { rows, cols, data }
    }
}

/// A container whose contents can be collected into a matrix of a
/// requested shape.
pub trait Collect<T: MatElem>: Sized {
    /// The flat row-major sequence the container holds.
    spec fn collect_view(self) -> Seq<T>;

    /// Collects the contents into a `rows` by `cols` matrix; a
    /// contents length other than `rows * cols` is rejected as a
    /// `SizeMismatch`.
    fn collect_mat(self, rows: usize, cols: usize) -> (r: Result<Mat<T>, MatError>)
        ensures
            match r {
                Ok(m) => self.collect_view().len() == rows * cols && m@ == (MatView {
                    rows: rows as nat,
                    cols: cols as nat,
                    data: self.collect_view(),
                }) && m.wf(),
                Err(e) => e == MatError::SizeMismatch && self.collect_view().len() != rows * cols,
            },
    ;
}

impl<T: MatElem> Collect<T> for Vec<T> {
    open spec fn collect_view(self) -> Seq<T> {
        self@
    }

    fn collect_mat(self, rows: usize, cols: usize) -> (r: Result<Mat<T>, MatError>) {
        Mat::new(rows, cols, self)
    }
}

/// Adding matrices of one shape is commutative, element law lifted to
/// the whole container.
pub proof fn lemma_mat_add_comm<T: MatElem>(a: MatView<T>, b: MatView<T>)
    requires
        a.wf(),
        b.wf(),
        a.same_shape(b),
    ensures
        a.add_view(b) == b.add_view(a),
{
    assert forall|k: int| 0 <= k < a.data.len() implies a.data[k].add_spec(b.data[k])
        == b.data[k].add_spec(a.data[k]) by {
        T::lemma_add_comm(a.data[k], b.data[k]);
    }
    assert(a.add_view(b) =~= b.add_view(a));
}

/// Subtracting in the opposite order negates every element: the
/// difference one way equals the map of the other way's difference
/// under `x` goes to `zero - x`.
pub proof fn lemma_mat_sub_neg<T: MatElem>(a: MatView<T>, b: MatView<T>)
    requires
        a.wf(),
        b.wf(),
        a.same_shape(b),
    ensures
        a.sub_view(b) == b.sub_view(a).neg_view(),
{
    assert forall|k: int| 0 <= k < a.data.len() implies a.data[k].sub_spec(b.data[k])
        == T::zero_spec().sub_spec(b.data[k].sub_spec(a.data[k])) by {
        T::lemma_sub_neg(a.data[k], b.data[k]);
    }
    assert(a.sub_view(b) =~= b.sub_view(a).neg_view());
}

/// Transposing twice gives back the starting matrix.
pub proof fn lemma_mat_transpose_involutive<T: MatElem>(a: MatView<T>)
    requires
        a.wf(),
    ensures
        a.transpose_view().transpose_view() == a,
{
    let t = a.transpose_view();
    let tt = t.transpose_view();
    assert(t.data.len() == a.cols * a.rows);
    assert(tt.data.len() == a.rows * a.cols);
    assert(a.rows * a.cols == a.cols * a.rows) by (nonlinear_arith);
    assert forall|q: int| 0 <= q < tt.data.len() implies tt.data[q] == a.data[q] by {
        let r = a.rows as int;
        let c = a.cols as int;
        assert(c > 0) by (nonlinear_arith)
            requires
                0 <= q < r * c,
                r >= 0,
                c >= 0,
        ;
        let i0 = q / c;
        let j0 = q % c;
        vstd::arithmetic::div_mod::lemma_fundamental_div_mod(q, c);
        lemma_index_bound_converse(q, i0, j0, r, c);
        // The outer transpose reads position q of t at coordinates
        // recovered by division by t.rows == a.cols.
        assert(tt.data[q] == t.data[j0 * r + i0]) by {
            assert(tt.data[q] == t.data[(q % c) * r + q / c]);
        }
        lemma_index_bound(j0, i0, c, r);
        assert(t.data[j0 * r + i0] == a.data[((j0 * r + i0) % r) * c + (j0 * r + i0) / r]);
        lemma_fundamental_div_mod_converse(j0 * r + i0, r, j0, i0);
        assert(((j0 * r + i0) % r) * c + (j0 * r + i0) / r == i0 * c + j0);
    }
    assert(tt =~= a);
}

/// From a valid flat offset, the recovered row index lies inside the
/// row count.
proof fn lemma_index_bound_converse(q: int, i0: int, j0: int, r: int, c: int)
    by (nonlinear_arith)
    requires
        0 <= q < r * c,
        0 < c,
        q == i0 * c + j0,
        0 <= j0 < c,
    ensures
        0 <= i0 < r,
{
}

} // verus!
