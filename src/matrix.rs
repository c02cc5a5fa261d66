//! A matrix held as a vector of rows, with its shape derived from the rows.
use crate::arith::{
    cong, lemma_cong_add, lemma_cong_sym_trans, lemma_wrap_of_cong, lemma_wrapping_add,
    lemma_wrapping_mul, sum_of, wrap,
};
use crate::shape::MatMulError;
use vstd::prelude::*;

verus! {

/// Every row of `m` has `cols` elements.
pub open spec fn rectangular(m: Seq<Seq<i64>>, cols: int) -> bool {
    forall|i: int| 0 <= i < m.len() ==> (#[trigger] m[i]).len() == cols
}

/// A `rows × cols` matrix whose every element is `v`.
pub open spec fn constant(rows: int, cols: int, v: i64) -> Seq<Seq<i64>> {
    Seq::new(rows as nat, |i: int| Seq::new(cols as nat, |j: int| v))
}

/// Every element of `m` multiplied by `s`, reduced into `i64`.
pub open spec fn scaled(m: Seq<Seq<i64>>, s: i64) -> Seq<Seq<i64>> {
    Seq::new(m.len(), |i: int| Seq::new(m[i].len(), |j: int| wrap(m[i][j] * s)))
}

/// Cell `(i, j)` of `a * b` before reduction: the exact dot product of row `i`
/// of `a` with column `j` of `b`.
pub open spec fn row_col_dot(a: Seq<Seq<i64>>, b: Seq<Seq<i64>>, i: int, j: int) -> int {
    sum_of(b.len() as int, |p: int| a[i][p] as int * b[p][j] as int)
}

/// The product of `a` (`a.len() × b.len()`) and `b` (`b.len() × cols_b`).
pub open spec fn mat_product(a: Seq<Seq<i64>>, b: Seq<Seq<i64>>, cols_b: int) -> Seq<Seq<i64>> {
    Seq::new(a.len(), |i: int| Seq::new(cols_b as nat, |j: int| wrap(row_col_dot(a, b, i, j))))
}

/// A matrix stored as its rows; the row count is the number of rows stored and
/// the column count is kept for the case of no rows.
#[derive(Debug)]
pub struct Matrix {
    cols: usize,
    data: Vec<Vec<i64>>,
}

impl View for Matrix {
    type V = Seq<Seq<i64>>;

    closed spec fn view(&self) -> Seq<Seq<i64>> {
        Seq::new(self.data@.len(), |i: int| self.data@[i]@)
    }
}

/// Builds `rows` rows of `cols` copies of `v`.
fn constant_rows(rows: usize, cols: usize, v: i64) -> (r: Vec<Vec<i64>>)
    ensures
        r@.len() == rows,
        forall|i: int| 0 <= i < rows ==> (#[trigger] r@[i])@ == constant(rows as int, cols as int, v)[i],
{
    let mut out: Vec<Vec<i64>> = Vec::new();
    let mut i: usize = 0;
    while i < rows
        invariant
            i <= rows,
            out@.len() == i,
            forall|x: int| 0 <= x < i ==> (#[trigger] out@[x])@ == constant(rows as int, cols as int, v)[x],
        decreases rows - i,
    {
        let mut row: Vec<i64> = Vec::new();
        let mut j: usize = 0;
        while j < cols
            invariant
                j <= cols,
                row@ == Seq::new(j as nat, |c: int| v),
            decreases cols - j,
        {
            row.push(v);
            j += 1;
            assert(row@ =~= Seq::new(j as nat, |c: int| v));
        }
        out.push(row);
        i += 1;
    }
    out
}

impl Matrix {
    /// The number of columns.
    pub closed spec fn cols_spec(&self) -> nat {
        self.cols as nat
    }

    /// Every row holds `cols` elements.
    pub open spec fn wf(&self) -> bool {
        rectangular(self@, self.cols_spec() as int)
    }

    /// A `rows × cols` matrix of zeros.
    pub fn new(rows: usize, cols: usize) -> (r: Matrix)
        ensures
            r.wf(),
            r.cols_spec() == cols,
            r@ == constant(rows as int, cols as int, 0),
    {
        let data = constant_rows(rows, cols, 0);
        let r = Matrix { cols, data };
        assert(r@ =~= constant(rows as int, cols as int, 0));
        r
    }

    /// A matrix with the given rows, or `BufferLengthMismatch` where two rows differ
    /// in length. With no rows the matrix has no columns.
    pub fn from_rows(data: Vec<Vec<i64>>) -> (r: Result<Matrix, MatMulError>)
        ensures
            match r {
                Ok(m) => m.wf() && m@ == Seq::new(data@.len(), |i: int| data@[i]@)
                    && (data@.len() == 0 ==> m.cols_spec() == 0)
                    && (data@.len() > 0 ==> m.cols_spec() == data@[0]@.len()),
                Err(e) => e == MatMulError::BufferLengthMismatch && exists|i: int|
                    0 <= i < data@.len() && (#[trigger] data@[i])@.len() != data@[0]@.len(),
            },
    {
        let cols = if data.len() == 0 {
            0
        } else {
            data[0].len()
        };
        let mut i: usize = 0;
        while i < data.len()
            invariant
                i <= data@.len(),
                data@.len() > 0 ==> cols == data@[0]@.len(),
                forall|x: int| 0 <= x < i ==> (#[trigger] data@[x])@.len() == cols,
            decreases data@.len() - i,
        {
            if data[i].len() != cols {
                return Err(MatMulError::BufferLengthMismatch);
            }
            i += 1;
        }
        Ok(Matrix { cols, data })
    }

    /// The number of rows.
    pub fn rows(&self) -> (r: usize)
        ensures
            r == self@.len(),
    {
        self.data.len()
    }

    /// The number of columns.
    pub fn cols(&self) -> (r: usize)
        ensures
            r == self.cols_spec(),
    {
        self.cols
    }

    /// The rows.
    pub fn data(&self) -> (r: &Vec<Vec<i64>>)
        ensures
            r@.len() == self@.len(),
            forall|i: int| 0 <= i < r@.len() ==> (#[trigger] r@[i])@ == self@[i],
    {
        &self.data
    }

    /// Sets every element to `filling`, keeping the shape.
    pub fn fill(&mut self, filling: i64)
        requires
            old(self).wf(),
        ensures
            final(self).wf(),
            final(self).cols_spec() == old(self).cols_spec(),
            final(self)@ == constant(old(self)@.len() as int, old(self).cols_spec() as int, filling),
    {
        self.data = constant_rows(self.data.len(), self.cols, filling);
        assert(self@ =~= constant(self@.len() as int, self.cols as int, filling));
    }

    /// Multiplies every element by `number`, keeping the shape.
    pub fn multiply_by_scalar(&mut self, number: i64)
        requires
            old(self).wf(),
        ensures
            final(self).wf(),
            final(self).cols_spec() == old(self).cols_spec(),
            final(self)@ == scaled(old(self)@, number),
    {
        let ghost before = self@;
        let mut data: Vec<Vec<i64>> = Vec::new();
        let mut i: usize = 0;
        while i < self.data.len()
            invariant
                i <= self.data@.len(),
                before == self@,
                rectangular(before, self.cols as int),
                data@.len() == i,
                forall|x: int| 0 <= x < i ==> (#[trigger] data@[x])@ == scaled(before, number)[x],
            decreases self.data@.len() - i,
        {
            let src = &self.data[i];
            let mut row: Vec<i64> = Vec::new();
            let mut j: usize = 0;
            while j < src.len()
                invariant
                    j <= src@.len(),
                    src@ == before[i as int],
                    row@.len() == j,
                    forall|y: int| 0 <= y < j ==> #[trigger] row@[y] == wrap(src@[y] * number),
                decreases src@.len() - j,
            {
                proof {
                    lemma_wrapping_mul(src@[j as int], number);
                }
                row.push(src[j].wrapping_mul(number));
                j += 1;
            }
            assert(row@ =~= scaled(before, number)[i as int]);
            data.push(row);
            i += 1;
        }
        self.data = data;
        assert(self@ =~= scaled(before, number));
    }

    /// The product `self * other`, a `self.rows() × other.cols()` matrix, or
    /// `ShapeMismatch` where `self.cols()` differs from `other.rows()`.
    pub fn multiply_by_matrix(&self, other: &Matrix) -> (r: Result<Matrix, MatMulError>)
        requires
            self.wf(),
            other.wf(),
        ensures
            match r {
                Ok(m) => self.cols_spec() == other@.len() && m.wf() && m.cols_spec()
                    == other.cols_spec() && m@ == mat_product(
                    self@,
                    other@,
                    other.cols_spec() as int,
                ),
                Err(e) => self.cols_spec() != other@.len() && e == MatMulError::ShapeMismatch,
            },
    {
        if self.cols != other.data.len() {
            return Err(MatMulError::ShapeMismatch);
        }
        let ghost a = self@;
        let ghost b = other@;
        let k = other.data.len();
        let cols_b = other.cols;
        let mut result: Vec<Vec<i64>> = Vec::new();
        let mut row_idx: usize = 0;
        while row_idx < self.data.len()
            invariant
                row_idx <= self.data@.len(),
                a == self@,
                b == other@,
                k == b.len(),
                cols_b == other.cols_spec(),
                rectangular(a, k as int),
                rectangular(b, cols_b as int),
                result@.len() == row_idx,
                forall|x: int|
                    0 <= x < row_idx ==> (#[trigger] result@[x])@ == mat_product(a, b, cols_b as int)[x],
            decreases self.data@.len() - row_idx,
        {
            let a_row = &self.data[row_idx];
            let mut row: Vec<i64> = Vec::new();
            let mut col_idx: usize = 0;
            while col_idx < cols_b
                invariant
                    row_idx < a.len(),
                    col_idx <= cols_b,
                    a_row@ == a[row_idx as int],
                    a == self@,
                    b == other@,
                    k == b.len(),
                    rectangular(a, k as int),
                    rectangular(b, cols_b as int),
                    row@.len() == col_idx,
                    forall|y: int|
                        0 <= y < col_idx ==> #[trigger] row@[y] == wrap(
                            row_col_dot(a, b, row_idx as int, y),
                        ),
                decreases cols_b - col_idx,
            {
                let ghost f = |p: int| a[row_idx as int][p] as int * b[p][col_idx as int] as int;
                let mut sum: i64 = 0;
                let mut p: usize = 0;
                while p < k
                    invariant
                        p <= k,
                        row_idx < a.len(),
                        col_idx < cols_b,
                        a_row@ == a[row_idx as int],
                        a == self@,
                        b == other@,
                        k == b.len(),
                        rectangular(a, k as int),
                        rectangular(b, cols_b as int),
                        f == (|p: int| a[row_idx as int][p] as int * b[p][col_idx as int] as int),
                        cong(sum as int, sum_of(p as int, f)),
                    decreases k - p,
                {
                    let b_row = &other.data[p];
                    assert(b_row@ == b[p as int]);
                    let term = a_row[p].wrapping_mul(b_row[col_idx]);
                    proof {
                        lemma_wrapping_mul(a_row@[p as int], b_row@[col_idx as int]);
                        lemma_wrapping_add(sum, term);
                        lemma_cong_add(sum as int, sum_of(p as int, f), term as int, f(p as int));
                        lemma_cong_sym_trans(
                            sum.wrapping_add(term) as int,
                            sum + term,
                            sum_of(p as int, f) + f(p as int),
                        );
                    }
                    sum = sum.wrapping_add(term);
                    p += 1;
                }
                proof {
                    lemma_wrap_of_cong(sum, sum_of(k as int, f));
                }
                row.push(sum);
                col_idx += 1;
            }
            assert(row@ =~= mat_product(a, b, cols_b as int)[row_idx as int]);
            result.push(row);
            row_idx += 1;
        }
        let m = Matrix { cols: cols_b, data: result };
        assert(m@ =~= mat_product(a, b, cols_b as int));
        Ok(m)
    }
}

} // verus!
