//! Algebraic laws that the kernels' contracts entail.
use crate::arith::{
    cong, lemma_cong_mul, lemma_cong_sym_trans, lemma_sum_cong, lemma_sum_scale, lemma_sum_single,
    lemma_wrap_cong, lemma_wrap_id, lemma_wrap_of_cong, sum_of, wrap,
};
use crate::dense::{dot, multiply_result, product, transposed};
use crate::matrix::{mat_product, rectangular, row_col_dot, scaled};
use crate::shape::{lemma_row_major, lemma_row_of, MatMulError, Shape};
use vstd::prelude::*;

verus! {

/// The `n × n` identity matrix, row-major.
pub open spec fn identity(n: int) -> Seq<i64> {
    Seq::new((n * n) as nat, |x: int| if x / n == x % n { 1i64 } else { 0i64 })
}

/// Any two results that meet the kernels' common contract are the same: the
/// naive, blocked and row-partitioned kernels agree exactly on every input.
pub proof fn lemma_kernels_agree(
    a: Seq<i64>,
    shape_a: Shape,
    b: Seq<i64>,
    shape_b: Shape,
    r1: Result<Vec<i64>, MatMulError>,
    r2: Result<Vec<i64>, MatMulError>,
)
    requires
        multiply_result(a, shape_a, b, shape_b, r1),
        multiply_result(a, shape_a, b, shape_b, r2),
    ensures
        match (r1, r2) {
            (Ok(c1), Ok(c2)) => c1@ == c2@,
            (Err(e1), Err(e2)) => e1 == e2,
            _ => false,
        },
{
}

/// A kernel given operands whose shared dimensions differ reports
/// `ShapeMismatch` and returns no result buffer.
pub proof fn lemma_shape_mismatch_reported(
    a: Seq<i64>,
    shape_a: Shape,
    b: Seq<i64>,
    shape_b: Shape,
    r: Result<Vec<i64>, MatMulError>,
)
    requires
        shape_a.cols != shape_b.rows,
        multiply_result(a, shape_a, b, shape_b, r),
    ensures
        r matches Err(MatMulError::ShapeMismatch),
{
}

/// Transposing a `rows × cols` buffer and then the `cols × rows` result gives the
/// buffer back.
pub proof fn lemma_transpose_involution<T>(m: Seq<T>, rows: int, cols: int)
    requires
        0 <= rows,
        0 <= cols,
        m.len() == rows * cols,
    ensures
        transposed(transposed(m, rows, cols), cols, rows) == m,
{
    let t = transposed(m, rows, cols);
    let tt = transposed(t, cols, rows);
    assert(cols * rows == rows * cols) by (nonlinear_arith);
    assert forall|y: int| 0 <= y < m.len() implies #[trigger] tt[y] == m[y] by {
        lemma_row_of(y, rows, cols);
        let i = y / cols;
        let j = y % cols;
        lemma_row_major(j, i, cols, rows);
    }
    assert(tt =~= m);
}

/// Multiplying a `rows × k` buffer on the right by the `k × k` identity gives it back.
pub proof fn lemma_identity_right(a: Seq<i64>, rows: int, k: int)
    requires
        0 <= rows,
        0 <= k,
        a.len() == rows * k,
    ensures
        product(a, identity(k), rows, k, k) == a,
{
    let id = identity(k);
    let c = product(a, id, rows, k, k);
    assert forall|x: int| 0 <= x < a.len() implies #[trigger] c[x] == a[x] by {
        lemma_row_of(x, rows, k);
        let i = x / k;
        let j = x % k;
        let f = |p: int| a[i * k + p] as int * id[p * k + j] as int;
        assert forall|p: int| 0 <= p < k && p != j implies #[trigger] f(p) == 0 by {
            lemma_row_major(p, j, k, k);
        }
        lemma_row_major(j, j, k, k);
        lemma_sum_single(k, j, f);
        lemma_wrap_id(a[x]);
        assert(dot(a, id, k, k, i, j) == sum_of(k, f));
    }
    assert(c =~= a);
}

/// Multiplying a `rows × k` buffer on the left by the `rows × rows` identity gives
/// it back.
pub proof fn lemma_identity_left(a: Seq<i64>, rows: int, k: int)
    requires
        0 <= rows,
        0 <= k,
        a.len() == rows * k,
    ensures
        product(identity(rows), a, rows, rows, k) == a,
{
    let id = identity(rows);
    let c = product(id, a, rows, rows, k);
    assert forall|x: int| 0 <= x < a.len() implies #[trigger] c[x] == a[x] by {
        lemma_row_of(x, rows, k);
        let i = x / k;
        let j = x % k;
        let f = |p: int| id[i * rows + p] as int * a[p * k + j] as int;
        assert forall|p: int| 0 <= p < rows && p != i implies #[trigger] f(p) == 0 by {
            lemma_row_major(i, p, rows, rows);
        }
        lemma_row_major(i, i, rows, rows);
        lemma_sum_single(rows, i, f);
        lemma_wrap_id(a[x]);
        assert(dot(id, a, rows, k, i, j) == sum_of(rows, f));
    }
    assert(c =~= a);
}

/// Integers that agree modulo 2^64 reduce to the same `i64`.
proof fn lemma_wrap_cong_eq(x: int, y: int)
    requires
        cong(x, y),
    ensures
        wrap(x) == wrap(y),
{
    lemma_wrap_cong(x);
    lemma_cong_sym_trans(wrap(x) as int, x, y);
    lemma_wrap_of_cong(wrap(x), y);
}

/// Scaling every element of `a` by `s` and then multiplying by `b` equals
/// multiplying first and then scaling the product by `s`.
pub proof fn lemma_scale_commutes(a: Seq<Seq<i64>>, b: Seq<Seq<i64>>, cols_b: int, s: i64)
    requires
        0 <= cols_b,
        rectangular(a, b.len() as int),
        rectangular(b, cols_b),
    ensures
        mat_product(scaled(a, s), b, cols_b) == scaled(mat_product(a, b, cols_b), s),
{
    let lhs = mat_product(scaled(a, s), b, cols_b);
    let rhs = scaled(mat_product(a, b, cols_b), s);
    let n = b.len() as int;
    assert forall|i: int| 0 <= i < a.len() implies #[trigger] lhs[i] == rhs[i] by {
        assert forall|j: int| 0 <= j < cols_b implies #[trigger] lhs[i][j] == rhs[i][j] by {
            let f = |p: int| a[i][p] as int * b[p][j] as int;
            let g = |p: int| scaled(a, s)[i][p] as int * b[p][j] as int;
            let h = |p: int| s * f(p);
            assert forall|p: int| 0 <= p < n implies cong(#[trigger] g(p), h(p)) by {
                lemma_wrap_cong(a[i][p] * s);
                lemma_cong_mul(wrap(a[i][p] * s) as int, a[i][p] * s, b[p][j] as int, b[p][j] as int);
                assert((a[i][p] * s) * b[p][j] == s * (a[i][p] * b[p][j])) by (nonlinear_arith);
            }
            lemma_sum_cong(n, g, h);
            lemma_sum_scale(n, s as int, f);
            let d = row_col_dot(a, b, i, j);
            assert(d == sum_of(n, f));
            lemma_wrap_cong(d);
            lemma_cong_mul(wrap(d) as int, d, s as int, s as int);
            assert(d * s == s * d) by (nonlinear_arith);
            assert(row_col_dot(scaled(a, s), b, i, j) == sum_of(n, g));
            lemma_cong_sym_trans(sum_of(n, g), s * d, wrap(d) * s);
            lemma_wrap_cong_eq(sum_of(n, g), wrap(d) * s);
        }
        assert(lhs[i] =~= rhs[i]);
    }
    assert(lhs =~= rhs);
}

} // verus!
