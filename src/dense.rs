//! Kernels over row-major dense buffers: transpose, naive, blocked and
//! row-partitioned multiplication.
use crate::arith::{
    cong, lemma_cong_add, lemma_cong_sym_trans, lemma_sum_cong, lemma_sum_ext, lemma_sum_split,
    lemma_wrap_cong, lemma_wrap_of_cong, lemma_wrapping_add, lemma_wrapping_mul, sum_of, wrap,
};
use crate::shape::{check_operands, lemma_row_major, lemma_row_of, operand_error, MatMulError, Shape};
use rayon::iter::{IntoParallelIterator, ParallelIterator};
use vstd::prelude::*;

verus! {

/// Width of the blocks into which the blocked kernel cuts the shared dimension.
pub const BLOCK_SIZE: usize = 4;

/// The row-major transpose of a row-major `rows × cols` buffer: position
/// `c * rows + r` holds `m[r * cols + c]`.
pub open spec fn transposed<T>(m: Seq<T>, rows: int, cols: int) -> Seq<T> {
    Seq::new((rows * cols) as nat, |x: int| m[(x % rows) * cols + x / rows])
}

/// The exact dot product of row `i` of `A (· × k)` with column `j` of `B (k × cols_b)`.
pub open spec fn dot(a: Seq<i64>, b: Seq<i64>, k: int, cols_b: int, i: int, j: int) -> int {
    sum_of(k, |p: int| a[i * k + p] as int * b[p * cols_b + j] as int)
}

/// The exact dot product of the `n` elements of `a` from `ao` on with the `n`
/// elements of `b` from `bo` on.
pub open spec fn seg_dot(a: Seq<i64>, ao: int, b: Seq<i64>, bo: int, n: int) -> int {
    sum_of(n, |l: int| a[ao + l] as int * b[bo + l] as int)
}

/// Row `i` of the product of `A (· × k)` and `B (k × cols_b)`.
pub open spec fn product_row(a: Seq<i64>, b: Seq<i64>, k: int, cols_b: int, i: int) -> Seq<i64> {
    Seq::new(cols_b as nat, |j: int| wrap(dot(a, b, k, cols_b, i, j)))
}

/// The row-major product of `A (rows_a × k)` and `B (k × cols_b)`: cell `(i, j)`
/// is the dot product of row `i` of `A` with column `j` of `B`, reduced into `i64`.
pub open spec fn product(a: Seq<i64>, b: Seq<i64>, rows_a: int, k: int, cols_b: int) -> Seq<i64> {
    Seq::new(
        (rows_a * cols_b) as nat,
        |x: int| wrap(dot(a, b, k, cols_b, x / cols_b, x % cols_b)),
    )
}

/// What a kernel returns for `A (shape_a)` times `B (shape_b)`: the error that
/// `operand_error` names, or else the product.
pub open spec fn multiply_result(
    a: Seq<i64>,
    shape_a: Shape,
    b: Seq<i64>,
    shape_b: Shape,
    r: Result<Vec<i64>, MatMulError>,
) -> bool {
    match r {
        Ok(c) => operand_error(a.len() as int, shape_a, b.len() as int, shape_b) is None
            && c@ == product(a, b, shape_a.rows as int, shape_a.cols as int, shape_b.cols as int),
        Err(e) => operand_error(a.len() as int, shape_a, b.len() as int, shape_b) == Some(e),
    }
}

/// Transposes a row-major `rows × cols` buffer into a new row-major `cols × rows` one.
pub fn transpose_matrix<T: Copy>(matrix: &Vec<T>, rows: usize, cols: usize) -> (r: Vec<T>)
    requires
        matrix@.len() == rows * cols,
    ensures
        r@ == transposed(matrix@, rows as int, cols as int),
        r@.len() == matrix@.len(),
        forall|i: int, j: int|
            0 <= i < rows && 0 <= j < cols ==> #[trigger] r@[j * rows + i] == matrix@[i * cols + j],
{
    let len = matrix.len();
    let mut transposed_buf: Vec<T> = Vec::new();
    let mut col: usize = 0;
    while col < cols
        invariant
            col <= cols,
            matrix@.len() == rows * cols,
            len == rows * cols,
            transposed_buf@.len() == col * rows,
            forall|x: int|
                0 <= x < transposed_buf@.len() ==> #[trigger] transposed_buf@[x] == matrix@[(x
                    % rows as int) * cols + x / rows as int],
        decreases cols - col,
    {
        let mut row: usize = 0;
        while row < rows
            invariant
                col < cols,
                row <= rows,
                matrix@.len() == rows * cols,
                len == rows * cols,
                transposed_buf@.len() == col * rows + row,
                forall|x: int|
                    0 <= x < transposed_buf@.len() ==> #[trigger] transposed_buf@[x] == matrix@[(x
                        % rows as int) * cols + x / rows as int],
            decreases rows - row,
        {
            proof {
                lemma_row_major(row as int, col as int, rows as int, cols as int);
                lemma_row_major(col as int, row as int, cols as int, rows as int);
            }
            transposed_buf.push(matrix[row * cols + col]);
            row += 1;
        }
        proof {
            assert((col + 1) * rows == col * rows + rows) by (nonlinear_arith);
        }
        col += 1;
    }
    proof {
        assert(transposed_buf@.len() == rows * cols) by (nonlinear_arith)
            requires
                transposed_buf@.len() == cols * rows,
        ;
        assert(transposed_buf@ =~= transposed(matrix@, rows as int, cols as int));
        assert forall|i: int, j: int| 0 <= i < rows && 0 <= j < cols implies #[trigger]
            transposed_buf@[j * rows + i] == matrix@[i * cols + j] by {
            lemma_row_major(j, i, cols as int, rows as int);
            lemma_row_major(i, j, rows as int, cols as int);
        }
    }
    transposed_buf
}

/// Copies equal-length rows, in order, into one row-major buffer.
fn concat_rows(rows: Vec<Vec<i64>>, cols: usize) -> (r: Vec<i64>)
    requires
        rows@.len() * cols <= usize::MAX,
        forall|i: int| 0 <= i < rows@.len() ==> (#[trigger] rows@[i])@.len() == cols,
    ensures
        r@.len() == rows@.len() * cols,
        forall|x: int|
            0 <= x < r@.len() ==> #[trigger] r@[x] == rows@[x / cols as int]@[x % cols as int],
{
    let mut out: Vec<i64> = Vec::new();
    let mut i: usize = 0;
    while i < rows.len()
        invariant
            i <= rows@.len(),
            rows@.len() * cols <= usize::MAX,
            forall|i: int| 0 <= i < rows@.len() ==> (#[trigger] rows@[i])@.len() == cols,
            out@.len() == i * cols,
            forall|x: int|
                0 <= x < out@.len() ==> #[trigger] out@[x] == rows@[x / cols as int]@[x
                    % cols as int],
        decreases rows@.len() - i,
    {
        let row = &rows[i];
        let mut j: usize = 0;
        while j < cols
            invariant
                i < rows@.len(),
                j <= cols,
                rows@.len() * cols <= usize::MAX,
                row@ == rows@[i as int]@,
                row@.len() == cols,
                out@.len() == i * cols + j,
                forall|x: int|
                    0 <= x < out@.len() ==> #[trigger] out@[x] == rows@[x / cols as int]@[x
                        % cols as int],
            decreases cols - j,
        {
            proof {
                lemma_row_major(i as int, j as int, rows@.len() as int, cols as int);
            }
            out.push(row[j]);
            j += 1;
        }
        proof {
            assert((i + 1) * cols == i * cols + cols) by (nonlinear_arith);
        }
        i += 1;
    }
    out
}

/// A kernel's rows, in order, assemble into the product.
proof fn lemma_rows_give_product(
    r: Seq<i64>,
    rows: Seq<Vec<i64>>,
    a: Seq<i64>,
    b: Seq<i64>,
    rows_a: int,
    k: int,
    cols_b: int,
)
    requires
        0 <= rows_a,
        rows.len() == rows_a,
        r.len() == rows_a * cols_b,
        forall|i: int| 0 <= i < rows_a ==> (#[trigger] rows[i])@ == product_row(a, b, k, cols_b, i),
        forall|x: int| 0 <= x < r.len() ==> #[trigger] r[x] == rows[x / cols_b]@[x % cols_b],
    ensures
        r == product(a, b, rows_a, k, cols_b),
{
    assert forall|x: int| 0 <= x < r.len() implies #[trigger] r[x] == product(
        a,
        b,
        rows_a,
        k,
        cols_b,
    )[x] by {
        lemma_row_of(x, rows_a, cols_b);
    }
    assert(r =~= product(a, b, rows_a, k, cols_b));
}

/// One cell of the product, summed term by term along the shared dimension.
fn naive_cell(a: &Vec<i64>, b: &Vec<i64>, i: usize, k: usize, cols_b: usize, j: usize) -> (r: i64)
    requires
        i * k + k <= a@.len(),
        j < cols_b,
        b@.len() == k * cols_b,
    ensures
        r == wrap(dot(a@, b@, k as int, cols_b as int, i as int, j as int)),
{
    let a_len = a.len();
    let b_len = b.len();
    let ghost f = |p: int| a@[i * k + p] as int * b@[p * cols_b + j] as int;
    let mut sum: i64 = 0;
    let mut p: usize = 0;
    while p < k
        invariant
            p <= k,
            i * k + k <= a@.len(),
            a_len == a@.len(),
            b_len == b@.len(),
            j < cols_b,
            b@.len() == k * cols_b,
            f == (|p: int| a@[i * k + p] as int * b@[p * cols_b + j] as int),
            cong(sum as int, sum_of(p as int, f)),
        decreases k - p,
    {
        proof {
            lemma_row_major(p as int, j as int, k as int, cols_b as int);
        }
        let term = a[i * k + p].wrapping_mul(b[p * cols_b + j]);
        proof {
            lemma_wrapping_mul(a@[i * k + p], b@[p * cols_b + j]);
            lemma_wrapping_add(sum, term);
            lemma_cong_add(sum as int, sum_of(p as int, f), term as int, f(p as int));
            lemma_cong_sym_trans(
                sum.wrapping_add(term) as int,
                sum + term,
                sum_of(p as int, f) + f(p as int),
            );
        }
        sum = sum.wrapping_add(term);
        p += 1;
    }
    proof {
        lemma_wrap_of_cong(sum, sum_of(k as int, f));
    }
    sum
}

/// Row `i` of the product, computed with the naive inner loop.
fn naive_row(a: &Vec<i64>, b: &Vec<i64>, i: usize, rows_a: usize, k: usize, cols_b: usize) -> (r:
    Vec<i64>)
    requires
        i < rows_a,
        a@.len() == rows_a * k,
        b@.len() == k * cols_b,
    ensures
        r@ == product_row(a@, b@, k as int, cols_b as int, i as int),
{
    proof {
        assert(i * k + k <= rows_a * k) by (nonlinear_arith)
            requires
                i < rows_a,
        ;
    }
    let mut row: Vec<i64> = Vec::new();
    let mut j: usize = 0;
    while j < cols_b
        invariant
            j <= cols_b,
            i * k + k <= a@.len(),
            b@.len() == k * cols_b,
            row@.len() == j,
            forall|x: int|
                0 <= x < j ==> #[trigger] row@[x] == product_row(
                    a@,
                    b@,
                    k as int,
                    cols_b as int,
                    i as int,
                )[x],
        decreases cols_b - j,
    {
        let cell = naive_cell(a, b, i, k, cols_b, j);
        row.push(cell);
        j += 1;
    }
    assert(row@ =~= product_row(a@, b@, k as int, cols_b as int, i as int));
    row
}

/// The naive triple-loop product of `A (shape_a)` and `B (shape_b)`; the reference
/// the other kernels agree with.
pub fn multiply_matrix_naive(
    matrix_a: &Vec<i64>,
    shape_a: Shape,
    matrix_b: &Vec<i64>,
    shape_b: Shape,
) -> (r: Result<Vec<i64>, MatMulError>)
    ensures
        multiply_result(matrix_a@, shape_a, matrix_b@, shape_b, r),
{
    check_operands(matrix_a.len(), shape_a, matrix_b.len(), shape_b)?;
    let rows_a = shape_a.rows;
    let k = shape_a.cols;
    let cols_b = shape_b.cols;
    let ghost c = product(matrix_a@, matrix_b@, rows_a as int, k as int, cols_b as int);
    let mut out: Vec<i64> = Vec::new();
    let mut i: usize = 0;
    while i < rows_a
        invariant
            i <= rows_a,
            rows_a * cols_b <= usize::MAX,
            matrix_a@.len() == rows_a * k,
            matrix_b@.len() == k * cols_b,
            c == product(matrix_a@, matrix_b@, rows_a as int, k as int, cols_b as int),
            out@.len() == i * cols_b,
            forall|x: int| 0 <= x < out@.len() ==> #[trigger] out@[x] == c[x],
        decreases rows_a - i,
    {
        proof {
            assert(i * k + k <= rows_a * k) by (nonlinear_arith)
                requires
                    i < rows_a,
            ;
        }
        let mut j: usize = 0;
        while j < cols_b
            invariant
                i < rows_a,
                j <= cols_b,
                rows_a * cols_b <= usize::MAX,
                i * k + k <= matrix_a@.len(),
                matrix_b@.len() == k * cols_b,
                c == product(matrix_a@, matrix_b@, rows_a as int, k as int, cols_b as int),
                out@.len() == i * cols_b + j,
                forall|x: int| 0 <= x < out@.len() ==> #[trigger] out@[x] == c[x],
            decreases cols_b - j,
        {
            proof {
                lemma_row_major(i as int, j as int, rows_a as int, cols_b as int);
            }
            let cell = naive_cell(matrix_a, matrix_b, i, k, cols_b, j);
            out.push(cell);
            j += 1;
        }
        proof {
            assert((i + 1) * cols_b == i * cols_b + cols_b) by (nonlinear_arith);
        }
        i += 1;
    }
    proof {
        assert(out@.len() == c.len());
        assert(out@ =~= c);
    }
    Ok(out)
}

/// Loads `width` elements of `v` from `base` on into the low lanes of a vector
/// register; the remaining lanes are zero, so nothing past `base + width` is read.
fn load_lanes(v: &Vec<i64>, base: usize, width: usize) -> (r: [i64; BLOCK_SIZE])
    requires
        width <= BLOCK_SIZE,
        base + width <= v@.len(),
    ensures
        forall|l: int|
            0 <= l < BLOCK_SIZE ==> #[trigger] r@[l] == if l < width {
                v@[base + l]
            } else {
                0
            },
{
    let v_len = v.len();
    let mut lanes: [i64; BLOCK_SIZE] = [0i64; BLOCK_SIZE];
    let mut l: usize = 0;
    while l < width
        invariant
            l <= width,
            v_len == v@.len(),
            width <= BLOCK_SIZE,
            base + width <= v@.len(),
            forall|m: int|
                0 <= m < BLOCK_SIZE ==> #[trigger] lanes@[m] == if m < l {
                    v@[base + m]
                } else {
                    0
                },
        decreases width - l,
    {
        lanes[l] = v[base + l];
        l += 1;
    }
    lanes
}

/// Lane-wise wrapping product of two vector registers.
fn mul_lanes(x: &[i64; BLOCK_SIZE], y: &[i64; BLOCK_SIZE]) -> (r: [i64; BLOCK_SIZE])
    ensures
        forall|l: int| 0 <= l < BLOCK_SIZE ==> #[trigger] r@[l] == wrap(x@[l] * y@[l]),
{
    let mut lanes: [i64; BLOCK_SIZE] = [0i64; BLOCK_SIZE];
    let mut l: usize = 0;
    while l < BLOCK_SIZE
        invariant
            l <= BLOCK_SIZE,
            forall|m: int| 0 <= m < l ==> #[trigger] lanes@[m] == wrap(x@[m] * y@[m]),
        decreases BLOCK_SIZE - l,
    {
        proof {
            lemma_wrapping_mul(x@[l as int], y@[l as int]);
        }
        lanes[l] = x[l].wrapping_mul(y[l]);
        l += 1;
    }
    lanes
}

/// The sum over one block `[block_start, block_end)` of the shared dimension of
/// row `row_idx` of `A` times row `col_idx` of `B_T`, both `· × cols_a_rows_b`.
/// The block is loaded as a full vector register with the lanes past
/// `block_end` zeroed, multiplied lane-wise, and its valid lanes summed.
pub fn compute_block_sum(
    matrix_a: &Vec<i64>,
    matrix_b: &Vec<i64>,
    row_idx: usize,
    col_idx: usize,
    cols_a_rows_b: usize,
    block_start: usize,
    block_end: usize,
) -> (r: i64)
    requires
        block_start <= block_end <= cols_a_rows_b,
        block_end - block_start <= BLOCK_SIZE,
        row_idx * cols_a_rows_b + cols_a_rows_b <= matrix_a@.len(),
        col_idx * cols_a_rows_b + cols_a_rows_b <= matrix_b@.len(),
    ensures
        r == wrap(
            seg_dot(
                matrix_a@,
                row_idx * cols_a_rows_b + block_start,
                matrix_b@,
                col_idx * cols_a_rows_b + block_start,
                block_end - block_start,
            ),
        ),
{
    let a_len = matrix_a.len();
    let b_len = matrix_b.len();
    let width = block_end - block_start;
    proof {
        assert(row_idx * cols_a_rows_b + block_start + width <= a_len);
        assert(col_idx * cols_a_rows_b + block_start + width <= b_len);
    }
    let a_base = row_idx * cols_a_rows_b + block_start;
    let b_base = col_idx * cols_a_rows_b + block_start;
    let a_lanes = load_lanes(matrix_a, a_base, width);
    let b_lanes = load_lanes(matrix_b, b_base, width);
    let product = mul_lanes(&a_lanes, &b_lanes);
    let ghost f = |l: int| matrix_a@[a_base + l] as int * matrix_b@[b_base + l] as int;
    let mut block_sum: i64 = 0;
    let mut l: usize = 0;
    while l < width
        invariant
            l <= width <= BLOCK_SIZE,
            forall|m: int| 0 <= m < BLOCK_SIZE ==> #[trigger] product@[m] == wrap(a_lanes@[m] * b_lanes@[m]),
            forall|m: int| 0 <= m < BLOCK_SIZE ==> #[trigger] a_lanes@[m] == if m < width {
                matrix_a@[a_base + m]
            } else {
                0
            },
            forall|m: int| 0 <= m < BLOCK_SIZE ==> #[trigger] b_lanes@[m] == if m < width {
                matrix_b@[b_base + m]
            } else {
                0
            },
            f == (|l: int| matrix_a@[a_base + l] as int * matrix_b@[b_base + l] as int),
            cong(block_sum as int, sum_of(l as int, f)),
        decreases width - l,
    {
        let lane = product[l];
        proof {
            lemma_wrap_cong(a_lanes@[l as int] * b_lanes@[l as int]);
            lemma_wrapping_add(block_sum, lane);
            lemma_cong_add(block_sum as int, sum_of(l as int, f), lane as int, f(l as int));
            lemma_cong_sym_trans(
                block_sum.wrapping_add(lane) as int,
                block_sum + lane,
                sum_of(l as int, f) + f(l as int),
            );
        }
        block_sum = block_sum.wrapping_add(lane);
        l += 1;
    }
    proof {
        lemma_wrap_of_cong(block_sum, sum_of(width as int, f));
    }
    block_sum
}

/// One cell of the product from row `i` of `A` and row `j` of `B_T`, summed block
/// by block; the last block is partial when `k` is not a multiple of `BLOCK_SIZE`.
fn blocked_cell(a: &Vec<i64>, bt: &Vec<i64>, i: usize, j: usize, k: usize) -> (r: i64)
    requires
        i * k + k <= a@.len(),
        j * k + k <= bt@.len(),
    ensures
        r == wrap(seg_dot(a@, i * k, bt@, j * k, k as int)),
{
    let ghost f = |p: int| a@[i * k + p] as int * bt@[j * k + p] as int;
    let mut sum: i64 = 0;
    let mut block_start: usize = 0;
    while block_start < k
        invariant
            block_start <= k,
            i * k + k <= a@.len(),
            j * k + k <= bt@.len(),
            f == (|p: int| a@[i * k + p] as int * bt@[j * k + p] as int),
            cong(sum as int, sum_of(block_start as int, f)),
        decreases k - block_start,
    {
        let block_end = if k - block_start > BLOCK_SIZE {
            block_start + BLOCK_SIZE
        } else {
            k
        };
        let part = compute_block_sum(a, bt, i, j, k, block_start, block_end);
        proof {
            let w = block_end - block_start;
            let s = block_start as int;
            lemma_sum_split(s, w, f);
            lemma_sum_ext(
                w,
                |l: int| f(s + l),
                |l: int| a@[i * k + s + l] as int * bt@[j * k + s + l] as int,
            );
            lemma_wrap_cong(seg_dot(a@, i * k + s, bt@, j * k + s, w));
            lemma_wrapping_add(sum, part);
            lemma_cong_add(sum as int, sum_of(s, f), part as int, sum_of(w, |l: int| f(s + l)));
            lemma_cong_sym_trans(
                sum.wrapping_add(part) as int,
                sum + part,
                sum_of(s + w, f),
            );
        }
        sum = sum.wrapping_add(part);
        block_start = block_end;
    }
    proof {
        lemma_wrap_of_cong(sum, sum_of(k as int, f));
    }
    sum
}

/// Row `i` of the product, computed with the blocked inner loop from `A` and the
/// transpose `B_T` of `B`.
fn blocked_row(
    a: &Vec<i64>,
    bt: &Vec<i64>,
    Ghost(b): Ghost<Seq<i64>>,
    i: usize,
    rows_a: usize,
    k: usize,
    cols_b: usize,
) -> (r: Vec<i64>)
    requires
        i < rows_a,
        a@.len() == rows_a * k,
        bt@.len() == cols_b * k,
        forall|p: int, j: int|
            0 <= p < k && 0 <= j < cols_b ==> #[trigger] bt@[j * k + p] == b[p * cols_b + j],
    ensures
        r@ == product_row(a@, b, k as int, cols_b as int, i as int),
{
    proof {
        assert(i * k + k <= rows_a * k) by (nonlinear_arith)
            requires
                i < rows_a,
        ;
    }
    let mut row: Vec<i64> = Vec::new();
    let mut j: usize = 0;
    while j < cols_b
        invariant
            j <= cols_b,
            i * k + k <= a@.len(),
            bt@.len() == cols_b * k,
            forall|p: int, j: int|
                0 <= p < k && 0 <= j < cols_b ==> #[trigger] bt@[j * k + p] == b[p * cols_b + j],
            row@.len() == j,
            forall|x: int|
                0 <= x < j ==> #[trigger] row@[x] == product_row(
                    a@,
                    b,
                    k as int,
                    cols_b as int,
                    i as int,
                )[x],
        decreases cols_b - j,
    {
        proof {
            assert(j * k + k <= cols_b * k) by (nonlinear_arith)
                requires
                    j < cols_b,
            ;
        }
        let cell = blocked_cell(a, bt, i, j, k);
        proof {
            lemma_sum_ext(
                k as int,
                |p: int| a@[i * k + p] as int * bt@[j * k + p] as int,
                |p: int| a@[i * k + p] as int * b[p * cols_b + j] as int,
            );
        }
        row.push(cell);
        j += 1;
    }
    assert(row@ =~= product_row(a@, b, k as int, cols_b as int, i as int));
    row
}

/// The blocked product of `A (shape_a)` and `B (shape_b)`: `B` is transposed once
/// so that each cell walks both operands with unit stride, `BLOCK_SIZE` lanes at
/// a time.
pub fn multiply_matrix_simd(
    matrix_a: &Vec<i64>,
    shape_a: Shape,
    matrix_b: &Vec<i64>,
    shape_b: Shape,
) -> (r: Result<Vec<i64>, MatMulError>)
    ensures
        multiply_result(matrix_a@, shape_a, matrix_b@, shape_b, r),
{
    check_operands(matrix_a.len(), shape_a, matrix_b.len(), shape_b)?;
    let rows_a = shape_a.rows;
    let k = shape_a.cols;
    let cols_b = shape_b.cols;
    let b_t = transpose_matrix(matrix_b, k, cols_b);
    proof {
        assert(cols_b * k == k * cols_b) by (nonlinear_arith);
    }
    let mut rows: Vec<Vec<i64>> = Vec::new();
    let mut i: usize = 0;
    while i < rows_a
        invariant
            i <= rows_a,
            matrix_a@.len() == rows_a * k,
            b_t@.len() == cols_b * k,
            forall|p: int, j: int|
                0 <= p < k && 0 <= j < cols_b ==> #[trigger] b_t@[j * k + p] == matrix_b@[p * cols_b
                    + j],
            rows@.len() == i,
            forall|x: int|
                0 <= x < i ==> (#[trigger] rows@[x])@ == product_row(
                    matrix_a@,
                    matrix_b@,
                    k as int,
                    cols_b as int,
                    x,
                ),
        decreases rows_a - i,
    {
        let row = blocked_row(matrix_a, &b_t, Ghost(matrix_b@), i, rows_a, k, cols_b);
        rows.push(row);
        i += 1;
    }
    let ghost rows_seq = rows@;
    let out = concat_rows(rows, cols_b);
    proof {
        lemma_rows_give_product(
            out@,
            rows_seq,
            matrix_a@,
            matrix_b@,
            rows_a as int,
            k as int,
            cols_b as int,
        );
    }
    Ok(out)
}

/// Relies on rayon's parallel iterator over `0..n`, `map` and `collect` into a
/// `Vec`: `f` runs once for each index, on any worker, and the results come back
/// in index order (the range is an indexed iterator, collected in place).
#[verifier::external_body]
fn par_map_rows<F>(n: usize, f: F) -> (r: Vec<Vec<i64>>)
    where
        F: Fn(usize) -> Vec<i64> + Send + Sync,
    requires
        forall|i: usize| i < n ==> #[trigger] f.requires((i,)),
    ensures
        r@.len() == n,
        forall|i: int| 0 <= i < n ==> f.ensures((i as usize,), #[trigger] r@[i]),
{
    (0..n).into_par_iter().map(f).collect()
}

/// The row-partitioned product of `A (shape_a)` and `B (shape_b)`: each output
/// row is an independent task computed with the naive inner loop; the tasks share
/// nothing mutable and their rows are joined in order.
pub fn multiply_matrix_rayon(
    matrix_a: &Vec<i64>,
    shape_a: Shape,
    matrix_b: &Vec<i64>,
    shape_b: Shape,
) -> (r: Result<Vec<i64>, MatMulError>)
    ensures
        multiply_result(matrix_a@, shape_a, matrix_b@, shape_b, r),
{
    check_operands(matrix_a.len(), shape_a, matrix_b.len(), shape_b)?;
    let rows_a = shape_a.rows;
    let k = shape_a.cols;
    let cols_b = shape_b.cols;
    let row_task = |i: usize| -> (row: Vec<i64>)
        requires
            i < rows_a,
            matrix_a@.len() == rows_a * k,
            matrix_b@.len() == k * cols_b,
        ensures
            row@ == product_row(matrix_a@, matrix_b@, k as int, cols_b as int, i as int),
        { naive_row(matrix_a, matrix_b, i, rows_a, k, cols_b) };
    let rows = par_map_rows(rows_a, row_task);
    let ghost rows_seq = rows@;
    let out = concat_rows(rows, cols_b);
    proof {
        lemma_rows_give_product(
            out@,
            rows_seq,
            matrix_a@,
            matrix_b@,
            rows_a as int,
            k as int,
            cols_b as int,
        );
    }
    Ok(out)
}

/// The row-partitioned product of `A (shape_a)` and `B (shape_b)` whose tasks use
/// the blocked inner loop over the transpose of `B`, computed once up front.
pub fn multiply_matrix_rayon_simd(
    matrix_a: &Vec<i64>,
    shape_a: Shape,
    matrix_b: &Vec<i64>,
    shape_b: Shape,
) -> (r: Result<Vec<i64>, MatMulError>)
    ensures
        multiply_result(matrix_a@, shape_a, matrix_b@, shape_b, r),
{
    check_operands(matrix_a.len(), shape_a, matrix_b.len(), shape_b)?;
    let rows_a = shape_a.rows;
    let k = shape_a.cols;
    let cols_b = shape_b.cols;
    let b_t = transpose_matrix(matrix_b, k, cols_b);
    proof {
        assert(cols_b * k == k * cols_b) by (nonlinear_arith);
    }
    let b_t_ref = &b_t;
    let row_task = |i: usize| -> (row: Vec<i64>)
        requires
            i < rows_a,
            matrix_a@.len() == rows_a * k,
            b_t_ref@.len() == cols_b * k,
            forall|p: int, j: int|
                0 <= p < k && 0 <= j < cols_b ==> #[trigger] b_t_ref@[j * k + p]
                    == matrix_b@[p * cols_b + j],
        ensures
            row@ == product_row(matrix_a@, matrix_b@, k as int, cols_b as int, i as int),
        { blocked_row(matrix_a, b_t_ref, Ghost(matrix_b@), i, rows_a, k, cols_b) };
    let rows = par_map_rows(rows_a, row_task);
    let ghost rows_seq = rows@;
    let out = concat_rows(rows, cols_b);
    proof {
        lemma_rows_give_product(
            out@,
            rows_seq,
            matrix_a@,
            matrix_b@,
            rows_a as int,
            k as int,
            cols_b as int,
        );
    }
    Ok(out)
}

} // verus!
