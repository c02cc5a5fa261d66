//! Shapes of row-major operands and the checks made before any kernel runs.
use vstd::arithmetic::div_mod::lemma_fundamental_div_mod_converse;
use vstd::prelude::*;

verus! {

/// The number of rows and columns of a row-major buffer.
#[derive(Clone, Copy, Debug, PartialEq, Eq, Structural)]
pub struct Shape {
    pub rows: usize,
    pub cols: usize,
}

/// Why a multiplication was rejected before any work was done.
#[derive(Clone, Copy, Debug, PartialEq, Eq, Structural)]
pub enum MatMulError {
    /// The left operand's column count differs from the right operand's row count.
    ShapeMismatch,
    /// A buffer's length differs from `rows * cols` of its declared shape.
    BufferLengthMismatch,
    /// The result's length `rows_a * cols_b` does not fit in `usize`.
    TooLarge,
}

impl Shape {
    pub open spec fn len(self) -> int {
        self.rows * self.cols
    }
}

/// The error a multiplication of `A (shape_a)` by `B (shape_b)` reports, if any:
/// a shape mismatch first, then a buffer length mismatch, then an oversized result.
pub open spec fn operand_error(a_len: int, shape_a: Shape, b_len: int, shape_b: Shape) -> Option<
    MatMulError,
> {
    if shape_a.cols != shape_b.rows {
        Some(MatMulError::ShapeMismatch)
    } else if a_len != shape_a.len() || b_len != shape_b.len() {
        Some(MatMulError::BufferLengthMismatch)
    } else if shape_a.rows * shape_b.cols > usize::MAX {
        Some(MatMulError::TooLarge)
    } else {
        None
    }
}

/// Whether `len` is the length of a buffer of shape `shape`.
pub fn len_matches(len: usize, shape: Shape) -> (r: bool)
    ensures
        r == (len == shape.len()),
{
    match shape.rows.checked_mul(shape.cols) {
        Some(n) => n == len,
        None => false,
    }
}

/// Validates two operands once, at the kernel boundary.
pub fn check_operands(a_len: usize, shape_a: Shape, b_len: usize, shape_b: Shape) -> (r: Result<
    (),
    MatMulError,
>)
    ensures
        match r {
            Ok(_) => operand_error(a_len as int, shape_a, b_len as int, shape_b) is None,
            Err(e) => operand_error(a_len as int, shape_a, b_len as int, shape_b) == Some(e),
        },
{
    if shape_a.cols != shape_b.rows {
        return Err(MatMulError::ShapeMismatch);
    }
    if !len_matches(a_len, shape_a) || !len_matches(b_len, shape_b) {
        return Err(MatMulError::BufferLengthMismatch);
    }
    match shape_a.rows.checked_mul(shape_b.cols) {
        Some(_) => Ok(()),
        None => Err(MatMulError::TooLarge),
    }
}

/// Position `i * cols + j` of a row-major `rows × cols` buffer lies inside it and
/// maps back to row `i`, column `j`.
pub proof fn lemma_row_major(i: int, j: int, rows: int, cols: int)
    requires
        0 <= i < rows,
        0 <= j < cols,
    ensures
        0 <= i * cols + j < rows * cols,
        i * cols + j + cols - j <= rows * cols,
        (i * cols + j) / cols == i,
        (i * cols + j) % cols == j,
{
    assert(0 <= i * cols) by (nonlinear_arith)
        requires
            0 <= i,
            0 <= cols,
    ;
    assert(i * cols + cols <= rows * cols) by (nonlinear_arith)
        requires
            i < rows,
            0 <= cols,
    ;
    lemma_fundamental_div_mod_converse(i * cols + j, cols, i, j);
}

/// Every position of a row-major `rows × cols` buffer has a row below `rows`.
pub proof fn lemma_row_of(x: int, rows: int, cols: int)
    requires
        0 <= rows,
        0 <= x < rows * cols,
    ensures
        cols > 0,
        0 <= x / cols < rows,
        0 <= x % cols < cols,
        x == (x / cols) * cols + x % cols,
{
    assert(cols > 0) by (nonlinear_arith)
        requires
            0 <= x < rows * cols,
            0 <= rows,
    ;
    let q = x / cols;
    assert(x == q * cols + x % cols && 0 <= x % cols < cols) by (nonlinear_arith)
        requires
            cols > 0,
            q == x / cols,
    ;
    assert(0 <= q < rows) by (nonlinear_arith)
        requires
            cols > 0,
            x == q * cols + x % cols,
            0 <= x % cols < cols,
            0 <= x < rows * cols,
    ;
}

} // verus!
