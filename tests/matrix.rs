use rmatrix::matrix::Matrix;
use rmatrix::shape::MatMulError;

#[test]
fn test_matrix() {
    let matrix = Matrix::from_rows(vec![vec![1, 2]]).unwrap();
    let matrix2 = Matrix::from_rows(vec![vec![-3, 5], vec![4, -6]]).unwrap();
    let mat = matrix.multiply_by_matrix(&matrix2).unwrap();
    assert_eq!(mat.data(), &vec![vec![5, -7]]);
}

#[test]
fn new_is_zero_filled() {
    let m = Matrix::new(2, 3);
    assert_eq!(m.rows(), 2);
    assert_eq!(m.cols(), 3);
    assert_eq!(m.data(), &vec![vec![0; 3]; 2]);
}

#[test]
fn fill_sets_every_element() {
    let mut m = Matrix::new(3, 2);
    m.fill(7);
    assert_eq!(m.data(), &vec![vec![7; 2]; 3]);
    assert_eq!(m.cols(), 2);
}

#[test]
fn multiply_by_scalar_scales_elements() {
    let mut m = Matrix::from_rows(vec![vec![1, -2], vec![3, 4]]).unwrap();
    m.multiply_by_scalar(-3);
    assert_eq!(m.data(), &vec![vec![-3, 6], vec![-9, -12]]);
}

#[test]
fn product_shape_is_rows_by_other_cols() {
    let a = Matrix::from_rows(vec![vec![1, 2]]).unwrap();
    let b = Matrix::from_rows(vec![vec![1, 0, 2], vec![0, 1, 3]]).unwrap();
    let c = a.multiply_by_matrix(&b).unwrap();
    assert_eq!(c.rows(), 1);
    assert_eq!(c.cols(), 3);
    assert_eq!(c.data(), &vec![vec![1, 2, 8]]);
}

#[test]
fn matrix_shape_mismatch() {
    let a = Matrix::new(2, 3);
    let b = Matrix::new(2, 3);
    assert_eq!(a.multiply_by_matrix(&b).unwrap_err(), MatMulError::ShapeMismatch);
}

#[test]
fn ragged_rows_rejected() {
    let r = Matrix::from_rows(vec![vec![1, 2], vec![3]]);
    assert_eq!(r.unwrap_err(), MatMulError::BufferLengthMismatch);
}

#[test]
fn scaling_commutes_with_product() {
    let a_rows = vec![vec![1, -2, 3], vec![4, 0, -1]];
    let b_rows = vec![vec![2, 1], vec![-1, 5], vec![0, 3]];
    let s = 6;
    let mut scaled_a = Matrix::from_rows(a_rows.clone()).unwrap();
    scaled_a.multiply_by_scalar(s);
    let b = Matrix::from_rows(b_rows).unwrap();
    let first = scaled_a.multiply_by_matrix(&b).unwrap();
    let a = Matrix::from_rows(a_rows).unwrap();
    let mut second = a.multiply_by_matrix(&b).unwrap();
    second.multiply_by_scalar(s);
    assert_eq!(first.data(), second.data());
    assert_eq!(first.data(), &vec![vec![24, 0], vec![48, 6]]);
}

#[test]
fn identity_on_nested_matrix() {
    let a = Matrix::from_rows(vec![vec![3, -1], vec![2, 9], vec![0, 5]]).unwrap();
    let id = Matrix::from_rows(vec![vec![1, 0], vec![0, 1]]).unwrap();
    assert_eq!(a.multiply_by_matrix(&id).unwrap().data(), a.data());
}
