use rmatrix::dense::{
    compute_block_sum, multiply_matrix_naive, multiply_matrix_rayon, multiply_matrix_rayon_simd,
    multiply_matrix_simd, transpose_matrix, BLOCK_SIZE,
};
use rmatrix::shape::{check_operands, MatMulError, Shape};

fn shape(rows: usize, cols: usize) -> Shape {
    Shape { rows, cols }
}

fn sample(rows: usize, cols: usize, seed: i64) -> Vec<i64> {
    (0..rows * cols)
        .map(|x| ((x as i64) * 7 + seed) % 11 - 5)
        .collect()
}

type Kernel = fn(&Vec<i64>, Shape, &Vec<i64>, Shape) -> Result<Vec<i64>, MatMulError>;

fn kernels() -> Vec<Kernel> {
    vec![
        multiply_matrix_naive,
        multiply_matrix_simd,
        multiply_matrix_rayon,
        multiply_matrix_rayon_simd,
    ]
}

#[test]
fn test_matrix_simd() {
    let a: Vec<i64> = vec![1, 2];
    let b: Vec<i64> = vec![-3, 5, 4, -6];
    let c = multiply_matrix_simd(&a, shape(1, 2), &b, shape(2, 2)).unwrap();
    assert_eq!(c, vec![5, -7]);
    let c = multiply_matrix_rayon(&a, shape(1, 2), &b, shape(2, 2)).unwrap();
    assert_eq!(c, vec![5, -7]);
}

#[test]
fn scenario_every_kernel() {
    let a: Vec<i64> = vec![1, 2];
    let b: Vec<i64> = vec![-3, 5, 4, -6];
    for kernel in kernels() {
        assert_eq!(kernel(&a, shape(1, 2), &b, shape(2, 2)), Ok(vec![5, -7]));
    }
}

#[test]
fn two_by_three_times_three_by_two() {
    let a: Vec<i64> = vec![1, 2, 3, 4, 5, 6];
    let b: Vec<i64> = vec![7, 8, 9, 10, 11, 12];
    for kernel in kernels() {
        assert_eq!(kernel(&a, shape(2, 3), &b, shape(3, 2)), Ok(vec![58, 64, 139, 154]));
    }
}

#[test]
fn kernels_agree_on_many_shapes() {
    for rows_a in 0..4 {
        for k in 0..10 {
            for cols_b in 0..4 {
                let a = sample(rows_a, k, 3);
                let b = sample(k, cols_b, 5);
                let expected = multiply_matrix_naive(&a, shape(rows_a, k), &b, shape(k, cols_b)).unwrap();
                assert_eq!(expected.len(), rows_a * cols_b);
                for kernel in kernels() {
                    assert_eq!(kernel(&a, shape(rows_a, k), &b, shape(k, cols_b)), Ok(expected.clone()));
                }
            }
        }
    }
}

#[test]
fn partial_block_matches_naive() {
    for k in [7usize, 8] {
        let a = sample(3, k, 1);
        let b = sample(k, 5, 2);
        let naive = multiply_matrix_naive(&a, shape(3, k), &b, shape(k, 5)).unwrap();
        let blocked = multiply_matrix_simd(&a, shape(3, k), &b, shape(k, 5)).unwrap();
        assert_eq!(naive, blocked);
    }
}

#[test]
fn partial_block_exact_value() {
    // 1x7 times 7x1: 1*1 + 2*2 + ... + 7*7 = 140, split into a full and a partial block.
    let a: Vec<i64> = (1..=7).collect();
    let b: Vec<i64> = (1..=7).collect();
    assert_eq!(multiply_matrix_simd(&a, shape(1, 7), &b, shape(7, 1)), Ok(vec![140]));
}

#[test]
fn shape_mismatch_reported_by_every_kernel() {
    let a: Vec<i64> = vec![1, 2, 3];
    let b: Vec<i64> = vec![1, 2, 3, 4];
    for kernel in kernels() {
        assert_eq!(kernel(&a, shape(1, 3), &b, shape(2, 2)), Err(MatMulError::ShapeMismatch));
    }
}

#[test]
fn buffer_length_mismatch_reported() {
    let a: Vec<i64> = vec![1, 2, 3];
    let b: Vec<i64> = vec![1, 2, 3, 4];
    for kernel in kernels() {
        assert_eq!(kernel(&a, shape(1, 2), &b, shape(2, 2)), Err(MatMulError::BufferLengthMismatch));
        assert_eq!(kernel(&b, shape(2, 2), &a, shape(2, 2)), Err(MatMulError::BufferLengthMismatch));
    }
}

#[test]
fn oversized_result_reported() {
    let empty: Vec<i64> = Vec::new();
    for kernel in kernels() {
        assert_eq!(
            kernel(&empty, shape(usize::MAX, 0), &empty, shape(0, 2)),
            Err(MatMulError::TooLarge)
        );
    }
}

#[test]
fn check_operands_order_of_errors() {
    assert_eq!(check_operands(5, shape(1, 3), 4, shape(2, 2)), Err(MatMulError::ShapeMismatch));
    assert_eq!(check_operands(5, shape(1, 2), 4, shape(2, 2)), Err(MatMulError::BufferLengthMismatch));
    assert_eq!(check_operands(2, shape(1, 2), 4, shape(2, 2)), Ok(()));
    assert_eq!(
        check_operands(0, shape(usize::MAX, 2), 0, shape(2, 0)),
        Err(MatMulError::BufferLengthMismatch)
    );
}

#[test]
fn empty_shared_dimension_gives_zeros() {
    let empty: Vec<i64> = Vec::new();
    for kernel in kernels() {
        assert_eq!(kernel(&empty, shape(2, 0), &empty, shape(0, 3)), Ok(vec![0; 6]));
    }
}

#[test]
fn wrapping_arithmetic_is_modular() {
    let a: Vec<i64> = vec![i64::MAX, i64::MAX];
    let b: Vec<i64> = vec![2, 1];
    // 3 * (2^63 - 1) reduced modulo 2^64 is 2^63 - 3.
    for kernel in kernels() {
        assert_eq!(kernel(&a, shape(1, 2), &b, shape(2, 1)), Ok(vec![i64::MAX - 2]));
    }
}

#[test]
fn identity_leaves_matrix_unchanged() {
    let a = sample(3, 5, 4);
    let mut id = vec![0i64; 25];
    for i in 0..5 {
        id[i * 5 + i] = 1;
    }
    let mut left_id = vec![0i64; 9];
    for i in 0..3 {
        left_id[i * 3 + i] = 1;
    }
    for kernel in kernels() {
        assert_eq!(kernel(&a, shape(3, 5), &id, shape(5, 5)), Ok(a.clone()));
        assert_eq!(kernel(&left_id, shape(3, 3), &a, shape(3, 5)), Ok(a.clone()));
    }
}

#[test]
fn transpose_layout() {
    let m: Vec<i64> = vec![1, 2, 3, 4, 5, 6];
    assert_eq!(transpose_matrix(&m, 2, 3), vec![1, 4, 2, 5, 3, 6]);
}

#[test]
fn transpose_involution() {
    let m = sample(4, 3, 9);
    let t = transpose_matrix(&m, 4, 3);
    assert_ne!(t, m);
    assert_eq!(transpose_matrix(&t, 3, 4), m);
}

#[test]
fn transpose_of_floats() {
    let m: Vec<f64> = vec![1.5, -2.0, 0.25, 4.0, 8.0, -16.0];
    let t = transpose_matrix(&m, 3, 2);
    assert_eq!(t, vec![1.5, 0.25, 8.0, -2.0, 4.0, -16.0]);
    assert_eq!(transpose_matrix(&t, 2, 3), m);
}

#[test]
fn block_sum_full_and_partial() {
    assert_eq!(BLOCK_SIZE, 4);
    let a: Vec<i64> = vec![1, 2, 3, 4, 5, 6];
    let bt: Vec<i64> = vec![1, 1, 1, 1, 1, 10];
    assert_eq!(compute_block_sum(&a, &bt, 0, 0, 6, 0, 4), 10);
    assert_eq!(compute_block_sum(&a, &bt, 0, 0, 6, 4, 6), 65);
    assert_eq!(compute_block_sum(&a, &bt, 0, 0, 6, 2, 3), 3);
    assert_eq!(compute_block_sum(&a, &bt, 0, 0, 6, 3, 3), 0);
}

#[test]
fn rows_come_back_in_order() {
    let a: Vec<i64> = (0..12).collect();
    let b: Vec<i64> = vec![1];
    assert_eq!(multiply_matrix_rayon(&a, shape(12, 1), &b, shape(1, 1)), Ok(a.clone()));
    assert_eq!(multiply_matrix_rayon_simd(&a, shape(12, 1), &b, shape(1, 1)), Ok(a.clone()));
}
