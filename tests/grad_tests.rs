use rust_dl_from_scratch::grad::{numerical_diff, numerical_gradient, numerical_gradient_1d};
use rust_dl_from_scratch::matrix::Matrix;

const H: f64 = 1e-4;

fn sum_of_squares(x: &Matrix<f64>) -> f64 {
    x.data.iter().flatten().map(|v| v.powi(2)).sum()
}

#[test]
fn test_numerical_diff() {
    let f = |x: f64| x.powi(2);
    let dx = numerical_diff(f, 3.0, H);
    assert!((dx - 6.0).abs() < 1e-3);
}

#[test]
fn numerical_diff_with_integers_is_exact_on_lines() {
    // clamped, so that any two results can be subtracted
    assert_eq!(numerical_diff(|x: i64| 7 * x.clamp(-1000, 1000) - 3, 10, 2), 7);
    assert_eq!(numerical_diff(|x: i64| x.clamp(-1000, 1000).pow(2), 5, 1), 10);
}

#[test]
fn test_matrix_gradient() {
    let x = Matrix::from_vec(vec![vec![3.0, 4.0]]).unwrap();
    let grad = numerical_gradient(sum_of_squares, &x, H);
    assert!((grad.data[0][0] - 6.0).abs() < 1e-3);
    assert!((grad.data[0][1] - 8.0).abs() < 1e-3);
}

#[test]
fn test_vector_gradient() {
    let f = |x: &Vec<f64>| x.iter().map(|v| v.powi(2)).sum();
    let x = vec![3.0, 4.0, 5.0];
    let grad = numerical_gradient_1d(f, &x, H);
    assert!((grad[0] - 6.0).abs() < 1e-3);
    assert!((grad[1] - 8.0).abs() < 1e-3);
    assert!((grad[2] - 10.0).abs() < 1e-3);
}

#[test]
fn row_matrix_gradient_matches_the_vector_gradient() {
    let x = Matrix::from_vec(vec![vec![3.0, 4.0, 5.0]]).unwrap();
    let grad = numerical_gradient(sum_of_squares, &x, H);
    assert!((grad.data[0][0] - 6.0).abs() < 1e-3);
    assert!((grad.data[0][1] - 8.0).abs() < 1e-3);
    assert!((grad.data[0][2] - 10.0).abs() < 1e-3);
}

#[test]
fn vector_gradient_perturbs_one_entry_at_a_time() {
    let x = vec![1.0, 2.0, 3.0];
    let g = numerical_gradient_1d(|v: &Vec<f64>| 5.0 * v[1], &x, H);
    assert_eq!(g[0], 0.0);
    assert_eq!(g[2], 0.0);
    assert!((g[1] - 5.0).abs() < 1e-6);
    assert_eq!(x, vec![1.0, 2.0, 3.0]);
    let empty: Vec<f64> = Vec::new();
    assert!(numerical_gradient_1d(|_: &Vec<f64>| 1.0, &empty, H).is_empty());
}

#[test]
fn gradient_of_a_column_and_of_a_square() {
    let col = Matrix::from_vec(vec![vec![3.0], vec![4.0], vec![5.0]]).unwrap();
    let g = numerical_gradient(sum_of_squares, &col, H);
    assert_eq!(g.shape(), (3, 1));
    assert!((g.data[2][0] - 10.0).abs() < 1e-3);
    let sq = Matrix::from_vec(vec![vec![1.0, -2.0], vec![0.5, 0.0]]).unwrap();
    let g = numerical_gradient(sum_of_squares, &sq, H);
    assert_eq!(g.shape(), (2, 2));
    let want = [[2.0, -4.0], [1.0, 0.0]];
    for i in 0..2 {
        for j in 0..2 {
            assert!((g.data[i][j] - want[i][j]).abs() < 1e-3);
        }
    }
}

#[test]
fn gradient_perturbs_one_entry_at_a_time() {
    // f reads only entry (0, 1): every other partial derivative is exactly zero,
    // so no perturbation may leak into another entry.
    let x = Matrix::from_vec(vec![vec![1.0, 2.0], vec![3.0, 4.0]]).unwrap();
    let g = numerical_gradient(|m: &Matrix<f64>| 3.0 * m.data[0][1], &x, H);
    assert_eq!(g.data[0][0], 0.0);
    assert_eq!(g.data[1][0], 0.0);
    assert_eq!(g.data[1][1], 0.0);
    assert!((g.data[0][1] - 3.0).abs() < 1e-6);
    assert_eq!(x.data, vec![vec![1.0, 2.0], vec![3.0, 4.0]]);
}

#[test]
fn gradient_of_a_linear_function_with_integer_steps() {
    let x = Matrix::from_vec(vec![vec![5i64, -7]]).unwrap();
    let g = numerical_gradient(
        |m: &Matrix<i64>| 4 * m.data[0][0].clamp(-1000, 1000) - 2 * m.data[0][1].clamp(-1000, 1000),
        &x,
        1,
    );
    assert_eq!(g.data, vec![vec![4, -2]]);
}
