use rust_dl_from_scratch::activation::{relu, sigmoid, sigmoid_matrix, softmax_matrix, softmax_row};
use rust_dl_from_scratch::matrix::Matrix;

fn softmax(x: &Matrix<f64>) -> Matrix<f64> {
    softmax_matrix(x, f64::exp)
}

fn sig(x: &Matrix<f64>) -> Matrix<f64> {
    sigmoid_matrix(x, f64::exp)
}

#[test]
fn activation_test_sigmoid() {
    let x = Matrix::from_vec(vec![vec![0.0, 1.0], vec![-1.0, 2.0]]).unwrap();
    let result = sig(&x);
    assert!((result.data[0][0] - 0.5).abs() < 1e-10);
    assert!((result.data[0][1] - 0.7310585786300049).abs() < 1e-10);
    assert!((result.data[1][0] - 0.2689414213699951).abs() < 1e-10);
    assert!((result.data[1][1] - 0.8807970779778823).abs() < 1e-10);
}

#[test]
fn network_test_sigmoid() {
    let x = Matrix::from_vec(vec![vec![0.0], vec![1.0]]).unwrap();
    let y = sig(&x);
    assert!((y.data[0][0] - 0.5).abs() < 1e-6);
    assert!((y.data[1][0] - 0.73105).abs() < 1e-4);
}

#[test]
fn test_sigmoid_matrix() {
    let x = Matrix::from_vec(vec![vec![0.0], vec![1.0]]).unwrap();
    let y = sig(&x);
    assert!((y.data[0][0] - 0.5).abs() < 1e-6);
    assert!((y.data[1][0] - 0.73105).abs() < 1e-4);
}

#[test]
fn sigmoid_stays_in_the_open_unit_interval() {
    assert_eq!(sigmoid(0.0, &f64::exp), 0.5);
    for v in [-30.0, -5.0, -0.5, 0.25, 3.0, 30.0] {
        let s = sigmoid(v, &f64::exp);
        assert!(s > 0.0 && s < 1.0, "sigmoid({}) = {}", v, s);
    }
    // very large inputs saturate without NaN
    assert_eq!(sigmoid(1000.0, &f64::exp), 1.0);
    assert_eq!(sigmoid(-1000.0, &f64::exp), 0.0);
    assert!(!sigmoid(f64::MAX, &f64::exp).is_nan());
}

#[test]
fn network_test_softmax() {
    let x = Matrix::from_vec(vec![vec![2.0, 1.0, 0.1], vec![1.0, 2.0, 3.0]]).unwrap();
    let y = softmax(&x);
    for row in &y.data {
        let sum: f64 = row.iter().sum();
        assert!((sum - 1.0).abs() < 1e-6);
    }
}

#[test]
fn activation_test_softmax() {
    let x = Matrix::from_vec(vec![vec![1.0, 2.0, 3.0], vec![1.0, 1.0, 1.0]]).unwrap();
    let result = softmax(&x);
    let sums: f64 = result.data.iter().map(|r| r.iter().sum::<f64>() - 1.0).sum();
    assert!(sums.abs() < 1e-10);
    let row1 = &result.data[1];
    assert!((row1[0] - 1.0 / 3.0).abs() < 1e-10);
    assert!((row1[1] - 1.0 / 3.0).abs() < 1e-10);
    assert!((row1[2] - 1.0 / 3.0).abs() < 1e-10);
}

#[test]
fn test_softmax_numerical_stability() {
    let x = Matrix::from_vec(vec![vec![1000.0, 1001.0, 1002.0]]).unwrap();
    let result = softmax(&x);
    assert!(result.data.iter().flatten().all(|v| v.is_finite()));
    let sum: f64 = result.data.iter().flatten().sum();
    assert!((sum - 1.0).abs() < 1e-10);
}

#[test]
fn test_softmax_matrix() {
    let x = Matrix::from_vec(vec![vec![2.0, 1.0, 0.1], vec![1.0, 2.0, 3.0]]).unwrap();
    let y = softmax(&x);
    for row in y.data {
        let sum: f64 = row.iter().sum();
        assert!((sum - 1.0).abs() < 1e-6);
    }
}

#[test]
fn softmax_of_known_values() {
    let y = softmax_row(&vec![0.0, 2f64.ln()], &f64::exp);
    assert!((y[0] - 1.0 / 3.0).abs() < 1e-12);
    assert!((y[1] - 2.0 / 3.0).abs() < 1e-12);
    // shifting a row leaves its softmax unchanged
    let a = softmax_row(&vec![1.0, 2.0, 3.0], &f64::exp);
    let b = softmax_row(&vec![1001.0, 1002.0, 1003.0], &f64::exp);
    for j in 0..3 {
        assert!((a[j] - b[j]).abs() < 1e-12);
    }
}

#[test]
fn softmax_with_huge_and_mixed_magnitudes() {
    let x = Matrix::from_vec(vec![vec![-5000.0, 3000.0, 2999.0], vec![1e308, 1e308, -1e308]]).unwrap();
    let y = softmax(&x);
    assert_eq!(y.shape(), (2, 3));
    for row in &y.data {
        assert!(row.iter().all(|v| v.is_finite() && *v >= 0.0 && *v <= 1.0));
        assert!((row.iter().sum::<f64>() - 1.0).abs() < 1e-10);
    }
    assert_eq!(y.data[0][0], 0.0);
    assert!((y.data[1][0] - 0.5).abs() < 1e-12);
}

#[test]
fn softmax_of_empty_rows() {
    let x: Matrix<f64> = Matrix::new(2, 0, 0.0);
    assert_eq!(softmax(&x).shape(), (2, 0));
    assert!(softmax_row(&Vec::<f64>::new(), &f64::exp).is_empty());
}

#[test]
fn softmax_picks_the_row_maximum_with_integers() {
    // an "exponential" that is 1 at 0 and 0 elsewhere marks where the shifted row is 0,
    // that is, where the row reaches its maximum
    let at_zero = |v: i64| if v == 0 { 1 } else { 0 };
    let y = softmax_matrix(&Matrix::from_vec(vec![vec![3i64, 7, 5], vec![-2, -9, -4]]).unwrap(), at_zero);
    assert_eq!(y.data, vec![vec![0, 1, 0], vec![1, 0, 0]]);
    // entry minus maximum: 3 - 7 = -4
    let y = softmax_row(&vec![3i64, 7, 5], &|v: i64| if v == -4 { 1 } else { 0 });
    assert_eq!(y, vec![1, 0, 0]);
}

#[test]
fn relu_keeps_positive_values() {
    assert_eq!(relu(2.5, 0.0), 2.5);
    assert_eq!(relu(-3.0, 0.0), 0.0);
    assert_eq!(relu(f64::NAN, 0.0), 0.0);
    assert_eq!(relu(-7i64, 0), 0);
    assert_eq!(relu(9i64, 0), 9);
}
