use rust_dl_from_scratch::loss::{cross_entropy_error, cross_entropy_error_optimized, mean_squared_error};
use rust_dl_from_scratch::matrix::{Matrix, ShapeMismatch};

const DELTA: f64 = 1e-7;

fn m(rows: Vec<Vec<f64>>) -> Matrix<f64> {
    Matrix::from_vec(rows).unwrap()
}

fn ce(y: &Matrix<f64>, t: &Matrix<f64>) -> f64 {
    cross_entropy_error(y, t, f64::ln, DELTA).unwrap()
}

fn ce_fast(y: &Matrix<f64>, t: &Matrix<f64>) -> f64 {
    cross_entropy_error_optimized(y, t, f64::ln, DELTA).unwrap()
}

#[test]
fn test_mse() {
    let y = m(vec![vec![0.1, 0.9], vec![0.8, 0.2]]);
    let t = m(vec![vec![0.0, 1.0], vec![1.0, 0.0]]);
    let loss = mean_squared_error(&y, &t).unwrap();
    assert!(loss > 0.0 && loss < 1.0);
}

#[test]
fn test_cross_entropy() {
    let y = m(vec![vec![0.1, 0.9], vec![0.8, 0.2]]);
    let t = m(vec![vec![0.0, 1.0], vec![1.0, 0.0]]);
    let loss = ce(&y, &t);
    assert!(loss > 0.0 && loss < 3.0);
}

#[test]
fn test_cross_entropy_optimized() {
    let y = m(vec![vec![0.1, 0.9], vec![0.8, 0.2]]);
    let t = m(vec![vec![0.0, 1.0], vec![1.0, 0.0]]);
    let loss = ce_fast(&y, &t);
    assert!(loss > 0.0 && loss < 3.0);
    let loss_standard = ce(&y, &t);
    assert!((loss - loss_standard).abs() < 1e-10);
}

#[test]
fn mse_exact_value() {
    let y = m(vec![vec![1.0, 2.0], vec![3.0, 4.0]]);
    let t = m(vec![vec![0.0, 2.0], vec![5.0, 4.0]]);
    // (1 + 0 + 4 + 0) / 4
    assert_eq!(mean_squared_error(&y, &t).unwrap(), 1.25);
    let a = Matrix::from_vec(vec![vec![3u64, 5], vec![4, 0]]).unwrap();
    let b = Matrix::from_vec(vec![vec![1u64, 5], vec![1, 0]]).unwrap();
    // (4 + 0 + 9 + 0) / 4, in integer division
    assert_eq!(mean_squared_error(&a, &b).unwrap(), 3);
}

#[test]
fn mse_of_a_matrix_with_itself_is_zero() {
    for y in [
        m(vec![vec![0.1, 0.9], vec![0.8, 0.2]]),
        m(vec![vec![-1e6, 3.5, 0.0]]),
        m(vec![vec![1e-300], vec![-7.25]]),
    ] {
        assert_eq!(mean_squared_error(&y, &y).unwrap(), 0.0);
    }
}

#[test]
fn losses_reject_mismatched_shapes() {
    let y = m(vec![vec![0.5, 0.5]]);
    let t = m(vec![vec![1.0, 0.0, 0.0]]);
    let tall = m(vec![vec![1.0, 0.0], vec![0.0, 1.0]]);
    assert_eq!(mean_squared_error(&y, &t), Err(ShapeMismatch));
    assert_eq!(mean_squared_error(&y, &tall), Err(ShapeMismatch));
    assert_eq!(cross_entropy_error(&y, &t, f64::ln, DELTA), Err(ShapeMismatch));
    assert_eq!(cross_entropy_error_optimized(&y, &tall, f64::ln, DELTA), Err(ShapeMismatch));
}

#[test]
fn cross_entropy_exact_value() {
    let y = m(vec![vec![0.25, 0.75], vec![0.5, 0.5]]);
    let t = m(vec![vec![0.0, 1.0], vec![1.0, 0.0]]);
    let want = -((0.75f64 + DELTA).ln() + (0.5f64 + DELTA).ln()) / 2.0;
    assert!((ce(&y, &t) - want).abs() < 1e-15);
    assert!((ce_fast(&y, &t) - want).abs() < 1e-15);
}

#[test]
fn cross_entropy_forms_agree_on_one_hot_targets() {
    let y = m(vec![
        vec![0.7, 0.2, 0.1],
        vec![0.05, 0.05, 0.9],
        vec![0.0, 1.0, 0.0],
        vec![0.3, 0.3, 0.4],
    ]);
    let t = m(vec![
        vec![1.0, 0.0, 0.0],
        vec![0.0, 0.0, 1.0],
        vec![1.0, 0.0, 0.0],
        vec![0.0, 1.0, 0.0],
    ]);
    assert!((ce(&y, &t) - ce_fast(&y, &t)).abs() < 1e-10);
}

#[test]
fn zero_probability_stays_finite() {
    let y = m(vec![vec![0.0, 1.0]]);
    let t = m(vec![vec![1.0, 0.0]]);
    let loss = ce(&y, &t);
    assert!(loss.is_finite());
    assert!((loss - (-(DELTA.ln()))).abs() < 1e-9);
    assert!(ce_fast(&y, &t).is_finite());
}
