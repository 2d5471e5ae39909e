use rust_dl_from_scratch::matrix::{copy_vec, select, Matrix, ShapeMismatch};

fn m(rows: Vec<Vec<f64>>) -> Matrix<f64> {
    Matrix::from_vec(rows).unwrap()
}

#[test]
fn test_dot() {
    let a = m(vec![vec![1.0, 2.0], vec![3.0, 4.0]]);
    let b = m(vec![vec![5.0, 6.0], vec![7.0, 8.0]]);
    let c = a.dot(&b).unwrap();
    assert_eq!(c.data, vec![vec![19.0, 22.0], vec![43.0, 50.0]]);
    assert_eq!(c.shape(), (2, 2));
}

#[test]
fn dot_of_integers_is_exact() {
    let a = Matrix::from_vec(vec![vec![1i64, 2, 3]]).unwrap();
    let b = Matrix::from_vec(vec![vec![4i64], vec![5], vec![6]]).unwrap();
    let c = a.dot(&b).unwrap();
    assert_eq!(c.data, vec![vec![32]]);
    let d = b.dot(&a).unwrap();
    assert_eq!(d.data, vec![vec![4, 8, 12], vec![5, 10, 15], vec![6, 12, 18]]);
}

#[test]
fn dot_with_rectangular_shapes() {
    let a = m(vec![vec![1.0, 0.0, 2.0], vec![0.0, 1.0, -1.0]]);
    let b = m(vec![vec![1.0, 2.0], vec![3.0, 4.0], vec![5.0, 6.0]]);
    let c = a.dot(&b).unwrap();
    assert_eq!(c.shape(), (2, 2));
    assert_eq!(c.data, vec![vec![11.0, 14.0], vec![-2.0, -2.0]]);
}

#[test]
fn dot_with_empty_inner_dimension_is_zero() {
    let a: Matrix<f64> = Matrix::new(2, 0, 1.0);
    let b: Matrix<f64> = Matrix::new(0, 3, 1.0);
    let c = a.dot(&b).unwrap();
    assert_eq!(c.shape(), (2, 3));
    assert_eq!(c.data, vec![vec![0.0; 3]; 2]);
}

#[test]
fn dot_shape_mismatch_fails() {
    let a = m(vec![vec![1.0, 2.0], vec![3.0, 4.0]]);
    let b = m(vec![vec![1.0, 2.0, 3.0]]);
    assert_eq!(a.dot(&b).unwrap_err(), ShapeMismatch);
}

#[test]
fn add_same_shape_is_elementwise() {
    let a = m(vec![vec![1.0, 2.0], vec![3.0, 4.0]]);
    let b = m(vec![vec![10.0, 20.0], vec![30.0, 40.0]]);
    let c = a.add(&b).unwrap();
    assert_eq!(c.data, vec![vec![11.0, 22.0], vec![33.0, 44.0]]);
}

#[test]
fn add_broadcasts_a_single_row() {
    let a = m(vec![vec![1.0, 2.0], vec![3.0, 4.0]]);
    let row = m(vec![vec![1.0, 1.0]]);
    let c = a.add(&row).unwrap();
    assert_eq!(c.data, vec![vec![2.0, 3.0], vec![4.0, 5.0]]);
    assert_eq!(c.shape(), (2, 2));
}

#[test]
fn add_broadcast_onto_three_rows() {
    let a = Matrix::new(3, 2, 0.5);
    let row = m(vec![vec![1.0, -1.0]]);
    let c = a.add(&row).unwrap();
    assert_eq!(c.data, vec![vec![1.5, -0.5]; 3]);
}

#[test]
fn add_shape_mismatch_fails() {
    let a = m(vec![vec![1.0, 2.0], vec![3.0, 4.0]]);
    let wrong_width = m(vec![vec![1.0, 1.0, 1.0]]);
    let two_of_three = m(vec![vec![1.0, 2.0], vec![3.0, 4.0], vec![5.0, 6.0]]);
    assert!(a.add(&wrong_width).is_err());
    assert!(a.add(&two_of_three).is_err());
    // a single-row matrix does not take a taller one
    assert!(m(vec![vec![1.0, 2.0]]).add(&a).is_err());
}

#[test]
fn new_fills_every_entry() {
    let a = Matrix::new(2, 3, 7.0);
    assert_eq!(a.shape(), (2, 3));
    assert_eq!(a.data, vec![vec![7.0; 3]; 2]);
}

#[test]
fn from_vec_rejects_ragged_rows() {
    let r = Matrix::from_vec(vec![vec![1.0, 2.0], vec![3.0]]);
    assert_eq!(r.unwrap_err(), ShapeMismatch);
}

#[test]
fn from_vec_of_no_rows_is_empty() {
    let a: Matrix<f64> = Matrix::from_vec(Vec::new()).unwrap();
    assert_eq!(a.shape(), (0, 0));
}

#[test]
fn map_applies_to_each_entry_and_keeps_the_input() {
    let a = m(vec![vec![1.0, -2.0], vec![3.0, 0.0]]);
    let b = a.map(|v| v * 2.0);
    assert_eq!(b.data, vec![vec![2.0, -4.0], vec![6.0, 0.0]]);
    assert_eq!(a.data, vec![vec![1.0, -2.0], vec![3.0, 0.0]]);
    let c = a.map(|v| v > 0.0);
    assert_eq!(c.data, vec![vec![true, false], vec![true, false]]);
}

#[test]
fn with_entry_changes_one_entry_of_a_copy() {
    let a = m(vec![vec![1.0, 2.0], vec![3.0, 4.0]]);
    let b = a.with_entry(1, 0, 9.0);
    assert_eq!(b.data, vec![vec![1.0, 2.0], vec![9.0, 4.0]]);
    assert_eq!(a.data, vec![vec![1.0, 2.0], vec![3.0, 4.0]]);
}

#[test]
fn from_flat_reads_row_by_row() {
    let v = vec![0.0, 1.0, 2.0, 3.0, 4.0, 5.0, 6.0];
    let a = Matrix::from_flat(&v, 1, 2, 3);
    assert_eq!(a.data, vec![vec![1.0, 2.0, 3.0], vec![4.0, 5.0, 6.0]]);
}

#[test]
fn select_rows_follows_the_indices() {
    let a = m(vec![vec![1.0], vec![2.0], vec![3.0]]);
    let b = a.select_rows(&vec![2, 0, 2]);
    assert_eq!(b.data, vec![vec![3.0], vec![1.0], vec![3.0]]);
    assert_eq!(select(&vec![10u8, 20, 30], &vec![1, 1, 0]), vec![20, 20, 10]);
    assert_eq!(copy_vec(&vec![1u8, 2, 3]), vec![1, 2, 3]);
}
