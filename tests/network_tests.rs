use rand::rngs::StdRng;
use rand::SeedableRng;
use rand_distr::{Distribution, Normal};
use rust_dl_from_scratch::matrix::Matrix;
use rust_dl_from_scratch::network::{SimpleNet, SimpleNetMatrix};

fn random_net(input: usize, hidden: usize, output: usize, seed: u64) -> SimpleNet<f64> {
    let mut rng = StdRng::seed_from_u64(seed);
    let normal = Normal::new(0.0, 1.0).unwrap();
    let n = input * hidden + hidden * output;
    let samples: Vec<f64> = (0..n).map(|_| normal.sample(&mut rng)).collect();
    SimpleNet::new(input, hidden, output, &samples, 0.0)
}

fn cross_entropy(y: &Matrix<f64>, t: &Matrix<f64>) -> f64 {
    let mut total = 0.0;
    for i in 0..y.rows {
        for j in 0..y.cols {
            total += t.data[i][j] * (y.data[i][j] + 1e-7).ln();
        }
    }
    -total / y.rows as f64
}

#[test]
fn test_predict_shape() {
    let net = random_net(3, 5, 2, 1);
    let x = Matrix::from_vec(vec![vec![1.0, 0.5, -1.2], vec![0.0, 0.1, 0.2]]).unwrap();
    let y = net.predict(&x, f64::exp).unwrap();
    assert_eq!(y.shape(), (2, 2));
}

#[test]
fn test_predict_sum_1() {
    let net = random_net(4, 4, 3, 2);
    let x = Matrix::from_vec(vec![vec![1.0, 2.0, 3.0, 4.0]]).unwrap();
    let y = net.predict(&x, f64::exp).unwrap();
    let sum: f64 = y.data[0].iter().sum();
    assert!((sum - 1.0).abs() < 1e-6);
}

#[test]
fn test_matrix_predict_shape() {
    let net: SimpleNetMatrix<f64> = random_net(3, 5, 2, 3);
    let x = Matrix::from_vec(vec![vec![1.0, 0.5, -1.2], vec![0.0, 0.1, 0.2]]).unwrap();
    let y = net.predict(&x, f64::exp).unwrap();
    assert_eq!(y.shape(), (2, 2));
}

#[test]
fn test_matrix_predict_sum_1() {
    let net: SimpleNetMatrix<f64> = random_net(4, 4, 3, 4);
    let x = Matrix::from_vec(vec![vec![1.0, 2.0, 3.0, 4.0]]).unwrap();
    let y = net.predict(&x, f64::exp).unwrap();
    let sum: f64 = y.data[0].iter().sum();
    assert!((sum - 1.0).abs() < 1e-6);
}

#[test]
fn predict_rows_sum_to_one_for_large_inputs() {
    let net = random_net(2, 3, 4, 5);
    let x = Matrix::from_vec(vec![vec![1000.0, -1000.0], vec![5000.0, 2500.0], vec![0.0, 0.0]]).unwrap();
    let y = net.predict(&x, f64::exp).unwrap();
    assert_eq!(y.shape(), (3, 4));
    for row in &y.data {
        let sum: f64 = row.iter().sum();
        assert!((sum - 1.0).abs() < 1e-6);
        assert!(row.iter().all(|v| v.is_finite() && *v >= 0.0 && *v <= 1.0));
    }
}

#[test]
fn predict_rejects_a_wrong_input_width() {
    let net = random_net(3, 5, 2, 6);
    let x = Matrix::from_vec(vec![vec![1.0, 0.5]]).unwrap();
    assert!(net.predict(&x, f64::exp).is_err());
}

#[test]
fn new_reads_weights_in_order_and_zeroes_biases() {
    let samples: Vec<f64> = (0..10).map(|v| v as f64).collect();
    let net = SimpleNet::new(2, 3, 1, &samples, 0.0);
    assert_eq!(net.w1.data, vec![vec![0.0, 1.0, 2.0], vec![3.0, 4.0, 5.0]]);
    assert_eq!(net.w2.data, vec![vec![6.0], vec![7.0], vec![8.0]]);
    assert_eq!(net.b1.data, vec![vec![0.0; 3]]);
    assert_eq!(net.b2.data, vec![vec![0.0]]);
}

#[test]
fn predict_with_known_weights() {
    // zero weights: every hidden unit is sigmoid(0) = 0.5 and the output is uniform
    let net = SimpleNet::new(2, 2, 2, &vec![0.0; 8], 0.0);
    let x = Matrix::from_vec(vec![vec![3.0, -4.0]]).unwrap();
    let y = net.predict(&x, f64::exp).unwrap();
    assert!((y.data[0][0] - 0.5).abs() < 1e-12);
    assert!((y.data[0][1] - 0.5).abs() < 1e-12);
}

fn loss(net: &SimpleNet<f64>, x: &Matrix<f64>, t: &Matrix<f64>) -> f64 {
    cross_entropy(&net.predict(x, f64::exp).unwrap(), t)
}

#[test]
fn training_lowers_the_loss() {
    let x = Matrix::from_vec(vec![vec![0.6, 0.9]]).unwrap();
    let t = Matrix::from_vec(vec![vec![0.0, 1.0]]).unwrap();
    let mut net = random_net(2, 3, 2, 42);
    let before = loss(&net, &x, &t);
    let objective = |n: &SimpleNet<f64>| loss(n, &x, &t);
    for _ in 0..50 {
        let grads = net.numerical_gradients(&objective, 1e-4);
        net.apply_gradients(&grads, 0.1);
    }
    let after = loss(&net, &x, &t);
    assert!(after < before);
}

#[test]
fn gradients_match_a_hand_computed_case() {
    // loss = sum of all entries of w1 squared: only w1 has a non-zero gradient
    let samples: Vec<f64> = vec![1.0, -2.0, 0.5, 3.0];
    let net = SimpleNet::new(1, 2, 1, &samples, 0.0);
    let objective = |n: &SimpleNet<f64>| n.w1.data[0].iter().map(|v| v * v).sum::<f64>();
    let g = net.numerical_gradients(&objective, 1e-4);
    assert!((g.w1.data[0][0] - 2.0).abs() < 1e-6);
    assert!((g.w1.data[0][1] + 4.0).abs() < 1e-6);
    assert_eq!(g.b1.data, vec![vec![0.0, 0.0]]);
    assert_eq!(g.w2.data, vec![vec![0.0], vec![0.0]]);
    assert_eq!(g.b2.data, vec![vec![0.0]]);
    assert_eq!(net.w1.data, vec![vec![1.0, -2.0]]);
}

#[test]
fn apply_gradients_subtracts_the_scaled_gradient() {
    let mut net = SimpleNet::new(1, 1, 1, &vec![2.0, 4.0], 0.0);
    let grads = SimpleNet::new(1, 1, 1, &vec![10.0, -10.0], 1.0);
    net.apply_gradients(&grads, 0.5);
    assert_eq!(net.w1.data, vec![vec![-3.0]]);
    assert_eq!(net.w2.data, vec![vec![9.0]]);
    assert_eq!(net.b1.data, vec![vec![-0.5]]);
    assert_eq!(net.b2.data, vec![vec![-0.5]]);
}

#[test]
fn with_param_replaces_one_parameter() {
    let net = SimpleNet::new(1, 2, 1, &vec![1.0, 2.0, 3.0, 4.0], 0.0);
    let b = Matrix::from_vec(vec![vec![7.0, 8.0]]).unwrap();
    let n = net.with_param(1, &b);
    assert_eq!(n.b1.data, vec![vec![7.0, 8.0]]);
    assert_eq!(n.w1.data, net.w1.data);
    assert_eq!(n.w2.data, net.w2.data);
    assert_eq!(n.b2.data, net.b2.data);
}
