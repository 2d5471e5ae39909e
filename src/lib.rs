//! A small numeric core for feed-forward neural networks: dense matrices with
//! row-broadcast addition, the sigmoid and a numerically stable softmax, the
//! squared-error and cross-entropy losses, a finite-difference gradient engine, a
//! two-layer network, and the reader of the handwritten-digit dataset files.
//!
//! Floating-point primitives (the exponential, the logarithm, the step size) are
//! handed in by the caller.
//!
//! The element type is generic. Every operation states its result over Verus's
//! specifications of `+`, `-`, `*` and `/`; shapes, indexing and the visiting order
//! are proved for every element type.

pub mod activation;
pub mod grad;
pub mod loss;
pub mod matrix;
pub mod mnist;
pub mod network;
