//! Univariate and multivariate linear regression by batch gradient descent,
//! generic over the number type and verified with Verus.
//!
//! The engine never inspects a number: it only combines values through the
//! operations of [`Scalar`], in an order that the contracts fix exactly.
pub mod cost;
pub mod descent;
pub mod design;
pub mod error;
pub mod exact;
pub mod fixed;
pub mod laws;
pub mod matrix;
pub mod predict;
pub mod scalar;
pub mod series;
pub mod squares;
pub mod stopping;
pub mod vector;

pub use cost::{compute_cost, power};
pub use descent::{descend, gradient_descent};
pub use design::design_matrix;
pub use error::RegressionError;
pub use fixed::Fixed;
pub use matrix::Matrix;
pub use predict::predict;
pub use scalar::{ExactZero, Scalar, SignRules};
pub use stopping::{gradient_descent_with, Fit, StoppingPolicy};
pub use vector::sum;
