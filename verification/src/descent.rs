//! Batch gradient descent: a fixed number of full updates of the parameters.
use crate::cost::{residuals, shapes_agree};
use crate::error::RegressionError;
use crate::matrix::{lemma_transposed_times, Matrix};
use crate::scalar::Scalar;
use crate::vector::{differences, duplicate, scale, scaled, subtract};
use vstd::prelude::*;

verus! {

/// The gradient of the cost at `theta`: the transposed design matrix times
/// the residuals, every entry scaled by one over the number of examples.
pub open spec fn gradient<T: Scalar>(x: Matrix<T>, y: Seq<T>, theta: Seq<T>) -> Seq<T> {
    scaled(
        T::spec_one().spec_div(T::spec_from_count(y.len() as usize)),
        x.transpose_times(residuals(x, y, theta)),
    )
}

/// One update: `theta - alpha * gradient`, every entry computed from the
/// parameters as they were before the update.
pub open spec fn step<T: Scalar>(x: Matrix<T>, y: Seq<T>, theta: Seq<T>, alpha: T) -> Seq<T> {
    differences(theta, scaled(alpha, gradient(x, y, theta)))
}

/// The parameters after `k` updates that start from `theta`.
pub open spec fn descent<T: Scalar>(
    x: Matrix<T>,
    y: Seq<T>,
    theta: Seq<T>,
    alpha: T,
    k: nat,
) -> Seq<T>
    decreases k,
{
    if k == 0 {
        theta
    } else {
        step(x, y, descent(x, y, theta, alpha, (k - 1) as nat), alpha)
    }
}

/// Whether the learning rate and the iteration count are acceptable: a rate
/// above zero and a count that is not negative.
pub open spec fn hyperparameters_valid<T: Scalar>(alpha: T, iterations: i32) -> bool {
    T::spec_zero().spec_lt(alpha) && iterations >= 0
}

/// Every update keeps the number of parameters.
pub proof fn lemma_descent_len<T: Scalar>(
    x: Matrix<T>,
    y: Seq<T>,
    theta: Seq<T>,
    alpha: T,
    k: nat,
)
    ensures
        descent(x, y, theta, alpha, k).len() == theta.len(),
    decreases k,
{
    if k > 0 {
        lemma_descent_len(x, y, theta, alpha, (k - 1) as nat);
    }
}

/// Whether `xt` is `x` with rows and columns exchanged.
pub open spec fn transposed<T>(x: Matrix<T>, xt: Matrix<T>) -> bool {
    &&& xt.nrows() == x.ncols()
    &&& xt.ncols() == x.nrows()
    &&& forall|i: int, j: int|
        0 <= i < x.nrows() && 0 <= j < x.ncols() ==> #[trigger] xt.at(j, i) == x.at(i, j)
}

/// One update of `theta`. The whole gradient is computed from `theta` as it
/// is handed in before any parameter changes.
pub(crate) fn update<T: Scalar>(
    x: &Matrix<T>,
    xt: &Matrix<T>,
    y: &Vec<T>,
    theta: &Vec<T>,
    alpha: T,
) -> (next: Vec<T>)
    requires
        shapes_agree(*x, y@, theta@),
        transposed(*x, *xt),
    ensures
        next@ == step(*x, y@, theta@, alpha),
{
    let m = y.len();
    let scalar = T::one().div(T::from_count(m));
    let prod = x.product(theta);
    let err = subtract(&prod, y);
    proof {
        lemma_transposed_times(*x, *xt, err@);
    }
    let grad = scale(scalar, &xt.product(&err));
    let update = scale(alpha, &grad);
    subtract(theta, &update)
}

/// Runs `iterations` updates from `theta0` and returns the last parameters.
///
/// This is the loop alone: it checks the shapes and accepts any learning
/// rate.
pub fn descend<T: Scalar>(
    x: &Matrix<T>,
    y: &Vec<T>,
    theta0: &Vec<T>,
    alpha: T,
    iterations: u32,
) -> (r: Result<Vec<T>, RegressionError>)
    ensures
        match r {
            Ok(theta) => {
                &&& shapes_agree(*x, y@, theta0@)
                &&& theta@ == descent(*x, y@, theta0@, alpha, iterations as nat)
            },
            Err(e) => e == RegressionError::DimensionMismatch && !shapes_agree(*x, y@, theta0@),
        },
{
    if theta0.len() != x.ncols() || x.nrows() != y.len() {
        return Err(RegressionError::DimensionMismatch);
    }
    let xt = x.transpose();
    let mut learned = duplicate(theta0);
    let mut remaining = iterations;
    while remaining > 0
        invariant
            remaining <= iterations,
            shapes_agree(*x, y@, theta0@),
            transposed(*x, xt),
            learned.len() == theta0.len(),
            learned@ == descent(*x, y@, theta0@, alpha, (iterations - remaining) as nat),
        decreases remaining,
    {
        learned = update(x, &xt, y, &learned, alpha);
        remaining = remaining - 1;
    }
    Ok(learned)
}

/// Fits the parameters by `iterations` full-batch updates with the fixed
/// learning rate `alpha`, starting from `theta0`, which is left as it is.
///
/// Shapes are checked first, then the learning rate and the count; nothing
/// is computed for a request that is refused.
pub fn gradient_descent<T: Scalar>(
    x: &Matrix<T>,
    y: &Vec<T>,
    theta0: &Vec<T>,
    alpha: T,
    iterations: i32,
) -> (r: Result<Vec<T>, RegressionError>)
    ensures
        match r {
            Ok(theta) => {
                &&& shapes_agree(*x, y@, theta0@)
                &&& hyperparameters_valid(alpha, iterations)
                &&& theta@ == descent(*x, y@, theta0@, alpha, iterations as nat)
            },
            Err(RegressionError::DimensionMismatch) => !shapes_agree(*x, y@, theta0@),
            Err(RegressionError::InvalidHyperparameter) => {
                &&& shapes_agree(*x, y@, theta0@)
                &&& !hyperparameters_valid(alpha, iterations)
            },
        },
{
    if theta0.len() != x.ncols() || x.nrows() != y.len() {
        return Err(RegressionError::DimensionMismatch);
    }
    if iterations < 0 || !T::zero().lt(alpha) {
        return Err(RegressionError::InvalidHyperparameter);
    }
    descend(x, y, theta0, alpha, iterations as u32)
}

} // verus!
