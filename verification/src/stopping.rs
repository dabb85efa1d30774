//! Descent that may stop early: after a given number of updates at the
//! latest, and sooner where an update lowers the cost by less than a
//! threshold.
use crate::cost::{cost, evaluate, shapes_agree};
use crate::descent::{descent, hyperparameters_valid, transposed, update};
use crate::error::RegressionError;
use crate::matrix::Matrix;
use crate::scalar::Scalar;
use crate::vector::duplicate;
use vstd::prelude::*;

verus! {

/// When a descent ends.
pub struct StoppingPolicy<T> {
    /// The number of updates after which the descent ends in any case.
    pub max_iterations: i32,
    /// Where `Some`, the descent also ends after the first update that
    /// lowers the cost by less than this. Where `None`, every one of the
    /// `max_iterations` updates is run.
    pub min_cost_drop: Option<T>,
}

/// What a descent found.
pub struct Fit<T> {
    /// The parameters after the last update.
    pub theta: Vec<T>,
    /// How many updates were run.
    pub updates: u32,
}

/// Whether update `k`, counted from one, lowers the cost by less than the
/// threshold: the cost before it less the cost after it is below `threshold`.
pub open spec fn small_drop<T: Scalar>(
    x: Matrix<T>,
    y: Seq<T>,
    theta0: Seq<T>,
    alpha: T,
    threshold: Option<T>,
    k: nat,
) -> bool {
    match threshold {
        Some(t) => k >= 1 && cost(x, y, descent(x, y, theta0, alpha, (k - 1) as nat)).spec_sub(
            cost(x, y, descent(x, y, theta0, alpha, k)),
        ).spec_lt(t),
        None => false,
    }
}

/// The number of updates that are run in all, where `done` updates have been
/// run without a small drop: up to the first later update with a small drop,
/// and `max` where there is none.
pub open spec fn updates_from<T: Scalar>(
    x: Matrix<T>,
    y: Seq<T>,
    theta0: Seq<T>,
    alpha: T,
    threshold: Option<T>,
    done: nat,
    max: nat,
) -> nat
    decreases max - done,
{
    if done >= max {
        max
    } else if small_drop(x, y, theta0, alpha, threshold, done + 1) {
        done + 1
    } else {
        updates_from(x, y, theta0, alpha, threshold, done + 1, max)
    }
}

/// The number of updates that a descent under the policy runs.
pub open spec fn updates_run<T: Scalar>(
    x: Matrix<T>,
    y: Seq<T>,
    theta0: Seq<T>,
    alpha: T,
    threshold: Option<T>,
    max: nat,
) -> nat {
    updates_from(x, y, theta0, alpha, threshold, 0, max)
}

/// The descent ends at the first update with a small drop and at `max` where
/// there is none: no update before the last one had a small drop, and the
/// last one had one unless it is update `max`.
pub proof fn lemma_updates_from<T: Scalar>(
    x: Matrix<T>,
    y: Seq<T>,
    theta0: Seq<T>,
    alpha: T,
    threshold: Option<T>,
    done: nat,
    max: nat,
)
    requires
        done <= max,
    ensures
        done <= updates_from(x, y, theta0, alpha, threshold, done, max) <= max,
        forall|k: nat|
            done < k < updates_from(x, y, theta0, alpha, threshold, done, max) ==> !small_drop(
                x,
                y,
                theta0,
                alpha,
                threshold,
                k,
            ),
        updates_from(x, y, theta0, alpha, threshold, done, max) == max || (done < updates_from(
            x,
            y,
            theta0,
            alpha,
            threshold,
            done,
            max,
        ) && small_drop(
            x,
            y,
            theta0,
            alpha,
            threshold,
            updates_from(x, y, theta0, alpha, threshold, done, max),
        )),
        threshold is None ==> updates_from(x, y, theta0, alpha, threshold, done, max) == max,
    decreases max - done,
{
    if done < max && !small_drop(x, y, theta0, alpha, threshold, done + 1) {
        lemma_updates_from(x, y, theta0, alpha, threshold, done + 1, max);
    }
}

/// Fits the parameters by full-batch updates with the fixed learning rate
/// `alpha`, starting from `theta0`, until the policy ends the descent.
///
/// Shapes are checked first, then the learning rate and the count. Without a
/// threshold this is the descent of exactly `max_iterations` updates.
pub fn gradient_descent_with<T: Scalar>(
    x: &Matrix<T>,
    y: &Vec<T>,
    theta0: &Vec<T>,
    alpha: T,
    policy: &StoppingPolicy<T>,
) -> (r: Result<Fit<T>, RegressionError>)
    ensures
        match r {
            Ok(fit) => {
                &&& shapes_agree(*x, y@, theta0@)
                &&& hyperparameters_valid(alpha, policy.max_iterations)
                &&& fit.updates == updates_run(
                    *x,
                    y@,
                    theta0@,
                    alpha,
                    policy.min_cost_drop,
                    policy.max_iterations as nat,
                )
                &&& fit.theta@ == descent(*x, y@, theta0@, alpha, fit.updates as nat)
            },
            Err(RegressionError::DimensionMismatch) => !shapes_agree(*x, y@, theta0@),
            Err(RegressionError::InvalidHyperparameter) => {
                &&& shapes_agree(*x, y@, theta0@)
                &&& !hyperparameters_valid(alpha, policy.max_iterations)
            },
        },
{
    if theta0.len() != x.ncols() || x.nrows() != y.len() {
        return Err(RegressionError::DimensionMismatch);
    }
    if policy.max_iterations < 0 || !T::zero().lt(alpha) {
        return Err(RegressionError::InvalidHyperparameter);
    }
    let max = policy.max_iterations as u32;
    let xt = x.transpose();
    let mut learned = duplicate(theta0);
    let mut before = evaluate(x, y, &learned);
    let mut done: u32 = 0;
    while done < max
        invariant
            done <= max,
            max == policy.max_iterations,
            hyperparameters_valid(alpha, policy.max_iterations),
            shapes_agree(*x, y@, theta0@),
            transposed(*x, xt),
            learned.len() == theta0.len(),
            learned@ == descent(*x, y@, theta0@, alpha, done as nat),
            before == cost(*x, y@, learned@),
            updates_run(*x, y@, theta0@, alpha, policy.min_cost_drop, max as nat) == updates_from(
                *x,
                y@,
                theta0@,
                alpha,
                policy.min_cost_drop,
                done as nat,
                max as nat,
            ),
        decreases max - done,
    {
        learned = update(x, &xt, y, &learned, alpha);
        done = done + 1;
        let after = evaluate(x, y, &learned);
        match policy.min_cost_drop {
            Some(threshold) => {
                if before.sub(after).lt(threshold) {
                    return Ok(Fit { theta: learned, updates: done });
                }
            },
            None => {},
        }
        before = after;
    }
    Ok(Fit { theta: learned, updates: done })
}

} // verus!
