//! The cost of a parameter vector: half the mean of the squared residuals.
use crate::error::RegressionError;
use crate::matrix::Matrix;
use crate::scalar::Scalar;
use crate::vector::{differences, subtract, sum, sum_of};
use vstd::prelude::*;

verus! {

/// `x` multiplied with itself until it occurs `n` times; one for `n == 0`.
pub open spec fn raised<T: Scalar>(x: T, n: nat) -> T
    decreases n,
{
    if n == 0 {
        T::spec_one()
    } else if n == 1 {
        x
    } else {
        raised(x, (n - 1) as nat).spec_mul(x)
    }
}

/// `x` to the power `exp`; for a negative exponent, one divided by `x` to the
/// power `-exp`.
pub open spec fn power_of<T: Scalar>(x: T, exp: int) -> T {
    if exp >= 0 {
        raised(x, exp as nat)
    } else {
        T::spec_one().spec_div(raised(x, (-exp) as nat))
    }
}

/// Entry by entry, `v[i]` to the power `exp`.
pub open spec fn powers<T: Scalar>(v: Seq<T>, exp: int) -> Seq<T> {
    Seq::new(v.len(), |i: int| power_of(v[i], exp))
}

/// Whether the three shapes fit: one parameter for each column of the design
/// matrix, and one label for each of its rows.
pub open spec fn shapes_agree<T>(x: Matrix<T>, y: Seq<T>, theta: Seq<T>) -> bool {
    theta.len() == x.ncols() && x.nrows() == y.len()
}

/// What the model predicts for each example, less its label.
pub open spec fn residuals<T: Scalar>(x: Matrix<T>, y: Seq<T>, theta: Seq<T>) -> Seq<T> {
    differences(x.times(theta), y)
}

/// One divided by twice the number of examples.
pub open spec fn cost_scale<T: Scalar>(m: nat) -> T {
    T::spec_one().spec_div(T::spec_from_count(2).spec_mul(T::spec_from_count(m as usize)))
}

/// The cost of `theta`: the squared residuals added up, times one over twice
/// the number of examples.
pub open spec fn cost<T: Scalar>(x: Matrix<T>, y: Seq<T>, theta: Seq<T>) -> T {
    cost_scale::<T>(y.len()).spec_mul(sum_of(powers(residuals(x, y, theta), 2)))
}

/// `x` multiplied with itself until it occurs `n` times.
fn raise<T: Scalar>(x: T, n: u32) -> (r: T)
    ensures
        r == raised(x, n as nat),
{
    if n == 0 {
        return T::one();
    }
    let mut acc = x;
    let mut k: u32 = 1;
    while k < n
        invariant
            1 <= k <= n,
            acc == raised(x, k as nat),
        decreases n - k,
    {
        acc = acc.mul(x);
        k = k + 1;
    }
    acc
}

/// Raises every entry of `v` to the power `exp`, each on its own.
pub fn power<T: Scalar>(v: Vec<T>, exp: i32) -> (r: Vec<T>)
    ensures
        r@ == powers(v@, exp as int),
{
    let ghost given = v@;
    let mut out = v;
    let mut i: usize = 0;
    while i < out.len()
        invariant
            i <= out.len(),
            out.len() == given.len(),
            forall|k: int| 0 <= k < i ==> out@[k] == power_of(given[k], exp as int),
            forall|k: int| i <= k < out.len() ==> out@[k] == given[k],
        decreases out.len() - i,
    {
        let x = out[i];
        let value = if exp >= 0 {
            raise(x, exp as u32)
        } else {
            T::one().div(raise(x, (-(exp as i64)) as u32))
        };
        out.set(i, value);
        i = i + 1;
    }
    assert(out@ =~= powers(given, exp as int));
    out
}

/// The cost of `theta` on examples whose shapes fit.
pub(crate) fn evaluate<T: Scalar>(x: &Matrix<T>, y: &Vec<T>, theta: &Vec<T>) -> (j: T)
    requires
        shapes_agree(*x, y@, theta@),
    ensures
        j == cost(*x, y@, theta@),
{
    let m = y.len();
    let scalar = T::one().div(T::from_count(2).mul(T::from_count(m)));
    let prod = x.product(theta);
    let err = subtract(&prod, y);
    let sqr = power(err, 2);
    let total = sum(&sqr);
    scalar.mul(total)
}

/// The cost of `theta` on the examples `(x, y)`.
///
/// Refuses shapes that do not fit before it computes anything.
pub fn compute_cost<T: Scalar>(x: &Matrix<T>, y: &Vec<T>, theta: &Vec<T>) -> (r: Result<
    T,
    RegressionError,
>)
    ensures
        match r {
            Ok(j) => shapes_agree(*x, y@, theta@) && j == cost(*x, y@, theta@),
            Err(e) => e == RegressionError::DimensionMismatch && !shapes_agree(*x, y@, theta@),
        },
{
    if theta.len() != x.ncols() || x.nrows() != y.len() {
        return Err(RegressionError::DimensionMismatch);
    }
    Ok(evaluate(x, y, theta))
}

} // verus!
