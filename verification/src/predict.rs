//! Applying learned parameters to the features of a new example.
use crate::error::RegressionError;
use crate::scalar::Scalar;
use crate::vector::{dot, dot_product};
use vstd::prelude::*;

verus! {

/// The features with the constant one put in front of them.
pub open spec fn with_bias<T: Scalar>(features: Seq<T>) -> Seq<T> {
    seq![T::spec_one()] + features
}

/// What the parameters `theta` predict for `features`: their dot product
/// with the bias-augmented features.
pub open spec fn prediction<T: Scalar>(theta: Seq<T>, features: Seq<T>) -> T {
    dot(theta, with_bias(features))
}

/// The features with the constant one put in front of them.
fn augment<T: Scalar>(features: &Vec<T>) -> (r: Vec<T>)
    ensures
        r@ == with_bias(features@),
{
    let mut out: Vec<T> = Vec::new();
    out.push(T::one());
    let mut i: usize = 0;
    while i < features.len()
        invariant
            i <= features.len(),
            out@ == with_bias(features@.take(i as int)),
        decreases features.len() - i,
    {
        out.push(features[i]);
        i = i + 1;
        assert(out@ =~= with_bias(features@.take(i as int)));
    }
    assert(features@.take(features.len() as int) =~= features@);
    out
}

/// The prediction of the model `theta` for one example. There has to be one
/// parameter for the bias and one for each feature.
pub fn predict<T: Scalar>(theta: &Vec<T>, features: &Vec<T>) -> (r: Result<T, RegressionError>)
    ensures
        match r {
            Ok(p) => theta.len() == features.len() + 1 && p == prediction(theta@, features@),
            Err(e) => e == RegressionError::DimensionMismatch && theta.len() != features.len() + 1,
        },
{
    if theta.len() == 0 || theta.len() - 1 != features.len() {
        return Err(RegressionError::DimensionMismatch);
    }
    let augmented = augment(features);
    Ok(dot_product(theta, &augmented))
}

} // verus!
