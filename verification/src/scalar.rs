//! The number type that the engine computes with.
use vstd::prelude::*;

verus! {

/// Arithmetic that the engine needs from its numbers.
///
/// Each operation has a specification twin, and the executable operation
/// returns exactly what its twin says. The twins carry no laws: a rounding or
/// saturating number type is as welcome as an exact one. Every contract of the
/// engine is an expression over the twins, so it fixes the order in which the
/// operations are applied.
///
/// A number type that is compiled without being verified, as one on hardware
/// floating point has to be, gives each twin the body of its operation.
pub trait Scalar: Sized + Copy {
    /// The additive identity.
    spec fn spec_zero() -> Self;

    /// The multiplicative identity.
    spec fn spec_one() -> Self;

    /// The number that stands for a count of items.
    spec fn spec_from_count(n: usize) -> Self;

    spec fn spec_add(self, rhs: Self) -> Self;

    spec fn spec_sub(self, rhs: Self) -> Self;

    spec fn spec_mul(self, rhs: Self) -> Self;

    spec fn spec_div(self, rhs: Self) -> Self;

    /// Strictly less than.
    spec fn spec_lt(self, rhs: Self) -> bool;

    fn zero() -> (r: Self)
        ensures
            r == Self::spec_zero(),
    ;

    fn one() -> (r: Self)
        ensures
            r == Self::spec_one(),
    ;

    fn from_count(n: usize) -> (r: Self)
        ensures
            r == Self::spec_from_count(n),
    ;

    fn add(self, rhs: Self) -> (r: Self)
        ensures
            r == self.spec_add(rhs),
    ;

    fn sub(self, rhs: Self) -> (r: Self)
        ensures
            r == self.spec_sub(rhs),
    ;

    fn mul(self, rhs: Self) -> (r: Self)
        ensures
            r == self.spec_mul(rhs),
    ;

    fn div(self, rhs: Self) -> (r: Self)
        ensures
            r == self.spec_div(rhs),
    ;

    fn lt(self, rhs: Self) -> (r: bool)
        ensures
            r == self.spec_lt(rhs),
    ;
}

/// Whether `a` is not below zero.
pub open spec fn non_negative<T: Scalar>(a: T) -> bool {
    !a.spec_lt(T::spec_zero())
}

/// Numbers whose order obeys the rules of signs: counts and the two
/// identities are not below zero, and neither is a sum, a product or a
/// quotient of two numbers that are not below zero, nor any square.
pub trait SignRules: Scalar {
    proof fn zero_non_negative()
        ensures
            non_negative(Self::spec_zero()),
    ;

    proof fn one_non_negative()
        ensures
            non_negative(Self::spec_one()),
    ;

    proof fn count_non_negative(n: usize)
        ensures
            non_negative(Self::spec_from_count(n)),
    ;

    proof fn sum_non_negative(a: Self, b: Self)
        requires
            non_negative(a),
            non_negative(b),
        ensures
            non_negative(a.spec_add(b)),
    ;

    proof fn product_non_negative(a: Self, b: Self)
        requires
            non_negative(a),
            non_negative(b),
        ensures
            non_negative(a.spec_mul(b)),
    ;

    proof fn quotient_non_negative(a: Self, b: Self)
        requires
            non_negative(a),
            non_negative(b),
        ensures
            non_negative(a.spec_div(b)),
    ;

    proof fn square_non_negative(a: Self)
        ensures
            non_negative(a.spec_mul(a)),
    ;
}

/// Numbers for which zero is exact: taking zero away changes nothing, a
/// number less itself is zero, zero plus zero is zero, and a product with
/// zero on either side is zero.
pub trait ExactZero: Scalar {
    proof fn minus_zero(a: Self)
        ensures
            a.spec_sub(Self::spec_zero()) == a,
    ;

    proof fn minus_itself(a: Self)
        ensures
            a.spec_sub(a) == Self::spec_zero(),
    ;

    proof fn zero_plus_zero()
        ensures
            Self::spec_zero().spec_add(Self::spec_zero()) == Self::spec_zero(),
    ;

    proof fn zero_times(a: Self)
        ensures
            Self::spec_zero().spec_mul(a) == Self::spec_zero(),
    ;

    proof fn times_zero(a: Self)
        ensures
            a.spec_mul(Self::spec_zero()) == Self::spec_zero(),
    ;
}

} // verus!
