//! A saturating fixed-point number: a `Scalar` that needs no floating point.
use crate::scalar::{ExactZero, Scalar, SignRules};
use vstd::prelude::*;

verus! {

/// How many raw units make one.
pub const FRACTION: i64 = 0x1_0000_0000;

/// A signed number with 32 binary digits after the point: `raw` counts units
/// of one over `FRACTION`. A result beyond either end of the range is the
/// nearest end. Products and quotients are rounded toward zero.
#[derive(Clone, Copy, Debug, PartialEq, Eq, Structural)]
pub struct Fixed {
    pub raw: i64,
}

/// `v` where it fits, else the end of the range that is nearer to it.
pub open spec fn saturated(v: int) -> i64 {
    if v > i64::MAX {
        i64::MAX
    } else if v < i64::MIN {
        i64::MIN
    } else {
        v as i64
    }
}

/// The distance of `v` from zero.
pub open spec fn magnitude(v: int) -> int {
    if v < 0 {
        -v
    } else {
        v
    }
}

/// `n` divided by `d`, rounded toward zero.
pub open spec fn quotient_toward_zero(n: int, d: int) -> int {
    if (n < 0) == (d < 0) {
        magnitude(n) / magnitude(d)
    } else {
        -(magnitude(n) / magnitude(d))
    }
}

/// The raw value of `a` divided by `b`. Dividing by zero gives the end of the
/// range on the side of `a`, and zero for zero by zero.
pub open spec fn raw_quotient(a: i64, b: i64) -> i64 {
    if b == 0 {
        if a > 0 {
            i64::MAX
        } else if a < 0 {
            i64::MIN
        } else {
            0
        }
    } else {
        saturated(quotient_toward_zero(a * FRACTION, b as int))
    }
}

fn clamp(v: i128) -> (r: i64)
    ensures
        r == saturated(v as int),
{
    if v > i64::MAX as i128 {
        i64::MAX
    } else if v < i64::MIN as i128 {
        i64::MIN
    } else {
        v as i64
    }
}

fn divide_toward_zero(n: i128, d: i128) -> (r: i128)
    requires
        d != 0,
        i128::MIN < n,
        i128::MIN < d,
    ensures
        r == quotient_toward_zero(n as int, d as int),
{
    let a: u128 = if n < 0 {
        (-n) as u128
    } else {
        n as u128
    };
    let b: u128 = if d < 0 {
        (-d) as u128
    } else {
        d as u128
    };
    let q: u128 = a / b;
    assert(q <= a) by (nonlinear_arith)
        requires
            q == a / b,
            b >= 1,
    ;
    if (n < 0) == (d < 0) {
        q as i128
    } else {
        -(q as i128)
    }
}

impl Fixed {
    /// The number that `raw` units stand for.
    pub fn from_raw(raw: i64) -> (r: Fixed)
        ensures
            r.raw == raw,
    {
        Fixed { raw }
    }
}

impl Scalar for Fixed {
    open spec fn spec_zero() -> Self {
        Fixed { raw: 0 }
    }

    open spec fn spec_one() -> Self {
        Fixed { raw: FRACTION }
    }

    open spec fn spec_from_count(n: usize) -> Self {
        Fixed { raw: saturated(n * FRACTION) }
    }

    open spec fn spec_add(self, rhs: Self) -> Self {
        Fixed { raw: saturated(self.raw + rhs.raw) }
    }

    open spec fn spec_sub(self, rhs: Self) -> Self {
        Fixed { raw: saturated(self.raw - rhs.raw) }
    }

    open spec fn spec_mul(self, rhs: Self) -> Self {
        Fixed { raw: saturated(quotient_toward_zero(self.raw * rhs.raw, FRACTION as int)) }
    }

    open spec fn spec_div(self, rhs: Self) -> Self {
        Fixed { raw: raw_quotient(self.raw, rhs.raw) }
    }

    open spec fn spec_lt(self, rhs: Self) -> bool {
        self.raw < rhs.raw
    }

    fn zero() -> (r: Self) {
        Fixed { raw: 0 }
    }

    fn one() -> (r: Self) {
        Fixed { raw: FRACTION }
    }

    fn from_count(n: usize) -> (r: Self) {
        Fixed { raw: clamp(n as i128 * FRACTION as i128) }
    }

    fn add(self, rhs: Self) -> (r: Self) {
        Fixed { raw: clamp(self.raw as i128 + rhs.raw as i128) }
    }

    fn sub(self, rhs: Self) -> (r: Self) {
        Fixed { raw: clamp(self.raw as i128 - rhs.raw as i128) }
    }

    fn mul(self, rhs: Self) -> (r: Self) {
        let a = self.raw as i128;
        let b = rhs.raw as i128;
        assert(-0x4000_0000_0000_0000_0000_0000_0000_0000 <= a * b
            <= 0x4000_0000_0000_0000_0000_0000_0000_0000) by (nonlinear_arith)
            requires
                -0x8000_0000_0000_0000 <= a <= 0x8000_0000_0000_0000,
                -0x8000_0000_0000_0000 <= b <= 0x8000_0000_0000_0000,
        ;
        Fixed { raw: clamp(divide_toward_zero(a * b, FRACTION as i128)) }
    }

    fn div(self, rhs: Self) -> (r: Self) {
        if rhs.raw == 0 {
            if self.raw > 0 {
                Fixed { raw: i64::MAX }
            } else if self.raw < 0 {
                Fixed { raw: i64::MIN }
            } else {
                Fixed { raw: 0 }
            }
        } else {
            let unit = FRACTION as i128;
            assert(unit == 0x1_0000_0000);
            let n = self.raw as i128 * unit;
            Fixed { raw: clamp(divide_toward_zero(n, rhs.raw as i128)) }
        }
    }

    fn lt(self, rhs: Self) -> (r: bool) {
        self.raw < rhs.raw
    }
}

impl SignRules for Fixed {
    proof fn zero_non_negative() {
    }

    proof fn one_non_negative() {
    }

    proof fn count_non_negative(n: usize) {
    }

    proof fn sum_non_negative(a: Self, b: Self) {
    }

    proof fn product_non_negative(a: Self, b: Self) {
        assert(a.raw * b.raw >= 0) by (nonlinear_arith)
            requires
                a.raw >= 0,
                b.raw >= 0,
        ;
    }

    proof fn quotient_non_negative(a: Self, b: Self) {
        if b.raw != 0 {
            let n = a.raw * FRACTION;
            assert(n / (b.raw as int) >= 0) by (nonlinear_arith)
                requires
                    n >= 0,
                    b.raw > 0,
            ;
        }
    }

    proof fn square_non_negative(a: Self) {
        assert(a.raw * a.raw >= 0) by (nonlinear_arith);
    }
}

impl ExactZero for Fixed {
    proof fn minus_zero(a: Self) {
    }

    proof fn minus_itself(a: Self) {
    }

    proof fn zero_plus_zero() {
    }

    proof fn zero_times(a: Self) {
        assert(0 * a.raw == 0);
    }

    proof fn times_zero(a: Self) {
        assert(a.raw * 0 == 0);
    }
}

} // verus!
