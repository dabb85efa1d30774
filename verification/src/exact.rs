//! Exact arithmetic: number types whose operations agree with the real
//! numbers, and sums of real numbers.
use crate::cost::{cost, cost_scale, powers, raised, residuals};
use crate::descent::{gradient, step};
use crate::matrix::Matrix;
use crate::scalar::Scalar;
use crate::series::{lemma_series_same, series};
use crate::squares::{miss, slope, squared_cells, squared_misses, squared_row};
use crate::vector::{dot, products, sum_of};
use vstd::prelude::*;

verus! {

/// Whether `value` reads the numbers of `T` as real numbers such that each
/// operation of `T` is the operation on the reals, without rounding and
/// without an end of range, and no two numbers read the same.
pub open spec fn exact<T: Scalar>(value: spec_fn(T) -> real) -> bool {
    &&& value(T::spec_zero()) == 0real
    &&& value(T::spec_one()) == 1real
    &&& forall|n: usize| value(#[trigger] T::spec_from_count(n)) == n as real
    &&& forall|a: T, b: T| value(#[trigger] a.spec_add(b)) == value(a) + value(b)
    &&& forall|a: T, b: T| value(#[trigger] a.spec_sub(b)) == value(a) - value(b)
    &&& forall|a: T, b: T| value(#[trigger] a.spec_mul(b)) == value(a) * value(b)
    &&& forall|a: T, b: T|
        value(b) != 0real ==> value(#[trigger] a.spec_div(b)) == value(a) / value(b)
    &&& forall|a: T, b: T| #[trigger] a.spec_lt(b) == (value(a) < value(b))
    &&& forall|a: T, b: T| #[trigger] value(a) == #[trigger] value(b) ==> a == b
}

/// The cells of `x`, read as real numbers.
pub open spec fn cells<T: Scalar>(value: spec_fn(T) -> real, x: Matrix<T>) -> spec_fn(
    int,
    int,
) -> real {
    |i: int, j: int| value(x.at(i, j))
}

/// The entries of `v`, read as real numbers.
pub open spec fn entries<T: Scalar>(value: spec_fn(T) -> real, v: Seq<T>) -> spec_fn(int) -> real {
    |i: int| value(v[i])
}

/// The step that an update with the rate `alpha` takes on `m` examples:
/// the rate times one over `m`, read as real numbers.
pub open spec fn stride<T: Scalar>(value: spec_fn(T) -> real, alpha: T, m: nat) -> real {
    value(alpha) * value(T::spec_one().spec_div(T::spec_from_count(m as usize)))
}

/// An exact sum reads as the sum of what its entries read.
pub proof fn lemma_sum_value<T: Scalar>(value: spec_fn(T) -> real, v: Seq<T>)
    requires
        exact(value),
    ensures
        value(sum_of(v)) == series(entries(value, v), v.len()),
    decreases v.len(),
{
    if v.len() > 0 {
        let d = v.drop_last();
        lemma_sum_value(value, d);
        lemma_series_same(entries(value, d), entries(value, v), d.len());
        assert(sum_of(v) == sum_of(d).spec_add(v.last()));
        assert(entries(value, v)(v.len() - 1) == value(v.last()));
    }
}

/// An exact dot product reads as the sum of the products of what the entries
/// read.
pub proof fn lemma_dot_value<T: Scalar>(value: spec_fn(T) -> real, a: Seq<T>, b: Seq<T>)
    requires
        exact(value),
    ensures
        value(dot(a, b)) == series(|j: int| value(a[j]) * value(b[j]), a.len()),
{
    let p = products(a, b);
    let terms = |j: int| value(a[j]) * value(b[j]);
    lemma_sum_value(value, p);
    assert forall|j: int| 0 <= j < a.len() implies #[trigger] entries(value, p)(j) == terms(j) by {
        assert(p[j] == a[j].spec_mul(b[j]));
    }
    lemma_series_same(entries(value, p), terms, a.len());
}

/// The residual of example `i`, read as a real number.
pub proof fn lemma_residual_value<T: Scalar>(
    value: spec_fn(T) -> real,
    x: Matrix<T>,
    y: Seq<T>,
    theta: Seq<T>,
    i: int,
)
    requires
        exact(value),
        0 <= i < x.nrows(),
    ensures
        value(residuals(x, y, theta)[i]) == miss(
            cells(value, x),
            entries(value, theta),
            entries(value, y),
            i,
            x.ncols() as nat,
        ),
{
    let a = cells(value, x);
    let th = entries(value, theta);
    let row = x.row(i);
    let terms = |j: int| value(row[j]) * value(theta[j]);
    let wanted = |j: int| a(i, j) * th(j);
    lemma_dot_value(value, row, theta);
    assert forall|j: int| 0 <= j < x.ncols() implies #[trigger] terms(j) == wanted(j) by {
        assert(row[j] == x.at(i, j));
    }
    lemma_series_same(terms, wanted, x.ncols() as nat);
    assert(x.times(theta)[i] == dot(row, theta));
    assert(residuals(x, y, theta)[i] == x.times(theta)[i].spec_sub(y[i]));
    assert(entries(value, y)(i) == value(y[i]));
}

/// Entry `j` of the transposed matrix times the residuals, read as a real
/// number.
pub proof fn lemma_slope_value<T: Scalar>(
    value: spec_fn(T) -> real,
    x: Matrix<T>,
    y: Seq<T>,
    theta: Seq<T>,
    j: int,
)
    requires
        exact(value),
        0 <= j < x.ncols(),
    ensures
        value(x.transpose_times(residuals(x, y, theta))[j]) == slope(
            cells(value, x),
            entries(value, theta),
            entries(value, y),
            j,
            x.nrows() as nat,
            x.ncols() as nat,
        ),
{
    let a = cells(value, x);
    let th = entries(value, theta);
    let yv = entries(value, y);
    let n = x.ncols() as nat;
    let res = residuals(x, y, theta);
    let column = x.column(j);
    let terms = |i: int| value(column[i]) * value(res[i]);
    let wanted = |i: int| a(i, j) * miss(a, th, yv, i, n);
    lemma_dot_value(value, column, res);
    assert forall|i: int| 0 <= i < x.nrows() implies #[trigger] terms(i) == wanted(i) by {
        lemma_residual_value(value, x, y, theta, i);
        assert(column[i] == x.at(i, j));
    }
    lemma_series_same(terms, wanted, x.nrows() as nat);
    assert(x.transpose_times(res)[j] == dot(column, res));
}

/// Parameter `j` after one update, read as a real number.
pub proof fn lemma_step_value<T: Scalar>(
    value: spec_fn(T) -> real,
    x: Matrix<T>,
    y: Seq<T>,
    theta: Seq<T>,
    alpha: T,
    j: int,
)
    requires
        exact(value),
        theta.len() == x.ncols(),
        0 <= j < x.ncols(),
    ensures
        value(step(x, y, theta, alpha)[j]) == value(theta[j]) - stride(value, alpha, y.len())
            * slope(
            cells(value, x),
            entries(value, theta),
            entries(value, y),
            j,
            x.nrows() as nat,
            x.ncols() as nat,
        ),
{
    let inv = T::spec_one().spec_div(T::spec_from_count(y.len() as usize));
    let pulled = x.transpose_times(residuals(x, y, theta));
    let g = gradient(x, y, theta);
    lemma_slope_value(value, x, y, theta, j);
    assert(g[j] == inv.spec_mul(pulled[j]));
    assert(step(x, y, theta, alpha)[j] == theta[j].spec_sub(alpha.spec_mul(g[j])));
    let va = value(alpha);
    let vi = value(inv);
    let s = value(pulled[j]);
    assert(va * (vi * s) == (va * vi) * s) by (nonlinear_arith);
}

/// The cost, read as a real number: the scale times the squared residuals.
pub proof fn lemma_cost_value<T: Scalar>(
    value: spec_fn(T) -> real,
    x: Matrix<T>,
    y: Seq<T>,
    theta: Seq<T>,
)
    requires
        exact(value),
    ensures
        value(cost(x, y, theta)) == value(cost_scale::<T>(y.len())) * squared_misses(
            cells(value, x),
            entries(value, theta),
            entries(value, y),
            x.nrows() as nat,
            x.ncols() as nat,
        ),
{
    let a = cells(value, x);
    let th = entries(value, theta);
    let yv = entries(value, y);
    let n = x.ncols() as nat;
    let res = residuals(x, y, theta);
    let squares = powers(res, 2);
    let wanted = |i: int| miss(a, th, yv, i, n) * miss(a, th, yv, i, n);
    lemma_sum_value(value, squares);
    assert forall|i: int| 0 <= i < x.nrows() implies #[trigger] entries(value, squares)(i)
        == wanted(i) by {
        reveal_with_fuel(raised, 3);
        lemma_residual_value(value, x, y, theta, i);
        assert(squares[i] == res[i].spec_mul(res[i]));
    }
    lemma_series_same(entries(value, squares), wanted, x.nrows() as nat);
}

/// The squares of all cells, read as a real number.
pub proof fn lemma_sum_of_squares_value<T: Scalar>(value: spec_fn(T) -> real, x: Matrix<T>)
    requires
        exact(value),
    ensures
        value(x.sum_of_squares()) == squared_cells(
            cells(value, x),
            x.nrows() as nat,
            x.ncols() as nat,
        ),
{
    let a = cells(value, x);
    let n = x.ncols() as nat;
    let rows = Seq::new(x.nrows() as nat, |i: int| dot(x.row(i), x.row(i)));
    let wanted = |i: int| squared_row(a, i, n);
    lemma_sum_value(value, rows);
    assert forall|i: int| 0 <= i < x.nrows() implies #[trigger] entries(value, rows)(i) == wanted(
        i,
    ) by {
        let row = x.row(i);
        let terms = |j: int| value(row[j]) * value(row[j]);
        let squares = |j: int| a(i, j) * a(i, j);
        lemma_dot_value(value, row, row);
        assert forall|j: int| 0 <= j < n implies #[trigger] terms(j) == squares(j) by {
            assert(row[j] == x.at(i, j));
        }
        lemma_series_same(terms, squares, n);
    }
    lemma_series_same(entries(value, rows), wanted, x.nrows() as nat);
}

} // verus!
