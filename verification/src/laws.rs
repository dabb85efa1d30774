//! What holds of the cost and of the descent for every input.
use crate::cost::{cost, cost_scale, powers, raised, residuals, shapes_agree};
use crate::descent::{descent, gradient, lemma_descent_len, step};
use crate::exact::{
    cells, entries, exact, lemma_cost_value, lemma_residual_value, lemma_step_value,
    lemma_sum_of_squares_value, stride,
};
use crate::matrix::Matrix;
use crate::scalar::{non_negative, ExactZero, Scalar, SignRules};
use crate::series::{lemma_series_of_squares_zero, lemma_series_scaled, series};
use crate::squares::{
    lemma_squared_misses_same, lemma_update_lowers_squares, miss, moved, squared_cells,
    squared_misses,
};
use crate::vector::sum_of;
use vstd::prelude::*;

verus! {

/// A sum of numbers that are not below zero is not below zero.
pub proof fn lemma_sum_non_negative<T: SignRules>(v: Seq<T>)
    requires
        forall|i: int| 0 <= i < v.len() ==> non_negative(#[trigger] v[i]),
    ensures
        non_negative(sum_of(v)),
    decreases v.len(),
{
    if v.len() == 0 {
        T::zero_non_negative();
    } else {
        lemma_sum_non_negative(v.drop_last());
        T::sum_non_negative(sum_of(v.drop_last()), v.last());
    }
}

/// The cost is never below zero: it is a sum of squares times a factor that
/// is not below zero. This holds whatever the shapes are.
pub proof fn lemma_cost_non_negative<T: SignRules>(x: Matrix<T>, y: Seq<T>, theta: Seq<T>)
    ensures
        non_negative(cost(x, y, theta)),
{
    let squares = powers(residuals(x, y, theta), 2);
    assert forall|i: int| 0 <= i < squares.len() implies non_negative(#[trigger] squares[i]) by {
        let e = residuals(x, y, theta)[i];
        reveal_with_fuel(raised, 3);
        assert(squares[i] == e.spec_mul(e));
        T::square_non_negative(e);
    }
    lemma_sum_non_negative(squares);
    let two = T::spec_from_count(2);
    let m = T::spec_from_count(y.len() as usize);
    T::count_non_negative(2);
    T::count_non_negative(y.len() as usize);
    T::product_non_negative(two, m);
    T::one_non_negative();
    T::quotient_non_negative(T::spec_one(), two.spec_mul(m));
    T::product_non_negative(cost_scale::<T>(y.len()), sum_of(squares));
}

/// A sum of zeros is zero.
pub proof fn lemma_sum_of_zeros<T: ExactZero>(v: Seq<T>)
    requires
        forall|i: int| 0 <= i < v.len() ==> #[trigger] v[i] == T::spec_zero(),
    ensures
        sum_of(v) == T::spec_zero(),
    decreases v.len(),
{
    if v.len() > 0 {
        lemma_sum_of_zeros(v.drop_last());
        T::zero_plus_zero();
    }
}

/// Where the model predicts every label exactly, the cost is zero.
pub proof fn lemma_cost_zero_on_exact_fit<T: ExactZero>(x: Matrix<T>, y: Seq<T>, theta: Seq<T>)
    requires
        x.times(theta) == y,
    ensures
        cost(x, y, theta) == T::spec_zero(),
{
    let errors = residuals(x, y, theta);
    let squares = powers(errors, 2);
    assert forall|i: int| 0 <= i < squares.len() implies #[trigger] squares[i]
        == T::spec_zero() by {
        reveal_with_fuel(raised, 3);
        T::minus_itself(y[i]);
        assert(errors[i] == T::spec_zero());
        T::zero_times(T::spec_zero());
    }
    lemma_sum_of_zeros(squares);
    T::times_zero(cost_scale::<T>(y.len()));
}

/// With a learning rate of zero an update changes nothing, so any number of
/// updates returns the parameters it started from.
pub proof fn lemma_zero_rate_keeps_parameters<T: ExactZero>(
    x: Matrix<T>,
    y: Seq<T>,
    theta: Seq<T>,
    k: nat,
)
    requires
        theta.len() == x.ncols(),
    ensures
        descent(x, y, theta, T::spec_zero(), k) == theta,
    decreases k,
{
    if k > 0 {
        lemma_zero_rate_keeps_parameters(x, y, theta, (k - 1) as nat);
        let g = gradient(x, y, theta);
        let next = step(x, y, theta, T::spec_zero());
        assert forall|i: int| 0 <= i < theta.len() implies next[i] == theta[i] by {
            T::zero_times(g[i]);
            T::minus_zero(theta[i]);
        }
        assert(next =~= theta);
    }
}

/// The descent is a function of what the matrix holds: two design matrices
/// with the same cells give the same parameters after every number of
/// updates, and the same cost for them.
pub proof fn lemma_descent_determined_by_cells<T: Scalar>(
    x1: Matrix<T>,
    x2: Matrix<T>,
    y: Seq<T>,
    theta: Seq<T>,
    alpha: T,
    k: nat,
)
    requires
        x1.nrows() == x2.nrows(),
        x1.ncols() == x2.ncols(),
        forall|i: int, j: int|
            0 <= i < x1.nrows() && 0 <= j < x1.ncols() ==> x1.at(i, j) == x2.at(i, j),
    ensures
        descent(x1, y, theta, alpha, k) == descent(x2, y, theta, alpha, k),
        cost(x1, y, descent(x1, y, theta, alpha, k)) == cost(
            x2,
            y,
            descent(x2, y, theta, alpha, k),
        ),
    decreases k,
{
    assert forall|i: int| 0 <= i < x1.nrows() implies x1.row(i) == x2.row(i) by {
        assert(x1.row(i) =~= x2.row(i));
    }
    assert forall|j: int| 0 <= j < x1.ncols() implies x1.column(j) == x2.column(j) by {
        assert(x1.column(j) =~= x2.column(j));
    }
    assert forall|v: Seq<T>| x1.times(v) == x2.times(v) by {
        assert(x1.times(v) =~= x2.times(v));
    }
    assert forall|v: Seq<T>| x1.transpose_times(v) == x2.transpose_times(v) by {
        assert(x1.transpose_times(v) =~= x2.transpose_times(v));
    }
    if k > 0 {
        lemma_descent_determined_by_cells(x1, x2, y, theta, alpha, (k - 1) as nat);
    }
}

/// In exact arithmetic the cost is zero exactly where the model predicts
/// every label.
pub proof fn lemma_cost_zero_exactly_on_fit<T: Scalar>(
    value: spec_fn(T) -> real,
    x: Matrix<T>,
    y: Seq<T>,
    theta: Seq<T>,
)
    requires
        exact(value),
        shapes_agree(x, y, theta),
    ensures
        cost(x, y, theta) == T::spec_zero() <==> x.times(theta) == y,
{
    let a = cells(value, x);
    let th = entries(value, theta);
    let yv = entries(value, y);
    let m = x.nrows() as nat;
    let n = x.ncols() as nat;
    let res = residuals(x, y, theta);
    let misses = |i: int| miss(a, th, yv, i, n);
    let squares = |i: int| miss(a, th, yv, i, n) * miss(a, th, yv, i, n);
    let total = squared_misses(a, th, yv, m, n);
    let scale = value(cost_scale::<T>(y.len()));
    lemma_cost_value(value, x, y, theta);
    assert forall|i: int| 0 <= i < m implies #[trigger] misses(i) == value(x.times(theta)[i])
        - value(y[i]) by {
        lemma_residual_value(value, x, y, theta, i);
        assert(res[i] == x.times(theta)[i].spec_sub(y[i]));
    }
    if x.times(theta) == y {
        let nothing = |i: int| 0real;
        assert forall|i: int| 0 <= i < m implies #[trigger] squares(i) == 0real * nothing(i) by {
            assert(misses(i) == 0real);
            assert(0real * 0real == 0real) by (nonlinear_arith);
        }
        lemma_series_scaled(squares, nothing, 0real, m);
        assert(0real * series(nothing, m) == 0real) by (nonlinear_arith);
        assert(scale * total == 0real) by (nonlinear_arith)
            requires
                total == 0real,
        ;
    }
    if cost(x, y, theta) == T::spec_zero() {
        if m > 0 {
            let count = value(T::spec_from_count(y.len() as usize));
            let twice = value(T::spec_from_count(2).spec_mul(T::spec_from_count(y.len() as usize)));
            assert(count == m as real);
            assert(twice == 2real * count);
            assert(scale == 1real / twice);
            assert(scale > 0real) by (nonlinear_arith)
                requires
                    scale == 1real / twice,
                    twice > 0real,
            ;
            assert(total == 0real) by (nonlinear_arith)
                requires
                    scale * total == 0real,
                    scale > 0real,
            ;
            lemma_series_of_squares_zero(squares, misses, m);
        }
        assert forall|i: int| 0 <= i < m implies x.times(theta)[i] == y[i] by {
            assert(misses(i) == 0real);
        }
        assert(x.times(theta) =~= y);
    }
}

/// In exact arithmetic an update does not raise the cost, where the learning
/// rate is not below zero and the rate times the squared cells of the design
/// matrix is at most twice the number of examples.
pub proof fn lemma_update_does_not_raise_cost<T: Scalar>(
    value: spec_fn(T) -> real,
    x: Matrix<T>,
    y: Seq<T>,
    theta: Seq<T>,
    alpha: T,
)
    requires
        exact(value),
        shapes_agree(x, y, theta),
        !alpha.spec_lt(T::spec_zero()),
        !T::spec_from_count(2).spec_mul(T::spec_from_count(x.nrows())).spec_lt(
            alpha.spec_mul(x.sum_of_squares()),
        ),
    ensures
        !cost(x, y, theta).spec_lt(cost(x, y, step(x, y, theta, alpha))),
{
    let a = cells(value, x);
    let th = entries(value, theta);
    let yv = entries(value, y);
    let m = x.nrows() as nat;
    let n = x.ncols() as nat;
    let next = step(x, y, theta, alpha);
    let th_next = entries(value, next);
    let scale = value(cost_scale::<T>(y.len()));
    let before = squared_misses(a, th, yv, m, n);
    let after = squared_misses(a, th_next, yv, m, n);
    lemma_cost_value(value, x, y, theta);
    lemma_cost_value(value, x, y, next);
    if m == 0 {
        assert(scale * 0real == 0real) by (nonlinear_arith);
    } else {
        let c = stride(value, alpha, y.len());
        let target = moved(a, th, yv, c, m, n);
        assert forall|j: int| 0 <= j < n implies #[trigger] th_next(j) == target(j) by {
            lemma_step_value(value, x, y, theta, alpha, j);
        }
        lemma_squared_misses_same(a, th_next, target, yv, m, n);
        lemma_sum_of_squares_value(value, x);
        let va = value(alpha);
        let count = value(T::spec_from_count(x.nrows()));
        let w = value(T::spec_one().spec_div(T::spec_from_count(y.len() as usize)));
        let all = squared_cells(a, m, n);
        let twice = value(T::spec_from_count(2).spec_mul(T::spec_from_count(x.nrows())));
        assert(y.len() as usize == x.nrows());
        assert(count == m as real);
        assert(count > 0real);
        assert(twice == 2real * count);
        assert(w == 1real / count);
        assert(w >= 0real && w * count == 1real) by (nonlinear_arith)
            requires
                w == 1real / count,
                count > 0real,
        ;
        assert(va >= 0real);
        assert(c >= 0real) by (nonlinear_arith)
            requires
                c == va * w,
                va >= 0real,
                w >= 0real,
        ;
        let reach = va * all;
        assert(value(alpha.spec_mul(x.sum_of_squares())) == reach);
        assert(reach <= twice);
        assert(c * all == reach * w) by (nonlinear_arith)
            requires
                c == va * w,
                reach == va * all,
        ;
        assert(reach * w <= twice * w) by (nonlinear_arith)
            requires
                reach <= twice,
                w >= 0real,
        ;
        assert(twice * w == 2real) by (nonlinear_arith)
            requires
                twice == 2real * count,
                w * count == 1real,
        ;
        lemma_update_lowers_squares(a, th, yv, c, m, n);
        assert(twice > 0real) by (nonlinear_arith)
            requires
                twice == 2real * count,
                count > 0real,
        ;
        assert(scale == 1real / twice);
        assert(scale >= 0real) by (nonlinear_arith)
            requires
                scale == 1real / twice,
                twice > 0real,
        ;
        assert(scale * after <= scale * before) by (nonlinear_arith)
            requires
                after <= before,
                scale >= 0real,
        ;
    }
}

/// In exact arithmetic the cost never rises from one update of the descent
/// to the next, under the same bound on the learning rate.
pub proof fn lemma_cost_never_rises_along_descent<T: Scalar>(
    value: spec_fn(T) -> real,
    x: Matrix<T>,
    y: Seq<T>,
    theta: Seq<T>,
    alpha: T,
    k: nat,
)
    requires
        exact(value),
        shapes_agree(x, y, theta),
        !alpha.spec_lt(T::spec_zero()),
        !T::spec_from_count(2).spec_mul(T::spec_from_count(x.nrows())).spec_lt(
            alpha.spec_mul(x.sum_of_squares()),
        ),
    ensures
        !cost(x, y, descent(x, y, theta, alpha, k)).spec_lt(
            cost(x, y, descent(x, y, theta, alpha, k + 1)),
        ),
{
    lemma_descent_len(x, y, theta, alpha, k);
    lemma_update_does_not_raise_cost(value, x, y, descent(x, y, theta, alpha, k), alpha);
}

} // verus!
