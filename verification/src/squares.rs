//! Least squares over the real numbers: why an update of gradient descent
//! does not raise the sum of the squared residuals.
use crate::series::{
    along_column, along_row, lemma_series_exchange, lemma_series_linear, lemma_series_monotone,
    lemma_series_product_bound, lemma_series_same, lemma_series_scaled, series,
};
use vstd::prelude::*;

verus! {

/// What the parameters `th` predict for example `i`: the sum of
/// `a(i, j) * th(j)` over the `n` columns.
pub open spec fn fit(a: spec_fn(int, int) -> real, th: spec_fn(int) -> real, i: int, n: nat) -> real {
    series(|j: int| a(i, j) * th(j), n)
}

/// The residual of example `i`: the prediction less the label.
pub open spec fn miss(
    a: spec_fn(int, int) -> real,
    th: spec_fn(int) -> real,
    y: spec_fn(int) -> real,
    i: int,
    n: nat,
) -> real {
    fit(a, th, i, n) - y(i)
}

/// Entry `j` of the transposed table times the residuals.
pub open spec fn slope(
    a: spec_fn(int, int) -> real,
    th: spec_fn(int) -> real,
    y: spec_fn(int) -> real,
    j: int,
    m: nat,
    n: nat,
) -> real {
    series(|i: int| a(i, j) * miss(a, th, y, i, n), m)
}

/// The parameters after one update with the step `c`.
pub open spec fn moved(
    a: spec_fn(int, int) -> real,
    th: spec_fn(int) -> real,
    y: spec_fn(int) -> real,
    c: real,
    m: nat,
    n: nat,
) -> spec_fn(int) -> real {
    |j: int| th(j) - c * slope(a, th, y, j, m, n)
}

/// The squared residuals of the `m` examples, added up.
pub open spec fn squared_misses(
    a: spec_fn(int, int) -> real,
    th: spec_fn(int) -> real,
    y: spec_fn(int) -> real,
    m: nat,
    n: nat,
) -> real {
    series(|i: int| miss(a, th, y, i, n) * miss(a, th, y, i, n), m)
}

/// The squares of the cells of row `i`, added up.
pub open spec fn squared_row(a: spec_fn(int, int) -> real, i: int, n: nat) -> real {
    series(|j: int| a(i, j) * a(i, j), n)
}

/// The squares of all cells of the table, added up.
pub open spec fn squared_cells(a: spec_fn(int, int) -> real, m: nat, n: nat) -> real {
    series(|i: int| squared_row(a, i, n), m)
}

/// The residuals after an update are the residuals before it less `c` times
/// what the table makes of the slopes.
proof fn lemma_miss_after_update(
    a: spec_fn(int, int) -> real,
    th: spec_fn(int) -> real,
    y: spec_fn(int) -> real,
    c: real,
    m: nat,
    n: nat,
    i: int,
)
    ensures
        miss(a, moved(a, th, y, c, m, n), y, i, n) == miss(a, th, y, i, n) - c * fit(
            a,
            |j: int| slope(a, th, y, j, m, n),
            i,
            n,
        ),
{
    let g = |j: int| slope(a, th, y, j, m, n);
    let th2 = moved(a, th, y, c, m, n);
    let after = |j: int| a(i, j) * th2(j);
    let before = |j: int| a(i, j) * th(j);
    let push = |j: int| a(i, j) * g(j);
    assert forall|j: int| 0 <= j < n implies #[trigger] after(j) == before(j) + (-c) * push(j) by {
        let x = a(i, j);
        let t = th(j);
        let s = g(j);
        assert(th2(j) == t - c * s);
        assert(x * (t - c * s) == x * t + (-c) * (x * s)) by (nonlinear_arith);
    }
    lemma_series_linear(after, before, push, -c, n);
    let w = series(push, n);
    assert((-c) * w == -(c * w)) by (nonlinear_arith);
}

/// The residuals times what the table makes of the slopes add up to the sum
/// of the squared slopes.
proof fn lemma_misses_against_slopes(
    a: spec_fn(int, int) -> real,
    th: spec_fn(int) -> real,
    y: spec_fn(int) -> real,
    m: nat,
    n: nat,
)
    ensures
        series(
            |i: int| miss(a, th, y, i, n) * fit(a, |j: int| slope(a, th, y, j, m, n), i, n),
            m,
        ) == series(|j: int| slope(a, th, y, j, m, n) * slope(a, th, y, j, m, n), n),
{
    let g = |j: int| slope(a, th, y, j, m, n);
    let r = |i: int| miss(a, th, y, i, n);
    let t = |i: int, j: int| r(i) * (a(i, j) * g(j));
    let left = |i: int| miss(a, th, y, i, n) * fit(a, g, i, n);
    let right = |j: int| slope(a, th, y, j, m, n) * slope(a, th, y, j, m, n);
    let by_rows = |i: int| along_row(t, i, n);
    let by_columns = |j: int| along_column(t, j, m);
    assert forall|i: int| 0 <= i < m implies #[trigger] left(i) == by_rows(i) by {
        let line = |j: int| t(i, j);
        let push = |j: int| a(i, j) * g(j);
        assert forall|j: int| 0 <= j < n implies #[trigger] line(j) == r(i) * push(j) by {
        }
        lemma_series_scaled(line, push, r(i), n);
    }
    lemma_series_same(left, by_rows, m);
    assert forall|j: int| 0 <= j < n implies #[trigger] by_columns(j) == right(j) by {
        let line = |i: int| t(i, j);
        let pull = |i: int| a(i, j) * miss(a, th, y, i, n);
        assert forall|i: int| 0 <= i < m implies #[trigger] line(i) == g(j) * pull(i) by {
            let x = a(i, j);
            let e = r(i);
            let s = g(j);
            assert(e * (x * s) == s * (x * e)) by (nonlinear_arith);
        }
        lemma_series_scaled(line, pull, g(j), m);
    }
    lemma_series_same(by_columns, right, n);
    lemma_series_exchange(t, m, n);
}

/// What the table makes of the slopes, squared and added up, is at most the
/// squared cells times the squared slopes.
proof fn lemma_pushed_slopes_bound(
    a: spec_fn(int, int) -> real,
    g: spec_fn(int) -> real,
    m: nat,
    n: nat,
)
    ensures
        series(|i: int| fit(a, g, i, n) * fit(a, g, i, n), m) <= series(|j: int| g(j) * g(j), n)
            * squared_cells(a, m, n),
        series(|j: int| g(j) * g(j), n) >= 0real,
{
    let gg = |j: int| g(j) * g(j);
    let total = series(gg, n);
    let pushed = |i: int| fit(a, g, i, n) * fit(a, g, i, n);
    let bound = |i: int| total * squared_row(a, i, n);
    let rows = |i: int| squared_row(a, i, n);
    let nothing = |j: int| 0real;
    lemma_series_product_bound(gg, gg, gg, g, g, n);
    assert forall|i: int| 0 <= i < m implies #[trigger] pushed(i) <= bound(i) by {
        let ab = |j: int| a(i, j) * g(j);
        let aa = |j: int| a(i, j) * a(i, j);
        let cells = |j: int| a(i, j);
        lemma_series_product_bound(ab, aa, gg, cells, g, n);
        let p = series(aa, n);
        assert(p * total == total * p) by (nonlinear_arith);
    }
    lemma_series_monotone(pushed, bound, m);
    lemma_series_scaled(bound, rows, total, m);
}

/// An update does not raise the sum of the squared residuals where the step
/// is not below zero and the step times the squared cells is at most two.
pub proof fn lemma_update_lowers_squares(
    a: spec_fn(int, int) -> real,
    th: spec_fn(int) -> real,
    y: spec_fn(int) -> real,
    c: real,
    m: nat,
    n: nat,
)
    requires
        c >= 0real,
        c * squared_cells(a, m, n) <= 2real,
    ensures
        squared_misses(a, moved(a, th, y, c, m, n), y, m, n) <= squared_misses(a, th, y, m, n),
{
    let g = |j: int| slope(a, th, y, j, m, n);
    let th2 = moved(a, th, y, c, m, n);
    let r = |i: int| miss(a, th, y, i, n);
    let u = |i: int| fit(a, g, i, n);
    let rr = |i: int| miss(a, th, y, i, n) * miss(a, th, y, i, n);
    let ru = |i: int| miss(a, th, y, i, n) * fit(a, g, i, n);
    let uu = |i: int| fit(a, g, i, n) * fit(a, g, i, n);
    let gg = |j: int| g(j) * g(j);
    let slopes = |j: int| slope(a, th, y, j, m, n) * slope(a, th, y, j, m, n);
    let mixed = |i: int| rr(i) + (-(2real * c)) * ru(i);
    let after = |i: int| miss(a, th2, y, i, n) * miss(a, th2, y, i, n);
    let cc = c * c;
    assert forall|i: int| 0 <= i < m implies #[trigger] after(i) == mixed(i) + cc * uu(i) by {
        lemma_miss_after_update(a, th, y, c, m, n, i);
        let e = r(i);
        let w = u(i);
        assert(miss(a, th2, y, i, n) == e - c * w);
        assert((e - c * w) * (e - c * w) == e * e + (-(2real * c)) * (e * w) + (c * c) * (w * w))
            by (nonlinear_arith);
    }
    lemma_series_linear(after, mixed, uu, cc, m);
    lemma_series_linear(mixed, rr, ru, -(2real * c), m);
    lemma_misses_against_slopes(a, th, y, m, n);
    lemma_series_same(slopes, gg, n);
    lemma_pushed_slopes_bound(a, g, m, n);
    let s_before = series(rr, m);
    let s_after = series(after, m);
    let cross = series(ru, m);
    let pushed = series(uu, m);
    let steep = series(gg, n);
    let cells = squared_cells(a, m, n);
    assert(cross == steep);
    assert(s_after == s_before + (-(2real * c)) * steep + cc * pushed);
    assert(pushed <= steep * cells);
    assert(cc >= 0real) by (nonlinear_arith)
        requires
            cc == c * c,
    ;
    let most = steep * cells;
    assert(cc * pushed <= cc * most) by (nonlinear_arith)
        requires
            pushed <= most,
            cc >= 0real,
    ;
    let cs = c * steep;
    let cf = c * cells;
    assert(cs >= 0real) by (nonlinear_arith)
        requires
            cs == c * steep,
            c >= 0real,
            steep >= 0real,
    ;
    assert(cc * most == cs * cf) by (nonlinear_arith)
        requires
            cc == c * c,
            most == steep * cells,
            cs == c * steep,
            cf == c * cells,
    ;
    assert(cs * cf <= cs * 2real) by (nonlinear_arith)
        requires
            cs >= 0real,
            cf <= 2real,
    ;
    assert((-(2real * c)) * steep == -(cs * 2real)) by (nonlinear_arith)
        requires
            cs == c * steep,
    ;
}

/// The squared residuals depend on the parameters of the `n` columns only.
pub proof fn lemma_squared_misses_same(
    a: spec_fn(int, int) -> real,
    th1: spec_fn(int) -> real,
    th2: spec_fn(int) -> real,
    y: spec_fn(int) -> real,
    m: nat,
    n: nat,
)
    requires
        forall|j: int| 0 <= j < n ==> #[trigger] th1(j) == th2(j),
    ensures
        squared_misses(a, th1, y, m, n) == squared_misses(a, th2, y, m, n),
{
    let first = |i: int| miss(a, th1, y, i, n) * miss(a, th1, y, i, n);
    let second = |i: int| miss(a, th2, y, i, n) * miss(a, th2, y, i, n);
    assert forall|i: int| 0 <= i < m implies #[trigger] first(i) == second(i) by {
        let f1 = |j: int| a(i, j) * th1(j);
        let f2 = |j: int| a(i, j) * th2(j);
        assert forall|j: int| 0 <= j < n implies #[trigger] f1(j) == f2(j) by {
            assert(th1(j) == th2(j));
        }
        lemma_series_same(f1, f2, n);
    }
    lemma_series_same(first, second, m);
}

} // verus!
