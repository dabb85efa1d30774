//! Finite sums of real numbers.
use vstd::prelude::*;

verus! {

/// `f(0) + f(1) + ... + f(n - 1)`.
pub open spec fn series(f: spec_fn(int) -> real, n: nat) -> real
    decreases n,
{
    if n == 0 {
        0real
    } else {
        series(f, (n - 1) as nat) + f(n - 1)
    }
}

/// The sum of row `i` of `t` over `n` columns.
pub open spec fn along_row(t: spec_fn(int, int) -> real, i: int, n: nat) -> real {
    series(|j: int| t(i, j), n)
}

/// The sum of column `j` of `t` over `m` rows.
pub open spec fn along_column(t: spec_fn(int, int) -> real, j: int, m: nat) -> real {
    series(|i: int| t(i, j), m)
}

/// Two series with the same terms have the same sum.
pub proof fn lemma_series_same(f: spec_fn(int) -> real, g: spec_fn(int) -> real, n: nat)
    requires
        forall|i: int| 0 <= i < n ==> #[trigger] f(i) == g(i),
    ensures
        series(f, n) == series(g, n),
    decreases n,
{
    if n > 0 {
        lemma_series_same(f, g, (n - 1) as nat);
    }
}

/// A series is linear in its terms: where `h` is `f + c g` term by term, its
/// sum is the sum of `f` plus `c` times the sum of `g`.
pub proof fn lemma_series_linear(
    h: spec_fn(int) -> real,
    f: spec_fn(int) -> real,
    g: spec_fn(int) -> real,
    c: real,
    n: nat,
)
    requires
        forall|i: int| 0 <= i < n ==> #[trigger] h(i) == f(i) + c * g(i),
    ensures
        series(h, n) == series(f, n) + c * series(g, n),
    decreases n,
{
    if n > 0 {
        lemma_series_linear(h, f, g, c, (n - 1) as nat);
        let a = series(g, (n - 1) as nat);
        let b = g(n - 1);
        assert(c * (a + b) == c * a + c * b) by (nonlinear_arith);
        assert(h(n - 1) == f(n - 1) + c * g(n - 1));
    } else {
        assert(c * 0real == 0real) by (nonlinear_arith);
    }
}

/// Where `h` is `c g` term by term, its sum is `c` times the sum of `g`.
pub proof fn lemma_series_scaled(
    h: spec_fn(int) -> real,
    g: spec_fn(int) -> real,
    c: real,
    n: nat,
)
    requires
        forall|i: int| 0 <= i < n ==> #[trigger] h(i) == c * g(i),
    ensures
        series(h, n) == c * series(g, n),
    decreases n,
{
    if n > 0 {
        lemma_series_scaled(h, g, c, (n - 1) as nat);
        let a = series(g, (n - 1) as nat);
        let b = g(n - 1);
        assert(c * (a + b) == c * a + c * b) by (nonlinear_arith);
        assert(h(n - 1) == c * g(n - 1));
    } else {
        assert(c * 0real == 0real) by (nonlinear_arith);
    }
}

/// A series of terms that are not below zero is not below zero.
pub proof fn lemma_series_non_negative(f: spec_fn(int) -> real, n: nat)
    requires
        forall|i: int| 0 <= i < n ==> #[trigger] f(i) >= 0real,
    ensures
        series(f, n) >= 0real,
    decreases n,
{
    if n > 0 {
        lemma_series_non_negative(f, (n - 1) as nat);
    }
}

/// A series grows with its terms.
pub proof fn lemma_series_monotone(f: spec_fn(int) -> real, g: spec_fn(int) -> real, n: nat)
    requires
        forall|i: int| 0 <= i < n ==> #[trigger] f(i) <= g(i),
    ensures
        series(f, n) <= series(g, n),
    decreases n,
{
    if n > 0 {
        lemma_series_monotone(f, g, (n - 1) as nat);
    }
}

/// A series of squares is zero only where every term is zero.
pub proof fn lemma_series_of_squares_zero(
    sq: spec_fn(int) -> real,
    f: spec_fn(int) -> real,
    n: nat,
)
    requires
        forall|i: int| 0 <= i < n ==> #[trigger] sq(i) == f(i) * f(i),
        series(sq, n) == 0real,
    ensures
        forall|i: int| 0 <= i < n ==> #[trigger] f(i) == 0real,
    decreases n,
{
    if n > 0 {
        assert forall|i: int| 0 <= i < n implies #[trigger] sq(i) >= 0real by {
            let v = f(i);
            assert(v * v >= 0real) by (nonlinear_arith);
        }
        lemma_series_non_negative(sq, (n - 1) as nat);
        let last = f(n - 1);
        assert(sq(n - 1) == last * last);
        assert(last * last == 0real ==> last == 0real) by (nonlinear_arith);
        lemma_series_of_squares_zero(sq, f, (n - 1) as nat);
    }
}

/// A table can be added up by rows or by columns.
pub proof fn lemma_series_exchange(t: spec_fn(int, int) -> real, m: nat, n: nat)
    ensures
        series(|i: int| along_row(t, i, n), m) == series(|j: int| along_column(t, j, m), n),
    decreases m,
{
    let by_rows = |i: int| along_row(t, i, n);
    let by_columns = |j: int| along_column(t, j, m);
    if m == 0 {
        let nothing = |j: int| 0real;
        lemma_series_scaled(by_columns, nothing, 0real, n);
        assert(0real * series(nothing, n) == 0real) by (nonlinear_arith);
    } else {
        lemma_series_exchange(t, (m - 1) as nat, n);
        let before = |j: int| along_column(t, j, (m - 1) as nat);
        let last = |j: int| t(m - 1, j);
        assert forall|j: int| 0 <= j < n implies #[trigger] by_columns(j) == before(j) + 1real
            * last(j) by {
            assert(along_column(t, j, m) == along_column(t, j, (m - 1) as nat) + t(m - 1, j));
        }
        lemma_series_linear(by_columns, before, last, 1real, n);
        assert(by_rows(m - 1) == series(last, n));
        assert(series(by_rows, m) == series(by_rows, (m - 1) as nat) + by_rows(m - 1));
        assert(series(by_rows, (m - 1) as nat) == series(
            |i: int| along_row(t, i, n),
            (m - 1) as nat,
        ));
    }
}

/// `2 c p q` is at most `a q q + b p p`, for `c c <= a b` with `a` and `b`
/// not below zero.
proof fn lemma_cross_term(a: real, b: real, c: real, p: real, q: real)
    requires
        c * c <= a * b,
        a >= 0real,
        b >= 0real,
    ensures
        2real * (c * (p * q)) <= a * (q * q) + b * (p * p),
{
    let pp = p * p;
    let qq = q * q;
    let pq = p * q;
    assert(pp >= 0real) by (nonlinear_arith)
        requires
            pp == p * p,
    ;
    assert(b * pp >= 0real) by (nonlinear_arith)
        requires
            b >= 0real,
            pp >= 0real,
    ;
    if a == 0real {
        assert(a * b == 0real) by (nonlinear_arith)
            requires
                a == 0real,
        ;
        assert(c == 0real) by (nonlinear_arith)
            requires
                c * c <= 0real,
        ;
        assert(c * pq == 0real) by (nonlinear_arith)
            requires
                c == 0real,
        ;
        assert(a * qq == 0real) by (nonlinear_arith)
            requires
                a == 0real,
        ;
    } else {
        let x = a * q;
        let y = c * p;
        let s = x - y;
        let d = a * b - c * c;
        let e = a * qq + b * pp - 2real * (c * pq);
        assert(s * s == x * x - 2real * (x * y) + y * y) by (nonlinear_arith)
            requires
                s == x - y,
        ;
        assert(x * x == a * (a * qq)) by (nonlinear_arith)
            requires
                x == a * q,
                qq == q * q,
        ;
        assert(x * y == a * (c * pq)) by (nonlinear_arith)
            requires
                x == a * q,
                y == c * p,
                pq == p * q,
        ;
        assert(y * y == (c * c) * pp) by (nonlinear_arith)
            requires
                y == c * p,
                pp == p * p,
        ;
        let ab = a * b;
        let cc = c * c;
        assert(d * pp == ab * pp - cc * pp) by (nonlinear_arith)
            requires
                d == ab - cc,
        ;
        assert(ab * pp == a * (b * pp)) by (nonlinear_arith)
            requires
                ab == a * b,
        ;
        let u = a * qq;
        let v = b * pp;
        let w = c * pq;
        assert(a * e == a * u + a * v - 2real * (a * w)) by (nonlinear_arith)
            requires
                e == u + v - 2real * w,
        ;
        assert(a * e == s * s + d * pp);
        assert(s * s >= 0real) by (nonlinear_arith);
        assert(d * pp >= 0real) by (nonlinear_arith)
            requires
                d >= 0real,
                pp >= 0real,
        ;
        assert(e >= 0real) by (nonlinear_arith)
            requires
                a * e >= 0real,
                a > 0real,
        ;
    }
}

/// The inequality of Cauchy and Schwarz: the square of a sum of products is
/// at most the product of the two sums of squares.
pub proof fn lemma_series_product_bound(
    ab: spec_fn(int) -> real,
    aa: spec_fn(int) -> real,
    bb: spec_fn(int) -> real,
    a: spec_fn(int) -> real,
    b: spec_fn(int) -> real,
    n: nat,
)
    requires
        forall|j: int| 0 <= j < n ==> #[trigger] ab(j) == a(j) * b(j),
        forall|j: int| 0 <= j < n ==> #[trigger] aa(j) == a(j) * a(j),
        forall|j: int| 0 <= j < n ==> #[trigger] bb(j) == b(j) * b(j),
    ensures
        series(ab, n) * series(ab, n) <= series(aa, n) * series(bb, n),
        series(aa, n) >= 0real,
        series(bb, n) >= 0real,
    decreases n,
{
    if n > 0 {
        lemma_series_product_bound(ab, aa, bb, a, b, (n - 1) as nat);
        let c0 = series(ab, (n - 1) as nat);
        let a0 = series(aa, (n - 1) as nat);
        let b0 = series(bb, (n - 1) as nat);
        let p = a(n - 1);
        let q = b(n - 1);
        let pq = p * q;
        let pp = p * p;
        let qq = q * q;
        assert(ab(n - 1) == pq);
        assert(aa(n - 1) == pp);
        assert(bb(n - 1) == qq);
        lemma_cross_term(a0, b0, c0, p, q);
        assert(pp >= 0real) by (nonlinear_arith)
            requires
                pp == p * p,
        ;
        assert(qq >= 0real) by (nonlinear_arith)
            requires
                qq == q * q,
        ;
        assert((c0 + pq) * (c0 + pq) == c0 * c0 + 2real * (c0 * pq) + pq * pq)
            by (nonlinear_arith);
        assert((a0 + pp) * (b0 + qq) == a0 * b0 + a0 * qq + b0 * pp + pp * qq)
            by (nonlinear_arith);
        assert(pq * pq == pp * qq) by (nonlinear_arith)
            requires
                pq == p * q,
                pp == p * p,
                qq == q * q,
        ;
    } else {
        assert(0real * 0real <= 0real * 0real) by (nonlinear_arith);
    }
}

} // verus!
