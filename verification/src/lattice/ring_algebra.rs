//! Multiplication in `Z_q[X]/(X^N + 1)` is associative.

use vstd::prelude::*;
use vstd::arithmetic::div_mod::lemma_mul_mod_noop_general;
use crate::lattice::params::{N, Q};
use crate::lattice::ring::{conv, conv_term, conv_upto, poly_mul, RingElement};
use crate::lattice::sums::{
    lemma_sum_congruent,
    lemma_sum_ext,
    lemma_sum_rotate,
    lemma_sum_scale,
    lemma_sum_swap,
    sum_upto,
};

verus! {

/// A polynomial continued to the indices `-N < t < N` by `X^N = -1`: below
/// zero, the coefficient `N` places up with its sign changed.
pub open spec fn wrapped(c: Seq<int>, t: int) -> int {
    if 0 <= t < N {
        c[t]
    } else if -N < t < 0 {
        -c[t + N]
    } else {
        0
    }
}

/// Coefficient `k` of the product modulo `X^N + 1`, before reduction
/// modulo `Q`.
pub open spec fn wrapped_product(x: Seq<int>, c: Seq<int>, k: int) -> int {
    sum_upto(|j: int| x[j] * wrapped(c, k - j), N as int)
}

/// The product modulo `X^N + 1`, before reduction modulo `Q`.
pub open spec fn wrapped_poly(x: Seq<int>, c: Seq<int>) -> Seq<int> {
    Seq::new(N as nat, |k: int| wrapped_product(x, c, k))
}

proof fn lemma_conv_wrapped_upto(x: Seq<int>, c: Seq<int>, k: int, n: int)
    requires
        0 <= k < N,
        0 <= n <= N,
    ensures
        conv_upto(x, c, k, n) - conv_upto(x, c, k + N, n) == sum_upto(
            |j: int| x[j] * wrapped(c, k - j),
            n,
        ),
    decreases n,
{
    let f = |j: int| x[j] * wrapped(c, k - j);
    if n > 0 {
        lemma_conv_wrapped_upto(x, c, k, n - 1);
        let j = n - 1;
        assert(f(j) == x[j] * wrapped(c, k - j));
        if j <= k {
            assert(conv_term(x, c, k + N, j) == 0);
        } else {
            assert(conv_term(x, c, k, j) == 0);
            assert(x[j] * (-c[k - j + N]) == -(x[j] * c[k + N - j])) by (nonlinear_arith);
        }
    }
}

/// The difference of plain coefficients `k` and `k + N` is the wrapped
/// product's coefficient `k`.
pub proof fn lemma_conv_wrapped(x: Seq<int>, c: Seq<int>, k: int)
    requires
        0 <= k < N,
    ensures
        conv(x, c, k) - conv(x, c, k + N) == wrapped_product(x, c, k),
        poly_mul(x, c)[k] == wrapped_product(x, c, k) % (Q as int),
{
    lemma_conv_wrapped_upto(x, c, k, N as int);
}

proof fn lemma_neg_congruent(a: int, b: int)
    requires
        a % (Q as int) == b % (Q as int),
    ensures
        (-a) % (Q as int) == (-b) % (Q as int),
{
}

proof fn lemma_mul_congruent(a: int, b: int, e: int)
    requires
        a % (Q as int) == b % (Q as int),
    ensures
        (a * e) % (Q as int) == (b * e) % (Q as int),
        (e * a) % (Q as int) == (e * b) % (Q as int),
{
    lemma_mul_mod_noop_general(a, e, Q as int);
    lemma_mul_mod_noop_general(b, e, Q as int);
    lemma_mul_mod_noop_general(e, a, Q as int);
    lemma_mul_mod_noop_general(e, b, Q as int);
}

/// The wrapped product modulo `Q` depends on its left factor modulo `Q`
/// only.
proof fn lemma_wrapped_congruent_left(x: Seq<int>, y: Seq<int>, c: Seq<int>, k: int)
    requires
        forall|j: int| 0 <= j < N ==> #[trigger] x[j] % (Q as int) == y[j] % (Q as int),
    ensures
        wrapped_product(x, c, k) % (Q as int) == wrapped_product(y, c, k) % (Q as int),
{
    let f = |j: int| x[j] * wrapped(c, k - j);
    let g = |j: int| y[j] * wrapped(c, k - j);
    assert forall|j: int| 0 <= j < N implies #[trigger] f(j) % (Q as int) == g(j) % (Q as int) by {
        assert(x[j] % (Q as int) == y[j] % (Q as int));
        lemma_mul_congruent(x[j], y[j], wrapped(c, k - j));
    }
    lemma_sum_congruent(f, g, N as int, Q as int);
}

/// The wrapped product modulo `Q` depends on its right factor modulo `Q`
/// only.
proof fn lemma_wrapped_congruent_right(a: Seq<int>, x: Seq<int>, y: Seq<int>, k: int)
    requires
        forall|j: int| 0 <= j < N ==> #[trigger] x[j] % (Q as int) == y[j] % (Q as int),
    ensures
        wrapped_product(a, x, k) % (Q as int) == wrapped_product(a, y, k) % (Q as int),
{
    let f = |j: int| a[j] * wrapped(x, k - j);
    let g = |j: int| a[j] * wrapped(y, k - j);
    assert forall|j: int| 0 <= j < N implies #[trigger] f(j) % (Q as int) == g(j) % (Q as int) by {
        let t = k - j;
        if 0 <= t < N {
            assert(x[t] % (Q as int) == y[t] % (Q as int));
        } else if -N < t < 0 {
            assert(x[t + N] % (Q as int) == y[t + N] % (Q as int));
            lemma_neg_congruent(x[t + N], y[t + N]);
        }
        lemma_mul_congruent(wrapped(x, t), wrapped(y, t), a[j]);
    }
    lemma_sum_congruent(f, g, N as int, Q as int);
}

/// Summing the products of two wrapped polynomials along an antidiagonal
/// gives the wrapped product of the two, itself wrapped.
proof fn lemma_wrapped_inner(b: Seq<int>, c: Seq<int>, i: int, k: int)
    requires
        0 <= i < N,
        0 <= k < N,
    ensures
        sum_upto(|j: int| wrapped(b, j - i) * wrapped(c, k - j), N as int) == wrapped(
            wrapped_poly(b, c),
            k - i,
        ),
{
    let n = N as int;
    let t = k - i;
    let g = |j: int| wrapped(b, j - i) * wrapped(c, k - j);
    let rotated = |l: int| g((l + i) % n);
    lemma_sum_rotate(g, i, n);
    if t >= 0 {
        let direct = |l: int| b[l] * wrapped(c, t - l);
        assert forall|l: int| 0 <= l < n implies #[trigger] rotated(l) == direct(l) by {
            if l < n - i {
                assert((l + i) % n == l + i);
            } else {
                assert((l + i) % n == l + i - n);
                assert(wrapped(b, l - n) == -b[l]);
                assert(wrapped(c, k - (l + i - n)) == c[t - l + n]);
                assert(wrapped(c, t - l) == -c[t - l + n]);
                assert((-b[l]) * c[t - l + n] == b[l] * (-c[t - l + n])) by (nonlinear_arith);
            }
        }
        lemma_sum_ext(rotated, direct, n);
        assert(wrapped(wrapped_poly(b, c), t) == wrapped_product(b, c, t));
    } else {
        let up = |l: int| b[l] * wrapped(c, t + n - l);
        let negated = |l: int| (-1) * up(l);
        assert forall|l: int| 0 <= l < n implies #[trigger] rotated(l) == negated(l) by {
            if l < n - i {
                assert((l + i) % n == l + i);
                assert(wrapped(b, l) == b[l]);
                assert(wrapped(c, t - l) == -c[t - l + n]);
                assert(wrapped(c, t + n - l) == c[t + n - l]);
                assert(b[l] * (-c[t - l + n]) == (-1) * (b[l] * c[t + n - l])) by (nonlinear_arith);
            } else {
                assert((l + i) % n == l + i - n);
                assert(wrapped(b, l - n) == -b[l]);
                assert((-b[l]) * wrapped(c, t + n - l) == (-1) * (b[l] * wrapped(c, t + n - l)))
                    by (nonlinear_arith);
            }
        }
        lemma_sum_ext(rotated, negated, n);
        lemma_sum_scale(up, -1, n);
        assert(wrapped(wrapped_poly(b, c), t) == -wrapped_product(b, c, t + n));
    }
}

/// Over the integers, the wrapped product is associative.
proof fn lemma_wrapped_associative(a: Seq<int>, b: Seq<int>, c: Seq<int>, k: int)
    requires
        0 <= k < N,
    ensures
        wrapped_product(wrapped_poly(a, b), c, k) == wrapped_product(a, wrapped_poly(b, c), k),
{
    let n = N as int;
    let ab = wrapped_poly(a, b);
    let bc = wrapped_poly(b, c);
    let h = |i: int, j: int| a[i] * (wrapped(b, j - i) * wrapped(c, k - j));
    // the left side, summand by summand, is a sum over i
    let left = |j: int| ab[j] * wrapped(c, k - j);
    let cols = |j: int| sum_upto(|i: int| h(i, j), n);
    assert forall|j: int| 0 <= j < n implies #[trigger] left(j) == cols(j) by {
        let e = wrapped(c, k - j);
        let inner = |i: int| a[i] * wrapped(b, j - i);
        let scaled = |i: int| e * inner(i);
        let col = |i: int| h(i, j);
        lemma_sum_scale(inner, e, n);
        assert forall|i: int| 0 <= i < n implies #[trigger] scaled(i) == col(i) by {
            assert(e * (a[i] * wrapped(b, j - i)) == a[i] * (wrapped(b, j - i) * e))
                by (nonlinear_arith);
        }
        lemma_sum_ext(scaled, col, n);
        assert(ab[j] == sum_upto(inner, n));
        assert(sum_upto(inner, n) * e == e * sum_upto(inner, n)) by (nonlinear_arith);
    }
    lemma_sum_ext(left, cols, n);
    // exchange the two sums
    lemma_sum_swap(h, n, n);
    let rows = |i: int| sum_upto(|j: int| h(i, j), n);
    // the right side, summand by summand, is a sum over j
    let right = |i: int| a[i] * wrapped(bc, k - i);
    assert forall|i: int| 0 <= i < n implies #[trigger] rows(i) == right(i) by {
        let g = |j: int| wrapped(b, j - i) * wrapped(c, k - j);
        let scaled = |j: int| a[i] * g(j);
        let row = |j: int| h(i, j);
        assert forall|j: int| 0 <= j < n implies #[trigger] row(j) == scaled(j) by {}
        lemma_sum_ext(row, scaled, n);
        lemma_sum_scale(g, a[i], n);
        lemma_wrapped_inner(b, c, i, k);
    }
    lemma_sum_ext(rows, right, n);
}

/// Multiplication in the ring is associative.
pub proof fn lemma_mul_associative(a: RingElement, b: RingElement, c: RingElement)
    requires
        a.wf(),
        b.wf(),
        c.wf(),
    ensures
        poly_mul(poly_mul(a@, b@), c@) == poly_mul(a@, poly_mul(b@, c@)),
{
    let q = Q as int;
    let ab = poly_mul(a@, b@);
    let bc = poly_mul(b@, c@);
    let ab_z = wrapped_poly(a@, b@);
    let bc_z = wrapped_poly(b@, c@);
    assert forall|j: int| 0 <= j < N implies #[trigger] ab[j] % q == ab_z[j] % q by {
        lemma_conv_wrapped(a@, b@, j);
    }
    assert forall|j: int| 0 <= j < N implies #[trigger] bc[j] % q == bc_z[j] % q by {
        lemma_conv_wrapped(b@, c@, j);
    }
    let lhs = poly_mul(ab, c@);
    let rhs = poly_mul(a@, bc);
    assert forall|k: int| 0 <= k < N implies lhs[k] == rhs[k] by {
        lemma_conv_wrapped(ab, c@, k);
        lemma_conv_wrapped(a@, bc, k);
        lemma_wrapped_congruent_left(ab, ab_z, c@, k);
        lemma_wrapped_congruent_right(a@, bc, bc_z, k);
        lemma_wrapped_associative(a@, b@, c@, k);
    }
    assert(lhs =~= rhs);
}

} // verus!
