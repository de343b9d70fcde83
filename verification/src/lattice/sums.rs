//! Finite sums of integer-valued functions, and the rearrangements that
//! the algebra of the ring rests on.

use vstd::prelude::*;
use vstd::arithmetic::div_mod::{lemma_add_mod_noop, lemma_fundamental_div_mod, lemma_small_mod};

verus! {

/// The sum of `f(i)` over `0 <= i < n`.
pub open spec fn sum_upto(f: spec_fn(int) -> int, n: int) -> int
    decreases n,
{
    if n <= 0 {
        0
    } else {
        sum_upto(f, n - 1) + f(n - 1)
    }
}

/// Functions that agree below `n` have the same sum.
pub proof fn lemma_sum_ext(f: spec_fn(int) -> int, g: spec_fn(int) -> int, n: int)
    requires
        forall|i: int| 0 <= i < n ==> #[trigger] f(i) == g(i),
    ensures
        sum_upto(f, n) == sum_upto(g, n),
    decreases n,
{
    if n > 0 {
        lemma_sum_ext(f, g, n - 1);
        assert(f(n - 1) == g(n - 1));
    }
}

/// A constant factor moves out of a sum.
pub proof fn lemma_sum_scale(f: spec_fn(int) -> int, c: int, n: int)
    ensures
        sum_upto(|i: int| c * f(i), n) == c * sum_upto(f, n),
    decreases n,
{
    let g = |i: int| c * f(i);
    if n > 0 {
        lemma_sum_scale(f, c, n - 1);
        assert(g(n - 1) == c * f(n - 1));
        assert(c * (sum_upto(f, n - 1) + f(n - 1)) == c * sum_upto(f, n - 1) + c * f(n - 1))
            by (nonlinear_arith);
    } else {
        assert(c * 0 == 0);
    }
}

/// The sum of a sum of two functions is the sum of their sums.
pub proof fn lemma_sum_add(f: spec_fn(int) -> int, g: spec_fn(int) -> int, n: int)
    ensures
        sum_upto(|i: int| f(i) + g(i), n) == sum_upto(f, n) + sum_upto(g, n),
    decreases n,
{
    let h = |i: int| f(i) + g(i);
    if n > 0 {
        lemma_sum_add(f, g, n - 1);
        assert(h(n - 1) == f(n - 1) + g(n - 1));
    }
}

/// A sum splits at any point into the sum below it and the sum from it on.
pub proof fn lemma_sum_split(f: spec_fn(int) -> int, p: int, q: int)
    requires
        0 <= p,
        0 <= q,
    ensures
        sum_upto(f, p + q) == sum_upto(f, p) + sum_upto(|i: int| f(p + i), q),
    decreases q,
{
    let g = |i: int| f(p + i);
    if q > 0 {
        lemma_sum_split(f, p, q - 1);
        assert(g(q - 1) == f(p + q - 1));
    }
}

/// Summing in the order `s, s + 1, .., n - 1, 0, .., s - 1` gives the same
/// sum.
pub proof fn lemma_sum_rotate(f: spec_fn(int) -> int, s: int, n: int)
    requires
        0 <= s < n,
    ensures
        sum_upto(f, n) == sum_upto(|l: int| f((l + s) % n), n),
{
    let rotated = |l: int| f((l + s) % n);
    let tail = |i: int| f(s + i);
    // the plain order: below s, then from s on
    lemma_sum_split(f, s, n - s);
    // the rotated order: the first n - s summands, then the last s
    lemma_sum_split(rotated, n - s, s);
    let rotated_tail = |i: int| rotated(n - s + i);
    assert forall|i: int| 0 <= i < n - s implies #[trigger] rotated(i) == tail(i) by {
        lemma_small_mod((i + s) as nat, n as nat);
    }
    lemma_sum_ext(rotated, tail, n - s);
    assert forall|i: int| 0 <= i < s implies #[trigger] rotated_tail(i) == f(i) by {
        assert((n - s + i + s) % n == i) by {
            lemma_fundamental_div_mod(n + i, n);
            assert((n + i) % n == i) by (nonlinear_arith)
                requires
                    0 <= i < n,
            ;
        }
    }
    lemma_sum_ext(rotated_tail, f, s);
}

/// The order of two nested sums can be exchanged.
pub proof fn lemma_sum_swap(h: spec_fn(int, int) -> int, n: int, m: int)
    ensures
        sum_upto(|i: int| sum_upto(|j: int| h(i, j), m), n) == sum_upto(
            |j: int| sum_upto(|i: int| h(i, j), n),
            m,
        ),
    decreases n,
{
    let rows = |i: int| sum_upto(|j: int| h(i, j), m);
    let cols = |j: int| sum_upto(|i: int| h(i, j), n);
    if n <= 0 {
        let zero = |j: int| 0int;
        assert forall|j: int| 0 <= j < m implies #[trigger] cols(j) == zero(j) by {}
        lemma_sum_ext(cols, zero, m);
        lemma_sum_zero(m);
    } else {
        lemma_sum_swap(h, n - 1, m);
        let cols_before = |j: int| sum_upto(|i: int| h(i, j), n - 1);
        let last_row = |j: int| h(n - 1, j);
        let both = |j: int| cols_before(j) + last_row(j);
        lemma_sum_add(cols_before, last_row, m);
        assert forall|j: int| 0 <= j < m implies #[trigger] cols(j) == both(j) by {
            let col = |i: int| h(i, j);
            assert(col(n - 1) == h(n - 1, j));
        }
        lemma_sum_ext(cols, both, m);
        assert(rows(n - 1) == sum_upto(last_row, m)) by {
            let row = |j: int| h(n - 1, j);
            assert forall|j: int| 0 <= j < m implies #[trigger] row(j) == last_row(j) by {}
            lemma_sum_ext(row, last_row, m);
        }
        let rows_before = |i: int| sum_upto(|j: int| h(i, j), m);
        assert(sum_upto(rows, n - 1) == sum_upto(rows_before, n - 1)) by {
            assert forall|i: int| 0 <= i < n - 1 implies #[trigger] rows(i) == rows_before(i) by {}
            lemma_sum_ext(rows, rows_before, n - 1);
        }
    }
}

/// The sum of zeros is zero.
pub proof fn lemma_sum_zero(n: int)
    ensures
        sum_upto(|i: int| 0int, n) == 0,
    decreases n,
{
    if n > 0 {
        lemma_sum_zero(n - 1);
    }
}

/// Functions that agree modulo `q` below `n` have sums that agree modulo
/// `q`.
pub proof fn lemma_sum_congruent(f: spec_fn(int) -> int, g: spec_fn(int) -> int, n: int, q: int)
    requires
        q > 0,
        forall|i: int| 0 <= i < n ==> #[trigger] f(i) % q == g(i) % q,
    ensures
        sum_upto(f, n) % q == sum_upto(g, n) % q,
    decreases n,
{
    if n > 0 {
        lemma_sum_congruent(f, g, n - 1, q);
        assert(f(n - 1) % q == g(n - 1) % q);
        lemma_add_mod_noop(sum_upto(f, n - 1), f(n - 1), q);
        lemma_add_mod_noop(sum_upto(g, n - 1), g(n - 1), q);
    }
}

} // verus!
