//! Finite sums of integers, and the few laws of them that the totals of
//! chances rest on.

use vstd::prelude::*;

verus! {

/// The sum of `f(0), …, f(n - 1)`.
pub open spec fn sum(f: spec_fn(int) -> int, n: int) -> int
    decreases n,
{
    if n <= 0 {
        0
    } else {
        sum(f, n - 1) + f(n - 1)
    }
}

/// Sums of terms that agree one by one agree.
pub proof fn lemma_sum_agrees(f: spec_fn(int) -> int, g: spec_fn(int) -> int, n: int)
    requires
        forall|i: int| 0 <= i < n ==> #[trigger] f(i) == g(i),
    ensures
        sum(f, n) == sum(g, n),
    decreases n,
{
    if n > 0 {
        lemma_sum_agrees(f, g, n - 1);
    }
}

/// A sum of zeros is zero.
pub proof fn lemma_sum_of_zeros(f: spec_fn(int) -> int, n: int)
    requires
        forall|i: int| 0 <= i < n ==> #[trigger] f(i) == 0,
    ensures
        sum(f, n) == 0,
    decreases n,
{
    if n > 0 {
        lemma_sum_of_zeros(f, n - 1);
    }
}

/// The sum of sums, term by term, is the sum of the two sums.
pub proof fn lemma_sum_adds(
    f: spec_fn(int) -> int,
    g: spec_fn(int) -> int,
    h: spec_fn(int) -> int,
    n: int,
)
    requires
        forall|i: int| 0 <= i < n ==> #[trigger] h(i) == f(i) + g(i),
    ensures
        sum(h, n) == sum(f, n) + sum(g, n),
    decreases n,
{
    if n > 0 {
        lemma_sum_adds(f, g, h, n - 1);
    }
}

/// A factor common to all terms can be taken out of the sum.
pub proof fn lemma_sum_scales(f: spec_fn(int) -> int, c: int, h: spec_fn(int) -> int, n: int)
    requires
        forall|i: int| 0 <= i < n ==> #[trigger] h(i) == c * f(i),
    ensures
        sum(h, n) == c * sum(f, n),
    decreases n,
{
    if n > 0 {
        lemma_sum_scales(f, c, h, n - 1);
        assert(c * (sum(f, n - 1) + f(n - 1)) == c * sum(f, n - 1) + c * f(n - 1))
            by (nonlinear_arith);
    } else {
        assert(c * 0 == 0);
    }
}

/// Terms that are zero from `n` on add nothing.
pub proof fn lemma_sum_stops(f: spec_fn(int) -> int, n: int, m: int)
    requires
        0 <= n <= m,
        forall|i: int| n <= i < m ==> #[trigger] f(i) == 0,
    ensures
        sum(f, m) == sum(f, n),
    decreases m - n,
{
    if n < m {
        lemma_sum_stops(f, n, m - 1);
    }
}

/// A sum can be cut in two: the first `a` terms, and the `b` terms after
/// them counted anew from zero.
pub proof fn lemma_sum_splits(f: spec_fn(int) -> int, g: spec_fn(int) -> int, a: int, b: int)
    requires
        0 <= a,
        0 <= b,
        forall|j: int| 0 <= j < b ==> #[trigger] g(j) == f(a + j),
    ensures
        sum(f, a + b) == sum(f, a) + sum(g, b),
    decreases b,
{
    if b > 0 {
        lemma_sum_splits(f, g, a, b - 1);
    }
}

/// Terms that are zero before `d` can be left out, and the others counted
/// anew from zero.
pub proof fn lemma_sum_starts(f: spec_fn(int) -> int, g: spec_fn(int) -> int, d: int, n: int)
    requires
        0 <= d,
        0 <= n,
        forall|i: int| 0 <= i < d ==> #[trigger] f(i) == 0,
        forall|j: int| 0 <= j < n ==> #[trigger] g(j) == f(d + j),
    ensures
        sum(f, d + n) == sum(g, n),
{
    lemma_sum_splits(f, g, d, n);
    lemma_sum_of_zeros(f, d);
}

/// A sum over two counters can be taken in either order: `rows(i)` is the
/// sum of `h(i, ·)` and `cols(j)` the sum of `h(·, j)`.
pub proof fn lemma_sum_swaps(
    h: spec_fn(int, int) -> int,
    rows: spec_fn(int) -> int,
    cols: spec_fn(int) -> int,
    n: int,
    m: int,
)
    requires
        0 <= n,
        0 <= m,
        forall|i: int| 0 <= i < n ==> #[trigger] rows(i) == sum(|j: int| h(i, j), m),
        forall|j: int| 0 <= j < m ==> #[trigger] cols(j) == sum(|i: int| h(i, j), n),
    ensures
        sum(rows, n) == sum(cols, m),
    decreases n,
{
    if n == 0 {
        assert forall|j: int| 0 <= j < m implies #[trigger] cols(j) == 0 by {
            assert(sum(|i: int| h(i, j), 0) == 0);
        }
        lemma_sum_of_zeros(cols, m);
    } else {
        let shorter = |j: int| sum(|i: int| h(i, j), n - 1);
        let last = |j: int| h(n - 1, j);
        lemma_sum_swaps(h, rows, shorter, n - 1, m);
        assert forall|j: int| 0 <= j < m implies #[trigger] cols(j) == shorter(j) + last(j) by {
            assert(sum(|i: int| h(i, j), n) == sum(|i: int| h(i, j), n - 1) + h(n - 1, j));
        }
        lemma_sum_adds(shorter, last, cols, m);
        assert(rows(n - 1) == sum(last, m)) by {
            lemma_sum_agrees(|j: int| h(n - 1, j), last, m);
        }
    }
}

} // verus!
