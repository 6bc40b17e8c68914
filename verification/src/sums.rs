//! Sums over ranges of integers and over rectangles.

use vstd::prelude::*;

verus! {

/// 1 where `b` holds and 0 where it does not.
pub open spec fn ind(b: bool) -> int {
    if b {
        1
    } else {
        0
    }
}

/// The sum of `f(i)` over `lo <= i < hi`.
pub open spec fn sum(lo: int, hi: int, f: spec_fn(int) -> int) -> int
    decreases hi - lo,
{
    if hi <= lo {
        0
    } else {
        sum(lo, hi - 1, f) + f(hi - 1)
    }
}

/// The sum of `f(x, y)` over the columns `0 <= x < w` of row `y`.
pub open spec fn row_sum(w: int, f: spec_fn(int, int) -> int, y: int) -> int {
    sum(0, w, |x: int| f(x, y))
}

/// The sum of `f(x, y)` over the rows `0 <= y < h` of column `x`.
pub open spec fn column_sum(h: int, f: spec_fn(int, int) -> int, x: int) -> int {
    sum(0, h, |y: int| f(x, y))
}

/// The sum of `f` over the `w` by `h` rectangle, taken row by row.
pub open spec fn by_rows(w: int, h: int, f: spec_fn(int, int) -> int) -> int {
    sum(0, h, |y: int| row_sum(w, f, y))
}

/// The sum of `f` over the `w` by `h` rectangle, taken column by column.
pub open spec fn by_columns(w: int, h: int, f: spec_fn(int, int) -> int) -> int {
    sum(0, w, |x: int| column_sum(h, f, x))
}

/// Sums of pointwise equal functions are equal.
pub proof fn lemma_sum_eq(lo: int, hi: int, f: spec_fn(int) -> int, g: spec_fn(int) -> int)
    requires
        forall|i: int| lo <= i < hi ==> #[trigger] f(i) == g(i),
    ensures
        sum(lo, hi, f) == sum(lo, hi, g),
    decreases hi - lo,
{
    if hi > lo {
        lemma_sum_eq(lo, hi - 1, f, g);
    }
}

/// A range splits at any point inside it.
pub proof fn lemma_sum_split(lo: int, mid: int, hi: int, f: spec_fn(int) -> int)
    requires
        lo <= mid <= hi,
    ensures
        sum(lo, hi, f) == sum(lo, mid, f) + sum(mid, hi, f),
    decreases hi - mid,
{
    if hi > mid {
        lemma_sum_split(lo, mid, hi - 1, f);
    }
}

/// A sum of values between 0 and `b` lies between 0 and `b` times the length.
pub proof fn lemma_sum_bounds(lo: int, hi: int, f: spec_fn(int) -> int, b: int)
    requires
        lo <= hi,
        forall|i: int| lo <= i < hi ==> 0 <= #[trigger] f(i) <= b,
    ensures
        0 <= sum(lo, hi, f) <= b * (hi - lo),
    decreases hi - lo,
{
    if hi > lo {
        lemma_sum_bounds(lo, hi - 1, f, b);
        assert(b * (hi - lo) == b * (hi - 1 - lo) + b) by (nonlinear_arith);
    } else {
        assert(b * (hi - lo) == 0) by (nonlinear_arith)
            requires
                hi == lo,
        ;
    }
}

/// A sum of one constant is the constant times the length.
pub proof fn lemma_sum_constant(lo: int, hi: int, f: spec_fn(int) -> int, c: int)
    requires
        lo <= hi,
        forall|i: int| lo <= i < hi ==> #[trigger] f(i) == c,
    ensures
        sum(lo, hi, f) == c * (hi - lo),
    decreases hi - lo,
{
    if hi > lo {
        lemma_sum_constant(lo, hi - 1, f, c);
        assert(c * (hi - lo) == c * (hi - 1 - lo) + c) by (nonlinear_arith);
    } else {
        assert(c * (hi - lo) == 0) by (nonlinear_arith)
            requires
                hi == lo,
        ;
    }
}

/// The sum of a pointwise sum is the sum of the sums.
pub proof fn lemma_sum_add(
    lo: int,
    hi: int,
    f: spec_fn(int) -> int,
    g: spec_fn(int) -> int,
    s: spec_fn(int) -> int,
)
    requires
        forall|i: int| lo <= i < hi ==> #[trigger] s(i) == f(i) + g(i),
    ensures
        sum(lo, hi, s) == sum(lo, hi, f) + sum(lo, hi, g),
    decreases hi - lo,
{
    if hi > lo {
        lemma_sum_add(lo, hi - 1, f, g, s);
    }
}

/// Moving the range by `s` and the function back by `s` keeps the sum.
pub proof fn lemma_sum_shift(
    lo: int,
    hi: int,
    s: int,
    f: spec_fn(int) -> int,
    g: spec_fn(int) -> int,
)
    requires
        forall|i: int| lo <= i < hi ==> #[trigger] g(i) == f(i + s),
    ensures
        sum(lo, hi, g) == sum(lo + s, hi + s, f),
    decreases hi - lo,
{
    if hi > lo {
        lemma_sum_shift(lo, hi - 1, s, f, g);
    }
}

/// The sum of the elements of a sequence.
pub open spec fn seq_sum(s: Seq<int>) -> int {
    sum(0, s.len() as int, |i: int| s[i])
}

/// Replacing one element changes the sum by the difference.
pub proof fn lemma_seq_sum_update(s: Seq<int>, k: int, v: int)
    requires
        0 <= k < s.len(),
    ensures
        seq_sum(s.update(k, v)) == seq_sum(s) + v - s[k],
{
    let t = s.update(k, v);
    let f = |i: int| s[i];
    let g = |i: int| t[i];
    lemma_sum_split(0, k, s.len() as int, f);
    lemma_sum_split(0, k, s.len() as int, g);
    lemma_sum_split(k, k + 1, s.len() as int, f);
    lemma_sum_split(k, k + 1, s.len() as int, g);
    lemma_sum_eq(0, k, f, g);
    lemma_sum_eq(k + 1, s.len() as int, f, g);
    assert(sum(k, k + 1, f) == sum(k, k, f) + f(k));
    assert(sum(k, k + 1, g) == sum(k, k, g) + g(k));
}

/// A rectangle sums to the same value by rows and by columns.
pub proof fn lemma_by_rows_is_by_columns(w: int, h: int, f: spec_fn(int, int) -> int)
    ensures
        by_rows(w, h, f) == by_columns(w, h, f),
    decreases h,
{
    let cols_h = |x: int| column_sum(h, f, x);
    if h <= 0 {
        assert forall|x: int| 0 <= x < w implies #[trigger] cols_h(x) == 0 by {}
        if w >= 0 {
            lemma_sum_constant(0, w, cols_h, 0);
        }
    } else {
        lemma_by_rows_is_by_columns(w, h - 1, f);
        let cols_prev = |x: int| column_sum(h - 1, f, x);
        let top = |x: int| f(x, h - 1);
        assert forall|x: int| 0 <= x < w implies #[trigger] cols_h(x) == cols_prev(x) + top(x) by {}
        lemma_sum_add(0, w, cols_prev, top, cols_h);
        assert(sum(0, w, top) == row_sum(w, f, h - 1));
    }
}

} // verus!
