//! Shared machinery for rolling-window indicators: the window sum, the
//! bound every indicator input must respect, and the lemmas that keep the
//! sliding sums exact and in range.

use vstd::prelude::*;
use crate::fixed::tdiv;

verus! {

/// Largest magnitude an indicator input value may have: four times the
/// largest valid price, so that differences of prices, true ranges and
/// typical prices all stay admissible.
pub const VAL_CAP: i64 = 40_000_000_000_000;

/// Longest accepted indicator input.
pub const MAX_LEN: usize = 1_000_000;

/// Every value of the series lies within the indicator input bound.
pub open spec fn bounded_vals(s: Seq<i64>) -> bool {
    forall|k: int| 0 <= k < s.len() ==> -VAL_CAP <= #[trigger] s[k] <= VAL_CAP
}

/// Sum of `ps[lo..hi]`.
pub open spec fn window_sum(ps: Seq<int>, lo: int, hi: int) -> int
    decreases hi - lo,
{
    if lo >= hi {
        0
    } else {
        window_sum(ps, lo, hi - 1) + ps[hi - 1]
    }
}

/// The window sum can be peeled from the front as well as from the back.
pub proof fn lemma_window_sum_front(ps: Seq<int>, lo: int, hi: int)
    requires
        lo < hi,
    ensures
        window_sum(ps, lo, hi) == ps[lo] + window_sum(ps, lo + 1, hi),
    decreases hi - lo,
{
    if lo + 1 < hi {
        lemma_window_sum_front(ps, lo, hi - 1);
        assert(window_sum(ps, lo + 1, hi) == window_sum(ps, lo + 1, hi - 1) + ps[hi - 1]);
    } else {
        assert(window_sum(ps, lo, hi) == window_sum(ps, lo, hi - 1) + ps[hi - 1]);
        assert(window_sum(ps, lo, lo) == 0);
        assert(window_sum(ps, lo + 1, hi) == 0);
    }
}

/// A window sum over values bounded by `c` is bounded by the window length
/// times `c`.
pub proof fn lemma_window_sum_bound(ps: Seq<int>, lo: int, hi: int, c: int)
    requires
        0 <= lo <= hi <= ps.len(),
        c >= 0,
        forall|k: int| 0 <= k < ps.len() ==> -c <= #[trigger] ps[k] <= c,
    ensures
        -((hi - lo) * c) <= window_sum(ps, lo, hi) <= (hi - lo) * c,
    decreases hi - lo,
{
    if lo < hi {
        lemma_window_sum_bound(ps, lo, hi - 1, c);
        assert((hi - 1 - lo) * c + c == (hi - lo) * c) by (nonlinear_arith);
    }
}

/// Largest value of `ps[lo..hi]`; zero for an empty window.
pub open spec fn window_max(ps: Seq<int>, lo: int, hi: int) -> int
    decreases hi - lo,
{
    if lo >= hi {
        0
    } else if lo + 1 == hi {
        ps[lo]
    } else {
        let m = window_max(ps, lo, hi - 1);
        if ps[hi - 1] > m {
            ps[hi - 1]
        } else {
            m
        }
    }
}

/// Smallest value of `ps[lo..hi]`; zero for an empty window.
pub open spec fn window_min(ps: Seq<int>, lo: int, hi: int) -> int
    decreases hi - lo,
{
    if lo >= hi {
        0
    } else if lo + 1 == hi {
        ps[lo]
    } else {
        let m = window_min(ps, lo, hi - 1);
        if ps[hi - 1] < m {
            ps[hi - 1]
        } else {
            m
        }
    }
}

/// The extremes of a non-empty window of bounded values are bounded.
pub proof fn lemma_window_extremes_bound(ps: Seq<int>, lo: int, hi: int, c: int)
    requires
        0 <= lo < hi <= ps.len(),
        c >= 0,
        forall|k: int| 0 <= k < ps.len() ==> -c <= #[trigger] ps[k] <= c,
    ensures
        -c <= window_max(ps, lo, hi) <= c,
        -c <= window_min(ps, lo, hi) <= c,
        window_min(ps, lo, hi) <= window_max(ps, lo, hi),
    decreases hi - lo,
{
    if lo + 1 < hi {
        lemma_window_extremes_bound(ps, lo, hi - 1, c);
    }
}

} // verus!
