//! The Ichimoku system: conversion and base midlines, the two leading
//! spans, and the lagging close.

use vstd::prelude::*;
use crate::fixed::{tdiv, div_i128, lemma_tdiv_bound};
use crate::metrics::vals_of;
use super::window::{VAL_CAP, MAX_LEN, bounded_vals, window_max, window_min, lemma_window_extremes_bound};

verus! {

/// The midline at index `i` for period `p`: the high itself through the
/// warm-up, then the truncating mean of the window's highest high and
/// lowest low.
pub open spec fn mid_at(hs: Seq<int>, ls: Seq<int>, p: int, i: int) -> int {
    if i + 1 < p {
        hs[i]
    } else {
        tdiv(window_max(hs, i - p + 1, i + 1) + window_min(ls, i - p + 1, i + 1), 2)
    }
}

/// The lagging close at index `i`: the close `lag` bars back, or the
/// current close through the warm-up.
pub open spec fn chikou_at(cs: Seq<int>, lag: int, i: int) -> int {
    if i >= lag {
        cs[i - lag]
    } else {
        cs[i]
    }
}

/// The midline series over aligned highs and lows.
fn mid_series(high: &Vec<i64>, low: &Vec<i64>, period: usize) -> (out: Vec<i64>)
    requires
        high@.len() == low@.len(),
        high@.len() <= MAX_LEN,
        bounded_vals(high@),
        bounded_vals(low@),
        period >= 1,
    ensures
        out@.len() == high@.len(),
        forall|k: int| 0 <= k < out@.len() ==> #[trigger] out@[k] as int
            == mid_at(vals_of(high@), vals_of(low@), period as int, k),
        bounded_vals(out@),
{
    let ghost hs = vals_of(high@);
    let ghost ls = vals_of(low@);
    let n: usize = high.len();
    let mut out: Vec<i64> = Vec::new();
    let mut i: usize = 0;
    while i < n
        invariant
            0 <= i <= n,
            period >= 1,
            n == high@.len(),
            n == low@.len(),
            n <= MAX_LEN,
            hs == vals_of(high@),
            ls == vals_of(low@),
            bounded_vals(high@),
            bounded_vals(low@),
            out@.len() == i,
            forall|k: int| 0 <= k < i ==> #[trigger] out@[k] as int == mid_at(hs, ls, period as int, k),
            bounded_vals(out@),
        decreases n - i,
    {
        proof {
            assert(hs[i as int] == high@[i as int] as int);
        }
        if i + 1 >= period {
            let mut wmax: i64 = high[i + 1 - period];
            let mut wmin: i64 = low[i + 1 - period];
            proof {
                assert(hs[i + 1 - period] == high@[i + 1 - period] as int);
                assert(ls[i + 1 - period] == low@[i + 1 - period] as int);
            }
            let mut t: usize = i + 2 - period;
            while t < i + 1
                invariant
                    i + 2 - period <= t <= i + 1,
                    i < n,
                    i + 1 >= period,
                    period >= 1,
                    n == high@.len(),
                    n == low@.len(),
                    hs == vals_of(high@),
                    ls == vals_of(low@),
                    bounded_vals(high@),
                    bounded_vals(low@),
                    wmax as int == window_max(hs, i + 1 - period, t as int),
                    wmin as int == window_min(ls, i + 1 - period, t as int),
                decreases i + 1 - t,
            {
                proof {
                    assert(hs[t as int] == high@[t as int] as int);
                    assert(ls[t as int] == low@[t as int] as int);
                }
                if high[t] > wmax {
                    wmax = high[t];
                }
                if low[t] < wmin {
                    wmin = low[t];
                }
                t = t + 1;
            }
            proof {
                lemma_window_extremes_bound(hs, i + 1 - period, i as int + 1, VAL_CAP as int);
                lemma_window_extremes_bound(ls, i + 1 - period, i as int + 1, VAL_CAP as int);
                lemma_tdiv_bound(wmax as int + wmin as int, 2, VAL_CAP as int);
            }
            let m: i64 = div_i128(wmax as i128 + wmin as i128, 2) as i64;
            out.push(m);
        } else {
            out.push(high[i]);
        }
        i = i + 1;
    }
    out
}

/// Ichimoku: `(tenkan, kijun, span_a, span_b, chikou)` — the conversion and
/// base midlines, their mean as the first leading span, the midline over
/// twice the lag as the second, and the lagging close.
pub fn ichimoku(high: &Vec<i64>, low: &Vec<i64>, close: &Vec<i64>,
    conv_period: usize, base_period: usize, lag_period: usize)
    -> (out: (Vec<i64>, Vec<i64>, Vec<i64>, Vec<i64>, Vec<i64>))
    requires
        high@.len() == low@.len(),
        high@.len() == close@.len(),
        high@.len() <= MAX_LEN,
        bounded_vals(high@),
        bounded_vals(low@),
        bounded_vals(close@),
        conv_period >= 1,
        base_period >= 1,
        1 <= lag_period <= MAX_LEN,
    ensures
        out.0@.len() == high@.len(),
        out.1@.len() == high@.len(),
        out.2@.len() == high@.len(),
        out.3@.len() == high@.len(),
        out.4@.len() == high@.len(),
        forall|k: int| 0 <= k < high@.len() ==> #[trigger] out.0@[k] as int
            == mid_at(vals_of(high@), vals_of(low@), conv_period as int, k),
        forall|k: int| 0 <= k < high@.len() ==> #[trigger] out.1@[k] as int
            == mid_at(vals_of(high@), vals_of(low@), base_period as int, k),
        forall|k: int| 0 <= k < high@.len() ==> #[trigger] out.2@[k] as int
            == tdiv(out.0@[k] + out.1@[k], 2),
        forall|k: int| 0 <= k < high@.len() ==> #[trigger] out.3@[k] as int
            == mid_at(vals_of(high@), vals_of(low@), 2 * lag_period as int, k),
        forall|k: int| 0 <= k < high@.len() ==> #[trigger] out.4@[k] as int
            == chikou_at(vals_of(close@), lag_period as int, k),
{
    let ghost cs = vals_of(close@);
    let n: usize = high.len();
    let tenkan: Vec<i64> = mid_series(high, low, conv_period);
    let kijun: Vec<i64> = mid_series(high, low, base_period);
    let span_b: Vec<i64> = mid_series(high, low, 2 * lag_period);
    let mut span_a: Vec<i64> = Vec::new();
    let mut i: usize = 0;
    while i < n
        invariant
            0 <= i <= n,
            n == tenkan@.len(),
            n == kijun@.len(),
            bounded_vals(tenkan@),
            bounded_vals(kijun@),
            span_a@.len() == i,
            forall|k: int| 0 <= k < i ==> #[trigger] span_a@[k] as int == tdiv(tenkan@[k] + kijun@[k], 2),
        decreases n - i,
    {
        proof {
            lemma_tdiv_bound(tenkan@[i as int] + kijun@[i as int], 2, VAL_CAP as int);
        }
        let v: i64 = div_i128(tenkan[i] as i128 + kijun[i] as i128, 2) as i64;
        span_a.push(v);
        i = i + 1;
    }
    let mut chikou: Vec<i64> = Vec::new();
    let mut j: usize = 0;
    while j < n
        invariant
            0 <= j <= n,
            n == close@.len(),
            cs == vals_of(close@),
            chikou@.len() == j,
            forall|k: int| 0 <= k < j ==> #[trigger] chikou@[k] as int == chikou_at(cs, lag_period as int, k),
        decreases n - j,
    {
        proof {
            assert(cs[j as int] == close@[j as int] as int);
            if j >= lag_period {
                assert(cs[j - lag_period] == close@[j - lag_period] as int);
            }
        }
        let v: i64 = if j >= lag_period {
            close[j - lag_period]
        } else {
            close[j]
        };
        chikou.push(v);
        j = j + 1;
    }
    (tenkan, kijun, span_a, span_b, chikou)
}

/// The cloud signal at index `i`: a buy above the cloud with the conversion
/// line over the base line, a sell below the cloud with it under.
pub open spec fn ichimoku_signal_at(cs: Seq<int>, tk: Seq<int>, kj: Seq<int>, sa: Seq<int>, sb: Seq<int>, i: int) -> int {
    if i < 1 || i >= sa.len() || i >= sb.len() {
        0
    } else {
        let cloud_high = if sa[i] >= sb[i] { sa[i] } else { sb[i] };
        let cloud_low = if sa[i] <= sb[i] { sa[i] } else { sb[i] };
        if cs[i] > cloud_high && tk[i] > kj[i] {
            1
        } else if cs[i] < cloud_low && tk[i] < kj[i] {
            -1
        } else {
            0
        }
    }
}

/// Cloud signals from the closes and the Ichimoku lines.
pub fn ichimoku_signals(close: &Vec<i64>, tenkan: &Vec<i64>, kijun: &Vec<i64>, ssa: &Vec<i64>, ssb: &Vec<i64>)
    -> (out: Vec<i32>)
    requires
        close@.len() == tenkan@.len(),
        close@.len() == kijun@.len(),
    ensures
        out@.len() == close@.len(),
        forall|k: int| 0 <= k < out@.len() ==> #[trigger] out@[k] as int
            == ichimoku_signal_at(vals_of(close@), vals_of(tenkan@), vals_of(kijun@),
                vals_of(ssa@), vals_of(ssb@), k),
{
    let ghost cs = vals_of(close@);
    let ghost tk = vals_of(tenkan@);
    let ghost kj = vals_of(kijun@);
    let ghost sa = vals_of(ssa@);
    let ghost sb = vals_of(ssb@);
    let n: usize = close.len();
    let mut out: Vec<i32> = Vec::new();
    if n == 0 {
        return out;
    }
    out.push(0);
    let mut i: usize = 1;
    while i < n
        invariant
            1 <= i <= n,
            n == close@.len(),
            n == tenkan@.len(),
            n == kijun@.len(),
            cs == vals_of(close@),
            tk == vals_of(tenkan@),
            kj == vals_of(kijun@),
            sa == vals_of(ssa@),
            sb == vals_of(ssb@),
            out@.len() == i,
            forall|k: int| 0 <= k < i ==> #[trigger] out@[k] as int
                == ichimoku_signal_at(cs, tk, kj, sa, sb, k),
        decreases n - i,
    {
        let sig: i32 = if i < ssa.len() && i < ssb.len() {
            proof {
                assert(cs[i as int] == close@[i as int] as int);
                assert(tk[i as int] == tenkan@[i as int] as int);
                assert(kj[i as int] == kijun@[i as int] as int);
                assert(sa[i as int] == ssa@[i as int] as int);
                assert(sb[i as int] == ssb@[i as int] as int);
            }
            let a: i64 = ssa[i];
            let b: i64 = ssb[i];
            let cloud_high: i64 = if a >= b { a } else { b };
            let cloud_low: i64 = if a <= b { a } else { b };
            if close[i] > cloud_high && tenkan[i] > kijun[i] {
                1
            } else if close[i] < cloud_low && tenkan[i] < kijun[i] {
                -1
            } else {
                0
            }
        } else {
            0
        };
        out.push(sig);
        i = i + 1;
    }
    out
}

} // verus!
