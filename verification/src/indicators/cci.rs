//! The commodity channel index: the typical price's deviation from its
//! window mean, scaled by the window's mean absolute deviation.

use vstd::prelude::*;
use crate::fixed::{SCALE, tdiv, sat_i64, div_i128, clamp_i64, lemma_tdiv_bound, lemma_tdiv_nonneg};
use crate::metrics::vals_of;
use super::window::{VAL_CAP, MAX_LEN};

verus! {

/// The typical price at index `i`: the truncating mean of high, low and
/// close.
pub open spec fn tp_at(hs: Seq<int>, ls: Seq<int>, cs: Seq<int>, i: int) -> int {
    tdiv(hs[i] + ls[i] + cs[i], 3)
}

/// Sum of the typical prices over `[lo, hi)`.
pub open spec fn tp_sum(hs: Seq<int>, ls: Seq<int>, cs: Seq<int>, lo: int, hi: int) -> int
    decreases hi - lo,
{
    if lo >= hi {
        0
    } else {
        tp_sum(hs, ls, cs, lo, hi - 1) + tp_at(hs, ls, cs, hi - 1)
    }
}

/// Sum of absolute deviations of the typical prices from `m` over `[lo, hi)`.
pub open spec fn tp_dev_sum(hs: Seq<int>, ls: Seq<int>, cs: Seq<int>, m: int, lo: int, hi: int) -> int
    decreases hi - lo,
{
    if lo >= hi {
        0
    } else {
        let d = tp_at(hs, ls, cs, hi - 1) - m;
        tp_dev_sum(hs, ls, cs, m, lo, hi - 1) + if d >= 0 { d } else { -d }
    }
}

/// The commodity channel index at index `i >= p`: the current typical
/// price's deviation from the window mean, over `0.015` times the mean
/// absolute deviation; zero while warm or when the deviation vanishes.
pub open spec fn cci_at(hs: Seq<int>, ls: Seq<int>, cs: Seq<int>, p: int, i: int) -> int {
    if i < p {
        0
    } else {
        let m = tdiv(tp_sum(hs, ls, cs, i - p + 1, i + 1), p);
        let mad = tdiv(tp_dev_sum(hs, ls, cs, m, i - p + 1, i + 1), p);
        let denom = tdiv(150 * mad, SCALE as int);
        if denom <= 0 {
            0
        } else {
            sat_i64(tdiv((tp_at(hs, ls, cs, i) - m) * (SCALE as int), denom))
        }
    }
}

/// The commodity channel index over aligned high, low and close series:
/// zeros through the warm-up, the guarded deviation ratio afterwards.
pub fn cci(high: &Vec<i64>, low: &Vec<i64>, close: &Vec<i64>, period: usize) -> (out: Vec<i64>)
    requires
        high@.len() == low@.len(),
        high@.len() == close@.len(),
        high@.len() <= MAX_LEN,
        forall|k: int| 0 <= k < high@.len() ==> -(VAL_CAP / 2) <= #[trigger] high@[k] <= VAL_CAP / 2,
        forall|k: int| 0 <= k < low@.len() ==> -(VAL_CAP / 2) <= #[trigger] low@[k] <= VAL_CAP / 2,
        forall|k: int| 0 <= k < close@.len() ==> -(VAL_CAP / 2) <= #[trigger] close@[k] <= VAL_CAP / 2,
        period >= 1,
    ensures
        out@.len() == close@.len(),
        forall|k: int| 0 <= k < out@.len() ==> #[trigger] out@[k] as int
            == cci_at(vals_of(high@), vals_of(low@), vals_of(close@), period as int, k),
{
    let ghost hs = vals_of(high@);
    let ghost ls = vals_of(low@);
    let ghost cs = vals_of(close@);
    let n: usize = close.len();
    let mut out: Vec<i64> = Vec::new();
    let mut i: usize = 0;
    while i < n
        invariant
            0 <= i <= n,
            period >= 1,
            n == high@.len(),
            n == low@.len(),
            n == close@.len(),
            n <= MAX_LEN,
            hs == vals_of(high@),
            ls == vals_of(low@),
            cs == vals_of(close@),
            forall|k: int| 0 <= k < high@.len() ==> -(VAL_CAP / 2) <= #[trigger] high@[k] <= VAL_CAP / 2,
            forall|k: int| 0 <= k < low@.len() ==> -(VAL_CAP / 2) <= #[trigger] low@[k] <= VAL_CAP / 2,
            forall|k: int| 0 <= k < close@.len() ==> -(VAL_CAP / 2) <= #[trigger] close@[k] <= VAL_CAP / 2,
            out@.len() == i,
            forall|k: int| 0 <= k < i ==> #[trigger] out@[k] as int == cci_at(hs, ls, cs, period as int, k),
        decreases n - i,
    {
        if i < period {
            out.push(0);
        } else {
            let mut acc: i128 = 0;
            let mut t: usize = i + 1 - period;
            while t < i + 1
                invariant
                    i + 1 - period <= t <= i + 1,
                    i < n,
                    i >= period,
                    period >= 1,
                    n == high@.len(),
                    n == low@.len(),
                    n == close@.len(),
                    n <= MAX_LEN,
                    hs == vals_of(high@),
                    ls == vals_of(low@),
                    cs == vals_of(close@),
                    forall|k: int| 0 <= k < high@.len() ==> -(VAL_CAP / 2) <= #[trigger] high@[k] <= VAL_CAP / 2,
                    forall|k: int| 0 <= k < low@.len() ==> -(VAL_CAP / 2) <= #[trigger] low@[k] <= VAL_CAP / 2,
                    forall|k: int| 0 <= k < close@.len() ==> -(VAL_CAP / 2) <= #[trigger] close@[k] <= VAL_CAP / 2,
                    acc as int == tp_sum(hs, ls, cs, i + 1 - period, t as int),
                    -((t as int - (i + 1 - period)) * (2 * VAL_CAP as int)) <= acc as int
                        <= (t as int - (i + 1 - period)) * (2 * VAL_CAP as int),
                decreases i + 1 - t,
            {
                proof {
                    assert(hs[t as int] == high@[t as int] as int);
                    assert(ls[t as int] == low@[t as int] as int);
                    assert(cs[t as int] == close@[t as int] as int);
                    lemma_tdiv_bound(hs[t as int] + ls[t as int] + cs[t as int], 3, 2 * VAL_CAP as int);
                    assert((t as int - (i + 1 - period)) * (2 * VAL_CAP as int) + 2 * VAL_CAP as int
                        == (t as int + 1 - (i + 1 - period)) * (2 * VAL_CAP as int)) by (nonlinear_arith);
                    assert((t as int + 1 - (i + 1 - period)) * (2 * VAL_CAP as int)
                        <= 1_000_000 * (2 * VAL_CAP as int)) by (nonlinear_arith)
                        requires
                            0 <= t as int + 1 - (i + 1 - period) <= 1_000_000,
                    ;
                }
                let s3: i128 = high[t] as i128 + low[t] as i128 + close[t] as i128;
                let tp: i128 = div_i128(s3, 3);
                acc = acc + tp;
                t = t + 1;
            }
            let m: i64 = div_i128(acc, period as i128) as i64;
            proof {
                lemma_tdiv_bound(acc as int, period as int, 2 * VAL_CAP as int);
            }
            let mut dacc: i128 = 0;
            let mut u: usize = i + 1 - period;
            while u < i + 1
                invariant
                    i + 1 - period <= u <= i + 1,
                    i < n,
                    i >= period,
                    period >= 1,
                    n == high@.len(),
                    n == low@.len(),
                    n == close@.len(),
                    n <= MAX_LEN,
                    hs == vals_of(high@),
                    ls == vals_of(low@),
                    cs == vals_of(close@),
                    forall|k: int| 0 <= k < high@.len() ==> -(VAL_CAP / 2) <= #[trigger] high@[k] <= VAL_CAP / 2,
                    forall|k: int| 0 <= k < low@.len() ==> -(VAL_CAP / 2) <= #[trigger] low@[k] <= VAL_CAP / 2,
                    forall|k: int| 0 <= k < close@.len() ==> -(VAL_CAP / 2) <= #[trigger] close@[k] <= VAL_CAP / 2,
                    -(2 * VAL_CAP) <= m <= 2 * VAL_CAP,
                    m as int == tdiv(tp_sum(hs, ls, cs, i + 1 - period, i as int + 1), period as int),
                    dacc as int == tp_dev_sum(hs, ls, cs, m as int, i + 1 - period, u as int),
                    0 <= dacc as int <= (u as int - (i + 1 - period)) * (4 * VAL_CAP as int),
                decreases i + 1 - u,
            {
                proof {
                    assert(hs[u as int] == high@[u as int] as int);
                    assert(ls[u as int] == low@[u as int] as int);
                    assert(cs[u as int] == close@[u as int] as int);
                    lemma_tdiv_bound(hs[u as int] + ls[u as int] + cs[u as int], 3, 2 * VAL_CAP as int);
                    assert((u as int - (i + 1 - period)) * (4 * VAL_CAP as int) + 4 * VAL_CAP as int
                        == (u as int + 1 - (i + 1 - period)) * (4 * VAL_CAP as int)) by (nonlinear_arith);
                    assert((u as int + 1 - (i + 1 - period)) * (4 * VAL_CAP as int)
                        <= 1_000_000 * (4 * VAL_CAP as int)) by (nonlinear_arith)
                        requires
                            0 <= u as int + 1 - (i + 1 - period) <= 1_000_000,
                    ;
                }
                let s3: i128 = high[u] as i128 + low[u] as i128 + close[u] as i128;
                let tp: i128 = div_i128(s3, 3);
                let d: i128 = tp - m as i128;
                let ad: i128 = if d >= 0 { d } else { -d };
                dacc = dacc + ad;
                u = u + 1;
            }
            let mad: i64 = div_i128(dacc, period as i128) as i64;
            proof {
                lemma_tdiv_bound(dacc as int, period as int, 4 * VAL_CAP as int);
                lemma_tdiv_nonneg(dacc as int, period as int);
                assert(0 <= 150 * (mad as int) && 150 * (mad as int) <= (SCALE as int) * (4 * VAL_CAP as int));
                lemma_tdiv_bound(150 * (mad as int), SCALE as int, 4 * VAL_CAP as int);
                lemma_tdiv_nonneg(150 * (mad as int), SCALE as int);
            }
            let denom: i64 = div_i128(150 * mad as i128, SCALE as i128) as i64;
            if denom <= 0 {
                out.push(0);
            } else {
                proof {
                    assert(hs[i as int] == high@[i as int] as int);
                    assert(ls[i as int] == low@[i as int] as int);
                    assert(cs[i as int] == close@[i as int] as int);
                    lemma_tdiv_bound(hs[i as int] + ls[i as int] + cs[i as int], 3, 2 * VAL_CAP as int);
                    assert(-(1_600_000_000_000_000_000) <= (tp_at(hs, ls, cs, i as int) - m as int) * (SCALE as int)
                        && (tp_at(hs, ls, cs, i as int) - m as int) * (SCALE as int) <= 1_600_000_000_000_000_000)
                        by (nonlinear_arith)
                        requires
                            -(4 * VAL_CAP as int) <= tp_at(hs, ls, cs, i as int) - m as int <= 4 * VAL_CAP as int,
                            VAL_CAP as int == 40_000_000_000_000,
                            SCALE as int == 10_000,
                    ;
                }
                let s3: i128 = high[i] as i128 + low[i] as i128 + close[i] as i128;
                let tp: i128 = div_i128(s3, 3);
                let num: i128 = (tp - m as i128) * SCALE as i128;
                let v: i64 = clamp_i64(div_i128(num, denom as i128));
                out.push(v);
            }
        }
        i = i + 1;
    }
    out
}

/// The channel signal at index `i`: a buy on a drop below minus one
/// hundred, a sell on a rise above plus one hundred.
pub open spec fn cci_signal_at(vs: Seq<int>, i: int) -> int {
    if i < 1 {
        0
    } else if vs[i] < -(100 * SCALE as int) && vs[i - 1] >= -(100 * SCALE as int) {
        1
    } else if vs[i] > 100 * SCALE as int && vs[i - 1] <= 100 * SCALE as int {
        -1
    } else {
        0
    }
}

/// Threshold-crossing signals from a commodity channel index series.
pub fn cci_signals(cci_values: &Vec<i64>) -> (out: Vec<i32>)
    ensures
        out@.len() == cci_values@.len(),
        forall|k: int| 0 <= k < out@.len() ==> #[trigger] out@[k] as int
            == cci_signal_at(vals_of(cci_values@), k),
{
    let ghost vs = vals_of(cci_values@);
    let n: usize = cci_values.len();
    let mut out: Vec<i32> = Vec::new();
    if n == 0 {
        return out;
    }
    out.push(0);
    let mut i: usize = 1;
    while i < n
        invariant
            1 <= i <= n,
            n == cci_values@.len(),
            vs == vals_of(cci_values@),
            out@.len() == i,
            forall|k: int| 0 <= k < i ==> #[trigger] out@[k] as int == cci_signal_at(vs, k),
        decreases n - i,
    {
        proof {
            assert(vs[i as int] == cci_values@[i as int] as int);
            assert(vs[i as int - 1] == cci_values@[i as int - 1] as int);
        }
        let v: i64 = cci_values[i];
        let pv: i64 = cci_values[i - 1];
        let sig: i32 = if v < -(100 * SCALE) && pv >= -(100 * SCALE) {
            1
        } else if v > 100 * SCALE && pv <= 100 * SCALE {
            -1
        } else {
            0
        };
        out.push(sig);
        i = i + 1;
    }
    out
}

} // verus!
