//! The KDJ stochastic oscillator: a smoothed raw stochastic value, its
//! rolling mean, and the J divergence line, all seeded at fifty.

use vstd::prelude::*;
use crate::fixed::{SCALE, tdiv, sat_i64, div_i128, clamp_i64, lemma_tdiv_bound};
use crate::metrics::vals_of;
use super::window::{VAL_CAP, MAX_LEN, bounded_vals, window_max, window_min, lemma_window_extremes_bound};

verus! {

/// The seed reading: fifty, in fixed point.
pub const KDJ_NEUTRAL: i64 = 500_000;

/// The smoothed K value at index `i`: the seed through the warm-up and over
/// a flat window, otherwise the raw stochastic value folded into the
/// previous K, saturating at the representable range.
pub open spec fn k_at(hs: Seq<int>, ls: Seq<int>, cs: Seq<int>, kp: int, i: int) -> int
    decreases i,
{
    if i < kp {
        KDJ_NEUTRAL as int
    } else {
        let hi = window_max(hs, i - kp, i);
        let lo = window_min(ls, i - kp, i);
        if hi > lo {
            let rsv = sat_i64(tdiv((cs[i] - lo) * (100 * SCALE as int), hi - lo));
            sat_i64(tdiv(rsv + (kp - 1) * k_at(hs, ls, cs, kp, i - 1), kp))
        } else {
            KDJ_NEUTRAL as int
        }
    }
}

/// Sum of the K values over `[lo, hi)`.
pub open spec fn k_sum(hs: Seq<int>, ls: Seq<int>, cs: Seq<int>, kp: int, lo: int, hi: int) -> int
    decreases hi - lo,
{
    if lo >= hi {
        0
    } else {
        k_sum(hs, ls, cs, kp, lo, hi - 1) + k_at(hs, ls, cs, kp, hi - 1)
    }
}

/// The D value at index `i`: the seed until a full D window of K values is
/// available, then their truncating mean.
pub open spec fn d_at(hs: Seq<int>, ls: Seq<int>, cs: Seq<int>, kp: int, dp: int, i: int) -> int {
    if i < kp || i < kp + dp - 1 {
        KDJ_NEUTRAL as int
    } else {
        tdiv(k_sum(hs, ls, cs, kp, i - dp + 1, i + 1), dp)
    }
}

/// The J value at index `i`: three K minus two D, saturating; the seed
/// through the warm-up.
pub open spec fn j_at(hs: Seq<int>, ls: Seq<int>, cs: Seq<int>, kp: int, dp: int, i: int) -> int {
    if i < kp {
        KDJ_NEUTRAL as int
    } else {
        sat_i64(3 * k_at(hs, ls, cs, kp, i) - 2 * d_at(hs, ls, cs, kp, dp, i))
    }
}

/// KDJ: the `(K, D, J)` vectors over aligned high, low and close series.
pub fn kdj(high: &Vec<i64>, low: &Vec<i64>, close: &Vec<i64>, k_period: usize, d_period: usize)
    -> (out: (Vec<i64>, Vec<i64>, Vec<i64>))
    requires
        high@.len() == low@.len(),
        high@.len() == close@.len(),
        high@.len() <= MAX_LEN,
        bounded_vals(high@),
        bounded_vals(low@),
        bounded_vals(close@),
        k_period >= 1,
        d_period >= 1,
    ensures
        out.0@.len() == close@.len(),
        out.1@.len() == close@.len(),
        out.2@.len() == close@.len(),
        forall|k: int| 0 <= k < close@.len() ==> #[trigger] out.0@[k] as int
            == k_at(vals_of(high@), vals_of(low@), vals_of(close@), k_period as int, k),
        forall|k: int| 0 <= k < close@.len() ==> #[trigger] out.1@[k] as int
            == d_at(vals_of(high@), vals_of(low@), vals_of(close@), k_period as int, d_period as int, k),
        forall|k: int| 0 <= k < close@.len() ==> #[trigger] out.2@[k] as int
            == j_at(vals_of(high@), vals_of(low@), vals_of(close@), k_period as int, d_period as int, k),
{
    let ghost hs = vals_of(high@);
    let ghost ls = vals_of(low@);
    let ghost cs = vals_of(close@);
    let n: usize = close.len();
    let mut kv: Vec<i64> = Vec::new();
    let mut dv: Vec<i64> = Vec::new();
    let mut jv: Vec<i64> = Vec::new();
    let mut i: usize = 0;
    while i < n
        invariant
            0 <= i <= n,
            k_period >= 1,
            d_period >= 1,
            n == high@.len(),
            n == low@.len(),
            n == close@.len(),
            n <= MAX_LEN,
            hs == vals_of(high@),
            ls == vals_of(low@),
            cs == vals_of(close@),
            bounded_vals(high@),
            bounded_vals(low@),
            bounded_vals(close@),
            kv@.len() == i,
            dv@.len() == i,
            jv@.len() == i,
            forall|k: int| 0 <= k < i ==> #[trigger] kv@[k] as int == k_at(hs, ls, cs, k_period as int, k),
            forall|k: int| 0 <= k < i ==> #[trigger] dv@[k] as int
                == d_at(hs, ls, cs, k_period as int, d_period as int, k),
            forall|k: int| 0 <= k < i ==> #[trigger] jv@[k] as int
                == j_at(hs, ls, cs, k_period as int, d_period as int, k),
        decreases n - i,
    {
        let kval: i64 = if i < k_period {
            KDJ_NEUTRAL
        } else {
            let mut wmax: i64 = high[i - k_period];
            let mut wmin: i64 = low[i - k_period];
            let mut t: usize = i - k_period + 1;
            proof {
                assert(hs[i - k_period] == high@[i - k_period] as int);
                assert(ls[i - k_period] == low@[i - k_period] as int);
            }
            while t < i
                invariant
                    i - k_period + 1 <= t <= i,
                    i < n,
                    i >= k_period,
                    k_period >= 1,
                    n == high@.len(),
                    n == low@.len(),
                    hs == vals_of(high@),
                    ls == vals_of(low@),
                    bounded_vals(high@),
                    bounded_vals(low@),
                    wmax as int == window_max(hs, i - k_period, t as int),
                    wmin as int == window_min(ls, i - k_period, t as int),
                decreases i - t,
            {
                proof {
                    assert(hs[t as int] == high@[t as int] as int);
                    assert(ls[t as int] == low@[t as int] as int);
                }
                if high[t] > wmax {
                    wmax = high[t];
                }
                if low[t] < wmin {
                    wmin = low[t];
                }
                t = t + 1;
            }
            if wmax > wmin {
                proof {
                    assert(cs[i as int] == close@[i as int] as int);
                    lemma_window_extremes_bound(hs, i - k_period, i as int, VAL_CAP as int);
                    lemma_window_extremes_bound(ls, i - k_period, i as int, VAL_CAP as int);
                    assert(-(10_000_000_000_000_000_000_000_000) <= (cs[i as int] - wmin as int) * (100 * SCALE as int)
                        && (cs[i as int] - wmin as int) * (100 * SCALE as int)
                            <= 10_000_000_000_000_000_000_000_000) by (nonlinear_arith)
                        requires
                            -(2 * VAL_CAP as int) <= cs[i as int] - wmin as int <= 2 * VAL_CAP as int,
                            VAL_CAP as int == 40_000_000_000_000,
                            SCALE as int == 10_000,
                    ;
                }
                let num: i128 = (close[i] as i128 - wmin as i128) * (100 * SCALE as i128);
                let rsv: i64 = clamp_i64(div_i128(num, wmax as i128 - wmin as i128));
                let prev_k: i64 = kv[i - 1];
                proof {
                    assert(-(10_000_000_000_000_000_000_000_000) <= (k_period as int - 1) * (prev_k as int)
                        && (k_period as int - 1) * (prev_k as int) <= 10_000_000_000_000_000_000_000_000)
                        by (nonlinear_arith)
                        requires
                            0 <= k_period as int - 1 <= 1_000_000,
                            i64::MIN <= prev_k as int <= i64::MAX,
                    ;
                }
                let num2: i128 = rsv as i128 + (k_period as i128 - 1) * (prev_k as i128);
                clamp_i64(div_i128(num2, k_period as i128))
            } else {
                KDJ_NEUTRAL
            }
        };
        kv.push(kval);
        let dval: i64 = if i < k_period || i + 1 - k_period < d_period {
            KDJ_NEUTRAL
        } else {
            let mut acc: i128 = 0;
            let mut t: usize = i + 1 - d_period;
            while t < i + 1
                invariant
                    i + 1 - d_period <= t <= i + 1,
                    i < n,
                    n <= MAX_LEN,
                    k_period >= 1,
                    d_period >= 1,
                    i + 1 >= k_period + d_period,
                    kv@.len() == i + 1,
                    forall|k: int| 0 <= k < i + 1 ==> #[trigger] kv@[k] as int == k_at(hs, ls, cs, k_period as int, k),
                    acc as int == k_sum(hs, ls, cs, k_period as int, i + 1 - d_period, t as int),
                    -((t as int - (i + 1 - d_period)) * (i64::MAX as int + 1)) <= acc as int
                        <= (t as int - (i + 1 - d_period)) * (i64::MAX as int),
                decreases i + 1 - t,
            {
                proof {
                    assert((t as int - (i + 1 - d_period)) * (i64::MAX as int) + (i64::MAX as int)
                        == (t as int + 1 - (i + 1 - d_period)) * (i64::MAX as int)) by (nonlinear_arith);
                    assert((t as int - (i + 1 - d_period)) * (i64::MAX as int + 1) + (i64::MAX as int + 1)
                        == (t as int + 1 - (i + 1 - d_period)) * (i64::MAX as int + 1)) by (nonlinear_arith);
                    assert((t as int + 1 - (i + 1 - d_period)) * (i64::MAX as int + 1)
                        <= 1_000_000 * (i64::MAX as int + 1)) by (nonlinear_arith)
                        requires
                            0 <= t as int + 1 - (i + 1 - d_period) <= 1_000_000,
                    ;
                }
                acc = acc + kv[t] as i128;
                t = t + 1;
            }
            proof {
                crate::fixed::lemma_tdiv_upper(acc as int, d_period as int, i64::MAX as int);
                crate::fixed::lemma_tdiv_lower(acc as int, d_period as int, i64::MAX as int + 1);
            }
            let m: i128 = div_i128(acc, d_period as i128);
            clamp_i64(m)
        };
        dv.push(dval);
        let jval: i64 = if i < k_period {
            KDJ_NEUTRAL
        } else {
            clamp_i64(3 * kval as i128 - 2 * dval as i128)
        };
        jv.push(jval);
        i = i + 1;
    }
    (kv, dv, jv)
}

/// The KDJ crossover signal at index `i`: a buy when K crosses above D
/// while both are above the oversold line, a sell when K crosses below D
/// while both are below the overbought line.
pub open spec fn kdj_signal_at(ks: Seq<int>, ds: Seq<int>, oversold: int, overbought: int, i: int) -> int {
    if i < 1 {
        0
    } else if ks[i] > oversold && ds[i] > oversold && ks[i] > ds[i] && ks[i - 1] <= ds[i - 1] {
        1
    } else if ks[i] < overbought && ds[i] < overbought && ks[i] < ds[i] && ks[i - 1] >= ds[i - 1] {
        -1
    } else {
        0
    }
}

/// Crossover signals of K against D with threshold gates.
pub fn kdj_signals(k_values: &Vec<i64>, d_values: &Vec<i64>, oversold: i64, overbought: i64)
    -> (out: Vec<i32>)
    requires
        k_values@.len() == d_values@.len(),
    ensures
        out@.len() == k_values@.len(),
        forall|k: int| 0 <= k < out@.len() ==> #[trigger] out@[k] as int
            == kdj_signal_at(vals_of(k_values@), vals_of(d_values@), oversold as int, overbought as int, k),
{
    let ghost ks = vals_of(k_values@);
    let ghost ds = vals_of(d_values@);
    let n: usize = k_values.len();
    let mut out: Vec<i32> = Vec::new();
    if n == 0 {
        return out;
    }
    out.push(0);
    let mut i: usize = 1;
    while i < n
        invariant
            1 <= i <= n,
            n == k_values@.len(),
            n == d_values@.len(),
            ks == vals_of(k_values@),
            ds == vals_of(d_values@),
            out@.len() == i,
            forall|k: int| 0 <= k < i ==> #[trigger] out@[k] as int
                == kdj_signal_at(ks, ds, oversold as int, overbought as int, k),
        decreases n - i,
    {
        proof {
            assert(ks[i as int] == k_values@[i as int] as int);
            assert(ds[i as int] == d_values@[i as int] as int);
            assert(ks[i as int - 1] == k_values@[i as int - 1] as int);
            assert(ds[i as int - 1] == d_values@[i as int - 1] as int);
        }
        let kv: i64 = k_values[i];
        let dv: i64 = d_values[i];
        let pk: i64 = k_values[i - 1];
        let pd: i64 = d_values[i - 1];
        let sig: i32 = if kv > oversold && dv > oversold && kv > dv && pk <= pd {
            1
        } else if kv < overbought && dv < overbought && kv < dv && pk >= pd {
            -1
        } else {
            0
        };
        out.push(sig);
        i = i + 1;
    }
    out
}

} // verus!
