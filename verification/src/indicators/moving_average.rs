//! Moving averages: simple, exponential, weighted and volume-weighted, and
//! the moving-average crossover signal.

use vstd::prelude::*;
use crate::fixed::{SCALE, tdiv, div_i128, lemma_tdiv_bound, lemma_tdiv_nonneg};
use crate::metrics::vals_of;
use super::window::{VAL_CAP, MAX_LEN, bounded_vals, window_sum, lemma_window_sum_front, lemma_window_sum_bound};

verus! {

/// The simple moving average at index `i`: the input itself through the
/// warm-up, then the truncating mean of the window of `p` values ending at
/// `i`.
pub open spec fn sma_at(ps: Seq<int>, p: int, i: int) -> int {
    if i < p {
        ps[i]
    } else {
        tdiv(window_sum(ps, i - p + 1, i + 1), p)
    }
}

/// Simple moving average with a sliding window. For an empty input or a
/// zero period the output is empty; otherwise it has the input's length,
/// repeats the input through the warm-up and is the exact truncating window
/// mean afterwards.
pub fn sma(prices: &Vec<i64>, period: usize) -> (out: Vec<i64>)
    requires
        prices@.len() <= MAX_LEN,
        bounded_vals(prices@),
    ensures
        prices@.len() == 0 || period == 0 ==> out@.len() == 0,
        prices@.len() > 0 && period > 0 ==> out@.len() == prices@.len(),
        prices@.len() > 0 && period > 0 ==> forall|k: int| 0 <= k < out@.len()
            ==> #[trigger] out@[k] as int == sma_at(vals_of(prices@), period as int, k),
        bounded_vals(out@),
{
    let ghost ps = vals_of(prices@);
    let n: usize = prices.len();
    let mut out: Vec<i64> = Vec::new();
    if n == 0 || period == 0 {
        return out;
    }
    let pad: usize = if period < n { period } else { n };
    let mut i: usize = 0;
    while i < pad
        invariant
            0 <= i <= pad,
            pad <= n,
            pad <= period,
            n == prices@.len(),
            ps == vals_of(prices@),
            bounded_vals(prices@),
            out@.len() == i,
            forall|k: int| 0 <= k < i ==> #[trigger] out@[k] == prices@[k],
            bounded_vals(out@),
        decreases pad - i,
    {
        out.push(prices[i]);
        i = i + 1;
    }
    if period < n {
        let mut sum: i128 = 0;
        let mut k: usize = 0;
        while k < period
            invariant
                0 <= k <= period,
                period < n,
                n == prices@.len(),
                n <= MAX_LEN,
                ps == vals_of(prices@),
                bounded_vals(prices@),
                sum as int == window_sum(ps, 0, k as int),
                -(k as int * (VAL_CAP as int)) <= sum as int <= k as int * (VAL_CAP as int),
            decreases period - k,
        {
            proof {
                assert(ps[k as int] == prices@[k as int] as int);
                assert((k as int + 1) * (VAL_CAP as int) == k as int * (VAL_CAP as int) + VAL_CAP as int)
                    by (nonlinear_arith);
            }
            sum = sum + prices[k] as i128;
            k = k + 1;
        }
        let mut j: usize = period;
        while j < n
            invariant
                period <= j <= n,
                period >= 1,
                period < n,
                n == prices@.len(),
                n <= MAX_LEN,
                ps == vals_of(prices@),
                bounded_vals(prices@),
                out@.len() == j,
                forall|k2: int| 0 <= k2 < period ==> #[trigger] out@[k2] == prices@[k2],
                forall|k2: int| period <= k2 < j ==> #[trigger] out@[k2] as int == sma_at(ps, period as int, k2),
                bounded_vals(out@),
                sum as int == window_sum(ps, j - period, j as int),
                -(period as int * (VAL_CAP as int)) <= sum as int <= period as int * (VAL_CAP as int),
            decreases n - j,
        {
            proof {
                assert(ps[j as int] == prices@[j as int] as int);
                assert(ps[j - period] == prices@[j - period] as int);
                lemma_window_sum_front(ps, j - period, j as int);
                lemma_window_sum_bound(ps, j as int - period + 1, j as int + 1, VAL_CAP as int);
            }
            sum = sum + prices[j] as i128 - prices[j - period] as i128;
            let m: i128 = div_i128(sum, period as i128);
            proof {
                lemma_tdiv_bound(sum as int, period as int, VAL_CAP as int);
            }
            out.push(m as i64);
            j = j + 1;
        }
    }
    out
}

/// The exponential moving average at index `i`, for a fixed-point smoothing
/// factor `m`: seeded with the first input, then moved toward each input by
/// the truncating fraction `m` of the gap.
pub open spec fn ema_at(ps: Seq<int>, m: int, i: int) -> int
    decreases i,
{
    if i <= 0 {
        ps[0]
    } else {
        let prev = ema_at(ps, m, i - 1);
        prev + tdiv((ps[i] - prev) * m, SCALE as int)
    }
}

/// The smoothing factor `2 / (period + 1)`, in fixed point.
pub open spec fn ema_factor(p: int) -> int {
    tdiv(2 * (SCALE as int), p + 1)
}

/// Exponential moving average. Empty for an empty input or a zero period;
/// otherwise the exact truncating recurrence seeded with the first input.
pub fn ema(prices: &Vec<i64>, period: usize) -> (out: Vec<i64>)
    requires
        prices@.len() <= MAX_LEN,
        bounded_vals(prices@),
    ensures
        prices@.len() == 0 || period == 0 ==> out@.len() == 0,
        prices@.len() > 0 && period > 0 ==> out@.len() == prices@.len(),
        prices@.len() > 0 && period > 0 ==> forall|k: int| 0 <= k < out@.len()
            ==> #[trigger] out@[k] as int == ema_at(vals_of(prices@), ema_factor(period as int), k),
        bounded_vals(out@),
{
    let ghost ps = vals_of(prices@);
    let n: usize = prices.len();
    let mut out: Vec<i64> = Vec::new();
    if n == 0 || period == 0 {
        return out;
    }
    let m: i64 = div_i128(2 * SCALE as i128, period as i128 + 1) as i64;
    proof {
        lemma_tdiv_nonneg(2 * (SCALE as int), period as int + 1);
        lemma_tdiv_bound(2 * (SCALE as int), period as int + 1, SCALE as int);
        assert((period as int + 1) * (SCALE as int) >= 2 * (SCALE as int)) by (nonlinear_arith)
            requires
                period as int >= 1,
                SCALE as int > 0,
        ;
    }
    let mut prev: i64 = prices[0];
    out.push(prev);
    let mut i: usize = 1;
    while i < n
        invariant
            1 <= i <= n,
            n == prices@.len(),
            n <= MAX_LEN,
            ps == vals_of(prices@),
            bounded_vals(prices@),
            0 <= (m as int) <= SCALE as int,
            m as int == ema_factor(period as int),
            out@.len() == i,
            prev as int == ema_at(ps, m as int, i as int - 1),
            -VAL_CAP <= prev <= VAL_CAP,
            forall|k: int| 0 <= k < i ==> #[trigger] out@[k] as int == ema_at(ps, m as int, k),
            bounded_vals(out@),
        decreases n - i,
    {
        proof {
            assert(ps[i as int] == prices@[i as int] as int);
        }
        let gap: i64 = prices[i] - prev;
        proof {
            if gap >= 0 {
                assert(gap as int * (m as int) <= (SCALE as int) * (gap as int)) by (nonlinear_arith)
                    requires
                        gap as int >= 0,
                        0 <= (m as int) <= SCALE as int,
                ;
                assert(gap as int * (m as int) >= 0) by (nonlinear_arith)
                    requires
                        gap as int >= 0,
                        m as int >= 0,
                ;
                lemma_tdiv_bound(gap as int * (m as int), SCALE as int, gap as int);
            } else {
                assert(-((SCALE as int) * (-(gap as int))) <= gap as int * (m as int) && gap as int * (m as int) <= 0)
                    by (nonlinear_arith)
                    requires
                        (gap as int) < 0,
                        0 <= (m as int) <= SCALE as int,
                ;
                lemma_tdiv_bound(gap as int * (m as int), SCALE as int, -(gap as int));
            }
        }
        let step128: i128 = (gap as i128) * (m as i128);
        let delta: i128 = div_i128(step128, SCALE as i128);
        let next: i64 = (prev as i128 + delta) as i64;
        out.push(next);
        prev = next;
        i = i + 1;
    }
    out
}

/// The weighted sum of the last `j` values ending at `i`, with weights
/// `p, p - 1, ...` from the newest back.
pub open spec fn wma_sum(ps: Seq<int>, p: int, i: int, j: int) -> int
    decreases j,
{
    if j <= 0 {
        0
    } else {
        wma_sum(ps, p, i, j - 1) + ps[i - (j - 1)] * (p - (j - 1))
    }
}

/// The total of the first `j` weights `p, p - 1, ...`.
pub open spec fn wma_weight(p: int, j: int) -> int
    decreases j,
{
    if j <= 0 {
        0
    } else {
        wma_weight(p, j - 1) + (p - (j - 1))
    }
}

/// The weighted moving average at index `i`: the input itself until a full
/// window is available, then the truncating weighted mean.
pub open spec fn wma_at(ps: Seq<int>, p: int, i: int) -> int {
    if i + 1 < p {
        ps[i]
    } else {
        tdiv(wma_sum(ps, p, i, p), wma_weight(p, p))
    }
}

/// Weighted moving average with weights `p, p - 1, ..., 1` over the window
/// ending at each index.
pub fn wma(prices: &Vec<i64>, period: usize) -> (out: Vec<i64>)
    requires
        prices@.len() <= MAX_LEN,
        bounded_vals(prices@),
    ensures
        prices@.len() == 0 || period == 0 ==> out@.len() == 0,
        prices@.len() > 0 && period > 0 ==> out@.len() == prices@.len(),
        prices@.len() > 0 && period > 0 ==> forall|k: int| 0 <= k < out@.len()
            ==> #[trigger] out@[k] as int == wma_at(vals_of(prices@), period as int, k),
        bounded_vals(out@),
{
    let ghost ps = vals_of(prices@);
    let n: usize = prices.len();
    let mut out: Vec<i64> = Vec::new();
    if n == 0 || period == 0 {
        return out;
    }
    let mut i: usize = 0;
    while i < n
        invariant
            0 <= i <= n,
            period >= 1,
            n == prices@.len(),
            n <= MAX_LEN,
            ps == vals_of(prices@),
            bounded_vals(prices@),
            out@.len() == i,
            forall|k: int| 0 <= k < i ==> #[trigger] out@[k] as int == wma_at(ps, period as int, k),
            bounded_vals(out@),
        decreases n - i,
    {
        if i + 1 >= period {
            let mut wsum: i128 = 0;
            let mut wtot: i128 = 0;
            let mut j: usize = 0;
            while j < period
                invariant
                    0 <= j <= period,
                    period >= 1,
                    i < n,
                    i + 1 >= period,
                    period <= n,
                    n == prices@.len(),
                    n <= MAX_LEN,
                    ps == vals_of(prices@),
                    bounded_vals(prices@),
                    wsum as int == wma_sum(ps, period as int, i as int, j as int),
                    wtot as int == wma_weight(period as int, j as int),
                    j as int <= wtot as int <= j as int * (period as int),
                    -(wtot as int * (VAL_CAP as int)) <= wsum as int <= wtot as int * (VAL_CAP as int),
                decreases period - j,
            {
                let w: i64 = (period - j) as i64;
                proof {
                    assert(ps[i - j] == prices@[i - j] as int);
                    assert(-(w as int * (VAL_CAP as int)) <= ps[i - j] * (w as int)
                        && ps[i - j] * (w as int) <= w as int * (VAL_CAP as int)) by (nonlinear_arith)
                        requires
                            -(VAL_CAP as int) <= ps[i - j] <= VAL_CAP as int,
                            w as int >= 0,
                    ;
                    assert((wtot as int + w as int) * (VAL_CAP as int)
                        == wtot as int * (VAL_CAP as int) + w as int * (VAL_CAP as int)) by (nonlinear_arith);
                    assert((j as int + 1) * (period as int) == j as int * (period as int) + period as int)
                        by (nonlinear_arith);
                    assert((j as int + 1) * (period as int) <= 1_000_000_000_000) by (nonlinear_arith)
                        requires
                            0 <= (j as int) + 1 <= 1_000_000,
                            0 <= (period as int) <= 1_000_000,
                    ;
                    assert((wtot as int + w as int) * (VAL_CAP as int) <= 40_000_000_000_000_000_000_000_000)
                        by (nonlinear_arith)
                        requires
                            0 <= wtot as int + w as int <= 1_000_000_000_000,
                            VAL_CAP as int == 40_000_000_000_000,
                    ;
                }
                wsum = wsum + (prices[i - j] as i128) * (w as i128);
                wtot = wtot + w as i128;
                j = j + 1;
            }
            proof {
                assert(period as int * (period as int) <= 1_000_000_000_000) by (nonlinear_arith)
                    requires
                        0 <= (period as int) <= 1_000_000,
                ;
                assert(wtot as int * (VAL_CAP as int) <= 40_000_000_000_000_000_000_000_000)
                    by (nonlinear_arith)
                    requires
                        0 <= wtot as int <= 1_000_000_000_000,
                        VAL_CAP as int == 40_000_000_000_000,
                ;
            }
            let m: i128 = div_i128(wsum, wtot);
            proof {
                lemma_tdiv_bound(wsum as int, wtot as int, VAL_CAP as int);
            }
            out.push(m as i64);
        } else {
            out.push(prices[i]);
        }
        i = i + 1;
    }
    out
}

/// The volume-weighted sum and volume total of the last `j` pairs ending at
/// `i`.
pub open spec fn vwma_psum(ps: Seq<int>, vs: Seq<int>, i: int, j: int) -> int
    decreases j,
{
    if j <= 0 {
        0
    } else {
        vwma_psum(ps, vs, i, j - 1) + ps[i - (j - 1)] * vs[i - (j - 1)]
    }
}

/// The volume total of the last `j` values ending at `i`.
pub open spec fn vwma_vsum(vs: Seq<int>, i: int, j: int) -> int
    decreases j,
{
    if j <= 0 {
        0
    } else {
        vwma_vsum(vs, i, j - 1) + vs[i - (j - 1)]
    }
}

/// The volume-weighted moving average at index `i`: the input itself until
/// a full window is available or when the window's volume is zero.
pub open spec fn vwma_at(ps: Seq<int>, vs: Seq<int>, p: int, i: int) -> int {
    if i + 1 < p {
        ps[i]
    } else {
        let vsum = vwma_vsum(vs, i, p);
        if vsum > 0 {
            tdiv(vwma_psum(ps, vs, i, p), vsum)
        } else {
            ps[i]
        }
    }
}

/// Volume-weighted moving average. Empty when the lengths differ, either
/// input is empty, or the period is zero.
pub fn vwma(prices: &Vec<i64>, volumes: &Vec<i64>, period: usize) -> (out: Vec<i64>)
    requires
        prices@.len() <= MAX_LEN,
        bounded_vals(prices@),
        bounded_vals(volumes@),
        forall|k: int| 0 <= k < volumes@.len() ==> #[trigger] volumes@[k] >= 0,
    ensures
        prices@.len() == 0 || period == 0 || volumes@.len() != prices@.len() ==> out@.len() == 0,
        prices@.len() > 0 && period > 0 && volumes@.len() == prices@.len() ==> out@.len() == prices@.len(),
        prices@.len() > 0 && period > 0 && volumes@.len() == prices@.len() ==> forall|k: int| 0 <= k < out@.len()
            ==> #[trigger] out@[k] as int == vwma_at(vals_of(prices@), vals_of(volumes@), period as int, k),
        bounded_vals(out@),
{
    let ghost ps = vals_of(prices@);
    let ghost vs = vals_of(volumes@);
    let n: usize = prices.len();
    let mut out: Vec<i64> = Vec::new();
    if n == 0 || period == 0 || volumes.len() != n {
        return out;
    }
    let mut i: usize = 0;
    while i < n
        invariant
            0 <= i <= n,
            period >= 1,
            n == prices@.len(),
            n == volumes@.len(),
            n <= MAX_LEN,
            ps == vals_of(prices@),
            vs == vals_of(volumes@),
            bounded_vals(prices@),
            bounded_vals(volumes@),
            forall|k: int| 0 <= k < volumes@.len() ==> #[trigger] volumes@[k] >= 0,
            out@.len() == i,
            forall|k: int| 0 <= k < i ==> #[trigger] out@[k] as int == vwma_at(ps, vs, period as int, k),
            bounded_vals(out@),
        decreases n - i,
    {
        if i + 1 >= period {
            let mut psum: i128 = 0;
            let mut vsum: i128 = 0;
            let mut j: usize = 0;
            while j < period
                invariant
                    0 <= j <= period,
                    period >= 1,
                    i < n,
                    i + 1 >= period,
                    period <= n,
                    n == prices@.len(),
                    n == volumes@.len(),
                    n <= MAX_LEN,
                    ps == vals_of(prices@),
                    vs == vals_of(volumes@),
                    bounded_vals(prices@),
                    bounded_vals(volumes@),
                    forall|k: int| 0 <= k < volumes@.len() ==> #[trigger] volumes@[k] >= 0,
                    psum as int == vwma_psum(ps, vs, i as int, j as int),
                    vsum as int == vwma_vsum(vs, i as int, j as int),
                    0 <= vsum as int <= j as int * (VAL_CAP as int),
                    -(vsum as int * (VAL_CAP as int)) <= psum as int <= vsum as int * (VAL_CAP as int),
                decreases period - j,
            {
                let pv: i64 = prices[i - j];
                let vv: i64 = volumes[i - j];
                proof {
                    assert(ps[i - j] == prices@[i - j] as int);
                    assert(vs[i - j] == volumes@[i - j] as int);
                    assert(-(vv as int * (VAL_CAP as int)) <= pv as int * (vv as int)
                        && pv as int * (vv as int) <= vv as int * (VAL_CAP as int)) by (nonlinear_arith)
                        requires
                            -(VAL_CAP as int) <= pv as int <= VAL_CAP as int,
                            vv as int >= 0,
                    ;
                    assert((vsum as int + vv as int) * (VAL_CAP as int)
                        == vsum as int * (VAL_CAP as int) + vv as int * (VAL_CAP as int)) by (nonlinear_arith);
                    assert((j as int + 1) * (VAL_CAP as int) == j as int * (VAL_CAP as int) + VAL_CAP as int)
                        by (nonlinear_arith);
                }
                psum = psum + (pv as i128) * (vv as i128);
                vsum = vsum + vv as i128;
                j = j + 1;
            }
            if vsum > 0 {
                let m: i128 = div_i128(psum, vsum);
                proof {
                    lemma_tdiv_bound(psum as int, vsum as int, VAL_CAP as int);
                }
                out.push(m as i64);
            } else {
                out.push(prices[i]);
            }
        } else {
            out.push(prices[i]);
        }
        i = i + 1;
    }
    out
}

/// The crossover signal at index `i`: zero at the start or while the gap is
/// inside the threshold, `1` on an upward cross, `-1` on a downward cross.
pub open spec fn crossover_at(ss: Seq<int>, ls: Seq<int>, th: int, i: int) -> int {
    if i <= 0 {
        0
    } else {
        let d = ss[i] - ls[i];
        let pd = ss[i - 1] - ls[i - 1];
        if (if d >= 0 { d } else { -d }) < th {
            0
        } else if pd <= 0 && d > 0 {
            1
        } else if pd >= 0 && d < 0 {
            -1
        } else {
            0
        }
    }
}

/// Moving-average crossover signals: `1` where the short average crosses
/// above the long one, `-1` where it crosses below, `0` elsewhere or while
/// the gap is within the threshold.
pub fn ma_crossover(short_ma: &Vec<i64>, long_ma: &Vec<i64>, threshold: i64) -> (out: Vec<i32>)
    requires
        short_ma@.len() == long_ma@.len(),
        bounded_vals(short_ma@),
        bounded_vals(long_ma@),
    ensures
        out@.len() == short_ma@.len(),
        forall|k: int| 0 <= k < out@.len()
            ==> #[trigger] out@[k] as int == crossover_at(vals_of(short_ma@), vals_of(long_ma@), threshold as int, k),
{
    let ghost ss = vals_of(short_ma@);
    let ghost ls = vals_of(long_ma@);
    let n: usize = short_ma.len();
    let mut out: Vec<i32> = Vec::new();
    if n == 0 {
        return out;
    }
    out.push(0);
    let mut i: usize = 1;
    while i < n
        invariant
            1 <= i <= n,
            n == short_ma@.len(),
            n == long_ma@.len(),
            ss == vals_of(short_ma@),
            ls == vals_of(long_ma@),
            bounded_vals(short_ma@),
            bounded_vals(long_ma@),
            out@.len() == i,
            forall|k: int| 0 <= k < i ==> #[trigger] out@[k] as int == crossover_at(ss, ls, threshold as int, k),
        decreases n - i,
    {
        proof {
            assert(ss[i as int] == short_ma@[i as int] as int);
            assert(ls[i as int] == long_ma@[i as int] as int);
            assert(ss[i as int - 1] == short_ma@[i as int - 1] as int);
            assert(ls[i as int - 1] == long_ma@[i as int - 1] as int);
        }
        let d: i64 = short_ma[i] - long_ma[i];
        let pd: i64 = short_ma[i - 1] - long_ma[i - 1];
        let ad: i64 = if d >= 0 { d } else { -d };
        let sig: i32 = if ad < threshold {
            0
        } else if pd <= 0 && d > 0 {
            1
        } else if pd >= 0 && d < 0 {
            -1
        } else {
            0
        };
        out.push(sig);
        i = i + 1;
    }
    out
}

} // verus!
