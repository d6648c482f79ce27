//! The relative strength index: Wilder-smoothed average gains and losses,
//! with a neutral warm-up reading and guarded divisions.

use vstd::prelude::*;
use crate::fixed::{SCALE, tdiv, div_i128, lemma_tdiv_bound, lemma_tdiv_nonneg};
use crate::metrics::vals_of;
use super::window::{VAL_CAP, MAX_LEN, bounded_vals};

verus! {

/// The neutral reading used through the warm-up: fifty, in fixed point.
pub const RSI_NEUTRAL: i64 = 500_000;

/// The upward move into index `i`, zero at the start or on a fall.
pub open spec fn gain_at(ps: Seq<int>, i: int) -> int {
    if i < 1 {
        0
    } else if ps[i] > ps[i - 1] {
        ps[i] - ps[i - 1]
    } else {
        0
    }
}

/// The downward move into index `i`, zero at the start or on a rise.
pub open spec fn loss_at(ps: Seq<int>, i: int) -> int {
    if i < 1 {
        0
    } else if ps[i] < ps[i - 1] {
        ps[i - 1] - ps[i]
    } else {
        0
    }
}

/// Sum of the gains into indices `1..=i`.
pub open spec fn gain_sum(ps: Seq<int>, i: int) -> int
    decreases i,
{
    if i < 1 {
        0
    } else {
        gain_sum(ps, i - 1) + gain_at(ps, i)
    }
}

/// Sum of the losses into indices `1..=i`.
pub open spec fn loss_sum(ps: Seq<int>, i: int) -> int
    decreases i,
{
    if i < 1 {
        0
    } else {
        loss_sum(ps, i - 1) + loss_at(ps, i)
    }
}

/// Wilder-smoothed average gain at index `i >= p`: seeded with the plain
/// mean of the first `p` gains.
pub open spec fn avg_gain(ps: Seq<int>, p: int, i: int) -> int
    decreases i - p,
{
    if i <= p {
        tdiv(gain_sum(ps, p), p)
    } else {
        tdiv(avg_gain(ps, p, i - 1) * (p - 1) + gain_at(ps, i), p)
    }
}

/// Wilder-smoothed average loss at index `i >= p`.
pub open spec fn avg_loss(ps: Seq<int>, p: int, i: int) -> int
    decreases i - p,
{
    if i <= p {
        tdiv(loss_sum(ps, p), p)
    } else {
        tdiv(avg_loss(ps, p, i - 1) * (p - 1) + loss_at(ps, i), p)
    }
}

/// The relative strength reading from an average gain and loss, with the
/// zero-loss branches made explicit: zero when nothing moved, the maximum
/// when there are gains but no losses.
pub open spec fn rsi_value(g: int, l: int) -> int {
    if l <= 0 {
        if g <= 0 {
            0
        } else {
            100 * (SCALE as int)
        }
    } else {
        let rs = tdiv(g * (SCALE as int), l);
        100 * (SCALE as int) - tdiv(100 * (SCALE as int) * (SCALE as int), SCALE as int + rs)
    }
}

/// The relative strength index at index `i`: neutral through the warm-up,
/// the smoothed reading afterwards.
pub open spec fn rsi_at(ps: Seq<int>, p: int, i: int) -> int {
    if i < p {
        RSI_NEUTRAL as int
    } else {
        rsi_value(avg_gain(ps, p, i), avg_loss(ps, p, i))
    }
}

/// Gains and losses are non-negative and bounded by twice the input bound.
proof fn lemma_moves_bounded(ps: Seq<int>, i: int)
    requires
        0 <= i < ps.len(),
        forall|k: int| 0 <= k < ps.len() ==> -(VAL_CAP as int) <= #[trigger] ps[k] <= VAL_CAP as int,
    ensures
        0 <= gain_at(ps, i) <= 2 * VAL_CAP as int,
        0 <= loss_at(ps, i) <= 2 * VAL_CAP as int,
{
}

/// Wilder averages of bounded moves stay within the move bound.
proof fn lemma_avg_bounded(ps: Seq<int>, p: int, i: int)
    requires
        1 <= p,
        p <= i < ps.len(),
        forall|k: int| 0 <= k < ps.len() ==> -(VAL_CAP as int) <= #[trigger] ps[k] <= VAL_CAP as int,
    ensures
        0 <= avg_gain(ps, p, i) <= 2 * VAL_CAP as int,
        0 <= avg_loss(ps, p, i) <= 2 * VAL_CAP as int,
    decreases i,
{
    let c = 2 * VAL_CAP as int;
    if i <= p {
        lemma_gain_sum_bounded(ps, p);
        lemma_tdiv_bound(gain_sum(ps, p), p, c);
        lemma_tdiv_bound(loss_sum(ps, p), p, c);
        lemma_tdiv_nonneg(gain_sum(ps, p), p);
        lemma_tdiv_nonneg(loss_sum(ps, p), p);
    } else {
        lemma_avg_bounded(ps, p, i - 1);
        lemma_moves_bounded(ps, i);
        assert(0 <= avg_gain(ps, p, i - 1) * (p - 1) + gain_at(ps, i)
            && avg_gain(ps, p, i - 1) * (p - 1) + gain_at(ps, i) <= p * c) by (nonlinear_arith)
            requires
                0 <= avg_gain(ps, p, i - 1) <= c,
                0 <= gain_at(ps, i) <= c,
                p >= 1,
        ;
        assert(0 <= avg_loss(ps, p, i - 1) * (p - 1) + loss_at(ps, i)
            && avg_loss(ps, p, i - 1) * (p - 1) + loss_at(ps, i) <= p * c) by (nonlinear_arith)
            requires
                0 <= avg_loss(ps, p, i - 1) <= c,
                0 <= loss_at(ps, i) <= c,
                p >= 1,
        ;
        lemma_tdiv_bound(avg_gain(ps, p, i - 1) * (p - 1) + gain_at(ps, i), p, c);
        lemma_tdiv_bound(avg_loss(ps, p, i - 1) * (p - 1) + loss_at(ps, i), p, c);
        lemma_tdiv_nonneg(avg_gain(ps, p, i - 1) * (p - 1) + gain_at(ps, i), p);
        lemma_tdiv_nonneg(avg_loss(ps, p, i - 1) * (p - 1) + loss_at(ps, i), p);
    }
}

/// Sums of the first moves are bounded by the count times the move bound.
proof fn lemma_gain_sum_bounded(ps: Seq<int>, i: int)
    requires
        0 <= i < ps.len(),
        forall|k: int| 0 <= k < ps.len() ==> -(VAL_CAP as int) <= #[trigger] ps[k] <= VAL_CAP as int,
    ensures
        0 <= gain_sum(ps, i) <= i * (2 * VAL_CAP as int),
        0 <= loss_sum(ps, i) <= i * (2 * VAL_CAP as int),
    decreases i,
{
    if i >= 1 {
        lemma_gain_sum_bounded(ps, i - 1);
        lemma_moves_bounded(ps, i);
        assert((i - 1) * (2 * VAL_CAP as int) + 2 * VAL_CAP as int == i * (2 * VAL_CAP as int))
            by (nonlinear_arith);
    }
}

/// An RSI reading lies between zero and one hundred, in fixed point.
pub proof fn lemma_rsi_value_range(g: int, l: int)
    requires
        g >= 0,
        l >= 0,
    ensures
        0 <= rsi_value(g, l) <= 100 * (SCALE as int),
{
    if l > 0 {
        let rs = tdiv(g * (SCALE as int), l);
        assert(g * (SCALE as int) >= 0) by (nonlinear_arith)
            requires
                g >= 0,
        ;
        lemma_tdiv_nonneg(g * (SCALE as int), l);
        lemma_tdiv_nonneg(100 * (SCALE as int) * (SCALE as int), SCALE as int + rs);
        lemma_tdiv_bound(100 * (SCALE as int) * (SCALE as int), SCALE as int + rs,
            100 * (SCALE as int));
        assert((SCALE as int + rs) * (100 * (SCALE as int)) >= 100 * (SCALE as int) * (SCALE as int))
            by (nonlinear_arith)
            requires
                rs >= 0,
                SCALE as int > 0,
        ;
    }
}

/// The relative strength index over a series: a vector of the input's
/// length, neutral while fewer than `period + 1` inputs exist or through
/// the warm-up, and the exact Wilder reading afterwards; every reading lies
/// in `[0, 100]`.
pub fn rsi(prices: &Vec<i64>, period: usize) -> (out: Vec<i64>)
    requires
        prices@.len() <= MAX_LEN,
        bounded_vals(prices@),
        period >= 1,
    ensures
        out@.len() == prices@.len(),
        prices@.len() < period + 1 ==> forall|k: int| 0 <= k < out@.len()
            ==> #[trigger] out@[k] == RSI_NEUTRAL,
        prices@.len() >= period + 1 ==> forall|k: int| 0 <= k < out@.len()
            ==> #[trigger] out@[k] as int == rsi_at(vals_of(prices@), period as int, k),
        forall|k: int| 0 <= k < out@.len() ==> 0 <= #[trigger] out@[k] <= 100 * SCALE,
{
    let ghost ps = vals_of(prices@);
    let n: usize = prices.len();
    let mut out: Vec<i64> = Vec::new();
    if n <= period {
        let mut i: usize = 0;
        while i < n
            invariant
                0 <= i <= n,
                out@.len() == i,
                forall|k: int| 0 <= k < i ==> #[trigger] out@[k] == RSI_NEUTRAL,
            decreases n - i,
        {
            out.push(RSI_NEUTRAL);
            i = i + 1;
        }
        return out;
    }
    let mut i: usize = 0;
    while i < period
        invariant
            0 <= i <= period,
            period < n,
            n == prices@.len(),
            out@.len() == i,
            forall|k: int| 0 <= k < i ==> #[trigger] out@[k] == RSI_NEUTRAL,
        decreases period - i,
    {
        out.push(RSI_NEUTRAL);
        i = i + 1;
    }
    let mut gsum: i128 = 0;
    let mut lsum: i128 = 0;
    let mut t: usize = 1;
    while t <= period
        invariant
            1 <= t <= period + 1,
            period < n,
            n == prices@.len(),
            n <= MAX_LEN,
            ps == vals_of(prices@),
            bounded_vals(prices@),
            gsum as int == gain_sum(ps, t as int - 1),
            lsum as int == loss_sum(ps, t as int - 1),
            0 <= gsum as int <= (t as int - 1) * (2 * VAL_CAP as int),
            0 <= lsum as int <= (t as int - 1) * (2 * VAL_CAP as int),
        decreases period + 1 - t,
    {
        proof {
            assert(ps[t as int] == prices@[t as int] as int);
            assert(ps[t as int - 1] == prices@[t as int - 1] as int);
            assert((t as int - 1) * (2 * VAL_CAP as int) + 2 * VAL_CAP as int
                == (t as int) * (2 * VAL_CAP as int)) by (nonlinear_arith);
            assert((t as int) * (2 * VAL_CAP as int) <= 100_000_000_000_000_000_000)
                by (nonlinear_arith)
                requires
                    0 <= (t as int) <= 1_000_000,
                    VAL_CAP as int == 40_000_000_000_000,
            ;
        }
        let cur: i64 = prices[t];
        let prev: i64 = prices[t - 1];
        if cur > prev {
            gsum = gsum + (cur - prev) as i128;
        } else if cur < prev {
            lsum = lsum + (prev - cur) as i128;
        }
        t = t + 1;
    }
    let ag128: i128 = div_i128(gsum, period as i128);
    let al128: i128 = div_i128(lsum, period as i128);
    proof {
        assert((period as int) * (2 * VAL_CAP as int) <= 100_000_000_000_000_000_000)
            by (nonlinear_arith)
            requires
                0 <= (period as int) <= 1_000_000,
                VAL_CAP as int == 40_000_000_000_000,
        ;
        lemma_tdiv_bound(gsum as int, period as int, 2 * VAL_CAP as int);
        lemma_tdiv_bound(lsum as int, period as int, 2 * VAL_CAP as int);
        lemma_tdiv_nonneg(gsum as int, period as int);
        lemma_tdiv_nonneg(lsum as int, period as int);
    }
    let mut ag: i64 = ag128 as i64;
    let mut al: i64 = al128 as i64;
    proof {
        assert(ag as int == avg_gain(ps, period as int, period as int));
        assert(al as int == avg_loss(ps, period as int, period as int));
    }
    let mut i: usize = period;
    while i < n
        invariant
            period <= i <= n,
            period >= 1,
            period < n,
            n == prices@.len(),
            n <= MAX_LEN,
            ps == vals_of(prices@),
            bounded_vals(prices@),
            out@.len() == i,
            ag as int == avg_gain(ps, period as int, if i == period { period as int } else { i as int - 1 }),
            al as int == avg_loss(ps, period as int, if i == period { period as int } else { i as int - 1 }),
            0 <= ag as int <= 2 * VAL_CAP as int,
            0 <= al as int <= 2 * VAL_CAP as int,
            forall|k: int| 0 <= k < period ==> #[trigger] out@[k] == RSI_NEUTRAL,
            forall|k: int| period <= k < i ==> #[trigger] out@[k] as int == rsi_at(ps, period as int, k),
            forall|k: int| 0 <= k < i ==> 0 <= #[trigger] out@[k] <= 100 * SCALE,
        decreases n - i,
    {
        proof {
            assert(ps[i as int] == prices@[i as int] as int);
            if i > period {
                assert(ps[i as int - 1] == prices@[i as int - 1] as int);
            }
        }
        if i > period {
            let cur: i64 = prices[i];
            let prev: i64 = prices[i - 1];
            let g: i64 = if cur > prev { cur - prev } else { 0 };
            let l: i64 = if cur < prev { prev - cur } else { 0 };
            proof {
                assert(g as int == gain_at(ps, i as int));
                assert(l as int == loss_at(ps, i as int));
                assert(0 <= ag as int * (period as int - 1) + g as int
                    && ag as int * (period as int - 1) + g as int <= period as int * (2 * VAL_CAP as int))
                    by (nonlinear_arith)
                    requires
                        0 <= ag as int <= 2 * VAL_CAP as int,
                        0 <= g as int <= 2 * VAL_CAP as int,
                        period as int >= 1,
                ;
                assert(0 <= al as int * (period as int - 1) + l as int
                    && al as int * (period as int - 1) + l as int <= period as int * (2 * VAL_CAP as int))
                    by (nonlinear_arith)
                    requires
                        0 <= al as int <= 2 * VAL_CAP as int,
                        0 <= l as int <= 2 * VAL_CAP as int,
                        period as int >= 1,
                ;
            }
            proof {
                assert((period as int) * (2 * VAL_CAP as int) <= 100_000_000_000_000_000_000)
                    by (nonlinear_arith)
                    requires
                        0 <= (period as int) <= 1_000_000,
                        VAL_CAP as int == 40_000_000_000_000,
                ;
            }
            let num_g: i128 = (ag as i128) * (period as i128 - 1) + g as i128;
            let num_l: i128 = (al as i128) * (period as i128 - 1) + l as i128;
            let ag2: i128 = div_i128(num_g, period as i128);
            let al2: i128 = div_i128(num_l, period as i128);
            proof {
                lemma_tdiv_bound(num_g as int, period as int, 2 * VAL_CAP as int);
                lemma_tdiv_bound(num_l as int, period as int, 2 * VAL_CAP as int);
                lemma_tdiv_nonneg(num_g as int, period as int);
                lemma_tdiv_nonneg(num_l as int, period as int);
            }
            ag = ag2 as i64;
            al = al2 as i64;
        }
        let reading: i64 = if al <= 0 {
            if ag <= 0 {
                0
            } else {
                100 * SCALE
            }
        } else {
            let rs: i64 = div_i128((ag as i128) * (SCALE as i128), al as i128) as i64;
            proof {
                assert(ag as int * (SCALE as int) >= 0) by (nonlinear_arith)
                    requires
                        ag as int >= 0,
                ;
                lemma_tdiv_nonneg(ag as int * (SCALE as int), al as int);
                assert(ag as int * (SCALE as int) <= 1_000_000_000_000_000_000) by (nonlinear_arith)
                    requires
                        0 <= ag as int <= 2 * VAL_CAP as int,
                        VAL_CAP as int == 40_000_000_000_000,
                        SCALE as int == 10_000,
                ;
                lemma_tdiv_bound(ag as int * (SCALE as int), al as int, 1_000_000_000_000_000_000);
            }
            let denom: i64 = SCALE + rs;
            let frac: i64 = div_i128(100 * (SCALE as i128) * (SCALE as i128), denom as i128) as i64;
            proof {
                lemma_tdiv_nonneg(100 * (SCALE as int) * (SCALE as int), denom as int);
                lemma_tdiv_bound(100 * (SCALE as int) * (SCALE as int), denom as int,
                    100 * (SCALE as int));
                assert((denom as int) * (100 * (SCALE as int)) >= 100 * (SCALE as int) * (SCALE as int))
                    by (nonlinear_arith)
                    requires
                        rs >= 0,
                        denom as int == SCALE as int + rs as int,
                        SCALE as int > 0,
                ;
            }
            100 * SCALE - frac
        };
        proof {
            assert(reading as int == rsi_at(ps, period as int, i as int));
        }
        out.push(reading);
        i = i + 1;
    }
    out
}

/// The threshold-crossing signal from an RSI series at index `i`: a buy
/// when the reading drops below the oversold line, a sell when it rises
/// above the overbought line, each requiring the previous reading on the
/// other side.
pub open spec fn rsi_signal_at(rs: Seq<int>, oversold: int, overbought: int, i: int) -> int {
    if i < 1 {
        0
    } else if rs[i] < oversold && rs[i - 1] >= oversold {
        1
    } else if rs[i] > overbought && rs[i - 1] <= overbought {
        -1
    } else {
        0
    }
}

/// Threshold-crossing signals from an RSI series.
pub fn rsi_signals(rsi_values: &Vec<i64>, oversold: i64, overbought: i64) -> (out: Vec<i32>)
    ensures
        out@.len() == rsi_values@.len(),
        forall|k: int| 0 <= k < out@.len() ==> #[trigger] out@[k] as int
            == rsi_signal_at(vals_of(rsi_values@), oversold as int, overbought as int, k),
{
    let ghost rs = vals_of(rsi_values@);
    let n: usize = rsi_values.len();
    let mut out: Vec<i32> = Vec::new();
    if n == 0 {
        return out;
    }
    out.push(0);
    let mut i: usize = 1;
    while i < n
        invariant
            1 <= i <= n,
            n == rsi_values@.len(),
            rs == vals_of(rsi_values@),
            out@.len() == i,
            forall|k: int| 0 <= k < i ==> #[trigger] out@[k] as int
                == rsi_signal_at(rs, oversold as int, overbought as int, k),
        decreases n - i,
    {
        proof {
            assert(rs[i as int] == rsi_values@[i as int] as int);
            assert(rs[i as int - 1] == rsi_values@[i as int - 1] as int);
        }
        let v: i64 = rsi_values[i];
        let pv: i64 = rsi_values[i - 1];
        let sig: i32 = if v < oversold && pv >= oversold {
            1
        } else if v > overbought && pv <= overbought {
            -1
        } else {
            0
        };
        out.push(sig);
        i = i + 1;
    }
    out
}

} // verus!
