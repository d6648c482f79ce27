//! Bollinger bands: a simple moving average with bands one population
//! standard deviation times a factor above and below, zero through the
//! warm-up.

use vstd::prelude::*;
use crate::fixed::{SCALE, tdiv, div_i128, isqrt_spec, isqrt_i128, lemma_isqrt, lemma_tdiv_bound, lemma_tdiv_nonneg};
use crate::metrics::vals_of;
use super::window::{VAL_CAP, MAX_LEN, bounded_vals};
use super::moving_average::{sma, sma_at};

verus! {

/// Largest accepted band factor: one hundred, in fixed point.
pub const BAND_CAP: i64 = 1_000_000;

/// Sum of squared deviations from `m` over `ps[lo..hi]`.
pub open spec fn bb_dev2(ps: Seq<int>, m: int, lo: int, hi: int) -> int
    decreases hi - lo,
{
    if lo >= hi {
        0
    } else {
        bb_dev2(ps, m, lo, hi - 1) + (ps[hi - 1] - m) * (ps[hi - 1] - m)
    }
}

/// The band half-width at index `i >= p`: the factor times the population
/// standard deviation of the window before `i`, against the window mean
/// ending at `i`.
pub open spec fn bb_halfwidth(ps: Seq<int>, p: int, k: int, i: int) -> int {
    let m = sma_at(ps, p, i);
    tdiv(k * isqrt_spec(tdiv(bb_dev2(ps, m, i - p, i), p)), SCALE as int)
}

/// Bollinger bands: `(upper, middle, lower)`. The middle band is the
/// simple moving average; the outer bands are zero through the warm-up and
/// the mean plus or minus the scaled half-width afterwards.
pub fn bollinger_bands(prices: &Vec<i64>, period: usize, num_std: i64)
    -> (out: (Vec<i64>, Vec<i64>, Vec<i64>))
    requires
        prices@.len() <= MAX_LEN,
        bounded_vals(prices@),
        0 <= num_std <= BAND_CAP,
    ensures
        prices@.len() == 0 || period == 0 ==> {
            &&& out.0@.len() == 0
            &&& out.1@.len() == 0
            &&& out.2@.len() == 0
        },
        prices@.len() > 0 && period > 0 ==> {
            let ps = vals_of(prices@);
            let n = prices@.len() as int;
            &&& out.0@.len() == n
            &&& out.1@.len() == n
            &&& out.2@.len() == n
            &&& forall|i: int| 0 <= i < n ==> #[trigger] out.1@[i] as int
                == sma_at(ps, period as int, i)
            &&& forall|i: int| 0 <= i < n && i < period ==> #[trigger] out.0@[i] == 0
            &&& forall|i: int| 0 <= i < n && i < period ==> #[trigger] out.2@[i] == 0
            &&& forall|i: int| period <= i < n ==> #[trigger] out.0@[i] as int
                == sma_at(ps, period as int, i) + bb_halfwidth(ps, period as int, num_std as int, i)
            &&& forall|i: int| period <= i < n ==> #[trigger] out.2@[i] as int
                == sma_at(ps, period as int, i) - bb_halfwidth(ps, period as int, num_std as int, i)
        },
{
    let ghost ps = vals_of(prices@);
    let n: usize = prices.len();
    if n == 0 || period == 0 {
        return (Vec::new(), Vec::new(), Vec::new());
    }
    let middle: Vec<i64> = sma(prices, period);
    let mut upper: Vec<i64> = Vec::new();
    let mut lower: Vec<i64> = Vec::new();
    let mut i: usize = 0;
    while i < n
        invariant
            0 <= i <= n,
            period >= 1,
            n == prices@.len(),
            n <= MAX_LEN,
            ps == vals_of(prices@),
            bounded_vals(prices@),
            0 <= num_std <= BAND_CAP,
            middle@.len() == n,
            bounded_vals(middle@),
            forall|k: int| 0 <= k < n ==> #[trigger] middle@[k] as int == sma_at(ps, period as int, k),
            upper@.len() == i,
            lower@.len() == i,
            forall|k: int| 0 <= k < i && k < period ==> #[trigger] upper@[k] == 0,
            forall|k: int| 0 <= k < i && k < period ==> #[trigger] lower@[k] == 0,
            forall|k: int| period <= k < i ==> #[trigger] upper@[k] as int
                == sma_at(ps, period as int, k) + bb_halfwidth(ps, period as int, num_std as int, k),
            forall|k: int| period <= k < i ==> #[trigger] lower@[k] as int
                == sma_at(ps, period as int, k) - bb_halfwidth(ps, period as int, num_std as int, k),
        decreases n - i,
    {
        if i >= period {
            let m: i64 = middle[i];
            let mut dev2: i128 = 0;
            let mut t: usize = i - period;
            while t < i
                invariant
                    i - period <= t <= i,
                    period >= 1,
                    i < n,
                    i >= period,
                    n == prices@.len(),
                    n <= MAX_LEN,
                    ps == vals_of(prices@),
                    bounded_vals(prices@),
                    -VAL_CAP <= m <= VAL_CAP,
                    m as int == sma_at(ps, period as int, i as int),
                    dev2 as int == bb_dev2(ps, m as int, i as int - period, t as int),
                    0 <= dev2 as int <= (t as int - (i as int - period)) * (4 * (VAL_CAP as int) * (VAL_CAP as int)),
                decreases i - t,
            {
                proof {
                    assert(ps[t as int] == prices@[t as int] as int);
                }
                let d: i128 = prices[t] as i128 - m as i128;
                proof {
                    assert(0 <= d as int * d as int
                        && d as int * d as int <= 4 * (VAL_CAP as int) * (VAL_CAP as int))
                        by (nonlinear_arith)
                        requires
                            -(2 * VAL_CAP as int) <= d as int <= 2 * VAL_CAP as int,
                    ;
                    assert((t as int - (i as int - period)) * (4 * (VAL_CAP as int) * (VAL_CAP as int))
                        + 4 * (VAL_CAP as int) * (VAL_CAP as int)
                        == (t as int + 1 - (i as int - period)) * (4 * (VAL_CAP as int) * (VAL_CAP as int)))
                        by (nonlinear_arith);
                    assert((t as int + 1 - (i as int - period)) * (4 * (VAL_CAP as int) * (VAL_CAP as int))
                        <= 6_400_000_000_000_000_000_000_000_000_000_000) by (nonlinear_arith)
                        requires
                            0 <= t as int + 1 - (i as int - period) <= 1_000_000,
                            VAL_CAP as int == 40_000_000_000_000,
                    ;
                }
                dev2 = dev2 + d * d;
                t = t + 1;
            }
            proof {
                assert((period as int) * (4 * (VAL_CAP as int) * (VAL_CAP as int))
                    <= 6_400_000_000_000_000_000_000_000_000_000_000) by (nonlinear_arith)
                    requires
                        0 <= (period as int) <= 1_000_000,
                        VAL_CAP as int == 40_000_000_000_000,
                ;
            }
            let var128: i128 = div_i128(dev2, period as i128);
            proof {
                lemma_tdiv_nonneg(dev2 as int, period as int);
            }
            let std: i64 = isqrt_i128(var128);
            proof {
                lemma_isqrt(var128 as int);
                assert(std as int <= 90_000_000_000_000_000) by (nonlinear_arith)
                    requires
                        std as int * std as int <= var128 as int,
                        var128 as int <= 6_400_000_000_000_000_000_000_000_000_000_000,
                        std >= 0,
                ;
            }
            proof {
                assert(0 <= num_std as int * (std as int)
                    && num_std as int * (std as int) <= (SCALE as int) * 9_100_000_000_000_000_000)
                    by (nonlinear_arith)
                    requires
                        0 <= num_std as int <= 1_000_000,
                        0 <= (std as int) <= 90_000_000_000_000_000,
                        SCALE as int == 10_000,
                ;
                lemma_tdiv_bound(num_std as int * (std as int), SCALE as int, 9_100_000_000_000_000_000);
                lemma_tdiv_nonneg(num_std as int * (std as int), SCALE as int);
            }
            let prod: i128 = (num_std as i128) * (std as i128);
            let half128: i128 = div_i128(prod, SCALE as i128);
            let half: i64 = half128 as i64;
            upper.push(m + half);
            lower.push(m - half);
        } else {
            upper.push(0);
            lower.push(0);
        }
        i = i + 1;
    }
    (upper, middle, lower)
}

/// The band-crossing signal at index `i`: a buy when the price falls below
/// the lower band, a sell when it rises above the upper band, each needing
/// the previous price on the other side of its band.
pub open spec fn bollinger_signal_at(ps: Seq<int>, up: Seq<int>, lo: Seq<int>, i: int) -> int {
    if i < 1 {
        0
    } else if ps[i] < lo[i] && ps[i - 1] >= lo[i - 1] {
        1
    } else if ps[i] > up[i] && ps[i - 1] <= up[i - 1] {
        -1
    } else {
        0
    }
}

/// Band-crossing signals from prices and the outer bands.
pub fn bollinger_signals(prices: &Vec<i64>, upper: &Vec<i64>, lower: &Vec<i64>) -> (out: Vec<i32>)
    requires
        prices@.len() == upper@.len(),
        prices@.len() == lower@.len(),
    ensures
        out@.len() == prices@.len(),
        forall|k: int| 0 <= k < out@.len() ==> #[trigger] out@[k] as int
            == bollinger_signal_at(vals_of(prices@), vals_of(upper@), vals_of(lower@), k),
{
    let ghost ps = vals_of(prices@);
    let ghost us = vals_of(upper@);
    let ghost ls = vals_of(lower@);
    let n: usize = prices.len();
    let mut out: Vec<i32> = Vec::new();
    if n == 0 {
        return out;
    }
    out.push(0);
    let mut i: usize = 1;
    while i < n
        invariant
            1 <= i <= n,
            n == prices@.len(),
            n == upper@.len(),
            n == lower@.len(),
            ps == vals_of(prices@),
            us == vals_of(upper@),
            ls == vals_of(lower@),
            out@.len() == i,
            forall|k: int| 0 <= k < i ==> #[trigger] out@[k] as int == bollinger_signal_at(ps, us, ls, k),
        decreases n - i,
    {
        proof {
            assert(ps[i as int] == prices@[i as int] as int);
            assert(us[i as int] == upper@[i as int] as int);
            assert(ls[i as int] == lower@[i as int] as int);
            assert(ps[i as int - 1] == prices@[i as int - 1] as int);
            assert(us[i as int - 1] == upper@[i as int - 1] as int);
            assert(ls[i as int - 1] == lower@[i as int - 1] as int);
        }
        let sig: i32 = if prices[i] < lower[i] && prices[i - 1] >= lower[i - 1] {
            1
        } else if prices[i] > upper[i] && prices[i - 1] <= upper[i - 1] {
            -1
        } else {
            0
        };
        out.push(sig);
        i = i + 1;
    }
    out
}

} // verus!
