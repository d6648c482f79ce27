//! Performance metrics over an equity curve and a trade ledger: returns,
//! volatility, Sharpe, Sortino, drawdown, Calmar, win rate, hold time and
//! profit factor, each pinned to an exact integer specification.

use vstd::prelude::*;
use crate::fixed::{
    SCALE, tdiv, sat_i64, fx_mul_spec, isqrt_spec, pow_sat,
    div_i128, clamp_i64, isqrt_i128, fx_pow_sat, fx_mul,
    lemma_isqrt, lemma_tdiv_bound, lemma_tdiv_nonneg, lemma_tdiv_lower,
    lemma_i64_prod,
};
use crate::types::Trade;

verus! {

/// Trading days in a year, the annualisation convention.
pub const TRADING_DAYS: i64 = 252;

/// `isqrt(252 * SCALE * SCALE)`: the square root of the annualisation
/// factor, in fixed point.
pub const SQRT_252: i64 = 158_745;

/// Largest accepted single-period return (one hundred million, in fixed
/// point): a larger reading is treated as out of range, the way a
/// floating-point calculator treats an overflowed quotient.
pub const RET_CAP: i64 = 1_000_000_000_000;

/// Longest accepted equity curve or trade ledger.
pub const MAX_SERIES: usize = 1_000_000;

/// Saturation sentinel standing for an unbounded positive reading.
pub const FX_INF: i64 = i64::MAX;

/// Seconds in a day, for hold times from second-resolution timestamps.
pub const SECONDS_PER_DAY: i64 = 86_400;

/// Errors of the metrics calculator.
#[derive(Clone, Copy, PartialEq, Eq, Structural, Debug)]
pub enum MetricsError {
    EmptyTrades,
    EmptyEquityCurve,
    InvalidData,
    DivisionByZero,
    InvalidDateRange,
}

/// The metrics bundle. All ratio fields are fixed-point values scaled by
/// `SCALE`; `execution_time_ms` is a diagnostic the caller may fill in and
/// the calculator always leaves at zero.
#[derive(Clone, Copy, PartialEq, Eq, Structural, Debug)]
pub struct PerformanceMetrics {
    pub total_return: i64,
    pub annualized_return: i64,
    pub sharpe_ratio: i64,
    pub sortino_ratio: i64,
    pub max_drawdown: i64,
    pub calmar_ratio: i64,
    pub win_rate: i64,
    pub avg_hold_days: i64,
    pub profit_factor: i64,
    pub volatility: i64,
    pub trade_count: usize,
    pub execution_time_ms: u64,
}

/// The integer views of a vector of scaled values.
pub open spec fn vals_of(v: Seq<i64>) -> Seq<int> {
    v.map_values(|x: i64| x as int)
}

/// Sum of the first `i` entries.
pub open spec fn sum_upto(s: Seq<int>, i: int) -> int
    decreases i,
{
    if i <= 0 {
        0
    } else {
        sum_upto(s, i - 1) + s[i - 1]
    }
}

/// The drawdown of value `v` below peak `peak`, as a fixed-point fraction
/// of the peak; zero when the peak is not positive.
pub open spec fn dd_of(peak: int, v: int) -> int {
    if peak > 0 {
        sat_i64(tdiv((peak - v) * (SCALE as int), peak))
    } else {
        0
    }
}

/// Running peak and best drawdown over the first `i` values.
pub open spec fn mdd_state(vals: Seq<int>, i: int) -> (int, int)
    decreases i,
{
    if i <= 0 {
        (if vals.len() > 0 { vals[0] } else { 0 }, 0)
    } else {
        let s = mdd_state(vals, i - 1);
        let v = vals[i - 1];
        let peak = if v > s.0 { v } else { s.0 };
        let d = dd_of(peak, v);
        (peak, if d > s.1 { d } else { s.1 })
    }
}

/// Maximum peak-to-trough drawdown of an equity curve, as a non-negative
/// fixed-point fraction; zero for an empty curve.
pub open spec fn mdd_spec(vals: Seq<int>) -> int {
    if vals.len() == 0 {
        0
    } else {
        mdd_state(vals, vals.len() as int).1
    }
}

/// The best drawdown recorded so far never decreases and stays non-negative;
/// over a positive curve it stays at most one (`SCALE`).
pub proof fn lemma_mdd_state_bounds(vals: Seq<int>, i: int)
    requires
        0 < vals.len(),
        0 <= i <= vals.len(),
        forall|j: int| 0 <= j < vals.len() ==> #[trigger] vals[j] > 0,
    ensures
        mdd_state(vals, i).0 > 0,
        0 <= mdd_state(vals, i).1 <= SCALE as int,
    decreases i,
{
    if i > 0 {
        lemma_mdd_state_bounds(vals, i - 1);
        let s = mdd_state(vals, i - 1);
        let v = vals[i - 1];
        let peak = if v > s.0 { v } else { s.0 };
        assert(v > 0);
        assert(peak > 0);
        let num = (peak - v) * (SCALE as int);
        assert(0 <= peak - v < peak);
        assert(0 <= num <= peak * (SCALE as int)) by (nonlinear_arith)
            requires
                num == (peak - v) * (SCALE as int),
                0 <= peak - v <= peak,
        ;
        lemma_tdiv_bound(num, peak, SCALE as int);
    }
}

/// `max_drawdown` of a non-empty positive equity curve lies in `[0, 1]`.
pub proof fn lemma_mdd_in_unit_range(vals: Seq<int>)
    requires
        vals.len() > 0,
        forall|j: int| 0 <= j < vals.len() ==> #[trigger] vals[j] > 0,
    ensures
        0 <= mdd_spec(vals) <= SCALE as int,
{
    lemma_mdd_state_bounds(vals, vals.len() as int);
}

/// Maximum drawdown of an equity curve: the largest peak-to-trough fall as
/// a fixed-point fraction of the running peak.
pub fn calculate_max_drawdown(equity_curve: &Vec<i64>) -> (r: i64)
    ensures
        r as int == mdd_spec(vals_of(equity_curve@)),
        r >= 0,
{
    let ghost vals = vals_of(equity_curve@);
    let n: usize = equity_curve.len();
    if n == 0 {
        return 0;
    }
    let mut peak: i64 = equity_curve[0];
    let mut best: i64 = 0;
    let mut i: usize = 0;
    while i < n
        invariant
            0 <= i <= n,
            n == equity_curve@.len(),
            n > 0,
            vals == vals_of(equity_curve@),
            peak as int == mdd_state(vals, i as int).0,
            best as int == mdd_state(vals, i as int).1,
            best >= 0,
        decreases n - i,
    {
        let v: i64 = equity_curve[i];
        if v > peak {
            peak = v;
        }
        if peak > 0 {
            let num: i128 = (peak as i128 - v as i128) * (SCALE as i128);
            let dd: i64 = clamp_i64(div_i128(num, peak as i128));
            if dd > best {
                best = dd;
            }
        }
        i = i + 1;
    }
    best
}

/// The return from `prev` to `cur`, guarded: `None` when the base is not
/// positive or the reading leaves the accepted range.
pub open spec fn ret_step(prev: int, cur: int) -> Option<int> {
    if prev <= 0 {
        None
    } else {
        let r = tdiv((cur - prev) * (SCALE as int), prev);
        if -(RET_CAP as int) <= r <= RET_CAP as int {
            Some(r)
        } else {
            None
        }
    }
}

/// The single-period returns among the first `i` values of an equity curve;
/// `None` as soon as one period is guarded off.
pub open spec fn rets_upto(vals: Seq<int>, i: int) -> Option<Seq<int>>
    decreases i,
{
    if i <= 1 {
        Some(Seq::empty())
    } else {
        match rets_upto(vals, i - 1) {
            None => None,
            Some(s) => match ret_step(vals[i - 2], vals[i - 1]) {
                None => None,
                Some(r) => Some(s.push(r)),
            },
        }
    }
}

/// The single-period returns of the whole curve.
pub open spec fn rets_spec(vals: Seq<int>) -> Option<Seq<int>> {
    rets_upto(vals, vals.len() as int)
}

/// Once a prefix is guarded off, so is every longer prefix.
pub proof fn lemma_rets_none_propagates(vals: Seq<int>, i: int, j: int)
    requires
        i <= j,
        rets_upto(vals, i) is None,
    ensures
        rets_upto(vals, j) is None,
    decreases j - i,
{
    if i < j {
        lemma_rets_none_propagates(vals, i, j - 1);
    }
}

/// The single-period returns of an equity curve:
/// `r[k] = (e[k+1] - e[k]) / e[k]`, failing on a non-positive base or an
/// out-of-range reading.
pub fn calculate_returns(equity_curve: &Vec<i64>) -> (r: Result<Vec<i64>, MetricsError>)
    ensures
        match r {
            Ok(v) => {
                &&& rets_spec(vals_of(equity_curve@)) == Some(vals_of(v@))
                &&& equity_curve@.len() > 1 ==> v@.len() == equity_curve@.len() - 1
                &&& equity_curve@.len() <= 1 ==> v@.len() == 0
                &&& forall|k: int| 0 <= k < v@.len()
                    ==> -RET_CAP <= #[trigger] v@[k] <= RET_CAP
            },
            Err(e) => {
                &&& rets_spec(vals_of(equity_curve@)) is None
                &&& e == MetricsError::InvalidData
            },
        },
{
    let ghost vals = vals_of(equity_curve@);
    let n: usize = equity_curve.len();
    let mut out: Vec<i64> = Vec::new();
    if n <= 1 {
        return Ok(out);
    }
    let mut i: usize = 1;
    while i < n
        invariant
            1 <= i <= n,
            n == equity_curve@.len(),
            vals == vals_of(equity_curve@),
            rets_upto(vals, i as int) == Some(vals_of(out@)),
            i > 1 ==> out@.len() == i - 1,
            i == 1 ==> out@.len() == 0,
            forall|k: int| 0 <= k < out@.len() ==> -RET_CAP <= #[trigger] out@[k] <= RET_CAP,
        decreases n - i,
    {
        let prev: i64 = equity_curve[i - 1];
        let cur: i64 = equity_curve[i];
        if prev <= 0 {
            proof {
                lemma_rets_none_propagates(vals, i as int + 1, n as int);
            }
            return Err(MetricsError::InvalidData);
        }
        let num: i128 = (cur as i128 - prev as i128) * (SCALE as i128);
        let q: i128 = div_i128(num, prev as i128);
        if q < -(RET_CAP as i128) || q > RET_CAP as i128 {
            proof {
                lemma_rets_none_propagates(vals, i as int + 1, n as int);
            }
            return Err(MetricsError::InvalidData);
        }
        let rv: i64 = q as i64;
        let ghost prev_out = out@;
        out.push(rv);
        proof {
            assert(vals_of(out@) =~= vals_of(prev_out).push(rv as int));
        }
        i = i + 1;
    }
    Ok(out)
}

/// The truncating mean of a sequence; zero when empty.
pub open spec fn mean_spec(rs: Seq<int>) -> int {
    if rs.len() == 0 {
        0
    } else {
        tdiv(sum_upto(rs, rs.len() as int), rs.len() as int)
    }
}

/// Sum of squared deviations from `m` over the first `i` entries.
pub open spec fn dev2_upto(rs: Seq<int>, m: int, i: int) -> int
    decreases i,
{
    if i <= 0 {
        0
    } else {
        dev2_upto(rs, m, i - 1) + (rs[i - 1] - m) * (rs[i - 1] - m)
    }
}

/// Squared deviations are non-negative and, for entries within `2c` of `m`,
/// bounded by `i * 4c^2`.
pub proof fn lemma_dev2_upto_bound(rs: Seq<int>, m: int, i: int, c: int)
    requires
        0 <= i <= rs.len(),
        c >= 0,
        forall|j: int| 0 <= j < rs.len() ==> -(2 * c) <= #[trigger] rs[j] - m <= 2 * c,
    ensures
        0 <= dev2_upto(rs, m, i) <= i * (4 * c * c),
    decreases i,
{
    if i > 0 {
        lemma_dev2_upto_bound(rs, m, i - 1, c);
        let d = rs[i - 1] - m;
        assert(0 <= d * d <= 4 * c * c) by (nonlinear_arith)
            requires
                -(2 * c) <= d <= 2 * c,
                c >= 0,
        ;
        assert((i - 1) * (4 * c * c) + 4 * c * c == i * (4 * c * c)) by (nonlinear_arith);
    }
}

/// Annualised volatility: the sample standard deviation of the returns
/// times the square root of the trading year; zero with fewer than two
/// samples.
pub open spec fn volatility_spec(rs: Seq<int>) -> int {
    if rs.len() < 2 {
        0
    } else {
        let m = mean_spec(rs);
        let var = tdiv(dev2_upto(rs, m, rs.len() as int), rs.len() - 1);
        fx_mul_spec(isqrt_spec(var), SQRT_252 as int)
    }
}

/// Sum of a bounded return series, in 128 bits.
fn sum_i128(v: &Vec<i64>) -> (acc: i128)
    requires
        v@.len() <= MAX_SERIES,
        forall|k: int| 0 <= k < v@.len() ==> -RET_CAP <= #[trigger] v@[k] <= RET_CAP,
    ensures
        acc as int == sum_upto(vals_of(v@), v@.len() as int),
        -(v@.len() as int * (RET_CAP as int)) <= acc as int <= v@.len() as int * (RET_CAP as int),
{
    let ghost rs = vals_of(v@);
    let n: usize = v.len();
    let mut acc: i128 = 0;
    let mut i: usize = 0;
    while i < n
        invariant
            0 <= i <= n,
            n == v@.len(),
            n <= MAX_SERIES,
            rs == vals_of(v@),
            forall|k: int| 0 <= k < v@.len() ==> -RET_CAP <= #[trigger] v@[k] <= RET_CAP,
            acc as int == sum_upto(rs, i as int),
            -(i as int * (RET_CAP as int)) <= acc as int <= i as int * (RET_CAP as int),
        decreases n - i,
    {
        proof {
            assert(rs[i as int] == v@[i as int] as int);
            assert((i as int + 1) * (RET_CAP as int) == i as int * (RET_CAP as int) + RET_CAP as int)
                by (nonlinear_arith);
        }
        acc = acc + v[i] as i128;
        i = i + 1;
    }
    acc
}

/// Truncating mean of a bounded return series.
fn mean_i64(v: &Vec<i64>) -> (m: i64)
    requires
        v@.len() <= MAX_SERIES,
        forall|k: int| 0 <= k < v@.len() ==> -RET_CAP <= #[trigger] v@[k] <= RET_CAP,
    ensures
        m as int == mean_spec(vals_of(v@)),
        -RET_CAP <= m <= RET_CAP,
{
    let n: usize = v.len();
    if n == 0 {
        return 0;
    }
    let acc: i128 = sum_i128(v);
    let mean128: i128 = div_i128(acc, n as i128);
    proof {
        lemma_tdiv_bound(acc as int, n as int, RET_CAP as int);
    }
    mean128 as i64
}

/// Annualised volatility of a return series.
pub fn calculate_volatility(return_series: &Vec<i64>) -> (r: i64)
    requires
        return_series@.len() <= MAX_SERIES,
        forall|k: int| 0 <= k < return_series@.len() ==> -RET_CAP <= #[trigger] return_series@[k] <= RET_CAP,
    ensures
        r as int == volatility_spec(vals_of(return_series@)),
        r >= 0,
{
    let ghost rs = vals_of(return_series@);
    let n: usize = return_series.len();
    if n < 2 {
        return 0;
    }
    let mean: i64 = mean_i64(return_series);
    let sumsq: i128 = dev2_i128(return_series, mean);
    annualized_std(sumsq, (n - 1) as i128)
}

/// Annualised Sharpe ratio from a return series and a precomputed
/// volatility: zero when the volatility is zero, otherwise the annualised
/// mean excess return over the volatility.
pub open spec fn sharpe_spec(rs: Seq<int>, rf: int, vol: int) -> int {
    if vol <= 0 {
        0
    } else {
        sat_i64(tdiv((mean_spec(rs) * (TRADING_DAYS as int) - rf) * (SCALE as int), vol))
    }
}

/// Annualised Sharpe ratio. Zero exactly when the volatility is zero (or
/// negative); always a well-defined finite value.
pub fn calculate_sharpe_ratio(return_series: &Vec<i64>, risk_free_rate: i64, volatility: i64) -> (r: i64)
    requires
        return_series@.len() <= MAX_SERIES,
        forall|k: int| 0 <= k < return_series@.len() ==> -RET_CAP <= #[trigger] return_series@[k] <= RET_CAP,
    ensures
        r as int == sharpe_spec(vals_of(return_series@), risk_free_rate as int, volatility as int),
        volatility <= 0 ==> r == 0,
{
    let ghost rs = vals_of(return_series@);
    if volatility <= 0 {
        return 0;
    }
    let n: usize = return_series.len();
    let mean: i64 = mean_i64(return_series);
    proof {
        assert(-(1_000_000_000_000_000_000_000_000 as int)
            <= (mean as int * (TRADING_DAYS as int) - risk_free_rate as int) * (SCALE as int)
            <= 1_000_000_000_000_000_000_000_000 as int) by (nonlinear_arith)
            requires
                -RET_CAP <= mean as int <= RET_CAP,
                RET_CAP as int == 1_000_000_000_000,
                TRADING_DAYS as int == 252,
                SCALE as int == 10_000,
                i64::MIN <= risk_free_rate as int <= i64::MAX,
        ;
    }
    let num: i128 = (mean as i128 * TRADING_DAYS as i128 - risk_free_rate as i128) * SCALE as i128;
    clamp_i64(div_i128(num, volatility as i128))
}

/// Sum of squared deviations from `m` over the first `i` entries, as an
/// executable loop computes it.
fn dev2_i128(v: &Vec<i64>, m: i64) -> (acc: i128)
    requires
        v@.len() <= MAX_SERIES,
        forall|k: int| 0 <= k < v@.len() ==> -RET_CAP <= #[trigger] v@[k] <= RET_CAP,
        -RET_CAP <= m <= RET_CAP,
    ensures
        acc as int == dev2_upto(vals_of(v@), m as int, v@.len() as int),
        0 <= acc as int <= 4_000_000_000_000_000_000_000_000_000_000,
{
    let ghost rs = vals_of(v@);
    let n: usize = v.len();
    let mut acc2: i128 = 0;
    let mut j: usize = 0;
    while j < n
        invariant
            0 <= j <= n,
            n == v@.len(),
            n <= MAX_SERIES,
            rs == vals_of(v@),
            forall|k: int| 0 <= k < v@.len() ==> -RET_CAP <= #[trigger] v@[k] <= RET_CAP,
            -RET_CAP <= m <= RET_CAP,
            acc2 as int == dev2_upto(rs, m as int, j as int),
            0 <= acc2 as int <= j as int * (4 * (RET_CAP as int) * (RET_CAP as int)),
        decreases n - j,
    {
        let d: i128 = v[j] as i128 - m as i128;
        proof {
            assert(rs[j as int] == v@[j as int] as int);
            assert(0 <= d as int * d as int <= 4 * (RET_CAP as int) * (RET_CAP as int)) by (nonlinear_arith)
                requires
                    -(2 * (RET_CAP as int)) <= d as int <= 2 * (RET_CAP as int),
            ;
            assert((j as int) * (4 * (RET_CAP as int) * (RET_CAP as int)) + 4 * (RET_CAP as int) * (RET_CAP as int)
                == (j as int + 1) * (4 * (RET_CAP as int) * (RET_CAP as int))) by (nonlinear_arith);
            assert((j as int + 1) * (4 * (RET_CAP as int) * (RET_CAP as int))
                <= 4_000_000_000_000_000_000_000_000_000_000) by (nonlinear_arith)
                requires
                    0 <= (j as int) + 1 <= 1_000_000,
                    RET_CAP as int == 1_000_000_000_000,
            ;
        }
        acc2 = acc2 + d * d;
        j = j + 1;
    }
    proof {
        assert((n as int) * (4 * (RET_CAP as int) * (RET_CAP as int))
            <= 4_000_000_000_000_000_000_000_000_000_000) by (nonlinear_arith)
            requires
                0 <= (n as int) <= 1_000_000,
                RET_CAP as int == 1_000_000_000_000,
        ;
    }
    acc2
}

/// Square root of `sumsq / d`, annualised by the square root of the trading
/// year.
fn annualized_std(sumsq: i128, d: i128) -> (r: i64)
    requires
        d >= 1,
        0 <= sumsq <= 4_000_000_000_000_000_000_000_000_000_000,
    ensures
        r as int == fx_mul_spec(isqrt_spec(tdiv(sumsq as int, d as int)), SQRT_252 as int),
        r >= 0,
{
    let var128: i128 = div_i128(sumsq, d);
    proof {
        lemma_tdiv_nonneg(sumsq as int, d as int);
    }
    let std: i64 = isqrt_i128(var128);
    proof {
        lemma_isqrt(var128 as int);
        assert(std as int <= 3_000_000_000_000_000) by (nonlinear_arith)
            requires
                std as int * std as int <= var128 as int,
                var128 as int <= 4_000_000_000_000_000_000_000_000_000_000,
                std >= 0,
        ;
        assert(0 <= std as int * (SQRT_252 as int) <= (SCALE as int) * 1_000_000_000_000_000_000) by (nonlinear_arith)
            requires
                0 <= (std as int) <= 3_000_000_000_000_000,
                SQRT_252 as int == 158_745,
                SCALE as int == 10_000,
        ;
        lemma_tdiv_bound(std as int * (SQRT_252 as int), SCALE as int, 1_000_000_000_000_000_000);
    }
    fx_mul(std, SQRT_252)
}

/// The negative entries among the first `i`, in order.
pub open spec fn negs_upto(rs: Seq<int>, i: int) -> Seq<int>
    decreases i,
{
    if i <= 0 {
        Seq::empty()
    } else {
        let s = negs_upto(rs, i - 1);
        if rs[i - 1] < 0 {
            s.push(rs[i - 1])
        } else {
            s
        }
    }
}

/// A prefix of negatives is never longer than the prefix it came from, and
/// keeps the bounds of its entries.
pub proof fn lemma_negs_upto_bounds(rs: Seq<int>, i: int, c: int)
    requires
        0 <= i <= rs.len(),
        forall|k: int| 0 <= k < rs.len() ==> -c <= #[trigger] rs[k] <= c,
    ensures
        negs_upto(rs, i).len() <= i,
        forall|k: int| 0 <= k < negs_upto(rs, i).len()
            ==> -c <= #[trigger] negs_upto(rs, i)[k] <= c,
    decreases i,
{
    if i > 0 {
        lemma_negs_upto_bounds(rs, i - 1, c);
    }
}

/// Annualised Sortino ratio: downside deviation over the negative returns
/// only; the saturation sentinel when there is no negative return, zero
/// when the downside deviation vanishes, zero on an empty series. The
/// numerator is the compounded annual growth of the mean return.
pub open spec fn sortino_spec(rs: Seq<int>, rf: int) -> int {
    if rs.len() == 0 {
        0
    } else {
        let negs = negs_upto(rs, rs.len() as int);
        if negs.len() == 0 {
            FX_INF as int
        } else {
            let m = mean_spec(rs);
            let dd = fx_mul_spec(
                isqrt_spec(tdiv(dev2_upto(negs, m, negs.len() as int), negs.len() as int)),
                SQRT_252 as int,
            );
            if dd <= 0 {
                0
            } else {
                let cagr = pow_sat(SCALE as int + m, TRADING_DAYS as nat) - SCALE as int;
                sat_i64(tdiv((cagr - rf) * (SCALE as int), dd))
            }
        }
    }
}

/// Annualised Sortino ratio of a return series.
pub fn calculate_sortino_ratio(return_series: &Vec<i64>, risk_free_rate: i64) -> (r: i64)
    requires
        return_series@.len() <= MAX_SERIES,
        forall|k: int| 0 <= k < return_series@.len() ==> -RET_CAP <= #[trigger] return_series@[k] <= RET_CAP,
    ensures
        r as int == sortino_spec(vals_of(return_series@), risk_free_rate as int),
{
    let ghost rs = vals_of(return_series@);
    let n: usize = return_series.len();
    if n == 0 {
        return 0;
    }
    let mut negs: Vec<i64> = Vec::new();
    let mut i: usize = 0;
    while i < n
        invariant
            0 <= i <= n,
            n == return_series@.len(),
            n <= MAX_SERIES,
            rs == vals_of(return_series@),
            forall|k: int| 0 <= k < return_series@.len()
                ==> -RET_CAP <= #[trigger] return_series@[k] <= RET_CAP,
            vals_of(negs@) == negs_upto(rs, i as int),
            negs@.len() <= i,
            forall|k: int| 0 <= k < negs@.len() ==> -RET_CAP <= #[trigger] negs@[k] <= RET_CAP,
        decreases n - i,
    {
        let x: i64 = return_series[i];
        proof {
            assert(rs[i as int] == return_series@[i as int] as int);
        }
        if x < 0 {
            let ghost prev = negs@;
            negs.push(x);
            proof {
                assert(vals_of(negs@) =~= vals_of(prev).push(x as int));
            }
        }
        i = i + 1;
    }
    if negs.len() == 0 {
        return FX_INF;
    }
    let mean: i64 = mean_i64(return_series);
    let sumsq: i128 = dev2_i128(&negs, mean);
    let dd: i64 = annualized_std(sumsq, negs.len() as i128);
    if dd <= 0 {
        return 0;
    }
    let base: i64 = SCALE + mean;
    let p: i64 = fx_pow_sat(base, TRADING_DAYS as u64);
    let cagr: i128 = p as i128 - SCALE as i128;
    let num: i128 = (cagr - risk_free_rate as i128) * SCALE as i128;
    clamp_i64(div_i128(num, dd as i128))
}

/// One plus the total return, lifted to the high-precision scale and
/// capped there.
pub open spec fn growth_base_hi(tr: int) -> int {
    let b = (SCALE as int + tr) * 10_000;
    if b > crate::fixed::HI_CAP as int {
        crate::fixed::HI_CAP as int
    } else {
        b
    }
}

/// Annualised return by compound growth: the `days`-th root of one plus
/// the total return, raised to the trading year, computed at eight decimal
/// places and brought back to the library's scale; zero when `days` is
/// zero.
pub open spec fn annualized_spec(tr: int, days: nat) -> int {
    if days == 0 {
        0
    } else {
        let root = crate::fixed::fx_root_hi_spec(growth_base_hi(tr), days);
        sat_i64(tdiv(crate::fixed::pow_hi(root, TRADING_DAYS as nat) - crate::fixed::SCALE_HI as int,
            10_000))
    }
}

/// Annualised return from a total return over `days` trading days.
pub fn calculate_annualized_return(total_return: i64, days: u64) -> (r: i64)
    requires
        total_return >= -SCALE,
    ensures
        r as int == annualized_spec(total_return as int, days as nat),
{
    if days == 0 {
        return 0;
    }
    let lifted: i128 = (SCALE as i128 + total_return as i128) * 10_000;
    let base: i128 = if lifted > crate::fixed::HI_CAP as i128 {
        crate::fixed::HI_CAP as i128
    } else {
        lifted
    };
    let root: i128 = crate::fixed::fx_root_hi(base, days);
    let p: i128 = crate::fixed::fx_pow_hi(root, TRADING_DAYS as u64);
    clamp_i64(div_i128(p - crate::fixed::SCALE_HI as i128, 10_000))
}

/// Calmar ratio: annualised return over maximum drawdown; zero when the
/// drawdown is zero.
pub open spec fn calmar_from(ann: int, mdd: int) -> int {
    if mdd > 0 {
        sat_i64(tdiv(ann * (SCALE as int), mdd))
    } else {
        0
    }
}

/// Number of strictly profitable trades among the first `i`.
pub open spec fn wins_upto(pnls: Seq<int>, i: int) -> int
    decreases i,
{
    if i <= 0 {
        0
    } else {
        wins_upto(pnls, i - 1) + if pnls[i - 1] > 0 { 1int } else { 0int }
    }
}

/// Fraction of profitable trades, in fixed point; zero with no trades.
pub open spec fn win_rate_spec(pnls: Seq<int>) -> int {
    if pnls.len() == 0 {
        0
    } else {
        tdiv(wins_upto(pnls, pnls.len() as int) * (SCALE as int), pnls.len() as int)
    }
}

/// Sum of positive trade results among the first `i`.
pub open spec fn profit_upto(pnls: Seq<int>, i: int) -> int
    decreases i,
{
    if i <= 0 {
        0
    } else {
        profit_upto(pnls, i - 1) + if pnls[i - 1] > 0 { pnls[i - 1] } else { 0int }
    }
}

/// Magnitude of the losing trade results among the first `i`.
pub open spec fn loss_upto(pnls: Seq<int>, i: int) -> int
    decreases i,
{
    if i <= 0 {
        0
    } else {
        loss_upto(pnls, i - 1) + if pnls[i - 1] > 0 { 0int } else { -pnls[i - 1] }
    }
}

/// Profit factor: gross profit over gross loss; the saturation sentinel
/// with profit but no loss, zero with neither.
pub open spec fn profit_factor_spec(pnls: Seq<int>) -> int {
    let profit = profit_upto(pnls, pnls.len() as int);
    let loss = loss_upto(pnls, pnls.len() as int);
    if loss == 0 {
        if profit > 0 {
            FX_INF as int
        } else {
            0
        }
    } else {
        sat_i64(tdiv(profit * (SCALE as int), loss))
    }
}

/// The trade results of a ledger.
pub open spec fn pnls_of(ts: Seq<Trade>) -> Seq<int> {
    ts.map_values(|t: Trade| t.pnl as int)
}

/// A trade's hold time in fixed-point days, from second-resolution
/// timestamps.
pub open spec fn hold_of(t: Trade) -> int {
    tdiv((t.exit_ts - t.entry_ts) * (SCALE as int), SECONDS_PER_DAY as int)
}

/// Sum of hold times over the first `i` trades.
pub open spec fn holds_upto(ts: Seq<Trade>, i: int) -> int
    decreases i,
{
    if i <= 0 {
        0
    } else {
        holds_upto(ts, i - 1) + hold_of(ts[i - 1])
    }
}

/// Mean hold time in fixed-point days; zero with no trades.
pub open spec fn avg_hold_spec(ts: Seq<Trade>) -> int {
    if ts.len() == 0 {
        0
    } else {
        tdiv(holds_upto(ts, ts.len() as int), ts.len() as int)
    }
}

/// Number of strictly profitable trades.
fn calculate_winning_trades(trades: &Vec<Trade>) -> (w: usize)
    ensures
        w as int == wins_upto(pnls_of(trades@), trades@.len() as int),
        w <= trades@.len(),
{
    let ghost pnls = pnls_of(trades@);
    let n: usize = trades.len();
    let mut w: usize = 0;
    let mut i: usize = 0;
    while i < n
        invariant
            0 <= i <= n,
            n == trades@.len(),
            pnls == pnls_of(trades@),
            w as int == wins_upto(pnls, i as int),
            w <= i,
        decreases n - i,
    {
        proof {
            assert(pnls[i as int] == trades@[i as int].pnl as int);
        }
        if trades[i].pnl > 0 {
            w = w + 1;
        }
        i = i + 1;
    }
    w
}

/// Profit factor of a trade ledger.
fn calculate_profit_factor(trades: &Vec<Trade>) -> (r: i64)
    requires
        trades@.len() <= MAX_SERIES,
    ensures
        r as int == profit_factor_spec(pnls_of(trades@)),
        r >= 0,
{
    let ghost pnls = pnls_of(trades@);
    let n: usize = trades.len();
    let mut profit: i128 = 0;
    let mut loss: i128 = 0;
    let mut i: usize = 0;
    while i < n
        invariant
            0 <= i <= n,
            n == trades@.len(),
            n <= MAX_SERIES,
            pnls == pnls_of(trades@),
            profit as int == profit_upto(pnls, i as int),
            loss as int == loss_upto(pnls, i as int),
            0 <= profit as int <= i as int * (i64::MAX as int + 1),
            0 <= loss as int <= i as int * (i64::MAX as int + 1),
        decreases n - i,
    {
        proof {
            assert(pnls[i as int] == trades@[i as int].pnl as int);
            assert((i as int + 1) * (i64::MAX as int + 1)
                == i as int * (i64::MAX as int + 1) + (i64::MAX as int + 1)) by (nonlinear_arith);
            assert((i as int + 1) * (i64::MAX as int + 1)
                <= 1_000_000 * (i64::MAX as int + 1)) by (nonlinear_arith)
                requires
                    0 <= (i as int) + 1 <= 1_000_000,
            ;
        }
        let p: i64 = trades[i].pnl;
        if p > 0 {
            profit = profit + p as i128;
        } else {
            loss = loss - p as i128;
        }
        i = i + 1;
    }
    proof {
        assert((n as int) * (i64::MAX as int + 1) <= 1_000_000 * (i64::MAX as int + 1))
            by (nonlinear_arith)
            requires
                0 <= (n as int) <= 1_000_000,
        ;
    }
    if loss == 0 {
        if profit > 0 {
            FX_INF
        } else {
            0
        }
    } else {
        proof {
            lemma_tdiv_nonneg(profit as int * (SCALE as int), loss as int);
            assert(profit as int * (SCALE as int) >= 0) by (nonlinear_arith)
                requires
                    profit as int >= 0,
            ;
        }
        clamp_i64(div_i128(profit * SCALE as i128, loss))
    }
}

/// Mean hold time of the trades in a ledger, in fixed-point days.
fn calculate_average_hold_time(trades: &Vec<Trade>) -> (r: i64)
    requires
        trades@.len() <= MAX_SERIES,
    ensures
        r as int == avg_hold_spec(trades@),
{
    let n: usize = trades.len();
    if n == 0 {
        return 0;
    }
    let mut acc: i128 = 0;
    let mut i: usize = 0;
    while i < n
        invariant
            0 <= i <= n,
            n == trades@.len(),
            n <= MAX_SERIES,
            acc as int == holds_upto(trades@, i as int),
            -(i as int * 2_200_000_000_000_000_000) <= acc as int
                <= i as int * 2_200_000_000_000_000_000,
        decreases n - i,
    {
        let t = &trades[i];
        let ghost diff: int = t.exit_ts as int - t.entry_ts as int;
        proof {
            assert(-(SECONDS_PER_DAY as int * 2_200_000_000_000_000_000) <= diff * (SCALE as int)
                <= SECONDS_PER_DAY as int * 2_200_000_000_000_000_000) by (nonlinear_arith)
                requires
                    -18_500_000_000_000_000_000 <= diff <= 18_500_000_000_000_000_000,
                    SECONDS_PER_DAY as int == 86_400,
                    SCALE as int == 10_000,
            ;
        }
        let num: i128 = (t.exit_ts as i128 - t.entry_ts as i128) * SCALE as i128;
        let h: i128 = div_i128(num, SECONDS_PER_DAY as i128);
        proof {
            lemma_tdiv_bound(num as int, SECONDS_PER_DAY as int, 2_200_000_000_000_000_000);
            assert((i as int + 1) * 2_200_000_000_000_000_000
                == i as int * 2_200_000_000_000_000_000 + 2_200_000_000_000_000_000) by (nonlinear_arith);
            assert((i as int + 1) * 2_200_000_000_000_000_000
                <= 1_000_000 * 2_200_000_000_000_000_000) by (nonlinear_arith)
                requires
                    0 <= (i as int) + 1 <= 1_000_000,
            ;
        }
        acc = acc + h;
        i = i + 1;
    }
    proof {
        lemma_tdiv_bound(acc as int, n as int, 2_200_000_000_000_000_000);
    }
    div_i128(acc, n as i128) as i64
}

/// The total return of an equity curve with a positive first value, in
/// fixed point, saturated into range.
pub open spec fn total_return_spec(vals: Seq<int>) -> int {
    sat_i64(tdiv((vals[vals.len() - 1] - vals[0]) * (SCALE as int), vals[0]))
}

/// The complete metrics calculation as one function of its inputs: the
/// error on degenerate input, otherwise every field of the bundle.
pub open spec fn metrics_result_spec(ts: Seq<Trade>, vals: Seq<int>, rf: int)
    -> Result<PerformanceMetrics, MetricsError> {
    if vals.len() == 0 {
        Err(MetricsError::EmptyEquityCurve)
    } else if exists|j: int| 0 <= j < vals.len() && #[trigger] vals[j] < 0 {
        Err(MetricsError::InvalidData)
    } else if rets_spec(vals) is None {
        Err(MetricsError::InvalidData)
    } else if vals[0] <= 0 {
        Err(MetricsError::InvalidData)
    } else {
        let rets = rets_spec(vals)->Some_0;
        let tr = total_return_spec(vals);
        let vol = volatility_spec(rets);
        let mdd = mdd_spec(vals);
        let ann = annualized_spec(tr, (vals.len() - 1) as nat);
        let pnls = pnls_of(ts);
        Ok(PerformanceMetrics {
            total_return: tr as i64,
            annualized_return: ann as i64,
            sharpe_ratio: sharpe_spec(rets, rf, vol) as i64,
            sortino_ratio: sortino_spec(rets, rf) as i64,
            max_drawdown: mdd as i64,
            calmar_ratio: calmar_from(ann, mdd) as i64,
            win_rate: win_rate_spec(pnls) as i64,
            avg_hold_days: avg_hold_spec(ts) as i64,
            profit_factor: profit_factor_spec(pnls) as i64,
            volatility: vol as i64,
            trade_count: ts.len() as usize,
            execution_time_ms: 0,
        })
    }
}

/// Metrics for a backtest run: tolerates an empty ledger, fails on an empty
/// curve, a negative equity value, a non-positive base for a return, or a
/// return outside the representable range.
pub fn metrics_for_run(trades: &Vec<Trade>, equity_curve: &Vec<i64>, risk_free_rate: i64)
    -> (r: Result<PerformanceMetrics, MetricsError>)
    requires
        trades@.len() <= MAX_SERIES,
        equity_curve@.len() <= MAX_SERIES,
    ensures
        r == metrics_result_spec(trades@, vals_of(equity_curve@), risk_free_rate as int),
        r is Ok <==> {
            &&& equity_curve@.len() > 0
            &&& forall|j: int| 0 <= j < equity_curve@.len() ==> #[trigger] equity_curve@[j] >= 0
            &&& rets_spec(vals_of(equity_curve@)) is Some
            &&& equity_curve@[0] > 0
        },
{
    let ghost vals = vals_of(equity_curve@);
    let n: usize = equity_curve.len();
    if n == 0 {
        return Err(MetricsError::EmptyEquityCurve);
    }
    let mut i: usize = 0;
    while i < n
        invariant
            0 <= i <= n,
            n == equity_curve@.len(),
            vals == vals_of(equity_curve@),
            forall|j: int| 0 <= j < i ==> #[trigger] vals[j] >= 0,
        decreases n - i,
    {
        proof {
            assert(vals[i as int] == equity_curve@[i as int] as int);
        }
        if equity_curve[i] < 0 {
            return Err(MetricsError::InvalidData);
        }
        i = i + 1;
    }
    proof {
        assert forall|j: int| 0 <= j < equity_curve@.len() implies #[trigger] equity_curve@[j] >= 0 by {
            assert(vals[j] == equity_curve@[j] as int);
        }
    }
    let rets: Vec<i64> = match calculate_returns(equity_curve) {
        Ok(v) => v,
        Err(_) => {
            return Err(MetricsError::InvalidData);
        },
    };
    let first: i64 = equity_curve[0];
    if first <= 0 {
        return Err(MetricsError::InvalidData);
    }
    let last: i64 = equity_curve[n - 1];
    let tr: i64 = clamp_i64(div_i128(
        (last as i128 - first as i128) * SCALE as i128,
        first as i128,
    ));
    proof {
        assert(vals[n - 1] == equity_curve@[n - 1] as int);
        assert((last as int - first as int) * (SCALE as int) >= -((first as int) * (SCALE as int)))
            by (nonlinear_arith)
            requires
                last as int >= 0,
                first as int > 0,
                SCALE as int > 0,
        ;
        lemma_tdiv_lower((last as int - first as int) * (SCALE as int), first as int, SCALE as int);
    }
    let vol: i64 = calculate_volatility(&rets);
    let sharpe: i64 = calculate_sharpe_ratio(&rets, risk_free_rate, vol);
    let sortino: i64 = calculate_sortino_ratio(&rets, risk_free_rate);
    let mdd: i64 = calculate_max_drawdown(equity_curve);
    let ann: i64 = calculate_annualized_return(tr, (n - 1) as u64);
    let calmar: i64 = if mdd > 0 {
        proof {
            lemma_i64_prod(ann as int, SCALE as int);
        }
        clamp_i64(div_i128(ann as i128 * SCALE as i128, mdd as i128))
    } else {
        0
    };
    let wins: usize = calculate_winning_trades(trades);
    let trade_count: usize = trades.len();
    let win_rate: i64 = if trade_count > 0 {
        proof {
            assert(0 <= wins as int * (SCALE as int) <= trade_count as int * (SCALE as int)
                && trade_count as int * (SCALE as int) <= 10_000_000_000)
                by (nonlinear_arith)
                requires
                    0 <= wins as int <= trade_count as int,
                    trade_count as int <= 1_000_000,
                    SCALE as int == 10_000,
            ;
            lemma_tdiv_bound(wins as int * (SCALE as int), trade_count as int, SCALE as int);
        }
        div_i128(wins as i128 * SCALE as i128, trade_count as i128) as i64
    } else {
        0
    };
    let avg_hold: i64 = calculate_average_hold_time(trades);
    let pf: i64 = calculate_profit_factor(trades);
    Ok(PerformanceMetrics {
        total_return: tr,
        annualized_return: ann,
        sharpe_ratio: sharpe,
        sortino_ratio: sortino,
        max_drawdown: mdd,
        calmar_ratio: calmar,
        win_rate,
        avg_hold_days: avg_hold,
        profit_factor: pf,
        volatility: vol,
        trade_count,
        execution_time_ms: 0,
    })
}

/// The strict calculator: an empty trade ledger is itself an error;
/// everything else is as `metrics_for_run`.
pub fn calculate_metrics(trades: &Vec<Trade>, equity_curve: &Vec<i64>, risk_free_rate: i64)
    -> (r: Result<PerformanceMetrics, MetricsError>)
    requires
        trades@.len() <= MAX_SERIES,
        equity_curve@.len() <= MAX_SERIES,
    ensures
        trades@.len() == 0 ==> r == Err::<PerformanceMetrics, MetricsError>(MetricsError::EmptyTrades),
        trades@.len() > 0 ==> r == metrics_result_spec(
            trades@, vals_of(equity_curve@), risk_free_rate as int),
{
    if trades.len() == 0 {
        return Err(MetricsError::EmptyTrades);
    }
    metrics_for_run(trades, equity_curve, risk_free_rate)
}

/// The metrics calculation is a function of its inputs: two results of the
/// calculator on the same ledger, curve and rate are equal.
pub proof fn lemma_metrics_idempotent(
    ts: Seq<Trade>,
    vals: Seq<int>,
    rf: int,
    r1: Result<PerformanceMetrics, MetricsError>,
    r2: Result<PerformanceMetrics, MetricsError>,
)
    requires
        r1 == metrics_result_spec(ts, vals, rf),
        r2 == metrics_result_spec(ts, vals, rf),
    ensures
        r1 == r2,
{
}

/// The Sharpe ratio is zero exactly when the volatility is zero, and is a
/// well-defined finite value whenever the volatility is positive.
pub proof fn lemma_sharpe_cases(rs: Seq<int>, rf: int, vol: int)
    requires
        vol >= 0,
    ensures
        vol == 0 ==> sharpe_spec(rs, rf, vol) == 0,
        vol > 0 ==> sharpe_spec(rs, rf, vol)
            == sat_i64(tdiv((mean_spec(rs) * (TRADING_DAYS as int) - rf) * (SCALE as int), vol)),
        i64::MIN <= sharpe_spec(rs, rf, vol) <= i64::MAX,
{
}

} // verus!
