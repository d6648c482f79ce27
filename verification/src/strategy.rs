//! The closed strategy catalogue: each variant carries its parameters,
//! validates its structural preconditions, and resolves a bar series into
//! a signal stream through its indicator's crossover helper.

use vstd::prelude::*;
use crate::fixed::SCALE;
use crate::types::{Bar, Signal, SignalType, BacktestError, bars_valid, bar_valid};
use crate::metrics::{vals_of, MAX_SERIES};
use crate::indicators::window::VAL_CAP;
use crate::indicators::moving_average::{sma_at, ema_factor};
use crate::indicators::rsi::{rsi_at, rsi_signal_at, RSI_NEUTRAL};
use crate::indicators::macd::{macd_line_seq, macd_signal_at};
use crate::indicators::bollinger::{bb_halfwidth, bollinger_signal_at, BAND_CAP};
use crate::indicators::kdj::{k_at, d_at, kdj_signal_at};
use crate::indicators::cci::{cci_at, cci_signal_at};
use crate::indicators::adx::{adx_tr_at, dmp_at, dmm_at, di_of, dx_of, adx_rec, adx_signal_at};
use crate::indicators::atr::{tr_at, atr_signal_at};
use crate::indicators::obv::{obv_at, obv_signal_at};
use crate::indicators::ichimoku::{mid_at, ichimoku_signal_at};
use crate::indicators::sar::{sar_at, sar_signal_at};
use crate::engine::{ma_cross_signals_spec, generate_ma_cross_signals};

verus! {

/// The closed catalogue of rule strategies, each with its structural
/// parameters. Threshold and factor fields are fixed-point values.
#[derive(Clone, Copy, PartialEq, Eq, Structural, Debug)]
pub enum StrategyType {
    MovingAverageCross { fast_period: usize, slow_period: usize },
    RSI { period: usize, oversold: i64, overbought: i64 },
    MACD { fast: usize, slow: usize, signal: usize },
    BollingerBands { period: usize, std_dev: i64 },
    KDJ { k_period: usize, d_period: usize, oversold: i64, overbought: i64 },
    CCI { period: usize },
    ADX { period: usize, threshold: i64 },
    ATR { period: usize, multiplier: i64 },
    OBV { period: usize },
    Ichimoku { conv: usize, base: usize, lag: usize },
    ParabolicSAR { af_start: i64, af_max: i64 },
}

/// The structural preconditions of each strategy variant.
pub open spec fn strategy_valid(s: StrategyType) -> bool {
    match s {
        StrategyType::MovingAverageCross { fast_period, slow_period } =>
            1 <= fast_period < slow_period && slow_period <= MAX_SERIES,
        StrategyType::RSI { period, oversold, overbought } =>
            period >= 1 && 0 <= oversold < overbought && overbought <= 100 * SCALE,
        StrategyType::MACD { fast, slow, signal } =>
            1 <= fast < slow && signal >= 1 && slow <= MAX_SERIES,
        StrategyType::BollingerBands { period, std_dev } =>
            period >= 1 && 0 <= std_dev <= BAND_CAP,
        StrategyType::KDJ { k_period, d_period, oversold, overbought } =>
            k_period >= 1 && d_period >= 1 && 0 <= oversold < overbought && overbought <= 100 * SCALE,
        StrategyType::CCI { period } => period >= 1,
        StrategyType::ADX { period, threshold } => period >= 1 && threshold >= 0,
        StrategyType::ATR { period, multiplier } => period >= 1 && 0 <= multiplier <= 1_000_000,
        StrategyType::OBV { period } => period >= 1,
        StrategyType::Ichimoku { conv, base, lag } =>
            conv >= 1 && base >= 1 && 1 <= lag && lag <= MAX_SERIES,
        StrategyType::ParabolicSAR { af_start, af_max } =>
            0 < af_start < af_max && af_max <= SCALE,
    }
}

/// Validates a strategy's structural preconditions: `Ok` exactly when the
/// variant satisfies its invariant.
pub fn validate_strategy(s: &StrategyType) -> (r: Result<(), BacktestError>)
    ensures
        r.is_ok() <==> strategy_valid(*s),
        !strategy_valid(*s) ==> (r matches Err(BacktestError::ValidationFailed { .. })),
{
    let ok: bool = match s {
        StrategyType::MovingAverageCross { fast_period, slow_period } =>
            1 <= *fast_period && *fast_period < *slow_period && *slow_period <= MAX_SERIES,
        StrategyType::RSI { period, oversold, overbought } =>
            *period >= 1 && 0 <= *oversold && *oversold < *overbought && *overbought <= 100 * SCALE,
        StrategyType::MACD { fast, slow, signal } =>
            1 <= *fast && *fast < *slow && *signal >= 1 && *slow <= MAX_SERIES,
        StrategyType::BollingerBands { period, std_dev } =>
            *period >= 1 && 0 <= *std_dev && *std_dev <= BAND_CAP,
        StrategyType::KDJ { k_period, d_period, oversold, overbought } =>
            *k_period >= 1 && *d_period >= 1 && 0 <= *oversold && *oversold < *overbought
                && *overbought <= 100 * SCALE,
        StrategyType::CCI { period } => *period >= 1,
        StrategyType::ADX { period, threshold } => *period >= 1 && *threshold >= 0,
        StrategyType::ATR { period, multiplier } => *period >= 1 && 0 <= *multiplier && *multiplier <= 1_000_000,
        StrategyType::OBV { period } => *period >= 1,
        StrategyType::Ichimoku { conv, base, lag } =>
            *conv >= 1 && *base >= 1 && 1 <= *lag && *lag <= MAX_SERIES,
        StrategyType::ParabolicSAR { af_start, af_max } =>
            0 < *af_start && *af_start < *af_max && *af_max <= SCALE,
    };
    if ok {
        Ok(())
    } else {
        Err(BacktestError::ValidationFailed {
            field: "strategy",
            reason: "a structural precondition on the parameters failed",
        })
    }
}

/// The signals a discrete impulse vector induces: one buy signal per `1`,
/// one sell per `-1`, nothing for `0`, each at its bar's timestamp and
/// close.
pub open spec fn impulse_signals(bars: Seq<Bar>, imps: Seq<int>, i: int) -> Seq<Signal>
    decreases i,
{
    if i <= 0 {
        Seq::empty()
    } else {
        let rest = impulse_signals(bars, imps, i - 1);
        if imps[i - 1] == 1 {
            rest.push(Signal {
                ts: bars[i - 1].ts,
                kind: SignalType::Buy,
                price_hint: bars[i - 1].close,
                strength: SCALE,
            })
        } else if imps[i - 1] == -1 {
            rest.push(Signal {
                ts: bars[i - 1].ts,
                kind: SignalType::Sell,
                price_hint: bars[i - 1].close,
                strength: SCALE,
            })
        } else {
            rest
        }
    }
}

/// Translate a discrete impulse vector into a signal stream.
pub fn signals_from_impulses(bars: &Vec<Bar>, imps: &Vec<i32>) -> (out: Vec<Signal>)
    requires
        bars@.len() == imps@.len(),
    ensures
        out@ == impulse_signals(bars@, vals_of_i32(imps@), bars@.len() as int),
{
    let ghost iv = vals_of_i32(imps@);
    let n: usize = bars.len();
    let mut out: Vec<Signal> = Vec::new();
    let mut i: usize = 0;
    while i < n
        invariant
            0 <= i <= n,
            n == bars@.len(),
            n == imps@.len(),
            iv == vals_of_i32(imps@),
            out@ == impulse_signals(bars@, iv, i as int),
        decreases n - i,
    {
        proof {
            assert(iv[i as int] == imps@[i as int] as int);
        }
        let s: i32 = imps[i];
        if s == 1 {
            out.push(Signal {
                ts: bars[i].ts,
                kind: SignalType::Buy,
                price_hint: bars[i].close,
                strength: SCALE,
            });
        } else if s == -1 {
            out.push(Signal {
                ts: bars[i].ts,
                kind: SignalType::Sell,
                price_hint: bars[i].close,
                strength: SCALE,
            });
        }
        i = i + 1;
    }
    out
}

/// The integer views of a vector of impulses.
pub open spec fn vals_of_i32(v: Seq<i32>) -> Seq<int> {
    v.map_values(|x: i32| x as int)
}

/// The close series of a bar sequence.
pub open spec fn closes_of(bars: Seq<Bar>) -> Seq<int> {
    bars.map_values(|b: Bar| b.close as int)
}

/// The high series of a bar sequence.
pub open spec fn highs_of(bars: Seq<Bar>) -> Seq<int> {
    bars.map_values(|b: Bar| b.high as int)
}

/// The low series of a bar sequence.
pub open spec fn lows_of(bars: Seq<Bar>) -> Seq<int> {
    bars.map_values(|b: Bar| b.low as int)
}

/// The volume series of a bar sequence.
pub open spec fn volumes_of(bars: Seq<Bar>) -> Seq<int> {
    bars.map_values(|b: Bar| b.volume as int)
}

/// Extract one field series from a valid bar series.
pub fn extract_closes(bars: &Vec<Bar>) -> (out: Vec<i64>)
    requires
        bars_valid(bars@),
    ensures
        out@.len() == bars@.len(),
        vals_of(out@) == closes_of(bars@),
        forall|k: int| 0 <= k < out@.len() ==> -(VAL_CAP / 2) <= #[trigger] out@[k] <= VAL_CAP / 2,
{
    let n: usize = bars.len();
    let mut out: Vec<i64> = Vec::new();
    let mut i: usize = 0;
    while i < n
        invariant
            0 <= i <= n,
            n == bars@.len(),
            bars_valid(bars@),
            out@.len() == i,
            forall|k: int| 0 <= k < i ==> #[trigger] out@[k] == bars@[k].close,
            forall|k: int| 0 <= k < i ==> -(VAL_CAP / 2) <= #[trigger] out@[k] <= VAL_CAP / 2,
        decreases n - i,
    {
        proof {
            assert(bar_valid(bars@[i as int]));
        }
        out.push(bars[i].close);
        i = i + 1;
    }
    proof {
        assert(vals_of(out@) =~= closes_of(bars@));
    }
    out
}

/// Extract the high series from a valid bar series.
pub fn extract_highs(bars: &Vec<Bar>) -> (out: Vec<i64>)
    requires
        bars_valid(bars@),
    ensures
        out@.len() == bars@.len(),
        vals_of(out@) == highs_of(bars@),
        forall|k: int| 0 <= k < out@.len() ==> -(VAL_CAP / 2) <= #[trigger] out@[k] <= VAL_CAP / 2,
{
    let n: usize = bars.len();
    let mut out: Vec<i64> = Vec::new();
    let mut i: usize = 0;
    while i < n
        invariant
            0 <= i <= n,
            n == bars@.len(),
            bars_valid(bars@),
            out@.len() == i,
            forall|k: int| 0 <= k < i ==> #[trigger] out@[k] == bars@[k].high,
            forall|k: int| 0 <= k < i ==> -(VAL_CAP / 2) <= #[trigger] out@[k] <= VAL_CAP / 2,
        decreases n - i,
    {
        proof {
            assert(bar_valid(bars@[i as int]));
        }
        out.push(bars[i].high);
        i = i + 1;
    }
    proof {
        assert(vals_of(out@) =~= highs_of(bars@));
    }
    out
}

/// Extract the low series from a valid bar series.
pub fn extract_lows(bars: &Vec<Bar>) -> (out: Vec<i64>)
    requires
        bars_valid(bars@),
    ensures
        out@.len() == bars@.len(),
        vals_of(out@) == lows_of(bars@),
        forall|k: int| 0 <= k < out@.len() ==> -(VAL_CAP / 2) <= #[trigger] out@[k] <= VAL_CAP / 2,
{
    let n: usize = bars.len();
    let mut out: Vec<i64> = Vec::new();
    let mut i: usize = 0;
    while i < n
        invariant
            0 <= i <= n,
            n == bars@.len(),
            bars_valid(bars@),
            out@.len() == i,
            forall|k: int| 0 <= k < i ==> #[trigger] out@[k] == bars@[k].low,
            forall|k: int| 0 <= k < i ==> -(VAL_CAP / 2) <= #[trigger] out@[k] <= VAL_CAP / 2,
        decreases n - i,
    {
        proof {
            assert(bar_valid(bars@[i as int]));
        }
        out.push(bars[i].low);
        i = i + 1;
    }
    proof {
        assert(vals_of(out@) =~= lows_of(bars@));
    }
    out
}

/// Extract the volume series from a valid bar series.
pub fn extract_volumes(bars: &Vec<Bar>) -> (out: Vec<i64>)
    requires
        bars_valid(bars@),
    ensures
        out@.len() == bars@.len(),
        vals_of(out@) == volumes_of(bars@),
        forall|k: int| 0 <= k < out@.len() ==> 0 <= #[trigger] out@[k] <= VAL_CAP / 2,
{
    let n: usize = bars.len();
    let mut out: Vec<i64> = Vec::new();
    let mut i: usize = 0;
    while i < n
        invariant
            0 <= i <= n,
            n == bars@.len(),
            bars_valid(bars@),
            out@.len() == i,
            forall|k: int| 0 <= k < i ==> #[trigger] out@[k] == bars@[k].volume,
            forall|k: int| 0 <= k < i ==> 0 <= #[trigger] out@[k] <= VAL_CAP / 2,
        decreases n - i,
    {
        proof {
            assert(bar_valid(bars@[i as int]));
        }
        out.push(bars[i].volume);
        i = i + 1;
    }
    proof {
        assert(vals_of(out@) =~= volumes_of(bars@));
    }
    out
}

/// The RSI strategy's impulses: threshold crossings of the RSI readings.
pub open spec fn rsi_impulses(bars: Seq<Bar>, p: int, os: int, ob: int) -> Seq<int> {
    let cs = closes_of(bars);
    let n = bars.len() as int;
    let rs = Seq::new(n as nat, |i: int| if n < p + 1 { RSI_NEUTRAL as int } else { rsi_at(cs, p, i) });
    Seq::new(n as nat, |i: int| rsi_signal_at(rs, os, ob, i))
}

/// The MACD strategy's impulses: crossings of the line over its signal.
pub open spec fn macd_impulses(bars: Seq<Bar>, f: int, s: int, g: int) -> Seq<int> {
    let cs = closes_of(bars);
    let n = bars.len() as int;
    let line = macd_line_seq(cs, f, s, n);
    let sig = Seq::new(n as nat, |i: int| crate::indicators::moving_average::ema_at(line, ema_factor(g), i));
    Seq::new(n as nat, |i: int| macd_signal_at(line, sig, i))
}

/// The Bollinger strategy's impulses: band crossings of the closes.
pub open spec fn bollinger_impulses(bars: Seq<Bar>, p: int, k: int) -> Seq<int> {
    let cs = closes_of(bars);
    let n = bars.len() as int;
    let up = Seq::new(n as nat, |i: int| if i < p { 0int } else { sma_at(cs, p, i) + bb_halfwidth(cs, p, k, i) });
    let lo = Seq::new(n as nat, |i: int| if i < p { 0int } else { sma_at(cs, p, i) - bb_halfwidth(cs, p, k, i) });
    Seq::new(n as nat, |i: int| bollinger_signal_at(cs, up, lo, i))
}

/// The KDJ strategy's impulses: K/D crossings with threshold gates.
pub open spec fn kdj_impulses(bars: Seq<Bar>, kp: int, dp: int, os: int, ob: int) -> Seq<int> {
    let hs = highs_of(bars);
    let ls = lows_of(bars);
    let cs = closes_of(bars);
    let n = bars.len() as int;
    let ks = Seq::new(n as nat, |i: int| k_at(hs, ls, cs, kp, i));
    let ds = Seq::new(n as nat, |i: int| d_at(hs, ls, cs, kp, dp, i));
    Seq::new(n as nat, |i: int| kdj_signal_at(ks, ds, os, ob, i))
}

/// The CCI strategy's impulses: channel threshold crossings.
pub open spec fn cci_impulses(bars: Seq<Bar>, p: int) -> Seq<int> {
    let hs = highs_of(bars);
    let ls = lows_of(bars);
    let cs = closes_of(bars);
    let n = bars.len() as int;
    let vs = Seq::new(n as nat, |i: int| cci_at(hs, ls, cs, p, i));
    Seq::new(n as nat, |i: int| cci_signal_at(vs, i))
}

/// The ADX strategy's impulses: directional crossings gated by the index.
pub open spec fn adx_impulses(bars: Seq<Bar>, p: int, th: int) -> Seq<int> {
    let hs = highs_of(bars);
    let ls = lows_of(bars);
    let cs = closes_of(bars);
    let n = bars.len() as int;
    let trs = Seq::new(n as nat, |i: int| adx_tr_at(hs, ls, cs, i));
    let dmps = Seq::new(n as nat, |i: int| dmp_at(hs, ls, i));
    let dmms = Seq::new(n as nat, |i: int| dmm_at(hs, ls, i));
    let dips = Seq::new(n as nat, |i: int| di_of(sma_at(dmps, p, i), sma_at(trs, p, i)));
    let dims = Seq::new(n as nat, |i: int| di_of(sma_at(dmms, p, i), sma_at(trs, p, i)));
    let dxs = Seq::new(n as nat, |i: int| dx_of(dips[i], dims[i]));
    let ax = Seq::new(n as nat, |i: int| if i < p { 0int } else { adx_rec(dxs, p, i) });
    let dip0 = Seq::new(n as nat, |i: int| if i < p { 0int } else { dips[i] });
    let dim0 = Seq::new(n as nat, |i: int| if i < p { 0int } else { dims[i] });
    Seq::new(n as nat, |i: int| adx_signal_at(ax, dip0, dim0, th, i))
}

/// The ATR strategy's impulses: breakouts around the previous close.
pub open spec fn atr_impulses(bars: Seq<Bar>, p: int, mult: int) -> Seq<int> {
    let hs = highs_of(bars);
    let ls = lows_of(bars);
    let cs = closes_of(bars);
    let n = bars.len() as int;
    let trs = Seq::new(n as nat, |i: int| tr_at(hs, ls, cs, i));
    let ar = if n < 2 {
        Seq::new(n as nat, |i: int| 0int)
    } else {
        Seq::new(n as nat, |i: int| sma_at(trs, p, i))
    };
    let band = Seq::new(n as nat, |i: int| crate::fixed::fx_mul_spec(mult, ar[i]));
    Seq::new(n as nat, |i: int| atr_signal_at(hs, ls, cs, ar, band, i))
}

/// The OBV strategy's impulses: volume-flow confirmations.
pub open spec fn obv_impulses(bars: Seq<Bar>) -> Seq<int> {
    let cs = closes_of(bars);
    let vs = volumes_of(bars);
    let n = bars.len() as int;
    let ob = Seq::new(n as nat, |i: int| obv_at(cs, vs, i));
    Seq::new(n as nat, |i: int| obv_signal_at(ob, cs, i))
}

/// The Ichimoku strategy's impulses: cloud breaks with midline agreement.
pub open spec fn ichimoku_impulses(bars: Seq<Bar>, conv: int, base: int, lag: int) -> Seq<int> {
    let hs = highs_of(bars);
    let ls = lows_of(bars);
    let cs = closes_of(bars);
    let n = bars.len() as int;
    let tk = Seq::new(n as nat, |i: int| mid_at(hs, ls, conv, i));
    let kj = Seq::new(n as nat, |i: int| mid_at(hs, ls, base, i));
    let sa = Seq::new(n as nat, |i: int| crate::fixed::tdiv(tk[i] + kj[i], 2));
    let sb = Seq::new(n as nat, |i: int| mid_at(hs, ls, 2 * lag, i));
    Seq::new(n as nat, |i: int| ichimoku_signal_at(cs, tk, kj, sa, sb, i))
}

/// The stop-and-reverse strategy's impulses: stop crossings of the closes.
pub open spec fn sar_impulses(bars: Seq<Bar>, af0: int, afmax: int) -> Seq<int> {
    let hs = highs_of(bars);
    let ls = lows_of(bars);
    let cs = closes_of(bars);
    let n = bars.len() as int;
    let ss = if n < 2 {
        Seq::new(n as nat, |i: int| 0int)
    } else {
        Seq::new(n as nat, |i: int| sar_at(hs, ls, af0, afmax, i))
    };
    Seq::new(n as nat, |i: int| sar_signal_at(cs, ss, i))
}

/// The signal stream each strategy resolves a bar series into.
pub open spec fn strategy_signals_spec(bars: Seq<Bar>, s: StrategyType) -> Seq<Signal> {
    let n = bars.len() as int;
    match s {
        StrategyType::MovingAverageCross { fast_period, slow_period } =>
            ma_cross_signals_spec(bars, fast_period as int, slow_period as int),
        StrategyType::RSI { period, oversold, overbought } =>
            impulse_signals(bars, rsi_impulses(bars, period as int, oversold as int, overbought as int), n),
        StrategyType::MACD { fast, slow, signal } =>
            impulse_signals(bars, macd_impulses(bars, fast as int, slow as int, signal as int), n),
        StrategyType::BollingerBands { period, std_dev } =>
            impulse_signals(bars, bollinger_impulses(bars, period as int, std_dev as int), n),
        StrategyType::KDJ { k_period, d_period, oversold, overbought } =>
            impulse_signals(bars, kdj_impulses(bars, k_period as int, d_period as int,
                oversold as int, overbought as int), n),
        StrategyType::CCI { period } =>
            impulse_signals(bars, cci_impulses(bars, period as int), n),
        StrategyType::ADX { period, threshold } =>
            impulse_signals(bars, adx_impulses(bars, period as int, threshold as int), n),
        StrategyType::ATR { period, multiplier } =>
            impulse_signals(bars, atr_impulses(bars, period as int, multiplier as int), n),
        StrategyType::OBV { period } =>
            impulse_signals(bars, obv_impulses(bars), n),
        StrategyType::Ichimoku { conv, base, lag } =>
            impulse_signals(bars, ichimoku_impulses(bars, conv as int, base as int, lag as int), n),
        StrategyType::ParabolicSAR { af_start, af_max } =>
            impulse_signals(bars, sar_impulses(bars, af_start as int, af_max as int), n),
    }
}

/// Resolve a strategy over a valid bar series into its signal stream.
pub fn resolve_signals(bars: &Vec<Bar>, strategy: &StrategyType) -> (out: Vec<Signal>)
    requires
        bars@.len() <= MAX_SERIES,
        bars_valid(bars@),
        strategy_valid(*strategy),
    ensures
        out@ == strategy_signals_spec(bars@, *strategy),
{
    let n: usize = bars.len();
    match strategy {
        StrategyType::MovingAverageCross { fast_period, slow_period } => {
            generate_ma_cross_signals(bars, *fast_period, *slow_period)
        },
        StrategyType::RSI { period, oversold, overbought } => {
            let closes = extract_closes(bars);
            let rv = crate::indicators::rsi::rsi(&closes, *period);
            let iv = crate::indicators::rsi::rsi_signals(&rv, *oversold, *overbought);
            proof {
                let cs = closes_of(bars@);
                let rs = Seq::new(n as nat, |i: int| if (n as int) < *period + 1 { RSI_NEUTRAL as int }
                    else { rsi_at(cs, *period as int, i) });
                assert(vals_of(rv@) =~= rs);
                assert(vals_of_i32(iv@) =~= rsi_impulses(bars@, *period as int, *oversold as int, *overbought as int));
            }
            signals_from_impulses(bars, &iv)
        },
        StrategyType::MACD { fast, slow, signal } => {
            let closes = extract_closes(bars);
            let (line, sig, _hist) = crate::indicators::macd::macd(&closes, *fast, *slow, *signal);
            let iv = crate::indicators::macd::macd_signals(&line, &sig);
            proof {
                let cs = closes_of(bars@);
                let lspec = macd_line_seq(cs, *fast as int, *slow as int, n as int);
                let sspec = Seq::new(n as nat, |i: int| crate::indicators::moving_average::ema_at(
                    lspec, ema_factor(*signal as int), i));
                if n > 0 {
                    assert(vals_of(line@) =~= lspec);
                    assert(vals_of(sig@) =~= sspec);
                }
                assert(vals_of_i32(iv@) =~= macd_impulses(bars@, *fast as int, *slow as int, *signal as int));
            }
            signals_from_impulses(bars, &iv)
        },
        StrategyType::BollingerBands { period, std_dev } => {
            let closes = extract_closes(bars);
            let (up, _mid, lo) = crate::indicators::bollinger::bollinger_bands(&closes, *period, *std_dev);
            let iv = crate::indicators::bollinger::bollinger_signals(&closes, &up, &lo);
            proof {
                let cs = closes_of(bars@);
                let p = *period as int;
                let k = *std_dev as int;
                let upspec = Seq::new(n as nat, |i: int| if i < p { 0int } else { sma_at(cs, p, i) + bb_halfwidth(cs, p, k, i) });
                let lospec = Seq::new(n as nat, |i: int| if i < p { 0int } else { sma_at(cs, p, i) - bb_halfwidth(cs, p, k, i) });
                if n > 0 {
                    assert(vals_of(up@) =~= upspec);
                    assert(vals_of(lo@) =~= lospec);
                }
                assert(vals_of_i32(iv@) =~= bollinger_impulses(bars@, p, k));
            }
            signals_from_impulses(bars, &iv)
        },
        StrategyType::KDJ { k_period, d_period, oversold, overbought } => {
            let highs = extract_highs(bars);
            let lows = extract_lows(bars);
            let closes = extract_closes(bars);
            let (kv, dv, _jv) = crate::indicators::kdj::kdj(&highs, &lows, &closes, *k_period, *d_period);
            let iv = crate::indicators::kdj::kdj_signals(&kv, &dv, *oversold, *overbought);
            proof {
                let hs = highs_of(bars@);
                let ls = lows_of(bars@);
                let cs = closes_of(bars@);
                let kspec = Seq::new(n as nat, |i: int| k_at(hs, ls, cs, *k_period as int, i));
                let dspec = Seq::new(n as nat, |i: int| d_at(hs, ls, cs, *k_period as int, *d_period as int, i));
                assert(vals_of(kv@) =~= kspec);
                assert(vals_of(dv@) =~= dspec);
                assert(vals_of_i32(iv@) =~= kdj_impulses(bars@, *k_period as int, *d_period as int,
                    *oversold as int, *overbought as int));
            }
            signals_from_impulses(bars, &iv)
        },
        StrategyType::CCI { period } => {
            let highs = extract_highs(bars);
            let lows = extract_lows(bars);
            let closes = extract_closes(bars);
            let cv = crate::indicators::cci::cci(&highs, &lows, &closes, *period);
            let iv = crate::indicators::cci::cci_signals(&cv);
            proof {
                let hs = highs_of(bars@);
                let ls = lows_of(bars@);
                let cs = closes_of(bars@);
                let cspec = Seq::new(n as nat, |i: int| cci_at(hs, ls, cs, *period as int, i));
                assert(vals_of(cv@) =~= cspec);
                assert(vals_of_i32(iv@) =~= cci_impulses(bars@, *period as int));
            }
            signals_from_impulses(bars, &iv)
        },
        StrategyType::ADX { period, threshold } => {
            let highs = extract_highs(bars);
            let lows = extract_lows(bars);
            let closes = extract_closes(bars);
            let (av, dpv, dmv) = crate::indicators::adx::adx(&highs, &lows, &closes, *period);
            let iv = crate::indicators::adx::adx_signals(&av, &dpv, &dmv, *threshold);
            proof {
                let hs = highs_of(bars@);
                let ls = lows_of(bars@);
                let cs = closes_of(bars@);
                let p = *period as int;
                let trs = Seq::new(n as nat, |i: int| adx_tr_at(hs, ls, cs, i));
                let dmps = Seq::new(n as nat, |i: int| dmp_at(hs, ls, i));
                let dmms = Seq::new(n as nat, |i: int| dmm_at(hs, ls, i));
                let dips = Seq::new(n as nat, |i: int| di_of(sma_at(dmps, p, i), sma_at(trs, p, i)));
                let dims = Seq::new(n as nat, |i: int| di_of(sma_at(dmms, p, i), sma_at(trs, p, i)));
                let dxs = Seq::new(n as nat, |i: int| dx_of(dips[i], dims[i]));
                let ax = Seq::new(n as nat, |i: int| if i < p { 0int } else { adx_rec(dxs, p, i) });
                let dip0 = Seq::new(n as nat, |i: int| if i < p { 0int } else { dips[i] });
                let dim0 = Seq::new(n as nat, |i: int| if i < p { 0int } else { dims[i] });
                assert(vals_of(av@) =~= ax);
                assert(vals_of(dpv@) =~= dip0);
                assert(vals_of(dmv@) =~= dim0);
                assert(vals_of_i32(iv@) =~= adx_impulses(bars@, p, *threshold as int));
            }
            signals_from_impulses(bars, &iv)
        },
        StrategyType::ATR { period, multiplier } => {
            let highs = extract_highs(bars);
            let lows = extract_lows(bars);
            let closes = extract_closes(bars);
            let av = crate::indicators::atr::atr(&highs, &lows, &closes, *period);
            let iv = crate::indicators::atr::atr_signals(&highs, &lows, &closes, &av, *multiplier);
            proof {
                let hs = highs_of(bars@);
                let ls = lows_of(bars@);
                let cs = closes_of(bars@);
                let p = *period as int;
                let trs = Seq::new(n as nat, |i: int| tr_at(hs, ls, cs, i));
                let ar = if (n as int) < 2 {
                    Seq::new(n as nat, |i: int| 0int)
                } else {
                    Seq::new(n as nat, |i: int| sma_at(trs, p, i))
                };
                assert(vals_of(av@) =~= ar);
                assert(vals_of_i32(iv@) =~= atr_impulses(bars@, p, *multiplier as int));
            }
            signals_from_impulses(bars, &iv)
        },
        StrategyType::OBV { period: _ } => {
            let closes = extract_closes(bars);
            let volumes = extract_volumes(bars);
            let ov = crate::indicators::obv::obv(&closes, &volumes);
            let iv = crate::indicators::obv::obv_signals(&ov, &closes);
            proof {
                let cs = closes_of(bars@);
                let vs = volumes_of(bars@);
                let ospec = Seq::new(n as nat, |i: int| obv_at(cs, vs, i));
                assert(vals_of(ov@) =~= ospec);
                assert(vals_of_i32(iv@) =~= obv_impulses(bars@));
            }
            signals_from_impulses(bars, &iv)
        },
        StrategyType::Ichimoku { conv, base, lag } => {
            let highs = extract_highs(bars);
            let lows = extract_lows(bars);
            let closes = extract_closes(bars);
            let (tk, kj, sa, sb, _ch) = crate::indicators::ichimoku::ichimoku(
                &highs, &lows, &closes, *conv, *base, *lag);
            let iv = crate::indicators::ichimoku::ichimoku_signals(&closes, &tk, &kj, &sa, &sb);
            proof {
                let hs = highs_of(bars@);
                let ls = lows_of(bars@);
                let cs = closes_of(bars@);
                let tkspec = Seq::new(n as nat, |i: int| mid_at(hs, ls, *conv as int, i));
                let kjspec = Seq::new(n as nat, |i: int| mid_at(hs, ls, *base as int, i));
                let saspec = Seq::new(n as nat, |i: int| crate::fixed::tdiv(tkspec[i] + kjspec[i], 2));
                let sbspec = Seq::new(n as nat, |i: int| mid_at(hs, ls, 2 * *lag as int, i));
                assert(vals_of(tk@) =~= tkspec);
                assert(vals_of(kj@) =~= kjspec);
                assert(vals_of(sa@) =~= saspec);
                assert(vals_of(sb@) =~= sbspec);
                assert(vals_of_i32(iv@) =~= ichimoku_impulses(bars@, *conv as int, *base as int, *lag as int));
            }
            signals_from_impulses(bars, &iv)
        },
        StrategyType::ParabolicSAR { af_start, af_max } => {
            let highs = extract_highs(bars);
            let lows = extract_lows(bars);
            let closes = extract_closes(bars);
            let sv = crate::indicators::sar::parabolic_sar(&highs, &lows, *af_start, *af_max);
            let iv = crate::indicators::sar::parabolic_sar_signals(&closes, &sv);
            proof {
                let hs = highs_of(bars@);
                let ls = lows_of(bars@);
                let cs = closes_of(bars@);
                let sspec = if (n as int) < 2 {
                    Seq::new(n as nat, |i: int| 0int)
                } else {
                    Seq::new(n as nat, |i: int| sar_at(hs, ls, *af_start as int, *af_max as int, i))
                };
                assert(vals_of(sv@) =~= sspec);
                assert(vals_of_i32(iv@) =~= sar_impulses(bars@, *af_start as int, *af_max as int));
            }
            signals_from_impulses(bars, &iv)
        },
    }
}

/// Run a rule-driven backtest: validate the strategy and the bars, resolve
/// the strategy's signals, and run the engine on them.
pub fn run_strategy_backtest(bars: &Vec<Bar>, strategy: &StrategyType, config: crate::types::CostConfig)
    -> (r: Result<crate::engine::BacktestResult, BacktestError>)
    requires
        bars@.len() <= MAX_SERIES,
    ensures
        !strategy_valid(*strategy) ==> (r matches Err(BacktestError::ValidationFailed { .. })),
        r is Ok <==> strategy_valid(*strategy)
            && crate::engine::backtest_ok(bars@, strategy_signals_spec(bars@, *strategy), config),
        r matches Ok(res) ==> {
            let st = crate::engine::sim_run(bars@,
                crate::engine::sort_by_ts(strategy_signals_spec(bars@, *strategy)), config)->Ok_0;
            &&& crate::engine::curve_view(res.equity_curve@) == st.curve
            &&& res.trades@ == crate::engine::sim_trades_exec(st)
            &&& res.equity_curve@.len() == bars@.len()
            &&& res.final_value == res.equity_curve@[bars@.len() - 1].value
            &&& res.config == config
            &&& Ok::<crate::metrics::PerformanceMetrics, crate::metrics::MetricsError>(res.metrics)
                == crate::metrics::metrics_result_spec(crate::engine::sim_trades_exec(st),
                    crate::engine::sim_equity_vals(st), config.risk_free_rate as int)
        },
{
    if let Err(e) = validate_strategy(strategy) {
        return Err(e);
    }
    if let Err(e) = crate::validate::validate_bars(bars) {
        return Err(e);
    }
    let signals: Vec<Signal> = resolve_signals(bars, strategy);
    crate::engine::run_backtest(bars, &signals, config)
}

} // verus!
