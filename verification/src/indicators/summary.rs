//! The all-indicators summary: every indicator of the catalogue at its
//! standard parameters over one bar series, each with a discrete impulse
//! stream, plus the combination of impulse streams from several sources.

use vstd::prelude::*;
use crate::fixed::SCALE;
use crate::types::{Bar, bars_valid, bar_valid};
use crate::metrics::{vals_of, MAX_SERIES};
use crate::strategy::{closes_of, highs_of, lows_of, volumes_of};
use crate::series::CombinationStrategy;

verus! {

/// A direction impulse: `1` on a rise against the previous value, `-1` on
/// a fall, `0` at the start or on a tie.
pub open spec fn direction_impulse_at(vs: Seq<int>, i: int) -> int {
    if i < 1 {
        0
    } else if vs[i] > vs[i - 1] {
        1
    } else if vs[i] < vs[i - 1] {
        -1
    } else {
        0
    }
}

/// A band impulse: `1` below the lower threshold, `-1` above the upper,
/// `0` between.
pub open spec fn threshold_impulse_at(vs: Seq<int>, lo: int, hi: int, i: int) -> int {
    if vs[i] < lo {
        1
    } else if vs[i] > hi {
        -1
    } else {
        0
    }
}

/// Direction impulses of a series.
pub fn direction_impulses(values: &Vec<i64>) -> (out: Vec<i32>)
    ensures
        out@.len() == values@.len(),
        forall|k: int| 0 <= k < out@.len() ==> #[trigger] out@[k] as int
            == direction_impulse_at(vals_of(values@), k),
{
    let ghost vs = vals_of(values@);
    let n: usize = values.len();
    let mut out: Vec<i32> = Vec::new();
    if n == 0 {
        return out;
    }
    out.push(0);
    let mut i: usize = 1;
    while i < n
        invariant
            1 <= i <= n,
            n == values@.len(),
            vs == vals_of(values@),
            out@.len() == i,
            forall|k: int| 0 <= k < i ==> #[trigger] out@[k] as int == direction_impulse_at(vs, k),
        decreases n - i,
    {
        proof {
            assert(vs[i as int] == values@[i as int] as int);
            assert(vs[i as int - 1] == values@[i as int - 1] as int);
        }
        let sig: i32 = if values[i] > values[i - 1] {
            1
        } else if values[i] < values[i - 1] {
            -1
        } else {
            0
        };
        out.push(sig);
        i = i + 1;
    }
    out
}

/// Band impulses of a series.
pub fn threshold_impulses(values: &Vec<i64>, lower: i64, upper: i64) -> (out: Vec<i32>)
    ensures
        out@.len() == values@.len(),
        forall|k: int| 0 <= k < out@.len() ==> #[trigger] out@[k] as int
            == threshold_impulse_at(vals_of(values@), lower as int, upper as int, k),
{
    let ghost vs = vals_of(values@);
    let n: usize = values.len();
    let mut out: Vec<i32> = Vec::new();
    let mut i: usize = 0;
    while i < n
        invariant
            0 <= i <= n,
            n == values@.len(),
            vs == vals_of(values@),
            out@.len() == i,
            forall|k: int| 0 <= k < i ==> #[trigger] out@[k] as int
                == threshold_impulse_at(vs, lower as int, upper as int, k),
        decreases n - i,
    {
        proof {
            assert(vs[i as int] == values@[i as int] as int);
        }
        let sig: i32 = if values[i] < lower {
            1
        } else if values[i] > upper {
            -1
        } else {
            0
        };
        out.push(sig);
        i = i + 1;
    }
    out
}

/// One indicator's readings with its impulse stream.
#[derive(Debug)]
pub struct IndicatorSeries {
    pub values: Vec<i64>,
    pub impulses: Vec<i32>,
}

/// Every indicator of the catalogue at its standard parameters.
#[derive(Debug)]
pub struct AllIndicators {
    pub sma_20: IndicatorSeries,
    pub rsi_14: IndicatorSeries,
    pub macd: IndicatorSeries,
    pub bollinger: IndicatorSeries,
    pub kdj: IndicatorSeries,
    pub cci: IndicatorSeries,
    pub atr: IndicatorSeries,
    pub obv: IndicatorSeries,
    pub adx: IndicatorSeries,
    pub psar: IndicatorSeries,
}

/// Whether every series of a summary has one entry per bar.
pub open spec fn summary_complete(s: AllIndicators, n: int) -> bool {
    &&& s.sma_20.values@.len() == n && s.sma_20.impulses@.len() == n
    &&& s.rsi_14.values@.len() == n && s.rsi_14.impulses@.len() == n
    &&& s.macd.values@.len() == n && s.macd.impulses@.len() == n
    &&& s.bollinger.values@.len() == n && s.bollinger.impulses@.len() == n
    &&& s.kdj.values@.len() == n && s.kdj.impulses@.len() == n
    &&& s.cci.values@.len() == n && s.cci.impulses@.len() == n
    &&& s.atr.values@.len() == n && s.atr.impulses@.len() == n
    &&& s.obv.values@.len() == n && s.obv.impulses@.len() == n
    &&& s.adx.values@.len() == n && s.adx.impulses@.len() == n
    &&& s.psar.values@.len() == n && s.psar.impulses@.len() == n
}

/// Compute every indicator of the catalogue at its standard parameters:
/// the twenty-bar mean with direction impulses, the fourteen-bar relative
/// strength with its classic bands, the standard MACD, Bollinger, KDJ,
/// CCI, ATR, OBV, ADX and stop-and-reverse readings, each with its impulse
/// stream.
pub fn calculate_all_indicators(bars: &Vec<Bar>) -> (out: AllIndicators)
    requires
        bars@.len() <= MAX_SERIES,
        bars_valid(bars@),
        bars@.len() >= 1,
    ensures
        summary_complete(out, bars@.len() as int),
        ({
            let cs = closes_of(bars@);
            let n = bars@.len() as int;
            &&& forall|k: int| 0 <= k < n ==> #[trigger] out.sma_20.values@[k] as int
                == crate::indicators::moving_average::sma_at(cs, 20, k)
            &&& forall|k: int| 0 <= k < n ==> #[trigger] out.sma_20.impulses@[k] as int
                == direction_impulse_at(vals_of(out.sma_20.values@), k)
            &&& forall|k: int| 0 <= k < n ==> #[trigger] out.rsi_14.impulses@[k] as int
                == threshold_impulse_at(vals_of(out.rsi_14.values@), 30 * SCALE as int,
                    70 * SCALE as int, k)
            &&& forall|k: int| 0 <= k < n ==> #[trigger] out.bollinger.values@[k] as int == cs[k]
            &&& forall|k: int| 0 <= k < n ==> #[trigger] out.psar.impulses@[k] as int
                == crate::indicators::sar::sar_signal_at(cs, vals_of(out.psar.values@), k)
            &&& forall|k: int| 0 <= k < n ==> #[trigger] out.cci.values@[k] as int
                == crate::indicators::cci::cci_at(highs_of(bars@), lows_of(bars@), cs, 20, k)
            &&& forall|k: int| 0 <= k < n ==> #[trigger] out.obv.values@[k] as int
                == crate::indicators::obv::obv_at(cs, volumes_of(bars@), k)
            &&& forall|k: int| 0 <= k < n ==> #[trigger] out.kdj.values@[k] as int
                == crate::indicators::kdj::k_at(highs_of(bars@), lows_of(bars@), cs, 9, k)
            &&& forall|k: int| 0 <= k < n ==> #[trigger] out.cci.impulses@[k] as int
                == direction_impulse_at(vals_of(out.cci.values@), k)
            &&& forall|k: int| 0 <= k < n ==> #[trigger] out.atr.impulses@[k] as int
                == direction_impulse_at(vals_of(out.atr.values@), k)
            &&& forall|k: int| 0 <= k < n ==> #[trigger] out.obv.impulses@[k] as int
                == direction_impulse_at(vals_of(out.obv.values@), k)
            &&& forall|k: int| 0 <= k < n ==> #[trigger] out.rsi_14.values@[k] as int
                == (if n < 15 { crate::indicators::rsi::RSI_NEUTRAL as int }
                    else { crate::indicators::rsi::rsi_at(cs, 14, k) })
            &&& ({
                let line = crate::indicators::macd::macd_line_seq(cs, 12, 26, n);
                let sig = Seq::new(n as nat, |i: int| crate::indicators::moving_average::ema_at(
                    line, crate::indicators::moving_average::ema_factor(9), i));
                &&& forall|k: int| 0 <= k < n ==> #[trigger] out.macd.values@[k] as int
                    == crate::indicators::macd::macd_line_at(cs, 12, 26, k)
                        - crate::indicators::moving_average::ema_at(line,
                            crate::indicators::moving_average::ema_factor(9), k)
                &&& forall|k: int| 0 <= k < n ==> #[trigger] out.macd.impulses@[k] as int
                    == crate::indicators::macd::macd_signal_at(line, sig, k)
            })
            &&& ({
                let up = Seq::new(n as nat, |i: int| if i < 20 { 0int }
                    else { crate::indicators::moving_average::sma_at(cs, 20, i)
                        + crate::indicators::bollinger::bb_halfwidth(cs, 20, 2 * SCALE as int, i) });
                let lo = Seq::new(n as nat, |i: int| if i < 20 { 0int }
                    else { crate::indicators::moving_average::sma_at(cs, 20, i)
                        - crate::indicators::bollinger::bb_halfwidth(cs, 20, 2 * SCALE as int, i) });
                forall|k: int| 0 <= k < n ==> #[trigger] out.bollinger.impulses@[k] as int
                    == crate::indicators::bollinger::bollinger_signal_at(cs, up, lo, k)
            })
            &&& ({
                let hs = highs_of(bars@);
                let ls = lows_of(bars@);
                let ks = Seq::new(n as nat, |i: int| crate::indicators::kdj::k_at(hs, ls, cs, 9, i));
                let ds = Seq::new(n as nat, |i: int| crate::indicators::kdj::d_at(hs, ls, cs, 9, 3, i));
                forall|k: int| 0 <= k < n ==> #[trigger] out.kdj.impulses@[k] as int
                    == crate::indicators::kdj::kdj_signal_at(ks, ds, 20 * SCALE as int,
                        80 * SCALE as int, k)
            })
            &&& ({
                let trs = Seq::new(n as nat, |i: int| crate::indicators::atr::tr_at(
                    highs_of(bars@), lows_of(bars@), cs, i));
                forall|k: int| 0 <= k < n ==> #[trigger] out.atr.values@[k] as int
                    == (if n < 2 { 0int } else { crate::indicators::moving_average::sma_at(trs, 14, k) })
            })
            &&& ({
                let hs = highs_of(bars@);
                let ls = lows_of(bars@);
                let trs = Seq::new(n as nat, |i: int| crate::indicators::adx::adx_tr_at(hs, ls, cs, i));
                let dmps = Seq::new(n as nat, |i: int| crate::indicators::adx::dmp_at(hs, ls, i));
                let dmms = Seq::new(n as nat, |i: int| crate::indicators::adx::dmm_at(hs, ls, i));
                let dips = Seq::new(n as nat, |i: int| crate::indicators::adx::di_of(
                    crate::indicators::moving_average::sma_at(dmps, 14, i),
                    crate::indicators::moving_average::sma_at(trs, 14, i)));
                let dims = Seq::new(n as nat, |i: int| crate::indicators::adx::di_of(
                    crate::indicators::moving_average::sma_at(dmms, 14, i),
                    crate::indicators::moving_average::sma_at(trs, 14, i)));
                let dxs = Seq::new(n as nat, |i: int| crate::indicators::adx::dx_of(dips[i], dims[i]));
                let ax = Seq::new(n as nat, |i: int| if i < 14 { 0int }
                    else { crate::indicators::adx::adx_rec(dxs, 14, i) });
                let dip0 = Seq::new(n as nat, |i: int| if i < 14 { 0int } else { dips[i] });
                let dim0 = Seq::new(n as nat, |i: int| if i < 14 { 0int } else { dims[i] });
                &&& forall|k: int| 0 <= k < n ==> #[trigger] out.adx.values@[k] as int == ax[k]
                &&& forall|k: int| 0 <= k < n ==> #[trigger] out.adx.impulses@[k] as int
                    == crate::indicators::adx::adx_signal_at(ax, dip0, dim0, 25 * SCALE as int, k)
            })
            &&& forall|k: int| 0 <= k < n ==> #[trigger] out.psar.values@[k] as int
                == (if n < 2 { 0int } else { crate::indicators::sar::sar_at(
                    highs_of(bars@), lows_of(bars@), 200, 2_000, k) })
        }),
{
    let closes = crate::strategy::extract_closes(bars);
    let highs = crate::strategy::extract_highs(bars);
    let lows = crate::strategy::extract_lows(bars);
    let volumes = crate::strategy::extract_volumes(bars);

    let sma_vals = crate::indicators::moving_average::sma(&closes, 20);
    let sma_imp = direction_impulses(&sma_vals);

    let rsi_vals = crate::indicators::rsi::rsi(&closes, 14);
    let rsi_imp = threshold_impulses(&rsi_vals, 30 * SCALE, 70 * SCALE);

    let (macd_line, macd_sig, macd_hist) = crate::indicators::macd::macd(&closes, 12, 26, 9);
    let macd_imp = crate::indicators::macd::macd_signals(&macd_line, &macd_sig);

    let (bb_up, _bb_mid, bb_lo) = crate::indicators::bollinger::bollinger_bands(&closes, 20, 2 * SCALE);
    let bb_imp = crate::indicators::bollinger::bollinger_signals(&closes, &bb_up, &bb_lo);
    let bb_vals = clone_values(&closes);

    let (kdj_k, kdj_d, _kdj_j) = crate::indicators::kdj::kdj(&highs, &lows, &closes, 9, 3);
    let kdj_imp = crate::indicators::kdj::kdj_signals(&kdj_k, &kdj_d, 20 * SCALE, 80 * SCALE);

    let cci_vals = crate::indicators::cci::cci(&highs, &lows, &closes, 20);
    let cci_imp = direction_impulses(&cci_vals);

    let atr_vals = crate::indicators::atr::atr(&highs, &lows, &closes, 14);
    let atr_imp = direction_impulses(&atr_vals);

    let obv_vals = crate::indicators::obv::obv(&closes, &volumes);
    let obv_imp = direction_impulses(&obv_vals);

    let (adx_vals, di_p, di_m) = crate::indicators::adx::adx(&highs, &lows, &closes, 14);
    let adx_imp = crate::indicators::adx::adx_signals(&adx_vals, &di_p, &di_m, 25 * SCALE);

    let psar_vals = crate::indicators::sar::parabolic_sar(&highs, &lows, 200, 2_000);
    let psar_imp = crate::indicators::sar::parabolic_sar_signals(&closes, &psar_vals);

    proof {
        let cs = closes_of(bars@);
        let hs = highs_of(bars@);
        let ls = lows_of(bars@);
        let n = bars@.len() as int;
        let line = crate::indicators::macd::macd_line_seq(cs, 12, 26, n);
        let sig = Seq::new(n as nat, |i: int| crate::indicators::moving_average::ema_at(
            line, crate::indicators::moving_average::ema_factor(9), i));
        assert(vals_of(macd_line@) =~= line);
        assert(vals_of(macd_sig@) =~= sig);
        let up = Seq::new(n as nat, |i: int| if i < 20 { 0int }
            else { crate::indicators::moving_average::sma_at(cs, 20, i)
                + crate::indicators::bollinger::bb_halfwidth(cs, 20, 2 * SCALE as int, i) });
        let lo = Seq::new(n as nat, |i: int| if i < 20 { 0int }
            else { crate::indicators::moving_average::sma_at(cs, 20, i)
                - crate::indicators::bollinger::bb_halfwidth(cs, 20, 2 * SCALE as int, i) });
        assert(vals_of(bb_up@) =~= up);
        assert(vals_of(bb_lo@) =~= lo);
        let ks = Seq::new(n as nat, |i: int| crate::indicators::kdj::k_at(hs, ls, cs, 9, i));
        let ds = Seq::new(n as nat, |i: int| crate::indicators::kdj::d_at(hs, ls, cs, 9, 3, i));
        assert(vals_of(kdj_k@) =~= ks);
        assert(vals_of(kdj_d@) =~= ds);
        let trs_atr = Seq::new(n as nat, |i: int| crate::indicators::atr::tr_at(hs, ls, cs, i));
        assert(Seq::new(bars@.len(), |i: int| crate::indicators::atr::tr_at(
            vals_of(highs@), vals_of(lows@), vals_of(closes@), i)) =~= trs_atr);
        let trs = Seq::new(n as nat, |i: int| crate::indicators::adx::adx_tr_at(hs, ls, cs, i));
        let dmps = Seq::new(n as nat, |i: int| crate::indicators::adx::dmp_at(hs, ls, i));
        let dmms = Seq::new(n as nat, |i: int| crate::indicators::adx::dmm_at(hs, ls, i));
        let dips = Seq::new(n as nat, |i: int| crate::indicators::adx::di_of(
            crate::indicators::moving_average::sma_at(dmps, 14, i),
            crate::indicators::moving_average::sma_at(trs, 14, i)));
        let dims = Seq::new(n as nat, |i: int| crate::indicators::adx::di_of(
            crate::indicators::moving_average::sma_at(dmms, 14, i),
            crate::indicators::moving_average::sma_at(trs, 14, i)));
        let dxs = Seq::new(n as nat, |i: int| crate::indicators::adx::dx_of(dips[i], dims[i]));
        let ax = Seq::new(n as nat, |i: int| if i < 14 { 0int }
            else { crate::indicators::adx::adx_rec(dxs, 14, i) });
        let dip0 = Seq::new(n as nat, |i: int| if i < 14 { 0int } else { dips[i] });
        let dim0 = Seq::new(n as nat, |i: int| if i < 14 { 0int } else { dims[i] });
        assert(vals_of(adx_vals@) =~= ax);
        assert(vals_of(di_p@) =~= dip0);
        assert(vals_of(di_m@) =~= dim0);
        let ss = if n < 2 {
            Seq::new(n as nat, |i: int| 0int)
        } else {
            Seq::new(n as nat, |i: int| crate::indicators::sar::sar_at(hs, ls, 200, 2_000, i))
        };
        assert(vals_of(psar_vals@) =~= ss);
    }

    AllIndicators {
        sma_20: IndicatorSeries { values: sma_vals, impulses: sma_imp },
        rsi_14: IndicatorSeries { values: rsi_vals, impulses: rsi_imp },
        macd: IndicatorSeries { values: macd_hist, impulses: macd_imp },
        bollinger: IndicatorSeries { values: bb_vals, impulses: bb_imp },
        kdj: IndicatorSeries { values: kdj_k, impulses: kdj_imp },
        cci: IndicatorSeries { values: cci_vals, impulses: cci_imp },
        atr: IndicatorSeries { values: atr_vals, impulses: atr_imp },
        obv: IndicatorSeries { values: obv_vals, impulses: obv_imp },
        adx: IndicatorSeries { values: adx_vals, impulses: adx_imp },
        psar: IndicatorSeries { values: psar_vals, impulses: psar_imp },
    }
}

/// Copy a value series.
fn clone_values(v: &Vec<i64>) -> (out: Vec<i64>)
    ensures
        out@ == v@,
{
    let n: usize = v.len();
    let mut out: Vec<i64> = Vec::new();
    let mut i: usize = 0;
    while i < n
        invariant
            0 <= i <= n,
            n == v@.len(),
            out@.len() == i,
            forall|k: int| 0 <= k < i ==> #[trigger] out@[k] == v@[k],
        decreases n - i,
    {
        out.push(v[i]);
        i = i + 1;
    }
    proof {
        assert(out@ =~= v@);
    }
    out
}

/// The vote of stream `s` at index `i` among the first `s` streams: how
/// many voted to buy and how many to sell.
pub open spec fn votes_at(streams: Seq<Seq<int>>, s: int, i: int) -> (int, int)
    decreases s,
{
    if s <= 0 {
        (0, 0)
    } else {
        let p = votes_at(streams, s - 1, i);
        if streams[s - 1][i] == 1 {
            (p.0 + 1, p.1)
        } else if streams[s - 1][i] == -1 {
            (p.0, p.1 + 1)
        } else {
            p
        }
    }
}

/// The combined impulse at index `i` under a combination rule: the side
/// the votes select.
pub open spec fn combined_at(streams: Seq<Seq<int>>, rule: CombinationStrategy, i: int) -> int {
    let v = votes_at(streams, streams.len() as int, i);
    match rule {
        CombinationStrategy::MajorityVote => if v.0 > v.1 {
            1int
        } else if v.1 > v.0 {
            -1int
        } else {
            0int
        },
        CombinationStrategy::Weighted => if v.0 > v.1 {
            1int
        } else if v.1 > v.0 {
            -1int
        } else {
            0int
        },
        CombinationStrategy::Consensus => if v.0 > 0 && v.1 == 0 {
            1int
        } else if v.1 > 0 && v.0 == 0 {
            -1int
        } else {
            0int
        },
        CombinationStrategy::BestPerformer => if streams.len() > 0 {
            streams[0][i]
        } else {
            0int
        },
    }
}

/// The impulse views of several streams.
pub open spec fn streams_view(ss: Seq<Vec<i32>>) -> Seq<Seq<int>> {
    ss.map_values(|v: Vec<i32>| v@.map_values(|x: i32| x as int))
}

/// Combine several impulse streams of equal length into one, by majority
/// vote, unanimity, equal-weight vote, or the first stream alone.
pub fn combine_impulses(streams: &Vec<Vec<i32>>, n: usize, rule: CombinationStrategy)
    -> (out: Vec<i32>)
    requires
        forall|s: int| 0 <= s < streams@.len() ==> (#[trigger] streams@[s])@.len() == n,
    ensures
        out@.len() == n,
        forall|k: int| 0 <= k < n ==> #[trigger] out@[k] as int
            == combined_at(streams_view(streams@), rule, k),
{
    let ghost sv = streams_view(streams@);
    let m: usize = streams.len();
    let mut out: Vec<i32> = Vec::new();
    let mut i: usize = 0;
    while i < n
        invariant
            0 <= i <= n,
            m == streams@.len(),
            sv == streams_view(streams@),
            forall|s: int| 0 <= s < streams@.len() ==> (#[trigger] streams@[s])@.len() == n,
            out@.len() == i,
            forall|k: int| 0 <= k < i ==> #[trigger] out@[k] as int == combined_at(sv, rule, k),
        decreases n - i,
    {
        let mut buys: usize = 0;
        let mut sells: usize = 0;
        let mut s: usize = 0;
        while s < m
            invariant
                0 <= s <= m,
                i < n,
                m == streams@.len(),
                sv == streams_view(streams@),
                forall|q: int| 0 <= q < streams@.len() ==> (#[trigger] streams@[q])@.len() == n,
                buys as int == votes_at(sv, s as int, i as int).0,
                sells as int == votes_at(sv, s as int, i as int).1,
                buys <= s,
                sells <= s,
            decreases m - s,
        {
            proof {
                assert(sv[s as int] == streams@[s as int]@.map_values(|x: i32| x as int));
                assert(sv[s as int][i as int] == streams@[s as int]@[i as int] as int);
            }
            let v: i32 = streams[s][i];
            if v == 1 {
                buys = buys + 1;
            } else if v == -1 {
                sells = sells + 1;
            }
            s = s + 1;
        }
        let sig: i32 = match rule {
            CombinationStrategy::MajorityVote => {
                if buys > sells {
                    1
                } else if sells > buys {
                    -1
                } else {
                    0
                }
            },
            CombinationStrategy::Weighted => {
                if buys > sells {
                    1
                } else if sells > buys {
                    -1
                } else {
                    0
                }
            },
            CombinationStrategy::Consensus => {
                if buys > 0 && sells == 0 {
                    1
                } else if sells > 0 && buys == 0 {
                    -1
                } else {
                    0
                }
            },
            CombinationStrategy::BestPerformer => {
                if m > 0 {
                    proof {
                        assert(sv[0][i as int] == streams@[0]@[i as int] as int);
                    }
                    streams[0][i]
                } else {
                    0
                }
            },
        };
        out.push(sig);
        i = i + 1;
    }
    out
}

} // verus!
