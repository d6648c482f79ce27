//! The parameter optimiser: Cartesian grid generation, parallel evaluation
//! of every tuple through the backtest engine, and stable descending
//! ranking by the chosen objective.

use vstd::prelude::*;
use crate::types::{Bar, CostConfig, BacktestError, bars_valid, cost_config_valid};
use crate::metrics::{PerformanceMetrics, metrics_result_spec, MAX_SERIES};
use crate::engine::{BacktestResult, backtest_ok, sim_run, sort_by_ts, sim_trades_exec, sim_equity_vals};
use crate::strategy::{StrategyType, strategy_valid, strategy_signals_spec, run_strategy_backtest};
use rayon::iter::{IntoParallelRefIterator, ParallelIterator};

verus! {

/// Largest number of tuples a grid may hold; a larger product is cut to
/// this prefix and flagged as truncated.
pub const GRID_CAP: usize = 10_000;

/// Largest magnitude of a grid bound.
pub const PARAM_CAP: i64 = 1_000_000_000_000;

/// The closed catalogue of parameter names a grid axis or tuple entry may
/// carry.
#[derive(Clone, Copy, PartialEq, Eq, Structural, Debug)]
pub enum ParamName {
    FastPeriod,
    SlowPeriod,
    Period,
    Oversold,
    Overbought,
    Fast,
    Slow,
    SignalPeriod,
    StdDevK,
    KPeriod,
    DPeriod,
    Threshold,
    Multiplier,
    ConvPeriod,
    BasePeriod,
    LagPeriod,
    AfStart,
    AfMax,
}

/// One named scalar of a parameter tuple.
#[derive(Clone, Copy, PartialEq, Eq, Structural, Debug)]
pub struct ParamEntry {
    pub name: ParamName,
    pub value: i64,
}

/// One point of the parameter grid: a small list of named scalars.
#[derive(Debug)]
pub struct ParamTuple {
    pub entries: Vec<ParamEntry>,
}

/// One axis of the grid: inclusive bounds walked by a positive step.
#[derive(Clone, Copy, PartialEq, Eq, Structural, Debug)]
pub struct ParamRange {
    pub name: ParamName,
    pub min: i64,
    pub max: i64,
    pub step: i64,
}

/// An axis is valid when its step is positive, its bounds ordered and
/// within range.
pub open spec fn range_valid(r: ParamRange) -> bool {
    &&& r.step >= 1
    &&& r.min <= r.max
    &&& -PARAM_CAP <= r.min
    &&& r.max <= PARAM_CAP
}

/// Number of values on a valid axis.
pub open spec fn axis_len(r: ParamRange) -> int {
    (r.max - r.min) / (r.step as int) + 1
}

/// The `k`-th value of an axis.
pub open spec fn axis_val(r: ParamRange, k: int) -> int {
    r.min + k * r.step
}

/// Cartesian enumeration in axis-major order, stopping after `limit`
/// tuples: walk the current axis' values, and for each, every tail tuple.
pub open spec fn grid_walk(r: ParamRange, tails: Seq<Seq<ParamEntry>>, k: int, t: int, limit: int)
    -> Seq<Seq<ParamEntry>>
    decreases axis_len(r) - k, tails.len() - t,
{
    if limit <= 0 || k >= axis_len(r) || k < 0 || t < 0 {
        Seq::empty()
    } else if t >= tails.len() {
        grid_walk(r, tails, k + 1, 0, limit)
    } else {
        seq![seq![ParamEntry { name: r.name, value: axis_val(r, k) as i64 }].add(tails[t])]
            .add(grid_walk(r, tails, k, t + 1, limit - 1))
    }
}

/// The grid over the axes from `idx` on, cut to `limit` tuples.
pub open spec fn grid_spec(axes: Seq<ParamRange>, idx: int, limit: int) -> Seq<Seq<ParamEntry>>
    decreases axes.len() - idx,
{
    if idx < 0 || idx >= axes.len() {
        if limit <= 0 {
            Seq::empty()
        } else {
            seq![Seq::<ParamEntry>::empty()]
        }
    } else {
        grid_walk(axes[idx], grid_spec(axes, idx + 1, limit), 0, 0, limit)
    }
}

/// The entry lists of a tuple vector.
pub open spec fn tuples_view(ts: Seq<ParamTuple>) -> Seq<Seq<ParamEntry>> {
    ts.map_values(|t: ParamTuple| t.entries@)
}

/// Copy a tuple.
pub fn clone_tuple(t: &ParamTuple) -> (out: ParamTuple)
    ensures
        out.entries@ == t.entries@,
{
    let n: usize = t.entries.len();
    let mut entries: Vec<ParamEntry> = Vec::new();
    let mut i: usize = 0;
    while i < n
        invariant
            0 <= i <= n,
            n == t.entries@.len(),
            entries@.len() == i,
            forall|k: int| 0 <= k < i ==> #[trigger] entries@[k] == t.entries@[k],
        decreases n - i,
    {
        entries.push(t.entries[i]);
        i = i + 1;
    }
    proof {
        assert(entries@ =~= t.entries@);
    }
    ParamTuple { entries }
}

/// Generate the parameter grid over valid axes, in axis-major order, cut
/// to `limit` tuples.
fn grid_rec(axes: &Vec<ParamRange>, idx: usize, limit: usize) -> (out: Vec<ParamTuple>)
    requires
        idx <= axes@.len(),
        forall|k: int| 0 <= k < axes@.len() ==> range_valid(#[trigger] axes@[k]),
    ensures
        tuples_view(out@) == grid_spec(axes@, idx as int, limit as int),
        out@.len() <= limit,
    decreases axes@.len() - idx,
{
    let mut out: Vec<ParamTuple> = Vec::new();
    if idx == axes.len() {
        if limit > 0 {
            out.push(ParamTuple { entries: Vec::new() });
        }
        proof {
            assert(tuples_view(out@) =~= grid_spec(axes@, idx as int, limit as int));
        }
        return out;
    }
    let tails: Vec<ParamTuple> = grid_rec(axes, idx + 1, limit);
    let r: ParamRange = axes[idx];
    proof {
        assert(range_valid(axes@[idx as int]));
        vstd::arithmetic::div_mod::lemma_div_pos_is_pos(r.max as int - r.min as int, r.step as int);
    }
    let alen128: i128 = (r.max as i128 - r.min as i128) / (r.step as i128) + 1;
    proof {
        assert((r.max as i128 - r.min as i128) as int == r.max as int - r.min as int);
        crate::fixed::lemma_tdiv_nonneg(r.max as int - r.min as int, r.step as int);
        assert(alen128 as int == axis_len(axes@[idx as int]));
    }
    let ghost tailsv = tuples_view(tails@);
    let ghost target = grid_walk(axes@[idx as int], tailsv, 0, 0, limit as int);
    let mut k: i128 = 0;
    let mut t: usize = 0;
    while k < alen128 && out.len() < limit
        invariant
            0 <= k <= alen128,
            0 <= t,
            t <= tails@.len(),
            k < alen128 ==> t <= tails@.len(),
            alen128 as int == axis_len(axes@[idx as int]),
            range_valid(axes@[idx as int]),
            r == axes@[idx as int],
            tailsv == tuples_view(tails@),
            out@.len() <= limit,
            target == grid_walk(axes@[idx as int], tailsv, 0, 0, limit as int),
            target =~= tuples_view(out@).add(
                grid_walk(axes@[idx as int], tailsv, k as int, t as int, limit - out@.len())),
        decreases alen128 - k, tails@.len() + 1 - t,
    {
        if t >= tails.len() {
            proof {
                assert(grid_walk(axes@[idx as int], tailsv, k as int, t as int, limit - out@.len())
                    == grid_walk(axes@[idx as int], tailsv, k as int + 1, 0, limit - out@.len()));
            }
            k = k + 1;
            t = 0;
        } else {
            proof {
                assert(0 <= (k as int) * (r.step as int)
                    && (k as int) * (r.step as int) <= r.max as int - r.min as int) by {
                    assert((k as int) * (r.step as int) >= 0) by (nonlinear_arith)
                        requires
                            k >= 0,
                            r.step as int >= 1,
                    ;
                    assert((k as int) <= (r.max as int - r.min as int) / (r.step as int));
                    vstd::arithmetic::div_mod::lemma_fundamental_div_mod(
                        r.max as int - r.min as int, r.step as int);
                    assert((k as int) * (r.step as int)
                        <= ((r.max as int - r.min as int) / (r.step as int)) * (r.step as int))
                        by (nonlinear_arith)
                        requires
                            k as int <= (r.max as int - r.min as int) / (r.step as int),
                            r.step as int >= 1,
                    ;
                    assert(((r.max as int - r.min as int) / (r.step as int)) * (r.step as int)
                        <= r.max as int - r.min as int) by (nonlinear_arith)
                        requires
                            (r.max as int - r.min as int) == ((r.max as int - r.min as int) / (r.step as int)) * (r.step as int) + (r.max as int - r.min as int) % (r.step as int),
                            (r.max as int - r.min as int) % (r.step as int) >= 0,
                    ;
                }
            }
            let v: i64 = (r.min as i128 + k * r.step as i128) as i64;
            let tail: &ParamTuple = &tails[t];
            let mut entries: Vec<ParamEntry> = Vec::new();
            entries.push(ParamEntry { name: r.name, value: v });
            let m: usize = tail.entries.len();
            let mut j: usize = 0;
            while j < m
                invariant
                    0 <= j <= m,
                    m == tail.entries@.len(),
                    entries@.len() == j + 1,
                    entries@[0] == (ParamEntry { name: r.name, value: v }),
                    forall|q: int| 1 <= q < j + 1 ==> #[trigger] entries@[q] == tail.entries@[q - 1],
                decreases m - j,
            {
                entries.push(tail.entries[j]);
                j = j + 1;
            }
            proof {
                assert(entries@ =~= seq![ParamEntry { name: r.name, value: v }].add(tail.entries@));
                assert(grid_walk(axes@[idx as int], tailsv, k as int, t as int, limit - out@.len())
                    == seq![seq![ParamEntry { name: r.name, value: axis_val(r, k as int) as i64 }].add(tailsv[t as int])]
                        .add(grid_walk(axes@[idx as int], tailsv, k as int, t as int + 1,
                            limit - out@.len() - 1)));
            }
            let ghost out_pre = out@;
            out.push(ParamTuple { entries });
            proof {
                assert(tuples_view(out@) =~= tuples_view(out_pre).push(
                    seq![ParamEntry { name: r.name, value: axis_val(r, k as int) as i64 }].add(tailsv[t as int])));
                assert(target =~= tuples_view(out@).add(
                    grid_walk(axes@[idx as int], tailsv, k as int, t as int + 1, limit - out@.len())));
            }
            t = t + 1;
        }
    }
    proof {
        if !(k < alen128) {
            assert(grid_walk(axes@[idx as int], tailsv, k as int, t as int, limit - out@.len())
                =~= Seq::<Seq<ParamEntry>>::empty());
        } else {
            assert(out@.len() == limit);
            assert(grid_walk(axes@[idx as int], tailsv, k as int, t as int, limit - out@.len())
                =~= Seq::<Seq<ParamEntry>>::empty());
        }
        assert(tuples_view(out@) =~= target);
    }
    out
}

/// Generate the parameter grid over the given axes: the Cartesian product
/// in axis-major order, cut to `GRID_CAP` tuples; the flag reports whether
/// the cut removed anything.
pub fn generate_parameter_grid(axes: &Vec<ParamRange>) -> (out: (Vec<ParamTuple>, bool))
    requires
        forall|k: int| 0 <= k < axes@.len() ==> range_valid(#[trigger] axes@[k]),
    ensures
        tuples_view(out.0@) == grid_spec(axes@, 0, GRID_CAP as int),
        out.0@.len() <= GRID_CAP,
        out.1 <==> grid_spec(axes@, 0, GRID_CAP as int + 1).len() > GRID_CAP,
{
    let with_extra: Vec<ParamTuple> = grid_rec(axes, 0, GRID_CAP + 1);
    let truncated: bool = with_extra.len() > GRID_CAP;
    let out: Vec<ParamTuple> = grid_rec(axes, 0, GRID_CAP);
    (out, truncated)
}

/// The objective to maximise.
#[derive(Clone, Copy, PartialEq, Eq, Structural, Debug)]
pub enum OptimizationMetric {
    SharpeRatio,
    TotalReturn,
    CalmarRatio,
    SortinoRatio,
}

/// The optimisation request: the base strategy fixing the schema, the grid
/// axes, the objective, an optional worker count and an optional cap on
/// evaluations.
#[derive(Debug)]
pub struct OptimizationConfig {
    pub strategy: StrategyType,
    pub parameter_ranges: Vec<ParamRange>,
    pub metric: OptimizationMetric,
    pub max_workers: Option<usize>,
    pub max_combinations: Option<usize>,
}

/// One scored grid point: the tuple, its objective score, and the full
/// backtest result where the evaluation succeeded.
#[derive(Debug)]
pub struct ParameterSet {
    pub values: ParamTuple,
    pub score: i64,
    pub backtest_result: Option<BacktestResult>,
}

/// The optimisation outcome. The timing and efficiency fields are
/// diagnostics the optimiser leaves at zero; a caller that times the sweep
/// may fill them in.
#[derive(Debug)]
pub struct OptimizationResult {
    pub best_parameters: ParameterSet,
    pub all_parameters: Vec<ParameterSet>,
    pub optimization_time_ms: u64,
    pub total_combinations: usize,
    pub parallel_efficiency: i64,
    pub truncated: bool,
}

/// The first value under `name` among the entries, or the default.
pub open spec fn lookup_spec(es: Seq<ParamEntry>, name: ParamName, dflt: int) -> int
    decreases es.len(),
{
    if es.len() == 0 {
        dflt
    } else if es[0].name == name {
        es[0].value as int
    } else {
        lookup_spec(es.drop_first(), name, dflt)
    }
}

/// A machine count from a scalar: clamped into `[0, MAX_SERIES]`.
pub open spec fn count_of(v: int) -> int {
    if v < 0 {
        0
    } else if v > MAX_SERIES as int {
        MAX_SERIES as int
    } else {
        v
    }
}

/// Look a parameter up in a tuple, with a default.
fn lookup(entries: &Vec<ParamEntry>, name: ParamName, dflt: i64) -> (r: i64)
    ensures
        r as int == lookup_spec(entries@, name, dflt as int),
{
    let n: usize = entries.len();
    proof {
        assert(entries@.skip(0) =~= entries@);
    }
    let mut i: usize = 0;
    while i < n
        invariant
            0 <= i <= n,
            n == entries@.len(),
            lookup_spec(entries@, name, dflt as int) == lookup_spec(entries@.skip(i as int), name, dflt as int),
        decreases n - i,
    {
        proof {
            assert(entries@.skip(i as int)[0] == entries@[i as int]);
            assert(entries@.skip(i as int).drop_first() =~= entries@.skip(i as int + 1));
        }
        if entries[i].name == name {
            return entries[i].value;
        }
        i = i + 1;
    }
    proof {
        assert(entries@.skip(n as int).len() == 0);
    }
    dflt
}

/// A count parameter: looked up and clamped to a non-negative machine
/// count.
fn lookup_count(entries: &Vec<ParamEntry>, name: ParamName, dflt: i64) -> (r: usize)
    requires
        dflt >= 0,
    ensures
        r as int == count_of(lookup_spec(entries@, name, dflt as int)),
{
    let v: i64 = lookup(entries, name, dflt);
    if v < 0 {
        0
    } else if v > MAX_SERIES as i64 {
        MAX_SERIES
    } else {
        v as usize
    }
}

/// The concrete strategy a tuple selects against a base variant: each
/// field is the tuple's entry of that name, or the catalogue default.
pub open spec fn create_spec(base: StrategyType, es: Seq<ParamEntry>) -> StrategyType {
    match base {
        StrategyType::MovingAverageCross { .. } => StrategyType::MovingAverageCross {
            fast_period: count_of(lookup_spec(es, ParamName::FastPeriod, 10)) as usize,
            slow_period: count_of(lookup_spec(es, ParamName::SlowPeriod, 20)) as usize,
        },
        StrategyType::RSI { .. } => StrategyType::RSI {
            period: count_of(lookup_spec(es, ParamName::Period, 14)) as usize,
            oversold: lookup_spec(es, ParamName::Oversold, 300_000) as i64,
            overbought: lookup_spec(es, ParamName::Overbought, 700_000) as i64,
        },
        StrategyType::MACD { .. } => StrategyType::MACD {
            fast: count_of(lookup_spec(es, ParamName::Fast, 12)) as usize,
            slow: count_of(lookup_spec(es, ParamName::Slow, 26)) as usize,
            signal: count_of(lookup_spec(es, ParamName::SignalPeriod, 9)) as usize,
        },
        StrategyType::BollingerBands { .. } => StrategyType::BollingerBands {
            period: count_of(lookup_spec(es, ParamName::Period, 20)) as usize,
            std_dev: lookup_spec(es, ParamName::StdDevK, 20_000) as i64,
        },
        StrategyType::KDJ { .. } => StrategyType::KDJ {
            k_period: count_of(lookup_spec(es, ParamName::KPeriod, 9)) as usize,
            d_period: count_of(lookup_spec(es, ParamName::DPeriod, 3)) as usize,
            oversold: lookup_spec(es, ParamName::Oversold, 200_000) as i64,
            overbought: lookup_spec(es, ParamName::Overbought, 800_000) as i64,
        },
        StrategyType::CCI { .. } => StrategyType::CCI {
            period: count_of(lookup_spec(es, ParamName::Period, 20)) as usize,
        },
        StrategyType::ADX { .. } => StrategyType::ADX {
            period: count_of(lookup_spec(es, ParamName::Period, 14)) as usize,
            threshold: lookup_spec(es, ParamName::Threshold, 250_000) as i64,
        },
        StrategyType::ATR { .. } => StrategyType::ATR {
            period: count_of(lookup_spec(es, ParamName::Period, 14)) as usize,
            multiplier: lookup_spec(es, ParamName::Multiplier, 20_000) as i64,
        },
        StrategyType::OBV { .. } => StrategyType::OBV {
            period: count_of(lookup_spec(es, ParamName::Period, 20)) as usize,
        },
        StrategyType::Ichimoku { .. } => StrategyType::Ichimoku {
            conv: count_of(lookup_spec(es, ParamName::ConvPeriod, 9)) as usize,
            base: count_of(lookup_spec(es, ParamName::BasePeriod, 26)) as usize,
            lag: count_of(lookup_spec(es, ParamName::LagPeriod, 52)) as usize,
        },
        StrategyType::ParabolicSAR { .. } => StrategyType::ParabolicSAR {
            af_start: lookup_spec(es, ParamName::AfStart, 200) as i64,
            af_max: lookup_spec(es, ParamName::AfMax, 2_000) as i64,
        },
    }
}

/// Build the concrete strategy a tuple selects against a base variant.
pub fn create_strategy_from_params(base: &StrategyType, tuple: &ParamTuple) -> (s: StrategyType)
    ensures
        s == create_spec(*base, tuple.entries@),
{
    match base {
        StrategyType::MovingAverageCross { .. } => StrategyType::MovingAverageCross {
            fast_period: lookup_count(&tuple.entries, ParamName::FastPeriod, 10),
            slow_period: lookup_count(&tuple.entries, ParamName::SlowPeriod, 20),
        },
        StrategyType::RSI { .. } => StrategyType::RSI {
            period: lookup_count(&tuple.entries, ParamName::Period, 14),
            oversold: lookup(&tuple.entries, ParamName::Oversold, 300_000),
            overbought: lookup(&tuple.entries, ParamName::Overbought, 700_000),
        },
        StrategyType::MACD { .. } => StrategyType::MACD {
            fast: lookup_count(&tuple.entries, ParamName::Fast, 12),
            slow: lookup_count(&tuple.entries, ParamName::Slow, 26),
            signal: lookup_count(&tuple.entries, ParamName::SignalPeriod, 9),
        },
        StrategyType::BollingerBands { .. } => StrategyType::BollingerBands {
            period: lookup_count(&tuple.entries, ParamName::Period, 20),
            std_dev: lookup(&tuple.entries, ParamName::StdDevK, 20_000),
        },
        StrategyType::KDJ { .. } => StrategyType::KDJ {
            k_period: lookup_count(&tuple.entries, ParamName::KPeriod, 9),
            d_period: lookup_count(&tuple.entries, ParamName::DPeriod, 3),
            oversold: lookup(&tuple.entries, ParamName::Oversold, 200_000),
            overbought: lookup(&tuple.entries, ParamName::Overbought, 800_000),
        },
        StrategyType::CCI { .. } => StrategyType::CCI {
            period: lookup_count(&tuple.entries, ParamName::Period, 20),
        },
        StrategyType::ADX { .. } => StrategyType::ADX {
            period: lookup_count(&tuple.entries, ParamName::Period, 14),
            threshold: lookup(&tuple.entries, ParamName::Threshold, 250_000),
        },
        StrategyType::ATR { .. } => StrategyType::ATR {
            period: lookup_count(&tuple.entries, ParamName::Period, 14),
            multiplier: lookup(&tuple.entries, ParamName::Multiplier, 20_000),
        },
        StrategyType::OBV { .. } => StrategyType::OBV {
            period: lookup_count(&tuple.entries, ParamName::Period, 20),
        },
        StrategyType::Ichimoku { .. } => StrategyType::Ichimoku {
            conv: lookup_count(&tuple.entries, ParamName::ConvPeriod, 9),
            base: lookup_count(&tuple.entries, ParamName::BasePeriod, 26),
            lag: lookup_count(&tuple.entries, ParamName::LagPeriod, 52),
        },
        StrategyType::ParabolicSAR { .. } => StrategyType::ParabolicSAR {
            af_start: lookup(&tuple.entries, ParamName::AfStart, 200),
            af_max: lookup(&tuple.entries, ParamName::AfMax, 2_000),
        },
    }
}

/// The objective score a tuple earns: the chosen metric of a successful
/// backtest, or the negative saturation sentinel where the strategy is
/// invalid or the run fails.
pub open spec fn eval_score_spec(bars: Seq<Bar>, base: StrategyType, es: Seq<ParamEntry>,
    cost: CostConfig, metric: OptimizationMetric) -> int {
    let strat = create_spec(base, es);
    if strategy_valid(strat) && backtest_ok(bars, strategy_signals_spec(bars, strat), cost) {
        let st = sim_run(bars, sort_by_ts(strategy_signals_spec(bars, strat)), cost)->Ok_0;
        let m = metrics_result_spec(sim_trades_exec(st), sim_equity_vals(st),
            cost.risk_free_rate as int)->Ok_0;
        match metric {
            OptimizationMetric::SharpeRatio => m.sharpe_ratio as int,
            OptimizationMetric::TotalReturn => m.total_return as int,
            OptimizationMetric::CalmarRatio => m.calmar_ratio as int,
            OptimizationMetric::SortinoRatio => m.sortino_ratio as int,
        }
    } else {
        i64::MIN as int
    }
}

/// Evaluate one grid point: build the concrete strategy, run the backtest
/// and score it; a failed run scores the negative sentinel and carries no
/// result.
pub fn evaluate_tuple(bars: &Vec<Bar>, base: &StrategyType, tuple: &ParamTuple,
    cost: CostConfig, metric: OptimizationMetric) -> (r: ParameterSet)
    requires
        bars@.len() <= MAX_SERIES,
    ensures
        r.values.entries@ == tuple.entries@,
        r.score as int == eval_score_spec(bars@, *base, tuple.entries@, cost, metric),
        r.backtest_result is Some <==> strategy_valid(create_spec(*base, tuple.entries@))
            && backtest_ok(bars@, strategy_signals_spec(bars@, create_spec(*base, tuple.entries@)), cost),
{
    let strat: StrategyType = create_strategy_from_params(base, tuple);
    match run_strategy_backtest(bars, &strat, cost) {
        Ok(res) => {
            let score: i64 = match metric {
                OptimizationMetric::SharpeRatio => res.metrics.sharpe_ratio,
                OptimizationMetric::TotalReturn => res.metrics.total_return,
                OptimizationMetric::CalmarRatio => res.metrics.calmar_ratio,
                OptimizationMetric::SortinoRatio => res.metrics.sortino_ratio,
            };
            ParameterSet {
                values: clone_tuple(tuple),
                score,
                backtest_result: Some(res),
            }
        },
        Err(_) => ParameterSet {
            values: clone_tuple(tuple),
            score: i64::MIN,
            backtest_result: None,
        },
    }
}

/// The `(entries, score)` pairs of a scored vector.
pub open spec fn scored_view(s: Seq<ParameterSet>) -> Seq<(Seq<ParamEntry>, int)> {
    s.map_values(|p: ParameterSet| (p.values.entries@, p.score as int))
}

/// Insert a scored pair behind every element whose score is at least its
/// own: the stable descending insertion step.
pub open spec fn rank_insert(s: Seq<(Seq<ParamEntry>, int)>, x: (Seq<ParamEntry>, int))
    -> Seq<(Seq<ParamEntry>, int)>
    decreases s.len(),
{
    if s.len() == 0 {
        seq![x]
    } else if s.last().1 >= x.1 {
        s.push(x)
    } else {
        rank_insert(s.drop_last(), x).push(s.last())
    }
}

/// Stable descending sort by score: insertion of each element in turn.
pub open spec fn rank_spec(s: Seq<(Seq<ParamEntry>, int)>) -> Seq<(Seq<ParamEntry>, int)>
    decreases s.len(),
{
    if s.len() == 0 {
        Seq::empty()
    } else {
        rank_insert(rank_spec(s.drop_last()), s.last())
    }
}

/// Non-increasing score order.
pub open spec fn sorted_desc(s: Seq<(Seq<ParamEntry>, int)>) -> bool {
    forall|i: int| 1 <= i < s.len() ==> s[i - 1].1 >= #[trigger] s[i].1
}

/// Inserting at the position the executable search finds is the stable
/// insertion step.
proof fn lemma_rank_insert_at(s: Seq<(Seq<ParamEntry>, int)>, x: (Seq<ParamEntry>, int), k: int)
    requires
        0 <= k <= s.len(),
        forall|i: int| k <= i < s.len() ==> #[trigger] s[i].1 < x.1,
        k > 0 ==> s[k - 1].1 >= x.1,
    ensures
        rank_insert(s, x) == s.subrange(0, k).push(x).add(s.subrange(k, s.len() as int)),
    decreases s.len(),
{
    if s.len() == k {
        if k == 0 {
            assert(rank_insert(s, x) =~= s.subrange(0, k).push(x).add(s.subrange(k, s.len() as int)));
        } else {
            assert(rank_insert(s, x) =~= s.subrange(0, k).push(x).add(s.subrange(k, s.len() as int)));
        }
    } else {
        assert(s[s.len() - 1].1 < x.1);
        lemma_rank_insert_at(s.drop_last(), x, k);
        assert(rank_insert(s, x) =~= s.subrange(0, k).push(x).add(s.subrange(k, s.len() as int)));
    }
}

/// Rank a scored vector: stable descending insertion sort by score.
#[verifier::rlimit(50)]
pub fn rank_results(results: Vec<ParameterSet>) -> (out: Vec<ParameterSet>)
    ensures
        scored_view(out@) == rank_spec(scored_view(results@)),
        sorted_desc(scored_view(out@)),
        out@.len() == results@.len(),
{
    let ghost input_view = scored_view(results@);
    let ln: usize = results.len();
    proof {
        assert(input_view.len() == results@.len());
    }
    let mut rest: Vec<ParameterSet> = results;
    let mut out: Vec<ParameterSet> = Vec::new();
    let ghost n = ln as int;
    let mut idx: usize = 0;
    while rest.len() > 0
        invariant
            idx as int + rest@.len() == n,
            n <= usize::MAX,
            input_view.len() == n,
            scored_view(rest@) =~= input_view.skip(idx as int),
            scored_view(out@) == rank_spec(input_view.take(idx as int)),
            sorted_desc(scored_view(out@)),
            out@.len() == idx,
        decreases rest@.len(),
    {
        let ghost rest_pre = rest@;
        let x: ParameterSet = rest.remove(0);
        proof {
            assert(rest@ =~= rest_pre.drop_first());
            assert(scored_view(rest@) =~= scored_view(rest_pre).drop_first());
            assert(scored_view(rest_pre).drop_first() =~= input_view.skip(idx as int + 1));
            assert(scored_view(rest_pre)[0] == (x.values.entries@, x.score as int));
            assert(input_view.skip(idx as int)[0] == input_view[idx as int]);
            assert(input_view[idx as int] == (x.values.entries@, x.score as int));
        }
        let mut k: usize = out.len();
        while k > 0 && out[k - 1].score < x.score
            invariant
                0 <= k <= out@.len(),
                forall|i: int| k <= i < out@.len() ==> #[trigger] scored_view(out@)[i].1 < x.score as int,
                sorted_desc(scored_view(out@)),
            decreases k,
        {
            proof {
                assert(scored_view(out@)[k as int - 1] == (out@[k as int - 1].values.entries@,
                    out@[k as int - 1].score as int));
            }
            k = k - 1;
        }
        let ghost prev = scored_view(out@);
        proof {
            if k > 0 {
                assert(prev[k as int - 1] == (out@[k as int - 1].values.entries@,
                    out@[k as int - 1].score as int));
            }
            lemma_rank_insert_at(prev, (x.values.entries@, x.score as int), k as int);
        }
        out.insert(k, x);
        proof {
            assert(scored_view(out@) =~= prev.subrange(0, k as int)
                .push((out@[k as int].values.entries@, out@[k as int].score as int))
                .add(prev.subrange(k as int, prev.len() as int)));
            assert(scored_view(out@) == rank_insert(prev, (out@[k as int].values.entries@,
                out@[k as int].score as int)));
            let sub1 = input_view.take(idx as int + 1);
            assert(sub1.drop_last() =~= input_view.take(idx as int));
            assert(sub1.last() == input_view[idx as int]);
            assert(out@[k as int] == x);
            assert(scored_view(out@) == rank_spec(sub1));
            assert forall|i: int| 1 <= i < scored_view(out@).len()
                implies scored_view(out@)[i - 1].1 >= #[trigger] scored_view(out@)[i].1 by {
                if i < k as int {
                } else if i == k as int {
                } else if i == k as int + 1 {
                } else {
                }
            }
        }
        idx = idx + 1;
    }
    proof {
        assert(input_view.take(n) =~= input_view);
    }
    out
}

/// The whole optimisation as one function of its inputs: the grid cut at
/// the cap, each tuple scored, and the pairs ranked.
pub open spec fn optimize_spec(bars: Seq<Bar>, cost: CostConfig, base: StrategyType,
    axes: Seq<ParamRange>, metric: OptimizationMetric, cap: int) -> Seq<(Seq<ParamEntry>, int)> {
    let grid = grid_spec(axes, 0, cap);
    rank_spec(Seq::new(grid.len(), |i: int| (grid[i],
        eval_score_spec(bars, base, grid[i], cost, metric))))
}

/// Relies on `num_cpus::get`: the detected hardware parallelism, at least
/// one.
#[verifier::external_body]
fn detected_parallelism() -> (r: usize)
    ensures
        r >= 1,
{
    if num_cpus::get() >= 1 { num_cpus::get() } else { 1 }
}

/// Relies on rayon's thread pool and parallel iterator: `par_iter().map`
/// applies the verified evaluation to each tuple and `collect` preserves
/// the input order, so the result equals the sequential evaluation. If the
/// pool cannot be built the evaluation runs on the current thread.
#[verifier::external_body]
fn par_evaluate(bars: &Vec<Bar>, base: &StrategyType, tuples: &Vec<ParamTuple>,
    cost: CostConfig, metric: OptimizationMetric, workers: usize) -> (out: Vec<ParameterSet>)
    requires
        bars@.len() <= MAX_SERIES,
        workers >= 1,
    ensures
        out@.len() == tuples@.len(),
        forall|k: int| 0 <= k < out@.len() ==> {
            &&& (#[trigger] out@[k]).values.entries@ == tuples@[k].entries@
            &&& out@[k].score as int == eval_score_spec(bars@, *base, tuples@[k].entries@, cost, metric)
        },
{
    match rayon::ThreadPoolBuilder::new().num_threads(workers).build() {
        Ok(pool) => pool.install(|| {
            tuples.par_iter().map(|t| evaluate_tuple(bars, base, t, cost, metric)).collect()
        }),
        Err(_) => tuples.iter().map(|t| evaluate_tuple(bars, base, t, cost, metric)).collect(),
    }
}

/// Copy a scored set's tuple and score, and whether it carried a result.
fn clone_scored(p: &ParameterSet) -> (out: ParameterSet)
    ensures
        out.values.entries@ == p.values.entries@,
        out.score == p.score,
        out.backtest_result is Some <==> p.backtest_result is Some,
{
    ParameterSet {
        values: clone_tuple(&p.values),
        score: p.score,
        backtest_result: match &p.backtest_result {
            Some(res) => Some(BacktestResult {
                config: res.config,
                metrics: res.metrics,
                trades: clone_trades(&res.trades),
                equity_curve: clone_curve(&res.equity_curve),
                final_value: res.final_value,
                execution_time_ns: res.execution_time_ns,
            }),
            None => None,
        },
    }
}

/// Copy a trade ledger.
fn clone_trades(v: &Vec<crate::types::Trade>) -> (out: Vec<crate::types::Trade>)
    ensures
        out@ == v@,
{
    let n: usize = v.len();
    let mut out: Vec<crate::types::Trade> = Vec::new();
    let mut i: usize = 0;
    while i < n
        invariant
            0 <= i <= n,
            n == v@.len(),
            out@.len() == i,
            forall|k: int| 0 <= k < i ==> #[trigger] out@[k] == v@[k],
        decreases n - i,
    {
        out.push(v[i]);
        i = i + 1;
    }
    proof {
        assert(out@ =~= v@);
    }
    out
}

/// Copy an equity curve.
fn clone_curve(v: &Vec<crate::types::EquityPoint>) -> (out: Vec<crate::types::EquityPoint>)
    ensures
        out@ == v@,
{
    let n: usize = v.len();
    let mut out: Vec<crate::types::EquityPoint> = Vec::new();
    let mut i: usize = 0;
    while i < n
        invariant
            0 <= i <= n,
            n == v@.len(),
            out@.len() == i,
            forall|k: int| 0 <= k < i ==> #[trigger] out@[k] == v@[k],
        decreases n - i,
    {
        out.push(v[i]);
        i = i + 1;
    }
    proof {
        assert(out@ =~= v@);
    }
    out
}

/// Run a grid search: validate the request, enumerate the grid up to the
/// cap, score every tuple by the objective (in parallel when more than one
/// worker is available), and rank the results descending by score with a
/// stable tie-break in enumeration order.
pub fn optimize(bars: &Vec<Bar>, cost: CostConfig, config: &OptimizationConfig)
    -> (r: Result<OptimizationResult, BacktestError>)
    requires
        bars@.len() <= MAX_SERIES,
    ensures
        ({
            let cap = if config.max_combinations matches Some(c) && c < GRID_CAP { (config.max_combinations->Some_0) as int } else { GRID_CAP as int };
            match r {
                Ok(res) => {
                    &&& config.parameter_ranges@.len() > 0
                    &&& cost_config_valid(cost)
                    &&& forall|k: int| 0 <= k < config.parameter_ranges@.len()
                        ==> range_valid(#[trigger] config.parameter_ranges@[k])
                    &&& scored_view(res.all_parameters@) == optimize_spec(bars@, cost,
                        config.strategy, config.parameter_ranges@, config.metric, cap)
                    &&& sorted_desc(scored_view(res.all_parameters@))
                    &&& res.all_parameters@.len() > 0
                    &&& res.best_parameters.values.entries@ == res.all_parameters@[0].values.entries@
                    &&& res.best_parameters.score == res.all_parameters@[0].score
                    &&& res.total_combinations == res.all_parameters@.len()
                    &&& res.optimization_time_ms == 0
                    &&& res.parallel_efficiency == 0
                    &&& (res.truncated <==> grid_spec(config.parameter_ranges@, 0, cap + 1).len() > cap)
                },
                Err(e) => {
                    &&& (e matches BacktestError::ValidationFailed { .. })
                    &&& (config.parameter_ranges@.len() == 0
                        || !cost_config_valid(cost)
                        || config.max_combinations == Some(0usize)
                        || exists|k: int| 0 <= k < config.parameter_ranges@.len()
                            && !range_valid(#[trigger] config.parameter_ranges@[k]))
                },
            }
        }),
{
    if config.parameter_ranges.len() == 0 {
        return Err(BacktestError::ValidationFailed {
            field: "parameter_ranges",
            reason: "there are no parameters to optimise",
        });
    }
    if let Err(_) = crate::engine::validate_cost_config(&cost) {
        return Err(BacktestError::ValidationFailed {
            field: "cost config",
            reason: "the cost configuration is out of range",
        });
    }
    let nr: usize = config.parameter_ranges.len();
    let mut ri: usize = 0;
    while ri < nr
        invariant
            0 <= ri <= nr,
            nr == config.parameter_ranges@.len(),
            forall|k: int| 0 <= k < ri ==> range_valid(#[trigger] config.parameter_ranges@[k]),
        decreases nr - ri,
    {
        let a: ParamRange = config.parameter_ranges[ri];
        if a.step < 1 || a.min > a.max || a.min < -PARAM_CAP || a.max > PARAM_CAP {
            return Err(BacktestError::ValidationFailed {
                field: "parameter_ranges",
                reason: "an axis has a non-positive step or disordered bounds",
            });
        }
        ri = ri + 1;
    }
    if config.max_combinations == Some(0usize) {
        return Err(BacktestError::ValidationFailed {
            field: "max_combinations",
            reason: "the evaluation cap must be positive",
        });
    }
    let cap: usize = match config.max_combinations {
        Some(c) => if c < GRID_CAP { c } else { GRID_CAP },
        None => GRID_CAP,
    };
    let with_extra: Vec<ParamTuple> = grid_rec(&config.parameter_ranges, 0, cap + 1);
    let truncated: bool = with_extra.len() > cap;
    let grid: Vec<ParamTuple> = grid_rec(&config.parameter_ranges, 0, cap);
    let workers: usize = match config.max_workers {
        Some(w) => if w >= 1 { w } else { 1 },
        None => detected_parallelism(),
    };
    let ghost grid_view = tuples_view(grid@);
    let results: Vec<ParameterSet> = if workers > 1 {
        par_evaluate(bars, &config.strategy, &grid, cost, config.metric, workers)
    } else {
        let gn: usize = grid.len();
        let mut acc: Vec<ParameterSet> = Vec::new();
        let mut gi: usize = 0;
        while gi < gn
            invariant
                0 <= gi <= gn,
                gn == grid@.len(),
                bars@.len() <= MAX_SERIES,
                grid_view == tuples_view(grid@),
                acc@.len() == gi,
                forall|k: int| 0 <= k < gi ==> {
                    &&& (#[trigger] acc@[k]).values.entries@ == grid@[k].entries@
                    &&& acc@[k].score as int == eval_score_spec(bars@, config.strategy,
                        grid@[k].entries@, cost, config.metric)
                },
            decreases gn - gi,
        {
            let p: ParameterSet = evaluate_tuple(bars, &config.strategy, &grid[gi], cost, config.metric);
            acc.push(p);
            gi = gi + 1;
        }
        acc
    };
    proof {
        assert(scored_view(results@) =~= Seq::new(grid_view.len(),
            |i: int| (grid_view[i], eval_score_spec(bars@, config.strategy, grid_view[i], cost, config.metric))));
    }
    let ranked: Vec<ParameterSet> = rank_results(results);
    let total: usize = ranked.len();
    proof {
        lemma_grid_nonempty(config.parameter_ranges@, 0, cap as int);
    }
    let best: ParameterSet = clone_scored(&ranked[0]);
    Ok(OptimizationResult {
        best_parameters: best,
        all_parameters: ranked,
        optimization_time_ms: 0,
        total_combinations: total,
        parallel_efficiency: 0,
        truncated,
    })
}

/// A grid over valid axes with a positive limit holds at least one tuple.
proof fn lemma_grid_nonempty(axes: Seq<ParamRange>, idx: int, limit: int)
    requires
        0 <= idx <= axes.len(),
        limit >= 1,
        forall|k: int| 0 <= k < axes.len() ==> range_valid(#[trigger] axes[k]),
    ensures
        grid_spec(axes, idx, limit).len() >= 1,
    decreases axes.len() - idx,
{
    if idx < axes.len() {
        lemma_grid_nonempty(axes, idx + 1, limit);
        let r = axes[idx];
        vstd::arithmetic::div_mod::lemma_div_pos_is_pos(r.max as int - r.min as int, r.step as int);
        assert(axis_len(r) >= 1);
        let tails = grid_spec(axes, idx + 1, limit);
        assert(grid_walk(r, tails, 0, 0, limit)
            == seq![seq![ParamEntry { name: r.name, value: axis_val(r, 0) as i64 }].add(tails[0])]
                .add(grid_walk(r, tails, 0, 1, limit - 1)));
    }
}

/// The leading `top_n` entries of a ranked result list.
pub fn top_k_by_objective(results: &Vec<ParameterSet>, top_n: usize) -> (out: Vec<ParameterSet>)
    ensures
        out@.len() == if top_n <= results@.len() { top_n as int } else { results@.len() as int },
        forall|k: int| 0 <= k < out@.len() ==> {
            &&& (#[trigger] out@[k]).values.entries@ == results@[k].values.entries@
            &&& out@[k].score == results@[k].score
        },
{
    let n: usize = results.len();
    let m: usize = if top_n <= n { top_n } else { n };
    let mut out: Vec<ParameterSet> = Vec::new();
    let mut i: usize = 0;
    while i < m
        invariant
            0 <= i <= m,
            m <= results@.len(),
            out@.len() == i,
            forall|k: int| 0 <= k < i ==> {
                &&& (#[trigger] out@[k]).values.entries@ == results@[k].values.entries@
                &&& out@[k].score == results@[k].score
            },
        decreases m - i,
    {
        out.push(clone_scored(&results[i]));
        i = i + 1;
    }
    out
}

/// Two tuples carry the same entries.
pub fn param_tuple_eq(a: &ParamTuple, b: &ParamTuple) -> (r: bool)
    ensures
        r <==> a.entries@ == b.entries@,
{
    let n: usize = a.entries.len();
    if n != b.entries.len() {
        proof {
            assert(a.entries@.len() != b.entries@.len());
        }
        return false;
    }
    let mut i: usize = 0;
    while i < n
        invariant
            0 <= i <= n,
            n == a.entries@.len(),
            n == b.entries@.len(),
            forall|k: int| 0 <= k < i ==> #[trigger] a.entries@[k] == b.entries@[k],
        decreases n - i,
    {
        let x: ParamEntry = a.entries[i];
        let y: ParamEntry = b.entries[i];
        if !(x.name == y.name && x.value == y.value) {
            proof {
                assert(a.entries@[i as int] != b.entries@[i as int]);
            }
            return false;
        }
        i = i + 1;
    }
    proof {
        assert(a.entries@ =~= b.entries@);
    }
    true
}

/// One window of a walk-forward sweep: the training slice's bounds, the
/// optimisation over it, and the best tuple's backtest over the test slice
/// that follows (absent where that run fails).
#[derive(Debug)]
pub struct WalkForwardRecord {
    pub train_start: usize,
    pub train_end: usize,
    pub test_end: usize,
    pub optimization: OptimizationResult,
    pub test_result: Option<BacktestResult>,
}

/// Number of walk-forward windows from `start` on: one per step while a
/// full training-plus-test span still fits.
pub open spec fn wf_count_from(n: int, train: int, test: int, step: int, start: int) -> int
    decreases n + step - start,
{
    if step <= 0 || train < 0 || test < 0 || start < 0 || start + train + test > n {
        0
    } else {
        1 + wf_count_from(n, train, test, step, start + step)
    }
}

/// Copy a contiguous range of bars.
fn copy_bar_range(bars: &Vec<Bar>, a: usize, b: usize) -> (out: Vec<Bar>)
    requires
        a <= b,
        b <= bars@.len(),
    ensures
        out@ == bars@.subrange(a as int, b as int),
{
    let mut out: Vec<Bar> = Vec::new();
    let mut i: usize = a;
    while i < b
        invariant
            a <= i <= b,
            b <= bars@.len(),
            out@.len() == i - a,
            forall|k: int| 0 <= k < out@.len() ==> #[trigger] out@[k] == bars@[a + k],
        decreases b - i,
    {
        out.push(bars[i]);
        i = i + 1;
    }
    proof {
        assert(out@ =~= bars@.subrange(a as int, b as int));
    }
    out
}

/// Walk-forward optimisation: slice the series into training windows of
/// `train_len` bars each followed by `test_len` test bars, advance by
/// `step`, optimise on each training slice and run the best tuple's
/// strategy over the test slice. Fails only on an invalid request; a test
/// run that fails leaves its window's `test_result` empty.
pub fn walk_forward_optimization(bars: &Vec<Bar>, cost: CostConfig, config: &OptimizationConfig,
    train_len: usize, test_len: usize, step: usize)
    -> (r: Result<Vec<WalkForwardRecord>, BacktestError>)
    requires
        bars@.len() <= MAX_SERIES,
        train_len <= MAX_SERIES,
        test_len <= MAX_SERIES,
        step <= MAX_SERIES,
    ensures
        r is Ok <==> {
            &&& train_len >= 1 && test_len >= 1 && step >= 1
            &&& config.parameter_ranges@.len() > 0
            &&& cost_config_valid(cost)
            &&& config.max_combinations != Some(0usize)
            &&& forall|k: int| 0 <= k < config.parameter_ranges@.len()
                ==> range_valid(#[trigger] config.parameter_ranges@[k])
        },
        r matches Err(e) ==> (e matches BacktestError::ValidationFailed { .. }),
        ({
            let cap = if config.max_combinations matches Some(c) && c < GRID_CAP { (config.max_combinations->Some_0) as int } else { GRID_CAP as int };
            match r {
                Ok(recs) => {
                    &&& recs@.len() == wf_count_from(bars@.len() as int, train_len as int,
                        test_len as int, step as int, 0)
                    &&& forall|w: int| 0 <= w < recs@.len() ==> {
                        let rec = #[trigger] recs@[w];
                        let start = w * step;
                        let train = bars@.subrange(start, start + train_len);
                        let test = bars@.subrange(start + train_len, start + train_len + test_len);
                        let strat = create_spec(config.strategy,
                            rec.optimization.best_parameters.values.entries@);
                        &&& rec.train_start == start
                        &&& rec.train_end == start + train_len
                        &&& rec.test_end == start + train_len + test_len
                        &&& rec.test_end <= bars@.len()
                        &&& scored_view(rec.optimization.all_parameters@) == optimize_spec(train,
                            cost, config.strategy, config.parameter_ranges@, config.metric, cap)
                        &&& sorted_desc(scored_view(rec.optimization.all_parameters@))
                        &&& rec.optimization.all_parameters@.len() > 0
                        &&& rec.optimization.best_parameters.score
                            == rec.optimization.all_parameters@[0].score
                        &&& rec.optimization.best_parameters.values.entries@
                            == rec.optimization.all_parameters@[0].values.entries@
                        &&& (rec.test_result is Some <==> strategy_valid(strat)
                            && crate::engine::backtest_ok(test, strategy_signals_spec(test, strat), cost))
                        &&& (match rec.test_result {
                            Some(res) => {
                                let st = sim_run(test, sort_by_ts(strategy_signals_spec(test, strat)),
                                    cost)->Ok_0;
                                &&& crate::engine::curve_view(res.equity_curve@) == st.curve
                                &&& res.trades@ == sim_trades_exec(st)
                                &&& res.equity_curve@.len() == test.len()
                                &&& res.final_value == res.equity_curve@[test.len() - 1].value
                            },
                            None => true,
                        })
                    }
                },
                Err(_) => true,
            }
        }),
{
    if train_len == 0 || test_len == 0 || step == 0 {
        return Err(BacktestError::ValidationFailed {
            field: "windows",
            reason: "the training, test and step lengths must be positive",
        });
    }
    if config.parameter_ranges.len() == 0 {
        return Err(BacktestError::ValidationFailed {
            field: "parameter_ranges",
            reason: "there are no parameters to optimise",
        });
    }
    if let Err(_) = crate::engine::validate_cost_config(&cost) {
        return Err(BacktestError::ValidationFailed {
            field: "cost config",
            reason: "the cost configuration is out of range",
        });
    }
    if config.max_combinations == Some(0usize) {
        return Err(BacktestError::ValidationFailed {
            field: "max_combinations",
            reason: "the evaluation cap must be positive",
        });
    }
    let nr: usize = config.parameter_ranges.len();
    let mut ri: usize = 0;
    while ri < nr
        invariant
            0 <= ri <= nr,
            nr == config.parameter_ranges@.len(),
            forall|k: int| 0 <= k < ri ==> range_valid(#[trigger] config.parameter_ranges@[k]),
        decreases nr - ri,
    {
        let a: ParamRange = config.parameter_ranges[ri];
        if a.step < 1 || a.min > a.max || a.min < -PARAM_CAP || a.max > PARAM_CAP {
            return Err(BacktestError::ValidationFailed {
                field: "parameter_ranges",
                reason: "an axis has a non-positive step or disordered bounds",
            });
        }
        ri = ri + 1;
    }
    let ghost cap_spec: int = if config.max_combinations matches Some(c) && c < GRID_CAP { (config.max_combinations->Some_0) as int } else { GRID_CAP as int };
    let n: usize = bars.len();
    let ghost nwin = wf_count_from(n as int, train_len as int, test_len as int, step as int, 0);
    let mut out: Vec<WalkForwardRecord> = Vec::new();
    let mut start: usize = 0;
    while start + train_len + test_len <= n
        invariant
            bars@.len() == n,
            n <= MAX_SERIES,
            train_len >= 1,
            test_len >= 1,
            step >= 1,
            train_len <= MAX_SERIES,
            test_len <= MAX_SERIES,
            step <= MAX_SERIES,
            config.parameter_ranges@.len() > 0,
            cost_config_valid(cost),
            config.max_combinations != Some(0usize),
            forall|k: int| 0 <= k < config.parameter_ranges@.len()
                ==> range_valid(#[trigger] config.parameter_ranges@[k]),
            cap_spec == (if config.max_combinations matches Some(c) && c < GRID_CAP { (config.max_combinations->Some_0) as int } else { GRID_CAP as int }),
            start as int == out@.len() * (step as int),
            start <= n + MAX_SERIES,
            nwin == wf_count_from(n as int, train_len as int, test_len as int, step as int, 0),
            nwin == out@.len() + wf_count_from(n as int, train_len as int, test_len as int,
                step as int, start as int),
            forall|w: int| 0 <= w < out@.len() ==> {
                let rec = #[trigger] out@[w];
                let ws = w * step;
                let train = bars@.subrange(ws, ws + train_len);
                let test = bars@.subrange(ws + train_len, ws + train_len + test_len);
                let strat = create_spec(config.strategy,
                    rec.optimization.best_parameters.values.entries@);
                &&& rec.train_start == ws
                &&& rec.train_end == ws + train_len
                &&& rec.test_end == ws + train_len + test_len
                &&& rec.test_end <= bars@.len()
                &&& scored_view(rec.optimization.all_parameters@) == optimize_spec(train,
                    cost, config.strategy, config.parameter_ranges@, config.metric, cap_spec)
                &&& sorted_desc(scored_view(rec.optimization.all_parameters@))
                &&& rec.optimization.all_parameters@.len() > 0
                &&& rec.optimization.best_parameters.score
                    == rec.optimization.all_parameters@[0].score
                &&& rec.optimization.best_parameters.values.entries@
                    == rec.optimization.all_parameters@[0].values.entries@
                &&& (rec.test_result is Some <==> strategy_valid(strat)
                    && crate::engine::backtest_ok(test, strategy_signals_spec(test, strat), cost))
                &&& (match rec.test_result {
                    Some(res) => {
                        let st = sim_run(test, sort_by_ts(strategy_signals_spec(test, strat)),
                            cost)->Ok_0;
                        &&& crate::engine::curve_view(res.equity_curve@) == st.curve
                        &&& res.trades@ == sim_trades_exec(st)
                        &&& res.equity_curve@.len() == test.len()
                        &&& res.final_value == res.equity_curve@[test.len() - 1].value
                    },
                    None => true,
                })
            },
        decreases n + step - start,
    {
        let train_slice: Vec<Bar> = copy_bar_range(bars, start, start + train_len);
        let win_opt: OptimizationResult = match optimize(&train_slice, cost, config) {
            Ok(o) => o,
            Err(e) => {
                proof {
                    assert(false);
                }
                return Err(e);
            },
        };
        let strat: StrategyType = create_strategy_from_params(&config.strategy,
            &win_opt.best_parameters.values);
        let test_slice: Vec<Bar> = copy_bar_range(bars, start + train_len,
            start + train_len + test_len);
        let test_result: Option<BacktestResult> =
            match run_strategy_backtest(&test_slice, &strat, cost) {
                Ok(res) => Some(res),
                Err(_) => None,
            };
        let ghost out_pre = out@;
        out.push(WalkForwardRecord {
            train_start: start,
            train_end: start + train_len,
            test_end: start + train_len + test_len,
            optimization: win_opt,
            test_result,
        });
        proof {
            assert(wf_count_from(n as int, train_len as int, test_len as int, step as int,
                start as int)
                == 1 + wf_count_from(n as int, train_len as int, test_len as int, step as int,
                    start as int + step as int));
            assert((out@.len() as int) * (step as int)
                == (out_pre.len() as int) * (step as int) + step as int) by (nonlinear_arith)
                requires
                    out@.len() == out_pre.len() + 1,
            ;
        }
        start = start + step;
    }
    proof {
        assert(wf_count_from(n as int, train_len as int, test_len as int, step as int,
            start as int) == 0);
    }
    Ok(out)
}

/// Ranked results are sorted: for every pair of positions `i <= j` the
/// score at `i` is at least the score at `j`.
pub proof fn lemma_ranking_sorted(s: Seq<(Seq<ParamEntry>, int)>, i: int, j: int)
    requires
        sorted_desc(s),
        0 <= i <= j < s.len(),
    ensures
        s[i].1 >= s[j].1,
    decreases j - i,
{
    if i < j {
        lemma_ranking_sorted(s, i + 1, j);
    }
}

/// The optimiser is referentially transparent: two sweeps over the same
/// bars, cost model, base strategy, axes, objective and cap yield the same
/// ranked tuples and scores, whatever their worker counts.
pub proof fn lemma_optimize_deterministic(bars: Seq<Bar>, cost: CostConfig, base: StrategyType,
    axes: Seq<ParamRange>, metric: OptimizationMetric, cap: int,
    r1: Seq<(Seq<ParamEntry>, int)>, r2: Seq<(Seq<ParamEntry>, int)>)
    requires
        r1 == optimize_spec(bars, cost, base, axes, metric, cap),
        r2 == optimize_spec(bars, cost, base, axes, metric, cap),
    ensures
        r1 == r2,
        r1.len() > 0 ==> r1[0] == r2[0],
{
}

} // verus!
