//! The event-driven backtest engine: one pass over the bars in timestamp
//! order, applying stable-sorted signals against a cost model, producing an
//! equity curve, a trade ledger and a metrics bundle.
//!
//! The whole simulation is mirrored by the specification functions
//! `sim_run`, `run_from`, `apply_sigs` and `apply_signal`: the executable
//! engine returns exactly what they describe, including the checked
//! arithmetic that stands in for floating-point overflow.

use vstd::prelude::*;
use crate::fixed::{SCALE, in_i64, cmul, cdiv, cfx_mul, cfx_div, opt_match, lemma_tdiv_bound};
use crate::types::{
    Bar, Signal, SignalType, Trade, EquityPoint, CostConfig, BacktestError,
    bars_valid, bar_valid, cost_config_valid, MAX_PRICE, MAX_CAPITAL,
};
use crate::validate::{validate_bars, find_fault};
use crate::metrics::{PerformanceMetrics, MetricsError, metrics_result_spec, metrics_for_run, vals_of, rets_upto, MAX_SERIES};

verus! {

/// Fraction of equity committed on a buy: 95 percent, in fixed point. The
/// five-percent buffer absorbs commission and marginal slippage.
pub const BUY_FRACTION: i64 = 9_500;

/// A trade as the simulation specification records it.
pub struct SimTrade {
    pub id: int,
    pub entry_ts: int,
    pub exit_ts: int,
    pub entry_price: int,
    pub exit_price: int,
    pub qty: int,
    pub pnl: int,
    pub comm: int,
}

/// The simulation state: the open position (quantity zero when flat), the
/// equity curve so far as `(timestamp, value)` pairs, and the closed trades.
pub struct SimState {
    pub qty: int,
    pub entry_price: int,
    pub entry_ts: int,
    pub entry_comm: int,
    pub curve: Seq<(int, int)>,
    pub trades: Seq<SimTrade>,
}

/// Why a simulation step failed: a value left the representable range, or a
/// division guard fired on a zero entry price.
pub enum SimFail {
    Equity,
    EntryPrice,
    ZeroPrice,
    Quantity,
    Commission,
    Proceeds,
    Pnl,
}

/// The state before the first bar.
pub open spec fn init_state() -> SimState {
    SimState {
        qty: 0,
        entry_price: 0,
        entry_ts: 0,
        entry_comm: 0,
        curve: Seq::empty(),
        trades: Seq::empty(),
    }
}

/// Mark-to-market equity at a bar: the initial capital plus the open
/// position's profit against its entry price; `None` when the amount leaves
/// the representable range.
pub open spec fn mark_equity(st: SimState, close: int, init: int) -> Option<int> {
    if st.qty > 0 {
        match cmul(st.qty, close - st.entry_price) {
            None => None,
            Some(d) => if in_i64(init + d) {
                Some(init + d)
            } else {
                None
            },
        }
    } else {
        Some(init)
    }
}

/// Apply one signal at a bar. A buy when flat sizes the position at
/// `BUY_FRACTION` of the initial capital against the slippage-adjusted
/// close; a sell when long, on a later bar than the entry, books the trade;
/// anything else is a no-op.
pub open spec fn apply_signal(st: SimState, kind: SignalType, ts: int, close: int, cfg: CostConfig)
    -> Result<SimState, SimFail> {
    if kind == SignalType::Buy && st.qty == 0 {
        match cmul(close, SCALE as int + cfg.slippage as int) {
            None => Err(SimFail::EntryPrice),
            Some(entry) => if entry <= 0 {
                Err(SimFail::ZeroPrice)
            } else {
                match cmul(cfg.initial_capital as int, BUY_FRACTION as int) {
                    None => Err(SimFail::Quantity),
                    Some(budget) => match cdiv(budget, entry) {
                        None => Err(SimFail::Quantity),
                        Some(qty) => match cmul(qty, entry) {
                            None => Err(SimFail::Commission),
                            Some(notional) => match cmul(notional, cfg.commission as int) {
                                None => Err(SimFail::Commission),
                                Some(comm) => Ok(SimState {
                                    qty,
                                    entry_price: entry,
                                    entry_ts: ts,
                                    entry_comm: comm,
                                    curve: st.curve,
                                    trades: st.trades,
                                }),
                            },
                        },
                    },
                }
            },
        }
    } else if kind == SignalType::Sell && st.qty > 0 && ts > st.entry_ts {
        match cmul(st.qty, close) {
            None => Err(SimFail::Proceeds),
            Some(gross) => match cmul(gross, SCALE as int - cfg.slippage as int) {
                None => Err(SimFail::Proceeds),
                Some(proceeds) => match cmul(proceeds, cfg.commission as int) {
                    None => Err(SimFail::Commission),
                    Some(exit_comm) => match cmul(st.qty, st.entry_price) {
                        None => Err(SimFail::Pnl),
                        Some(cost) => {
                            let pnl = proceeds - cost - st.entry_comm - exit_comm;
                            let ctotal = st.entry_comm + exit_comm;
                            if !in_i64(pnl) || !in_i64(ctotal) {
                                Err(SimFail::Pnl)
                            } else {
                                Ok(SimState {
                                    qty: 0,
                                    entry_price: st.entry_price,
                                    entry_ts: st.entry_ts,
                                    entry_comm: st.entry_comm,
                                    curve: st.curve,
                                    trades: st.trades.push(SimTrade {
                                        id: st.trades.len() as int,
                                        entry_ts: st.entry_ts,
                                        exit_ts: ts,
                                        entry_price: st.entry_price,
                                        exit_price: close,
                                        qty: st.qty,
                                        pnl,
                                        comm: ctotal,
                                    }),
                                })
                            }
                        },
                    },
                },
            },
        }
    } else {
        Ok(st)
    }
}

/// Apply, in order, every signal from position `j` on whose timestamp does
/// not exceed the bar's; those strictly earlier than the bar are skipped.
/// Returns the next signal position and the state.
pub open spec fn apply_sigs(ss: Seq<Signal>, j: int, ts: int, close: int, cfg: CostConfig, st: SimState)
    -> Result<(int, SimState), SimFail>
    decreases ss.len() - j,
{
    if j < 0 || j >= ss.len() || ss[j].ts > ts {
        Ok((j, st))
    } else if ss[j].ts < ts {
        apply_sigs(ss, j + 1, ts, close, cfg, st)
    } else {
        match apply_signal(st, ss[j].kind, ts, close, cfg) {
            Err(f) => Err(f),
            Ok(st2) => apply_sigs(ss, j + 1, ts, close, cfg, st2),
        }
    }
}

/// Run the simulation from bar `i` and signal position `j`: mark equity,
/// record the equity point, apply the bar's signals, continue.
pub open spec fn run_from(bars: Seq<Bar>, ss: Seq<Signal>, cfg: CostConfig, i: int, j: int, st: SimState)
    -> Result<SimState, (int, SimFail)>
    decreases bars.len() - i,
{
    if i < 0 || i >= bars.len() {
        Ok(st)
    } else {
        let b = bars[i];
        match mark_equity(st, b.close as int, cfg.initial_capital as int) {
            None => Err((i, SimFail::Equity)),
            Some(eq) => {
                let st1 = SimState {
                    qty: st.qty,
                    entry_price: st.entry_price,
                    entry_ts: st.entry_ts,
                    entry_comm: st.entry_comm,
                    curve: st.curve.push((b.ts as int, eq)),
                    trades: st.trades,
                };
                match apply_sigs(ss, j, b.ts as int, b.close as int, cfg, st1) {
                    Err(f) => Err((i, f)),
                    Ok(p) => run_from(bars, ss, cfg, i + 1, p.0, p.1),
                }
            },
        }
    }
}

/// The whole simulation over a bar series and a timestamp-sorted signal
/// sequence.
pub open spec fn sim_run(bars: Seq<Bar>, sorted: Seq<Signal>, cfg: CostConfig)
    -> Result<SimState, (int, SimFail)> {
    run_from(bars, sorted, cfg, 0, 0, init_state())
}

/// Non-strict timestamp order.
pub open spec fn sorted_by_ts(s: Seq<Signal>) -> bool {
    forall|i: int| 1 <= i < s.len() ==> s[i - 1].ts <= #[trigger] s[i].ts
}

/// Insert a signal behind every earlier-or-equal timestamp: the stable
/// insertion step.
pub open spec fn insert_by_ts(s: Seq<Signal>, x: Signal) -> Seq<Signal>
    decreases s.len(),
{
    if s.len() == 0 {
        seq![x]
    } else if s.last().ts <= x.ts {
        s.push(x)
    } else {
        insert_by_ts(s.drop_last(), x).push(s.last())
    }
}

/// Stable sort of signals by timestamp: insertion of each element in turn.
pub open spec fn sort_by_ts(s: Seq<Signal>) -> Seq<Signal>
    decreases s.len(),
{
    if s.len() == 0 {
        Seq::empty()
    } else {
        insert_by_ts(sort_by_ts(s.drop_last()), s.last())
    }
}

/// Inserting at the position the executable search finds is the insertion
/// step: when everything from `k` on is strictly later than `x` and the
/// element before `k` (if any) is not, the step splices `x` in at `k`.
proof fn lemma_insert_at(s: Seq<Signal>, x: Signal, k: int)
    requires
        0 <= k <= s.len(),
        forall|i: int| k <= i < s.len() ==> #[trigger] s[i].ts > x.ts,
        k > 0 ==> s[k - 1].ts <= x.ts,
    ensures
        insert_by_ts(s, x) == s.subrange(0, k).push(x).add(s.subrange(k, s.len() as int)),
    decreases s.len(),
{
    if s.len() == k {
        if k == 0 {
            assert(insert_by_ts(s, x) =~= s.subrange(0, k).push(x).add(s.subrange(k, s.len() as int)));
        } else {
            assert(s.last().ts <= x.ts);
            assert(insert_by_ts(s, x) =~= s.subrange(0, k).push(x).add(s.subrange(k, s.len() as int)));
        }
    } else {
        assert(s[s.len() - 1].ts > x.ts);
        lemma_insert_at(s.drop_last(), x, k);
        assert(insert_by_ts(s, x) =~= s.subrange(0, k).push(x).add(s.subrange(k, s.len() as int)));
    }
}

/// Stable sort of a signal vector by timestamp, mirrored by `sort_by_ts`.
pub fn sort_signals(signals: &Vec<Signal>) -> (out: Vec<Signal>)
    ensures
        out@ == sort_by_ts(signals@),
        sorted_by_ts(out@),
        out@.len() == signals@.len(),
{
    let n: usize = signals.len();
    let mut out: Vec<Signal> = Vec::new();
    let mut idx: usize = 0;
    while idx < n
        invariant
            0 <= idx <= n,
            n == signals@.len(),
            out@ == sort_by_ts(signals@.subrange(0, idx as int)),
            sorted_by_ts(out@),
            out@.len() == idx,
        decreases n - idx,
    {
        let x: Signal = signals[idx];
        let mut k: usize = out.len();
        while k > 0 && out[k - 1].ts > x.ts
            invariant
                0 <= k <= out@.len(),
                forall|i: int| k <= i < out@.len() ==> #[trigger] out@[i].ts > x.ts,
                sorted_by_ts(out@),
            decreases k,
        {
            k = k - 1;
        }
        let ghost prev = out@;
        proof {
            lemma_insert_at(prev, x, k as int);
        }
        out.insert(k, x);
        proof {
            assert(out@ =~= prev.subrange(0, k as int).push(x).add(
                prev.subrange(k as int, prev.len() as int)));
            assert(out@ == insert_by_ts(prev, x));
            let sub1 = signals@.subrange(0, idx as int + 1);
            assert(sub1.drop_last() =~= signals@.subrange(0, idx as int));
            assert(sub1.last() == x);
            assert(out@ == sort_by_ts(sub1));
            assert forall|i: int| 1 <= i < out@.len() implies out@[i - 1].ts <= #[trigger] out@[i].ts by {
                if i < k as int {
                    assert(out@[i - 1] == prev[i - 1]);
                    assert(out@[i] == prev[i]);
                } else if i == k as int {
                    assert(out@[i] == x);
                } else if i == k as int + 1 {
                    assert(out@[i - 1] == x);
                    assert(out@[i] == prev[i - 1]);
                } else {
                    assert(out@[i - 1] == prev[i - 2]);
                    assert(out@[i] == prev[i - 1]);
                }
            }
        }
        idx = idx + 1;
    }
    proof {
        assert(signals@.subrange(0, n as int) =~= signals@);
    }
    out
}

/// The `(timestamp, value)` pairs of an equity-point vector.
pub open spec fn curve_view(c: Seq<EquityPoint>) -> Seq<(int, int)> {
    c.map_values(|p: EquityPoint| (p.ts as int, p.value as int))
}

/// The simulation-level records of a trade vector.
pub open spec fn trades_view(ts: Seq<Trade>) -> Seq<SimTrade> {
    ts.map_values(|t: Trade| SimTrade {
        id: t.id as int,
        entry_ts: t.entry_ts as int,
        exit_ts: t.exit_ts as int,
        entry_price: t.entry_price as int,
        exit_price: t.exit_price as int,
        qty: t.quantity as int,
        pnl: t.pnl as int,
        comm: t.commission_total as int,
    })
}

/// The simulation state described by the engine's running variables.
pub open spec fn st_of(qty: i64, entry_price: i64, entry_ts: i64, entry_comm: i64,
    curve: Seq<EquityPoint>, trades: Seq<Trade>) -> SimState {
    SimState {
        qty: qty as int,
        entry_price: entry_price as int,
        entry_ts: entry_ts as int,
        entry_comm: entry_comm as int,
        curve: curve_view(curve),
        trades: trades_view(trades),
    }
}

/// The result of a backtest run. `execution_time_ns` is a diagnostic slot
/// the engine leaves at zero; callers that time a run may fill it in.
#[derive(Clone, Debug)]
pub struct BacktestResult {
    pub config: CostConfig,
    pub metrics: PerformanceMetrics,
    pub trades: Vec<Trade>,
    pub equity_curve: Vec<EquityPoint>,
    pub final_value: i64,
    pub execution_time_ns: u64,
}

/// Validates a cost configuration: `Ok` exactly when it satisfies the
/// configuration invariant.
pub fn validate_cost_config(config: &CostConfig) -> (r: Result<(), BacktestError>)
    ensures
        r.is_ok() <==> cost_config_valid(*config),
        !cost_config_valid(*config) ==> (r matches Err(BacktestError::ValidationFailed { .. })),
{
    if config.initial_capital <= 0 || config.initial_capital > MAX_CAPITAL {
        return Err(BacktestError::ValidationFailed {
            field: "initial_capital",
            reason: "must be positive and within range",
        });
    }
    if config.commission < 0 || config.commission > SCALE / 10 {
        return Err(BacktestError::ValidationFailed {
            field: "commission",
            reason: "must lie in [0, 10%]",
        });
    }
    if config.slippage < 0 || config.slippage > SCALE / 10 {
        return Err(BacktestError::ValidationFailed {
            field: "slippage",
            reason: "must lie in [0, 10%]",
        });
    }
    if config.risk_free_rate < 0 || config.risk_free_rate > SCALE {
        return Err(BacktestError::ValidationFailed {
            field: "risk_free_rate",
            reason: "must lie in [0, 100%]",
        });
    }
    Ok(())
}

/// The executable trades a successful simulation yields, field for field.
pub open spec fn sim_trades_exec(st: SimState) -> Seq<Trade> {
    st.trades.map_values(|t: SimTrade| Trade {
        id: t.id as u64,
        entry_ts: t.entry_ts as i64,
        exit_ts: t.exit_ts as i64,
        entry_price: t.entry_price as i64,
        exit_price: t.exit_price as i64,
        quantity: t.qty as i64,
        pnl: t.pnl as i64,
        commission_total: t.comm as i64,
    })
}

/// The equity values of a simulation state's curve.
pub open spec fn sim_equity_vals(st: SimState) -> Seq<int> {
    st.curve.map_values(|p: (int, int)| p.1)
}

/// When a backtest succeeds: non-empty valid bars, a valid configuration, a
/// simulation within the representable range, and a metrics calculation
/// that accepts the resulting curve.
pub open spec fn backtest_ok(bars: Seq<Bar>, signals: Seq<Signal>, cfg: CostConfig) -> bool {
    &&& bars.len() > 0
    &&& bars_valid(bars)
    &&& cost_config_valid(cfg)
    &&& sim_run(bars, sort_by_ts(signals), cfg) is Ok
    &&& metrics_result_spec(
        sim_trades_exec(sim_run(bars, sort_by_ts(signals), cfg)->Ok_0),
        sim_equity_vals(sim_run(bars, sort_by_ts(signals), cfg)->Ok_0),
        cfg.risk_free_rate as int,
    ) is Ok
}

/// Run a backtest over explicit signals.
///
/// The signals are stable-sorted by timestamp, then applied bar by bar as
/// `sim_run` specifies: mark-to-market equity is recorded before the bar's
/// signals execute, a buy when flat commits `BUY_FRACTION` of the initial
/// capital at the slippage-adjusted close, a sell when long on a later bar
/// books the trade, and an open position is never auto-closed. The metrics
/// bundle is computed from the resulting ledger and curve at the
/// configuration's risk-free rate.
pub fn run_backtest(bars: &Vec<Bar>, signals: &Vec<Signal>, config: CostConfig)
    -> (r: Result<BacktestResult, BacktestError>)
    requires
        bars@.len() <= MAX_SERIES,
    ensures
        r is Ok <==> backtest_ok(bars@, signals@, config),
        match r {
            Ok(res) => {
                let st = sim_run(bars@, sort_by_ts(signals@), config)->Ok_0;
                &&& curve_view(res.equity_curve@) == st.curve
                &&& res.trades@ == sim_trades_exec(st)
                &&& res.equity_curve@.len() == bars@.len()
                &&& res.final_value == res.equity_curve@[bars@.len() - 1].value
                &&& Ok::<PerformanceMetrics, MetricsError>(res.metrics) == metrics_result_spec(
                    sim_trades_exec(st), sim_equity_vals(st), config.risk_free_rate as int)
                &&& res.config == config
                &&& res.execution_time_ns == 0
                &&& forall|k: int| 0 <= k < res.trades@.len()
                    ==> (#[trigger] res.trades@[k]).exit_ts > res.trades@[k].entry_ts
            },
            Err(e) => match e {
                BacktestError::InsufficientData { needed, have } =>
                    needed == 1 && have == 0 && bars@.len() == 0,
                BacktestError::InvalidBar { index, reason } =>
                    find_fault(bars@, 0) == Some((index as int, reason)),
                BacktestError::ValidationFailed { .. } => !cost_config_valid(config),
                BacktestError::DivisionGuarded { .. } => (match sim_run(bars@, sort_by_ts(signals@), config) {
                    Err((i, f)) => f is ZeroPrice,
                    Ok(_) => false,
                }),
                BacktestError::NonFinite { field, index } => (match sim_run(bars@, sort_by_ts(signals@), config) {
                    Err((i, f)) => index == i && !(f is ZeroPrice),
                    Ok(_) => true,
                }),
                BacktestError::Timeout { .. } => false,
            },
        },
{
    let ghost sorted = sort_by_ts(signals@);
    if let Err(e) = validate_bars(bars) {
        return Err(e);
    }
    if let Err(e) = validate_cost_config(&config) {
        return Err(e);
    }
    let ss: Vec<Signal> = sort_signals(signals);
    let n: usize = bars.len();
    let init: i64 = config.initial_capital;

    let mut position: i64 = 0;
    let mut entry_price: i64 = 0;
    let mut entry_ts: i64 = 0;
    let mut entry_comm: i64 = 0;
    let mut curve: Vec<EquityPoint> = Vec::new();
    let mut values: Vec<i64> = Vec::new();
    let mut trades: Vec<Trade> = Vec::new();
    let mut i: usize = 0;
    let mut j: usize = 0;
    proof {
        assert(curve_view(curve@) =~= init_state().curve);
        assert(trades_view(trades@) =~= init_state().trades);
        assert(st_of(position, entry_price, entry_ts, entry_comm, curve@, trades@) == init_state());
    }

    while i < n
        invariant
            0 <= i <= n,
            n == bars@.len(),
            n <= MAX_SERIES,
            n > 0,
            bars_valid(bars@),
            cost_config_valid(config),
            init == config.initial_capital,
            ss@ == sorted,
            sorted == sort_by_ts(signals@),
            0 <= j <= ss@.len(),
            position >= 0,
            position > 0 ==> 0 < entry_price <= 2 * MAX_PRICE,
            curve@.len() == i,
            values@.len() == i,
            forall|k: int| 0 <= k < i ==> #[trigger] values@[k] == curve@[k].value,
            trades@.len() <= i,
            sim_run(bars@, sorted, config) == run_from(bars@, ss@, config, i as int, j as int,
                st_of(position, entry_price, entry_ts, entry_comm, curve@, trades@)),
        decreases n - i,
    {
        let ghost st_pre = st_of(position, entry_price, entry_ts, entry_comm, curve@, trades@);
        let b: Bar = bars[i];
        proof {
            assert(bar_valid(bars@[i as int]));
        }
        let eq: i64 = if position > 0 {
            let diff: i64 = b.close - entry_price;
            match cfx_mul(position, diff) {
                None => {
                    proof {
                        assert(mark_equity(st_pre, b.close as int, init as int) is None);
                    }
                    return Err(BacktestError::NonFinite { field: "equity", index: i });
                },
                Some(d) => {
                    let e128: i128 = init as i128 + d as i128;
                    if e128 > i64::MAX as i128 || e128 < i64::MIN as i128 {
                        proof {
                            assert(mark_equity(st_pre, b.close as int, init as int) is None);
                        }
                        return Err(BacktestError::NonFinite { field: "equity", index: i });
                    }
                    e128 as i64
                },
            }
        } else {
            init
        };
        proof {
            assert(mark_equity(st_pre, b.close as int, init as int) == Some(eq as int));
        }
        let ghost curve_pre = curve@;
        curve.push(EquityPoint { ts: b.ts, value: eq });
        values.push(eq);
        let ghost st1 = SimState {
            qty: st_pre.qty,
            entry_price: st_pre.entry_price,
            entry_ts: st_pre.entry_ts,
            entry_comm: st_pre.entry_comm,
            curve: st_pre.curve.push((b.ts as int, eq as int)),
            trades: st_pre.trades,
        };
        proof {
            assert(curve_view(curve@) =~= curve_view(curve_pre).push((b.ts as int, eq as int)));
            assert(st_of(position, entry_price, entry_ts, entry_comm, curve@, trades@) == st1);
        }
        let ghost j0 = j as int;
        let ghost trades_at_bar = trades@.len() as int;

        while j < ss.len() && ss[j].ts <= b.ts
            invariant
                n == bars@.len(),
                n <= MAX_SERIES,
                0 <= i < n,
                bars_valid(bars@),
                cost_config_valid(config),
                init == config.initial_capital,
                ss@ == sorted,
                sorted == sort_by_ts(signals@),
                b == bars@[i as int],
                j0 <= j as int <= ss@.len(),
                position >= 0,
                position > 0 ==> 0 < entry_price <= 2 * MAX_PRICE,
                curve@.len() == i + 1,
                values@.len() == i + 1,
                forall|k: int| 0 <= k < i + 1 ==> #[trigger] values@[k] == curve@[k].value,
                trades_at_bar <= trades@.len() <= trades_at_bar + 1,
                trades_at_bar <= i,
                trades@.len() > trades_at_bar ==> (position == 0 || entry_ts == b.ts),
                st_of(position, entry_price, entry_ts, entry_comm, curve@, trades@).curve == st1.curve,
                apply_sigs(ss@, j0, b.ts as int, b.close as int, config, st1)
                    == apply_sigs(ss@, j as int, b.ts as int, b.close as int, config,
                        st_of(position, entry_price, entry_ts, entry_comm, curve@, trades@)),
                sim_run(bars@, sorted, config) == run_from(bars@, ss@, config, i as int, j0, st_pre),
                mark_equity(st_pre, b.close as int, init as int) == Some(eq as int),
                st1 == (SimState {
                    qty: st_pre.qty,
                    entry_price: st_pre.entry_price,
                    entry_ts: st_pre.entry_ts,
                    entry_comm: st_pre.entry_comm,
                    curve: st_pre.curve.push((b.ts as int, eq as int)),
                    trades: st_pre.trades,
                }),
            decreases ss@.len() - j,
        {
            let ghost cur = st_of(position, entry_price, entry_ts, entry_comm, curve@, trades@);
            let s: Signal = ss[j];
            if s.ts == b.ts {
                match s.kind {
                    SignalType::Buy => {
                        if position == 0 {
                            let rate: i64 = SCALE + config.slippage;
                            let entry: i64 = match cfx_mul(b.close, rate) {
                                None => {
                                    proof {
                                        assert(apply_signal(cur, s.kind, b.ts as int, b.close as int, config)
                                            == Err::<SimState, SimFail>(SimFail::EntryPrice));
                                        assert(sim_run(bars@, sorted, config)
                                            == Err::<SimState, (int, SimFail)>((i as int, SimFail::EntryPrice)));
                                    }
                                    return Err(BacktestError::NonFinite { field: "entry price", index: i });
                                },
                                Some(v) => v,
                            };
                            if entry <= 0 {
                                proof {
                                    assert(apply_signal(cur, s.kind, b.ts as int, b.close as int, config)
                                        == Err::<SimState, SimFail>(SimFail::ZeroPrice));
                                    assert(sim_run(bars@, sorted, config)
                                        == Err::<SimState, (int, SimFail)>((i as int, SimFail::ZeroPrice)));
                                }
                                return Err(BacktestError::DivisionGuarded { operation: "position sizing" });
                            }
                            let budget: i64 = match cfx_mul(init, BUY_FRACTION) {
                                None => {
                                    proof {
                                        assert(sim_run(bars@, sorted, config)
                                            == Err::<SimState, (int, SimFail)>((i as int, SimFail::Quantity)));
                                    }
                                    return Err(BacktestError::NonFinite { field: "quantity", index: i });
                                },
                                Some(v) => v,
                            };
                            let qty: i64 = match cfx_div(budget, entry) {
                                None => {
                                    proof {
                                        assert(sim_run(bars@, sorted, config)
                                            == Err::<SimState, (int, SimFail)>((i as int, SimFail::Quantity)));
                                    }
                                    return Err(BacktestError::NonFinite { field: "quantity", index: i });
                                },
                                Some(v) => v,
                            };
                            let notional: i64 = match cfx_mul(qty, entry) {
                                None => {
                                    proof {
                                        assert(sim_run(bars@, sorted, config)
                                            == Err::<SimState, (int, SimFail)>((i as int, SimFail::Commission)));
                                    }
                                    return Err(BacktestError::NonFinite { field: "commission", index: i });
                                },
                                Some(v) => v,
                            };
                            let comm: i64 = match cfx_mul(notional, config.commission) {
                                None => {
                                    proof {
                                        assert(sim_run(bars@, sorted, config)
                                            == Err::<SimState, (int, SimFail)>((i as int, SimFail::Commission)));
                                    }
                                    return Err(BacktestError::NonFinite { field: "commission", index: i });
                                },
                                Some(v) => v,
                            };
                            proof {
                                assert((b.close as int) * (SCALE as int + config.slippage as int)
                                    <= (SCALE as int) * (2 * MAX_PRICE as int)) by (nonlinear_arith)
                                    requires
                                        0 <= b.close as int <= MAX_PRICE as int,
                                        0 <= config.slippage as int <= (SCALE as int) / 10,
                                        SCALE as int == 10_000,
                                        MAX_PRICE as int == 10_000_000_000_000,
                                ;
                                assert((b.close as int) * (SCALE as int + config.slippage as int) >= 0)
                                    by (nonlinear_arith)
                                    requires
                                        b.close as int >= 0,
                                        SCALE as int + config.slippage as int >= 0,
                                ;
                                lemma_tdiv_bound((b.close as int) * (SCALE as int + config.slippage as int),
                                    SCALE as int, 2 * MAX_PRICE as int);
                                assert(0 < entry as int <= 2 * MAX_PRICE as int);
                                assert(qty as int >= 0) by {
                                    crate::fixed::lemma_tdiv_nonneg(budget as int * (SCALE as int), entry as int);
                                    crate::fixed::lemma_tdiv_nonneg(init as int * (BUY_FRACTION as int), SCALE as int);
                                    assert(init as int * (BUY_FRACTION as int) >= 0) by (nonlinear_arith)
                                        requires
                                            init as int > 0,
                                            BUY_FRACTION as int > 0,
                                    ;
                                    assert(budget as int * (SCALE as int) >= 0) by (nonlinear_arith)
                                        requires
                                            budget as int >= 0,
                                    ;
                                }
                                assert(apply_signal(cur, s.kind, b.ts as int, b.close as int, config)
                                    == Ok::<SimState, SimFail>(SimState {
                                        qty: qty as int,
                                        entry_price: entry as int,
                                        entry_ts: b.ts as int,
                                        entry_comm: comm as int,
                                        curve: cur.curve,
                                        trades: cur.trades,
                                    }));
                            }
                            position = qty;
                            entry_price = entry;
                            entry_ts = b.ts;
                            entry_comm = comm;
                        }
                    },
                    SignalType::Sell => {
                        if position > 0 && b.ts > entry_ts {
                            let gross: i64 = match cfx_mul(position, b.close) {
                                None => {
                                    proof {
                                        assert(sim_run(bars@, sorted, config)
                                            == Err::<SimState, (int, SimFail)>((i as int, SimFail::Proceeds)));
                                    }
                                    return Err(BacktestError::NonFinite { field: "proceeds", index: i });
                                },
                                Some(v) => v,
                            };
                            let keep: i64 = SCALE - config.slippage;
                            let proceeds: i64 = match cfx_mul(gross, keep) {
                                None => {
                                    proof {
                                        assert(sim_run(bars@, sorted, config)
                                            == Err::<SimState, (int, SimFail)>((i as int, SimFail::Proceeds)));
                                    }
                                    return Err(BacktestError::NonFinite { field: "proceeds", index: i });
                                },
                                Some(v) => v,
                            };
                            let exit_comm: i64 = match cfx_mul(proceeds, config.commission) {
                                None => {
                                    proof {
                                        assert(sim_run(bars@, sorted, config)
                                            == Err::<SimState, (int, SimFail)>((i as int, SimFail::Commission)));
                                    }
                                    return Err(BacktestError::NonFinite { field: "commission", index: i });
                                },
                                Some(v) => v,
                            };
                            let cost: i64 = match cfx_mul(position, entry_price) {
                                None => {
                                    proof {
                                        assert(sim_run(bars@, sorted, config)
                                            == Err::<SimState, (int, SimFail)>((i as int, SimFail::Pnl)));
                                    }
                                    return Err(BacktestError::NonFinite { field: "pnl", index: i });
                                },
                                Some(v) => v,
                            };
                            let pnl128: i128 = proceeds as i128 - cost as i128 - entry_comm as i128
                                - exit_comm as i128;
                            let ctotal128: i128 = entry_comm as i128 + exit_comm as i128;
                            if pnl128 > i64::MAX as i128 || pnl128 < i64::MIN as i128
                                || ctotal128 > i64::MAX as i128 || ctotal128 < i64::MIN as i128 {
                                proof {
                                    assert(apply_signal(cur, s.kind, b.ts as int, b.close as int, config)
                                        == Err::<SimState, SimFail>(SimFail::Pnl));
                                    assert(sim_run(bars@, sorted, config)
                                        == Err::<SimState, (int, SimFail)>((i as int, SimFail::Pnl)));
                                }
                                return Err(BacktestError::NonFinite { field: "pnl", index: i });
                            }
                            let pnl: i64 = pnl128 as i64;
                            let ctotal: i64 = ctotal128 as i64;
                            let ghost trades_pre = trades@;
                            let trade = Trade {
                                id: trades.len() as u64,
                                entry_ts,
                                exit_ts: b.ts,
                                entry_price,
                                exit_price: b.close,
                                quantity: position,
                                pnl,
                                commission_total: ctotal,
                            };
                            trades.push(trade);
                            proof {
                                assert(trades_view(trades@) =~= trades_view(trades_pre).push(SimTrade {
                                    id: trades_pre.len() as int,
                                    entry_ts: entry_ts as int,
                                    exit_ts: b.ts as int,
                                    entry_price: entry_price as int,
                                    exit_price: b.close as int,
                                    qty: position as int,
                                    pnl: pnl as int,
                                    comm: ctotal as int,
                                }));
                                assert(apply_signal(cur, s.kind, b.ts as int, b.close as int, config)
                                    == Ok::<SimState, SimFail>(SimState {
                                        qty: 0,
                                        entry_price: cur.entry_price,
                                        entry_ts: cur.entry_ts,
                                        entry_comm: cur.entry_comm,
                                        curve: cur.curve,
                                        trades: trades_view(trades@),
                                    }));
                            }
                            position = 0;
                        }
                    },
                    SignalType::Hold => {
                    },
                }
                proof {
                    assert(apply_sigs(ss@, j as int, b.ts as int, b.close as int, config, cur)
                        == apply_sigs(ss@, j as int + 1, b.ts as int, b.close as int, config,
                            st_of(position, entry_price, entry_ts, entry_comm, curve@, trades@)));
                }
            } else {
                proof {
                    assert(ss@[j as int].ts < b.ts as int);
                    assert(apply_sigs(ss@, j as int, b.ts as int, b.close as int, config, cur)
                        == apply_sigs(ss@, j as int + 1, b.ts as int, b.close as int, config, cur));
                }
            }
            j = j + 1;
        }
        proof {
            let cur = st_of(position, entry_price, entry_ts, entry_comm, curve@, trades@);
            assert(apply_sigs(ss@, j as int, b.ts as int, b.close as int, config, cur)
                == Ok::<(int, SimState), SimFail>((j as int, cur)));
            assert(run_from(bars@, ss@, config, i as int, j0, st_pre)
                == run_from(bars@, ss@, config, i as int + 1, j as int, cur));
        }
        i = i + 1;
    }

    let ghost final_st = st_of(position, entry_price, entry_ts, entry_comm, curve@, trades@);
    proof {
        assert(sim_run(bars@, sorted, config) == Ok::<SimState, (int, SimFail)>(final_st));
        assert(trades@ =~= sim_trades_exec(final_st));
        assert(vals_of(values@) =~= sim_equity_vals(final_st));
    }
    let metrics: PerformanceMetrics = match metrics_for_run(&trades, &values, config.risk_free_rate) {
        Ok(m) => m,
        Err(_) => {
            return Err(BacktestError::NonFinite { field: "metrics", index: 0 });
        },
    };
    let final_value: i64 = values[n - 1];
    proof {
        lemma_run_ordered(bars@, ss@, config, 0, 0, init_state());
        assert forall|k: int| 0 <= k < trades@.len()
            implies #[trigger] trades@[k].exit_ts > trades@[k].entry_ts by {
            assert(trades_view(trades@)[k] == final_st.trades[k]);
        }
    }
    Ok(BacktestResult {
        config,
        metrics,
        trades,
        equity_curve: curve,
        final_value,
        execution_time_ns: 0,
    })
}

/// The whole simple-moving-average sequence of a series.
pub open spec fn sma_seq(ps: Seq<int>, p: int, n: int) -> Seq<int> {
    Seq::new(n as nat, |i: int| crate::indicators::moving_average::sma_at(ps, p, i))
}

/// The crossover decision between two averages at index `i`: a buy on an
/// upward cross, a sell on a downward cross.
pub open spec fn cross_kind(fa: Seq<int>, sl: Seq<int>, i: int) -> Option<SignalType> {
    if i < 1 {
        None
    } else {
        let d = fa[i] - sl[i];
        let pd = fa[i - 1] - sl[i - 1];
        if d > 0 && pd <= 0 {
            Some(SignalType::Buy)
        } else if d < 0 && pd >= 0 {
            Some(SignalType::Sell)
        } else {
            None
        }
    }
}

/// Crossover signals over the first `i` bars with repeat suppression,
/// starting only once `gate` bars have passed (the slow warm-up): the
/// emitted signals and the side last emitted.
pub open spec fn cross_state(bars: Seq<Bar>, fa: Seq<int>, sl: Seq<int>, gate: int, i: int)
    -> (Seq<Signal>, Option<SignalType>)
    decreases i,
{
    if i <= 1 {
        (Seq::empty(), None)
    } else {
        let p = cross_state(bars, fa, sl, gate, i - 1);
        if i - 1 < gate {
            p
        } else {
            match cross_kind(fa, sl, i - 1) {
                None => p,
                Some(k) => if p.1 == Some(k) {
                    p
                } else {
                    (p.0.push(Signal {
                        ts: bars[i - 1].ts,
                        kind: k,
                        price_hint: bars[i - 1].close,
                        strength: SCALE,
                    }), Some(k))
                },
            }
        }
    }
}

/// The moving-average-cross signal stream of a bar series: from the slow
/// warm-up on, a buy where the fast average crosses above the slow one, a
/// sell where it crosses below, never repeating a side.
pub open spec fn ma_cross_signals_spec(bars: Seq<Bar>, fast: int, slow: int) -> Seq<Signal> {
    let closes = bars.map_values(|b: Bar| b.close as int);
    cross_state(bars, sma_seq(closes, fast, bars.len() as int),
        sma_seq(closes, slow, bars.len() as int), slow, bars.len() as int).0
}

/// Generate moving-average crossover signals from a bar series: buy on an
/// upward cross of the fast over the slow average, sell on a downward
/// cross, suppressing repeats of the same side. Empty when either period is
/// zero or the series is empty.
pub fn generate_ma_cross_signals(bars: &Vec<Bar>, fast: usize, slow: usize) -> (out: Vec<Signal>)
    requires
        bars@.len() <= MAX_SERIES,
        bars_valid(bars@),
    ensures
        fast >= 1 && slow >= 1 ==> out@ == ma_cross_signals_spec(bars@, fast as int, slow as int),
        fast == 0 || slow == 0 ==> out@.len() == 0,
{
    let mut out: Vec<Signal> = Vec::new();
    let n: usize = bars.len();
    if fast == 0 || slow == 0 {
        return out;
    }
    let ghost closes_spec = bars@.map_values(|b: Bar| b.close as int);
    let mut closes: Vec<i64> = Vec::new();
    let mut c: usize = 0;
    while c < n
        invariant
            0 <= c <= n,
            n == bars@.len(),
            bars_valid(bars@),
            closes_spec == bars@.map_values(|b: Bar| b.close as int),
            closes@.len() == c,
            forall|k: int| 0 <= k < c ==> #[trigger] closes@[k] == bars@[k].close,
        decreases n - c,
    {
        proof {
            assert(bar_valid(bars@[c as int]));
        }
        closes.push(bars[c].close);
        c = c + 1;
    }
    proof {
        assert forall|k: int| 0 <= k < closes@.len()
            implies -crate::indicators::window::VAL_CAP <= #[trigger] closes@[k]
                <= crate::indicators::window::VAL_CAP by {
            assert(bar_valid(bars@[k]));
        }
        assert(crate::metrics::vals_of(closes@) =~= closes_spec);
    }
    let fa: Vec<i64> = crate::indicators::moving_average::sma(&closes, fast);
    let sl: Vec<i64> = crate::indicators::moving_average::sma(&closes, slow);
    if n == 0 {
        return out;
    }
    let ghost fas = sma_seq(closes_spec, fast as int, n as int);
    let ghost sls = sma_seq(closes_spec, slow as int, n as int);
    proof {
        assert(crate::metrics::vals_of(fa@) =~= fas);
        assert(crate::metrics::vals_of(sl@) =~= sls);
    }
    let mut last_buy: bool = false;
    let mut last_sell: bool = false;
    let mut i: usize = 1;
    while i < n
        invariant
            1 <= i <= n,
            n == bars@.len(),
            bars_valid(bars@),
            fa@.len() == n,
            sl@.len() == n,
            crate::indicators::window::bounded_vals(fa@),
            crate::indicators::window::bounded_vals(sl@),
            fas == sma_seq(closes_spec, fast as int, n as int),
            sls == sma_seq(closes_spec, slow as int, n as int),
            closes_spec == bars@.map_values(|b: Bar| b.close as int),
            crate::metrics::vals_of(fa@) == fas,
            crate::metrics::vals_of(sl@) == sls,
            out@ == cross_state(bars@, fas, sls, slow as int, i as int).0,
            ({
                let l = cross_state(bars@, fas, sls, slow as int, i as int).1;
                &&& (last_buy <==> l == Some(SignalType::Buy))
                &&& (last_sell <==> l == Some(SignalType::Sell))
            }),
        decreases n - i,
    {
        proof {
            assert(crate::metrics::vals_of(fa@)[i as int] == fa@[i as int] as int);
            assert(crate::metrics::vals_of(sl@)[i as int] == sl@[i as int] as int);
            assert(crate::metrics::vals_of(fa@)[i as int - 1] == fa@[i as int - 1] as int);
            assert(crate::metrics::vals_of(sl@)[i as int - 1] == sl@[i as int - 1] as int);
            assert(bar_valid(bars@[i as int]));
        }
        if i >= slow {
            let d: i64 = fa[i] - sl[i];
            let pd: i64 = fa[i - 1] - sl[i - 1];
            if d > 0 && pd <= 0 {
                if !last_buy {
                    out.push(Signal {
                        ts: bars[i].ts,
                        kind: SignalType::Buy,
                        price_hint: bars[i].close,
                        strength: SCALE,
                    });
                    last_buy = true;
                    last_sell = false;
                }
            } else if d < 0 && pd >= 0 {
                if !last_sell {
                    out.push(Signal {
                        ts: bars[i].ts,
                        kind: SignalType::Sell,
                        price_hint: bars[i].close,
                        strength: SCALE,
                    });
                    last_sell = true;
                    last_buy = false;
                }
            }
        }
        i = i + 1;
    }
    out
}

/// The crossover stream is well-formed after any prefix: timestamps
/// strictly increase, no two consecutive signals take the same side, and
/// the remembered side is the last signal's.
proof fn lemma_cross_state_wf(bars: Seq<Bar>, fa: Seq<int>, sl: Seq<int>, gate: int, i: int)
    requires
        bars_valid(bars),
        1 <= i <= bars.len(),
    ensures
        ({
            let p = cross_state(bars, fa, sl, gate, i);
            &&& forall|a: int| 1 <= a < p.0.len() ==> p.0[a - 1].ts < #[trigger] p.0[a].ts
            &&& forall|a: int| 1 <= a < p.0.len() ==> p.0[a - 1].kind != #[trigger] p.0[a].kind
            &&& p.0.len() > 0 ==> p.1 == Some(p.0.last().kind)
            &&& p.0.len() > 0 ==> p.0.last().ts <= bars[i - 1].ts
            &&& p.0.len() == 0 ==> p.1 is None
        }),
    decreases i,
{
    if i > 1 {
        lemma_cross_state_wf(bars, fa, sl, gate, i - 1);
        let p = cross_state(bars, fa, sl, gate, i - 1);
        let q = cross_state(bars, fa, sl, gate, i);
        assert(bars[i - 2].ts < bars[i - 1].ts);
        if i - 1 >= gate {
            match cross_kind(fa, sl, i - 1) {
                None => {},
                Some(k) => {
                    if p.1 != Some(k) {
                        assert(q.0 == p.0.push(Signal {
                            ts: bars[i - 1].ts,
                            kind: k,
                            price_hint: bars[i - 1].close,
                            strength: SCALE,
                        }));
                        assert forall|a: int| 1 <= a < q.0.len()
                            implies q.0[a - 1].ts < #[trigger] q.0[a].ts by {
                            if a < q.0.len() - 1 {
                                assert(q.0[a - 1] == p.0[a - 1]);
                                assert(q.0[a] == p.0[a]);
                            } else {
                                assert(q.0[a - 1] == p.0[a - 1]);
                                if a >= 2 {
                                    assert(p.0[a - 1] == p.0.last());
                                }
                            }
                        }
                        assert forall|a: int| 1 <= a < q.0.len()
                            implies q.0[a - 1].kind != #[trigger] q.0[a].kind by {
                            if a < q.0.len() - 1 {
                                assert(q.0[a - 1] == p.0[a - 1]);
                                assert(q.0[a] == p.0[a]);
                            } else {
                                assert(q.0[a - 1] == p.0[a - 1]);
                            }
                        }
                    }
                },
            }
        }
    }
}

/// The moving-average-cross signal stream never repeats a side and its
/// signals carry strictly increasing timestamps.
pub proof fn lemma_ma_cross_signals_wf(bars: Seq<Bar>, fast: int, slow: int)
    requires
        bars_valid(bars),
    ensures
        ({
            let ss = ma_cross_signals_spec(bars, fast, slow);
            &&& forall|a: int| 1 <= a < ss.len() ==> ss[a - 1].ts < #[trigger] ss[a].ts
            &&& forall|a: int| 1 <= a < ss.len() ==> ss[a - 1].kind != #[trigger] ss[a].kind
        }),
{
    if bars.len() >= 1 {
        let closes = bars.map_values(|b: Bar| b.close as int);
        lemma_cross_state_wf(bars, sma_seq(closes, fast, bars.len() as int),
            sma_seq(closes, slow, bars.len() as int), slow, bars.len() as int);
    }
}

/// The cost configuration `run_sma_backtest` uses: ten basis points of
/// commission and five of slippage.
pub open spec fn sma_run_config(initial_capital: i64) -> CostConfig {
    CostConfig {
        initial_capital,
        commission: 10,
        slippage: 5,
        risk_free_rate: 0,
    }
}

/// When a moving-average-cross backtest succeeds: ordered positive
/// periods, enough bars for the slow window, and a successful engine run
/// over the generated crossover signals under the standard cost
/// configuration.
pub open spec fn sma_backtest_ok(bars: Seq<Bar>, fast: int, slow: int, initial_capital: i64) -> bool {
    &&& 1 <= fast < slow
    &&& bars.len() >= slow
    &&& backtest_ok(bars, ma_cross_signals_spec(bars, fast, slow), sma_run_config(initial_capital))
}

/// Run a moving-average-cross backtest: validate the periods and the bars,
/// generate crossover signals and run the engine under a standard cost
/// configuration. Succeeds exactly on `sma_backtest_ok` inputs, and then
/// returns exactly what `run_backtest` returns on the generated signals.
pub fn run_sma_backtest(bars: &Vec<Bar>, fast_period: usize, slow_period: usize, initial_capital: i64)
    -> (r: Result<BacktestResult, BacktestError>)
    requires
        bars@.len() <= MAX_SERIES,
    ensures
        r is Ok <==> sma_backtest_ok(bars@, fast_period as int, slow_period as int, initial_capital),
        match r {
            Ok(res) => {
                let st = sim_run(bars@,
                    sort_by_ts(ma_cross_signals_spec(bars@, fast_period as int, slow_period as int)),
                    sma_run_config(initial_capital))->Ok_0;
                &&& curve_view(res.equity_curve@) == st.curve
                &&& res.trades@ == sim_trades_exec(st)
                &&& res.equity_curve@.len() == bars@.len()
                &&& res.final_value == res.equity_curve@[bars@.len() - 1].value
                &&& Ok::<PerformanceMetrics, MetricsError>(res.metrics) == metrics_result_spec(
                    sim_trades_exec(st), sim_equity_vals(st), 0)
                &&& res.config == sma_run_config(initial_capital)
                &&& res.execution_time_ns == 0
                &&& forall|k: int| 0 <= k < res.trades@.len()
                    ==> (#[trigger] res.trades@[k]).exit_ts > res.trades@[k].entry_ts
            },
            Err(e) => match e {
                BacktestError::ValidationFailed { .. } => fast_period >= slow_period
                    || fast_period == 0
                    || !cost_config_valid(sma_run_config(initial_capital)),
                BacktestError::InsufficientData { needed, have } =>
                    (bars@.len() == 0 && needed == 1 && have == 0)
                    || (bars@.len() < slow_period && needed == slow_period && have == bars@.len()),
                BacktestError::InvalidBar { index, reason } =>
                    find_fault(bars@, 0) == Some((index as int, reason)),
                BacktestError::DivisionGuarded { .. } => (match sim_run(bars@,
                    sort_by_ts(ma_cross_signals_spec(bars@, fast_period as int, slow_period as int)),
                    sma_run_config(initial_capital)) {
                    Err((i, f)) => f is ZeroPrice,
                    Ok(_) => false,
                }),
                BacktestError::NonFinite { field, index } => (match sim_run(bars@,
                    sort_by_ts(ma_cross_signals_spec(bars@, fast_period as int, slow_period as int)),
                    sma_run_config(initial_capital)) {
                    Err((i, f)) => index == i && !(f is ZeroPrice),
                    Ok(_) => true,
                }),
                BacktestError::Timeout { .. } => false,
            },
        },
{
    if fast_period >= slow_period {
        return Err(BacktestError::ValidationFailed {
            field: "periods",
            reason: "the fast period must be less than the slow period",
        });
    }
    if fast_period == 0 {
        return Err(BacktestError::ValidationFailed {
            field: "periods",
            reason: "periods must be greater than zero",
        });
    }
    if let Err(e) = validate_bars(bars) {
        return Err(e);
    }
    if bars.len() < slow_period {
        return Err(BacktestError::InsufficientData { needed: slow_period, have: bars.len() });
    }
    let config = CostConfig {
        initial_capital,
        commission: 10,
        slippage: 5,
        risk_free_rate: 0,
    };
    let signals: Vec<Signal> = generate_ma_cross_signals(bars, fast_period, slow_period);
    let ghost sig_spec = ma_cross_signals_spec(bars@, fast_period as int, slow_period as int);
    run_backtest(bars, &signals, config)
}

/// Every recorded trade closes strictly after it opens, with timestamps in
/// the representable range.
pub open spec fn trades_ordered(ts: Seq<SimTrade>) -> bool {
    forall|k: int| 0 <= k < ts.len() ==> {
        &&& #[trigger] ts[k].exit_ts > ts[k].entry_ts
        &&& in_i64(ts[k].exit_ts)
        &&& in_i64(ts[k].entry_ts)
    }
}

/// One signal keeps the ledger ordered: a sale is booked only on a bar
/// strictly later than the entry.
proof fn lemma_apply_signal_ordered(st: SimState, kind: SignalType, ts: int, close: int, cfg: CostConfig)
    requires
        trades_ordered(st.trades),
        in_i64(st.entry_ts),
        in_i64(ts),
    ensures
        apply_signal(st, kind, ts, close, cfg) matches Ok(st2)
            ==> trades_ordered(st2.trades) && in_i64(st2.entry_ts),
{
    match apply_signal(st, kind, ts, close, cfg) {
        Ok(st2) => {
            if st2.trades.len() > st.trades.len() {
                assert forall|k: int| 0 <= k < st2.trades.len() implies {
                    &&& #[trigger] st2.trades[k].exit_ts > st2.trades[k].entry_ts
                    &&& in_i64(st2.trades[k].exit_ts)
                    &&& in_i64(st2.trades[k].entry_ts)
                } by {
                    if k < st.trades.len() {
                        assert(st2.trades[k] == st.trades[k]);
                    }
                }
            }
        },
        Err(_) => {},
    }
}

/// A bar's whole signal run keeps the ledger ordered.
proof fn lemma_apply_sigs_ordered(ss: Seq<Signal>, j: int, ts: int, close: int, cfg: CostConfig, st: SimState)
    requires
        trades_ordered(st.trades),
        in_i64(st.entry_ts),
        in_i64(ts),
    ensures
        apply_sigs(ss, j, ts, close, cfg, st) matches Ok(p)
            ==> trades_ordered(p.1.trades) && in_i64(p.1.entry_ts),
    decreases ss.len() - j,
{
    if j < 0 || j >= ss.len() || ss[j].ts > ts {
    } else if ss[j].ts < ts {
        lemma_apply_sigs_ordered(ss, j + 1, ts, close, cfg, st);
    } else {
        lemma_apply_signal_ordered(st, ss[j].kind, ts, close, cfg);
        match apply_signal(st, ss[j].kind, ts, close, cfg) {
            Ok(st2) => {
                lemma_apply_sigs_ordered(ss, j + 1, ts, close, cfg, st2);
            },
            Err(_) => {},
        }
    }
}

/// A whole run keeps the ledger ordered.
proof fn lemma_run_ordered(bars: Seq<Bar>, ss: Seq<Signal>, cfg: CostConfig, i: int, j: int, st: SimState)
    requires
        trades_ordered(st.trades),
        in_i64(st.entry_ts),
    ensures
        run_from(bars, ss, cfg, i, j, st) matches Ok(st2) ==> trades_ordered(st2.trades),
    decreases bars.len() - i,
{
    if 0 <= i < bars.len() {
        let b = bars[i];
        match mark_equity(st, b.close as int, cfg.initial_capital as int) {
            None => {},
            Some(eq) => {
                let st1 = SimState {
                    qty: st.qty,
                    entry_price: st.entry_price,
                    entry_ts: st.entry_ts,
                    entry_comm: st.entry_comm,
                    curve: st.curve.push((b.ts as int, eq)),
                    trades: st.trades,
                };
                lemma_apply_sigs_ordered(ss, j, b.ts as int, b.close as int, cfg, st1);
                match apply_sigs(ss, j, b.ts as int, b.close as int, cfg, st1) {
                    Ok(p) => {
                        lemma_run_ordered(bars, ss, cfg, i + 1, p.0, p.1);
                    },
                    Err(_) => {},
                }
            },
        }
    }
}

/// Every trade a successful simulation records closes strictly after it
/// opens.
pub proof fn lemma_backtest_trades_ordered(bars: Seq<Bar>, signals: Seq<Signal>, cfg: CostConfig)
    ensures
        sim_run(bars, sort_by_ts(signals), cfg) matches Ok(st) ==> trades_ordered(st.trades),
{
    lemma_run_ordered(bars, sort_by_ts(signals), cfg, 0, 0, init_state());
}

/// With no signals the simulation never trades: every equity point marks
/// the initial capital and the ledger stays empty.
proof fn lemma_run_flat(bars: Seq<Bar>, ss: Seq<Signal>, cfg: CostConfig, i: int, j: int, st: SimState)
    requires
        ss.len() == 0,
        st.qty == 0,
        0 <= i <= bars.len(),
    ensures
        ({
            let r = run_from(bars, ss, cfg, i, j, st);
            &&& r is Ok
            &&& r->Ok_0.trades == st.trades
            &&& r->Ok_0.curve.len() == st.curve.len() + (bars.len() - i)
            &&& forall|k: int| 0 <= k < st.curve.len() ==> #[trigger] r->Ok_0.curve[k] == st.curve[k]
            &&& forall|k: int| st.curve.len() <= k < r->Ok_0.curve.len()
                ==> #[trigger] r->Ok_0.curve[k].1 == cfg.initial_capital as int
        }),
    decreases bars.len() - i,
{
    if i < bars.len() {
        let b = bars[i];
        let st1 = SimState {
            qty: st.qty,
            entry_price: st.entry_price,
            entry_ts: st.entry_ts,
            entry_comm: st.entry_comm,
            curve: st.curve.push((b.ts as int, cfg.initial_capital as int)),
            trades: st.trades,
        };
        assert(mark_equity(st, b.close as int, cfg.initial_capital as int)
            == Some(cfg.initial_capital as int));
        assert(apply_sigs(ss, j, b.ts as int, b.close as int, cfg, st1)
            == Ok::<(int, SimState), SimFail>((j, st1)));
        lemma_run_flat(bars, ss, cfg, i + 1, j, st1);
    }
}

/// All returns of a constant positive curve are zero, so the return
/// computation succeeds.
proof fn lemma_rets_const(vals: Seq<int>, i: int, c: int)
    requires
        c > 0,
        forall|j: int| 0 <= j < vals.len() ==> #[trigger] vals[j] == c,
        0 <= i <= vals.len(),
    ensures
        rets_upto(vals, i) is Some,
    decreases i,
{
    if i > 1 {
        lemma_rets_const(vals, i - 1, c);
        vstd::arithmetic::div_mod::lemma_div_pos_is_pos(0, c);
        vstd::arithmetic::div_mod::lemma_div_basics_5(0, c);
        assert(crate::fixed::tdiv((vals[i - 1] - vals[i - 2]) * (SCALE as int), vals[i - 2]) == 0);
    }
}

/// With a non-empty valid bar series, a valid configuration and no signals,
/// the backtest succeeds with zero trades and a flat equity curve at the
/// initial capital.
pub proof fn lemma_backtest_ok_no_signals(bars: Seq<Bar>, cfg: CostConfig)
    requires
        bars.len() > 0,
        bars_valid(bars),
        cost_config_valid(cfg),
    ensures
        backtest_ok(bars, Seq::empty(), cfg),
        ({
            let st = sim_run(bars, sort_by_ts(Seq::empty()), cfg)->Ok_0;
            &&& sim_run(bars, sort_by_ts(Seq::empty()), cfg) is Ok
            &&& st.trades.len() == 0
            &&& st.curve.len() == bars.len()
            &&& forall|k: int| 0 <= k < st.curve.len() ==> #[trigger] st.curve[k].1 == cfg.initial_capital as int
        }),
{
    let ss = sort_by_ts(Seq::<Signal>::empty());
    assert(ss == Seq::<Signal>::empty());
    lemma_run_flat(bars, ss, cfg, 0, 0, init_state());
    let st = sim_run(bars, ss, cfg)->Ok_0;
    let vals = sim_equity_vals(st);
    assert(forall|k: int| 0 <= k < vals.len() ==> #[trigger] vals[k] == cfg.initial_capital as int);
    lemma_rets_const(vals, vals.len() as int, cfg.initial_capital as int);
    assert(sim_trades_exec(st) =~= Seq::<Trade>::empty());
    assert(!(exists|j: int| 0 <= j < vals.len() && #[trigger] vals[j] < 0));
    assert(metrics_result_spec(sim_trades_exec(st), vals, cfg.risk_free_rate as int) is Ok);
}

} // verus!
