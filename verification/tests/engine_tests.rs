use quantbt::engine::{run_backtest, run_sma_backtest, generate_ma_cross_signals, sort_signals};
use quantbt::metrics::{calculate_metrics, metrics_for_run, calculate_max_drawdown, calculate_returns,
    calculate_sharpe_ratio, calculate_sortino_ratio, calculate_annualized_return, calculate_volatility,
    MetricsError, FX_INF};
use quantbt::types::{Bar, Signal, SignalType, Trade, CostConfig, BacktestError, BarFault};
use quantbt::validate::validate_bars;
use quantbt::fixed::SCALE;

fn flat_bar(ts: i64, close: i64) -> Bar {
    Bar { ts, open: close, high: close, low: close, close, volume: 10_000 }
}

fn zero_cost_config() -> CostConfig {
    CostConfig { initial_capital: 100_000 * SCALE, commission: 0, slippage: 0, risk_free_rate: 0 }
}

fn buy(ts: i64, price: i64) -> Signal {
    Signal { ts, kind: SignalType::Buy, price_hint: price, strength: SCALE }
}

fn sell(ts: i64, price: i64) -> Signal {
    Signal { ts, kind: SignalType::Sell, price_hint: price, strength: SCALE }
}

#[test]
fn test_data_validation() {
    let empty_data: Vec<Bar> = Vec::new();
    assert!(validate_bars(&empty_data).is_err());

    let invalid_data = vec![Bar {
        ts: 1,
        open: 100 * SCALE,
        high: 90 * SCALE,
        low: 95 * SCALE,
        close: 92 * SCALE,
        volume: 1000 * SCALE,
    }];
    assert!(validate_bars(&invalid_data).is_err());

    let valid_data = vec![Bar {
        ts: 1,
        open: 100 * SCALE,
        high: 110 * SCALE,
        low: 95 * SCALE,
        close: 105 * SCALE,
        volume: 1000 * SCALE,
    }];
    assert!(validate_bars(&valid_data).is_ok());
}

#[test]
fn test_invalid_bar_reports_index_and_reason() {
    // An invalid bar must surface as InvalidBar with its index, and the run
    // must produce no partial result.
    let mut bars: Vec<Bar> = (0..5).map(|i| flat_bar(i, 100 * SCALE)).collect();
    bars[3].high = 90 * SCALE;
    bars[3].low = 95 * SCALE;
    match validate_bars(&bars) {
        Err(BacktestError::InvalidBar { index, reason }) => {
            assert_eq!(index, 3);
            assert!(matches!(reason, BarFault::HighBelowLow));
        }
        other => panic!("expected an invalid-bar error, got {:?}", other),
    }
    let r = run_backtest(&bars, &Vec::new(), zero_cost_config());
    assert!(matches!(r, Err(BacktestError::InvalidBar { index: 3, .. })));
}

#[test]
fn test_straight_line_rally() {
    // Closes 100, 101, ..., 110; one buy at the first bar, one sell at the
    // last, zero costs.
    let bars: Vec<Bar> = (0..11).map(|i| flat_bar(i, (100 + i) * SCALE)).collect();
    let signals = vec![buy(0, 100 * SCALE), sell(10, 110 * SCALE)];
    let res = run_backtest(&bars, &signals, zero_cost_config()).unwrap();
    assert_eq!(res.trades.len(), 1);
    assert_eq!(res.metrics.trade_count, 1);
    // 95% of the capital buys 950 units at 100; ten points of rise.
    assert_eq!(res.trades[0].quantity, 950 * SCALE);
    assert_eq!(res.trades[0].pnl, 9_500 * SCALE);
    assert!(res.metrics.total_return > 0);
    assert_eq!(res.metrics.max_drawdown, 0);
    assert_eq!(res.metrics.win_rate, SCALE);
    assert_eq!(res.metrics.profit_factor, FX_INF);
}

#[test]
fn test_v_shape() {
    // Closes 100, 90, 80, 90, 100; buy at the first bar, sell at the last,
    // zero costs: flat outcome, a fifth of the peak lost at the trough.
    let closes = [100i64, 90, 80, 90, 100];
    let bars: Vec<Bar> = closes.iter().enumerate()
        .map(|(i, c)| flat_bar(i as i64, c * SCALE)).collect();
    let signals = vec![buy(0, 100 * SCALE), sell(4, 100 * SCALE)];
    let res = run_backtest(&bars, &signals, zero_cost_config()).unwrap();
    assert_eq!(res.trades.len(), 1);
    assert_eq!(res.trades[0].pnl, 0);
    // Equity runs 100000, 90500, 81000, 90500, 100000: the trough is 19%
    // below the peak.
    assert_eq!(res.metrics.max_drawdown, 1_900);
    assert_eq!(res.final_value, 100_000 * SCALE);
}

#[test]
fn test_empty_signals() {
    // One hundred valid bars and no signals: no trades, the initial capital
    // untouched, metrics computed on the flat curve.
    let bars: Vec<Bar> = (0..100).map(|i| flat_bar(i, (100 + (i % 7)) * SCALE)).collect();
    let res = run_backtest(&bars, &Vec::new(), zero_cost_config()).unwrap();
    assert_eq!(res.trades.len(), 0);
    assert_eq!(res.metrics.trade_count, 0);
    assert_eq!(res.final_value, 100_000 * SCALE);
    assert_eq!(res.equity_curve.len(), 100);
    assert_eq!(res.metrics.total_return, 0);
    assert_eq!(res.metrics.max_drawdown, 0);
    assert_eq!(res.metrics.win_rate, 0);
}

#[test]
fn test_equity_curve_matches_bars() {
    let bars: Vec<Bar> = (0..37).map(|i| flat_bar(i, (50 + i) * SCALE)).collect();
    let signals = vec![buy(3, 53 * SCALE), sell(20, 70 * SCALE), buy(25, 75 * SCALE)];
    let res = run_backtest(&bars, &signals, zero_cost_config()).unwrap();
    assert_eq!(res.equity_curve.len(), bars.len());
    for (p, b) in res.equity_curve.iter().zip(bars.iter()) {
        assert_eq!(p.ts, b.ts);
    }
}

#[test]
fn test_trades_close_after_opening() {
    let bars: Vec<Bar> = (0..30).map(|i| flat_bar(i, (100 + (i % 11)) * SCALE)).collect();
    let signals = vec![
        buy(2, 0), sell(2, 0), sell(7, 0), buy(9, 0), sell(15, 0), buy(20, 0), sell(29, 0),
    ];
    let res = run_backtest(&bars, &signals, zero_cost_config()).unwrap();
    assert!(res.trades.len() >= 2);
    for t in &res.trades {
        assert!(t.exit_ts > t.entry_ts);
    }
}

#[test]
fn test_buy_at_zero_price_is_guarded() {
    let bars: Vec<Bar> = (0..5).map(|i| flat_bar(i, 0)).collect();
    let signals = vec![buy(1, 0)];
    let r = run_backtest(&bars, &signals, zero_cost_config());
    assert!(matches!(r, Err(BacktestError::DivisionGuarded { .. })));
}

#[test]
fn test_quantity_overflow_is_reported() {
    // Buying at the smallest positive price and marking against the
    // largest valid one asks for an equity beyond the representable range.
    let bars: Vec<Bar> = vec![flat_bar(0, 1), flat_bar(1, 10_000_000_000_000)];
    let signals = vec![buy(0, 1)];
    let config = CostConfig {
        initial_capital: 10_000_000_000_000,
        commission: 0,
        slippage: 0,
        risk_free_rate: 0,
    };
    let r = run_backtest(&bars, &signals, config);
    assert!(matches!(r, Err(BacktestError::NonFinite { .. })));
}

#[test]
fn test_invalid_cost_config_is_rejected() {
    let bars: Vec<Bar> = (0..5).map(|i| flat_bar(i, 100 * SCALE)).collect();
    let config = CostConfig { initial_capital: 0, commission: 0, slippage: 0, risk_free_rate: 0 };
    let r = run_backtest(&bars, &Vec::new(), config);
    assert!(matches!(r, Err(BacktestError::ValidationFailed { .. })));
}

#[test]
fn test_signal_sort_is_stable() {
    let signals = vec![sell(5, 1), buy(1, 2), sell(1, 3), buy(5, 4), buy(3, 5)];
    let sorted = sort_signals(&signals);
    let ts: Vec<i64> = sorted.iter().map(|s| s.ts).collect();
    assert_eq!(ts, vec![1, 1, 3, 5, 5]);
    // Equal timestamps keep their arrival order.
    assert_eq!(sorted[0].price_hint, 2);
    assert_eq!(sorted[1].price_hint, 3);
    assert_eq!(sorted[3].price_hint, 1);
    assert_eq!(sorted[4].price_hint, 4);
}

#[test]
fn test_ma_cross_on_monotone_up() {
    // Closes 1..100, fast 3, slow 10: exactly one buy near the tenth bar
    // and never a sell; the generator must not repeat a side.
    let bars: Vec<Bar> = (0..100).map(|i| flat_bar(i, (i + 1) * SCALE)).collect();
    let signals = generate_ma_cross_signals(&bars, 3, 10);
    assert_eq!(signals.len(), 1);
    assert_eq!(signals[0].kind, SignalType::Buy);
    assert_eq!(signals[0].ts, 10);
}

#[test]
fn test_run_sma_backtest_validates_periods() {
    let bars: Vec<Bar> = (0..50).map(|i| flat_bar(i, (100 + i) * SCALE)).collect();
    assert!(matches!(run_sma_backtest(&bars, 10, 5, 100_000 * SCALE),
        Err(BacktestError::ValidationFailed { .. })));
    assert!(matches!(run_sma_backtest(&bars, 0, 5, 100_000 * SCALE),
        Err(BacktestError::ValidationFailed { .. })));
    let short: Vec<Bar> = (0..5).map(|i| flat_bar(i, 100 * SCALE)).collect();
    assert!(matches!(run_sma_backtest(&short, 3, 10, 100_000 * SCALE),
        Err(BacktestError::InsufficientData { needed: 10, have: 5 })));
    assert!(run_sma_backtest(&bars, 3, 10, 100_000 * SCALE).is_ok());
}

#[test]
fn test_calculate_max_drawdown() {
    let equity_curve: Vec<i64> =
        vec![100_000, 110_000, 105_000, 95_000, 105_000, 90_000].iter().map(|v| v * SCALE).collect();
    let max_dd = calculate_max_drawdown(&equity_curve);
    assert!(max_dd >= 0);
    assert!(max_dd <= SCALE);
    // (110000 - 90000) / 110000, truncated to four decimal places.
    assert_eq!(max_dd, 1_818);
}

#[test]
fn test_max_drawdown_in_unit_range() {
    let curves: Vec<Vec<i64>> = vec![
        vec![1, 1, 1],
        vec![5 * SCALE, 4 * SCALE, 6 * SCALE, 2 * SCALE],
        vec![10 * SCALE],
        (1..200).map(|i| i * SCALE).collect(),
    ];
    for c in &curves {
        let dd = calculate_max_drawdown(c);
        assert!(dd >= 0 && dd <= SCALE);
    }
}

#[test]
fn test_calculate_returns_guards_non_positive_base() {
    let curve = vec![0, 5 * SCALE];
    assert!(matches!(calculate_returns(&curve), Err(MetricsError::InvalidData)));
    let good = vec![SCALE, 2 * SCALE, SCALE];
    let rets = calculate_returns(&good).unwrap();
    assert_eq!(rets, vec![SCALE, -5_000]);
}

#[test]
fn test_calculate_sharpe_ratio() {
    let rets: Vec<i64> = vec![100, -200, 150, -100, 200, 250];
    let vol = 1_500;
    let sharpe = calculate_sharpe_ratio(&rets, 200, vol);
    // mean 66, annualised 16632, minus the risk-free 200, over the
    // volatility.
    assert_eq!(sharpe, (66 * 252 - 200) * SCALE / 1_500);
}

#[test]
fn test_zero_volatility() {
    let rets: Vec<i64> = vec![100, 100, 100, 100, 100];
    assert_eq!(calculate_sharpe_ratio(&rets, 200, 0), 0);
    assert_eq!(calculate_volatility(&rets), 0 * SCALE);
}

#[test]
fn test_calculate_sortino_ratio() {
    let rets: Vec<i64> = vec![100, -200, 150, -100, 200, 250];
    let sortino = calculate_sortino_ratio(&rets, 200);
    assert!(sortino > 0);
    assert!(sortino < FX_INF);
    // With no negative return the ratio saturates.
    let all_up: Vec<i64> = vec![100, 200, 300];
    assert_eq!(calculate_sortino_ratio(&all_up, 0), FX_INF);
}

#[test]
fn test_calculate_annualized_return() {
    let annualized = calculate_annualized_return(2_000, 252);
    assert!((annualized - 2_000).abs() < 100);
    assert_eq!(calculate_annualized_return(500, 0), 0);
}

fn sample_trades() -> Vec<Trade> {
    let pnls: [i64; 4] = [500, -400, 1000, -200];
    pnls.iter().enumerate().map(|(i, p)| Trade {
        id: i as u64,
        entry_ts: (i as i64) * 86_400 * 10,
        exit_ts: (i as i64) * 86_400 * 10 + 86_400 * 4,
        entry_price: 100 * SCALE,
        exit_price: 100 * SCALE + p / 100,
        quantity: 100 * SCALE,
        pnl: p * SCALE,
        commission_total: 0,
    }).collect()
}

#[test]
fn test_calculate_metrics_basic() {
    let trades = sample_trades();
    let equity_curve: Vec<i64> = vec![
        100_000, 101_000, 102_500, 103_000, 102_000, 105_000, 106_500, 107_000, 106_000, 108_500,
        110_000,
    ].iter().map(|v| v * SCALE).collect();
    let metrics = calculate_metrics(&trades, &equity_curve, 0).unwrap();
    assert!(metrics.total_return > 0);
    assert!(metrics.annualized_return > 0);
    assert_eq!(metrics.trade_count, 4);
    assert!(metrics.win_rate > 0 && metrics.win_rate <= SCALE);
    assert!(metrics.max_drawdown >= 0);
    // Each trade held four days.
    assert_eq!(metrics.avg_hold_days, 4 * SCALE);
}

#[test]
fn test_calculate_profit_factor() {
    let trades = sample_trades();
    let equity_curve: Vec<i64> = vec![100_000 * SCALE, 110_000 * SCALE];
    let metrics = calculate_metrics(&trades, &equity_curve, 0).unwrap();
    // 1500 of profit against 600 of loss.
    assert_eq!(metrics.profit_factor, 25_000);
}

#[test]
fn test_empty_trades_error() {
    let trades: Vec<Trade> = Vec::new();
    let equity_curve = vec![100_000 * SCALE, 110_000 * SCALE];
    assert!(matches!(calculate_metrics(&trades, &equity_curve, 0), Err(MetricsError::EmptyTrades)));
}

#[test]
fn test_empty_equity_curve_error() {
    let trades = sample_trades();
    let equity_curve: Vec<i64> = Vec::new();
    assert!(matches!(calculate_metrics(&trades, &equity_curve, 0),
        Err(MetricsError::EmptyEquityCurve)));
}

#[test]
fn test_invalid_data_error() {
    let trades = sample_trades();
    let equity_curve = vec![100_000 * SCALE, -1, 110_000 * SCALE];
    assert!(matches!(calculate_metrics(&trades, &equity_curve, 0), Err(MetricsError::InvalidData)));
}

#[test]
fn test_all_winning_trades() {
    let mut trades = sample_trades();
    trades.truncate(2);
    trades[1].pnl = 1_000 * SCALE;
    trades[0].pnl = 500 * SCALE;
    let equity_curve = vec![100_000 * SCALE, 105_000 * SCALE, 115_000 * SCALE];
    let metrics = calculate_metrics(&trades, &equity_curve, 0).unwrap();
    assert_eq!(metrics.win_rate, SCALE);
    assert_eq!(metrics.profit_factor, FX_INF);
}

#[test]
fn test_all_losing_trades() {
    let mut trades = sample_trades();
    trades.truncate(2);
    trades[0].pnl = -500 * SCALE;
    trades[1].pnl = -1_000 * SCALE;
    let equity_curve = vec![100_000 * SCALE, 95_000 * SCALE, 85_000 * SCALE];
    let metrics = calculate_metrics(&trades, &equity_curve, 0).unwrap();
    assert_eq!(metrics.win_rate, 0);
    assert_eq!(metrics.profit_factor, 0);
}

#[test]
fn test_single_trade() {
    let mut trades = sample_trades();
    trades.truncate(1);
    let equity_curve = vec![100_000 * SCALE, 105_000 * SCALE];
    let metrics = calculate_metrics(&trades, &equity_curve, 0).unwrap();
    assert_eq!(metrics.trade_count, 1);
    assert_eq!(metrics.win_rate, SCALE);
}

#[test]
fn test_metrics_idempotence() {
    // The calculator is a function of its inputs: two runs agree bit for
    // bit.
    let trades = sample_trades();
    let equity_curve: Vec<i64> = (0..40).map(|i| (100_000 + 37 * i * i % 9_000) * SCALE).collect();
    let m1 = metrics_for_run(&trades, &equity_curve, 150).unwrap();
    let m2 = metrics_for_run(&trades, &equity_curve, 150).unwrap();
    assert_eq!(m1, m2);
}
