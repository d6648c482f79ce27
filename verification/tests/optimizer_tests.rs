use quantbt::optimizer::{optimize, generate_parameter_grid, top_k_by_objective, param_tuple_eq,
    create_strategy_from_params, walk_forward_optimization, ParamName, ParamRange, ParamEntry,
    ParamTuple, OptimizationConfig, OptimizationMetric, GRID_CAP};
use quantbt::strategy::{StrategyType, validate_strategy, resolve_signals, run_strategy_backtest};
use quantbt::types::{Bar, CostConfig, BacktestError, SignalType};
use quantbt::fixed::SCALE;

fn wave_bars(n: i64) -> Vec<Bar> {
    (0..n).map(|i| {
        let close = (100 + (i * 13 % 29) - (i * 7 % 11)) * SCALE;
        Bar { ts: i, open: close, high: close + SCALE, low: close - SCALE, close, volume: 50 * SCALE }
    }).collect()
}

fn std_cost() -> CostConfig {
    CostConfig { initial_capital: 100_000 * SCALE, commission: 10, slippage: 5, risk_free_rate: 0 }
}

#[test]
fn test_parameter_grid() {
    let axes = vec![
        ParamRange { name: ParamName::Period, min: 5, max: 20, step: 5 },
        ParamRange { name: ParamName::Threshold, min: 20 * SCALE, max: 50 * SCALE, step: 10 * SCALE },
    ];
    let (grid, truncated) = generate_parameter_grid(&axes);
    // Four period values times four threshold values.
    assert_eq!(grid.len(), 16);
    assert!(!truncated);
    assert_eq!(grid[0].entries.len(), 2);
    assert_eq!(grid[0].entries[0], ParamEntry { name: ParamName::Period, value: 5 });
    assert_eq!(grid[0].entries[1], ParamEntry { name: ParamName::Threshold, value: 20 * SCALE });
    // Axis-major order: the second tuple advances the trailing axis.
    assert_eq!(grid[1].entries[0].value, 5);
    assert_eq!(grid[1].entries[1].value, 30 * SCALE);
    assert_eq!(grid[15].entries[0].value, 20);
    assert_eq!(grid[15].entries[1].value, 50 * SCALE);
}

#[test]
fn test_parameter_grid_truncates_at_cap() {
    let axes = vec![
        ParamRange { name: ParamName::Period, min: 1, max: 200, step: 1 },
        ParamRange { name: ParamName::Threshold, min: 1, max: 200, step: 1 },
    ];
    let (grid, truncated) = generate_parameter_grid(&axes);
    assert_eq!(grid.len(), GRID_CAP);
    assert!(truncated);
}

#[test]
fn test_create_strategy_from_params() {
    let base = StrategyType::MovingAverageCross { fast_period: 0, slow_period: 0 };
    let tuple = ParamTuple {
        entries: vec![
            ParamEntry { name: ParamName::FastPeriod, value: 3 },
            ParamEntry { name: ParamName::SlowPeriod, value: 12 },
        ],
    };
    let s = create_strategy_from_params(&base, &tuple);
    assert_eq!(s, StrategyType::MovingAverageCross { fast_period: 3, slow_period: 12 });
    // Missing entries fall back to the catalogue defaults.
    let empty = ParamTuple { entries: Vec::new() };
    let d = create_strategy_from_params(&base, &empty);
    assert_eq!(d, StrategyType::MovingAverageCross { fast_period: 10, slow_period: 20 });
}

#[test]
fn test_validate_strategy_preconditions() {
    assert!(validate_strategy(&StrategyType::MovingAverageCross { fast_period: 3, slow_period: 10 }).is_ok());
    assert!(validate_strategy(&StrategyType::MovingAverageCross { fast_period: 10, slow_period: 3 }).is_err());
    assert!(validate_strategy(&StrategyType::RSI { period: 14, oversold: 30 * SCALE, overbought: 70 * SCALE }).is_ok());
    assert!(validate_strategy(&StrategyType::RSI { period: 14, oversold: 70 * SCALE, overbought: 30 * SCALE }).is_err());
    assert!(validate_strategy(&StrategyType::ParabolicSAR { af_start: 200, af_max: 2_000 }).is_ok());
    assert!(validate_strategy(&StrategyType::ParabolicSAR { af_start: 2_000, af_max: 200 }).is_err());
    assert!(validate_strategy(&StrategyType::MACD { fast: 12, slow: 26, signal: 9 }).is_ok());
    assert!(validate_strategy(&StrategyType::MACD { fast: 26, slow: 12, signal: 9 }).is_err());
}

#[test]
fn test_resolve_signals_each_variant() {
    let bars = wave_bars(80);
    let variants = vec![
        StrategyType::MovingAverageCross { fast_period: 3, slow_period: 10 },
        StrategyType::RSI { period: 7, oversold: 30 * SCALE, overbought: 70 * SCALE },
        StrategyType::MACD { fast: 5, slow: 9, signal: 4 },
        StrategyType::BollingerBands { period: 7, std_dev: 2 * SCALE },
        StrategyType::KDJ { k_period: 5, d_period: 3, oversold: 20 * SCALE, overbought: 80 * SCALE },
        StrategyType::CCI { period: 7 },
        StrategyType::ADX { period: 7, threshold: 20 * SCALE },
        StrategyType::ATR { period: 7, multiplier: SCALE / 2 },
        StrategyType::OBV { period: 7 },
        StrategyType::Ichimoku { conv: 3, base: 5, lag: 4 },
        StrategyType::ParabolicSAR { af_start: 200, af_max: 2_000 },
    ];
    for v in &variants {
        let signals = resolve_signals(&bars, v);
        for s in &signals {
            assert!(s.kind == SignalType::Buy || s.kind == SignalType::Sell);
            assert!(s.ts >= 0 && s.ts < 80);
        }
    }
}

#[test]
fn test_run_strategy_backtest_smoke() {
    let bars = wave_bars(120);
    let res = run_strategy_backtest(&bars,
        &StrategyType::MovingAverageCross { fast_period: 3, slow_period: 10 }, std_cost());
    let out = res.unwrap();
    assert_eq!(out.equity_curve.len(), 120);
    assert!(out.final_value > 0);
}

#[test]
fn test_optimizer_determinism() {
    // A nine-tuple grid under the Sharpe objective with one worker and with
    // four: the same best tuple and the same ranked scores.
    let bars = wave_bars(90);
    let axes = vec![
        ParamRange { name: ParamName::FastPeriod, min: 2, max: 4, step: 1 },
        ParamRange { name: ParamName::SlowPeriod, min: 10, max: 30, step: 10 },
    ];
    let mk = |workers: usize| OptimizationConfig {
        strategy: StrategyType::MovingAverageCross { fast_period: 10, slow_period: 20 },
        parameter_ranges: axes.clone(),
        metric: OptimizationMetric::SharpeRatio,
        max_workers: Some(workers),
        max_combinations: None,
    };
    let r1 = optimize(&bars, std_cost(), &mk(1)).unwrap();
    let r4 = optimize(&bars, std_cost(), &mk(4)).unwrap();
    assert_eq!(r1.total_combinations, 9);
    assert_eq!(r4.total_combinations, 9);
    assert_eq!(r1.all_parameters.len(), r4.all_parameters.len());
    assert!(param_tuple_eq(&r1.best_parameters.values, &r4.best_parameters.values));
    assert_eq!(r1.best_parameters.score, r4.best_parameters.score);
    for (a, b) in r1.all_parameters.iter().zip(r4.all_parameters.iter()) {
        assert!(param_tuple_eq(&a.values, &b.values));
        assert_eq!(a.score, b.score);
    }
}

#[test]
fn test_optimizer_ranking_descending() {
    let bars = wave_bars(90);
    let config = OptimizationConfig {
        strategy: StrategyType::MovingAverageCross { fast_period: 10, slow_period: 20 },
        parameter_ranges: vec![
            ParamRange { name: ParamName::FastPeriod, min: 2, max: 6, step: 1 },
            ParamRange { name: ParamName::SlowPeriod, min: 8, max: 24, step: 8 },
        ],
        metric: OptimizationMetric::TotalReturn,
        max_workers: None,
        max_combinations: None,
    };
    let r = optimize(&bars, std_cost(), &config).unwrap();
    assert_eq!(r.total_combinations, 15);
    for w in r.all_parameters.windows(2) {
        assert!(w[0].score >= w[1].score);
    }
    assert_eq!(r.best_parameters.score, r.all_parameters[0].score);
    let top = top_k_by_objective(&r.all_parameters, 5);
    assert_eq!(top.len(), 5);
    for (i, p) in top.iter().enumerate() {
        assert_eq!(p.score, r.all_parameters[i].score);
    }
}

#[test]
fn test_optimizer_rejects_bad_request() {
    let bars = wave_bars(30);
    let empty = OptimizationConfig {
        strategy: StrategyType::CCI { period: 7 },
        parameter_ranges: Vec::new(),
        metric: OptimizationMetric::SharpeRatio,
        max_workers: None,
        max_combinations: None,
    };
    assert!(matches!(optimize(&bars, std_cost(), &empty),
        Err(BacktestError::ValidationFailed { .. })));
    let bad_axis = OptimizationConfig {
        strategy: StrategyType::CCI { period: 7 },
        parameter_ranges: vec![ParamRange { name: ParamName::Period, min: 9, max: 3, step: 1 }],
        metric: OptimizationMetric::SharpeRatio,
        max_workers: None,
        max_combinations: None,
    };
    assert!(matches!(optimize(&bars, std_cost(), &bad_axis),
        Err(BacktestError::ValidationFailed { .. })));
}

#[test]
fn test_optimizer_scores_failed_tuples_low() {
    // A degenerate tuple (fast not below slow) is recorded with the lowest
    // score rather than aborting the sweep.
    let bars = wave_bars(60);
    let config = OptimizationConfig {
        strategy: StrategyType::MovingAverageCross { fast_period: 10, slow_period: 20 },
        parameter_ranges: vec![
            ParamRange { name: ParamName::FastPeriod, min: 5, max: 25, step: 10 },
            ParamRange { name: ParamName::SlowPeriod, min: 15, max: 15, step: 1 },
        ],
        metric: OptimizationMetric::SharpeRatio,
        max_workers: Some(1),
        max_combinations: None,
    };
    let r = optimize(&bars, std_cost(), &config).unwrap();
    assert_eq!(r.total_combinations, 3);
    let worst = r.all_parameters.last().unwrap();
    assert_eq!(worst.score, i64::MIN);
    assert!(worst.backtest_result.is_none());
    assert!(r.all_parameters[0].score > i64::MIN);
    assert!(r.all_parameters[0].backtest_result.is_some());
}

#[test]
fn test_walk_forward_windows() {
    let bars = wave_bars(60);
    let config = OptimizationConfig {
        strategy: StrategyType::MovingAverageCross { fast_period: 10, slow_period: 20 },
        parameter_ranges: vec![
            ParamRange { name: ParamName::FastPeriod, min: 2, max: 3, step: 1 },
            ParamRange { name: ParamName::SlowPeriod, min: 6, max: 8, step: 2 },
        ],
        metric: OptimizationMetric::SharpeRatio,
        max_workers: Some(1),
        max_combinations: None,
    };
    let recs = walk_forward_optimization(&bars, std_cost(), &config, 20, 10, 15).unwrap();
    // Windows start at 0, 15 and 30; the next would need bars past the end.
    assert_eq!(recs.len(), 3);
    for (w, rec) in recs.iter().enumerate() {
        assert_eq!(rec.train_start, w * 15);
        assert_eq!(rec.train_end, w * 15 + 20);
        assert_eq!(rec.test_end, w * 15 + 30);
        assert_eq!(rec.optimization.total_combinations, 4);
        for pair in rec.optimization.all_parameters.windows(2) {
            assert!(pair[0].score >= pair[1].score);
        }
    }
    // An invalid request is rejected rather than swept.
    assert!(walk_forward_optimization(&bars, std_cost(), &config, 0, 10, 15).is_err());
}
