use quantbt::indicators::{sma, ema, wma, vwma, ma_crossover, rsi, rsi_signals, macd, macd_signals,
    bollinger_bands, bollinger_signals, atr, atr_signals, obv, obv_signals, kdj, kdj_signals,
    cci, cci_signals, ichimoku, ichimoku_signals, adx, adx_signals, parabolic_sar,
    parabolic_sar_signals};
use quantbt::fixed::SCALE;
use quantbt::indicators::{calculate_all_indicators, combine_impulses};
use quantbt::series::CombinationStrategy;
use quantbt::types::Bar;

fn fx_series(vals: &[i64]) -> Vec<i64> {
    vals.iter().map(|v| v * SCALE).collect()
}

#[test]
fn test_sma() {
    let prices = fx_series(&[1, 2, 3, 4, 5]);
    let result = sma(&prices, 3);
    assert_eq!(result.len(), 5);
    // The warm-up repeats the input; afterwards the window mean.
    assert_eq!(result[2], 3 * SCALE);
    assert_eq!(result[3], 3 * SCALE);
    assert_eq!(result[4], 4 * SCALE);
}

#[test]
fn test_sma_empty_or_zero_period() {
    assert_eq!(sma(&Vec::new(), 3).len(), 0);
    assert_eq!(sma(&fx_series(&[1, 2]), 0).len(), 0);
}

#[test]
fn test_ema() {
    let prices = fx_series(&[1, 2, 3, 4, 5]);
    let result = ema(&prices, 3);
    assert_eq!(result.len(), 5);
    assert_eq!(result[0], SCALE);
    // The factor is one half: each step closes half the gap.
    assert_eq!(result[1], 15_000);
    assert_eq!(result[2], 22_500);
    assert_eq!(result[3], 31_250);
    assert_eq!(result[4], 40_625);
}

#[test]
fn test_wma() {
    let prices = fx_series(&[1, 2, 3, 4, 5]);
    let result = wma(&prices, 3);
    assert_eq!(result.len(), 5);
    // Weights 3, 2, 1 from the newest back: (3*3 + 2*2 + 1*1) / 6.
    assert_eq!(result[2], 23_333);
    assert_eq!(result[3], 33_333);
}

#[test]
fn test_vwma() {
    let prices = fx_series(&[1, 2, 3, 4, 5]);
    let volumes = fx_series(&[10, 20, 30, 40, 50]);
    let result = vwma(&prices, &volumes, 3);
    assert_eq!(result.len(), 5);
    // (1*10 + 2*20 + 3*30) / 60 at the first full window.
    assert_eq!(result[2], 140 * SCALE / 60);
}

#[test]
fn test_ma_crossover() {
    let short_ma: Vec<i64> = vec![10_000, 20_000, 30_000, 25_000, 20_000];
    let long_ma: Vec<i64> = vec![20_000, 20_000, 25_000, 25_000, 25_000];
    let signals = ma_crossover(&short_ma, &long_ma, 1_000);
    assert_eq!(signals.len(), 5);
    // Index 1 is a tie within the threshold, index 2 crosses up, index 3 is
    // again within the threshold, index 4 crosses down.
    assert_eq!(signals, vec![0, 0, 1, 0, -1]);
}

#[test]
fn test_rsi() {
    let prices = fx_series(&[1, 2, 3, 2, 15, 2, 25, 3]);
    let result = rsi(&prices, 5);
    assert_eq!(result.len(), 8);
    for (i, v) in result.iter().enumerate() {
        assert!(*v >= 0 && *v <= 100 * SCALE);
        if i < 5 {
            assert_eq!(*v, 50 * SCALE);
        }
    }
}

#[test]
fn test_rsi_all_gains_reads_high() {
    let prices = fx_series(&[1, 2, 3, 4, 5, 6, 7, 8]);
    let result = rsi(&prices, 3);
    // Rising throughout: the loss average is zero and the reading pins to
    // the top of the range.
    assert_eq!(result[5], 100 * SCALE);
}

#[test]
fn test_rsi_signals() {
    let rsi_values: Vec<i64> = vec![60 * SCALE, 25 * SCALE, 35 * SCALE, 75 * SCALE, 70 * SCALE];
    let signals = rsi_signals(&rsi_values, 30 * SCALE, 70 * SCALE);
    assert_eq!(signals.len(), 5);
    assert_eq!(signals[1], 1);
    assert_eq!(signals[3], -1);
}

#[test]
fn test_macd() {
    let prices = fx_series(&[1, 2, 3, 4, 5, 4, 4, 3, 3, 2]);
    let (macd_line, signal_line, histogram) = macd(&prices, 3, 6, 3);
    assert_eq!(macd_line.len(), 10);
    assert_eq!(signal_line.len(), 10);
    assert_eq!(histogram.len(), 10);
    for i in 0..10 {
        assert_eq!(histogram[i], macd_line[i] - signal_line[i]);
    }
}

#[test]
fn test_macd_signals() {
    let macd_line: Vec<i64> = vec![0, -1_000, 500, 1_000, -500];
    let signal_line: Vec<i64> = vec![0, -500, 0, 500, 0];
    let signals = macd_signals(&macd_line, &signal_line);
    assert_eq!(signals.len(), 5);
    assert_eq!(signals[2], 1);
    assert_eq!(signals[4], -1);
}

#[test]
fn test_bollinger_bands() {
    let prices = fx_series(&[1, 2, 3, 4, 5, 4, 4, 3, 3, 2]);
    let (upper, middle, lower) = bollinger_bands(&prices, 5, 2 * SCALE);
    assert_eq!(upper.len(), 10);
    assert_eq!(middle.len(), 10);
    assert_eq!(lower.len(), 10);
    assert!(upper[5] > middle[5]);
    assert!(lower[5] < middle[5]);
    assert_eq!(upper[2], 0);
    assert_eq!(lower[2], 0);
}

#[test]
fn test_bollinger_signals_lengths() {
    let prices = fx_series(&[1, 2, 3, 4, 5]);
    let upper: Vec<i64> = fx_series(&[9, 9, 9, 9, 4]);
    let lower: Vec<i64> = fx_series(&[0, 2, 0, 0, 0]);
    let signals = bollinger_signals(&prices, &upper, &lower);
    assert_eq!(signals.len(), 5);
    assert_eq!(signals[1], 0);
    assert_eq!(signals[4], -1);
}

#[test]
fn test_kdj() {
    let high = fx_series(&[2, 3, 4, 5, 5, 5, 5, 4, 4, 3]);
    let low = fx_series(&[1, 2, 3, 4, 4, 4, 4, 3, 3, 2]);
    let close = fx_series(&[1, 2, 3, 4, 5, 4, 4, 4, 3, 3]);
    let (k, d, j) = kdj(&high, &low, &close, 3, 3);
    assert_eq!(k.len(), 10);
    assert_eq!(d.len(), 10);
    assert_eq!(j.len(), 10);
    assert_eq!(k[0], 50 * SCALE);
    assert_eq!(d[2], 50 * SCALE);
}

#[test]
fn test_kdj_signals_shape() {
    let k: Vec<i64> = vec![50 * SCALE, 30 * SCALE, 40 * SCALE, 60 * SCALE];
    let d: Vec<i64> = vec![50 * SCALE, 40 * SCALE, 35 * SCALE, 70 * SCALE];
    let signals = kdj_signals(&k, &d, 20 * SCALE, 80 * SCALE);
    assert_eq!(signals.len(), 4);
    assert_eq!(signals[2], 1);
}

#[test]
fn test_cci() {
    let high = fx_series(&[2, 3, 4, 5, 5, 5, 5, 4, 4, 3]);
    let low = fx_series(&[1, 2, 3, 4, 4, 4, 4, 3, 3, 2]);
    let close = fx_series(&[1, 2, 3, 4, 5, 4, 4, 4, 3, 3]);
    let result = cci(&high, &low, &close, 5);
    assert_eq!(result.len(), 10);
    for i in 0..5 {
        assert_eq!(result[i], 0);
    }
}

#[test]
fn test_cci_signals_thresholds() {
    let vals: Vec<i64> = vec![0, -90 * SCALE, -110 * SCALE, 0, 110 * SCALE, 90 * SCALE];
    let signals = cci_signals(&vals);
    assert_eq!(signals, vec![0, 0, 1, 0, -1, 0]);
}

#[test]
fn test_atr() {
    let high = fx_series(&[2, 3, 4, 5, 5, 5, 5, 4, 4, 3]);
    let low = fx_series(&[1, 2, 3, 4, 4, 4, 4, 3, 3, 2]);
    let close = fx_series(&[1, 2, 3, 4, 5, 4, 4, 4, 3, 3]);
    let result = atr(&high, &low, &close, 5);
    assert_eq!(result.len(), 10);
    assert!(result[0] >= 0);
}

#[test]
fn test_atr_signals_breakout() {
    let high = fx_series(&[10, 20]);
    let low = fx_series(&[9, 18]);
    let close = fx_series(&[10, 19]);
    let atr_values: Vec<i64> = vec![SCALE, SCALE];
    let signals = atr_signals(&high, &low, &close, &atr_values, 2 * SCALE);
    // The second high breaks above the previous close plus twice the range.
    assert_eq!(signals, vec![0, 1]);
}

#[test]
fn test_obv() {
    let close = fx_series(&[1, 2, 1, 3, 2]);
    let volume = fx_series(&[100, 150, 120, 200, 180]);
    let result = obv(&close, &volume);
    assert_eq!(result.len(), 5);
    assert_eq!(result[0], 100 * SCALE);
    assert_eq!(result[1], 250 * SCALE);
    assert_eq!(result[2], 130 * SCALE);
    assert_eq!(result[3], 330 * SCALE);
    assert_eq!(result[4], 150 * SCALE);
}

#[test]
fn test_obv_signals_confirmation() {
    let obv_values: Vec<i64> = fx_series(&[100, 250, 130, 330, 150]);
    let close = fx_series(&[1, 2, 1, 3, 2]);
    let signals = obv_signals(&obv_values, &close);
    assert_eq!(signals, vec![0, 1, -1, 1, -1]);
}

#[test]
fn test_ichimoku() {
    let high = fx_series(&[2, 3, 4, 5, 6, 7, 8, 9, 10, 11]);
    let low = fx_series(&[1, 2, 3, 4, 5, 6, 7, 8, 9, 10]);
    let close = fx_series(&[1, 2, 3, 4, 5, 6, 7, 8, 9, 10]);
    let (tenkan, kijun, span_a, span_b, chikou) = ichimoku(&high, &low, &close, 3, 5, 2);
    assert_eq!(tenkan.len(), 10);
    assert_eq!(kijun.len(), 10);
    assert_eq!(span_a.len(), 10);
    assert_eq!(span_b.len(), 10);
    assert_eq!(chikou.len(), 10);
    // Tenkan at a full window: (highest high + lowest low) / 2.
    assert_eq!(tenkan[4], (6 + 3) * SCALE / 2);
    // Chikou lags the close by two bars.
    assert_eq!(chikou[5], close[3]);
    for i in 0..10 {
        assert_eq!(span_a[i], (tenkan[i] + kijun[i]) / 2);
    }
}

#[test]
fn test_ichimoku_signals_shape() {
    let close = fx_series(&[1, 10, 1]);
    let tenkan = fx_series(&[1, 5, 5]);
    let kijun = fx_series(&[1, 4, 6]);
    let ssa = fx_series(&[2, 5, 5]);
    let ssb = fx_series(&[2, 4, 4]);
    let signals = ichimoku_signals(&close, &tenkan, &kijun, &ssa, &ssb);
    assert_eq!(signals, vec![0, 1, -1]);
}

#[test]
fn test_adx() {
    let high = fx_series(&[2, 3, 4, 5, 5, 5, 5, 4, 4, 3]);
    let low = fx_series(&[1, 2, 3, 4, 4, 4, 4, 3, 3, 2]);
    let close = fx_series(&[1, 2, 3, 4, 5, 4, 4, 4, 3, 3]);
    let (adx_result, di_p, di_m) = adx(&high, &low, &close, 5);
    assert_eq!(adx_result.len(), 10);
    assert_eq!(di_p.len(), 10);
    assert_eq!(di_m.len(), 10);
    for i in 0..5 {
        assert_eq!(adx_result[i], 0);
        assert_eq!(di_p[i], 0);
        assert_eq!(di_m[i], 0);
    }
}

#[test]
fn test_adx_signals_gate() {
    let ax: Vec<i64> = vec![30 * SCALE, 30 * SCALE, 10 * SCALE];
    let dip: Vec<i64> = vec![10 * SCALE, 20 * SCALE, 20 * SCALE];
    let dim: Vec<i64> = vec![15 * SCALE, 15 * SCALE, 5 * SCALE];
    let signals = adx_signals(&ax, &dip, &dim, 25 * SCALE);
    // The cross at index 1 clears the threshold; index 2 does not.
    assert_eq!(signals, vec![0, 1, 0]);
}

#[test]
fn test_parabolic_sar() {
    let high = fx_series(&[2, 3, 4, 5, 5, 5, 5, 4, 4, 3]);
    let low = fx_series(&[1, 2, 3, 4, 4, 4, 4, 3, 3, 2]);
    let result = parabolic_sar(&high, &low, 200, 2_000);
    assert_eq!(result.len(), 10);
    assert_eq!(result[0], 0);
    // A rising start stops at the first low.
    assert_eq!(result[1], SCALE);
}

#[test]
fn test_parabolic_sar_signals() {
    let close = fx_series(&[1, 2, 1, 3, 2]);
    let sar_values: Vec<i64> = vec![9_000, 11_000, 14_000, 16_000, 18_000];
    let signals = parabolic_sar_signals(&close, &sar_values);
    assert_eq!(signals.len(), 5);
    assert_eq!(signals, vec![0, 0, -1, 1, 0]);
}

#[test]
fn test_indicator_output_lengths_match_input() {
    // Every indicator answers one value per input.
    let n = 40usize;
    let closes: Vec<i64> = (0..n as i64).map(|i| (100 + (i * 7) % 13) * SCALE).collect();
    let highs: Vec<i64> = closes.iter().map(|c| c + SCALE).collect();
    let lows: Vec<i64> = closes.iter().map(|c| c - SCALE).collect();
    let vols: Vec<i64> = (0..n as i64).map(|i| (50 + i) * SCALE).collect();
    assert_eq!(sma(&closes, 7).len(), n);
    assert_eq!(ema(&closes, 7).len(), n);
    assert_eq!(wma(&closes, 7).len(), n);
    assert_eq!(vwma(&closes, &vols, 7).len(), n);
    assert_eq!(rsi(&closes, 7).len(), n);
    let (a, b, c) = macd(&closes, 5, 9, 4);
    assert_eq!((a.len(), b.len(), c.len()), (n, n, n));
    let (u, m, l) = bollinger_bands(&closes, 7, 2 * SCALE);
    assert_eq!((u.len(), m.len(), l.len()), (n, n, n));
    let (k, d, j) = kdj(&highs, &lows, &closes, 5, 3);
    assert_eq!((k.len(), d.len(), j.len()), (n, n, n));
    assert_eq!(cci(&highs, &lows, &closes, 7).len(), n);
    let (ax, dp, dm) = adx(&highs, &lows, &closes, 7);
    assert_eq!((ax.len(), dp.len(), dm.len()), (n, n, n));
    assert_eq!(atr(&highs, &lows, &closes, 7).len(), n);
    assert_eq!(obv(&closes, &vols).len(), n);
    let (t, kj, sa, sb, ch) = ichimoku(&highs, &lows, &closes, 3, 5, 4);
    assert_eq!((t.len(), kj.len(), sa.len(), sb.len(), ch.len()), (n, n, n, n, n));
    assert_eq!(parabolic_sar(&highs, &lows, 200, 2_000).len(), n);
}

#[test]
fn test_calculate_all_indicators_covers_every_bar() {
    let bars: Vec<Bar> = (0..60)
        .map(|i| {
            let close = (100 + (i * 13 % 29)) * SCALE;
            Bar { ts: i, open: close, high: close + SCALE, low: close - SCALE, close, volume: 50 * SCALE }
        })
        .collect();
    let all = calculate_all_indicators(&bars);
    for series in [
        &all.sma_20, &all.rsi_14, &all.macd, &all.bollinger, &all.kdj, &all.cci, &all.atr,
        &all.obv, &all.adx, &all.psar,
    ] {
        assert_eq!(series.values.len(), 60);
        assert_eq!(series.impulses.len(), 60);
        for s in &series.impulses {
            assert!(*s == -1 || *s == 0 || *s == 1);
        }
    }
    // The Bollinger entry carries the closes as its values.
    assert_eq!(all.bollinger.values[7], bars[7].close);
}

#[test]
fn test_combine_impulses_rules() {
    let streams: Vec<Vec<i32>> = vec![
        vec![1, 1, -1, 0],
        vec![1, -1, -1, 0],
        vec![0, -1, 1, 0],
    ];
    let majority = combine_impulses(&streams, 4, CombinationStrategy::MajorityVote);
    assert_eq!(majority, vec![1, -1, -1, 0]);
    let consensus = combine_impulses(&streams, 4, CombinationStrategy::Consensus);
    assert_eq!(consensus, vec![1, 0, 0, 0]);
    let first = combine_impulses(&streams, 4, CombinationStrategy::BestPerformer);
    assert_eq!(first, vec![1, 1, -1, 0]);
    let weighted = combine_impulses(&streams, 4, CombinationStrategy::Weighted);
    assert_eq!(weighted, majority);
}
