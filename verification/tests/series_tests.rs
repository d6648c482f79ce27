use quantbt::series::{ValuePoint, TechnicalPoint, DataQuality, IndicatorType, SignalAction,
    CombinationStrategy, InterpolationMethod, validate_series, assess_quality, interpolate_missing,
    calculate_sma, calculate_zscore, calculate_rsi, ZScoreStrategy, RSIStrategy, SMAStrategy};
use quantbt::logging::{LogLevel, JsonLogger};
use quantbt::fixed::SCALE;

fn point(day: i64, value: i64) -> ValuePoint {
    ValuePoint { day, value, valid: true, quality: DataQuality::Good }
}

fn missing(day: i64) -> ValuePoint {
    ValuePoint { day, value: 0, valid: false, quality: DataQuality::Rejected }
}

#[test]
fn test_log_level_display() {
    assert_eq!(LogLevel::Info.name(), "INFO");
    assert_eq!(LogLevel::Error.name(), "ERROR");
}

#[test]
fn test_json_logger_threshold() {
    let logger = JsonLogger::new(LogLevel::Info);
    assert!(logger.should_log(LogLevel::Error));
    assert!(logger.should_log(LogLevel::Info));
    assert!(!logger.should_log(LogLevel::Debug));
    assert!(!logger.should_log(LogLevel::Trace));
}

#[test]
fn test_interpolation_method_names() {
    assert_eq!(InterpolationMethod::ForwardFill.name(), "Forward Fill");
    assert_eq!(InterpolationMethod::BackwardFill.name(), "Backward Fill");
    assert_eq!(InterpolationMethod::Linear.name(), "Linear");
    assert_eq!(InterpolationMethod::Mean.name(), "Mean");
    assert_eq!(InterpolationMethod::Median.name(), "Median");
}

#[test]
fn test_series_labels() {
    assert_eq!(DataQuality::Good.label(), "GOOD");
    assert_eq!(IndicatorType::ZScore.label(), "ZSCORE");
    assert_eq!(SignalAction::Buy.label(), "BUY");
    assert!(matches!(CombinationStrategy::MajorityVote, CombinationStrategy::MajorityVote));
}

#[test]
fn test_validate_series_counts() {
    let data = vec![point(1, 100 * SCALE), missing(2), point(3, 200 * SCALE), missing(4)];
    let report = validate_series(&data);
    assert_eq!(report.total_records, 4);
    assert_eq!(report.valid_count, 2);
    assert_eq!(report.invalid_count, 2);
    assert_eq!(report.issues.len(), 2);
    assert_eq!(report.issues[0].row, 1);
    assert_eq!(report.issues[1].row, 3);
    assert_eq!(report.data_quality_score, 5_000);
}

#[test]
fn test_assess_quality_grades() {
    let all_good: Vec<ValuePoint> = (0..100).map(|i| point(i, SCALE)).collect();
    assert_eq!(assess_quality(&all_good), DataQuality::Good);
    let mut three_gaps = all_good.clone();
    three_gaps[0] = missing(0);
    three_gaps[1] = missing(1);
    three_gaps[2] = missing(2);
    assert_eq!(assess_quality(&three_gaps), DataQuality::Fair);
    let mut ten_gaps = all_good.clone();
    for i in 0..10 {
        ten_gaps[i] = missing(i as i64);
    }
    assert_eq!(assess_quality(&ten_gaps), DataQuality::Poor);
    let mut half = all_good.clone();
    for i in 0..50 {
        half[i] = missing(i as i64);
    }
    assert_eq!(assess_quality(&half), DataQuality::Rejected);
    assert_eq!(assess_quality(&Vec::new()), DataQuality::Rejected);
}

#[test]
fn test_forward_fill() {
    let data = vec![missing(1), point(2, 10 * SCALE), missing(3), missing(4), point(5, 20 * SCALE)];
    let out = interpolate_missing(&data, InterpolationMethod::ForwardFill).unwrap();
    assert_eq!(out.len(), 5);
    assert!(!out[0].valid);
    assert_eq!(out[2].value, 10 * SCALE);
    assert_eq!(out[3].value, 10 * SCALE);
    assert!(out[2].valid);
    assert_eq!(out[2].quality, DataQuality::Fair);
    assert_eq!(out[4].value, 20 * SCALE);
}

#[test]
fn test_backward_fill() {
    let data = vec![missing(1), point(2, 10 * SCALE), missing(3), point(4, 20 * SCALE), missing(5)];
    let out = interpolate_missing(&data, InterpolationMethod::BackwardFill).unwrap();
    assert_eq!(out[0].value, 10 * SCALE);
    assert_eq!(out[2].value, 20 * SCALE);
    assert!(!out[4].valid);
}

#[test]
fn test_linear_interpolation() {
    let data = vec![point(0, 10 * SCALE), missing(1), missing(2), point(3, 40 * SCALE)];
    let out = interpolate_missing(&data, InterpolationMethod::Linear).unwrap();
    // One third and two thirds of the way, at the library's four-decimal
    // resolution.
    assert_eq!(out[1].value, 19_9990);
    assert_eq!(out[2].value, 29_9980);
    assert!(out[1].valid && out[2].valid);
}

#[test]
fn test_mean_fill() {
    let data = vec![point(1, 10 * SCALE), missing(2), point(3, 30 * SCALE)];
    let out = interpolate_missing(&data, InterpolationMethod::Mean).unwrap();
    assert_eq!(out[1].value, 20 * SCALE);
    let empty_valid = vec![missing(1), missing(2)];
    assert!(interpolate_missing(&empty_valid, InterpolationMethod::Mean).is_err());
}

#[test]
fn test_median_fill() {
    let data = vec![
        point(1, 10 * SCALE), point(2, 90 * SCALE), point(3, 20 * SCALE), missing(4),
    ];
    let out = interpolate_missing(&data, InterpolationMethod::Median).unwrap();
    assert_eq!(out[3].value, 20 * SCALE);
    let even = vec![point(1, 10 * SCALE), point(2, 30 * SCALE), missing(3)];
    let out2 = interpolate_missing(&even, InterpolationMethod::Median).unwrap();
    assert_eq!(out2[2].value, 20 * SCALE);
}

#[test]
fn test_series_sma() {
    let data: Vec<ValuePoint> = vec![
        point(1, 10 * SCALE), point(2, 20 * SCALE), point(3, 30 * SCALE), point(4, 40 * SCALE),
    ];
    let out = calculate_sma(&data, 2).unwrap();
    assert_eq!(out.len(), 4);
    assert_eq!(out[0].value, None);
    assert_eq!(out[1].value, Some(15 * SCALE));
    assert_eq!(out[3].value, Some(35 * SCALE));
    assert_eq!(out[3].kind, IndicatorType::SMAFast);
    assert!(calculate_sma(&data, 0).is_err());
}

#[test]
fn test_series_sma_gap_yields_none() {
    let data = vec![point(1, 10 * SCALE), missing(2), point(3, 30 * SCALE)];
    let out = calculate_sma(&data, 2).unwrap();
    assert_eq!(out[1].value, None);
    assert_eq!(out[2].value, None);
}

#[test]
fn test_series_zscore() {
    let data: Vec<ValuePoint> = (0..10).map(|i| point(i, (10 + i) * SCALE)).collect();
    let out = calculate_zscore(&data, 5).unwrap();
    assert_eq!(out.len(), 10);
    assert_eq!(out[0].value, None);
    assert!(out[9].value.is_some());
    // The newest of a rising window sits above its mean.
    assert!(out[9].value.unwrap() > 0);
    let flat: Vec<ValuePoint> = (0..10).map(|i| point(i, 5 * SCALE)).collect();
    let out_flat = calculate_zscore(&flat, 5).unwrap();
    // A flat window has no deviation to scale by.
    assert_eq!(out_flat[9].value, None);
}

#[test]
fn test_series_rsi() {
    let data: Vec<ValuePoint> = (0..12).map(|i| point(i, (10 + i) * SCALE)).collect();
    let out = calculate_rsi(&data, 5).unwrap();
    assert_eq!(out.len(), 12);
    assert_eq!(out[4].value, None);
    // Rising throughout: no losses, the reading pins to the top.
    assert_eq!(out[5].value, Some(100 * SCALE));
    let mut gapped = data.clone();
    gapped[2] = missing(2);
    let out2 = calculate_rsi(&gapped, 5).unwrap();
    assert_eq!(out2[5].value, None);
}

#[test]
fn test_series_strategies() {
    let data: Vec<ValuePoint> = (0..12).map(|i| point(i, (10 + i % 4) * SCALE)).collect();
    let z = ZScoreStrategy::new();
    assert_eq!(z.indicator_type(), IndicatorType::ZScore);
    assert_eq!(z.calculate(&data, 4).unwrap().len(), 12);
    let r = RSIStrategy::new();
    assert_eq!(r.indicator_type(), IndicatorType::RSI);
    assert_eq!(r.calculate(&data, 4).unwrap().len(), 12);
    let s = SMAStrategy::new();
    assert_eq!(s.indicator_type(), IndicatorType::SMAFast);
    let sma_out: Vec<TechnicalPoint> = s.calculate(&data, 4).unwrap();
    assert_eq!(sma_out.len(), 12);
}
