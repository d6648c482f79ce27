//! Core market data model: bars, signals, trades, equity points, the cost
//! configuration, and the error surface shared by the engine, the metrics
//! calculator and the optimiser.
//!
//! All prices, money amounts and rates are fixed-point values scaled by
//! `crate::fixed::SCALE`.

use vstd::prelude::*;

verus! {

/// Largest representable price or volume: one billion whole units.
/// A bar whose prices exceed this cap is rejected the way a floating-point
/// engine rejects a non-finite price.
pub const MAX_PRICE: i64 = 10_000_000_000_000;

/// Largest accepted initial capital: one billion whole units.
pub const MAX_CAPITAL: i64 = 10_000_000_000_000;

/// One OHLCV record for a single time unit.
#[derive(Clone, Copy, PartialEq, Eq, Structural, Debug)]
pub struct Bar {
    pub ts: i64,
    pub open: i64,
    pub high: i64,
    pub low: i64,
    pub close: i64,
    pub volume: i64,
}

/// The structural invariant of a single bar: ordered prices, everything
/// non-negative and within the representable range.
pub open spec fn bar_valid(b: Bar) -> bool {
    &&& 0 <= b.low
    &&& b.low <= b.open <= b.high
    &&& b.low <= b.close <= b.high
    &&& b.high <= MAX_PRICE
    &&& 0 <= b.volume <= MAX_PRICE
}

/// The invariant of a bar series: every bar valid, timestamps strictly
/// increasing.
pub open spec fn bars_valid(s: Seq<Bar>) -> bool {
    &&& forall|i: int| 0 <= i < s.len() ==> bar_valid(#[trigger] s[i])
    &&& forall|i: int| 1 <= i < s.len() ==> s[i - 1].ts < #[trigger] s[i].ts
}

/// What a trade signal asks the engine to do.
#[derive(Clone, Copy, PartialEq, Eq, Structural, Debug)]
pub enum SignalType {
    Buy,
    Sell,
    Hold,
}

/// An advisory trade signal. The engine executes at the bar's close, not at
/// `price_hint`.
#[derive(Clone, Copy, PartialEq, Eq, Structural, Debug)]
pub struct Signal {
    pub ts: i64,
    pub kind: SignalType,
    pub price_hint: i64,
    pub strength: i64,
}

/// A closed trade, emitted when a long position is sold.
#[derive(Clone, Copy, PartialEq, Eq, Structural, Debug)]
pub struct Trade {
    pub id: u64,
    pub entry_ts: i64,
    pub exit_ts: i64,
    pub entry_price: i64,
    pub exit_price: i64,
    pub quantity: i64,
    pub pnl: i64,
    pub commission_total: i64,
}

/// One mark-to-market point of the equity curve.
#[derive(Clone, Copy, PartialEq, Eq, Structural, Debug)]
pub struct EquityPoint {
    pub ts: i64,
    pub value: i64,
}

/// Execution-cost model and starting capital. `commission` and `slippage`
/// are fixed-point rates (a value of `SCALE / 10` means ten percent).
#[derive(Clone, Copy, PartialEq, Eq, Structural, Debug)]
pub struct CostConfig {
    pub initial_capital: i64,
    pub commission: i64,
    pub slippage: i64,
    pub risk_free_rate: i64,
}

/// The preconditions on a cost configuration: positive capital within range,
/// commission and slippage in `[0, 10%]`, non-negative risk-free rate.
pub open spec fn cost_config_valid(c: CostConfig) -> bool {
    &&& 0 < c.initial_capital <= MAX_CAPITAL
    &&& 0 <= c.commission <= crate::fixed::SCALE / 10
    &&& 0 <= c.slippage <= crate::fixed::SCALE / 10
    &&& 0 <= c.risk_free_rate <= crate::fixed::SCALE
}

/// The first invariant a bar violates, if any; checks run in a fixed order
/// so the reported fault is deterministic.
#[derive(Clone, Copy, PartialEq, Eq, Structural, Debug)]
pub enum BarFault {
    HighBelowLow,
    OpenAboveHigh,
    CloseAboveHigh,
    OpenBelowLow,
    CloseBelowLow,
    NegativePrice,
    PriceOverflow,
    VolumeOutOfRange,
    TimestampOrder,
}

impl BarFault {
    /// Human-readable description of the violated invariant.
    pub fn describe(&self) -> (s: &'static str)
        ensures
            self is HighBelowLow ==> s@ == "high is below low"@,
            self is OpenAboveHigh ==> s@ == "open is above high"@,
            self is CloseAboveHigh ==> s@ == "close is above high"@,
            self is OpenBelowLow ==> s@ == "open is below low"@,
            self is CloseBelowLow ==> s@ == "close is below low"@,
            self is NegativePrice ==> s@ == "a price is negative"@,
            self is PriceOverflow ==> s@ == "a price exceeds the representable range"@,
            self is VolumeOutOfRange ==> s@ == "volume is negative or out of range"@,
            self is TimestampOrder ==> s@ == "timestamps are not strictly increasing"@,
    {
        match self {
            BarFault::HighBelowLow => "high is below low",
            BarFault::OpenAboveHigh => "open is above high",
            BarFault::CloseAboveHigh => "close is above high",
            BarFault::OpenBelowLow => "open is below low",
            BarFault::CloseBelowLow => "close is below low",
            BarFault::NegativePrice => "a price is negative",
            BarFault::PriceOverflow => "a price exceeds the representable range",
            BarFault::VolumeOutOfRange => "volume is negative or out of range",
            BarFault::TimestampOrder => "timestamps are not strictly increasing",
        }
    }
}

/// The flat error surface of the library.
#[derive(Clone, Copy, Debug)]
#[allow(inconsistent_fields)]
pub enum BacktestError {
    /// Fewer input records than the computation needs.
    InsufficientData { needed: usize, have: usize },
    /// A bar violates the series invariant; `index` names the first offender.
    InvalidBar { index: usize, reason: BarFault },
    /// A computed amount left the representable fixed-point range; the
    /// analogue of a non-finite floating-point value.
    NonFinite { field: &'static str, index: usize },
    /// A division was stopped by its guard.
    DivisionGuarded { operation: &'static str },
    /// A structural precondition on a parameter failed.
    ValidationFailed { field: &'static str, reason: &'static str },
    /// A deadline expired.
    Timeout { elapsed: u64 },
}

impl BacktestError {
    /// Short name of the error kind.
    pub fn kind_name(&self) -> (s: &'static str)
        ensures
            self is InsufficientData ==> s@ == "insufficient data"@,
            self is InvalidBar ==> s@ == "invalid bar"@,
            self is NonFinite ==> s@ == "value out of range"@,
            self is DivisionGuarded ==> s@ == "division guarded"@,
            self is ValidationFailed ==> s@ == "validation failed"@,
            self is Timeout ==> s@ == "timeout"@,
    {
        match self {
            BacktestError::InsufficientData { .. } => "insufficient data",
            BacktestError::InvalidBar { .. } => "invalid bar",
            BacktestError::NonFinite { .. } => "value out of range",
            BacktestError::DivisionGuarded { .. } => "division guarded",
            BacktestError::ValidationFailed { .. } => "validation failed",
            BacktestError::Timeout { .. } => "timeout",
        }
    }
}

} // verus!
