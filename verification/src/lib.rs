//! A quantitative backtesting and parameter-optimisation library.
//!
//! Prices, money amounts and ratios are fixed-point values: `i64` counts of
//! one ten-thousandth (`fixed::SCALE`), so every computation is exact
//! integer arithmetic with truncating division, and every public function
//! carries a contract that pins its result. Callers that work in floating
//! point convert at the boundary.
//!
//! The library is organised leaves first: the fixed-point primitives, the
//! market data model and its validators, the indicator catalogue, the
//! metrics calculator, the event-driven backtest engine, the strategy
//! resolvers, and the parallel grid-search optimiser. The `series` module
//! carries the quality grading, interpolation and rolling statistics for
//! day-indexed economic readings; `logging` holds the level-filtering core
//! of the structured logger.

pub mod fixed;
pub mod types;
pub mod validate;
pub mod indicators;
pub mod metrics;
pub mod engine;
pub mod strategy;
pub mod optimizer;
pub mod series;
pub mod logging;
