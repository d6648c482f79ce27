//! Rolling-window technical indicators. Every indicator takes a series of
//! fixed-point values, returns an output of the same length, and is pinned
//! to an exact integer specification with a defined warm-up region.

pub mod window;
pub mod moving_average;
pub mod rsi;
pub mod macd;
pub mod bollinger;
pub mod atr;
pub mod obv;
pub mod kdj;
pub mod cci;
pub mod ichimoku;
pub mod adx;
pub mod sar;
pub mod summary;

pub use moving_average::{sma, ema, wma, vwma, ma_crossover};
pub use rsi::{rsi, rsi_signals};
pub use macd::{macd, macd_signals};
pub use bollinger::{bollinger_bands, bollinger_signals};
pub use atr::{atr, atr_signals};
pub use obv::{obv, obv_signals};
pub use kdj::{kdj, kdj_signals};
pub use cci::{cci, cci_signals};
pub use ichimoku::{ichimoku, ichimoku_signals};
pub use adx::{adx, adx_signals};
pub use sar::{parabolic_sar, parabolic_sar_signals};
pub use summary::{calculate_all_indicators, combine_impulses, AllIndicators, IndicatorSeries};
