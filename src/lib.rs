//! Streaming market analytics: tick-to-bar aggregation, incremental
//! technical indicators, a signal engine with warm-up and hysteresis, and a
//! trailing-stop position tracker.
//!
//! Prices are fixed-point integers in the smallest unit the caller chooses
//! (for example 1e-8 of a quote currency); sizes and volumes are unsigned
//! integers in the smallest unit of the base currency. Bounded oscillators
//! (RSI, DI, DX, ADX, stochastic RSI) are reported in basis points, so 100%
//! is `HUNDRED_PERCENT`.

pub mod num;
pub mod ema;
pub mod smooth;
pub mod rsi;
pub mod atr;
pub mod macd;
pub mod candle;
pub mod position;
pub mod coin;
pub mod signal;
pub mod util;
pub mod pipeline;
pub mod obv;
pub mod bollinger_bands;
pub mod adx;
pub mod stoch_rsi;
pub mod stoch;
pub mod model;
pub mod order_book;
