//! Event-driven backtesting engine for directional trading strategies on
//! OHLC bar data.
//!
//! All quantities are fixed-point integers: prices in ticks, sizes in whole
//! units, rates and ratios scaled by [`engine::num::RATE_SCALE`] (parts per
//! million), money in tick-units.  Every stage of the pipeline is specified
//! by a mathematical spec function and verified against it.

pub mod engine;
