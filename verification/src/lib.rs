//! Order book and quoting engine of a market maker for one instrument.
//!
//! A feed of snapshots and updates keeps a two-sided book, checked for gaps
//! and divergence. Each change of the mid price enters a rolling window, from
//! which mean and volatility are estimated, and the engine quotes both sides
//! about an anchor price, skewed by its inventory. Prices, sizes and
//! parameters are fixed-point numbers with eight decimals.

pub mod checksum;
pub mod decimal;
pub mod engine;
pub mod estimator;
pub mod fixed;
pub mod inventory;
pub mod latency;
pub mod models;
pub mod orderbook;
pub mod quote;
pub mod side;
pub mod strategies;
pub mod strategy;
