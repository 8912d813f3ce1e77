//! A single-node trading engine's core: market data parsing, rolling
//! statistics, a passive order book, trading strategies, a risk manager, and
//! the decisions of the venue session and event loop. Prices are fixed-point
//! integers in units of `1 / PRICE_SCALE`.
use vstd::prelude::*;

pub mod aggregator;
pub mod arith;
pub mod binary;
pub mod config;
pub mod connection;
pub mod engine;
pub mod fix;
pub mod moving_average;
pub mod order_book;
pub mod order_formatter;
pub mod parser;
pub mod risk_management;
pub mod strategy;
pub mod text;
pub mod trend_following;

verus! {

/// Number of fixed-point units in one whole price unit.
pub const PRICE_SCALE: u64 = 10000;

} // verus!
