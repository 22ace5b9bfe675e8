//! Aggregation of taker trades into candles.
//!
//! Trades are pushed one by one into an aggregator, which folds each into
//! the candle of the running period and hands the candle out when the
//! period's trigger is reached: a time span, a traded volume or a number of
//! trades. The engine reads a trade through the [`TakerTrade`] contract and
//! builds any candle that meets the [`ModularCandle`] contract.
//!
//! Prices, sizes and volumes are fixed-point integers with eight decimal
//! places: see [`SCALE`].

pub mod aggregator;
pub mod candle;
pub mod errors;
pub mod laws;
pub mod parse;
pub mod types;
pub mod utils;

pub use aggregator::{Aggregator, EngineState, GenericAggregator, Running, TriggerRule};
pub use candle::{Candle, ModularCandle};
pub use errors::AggregationError;
pub use types::{By, ResolvedTrade, TakerTrade, TimestampResolution, Trade, TradeView, SCALE};
