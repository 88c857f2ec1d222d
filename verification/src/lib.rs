//! An event-driven backtesting kernel over exact fixed-point arithmetic.
//!
//! Every price, quantity, amount and fraction is an `i64` count of millionths
//! (see [`fixed::SCALE`]); every instant is an `i64` count of seconds.
pub mod accounting;
pub mod broker;
pub mod data;
pub mod engine;
pub mod fee;
pub mod fixed;
pub mod ledger;
pub mod metrics;
pub mod order;
pub mod position;
pub mod realised;
pub mod reconcile;
pub mod replay;
pub mod request;
pub mod sandbox;
pub mod saturating;
pub mod slippage;
pub mod sma_crossover;
pub mod strategy;
pub mod tracker;
pub mod trade;
