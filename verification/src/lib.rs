//! Matching core of a binary prediction-market exchange.
//!
//! The library keeps one pair of limit-order books per market (one book for
//! YES outcome shares, one for NO), matches incoming orders against resting
//! liquidity under strict price-time priority, and exposes query operations
//! (depth snapshot, open-order listing) together with the pure parts of the
//! request facade: input validation and derivation of the settlement payload
//! that mirrors executed trades on chain.

pub mod book;
pub mod decimal;
pub mod engine;
pub mod facade;
pub mod ids;
pub mod market;
pub mod models;
pub mod settlement;
pub mod types;
