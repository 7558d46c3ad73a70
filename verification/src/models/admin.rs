//! Administrative request and reply shapes: market creation and resolution.

use vstd::prelude::*;

use crate::models::status::MarketOutcome;

verus! {

/// Descriptive metadata attached to a new market.
pub struct MarketMetadata {
    pub title: String,
    pub description: Option<String>,
    pub category: String,
    pub image_url: Option<String>,
}

/// Request to create a market.
pub struct CreateMarketRequest {
    pub metadata: MarketMetadata,
    pub collateral_mint: String,
    pub expiration_timestamp: i64,
}

/// Reply to a market creation.
pub struct CreateMarketResponse {
    pub market_id: u64,
    pub message: String,
}

/// Request to resolve a market to an outcome.
pub struct ResolveMarketRequest {
    pub market_id: String,
    pub outcome: MarketOutcome,
}

/// Reply to a market resolution.
pub struct ResolveMarketResponse {
    pub tx_message: String,
    pub message: String,
}

} // verus!
