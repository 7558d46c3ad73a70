//! Market listing and delegation shapes of the public market routes.

use vstd::prelude::*;

use crate::models::status::MarketStatus;
use crate::types::{ShareType, Side};

verus! {

/// Filter for listing markets by lifecycle state.
pub struct MarketsByStatusQuery {
    pub status: MarketStatus,
}

/// Request to approve delegated spending, with the market tag still in
/// textual form.
pub struct ApproveRequest {
    pub market_id: String,
    pub side: Side,
    pub share: ShareType,
    pub amount: u64,
    pub decimals: u8,
}

/// Reply carrying the prepared transaction.
pub struct ApproveRes {
    pub tx_message: String,
    pub recent_blockhash: String,
}

} // verus!
