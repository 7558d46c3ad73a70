//! Delegation request and reply shapes.

use vstd::prelude::*;

use crate::types::{ShareType, Side};

verus! {

/// Request to approve delegated spending for a market position.
pub struct ApproveRequest {
    pub market_id: u64,
    pub side: Side,
    pub share: ShareType,
    pub amount: u64,
    pub decimals: u8,
}

/// Reply carrying the prepared transaction.
pub struct ApproveRes {
    pub tx_message: String,
    pub recent_blockhash: String,
}

/// Request to check a delegation.
pub struct CheckRequest {
    pub collateral_mint: String,
    pub market_id: u64,
}

/// Reply to a delegation check.
pub struct CheckResponse {
    pub message: String,
}

} // verus!
