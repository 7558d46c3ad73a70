//! Market metadata as fetched back from the object store.

use vstd::prelude::*;

verus! {

/// Descriptive metadata of a market, as displayed.
pub struct MarketMetadata {
    pub title: String,
    pub description: Option<String>,
    pub category: String,
    pub image_url: Option<String>,
}

} // verus!
