//! Catalog enumerations for markets and closed orders.

use vstd::prelude::*;

verus! {

/// Lifecycle state of a market in the catalog.
#[derive(Clone, Copy, Debug, PartialEq, Eq, Structural)]
pub enum MarketStatus {
    Open,
    Closed,
    Resolved,
}

/// The decided outcome of a market, if any.
#[derive(Clone, Copy, Debug, PartialEq, Eq, Structural)]
pub enum MarketOutcome {
    Yes,
    No,
    NotDecided,
}

/// Terminal state of an order that left the book.
#[derive(Clone, Copy, Debug, PartialEq, Eq, Structural)]
pub enum OrderStatus {
    PartiallyFilled,
    Filled,
    Cancelled,
}

} // verus!
