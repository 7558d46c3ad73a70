//! Core data types of the matching engine and their mathematical views.

use vstd::prelude::*;

use crate::decimal::{Decimal, ProductDecimal};

verus! {

/// Buy side or sell side of a book.
#[derive(Clone, Copy, Debug, PartialEq, Eq, Structural)]
pub enum Side {
    Bid,
    Ask,
}

/// The two outcomes of a binary market; selects which book receives an order.
#[derive(Clone, Copy, Debug, PartialEq, Eq, Structural)]
pub enum ShareType {
    Yes,
    No,
}

/// Opaque 128-bit order identifier, unique per admitted order.
#[derive(Clone, Copy, Debug, PartialEq, Eq, Structural, Hash)]
pub struct OrderId {
    pub value: u128,
}

/// A resting order: `qty` is the remaining open quantity.
pub struct OrderEntry {
    pub id: OrderId,
    pub user_address: String,
    pub market_id: u64,
    pub side: Side,
    pub price: Decimal,
    pub qty: Decimal,
}

/// Mathematical view of an `OrderEntry`.
#[verifier::ext_equal]
pub ghost struct EntryView {
    pub id: u128,
    pub user_address: Seq<char>,
    pub market_id: u64,
    pub side: Side,
    pub price: int,
    pub qty: int,
}

impl View for OrderEntry {
    type V = EntryView;

    open spec fn view(&self) -> EntryView {
        EntryView {
            id: self.id.value,
            user_address: self.user_address@,
            market_id: self.market_id,
            side: self.side,
            price: self.price@,
            qty: self.qty@,
        }
    }
}

/// One maker/taker match step.
pub struct Trade {
    pub market_id: u64,
    pub buyer_address: String,
    pub seller_address: String,
    pub price: Decimal,
    pub quantity: Decimal,
}

/// Mathematical view of a `Trade`.
#[verifier::ext_equal]
pub ghost struct TradeView {
    pub market_id: u64,
    pub buyer_address: Seq<char>,
    pub seller_address: Seq<char>,
    pub price: int,
    pub quantity: int,
}

impl View for Trade {
    type V = TradeView;

    open spec fn view(&self) -> TradeView {
        TradeView {
            market_id: self.market_id,
            buyer_address: self.buyer_address@,
            seller_address: self.seller_address@,
            price: self.price@,
            quantity: self.quantity@,
        }
    }
}

/// One aggregated depth row of a snapshot: `quantity` is the sum of open
/// quantity at `price`, `total` is exactly `price * quantity`.
pub struct SnapshotData {
    pub price: Decimal,
    pub quantity: Decimal,
    pub total: ProductDecimal,
}

/// Mathematical view of a `SnapshotData` row.
#[verifier::ext_equal]
pub ghost struct SnapshotDataView {
    pub price: int,
    pub quantity: int,
    pub total: int,
}

impl View for SnapshotData {
    type V = SnapshotDataView;

    open spec fn view(&self) -> SnapshotDataView {
        SnapshotDataView { price: self.price@, quantity: self.quantity@, total: self.total@ }
    }
}

/// Full depth snapshot of a market: `(bids, asks)` per outcome, each side in
/// descending price order.
pub struct MarketSnapshot {
    pub yes: (Vec<SnapshotData>, Vec<SnapshotData>),
    pub no: (Vec<SnapshotData>, Vec<SnapshotData>),
}

/// Mathematical view of a `MarketSnapshot`.
#[verifier::ext_equal]
pub ghost struct MarketSnapshotView {
    pub yes_bids: Seq<SnapshotDataView>,
    pub yes_asks: Seq<SnapshotDataView>,
    pub no_bids: Seq<SnapshotDataView>,
    pub no_asks: Seq<SnapshotDataView>,
}

impl View for MarketSnapshot {
    type V = MarketSnapshotView;

    open spec fn view(&self) -> MarketSnapshotView {
        MarketSnapshotView {
            yes_bids: self.yes.0@.map_values(|s: SnapshotData| s@),
            yes_asks: self.yes.1@.map_values(|s: SnapshotData| s@),
            no_bids: self.no.0@.map_values(|s: SnapshotData| s@),
            no_asks: self.no.1@.map_values(|s: SnapshotData| s@),
        }
    }
}

/// Projection of a live book entry owned by one account.
pub struct OpenOrder {
    pub id: OrderId,
    pub market_id: String,
    pub outcome: String,
    pub side: Side,
    pub price: Decimal,
    pub quantity: Decimal,
}

/// Mathematical view of an `OpenOrder`.
#[verifier::ext_equal]
pub ghost struct OpenOrderView {
    pub id: u128,
    pub market_id: Seq<char>,
    pub outcome: Seq<char>,
    pub side: Side,
    pub price: int,
    pub quantity: int,
}

impl View for OpenOrder {
    type V = OpenOrderView;

    open spec fn view(&self) -> OpenOrderView {
        OpenOrderView {
            id: self.id.value,
            market_id: self.market_id@,
            outcome: self.outcome@,
            side: self.side,
            price: self.price@,
            quantity: self.quantity@,
        }
    }
}

} // verus!
