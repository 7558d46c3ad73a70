//! The market actor's decision core.
//!
//! An actor owns one `MarketBooks` and consumes commands one at a time from
//! its inbox; because it is the sole owner, the book needs no locking.  The
//! channel loop itself cannot live here, but everything it decides is this
//! one step function, which is verified: routing by outcome, the mutation
//! of the books, and the reply for every command.

use vstd::prelude::*;

use crate::book::{book_wf, cancel_levels_spec, find_entry, find_level, place_spec, trades_qty_sum};
use crate::decimal::Decimal;
use crate::market::{market_wf, open_orders_spec, snapshot_spec, MarketBooks};
use crate::types::{MarketSnapshot, OpenOrder, OrderEntry, OrderId, ShareType, Side, Trade};

verus! {

/// One command for a market actor, stripped of its reply channel.
pub enum EngineMsg {
    PlaceOrder { side: Side, share: ShareType, entry: OrderEntry },
    CloseOrder { side: Side, share: ShareType, price: Decimal, order_id: OrderId },
    Snapshot,
    FindOpenOrders { user_address: String, market_id: String },
}

/// The reply the actor writes on the command's reply channel.
pub enum EngineReply {
    Placed { order_id: OrderId, trades: Vec<Trade>, remaining_qty: Decimal },
    Closed { success: bool, message: String },
    Depth { snapshot: MarketSnapshot },
    OpenOrders { orders: Vec<OpenOrder> },
}

/// A command the facade is allowed to send: placements carry a positive
/// quantity and a positive price (the facade validates before sending).
pub open spec fn msg_valid(msg: EngineMsg) -> bool {
    match msg {
        EngineMsg::PlaceOrder { entry, .. } => entry@.qty > 0 && entry@.price > 0,
        _ => true,
    }
}

/// Process one command against the books and produce its reply.
///
/// Commands take effect strictly in the order they are handled; each call
/// mutates the books exactly as the corresponding book operation's
/// specification says, and queries leave them unchanged.
pub fn handle_msg(books: &mut MarketBooks, msg: EngineMsg) -> (reply: EngineReply)
    requires
        market_wf(old(books)@),
        msg_valid(msg),
    ensures
        market_wf(final(books)@),
        match msg {
            EngineMsg::PlaceOrder { side, share, entry } => {
                let target = match share {
                    ShareType::Yes => old(books)@.yes,
                    ShareType::No => old(books)@.no,
                };
                let (book, trades, remaining) = place_spec(target, entry@, side);
                &&& match share {
                    ShareType::Yes => final(books)@.yes == book && final(books)@.no == old(
                        books,
                    )@.no,
                    ShareType::No => final(books)@.no == book && final(books)@.yes == old(
                        books,
                    )@.yes,
                }
                &&& reply matches EngineReply::Placed { order_id, trades: ts, remaining_qty }
                    && order_id == entry.id && ts@.map_values(|t: Trade| t@) == trades
                    && remaining_qty@ == remaining && trades_qty_sum(trades) + remaining
                    == entry@.qty
            },
            EngineMsg::CloseOrder { side, share, price, order_id } => {
                let target = match share {
                    ShareType::Yes => old(books)@.yes,
                    ShareType::No => old(books)@.no,
                };
                let levels = match side {
                    Side::Bid => target.bids,
                    Side::Ask => target.asks,
                };
                let li = find_level(levels, price@);
                &&& match share {
                    ShareType::Yes => final(books)@.no == old(books)@.no && match side {
                        Side::Bid => final(books)@.yes.bids == cancel_levels_spec(
                            levels,
                            price@,
                            order_id.value,
                        ) && final(books)@.yes.asks == target.asks,
                        Side::Ask => final(books)@.yes.asks == cancel_levels_spec(
                            levels,
                            price@,
                            order_id.value,
                        ) && final(books)@.yes.bids == target.bids,
                    },
                    ShareType::No => final(books)@.yes == old(books)@.yes && match side {
                        Side::Bid => final(books)@.no.bids == cancel_levels_spec(
                            levels,
                            price@,
                            order_id.value,
                        ) && final(books)@.no.asks == target.asks,
                        Side::Ask => final(books)@.no.asks == cancel_levels_spec(
                            levels,
                            price@,
                            order_id.value,
                        ) && final(books)@.no.bids == target.bids,
                    },
                }
                &&& reply matches EngineReply::Closed { success, message } && if li < 0 {
                    !success && message@ == "no-such-price"@
                } else if find_entry(levels[li].queue, order_id.value) < 0 {
                    !success && message@ == "not-found"@
                } else {
                    success && message@ == "removed"@
                }
            },
            EngineMsg::Snapshot => {
                &&& final(books)@ == old(books)@
                &&& reply matches EngineReply::Depth { snapshot } && snapshot@ == snapshot_spec(
                    old(books)@,
                )
            },
            EngineMsg::FindOpenOrders { user_address, market_id } => {
                &&& final(books)@ == old(books)@
                &&& reply matches EngineReply::OpenOrders { orders } && orders@.map_values(
                    |o: OpenOrder| o@,
                ) == open_orders_spec(old(books)@, user_address@, market_id@)
            },
        },
{
    match msg {
        EngineMsg::PlaceOrder { side, share, entry } => {
            let (order_id, trades, remaining_qty) = match share {
                ShareType::Yes => books.yes.place_order(entry, side),
                ShareType::No => books.no.place_order(entry, side),
            };
            EngineReply::Placed { order_id, trades, remaining_qty }
        },
        EngineMsg::CloseOrder { side, share, price, order_id } => {
            let (success, message) = match share {
                ShareType::Yes => books.yes.cancel_order(side, price, order_id),
                ShareType::No => books.no.cancel_order(side, price, order_id),
            };
            EngineReply::Closed { success, message }
        },
        EngineMsg::Snapshot => {
            let snapshot = books.snapshot();
            EngineReply::Depth { snapshot }
        },
        EngineMsg::FindOpenOrders { user_address, market_id } => {
            let orders = books.find_open_orders(&user_address, &market_id);
            EngineReply::OpenOrders { orders }
        },
    }
}

} // verus!
