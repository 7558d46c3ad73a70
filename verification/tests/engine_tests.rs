use matching::decimal::Decimal;
use matching::engine::{handle_msg, EngineMsg, EngineReply};
use matching::facade::admit_order;
use matching::market::MarketBooks;
use matching::types::{OrderEntry, OrderId, ShareType, Side};

fn dec(units: i128) -> Decimal {
    Decimal::from_units(units)
}

fn entry(id: u128, owner: &str, side: Side, price_units: i128, qty_units: i128) -> OrderEntry {
    OrderEntry {
        id: OrderId { value: id },
        user_address: owner.to_string(),
        market_id: 1,
        side,
        price: dec(price_units),
        qty: dec(qty_units),
    }
}

#[test]
fn engine_routes_by_outcome_and_replies() {
    let mut books = MarketBooks::new();
    let reply = handle_msg(&mut books, EngineMsg::PlaceOrder {
        side: Side::Bid,
        share: ShareType::Yes,
        entry: entry(1, "A", Side::Bid, 600_000, 10_000_000),
    });
    match reply {
        EngineReply::Placed { order_id, trades, remaining_qty } => {
            assert_eq!(order_id, OrderId { value: 1 });
            assert!(trades.is_empty());
            assert_eq!(remaining_qty, dec(10_000_000));
        }
        _ => panic!("expected a placement reply"),
    }
    assert_eq!(books.yes.best_bid(), Some(dec(600_000)));
    assert_eq!(books.no.best_bid(), None);

    let reply = handle_msg(&mut books, EngineMsg::PlaceOrder {
        side: Side::Ask,
        share: ShareType::Yes,
        entry: entry(2, "B", Side::Ask, 550_000, 4_000_000),
    });
    match reply {
        EngineReply::Placed { trades, remaining_qty, .. } => {
            assert_eq!(trades.len(), 1);
            assert_eq!(trades[0].price, dec(550_000));
            assert_eq!(remaining_qty, dec(0));
        }
        _ => panic!("expected a placement reply"),
    }

    let reply = handle_msg(&mut books, EngineMsg::CloseOrder {
        side: Side::Bid,
        share: ShareType::Yes,
        price: dec(600_000),
        order_id: OrderId { value: 1 },
    });
    match reply {
        EngineReply::Closed { success, message } => {
            assert!(success);
            assert_eq!(message, "removed");
        }
        _ => panic!("expected a cancel reply"),
    }

    let reply = handle_msg(&mut books, EngineMsg::Snapshot);
    match reply {
        EngineReply::Depth { snapshot } => {
            assert!(snapshot.yes.0.is_empty());
            assert!(snapshot.yes.1.is_empty());
        }
        _ => panic!("expected a depth reply"),
    }
}

#[test]
fn engine_reports_missing_cancel_targets() {
    let mut books = MarketBooks::new();
    handle_msg(&mut books, EngineMsg::PlaceOrder {
        side: Side::Bid,
        share: ShareType::No,
        entry: entry(1, "A", Side::Bid, 300_000, 1_000_000),
    });
    let reply = handle_msg(&mut books, EngineMsg::CloseOrder {
        side: Side::Bid,
        share: ShareType::No,
        price: dec(300_000),
        order_id: OrderId { value: 9 },
    });
    match reply {
        EngineReply::Closed { success, message } => {
            assert!(!success);
            assert_eq!(message, "not-found");
        }
        _ => panic!("expected a cancel reply"),
    }
    let reply = handle_msg(&mut books, EngineMsg::CloseOrder {
        side: Side::Ask,
        share: ShareType::No,
        price: dec(300_000),
        order_id: OrderId { value: 1 },
    });
    match reply {
        EngineReply::Closed { success, message } => {
            assert!(!success);
            assert_eq!(message, "no-such-price");
        }
        _ => panic!("expected a cancel reply"),
    }
}

#[test]
fn engine_lists_open_orders() {
    let mut books = MarketBooks::new();
    handle_msg(&mut books, EngineMsg::PlaceOrder {
        side: Side::Bid,
        share: ShareType::Yes,
        entry: entry(1, "alice", Side::Bid, 600_000, 1_000_000),
    });
    let reply = handle_msg(&mut books, EngineMsg::FindOpenOrders {
        user_address: "alice".to_string(),
        market_id: "1".to_string(),
    });
    match reply {
        EngineReply::OpenOrders { orders } => {
            assert_eq!(orders.len(), 1);
            assert_eq!(orders[0].id, OrderId { value: 1 });
            assert_eq!(orders[0].outcome, "Yes");
            assert_eq!(orders[0].side, Side::Bid);
            assert_eq!(orders[0].price, dec(600_000));
            assert_eq!(orders[0].quantity, dec(1_000_000));
        }
        _ => panic!("expected an open-order reply"),
    }
}

#[test]
fn admission_assigns_fresh_ids() {
    let req = matching::facade::validate_place("alice", "1", "bid", "yes", "0.6", "2").unwrap();
    let a = admit_order(&req);
    let b = admit_order(&req);
    assert_eq!(a.user_address, "alice");
    assert_eq!(a.market_id, 1);
    assert_eq!(a.side, Side::Bid);
    assert_eq!(a.price, dec(600_000));
    assert_eq!(a.qty, dec(2_000_000));
    // v4 identifiers collide only with negligible probability
    assert_ne!(a.id, b.id);
}
