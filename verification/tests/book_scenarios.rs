use matching::book::OrderBook;
use matching::decimal::Decimal;
use matching::types::{OrderEntry, OrderId, Side};

fn dec(units: i128) -> Decimal {
    Decimal::from_units(units)
}

fn entry(id: u128, owner: &str, side: Side, price_units: i128, qty_units: i128) -> OrderEntry {
    OrderEntry {
        id: OrderId { value: id },
        user_address: owner.to_string(),
        market_id: 1,
        side,
        price: dec(price_units),
        qty: dec(qty_units),
    }
}

#[test]
fn rest_then_cross() {
    let mut book = OrderBook::new();
    let (id_a, trades_a, rem_a) = book.place_order(entry(1, "A", Side::Bid, 600_000, 10_000_000), Side::Bid);
    assert_eq!(id_a, OrderId { value: 1 });
    assert!(trades_a.is_empty());
    assert_eq!(rem_a, dec(10_000_000));

    let (_, trades_b, rem_b) = book.place_order(entry(2, "B", Side::Ask, 550_000, 4_000_000), Side::Ask);
    assert_eq!(trades_b.len(), 1);
    assert_eq!(trades_b[0].buyer_address, "A");
    assert_eq!(trades_b[0].seller_address, "B");
    assert_eq!(trades_b[0].price, dec(550_000));
    assert_eq!(trades_b[0].quantity, dec(4_000_000));
    assert_eq!(rem_b, dec(0));

    assert_eq!(book.bids.len(), 1);
    assert_eq!(book.bids[0].price, dec(600_000));
    assert_eq!(book.bids[0].orders.len(), 1);
    assert_eq!(book.bids[0].orders[0].qty, dec(6_000_000));
    assert!(book.asks.is_empty());
}

#[test]
fn multi_level_sweep() {
    let mut book = OrderBook::new();
    book.place_order(entry(1, "M1", Side::Ask, 500_000, 3_000_000), Side::Ask);
    book.place_order(entry(2, "M2", Side::Ask, 550_000, 2_000_000), Side::Ask);
    book.place_order(entry(3, "M3", Side::Ask, 550_000, 5_000_000), Side::Ask);

    let (_, trades, rem) = book.place_order(entry(4, "T", Side::Bid, 600_000, 8_000_000), Side::Bid);
    assert_eq!(rem, dec(0));
    assert_eq!(trades.len(), 3);
    assert_eq!(trades[0].seller_address, "M1");
    assert_eq!(trades[0].quantity, dec(3_000_000));
    assert_eq!(trades[0].price, dec(600_000));
    assert_eq!(trades[1].seller_address, "M2");
    assert_eq!(trades[1].quantity, dec(2_000_000));
    assert_eq!(trades[1].price, dec(600_000));
    assert_eq!(trades[2].seller_address, "M3");
    assert_eq!(trades[2].quantity, dec(3_000_000));
    assert_eq!(trades[2].price, dec(600_000));

    assert_eq!(book.asks.len(), 1);
    assert_eq!(book.asks[0].price, dec(550_000));
    assert_eq!(book.asks[0].orders.len(), 1);
    assert_eq!(book.asks[0].orders[0].user_address, "M3");
    assert_eq!(book.asks[0].orders[0].qty, dec(2_000_000));
    assert!(book.bids.is_empty());
}

#[test]
fn partial_fill_becomes_resting() {
    let mut book = OrderBook::new();
    book.place_order(entry(1, "M", Side::Ask, 500_000, 2_000_000), Side::Ask);

    let (_, trades, rem) = book.place_order(entry(2, "T", Side::Bid, 550_000, 5_000_000), Side::Bid);
    assert_eq!(trades.len(), 1);
    assert_eq!(trades[0].buyer_address, "T");
    assert_eq!(trades[0].seller_address, "M");
    assert_eq!(trades[0].price, dec(550_000));
    assert_eq!(trades[0].quantity, dec(2_000_000));
    assert_eq!(rem, dec(3_000_000));

    assert!(book.asks.is_empty());
    assert_eq!(book.bids.len(), 1);
    assert_eq!(book.bids[0].price, dec(550_000));
    assert_eq!(book.bids[0].orders[0].user_address, "T");
    assert_eq!(book.bids[0].orders[0].qty, dec(3_000_000));
}

#[test]
fn no_cross_pure_rest() {
    let mut book = OrderBook::new();
    let (_, trades_a, rem_a) = book.place_order(entry(1, "A", Side::Ask, 700_000, 10_000_000), Side::Ask);
    assert!(trades_a.is_empty());
    assert_eq!(rem_a, dec(10_000_000));

    let (_, trades_b, rem_b) = book.place_order(entry(2, "B", Side::Bid, 600_000, 10_000_000), Side::Bid);
    assert!(trades_b.is_empty());
    assert_eq!(rem_b, dec(10_000_000));

    assert_eq!(book.best_bid(), Some(dec(600_000)));
    assert_eq!(book.best_ask(), Some(dec(700_000)));
}

#[test]
fn cancel_found_and_not_found() {
    let mut book = OrderBook::new();
    book.place_order(entry(1, "A", Side::Ask, 700_000, 10_000_000), Side::Ask);
    book.place_order(entry(2, "B", Side::Bid, 600_000, 10_000_000), Side::Bid);

    let (ok, reason) = book.cancel_order(Side::Bid, dec(600_000), OrderId { value: 2 });
    assert!(ok);
    assert_eq!(reason, "removed");

    // the cancel emptied the level and removed it, so a repeat no longer
    // finds a price level at 0.60
    let (ok, reason) = book.cancel_order(Side::Bid, dec(600_000), OrderId { value: 2 });
    assert!(!ok);
    assert_eq!(reason, "no-such-price");

    let (ok, reason) = book.cancel_order(Side::Ask, dec(650_000), OrderId { value: 99 });
    assert!(!ok);
    assert_eq!(reason, "no-such-price");
}

#[test]
fn cancel_wrong_id_at_live_level() {
    let mut book = OrderBook::new();
    book.place_order(entry(1, "A", Side::Bid, 600_000, 10_000_000), Side::Bid);
    let (ok, reason) = book.cancel_order(Side::Bid, dec(600_000), OrderId { value: 42 });
    assert!(!ok);
    assert_eq!(reason, "not-found");
}

#[test]
fn cancel_after_full_fill_not_found() {
    // two makers rest at the same price; the taker consumes the first
    // entirely, so its id is gone while the level survives
    let mut book = OrderBook::new();
    book.place_order(entry(1, "M1", Side::Ask, 500_000, 5_000_000), Side::Ask);
    book.place_order(entry(2, "M2", Side::Ask, 500_000, 5_000_000), Side::Ask);
    let (_, trades, rem) = book.place_order(entry(3, "T", Side::Bid, 500_000, 5_000_000), Side::Bid);
    assert_eq!(trades.len(), 1);
    assert_eq!(rem, dec(0));

    let (ok, reason) = book.cancel_order(Side::Ask, dec(500_000), OrderId { value: 1 });
    assert!(!ok);
    assert_eq!(reason, "not-found");
}

#[test]
fn fifo_within_price() {
    // earlier order at a price is fully filled before the later one trades
    let mut book = OrderBook::new();
    book.place_order(entry(1, "Early", Side::Ask, 500_000, 4_000_000), Side::Ask);
    book.place_order(entry(2, "Late", Side::Ask, 500_000, 4_000_000), Side::Ask);

    let (_, trades, _) = book.place_order(entry(3, "T", Side::Bid, 500_000, 6_000_000), Side::Bid);
    assert_eq!(trades.len(), 2);
    assert_eq!(trades[0].seller_address, "Early");
    assert_eq!(trades[0].quantity, dec(4_000_000));
    assert_eq!(trades[1].seller_address, "Late");
    assert_eq!(trades[1].quantity, dec(2_000_000));

    // the later order keeps its place at the head with the residual
    assert_eq!(book.asks[0].orders.len(), 1);
    assert_eq!(book.asks[0].orders[0].user_address, "Late");
    assert_eq!(book.asks[0].orders[0].qty, dec(2_000_000));
}

#[test]
fn quantity_conserved_across_levels() {
    let mut book = OrderBook::new();
    book.place_order(entry(1, "M1", Side::Bid, 400_000, 1_500_000), Side::Bid);
    book.place_order(entry(2, "M2", Side::Bid, 450_000, 2_500_000), Side::Bid);
    book.place_order(entry(3, "M3", Side::Bid, 500_000, 1_000_000), Side::Bid);

    let submitted: i128 = 9_000_000;
    let (_, trades, rem) = book.place_order(entry(4, "T", Side::Ask, 400_000, submitted), Side::Ask);
    let filled: i128 = trades.iter().map(|t| t.quantity.units()).sum();
    assert_eq!(filled + rem.units(), submitted);
    assert_eq!(trades.len(), 3);
    // every trade priced at the taker's limit
    for t in trades.iter() {
        assert_eq!(t.price, dec(400_000));
    }
    assert_eq!(rem, dec(4_000_000));
    // the residual rests as an ask; book is not crossed
    assert_eq!(book.best_ask(), Some(dec(400_000)));
    assert_eq!(book.best_bid(), None);
}

#[test]
fn round_trip_place_then_cancel() {
    let mut book = OrderBook::new();
    // residual placement: cancel succeeds
    let (id, _, rem) = book.place_order(entry(1, "A", Side::Bid, 600_000, 10_000_000), Side::Bid);
    assert!(rem.units() > 0);
    let (ok, reason) = book.cancel_order(Side::Bid, dec(600_000), id);
    assert!(ok);
    assert_eq!(reason, "removed");

    // fully filled placement: cancel finds nothing
    let mut book = OrderBook::new();
    book.place_order(entry(2, "M", Side::Ask, 500_000, 7_000_000), Side::Ask);
    let (id, trades, rem) = book.place_order(entry(3, "T", Side::Bid, 500_000, 7_000_000), Side::Bid);
    assert_eq!(trades.len(), 1);
    assert_eq!(rem, dec(0));
    let (ok, _) = book.cancel_order(Side::Bid, dec(500_000), id);
    assert!(!ok);
}
