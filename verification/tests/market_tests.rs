use matching::decimal::Decimal;
use matching::market::MarketBooks;
use matching::types::{MarketSnapshot, OrderEntry, OrderId, Side};

fn dec(units: i128) -> Decimal {
    Decimal::from_units(units)
}

fn entry(id: u128, owner: &str, side: Side, price_units: i128, qty_units: i128) -> OrderEntry {
    OrderEntry {
        id: OrderId { value: id },
        user_address: owner.to_string(),
        market_id: 1,
        side,
        price: dec(price_units),
        qty: dec(qty_units),
    }
}

fn snapshot_rows(side: &Vec<matching::types::SnapshotData>) -> Vec<(i128, i128, i128)> {
    side.iter().map(|s| (s.price.units(), s.quantity.units(), s.total.units())).collect()
}

fn snapshots_equal(a: &MarketSnapshot, b: &MarketSnapshot) -> bool {
    snapshot_rows(&a.yes.0) == snapshot_rows(&b.yes.0)
        && snapshot_rows(&a.yes.1) == snapshot_rows(&b.yes.1)
        && snapshot_rows(&a.no.0) == snapshot_rows(&b.no.0)
        && snapshot_rows(&a.no.1) == snapshot_rows(&b.no.1)
}

#[test]
fn outcome_books_are_independent() {
    let mut market = MarketBooks::new();
    let (_, trades_a, rem_a) = market.yes.place_order(entry(1, "A", Side::Bid, 600_000, 5_000_000), Side::Bid);
    let (_, trades_b, rem_b) = market.no.place_order(entry(2, "B", Side::Ask, 600_000, 5_000_000), Side::Ask);
    assert!(trades_a.is_empty());
    assert!(trades_b.is_empty());
    assert_eq!(rem_a, dec(5_000_000));
    assert_eq!(rem_b, dec(5_000_000));
    assert_eq!(market.yes.best_bid(), Some(dec(600_000)));
    assert_eq!(market.no.best_ask(), Some(dec(600_000)));
    assert_eq!(market.yes.best_ask(), None);
    assert_eq!(market.no.best_bid(), None);
}

#[test]
fn snapshot_aggregates_and_orders_descending() {
    let mut market = MarketBooks::new();
    market.yes.place_order(entry(1, "A", Side::Bid, 400_000, 1_000_000), Side::Bid);
    market.yes.place_order(entry(2, "B", Side::Bid, 600_000, 2_000_000), Side::Bid);
    market.yes.place_order(entry(3, "C", Side::Bid, 600_000, 3_000_000), Side::Bid);
    market.yes.place_order(entry(4, "D", Side::Ask, 700_000, 4_000_000), Side::Ask);
    market.yes.place_order(entry(5, "E", Side::Ask, 800_000, 1_000_000), Side::Ask);

    let snap = market.snapshot();
    // bids: best (highest) first; 0.60 holds 2 + 3 = 5 shares,
    // total 0.60 * 5 = 3 (totals carry twelve fractional digits)
    assert_eq!(snapshot_rows(&snap.yes.0), vec![
        (600_000, 5_000_000, 3_000_000_000_000),
        (400_000, 1_000_000, 400_000_000_000),
    ]);
    // asks are also reported highest first
    assert_eq!(snapshot_rows(&snap.yes.1), vec![
        (800_000, 1_000_000, 800_000_000_000),
        (700_000, 4_000_000, 2_800_000_000_000),
    ]);
    assert!(snap.no.0.is_empty());
    assert!(snap.no.1.is_empty());
}

#[test]
fn snapshot_is_pure() {
    let mut market = MarketBooks::new();
    market.yes.place_order(entry(1, "A", Side::Bid, 550_000, 2_000_000), Side::Bid);
    market.no.place_order(entry(2, "B", Side::Ask, 450_000, 3_000_000), Side::Ask);
    let first = market.snapshot();
    let second = market.snapshot();
    assert!(snapshots_equal(&first, &second));
}

#[test]
fn find_open_orders_filters_by_owner() {
    let mut market = MarketBooks::new();
    market.yes.place_order(entry(1, "alice", Side::Bid, 600_000, 1_000_000), Side::Bid);
    market.yes.place_order(entry(2, "bob", Side::Bid, 650_000, 2_000_000), Side::Bid);
    market.yes.place_order(entry(3, "alice", Side::Ask, 700_000, 3_000_000), Side::Ask);
    market.no.place_order(entry(4, "alice", Side::Ask, 300_000, 4_000_000), Side::Ask);

    let owner = "alice".to_string();
    let tag = "1".to_string();
    let open = market.find_open_orders(&owner, &tag);
    assert_eq!(open.len(), 3);
    let mut ids: Vec<u128> = open.iter().map(|o| o.id.value).collect();
    ids.sort();
    assert_eq!(ids, vec![1, 3, 4]);
    for o in open.iter() {
        assert_eq!(o.market_id, "1");
    }
    let yes_count = open.iter().filter(|o| o.outcome == "Yes").count();
    let no_count = open.iter().filter(|o| o.outcome == "No").count();
    assert_eq!(yes_count, 2);
    assert_eq!(no_count, 1);

    let owner = "carol".to_string();
    let open = market.find_open_orders(&owner, &tag);
    assert!(open.is_empty());
}

#[test]
fn book_invariants_after_mixed_operations() {
    // after a battery of placements and cancels: no empty level, no
    // zero-quantity entry, and best bid strictly below best ask
    let mut market = MarketBooks::new();
    market.yes.place_order(entry(1, "A", Side::Bid, 500_000, 2_000_000), Side::Bid);
    market.yes.place_order(entry(2, "B", Side::Bid, 550_000, 3_000_000), Side::Bid);
    market.yes.place_order(entry(3, "C", Side::Ask, 540_000, 1_000_000), Side::Ask);
    market.yes.place_order(entry(4, "D", Side::Ask, 600_000, 2_000_000), Side::Ask);
    market.yes.cancel_order(Side::Bid, dec(500_000), OrderId { value: 1 });
    market.yes.place_order(entry(5, "E", Side::Ask, 520_000, 9_000_000), Side::Ask);

    for level in market.yes.bids.iter().chain(market.yes.asks.iter()) {
        assert!(!level.orders.is_empty());
        for o in level.orders.iter() {
            assert!(o.qty.units() > 0);
        }
    }
    if let (Some(bb), Some(ba)) = (market.yes.best_bid(), market.yes.best_ask()) {
        assert!(bb.units() < ba.units());
    }
}

#[test]
fn snapshot_total_is_exact() {
    // 0.333333 * 0.5 = 0.1666665, held exactly
    let mut market = MarketBooks::new();
    market.yes.place_order(entry(1, "A", Side::Bid, 333_333, 500_000), Side::Bid);
    let snap = market.snapshot();
    assert_eq!(snapshot_rows(&snap.yes.0), vec![(333_333, 500_000, 166_666_500_000)]);
}
