//! One side-pair limit order book with strict price-time priority.
//!
//! Each side of the book is a vector of price levels ordered best-first:
//! bids in descending price order, asks in ascending price order.  A level's
//! queue is a true FIFO: insertion appends at the tail, matching consumes
//! from the head.
//!
//! The behaviour of matching is pinned down by the recursive specification
//! [`match_levels`]; `place_order` and `cancel_order` are proved equal to
//! their specifications, and the book invariant [`book_wf`] (no empty level,
//! no zero-quantity entry, sorted sides, uncrossed book) is proved to be
//! preserved by every operation.

use vstd::prelude::*;

use crate::decimal::Decimal;
use crate::types::{EntryView, OrderEntry, OrderId, Side, Trade, TradeView};

verus! {

/// An ordered FIFO queue of resting orders at one price.
pub struct PriceLevel {
    pub price: Decimal,
    pub orders: Vec<OrderEntry>,
}

/// Mathematical view of a price level.
#[verifier::ext_equal]
pub ghost struct LevelView {
    pub price: int,
    pub queue: Seq<EntryView>,
}

impl View for PriceLevel {
    type V = LevelView;

    open spec fn view(&self) -> LevelView {
        LevelView { price: self.price@, queue: self.orders@.map_values(|e: OrderEntry| e@) }
    }
}

/// The two sides of one book, each ordered best price first.
pub struct OrderBook {
    pub bids: Vec<PriceLevel>,
    pub asks: Vec<PriceLevel>,
}

/// Mathematical view of an order book.
#[verifier::ext_equal]
pub ghost struct BookView {
    pub bids: Seq<LevelView>,
    pub asks: Seq<LevelView>,
}

impl View for OrderBook {
    type V = BookView;

    open spec fn view(&self) -> BookView {
        BookView { bids: levels_view(self.bids), asks: levels_view(self.asks) }
    }
}

/// View of a vector of price levels.
pub open spec fn levels_view(levels: Vec<PriceLevel>) -> Seq<LevelView> {
    levels@.map_values(|l: PriceLevel| l@)
}

/// The side a taker order on `side` matches against.
pub open spec fn opposite(side: Side) -> Side {
    match side {
        Side::Bid => Side::Ask,
        Side::Ask => Side::Bid,
    }
}

/// A resting entry is well formed for its level and side.
pub open spec fn entry_wf(e: EntryView, price: int, side: Side) -> bool {
    &&& e.price == price
    &&& e.qty > 0
    &&& e.side == side
}

/// A level is well formed: positive price, never empty, entries match it.
pub open spec fn level_wf(l: LevelView, side: Side) -> bool {
    &&& l.price > 0
    &&& l.queue.len() > 0
    &&& forall|i: int| 0 <= i < l.queue.len() ==> entry_wf(#[trigger] l.queue[i], l.price, side)
}

/// `p` is strictly better placed than `q` on `side` (best price first:
/// descending for bids, ascending for asks).
pub open spec fn price_before(side: Side, p: int, q: int) -> bool {
    match side {
        Side::Bid => p > q,
        Side::Ask => p < q,
    }
}

/// One side of a book is well formed: well-formed levels, strictly ordered
/// best first.
pub open spec fn half_wf(levels: Seq<LevelView>, side: Side) -> bool {
    &&& forall|i: int| 0 <= i < levels.len() ==> level_wf(#[trigger] levels[i], side)
    &&& forall|i: int, j: int|
        0 <= i < j < levels.len() ==> price_before(side, levels[i].price, levels[j].price)
}

/// The full book invariant: both sides well formed and not crossed.
pub open spec fn book_wf(b: BookView) -> bool {
    &&& half_wf(b.bids, Side::Bid)
    &&& half_wf(b.asks, Side::Ask)
    &&& (b.bids.len() > 0 && b.asks.len() > 0 ==> b.bids[0].price < b.asks[0].price)
}

/// A taker on `taker_side` with limit `taker_price` crosses a resting level
/// at `level_price` on the opposite side.
pub open spec fn crosses(taker_side: Side, taker_price: int, level_price: int) -> bool {
    match taker_side {
        Side::Bid => level_price <= taker_price,
        Side::Ask => level_price >= taker_price,
    }
}

/// The trade emitted when `taker` takes `take` units from resting `maker`:
/// execution price is the taker's limit price, the buyer/seller roles follow
/// the taker's side, and the market tag is the maker's.
pub open spec fn trade_of(taker: EntryView, maker: EntryView, take: int) -> TradeView {
    match taker.side {
        Side::Bid => TradeView {
            market_id: maker.market_id,
            buyer_address: taker.user_address,
            seller_address: maker.user_address,
            price: taker.price,
            quantity: take,
        },
        Side::Ask => TradeView {
            market_id: maker.market_id,
            buyer_address: maker.user_address,
            seller_address: taker.user_address,
            price: taker.price,
            quantity: take,
        },
    }
}

/// Result of matching a taker against one side of the book.
#[verifier::ext_equal]
pub ghost struct MatchOutcome {
    /// The opposite side after consumption.
    pub levels: Seq<LevelView>,
    /// Trades in execution order.
    pub trades: Seq<TradeView>,
    /// The taker quantity left unfilled.
    pub remaining: int,
}

/// Queue length of the best level, 0 for an empty side.
pub open spec fn first_queue_len(levels: Seq<LevelView>) -> int {
    if levels.len() > 0 {
        levels[0].queue.len() as int
    } else {
        0
    }
}

/// The matching algorithm: consume the best opposite level while the taker
/// still has quantity and the level crosses the taker's limit, taking from
/// the head of each level's queue (price-time priority).
pub open spec fn match_levels(levels: Seq<LevelView>, taker: EntryView, qty: int) -> MatchOutcome
    decreases levels.len(), first_queue_len(levels),
{
    if qty <= 0 || levels.len() == 0 || !crosses(taker.side, taker.price, levels[0].price) {
        MatchOutcome { levels, trades: Seq::empty(), remaining: qty }
    } else if levels[0].queue.len() == 0 {
        // never reached from a well-formed book; keeps the definition total
        match_levels(levels.drop_first(), taker, qty)
    } else {
        let maker = levels[0].queue[0];
        if qty < maker.qty {
            // the taker is exhausted by a partial fill of the head maker
            let reduced = EntryView { qty: maker.qty - qty, ..maker };
            let new_level = LevelView {
                price: levels[0].price,
                queue: levels[0].queue.update(0, reduced),
            };
            MatchOutcome {
                levels: levels.update(0, new_level),
                trades: seq![trade_of(taker, maker, qty)],
                remaining: 0,
            }
        } else {
            // the head maker is fully consumed
            let take = maker.qty;
            let shorter = levels[0].queue.drop_first();
            let rest_levels = if shorter.len() == 0 {
                levels.drop_first()
            } else {
                levels.update(0, LevelView { price: levels[0].price, queue: shorter })
            };
            let rest = match_levels(rest_levels, taker, qty - take);
            MatchOutcome {
                levels: rest.levels,
                trades: seq![trade_of(taker, maker, take)] + rest.trades,
                remaining: rest.remaining,
            }
        }
    }
}

/// Sum of the quantities of a sequence of trades.
pub open spec fn trades_qty_sum(trades: Seq<TradeView>) -> int
    decreases trades.len(),
{
    if trades.len() == 0 {
        0
    } else {
        trades[0].quantity + trades_qty_sum(trades.drop_first())
    }
}

/// `cur` is `orig` after zero or more partial fills: same order, with a
/// positive quantity no larger than it had.
pub open spec fn entry_reduced(orig: EntryView, cur: EntryView) -> bool {
    &&& cur == EntryView { qty: cur.qty, ..orig }
    &&& 0 < cur.qty <= orig.qty
}

/// `new` is `old` with `k` whole levels and then `d` whole queue entries
/// consumed from the front, the next entry possibly partially filled, and
/// everything behind untouched.  This is the shape price-time priority
/// leaves a book side in: an earlier resting order is always fully filled
/// before a later one contributes to a trade.
pub open spec fn consumed_in_order_at(
    old: Seq<LevelView>,
    new: Seq<LevelView>,
    k: int,
    d: int,
) -> bool {
    if new.len() == 0 {
        k == old.len() && d == 0
    } else {
        &&& 0 <= k < old.len()
        &&& new.len() == old.len() - k
        &&& forall|i: int| 1 <= i < new.len() ==> new[i] == old[k + i]
        &&& new[0].price == old[k].price
        &&& 0 <= d < old[k].queue.len()
        &&& new[0].queue.len() == old[k].queue.len() - d
        &&& forall|j: int| 1 <= j < new[0].queue.len() ==> new[0].queue[j] == old[k].queue[d + j]
        &&& entry_reduced(old[k].queue[d], new[0].queue[0])
    }
}

/// Some front prefix of `old` was consumed in order (see
/// [`consumed_in_order_at`]).
pub open spec fn consumed_in_order(old: Seq<LevelView>, new: Seq<LevelView>) -> bool {
    exists|k: int, d: int| consumed_in_order_at(old, new, k, d)
}

/// What one matching pass guarantees, proved by induction over
/// [`match_levels`]:
/// - the opposite side stays well formed;
/// - quantity is conserved: the trade quantities and the unfilled remainder
///   sum to the taker's quantity;
/// - every trade executes at the taker's limit price, with a positive
///   quantity no larger than the taker's quantity;
/// - if quantity remains, no remaining opposite level crosses the taker's
///   limit (the book cannot end up crossed);
/// - resting orders are consumed strictly in price-time priority order: an
///   earlier order at a price is fully filled before a later one at that
///   price trades at all.
pub proof fn lemma_match_levels(levels: Seq<LevelView>, taker: EntryView, qty: int)
    requires
        half_wf(levels, opposite(taker.side)),
        qty >= 0,
    ensures
        ({
            let m = match_levels(levels, taker, qty);
            &&& half_wf(m.levels, opposite(taker.side))
            &&& 0 <= m.remaining <= qty
            &&& trades_qty_sum(m.trades) + m.remaining == qty
            &&& forall|i: int|
                0 <= i < m.trades.len() ==> {
                    &&& (#[trigger] m.trades[i]).price == taker.price
                    &&& 0 < m.trades[i].quantity <= qty
                }
            &&& m.remaining > 0 ==> m.levels.len() == 0 || !crosses(
                taker.side,
                taker.price,
                m.levels[0].price,
            )
            &&& consumed_in_order(levels, m.levels)
        }),
    decreases levels.len(), first_queue_len(levels),
{
    let side = opposite(taker.side);
    let m = match_levels(levels, taker, qty);
    if qty <= 0 || levels.len() == 0 || !crosses(taker.side, taker.price, levels[0].price) {
        assert(m.trades =~= Seq::<TradeView>::empty());
        if levels.len() == 0 {
            assert(consumed_in_order_at(levels, m.levels, 0, 0));
        } else {
            assert(level_wf(levels[0], side));
            assert(consumed_in_order_at(levels, m.levels, 0, 0));
        }
    } else {
        assert(level_wf(levels[0], side));
        let maker = levels[0].queue[0];
        assert(entry_wf(maker, levels[0].price, side));
        if qty < maker.qty {
            let reduced = EntryView { qty: maker.qty - qty, ..maker };
            let new_level = LevelView {
                price: levels[0].price,
                queue: levels[0].queue.update(0, reduced),
            };
            assert(level_wf(new_level, side)) by {
                assert(forall|j: int|
                    0 <= j < new_level.queue.len() ==> entry_wf(
                        #[trigger] new_level.queue[j],
                        new_level.price,
                        side,
                    ));
            }
            assert(half_wf(m.levels, side));
            assert(m.trades.drop_first() =~= Seq::<TradeView>::empty());
            assert(trades_qty_sum(Seq::<TradeView>::empty()) == 0);
            assert(m.trades[0].quantity == qty);
            assert(trades_qty_sum(m.trades) == qty);
            assert(consumed_in_order_at(levels, m.levels, 0, 0));
        } else {
            let take = maker.qty;
            let shorter = levels[0].queue.drop_first();
            let rest_levels = if shorter.len() == 0 {
                levels.drop_first()
            } else {
                levels.update(0, LevelView { price: levels[0].price, queue: shorter })
            };
            assert(half_wf(rest_levels, side)) by {
                if shorter.len() == 0 {
                    assert(forall|i: int|
                        0 <= i < rest_levels.len() ==> #[trigger] rest_levels[i] == levels[i + 1]);
                } else {
                    let short_level = LevelView { price: levels[0].price, queue: shorter };
                    assert(forall|j: int|
                        0 <= j < shorter.len() ==> #[trigger] shorter[j] == levels[0].queue[j + 1]);
                    assert(level_wf(short_level, side));
                }
            }
            let rest = match_levels(rest_levels, taker, qty - take);
            lemma_match_levels(rest_levels, taker, qty - take);
            assert(m.trades[0] == trade_of(taker, maker, take));
            assert(m.trades.drop_first() =~= rest.trades);
            assert(trades_qty_sum(m.trades) == take + trades_qty_sum(rest.trades));
            assert(forall|i: int|
                0 <= i < m.trades.len() ==> {
                    &&& (#[trigger] m.trades[i]).price == taker.price
                    &&& 0 < m.trades[i].quantity <= qty
                }) by {
                assert(forall|i: int|
                    1 <= i < m.trades.len() ==> m.trades[i] == #[trigger] rest.trades[i - 1]);
            }
            let (kr, dr) = choose|kr: int, dr: int| consumed_in_order_at(rest_levels, rest.levels, kr, dr);
            if m.levels.len() == 0 {
                assert(consumed_in_order_at(levels, m.levels, levels.len() as int, 0));
            } else if shorter.len() == 0 {
                assert(forall|i: int|
                    0 <= i < rest_levels.len() ==> #[trigger] rest_levels[i] == levels[i + 1]);
                assert(consumed_in_order_at(levels, m.levels, kr + 1, dr));
            } else if kr == 0 {
                assert(forall|j: int|
                    0 <= j < shorter.len() ==> #[trigger] shorter[j] == levels[0].queue[j + 1]);
                assert(consumed_in_order_at(levels, m.levels, 0, dr + 1));
            } else {
                assert(consumed_in_order_at(levels, m.levels, kr, dr));
            }
        }
    }
}

/// Where a residual entry rests: appended to the tail of the queue at its
/// price, or in a fresh level at the position its price orders it to
/// (best first).
pub open spec fn insert_entry(levels: Seq<LevelView>, e: EntryView, side: Side) -> Seq<LevelView>
    decreases levels.len(),
{
    if levels.len() == 0 {
        seq![LevelView { price: e.price, queue: seq![e] }]
    } else if e.price == levels[0].price {
        levels.update(0, LevelView { price: levels[0].price, queue: levels[0].queue.push(e) })
    } else if price_before(side, e.price, levels[0].price) {
        seq![LevelView { price: e.price, queue: seq![e] }] + levels
    } else {
        seq![levels[0]] + insert_entry(levels.drop_first(), e, side)
    }
}

/// Inserting a well-formed entry keeps the side well formed, and the best
/// price afterwards is the better of the old best and the entry's price.
pub proof fn lemma_insert_entry(levels: Seq<LevelView>, e: EntryView, side: Side)
    requires
        half_wf(levels, side),
        e.qty > 0,
        e.price > 0,
        e.side == side,
    ensures
        ({
            let r = insert_entry(levels, e, side);
            &&& half_wf(r, side)
            &&& r.len() > 0
            &&& r[0].price == if levels.len() == 0 || price_before(side, e.price, levels[0].price) {
                e.price
            } else {
                levels[0].price
            }
        }),
    decreases levels.len(),
{
    let r = insert_entry(levels, e, side);
    if levels.len() == 0 {
        assert(level_wf(r[0], side));
    } else if e.price == levels[0].price {
        let new_level = LevelView { price: levels[0].price, queue: levels[0].queue.push(e) };
        assert(level_wf(levels[0], side));
        assert(level_wf(new_level, side)) by {
            assert(forall|j: int|
                0 <= j < new_level.queue.len() ==> entry_wf(
                    #[trigger] new_level.queue[j],
                    new_level.price,
                    side,
                ));
        }
    } else if price_before(side, e.price, levels[0].price) {
        assert(level_wf(r[0], side));
        assert(forall|i: int| 1 <= i < r.len() ==> r[i] == levels[i - 1]);
        assert(forall|j: int|
            1 <= j < r.len() ==> price_before(side, r[0].price, #[trigger] r[j].price)) by {
            assert(forall|j: int|
                2 <= j < r.len() ==> price_before(
                    side,
                    levels[0].price,
                    #[trigger] levels[j - 1].price,
                ));
        }
        assert(forall|i: int, j: int|
            0 <= i < j < r.len() ==> price_before(side, r[i].price, r[j].price));
    } else {
        let rest = levels.drop_first();
        assert(half_wf(rest, side)) by {
            assert(forall|i: int| 0 <= i < rest.len() ==> #[trigger] rest[i] == levels[i + 1]);
        }
        lemma_insert_entry(rest, e, side);
        let rr = insert_entry(rest, e, side);
        assert(price_before(side, levels[0].price, e.price));
        assert(r[0] == levels[0]);
        assert(forall|i: int| 1 <= i < r.len() ==> r[i] == rr[i - 1]);
        assert(price_before(side, r[0].price, rr[0].price));
        assert(forall|i: int, j: int|
            0 <= i < j < r.len() ==> price_before(side, r[i].price, r[j].price)) by {
            assert(forall|j: int|
                1 <= j < r.len() ==> price_before(side, r[0].price, #[trigger] r[j].price)) by {
                assert(forall|j: int|
                    1 <= j < rr.len() ==> price_before(side, rr[0].price, #[trigger] rr[j].price));
            }
        }
    }
}

/// Append a residual entry to its side of the book (see [`insert_entry`]).
fn rest_entry(levels: &mut Vec<PriceLevel>, e: OrderEntry)
    ensures
        levels_view(*final(levels)) == insert_entry(levels_view(*old(levels)), e@, e@.side),
    decreases levels@.len(),
{
    let ghost orig = levels_view(*levels);
    let ghost ev = e@;
    if levels.len() == 0 {
        let price = e.price;
        let mut orders: Vec<OrderEntry> = Vec::new();
        orders.push(e);
        levels.push(PriceLevel { price, orders });
        proof {
            assert(levels_view(*levels) =~~= insert_entry(orig, ev, ev.side));
        }
    } else {
        let p0 = levels[0].price;
        if p0 == e.price {
            let mut lvl = levels.remove(0);
            lvl.orders.push(e);
            levels.insert(0, lvl);
            proof {
                assert(lvl@.queue =~= orig[0].queue.push(ev));
                assert(levels_view(*levels) =~= insert_entry(orig, ev, ev.side));
            }
        } else {
            let before = match e.side {
                Side::Bid => e.price.gt(&p0),
                Side::Ask => e.price.lt(&p0),
            };
            if before {
                let price = e.price;
                let mut orders: Vec<OrderEntry> = Vec::new();
                orders.push(e);
                levels.insert(0, PriceLevel { price, orders });
                proof {
                    assert(levels_view(*levels) =~~= insert_entry(orig, ev, ev.side));
                }
            } else {
                let head = levels.remove(0);
                proof {
                    assert(levels_view(*levels) =~= orig.drop_first());
                }
                rest_entry(levels, e);
                levels.insert(0, head);
                proof {
                    assert(levels_view(*levels) =~= insert_entry(orig, ev, ev.side));
                }
            }
        }
    }
}

/// Build the trade for one match step (see [`trade_of`]).
fn make_trade(taker: &OrderEntry, maker: &OrderEntry, take: Decimal) -> (t: Trade)
    ensures
        t@ == trade_of(taker@, maker@, take@),
{
    match taker.side {
        Side::Bid => Trade {
            market_id: maker.market_id,
            buyer_address: taker.user_address.clone(),
            seller_address: maker.user_address.clone(),
            price: taker.price,
            quantity: take,
        },
        Side::Ask => Trade {
            market_id: maker.market_id,
            buyer_address: maker.user_address.clone(),
            seller_address: taker.user_address.clone(),
            price: taker.price,
            quantity: take,
        },
    }
}

/// Consume resting liquidity from `levels` (the side opposite the taker,
/// best level first) for a taker with `qty` open quantity, appending the
/// executed trades to `trades`; returns the unfilled remainder.
fn consume_levels(
    levels: &mut Vec<PriceLevel>,
    taker: &OrderEntry,
    qty: Decimal,
    trades: &mut Vec<Trade>,
) -> (rem: Decimal)
    requires
        half_wf(levels_view(*old(levels)), opposite(taker@.side)),
        0 <= qty@,
    ensures
        ({
            let m = match_levels(levels_view(*old(levels)), taker@, qty@);
            &&& levels_view(*final(levels)) == m.levels
            &&& final(trades)@.map_values(|t: Trade| t@) == old(trades)@.map_values(|t: Trade| t@)
                + m.trades
            &&& rem@ == m.remaining
        }),
    decreases levels@.len(), first_queue_len(levels_view(*levels)),
{
    let ghost orig = levels_view(*levels);
    let ghost trades0 = trades@.map_values(|t: Trade| t@);
    if !qty.is_positive() {
        assert(final(trades)@.map_values(|t: Trade| t@) =~= trades0 + Seq::<TradeView>::empty());
        return qty;
    }
    if levels.len() == 0 {
        assert(final(trades)@.map_values(|t: Trade| t@) =~= trades0 + Seq::<TradeView>::empty());
        return qty;
    }
    let level_price = levels[0].price;
    let crossed = match taker.side {
        Side::Bid => level_price.le(&taker.price),
        Side::Ask => level_price.ge(&taker.price),
    };
    if !crossed {
        assert(final(trades)@.map_values(|t: Trade| t@) =~= trades0 + Seq::<TradeView>::empty());
        return qty;
    }
    let mut lvl = levels.remove(0);
    assert(lvl@ == orig[0]);
    assert(lvl@.queue.len() > 0);
    let maker_qty = lvl.orders[0].qty;
    if qty.lt(&maker_qty) {
        let mut maker = lvl.orders.remove(0);
        let t = make_trade(taker, &maker, qty);
        trades.push(t);
        maker.qty = maker.qty.minus(&qty);
        lvl.orders.insert(0, maker);
        levels.insert(0, lvl);
        proof {
            let m = match_levels(orig, taker@, qty@);
            let maker0 = orig[0].queue[0];
            let reduced = EntryView { qty: maker0.qty - qty@, ..maker0 };
            assert(lvl@.queue =~= orig[0].queue.update(0, reduced));
            assert(levels_view(*levels) =~= m.levels);
            assert(trades@.map_values(|t: Trade| t@) =~= trades0 + m.trades);
        }
        return Decimal::zero();
    } else {
        let maker = lvl.orders.remove(0);
        let take = maker.qty;
        let t = make_trade(taker, &maker, take);
        trades.push(t);
        let ghost shorter = orig[0].queue.drop_first();
        let ghost rest_levels_spec = if shorter.len() == 0 {
            orig.drop_first()
        } else {
            orig.update(0, LevelView { price: orig[0].price, queue: shorter })
        };
        if lvl.orders.len() > 0 {
            levels.insert(0, lvl);
            proof {
                assert(lvl@.queue =~= shorter);
                assert(levels_view(*levels) =~= rest_levels_spec);
            }
        } else {
            proof {
                assert(levels_view(*levels) =~= rest_levels_spec);
            }
        }
        proof {
            assert(half_wf(rest_levels_spec, opposite(taker@.side)));
        }
        let new_qty = qty.minus(&take);
        let ghost trades1 = trades@.map_values(|t: Trade| t@);
        assert(trades1 =~= trades0 + seq![trade_of(taker@, orig[0].queue[0], take@)]);
        let rem = consume_levels(levels, taker, new_qty, trades);
        proof {
            let m = match_levels(orig, taker@, qty@);
            let rest = match_levels(rest_levels_spec, taker@, new_qty@);
            assert(m.levels == rest.levels);
            assert(m.trades =~= seq![trade_of(taker@, orig[0].queue[0], take@)] + rest.trades);
            assert(trades@.map_values(|t: Trade| t@) =~= trades0 + m.trades);
        }
        return rem;
    }
}


/// What a placement does to the whole book: match against the opposite
/// side, then rest any residual quantity on the order's own side at its
/// limit price.  Returns the new book, the trades in execution order, and
/// the residual quantity.
pub open spec fn place_spec(b: BookView, order: EntryView, side: Side) -> (BookView, Seq<
    TradeView,
>, int) {
    let taker = EntryView { side, ..order };
    let m = match_levels(
        match side {
            Side::Bid => b.asks,
            Side::Ask => b.bids,
        },
        taker,
        order.qty,
    );
    let resting = EntryView { qty: m.remaining, ..taker };
    let book = match side {
        Side::Bid => BookView {
            bids: if m.remaining > 0 {
                insert_entry(b.bids, resting, side)
            } else {
                b.bids
            },
            asks: m.levels,
        },
        Side::Ask => BookView {
            bids: m.levels,
            asks: if m.remaining > 0 {
                insert_entry(b.asks, resting, side)
            } else {
                b.asks
            },
        },
    };
    (book, m.trades, m.remaining)
}

impl OrderBook {
    /// An empty book.
    pub fn new() -> (r: OrderBook)
        ensures
            r@.bids.len() == 0,
            r@.asks.len() == 0,
            book_wf(r@),
    {
        OrderBook { bids: Vec::new(), asks: Vec::new() }
    }

    /// The highest resting bid price, if any bid rests.
    pub fn best_bid(&self) -> (r: Option<Decimal>)
        ensures
            match r {
                Some(p) => self@.bids.len() > 0 && p@ == self@.bids[0].price,
                None => self@.bids.len() == 0,
            },
    {
        if self.bids.len() > 0 {
            Some(self.bids[0].price)
        } else {
            None
        }
    }

    /// The lowest resting ask price, if any ask rests.
    pub fn best_ask(&self) -> (r: Option<Decimal>)
        ensures
            match r {
                Some(p) => self@.asks.len() > 0 && p@ == self@.asks[0].price,
                None => self@.asks.len() == 0,
            },
    {
        if self.asks.len() > 0 {
            Some(self.asks[0].price)
        } else {
            None
        }
    }

    /// Place a taker order on `side`: consume crossing liquidity from the
    /// opposite side under price-time priority, then rest any residual at
    /// the order's limit price.  Returns the order's id (echoed), the
    /// trades in execution order, and the residual quantity.
    ///
    /// The result is exactly `place_spec` of the starting book; in
    /// particular the trade quantities plus the residual sum to the
    /// submitted quantity, every trade executes at the taker's limit price,
    /// and the book invariant is preserved.
    pub fn place_order(&mut self, order: OrderEntry, side: Side) -> (r: (
        OrderId,
        Vec<Trade>,
        Decimal,
    ))
        requires
            book_wf(old(self)@),
            order@.qty > 0,
            order@.price > 0,
        ensures
            book_wf(final(self)@),
            r.0 == order.id,
            ({
                let (book, trades, remaining) = place_spec(old(self)@, order@, side);
                &&& final(self)@ == book
                &&& r.1@.map_values(|t: Trade| t@) == trades
                &&& r.2@ == remaining
            }),
            trades_qty_sum(r.1@.map_values(|t: Trade| t@)) + r.2@ == order@.qty,
            0 <= r.2@ <= order@.qty,
            forall|i: int|
                0 <= i < r.1@.len() ==> {
                    &&& (#[trigger] r.1@[i])@.price == order@.price
                    &&& 0 < r.1@[i]@.quantity <= order@.qty
                },
    {
        let ghost b0 = self@;
        let order_id = order.id;
        let taker = OrderEntry {
            id: order.id,
            user_address: order.user_address,
            market_id: order.market_id,
            side,
            price: order.price,
            qty: order.qty,
        };
        let mut trades: Vec<Trade> = Vec::new();
        let remaining = match side {
            Side::Bid => consume_levels(&mut self.asks, &taker, taker.qty, &mut trades),
            Side::Ask => consume_levels(&mut self.bids, &taker, taker.qty, &mut trades),
        };
        let ghost opp0 = match side {
            Side::Bid => b0.asks,
            Side::Ask => b0.bids,
        };
        let ghost m = match_levels(opp0, taker@, taker@.qty);
        proof {
            lemma_match_levels(opp0, taker@, taker@.qty);
            assert(trades@.map_values(|t: Trade| t@) =~= Seq::<TradeView>::empty() + m.trades);
        }
        if remaining.is_positive() {
            let resting = OrderEntry {
                id: taker.id,
                user_address: taker.user_address,
                market_id: taker.market_id,
                side,
                price: taker.price,
                qty: remaining,
            };
            let ghost rv = resting@;
            match side {
                Side::Bid => rest_entry(&mut self.bids, resting),
                Side::Ask => rest_entry(&mut self.asks, resting),
            }
            proof {
                match side {
                    Side::Bid => lemma_insert_entry(b0.bids, rv, Side::Bid),
                    Side::Ask => lemma_insert_entry(b0.asks, rv, Side::Ask),
                }
            }
        }
        proof {
            let ts = trades@.map_values(|t: Trade| t@);
            assert(forall|i: int|
                0 <= i < trades@.len() ==> (#[trigger] trades@[i])@ == ts[i]);
            let fb = self@;
            if fb.bids.len() > 0 && fb.asks.len() > 0 {
                match side {
                    Side::Bid => {
                        let (k, d) = choose|k: int, d: int|
                            consumed_in_order_at(opp0, m.levels, k, d);
                        assert(consumed_in_order_at(opp0, m.levels, k, d));
                        assert(m.levels[0].price == opp0[k].price);
                        if k > 0 {
                            assert(price_before(Side::Ask, opp0[0].price, opp0[k].price));
                        }
                        assert(opp0[0].price <= m.levels[0].price);
                        if remaining@ > 0 {
                            assert(!crosses(Side::Bid, taker@.price, m.levels[0].price));
                            if b0.bids.len() == 0 || price_before(
                                Side::Bid,
                                taker@.price,
                                b0.bids[0].price,
                            ) {
                                assert(fb.bids[0].price == taker@.price);
                            } else {
                                assert(fb.bids[0].price == b0.bids[0].price);
                                assert(b0.bids[0].price < b0.asks[0].price);
                            }
                        } else {
                            assert(fb.bids == b0.bids);
                            assert(b0.bids[0].price < b0.asks[0].price);
                        }
                        assert(fb.bids[0].price < fb.asks[0].price);
                    },
                    Side::Ask => {
                        let (k, d) = choose|k: int, d: int|
                            consumed_in_order_at(opp0, m.levels, k, d);
                        assert(consumed_in_order_at(opp0, m.levels, k, d));
                        assert(m.levels[0].price == opp0[k].price);
                        if k > 0 {
                            assert(price_before(Side::Bid, opp0[0].price, opp0[k].price));
                        }
                        assert(m.levels[0].price <= opp0[0].price);
                        if remaining@ > 0 {
                            assert(!crosses(Side::Ask, taker@.price, m.levels[0].price));
                            if b0.asks.len() == 0 || price_before(
                                Side::Ask,
                                taker@.price,
                                b0.asks[0].price,
                            ) {
                                assert(fb.asks[0].price == taker@.price);
                            } else {
                                assert(fb.asks[0].price == b0.asks[0].price);
                                assert(b0.bids[0].price < b0.asks[0].price);
                            }
                        } else {
                            assert(fb.asks == b0.asks);
                            assert(b0.bids[0].price < b0.asks[0].price);
                        }
                        assert(fb.bids[0].price < fb.asks[0].price);
                    },
                }
            }
        }
        (order_id, trades, remaining)
    }
}


/// Index of the first level at `price`, or -1 if none exists.
pub open spec fn find_level(levels: Seq<LevelView>, price: int) -> int
    decreases levels.len(),
{
    if levels.len() == 0 {
        -1
    } else if levels[0].price == price {
        0
    } else {
        let r = find_level(levels.drop_first(), price);
        if r < 0 {
            -1
        } else {
            r + 1
        }
    }
}

/// Index of the first entry with `id`, or -1 if none exists.
pub open spec fn find_entry(queue: Seq<EntryView>, id: u128) -> int
    decreases queue.len(),
{
    if queue.len() == 0 {
        -1
    } else if queue[0].id == id {
        0
    } else {
        let r = find_entry(queue.drop_first(), id);
        if r < 0 {
            -1
        } else {
            r + 1
        }
    }
}

/// `find_level` returns the first matching index.
pub proof fn lemma_find_level_at(levels: Seq<LevelView>, price: int, i: int)
    requires
        0 <= i < levels.len(),
        forall|j: int| 0 <= j < i ==> (#[trigger] levels[j]).price != price,
        levels[i].price == price,
    ensures
        find_level(levels, price) == i,
    decreases i,
{
    if i > 0 {
        let rest = levels.drop_first();
        assert(forall|j: int| 0 <= j < i - 1 ==> (#[trigger] rest[j]).price != price);
        lemma_find_level_at(rest, price, i - 1);
    }
}

/// `find_level` fails exactly when no level has the price.
pub proof fn lemma_find_level_none(levels: Seq<LevelView>, price: int)
    requires
        forall|j: int| 0 <= j < levels.len() ==> (#[trigger] levels[j]).price != price,
    ensures
        find_level(levels, price) == -1,
    decreases levels.len(),
{
    if levels.len() > 0 {
        let rest = levels.drop_first();
        assert(forall|j: int| 0 <= j < rest.len() ==> (#[trigger] rest[j]).price != price);
        lemma_find_level_none(rest, price);
    }
}

/// `find_entry` returns the first matching index.
pub proof fn lemma_find_entry_at(queue: Seq<EntryView>, id: u128, i: int)
    requires
        0 <= i < queue.len(),
        forall|j: int| 0 <= j < i ==> (#[trigger] queue[j]).id != id,
        queue[i].id == id,
    ensures
        find_entry(queue, id) == i,
    decreases i,
{
    if i > 0 {
        let rest = queue.drop_first();
        assert(forall|j: int| 0 <= j < i - 1 ==> (#[trigger] rest[j]).id != id);
        lemma_find_entry_at(rest, id, i - 1);
    }
}

/// `find_entry` fails exactly when no entry has the id.
pub proof fn lemma_find_entry_none(queue: Seq<EntryView>, id: u128)
    requires
        forall|j: int| 0 <= j < queue.len() ==> (#[trigger] queue[j]).id != id,
    ensures
        find_entry(queue, id) == -1,
    decreases queue.len(),
{
    if queue.len() > 0 {
        let rest = queue.drop_first();
        assert(forall|j: int| 0 <= j < rest.len() ==> (#[trigger] rest[j]).id != id);
        lemma_find_entry_none(rest, id);
    }
}

/// What cancelling `(price, id)` leaves of one side: the first entry with
/// the id at the first level with the price is removed, and a level
/// emptied by the removal is dropped.  Unchanged if the level or the entry
/// is absent.
pub open spec fn cancel_levels_spec(levels: Seq<LevelView>, price: int, id: u128) -> Seq<
    LevelView,
> {
    let li = find_level(levels, price);
    if li < 0 {
        levels
    } else {
        let q = levels[li].queue;
        let j = find_entry(q, id);
        if j < 0 {
            levels
        } else if q.len() == 1 {
            levels.remove(li)
        } else {
            levels.update(li, LevelView { price: levels[li].price, queue: q.remove(j) })
        }
    }
}

/// Outcome of a cancel attempt on one side.
#[derive(Clone, Copy, Debug, PartialEq, Eq, Structural)]
enum CancelStatus {
    Removed,
    NotFound,
    NoSuchPrice,
}

/// Remove the first entry with `order_id` from the first level at `price`.
fn cancel_in_levels(levels: &mut Vec<PriceLevel>, price: Decimal, order_id: OrderId) -> (r:
    CancelStatus)
    ensures
        levels_view(*final(levels)) == cancel_levels_spec(
            levels_view(*old(levels)),
            price@,
            order_id.value,
        ),
        ({
            let li = find_level(levels_view(*old(levels)), price@);
            if li < 0 {
                r == CancelStatus::NoSuchPrice
            } else if find_entry(levels_view(*old(levels))[li].queue, order_id.value) < 0 {
                r == CancelStatus::NotFound
            } else {
                r == CancelStatus::Removed
            }
        }),
{
    let ghost orig = levels_view(*levels);
    let mut i: usize = 0;
    let mut level_index: usize = 0;
    let mut level_found = false;
    while i < levels.len()
        invariant
            0 <= i <= levels@.len(),
            orig == levels_view(*levels),
            !level_found ==> forall|j: int| 0 <= j < i ==> (#[trigger] orig[j]).price != price@,
            level_found ==> {
                &&& level_index < i
                &&& orig[level_index as int].price == price@
                &&& forall|j: int|
                    0 <= j < level_index ==> (#[trigger] orig[j]).price != price@
            },
        decreases levels@.len() - i,
    {
        if !level_found && levels[i].price == price {
            level_found = true;
            level_index = i;
        }
        i += 1;
    }
    if !level_found {
        proof {
            lemma_find_level_none(orig, price@);
        }
        return CancelStatus::NoSuchPrice;
    }
    proof {
        lemma_find_level_at(orig, price@, level_index as int);
    }
    let mut lvl = levels.remove(level_index);
    let ghost q = orig[level_index as int].queue;
    let mut j: usize = 0;
    let mut entry_index: usize = 0;
    let mut entry_found = false;
    while j < lvl.orders.len()
        invariant
            0 <= j <= lvl.orders@.len(),
            lvl@.queue == q,
            !entry_found ==> forall|jj: int|
                0 <= jj < j ==> (#[trigger] q[jj]).id != order_id.value,
            entry_found ==> {
                &&& entry_index < j
                &&& q[entry_index as int].id == order_id.value
                &&& forall|jj: int|
                    0 <= jj < entry_index ==> (#[trigger] q[jj]).id != order_id.value
            },
        decreases lvl.orders@.len() - j,
    {
        if !entry_found && lvl.orders[j].id.value == order_id.value {
            entry_found = true;
            entry_index = j;
        }
        j += 1;
    }
    if !entry_found {
        proof {
            lemma_find_entry_none(q, order_id.value);
        }
        levels.insert(level_index, lvl);
        proof {
            assert(levels_view(*levels) =~= orig);
        }
        return CancelStatus::NotFound;
    }
    proof {
        lemma_find_entry_at(q, order_id.value, entry_index as int);
    }
    lvl.orders.remove(entry_index);
    if lvl.orders.len() > 0 {
        levels.insert(level_index, lvl);
        proof {
            assert(lvl@.queue =~= q.remove(entry_index as int));
            assert(levels_view(*levels) =~= cancel_levels_spec(orig, price@, order_id.value));
        }
    } else {
        proof {
            assert(q.len() == 1);
            assert(levels_view(*levels) =~= cancel_levels_spec(orig, price@, order_id.value));
        }
    }
    CancelStatus::Removed
}

/// Cancelling preserves well-formedness of a side.
pub proof fn lemma_cancel_levels_wf(levels: Seq<LevelView>, price: int, id: u128, side: Side)
    requires
        half_wf(levels, side),
    ensures
        ({
            let r = cancel_levels_spec(levels, price, id);
            &&& half_wf(r, side)
            &&& (r.len() > 0 ==> levels.len() > 0 && (r[0].price == levels[0].price || (levels.len()
                > 1 && r[0].price == levels[1].price)))
            &&& r.len() <= levels.len()
        }),
{
    let r = cancel_levels_spec(levels, price, id);
    let li = find_level(levels, price);
    if li >= 0 {
        lemma_find_level_in_range(levels, price);
        let q = levels[li].queue;
        let j = find_entry(q, id);
        if j >= 0 {
            lemma_find_entry_in_range(q, id);
            if q.len() == 1 {
                assert(forall|i: int|
                    0 <= i < r.len() ==> #[trigger] r[i] == if i < li {
                        levels[i]
                    } else {
                        levels[i + 1]
                    });
                assert(forall|i: int| 0 <= i < r.len() ==> level_wf(#[trigger] r[i], side));
                assert(forall|i: int, ii: int|
                    0 <= i < ii < r.len() ==> price_before(side, r[i].price, r[ii].price));
            } else {
                let nq = q.remove(j);
                assert(forall|jj: int|
                    0 <= jj < nq.len() ==> #[trigger] nq[jj] == if jj < j {
                        q[jj]
                    } else {
                        q[jj + 1]
                    });
                assert(level_wf(levels[li], side));
                assert(level_wf(r[li], side));
                assert(forall|i: int| 0 <= i < r.len() ==> level_wf(#[trigger] r[i], side));
            }
        }
    }
}

/// A found level index is in range and matches the price.
pub proof fn lemma_find_level_in_range(levels: Seq<LevelView>, price: int)
    ensures
        ({
            let li = find_level(levels, price);
            li >= 0 ==> 0 <= li < levels.len() && levels[li].price == price
        }),
    decreases levels.len(),
{
    if levels.len() > 0 && levels[0].price != price {
        lemma_find_level_in_range(levels.drop_first(), price);
    }
}

/// A found entry index is in range and matches the id.
pub proof fn lemma_find_entry_in_range(queue: Seq<EntryView>, id: u128)
    ensures
        ({
            let j = find_entry(queue, id);
            j >= 0 ==> 0 <= j < queue.len() && queue[j].id == id
        }),
    decreases queue.len(),
{
    if queue.len() > 0 && queue[0].id != id {
        lemma_find_entry_in_range(queue.drop_first(), id);
    }
}

impl OrderBook {
    /// Cancel the entry with `order_id` resting at `(side, price)`.
    ///
    /// Returns `(true, "removed")` when the entry was found and removed,
    /// `(false, "no-such-price")` when no level at that price exists on
    /// that side, and `(false, "not-found")` when the level exists but
    /// holds no entry with that id.  The book is unchanged unless the
    /// entry was removed, and the book invariant is preserved.
    pub fn cancel_order(&mut self, side: Side, price: Decimal, order_id: OrderId) -> (r: (
        bool,
        String,
    ))
        requires
            book_wf(old(self)@),
        ensures
            book_wf(final(self)@),
            ({
                let levels = match side {
                    Side::Bid => old(self)@.bids,
                    Side::Ask => old(self)@.asks,
                };
                let new_levels = match side {
                    Side::Bid => final(self)@.bids,
                    Side::Ask => final(self)@.asks,
                };
                let li = find_level(levels, price@);
                &&& new_levels == cancel_levels_spec(levels, price@, order_id.value)
                &&& match side {
                    Side::Bid => final(self)@.asks == old(self)@.asks,
                    Side::Ask => final(self)@.bids == old(self)@.bids,
                }
                &&& if li < 0 {
                    r.0 == false && r.1@ == "no-such-price"@
                } else if find_entry(levels[li].queue, order_id.value) < 0 {
                    r.0 == false && r.1@ == "not-found"@
                } else {
                    r.0 == true && r.1@ == "removed"@
                }
            }),
    {
        let ghost b0 = self@;
        let status = match side {
            Side::Bid => cancel_in_levels(&mut self.bids, price, order_id),
            Side::Ask => cancel_in_levels(&mut self.asks, price, order_id),
        };
        proof {
            match side {
                Side::Bid => {
                    lemma_cancel_levels_wf(b0.bids, price@, order_id.value, Side::Bid);
                    if self@.bids.len() > 0 && self@.asks.len() > 0 {
                        if b0.bids.len() > 1 {
                            assert(price_before(Side::Bid, b0.bids[0].price, b0.bids[1].price));
                        }
                        assert(self@.bids[0].price < self@.asks[0].price);
                    }
                },
                Side::Ask => {
                    lemma_cancel_levels_wf(b0.asks, price@, order_id.value, Side::Ask);
                    if self@.bids.len() > 0 && self@.asks.len() > 0 {
                        if b0.asks.len() > 1 {
                            assert(price_before(Side::Ask, b0.asks[0].price, b0.asks[1].price));
                        }
                        assert(self@.bids[0].price < self@.asks[0].price);
                    }
                },
            }
        }
        match status {
            CancelStatus::Removed => (true, "removed".to_owned()),
            CancelStatus::NotFound => (false, "not-found".to_owned()),
            CancelStatus::NoSuchPrice => (false, "no-such-price".to_owned()),
        }
    }
}


/// No entry anywhere in `levels` carries `id`.
pub open spec fn id_free(levels: Seq<LevelView>, id: u128) -> bool {
    forall|i: int, j: int|
        0 <= i < levels.len() && 0 <= j < levels[i].queue.len() ==> (#[trigger] levels[i].queue[j]).id
            != id
}

/// Resting an entry with a fresh id makes it findable: the side then has a
/// level at the entry's price whose queue holds the id.
pub proof fn lemma_insert_entry_find(levels: Seq<LevelView>, e: EntryView, side: Side)
    requires
        half_wf(levels, side),
        id_free(levels, e.id),
    ensures
        ({
            let r = insert_entry(levels, e, side);
            let li = find_level(r, e.price);
            &&& 0 <= li < r.len()
            &&& find_entry(r[li].queue, e.id) >= 0
        }),
    decreases levels.len(),
{
    let r = insert_entry(levels, e, side);
    if levels.len() == 0 {
        lemma_find_level_at(r, e.price, 0);
        assert(find_entry(r[0].queue, e.id) == 0);
    } else if e.price == levels[0].price {
        lemma_find_level_at(r, e.price, 0);
        let q = levels[0].queue;
        assert(forall|j: int| 0 <= j < q.len() ==> (#[trigger] q[j]).id != e.id);
        assert(r[0].queue == q.push(e));
        assert(forall|j: int| 0 <= j < q.len() ==> #[trigger] q.push(e)[j] == q[j]);
        assert(q.push(e)[q.len() as int] == e);
        lemma_find_entry_at(q.push(e), e.id, q.len() as int);
    } else if price_before(side, e.price, levels[0].price) {
        lemma_find_level_at(r, e.price, 0);
        assert(find_entry(r[0].queue, e.id) == 0);
    } else {
        let rest = levels.drop_first();
        assert(half_wf(rest, side)) by {
            assert(forall|i: int| 0 <= i < rest.len() ==> #[trigger] rest[i] == levels[i + 1]);
        }
        assert(id_free(rest, e.id)) by {
            assert(forall|i: int| 0 <= i < rest.len() ==> #[trigger] rest[i] == levels[i + 1]);
        }
        lemma_insert_entry_find(rest, e, side);
        let rr = insert_entry(rest, e, side);
        let li = find_level(rr, e.price);
        assert(r.drop_first() =~= rr);
        assert(r[0] == levels[0]);
        assert(r[0].price != e.price);
        assert(find_level(r, e.price) == li + 1);
        assert(r[li + 1] == rr[li]);
    }
}

/// After an order has wholly left the book (a complete fill, or an earlier
/// cancel), a cancel naming its id removes nothing: the book is unchanged,
/// and if the price level still exists the attempt reads as
/// `(false, "not-found")`.  (If the level vanished too, the attempt reads
/// as `(false, "no-such-price")` instead.)
pub proof fn lemma_cancel_gone(levels: Seq<LevelView>, price: int, id: u128)
    requires
        id_free(levels, id),
    ensures
        cancel_levels_spec(levels, price, id) == levels,
        ({
            let li = find_level(levels, price);
            li >= 0 ==> find_entry(levels[li].queue, id) == -1
        }),
{
    let li = find_level(levels, price);
    if li >= 0 {
        lemma_find_level_in_range(levels, price);
        let q = levels[li].queue;
        assert(forall|j: int| 0 <= j < q.len() ==> (#[trigger] q[j]).id != id);
        lemma_find_entry_none(q, id);
    }
}

/// The round trip of the placement contract: placing an order with a fresh
/// id and then cancelling `(side, order.price, order.id)` succeeds exactly
/// when the placement left residual quantity on the book.  A fully filled
/// order leaves no trace, so the follow-up cancel removes nothing.
pub proof fn lemma_place_then_cancel(b: BookView, order: EntryView, side: Side)
    requires
        book_wf(b),
        order.qty > 0,
        order.price > 0,
        id_free(b.bids, order.id),
        id_free(b.asks, order.id),
    ensures
        ({
            let (b1, trades, rem) = place_spec(b, order, side);
            let levels = match side {
                Side::Bid => b1.bids,
                Side::Ask => b1.asks,
            };
            let li = find_level(levels, order.price);
            &&& rem > 0 ==> 0 <= li < levels.len() && find_entry(levels[li].queue, order.id) >= 0
            &&& rem <= 0 ==> cancel_levels_spec(levels, order.price, order.id) == levels && (li >= 0
                ==> find_entry(levels[li].queue, order.id) == -1)
        }),
{
    let taker = EntryView { side, ..order };
    let opp = match side {
        Side::Bid => b.asks,
        Side::Ask => b.bids,
    };
    let same = match side {
        Side::Bid => b.bids,
        Side::Ask => b.asks,
    };
    let m = match_levels(opp, taker, order.qty);
    lemma_match_levels(opp, taker, order.qty);
    if m.remaining > 0 {
        let resting = EntryView { qty: m.remaining, ..taker };
        lemma_insert_entry_find(same, resting, side);
    } else {
        lemma_cancel_gone(same, order.price, order.id);
    }
}

/// Price-time priority across a whole placement: the opposite side of the
/// book after a placement is the old opposite side with a front prefix
/// consumed in order (see [`consumed_in_order_at`]) — an earlier resting
/// order is always fully filled before a later one at the same price
/// contributes to any trade.
pub proof fn lemma_place_consumes_in_order(b: BookView, order: EntryView, side: Side)
    requires
        book_wf(b),
        order.qty > 0,
        order.price > 0,
    ensures
        ({
            let (b1, trades, rem) = place_spec(b, order, side);
            match side {
                Side::Bid => consumed_in_order(b.asks, b1.asks),
                Side::Ask => consumed_in_order(b.bids, b1.bids),
            }
        }),
{
    let taker = EntryView { side, ..order };
    match side {
        Side::Bid => lemma_match_levels(b.asks, taker, order.qty),
        Side::Ask => lemma_match_levels(b.bids, taker, order.qty),
    }
}

} // verus!
