//! The outcome pair of books for one market, with its query operations.
//!
//! `snapshot` aggregates each side into depth rows and `find_open_orders`
//! projects the live entries of one account.  Both are read-only and are
//! proved equal to spec functions of the current state, so two calls with
//! no intervening command return equal results.

use vstd::prelude::*;

use crate::book::{book_wf, levels_view, BookView, LevelView, OrderBook, PriceLevel};
use crate::decimal::{clamped_product, clamped_sum, Decimal};
use crate::types::{EntryView, MarketSnapshot, OpenOrder, OpenOrderView, OrderEntry, SnapshotData,
    SnapshotDataView};

verus! {

/// The YES and NO books of one market, fully independent of each other.
pub struct MarketBooks {
    pub yes: OrderBook,
    pub no: OrderBook,
}

/// Mathematical view of a `MarketBooks`.
#[verifier::ext_equal]
pub ghost struct MarketBooksView {
    pub yes: BookView,
    pub no: BookView,
}

impl View for MarketBooks {
    type V = MarketBooksView;

    open spec fn view(&self) -> MarketBooksView {
        MarketBooksView { yes: self.yes@, no: self.no@ }
    }
}

/// Both books of a market satisfy the book invariant.
pub open spec fn market_wf(b: MarketBooksView) -> bool {
    &&& book_wf(b.yes)
    &&& book_wf(b.no)
}

/// Left fold of the clamped sum of the open quantities of `q`, starting
/// from `acc`.
pub open spec fn queue_qty_sum_from(q: Seq<EntryView>, acc: int) -> int
    decreases q.len(),
{
    if q.len() == 0 {
        acc
    } else {
        queue_qty_sum_from(q.drop_first(), clamped_sum(acc, q[0].qty))
    }
}

/// Sum of the open quantities of a level's queue (clamped at the
/// representation limit; exact whenever the sum is representable).
pub open spec fn queue_qty_sum(q: Seq<EntryView>) -> int {
    queue_qty_sum_from(q, 0)
}

/// Plain (unclamped) sum of the open quantities of `q`.
pub open spec fn plain_qty_sum(q: Seq<EntryView>) -> int
    decreases q.len(),
{
    if q.len() == 0 {
        0
    } else {
        q[0].qty + plain_qty_sum(q.drop_first())
    }
}

/// A sum of non-negative quantities is non-negative.
proof fn lemma_plain_qty_sum_nonneg(q: Seq<EntryView>)
    requires
        forall|j: int| 0 <= j < q.len() ==> (#[trigger] q[j]).qty >= 0,
    ensures
        plain_qty_sum(q) >= 0,
    decreases q.len(),
{
    if q.len() > 0 {
        let rest = q.drop_first();
        assert(forall|j: int| 0 <= j < rest.len() ==> (#[trigger] rest[j]).qty >= 0);
        lemma_plain_qty_sum_nonneg(rest);
    }
}

/// Folding with clamping on top of `acc` is exact while the total stays
/// representable.
proof fn lemma_queue_qty_sum_from_exact(q: Seq<EntryView>, acc: int)
    requires
        acc >= 0,
        forall|j: int| 0 <= j < q.len() ==> (#[trigger] q[j]).qty >= 0,
        acc + plain_qty_sum(q) <= i128::MAX,
    ensures
        queue_qty_sum_from(q, acc) == acc + plain_qty_sum(q),
    decreases q.len(),
{
    if q.len() > 0 {
        let rest = q.drop_first();
        assert(forall|j: int| 0 <= j < rest.len() ==> (#[trigger] rest[j]).qty >= 0);
        lemma_plain_qty_sum_nonneg(rest);
        assert(clamped_sum(acc, q[0].qty) == acc + q[0].qty);
        lemma_queue_qty_sum_from_exact(rest, acc + q[0].qty);
    }
}

/// The snapshot's per-level quantity is the exact sum of the open
/// quantities at that price whenever that sum is representable (clamping
/// only intervenes beyond the fixed-point range).
pub proof fn lemma_queue_qty_sum_exact(q: Seq<EntryView>)
    requires
        forall|j: int| 0 <= j < q.len() ==> (#[trigger] q[j]).qty >= 0,
        plain_qty_sum(q) <= i128::MAX,
    ensures
        queue_qty_sum(q) == plain_qty_sum(q),
{
    lemma_queue_qty_sum_from_exact(q, 0);
}

/// The depth row of one level: its price, the summed open quantity, and
/// the exact product `price * quantity` (held at twelve fractional
/// digits; clamped only past the representation limit, like the sum).
pub open spec fn snap_of(l: LevelView) -> SnapshotDataView {
    SnapshotDataView {
        price: l.price,
        quantity: queue_qty_sum(l.queue),
        total: clamped_product(l.price, queue_qty_sum(l.queue)),
    }
}

/// Depth rows of a sequence of levels, in the order given.
pub open spec fn snapshot_levels(levels: Seq<LevelView>) -> Seq<SnapshotDataView> {
    levels.map_values(|l: LevelView| snap_of(l))
}

/// The full snapshot of a market as a function of its state: every side in
/// descending price order (bids are stored best first, asks are reversed).
pub open spec fn snapshot_spec(b: MarketBooksView) -> crate::types::MarketSnapshotView {
    crate::types::MarketSnapshotView {
        yes_bids: snapshot_levels(b.yes.bids),
        yes_asks: snapshot_levels(b.yes.asks.reverse()),
        no_bids: snapshot_levels(b.no.bids),
        no_asks: snapshot_levels(b.no.asks.reverse()),
    }
}

/// Every level has a non-negative price and only non-negative quantities.
pub open spec fn levels_nonneg(levels: Seq<LevelView>) -> bool {
    &&& forall|i: int| 0 <= i < levels.len() ==> (#[trigger] levels[i]).price >= 0
    &&& forall|i: int, j: int|
        0 <= i < levels.len() && 0 <= j < levels[i].queue.len() ==> (#[trigger] levels[i].queue[j]).qty
            >= 0
}

/// The projection of one live entry for the open-order listing.
pub open spec fn open_order_of(e: EntryView, market: Seq<char>, outcome: Seq<char>) -> OpenOrderView {
    OpenOrderView {
        id: e.id,
        market_id: market,
        outcome: outcome,
        side: e.side,
        price: e.price,
        quantity: e.qty,
    }
}

/// Open orders of `owner` in one queue, head first.
pub open spec fn open_from_queue(
    q: Seq<EntryView>,
    owner: Seq<char>,
    market: Seq<char>,
    outcome: Seq<char>,
) -> Seq<OpenOrderView>
    decreases q.len(),
{
    if q.len() == 0 {
        Seq::empty()
    } else {
        let rest = open_from_queue(q.drop_first(), owner, market, outcome);
        if q[0].user_address == owner {
            seq![open_order_of(q[0], market, outcome)] + rest
        } else {
            rest
        }
    }
}

/// Open orders of `owner` across a sequence of levels, best level first.
pub open spec fn open_from_levels(
    levels: Seq<LevelView>,
    owner: Seq<char>,
    market: Seq<char>,
    outcome: Seq<char>,
) -> Seq<OpenOrderView>
    decreases levels.len(),
{
    if levels.len() == 0 {
        Seq::empty()
    } else {
        open_from_queue(levels[0].queue, owner, market, outcome) + open_from_levels(
            levels.drop_first(),
            owner,
            market,
            outcome,
        )
    }
}

/// All open orders of `owner` in a market: YES bids, YES asks, NO bids,
/// NO asks, in that container order.
pub open spec fn open_orders_spec(
    b: MarketBooksView,
    owner: Seq<char>,
    market: Seq<char>,
) -> Seq<OpenOrderView> {
    open_from_levels(b.yes.bids, owner, market, "Yes"@) + open_from_levels(
        b.yes.asks,
        owner,
        market,
        "Yes"@,
    ) + open_from_levels(b.no.bids, owner, market, "No"@) + open_from_levels(
        b.no.asks,
        owner,
        market,
        "No"@,
    )
}

/// `snapshot` is a pure function of the current state: equal states give
/// equal snapshots, so two successive calls with no intervening command
/// return equal results.
pub proof fn lemma_snapshot_pure(b1: MarketBooksView, b2: MarketBooksView)
    requires
        b1 == b2,
    ensures
        snapshot_spec(b1) == snapshot_spec(b2),
{
}

/// Clamped sum of the open quantities of `orders`, starting from `acc`.
fn level_quantity_from(orders: &Vec<OrderEntry>, start: usize, acc: Decimal) -> (q: Decimal)
    requires
        start <= orders@.len(),
        acc@ >= 0,
        forall|j: int| 0 <= j < orders@.len() ==> (#[trigger] orders@[j])@.qty >= 0,
    ensures
        q@ == queue_qty_sum_from(
            orders@.map_values(|e: OrderEntry| e@).skip(start as int),
            acc@,
        ),
        q@ >= 0,
    decreases orders@.len() - start,
{
    let ghost qv = orders@.map_values(|e: OrderEntry| e@);
    if start == orders.len() {
        proof {
            assert(qv.skip(start as int) =~= Seq::<EntryView>::empty());
        }
        acc
    } else {
        let e_qty = orders[start].qty;
        let next = acc.plus_clamped(&e_qty);
        proof {
            assert(qv.skip(start as int).drop_first() =~= qv.skip(start as int + 1));
            assert(qv.skip(start as int)[0] == qv[start as int]);
        }
        level_quantity_from(orders, start + 1, next)
    }
}

/// Depth rows for `levels`, walked front to back or back to front.
fn snapshot_side(levels: &Vec<PriceLevel>, reversed: bool) -> (r: Vec<SnapshotData>)
    requires
        levels_nonneg(levels_view(*levels)),
    ensures
        r@.map_values(|s: SnapshotData| s@) == snapshot_levels(
            if reversed {
                levels_view(*levels).reverse()
            } else {
                levels_view(*levels)
            },
        ),
{
    let ghost lv = levels_view(*levels);
    let ghost target = if reversed {
        lv.reverse()
    } else {
        lv
    };
    let mut out: Vec<SnapshotData> = Vec::new();
    let n = levels.len();
    let mut i: usize = 0;
    while i < n
        invariant
            0 <= i <= n,
            n == levels@.len(),
            levels_nonneg(lv),
            lv == levels_view(*levels),
            target == if reversed {
                lv.reverse()
            } else {
                lv
            },
            out@.map_values(|s: SnapshotData| s@) =~= snapshot_levels(target.take(i as int)),
        decreases n - i,
    {
        let idx = if reversed {
            n - 1 - i
        } else {
            i
        };
        let ghost l = lv[idx as int];
        proof {
            assert(target[i as int] == l);
            assert(l == levels@[idx as int]@);
            assert forall|j: int|
                0 <= j < levels@[idx as int].orders@.len() implies (#[trigger] levels@[idx as int].orders@[j])@.qty
                >= 0 by {
                assert(lv[idx as int].queue[j].qty >= 0);
                assert(l.queue[j] == levels@[idx as int].orders@.map_values(|e: OrderEntry| e@)[j]);
            }
            assert(l.price >= 0);
        }
        let quantity = level_quantity_from(&levels[idx].orders, 0, Decimal::zero());
        proof {
            assert(levels@[idx as int].orders@.map_values(|e: OrderEntry| e@).skip(0) =~= l.queue);
        }
        let price = levels[idx].price;
        let total = price.times_exact(&quantity);
        let row = SnapshotData { price, quantity, total };
        out.push(row);
        proof {
            assert(row@ == snap_of(l));
            assert(target.take(i as int + 1) =~= target.take(i as int).push(l));
            assert(snapshot_levels(target.take(i as int).push(l)) =~= snapshot_levels(
                target.take(i as int),
            ).push(snap_of(l)));
            assert(out@.map_values(|s: SnapshotData| s@) =~= snapshot_levels(
                target.take(i as int + 1),
            ));
        }
        i += 1;
    }
    proof {
        assert(target.take(n as int) =~= target);
    }
    out
}

/// Append the open orders of `owner` in one queue, from `start` on.
fn collect_from_queue(
    orders: &Vec<OrderEntry>,
    start: usize,
    owner: &String,
    market: &String,
    outcome: &str,
    out: &mut Vec<OpenOrder>,
)
    requires
        start <= orders@.len(),
    ensures
        final(out)@.map_values(|o: OpenOrder| o@) == old(out)@.map_values(|o: OpenOrder| o@)
            + open_from_queue(
            orders@.map_values(|e: OrderEntry| e@).skip(start as int),
            owner@,
            market@,
            outcome@,
        ),
    decreases orders@.len() - start,
{
    let ghost qv = orders@.map_values(|e: OrderEntry| e@);
    let ghost out0 = out@.map_values(|o: OpenOrder| o@);
    if start == orders.len() {
        proof {
            assert(qv.skip(start as int) =~= Seq::<EntryView>::empty());
            assert(final(out)@.map_values(|o: OpenOrder| o@) =~= out0 + Seq::<
                OpenOrderView,
            >::empty());
        }
    } else {
        let e = &orders[start];
        if e.user_address == *owner {
            let open = OpenOrder {
                id: e.id,
                market_id: market.clone(),
                outcome: outcome.to_owned(),
                side: e.side,
                price: e.price,
                quantity: e.qty,
            };
            out.push(open);
            proof {
                assert(out@.map_values(|o: OpenOrder| o@) =~= out0 + seq![
                    open_order_of(qv[start as int], market@, outcome@),
                ]);
            }
        }
        proof {
            assert(qv.skip(start as int).drop_first() =~= qv.skip(start as int + 1));
            assert(qv.skip(start as int)[0] == qv[start as int]);
        }
        let ghost matched = qv[start as int].user_address == owner@;
        let ghost before_rec = out@.map_values(|o: OpenOrder| o@);
        collect_from_queue(orders, start + 1, owner, market, outcome, out);
        proof {
            let rest = open_from_queue(qv.skip(start as int + 1), owner@, market@, outcome@);
            let whole = open_from_queue(qv.skip(start as int), owner@, market@, outcome@);
            if matched {
                let head = seq![open_order_of(qv[start as int], market@, outcome@)];
                assert(whole == head + rest);
                assert(before_rec =~= out0 + head);
                assert((out0 + head) + rest =~= out0 + (head + rest));
            } else {
                assert(whole == rest);
            }
            assert(final(out)@.map_values(|o: OpenOrder| o@) =~= out0 + whole);
        }
    }
}

/// Append the open orders of `owner` across levels, from `start` on.
fn collect_from_levels(
    levels: &Vec<PriceLevel>,
    start: usize,
    owner: &String,
    market: &String,
    outcome: &str,
    out: &mut Vec<OpenOrder>,
)
    requires
        start <= levels@.len(),
    ensures
        final(out)@.map_values(|o: OpenOrder| o@) == old(out)@.map_values(|o: OpenOrder| o@)
            + open_from_levels(
            levels_view(*levels).skip(start as int),
            owner@,
            market@,
            outcome@,
        ),
    decreases levels@.len() - start,
{
    let ghost lv = levels_view(*levels);
    let ghost out0 = out@.map_values(|o: OpenOrder| o@);
    if start == levels.len() {
        proof {
            assert(lv.skip(start as int) =~= Seq::<LevelView>::empty());
            assert(final(out)@.map_values(|o: OpenOrder| o@) =~= out0 + Seq::<
                OpenOrderView,
            >::empty());
        }
    } else {
        collect_from_queue(&levels[start].orders, 0, owner, market, outcome, out);
        proof {
            assert(levels@[start as int].orders@.map_values(|e: OrderEntry| e@).skip(0) =~= lv[
                start as int
            ].queue);
        }
        let ghost before_rec = out@.map_values(|o: OpenOrder| o@);
        collect_from_levels(levels, start + 1, owner, market, outcome, out);
        proof {
            assert(lv.skip(start as int).drop_first() =~= lv.skip(start as int + 1));
            assert(lv.skip(start as int)[0] == lv[start as int]);
            let head = open_from_queue(lv[start as int].queue, owner@, market@, outcome@);
            let rest = open_from_levels(lv.skip(start as int + 1), owner@, market@, outcome@);
            assert(open_from_levels(lv.skip(start as int), owner@, market@, outcome@) == head
                + rest);
            assert(before_rec =~= out0 + head);
            assert((out0 + head) + rest =~= out0 + (head + rest));
            assert(final(out)@.map_values(|o: OpenOrder| o@) =~= out0 + open_from_levels(
                lv.skip(start as int),
                owner@,
                market@,
                outcome@,
            ));
        }
    }
}

impl MarketBooks {
    /// A market with two empty books.
    pub fn new() -> (r: MarketBooks)
        ensures
            r@.yes.bids.len() == 0,
            r@.yes.asks.len() == 0,
            r@.no.bids.len() == 0,
            r@.no.asks.len() == 0,
            market_wf(r@),
    {
        MarketBooks { yes: OrderBook::new(), no: OrderBook::new() }
    }

    /// The aggregated depth of both books, every side in descending price
    /// order; exactly `snapshot_spec` of the current state.
    pub fn snapshot(&self) -> (r: MarketSnapshot)
        requires
            market_wf(self@),
        ensures
            r@ == snapshot_spec(self@),
    {
        proof {
            lemma_wf_nonneg(self@.yes.bids);
            lemma_wf_nonneg(self@.yes.asks);
            lemma_wf_nonneg(self@.no.bids);
            lemma_wf_nonneg(self@.no.asks);
        }
        let yes_bids = snapshot_side(&self.yes.bids, false);
        let yes_asks = snapshot_side(&self.yes.asks, true);
        let no_bids = snapshot_side(&self.no.bids, false);
        let no_asks = snapshot_side(&self.no.asks, true);
        MarketSnapshot { yes: (yes_bids, yes_asks), no: (no_bids, no_asks) }
    }

    /// Every open order of `owner`, across both outcomes and both sides,
    /// tagged with `market_id`; exactly `open_orders_spec` of the current
    /// state.
    pub fn find_open_orders(&self, owner: &String, market_id: &String) -> (r: Vec<OpenOrder>)
        ensures
            r@.map_values(|o: OpenOrder| o@) == open_orders_spec(self@, owner@, market_id@),
    {
        let mut out: Vec<OpenOrder> = Vec::new();
        collect_from_levels(&self.yes.bids, 0, owner, market_id, "Yes", &mut out);
        collect_from_levels(&self.yes.asks, 0, owner, market_id, "Yes", &mut out);
        collect_from_levels(&self.no.bids, 0, owner, market_id, "No", &mut out);
        collect_from_levels(&self.no.asks, 0, owner, market_id, "No", &mut out);
        proof {
            assert(levels_view(self.yes.bids).skip(0) =~= self@.yes.bids);
            assert(levels_view(self.yes.asks).skip(0) =~= self@.yes.asks);
            assert(levels_view(self.no.bids).skip(0) =~= self@.no.bids);
            assert(levels_view(self.no.asks).skip(0) =~= self@.no.asks);
            assert(out@.map_values(|o: OpenOrder| o@) =~= open_orders_spec(
                self@,
                owner@,
                market_id@,
            ));
        }
        out
    }
}

/// In a well-formed side every quantity is non-negative.
proof fn lemma_wf_nonneg(levels: Seq<LevelView>)
    requires
        crate::book::half_wf(levels, crate::types::Side::Bid) || crate::book::half_wf(
            levels,
            crate::types::Side::Ask,
        ),
    ensures
        levels_nonneg(levels),
{
}

} // verus!
