//! Listings in order: the book, the trades, the leaderboard.
use crate::board::types::{Order, OrderStatus, Reputation, Side, Trade};
use crate::board::{BoardView, TaskBoard};
use crate::seqs::{values_that, views};
use crate::sort::{arranged, key1, lemma_ordered_views, ordered, SortKey};
use crate::table::rows_of;
use crate::types::PublicKey;
use vstd::prelude::*;

verus! {

/// Two to the hundred and twenty-seventh power.
pub open spec fn half_word() -> int {
    0x8000_0000_0000_0000_0000_0000_0000_0000int
}

/// A bid's place on the book: the highest price first, then the earliest.
pub open spec fn bid_place(o: Order) -> int {
    (u64::MAX - o.price) * 0x1_0000_0000_0000_0000_0000_0000_0000_0000int + o.created_at.nanos + half_word()
}

/// An ask's place on the book: the lowest price first, then the earliest.
pub open spec fn ask_place(o: Order) -> int {
    o.price * 0x1_0000_0000_0000_0000_0000_0000_0000_0000int + o.created_at.nanos + half_word()
}

/// What an agent has earned, counted down.
pub open spec fn earnings() -> spec_fn((PublicKey, Reputation)) -> int {
    |row: (PublicKey, Reputation)| -row.1.total_earned
}

/// Every agent on record, whoever earned most in front; agents who earned the
/// same by ascending key.
pub open spec fn top_earners(b: BoardView) -> Seq<(PublicKey, Reputation)> {
    ordered(rows_of(b.reputation), earnings())
}

/// Whether an order rests on `side` of the book.
pub open spec fn rests(o: Order, side: Side) -> bool {
    o.status == OrderStatus::Open && o.side == side
}

/// The bids that rest on the book, the best in front.
pub open spec fn bids_of(b: BoardView) -> Seq<Order> {
    ordered(values_that(rows_of(b.orders), |o: Order| rests(o, Side::Buy)), |o: Order| bid_place(o))
}

/// The asks that rest on the book, the best in front.
pub open spec fn asks_of(b: BoardView) -> Seq<Order> {
    ordered(values_that(rows_of(b.orders), |o: Order| rests(o, Side::Sell)), |o: Order| ask_place(o))
}

/// At most `top_n` of those who earned most.
pub open spec fn leaders(b: BoardView, top_n: usize) -> Seq<(PublicKey, Reputation)> {
    if top_n < top_earners(b).len() {
        top_earners(b).take(top_n as int)
    } else {
        top_earners(b)
    }
}

impl TaskBoard {
    /// Every open order, each side with the best in front.
    pub fn order_book(&self) -> (r: (Vec<&Order>, Vec<&Order>))
        requires
            self.wf(),
        ensures
            views(r.0@) == bids_of(self@),
            views(r.1@) == asks_of(self@),
    {
        let is_bid = |o: &Order| -> (r: bool)
            ensures
                r == rests(o@, Side::Buy),
        {
            o.status == OrderStatus::Open && o.side == Side::Buy
        };
        let is_ask = |o: &Order| -> (r: bool)
            ensures
                r == rests(o@, Side::Sell),
        {
            o.status == OrderStatus::Open && o.side == Side::Sell
        };
        let bids = self.orders.values_where(is_bid, Ghost(|o: Order| rests(o, Side::Buy)));
        let asks = self.orders.values_where(is_ask, Ghost(|o: Order| rests(o, Side::Sell)));
        let mut bid_keys: Vec<SortKey> = Vec::new();
        let mut i: usize = 0;
        while i < bids.len()
            invariant
                i <= bids.len(),
                bid_keys.len() == i,
                forall|j: int|
                    0 <= j < i ==> (#[trigger] bid_keys@[j]) == (SortKey {
                        a: (u64::MAX - bids@[j].price) as u128,
                        b: (bids@[j].created_at.nanos + half_word()) as u128,
                        c: 0,
                        d: 0,
                    }),
            decreases bids.len() - i,
        {
            let o = bids[i];
            bid_keys.push(SortKey { a: (u64::MAX - o.price) as u128, b: o.created_at.sort_word(), c: 0, d: 0 });
            i += 1;
        }
        let mut ask_keys: Vec<SortKey> = Vec::new();
        let mut k: usize = 0;
        while k < asks.len()
            invariant
                k <= asks.len(),
                ask_keys.len() == k,
                forall|j: int|
                    0 <= j < k ==> (#[trigger] ask_keys@[j]) == (SortKey {
                        a: asks@[j].price as u128,
                        b: (asks@[j].created_at.nanos + half_word()) as u128,
                        c: 0,
                        d: 0,
                    }),
            decreases asks.len() - k,
        {
            let o = asks[k];
            ask_keys.push(SortKey { a: o.price as u128, b: o.created_at.sort_word(), c: 0, d: 0 });
            k += 1;
        }
        let ghost bid = |o: &Order| (|x: Order| bid_place(x))(o@);
        let ghost ask = |o: &Order| (|x: Order| ask_place(x))(o@);
        let sorted_bids = arranged(&bids, &bid_keys, Ghost(bid));
        let sorted_asks = arranged(&asks, &ask_keys, Ghost(ask));
        proof {
            lemma_ordered_views(bids@, |o: Order| bid_place(o));
            lemma_ordered_views(asks@, |o: Order| ask_place(o));
        }
        (sorted_bids, sorted_asks)
    }

    /// Every trade, the latest in front.
    pub fn all_trades_newest_first(&self) -> (trades: Vec<&Trade>)
        requires
            self.wf(),
        ensures
            views(trades@) == ordered(
                values_that(rows_of(self@.trades), |t: Trade| true),
                |t: Trade| -t.executed_at.nanos,
            ),
    {
        let trades = self.all_trades();
        let mut keys: Vec<SortKey> = Vec::new();
        let mut i: usize = 0;
        while i < trades.len()
            invariant
                i <= trades.len(),
                keys.len() == i,
                forall|j: int|
                    0 <= j < i ==> (#[trigger] keys@[j]) == (SortKey {
                        a: (u128::MAX - (trades@[j].executed_at.nanos + half_word())) as u128,
                        b: 0,
                        c: 0,
                        d: 0,
                    }),
            decreases trades.len() - i,
        {
            keys.push(key1(u128::MAX - trades[i].executed_at.sort_word()));
            i += 1;
        }
        let ghost key = |t: &Trade| (|x: Trade| -x.executed_at.nanos)(t@);
        let r = arranged(&trades, &keys, Ghost(key));
        proof {
            lemma_ordered_views(trades@, |t: Trade| -t.executed_at.nanos);
        }
        r
    }

    /// The agents who earned most in front, at most `top_n` of them; agents
    /// who earned the same by ascending key.
    pub fn leaderboard(&self, top_n: usize) -> (entries: Vec<(PublicKey, Reputation)>)
        requires
            self.wf(),
        ensures
            entries@ == leaders(self@, top_n),
            top_earners(self@).len() <= usize::MAX,
    {
        let ghost rows = self.reputation.rows();
        proof {
            self.reputation.lemma_rows();
        }
        let mut items: Vec<(PublicKey, Reputation)> = Vec::new();
        let mut keys: Vec<SortKey> = Vec::new();
        let mut i: usize = 0;
        while i < self.reputation.len()
            invariant
                i <= rows.len(),
                rows == self.reputation.rows(),
                items.len() == i,
                keys.len() == i,
                forall|j: int| 0 <= j < i ==> (#[trigger] items@[j]) == rows[j],
                forall|j: int|
                    0 <= j < i ==> (#[trigger] keys@[j]) == (SortKey {
                        a: (u64::MAX - items@[j].1.total_earned) as u128,
                        b: 0,
                        c: 0,
                        d: 0,
                    }),
            decreases rows.len() - i,
        {
            let r = *self.reputation.value_at(i);
            items.push((self.reputation.key_at(i), r));
            keys.push(key1((u64::MAX - r.total_earned) as u128));
            i += 1;
        }
        assert(items@ =~= rows);
        let ghost key = earnings();
        let mut entries = arranged(&items, &keys, Ghost(key));
        let ghost all = entries@;
        if top_n < entries.len() {
            entries.truncate(top_n);
            assert(entries@ =~= all.take(top_n as int));
        }
        entries
    }
}

}
