//! Filling an order beside the board, on a copy of no more than it can touch,
//! so that what came of it can be kept before the board follows.
use crate::board::conservation::{
    fee_on, fees_on, lemma_account_within, lemma_matching_conserves, lemma_matching_leaves_others,
    lemma_next_may_match, lemma_parties_have_accounts, lemma_traded_orders_are_known, names_agent, names_order,
};
use crate::board::exchange::{
    best_match, crosses, fresh_order, is_best_match, lemma_best_match_is_unique, lemma_order_opened,
    lemma_order_placed, lemma_same_sums, lemma_taker_keeps_terms, lemma_totals_with_account, matched_order, may_match,
    opposite, order_opened, order_placed, order_refusal, settled, trade_ids, trading_parties, with_trades, Matching,
};
use crate::board::ledger::{
    cancel_order_refusal, cancelled, lemma_balance_changed, more_base, more_compute, net_of_fee, order_cancelled,
};
use crate::board::deposits::{DepositView, PendingDeposit};
use crate::board::escrow::{deposit_refusal, with_status};
use crate::board::types::{BoardError, EscrowStatus, ExchangeAccount, Order, OrderStatus, Side, Trade};
use crate::board::{BoardView, TaskBoard};
use crate::seqs::{lemma_total_not_negative, lemma_total_prefix, lemma_total_step, total};
use crate::table::{
    as_map, ascending, lemma_map_sum_within, lemma_row_is_mapped, lemma_rows_of, listable, map_sum, row_of, Duplicate, Key, Table,
};
use crate::types::{Id, PublicKey, Timestamp};
use vstd::prelude::*;

verus! {

/// Whether an order of `owner` on `side` at `price` may match `o`.
pub open spec fn crossing(owner: PublicKey, side: Side, price: u64, o: Order) -> bool {
    &&& o.status == OrderStatus::Open
    &&& o.owner != owner
    &&& o.side == opposite(side)
    &&& crosses(side, price, o.price)
}

/// Whether the board has an order of `agent` that a new order may match.
pub open spec fn has_crossing(b: BoardView, owner: PublicKey, side: Side, price: u64, agent: PublicKey) -> bool {
    exists|id: Id|
        #[trigger] b.orders.contains_key(id) && crossing(owner, side, price, b.orders[id]) && b.orders[id].owner
            == agent
}

/// All that a new order can touch: the orders it may match, and the accounts
/// of their owners, of its own and of whoever gets the fees.
pub open spec fn staged(b: BoardView, owner: PublicKey, side: Side, price: u64, fee_sink: PublicKey) -> BoardView {
    BoardView {
        orders: b.orders.restrict(
            Set::new(|id: Id| b.orders.contains_key(id) && crossing(owner, side, price, b.orders[id])),
        ),
        exchange_accounts: Map::new(
            |k: PublicKey| k == owner || k == fee_sink || has_crossing(b, owner, side, price, k),
            |k: PublicKey| b.account_of(k),
        ),
        ..BoardView::empty()
    }
}

fn is_crossing(owner: &PublicKey, side: Side, price: u64, o: &Order) -> (r: bool)
    ensures
        r == crossing(*owner, side, price, *o),
{
    let other_side = match side {
        Side::Buy => o.side == Side::Sell,
        Side::Sell => o.side == Side::Buy,
    };
    let acceptable = match side {
        Side::Buy => o.price <= price,
        Side::Sell => o.price >= price,
    };
    o.status == OrderStatus::Open && o.owner != *owner && other_side && acceptable
}

/// Whether a row before the `i`-th has an order of `agent` that a new order may
/// match.
spec fn crossed_before(
    rows: Seq<(Id, Order)>,
    i: int,
    owner: PublicKey,
    side: Side,
    price: u64,
    agent: PublicKey,
) -> bool {
    exists|j: int| 0 <= j < i && crossing(owner, side, price, (#[trigger] rows[j]).1) && rows[j].1.owner == agent
}

/// Whether a row before the `i`-th has the order `id`, and a new order may match
/// it.
spec fn staged_before(rows: Seq<(Id, Order)>, i: int, owner: PublicKey, side: Side, price: u64, id: Id) -> bool {
    exists|j: int| 0 <= j < i && (#[trigger] rows[j]).0 == id && crossing(owner, side, price, rows[j].1)
}

impl TaskBoard {
    /// A copy of all that a new order can touch.
    pub fn stage_order(&self, owner: &PublicKey, side: Side, price: u64, fee_sink: &PublicKey) -> (stage: TaskBoard)
        requires
            self.wf(),
        ensures
            stage.wf(),
            stage@ == staged(self@, *owner, side, price, *fee_sink),
            self@.exchange_sound() ==> stage@.exchange_sound(),
    {
        let ghost rows = self.orders.rows();
        let mut stage = TaskBoard::new();
        stage.restore_exchange_account(*owner, self.exchange_account(owner));
        stage.restore_exchange_account(*fee_sink, self.exchange_account(fee_sink));
        let mut i: usize = 0;
        while i < self.orders.len()
            invariant
                i <= rows.len(),
                rows == self.orders.rows(),
                self.wf(),
                stage.wf(),
                forall|id: Id| #[trigger]
                    stage@.orders.contains_key(id) <==> staged_before(rows, i as int, *owner, side, price, id),
                forall|id: Id| #[trigger] stage@.orders.contains_key(id) ==> stage@.orders[id] == self@.orders[id],
                forall|k: PublicKey| #[trigger]
                    stage@.exchange_accounts.contains_key(k) <==> k == *owner || k == *fee_sink || crossed_before(
                        rows,
                        i as int,
                        *owner,
                        side,
                        price,
                        k,
                    ),
                forall|k: PublicKey| #[trigger]
                    stage@.exchange_accounts.contains_key(k) ==> stage@.exchange_accounts[k] == self@.account_of(k),
                stage@ == (BoardView {
                    orders: stage@.orders,
                    exchange_accounts: stage@.exchange_accounts,
                    ..BoardView::empty()
                }),
            decreases rows.len() - i,
        {
            let order = *self.orders.value_at(i);
            let ghost before = stage@;
            proof {
                lemma_row_is_mapped(rows, i as int);
                assert(self@.orders.contains_key(rows[i as int].0));
                assert(order.id == rows[i as int].0);
            }
            if is_crossing(owner, side, price, &order) {
                stage.restore_exchange_account(order.owner, self.exchange_account(&order.owner));
                stage.restore_order(order);
            }
            proof {
                assert forall|id: Id| staged_before(rows, i + 1, *owner, side, price, id) <==> (staged_before(
                    rows,
                    i as int,
                    *owner,
                    side,
                    price,
                    id,
                ) || (id == order.id && crossing(*owner, side, price, order))) by {
                    if id == order.id && crossing(*owner, side, price, order) {
                        assert(rows[i as int].0 == id);
                    }
                }
                assert forall|k: PublicKey| crossed_before(rows, i + 1, *owner, side, price, k) <==> (crossed_before(
                    rows,
                    i as int,
                    *owner,
                    side,
                    price,
                    k,
                ) || (k == order.owner && crossing(*owner, side, price, order))) by {
                    if k == order.owner && crossing(*owner, side, price, order) {
                        assert(rows[i as int].1.owner == k);
                    }
                }
            }
            i += 1;
        }
        proof {
            self.orders.lemma_rows();
            let goal = staged(self@, *owner, side, price, *fee_sink);
            assert forall|id: Id| staged_before(rows, i as int, *owner, side, price, id) <==> (
            self@.orders.contains_key(id) && crossing(*owner, side, price, self@.orders[id])) by {
                if staged_before(rows, i as int, *owner, side, price, id) {
                    let j = choose|j: int|
                        0 <= j < i && (#[trigger] rows[j]).0 == id && crossing(*owner, side, price, rows[j].1);
                    lemma_row_is_mapped(rows, j);
                }
                if self@.orders.contains_key(id) {
                    let j = row_of(rows, id);
                    lemma_row_is_mapped(rows, j);
                    assert(rows[j].0 == id);
                }
            }
            assert forall|k: PublicKey| crossed_before(rows, i as int, *owner, side, price, k) <==> has_crossing(
                self@,
                *owner,
                side,
                price,
                k,
            ) by {
                if crossed_before(rows, i as int, *owner, side, price, k) {
                    let j = choose|j: int|
                        0 <= j < i && crossing(*owner, side, price, (#[trigger] rows[j]).1) && rows[j].1.owner == k;
                    lemma_row_is_mapped(rows, j);
                    assert(self@.orders.contains_key(rows[j].0));
                }
                if has_crossing(self@, *owner, side, price, k) {
                    let id = choose|id: Id|
                        #[trigger] self@.orders.contains_key(id) && crossing(*owner, side, price, self@.orders[id])
                            && self@.orders[id].owner == k;
                    let j = row_of(rows, id);
                    lemma_row_is_mapped(rows, j);
                    assert(rows[j].0 == id);
                }
            }
            assert(stage@.orders =~= goal.orders);
            assert(stage@.exchange_accounts =~= goal.exchange_accounts);
            if self@.exchange_sound() {
                assert forall|id: Id| #[trigger] stage@.orders.contains_key(id) implies self@.orders.contains_key(id)
                    && stage@.orders[id] == self@.orders[id] && stage@.exchange_accounts.contains_key(
                    stage@.orders[id].owner,
                ) by {
                    assert(has_crossing(self@, *owner, side, price, self@.orders[id].owner));
                }
                lemma_part_is_sound(stage@, self@);
            }
        }
        stage
    }
}

/// A sum over no entries.
proof fn lemma_empty_sum<K: Key, T>(f: spec_fn(K, T) -> int)
    ensures
        listable(Map::<K, T>::empty()),
        map_sum(Map::<K, T>::empty(), f) == 0,
{
    let none = Seq::<(K, T)>::empty();
    assert(as_map(none) =~= Map::<K, T>::empty());
    lemma_rows_of(none);
}

/// A part of a ledger: some of its orders, the accounts of their owners, and
/// perhaps other accounts.
pub open spec fn is_part(s: BoardView, b: BoardView) -> bool {
    &&& forall|id: Id| #[trigger]
        s.orders.contains_key(id) ==> b.orders.contains_key(id) && s.orders[id] == b.orders[id]
            && s.exchange_accounts.contains_key(s.orders[id].owner)
    &&& forall|k: PublicKey| #[trigger]
        s.exchange_accounts.contains_key(k) ==> s.exchange_accounts[k] == b.account_of(k)
}

/// A part of a sound ledger is sound itself.
pub proof fn lemma_part_is_sound(s: BoardView, b: BoardView)
    requires
        b.wf(),
        b.exchange_sound(),
        s.listed(),
        is_part(s, b),
    ensures
        s.exchange_sound(),
{
    let base = |k: PublicKey, a: ExchangeAccount| a.base_balance as int;
    let compute = |k: PublicKey, a: ExchangeAccount| a.compute_balance as int;
    lemma_map_sum_within(s.exchange_accounts, b.exchange_accounts, base);
    lemma_map_sum_within(s.exchange_accounts, b.exchange_accounts, compute);
    assert forall|id: Id| #[trigger] s.orders.contains_key(id) implies s.orders[id].sound() by {
        assert(b.orders.contains_key(id));
    }
    assert forall|taker: PublicKey| #[trigger] s.covers(taker, 0, 0) by {
        assert(b.covers(taker, 0, 0));
        assert forall|x: PublicKey| #[trigger] s.account_of(x).locked_base <= s.account_of(x).base_balance by {
            assert(b.account_of(x).locked_base <= b.account_of(x).base_balance);
        }
        assert forall|x: PublicKey| #[trigger] s.account_of(x).locked_compute <= s.account_of(x).compute_balance by {
            assert(b.account_of(x).locked_compute <= b.account_of(x).compute_balance);
        }
        assert forall|x: PublicKey| #[trigger]
            s.buys_hold(x) + (if x == taker { 0int } else { 0 }) <= s.account_of(x).locked_base by {
            lemma_stage_holds(b, s, x);
            assert(b.buys_hold(x) + (if x == taker { 0int } else { 0 }) <= b.account_of(x).locked_base);
        }
        assert forall|x: PublicKey| #[trigger]
            s.sales_hold(x) + (if x == taker { 0int } else { 0 }) <= s.account_of(x).locked_compute by {
            lemma_stage_holds(b, s, x);
            assert(b.sales_hold(x) + (if x == taker { 0int } else { 0 }) <= b.account_of(x).locked_compute);
        }
    }
}

/// What an owner's orders on the stage hold back is no more than on the board,
/// and nothing for an owner who is not on the stage.
proof fn lemma_stage_holds(b: BoardView, s: BoardView, x: PublicKey)
    requires
        b.wf(),
        s.listed(),
        forall|i: Id| #[trigger] b.orders.contains_key(i) ==> b.orders[i].sound(),
        forall|i: Id| #[trigger]
            s.orders.contains_key(i) ==> b.orders.contains_key(i) && s.orders[i] == b.orders[i]
                && s.exchange_accounts.contains_key(s.orders[i].owner),
    ensures
        s.buys_hold(x) <= b.buys_hold(x),
        s.sales_hold(x) <= b.sales_hold(x),
        !s.exchange_accounts.contains_key(x) ==> s.buys_hold(x) <= 0 && s.sales_hold(x) <= 0,
{
    let f = |k: Id, o: Order| if o.owner == x && o.sound() { o.locks_base() } else { 0 };
    let g = |k: Id, o: Order| if o.owner == x && o.sound() { o.locks_compute() } else { 0 };
    assert forall|k: Id, o: Order| #[trigger] f(k, o) >= 0 by {
        if o.owner == x && o.sound() {
            assert(o.price * o.remaining() >= 0) by (nonlinear_arith)
                requires
                    o.price >= 0,
                    o.remaining() >= 0,
            ;
        }
    }
    assert forall|i: Id| #[trigger] s.orders.contains_key(i) implies s.orders[i].sound() by {
        assert(b.orders.contains_key(i));
    }
    lemma_same_sums(b, x);
    lemma_same_sums(s, x);
    lemma_map_sum_within(s.orders, b.orders, f);
    lemma_map_sum_within(s.orders, b.orders, g);
    if !s.exchange_accounts.contains_key(x) {
        lemma_empty_sum(f);
        lemma_empty_sum(g);
        lemma_map_sum_within(s.orders, Map::empty(), f);
        lemma_map_sum_within(s.orders, Map::empty(), g);
    }
}

/// Whether the matching of an order goes the same way on a stage as on the
/// board: what is on the stage is as on the board, and nothing that the order
/// may match or move is missing.
pub open spec fn mirrors(stage: Matching, live: Matching) -> bool {
    &&& stage.taker == live.taker
    &&& stage.trades == live.trades
    &&& forall|id: Id| #[trigger]
        stage.board.orders.contains_key(id) ==> live.board.orders.contains_key(id) && live.board.orders[id]
            == stage.board.orders[id] && stage.board.exchange_accounts.contains_key(stage.board.orders[id].owner)
    &&& forall|id: Id|
        #![trigger live.board.orders.contains_key(id)]
        live.board.orders.contains_key(id) && may_match(live.taker, live.board.orders[id])
            ==> stage.board.orders.contains_key(id)
    &&& forall|k: PublicKey| #[trigger]
        stage.board.exchange_accounts.contains_key(k) ==> stage.board.exchange_accounts[k] == live.board.account_of(k)
    &&& stage.board.exchange_accounts.contains_key(stage.taker.owner)
}

/// The next match is the same on both.
proof fn lemma_same_match(stage: Matching, live: Matching)
    requires
        stage.board.wf(),
        live.board.wf(),
        mirrors(stage, live),
    ensures
        best_match(stage.board, stage.taker) == best_match(live.board, live.taker),
{
    let s = stage.board;
    let l = live.board;
    let taker = live.taker;
    assert forall|id: Id| is_best_match(s, taker, id) <==> is_best_match(l, taker, id) by {
        if is_best_match(s, taker, id) {
            assert(s.orders.contains_key(id));
            assert forall|other: Id| #[trigger]
                l.orders.contains_key(other) && may_match(taker, l.orders[other]) implies crate::board::exchange::comes_first(
                taker.side,
                l.orders[id],
                l.orders[other],
            ) by {
                assert(s.orders.contains_key(other) && may_match(taker, s.orders[other]));
            }
        }
        if is_best_match(l, taker, id) {
            assert(l.orders.contains_key(id));
            assert(s.orders.contains_key(id));
            assert forall|other: Id| #[trigger]
                s.orders.contains_key(other) && may_match(taker, s.orders[other]) implies crate::board::exchange::comes_first(
                taker.side,
                s.orders[id],
                s.orders[other],
            ) by {
                assert(l.orders.contains_key(other) && may_match(taker, l.orders[other]));
            }
        }
    }
    if exists|id: Id| is_best_match(s, taker, id) {
        let id = choose|id: Id| is_best_match(s, taker, id);
        lemma_best_match_is_unique(s, taker, id, id);
        lemma_best_match_is_unique(l, taker, id, id);
    } else {
        assert(best_match(l, taker) is None);
    }
}

/// What is not on the stage stays as it is on the board.
pub open spec fn leaves_rest(stage: BoardView, before: BoardView, after: BoardView) -> bool {
    &&& forall|id: Id|
        #![trigger after.orders.contains_key(id)]
        #![trigger after.orders[id]]
        !stage.orders.contains_key(id) ==> after.orders.contains_key(id) == before.orders.contains_key(id)
            && after.orders[id] == before.orders[id]
    &&& forall|k: PublicKey|
        #![trigger after.exchange_accounts.contains_key(k)]
        #![trigger after.exchange_accounts[k]]
        !stage.exchange_accounts.contains_key(k) ==> after.exchange_accounts.contains_key(k)
            == before.exchange_accounts.contains_key(k) && after.exchange_accounts[k] == before.exchange_accounts[k]
}

/// One match more keeps both the same.
#[verifier::rlimit(60)]
#[verifier::spinoff_prover]
proof fn lemma_next_mirrors(stage: Matching, live: Matching, id: Id, now: Timestamp)
    requires
        stage.sound(),
        live.sound(),
        mirrors(stage, live),
        stage.goes_on(),
    ensures
        live.goes_on(),
        mirrors(stage.next(id, now), live.next(id, now)),
        leaves_rest(stage.board, live.board, live.next(id, now).board),
        forall|x: Id| #[trigger]
            stage.next(id, now).board.orders.contains_key(x) <==> stage.board.orders.contains_key(x),
        forall|k: PublicKey| #[trigger]
            stage.next(id, now).board.exchange_accounts.contains_key(k) <==> stage.board.exchange_accounts.contains_key(k),
{
    lemma_same_match(stage, live);
    lemma_next_may_match(stage);
    let taker = stage.taker;
    let found = best_match(stage.board, taker)->0;
    let resting = stage.board.orders[found];
    assert(stage.board.orders.contains_key(found));
    assert(live.board.orders[found] == resting);
    let (buyer, limit, seller) = trading_parties(taker, resting);
    assert(stage.board.exchange_accounts.contains_key(buyer));
    assert(stage.board.exchange_accounts.contains_key(seller));
    assert(stage.board.account_of(buyer) == live.board.account_of(buyer));
    assert(stage.board.account_of(seller) == live.board.account_of(seller));
    let s = settled(stage.board, taker, resting);
    let l = settled(live.board, taker, resting);
    let sn = stage.next(id, now);
    let ln = live.next(id, now);
    assert(sn.board == s && ln.board == l);
    assert forall|x: Id|
        #![trigger l.orders.contains_key(x)]
        l.orders.contains_key(x) && may_match(ln.taker, l.orders[x]) implies s.orders.contains_key(x) by {
        if x != resting.id {
            assert(live.board.orders.contains_key(x));
            assert(may_match(live.taker, live.board.orders[x]));
        }
    }
    assert forall|x: Id| #[trigger] s.orders.contains_key(x) implies l.orders.contains_key(x) && l.orders[x]
        == s.orders[x] && s.exchange_accounts.contains_key(s.orders[x].owner) by {
        assert(stage.board.orders.contains_key(x));
    }
    assert forall|k: PublicKey| #[trigger] s.exchange_accounts.contains_key(k) implies s.exchange_accounts[k]
        == l.account_of(k) by {
        assert(stage.board.exchange_accounts.contains_key(k));
    }
}

/// An order is matched on a stage as it would be on the board, however far it
/// goes, and whatever is not on the stage stays as it is.
#[verifier::rlimit(60)]
#[verifier::spinoff_prover]
pub proof fn lemma_stage_mirrors(stage: Matching, live: Matching, ids: Seq<Id>, now: Timestamp)
    requires
        stage.sound(),
        live.sound(),
        mirrors(stage, live),
        stage.ran(ids, now),
    ensures
        live.ran(ids, now),
        mirrors(stage.after(ids, now), live.after(ids, now)),
        stage.after(ids, now).goes_on() == live.after(ids, now).goes_on(),
        leaves_rest(stage.board, live.board, live.after(ids, now).board),
        forall|x: Id| #[trigger]
            stage.after(ids, now).board.orders.contains_key(x) <==> stage.board.orders.contains_key(x),
        forall|k: PublicKey| #[trigger]
            stage.after(ids, now).board.exchange_accounts.contains_key(k)
                <==> stage.board.exchange_accounts.contains_key(k),
    decreases ids.len(),
{
    if ids.len() > 0 {
        let fewer = ids.drop_last();
        assert forall|n: int| 0 <= n < fewer.len() implies (#[trigger] stage.after(fewer.take(n), now)).goes_on() by {
            assert(fewer.take(n) =~= ids.take(n));
        }
        lemma_stage_mirrors(stage, live, fewer, now);
        assert(ids.take(ids.len() - 1) =~= fewer);
        let a = stage.after(fewer, now);
        let z = live.after(fewer, now);
        assert(a.goes_on());
        lemma_matching_conserves(stage, fewer, now);
        lemma_matching_conserves(live, fewer, now);
        lemma_next_mirrors(a, z, ids.last(), now);
        assert forall|n: int| 0 <= n < ids.len() implies (#[trigger] live.after(ids.take(n), now)).goes_on() by {
            if n < fewer.len() {
                assert(ids.take(n) =~= fewer.take(n));
                assert(live.after(fewer.take(n), now).goes_on());
            } else {
                assert(ids.take(n) =~= fewer);
            }
        }
    }
    lemma_matching_conserves(stage, ids, now);
    lemma_matching_conserves(live, ids, now);
    lemma_same_match(stage.after(ids, now), live.after(ids, now));
}

/// The stage for an order mirrors the board when its matching begins.
pub proof fn lemma_stage_begins_alike(b: BoardView, order: Order, fee_sink: PublicKey)
    requires
        b.wf(),
    ensures
        mirrors(
            order_opened(staged(b, order.owner, order.side, order.price, fee_sink), order),
            order_opened(b, order),
        ),
{
    let s = staged(b, order.owner, order.side, order.price, fee_sink);
    let stage = order_opened(s, order);
    let live = order_opened(b, order);
    assert(s.account_of(order.owner) == b.account_of(order.owner));
    assert forall|id: Id| #[trigger] stage.board.orders.contains_key(id) implies live.board.orders.contains_key(id)
        && live.board.orders[id] == stage.board.orders[id] && stage.board.exchange_accounts.contains_key(
        stage.board.orders[id].owner,
    ) by {
        assert(b.orders.contains_key(id));
        assert(has_crossing(b, order.owner, order.side, order.price, b.orders[id].owner));
    }
}

/// The board with the fees of `trades` credited to `fee_sink`, in the asset
/// that each was charged in.
pub open spec fn with_fees(b: BoardView, fee_sink: PublicKey, trades: Seq<Trade>) -> BoardView {
    let compute = fees_on(trades, Side::Buy);
    let base = fees_on(trades, Side::Sell);
    let first = if compute > 0 {
        b.with_account(fee_sink, more_compute(b.account_of(fee_sink), compute as u64))
    } else {
        b
    };
    if base > 0 {
        first.with_account(fee_sink, more_base(first.account_of(fee_sink), base as u64))
    } else {
        first
    }
}

/// The fees of a list of trades, in compute and in base.
pub fn taker_fee_totals(trades: &Vec<Trade>) -> (r: (u64, u64))
    requires
        fees_on(trades@, Side::Buy) <= u64::MAX,
        fees_on(trades@, Side::Sell) <= u64::MAX,
    ensures
        r.0 == fees_on(trades@, Side::Buy),
        r.1 == fees_on(trades@, Side::Sell),
{
    let ghost f = fee_on(Side::Buy);
    let ghost g = fee_on(Side::Sell);
    let mut compute: u64 = 0;
    let mut base: u64 = 0;
    let mut i: usize = 0;
    while i < trades.len()
        invariant
            i <= trades.len(),
            f == fee_on(Side::Buy),
            g == fee_on(Side::Sell),
            total(trades@, f) <= u64::MAX,
            total(trades@, g) <= u64::MAX,
            compute == total(trades@.take(i as int), f),
            base == total(trades@.take(i as int), g),
        decreases trades.len() - i,
    {
        proof {
            lemma_total_step(trades@, f, i as int);
            lemma_total_step(trades@, g, i as int);
            lemma_total_prefix(trades@, f, i + 1);
            lemma_total_prefix(trades@, g, i + 1);
        }
        match trades[i].taker_side {
            Side::Buy => {
                compute = compute + trades[i].taker_fee;
            },
            Side::Sell => {
                base = base + trades[i].taker_fee;
            },
        }
        i += 1;
    }
    assert(trades@.take(i as int) =~= trades@);
    (compute, base)
}

/// The board with orders filed, one by one.
pub open spec fn with_orders(b: BoardView, orders: Seq<Order>) -> BoardView
    decreases orders.len(),
{
    if orders.len() == 0 {
        b
    } else {
        with_orders(b, orders.drop_last()).with_order(orders.last())
    }
}

/// The board with accounts filed, one by one.
pub open spec fn with_accounts(b: BoardView, accounts: Seq<(PublicKey, ExchangeAccount)>) -> BoardView
    decreases accounts.len(),
{
    if accounts.len() == 0 {
        b
    } else {
        with_accounts(b, accounts.drop_last()).with_account(accounts.last().0, accounts.last().1)
    }
}

/// All that filling an order changed.
#[derive(Debug, Clone)]
pub struct Fill {
    /// The order itself.
    pub order: Order,
    /// Every order that changed, the order itself in front.
    pub orders: Vec<Order>,
    pub trades: Vec<Trade>,
    /// Every account that changed.
    pub accounts: Vec<(PublicKey, ExchangeAccount)>,
}

impl Fill {
    /// The board once it follows.
    pub open spec fn applied(self, b: BoardView) -> BoardView {
        let booked = with_orders(b, self.orders@);
        let recorded = BoardView { trades: with_trades(booked.trades, self.trades@), ..booked };
        with_accounts(recorded, self.accounts@)
    }
}

/// Whether the orders list `id`.
pub open spec fn lists_order(orders: Seq<Order>, id: Id) -> bool {
    exists|i: int| 0 <= i < orders.len() && (#[trigger] orders[i]).id == id
}

/// Whether the accounts list `k`.
pub open spec fn lists_account(accounts: Seq<(PublicKey, ExchangeAccount)>, k: PublicKey) -> bool {
    exists|i: int| 0 <= i < accounts.len() && (#[trigger] accounts[i]).0 == k
}

/// Orders that are filed as another board has them are there as it has them.
proof fn lemma_with_orders(b: BoardView, orders: Seq<Order>, from: Map<Id, Order>)
    requires
        forall|i: int|
            0 <= i < orders.len() ==> from.contains_key((#[trigger] orders[i]).id) && from[orders[i].id] == orders[i],
    ensures
        with_orders(b, orders) == (BoardView { orders: with_orders(b, orders).orders, ..b }),
        forall|id: Id| #[trigger]
            with_orders(b, orders).orders.contains_key(id) <==> b.orders.contains_key(id) || lists_order(orders, id),
        forall|id: Id| #[trigger]
            with_orders(b, orders).orders.contains_key(id) ==> with_orders(b, orders).orders[id] == if lists_order(
                orders,
                id,
            ) {
                from[id]
            } else {
                b.orders[id]
            },
    decreases orders.len(),
{
    if orders.len() > 0 {
        let fewer = orders.drop_last();
        assert forall|i: int| 0 <= i < fewer.len() implies from.contains_key((#[trigger] fewer[i]).id)
            && from[fewer[i].id] == fewer[i] by {
            assert(orders[i] == fewer[i]);
        }
        lemma_with_orders(b, fewer, from);
        assert forall|id: Id| lists_order(orders, id) <==> lists_order(fewer, id) || id == orders.last().id by {
            if lists_order(orders, id) {
                let i = choose|i: int| 0 <= i < orders.len() && (#[trigger] orders[i]).id == id;
                if i < fewer.len() {
                    assert(fewer[i].id == id);
                }
            }
            if lists_order(fewer, id) {
                let i = choose|i: int| 0 <= i < fewer.len() && (#[trigger] fewer[i]).id == id;
                assert(orders[i].id == id);
            }
            assert(orders[orders.len() - 1] == orders.last());
        }
        let z = with_orders(b, orders);
        let y = with_orders(b, fewer);
        assert(z == y.with_order(orders.last()));
        assert(from[orders.last().id] == orders.last()) by {
            assert(orders[orders.len() - 1] == orders.last());
        }
        assert forall|id: Id| #[trigger] z.orders.contains_key(id) implies z.orders[id] == if lists_order(orders, id) {
            from[id]
        } else {
            b.orders[id]
        } by {
            if id != orders.last().id {
                assert(y.orders.contains_key(id));
            }
        }
    }
}

/// Accounts that are filed as another board has them are there as it has them.
proof fn lemma_with_accounts(b: BoardView, accounts: Seq<(PublicKey, ExchangeAccount)>, from: BoardView)
    requires
        forall|i: int| 0 <= i < accounts.len() ==> from.account_of((#[trigger] accounts[i]).0) == accounts[i].1,
    ensures
        with_accounts(b, accounts) == (BoardView {
            exchange_accounts: with_accounts(b, accounts).exchange_accounts,
            ..b
        }),
        forall|k: PublicKey| #[trigger]
            with_accounts(b, accounts).exchange_accounts.contains_key(k) <==> b.exchange_accounts.contains_key(k)
                || lists_account(accounts, k),
        forall|k: PublicKey| #[trigger]
            with_accounts(b, accounts).exchange_accounts.contains_key(k) ==> with_accounts(
                b,
                accounts,
            ).exchange_accounts[k] == if lists_account(accounts, k) {
                from.account_of(k)
            } else {
                b.exchange_accounts[k]
            },
    decreases accounts.len(),
{
    if accounts.len() > 0 {
        let fewer = accounts.drop_last();
        assert forall|i: int| 0 <= i < fewer.len() implies from.account_of((#[trigger] fewer[i]).0) == fewer[i].1 by {
            assert(accounts[i] == fewer[i]);
        }
        lemma_with_accounts(b, fewer, from);
        assert forall|k: PublicKey| lists_account(accounts, k) <==> lists_account(fewer, k) || k
            == accounts.last().0 by {
            if lists_account(accounts, k) {
                let i = choose|i: int| 0 <= i < accounts.len() && (#[trigger] accounts[i]).0 == k;
                if i < fewer.len() {
                    assert(fewer[i].0 == k);
                }
            }
            if lists_account(fewer, k) {
                let i = choose|i: int| 0 <= i < fewer.len() && (#[trigger] fewer[i]).0 == k;
                assert(accounts[i].0 == k);
            }
            assert(accounts[accounts.len() - 1] == accounts.last());
        }
        let z = with_accounts(b, accounts);
        let y = with_accounts(b, fewer);
        assert(z == y.with_account(accounts.last().0, accounts.last().1));
        assert(from.account_of(accounts.last().0) == accounts.last().1) by {
            assert(accounts[accounts.len() - 1] == accounts.last());
        }
        assert forall|k: PublicKey| #[trigger] z.exchange_accounts.contains_key(k) implies z.exchange_accounts[k]
            == if lists_account(accounts, k) {
            from.account_of(k)
        } else {
            b.exchange_accounts[k]
        } by {
            if k != accounts.last().0 {
                assert(y.exchange_accounts.contains_key(k));
            }
        }
    }
}

impl TaskBoard {
    /// Follows what filling an order changed, once that is kept.
    pub fn publish(&mut self, fill: &Fill)
        requires
            old(self).wf(),
        ensures
            final(self).wf(),
            final(self)@ == fill.applied(old(self)@),
    {
        let mut i: usize = 0;
        assert(with_orders(old(self)@, fill.orders@.take(0)) == old(self)@);
        while i < fill.orders.len()
            invariant
                i <= fill.orders.len(),
                self.wf(),
                self@ == with_orders(old(self)@, fill.orders@.take(i as int)),
            decreases fill.orders.len() - i,
        {
            assert(fill.orders@.take(i + 1).drop_last() =~= fill.orders@.take(i as int));
            self.restore_order(fill.orders[i]);
            i += 1;
        }
        assert(fill.orders@.take(i as int) =~= fill.orders@);
        let ghost booked = self@;
        let mut k: usize = 0;
        assert(with_trades(booked.trades, fill.trades@.take(0)) == booked.trades);
        while k < fill.trades.len()
            invariant
                k <= fill.trades.len(),
                self.wf(),
                self@ == (BoardView { trades: with_trades(booked.trades, fill.trades@.take(k as int)), ..booked }),
            decreases fill.trades.len() - k,
        {
            assert(fill.trades@.take(k + 1).drop_last() =~= fill.trades@.take(k as int));
            self.restore_trade(fill.trades[k]);
            k += 1;
        }
        assert(fill.trades@.take(k as int) =~= fill.trades@);
        let ghost recorded = self@;
        let mut n: usize = 0;
        assert(with_accounts(recorded, fill.accounts@.take(0)) == recorded);
        while n < fill.accounts.len()
            invariant
                n <= fill.accounts.len(),
                self.wf(),
                self@ == with_accounts(recorded, fill.accounts@.take(n as int)),
            decreases fill.accounts.len() - n,
        {
            assert(fill.accounts@.take(n + 1).drop_last() =~= fill.accounts@.take(n as int));
            let (owner, account) = fill.accounts[n];
            self.restore_exchange_account(owner, account);
            n += 1;
        }
        assert(fill.accounts@.take(n as int) =~= fill.accounts@);
    }
}

/// Whether filling an order changed this much: the order and then every other
/// order that a trade names, as the board has them at the end, and the accounts
/// of the owner, of whoever a trade names and of whoever got fees. The other
/// orders and the accounts each stand there once, in ascending order.
pub open spec fn records(
    fill: Fill,
    end: BoardView,
    owner: PublicKey,
    fee_sink: PublicKey,
) -> bool {
    let fees = fees_on(fill.trades@, Side::Buy) > 0 || fees_on(fill.trades@, Side::Sell) > 0;
    &&& fill.orders@.len() > 0 && fill.orders@[0] == fill.order
    &&& forall|i: int|
        0 <= i < fill.orders@.len() ==> end.orders.contains_key((#[trigger] fill.orders@[i]).id)
            && end.orders[fill.orders@[i].id] == fill.orders@[i]
    &&& forall|id: Id|
        #![trigger names_order(fill.trades@, id)]
        lists_order(fill.orders@, id) <==> id == fill.order.id || names_order(fill.trades@, id)
    &&& forall|i: int| 1 <= i < fill.orders@.len() ==> (#[trigger] fill.orders@[i]).id != fill.order.id
    &&& forall|i: int, j: int|
        1 <= i < j < fill.orders@.len() ==> (#[trigger] fill.orders@[i]).id < (#[trigger] fill.orders@[j]).id
    &&& ascending(fill.accounts@)
    &&& forall|i: int|
        0 <= i < fill.accounts@.len() ==> end.account_of((#[trigger] fill.accounts@[i]).0) == fill.accounts@[i].1
    &&& forall|k: PublicKey|
        #![trigger names_agent(fill.trades@, k)]
        lists_account(fill.accounts@, k) <==> k == owner || names_agent(fill.trades@, k) || (fees && k == fee_sink)
}

/// What is recorded of an order that was filled on a stage makes of the board
/// what filling the order on the board would have made of it.
#[verifier::rlimit(60)]
#[verifier::spinoff_prover]
pub proof fn lemma_fill_applies(b: BoardView, order: Order, fee_sink: PublicKey, ids: Seq<Id>, now: Timestamp, fill: Fill)
    requires
        b.wf(),
        b.exchange_sound(),
        order == fresh_order(order.id, order.owner, order.side, order.price, order.quantity, order.created_at),
        order_refusal(b, order.owner, order.side, order.price, order.quantity) is None,
        ({
            let s = staged(b, order.owner, order.side, order.price, fee_sink);
            let done = order_opened(s, order).after(ids, now);
            &&& s.wf()
            &&& s.exchange_sound()
            &&& order_opened(s, order).ran(ids, now)
            &&& fill.order == matched_order(done.taker)
            &&& fill.trades@ == done.trades
            &&& records(fill, with_fees(order_placed(done), fee_sink, done.trades), order.owner, fee_sink)
        }),
    ensures
        ({
            let done = order_opened(b, order).after(ids, now);
            let stage = order_opened(staged(b, order.owner, order.side, order.price, fee_sink), order).after(ids, now);
            &&& order_opened(b, order).ran(ids, now)
            &&& done.goes_on() == stage.goes_on()
            &&& done.taker == stage.taker
            &&& done.trades == stage.trades
            &&& fill.applied(b) == with_fees(order_placed(done), fee_sink, done.trades)
            &&& records(fill, fill.applied(b), order.owner, fee_sink)
        }),
{
    let s = staged(b, order.owner, order.side, order.price, fee_sink);
    let stage = order_opened(s, order);
    let live = order_opened(b, order);
    assert(s.account_of(order.owner) == b.account_of(order.owner));
    lemma_order_opened(s, order);
    lemma_order_opened(b, order);
    lemma_stage_begins_alike(b, order, fee_sink);
    lemma_stage_mirrors(stage, live, ids, now);
    let sd = stage.after(ids, now);
    let ld = live.after(ids, now);
    lemma_taker_keeps_terms(stage, ids, now);
    let se = with_fees(order_placed(sd), fee_sink, sd.trades);
    let le = with_fees(order_placed(ld), fee_sink, ld.trades);
    let fees = fees_on(fill.trades@, Side::Buy) > 0 || fees_on(fill.trades@, Side::Sell) > 0;
    lemma_matching_leaves_others(live, ids, now, 0, order.owner);

    let booked = with_orders(b, fill.orders@);
    lemma_with_orders(b, fill.orders@, se.orders);
    let recorded = BoardView { trades: with_trades(booked.trades, fill.trades@), ..booked };
    lemma_with_accounts(recorded, fill.accounts@, se);
    let got = fill.applied(b);

    assert(se.orders == order_placed(sd).orders);
    assert(le.orders == order_placed(ld).orders);
    assert forall|id: Id| got.orders.contains_key(id) == le.orders.contains_key(id) && (got.orders.contains_key(id)
        ==> got.orders[id] == le.orders[id]) by {
        lemma_matching_leaves_others(live, ids, now, id, order.owner);
        lemma_traded_orders_are_known(stage, ids, now, id);
        let listed = lists_order(fill.orders@, id);
        assert(listed <==> id == fill.order.id || names_order(fill.trades@, id));
        assert(sd.board.orders.contains_key(id) <==> stage.board.orders.contains_key(id));
        if id != order.id {
            assert(se.orders.contains_key(id) == sd.board.orders.contains_key(id));
            if sd.board.orders.contains_key(id) {
                assert(ld.board.orders[id] == sd.board.orders[id]);
            } else {
                assert(ld.board.orders.contains_key(id) == live.board.orders.contains_key(id));
            }
        }
    }
    assert(got.orders =~= le.orders);

    assert forall|k: PublicKey|
        #![trigger got.exchange_accounts.contains_key(k)]
        #![trigger le.exchange_accounts.contains_key(k)]
        #![trigger got.exchange_accounts[k]]
        got.exchange_accounts.contains_key(k) == le.exchange_accounts.contains_key(k) && (
    got.exchange_accounts.contains_key(k) ==> got.exchange_accounts[k] == le.exchange_accounts[k]) by {
        lemma_matching_leaves_others(live, ids, now, 0, k);
        lemma_parties_have_accounts(live, ids, now, k);
        lemma_parties_have_accounts(stage, ids, now, k);
        let listed = lists_account(fill.accounts@, k);
        assert(listed <==> k == order.owner || names_agent(fill.trades@, k) || (fees && k == fee_sink));
        if listed {
            assert(sd.board.exchange_accounts.contains_key(k));
            assert(sd.board.account_of(k) == ld.board.account_of(k));
            assert(se.account_of(k) == le.account_of(k));
            assert(le.exchange_accounts.contains_key(k));
        } else {
            assert(le.exchange_accounts.contains_key(k) == ld.board.exchange_accounts.contains_key(k));
            assert(ld.board.exchange_accounts.contains_key(k) == live.board.exchange_accounts.contains_key(k));
        }
    }
    assert(got.exchange_accounts =~= le.exchange_accounts);
    assert(got.trades == le.trades);
    assert(got == le);
    assert forall|i: int| 0 <= i < fill.orders@.len() implies got.orders.contains_key((#[trigger] fill.orders@[i]).id)
        && got.orders[fill.orders@[i].id] == fill.orders@[i] by {
        let id = fill.orders@[i].id;
        assert(lists_order(fill.orders@, id));
        assert(booked.orders.contains_key(id));
    }
    assert forall|i: int| 0 <= i < fill.accounts@.len() implies got.account_of((#[trigger] fill.accounts@[i]).0)
        == fill.accounts@[i].1 by {
        assert(lists_account(fill.accounts@, fill.accounts@[i].0));
        assert(got.exchange_accounts.contains_key(fill.accounts@[i].0));
    }
}

/// Filling an order moves what the accounts hold between them and neither makes
/// nor loses any of it: once the fees are credited, both totals are what they
/// were. And the ledger stays sound.
pub proof fn lemma_fill_conserves(b: BoardView, order: Order, fee_sink: PublicKey, ids: Seq<Id>, now: Timestamp)
    requires
        b.wf(),
        b.exchange_sound(),
        order == fresh_order(order.id, order.owner, order.side, order.price, order.quantity, order.created_at),
        order_refusal(b, order.owner, order.side, order.price, order.quantity) is None,
        order_opened(b, order).ran(ids, now),
    ensures
        ({
            let done = order_opened(b, order).after(ids, now);
            let end = with_fees(order_placed(done), fee_sink, done.trades);
            &&& end.base_total() == b.base_total()
            &&& end.compute_total() == b.compute_total()
            &&& end.exchange_sound()
        }),
{
    let begun = order_opened(b, order);
    let done = begun.after(ids, now);
    lemma_order_opened(b, order);
    lemma_matching_conserves(begun, ids, now);
    lemma_order_placed(done);
    lemma_total_not_negative(done.trades, fee_on(Side::Buy));
    lemma_total_not_negative(done.trades, fee_on(Side::Sell));
    assert(fees_on(begun.trades, Side::Buy) == 0);
    assert(fees_on(begun.trades, Side::Sell) == 0);
    let placed = order_placed(done);
    assert(placed.base_total() == done.board.base_total());
    assert(placed.compute_total() == done.board.compute_total());
    assert(placed.exchange_accounts == done.board.exchange_accounts);
    let compute = fees_on(done.trades, Side::Buy);
    let base = fees_on(done.trades, Side::Sell);
    lemma_account_within(placed, fee_sink);
    let a = placed.account_of(fee_sink);
    lemma_account_is_covered(placed, fee_sink);
    let first = if compute > 0 {
        lemma_account_credited(placed, fee_sink, more_compute(a, compute as u64));
        placed.with_account(fee_sink, more_compute(a, compute as u64))
    } else {
        placed
    };
    lemma_account_within(first, fee_sink);
    lemma_account_is_covered(first, fee_sink);
    if base > 0 {
        lemma_account_credited(first, fee_sink, more_base(first.account_of(fee_sink), base as u64));
    }
}

proof fn lemma_account_is_covered(b: BoardView, k: PublicKey)
    requires
        b.exchange_sound(),
    ensures
        b.account_of(k).locked_base <= b.account_of(k).base_balance,
        b.account_of(k).locked_compute <= b.account_of(k).compute_balance,
{
    assert(b.covers(k, 0, 0));
}

/// Crediting an account what the totals have room for keeps the ledger sound.
proof fn lemma_account_credited(b: BoardView, k: PublicKey, a: ExchangeAccount)
    requires
        listable(b.exchange_accounts),
        b.exchange_sound(),
        a.locked_base == b.account_of(k).locked_base,
        a.locked_compute == b.account_of(k).locked_compute,
        a.locked_base <= a.base_balance,
        a.locked_compute <= a.compute_balance,
        b.base_total() + a.base_balance - b.account_of(k).base_balance <= u64::MAX,
        b.compute_total() + a.compute_balance - b.account_of(k).compute_balance <= u64::MAX,
    ensures
        listable(b.with_account(k, a).exchange_accounts),
        b.with_account(k, a).exchange_sound(),
        b.with_account(k, a).base_total() == b.base_total() + a.base_balance - b.account_of(k).base_balance,
        b.with_account(k, a).compute_total() == b.compute_total() + a.compute_balance - b.account_of(
            k,
        ).compute_balance,
{
    lemma_balance_changed(b, k, a);
    lemma_totals_with_account(b, k, a);
}

/// The orders that trades name.
fn named_orders(trades: &Vec<Trade>) -> (ids: Table<Id, ()>)
    ensures
        ids.wf(),
        forall|id: Id| #[trigger] ids@.contains_key(id) <==> names_order(trades@, id),
{
    let mut ids: Table<Id, ()> = Table::new();
    let mut i: usize = 0;
    while i < trades.len()
        invariant
            i <= trades.len(),
            ids.wf(),
            forall|id: Id| #[trigger] ids@.contains_key(id) <==> names_order(trades@.take(i as int), id),
        decreases trades.len() - i,
    {
        let t = trades[i];
        ids.insert(t.buy_order_id, ());
        ids.insert(t.sell_order_id, ());
        proof {
            let fewer = trades@.take(i as int);
            let more = trades@.take(i + 1);
            assert forall|id: Id| names_order(more, id) <==> names_order(fewer, id) || id == t.buy_order_id || id
                == t.sell_order_id by {
                assert(more[i as int] == t);
                if names_order(more, id) {
                    let j = choose|j: int|
                        0 <= j < more.len() && ((#[trigger] more[j]).buy_order_id == id || more[j].sell_order_id == id);
                    if j < i {
                        assert(fewer[j] == more[j]);
                    }
                }
                if names_order(fewer, id) {
                    let j = choose|j: int|
                        0 <= j < fewer.len() && ((#[trigger] fewer[j]).buy_order_id == id || fewer[j].sell_order_id
                            == id);
                    assert(fewer[j] == more[j]);
                }
            }
        }
        i += 1;
    }
    assert(trades@.take(i as int) =~= trades@);
    ids
}

/// The agents that trades name.
fn named_agents(trades: &Vec<Trade>) -> (agents: Table<PublicKey, ()>)
    ensures
        agents.wf(),
        forall|k: PublicKey| #[trigger] agents@.contains_key(k) <==> names_agent(trades@, k),
{
    let mut agents: Table<PublicKey, ()> = Table::new();
    let mut i: usize = 0;
    while i < trades.len()
        invariant
            i <= trades.len(),
            agents.wf(),
            forall|k: PublicKey| #[trigger] agents@.contains_key(k) <==> names_agent(trades@.take(i as int), k),
        decreases trades.len() - i,
    {
        let t = trades[i];
        agents.insert(t.buyer, ());
        agents.insert(t.seller, ());
        proof {
            let fewer = trades@.take(i as int);
            let more = trades@.take(i + 1);
            assert forall|k: PublicKey| names_agent(more, k) <==> names_agent(fewer, k) || k == t.buyer || k
                == t.seller by {
                assert(more[i as int] == t);
                if names_agent(more, k) {
                    let j = choose|j: int|
                        0 <= j < more.len() && ((#[trigger] more[j]).buyer == k || more[j].seller == k);
                    if j < i {
                        assert(fewer[j] == more[j]);
                    }
                }
                if names_agent(fewer, k) {
                    let j = choose|j: int|
                        0 <= j < fewer.len() && ((#[trigger] fewer[j]).buyer == k || fewer[j].seller == k);
                    assert(fewer[j] == more[j]);
                }
            }
        }
        i += 1;
    }
    assert(trades@.take(i as int) =~= trades@);
    agents
}

impl TaskBoard {
    /// Everything that filling an order changed on this stage.
    #[verifier::rlimit(40)]
    #[verifier::spinoff_prover]
    fn changed_by(&self, order: Order, trades: Vec<Trade>, owner: &PublicKey, fee_sink: &PublicKey, fees: bool) -> (fill:
        Fill)
        requires
            self.wf(),
            self@.orders.contains_key(order.id),
            self@.orders[order.id] == order,
            forall|id: Id| #[trigger] names_order(trades@, id) ==> self@.orders.contains_key(id),
            fees == (fees_on(trades@, Side::Buy) > 0 || fees_on(trades@, Side::Sell) > 0),
        ensures
            fill.order == order,
            fill.trades@ == trades@,
            records(fill, self@, *owner, *fee_sink),
    {
        let mut ids = named_orders(&trades);
        ids.remove(&order.id);
        let mut orders: Vec<Order> = Vec::new();
        orders.push(order);
        let ghost rows = ids.rows();
        let mut i: usize = 0;
        while i < ids.len()
            invariant
                i <= rows.len(),
                rows == ids.rows(),
                ids.wf(),
                self.wf(),
                self@.orders.contains_key(order.id),
                self@.orders[order.id] == order,
                forall|id: Id| #[trigger] ids@.contains_key(id) <==> id != order.id && names_order(trades@, id),
                forall|id: Id| #[trigger] names_order(trades@, id) ==> self@.orders.contains_key(id),
                orders@.len() == i + 1,
                orders@[0] == order,
                forall|j: int| 1 <= j < orders@.len() ==> (#[trigger] orders@[j]).id == rows[j - 1].0,
                forall|j: int|
                    0 <= j < orders@.len() ==> self@.orders.contains_key((#[trigger] orders@[j]).id)
                        && self@.orders[orders@[j].id] == orders@[j],
            decreases rows.len() - i,
        {
            let id = ids.key_at(i);
            proof {
                lemma_row_is_mapped(rows, i as int);
                assert(ids@.contains_key(id));
                assert(self@.wf());
                assert(names_order(trades@, id));
                assert(self@.orders[id].id == id);
            }
            if let Some(o) = self.orders.get(&id) {
                orders.push(*o);
            }
            i += 1;
        }
        let mut agents = named_agents(&trades);
        agents.insert(*owner, ());
        if fees {
            agents.insert(*fee_sink, ());
        }
        let ghost keys = agents.rows();
        let mut accounts: Vec<(PublicKey, ExchangeAccount)> = Vec::new();
        let mut k: usize = 0;
        while k < agents.len()
            invariant
                k <= keys.len(),
                keys == agents.rows(),
                self.wf(),
                accounts@.len() == k,
                forall|j: int|
                    0 <= j < k ==> (#[trigger] accounts@[j]).0 == keys[j].0 && accounts@[j].1 == self@.account_of(
                        keys[j].0,
                    ),
            decreases keys.len() - k,
        {
            let agent = agents.key_at(k);
            accounts.push((agent, self.exchange_account(&agent)));
            k += 1;
        }
        let fill = Fill { order, orders, trades, accounts };
        proof {
            assert forall|id: Id|
                #![trigger names_order(fill.trades@, id)]
                lists_order(fill.orders@, id) <==> id == fill.order.id || names_order(fill.trades@, id) by {
                if id != order.id && names_order(trades@, id) {
                    assert(ids@.contains_key(id));
                    let j = row_of(rows, id);
                    lemma_row_is_mapped(rows, j);
                    assert(fill.orders@[j + 1].id == id);
                }
                if id == order.id {
                    assert(fill.orders@[0].id == id);
                }
                if lists_order(fill.orders@, id) && id != order.id {
                    let j = choose|j: int| 0 <= j < fill.orders@.len() && (#[trigger] fill.orders@[j]).id == id;
                    lemma_row_is_mapped(rows, j - 1);
                    assert(ids@.contains_key(id));
                }
            }
            assert forall|j: int| 1 <= j < fill.orders@.len() implies (#[trigger] fill.orders@[j]).id
                != fill.order.id by {
                lemma_row_is_mapped(rows, j - 1);
                assert(ids@.contains_key(rows[j - 1].0));
            }
            assert forall|i: int, j: int| 1 <= i < j < fill.orders@.len() implies (#[trigger] fill.orders@[i]).id
                < (#[trigger] fill.orders@[j]).id by {
                assert(rows[i - 1].0.rank() < rows[j - 1].0.rank());
            }
            assert(ascending(fill.accounts@)) by {
                assert forall|i: int, j: int| 0 <= i < j < fill.accounts@.len() implies (
                #[trigger] fill.accounts@[i]).0.rank() < (#[trigger] fill.accounts@[j]).0.rank() by {
                    assert(keys[i].0.rank() < keys[j].0.rank());
                }
            }
            assert forall|q: PublicKey|
                #![trigger names_agent(fill.trades@, q)]
                lists_account(fill.accounts@, q) <==> q == *owner || names_agent(fill.trades@, q) || (fees && q == *fee_sink) by {
                if agents@.contains_key(q) {
                    let j = row_of(keys, q);
                    lemma_row_is_mapped(keys, j);
                    assert(fill.accounts@[j].0 == q);
                }
                if lists_account(fill.accounts@, q) {
                    let i = choose|i: int| 0 <= i < fill.accounts@.len() && (#[trigger] fill.accounts@[i]).0 == q;
                    lemma_row_is_mapped(keys, i);
                    assert(agents@.contains_key(q));
                }
            }
            assert(fees == (fees_on(fill.trades@, Side::Buy) > 0 || fees_on(fill.trades@, Side::Sell) > 0));
            assert(fill.orders@.len() > 0 && fill.orders@[0] == fill.order);
            assert(forall|i: int|
                0 <= i < fill.orders@.len() ==> self@.orders.contains_key((#[trigger] fill.orders@[i]).id)
                    && self@.orders[fill.orders@[i].id] == fill.orders@[i]);
            assert(forall|i: int|
                0 <= i < fill.accounts@.len() ==> self@.account_of((#[trigger] fill.accounts@[i]).0)
                    == fill.accounts@[i].1);
            assert(forall|k: PublicKey|
                #![trigger names_agent(fill.trades@, k)]
                lists_account(fill.accounts@, k) <==> k == *owner || names_agent(fill.trades@, k) || (fees && k
                    == *fee_sink));
        }
        fill
    }

    /// Fills an order on a stage, pays its fees to `fee_sink`, and says what
    /// changed. The board stays as it is until that is published.
    pub fn fill_order(
        &self,
        owner: PublicKey,
        side: Side,
        price: u64,
        quantity: u64,
        fee_sink: &PublicKey,
        now: Timestamp,
    ) -> (r: Result<Fill, BoardError>)
        requires
            self.wf(),
            self@.exchange_sound(),
        ensures
            match order_refusal(self@, owner, side, price, quantity) {
                Some(e) => r is Err && r->Err_0 == e,
                None => {
                    let fill = r->Ok_0;
                    let begun = order_opened(
                        self@,
                        fresh_order(fill.order.id, owner, side, price, quantity, now),
                    );
                    let ids = trade_ids(fill.trades@);
                    let done = begun.after(ids, now);
                    &&& r is Ok
                    &&& begun.ran(ids, now)
                    &&& !done.goes_on()
                    &&& fill.order == matched_order(done.taker)
                    &&& fill.trades@ == done.trades
                    &&& fill.applied(self@) == with_fees(order_placed(done), *fee_sink, done.trades)
                    &&& fill.applied(self@).exchange_sound()
                    &&& records(fill, fill.applied(self@), owner, *fee_sink)
                },
            },
    {
        let mut stage = self.stage_order(&owner, side, price, fee_sink);
        let ghost s = stage@;
        assert(s.account_of(owner) == self@.account_of(owner));
        let (order, trades) = match stage.place_order(owner, side, price, quantity, now) {
            Err(e) => return Err(e),
            Ok(filled) => filled,
        };
        let ghost fresh = fresh_order(order.id, owner, side, price, quantity, now);
        let ghost ids = trade_ids(trades@);
        let ghost begun = order_opened(s, fresh);
        let ghost done = begun.after(ids, now);
        proof {
            lemma_order_opened(s, fresh);
            lemma_matching_conserves(begun, ids, now);
            lemma_taker_keeps_terms(begun, ids, now);
            assert(stage@ == order_placed(done));
            assert(stage@.base_total() == done.board.base_total());
            assert(stage@.compute_total() == done.board.compute_total());
            lemma_account_within(stage@, *fee_sink);
            assert(fees_on(Seq::<Trade>::empty(), Side::Buy) == 0);
            assert(fees_on(Seq::<Trade>::empty(), Side::Sell) == 0);
        }
        let (compute_fees, base_fees) = taker_fee_totals(&trades);
        if compute_fees > 0 {
            stage.credit_compute(fee_sink, compute_fees);
        }
        if base_fees > 0 {
            stage.credit_base(fee_sink, base_fees);
        }
        assert(stage@ == with_fees(order_placed(done), *fee_sink, done.trades));
        proof {
            assert forall|id: Id| #[trigger] names_order(trades@, id) implies stage@.orders.contains_key(id) by {
                lemma_traded_orders_are_known(begun, ids, now, id);
            }
        }
        let fill = stage.changed_by(order, trades, &owner, fee_sink, compute_fees > 0 || base_fees > 0);
        proof {
            lemma_fill_applies(self@, fresh, *fee_sink, ids, now, fill);
            lemma_fill_conserves(self@, fresh, *fee_sink, ids, now);
        }
        Ok(fill)
    }
}

/// What a deposit to the exchange changes: whose account, how it is afterwards, and
/// how the deposit is.
pub open spec fn deposit_parts(b: BoardView, id: Id, observed: u64, network_fee: u64) -> (
    PublicKey,
    ExchangeAccount,
    DepositView,
) {
    let d = b.pending_deposits[id];
    (
        d.depositor,
        more_base(b.account_of(d.depositor), net_of_fee(observed, network_fee)),
        with_status(d, EscrowStatus::Consumed),
    )
}

impl TaskBoard {
    /// Cancels an order of the caller's beside the board, and says what the
    /// order and the account are then.
    pub fn stage_cancel_order(&self, order_id: Id, caller: &PublicKey) -> (r: Result<(Order, ExchangeAccount), BoardError>)
        requires
            self.wf(),
            self@.exchange_sound(),
        ensures
            match cancel_order_refusal(self@, order_id, *caller) {
                Some(e) => r is Err && r->Err_0 == e,
                None => {
                    let (order, account) = r->Ok_0;
                    &&& r is Ok
                    &&& order == cancelled(self@.orders[order_id])
                    &&& self@.with_order(order).with_account(*caller, account) == order_cancelled(self@, order_id)
                },
            },
    {
        let order = match self.orders.get(&order_id) {
            Some(order) => *order,
            None => return Err(BoardError::OrderNotFound),
        };
        if order.owner != *caller {
            return Err(BoardError::NotOrderOwner);
        }
        let mut stage = TaskBoard::new();
        stage.restore_order(order);
        stage.restore_exchange_account(*caller, self.exchange_account(caller));
        proof {
            assert(self@.orders.contains_key(order_id));
            lemma_part_is_sound(stage@, self@);
        }
        match stage.cancel_order(order_id, caller) {
            Err(e) => Err(e),
            Ok(gone) => Ok((gone, stage.exchange_account(caller))),
        }
    }

    /// Credits a deposit to its depositor beside the board, less the fee that
    /// moving it will cost, and says who is credited and what the account and
    /// the deposit are then.
    pub fn stage_exchange_deposit(&self, id: Id, observed_amount: u64, network_fee: u64, now: Timestamp) -> (r: Result<
        (PublicKey, ExchangeAccount, PendingDeposit),
        BoardError,
    >)
        requires
            self.wf(),
            deposit_refusal(
                self@,
                id,
                observed_amount,
                now,
                self@.pending_deposits[id].purpose is FundExchangeAccount,
            ) is None ==> self@.account_of(self@.pending_deposits[id].depositor).base_balance + observed_amount
                - network_fee <= u64::MAX,
        ensures
            match deposit_refusal(
                self@,
                id,
                observed_amount,
                now,
                self@.pending_deposits[id].purpose is FundExchangeAccount,
            ) {
                Some(e) => r is Err && r->Err_0 == e,
                None => {
                    let (depositor, account, deposit) = r->Ok_0;
                    &&& r is Ok
                    &&& (depositor, account, deposit@) == deposit_parts(self@, id, observed_amount, network_fee)
                },
            },
    {
        let mut stage = TaskBoard::new();
        match self.pending_deposits.get(&id) {
            None => return Err(BoardError::EscrowNotFound),
            Some(deposit) => {
                stage.restore_exchange_account(deposit.depositor, self.exchange_account(&deposit.depositor));
                stage.restore_pending_deposit(deposit.duplicate());
            },
        }
        assert(self@.pending_deposits.contains_key(id));
        match stage.confirm_exchange_deposit(id, observed_amount, network_fee, now) {
            Err(e) => Err(e),
            Ok((depositor, _)) => {
                let account = stage.exchange_account(&depositor);
                match stage.pending_deposits.get(&id) {
                    None => Err(BoardError::EscrowNotFound),
                    Some(deposit) => Ok((depositor, account, deposit.duplicate())),
                }
            },
        }
    }
}

}
