//! What somebody who places an order can rely on.
use crate::board::BoardView;
use crate::board::conservation::{lemma_matching_conserves, lemma_next_may_match, lemma_ran_before};
use crate::board::exchange::{
    best_match, comes_first, fee_of, fill_quantity, fresh_order, is_best_match, lemma_match_is_covered,
    lemma_order_opened, lemma_taker_keeps_terms, may_match, order_opened, order_refusal, places, trade_ids,
    trading_parties, with_trades, Matching,
};
use crate::board::types::{BoardError, Order, OrderStatus, Side, Trade};
use crate::seqs::total;
use crate::table::{ascending, lemma_listed, lemma_row_is_mapped, row_of, rows_of, Key};
use crate::types::{Id, PublicKey, Timestamp};
use vstd::prelude::*;

verus! {

/// Whether `o` is open, of somebody else, on the other side of the book, and at
/// a price that `taker` takes: at most its own for a buy, at least its own for a
/// sale.
pub open spec fn is_counterpart(taker: Order, o: Order) -> bool {
    &&& o.status == OrderStatus::Open
    &&& o.owner != taker.owner
    &&& o.side != taker.side
    &&& taker.side == Side::Buy ==> o.price <= taker.price
    &&& taker.side == Side::Sell ==> taker.price <= o.price
}

/// An order is matched with nothing but a counterpart on the book.
pub proof fn lemma_match_is_counterpart(b: BoardView, taker: Order, id: Id)
    requires
        best_match(b, taker) == Some(id),
    ensures
        b.orders.contains_key(id),
        is_counterpart(taker, b.orders[id]),
{
    assert(is_best_match(b, taker, id));
}

/// The best price comes first: a buyer is matched with no dearer an offer than
/// any other they could have, a seller with no lower a bid, and of equal prices
/// the one that was there first.
pub proof fn lemma_best_price_first(b: BoardView, taker: Order, id: Id, other: Id)
    requires
        best_match(b, taker) == Some(id),
        b.orders.contains_key(other),
        is_counterpart(taker, b.orders[other]),
    ensures
        taker.side == Side::Buy ==> b.orders[id].price <= b.orders[other].price,
        taker.side == Side::Sell ==> b.orders[id].price >= b.orders[other].price,
        b.orders[id].price == b.orders[other].price ==> b.orders[id].created_at.nanos
            <= b.orders[other].created_at.nanos,
{
    assert(is_best_match(b, taker, id));
}

/// Of rows with an order that may be matched, one comes before all the others.
proof fn lemma_one_comes_first(taker: Order, rows: Seq<(Id, Order)>, n: int) -> (j: int)
    requires
        0 <= n < rows.len(),
        may_match(taker, rows[n].1),
        ascending(rows),
        forall|i: int| 0 <= i < rows.len() ==> (#[trigger] rows[i]).1.id == rows[i].0,
    ensures
        0 <= j < rows.len(),
        may_match(taker, rows[j].1),
        forall|i: int|
            0 <= i < rows.len() && may_match(taker, (#[trigger] rows[i]).1) ==> comes_first(
                taker.side,
                rows[j].1,
                rows[i].1,
            ),
    decreases rows.len(),
{
    let last = rows.len() - 1;
    let shorter = rows.drop_last();
    assert forall|i: int| 0 <= i < shorter.len() implies (#[trigger] shorter[i]).1.id == shorter[i].0 by {
        assert(shorter[i] == rows[i]);
    }
    assert forall|i: int, j: int| 0 <= i < j < shorter.len() implies (#[trigger] shorter[i]).0.rank() < (
    #[trigger] shorter[j]).0.rank() by {
        assert(rows[i].0.rank() < rows[j].0.rank());
    }
    if exists|i: int| 0 <= i < last && may_match(taker, (#[trigger] rows[i]).1) {
        let i = choose|i: int| 0 <= i < last && may_match(taker, (#[trigger] rows[i]).1);
        let j = lemma_one_comes_first(taker, shorter, i);
        assert(shorter[j] == rows[j]);
        assert forall|i: int| 0 <= i < last && may_match(taker, (#[trigger] rows[i]).1) implies comes_first(
            taker.side,
            rows[j].1,
            rows[i].1,
        ) by {
            assert(shorter[i] == rows[i]);
        }
        if may_match(taker, rows[last].1) && !comes_first(taker.side, rows[j].1, rows[last].1) {
            assert(rows[j].0.rank() < rows[last].0.rank());
            last
        } else {
            j
        }
    } else {
        n
    }
}

/// An order finds a match wherever there is one to find.
pub proof fn lemma_counterpart_is_found(b: BoardView, taker: Order, id: Id)
    requires
        b.wf(),
        b.orders.contains_key(id),
        is_counterpart(taker, b.orders[id]),
    ensures
        best_match(b, taker) is Some,
{
    lemma_listed(b.orders);
    let rows = rows_of(b.orders);
    let n = row_of(rows, id);
    lemma_row_is_mapped(rows, n);
    assert forall|i: int| 0 <= i < rows.len() implies (#[trigger] rows[i]).1.id == rows[i].0 && b.orders.contains_key(
        rows[i].0,
    ) && b.orders[rows[i].0] == rows[i].1 by {
        lemma_row_is_mapped(rows, i);
        assert(b.orders.contains_key(rows[i].0));
    }
    let j = lemma_one_comes_first(taker, rows, n);
    let best = rows[j].0;
    assert forall|other: Id| #[trigger] b.orders.contains_key(other) && may_match(
        taker,
        b.orders[other],
    ) implies comes_first(taker.side, b.orders[best], b.orders[other]) by {
        let i = row_of(rows, other);
        lemma_row_is_mapped(rows, i);
        assert(may_match(taker, rows[i].1));
    }
    assert(is_best_match(b, taker, best));
}

/// What a match moves. As much changes hands as the two orders have left to
/// fill, at the price of the order that was there first. The buyer pays that
/// price and the seller gets it; the buyer's lock gives way at the price the
/// buyer had offered. The taker, and nobody else, pays a thousandth of what they
/// get, rounded down. No other order and no other account changes.
pub proof fn lemma_match_moves(m: Matching, trade_id: Id, now: Timestamp)
    requires
        m.sound(),
        m.goes_on(),
    ensures
        ({
            let z = m.next(trade_id, now);
            let o = m.board.orders[best_match(m.board, m.taker)->0];
            let left = z.board.orders[o.id];
            let t = z.trades.last();
            let q = t.quantity as int;
            let fee = t.taker_fee as int;
            let buys = m.taker.side == Side::Buy;
            let buyer = if buys { m.taker.owner } else { o.owner };
            let seller = if buys { o.owner } else { m.taker.owner };
            let offered = if buys { m.taker.price } else { o.price };
            let got = if buys { q } else { o.price * q };
            &&& z.trades.drop_last() == m.trades
            &&& t == (Trade {
                id: trade_id,
                buy_order_id: if buys { m.taker.id } else { o.id },
                sell_order_id: if buys { o.id } else { m.taker.id },
                buyer,
                seller,
                price: o.price,
                executed_at: now,
                taker_side: m.taker.side,
                ..t
            })
            &&& 0 < q
            &&& q == m.taker.quantity - m.taker.filled || q == o.quantity - o.filled
            &&& q <= m.taker.quantity - m.taker.filled
            &&& q <= o.quantity - o.filled
            &&& 1000 * fee <= got < 1000 * (fee + 1)
            &&& z.taker == (Order { filled: z.taker.filled, ..m.taker })
            &&& z.taker.filled == m.taker.filled + q
            &&& left == (Order { filled: left.filled, status: left.status, ..o })
            &&& left.filled == o.filled + q
            &&& left.status == OrderStatus::Filled <==> left.filled == o.quantity
            &&& left.status == OrderStatus::Open <==> left.filled < o.quantity
            &&& z.board.account_of(buyer).base_balance == m.board.account_of(buyer).base_balance - o.price * q
            &&& z.board.account_of(buyer).locked_base == m.board.account_of(buyer).locked_base - offered * q
            &&& z.board.account_of(buyer).compute_balance == m.board.account_of(buyer).compute_balance + q - (if buys {
                fee
            } else {
                0
            })
            &&& z.board.account_of(buyer).locked_compute == m.board.account_of(buyer).locked_compute
            &&& z.board.account_of(seller).compute_balance == m.board.account_of(seller).compute_balance - q
            &&& z.board.account_of(seller).locked_compute == m.board.account_of(seller).locked_compute - q
            &&& z.board.account_of(seller).base_balance == m.board.account_of(seller).base_balance + o.price * q - (
            if buys {
                0
            } else {
                fee
            })
            &&& z.board.account_of(seller).locked_base == m.board.account_of(seller).locked_base
            &&& forall|id: Id| id != o.id ==> (#[trigger] z.board.orders.contains_key(id) == m.board.orders.contains_key(
                id,
            )) && z.board.orders[id] == m.board.orders[id]
            &&& forall|k: PublicKey| k != buyer && k != seller ==> #[trigger] z.board.account_of(k)
                == m.board.account_of(k)
            &&& z.board == (BoardView {
                orders: z.board.orders,
                exchange_accounts: z.board.exchange_accounts,
                ..m.board
            })
        }),
{
    lemma_next_may_match(m);
    let o = m.board.orders[best_match(m.board, m.taker)->0];
    assert(o.sound());
    lemma_match_is_covered(m, o);
    let q = fill_quantity(m.taker, o);
    let fee = fee_of(m.taker.side, o.price, q);
    let limit = trading_parties(m.taker, o).1 as int;
    let p = o.price as int;
    assert(0 <= p * q <= limit * q) by (nonlinear_arith)
        requires
            0 <= p <= limit,
            q >= 0,
    ;
    let z = m.next(trade_id, now);
    assert(z.trades.drop_last() =~= m.trades);
    let got = if m.taker.side == Side::Buy { q } else { p * q };
    assert(fee == got * 10 / 10_000);
    assert(1000 * fee <= got < 1000 * (fee + 1));
}

/// An order is taken if it is for something at some price, is worth a number of
/// sixty-four bits, and the owner has what it may need: the whole price free of
/// other orders for a buy, the whole quantity for a sale.
pub proof fn lemma_who_may_place(b: BoardView, owner: PublicKey, side: Side, price: u64, quantity: u64)
    requires
        b.exchange_sound(),
    ensures
        ({
            let a = b.account_of(owner);
            let free_base = a.base_balance - a.locked_base;
            let free_compute = a.compute_balance - a.locked_compute;
            let worth = price * quantity;
            let free = if side == Side::Buy { free_base } else { free_compute };
            let needed = if side == Side::Buy { worth } else { quantity as int };
            let e = order_refusal(b, owner, side, price, quantity);
            &&& e is None <==> price > 0 && quantity > 0 && worth <= u64::MAX && needed <= free
            &&& e == Some(BoardError::InvalidOrder) <==> price == 0 || quantity == 0
            &&& e == Some(BoardError::OrderNotionalOverflow) <==> price > 0 && quantity > 0 && worth > u64::MAX
            &&& price > 0 && quantity > 0 && worth <= u64::MAX && free < needed <==> e is Some
                && e->0 is InsufficientBalance
            &&& e is Some && e->0 is InsufficientBalance ==> e->0 == (BoardError::InsufficientBalance {
                available: free as u64,
                required: needed as u64,
            })
        }),
{
    assert(b.covers(owner, 0, 0));
    assert(b.account_of(owner).locked_base <= b.account_of(owner).base_balance);
    assert(b.account_of(owner).locked_compute <= b.account_of(owner).compute_balance);
    if price == 0 || quantity == 0 {
        assert(price * quantity == 0) by (nonlinear_arith)
            requires
                price == 0 || quantity == 0,
        ;
    }
}

/// What an order takes off what its owner may spend before it is matched: its
/// whole price for a buy, its whole quantity for a sale. Nothing leaves the
/// account.
pub proof fn lemma_order_locks(b: BoardView, order: Order)
    requires
        b.wf(),
        b.exchange_sound(),
        order == fresh_order(order.id, order.owner, order.side, order.price, order.quantity, order.created_at),
        order_refusal(b, order.owner, order.side, order.price, order.quantity) is None,
    ensures
        ({
            let before = b.account_of(order.owner);
            let after = order_opened(b, order).board.account_of(order.owner);
            &&& after.base_balance == before.base_balance
            &&& after.compute_balance == before.compute_balance
            &&& order.side == Side::Buy ==> after.locked_base == before.locked_base + order.price * order.quantity
                && after.locked_compute == before.locked_compute
            &&& order.side == Side::Sell ==> after.locked_compute == before.locked_compute + order.quantity
                && after.locked_base == before.locked_base
            &&& order_opened(b, order).taker == order
            &&& order_opened(b, order).trades.len() == 0
            &&& order_opened(b, order).board.orders == b.orders
            &&& forall|k: PublicKey| k != order.owner ==> #[trigger] order_opened(b, order).board.account_of(k)
                == b.account_of(k)
        }),
{
    assert(b.covers(order.owner, 0, 0));
    assert(b.account_of(order.owner).locked_base <= b.account_of(order.owner).base_balance);
    assert(b.account_of(order.owner).locked_compute <= b.account_of(order.owner).compute_balance);
}

/// How much of an order is filled is how much its trades are for.
proof fn lemma_filled_by_trades(m: Matching, ids: Seq<Id>, now: Timestamp)
    requires
        m.sound(),
        m.ran(ids, now),
        m.trades.len() == 0,
        m.taker.filled == 0,
    ensures
        m.after(ids, now).taker.filled == total(m.after(ids, now).trades, |t: Trade| t.quantity as int),
    decreases ids.len(),
{
    if ids.len() > 0 {
        let fewer = ids.drop_last();
        lemma_ran_before(m, ids, now);
        lemma_filled_by_trades(m, fewer, now);
        lemma_matching_conserves(m, fewer, now);
        lemma_match_moves(m.after(fewer, now), ids.last(), now);
    }
}

/// What comes of an order that is taken. It stays its owner's, on its side and
/// at its price; it is filled by as much as its trades are for, and `Filled`
/// exactly if that is all of it. It is on record, and as long as it is not filled
/// nothing is left on the book that it could be matched with.
pub proof fn lemma_order_is_served(
    b: BoardView,
    owner: PublicKey,
    side: Side,
    price: u64,
    quantity: u64,
    now: Timestamp,
    r: Result<(Order, Vec<Trade>), BoardError>,
    after: BoardView,
)
    requires
        b.wf(),
        b.exchange_sound(),
        places(b, owner, side, price, quantity, now, r, after),
        order_refusal(b, owner, side, price, quantity) is None,
        !b.orders.contains_key(r->Ok_0.0.id),
    ensures
        r is Ok,
        ({
            let (order, trades) = r->Ok_0;
            &&& order == (Order {
                owner,
                side,
                price,
                quantity,
                created_at: now,
                ..order
            })
            &&& order.filled == total(trades@, |t: Trade| t.quantity as int)
            &&& order.filled <= quantity
            &&& order.status == OrderStatus::Filled <==> order.filled == quantity
            &&& order.status == OrderStatus::Open <==> order.filled < quantity
            &&& after.orders.contains_key(order.id)
            &&& after.orders[order.id] == order
            &&& order.filled < quantity ==> forall|id: Id| #[trigger]
                after.orders.contains_key(id) ==> !is_counterpart(order, after.orders[id])
        }),
{
    let (order, trades) = r->Ok_0;
    let begun = order_opened(b, fresh_order(order.id, owner, side, price, quantity, now));
    let ids = trade_ids(trades@);
    let done = begun.after(ids, now);
    lemma_taker_keeps_terms(begun, ids, now);
    lemma_order_opened(b, begun.taker);
    lemma_matching_conserves(begun, ids, now);
    lemma_filled_by_trades(begun, ids, now);
    if order.filled < quantity {
        assert forall|id: Id| #[trigger] after.orders.contains_key(id) implies !is_counterpart(
            order,
            after.orders[id],
        ) by {
            if id != order.id && is_counterpart(order, after.orders[id]) {
                assert(done.board.orders.contains_key(id));
                lemma_counterpart_is_found(done.board, done.taker, id);
            }
        }
    }
}

/// An order that is refused changes nothing: everybody has what they had, and no
/// order and no trade is filed.
pub proof fn lemma_refused_order_changes_nothing(
    b: BoardView,
    owner: PublicKey,
    side: Side,
    price: u64,
    quantity: u64,
    now: Timestamp,
    r: Result<(Order, Vec<Trade>), BoardError>,
    after: BoardView,
    agent: PublicKey,
)
    requires
        places(b, owner, side, price, quantity, now, r, after),
        order_refusal(b, owner, side, price, quantity) is Some,
    ensures
        r is Err,
        Some(r->Err_0) == order_refusal(b, owner, side, price, quantity),
        after.account_of(agent) == b.account_of(agent),
        after.orders == b.orders,
        after.trades == b.trades,
        after.tasks == b.tasks,
        after.payments == b.payments,
        after.reputation == b.reputation,
{
}

proof fn lemma_filed(trades: Map<Id, Trade>, more: Seq<Trade>, id: Id)
    ensures
        ({
            let all = with_trades(trades, more);
            let among = exists|i: int| 0 <= i < more.len() && (#[trigger] more[i]).id == id;
            &&& all.contains_key(id) <==> trades.contains_key(id) || among
            &&& among ==> more.contains(all[id]) && all[id].id == id
            &&& !among ==> all[id] == trades[id]
        }),
    decreases more.len(),
{
    if more.len() > 0 {
        let fewer = more.drop_last();
        let last = more.len() - 1;
        lemma_filed(trades, fewer, id);
        assert(more[last] == more.last());
        assert forall|i: int| 0 <= i < last implies #[trigger] more[i] == fewer[i] by {
        }
        if more[last].id != id && exists|i: int| 0 <= i < more.len() && (#[trigger] more[i]).id == id {
            let i = choose|i: int| 0 <= i < more.len() && (#[trigger] more[i]).id == id;
            assert(fewer[i].id == id);
            let j = choose|j: int| 0 <= j < fewer.len() && fewer[j] == with_trades(trades, fewer)[id];
            assert(more[j] == fewer[j]);
        }
    }
}

/// The trades that an order makes are filed, each under its id, and those that were
/// there stay.
pub proof fn lemma_trades_are_filed(
    b: BoardView,
    owner: PublicKey,
    side: Side,
    price: u64,
    quantity: u64,
    now: Timestamp,
    r: Result<(Order, Vec<Trade>), BoardError>,
    after: BoardView,
    id: Id,
)
    requires
        b.wf(),
        b.exchange_sound(),
        places(b, owner, side, price, quantity, now, r, after),
        order_refusal(b, owner, side, price, quantity) is None,
    ensures
        ({
            let made = r->Ok_0.1@;
            let among = exists|i: int| 0 <= i < made.len() && (#[trigger] made[i]).id == id;
            &&& after.trades.contains_key(id) <==> b.trades.contains_key(id) || among
            &&& among ==> made.contains(after.trades[id]) && after.trades[id].id == id
            &&& !among ==> after.trades[id] == b.trades[id]
        }),
{
    let (order, trades) = r->Ok_0;
    let begun = order_opened(b, fresh_order(order.id, owner, side, price, quantity, now));
    let ids = trade_ids(trades@);
    lemma_board_files_no_trade(begun, ids, now);
    lemma_filed(b.trades, trades@, id);
}

/// While an order is matched its trades are set aside, not filed.
proof fn lemma_board_files_no_trade(m: Matching, ids: Seq<Id>, now: Timestamp)
    ensures
        m.after(ids, now).board.trades == m.board.trades,
    decreases ids.len(),
{
    if ids.len() > 0 {
        lemma_board_files_no_trade(m, ids.drop_last(), now);
    }
}

/// The ledger holds what sixty-four bits show: every order's price and quantity, and
/// what all accounts have of either kind.
pub proof fn lemma_what_the_ledger_holds(b: BoardView)
    ensures
        b.ledger_fits() <==> {
            &&& forall|id: Id| #[trigger] b.orders.contains_key(id) ==> b.orders[id].sound()
            &&& b.base_total() <= 0xffff_ffff_ffff_ffff
            &&& b.compute_total() <= 0xffff_ffff_ffff_ffff
        },
{
}

}
