//! What matching keeps: the totals of both assets but for the fees, and every
//! account and order that no trade names.
use crate::board::exchange::{
    best_match, is_best_match, lemma_match_is_covered, lemma_match_keeps_sound, lemma_two_accounts, may_match, settled,
    trade_of, trading_parties, Matching,
};
use crate::board::types::{Order, Side, Trade};
use crate::board::BoardView;
use crate::seqs::{lemma_total_step, total};
use crate::table::listable;
use crate::types::{Id, PublicKey, Timestamp};
use vstd::prelude::*;

verus! {

/// The fee of a trade whose taker was on `side`.
pub open spec fn fee_on(side: Side) -> spec_fn(Trade) -> int {
    |t: Trade|
        if t.taker_side == side {
            t.taker_fee as int
        } else {
            0
        }
}

/// The fees of the trades whose taker was on `side`. They are in compute for a
/// buy and in base for a sale.
pub open spec fn fees_on(trades: Seq<Trade>, side: Side) -> int {
    total(trades, fee_on(side))
}

/// A trade more is its fee more.
pub proof fn lemma_fees_push(trades: Seq<Trade>, t: Trade, side: Side)
    ensures
        fees_on(trades.push(t), side) == fees_on(trades, side) + fee_on(side)(t),
{
    assert(trades.push(t).drop_last() =~= trades);
    lemma_total_step(trades.push(t), fee_on(side), trades.len() as int);
    assert(trades.push(t).take(trades.len() as int) =~= trades);
    assert(trades.push(t).take(trades.len() as int + 1) =~= trades.push(t));
}

/// What matching goes through one by one it goes through up to any of them.
pub proof fn lemma_ran_before(m: Matching, ids: Seq<Id>, now: Timestamp)
    requires
        m.ran(ids, now),
        ids.len() > 0,
    ensures
        m.ran(ids.drop_last(), now),
        m.after(ids.drop_last(), now).goes_on(),
{
    let fewer = ids.drop_last();
    assert forall|n: int| 0 <= n < fewer.len() implies (#[trigger] m.after(fewer.take(n), now)).goes_on() by {
        assert(fewer.take(n) =~= ids.take(n));
    }
    assert(ids.take(ids.len() - 1) =~= fewer);
}

/// The order that is matched next is one that may be matched.
pub proof fn lemma_next_may_match(m: Matching)
    requires
        m.board.wf(),
        m.goes_on(),
    ensures
        ({
            let id = best_match(m.board, m.taker)->0;
            &&& is_best_match(m.board, m.taker, id)
            &&& m.board.orders.contains_key(id)
            &&& m.board.orders[id].id == id
            &&& may_match(m.taker, m.board.orders[id])
        }),
{
    let id = best_match(m.board, m.taker)->0;
    assert(is_best_match(m.board, m.taker, id));
    assert(m.board.orders.contains_key(id));
}

/// A match leaves the board well formed.
proof fn lemma_settled_wf(m: Matching, resting: Order)
    requires
        m.sound(),
        m.taker.filled < m.taker.quantity,
        m.board.orders.contains_key(resting.id),
        m.board.orders[resting.id] == resting,
        may_match(m.taker, resting),
    ensures
        settled(m.board, m.taker, resting).wf(),
{
    lemma_match_keeps_sound(m, resting);
    let b = m.board;
    let after = settled(b, m.taker, resting);
    assert(after.tasks == b.tasks);
    assert forall|id: Id| #[trigger] after.orders.contains_key(id) implies after.orders[id].id == id by {
        if id != resting.id {
            assert(b.orders.contains_key(id));
        }
    }
}

/// Nothing is made and nothing is lost by matching: however far it goes, what
/// the accounts hold of each asset and the fees of the trades add up to what
/// the accounts held before. And the ledger stays sound.
pub proof fn lemma_matching_conserves(m: Matching, ids: Seq<Id>, now: Timestamp)
    requires
        m.sound(),
        m.ran(ids, now),
    ensures
        m.after(ids, now).sound(),
        m.after(ids, now).board.base_total() + fees_on(m.after(ids, now).trades, Side::Sell) == m.board.base_total()
            + fees_on(m.trades, Side::Sell),
        m.after(ids, now).board.compute_total() + fees_on(m.after(ids, now).trades, Side::Buy)
            == m.board.compute_total() + fees_on(m.trades, Side::Buy),
    decreases ids.len(),
{
    if ids.len() > 0 {
        lemma_ran_before(m, ids, now);
        lemma_matching_conserves(m, ids.drop_last(), now);
        let a = m.after(ids.drop_last(), now);
        lemma_next_may_match(a);
        let resting = a.board.orders[best_match(a.board, a.taker)->0];
        lemma_match_is_covered(a, resting);
        lemma_match_keeps_sound(a, resting);
        lemma_settled_wf(a, resting);
        let t = trade_of(a.taker, resting, ids.last(), now);
        lemma_fees_push(a.trades, t, Side::Sell);
        lemma_fees_push(a.trades, t, Side::Buy);
    }
}

/// Nobody trades with themselves, and every trade is at the price of the order
/// that was there first and at no worse a price than either party asked for.
pub proof fn lemma_trades_are_fair(m: Matching, ids: Seq<Id>, now: Timestamp, i: int)
    requires
        m.sound(),
        m.ran(ids, now),
        m.trades.len() == 0,
        0 <= i < ids.len(),
    ensures
        ({
            let t = m.after(ids, now).trades[i];
            let before = m.after(ids.take(i), now);
            let resting = before.board.orders[best_match(before.board, before.taker)->0];
            &&& m.after(ids, now).trades.len() == ids.len()
            &&& t.id == ids[i]
            &&& t.buyer != t.seller
            &&& t.price == resting.price
            &&& t.taker_side == m.taker.side
            &&& m.taker.side == Side::Buy ==> t.buyer == m.taker.owner && t.price <= m.taker.price
            &&& m.taker.side == Side::Sell ==> t.seller == m.taker.owner && t.price >= m.taker.price
            &&& 0 < t.quantity
        }),
    decreases ids.len(),
{
    let fewer = ids.drop_last();
    lemma_ran_before(m, ids, now);
    lemma_matching_conserves(m, fewer, now);
    lemma_trade_count(m, ids, now);
    lemma_trade_count(m, fewer, now);
    crate::board::exchange::lemma_taker_keeps_terms(m, fewer, now);
    let a = m.after(fewer, now);
    lemma_next_may_match(a);
    let resting = a.board.orders[best_match(a.board, a.taker)->0];
    lemma_match_is_covered(a, resting);
    if i < fewer.len() {
        lemma_trades_are_fair(m, fewer, now, i);
        assert(fewer.take(i) =~= ids.take(i));
    } else {
        assert(ids.take(i) =~= fewer);
    }
}

/// There are as many trades as matches.
pub proof fn lemma_trade_count(m: Matching, ids: Seq<Id>, now: Timestamp)
    ensures
        m.after(ids, now).trades.len() == m.trades.len() + ids.len(),
        m.after(ids, now).board.trades == m.board.trades,
    decreases ids.len(),
{
    if ids.len() > 0 {
        lemma_trade_count(m, ids.drop_last(), now);
    }
}

/// Whether one of the trades names the order.
pub open spec fn names_order(trades: Seq<Trade>, id: Id) -> bool {
    exists|i: int|
        0 <= i < trades.len() && ((#[trigger] trades[i]).buy_order_id == id || trades[i].sell_order_id == id)
}

/// Whether one of the trades names the agent.
pub open spec fn names_agent(trades: Seq<Trade>, agent: PublicKey) -> bool {
    exists|i: int| 0 <= i < trades.len() && ((#[trigger] trades[i]).buyer == agent || trades[i].seller == agent)
}

/// Whether both orders say the same but for how much of them is filled.
pub open spec fn same_terms(a: Order, b: Order) -> bool {
    a == (Order { filled: a.filled, status: a.status, ..b })
}

/// Matching changes no order and no account that none of its trades names; no
/// order comes or goes, and none changes hands, side or price.
pub proof fn lemma_matching_leaves_others(m: Matching, ids: Seq<Id>, now: Timestamp, id: Id, agent: PublicKey)
    requires
        m.sound(),
        m.ran(ids, now),
        m.trades.len() == 0,
    ensures
        m.after(ids, now).board.orders.contains_key(id) == m.board.orders.contains_key(id),
        m.board.orders.contains_key(id) ==> same_terms(m.after(ids, now).board.orders[id], m.board.orders[id]),
        !names_order(m.after(ids, now).trades, id) ==> m.after(ids, now).board.orders[id] == m.board.orders[id],
        !names_agent(m.after(ids, now).trades, agent) ==> m.after(ids, now).board.exchange_accounts.contains_key(agent)
            == m.board.exchange_accounts.contains_key(agent) && m.after(ids, now).board.exchange_accounts[agent]
            == m.board.exchange_accounts[agent],
        m.after(ids, now).board == (BoardView {
            orders: m.after(ids, now).board.orders,
            exchange_accounts: m.after(ids, now).board.exchange_accounts,
            ..m.board
        }),
    decreases ids.len(),
{
    if ids.len() > 0 {
        let fewer = ids.drop_last();
        lemma_ran_before(m, ids, now);
        lemma_matching_leaves_others(m, fewer, now, id, agent);
        lemma_matching_conserves(m, fewer, now);
        let a = m.after(fewer, now);
        let z = m.after(ids, now);
        lemma_next_may_match(a);
        let resting = a.board.orders[best_match(a.board, a.taker)->0];
        let t = trade_of(a.taker, resting, ids.last(), now);
        assert(z.trades == a.trades.push(t));
        assert(z.trades[a.trades.len() as int] == t);
        if names_order(a.trades, id) {
            let i = choose|i: int|
                0 <= i < a.trades.len() && ((#[trigger] a.trades[i]).buy_order_id == id || a.trades[i].sell_order_id
                    == id);
            assert(z.trades[i] == a.trades[i]);
            assert(names_order(z.trades, id));
        }
        if names_agent(a.trades, agent) {
            let i = choose|i: int|
                0 <= i < a.trades.len() && ((#[trigger] a.trades[i]).buyer == agent || a.trades[i].seller == agent);
            assert(z.trades[i] == a.trades[i]);
            assert(names_agent(z.trades, agent));
        }
        assert(t.buy_order_id == resting.id || t.sell_order_id == resting.id);
        if id == resting.id {
            assert(names_order(z.trades, id));
        }
        let (buyer, limit, seller) = trading_parties(a.taker, resting);
        if agent == buyer || agent == seller {
            assert(names_agent(z.trades, agent));
        }
        assert(z.board == settled(a.board, a.taker, resting));
    }
}

/// No account goes by matching, and whoever a trade names has one.
pub proof fn lemma_parties_have_accounts(m: Matching, ids: Seq<Id>, now: Timestamp, agent: PublicKey)
    requires
        m.trades.len() == 0,
    ensures
        m.board.exchange_accounts.contains_key(agent) ==> m.after(ids, now).board.exchange_accounts.contains_key(agent),
        names_agent(m.after(ids, now).trades, agent) ==> m.after(ids, now).board.exchange_accounts.contains_key(agent),
    decreases ids.len(),
{
    if ids.len() > 0 {
        let fewer = ids.drop_last();
        lemma_parties_have_accounts(m, fewer, now, agent);
        let a = m.after(fewer, now);
        let z = m.after(ids, now);
        let resting = a.board.orders[best_match(a.board, a.taker)->0];
        let t = trade_of(a.taker, resting, ids.last(), now);
        assert(z.trades == a.trades.push(t));
        if names_agent(z.trades, agent) && !names_agent(a.trades, agent) {
            let i = choose|i: int|
                0 <= i < z.trades.len() && ((#[trigger] z.trades[i]).buyer == agent || z.trades[i].seller == agent);
            if i < a.trades.len() {
                assert(a.trades[i] == z.trades[i]);
            }
        }
    }
}

/// Whatever order a trade names is the one being matched, or one on the board.
pub proof fn lemma_traded_orders_are_known(m: Matching, ids: Seq<Id>, now: Timestamp, id: Id)
    requires
        m.trades.len() == 0,
    ensures
        m.after(ids, now).taker.id == m.taker.id,
        names_order(m.after(ids, now).trades, id) ==> id == m.taker.id || m.after(ids, now).board.orders.contains_key(id),
    decreases ids.len(),
{
    if ids.len() > 0 {
        let fewer = ids.drop_last();
        lemma_traded_orders_are_known(m, fewer, now, id);
        let a = m.after(fewer, now);
        let z = m.after(ids, now);
        let resting = a.board.orders[best_match(a.board, a.taker)->0];
        let t = trade_of(a.taker, resting, ids.last(), now);
        assert(z.trades == a.trades.push(t));
        if names_order(z.trades, id) && !names_order(a.trades, id) {
            let i = choose|i: int|
                0 <= i < z.trades.len() && ((#[trigger] z.trades[i]).buy_order_id == id || z.trades[i].sell_order_id
                    == id);
            if i < a.trades.len() {
                assert(a.trades[i] == z.trades[i]);
            }
        }
    }
}

/// No account holds more than all of them.
pub proof fn lemma_account_within(b: BoardView, k: PublicKey)
    requires
        listable(b.exchange_accounts),
    ensures
        b.account_of(k).base_balance <= b.base_total(),
        b.account_of(k).compute_balance <= b.compute_total(),
{
    let other = PublicKey { tag: k.tag, hi: k.hi, lo: if k.lo == 0 { 1 } else { 0 } };
    lemma_two_accounts(b, k, other);
}

}
