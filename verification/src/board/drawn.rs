//! Identifiers are drawn by chance, and what comes of an order does not hang on
//! which are drawn.
use crate::board::conservation::{lemma_matching_conserves, lemma_ran_before};
use crate::board::exchange::{
    best_match, comes_first, fresh_order, is_best_match, lemma_best_match_is_unique, lemma_order_opened,
    lemma_taker_keeps_terms, may_match, order_opened, order_refusal, places, trade_ids, Matching,
};
use crate::board::staging::{
    has_crossing, is_part, lemma_part_is_sound, lemma_stage_begins_alike, lemma_stage_mirrors, staged,
};
use crate::board::types::{BoardError, Order, Side, Trade};
use crate::board::BoardView;
use crate::types::{Id, PublicKey, Timestamp};
use vstd::prelude::*;

verus! {

/// Whether both orders are the same but for their id.
pub open spec fn same_but_id(a: Order, b: Order) -> bool {
    a == (Order { id: a.id, ..b })
}

/// Whether both trades are the same but for their own id and that of the
/// order that was placed.
pub open spec fn same_trade(a: Trade, b: Trade) -> bool {
    match b.taker_side {
        Side::Buy => a == (Trade { id: a.id, buy_order_id: a.buy_order_id, ..b }),
        Side::Sell => a == (Trade { id: a.id, sell_order_id: a.sell_order_id, ..b }),
    }
}

/// Whether both lists have the same trades in the same order, but for ids.
pub open spec fn same_trades(a: Seq<Trade>, b: Seq<Trade>) -> bool {
    a.len() == b.len() && forall|i: int| 0 <= i < a.len() ==> same_trade(#[trigger] a[i], b[i])
}

/// Whether two orders are being matched in the same way, but for ids.
pub open spec fn same_matching(m: Matching, n: Matching) -> bool {
    m.board == n.board && same_but_id(m.taker, n.taker) && same_trades(m.trades, n.trades)
}

/// What an order matches next does not hang on its id.
proof fn lemma_same_best(b: BoardView, x: Order, y: Order)
    requires
        b.wf(),
        same_but_id(x, y),
    ensures
        best_match(b, x) == best_match(b, y),
{
    assert forall|o: Order| #[trigger] may_match(x, o) == may_match(y, o) by {
    }
    assert forall|id: Id| is_best_match(b, x, id) == is_best_match(b, y, id) by {
        if is_best_match(b, x, id) {
            assert forall|other: Id| #[trigger]
                b.orders.contains_key(other) && may_match(y, b.orders[other]) implies comes_first(
                y.side,
                b.orders[id],
                b.orders[other],
            ) by {
                assert(may_match(x, b.orders[other]));
            }
        }
        if is_best_match(b, y, id) {
            assert forall|other: Id| #[trigger]
                b.orders.contains_key(other) && may_match(x, b.orders[other]) implies comes_first(
                x.side,
                b.orders[id],
                b.orders[other],
            ) by {
                assert(may_match(y, b.orders[other]));
            }
        }
    }
    if exists|id: Id| is_best_match(b, x, id) {
        let id = choose|id: Id| is_best_match(b, x, id);
        lemma_best_match_is_unique(b, x, id, id);
        lemma_best_match_is_unique(b, y, id, id);
    } else {
        assert(best_match(b, y) is None);
    }
}

/// Matching goes the same way whichever ids are drawn for the order and for
/// its trades.
pub proof fn lemma_ids_decide_nothing(m: Matching, n: Matching, ids: Seq<Id>, others: Seq<Id>, now: Timestamp)
    requires
        m.sound(),
        same_matching(m, n),
        m.ran(ids, now),
        ids.len() == others.len(),
    ensures
        n.ran(others, now),
        same_matching(m.after(ids, now), n.after(others, now)),
        m.after(ids, now).goes_on() == n.after(others, now).goes_on(),
    decreases ids.len(),
{
    if ids.len() > 0 {
        let fewer = ids.drop_last();
        let less = others.drop_last();
        lemma_ran_before(m, ids, now);
        lemma_ids_decide_nothing(m, n, fewer, less, now);
        lemma_matching_conserves(m, fewer, now);
        let a = m.after(fewer, now);
        let z = n.after(less, now);
        lemma_same_best(a.board, a.taker, z.taker);
        let p = m.after(ids, now).trades;
        let q = n.after(others, now).trades;
        assert forall|i: int| 0 <= i < p.len() implies same_trade(#[trigger] p[i], q[i]) by {
            if i < a.trades.len() {
                assert(p[i] == a.trades[i] && q[i] == z.trades[i]);
            }
        }
        assert forall|k: int| 0 <= k < others.len() implies (#[trigger] n.after(others.take(k), now)).goes_on() by {
            if k < less.len() {
                assert(others.take(k) =~= less.take(k));
                assert(n.after(less.take(k), now).goes_on());
            } else {
                assert(others.take(k) =~= less);
            }
        }
    }
    lemma_matching_conserves(m, ids, now);
    lemma_same_best(m.after(ids, now).board, m.after(ids, now).taker, n.after(others, now).taker);
}

/// Two orders that are matched in the same way as far as they go are matched as
/// often.
proof fn lemma_as_many_matches(m: Matching, n: Matching, ids: Seq<Id>, others: Seq<Id>, now: Timestamp)
    requires
        m.sound(),
        n.sound(),
        same_matching(m, n),
        m.ran(ids, now),
        n.ran(others, now),
        !m.after(ids, now).goes_on(),
        !n.after(others, now).goes_on(),
    ensures
        ids.len() == others.len(),
{
    if ids.len() < others.len() {
        lemma_ids_decide_nothing(m, n, ids, others.take(ids.len() as int), now);
    }
    if others.len() < ids.len() {
        assert forall|i: int| 0 <= i < n.trades.len() implies same_trade(#[trigger] n.trades[i], m.trades[i]) by {
            assert(same_trade(m.trades[i], n.trades[i]));
        }
        lemma_ids_decide_nothing(n, m, others, ids.take(others.len() as int), now);
    }
}

/// The bounded copy that an order is staged on matches it as the whole board
/// would, whichever ids the two draw: both refuse it for the same reason, or
/// both give the same order and the same trades but for their ids; and
/// afterwards the owner's account, that of whoever gets the fees and that of
/// each maker are the same on both.
pub proof fn lemma_stage_places_alike(
    b: BoardView,
    owner: PublicKey,
    side: Side,
    price: u64,
    quantity: u64,
    fee_sink: PublicKey,
    now: Timestamp,
    on_stage: Result<(Order, Vec<Trade>), BoardError>,
    stage_after: BoardView,
    on_board: Result<(Order, Vec<Trade>), BoardError>,
    board_after: BoardView,
)
    requires
        b.wf(),
        b.exchange_sound(),
        staged(b, owner, side, price, fee_sink).wf(),
        places(staged(b, owner, side, price, fee_sink), owner, side, price, quantity, now, on_stage, stage_after),
        places(b, owner, side, price, quantity, now, on_board, board_after),
    ensures
        match on_stage {
            Err(e) => on_board is Err && on_board->Err_0 == e,
            Ok((order, trades)) => {
                &&& on_board is Ok
                &&& same_but_id(order, on_board->Ok_0.0)
                &&& same_trades(trades@, on_board->Ok_0.1@)
            },
        },
        forall|k: PublicKey|
            k == owner || k == fee_sink || has_crossing(b, owner, side, price, k) ==> #[trigger] stage_after.account_of(
                k,
            ) == board_after.account_of(k),
{
    let s = staged(b, owner, side, price, fee_sink);
    assert(s.account_of(owner) == b.account_of(owner));
    if order_refusal(b, owner, side, price, quantity) is None {
        assert forall|id: Id| #[trigger] s.orders.contains_key(id) implies b.orders.contains_key(id) && s.orders[id]
            == b.orders[id] && s.exchange_accounts.contains_key(s.orders[id].owner) by {
            assert(has_crossing(b, owner, side, price, b.orders[id].owner));
        }
        assert(is_part(s, b));
        lemma_part_is_sound(s, b);
        let ids = trade_ids(on_stage->Ok_0.1@);
        let others = trade_ids(on_board->Ok_0.1@);
        let fresh = fresh_order(on_stage->Ok_0.0.id, owner, side, price, quantity, now);
        let other = fresh_order(on_board->Ok_0.0.id, owner, side, price, quantity, now);
        let stage = order_opened(s, fresh);
        let twin = order_opened(b, fresh);
        let live = order_opened(b, other);
        lemma_order_opened(s, fresh);
        lemma_order_opened(b, fresh);
        lemma_order_opened(b, other);
        lemma_stage_begins_alike(b, fresh, fee_sink);
        lemma_stage_mirrors(stage, twin, ids, now);
        lemma_as_many_matches(twin, live, ids, others, now);
        lemma_ids_decide_nothing(twin, live, ids, others, now);
        lemma_taker_keeps_terms(stage, ids, now);
        lemma_taker_keeps_terms(live, others, now);
        let sd = stage.after(ids, now);
        let ld = live.after(others, now);
        assert forall|k: PublicKey|
            k == owner || k == fee_sink || has_crossing(b, owner, side, price, k) implies #[trigger] stage_after.account_of(
            k,
        ) == board_after.account_of(k) by {
            assert(s.exchange_accounts.contains_key(k));
            assert(stage.board.exchange_accounts.contains_key(k));
            assert(sd.board.exchange_accounts.contains_key(k));
            assert(sd.board.exchange_accounts[k] == ld.board.account_of(k));
        }
    }
}

}
