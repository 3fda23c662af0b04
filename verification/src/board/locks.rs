//! What is locked is what open orders hold back, no more and no less.
use crate::board::conservation::{
    lemma_matching_conserves, lemma_matching_leaves_others, lemma_next_may_match, lemma_ran_before,
};
use crate::board::exchange::{
    best_match, fill_quantity, filled_by, fresh_order, lemma_holds_with_order, lemma_lock_released,
    lemma_match_is_covered, lemma_order_opened, lemma_taker_keeps_terms, matched_order, may_match, order_opened,
    order_placed, order_refusal, settled, Matching,
};
use crate::board::ledger::{cancelled, lemma_order_cancelled, order_cancelled};
use crate::board::types::{Order, OrderStatus};
use crate::board::BoardView;
use crate::seqs::{lemma_total_agrees, total};
use crate::table::{lemma_row_is_mapped, rows_of};
use crate::types::{Id, PublicKey, Timestamp};
use vstd::prelude::*;

verus! {

impl BoardView {
    /// What is locked of an owner's base beyond what open buys hold back.
    pub open spec fn spare_base(self, owner: PublicKey) -> int {
        self.account_of(owner).locked_base - self.buys_hold(owner)
    }

    /// What is locked of an owner's compute beyond what open sales hold back.
    pub open spec fn spare_compute(self, owner: PublicKey) -> int {
        self.account_of(owner).locked_compute - self.sales_hold(owner)
    }

    /// Whether what is locked in every account is what its owner's open orders
    /// hold back.
    pub open spec fn locks_exactly(self) -> bool {
        forall|owner: PublicKey| #![trigger self.account_of(owner)]
            self.spare_base(owner) == 0 && self.spare_compute(owner) == 0
    }
}

impl Matching {
    /// What is locked of an owner's base beyond what open buys and the order
    /// being matched hold back.
    pub open spec fn spare_base(self, owner: PublicKey) -> int {
        self.board.spare_base(owner) - if owner == self.taker.owner {
            self.taker.locks_base()
        } else {
            0
        }
    }

    /// What is locked of an owner's compute beyond what open sales and the
    /// order being matched hold back.
    pub open spec fn spare_compute(self, owner: PublicKey) -> int {
        self.board.spare_compute(owner) - if owner == self.taker.owner {
            self.taker.locks_compute()
        } else {
            0
        }
    }
}

/// A match unlocks of each party what is filled of its order.
proof fn lemma_match_keeps_spare(m: Matching, resting: Order, owner: PublicKey)
    requires
        m.sound(),
        m.taker.filled < m.taker.quantity,
        m.board.orders.contains_key(resting.id),
        m.board.orders[resting.id] == resting,
        may_match(m.taker, resting),
    ensures
        ({
            let q = fill_quantity(m.taker, resting);
            let next = Matching {
                board: settled(m.board, m.taker, resting),
                taker: Order { filled: (m.taker.filled + q) as u64, ..m.taker },
                trades: m.trades,
            };
            &&& next.spare_base(owner) == m.spare_base(owner)
            &&& next.spare_compute(owner) == m.spare_compute(owner)
        }),
{
    let b = m.board;
    let taker = m.taker;
    let q = fill_quantity(taker, resting);
    lemma_match_is_covered(m, resting);
    assert(resting.sound());
    lemma_lock_released(resting, q);
    let filled = filled_by(resting, q);
    let b1 = b.with_order(filled);
    let after = settled(b, taker, resting);
    let p = taker.price as int;
    let tr = taker.remaining();
    assert(p * (tr - q) == p * tr - p * q) by (nonlinear_arith);
    lemma_holds_with_order(b, filled, owner);
    assert(after.buys_hold(owner) == b1.buys_hold(owner));
    assert(after.sales_hold(owner) == b1.sales_hold(owner));
}

/// However far an order is matched, what is locked beyond what orders hold back
/// stays as it is.
proof fn lemma_matching_keeps_spare(m: Matching, ids: Seq<Id>, now: Timestamp, owner: PublicKey)
    requires
        m.sound(),
        m.ran(ids, now),
    ensures
        m.after(ids, now).spare_base(owner) == m.spare_base(owner),
        m.after(ids, now).spare_compute(owner) == m.spare_compute(owner),
    decreases ids.len(),
{
    if ids.len() > 0 {
        lemma_ran_before(m, ids, now);
        lemma_matching_keeps_spare(m, ids.drop_last(), now, owner);
        lemma_matching_conserves(m, ids.drop_last(), now);
        let a = m.after(ids.drop_last(), now);
        lemma_next_may_match(a);
        lemma_match_keeps_spare(a, a.board.orders[best_match(a.board, a.taker)->0], owner);
    }
}

/// Placing an order, under an id that is free, locks what is left of it and
/// unlocks what is filled, of it and of the orders it was matched with: what is
/// locked stays exactly what open orders hold back.
pub proof fn lemma_placing_locks_exactly(b: BoardView, order: Order, ids: Seq<Id>, now: Timestamp)
    requires
        b.wf(),
        b.exchange_sound(),
        b.locks_exactly(),
        !b.orders.contains_key(order.id),
        order == fresh_order(order.id, order.owner, order.side, order.price, order.quantity, order.created_at),
        order_refusal(b, order.owner, order.side, order.price, order.quantity) is None,
        order_opened(b, order).ran(ids, now),
    ensures
        order_placed(order_opened(b, order).after(ids, now)).locks_exactly(),
{
    let m = order_opened(b, order);
    let z = m.after(ids, now);
    let after = order_placed(z);
    let placed = matched_order(z.taker);
    lemma_order_opened(b, order);
    lemma_matching_conserves(m, ids, now);
    lemma_matching_leaves_others(m, ids, now, order.id, order.owner);
    lemma_taker_keeps_terms(m, ids, now);
    let p = z.taker.price as int;
    assert(p * 0 == 0) by (nonlinear_arith);
    assert forall|owner: PublicKey| #![trigger after.account_of(owner)]
        after.spare_base(owner) == 0 && after.spare_compute(owner) == 0 by {
        let a = b.account_of(owner);
        assert(b.spare_base(owner) == 0 && b.spare_compute(owner) == 0);
        assert(m.board.buys_hold(owner) == b.buys_hold(owner));
        assert(m.board.sales_hold(owner) == b.sales_hold(owner));
        assert(m.spare_base(owner) == 0);
        assert(m.spare_compute(owner) == 0);
        lemma_matching_keeps_spare(m, ids, now, owner);
        lemma_holds_with_order(z.board, placed, owner);
        assert(after.buys_hold(owner) == z.board.with_order(placed).buys_hold(owner));
        assert(after.sales_hold(owner) == z.board.with_order(placed).sales_hold(owner));
        assert(after.account_of(owner) == z.board.account_of(owner));
    }
}

/// Cancelling an open order unlocks what is left of it, and nothing else: what
/// is locked stays exactly what open orders hold back.
pub proof fn lemma_cancelling_unlocks_exactly(b: BoardView, order_id: Id)
    requires
        b.wf(),
        b.exchange_sound(),
        b.locks_exactly(),
        b.orders.contains_key(order_id),
        b.orders[order_id].status == OrderStatus::Open,
    ensures
        order_cancelled(b, order_id).locks_exactly(),
{
    let o = b.orders[order_id];
    let gone = cancelled(o);
    let after = order_cancelled(b, order_id);
    lemma_order_cancelled(b, order_id);
    assert forall|owner: PublicKey| #![trigger after.account_of(owner)]
        after.spare_base(owner) == 0 && after.spare_compute(owner) == 0 by {
        let a = b.account_of(owner);
        assert(b.spare_base(owner) == 0 && b.spare_compute(owner) == 0);
        lemma_holds_with_order(b, gone, owner);
        assert(after.buys_hold(owner) == b.with_order(gone).buys_hold(owner));
        assert(after.sales_hold(owner) == b.with_order(gone).sales_hold(owner));
    }
}

/// Where locks are exact, nothing is locked of an owner who has no open order.
pub proof fn lemma_no_order_no_lock(b: BoardView, owner: PublicKey)
    requires
        b.wf(),
        b.locks_exactly(),
        forall|id: Id| #[trigger]
            b.orders.contains_key(id) ==> b.orders[id].owner != owner || b.orders[id].status != OrderStatus::Open,
    ensures
        b.account_of(owner).locked_base == 0,
        b.account_of(owner).locked_compute == 0,
{
    let a = b.account_of(owner);
    assert(b.spare_base(owner) == 0 && b.spare_compute(owner) == 0);
    let rows = rows_of(b.orders);
    assert forall|i: int| 0 <= i < rows.len() implies (#[trigger] rows[i]).1.owner != owner || rows[i].1.status
        != OrderStatus::Open by {
        lemma_row_is_mapped(rows, i);
        assert(b.orders.contains_key(rows[i].0));
    }
    let none = |row: (Id, Order)| 0int;
    let f = |k: Id, o: Order| if o.owner == owner { o.locks_base() } else { 0 };
    let g = |k: Id, o: Order| if o.owner == owner { o.locks_compute() } else { 0 };
    lemma_total_agrees(rows, |row: (Id, Order)| f(row.0, row.1), none);
    lemma_total_agrees(rows, |row: (Id, Order)| g(row.0, row.1), none);
    lemma_nothing(rows);
}

proof fn lemma_nothing(rows: Seq<(Id, Order)>)
    ensures
        total(rows, |row: (Id, Order)| 0int) == 0,
    decreases rows.len(),
{
    if rows.len() > 0 {
        lemma_nothing(rows.drop_last());
    }
}

}
