//! The exchange's accounts: deposits, credits, withdrawals and cancelled
//! orders.
use crate::board::deposits::{DepositView, EscrowPurpose};
use crate::board::escrow::{deposit_refusal, escrow_spent};
use crate::board::exchange::{free_base, lemma_holds_with_order, lemma_totals_with_account, locked_for};
use crate::board::types::{BoardError, EscrowStatus, ExchangeAccount, Order, OrderStatus, Side};
use crate::board::{BoardView, TaskBoard};
use crate::seqs::{lemma_pick_step, pick};
use crate::table::{listable, rows_of};
use crate::types::{Id, PublicKey, Timestamp};
use vstd::prelude::*;

verus! {

/// An account with `amount` more base.
pub open spec fn more_base(a: ExchangeAccount, amount: u64) -> ExchangeAccount {
    ExchangeAccount { base_balance: (a.base_balance + amount) as u64, ..a }
}

/// An account with `amount` more compute.
pub open spec fn more_compute(a: ExchangeAccount, amount: u64) -> ExchangeAccount {
    ExchangeAccount { compute_balance: (a.compute_balance + amount) as u64, ..a }
}

/// An account with `amount` less base.
pub open spec fn less_base(a: ExchangeAccount, amount: u64) -> ExchangeAccount {
    ExchangeAccount { base_balance: (a.base_balance - amount) as u64, ..a }
}

/// Changing one account's free balances keeps the ledger sound, as long as
/// what is locked is covered and the totals fit.
pub proof fn lemma_balance_changed(b: BoardView, owner: PublicKey, a: ExchangeAccount)
    requires
        listable(b.exchange_accounts),
        b.exchange_sound(),
        a.locked_base == b.account_of(owner).locked_base,
        a.locked_compute == b.account_of(owner).locked_compute,
        a.locked_base <= a.base_balance,
        a.locked_compute <= a.compute_balance,
        b.base_total() + a.base_balance - b.account_of(owner).base_balance <= u64::MAX,
        b.compute_total() + a.compute_balance - b.account_of(owner).compute_balance <= u64::MAX,
    ensures
        b.with_account(owner, a).exchange_sound(),
{
    let after = b.with_account(owner, a);
    lemma_totals_with_account(b, owner, a);
    assert forall|taker: PublicKey| #[trigger] after.covers(taker, 0, 0) by {
        assert(b.covers(taker, 0, 0));
        assert forall|x: PublicKey| #[trigger] after.account_of(x).locked_base <= after.account_of(x).base_balance by {
            assert(b.account_of(x).locked_base <= b.account_of(x).base_balance);
        }
        assert forall|x: PublicKey| #[trigger] after.account_of(x).locked_compute <= after.account_of(
            x,
        ).compute_balance by {
            assert(b.account_of(x).locked_compute <= b.account_of(x).compute_balance);
        }
        assert forall|x: PublicKey| #[trigger]
            after.buys_hold(x) + (if x == taker { 0int } else { 0 }) <= after.account_of(x).locked_base by {
            assert(b.buys_hold(x) + (if x == taker { 0int } else { 0 }) <= b.account_of(x).locked_base);
            assert(after.buys_hold(x) == b.buys_hold(x));
        }
        assert forall|x: PublicKey| #[trigger]
            after.sales_hold(x) + (if x == taker { 0int } else { 0 }) <= after.account_of(x).locked_compute by {
            assert(b.sales_hold(x) + (if x == taker { 0int } else { 0 }) <= b.account_of(x).locked_compute);
            assert(after.sales_hold(x) == b.sales_hold(x));
        }
    }
}

/// Why an order cannot be cancelled.
pub open spec fn cancel_order_refusal(b: BoardView, order_id: Id, caller: PublicKey) -> Option<BoardError> {
    if !b.orders.contains_key(order_id) {
        Some(BoardError::OrderNotFound)
    } else if b.orders[order_id].owner != caller {
        Some(BoardError::NotOrderOwner)
    } else if b.orders[order_id].status != OrderStatus::Open {
        Some(BoardError::OrderNotOpen)
    } else {
        None
    }
}

/// An account with an order's lock released.
pub open spec fn unlocked(a: ExchangeAccount, o: Order) -> ExchangeAccount {
    ExchangeAccount {
        locked_base: (a.locked_base - o.locks_base()) as u64,
        locked_compute: (a.locked_compute - o.locks_compute()) as u64,
        ..a
    }
}

/// A cancelled order.
pub open spec fn cancelled(o: Order) -> Order {
    Order { status: OrderStatus::Cancelled, ..o }
}

/// The board once an open order is cancelled.
pub open spec fn order_cancelled(b: BoardView, order_id: Id) -> BoardView {
    let o = b.orders[order_id];
    b.with_order(cancelled(o)).with_account(o.owner, unlocked(b.account_of(o.owner), o))
}

/// Cancelling an open order releases no more than is locked, and keeps the
/// ledger sound.
pub proof fn lemma_order_cancelled(b: BoardView, order_id: Id)
    requires
        b.wf(),
        b.exchange_sound(),
        b.orders.contains_key(order_id),
        b.orders[order_id].status == OrderStatus::Open,
    ensures
        0 <= b.orders[order_id].locks_base() <= b.account_of(b.orders[order_id].owner).locked_base,
        0 <= b.orders[order_id].locks_compute() <= b.account_of(b.orders[order_id].owner).locked_compute,
        order_cancelled(b, order_id).exchange_sound(),
{
    let o = b.orders[order_id];
    let gone = cancelled(o);
    let b1 = b.with_order(gone);
    let a = unlocked(b.account_of(o.owner), o);
    let after = order_cancelled(b, order_id);
    assert(o.sound());
    assert(o.id == order_id);
    assert(o.price * o.remaining() >= 0) by (nonlinear_arith)
        requires
            o.price >= 0,
            o.remaining() >= 0,
    ;
    assert(b.covers(o.owner, 0, 0));
    assert(b.buys_hold(o.owner) + (if o.owner == o.owner { 0int } else { 0 }) <= b.account_of(o.owner).locked_base);
    assert(b.sales_hold(o.owner) + (if o.owner == o.owner { 0int } else { 0 }) <= b.account_of(
        o.owner,
    ).locked_compute);
    crate::board::exchange::lemma_order_is_held(b, order_id);
    lemma_totals_with_account(b1, o.owner, a);
    assert(b1.base_total() == b.base_total());
    assert(b1.compute_total() == b.compute_total());
    assert(b1.account_of(o.owner) == b.account_of(o.owner));
    assert forall|id: Id| #[trigger] after.orders.contains_key(id) implies after.orders[id].sound() by {
        if id != order_id {
            assert(b.orders.contains_key(id));
        }
    }
    assert forall|taker: PublicKey| #[trigger] after.covers(taker, 0, 0) by {
        assert(b.covers(taker, 0, 0));
        assert forall|x: PublicKey| #[trigger] after.account_of(x).locked_base <= after.account_of(x).base_balance by {
            assert(b.account_of(x).locked_base <= b.account_of(x).base_balance);
        }
        assert forall|x: PublicKey| #[trigger] after.account_of(x).locked_compute <= after.account_of(
            x,
        ).compute_balance by {
            assert(b.account_of(x).locked_compute <= b.account_of(x).compute_balance);
        }
        assert forall|x: PublicKey| #[trigger]
            after.buys_hold(x) + (if x == taker { 0int } else { 0 }) <= after.account_of(x).locked_base by {
            lemma_holds_with_order(b, gone, x);
            assert(b.buys_hold(x) + (if x == taker { 0int } else { 0 }) <= b.account_of(x).locked_base);
            assert(after.buys_hold(x) == b1.buys_hold(x));
        }
        assert forall|x: PublicKey| #[trigger]
            after.sales_hold(x) + (if x == taker { 0int } else { 0 }) <= after.account_of(x).locked_compute by {
            lemma_holds_with_order(b, gone, x);
            assert(b.sales_hold(x) + (if x == taker { 0int } else { 0 }) <= b.account_of(x).locked_compute);
            assert(after.sales_hold(x) == b1.sales_hold(x));
        }
    }
}

/// What is left of a deposit once the fee of moving it is taken off.
pub open spec fn net_of_fee(observed: u64, fee: u64) -> u64 {
    if observed >= fee {
        (observed - fee) as u64
    } else {
        0
    }
}

/// The board with a deposit on the exchange credited to its depositor.
pub open spec fn deposit_credited(b: BoardView, id: Id, observed: u64, fee: u64) -> BoardView {
    let d = b.pending_deposits[id];
    escrow_spent(b, id).with_account(d.depositor, more_base(b.account_of(d.depositor), net_of_fee(observed, fee)))
}

/// The board with `amount` of base taken out of an account.
pub open spec fn withdrawn(b: BoardView, owner: PublicKey, amount: u64) -> BoardView {
    b.with_account(owner, less_base(b.account_of(owner), amount))
}

/// The deposits on the exchange that are credited and not moved to custody.
pub open spec fn unswept(b: BoardView) -> Seq<Id> {
    pick(
        rows_of(b.pending_deposits),
        |row: (Id, DepositView)|
            if row.1.status == EscrowStatus::Consumed && row.1.purpose is FundExchangeAccount {
                Some(row.1.id)
            } else {
                None
            },
    )
}

/// Why nothing can be withdrawn.
pub open spec fn withdrawal_refusal(b: BoardView, owner: PublicKey, amount: u64) -> Option<BoardError> {
    if amount == 0 {
        Some(BoardError::ZeroWithdrawal)
    } else if free_base(b.account_of(owner)) < amount {
        Some(BoardError::InsufficientBalance { available: free_base(b.account_of(owner)), required: amount })
    } else {
        None
    }
}

/// The board once a withdrawal was refused: nobody has more or less, but whoever
/// asked for more than they have has an account on record.
pub open spec fn withdrawal_refused(b: BoardView, owner: PublicKey, e: BoardError) -> BoardView {
    if e is InsufficientBalance {
        b.with_account(owner, b.account_of(owner))
    } else {
        b
    }
}

impl TaskBoard {
    /// Cancels an open order of the caller's, and releases what it still
    /// holds back.
    pub fn cancel_order(&mut self, order_id: Id, caller: &PublicKey) -> (r: Result<Order, BoardError>)
        requires
            old(self).wf(),
            old(self)@.exchange_sound(),
        ensures
            final(self).wf(),
            final(self)@.exchange_sound(),
            match cancel_order_refusal(old(self)@, order_id, *caller) {
                Some(e) => r == Result::<Order, BoardError>::Err(e) && final(self)@ == old(self)@,
                None => r == Result::<Order, BoardError>::Ok(cancelled(old(self)@.orders[order_id])) && final(self)@
                    == order_cancelled(old(self)@, order_id),
            },
    {
        let order = match self.orders.get(&order_id) {
            Some(order) => *order,
            None => return Err(BoardError::OrderNotFound),
        };
        if order.owner != *caller {
            return Err(BoardError::NotOrderOwner);
        }
        if order.status != OrderStatus::Open {
            return Err(BoardError::OrderNotOpen);
        }
        proof {
            lemma_order_cancelled(self@, order_id);
            assert(order.sound());
        }
        let remaining: u64 = order.quantity - order.filled;
        let gone = Order { status: OrderStatus::Cancelled, ..order };
        let account = self.exchange_account(&order.owner);
        let released = match order.side {
            Side::Buy => ExchangeAccount { locked_base: account.locked_base - order.price * remaining, ..account },
            Side::Sell => ExchangeAccount { locked_compute: account.locked_compute - remaining, ..account },
        };
        self.orders.insert(order_id, gone);
        self.exchange_accounts.insert(order.owner, released);
        Ok(gone)
    }

    /// Adds to an account's compute.
    pub fn credit_compute(&mut self, recipient: &PublicKey, amount: u64)
        requires
            old(self).wf(),
            old(self)@.account_of(*recipient).compute_balance + amount <= u64::MAX,
        ensures
            final(self).wf(),
            final(self)@ == old(self)@.with_account(
                *recipient,
                more_compute(old(self)@.account_of(*recipient), amount),
            ),
            old(self)@.exchange_sound() && old(self)@.compute_total() + amount <= u64::MAX
                ==> final(self)@.exchange_sound(),
    {
        let a = self.exchange_account(recipient);
        proof {
            if self@.exchange_sound() && self@.compute_total() + amount <= u64::MAX {
                assert(self@.covers(*recipient, 0, 0));
                assert(self@.account_of(*recipient).locked_base <= self@.account_of(*recipient).base_balance);
                assert(self@.account_of(*recipient).locked_compute <= self@.account_of(*recipient).compute_balance);
                lemma_balance_changed(self@, *recipient, more_compute(a, amount));
            }
        }
        self.exchange_accounts.insert(
            *recipient,
            ExchangeAccount { compute_balance: a.compute_balance + amount, ..a },
        );
    }

    /// Adds to an account's base.
    pub fn credit_base(&mut self, recipient: &PublicKey, amount: u64)
        requires
            old(self).wf(),
            old(self)@.account_of(*recipient).base_balance + amount <= u64::MAX,
        ensures
            final(self).wf(),
            final(self)@ == old(self)@.with_account(*recipient, more_base(old(self)@.account_of(*recipient), amount)),
            old(self)@.exchange_sound() && old(self)@.base_total() + amount <= u64::MAX
                ==> final(self)@.exchange_sound(),
    {
        let a = self.exchange_account(recipient);
        proof {
            if self@.exchange_sound() && self@.base_total() + amount <= u64::MAX {
                assert(self@.covers(*recipient, 0, 0));
                assert(self@.account_of(*recipient).locked_base <= self@.account_of(*recipient).base_balance);
                assert(self@.account_of(*recipient).locked_compute <= self@.account_of(*recipient).compute_balance);
                lemma_balance_changed(self@, *recipient, more_base(a, amount));
            }
        }
        self.exchange_accounts.insert(*recipient, ExchangeAccount { base_balance: a.base_balance + amount, ..a });
    }

    /// Takes a withdrawal off an account's free base. Nothing is no
    /// withdrawal.
    pub fn debit_for_withdrawal(&mut self, owner: &PublicKey, amount: u64) -> (r: Result<(), BoardError>)
        requires
            old(self).wf(),
        ensures
            final(self).wf(),
            match withdrawal_refusal(old(self)@, *owner, amount) {
                Some(e) => {
                    &&& r == Result::<(), BoardError>::Err(e)
                    &&& final(self)@ == withdrawal_refused(old(self)@, *owner, e)
                },
                None => r is Ok && final(self)@ == withdrawn(old(self)@, *owner, amount),
            },
            old(self)@.exchange_sound() ==> final(self)@.exchange_sound(),
    {
        if amount == 0 {
            return Err(BoardError::ZeroWithdrawal);
        }
        let a = self.exchange_account(owner);
        let available: u64 = a.base_balance.saturating_sub(a.locked_base);
        proof {
            if self@.exchange_sound() {
                assert(self@.covers(*owner, 0, 0));
                assert(self@.account_of(*owner).locked_base <= self@.account_of(*owner).base_balance);
                assert(self@.account_of(*owner).locked_compute <= self@.account_of(*owner).compute_balance);
                lemma_balance_changed(self@, *owner, a);
                if available >= amount {
                    lemma_balance_changed(self@, *owner, less_base(a, amount));
                }
            }
        }
        if available < amount {
            self.exchange_accounts.insert(*owner, a);
            return Err(BoardError::InsufficientBalance { available, required: amount });
        }
        self.exchange_accounts.insert(*owner, ExchangeAccount { base_balance: a.base_balance - amount, ..a });
        Ok(())
    }

    /// Reverses a withdrawal that was not paid.
    pub fn credit_back_withdrawal(&mut self, owner: &PublicKey, amount: u64)
        requires
            old(self).wf(),
            old(self)@.account_of(*owner).base_balance + amount <= u64::MAX,
        ensures
            final(self).wf(),
            final(self)@ == old(self)@.with_account(*owner, more_base(old(self)@.account_of(*owner), amount)),
            old(self)@.exchange_sound() && old(self)@.base_total() + amount <= u64::MAX
                ==> final(self)@.exchange_sound(),
    {
        self.credit_base(owner, amount);
    }

    /// Credits a deposit to the depositor's account, less the fee that moving
    /// it will cost, once `observed_amount` has been seen at its address.
    /// Tells who was credited with how much.
    pub fn confirm_exchange_deposit(&mut self, id: Id, observed_amount: u64, network_fee: u64, now: Timestamp) -> (r:
        Result<(PublicKey, u64), BoardError>)
        requires
            old(self).wf(),
            deposit_refusal(
                old(self)@,
                id,
                observed_amount,
                now,
                old(self)@.pending_deposits[id].purpose is FundExchangeAccount,
            ) is None ==> old(self)@.account_of(old(self)@.pending_deposits[id].depositor).base_balance
                + observed_amount - network_fee <= u64::MAX,
        ensures
            final(self).wf(),
            match deposit_refusal(
                old(self)@,
                id,
                observed_amount,
                now,
                old(self)@.pending_deposits[id].purpose is FundExchangeAccount,
            ) {
                Some(e) => r == Result::<(PublicKey, u64), BoardError>::Err(e) && final(self)@ == old(self)@,
                None => {
                    &&& r == Result::<(PublicKey, u64), BoardError>::Ok(
                        (old(self)@.pending_deposits[id].depositor, net_of_fee(observed_amount, network_fee)),
                    )
                    &&& final(self)@ == deposit_credited(old(self)@, id, observed_amount, network_fee)
                },
            },
    {
        let deposit = match self.pending_deposits.get(&id) {
            Some(deposit) => deposit,
            None => return Err(BoardError::EscrowNotFound),
        };
        match &deposit.purpose {
            EscrowPurpose::FundExchangeAccount => {},
            _ => return Err(BoardError::WrongEscrowPurpose),
        }
        if deposit.status != EscrowStatus::Reserved {
            return Err(BoardError::EscrowNotReserved);
        }
        if now.nanos > deposit.expires_at.nanos {
            return Err(BoardError::EscrowExpired);
        }
        if observed_amount < deposit.required_amount {
            return Err(BoardError::EscrowUnderfunded { required: deposit.required_amount, have: observed_amount });
        }
        let depositor = deposit.depositor;
        let credited: u64 = observed_amount.saturating_sub(network_fee);
        if let Some(deposit) = self.pending_deposits.get_mut(&id) {
            deposit.status = EscrowStatus::Consumed;
        }
        self.credit_base(&depositor, credited);
        Ok((depositor, credited))
    }

    /// The exchange deposits that are credited and not yet moved to custody.
    pub fn unswept_exchange_deposits(&self) -> (ids: Vec<Id>)
        requires
            self.wf(),
        ensures
            ids@ == unswept(self@),
    {
        let ghost g = |row: (Id, DepositView)|
            if row.1.status == EscrowStatus::Consumed && row.1.purpose is FundExchangeAccount {
                Some(row.1.id)
            } else {
                None
            };
        let ghost rows = self.pending_deposits.rows();
        proof {
            self.pending_deposits.lemma_rows();
        }
        let mut ids: Vec<Id> = Vec::new();
        let mut i: usize = 0;
        while i < self.pending_deposits.len()
            invariant
                i <= rows.len(),
                rows == self.pending_deposits.rows(),
                g == (|row: (Id, DepositView)|
                    if row.1.status == EscrowStatus::Consumed && row.1.purpose is FundExchangeAccount {
                        Some(row.1.id)
                    } else {
                        None
                    }),
                ids@ == pick(rows.take(i as int), g),
            decreases rows.len() - i,
        {
            proof {
                lemma_pick_step(rows, g, i as int);
            }
            let d = self.pending_deposits.value_at(i);
            if d.status == EscrowStatus::Consumed {
                if let EscrowPurpose::FundExchangeAccount = &d.purpose {
                    ids.push(d.id);
                }
            }
            i += 1;
        }
        assert(rows.take(i as int) =~= rows);
        ids
    }
}

/// Cancelling an order that has matched nothing gives back all that placing it
/// locked.
pub proof fn lemma_cancel_undoes_lock(a: ExchangeAccount, o: Order)
    requires
        o.status == OrderStatus::Open,
        o.filled == 0,
        o.side == Side::Buy ==> a.locked_base + o.price * o.quantity <= u64::MAX,
        o.side == Side::Sell ==> a.locked_compute + o.quantity <= u64::MAX,
    ensures
        unlocked(locked_for(a, o.side, o.price, o.quantity), o) == a,
{
}

/// A withdrawal that is taken back leaves the account as it was.
pub proof fn lemma_withdrawal_is_reversed(a: ExchangeAccount, amount: u64)
    requires
        amount <= free_base(a),
    ensures
        more_base(less_base(a, amount), amount) == a,
{
}

}
