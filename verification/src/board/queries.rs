//! Reading the board, and putting back what was kept of it.
use crate::board::deposits::{DepositView, PendingDeposit};
use crate::board::escrow::escrow_refunded;
use crate::board::types::{
    BoardError, EscrowStatus, ExchangeAccount, Order, Payment, PaymentPurpose, PaymentStatus, Reputation, Task,
    TaskKind, TaskStatus, TaskView, Trade,
};
use crate::board::{BoardView, TaskBoard};
use crate::seqs::{lemma_pick_source, lemma_total_prefix, lemma_total_step, total, values_that, views};
use crate::table::{lemma_listed, lemma_row_is_mapped, map_sum, rows_of};
use crate::types::{Id, PublicKey, Timestamp};
use vstd::prelude::*;

verus! {

/// `n`, or the largest number of sixty-four bits if it is more.
pub open spec fn capped(n: int) -> u64 {
    if n <= u64::MAX {
        n as u64
    } else {
        u64::MAX
    }
}

/// Whether a task may still cost its bounty.
pub open spec fn unsettled(t: TaskView) -> bool {
    t.status != TaskStatus::Paid && t.status != TaskStatus::Closed
}

/// What a task may still cost the operator.
pub open spec fn operator_share() -> spec_fn(Id, TaskView) -> int {
    |id: Id, t: TaskView|
        if unsettled(t) && t.escrow_id is None {
            t.bounty as int
        } else {
            0
        }
}

/// What a task may still cost if it is a consensus task.
pub open spec fn consensus_share() -> spec_fn(Id, TaskView) -> int {
    |id: Id, t: TaskView|
        if t.kind is Consensus && unsettled(t) {
            t.bounty as int
        } else {
            0
        }
}

/// What a withdrawal that is not confirmed will still pay out.
pub open spec fn outstanding_withdrawal(p: Payment) -> int {
    if p.status != PaymentStatus::Confirmed && p.purpose is Withdrawal {
        p.amount as int
    } else {
        0
    }
}

/// Whether a payment is to `recipient`.
pub open spec fn goes_to(recipient: PublicKey) -> spec_fn(Payment) -> bool {
    |p: Payment| p.recipient == recipient
}

/// Whether a payment is out of a deposit.
pub open spec fn pays_out(deposit_id: Id) -> spec_fn(Payment) -> bool {
    |p: Payment| p.purpose is Escrow && p.purpose->deposit_id == deposit_id
}

/// Every task, in ascending order of its id.
pub open spec fn task_list(b: BoardView) -> Seq<TaskView> {
    values_that(rows_of(b.tasks), |t: TaskView| true)
}

/// The tasks that are open, in ascending order of their id.
pub open spec fn open_tasks(b: BoardView) -> Seq<TaskView> {
    values_that(rows_of(b.tasks), |t: TaskView| t.status == TaskStatus::Open)
}

/// The tasks whose bounty is owed and not all on its way, in ascending order of
/// their id.
pub open spec fn verified_tasks(b: BoardView) -> Seq<TaskView> {
    values_that(rows_of(b.tasks), |t: TaskView| t.status == TaskStatus::Verified)
}

/// The deposits that were not paid in time, in ascending order of their id.
pub open spec fn overdue_deposits(b: BoardView, now: Timestamp) -> Seq<DepositView> {
    values_that(
        rows_of(b.pending_deposits),
        |d: DepositView| d.status == EscrowStatus::Reserved && now.nanos > d.expires_at.nanos,
    )
}

/// The deposit that funds a task, if there is one.
pub open spec fn escrow_behind(b: BoardView, task_id: Id) -> Option<DepositView> {
    if b.tasks.contains_key(task_id) && b.tasks[task_id].escrow_id is Some && b.pending_deposits.contains_key(
        b.tasks[task_id].escrow_id->0,
    ) {
        Some(b.pending_deposits[b.tasks[task_id].escrow_id->0])
    } else {
        None
    }
}

/// The tasks of a well-formed board are well formed.
pub proof fn lemma_task_list(b: BoardView)
    requires
        b.wf(),
    ensures
        forall|i: int| 0 <= i < task_list(b).len() ==> (#[trigger] task_list(b)[i]).wf(),
        forall|i: int|
            0 <= i < task_list(b).len() ==> b.tasks.contains_key((#[trigger] task_list(b)[i]).id) && b.tasks[task_list(
                b,
            )[i].id] == task_list(b)[i],
{
    let rows = rows_of(b.tasks);
    lemma_listed(b.tasks);
    let f = |row: (Id, TaskView)|
        if (|t: TaskView| true)(row.1) {
            Some(row.1)
        } else {
            None
        };
    assert forall|i: int| 0 <= i < task_list(b).len() implies (#[trigger] task_list(b)[i]).wf() && b.tasks.contains_key(
        task_list(b)[i].id,
    ) && b.tasks[task_list(b)[i].id] == task_list(b)[i] by {
        lemma_pick_source(rows, f, i);
        let j = choose|j: int| 0 <= j < rows.len() && f(#[trigger] rows[j]) == Some(task_list(b)[i]);
        lemma_row_is_mapped(rows, j);
        assert(b.tasks.contains_key(rows[j].0));
    }
}

impl BoardView {
    /// The bounties that the operator's own money stands for.
    pub open spec fn operator_bounties(self) -> int {
        map_sum(self.tasks, operator_share())
    }

    /// The bounties of consensus tasks that are not settled.
    pub open spec fn consensus_bounties(self) -> int {
        map_sum(self.tasks, consensus_share())
    }

    /// What the exchange owes: every base balance, and every withdrawal that
    /// is not confirmed.
    pub open spec fn liabilities(self) -> int {
        self.base_total() + map_sum(self.payments, |k: Id, p: Payment| outstanding_withdrawal(p))
    }
}

/// What a withdrawal that is not confirmed was debited.
pub open spec fn debited(p: Payment) -> int {
    if p.status != PaymentStatus::Confirmed && p.purpose is Withdrawal {
        p.purpose->debited as int
    } else {
        0
    }
}

/// What a withdrawal that is not confirmed was debited.
pub open spec fn debit_of() -> spec_fn(Id, Payment) -> int {
    |id: Id, p: Payment| debited(p)
}

/// What an account has of base.
pub open spec fn base_of() -> spec_fn(PublicKey, ExchangeAccount) -> int {
    |k: PublicKey, a: ExchangeAccount| a.base_balance as int
}

impl BoardView {
    /// What the exchange stands for towards its customers: their balances, and
    /// what withdrawals that are not confirmed were debited.
    pub open spec fn backing(self) -> int {
        map_sum(self.exchange_accounts, base_of()) + map_sum(self.payments, debit_of())
    }
}

impl TaskBoard {
    /// What the exchange stands for towards its customers: in balances, and in
    /// withdrawals.
    pub fn backing(&self) -> (r: (u128, u128))
        requires
            self.wf(),
        ensures
            r.0 + r.1 == self@.backing(),
    {
        let ghost accounts = self.exchange_accounts.rows();
        let ghost payments = self.payments.rows();
        let ghost f = |row: (PublicKey, ExchangeAccount)| base_of()(row.0, row.1);
        let ghost g = |row: (Id, Payment)| debit_of()(row.0, row.1);
        proof {
            self.exchange_accounts.lemma_rows();
            self.payments.lemma_rows();
        }
        let mut balances: u128 = 0;
        let mut i: usize = 0;
        while i < self.exchange_accounts.len()
            invariant
                i <= accounts.len(),
                accounts == self.exchange_accounts.rows(),
                f == (|row: (PublicKey, ExchangeAccount)| base_of()(row.0, row.1)),
                balances == total(accounts.take(i as int), f),
                balances <= i * 0xffff_ffff_ffff_ffff,
            decreases accounts.len() - i,
        {
            proof {
                lemma_total_step(accounts, f, i as int);
            }
            balances = balances + self.exchange_accounts.value_at(i).base_balance as u128;
            i += 1;
        }
        assert(accounts.take(i as int) =~= accounts);
        let mut withdrawals: u128 = 0;
        let mut k: usize = 0;
        while k < self.payments.len()
            invariant
                k <= payments.len(),
                payments == self.payments.rows(),
                g == (|row: (Id, Payment)| debit_of()(row.0, row.1)),
                withdrawals == total(payments.take(k as int), g),
                withdrawals <= k * 0xffff_ffff_ffff_ffff,
            decreases payments.len() - k,
        {
            proof {
                lemma_total_step(payments, g, k as int);
            }
            let p = self.payments.value_at(k);
            if p.status != PaymentStatus::Confirmed {
                if let PaymentPurpose::Withdrawal { debited } = p.purpose {
                    withdrawals = withdrawals + debited as u128;
                }
            }
            k += 1;
        }
        assert(payments.take(k as int) =~= payments);
        (balances, withdrawals)
    }

    /// What the exchange owes its customers.
    pub fn exchange_liabilities(&self) -> (sum: u64)
        requires
            self.wf(),
        ensures
            sum == capped(self@.liabilities()),
    {
        let ghost accounts = self.exchange_accounts.rows();
        let ghost payments = self.payments.rows();
        let ghost af = |k: PublicKey, a: ExchangeAccount| a.base_balance as int;
        let ghost pf = |k: Id, p: Payment| outstanding_withdrawal(p);
        let ghost a_row = |row: (PublicKey, ExchangeAccount)| af(row.0, row.1);
        let ghost p_row = |row: (Id, Payment)| pf(row.0, row.1);
        proof {
            self.exchange_accounts.lemma_rows();
            self.payments.lemma_rows();
        }
        let mut sum: u64 = 0;
        let mut i: usize = 0;
        while i < self.exchange_accounts.len()
            invariant
                i <= accounts.len(),
                accounts == self.exchange_accounts.rows(),
                af == (|k: PublicKey, a: ExchangeAccount| a.base_balance as int),
                a_row == (|row: (PublicKey, ExchangeAccount)| af(row.0, row.1)),
                sum == capped(total(accounts.take(i as int), a_row)),
                total(accounts.take(i as int), a_row) >= 0,
            decreases accounts.len() - i,
        {
            proof {
                lemma_total_step(accounts, a_row, i as int);
            }
            sum = sum.saturating_add(self.exchange_accounts.value_at(i).base_balance);
            i += 1;
        }
        assert(accounts.take(i as int) =~= accounts);
        let ghost base = total(accounts, a_row);
        let mut k: usize = 0;
        assert(total(payments.take(0), p_row) == 0);
        while k < self.payments.len()
            invariant
                k <= payments.len(),
                base >= 0,
                payments == self.payments.rows(),
                pf == (|k: Id, p: Payment| outstanding_withdrawal(p)),
                p_row == (|row: (Id, Payment)| pf(row.0, row.1)),
                sum == capped(base + total(payments.take(k as int), p_row)),
                total(payments.take(k as int), p_row) >= 0,
            decreases payments.len() - k,
        {
            proof {
                lemma_total_step(payments, p_row, k as int);
            }
            let p = self.payments.value_at(k);
            if p.status != PaymentStatus::Confirmed {
                if let PaymentPurpose::Withdrawal { .. } = p.purpose {
                    sum = sum.saturating_add(p.amount);
                }
            }
            k += 1;
        }
        assert(payments.take(k as int) =~= payments);
        sum
    }

    /// The bounties promised out of the operator's own money and not paid.
    pub fn allocated_bounty(&self) -> (sum: u64)
        requires
            self.wf(),
            self@.operator_bounties() <= u64::MAX,
        ensures
            sum == self@.operator_bounties(),
    {
        let ghost rows = self.tasks.rows();
        let ghost f = operator_share();
        let ghost g = |row: (Id, TaskView)| f(row.0, row.1);
        proof {
            self.tasks.lemma_rows();
        }
        let mut sum: u64 = 0;
        let mut i: usize = 0;
        while i < self.tasks.len()
            invariant
                i <= rows.len(),
                rows == self.tasks.rows(),
                f == operator_share(),
                g == (|row: (Id, TaskView)| f(row.0, row.1)),
                total(rows, g) <= u64::MAX,
                sum == total(rows.take(i as int), g),
            decreases rows.len() - i,
        {
            proof {
                lemma_total_step(rows, g, i as int);
                lemma_total_prefix(rows, g, i + 1);
            }
            let task = self.tasks.value_at(i);
            if task.status != TaskStatus::Paid && task.status != TaskStatus::Closed && task.escrow_id.is_none() {
                sum = sum + task.bounty;
            }
            i += 1;
        }
        assert(rows.take(i as int) =~= rows);
        sum
    }

    /// The bounties riding on consensus tasks that are not settled, whoever
    /// funds them.
    pub fn consensus_exposure(&self) -> (sum: u64)
        requires
            self.wf(),
        ensures
            sum == capped(self@.consensus_bounties()),
    {
        let ghost rows = self.tasks.rows();
        let ghost f = consensus_share();
        let ghost g = |row: (Id, TaskView)| f(row.0, row.1);
        proof {
            self.tasks.lemma_rows();
        }
        let mut sum: u64 = 0;
        let mut i: usize = 0;
        while i < self.tasks.len()
            invariant
                i <= rows.len(),
                rows == self.tasks.rows(),
                f == consensus_share(),
                g == (|row: (Id, TaskView)| f(row.0, row.1)),
                sum == capped(total(rows.take(i as int), g)),
                total(rows.take(i as int), g) >= 0,
            decreases rows.len() - i,
        {
            proof {
                lemma_total_step(rows, g, i as int);
            }
            let task = self.tasks.value_at(i);
            if task.status != TaskStatus::Paid && task.status != TaskStatus::Closed {
                if let TaskKind::Consensus { .. } = &task.kind {
                    sum = sum.saturating_add(task.bounty);
                }
            }
            i += 1;
        }
        assert(rows.take(i as int) =~= rows);
        sum
    }

    /// The task of that id.
    pub fn get_task(&self, id: Id) -> (r: Option<&Task>)
        requires
            self.wf(),
        ensures
            match r {
                Some(t) => self@.tasks.contains_key(id) && self@.tasks[id] == t@,
                None => !self@.tasks.contains_key(id),
            },
    {
        self.tasks.get(&id)
    }

    /// The order of that id.
    pub fn get_order(&self, id: Id) -> (r: Option<&Order>)
        requires
            self.wf(),
        ensures
            match r {
                Some(o) => self@.orders.contains_key(id) && self@.orders[id] == o@,
                None => !self@.orders.contains_key(id),
            },
    {
        self.orders.get(&id)
    }

    /// The payment of that id.
    pub fn get_payment(&self, id: Id) -> (r: Option<&Payment>)
        requires
            self.wf(),
        ensures
            match r {
                Some(p) => self@.payments.contains_key(id) && self@.payments[id] == p@,
                None => !self@.payments.contains_key(id),
            },
    {
        self.payments.get(&id)
    }

    /// The tasks on offer, by ascending id.
    pub fn list_open_tasks(&self) -> (tasks: Vec<&Task>)
        requires
            self.wf(),
        ensures
            views(tasks@) == open_tasks(self@),
    {
        let keep = |t: &Task| -> (r: bool)
            ensures
                r == (t@.status == TaskStatus::Open),
        {
            t.status == TaskStatus::Open
        };
        self.tasks.values_where(keep, Ghost(|t: TaskView| t.status == TaskStatus::Open))
    }

    /// The tasks with a payout left to send, by ascending id.
    pub fn verified_unpaid_tasks(&self) -> (tasks: Vec<&Task>)
        requires
            self.wf(),
        ensures
            views(tasks@) == verified_tasks(self@),
    {
        let keep = |t: &Task| -> (r: bool)
            ensures
                r == (t@.status == TaskStatus::Verified),
        {
            t.status == TaskStatus::Verified
        };
        self.tasks.values_where(keep, Ghost(|t: TaskView| t.status == TaskStatus::Verified))
    }

    /// Every task, by ascending id.
    pub fn all_tasks(&self) -> (tasks: Vec<&Task>)
        requires
            self.wf(),
        ensures
            views(tasks@) == task_list(self@),
    {
        let keep = |t: &Task| -> (r: bool)
            ensures
                r,
        {
            true
        };
        self.tasks.values_where(keep, Ghost(|t: TaskView| true))
    }

    /// Every deposit, by ascending id.
    pub fn all_pending_deposits(&self) -> (deposits: Vec<&PendingDeposit>)
        requires
            self.wf(),
        ensures
            views(deposits@) == values_that(rows_of(self@.pending_deposits), |d: DepositView| true),
    {
        let keep = |d: &PendingDeposit| -> (r: bool)
            ensures
                r,
        {
            true
        };
        self.pending_deposits.values_where(keep, Ghost(|d: DepositView| true))
    }

    /// Every order, by ascending id.
    pub fn all_orders(&self) -> (orders: Vec<&Order>)
        requires
            self.wf(),
        ensures
            views(orders@) == values_that(rows_of(self@.orders), |o: Order| true),
    {
        let keep = |o: &Order| -> (r: bool)
            ensures
                r,
        {
            true
        };
        self.orders.values_where(keep, Ghost(|o: Order| true))
    }

    /// Every trade, by ascending id.
    pub fn all_trades(&self) -> (trades: Vec<&Trade>)
        requires
            self.wf(),
        ensures
            views(trades@) == values_that(rows_of(self@.trades), |t: Trade| true),
    {
        let keep = |t: &Trade| -> (r: bool)
            ensures
                r,
        {
            true
        };
        self.trades.values_where(keep, Ghost(|t: Trade| true))
    }

    /// The payments to an address, by ascending id.
    pub fn payments_to(&self, recipient: &PublicKey) -> (payments: Vec<&Payment>)
        requires
            self.wf(),
        ensures
            views(payments@) == values_that(rows_of(self@.payments), goes_to(*recipient)),
    {
        let keep = |p: &Payment| -> (r: bool)
            ensures
                r == (p.recipient == *recipient),
        {
            p.recipient == *recipient
        };
        self.payments.values_where(keep, Ghost(goes_to(*recipient)))
    }

    /// The payments out of a deposit, by ascending id.
    pub fn payments_out_of(&self, deposit_id: Id) -> (payments: Vec<&Payment>)
        requires
            self.wf(),
        ensures
            views(payments@) == values_that(rows_of(self@.payments), pays_out(deposit_id)),
    {
        let keep = |p: &Payment| -> (r: bool)
            ensures
                r == pays_out(deposit_id)(*p),
        {
            match p.purpose {
                PaymentPurpose::Escrow { deposit_id: from, .. } => from == deposit_id,
                _ => false,
            }
        };
        self.payments.values_where(keep, Ghost(pays_out(deposit_id)))
    }

    /// The reserved deposits whose time is over, by ascending id.
    pub fn overdue_reserved_escrows(&self, now: Timestamp) -> (deposits: Vec<&PendingDeposit>)
        requires
            self.wf(),
        ensures
            views(deposits@) == overdue_deposits(self@, now),
    {
        let keep = |d: &PendingDeposit| -> (r: bool)
            ensures
                r == (d@.status == EscrowStatus::Reserved && now.nanos > d@.expires_at.nanos),
        {
            d.status == EscrowStatus::Reserved && now.nanos > d.expires_at.nanos
        };
        self.pending_deposits.values_where(keep, Ghost(|d: DepositView| d.status == EscrowStatus::Reserved && now.nanos > d.expires_at.nanos))
    }

    /// The deposit that funds a task, if one does.
    pub fn escrow_for_task(&self, task_id: Id) -> (r: Option<&PendingDeposit>)
        requires
            self.wf(),
        ensures
            match r {
                Some(d) => escrow_behind(self@, task_id) == Some(d@),
                None => escrow_behind(self@, task_id) is None,
            },
    {
        match self.tasks.get(&task_id) {
            Some(task) => match task.escrow_id {
                Some(escrow_id) => self.pending_deposits.get(&escrow_id),
                None => None,
            },
            None => None,
        }
    }

    /// Records that a deposit has been dealt with in full.
    pub fn mark_escrow_refunded(&mut self, id: Id) -> (r: Result<(), BoardError>)
        requires
            old(self).wf(),
        ensures
            final(self).wf(),
            if old(self)@.pending_deposits.contains_key(id) {
                r is Ok && final(self)@ == escrow_refunded(old(self)@, id)
            } else {
                r == Result::<(), BoardError>::Err(BoardError::EscrowNotFound) && final(self)@ == old(self)@
            },
    {
        match self.pending_deposits.get_mut(&id) {
            Some(deposit) => {
                deposit.status = EscrowStatus::Refunded;
                Ok(())
            },
            None => Err(BoardError::EscrowNotFound),
        }
    }

    /// Puts a task back as it was kept.
    pub fn restore_task(&mut self, task: Task)
        requires
            old(self).wf(),
            task.wf(),
        ensures
            final(self).wf(),
            final(self)@ == old(self)@.with_task(task@),
    {
        self.tasks.insert(task.id, task);
    }

    /// Puts a deposit back as it was kept.
    pub fn restore_pending_deposit(&mut self, deposit: PendingDeposit)
        requires
            old(self).wf(),
            deposit@.purpose.wf(),
        ensures
            final(self).wf(),
            final(self)@ == old(self)@.with_deposit(deposit@),
    {
        self.pending_deposits.insert(deposit.id, deposit);
    }

    /// Puts an agent's record back as it was kept.
    pub fn restore_reputation(&mut self, pubkey: PublicKey, reputation: Reputation)
        requires
            old(self).wf(),
        ensures
            final(self).wf(),
            final(self)@ == (BoardView { reputation: old(self)@.reputation.insert(pubkey, reputation), ..old(self)@ }),
    {
        self.reputation.insert(pubkey, reputation);
    }

    /// Puts an exchange account back as it was kept.
    pub fn restore_exchange_account(&mut self, pubkey: PublicKey, account: ExchangeAccount)
        requires
            old(self).wf(),
        ensures
            final(self).wf(),
            final(self)@ == old(self)@.with_account(pubkey, account),
    {
        self.exchange_accounts.insert(pubkey, account);
    }

    /// Puts an order back as it was kept.
    pub fn restore_order(&mut self, order: Order)
        requires
            old(self).wf(),
        ensures
            final(self).wf(),
            final(self)@ == old(self)@.with_order(order),
    {
        self.orders.insert(order.id, order);
    }

    /// Puts a trade back as it was kept.
    pub fn restore_trade(&mut self, trade: Trade)
        requires
            old(self).wf(),
        ensures
            final(self).wf(),
            final(self)@ == (BoardView { trades: old(self)@.trades.insert(trade.id, trade), ..old(self)@ }),
    {
        self.trades.insert(trade.id, trade);
    }

    /// Files a payment as it stands.
    pub fn restore_payment(&mut self, payment: Payment)
        requires
            old(self).wf(),
        ensures
            final(self).wf(),
            final(self)@ == (BoardView { payments: old(self)@.payments.insert(payment.id, payment), ..old(self)@ }),
    {
        self.payments.insert(payment.id, payment);
    }
}

}
