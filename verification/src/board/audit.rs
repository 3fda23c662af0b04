//! Looking over what was read back: whether records are as the rules leave
//! them, and whether the figures have room to grow.
use crate::board::promises::{lemma_rows_promised, row_amount};
use crate::board::queries::operator_share;
use crate::board::types::{ExchangeAccount, Order, OrderStatus, Side, Task, TaskKind, TaskStatus, TaskView};
use crate::board::{BoardView, TaskBoard};
use crate::seqs::{lemma_total_step, total};
use crate::table::{as_map, lemma_row_is_mapped, row_of, rows_of};
use crate::types::{Id, PublicKey};
use vstd::prelude::*;

verus! {

impl Order {
    /// Whether the order is as the exchange leaves one.
    pub fn is_sound(&self) -> (r: bool)
        ensures
            r == self.sound(),
    {
        assert(self.price * self.quantity <= u64::MAX * u64::MAX) by (nonlinear_arith)
            requires
                0 <= self.price <= u64::MAX,
                0 <= self.quantity <= u64::MAX,
        ;
        let notional: u128 = self.price as u128 * self.quantity as u128;
        self.filled <= self.quantity && (self.status != OrderStatus::Open || self.filled < self.quantity) && notional
            <= u64::MAX as u128
    }
}

impl TaskBoard {
    /// Whether every order is sound.
    fn are_orders_sound(&self) -> (r: bool)
        requires
            self.wf(),
        ensures
            r == forall|id: Id| #[trigger] self@.orders.contains_key(id) ==> self@.orders[id].sound(),
    {
        let ghost rows = self.orders.rows();
        proof {
            self.orders.lemma_rows();
        }
        let mut i: usize = 0;
        while i < self.orders.len()
            invariant
                i <= rows.len(),
                rows == self.orders.rows(),
                self.orders.wf(),
                self@.orders == as_map(rows),
                forall|j: int| 0 <= j < i ==> (#[trigger] rows[j]).1.sound(),
            decreases rows.len() - i,
        {
            let o = *self.orders.value_at(i);
            if !o.is_sound() {
                proof {
                    lemma_row_is_mapped(rows, i as int);
                    assert(self@.orders.contains_key(rows[i as int].0));
                }
                return false;
            }
            i += 1;
        }
        proof {
            assert forall|id: Id| #[trigger] self@.orders.contains_key(id) implies self@.orders[id].sound() by {
                let j = row_of(rows, id);
                lemma_row_is_mapped(rows, j);
                assert(rows[j].1.sound());
            }
        }
        true
    }

    /// What the open orders of `owner` hold back of each asset.
    fn held_by(&self, owner: &PublicKey) -> (r: (u128, u128))
        requires
            self.wf(),
            forall|id: Id| #[trigger] self@.orders.contains_key(id) ==> self@.orders[id].sound(),
        ensures
            r.0 == self@.buys_hold(*owner),
            r.1 == self@.sales_hold(*owner),
    {
        let ghost rows = self.orders.rows();
        let ghost f = |k: Id, o: Order| if o.owner == *owner { o.locks_base() } else { 0 };
        let ghost g = |k: Id, o: Order| if o.owner == *owner { o.locks_compute() } else { 0 };
        let ghost base_of = |row: (Id, Order)| f(row.0, row.1);
        let ghost compute_of = |row: (Id, Order)| g(row.0, row.1);
        proof {
            self.orders.lemma_rows();
        }
        let mut base: u128 = 0;
        let mut compute: u128 = 0;
        let mut i: usize = 0;
        while i < self.orders.len()
            invariant
                i <= rows.len(),
                rows == self.orders.rows(),
                self.orders.wf(),
                self@.orders == as_map(rows),
                forall|id: Id| #[trigger] self@.orders.contains_key(id) ==> self@.orders[id].sound(),
                f == (|k: Id, o: Order| if o.owner == *owner { o.locks_base() } else { 0 }),
                g == (|k: Id, o: Order| if o.owner == *owner { o.locks_compute() } else { 0 }),
                base_of == (|row: (Id, Order)| f(row.0, row.1)),
                compute_of == (|row: (Id, Order)| g(row.0, row.1)),
                base == total(rows.take(i as int), base_of),
                compute == total(rows.take(i as int), compute_of),
                base <= i * 0xffff_ffff_ffff_ffff,
                compute <= i * 0xffff_ffff_ffff_ffff,
            decreases rows.len() - i,
        {
            proof {
                lemma_total_step(rows, base_of, i as int);
                lemma_total_step(rows, compute_of, i as int);
                lemma_row_is_mapped(rows, i as int);
                assert(self@.orders.contains_key(rows[i as int].0));
            }
            let o = *self.orders.value_at(i);
            assert(o == rows[i as int].1 && o.sound());
            if o.owner == *owner && o.status == OrderStatus::Open {
                let left: u64 = o.quantity - o.filled;
                match o.side {
                    Side::Buy => {
                        assert(o.price * left <= o.price * o.quantity) by (nonlinear_arith)
                            requires
                                left <= o.quantity,
                                o.price >= 0,
                        ;
                        base = base + o.price as u128 * left as u128;
                    },
                    Side::Sell => {
                        compute = compute + left as u128;
                    },
                }
            }
            i += 1;
        }
        assert(rows.take(i as int) =~= rows);
        (base, compute)
    }

    /// What all accounts hold of each asset, and whether each of them covers
    /// what is locked in it.
    fn accounts_hold(&self) -> (r: (u128, u128, bool))
        requires
            self.wf(),
        ensures
            r.0 == self@.base_total(),
            r.1 == self@.compute_total(),
            r.2 == forall|owner: PublicKey|
                (#[trigger] self@.account_of(owner)).locked_base <= self@.account_of(owner).base_balance
                    && self@.account_of(owner).locked_compute <= self@.account_of(owner).compute_balance,
    {
        let ghost rows = self.exchange_accounts.rows();
        let ghost f = |k: PublicKey, a: ExchangeAccount| a.base_balance as int;
        let ghost g = |k: PublicKey, a: ExchangeAccount| a.compute_balance as int;
        let ghost base_of = |row: (PublicKey, ExchangeAccount)| f(row.0, row.1);
        let ghost compute_of = |row: (PublicKey, ExchangeAccount)| g(row.0, row.1);
        proof {
            self.exchange_accounts.lemma_rows();
        }
        let mut base: u128 = 0;
        let mut compute: u128 = 0;
        let mut covered: bool = true;
        let mut i: usize = 0;
        while i < self.exchange_accounts.len()
            invariant
                i <= rows.len(),
                rows == self.exchange_accounts.rows(),
                self.exchange_accounts.wf(),
                self@.exchange_accounts == as_map(rows),
                f == (|k: PublicKey, a: ExchangeAccount| a.base_balance as int),
                g == (|k: PublicKey, a: ExchangeAccount| a.compute_balance as int),
                base_of == (|row: (PublicKey, ExchangeAccount)| f(row.0, row.1)),
                compute_of == (|row: (PublicKey, ExchangeAccount)| g(row.0, row.1)),
                base == total(rows.take(i as int), base_of),
                compute == total(rows.take(i as int), compute_of),
                base <= i * 0xffff_ffff_ffff_ffff,
                compute <= i * 0xffff_ffff_ffff_ffff,
                covered == forall|j: int|
                    0 <= j < i ==> (#[trigger] rows[j]).1.locked_base <= rows[j].1.base_balance
                        && rows[j].1.locked_compute <= rows[j].1.compute_balance,
            decreases rows.len() - i,
        {
            proof {
                lemma_total_step(rows, base_of, i as int);
                lemma_total_step(rows, compute_of, i as int);
            }
            let a = *self.exchange_accounts.value_at(i);
            assert(a == rows[i as int].1);
            base = base + a.base_balance as u128;
            compute = compute + a.compute_balance as u128;
            covered = covered && a.locked_base <= a.base_balance && a.locked_compute <= a.compute_balance;
            i += 1;
        }
        proof {
            assert(rows.take(i as int) =~= rows);
            if covered {
                assert forall|owner: PublicKey|
                    (#[trigger] self@.account_of(owner)).locked_base <= self@.account_of(owner).base_balance
                        && self@.account_of(owner).locked_compute <= self@.account_of(owner).compute_balance by {
                    if self@.exchange_accounts.contains_key(owner) {
                        let j = row_of(rows, owner);
                        lemma_row_is_mapped(rows, j);
                        assert(rows[j].1.locked_base <= rows[j].1.base_balance);
                    }
                }
            } else {
                let j = choose|j: int|
                    0 <= j < rows.len() && !((#[trigger] rows[j]).1.locked_base <= rows[j].1.base_balance
                        && rows[j].1.locked_compute <= rows[j].1.compute_balance);
                lemma_row_is_mapped(rows, j);
                let bad = self@.account_of(rows[j].0);
                assert(bad == rows[j].1);
            }
        }
        (base, compute, covered)
    }

    /// Whether the exchange's ledger is as its rules leave it. Every order and
    /// every movement of money keeps it so; records that were put back are
    /// looked over here.
    pub fn is_exchange_sound(&self) -> (r: bool)
        requires
            self.wf(),
        ensures
            r == self@.exchange_sound(),
    {
        if !self.are_orders_sound() {
            return false;
        }
        let (base, compute, covered) = self.accounts_hold();
        if base > u64::MAX as u128 || compute > u64::MAX as u128 {
            return false;
        }
        if !covered {
            proof {
                let owner = choose|owner: PublicKey|
                    !((#[trigger] self@.account_of(owner)).locked_base <= self@.account_of(owner).base_balance
                        && self@.account_of(owner).locked_compute <= self@.account_of(owner).compute_balance);
                if self@.covers(owner, 0, 0) {
                    assert(self@.account_of(owner).locked_base <= self@.account_of(owner).base_balance);
                    assert(self@.account_of(owner).locked_compute <= self@.account_of(owner).compute_balance);
                }
            }
            return false;
        }
        let ghost rows = self.orders.rows();
        proof {
            self.orders.lemma_rows();
        }
        let mut i: usize = 0;
        while i < self.orders.len()
            invariant
                i <= rows.len(),
                rows == self.orders.rows(),
                self.wf(),
                self.orders.wf(),
                self@.orders == as_map(rows),
                forall|id: Id| #[trigger] self@.orders.contains_key(id) ==> self@.orders[id].sound(),
                forall|j: int| 0 <= j < i ==> self@.holds_within((#[trigger] rows[j]).1.owner),
            decreases rows.len() - i,
        {
            let owner = self.orders.value_at(i).owner;
            let (buys, sales) = self.held_by(&owner);
            let a = self.exchange_account(&owner);
            if buys > a.locked_base as u128 || sales > a.locked_compute as u128 {
                proof {
                    if self@.covers(owner, 0, 0) {
                        assert(self@.buys_hold(owner) + (if owner == owner { 0int } else { 0 })
                            <= self@.account_of(owner).locked_base);
                        assert(self@.sales_hold(owner) + (if owner == owner { 0int } else { 0 })
                            <= self@.account_of(owner).locked_compute);
                    }
                }
                return false;
            }
            assert(rows[i as int].1.owner == owner);
            i += 1;
        }
        proof {
            lemma_holds_cover(self@);
        }
        true
    }

    /// Whether the bounties that the operator's money stands for are a number
    /// of sixty-four bits.
    pub fn do_operator_bounties_fit(&self) -> (r: bool)
        requires
            self.wf(),
        ensures
            r == (self@.operator_bounties() <= u64::MAX),
    {
        let ghost rows = self.tasks.rows();
        let ghost f = operator_share();
        let ghost g = |row: (Id, TaskView)| f(row.0, row.1);
        proof {
            self.tasks.lemma_rows();
        }
        let mut sum: u128 = 0;
        let mut i: usize = 0;
        while i < self.tasks.len()
            invariant
                i <= rows.len(),
                rows == self.tasks.rows(),
                f == operator_share(),
                g == (|row: (Id, TaskView)| f(row.0, row.1)),
                sum == total(rows.take(i as int), g),
                sum <= i * 0xffff_ffff_ffff_ffff,
            decreases rows.len() - i,
        {
            proof {
                lemma_total_step(rows, g, i as int);
            }
            let task = self.tasks.value_at(i);
            if task.status != TaskStatus::Paid && task.status != TaskStatus::Closed && task.escrow_id.is_none() {
                sum = sum + task.bounty as u128;
            }
            i += 1;
        }
        assert(rows.take(i as int) =~= rows);
        sum <= u64::MAX as u128
    }

    /// Whether every agent's failures can be counted `more` times more.
    pub fn do_failures_fit(&self, more: usize) -> (r: bool)
        requires
            self.wf(),
        ensures
            r == forall|agent: PublicKey| (#[trigger] self@.reputation_of(agent)).failed + more <= u64::MAX,
    {
        let ghost rows = self.reputation.rows();
        proof {
            self.reputation.lemma_rows();
        }
        let mut i: usize = 0;
        while i < self.reputation.len()
            invariant
                i <= rows.len(),
                rows == self.reputation.rows(),
                self.reputation.wf(),
                self@.reputation == as_map(rows),
                forall|j: int| 0 <= j < i ==> (#[trigger] rows[j]).1.failed + more <= u64::MAX,
            decreases rows.len() - i,
        {
            let record = *self.reputation.value_at(i);
            assert(record == rows[i as int].1);
            if record.failed > u64::MAX - more as u64 {
                proof {
                    lemma_row_is_mapped(rows, i as int);
                    let full = self@.reputation_of(rows[i as int].0);
                    assert(full == record);
                }
                return false;
            }
            i += 1;
        }
        proof {
            assert forall|agent: PublicKey| (#[trigger] self@.reputation_of(agent)).failed + more <= u64::MAX by {
                if self@.reputation.contains_key(agent) {
                    let j = row_of(rows, agent);
                    lemma_row_is_mapped(rows, j);
                    assert(rows[j].1.failed + more <= u64::MAX);
                }
            }
        }
        true
    }
}

impl BoardView {
    /// Whether what is locked in an account covers what its owner's open orders
    /// hold back.
    pub open spec fn holds_within(self, owner: PublicKey) -> bool {
        self.buys_hold(owner) <= self.account_of(owner).locked_base && self.sales_hold(owner) <= self.account_of(
            owner,
        ).locked_compute
    }
}

/// Whoever has no order holds nothing back, so it is enough that everybody who
/// has one is covered.
proof fn lemma_holds_cover(b: BoardView)
    requires
        b.wf(),
        b.ledger_fits(),
        forall|owner: PublicKey|
            (#[trigger] b.account_of(owner)).locked_base <= b.account_of(owner).base_balance && b.account_of(
                owner,
            ).locked_compute <= b.account_of(owner).compute_balance,
        forall|j: int|
            0 <= j < rows_of(b.orders).len() ==> b.holds_within((#[trigger] rows_of(b.orders)[j]).1.owner),
    ensures
        b.exchange_sound(),
{
    let rows = rows_of(b.orders);
    assert forall|owner: PublicKey| #[trigger] b.holds_within(owner) by {
        if !(exists|j: int| 0 <= j < rows.len() && (#[trigger] rows[j]).1.owner == owner) {
            let f = |k: Id, o: Order| if o.owner == owner { o.locks_base() } else { 0 };
            let g = |k: Id, o: Order| if o.owner == owner { o.locks_compute() } else { 0 };
            lemma_total_zero(rows, |row: (Id, Order)| f(row.0, row.1));
            lemma_total_zero(rows, |row: (Id, Order)| g(row.0, row.1));
        }
    }
    assert forall|taker: PublicKey| #[trigger] b.covers(taker, 0, 0) by {
        assert forall|owner: PublicKey| #[trigger]
            b.buys_hold(owner) + (if owner == taker { 0int } else { 0 }) <= b.account_of(owner).locked_base by {
            assert(b.holds_within(owner));
        }
        assert forall|owner: PublicKey| #[trigger]
            b.sales_hold(owner) + (if owner == taker { 0int } else { 0 }) <= b.account_of(owner).locked_compute by {
            assert(b.holds_within(owner));
        }
    }
}

proof fn lemma_total_zero<A>(s: Seq<A>, f: spec_fn(A) -> int)
    requires
        forall|i: int| 0 <= i < s.len() ==> f(#[trigger] s[i]) == 0,
    ensures
        total(s, f) == 0,
    decreases s.len(),
{
    if s.len() > 0 {
        let shorter = s.drop_last();
        assert forall|i: int| 0 <= i < shorter.len() implies f(#[trigger] shorter[i]) == 0 by {
            assert(shorter[i] == s[i]);
        }
        lemma_total_zero(shorter, f);
        assert(f(s[s.len() - 1]) == 0);
    }
}

impl TaskKind {
    /// What the assignees have been promised together, and whether any of them
    /// has been promised something.
    fn promises(&self) -> (r: (u128, bool))
        requires
            self@.wf(),
        ensures
            r.0 == self@.promised(),
            r.1 == !self@.promises_nothing(),
    {
        match self {
            TaskKind::Consensus { assignees, .. } => {
                let ghost rows = assignees.rows();
                proof {
                    lemma_rows_promised(rows);
                }
                let mut sum: u128 = 0;
                let mut any: bool = false;
                let mut i: usize = 0;
                while i < assignees.len()
                    invariant
                        i <= rows.len(),
                        rows == assignees.rows(),
                        assignees.wf(),
                        sum == total(rows.take(i as int), row_amount()),
                        sum <= i * 0xffff_ffff_ffff_ffff,
                        any == exists|j: int| 0 <= j < i && (#[trigger] rows[j]).1.share is Some,
                    decreases rows.len() - i,
                {
                    proof {
                        lemma_total_step(rows, row_amount(), i as int);
                    }
                    let share = assignees.value_at(i).share;
                    assert(rows[i as int].1.share == share);
                    match share {
                        Some(n) => {
                            sum = sum + n as u128;
                            any = true;
                        },
                        None => {},
                    }
                    i += 1;
                }
                proof {
                    assert(rows.take(i as int) =~= rows);
                    if any {
                        let j = choose|j: int| 0 <= j < rows.len() && (#[trigger] rows[j]).1.share is Some;
                        lemma_row_is_mapped(rows, j);
                        assert(as_map(rows).contains_key(rows[j].0));
                    } else {
                        assert forall|agent: PublicKey| #[trigger] as_map(rows).contains_key(agent) implies as_map(
                            rows,
                        )[agent].share is None by {
                            let j = row_of(rows, agent);
                            lemma_row_is_mapped(rows, j);
                            assert(!(rows[j].1.share is Some));
                        }
                    }
                }
                (sum, any)
            },
            _ => (0, false),
        }
    }
}

impl Task {
    /// Whether the task is as the rules leave one. Its assignees and its tags
    /// are in order, as their tables keep them.
    pub fn is_well_formed(&self) -> (r: bool)
        requires
            self@.kind.wf(),
            self.capabilities.wf(),
        ensures
            r == self.wf(),
    {
        let (promised, any) = self.kind.promises();
        if promised > self.bounty as u128 || !self.created_at.is_valid() {
            return false;
        }
        match self.status {
            TaskStatus::Open => !any,
            TaskStatus::Claimed => {
                let running = match &self.kind {
                    TaskKind::Consensus { submission_deadline, .. } => submission_deadline.is_some(),
                    _ => true,
                };
                !any && running
            },
            TaskStatus::Disputed => {
                let challenged = match &self.kind {
                    TaskKind::Disputable { dispute, .. } => dispute.is_some(),
                    _ => false,
                };
                self.claimant.is_some() && challenged
            },
            TaskStatus::AwaitingDispute => {
                match &self.kind {
                    TaskKind::Disputable { dispute_deadline, .. } => self.claimant.is_some()
                        && dispute_deadline.is_some(),
                    _ => true,
                }
            },
            _ => true,
        }
    }
}

}
