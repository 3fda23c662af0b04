//! What the hub stands for: towards those who work, and towards those who trade.
use crate::board::BoardView;
use crate::board::queries::{base_of, capped, consensus_share, debit_of, operator_share, outstanding_withdrawal};
use crate::board::types::{ExchangeAccount, Payment, PaymentStatus, TaskStatus, TaskView};
use crate::table::{lemma_map_sum_insert, map_sum};
use crate::types::{Id, PublicKey};
use vstd::prelude::*;

verus! {

/// The operator's own money stands for the bounties of the tasks without a deposit
/// that are neither paid nor closed; and what is at stake on agreement alone is the
/// bounties of the consensus tasks that are neither.
pub proof fn lemma_what_bounties_are_promised(b: BoardView)
    ensures
        b.operator_bounties() == map_sum(
            b.tasks,
            |id: Id, t: TaskView|
                if t.status != TaskStatus::Paid && t.status != TaskStatus::Closed && t.escrow_id is None {
                    t.bounty as int
                } else {
                    0
                },
        ),
        b.consensus_bounties() == map_sum(
            b.tasks,
            |id: Id, t: TaskView|
                if t.status != TaskStatus::Paid && t.status != TaskStatus::Closed && t.kind is Consensus {
                    t.bounty as int
                } else {
                    0
                },
        ),
{
    assert(operator_share() =~= (|id: Id, t: TaskView|
        if t.status != TaskStatus::Paid && t.status != TaskStatus::Closed && t.escrow_id is None {
            t.bounty as int
        } else {
            0
        }));
    assert(consensus_share() =~= (|id: Id, t: TaskView|
        if t.status != TaskStatus::Paid && t.status != TaskStatus::Closed && t.kind is Consensus {
            t.bounty as int
        } else {
            0
        }));
}

/// A new task adds its bounty to what is promised, unless a deposit covers it, and
/// takes it away again once it is paid or closed.
pub proof fn lemma_what_a_task_adds(b: BoardView, t: TaskView, settled: TaskView)
    requires
        b.wf(),
        !b.tasks.contains_key(t.id),
        t.status == TaskStatus::Open,
        settled.id == t.id,
        settled.status == TaskStatus::Paid || settled.status == TaskStatus::Closed,
    ensures
        ({
            let with = b.with_task(t);
            let done = with.with_task(settled);
            &&& t.escrow_id is None ==> with.operator_bounties() == b.operator_bounties() + t.bounty
            &&& t.escrow_id is Some ==> with.operator_bounties() == b.operator_bounties()
            &&& t.kind is Consensus ==> with.consensus_bounties() == b.consensus_bounties() + t.bounty
            &&& !(t.kind is Consensus) ==> with.consensus_bounties() == b.consensus_bounties()
            &&& done.operator_bounties() == b.operator_bounties()
            &&& done.consensus_bounties() == b.consensus_bounties()
        }),
{
    let with = b.with_task(t);
    lemma_map_sum_insert(b.tasks, t.id, t, operator_share());
    lemma_map_sum_insert(b.tasks, t.id, t, consensus_share());
    lemma_map_sum_insert(with.tasks, t.id, settled, operator_share());
    lemma_map_sum_insert(with.tasks, t.id, settled, consensus_share());
}

/// The exchange owes every balance of base and every withdrawal until it is
/// confirmed: as a liability what the withdrawal will pay, and as backing all that
/// it was debited.
pub proof fn lemma_what_the_exchange_owes(b: BoardView)
    ensures
        ({
            let balances = map_sum(b.exchange_accounts, |k: PublicKey, a: ExchangeAccount| a.base_balance as int);
            &&& b.liabilities() == balances + map_sum(
                b.payments,
                |id: Id, p: Payment|
                    if p.purpose is Withdrawal && (p.status == PaymentStatus::Pending || p.status
                        == PaymentStatus::NeedsReview) {
                        p.amount as int
                    } else {
                        0
                    },
            )
            &&& b.backing() == balances + map_sum(
                b.payments,
                |id: Id, p: Payment|
                    if p.purpose is Withdrawal && (p.status == PaymentStatus::Pending || p.status
                        == PaymentStatus::NeedsReview) {
                        p.purpose->debited as int
                    } else {
                        0
                    },
            )
        }),
{
    assert(base_of() =~= (|k: PublicKey, a: ExchangeAccount| a.base_balance as int));
    let paying = |id: Id, p: Payment|
        if p.purpose is Withdrawal && (p.status == PaymentStatus::Pending || p.status == PaymentStatus::NeedsReview) {
            p.amount as int
        } else {
            0
        };
    let taken = |id: Id, p: Payment|
        if p.purpose is Withdrawal && (p.status == PaymentStatus::Pending || p.status == PaymentStatus::NeedsReview) {
            p.purpose->debited as int
        } else {
            0
        };
    assert((|k: Id, p: Payment| outstanding_withdrawal(p)) =~= paying);
    assert(debit_of() =~= taken);
}

/// A sum that is shown in sixty-four bits is the sum, or the most that they hold.
pub proof fn lemma_what_sixty_four_bits_show(n: int)
    requires
        0 <= n,
    ensures
        n <= 0xffff_ffff_ffff_ffff ==> capped(n) == n,
        n > 0xffff_ffff_ffff_ffff ==> capped(n) == 0xffff_ffff_ffff_ffffu64,
{
}

}
