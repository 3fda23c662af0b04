//! What those who put money into the hub, and take it out, can rely on.
use crate::api::posting::{
    assignees_refusal, bounty_refusal, description_refusal, meets_consensus_task, meets_disputable_task, meets_task,
    posted_consensus_task, posted_task, uncommitted,
};
use crate::api::requests::{EscrowConsensusTaskPayload, EscrowDisputableTaskPayload, EscrowTaskPayload};
use crate::api::withdrawals::{paying_out, reaching_owner, withdrawal_denied};
use crate::board::BoardView;
use crate::board::conservation::fees_on;
use crate::board::deposits::{ConsensusTaskIntent, DepositView, DisputableTaskIntent, PurposeView, TaskIntent};
use crate::board::escrow::{deposit_refusal, escrow_refunded, escrow_spent, funded_task, funds_task, reserved};
use crate::board::exchange::lemma_order_is_held;
use crate::board::ledger::{
    cancel_order_refusal, cancelled, deposit_credited, net_of_fee, order_cancelled, unswept, withdrawal_refusal,
    withdrawal_refused, withdrawn,
};
use crate::board::staging::{deposit_parts, with_fees};
use crate::board::types::{
    BoardError, EscrowStatus, KindView, Order, OrderStatus, PaymentPurpose, PaymentStatus, Side, TaskStatus, Trade,
};
use crate::seqs::total;
use crate::table::{lemma_listed, lemma_picked_keys, lemma_row_is_mapped, rows_of};
use crate::types::{in_calendar, Id, PublicKey, Timestamp};
use vstd::prelude::*;

verus! {

/// The bounty that a purpose names, of the three that fund a task.
pub open spec fn named_bounty(p: PurposeView) -> u64 {
    match p {
        PurposeView::FundHashMatchTask { bounty, .. } => bounty,
        PurposeView::FundConsensusTask { bounty, .. } => bounty,
        PurposeView::FundDisputableTask { bounty, .. } => bounty,
        _ => 0,
    }
}

/// A deposit makes the task that it was made for: of the kind, for the bounty and
/// with the description, the conditions and the tags that were named, for the one
/// who paid. What it held beyond the bounty makes the bounty no larger.
pub proof fn lemma_deposit_makes_what_was_asked(d: DepositView, id: Id, created_at: Timestamp, now: Timestamp)
    requires
        d.purpose is FundHashMatchTask || d.purpose is FundConsensusTask || d.purpose is FundDisputableTask,
        d.purpose matches PurposeView::FundConsensusTask { join_window_minutes, .. } ==> in_calendar(
            now.nanos + join_window_minutes * 60_000_000_000,
        ),
    ensures
        funds_task(d.purpose),
        ({
            let t = funded_task(d, id, created_at, now);
            &&& t.id == id
            &&& t.created_at == created_at
            &&& t.poster == d.depositor
            &&& t.escrow_id == Some(d.id)
            &&& t.bounty == named_bounty(d.purpose)
            &&& t.status == TaskStatus::Open
            &&& t.claimant is None
            &&& t.claim_deadline is None
            &&& t.failed_attempts == 0
            &&& t.close_reason is None
            &&& t.settled_at is None
            &&& match d.purpose {
                PurposeView::FundHashMatchTask {
                    description,
                    bounty,
                    expected_output_hash,
                    min_reputation,
                    capabilities,
                } => {
                    &&& t.description == description
                    &&& t.min_reputation == min_reputation
                    &&& t.capabilities == capabilities
                    &&& t.kind == (KindView::HashMatch { expected_output_hash })
                },
                PurposeView::FundConsensusTask {
                    description,
                    bounty,
                    num_assignees,
                    join_window_minutes,
                    submission_window_minutes,
                    min_reputation,
                    capabilities,
                } => {
                    &&& t.description == description
                    &&& t.min_reputation == min_reputation
                    &&& t.capabilities == capabilities
                    &&& t.kind is Consensus
                    &&& t.kind->num_assignees == num_assignees
                    &&& t.kind->join_deadline.nanos == now.nanos + join_window_minutes * 60_000_000_000
                    &&& t.kind->submission_window_minutes == submission_window_minutes
                    &&& t.kind->submission_deadline is None
                    &&& t.kind->assignees.len() == 0
                },
                PurposeView::FundDisputableTask {
                    description,
                    bounty,
                    dispute_window_minutes,
                    min_reputation,
                    capabilities,
                } => {
                    &&& t.description == description
                    &&& t.min_reputation == min_reputation
                    &&& t.capabilities == capabilities
                    &&& t.kind is Disputable
                    &&& t.kind->dispute_window_minutes == dispute_window_minutes
                    &&& t.kind->answer is None
                    &&& t.kind->dispute is None
                    &&& t.kind->dispute_deadline is None
                },
                _ => false,
            }
        }),
{
}

/// A purpose that funds no task makes none.
pub proof fn lemma_other_purposes_make_nothing(p: PurposeView)
    ensures
        funds_task(p) <==> !(p is DisputeBond) && !(p is FundExchangeAccount),
{
}

/// What a poster asks for is what is kept of it, and the deposit has to hold the
/// bounty and the thousand that paying it out costs: so a deposit pays both.
pub proof fn lemma_deposit_covers_bounty_and_fee(
    p: EscrowTaskPayload,
    hash: Seq<u8>,
    i: TaskIntent,
    q: EscrowConsensusTaskPayload,
    j: ConsensusTaskIntent,
    r: EscrowDisputableTaskPayload,
    k: DisputableTaskIntent,
    required: u64,
)
    ensures
        meets_task(p, hash, i, required) ==> {
            &&& i.bounty == p.bounty
            &&& required == i.bounty + 1_000
            &&& i.description@ == p.description@
            &&& i.min_reputation == p.min_reputation
        },
        meets_consensus_task(q, j, required) ==> {
            &&& j.bounty == q.bounty
            &&& required == j.bounty + 1_000
            &&& j.description@ == q.description@
            &&& j.min_reputation == q.min_reputation
            &&& j.num_assignees == q.num_assignees
            &&& j.join_window_minutes == q.join_window_minutes
            &&& j.submission_window_minutes == q.submission_window_minutes
        },
        meets_disputable_task(r, k, required) ==> {
            &&& k.bounty == r.bounty
            &&& required == k.bounty + 1_000
            &&& k.description@ == r.description@
            &&& k.min_reputation == r.min_reputation
            &&& k.dispute_window_minutes == r.dispute_window_minutes
        },
{
}

/// What a task that the operator pays for is made from makes that task.
pub proof fn lemma_operator_posts_what_was_asked(
    i: TaskIntent,
    j: ConsensusTaskIntent,
    poster: PublicKey,
    id: Id,
    now: Timestamp,
    opened: Timestamp,
)
    requires
        in_calendar(opened.nanos + j.join_window_minutes * 60_000_000_000),
    ensures
        ({
            let t = posted_task(i, poster, id, now);
            &&& t.bounty == i.bounty
            &&& t.description == i.description@
            &&& t.min_reputation == i.min_reputation
            &&& t.capabilities == i.capabilities@
            &&& t.kind == (KindView::HashMatch { expected_output_hash: i.expected_output_hash })
            &&& t.poster == poster
            &&& t.id == id
            &&& t.created_at == now
            &&& t.escrow_id is None
            &&& t.status == TaskStatus::Open
        }),
        ({
            let t = posted_consensus_task(j, poster, id, now, opened);
            &&& t.bounty == j.bounty
            &&& t.description == j.description@
            &&& t.min_reputation == j.min_reputation
            &&& t.capabilities == j.capabilities@
            &&& t.kind is Consensus
            &&& t.kind->num_assignees == j.num_assignees
            &&& t.kind->join_deadline.nanos == opened.nanos + j.join_window_minutes * 60_000_000_000
            &&& t.kind->submission_window_minutes == j.submission_window_minutes
            &&& t.kind->assignees.len() == 0
            &&& t.poster == poster
            &&& t.id == id
            &&& t.created_at == now
            &&& t.escrow_id is None
            &&& t.status == TaskStatus::Open
        }),
{
}

/// A deposit is reserved for the one who asked, at the amount, the purpose, the
/// address and the end that were given, and its key is never on record.
pub proof fn lemma_reserving(
    id: Id,
    now: Timestamp,
    depositor: PublicKey,
    address: PublicKey,
    required: u64,
    purpose: PurposeView,
    end: Timestamp,
)
    ensures
        ({
            let d = reserved(id, now, depositor, address, required, purpose, end);
            &&& d.id == id
            &&& d.depositor == depositor
            &&& d.deposit_pubkey == address
            &&& d.deposit_private_key is None
            &&& d.required_amount == required
            &&& d.purpose == purpose
            &&& d.status == EscrowStatus::Reserved
            &&& d.created_at == now
            &&& d.expires_at == end
        }),
{
}

/// A deposit counts exactly if it is known, fits, is reserved, is in time and
/// holds all it has to.
pub proof fn lemma_when_a_deposit_counts(b: BoardView, id: Id, observed: u64, now: Timestamp, fits: bool)
    ensures
        ({
            let d = b.pending_deposits[id];
            let e = deposit_refusal(b, id, observed, now, fits);
            &&& e is None <==> {
                &&& b.pending_deposits.contains_key(id)
                &&& fits
                &&& d.status == EscrowStatus::Reserved
                &&& now.nanos <= d.expires_at.nanos
                &&& d.required_amount <= observed
            }
            &&& e == Some(BoardError::EscrowNotFound) <==> !b.pending_deposits.contains_key(id)
            &&& e == Some(BoardError::WrongEscrowPurpose) ==> !fits
            &&& e == Some(BoardError::EscrowNotReserved) ==> d.status != EscrowStatus::Reserved
            &&& e == Some(BoardError::EscrowExpired) ==> d.expires_at.nanos < now.nanos
            &&& e is Some && e->0 is EscrowUnderfunded ==> observed < d.required_amount && e->0 == (
            BoardError::EscrowUnderfunded { required: d.required_amount, have: observed })
        }),
{
}

/// Taking a deposit, or giving it back, changes its status and nothing else on
/// the board.
pub proof fn lemma_deposit_goes_one_way(b: BoardView, id: Id)
    requires
        b.wf(),
        b.pending_deposits.contains_key(id),
    ensures
        escrow_spent(b, id).pending_deposits[id] == (DepositView {
            status: EscrowStatus::Consumed,
            ..b.pending_deposits[id]
        }),
        escrow_refunded(b, id).pending_deposits[id] == (DepositView {
            status: EscrowStatus::Refunded,
            ..b.pending_deposits[id]
        }),
        forall|other: Id| #[trigger] b.pending_deposits.contains_key(other) && other != id
            ==> escrow_spent(b, id).pending_deposits[other] == b.pending_deposits[other] && escrow_refunded(
            b,
            id,
        ).pending_deposits[other] == b.pending_deposits[other],
        escrow_spent(b, id) == (BoardView { pending_deposits: escrow_spent(b, id).pending_deposits, ..b }),
        escrow_refunded(b, id) == (BoardView { pending_deposits: escrow_refunded(b, id).pending_deposits, ..b }),
{
}

/// A deposit on the exchange is credited to the one who made it, less the fee of
/// moving it and never below nothing. Nobody else's account changes.
pub proof fn lemma_exchange_deposit_is_credited(b: BoardView, id: Id, observed: u64, fee: u64, k: PublicKey)
    requires
        b.wf(),
        b.pending_deposits.contains_key(id),
        b.account_of(b.pending_deposits[id].depositor).base_balance + observed <= u64::MAX,
    ensures
        ({
            let depositor = b.pending_deposits[id].depositor;
            let before = b.account_of(k);
            let after = deposit_credited(b, id, observed, fee).account_of(k);
            &&& k == depositor && fee <= observed ==> after.base_balance == before.base_balance + observed - fee
            &&& k == depositor && observed < fee ==> after.base_balance == before.base_balance
            &&& k != depositor ==> after == before
            &&& after.locked_base == before.locked_base
            &&& after.compute_balance == before.compute_balance
            &&& after.locked_compute == before.locked_compute
            &&& deposit_credited(b, id, observed, fee).pending_deposits[id].status == EscrowStatus::Consumed
            &&& fee <= observed ==> net_of_fee(observed, fee) == observed - fee
            &&& observed < fee ==> net_of_fee(observed, fee) == 0
        }),
{
}

/// The deposits to be moved to custody are those on the exchange that are
/// credited.
pub proof fn lemma_deposits_to_sweep(b: BoardView, id: Id)
    requires
        b.wf(),
    ensures
        unswept(b).contains(id) <==> {
            &&& b.pending_deposits.contains_key(id)
            &&& b.pending_deposits[id].status == EscrowStatus::Consumed
            &&& b.pending_deposits[id].purpose is FundExchangeAccount
        },
        unswept(b).no_duplicates(),
{
    let g = |row: (Id, DepositView)|
        if row.1.status == EscrowStatus::Consumed && row.1.purpose is FundExchangeAccount {
            Some(row.1.id)
        } else {
            None
        };
    let rows = rows_of(b.pending_deposits);
    lemma_listed(b.pending_deposits);
    assert forall|i: int| 0 <= i < rows.len() && g(#[trigger] rows[i]) is Some implies g(rows[i])->0 == rows[i].0 by {
        lemma_row_is_mapped(rows, i);
        assert(b.pending_deposits.contains_key(rows[i].0));
    }
    lemma_picked_keys(rows, g, id);
}

/// What can be withdrawn is what an account holds free of its open orders, and
/// exactly what is withdrawn leaves it.
pub proof fn lemma_withdrawing(b: BoardView, owner: PublicKey, amount: u64, k: PublicKey)
    ensures
        ({
            let a = b.account_of(owner);
            let e = withdrawal_refusal(b, owner, amount);
            &&& e is None <==> 0 < amount && a.locked_base + amount <= a.base_balance
            &&& e == Some(BoardError::ZeroWithdrawal) <==> amount == 0
            &&& e is None ==> withdrawn(b, owner, amount).account_of(owner).base_balance == a.base_balance - amount
            &&& withdrawn(b, owner, amount).account_of(owner).locked_base == a.locked_base
            &&& withdrawn(b, owner, amount).account_of(owner).compute_balance == a.compute_balance
            &&& withdrawn(b, owner, amount).account_of(owner).locked_compute == a.locked_compute
            &&& k != owner ==> withdrawn(b, owner, amount).account_of(k) == b.account_of(k)
        }),
{
}

/// A request to withdraw is met if it is for more than the fee of a thousand and
/// no more than what is free. All of it is debited, and all but the fee is paid
/// out, from custody to the owner.
pub proof fn lemma_withdrawal_pays_all_but_the_fee(
    b: BoardView,
    owner: PublicKey,
    debit: u64,
    custody: PublicKey,
    id: Id,
    now: Timestamp,
)
    ensures
        ({
            let a = b.account_of(owner);
            let p = paying_out(custody, owner, debit, id, now);
            &&& withdrawal_denied(b, owner, debit) is None <==> 1_000 < debit && a.locked_base + debit
                <= a.base_balance
            &&& reaching_owner(debit) + 1_000 == debit
            &&& 1_000 < debit ==> p.amount + 1_000 == debit
            &&& p.purpose == (PaymentPurpose::Withdrawal { debited: debit })
            &&& p.source == custody
            &&& p.recipient == owner
            &&& p.status == PaymentStatus::Pending
            &&& p.id == id
            &&& p.created_at == now
        }),
{
}

/// Who may cancel an order: its owner, while it is open. The order is cancelled
/// with what is filled of it, and just what it still held back is free again.
pub proof fn lemma_cancelling_an_order(b: BoardView, id: Id, caller: PublicKey)
    requires
        b.wf(),
        b.exchange_sound(),
    ensures
        ({
            let o = b.orders[id];
            let e = cancel_order_refusal(b, id, caller);
            let before = b.account_of(o.owner);
            let after = order_cancelled(b, id).account_of(o.owner);
            let left = o.quantity - o.filled;
            &&& e is None <==> b.orders.contains_key(id) && o.owner == caller && o.status == OrderStatus::Open
            &&& e == Some(BoardError::OrderNotFound) <==> !b.orders.contains_key(id)
            &&& e == Some(BoardError::NotOrderOwner) <==> b.orders.contains_key(id) && o.owner != caller
            &&& cancelled(o) == (Order { status: OrderStatus::Cancelled, ..o })
            &&& e is None ==> {
                &&& order_cancelled(b, id).orders[id] == (Order { status: OrderStatus::Cancelled, ..o })
                &&& after.base_balance == before.base_balance
                &&& after.compute_balance == before.compute_balance
                &&& o.side == Side::Buy ==> after.locked_base == before.locked_base - o.price * left
                    && after.locked_compute == before.locked_compute
                &&& o.side == Side::Sell ==> after.locked_compute == before.locked_compute - left && after.locked_base
                    == before.locked_base
                &&& forall|other: Id| #[trigger] b.orders.contains_key(other) && other != id ==> order_cancelled(
                    b,
                    id,
                ).orders[other] == b.orders[other]
                &&& forall|k: PublicKey| k != o.owner ==> #[trigger] order_cancelled(b, id).account_of(k)
                    == b.account_of(k)
            }
        }),
{
    if cancel_order_refusal(b, id, caller) is None {
        let o = b.orders[id];
        lemma_order_is_held(b, id);
        assert(b.covers(o.owner, 0, 0));
        assert(b.buys_hold(o.owner) + 0 <= b.account_of(o.owner).locked_base);
        assert(b.sales_hold(o.owner) + 0 <= b.account_of(o.owner).locked_compute);
        assert(o.sound());
        let p = o.price as int;
        let left = o.remaining();
        assert(p * left >= 0) by (nonlinear_arith)
            requires
                p >= 0,
                left >= 0,
        ;
    }
}

/// The fees of trades go to the one account they are meant for, each in the asset
/// it was charged in: compute where the taker bought, base where they sold.
pub proof fn lemma_fees_are_collected(b: BoardView, sink: PublicKey, trades: Seq<Trade>, k: PublicKey)
    requires
        0 <= fees_on(trades, Side::Buy),
        0 <= fees_on(trades, Side::Sell),
        b.account_of(sink).compute_balance + fees_on(trades, Side::Buy) <= u64::MAX,
        b.account_of(sink).base_balance + fees_on(trades, Side::Sell) <= u64::MAX,
    ensures
        ({
            let before = b.account_of(k);
            let after = with_fees(b, sink, trades).account_of(k);
            let compute = total(
                trades,
                |t: Trade|
                    if t.taker_side == Side::Buy {
                        t.taker_fee as int
                    } else {
                        0
                    },
            );
            let base = total(
                trades,
                |t: Trade|
                    if t.taker_side == Side::Sell {
                        t.taker_fee as int
                    } else {
                        0
                    },
            );
            &&& k == sink ==> after.compute_balance == before.compute_balance + compute && after.base_balance
                == before.base_balance + base
            &&& k != sink ==> after == before
            &&& after.locked_base == before.locked_base
            &&& after.locked_compute == before.locked_compute
        }),
{
}

/// What is asked of a task before it is posted: a description of twenty thousand
/// characters at most, a bounty that leaves room for the fee, and from two to a
/// hundred assignees.
pub proof fn lemma_limits_of_a_task(description: Seq<char>, bounty: u64, n: u32)
    ensures
        description_refusal(description) is None <==> description.len() <= 20_000,
        bounty_refusal(bounty) is None <==> bounty + 1_000 <= u64::MAX,
        assignees_refusal(n) is None <==> 2 <= n <= 100,
{
}

/// What the operator can still promise is the balance less every bounty that
/// stands on it and is neither paid nor closed.
pub proof fn lemma_what_the_operator_can_promise(b: BoardView, balance: u64)
    ensures
        b.operator_bounties() <= balance ==> uncommitted(b, balance) == balance - b.operator_bounties(),
        b.operator_bounties() > balance ==> uncommitted(b, balance) == 0,
{
}

/// A withdrawal that is refused leaves everybody with what they have.
pub proof fn lemma_refused_withdrawal_takes_nothing(b: BoardView, owner: PublicKey, e: BoardError, agent: PublicKey)
    ensures
        ({
            let after = withdrawal_refused(b, owner, e);
            &&& after.account_of(agent) == b.account_of(agent)
            &&& after.orders == b.orders
            &&& after.payments == b.payments
            &&& after.pending_deposits == b.pending_deposits
        }),
{
}

/// A deposit to the exchange goes to the account of whoever made it, less the fee,
/// and is used up with it; nothing else of either changes.
pub proof fn lemma_parts_of_a_deposit(b: BoardView, id: Id, observed: u64, fee: u64)
    requires
        fee <= observed,
        b.account_of(b.pending_deposits[id].depositor).base_balance + observed - fee <= u64::MAX,
    ensures
        ({
            let d = b.pending_deposits[id];
            let before = b.account_of(d.depositor);
            let (depositor, account, deposit) = deposit_parts(b, id, observed, fee);
            &&& depositor == d.depositor
            &&& account.base_balance == before.base_balance + observed - fee
            &&& account.locked_base == before.locked_base
            &&& account.compute_balance == before.compute_balance
            &&& account.locked_compute == before.locked_compute
            &&& deposit.status == EscrowStatus::Consumed
            &&& deposit.id == d.id
            &&& deposit.depositor == d.depositor
            &&& deposit.purpose == d.purpose
        }),
{
}

}
