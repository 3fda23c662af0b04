//! Paying what tasks owe: what to send, what became of it, and what to do
//! about that. The money itself moves elsewhere.
use crate::board::deposits::{DepositView, EscrowPurpose, PendingDeposit};
use crate::board::disputes::bond_is_due;
use crate::board::payouts::{
    attempt_recorded, attempts_of, credits, given_up, giving_up_refusal, has_room, outcome_of, paid_before, paid_off,
    pay_refusal, TransactionOutput, Utxos,
};
use crate::board::queries::pays_out;
use crate::board::types::{
    copy_bytes, copy_hashes, AttemptView, BoardError, DisputeResolution, EscrowStatus, Payment, PaymentPurpose,
    PaymentStatus, PayoutAttempt, PayoutOutcome, Reputation, Task, TaskKind, TaskStatus, TaskView,
    MAX_PAYOUT_SUBMISSIONS,
};
use crate::board::{BoardView, TaskBoard};
use crate::series::HUB_TRANSACTION_FEE;
use crate::seqs::{
    lemma_pick_found, lemma_pick_source, lemma_total_prefix, lemma_total_step, pick, total, values_that, views,
};
use crate::table::{lemma_listed, lemma_row_is_mapped, row_of, rows_of, Duplicate};
use crate::types::{Digest, Id, PayoutKey, PublicKey, Timestamp};
use vstd::prelude::*;

verus! {

/// How what a task owes is to be sent.
#[derive(Clone)]
pub enum SettlementStep {
    /// There is nothing to send.
    Nothing,
    /// The task says that all is on its way, and yet so many payouts are not:
    /// a record was lost, and sending could pay twice. The operator has to
    /// look.
    Refuse(usize),
    /// All from the deposit that funds the task, in one transaction.
    FromEscrow(PendingDeposit),
    /// Each from the operator's wallet.
    PayEach(Vec<(PublicKey, u64)>),
}

/// The deposit that funds a task, if the board has it.
pub open spec fn funded_by(b: BoardView, t: TaskView) -> bool {
    t.escrow_id is Some && b.pending_deposits.contains_key(t.escrow_id->0)
}

/// Whether this is how what a task owes is to be sent.
pub open spec fn settles(b: BoardView, task_id: Id, step: SettlementStep) -> bool {
    let t = b.tasks[task_id];
    let unsent = b.unsubmitted(task_id);
    if !b.tasks.contains_key(task_id) || !t.awaits_payout() || unsent.len() == 0 {
        step is Nothing
    } else if t.status == TaskStatus::Submitted {
        step is Refuse && step->Refuse_0 == unsent.len()
    } else if funded_by(b, t) {
        step is FromEscrow && step->FromEscrow_0@ == b.pending_deposits[t.escrow_id->0]
    } else {
        step is PayEach && step->PayEach_0@ == unsent
    }
}

/// How what a task owes is to be sent.
pub fn plan_settlement(board: &TaskBoard, task_id: Id) -> (step: SettlementStep)
    requires
        board.wf(),
    ensures
        settles(board@, task_id, step),
{
    let task = match board.get_task(task_id) {
        Some(task) => task,
        None => return SettlementStep::Nothing,
    };
    if task.status != TaskStatus::Verified && task.status != TaskStatus::Submitted {
        return SettlementStep::Nothing;
    }
    let payouts = board.unsubmitted_payouts(task_id);
    if payouts.len() == 0 {
        return SettlementStep::Nothing;
    }
    if task.status == TaskStatus::Submitted {
        return SettlementStep::Refuse(payouts.len());
    }
    match board.escrow_for_task(task_id) {
        Some(deposit) => SettlementStep::FromEscrow(deposit.duplicate()),
        None => SettlementStep::PayEach(payouts),
    }
}

/// What a task owes, if there is such a task.
pub open spec fn owed_by(b: BoardView, task_id: Id) -> Option<Seq<(PublicKey, u64)>> {
    if b.tasks.contains_key(task_id) {
        Some(b.tasks[task_id].owed())
    } else {
        None
    }
}

/// Whom a task's deposit has to pay, all of them in one transaction: everybody
/// who has not been paid. Nothing if there is no such task.
pub fn escrow_recipients(board: &TaskBoard, task_id: Id) -> (r: Option<Vec<(PublicKey, u64)>>)
    requires
        board.wf(),
    ensures
        match r {
            Some(owed) => owed_by(board@, task_id) == Some(owed@),
            None => owed_by(board@, task_id) is None,
        },
{
    proof {
        board.lemma_view_wf();
    }
    match board.get_task(task_id) {
        Some(task) => Some(task.owed_payouts()),
        None => None,
    }
}

/// What is left to do for one recipient.
#[derive(Debug, Clone, Copy, PartialEq, Eq, Structural)]
pub enum PayoutStep {
    /// There is no such task.
    NoTask,
    /// The payout was made, or is on its way.
    Done,
    Send,
}

/// What is left to do for one recipient.
pub open spec fn payout_step(b: BoardView, task_id: Id, recipient: PublicKey) -> PayoutStep {
    if !b.tasks.contains_key(task_id) {
        PayoutStep::NoTask
    } else if b.tasks[task_id].paid_to(recipient) || b.payout_attempts.contains_key(PayoutKey { task_id, recipient }) {
        PayoutStep::Done
    } else {
        PayoutStep::Send
    }
}

/// What is left to do for one recipient, right before anything is spent.
pub fn plan_payout(board: &TaskBoard, task_id: Id, recipient: &PublicKey) -> (step: PayoutStep)
    requires
        board.wf(),
    ensures
        step == payout_step(board@, task_id, *recipient),
{
    proof {
        board.lemma_view_wf();
    }
    match board.get_task(task_id) {
        None => PayoutStep::NoTask,
        Some(task) => {
            if task.is_recipient_paid(recipient) || board.payout_attempt(task_id, recipient).is_some() {
                PayoutStep::Done
            } else {
                PayoutStep::Send
            }
        },
    }
}

/// Nobody is sent a second payout: what the plan sends goes to recipients who
/// have not been paid and have nothing on the way.
pub proof fn lemma_sent_once(b: BoardView, task_id: Id, i: int)
    requires
        b.tasks.contains_key(task_id),
        0 <= i < b.unsubmitted(task_id).len(),
    ensures
        !b.tasks[task_id].paid_to(b.unsubmitted(task_id)[i].0),
        !b.payout_attempts.contains_key(PayoutKey { task_id, recipient: b.unsubmitted(task_id)[i].0 }),
{
    let t = b.tasks[task_id];
    let f = |p: (PublicKey, u64)|
        if b.payout_attempts.contains_key(PayoutKey { task_id, recipient: p.0 }) {
            None
        } else {
            Some(p)
        };
    let g = |p: (PublicKey, u64)|
        if t.paid_to(p.0) {
            None
        } else {
            Some(p)
        };
    lemma_pick_source(t.pending(), f, i);
    let j = choose|j: int| 0 <= j < t.pending().len() && f(#[trigger] t.pending()[j]) == Some(b.unsubmitted(task_id)[i]);
    assert(t.awaits_payout());
    lemma_pick_source(t.allocated(), g, j);
}

/// What is to be done about a deposit's money.
#[derive(Debug, Clone, Copy, PartialEq, Eq, Structural)]
pub enum DisbursementStep {
    /// It is paid out: so much arrived.
    Done(u64),
    /// It cannot be paid out now.
    Wait,
    Pay,
}

/// What is to be done about a deposit's money, of which `status` was seen.
pub open spec fn disbursement(b: BoardView, deposit_id: Id, status: EscrowStatus) -> DisbursementStep {
    let made = values_that(rows_of(b.payments), pays_out(deposit_id));
    if made.len() > 0 {
        if made[0].status == PaymentStatus::Confirmed {
            DisbursementStep::Done(made[0].amount)
        } else {
            DisbursementStep::Wait
        }
    } else if !b.pending_deposits.contains_key(deposit_id) {
        DisbursementStep::Wait
    } else if b.pending_deposits[deposit_id].status == EscrowStatus::Refunded {
        DisbursementStep::Done(0)
    } else if b.pending_deposits[deposit_id].status != status {
        DisbursementStep::Wait
    } else {
        DisbursementStep::Pay
    }
}

/// What is to be done about a deposit's money. One payment is made out of it,
/// ever.
pub fn plan_disbursement(board: &TaskBoard, deposit: &PendingDeposit) -> (step: DisbursementStep)
    requires
        board.wf(),
    ensures
        step == disbursement(board@, deposit@.id, deposit@.status),
{
    let made = board.payments_out_of(deposit.id);
    assert(made@.len() == views(made@).len());
    if made.len() > 0 {
        assert(views(made@)[0] == *made@[0]);
        return if made[0].status == PaymentStatus::Confirmed {
            DisbursementStep::Done(made[0].amount)
        } else {
            DisbursementStep::Wait
        };
    }
    match board.get_pending_deposit(deposit.id) {
        None => DisbursementStep::Wait,
        Some(current) => {
            if current.status == EscrowStatus::Refunded {
                DisbursementStep::Done(0)
            } else if current.status != deposit.status {
                DisbursementStep::Wait
            } else {
                DisbursementStep::Pay
            }
        },
    }
}

/// What of a balance arrives once the network's fee is paid.
pub open spec fn less_fee(balance: u64) -> u64 {
    if balance >= HUB_TRANSACTION_FEE {
        (balance - HUB_TRANSACTION_FEE) as u64
    } else {
        0
    }
}

/// What of a balance arrives once the network's fee is paid.
pub fn net_of_fee(balance: u64) -> (net: u64)
    ensures
        net == less_fee(balance),
{
    balance.saturating_sub(HUB_TRANSACTION_FEE)
}

/// What a recipient is to get.
pub open spec fn due() -> spec_fn((PublicKey, u64)) -> int {
    |r: (PublicKey, u64)| r.1 as int
}

/// What a transaction needs that pays the recipients and the network's fee, if
/// sixty-four bits can hold it.
pub open spec fn needed_for(recipients: Seq<(PublicKey, u64)>) -> Option<u64> {
    let all = total(recipients, due()) + HUB_TRANSACTION_FEE;
    if all <= u64::MAX {
        Some(all as u64)
    } else {
        None
    }
}

/// What a transaction needs that pays the recipients and the network's fee, if
/// sixty-four bits can hold it.
pub fn payment_total(recipients: &[(PublicKey, u64)]) -> (needed: Option<u64>)
    ensures
        needed == needed_for(recipients@),
{
    let mut needed: u64 = HUB_TRANSACTION_FEE;
    let mut i: usize = 0;
    proof {
        assert(recipients@.take(0) =~= Seq::empty());
    }
    while i < recipients.len()
        invariant
            i <= recipients.len(),
            needed == total(recipients@.take(i as int), due()) + HUB_TRANSACTION_FEE,
        decreases recipients.len() - i,
    {
        proof {
            lemma_total_step(recipients@, due(), i as int);
            lemma_total_prefix(recipients@, due(), i + 1);
        }
        needed = match needed.checked_add(recipients[i].1) {
            Some(sum) => sum,
            None => return None,
        };
        i = i + 1;
    }
    proof {
        assert(recipients@.take(i as int) =~= recipients@);
    }
    Some(needed)
}

/// The payment that empties a deposit.
pub open spec fn emptying(
    deposit: DepositView,
    recipient: PublicKey,
    balance: u64,
    forfeited_bond: bool,
    id: Id,
    now: Timestamp,
) -> Payment {
    Payment {
        id,
        purpose: PaymentPurpose::Escrow { deposit_id: deposit.id, forfeited_bond, previous_status: deposit.status },
        source: deposit.deposit_pubkey,
        recipient,
        amount: less_fee(balance),
        status: PaymentStatus::Pending,
        created_at: now,
    }
}

/// The payment that empties a deposit.
pub fn escrow_payment(
    deposit: &PendingDeposit,
    recipient: &PublicKey,
    balance: u64,
    forfeited_bond: bool,
    id: Id,
    now: Timestamp,
) -> (p: Payment)
    ensures
        p == emptying(deposit@, *recipient, balance, forfeited_bond, id, now),
{
    Payment {
        id,
        purpose: PaymentPurpose::Escrow {
            deposit_id: deposit.id,
            forfeited_bond,
            previous_status: deposit.status,
        },
        source: deposit.deposit_pubkey,
        recipient: *recipient,
        amount: net_of_fee(balance),
        status: PaymentStatus::Pending,
        created_at: now,
    }
}

/// What is to be done about the bond of a dispute.
#[derive(Clone)]
pub enum BondStep {
    /// There is no bond to pay out.
    Nothing,
    /// The bond is the assignee's, and there is none.
    NoWinner,
    /// The bond is to be paid to the winner. Whether the challenger lost it
    /// stands beside.
    Pay(PendingDeposit, PublicKey, bool),
}

/// Whether this is to be done about the bond of a dispute.
pub open spec fn settles_bond(b: BoardView, task_id: Id, step: BondStep) -> bool {
    let t = b.tasks[task_id];
    if !b.tasks.contains_key(task_id) || !bond_is_due(b, t) {
        step is Nothing
    } else {
        let d = t.kind->dispute->0;
        let bond = b.pending_deposits[d.bond_escrow_id];
        match d.resolution->0 {
            DisputeResolution::ChallengerWins => step is Pay && step->Pay_0@ == bond && step->Pay_1 == d.challenger
                && !step->Pay_2,
            DisputeResolution::AssigneeWins => match t.claimant {
                Some(claimant) => step is Pay && step->Pay_0@ == bond && step->Pay_1 == claimant && step->Pay_2,
                None => step is NoWinner,
            },
        }
    }
}

/// What is to be done about the bond of a dispute.
pub fn plan_bond(board: &TaskBoard, task_id: Id) -> (step: BondStep)
    requires
        board.wf(),
    ensures
        settles_bond(board@, task_id, step),
{
    let task = match board.get_task(task_id) {
        Some(task) => task,
        None => return BondStep::Nothing,
    };
    let dispute = match &task.kind {
        TaskKind::Disputable { dispute: Some(d), .. } => d,
        _ => return BondStep::Nothing,
    };
    let resolution = match dispute.resolution {
        Some(r) => r,
        None => return BondStep::Nothing,
    };
    let bond = match board.get_pending_deposit(dispute.bond_escrow_id) {
        Some(bond) => bond,
        None => return BondStep::Nothing,
    };
    if bond.status != EscrowStatus::Consumed {
        return BondStep::Nothing;
    }
    match resolution {
        DisputeResolution::ChallengerWins => BondStep::Pay(bond.duplicate(), dispute.challenger, false),
        DisputeResolution::AssigneeWins => match task.claimant {
            Some(claimant) => BondStep::Pay(bond.duplicate(), claimant, true),
            None => BondStep::NoWinner,
        },
    }
}

/// Whether the money of an exchange deposit is still to be moved to custody.
pub open spec fn is_sweepable(b: BoardView, deposit_id: Id) -> bool {
    let d = b.pending_deposits[deposit_id];
    b.pending_deposits.contains_key(deposit_id) && d.purpose is FundExchangeAccount && (d.status
        == EscrowStatus::Consumed || d.status == EscrowStatus::Disbursing)
}

/// The exchange deposit of that id, if its money is still to be moved to
/// custody.
pub fn sweepable(board: &TaskBoard, deposit_id: Id) -> (r: Option<PendingDeposit>)
    requires
        board.wf(),
    ensures
        match r {
            Some(deposit) => is_sweepable(board@, deposit_id) && deposit@ == board@.pending_deposits[deposit_id],
            None => !is_sweepable(board@, deposit_id),
        },
{
    match board.get_pending_deposit(deposit_id) {
        None => None,
        Some(d) => {
            let funds = match &d.purpose {
                EscrowPurpose::FundExchangeAccount => true,
                _ => false,
            };
            if funds && (d.status == EscrowStatus::Consumed || d.status == EscrowStatus::Disbursing) {
                Some(d.duplicate())
            } else {
                None
            }
        },
    }
}

/// Whether two lists of digests are the same.
fn same_digests(a: &Vec<Digest>, b: &Vec<Digest>) -> (r: bool)
    ensures
        r == (a@ == b@),
{
    if a.len() != b.len() {
        return false;
    }
    let mut i: usize = 0;
    while i < a.len()
        invariant
            i <= a.len(),
            a.len() == b.len(),
            forall|j: int| 0 <= j < i ==> a@[j] == b@[j],
        decreases a.len() - i,
    {
        if a[i] != b[i] {
            assert(a@[i as int] != b@[i as int]);
            return false;
        }
        i += 1;
    }
    assert(a@ =~= b@);
    true
}

/// Whether two lists of bytes are the same.
fn same_bytes(a: &Vec<u8>, b: &Vec<u8>) -> (r: bool)
    ensures
        r == (a@ == b@),
{
    if a.len() != b.len() {
        return false;
    }
    let mut i: usize = 0;
    while i < a.len()
        invariant
            i <= a.len(),
            a.len() == b.len(),
            forall|j: int| 0 <= j < i ==> a@[j] == b@[j],
        decreases a.len() - i,
    {
        if a[i] != b[i] {
            assert(a@[i as int] != b@[i as int]);
            return false;
        }
        i += 1;
    }
    assert(a@ =~= b@);
    true
}

/// Whether two attempts are the same in every field.
pub fn same_attempt(a: &PayoutAttempt, b: &PayoutAttempt) -> (r: bool)
    ensures
        r == (a@ == b@),
{
    let transactions = match (&a.transaction, &b.transaction) {
        (Some(x), Some(y)) => same_bytes(x, y),
        (None, None) => true,
        _ => false,
    };
    a.task_id == b.task_id && a.recipient == b.recipient && a.amount == b.amount && a.output_hash == b.output_hash
        && same_digests(&a.spent_inputs, &b.spent_inputs) && a.source == b.source && a.submitted_at == b.submitted_at
        && a.submissions == b.submissions && transactions
}

/// Whether the board still has the attempt as it is.
pub open spec fn stands(b: BoardView, a: AttemptView) -> bool {
    let k = PayoutKey { task_id: a.task_id, recipient: a.recipient };
    b.payout_attempts.contains_key(k) && b.payout_attempts[k] == a
}

/// Whether the board still has the attempt as it is.
pub fn is_current(board: &TaskBoard, attempt: &PayoutAttempt) -> (r: bool)
    requires
        board.wf(),
    ensures
        r == stands(board@, attempt@),
{
    match board.payout_attempt(attempt.task_id, &attempt.recipient) {
        Some(live) => same_attempt(live, attempt),
        None => false,
    }
}

/// What is to be done about an attempt.
#[derive(Debug, Clone, Copy, PartialEq, Eq, Structural)]
pub enum ResolutionStep {
    /// It is on chain: record the payment.
    Record,
    /// It was lost as often as it may be: give up.
    GiveUp,
    /// It was lost: send it again.
    Resend,
    /// Nothing is shown, or the attempt was overtaken.
    Wait,
}

/// What is to be done about an attempt, by what became of it.
pub open spec fn resolution(b: BoardView, a: AttemptView, outcome: PayoutOutcome) -> ResolutionStep {
    match outcome {
        PayoutOutcome::Confirmed => if stands(b, a) {
            ResolutionStep::Record
        } else {
            ResolutionStep::Wait
        },
        PayoutOutcome::NeverLanded => if a.submissions >= MAX_PAYOUT_SUBMISSIONS {
            ResolutionStep::GiveUp
        } else {
            ResolutionStep::Resend
        },
        PayoutOutcome::Ambiguous => ResolutionStep::Wait,
    }
}

/// What is to be done about an attempt, by what the recipient's and the
/// source's address hold.
pub fn plan_resolution(board: &TaskBoard, attempt: &PayoutAttempt, recipient_utxos: &Utxos, source_utxos: &Utxos) -> (
    step: ResolutionStep)
    requires
        board.wf(),
    ensures
        step == resolution(
            board@,
            attempt@,
            outcome_of(attempt@.output_hash, attempt@.spent_inputs, recipient_utxos@, source_utxos@),
        ),
{
    match attempt.resolve(recipient_utxos, source_utxos) {
        PayoutOutcome::Confirmed => {
            if is_current(board, attempt) {
                ResolutionStep::Record
            } else {
                ResolutionStep::Wait
            }
        },
        PayoutOutcome::NeverLanded => {
            if attempt.submissions >= MAX_PAYOUT_SUBMISSIONS {
                ResolutionStep::GiveUp
            } else {
                ResolutionStep::Resend
            }
        },
        PayoutOutcome::Ambiguous => ResolutionStep::Wait,
    }
}

/// How a lost payout is to be sent again.
#[derive(Clone)]
pub enum ResendStep {
    /// The task is gone, or the attempt was overtaken.
    Nothing,
    /// The very same transaction, as this attempt, which is to be kept first.
    SameTransaction(PayoutAttempt),
    /// Whatever the deposit still owes, in a new transaction.
    FromEscrow(PendingDeposit),
    /// From the operator's wallet, in a new transaction.
    FromOperator,
}

/// Whether this is how a lost payout is to be sent again.
pub open spec fn resends(b: BoardView, a: AttemptView, now: Timestamp, step: ResendStep) -> bool {
    let t = b.tasks[a.task_id];
    if !b.tasks.contains_key(a.task_id) || !stands(b, a) {
        step is Nothing
    } else if a.transaction is Some {
        step is SameTransaction && step->SameTransaction_0@ == (AttemptView {
            submissions: (a.submissions + 1) as u32,
            submitted_at: now,
            ..a
        })
    } else if funded_by(b, t) {
        step is FromEscrow && step->FromEscrow_0@ == b.pending_deposits[t.escrow_id->0]
    } else {
        step is FromOperator
    }
}

/// How a lost payout is to be sent again. Two transactions that are the same
/// are one; so it is the same again, wherever it was kept.
pub fn plan_resend(board: &TaskBoard, attempt: &PayoutAttempt, now: Timestamp) -> (step: ResendStep)
    requires
        board.wf(),
        attempt@.submissions < u32::MAX,
    ensures
        resends(board@, attempt@, now, step),
{
    if board.get_task(attempt.task_id).is_none() || !is_current(board, attempt) {
        return ResendStep::Nothing;
    }
    if attempt.transaction.is_some() {
        let mut next = attempt.duplicate();
        next.submissions = next.submissions + 1;
        next.submitted_at = now;
        return ResendStep::SameTransaction(next);
    }
    match board.escrow_for_task(attempt.task_id) {
        Some(deposit) => ResendStep::FromEscrow(deposit.duplicate()),
        None => ResendStep::FromOperator,
    }
}

/// No payout goes on the wire more often than it may: the one that is sent
/// again has been sent less often, and the next is one more.
pub proof fn lemma_sends_are_bounded(b: BoardView, a: AttemptView, outcome: PayoutOutcome, now: Timestamp, step: ResendStep)
    requires
        resolution(b, a, outcome) == ResolutionStep::Resend,
        resends(b, a, now, step),
        step is SameTransaction,
    ensures
        step->SameTransaction_0@.submissions <= MAX_PAYOUT_SUBMISSIONS,
        step->SameTransaction_0@.submissions == a.submissions + 1,
        step->SameTransaction_0@.transaction == a.transaction,
        step->SameTransaction_0@.output_hash == a.output_hash,
{
}

/// What came of giving up.
#[derive(Debug, Clone, Copy, PartialEq, Eq, Structural)]
pub enum GivingUp {
    /// The task is `PayoutFailed`, and that is kept.
    Done,
    /// There is nothing to give up.
    Refused(BoardError),
    /// It could not be kept: the board is as it was.
    NotKept,
}

/// Whether giving a payout up need not be tried again.
pub open spec fn came_to_an_end(r: GivingUp) -> bool {
    !(r is NotKept)
}

/// Whether a payout is over once it was to be given up: not where giving up
/// could not be kept, and the hub still waits.
pub fn is_over(r: &GivingUp) -> (over: bool)
    ensures
        over == came_to_an_end(*r),
{
    match r {
        GivingUp::Done | GivingUp::Refused(_) => true,
        GivingUp::NotKept => false,
    }
}

/// The attempts with more of them filed.
spec fn with_attempts(m: Map<PayoutKey, AttemptView>, attempts: Seq<AttemptView>) -> Map<PayoutKey, AttemptView>
    decreases attempts.len(),
{
    if attempts.len() == 0 {
        m
    } else {
        let a = attempts.last();
        with_attempts(m, attempts.drop_last()).insert(PayoutKey { task_id: a.task_id, recipient: a.recipient }, a)
    }
}

/// Whether the attempts have one for the key.
spec fn lists_attempt(attempts: Seq<AttemptView>, k: PayoutKey) -> bool {
    exists|i: int|
        0 <= i < attempts.len() && (#[trigger] attempts[i]).task_id == k.task_id && attempts[i].recipient == k.recipient
}

proof fn lemma_with_attempts(m: Map<PayoutKey, AttemptView>, attempts: Seq<AttemptView>, from: Map<PayoutKey, AttemptView>)
    requires
        forall|i: int|
            #![trigger attempts[i]]
            0 <= i < attempts.len() ==> ({
                let k = PayoutKey { task_id: attempts[i].task_id, recipient: attempts[i].recipient };
                from.contains_key(k) && from[k] == attempts[i]
            }),
    ensures
        forall|k: PayoutKey| #[trigger]
            with_attempts(m, attempts).contains_key(k) <==> m.contains_key(k) || lists_attempt(attempts, k),
        forall|k: PayoutKey| #[trigger]
            with_attempts(m, attempts).contains_key(k) ==> with_attempts(m, attempts)[k] == if lists_attempt(
                attempts,
                k,
            ) {
                from[k]
            } else {
                m[k]
            },
    decreases attempts.len(),
{
    if attempts.len() > 0 {
        let fewer = attempts.drop_last();
        let a = attempts.last();
        let last = PayoutKey { task_id: a.task_id, recipient: a.recipient };
        assert(attempts[attempts.len() - 1] == a);
        assert forall|i: int| #![trigger fewer[i]] 0 <= i < fewer.len() implies ({
            let k = PayoutKey { task_id: fewer[i].task_id, recipient: fewer[i].recipient };
            from.contains_key(k) && from[k] == fewer[i]
        }) by {
            assert(attempts[i] == fewer[i]);
        }
        lemma_with_attempts(m, fewer, from);
        assert forall|k: PayoutKey| lists_attempt(attempts, k) <==> lists_attempt(fewer, k) || k == last by {
            if lists_attempt(attempts, k) {
                let i = choose|i: int|
                    0 <= i < attempts.len() && (#[trigger] attempts[i]).task_id == k.task_id && attempts[i].recipient
                        == k.recipient;
                if i < fewer.len() {
                    assert(fewer[i] == attempts[i]);
                }
            }
            if lists_attempt(fewer, k) {
                let i = choose|i: int|
                    0 <= i < fewer.len() && (#[trigger] fewer[i]).task_id == k.task_id && fewer[i].recipient
                        == k.recipient;
                assert(fewer[i] == attempts[i]);
            }
        }
        let z = with_attempts(m, attempts);
        let y = with_attempts(m, fewer);
        assert forall|k: PayoutKey| #[trigger] z.contains_key(k) implies z[k] == if lists_attempt(attempts, k) {
            from[k]
        } else {
            m[k]
        } by {
            if k != last {
                assert(y.contains_key(k));
            }
        }
    }
}

/// Picks the attempts for one task.
pub open spec fn for_task(task_id: Id) -> spec_fn((PayoutKey, AttemptView)) -> Option<AttemptView> {
    |row: (PayoutKey, AttemptView)|
        if row.0.task_id == task_id {
            Some(row.1)
        } else {
            None
        }
}

/// Putting back the attempts that giving up dropped makes the board's attempts
/// what they were.
proof fn lemma_attempts_put_back(b: BoardView, task_id: Id, dropped: Seq<AttemptView>)
    requires
        b.wf(),
        dropped == pick(rows_of(b.payout_attempts), for_task(task_id)),
    ensures
        with_attempts(
            b.payout_attempts.restrict(Set::new(|k: PayoutKey| k.task_id != task_id)),
            dropped,
        ) == b.payout_attempts,
{
    let m = b.payout_attempts;
    let rows = rows_of(m);
    let f = for_task(task_id);
    lemma_listed(m);
    assert forall|i: int| #![trigger dropped[i]] 0 <= i < dropped.len() implies ({
        let k = PayoutKey { task_id: dropped[i].task_id, recipient: dropped[i].recipient };
        m.contains_key(k) && m[k] == dropped[i] && k.task_id == task_id
    }) by {
        lemma_pick_source(rows, f, i);
        let j = choose|j: int| 0 <= j < rows.len() && f(#[trigger] rows[j]) == Some(dropped[i]);
        lemma_row_is_mapped(rows, j);
        assert(m.contains_key(rows[j].0));
    }
    let rest = m.restrict(Set::new(|k: PayoutKey| k.task_id != task_id));
    lemma_with_attempts(rest, dropped, m);
    let z = with_attempts(rest, dropped);
    assert forall|k: PayoutKey|
        #![trigger z.contains_key(k)]
        #![trigger m.contains_key(k)]
        z.contains_key(k) == m.contains_key(k) && (m.contains_key(k) ==> z[k] == m[k]) by {
        if m.contains_key(k) && k.task_id == task_id {
            let j = row_of(rows, k);
            lemma_row_is_mapped(rows, j);
            lemma_pick_found(rows, f, j);
            let i = choose|i: int| 0 <= i < dropped.len() && dropped[i] == rows[j].1;
            assert(dropped[i].task_id == k.task_id && dropped[i].recipient == k.recipient);
            assert(lists_attempt(dropped, k));
        }
        if lists_attempt(dropped, k) {
            let i = choose|i: int|
                0 <= i < dropped.len() && (#[trigger] dropped[i]).task_id == k.task_id && dropped[i].recipient
                    == k.recipient;
            assert(m.contains_key(k));
        }
    }
    assert(z =~= m);
}

/// Gives up on a task's payout. `save` keeps the task and drops its attempts
/// for good, in one; where it fails, the board is as it was.
pub fn abandon_payout<F: FnOnce(&Task, &Vec<(Id, PublicKey)>) -> Result<(), String>>(
    board: &mut TaskBoard,
    task_id: Id,
    save: F,
) -> (r: GivingUp)
    requires
        old(board).wf(),
        forall|task: &Task, keys: &Vec<(Id, PublicKey)>| #[trigger] save.requires((task, keys)),
    ensures
        final(board).wf(),
        match giving_up_refusal(old(board)@, task_id) {
            Some(e) => r == GivingUp::Refused(e) && final(board)@ == old(board)@,
            None => exists|task: &Task, keys: &Vec<(Id, PublicKey)>, saved: Result<(), String>|
                {
                    &&& #[trigger] save.ensures((task, keys), saved)
                    &&& task@ == given_up(old(board)@, task_id).tasks[task_id]
                    &&& keys@ == attempts_of(old(board)@, task_id).map_values(
                        |a: AttemptView| (a.task_id, a.recipient),
                    )
                    &&& match saved {
                        Ok(()) => {
                            &&& r == GivingUp::Done
                            &&& final(board)@ == given_up(old(board)@, task_id)
                        },
                        Err(_) => r == GivingUp::NotKept && final(board)@ == old(board)@,
                    }
                },
        },
{
    proof {
        board.lemma_view_wf();
    }
    let previous = match board.get_task(task_id) {
        Some(task) => task.duplicate(),
        None => return GivingUp::Refused(BoardError::NotFound),
    };
    let ghost was = board@;
    let dropped = match board.mark_payout_failed(task_id) {
        Err(e) => return GivingUp::Refused(e),
        Ok(dropped) => dropped,
    };
    let ghost gone = dropped@.map_values(|a: PayoutAttempt| a@);
    let ghost failed = board@;
    proof {
        let f = |row: (PayoutKey, AttemptView)| if row.0.task_id == task_id { Some(row.1) } else { None };
        assert(f =~= for_task(task_id));
        lemma_attempts_put_back(was, task_id, gone);
    }
    let mut keys: Vec<(Id, PublicKey)> = Vec::new();
    let mut i: usize = 0;
    while i < dropped.len()
        invariant
            i <= dropped.len(),
            keys.len() == i,
            forall|j: int| 0 <= j < i ==> (#[trigger] keys@[j]) == (dropped@[j].task_id, dropped@[j].recipient),
        decreases dropped.len() - i,
    {
        keys.push((dropped[i].task_id, dropped[i].recipient));
        i += 1;
    }
    proof {
        let named = gone.map_values(|a: AttemptView| (a.task_id, a.recipient));
        assert forall|j: int| 0 <= j < keys@.len() implies keys@[j] == named[j] by {
            assert(gone[j] == dropped@[j]@);
        }
        assert(keys@ =~= named);
    }
    let task = match board.get_task(task_id) {
        Some(task) => task.duplicate(),
        None => vstd::pervasive::unreached(),
    };
    let saved = save(&task, &keys);
    assert(save.ensures((&task, &keys), saved));
    match saved {
        Ok(()) => GivingUp::Done,
        Err(_) => {
            board.restore_task(previous);
            let ghost restored = board@;
            let mut k: usize = 0;
            assert(with_attempts(failed.payout_attempts, gone.take(0)) == failed.payout_attempts);
            while k < dropped.len()
                invariant
                    k <= dropped.len(),
                    board.wf(),
                    gone == dropped@.map_values(|a: PayoutAttempt| a@),
                    restored.payout_attempts == failed.payout_attempts,
                    board@ == (BoardView {
                        payout_attempts: with_attempts(failed.payout_attempts, gone.take(k as int)),
                        ..restored
                    }),
                decreases dropped.len() - k,
            {
                assert(gone.take(k + 1).drop_last() =~= gone.take(k as int));
                assert(gone.take(k + 1).last() == dropped@[k as int]@);
                board.restore_payout_attempt(dropped[k].duplicate());
                k += 1;
            }
            assert(gone.take(k as int) =~= gone);
            assert(board@.tasks =~= was.tasks);
            assert(board@ == was);
            GivingUp::NotKept
        },
    }
}

/// The board with a payout that was seen on chain recorded, and the attempt
/// behind it dropped. What is recorded already is not credited again.
pub open spec fn payout_recorded(b: BoardView, task_id: Id, recipient: PublicKey, amount: u64, now: Timestamp) -> BoardView {
    let t = b.tasks[task_id];
    let marked = if paid_before(t, recipient) {
        b
    } else {
        BoardView { reputation: b.credited(recipient, amount), ..b.with_task(paid_off(t, recipient, now)) }
    };
    BoardView {
        payout_attempts: marked.payout_attempts.remove(PayoutKey { task_id, recipient }),
        ..marked
    }
}

/// The board with the record and the account of `agent` filed as they are.
pub open spec fn with_agent_filed(b: BoardView, agent: PublicKey) -> BoardView {
    BoardView {
        reputation: b.reputation.insert(agent, b.reputation_of(agent)),
        exchange_accounts: b.exchange_accounts.insert(agent, b.account_of(agent)),
        ..b
    }
}

/// Records a payout that was seen on chain at `now`, and says whether it is
/// kept. `save` keeps the task and the recipient's record and drops the
/// attempt, in one; where it fails the board is as it was, but that the
/// recipient's record and account are on file.
pub fn record_confirmed_payout_at<F: FnOnce(&Task, &PublicKey, &Reputation) -> Result<(), String>>(
    board: &mut TaskBoard,
    task_id: Id,
    recipient: &PublicKey,
    amount: u64,
    now: Timestamp,
    save: F,
) -> (r: bool)
    requires
        old(board).wf(),
        credits(old(board)@, task_id, *recipient) ==> has_room(old(board)@.reputation_of(*recipient), amount),
        forall|task: &Task, agent: &PublicKey, reputation: &Reputation| #[trigger]
            save.requires((task, agent, reputation)),
    ensures
        final(board).wf(),
        match pay_refusal(old(board)@, task_id, *recipient) {
            Some(_) => !r && final(board)@ == old(board)@,
            None => exists|task: &Task, reputation: &Reputation, saved: Result<(), String>|
                {
                    let after = payout_recorded(old(board)@, task_id, *recipient, amount, now);
                    &&& #[trigger] save.ensures((task, recipient, reputation), saved)
                    &&& task@ == after.tasks[task_id]
                    &&& *reputation == after.reputation_of(*recipient)
                    &&& r == (saved is Ok)
                    &&& final(board)@ == if saved is Ok {
                        after
                    } else {
                        with_agent_filed(old(board)@, *recipient)
                    }
                },
        },
{
    proof {
        board.lemma_view_wf();
    }
    let ghost was = board@;
    let previous_task = match board.get_task(task_id) {
        Some(task) => task.duplicate(),
        None => return false,
    };
    let previous_reputation = board.reputation(recipient);
    let previous_attempt = match board.payout_attempt(task_id, recipient) {
        Some(attempt) => Some(attempt.duplicate()),
        None => None,
    };
    let previous_account = board.exchange_account(recipient);
    match board.mark_recipient_paid_at(task_id, recipient, amount, now) {
        Err(_) => return false,
        Ok(_) => {},
    }
    let _ = board.clear_payout_attempt(task_id, recipient);
    let ghost after = payout_recorded(was, task_id, *recipient, amount, now);
    assert(board@ == after);
    let task = match board.get_task(task_id) {
        Some(task) => task.duplicate(),
        None => vstd::pervasive::unreached(),
    };
    let reputation = board.reputation(recipient);
    let saved = save(&task, recipient, &reputation);
    assert(save.ensures((&task, recipient, &reputation), saved));
    match saved {
        Ok(()) => true,
        Err(_) => {
            board.restore_task(previous_task);
            board.restore_reputation(*recipient, previous_reputation);
            board.restore_exchange_account(*recipient, previous_account);
            if let Some(attempt) = previous_attempt {
                board.restore_payout_attempt(attempt);
            }
            proof {
                let k = PayoutKey { task_id, recipient: *recipient };
                assert(board@.tasks =~= was.tasks);
                assert(board@.reputation =~= was.reputation.insert(*recipient, was.reputation_of(*recipient)));
                if was.payout_attempts.contains_key(k) {
                    assert(was.payout_attempts[k].task_id == task_id);
                }
                assert(board@.payout_attempts =~= was.payout_attempts);
                assert(board@ == with_agent_filed(was, *recipient));
            }
            false
        },
    }
}

/// Recording a payout that was recorded before credits nobody.
pub proof fn lemma_recorded_once(b: BoardView, task_id: Id, recipient: PublicKey, amount: u64, now: Timestamp)
    requires
        b.tasks.contains_key(task_id),
        paid_before(b.tasks[task_id], recipient),
    ensures
        payout_recorded(b, task_id, recipient, amount, now).reputation == b.reputation,
        payout_recorded(b, task_id, recipient, amount, now).tasks == b.tasks,
{
}

/// Whether an output pays a recipient so much.
pub open spec fn pays(outputs: Seq<TransactionOutput>, i: int, recipient: PublicKey, amount: u64) -> bool {
    i < outputs.len() && outputs[i].pubkey == recipient && outputs[i].value == amount
}

/// Which recipient the outputs of a transaction do not pay: the first whose
/// output, in the same place, is not there or not theirs.
pub open spec fn unpaid_at(recipients: Seq<(PublicKey, u64)>, outputs: Seq<TransactionOutput>, i: int) -> bool {
    &&& 0 <= i < recipients.len()
    &&& !pays(outputs, i, recipients[i].0, recipients[i].1)
    &&& forall|j: int| 0 <= j < i ==> pays(outputs, j, (#[trigger] recipients[j]).0, recipients[j].1)
}

/// How often a payout has been sent.
pub open spec fn sent_before(b: BoardView, task_id: Id, recipient: PublicKey) -> u32 {
    let k = PayoutKey { task_id, recipient };
    if b.payout_attempts.contains_key(k) {
        b.payout_attempts[k].submissions
    } else {
        0
    }
}

/// A transaction that was built, as far as payouts are concerned.
#[derive(Debug, Clone)]
pub struct BuiltTransaction {
    pub outputs: Vec<TransactionOutput>,
    /// The hashes of the outputs it spends.
    pub spent_inputs: Vec<Digest>,
    /// As it goes over the wire.
    pub bytes: Vec<u8>,
}

/// The attempt that one output of a transaction is.
pub open spec fn attempt_for(
    b: BoardView,
    task_id: Id,
    recipient: (PublicKey, u64),
    i: int,
    tx: BuiltTransaction,
    source: PublicKey,
    now: Timestamp,
) -> AttemptView {
    AttemptView {
        task_id,
        recipient: recipient.0,
        amount: recipient.1,
        output_hash: tx.outputs@[i].hash,
        spent_inputs: tx.spent_inputs@,
        source,
        submitted_at: now,
        submissions: (sent_before(b, task_id, recipient.0) + 1) as u32,
        transaction: Some(tx.bytes@),
    }
}

/// What is to be kept of a transaction before it goes out: for each recipient
/// the output that pays them, which has their place. If there is none, which
/// recipient has none, and nothing may be sent.
pub fn payout_attempts(
    board: &TaskBoard,
    task_id: Id,
    recipients: &Vec<(PublicKey, u64)>,
    tx: &BuiltTransaction,
    source: &PublicKey,
    now: Timestamp,
) -> (r: Result<Vec<PayoutAttempt>, usize>)
    requires
        board.wf(),
        forall|i: int|
            0 <= i < recipients.len() ==> sent_before(board@, task_id, (#[trigger] recipients@[i]).0) < u32::MAX,
    ensures
        match r {
            Err(i) => unpaid_at(recipients@, tx.outputs@, i as int),
            Ok(attempts) => {
                &&& attempts.len() == recipients.len()
                &&& forall|i: int|
                    0 <= i < recipients.len() ==> pays(
                        tx.outputs@,
                        i,
                        (#[trigger] recipients@[i]).0,
                        recipients@[i].1,
                    )
                &&& forall|i: int|
                    0 <= i < attempts.len() ==> (#[trigger] attempts@[i])@ == attempt_for(
                        board@,
                        task_id,
                        recipients@[i],
                        i,
                        *tx,
                        *source,
                        now,
                    )
            },
        },
{
    let mut attempts: Vec<PayoutAttempt> = Vec::new();
    let mut i: usize = 0;
    while i < recipients.len()
        invariant
            i <= recipients.len(),
            board.wf(),
            forall|i: int|
                0 <= i < recipients.len() ==> sent_before(board@, task_id, (#[trigger] recipients@[i]).0) < u32::MAX,
            attempts.len() == i,
            forall|j: int| 0 <= j < i ==> pays(tx.outputs@, j, (#[trigger] recipients@[j]).0, recipients@[j].1),
            forall|j: int|
                0 <= j < i ==> (#[trigger] attempts@[j])@ == attempt_for(
                    board@,
                    task_id,
                    recipients@[j],
                    j,
                    *tx,
                    *source,
                    now,
                ),
        decreases recipients.len() - i,
    {
        let (recipient, amount) = recipients[i];
        assert(sent_before(board@, task_id, recipients@[i as int].0) < u32::MAX);
        if i >= tx.outputs.len() || tx.outputs[i].pubkey != recipient || tx.outputs[i].value != amount {
            return Err(i);
        }
        let previous: u32 = match board.payout_attempt(task_id, &recipient) {
            Some(a) => a.submissions,
            None => 0,
        };
        attempts.push(
            PayoutAttempt {
                task_id,
                recipient,
                amount,
                output_hash: tx.outputs[i].hash,
                spent_inputs: copy_hashes(&tx.spent_inputs),
                source: *source,
                submitted_at: now,
                submissions: previous + 1,
                transaction: Some(copy_bytes(&tx.bytes)),
            },
        );
        i += 1;
    }
    Ok(attempts)
}

/// The board once attempts are recorded, one by one.
pub open spec fn attempts_recorded(b: BoardView, attempts: Seq<AttemptView>) -> BoardView
    decreases attempts.len(),
{
    if attempts.len() == 0 {
        b
    } else {
        attempt_recorded(attempts_recorded(b, attempts.drop_last()), attempts.last())
    }
}

/// Records the attempts of a transaction that is about to go out.
pub fn record_attempts(board: &mut TaskBoard, attempts: &Vec<PayoutAttempt>)
    requires
        old(board).wf(),
    ensures
        final(board).wf(),
        final(board)@ == attempts_recorded(old(board)@, attempts@.map_values(|a: PayoutAttempt| a@)),
{
    let ghost all = attempts@.map_values(|a: PayoutAttempt| a@);
    let mut i: usize = 0;
    assert(attempts_recorded(old(board)@, all.take(0)) == old(board)@);
    while i < attempts.len()
        invariant
            i <= attempts.len(),
            board.wf(),
            all == attempts@.map_values(|a: PayoutAttempt| a@),
            board@ == attempts_recorded(old(board)@, all.take(i as int)),
        decreases attempts.len() - i,
    {
        assert(all.take(i + 1).drop_last() =~= all.take(i as int));
        assert(all.take(i + 1).last() == attempts@[i as int]@);
        board.record_payout_attempt(attempts[i].duplicate());
        i += 1;
    }
    assert(all.take(i as int) =~= all);
}

/// A task is `Submitted` only once nothing is left to send: recording an
/// attempt moves it there just when that is so.
pub proof fn lemma_submitted_is_all_sent(b: BoardView, attempt: AttemptView)
    requires
        b.wf(),
        b.tasks.contains_key(attempt.task_id),
        b.tasks[attempt.task_id].status == TaskStatus::Verified,
    ensures
        ({
            let after = attempt_recorded(b, attempt);
            after.tasks[attempt.task_id].status == TaskStatus::Submitted <==> after.unsubmitted(attempt.task_id).len()
                == 0
        }),
{
    let id = attempt.task_id;
    let with = b.with_attempt(attempt);
    let after = attempt_recorded(b, attempt);
    let t = b.tasks[id];
    let sent = TaskView { status: TaskStatus::Submitted, ..t };
    assert(with.tasks[id] == t);
    assert(b.tasks[id].id == id);
    if with.unsubmitted(id).len() == 0 {
        assert(after.tasks[id] == sent);
        assert(sent.allocated() == t.allocated());
        let f = |p: (PublicKey, u64)| if t.paid_to(p.0) { None } else { Some(p) };
        let g = |p: (PublicKey, u64)| if sent.paid_to(p.0) { None } else { Some(p) };
        assert(f =~= g);
        assert(sent.owed() == t.owed());
        let x = |p: (PublicKey, u64)|
            if with.payout_attempts.contains_key(PayoutKey { task_id: id, recipient: p.0 }) {
                None
            } else {
                Some(p)
            };
        let y = |p: (PublicKey, u64)|
            if after.payout_attempts.contains_key(PayoutKey { task_id: id, recipient: p.0 }) {
                None
            } else {
                Some(p)
            };
        assert(x =~= y);
        assert(after.unsubmitted(id) == with.unsubmitted(id));
    }
}

}
