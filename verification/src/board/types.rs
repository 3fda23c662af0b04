//! The records the board keeps.
use crate::table::{as_map, ascending, map_sum, Duplicate, Table};
use crate::tags::{ascending_names, Tags};
use crate::types::{Digest, Id, PublicKey, Timestamp};
use vstd::prelude::*;

verus! {

/// A text that may be missing, by its view.
pub open spec fn opt_text(text: Option<String>) -> Option<Seq<char>> {
    match text {
        Some(t) => Some(t@),
        None => None,
    }
}

/// Why the board refuses a request.
#[derive(Debug, Clone, Copy, PartialEq, Eq, Structural)]
pub enum BoardError {
    NotFound,
    NotOpen,
    NotClaimed,
    NotClaimant,
    NotVerified,
    AlreadyClaimed,
    AlreadyJoined,
    JoinWindowExpired,
    SubmissionWindowExpired,
    WrongTaskKind,
    AlreadySubmitted,
    InsufficientReputation { required: u64, have: u64 },
    AlreadyTerminal,
    EscrowNotFound,
    EscrowNotReserved,
    EscrowExpired,
    EscrowUnderfunded { required: u64, have: u64 },
    PosterCannotClaimOwnTask,
    WrongEscrowPurpose,
    DisputeWindowClosed,
    AssigneeCannotDisputeOwnSubmission,
    AlreadyDisputed,
    NotDisputed,
    CannotCancelWhileDisputed,
    OrderNotFound,
    NotOrderOwner,
    OrderNotOpen,
    InvalidOrder,
    OrderNotionalOverflow,
    ZeroWithdrawal,
    InsufficientBalance { available: u64, required: u64 },
}

/// Where a task stands.
#[derive(Debug, Clone, Copy, PartialEq, Eq, Structural)]
pub enum TaskStatus {
    Open,
    Claimed,
    /// An answer to a disputable task is in and its challenge window runs.
    AwaitingDispute,
    /// A challenger's bond is posted; the operator has to decide.
    Disputed,
    /// Somebody is owed the bounty and it is not all on its way.
    Verified,
    /// Every payout owed has been handed to the node.
    Submitted,
    /// Every payout owed has been seen on chain.
    Paid,
    /// Every attempt to pay was proven lost; the money is still owed.
    PayoutFailed,
    /// Over without anybody being owed anything.
    Closed,
}

/// Why a task ended `Closed`.
#[derive(Debug, Clone, Copy, PartialEq, Eq, Structural)]
pub enum CloseReason {
    /// No answer reached a majority.
    NoMajority,
    /// Too few joined before the deadline.
    Understaffed,
    CancelledByOperator,
}

/// How the operator decided a dispute.
#[derive(Debug, Clone, Copy, PartialEq, Eq, Structural)]
pub enum DisputeResolution {
    ChallengerWins,
    AssigneeWins,
}

/// How far a deposit has come.
#[derive(Debug, Clone, Copy, PartialEq, Eq, Structural)]
pub enum EscrowStatus {
    /// A payment out of it is on its way.
    Disbursing,
    Reserved,
    Consumed,
    Refunded,
}

/// What an address's unspent outputs say became of a payment.
#[derive(Debug, Clone, Copy, PartialEq, Eq, Structural)]
pub enum PayoutOutcome {
    /// The recipient holds the very output.
    Confirmed,
    /// The output is nowhere and every input is still free at the source.
    NeverLanded,
    /// Neither is shown.
    Ambiguous,
}

/// Whether an order buys compute or sells it.
#[derive(Debug, Clone, Copy, PartialEq, Eq, Structural)]
pub enum Side {
    Buy,
    Sell,
}

/// How far an order has got.
#[derive(Debug, Clone, Copy, PartialEq, Eq, Structural)]
pub enum OrderStatus {
    Open,
    Filled,
    Cancelled,
}

/// How often one payout may be put on the wire, the first time counted.
pub const MAX_PAYOUT_SUBMISSIONS: u32 = 4;

/// The taker's fee, in ten-thousandths of what the taker receives.
pub const TAKER_FEE_BPS: u64 = 10;

/// One assignee's part in a consensus task.
#[derive(Debug, Clone)]
pub struct ConsensusAssignment {
    pub answer: Option<String>,
    pub paid: bool,
    /// The fixed part of the bounty, which only winners have.
    pub share: Option<u64>,
}

/// What an assignment shows.
pub struct AssignmentView {
    pub answer: Option<Seq<char>>,
    pub paid: bool,
    pub share: Option<u64>,
}

impl View for ConsensusAssignment {
    type V = AssignmentView;

    open spec fn view(&self) -> AssignmentView {
        AssignmentView { answer: opt_text(self.answer), paid: self.paid, share: self.share }
    }
}

impl Duplicate for ConsensusAssignment {
    fn duplicate(&self) -> (copy: Self) {
        ConsensusAssignment { answer: self.answer.clone(), paid: self.paid, share: self.share }
    }
}

impl ConsensusAssignment {
    /// The part of somebody who has just joined.
    pub open spec fn fresh() -> AssignmentView {
        AssignmentView { answer: None, paid: false, share: None }
    }
}

impl Default for ConsensusAssignment {
    fn default() -> (a: Self)
        ensures
            a@ == ConsensusAssignment::fresh(),
    {
        ConsensusAssignment { answer: None, paid: false, share: None }
    }
}

/// A challenge of a submitted answer, backed by a bond.
#[derive(Debug, Clone)]
pub struct Dispute {
    pub challenger: PublicKey,
    pub reason: String,
    /// The deposit that holds the bond, which is not the task's own.
    pub bond_escrow_id: Id,
    pub bond_amount: u64,
    pub filed_at: Timestamp,
    pub resolution: Option<DisputeResolution>,
}

/// What a dispute shows.
pub struct DisputeView {
    pub challenger: PublicKey,
    pub reason: Seq<char>,
    pub bond_escrow_id: Id,
    pub bond_amount: u64,
    pub filed_at: Timestamp,
    pub resolution: Option<DisputeResolution>,
}

impl View for Dispute {
    type V = DisputeView;

    open spec fn view(&self) -> DisputeView {
        DisputeView {
            challenger: self.challenger,
            reason: self.reason@,
            bond_escrow_id: self.bond_escrow_id,
            bond_amount: self.bond_amount,
            filed_at: self.filed_at,
            resolution: self.resolution,
        }
    }
}

impl Duplicate for Dispute {
    fn duplicate(&self) -> (copy: Self) {
        Dispute {
            challenger: self.challenger,
            reason: self.reason.clone(),
            bond_escrow_id: self.bond_escrow_id,
            bond_amount: self.bond_amount,
            filed_at: self.filed_at,
            resolution: self.resolution,
        }
    }
}

/// A dispute that may be missing, by its view.
pub open spec fn opt_dispute(dispute: Option<Dispute>) -> Option<DisputeView> {
    match dispute {
        Some(d) => Some(d@),
        None => None,
    }
}

/// How a task's result is judged.
#[derive(Debug, Clone)]
pub enum TaskKind {
    /// The answer's hash has to be this one.
    HashMatch { expected_output_hash: Digest },
    /// What more than half of the assignees answer is right.
    Consensus {
        num_assignees: u32,
        join_deadline: Timestamp,
        submission_window_minutes: i64,
        /// Set at the moment the last assignee joins.
        submission_deadline: Option<Timestamp>,
        assignees: Table<PublicKey, ConsensusAssignment>,
    },
    /// Right unless challenged; the operator decides a challenge.
    Disputable {
        answer: Option<String>,
        dispute_window_minutes: i64,
        /// Set at the moment the answer comes in.
        dispute_deadline: Option<Timestamp>,
        dispute: Option<Dispute>,
    },
}

/// What a kind of task shows.
pub enum KindView {
    HashMatch { expected_output_hash: Digest },
    Consensus {
        num_assignees: u32,
        join_deadline: Timestamp,
        submission_window_minutes: i64,
        submission_deadline: Option<Timestamp>,
        assignees: Seq<(PublicKey, AssignmentView)>,
    },
    Disputable {
        answer: Option<Seq<char>>,
        dispute_window_minutes: i64,
        dispute_deadline: Option<Timestamp>,
        dispute: Option<DisputeView>,
    },
}

impl View for TaskKind {
    type V = KindView;

    open spec fn view(&self) -> KindView {
        match self {
            TaskKind::HashMatch { expected_output_hash } => KindView::HashMatch {
                expected_output_hash: *expected_output_hash,
            },
            TaskKind::Consensus {
                num_assignees,
                join_deadline,
                submission_window_minutes,
                submission_deadline,
                assignees,
            } => KindView::Consensus {
                num_assignees: *num_assignees,
                join_deadline: *join_deadline,
                submission_window_minutes: *submission_window_minutes,
                submission_deadline: *submission_deadline,
                assignees: assignees.rows(),
            },
            TaskKind::Disputable { answer, dispute_window_minutes, dispute_deadline, dispute } => KindView::Disputable {
                answer: opt_text(*answer),
                dispute_window_minutes: *dispute_window_minutes,
                dispute_deadline: *dispute_deadline,
                dispute: opt_dispute(*dispute),
            },
        }
    }
}

impl Duplicate for TaskKind {
    fn duplicate(&self) -> (copy: Self) {
        match self {
            TaskKind::HashMatch { expected_output_hash } => TaskKind::HashMatch {
                expected_output_hash: *expected_output_hash,
            },
            TaskKind::Consensus {
                num_assignees,
                join_deadline,
                submission_window_minutes,
                submission_deadline,
                assignees,
            } => TaskKind::Consensus {
                num_assignees: *num_assignees,
                join_deadline: *join_deadline,
                submission_window_minutes: *submission_window_minutes,
                submission_deadline: *submission_deadline,
                assignees: assignees.duplicate(),
            },
            TaskKind::Disputable { answer, dispute_window_minutes, dispute_deadline, dispute } => TaskKind::Disputable {
                answer: answer.clone(),
                dispute_window_minutes: *dispute_window_minutes,
                dispute_deadline: *dispute_deadline,
                dispute: match dispute {
                    Some(d) => Some(d.duplicate()),
                    None => None,
                },
            },
        }
    }
}

/// A task on offer, in hand or done.
#[derive(Debug, Clone)]
pub struct Task {
    pub id: Id,
    pub description: String,
    pub bounty: u64,
    pub kind: TaskKind,
    pub poster: PublicKey,
    pub status: TaskStatus,
    /// The one who claimed it; consensus tasks list their assignees instead.
    pub claimant: Option<PublicKey>,
    pub claim_deadline: Option<Timestamp>,
    pub failed_attempts: u32,
    pub created_at: Timestamp,
    /// How many completed tasks it takes to claim or join.
    pub min_reputation: u64,
    pub close_reason: Option<CloseReason>,
    /// The deposit that funds the task, if it is not the operator's money.
    pub escrow_id: Option<Id>,
    pub capabilities: Tags,
    /// When the last payout was confirmed.
    pub settled_at: Option<Timestamp>,
}

/// What a task shows.
#[verifier::ext_equal]
pub struct TaskView {
    pub id: Id,
    pub description: Seq<char>,
    pub bounty: u64,
    pub kind: KindView,
    pub poster: PublicKey,
    pub status: TaskStatus,
    pub claimant: Option<PublicKey>,
    pub claim_deadline: Option<Timestamp>,
    pub failed_attempts: u32,
    pub created_at: Timestamp,
    pub min_reputation: u64,
    pub close_reason: Option<CloseReason>,
    pub escrow_id: Option<Id>,
    pub capabilities: Seq<Seq<char>>,
    pub settled_at: Option<Timestamp>,
}

impl View for Task {
    type V = TaskView;

    open spec fn view(&self) -> TaskView {
        TaskView {
            id: self.id,
            description: self.description@,
            bounty: self.bounty,
            kind: self.kind@,
            poster: self.poster,
            status: self.status,
            claimant: self.claimant,
            claim_deadline: self.claim_deadline,
            failed_attempts: self.failed_attempts,
            created_at: self.created_at,
            min_reputation: self.min_reputation,
            close_reason: self.close_reason,
            escrow_id: self.escrow_id,
            capabilities: self.capabilities@,
            settled_at: self.settled_at,
        }
    }
}

impl Duplicate for Task {
    fn duplicate(&self) -> (copy: Self) {
        Task {
            id: self.id,
            description: self.description.clone(),
            bounty: self.bounty,
            kind: self.kind.duplicate(),
            poster: self.poster,
            status: self.status,
            claimant: self.claimant,
            claim_deadline: self.claim_deadline,
            failed_attempts: self.failed_attempts,
            created_at: self.created_at,
            min_reputation: self.min_reputation,
            close_reason: self.close_reason,
            escrow_id: self.escrow_id,
            capabilities: self.capabilities.duplicate(),
            settled_at: self.settled_at,
        }
    }
}

impl KindView {
    /// Assignees are listed once each, in ascending order.
    pub open spec fn wf(self) -> bool {
        match self {
            KindView::Consensus { assignees, .. } => ascending(assignees),
            _ => true,
        }
    }

    /// What the assignees have been promised, together.
    pub open spec fn promised(self) -> int {
        match self {
            KindView::Consensus { assignees, .. } => map_sum(as_map(assignees), share_amount()),
            _ => 0,
        }
    }

    /// Whether no assignee has been promised anything.
    pub open spec fn promises_nothing(self) -> bool {
        match self {
            KindView::Consensus { assignees, .. } => forall|agent: PublicKey| #[trigger]
                as_map(assignees).contains_key(agent) ==> as_map(assignees)[agent].share is None,
            _ => true,
        }
    }
}

/// What an assignee has been promised.
pub open spec fn share_amount() -> spec_fn(PublicKey, AssignmentView) -> int {
    |agent: PublicKey, a: AssignmentView|
        match a.share {
            Some(share) => share as int,
            None => 0,
        }
}

impl TaskView {
    /// The status and the kind's own fields agree: a dispute that is open has
    /// a claimant and a challenger, and a running window has an end. The task
    /// was posted inside the calendar. No more than the bounty is promised,
    /// and nothing before the votes are counted.
    pub open spec fn wf(self) -> bool {
        &&& self.kind.wf()
        &&& self.kind.promised() <= self.bounty
        &&& (self.status == TaskStatus::Open || self.status == TaskStatus::Claimed) ==> self.kind.promises_nothing()
        &&& self.created_at.valid()
        &&& ascending_names(self.capabilities)
        &&& self.status == TaskStatus::Disputed ==> self.claimant is Some && self.kind is Disputable
            && self.kind->dispute is Some
        &&& self.status == TaskStatus::AwaitingDispute && self.kind is Disputable
            ==> self.claimant is Some && self.kind->dispute_deadline is Some
        &&& self.status == TaskStatus::Claimed && self.kind is Consensus ==> self.kind->submission_deadline is Some
    }
}

impl Task {
    /// A task's invariant.
    pub open spec fn wf(&self) -> bool {
        self@.wf()
    }
}

/// What an agent has done so far.
#[derive(Debug, Clone, Copy, PartialEq, Eq, Structural)]
pub struct Reputation {
    pub completed: u64,
    pub failed: u64,
    pub total_earned: u64,
}

impl Reputation {
    /// The record of an agent that has done nothing.
    pub open spec fn none() -> Reputation {
        Reputation { completed: 0, failed: 0, total_earned: 0 }
    }
}

impl Default for Reputation {
    fn default() -> (r: Self)
        ensures
            r == Reputation::none(),
    {
        Reputation { completed: 0, failed: 0, total_earned: 0 }
    }
}

/// Balances on the exchange; what open orders hold back is locked.
#[derive(Debug, Clone, Copy, PartialEq, Eq, Structural)]
pub struct ExchangeAccount {
    pub base_balance: u64,
    pub locked_base: u64,
    pub compute_balance: u64,
    pub locked_compute: u64,
}

impl ExchangeAccount {
    /// The account of an owner that has put nothing in.
    pub open spec fn none() -> ExchangeAccount {
        ExchangeAccount { base_balance: 0, locked_base: 0, compute_balance: 0, locked_compute: 0 }
    }
}

impl Default for ExchangeAccount {
    fn default() -> (a: Self)
        ensures
            a == ExchangeAccount::none(),
    {
        ExchangeAccount { base_balance: 0, locked_base: 0, compute_balance: 0, locked_compute: 0 }
    }
}

/// A limit order. The price is base units for one unit of compute.
#[derive(Debug, Clone, Copy, PartialEq, Eq, Structural)]
pub struct Order {
    pub id: Id,
    pub owner: PublicKey,
    pub side: Side,
    pub price: u64,
    pub quantity: u64,
    pub filled: u64,
    pub status: OrderStatus,
    pub created_at: Timestamp,
}

/// One match, at the resting order's price. The fee is in compute where the
/// taker bought, and in base where the taker sold.
#[derive(Debug, Clone, Copy, PartialEq, Eq, Structural)]
pub struct Trade {
    pub id: Id,
    pub buy_order_id: Id,
    pub sell_order_id: Id,
    pub buyer: PublicKey,
    pub seller: PublicKey,
    pub price: u64,
    pub quantity: u64,
    pub executed_at: Timestamp,
    pub taker_side: Side,
    pub taker_fee: u64,
}

/// What an outgoing payment is for.
#[derive(Debug, Clone, Copy, PartialEq, Eq, Structural)]
pub enum PaymentPurpose {
    Withdrawal { debited: u64 },
    Faucet,
    Escrow { deposit_id: Id, forfeited_bond: bool, previous_status: EscrowStatus },
}

/// What is known of an outgoing payment.
#[derive(Debug, Clone, Copy, PartialEq, Eq, Structural)]
pub enum PaymentStatus {
    Pending,
    Confirmed,
    NeedsReview,
}

/// An outgoing payment that is on record.
#[derive(Debug, Clone, Copy, PartialEq, Eq, Structural)]
pub struct Payment {
    pub id: Id,
    pub purpose: PaymentPurpose,
    pub source: PublicKey,
    pub recipient: PublicKey,
    pub amount: u64,
    pub status: PaymentStatus,
    pub created_at: Timestamp,
}

impl View for Reputation {
    type V = Reputation;

    open spec fn view(&self) -> Reputation {
        *self
    }
}

impl View for ExchangeAccount {
    type V = ExchangeAccount;

    open spec fn view(&self) -> ExchangeAccount {
        *self
    }
}

impl View for Order {
    type V = Order;

    open spec fn view(&self) -> Order {
        *self
    }
}

impl View for Trade {
    type V = Trade;

    open spec fn view(&self) -> Trade {
        *self
    }
}

impl View for Payment {
    type V = Payment;

    open spec fn view(&self) -> Payment {
        *self
    }
}

/// One recipient's payout, from the wire until its fate is known.
#[derive(Debug, Clone)]
pub struct PayoutAttempt {
    pub task_id: Id,
    pub recipient: PublicKey,
    pub amount: u64,
    /// The hash of the very output that pays the recipient.
    pub output_hash: Digest,
    /// The hashes of the outputs the transaction spends.
    pub spent_inputs: Vec<Digest>,
    pub source: PublicKey,
    pub submitted_at: Timestamp,
    /// How often it has been put on the wire, the first time counted.
    pub submissions: u32,
    /// The transaction as it went out, where it was kept.
    pub transaction: Option<Vec<u8>>,
}

/// What an attempt shows.
#[verifier::ext_equal]
pub struct AttemptView {
    pub task_id: Id,
    pub recipient: PublicKey,
    pub amount: u64,
    pub output_hash: Digest,
    pub spent_inputs: Seq<Digest>,
    pub source: PublicKey,
    pub submitted_at: Timestamp,
    pub submissions: u32,
    pub transaction: Option<Seq<u8>>,
}

/// Bytes that may be missing, by their view.
pub open spec fn opt_bytes(bytes: Option<Vec<u8>>) -> Option<Seq<u8>> {
    match bytes {
        Some(b) => Some(b@),
        None => None,
    }
}

impl View for PayoutAttempt {
    type V = AttemptView;

    open spec fn view(&self) -> AttemptView {
        AttemptView {
            task_id: self.task_id,
            recipient: self.recipient,
            amount: self.amount,
            output_hash: self.output_hash,
            spent_inputs: self.spent_inputs@,
            source: self.source,
            submitted_at: self.submitted_at,
            submissions: self.submissions,
            transaction: opt_bytes(self.transaction),
        }
    }
}

/// Copies hashes into a list of their own.
pub fn copy_hashes(hashes: &Vec<Digest>) -> (copy: Vec<Digest>)
    ensures
        copy@ == hashes@,
{
    let mut copy: Vec<Digest> = Vec::new();
    let mut i: usize = 0;
    while i < hashes.len()
        invariant
            i <= hashes.len(),
            copy@ == hashes@.take(i as int),
        decreases hashes.len() - i,
    {
        copy.push(hashes[i]);
        i += 1;
        assert(copy@ =~= hashes@.take(i as int));
    }
    assert(copy@ =~= hashes@);
    copy
}

/// Copies bytes into a list of their own.
pub fn copy_bytes(bytes: &Vec<u8>) -> (copy: Vec<u8>)
    ensures
        copy@ == bytes@,
{
    let mut copy: Vec<u8> = Vec::new();
    let mut i: usize = 0;
    while i < bytes.len()
        invariant
            i <= bytes.len(),
            copy@ == bytes@.take(i as int),
        decreases bytes.len() - i,
    {
        copy.push(bytes[i]);
        i += 1;
        assert(copy@ =~= bytes@.take(i as int));
    }
    assert(copy@ =~= bytes@);
    copy
}

impl Duplicate for PayoutAttempt {
    fn duplicate(&self) -> (copy: Self) {
        PayoutAttempt {
            task_id: self.task_id,
            recipient: self.recipient,
            amount: self.amount,
            output_hash: self.output_hash,
            spent_inputs: copy_hashes(&self.spent_inputs),
            source: self.source,
            submitted_at: self.submitted_at,
            submissions: self.submissions,
            transaction: match &self.transaction {
                Some(bytes) => Some(copy_bytes(bytes)),
                None => None,
            },
        }
    }
}

}
