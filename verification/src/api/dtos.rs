//! What the hub shows of its records. Keys go by their hexadecimal text. A
//! hash task's expected hash and a consensus task's answers are never shown.
use crate::board::deposits::{DepositView, PendingDeposit};
use crate::board::tasks::sum_of;
use crate::board::types::{
    opt_text, CloseReason, Dispute, DisputeResolution, DisputeView, ExchangeAccount, KindView, Order, OrderStatus,
    Reputation, Side, Task, TaskKind, TaskStatus, TaskView, Trade,
};
use crate::faucet_pow::{Challenge, ChallengeView};
use crate::table::Duplicate;
use crate::tags::Tags;
use crate::text::hex_text;
use crate::types::{Id, PublicKey, Timestamp};
use vstd::prelude::*;

verus! {

/// A key's text, if there is a key.
pub open spec fn opt_key(key: Option<PublicKey>) -> Option<Seq<char>> {
    match key {
        Some(k) => Some(hex_text(k.bytes())),
        None => None,
    }
}

fn key_text(key: &Option<PublicKey>) -> (text: Option<String>)
    ensures
        opt_text(text) == opt_key(*key),
{
    match key {
        Some(k) => Some(k.to_string()),
        None => None,
    }
}

/// A challenge of a submitted answer.
#[derive(Debug, Clone)]
pub struct DisputeDto {
    pub challenger: String,
    pub reason: String,
    pub bond_amount: u64,
    pub filed_at: Timestamp,
    pub resolution: Option<DisputeResolution>,
}

impl DisputeDto {
    /// Whether this is what is shown of `d`.
    pub open spec fn shows(self, d: DisputeView) -> bool {
        &&& self.challenger@ == hex_text(d.challenger.bytes())
        &&& self.reason@ == d.reason
        &&& self.bond_amount == d.bond_amount
        &&& self.filed_at == d.filed_at
        &&& self.resolution == d.resolution
    }

    /// What is told of a dispute.
    pub fn from(d: &Dispute) -> (dto: DisputeDto)
        ensures
            dto.shows(d@),
    {
        DisputeDto {
            challenger: d.challenger.to_string(),
            reason: d.reason.clone(),
            bond_amount: d.bond_amount,
            filed_at: d.filed_at,
            resolution: d.resolution,
        }
    }
}

/// How a task is judged, as far as it is shown.
#[derive(Debug, Clone)]
pub enum TaskKindDto {
    HashMatch,
    Consensus {
        num_assignees: u32,
        assignees_joined: u32,
        join_deadline: Timestamp,
        submission_deadline: Option<Timestamp>,
    },
    Disputable { answer: Option<String>, dispute_deadline: Option<Timestamp>, dispute: Option<DisputeDto> },
}

impl TaskKindDto {
    /// Whether this is what is shown of `kind`. How many have joined is shown
    /// in thirty-two bits.
    pub open spec fn shows(self, kind: KindView) -> bool {
        match kind {
            KindView::HashMatch { .. } => self is HashMatch,
            KindView::Consensus { num_assignees, join_deadline, submission_deadline, assignees, .. } => self
                == (TaskKindDto::Consensus {
                num_assignees,
                assignees_joined: assignees.len() as u32,
                join_deadline,
                submission_deadline,
            }),
            KindView::Disputable { answer, dispute_deadline, dispute, .. } => match self {
                TaskKindDto::Disputable { answer: shown, dispute_deadline: deadline, dispute: filed } => {
                    &&& opt_text(shown) == answer
                    &&& deadline == dispute_deadline
                    &&& filed is Some <==> dispute is Some
                    &&& filed is Some ==> filed->0.shows(dispute->0)
                },
                _ => false,
            },
        }
    }

    /// What is told of a task's kind: not the answer it is checked against, nor
    /// anyone's vote.
    pub fn from(kind: &TaskKind) -> (dto: TaskKindDto)
        ensures
            dto.shows(kind@),
    {
        match kind {
            TaskKind::HashMatch { .. } => TaskKindDto::HashMatch,
            TaskKind::Consensus { num_assignees, join_deadline, submission_deadline, assignees, .. } => {
                let joined: usize = assignees.len();
                TaskKindDto::Consensus {
                    num_assignees: *num_assignees,
                    assignees_joined: joined as u32,
                    join_deadline: *join_deadline,
                    submission_deadline: *submission_deadline,
                }
            },
            TaskKind::Disputable { answer, dispute_deadline, dispute, .. } => TaskKindDto::Disputable {
                answer: answer.clone(),
                dispute_deadline: *dispute_deadline,
                dispute: match dispute {
                    Some(d) => Some(DisputeDto::from(d)),
                    None => None,
                },
            },
        }
    }
}

/// A task, as far as it is shown.
#[derive(Debug, Clone)]
pub struct TaskDto {
    pub id: Id,
    pub description: String,
    pub bounty: u64,
    pub status: TaskStatus,
    pub poster: String,
    pub claimant: Option<String>,
    pub failed_attempts: u32,
    pub min_reputation: u64,
    pub close_reason: Option<CloseReason>,
    pub capabilities: Tags,
    pub created_at: Timestamp,
    pub settled_at: Option<Timestamp>,
    /// How much of the bounty has been seen on chain.
    pub bounty_confirmed: u64,
    /// How much of it is owed and has not.
    pub bounty_pending: u64,
    pub kind: TaskKindDto,
}

impl TaskDto {
    /// Whether this is what is shown of `t`.
    pub open spec fn shows(self, t: TaskView) -> bool {
        &&& self.id == t.id
        &&& self.description@ == t.description
        &&& self.bounty == t.bounty
        &&& self.status == t.status
        &&& self.poster@ == hex_text(t.poster.bytes())
        &&& opt_text(self.claimant) == opt_key(t.claimant)
        &&& self.failed_attempts == t.failed_attempts
        &&& self.min_reputation == t.min_reputation
        &&& self.close_reason == t.close_reason
        &&& self.capabilities@ == t.capabilities
        &&& self.created_at == t.created_at
        &&& self.settled_at == t.settled_at
        &&& self.bounty_confirmed == sum_of(t.paid_out())
        &&& self.bounty_pending == sum_of(t.owed())
        &&& self.kind.shows(t.kind)
    }

    /// What is told of a task.
    pub fn from(task: &Task) -> (dto: TaskDto)
        requires
            task.wf(),
        ensures
            dto.shows(task@),
    {
        TaskDto {
            id: task.id,
            description: task.description.clone(),
            bounty: task.bounty,
            status: task.status,
            poster: task.poster.to_string(),
            claimant: key_text(&task.claimant),
            failed_attempts: task.failed_attempts,
            min_reputation: task.min_reputation,
            close_reason: task.close_reason,
            capabilities: task.capabilities.duplicate(),
            created_at: task.created_at,
            settled_at: task.settled_at,
            bounty_confirmed: task.confirmed_payout_total(),
            bounty_pending: task.unconfirmed_payout_total(),
            kind: TaskKindDto::from(&task.kind),
        }
    }
}

/// What is known of an agent.
#[derive(Debug, Clone)]
pub struct ReputationDto {
    pub completed: u64,
    pub failed: u64,
    pub total_earned: u64,
    /// The balance on chain, where it is known.
    pub net_worth: Option<u64>,
    /// The name the agent goes by, if it has one.
    pub name: Option<String>,
}

impl ReputationDto {
    /// Whether this is what the board knows of an agent, and nothing else.
    pub open spec fn shows(self, r: Reputation) -> bool {
        &&& self.completed == r.completed
        &&& self.failed == r.failed
        &&& self.total_earned == r.total_earned
        &&& self.net_worth is None
        &&& self.name is None
    }

    /// What is told of an agent's record, before its balance and name are known.
    pub fn from(r: Reputation) -> (dto: ReputationDto)
        ensures
            dto.shows(r),
    {
        ReputationDto {
            completed: r.completed,
            failed: r.failed,
            total_earned: r.total_earned,
            net_worth: None,
            name: None,
        }
    }
}

/// An agent and its standing among all.
#[derive(Debug, Clone)]
pub struct LeaderboardEntryDto {
    pub pubkey: String,
    /// Counted from one.
    pub rank: usize,
    pub reputation: ReputationDto,
}

/// What came of a submission.
#[derive(Debug, Clone, Copy, PartialEq, Eq, Structural)]
pub struct SubmitResultDto {
    pub verified: bool,
    /// Whether the payout was handed to the node.
    pub paid: bool,
    pub bounty: Option<u64>,
    /// Whether a task that more than one answer decides is decided.
    pub resolved: Option<bool>,
}

/// Where to pay, how much, and until when.
#[derive(Debug, Clone)]
pub struct EscrowReservationDto {
    pub escrow_id: Id,
    pub deposit_address: String,
    pub required_amount: u64,
    pub expires_at: Timestamp,
}

impl EscrowReservationDto {
    /// Whether this is what is shown of `d`.
    pub open spec fn shows(self, d: DepositView) -> bool {
        &&& self.escrow_id == d.id
        &&& self.deposit_address@ == hex_text(d.deposit_pubkey.bytes())
        &&& self.required_amount == d.required_amount
        &&& self.expires_at == d.expires_at
    }

    /// What is told of a reservation.
    pub fn from(deposit: &PendingDeposit) -> (dto: EscrowReservationDto)
        ensures
            dto.shows(deposit@),
    {
        EscrowReservationDto {
            escrow_id: deposit.id,
            deposit_address: deposit.deposit_pubkey.to_string(),
            required_amount: deposit.required_amount,
            expires_at: deposit.expires_at,
        }
    }
}

/// An exchange account.
#[derive(Debug, Clone, Copy, PartialEq, Eq, Structural)]
pub struct ExchangeAccountDto {
    /// The payment that a withdrawal has just started.
    pub payment: Option<Id>,
    pub base_balance: u64,
    pub locked_base: u64,
    pub compute_balance: u64,
    pub locked_compute: u64,
}

impl ExchangeAccountDto {
    /// What is told of an account.
    pub fn from(a: ExchangeAccount) -> (dto: ExchangeAccountDto)
        ensures
            dto == (ExchangeAccountDto {
                payment: None,
                base_balance: a.base_balance,
                locked_base: a.locked_base,
                compute_balance: a.compute_balance,
                locked_compute: a.locked_compute,
            }),
    {
        ExchangeAccountDto {
            payment: None,
            base_balance: a.base_balance,
            locked_base: a.locked_base,
            compute_balance: a.compute_balance,
            locked_compute: a.locked_compute,
        }
    }
}

/// An order.
#[derive(Debug, Clone)]
pub struct OrderDto {
    pub id: Id,
    pub owner: String,
    pub side: Side,
    pub price: u64,
    pub quantity: u64,
    pub filled: u64,
    pub status: OrderStatus,
    pub created_at: Timestamp,
}

impl OrderDto {
    /// Whether this is what is shown of `o`.
    pub open spec fn shows(self, o: Order) -> bool {
        &&& self.id == o.id
        &&& self.owner@ == hex_text(o.owner.bytes())
        &&& self.side == o.side
        &&& self.price == o.price
        &&& self.quantity == o.quantity
        &&& self.filled == o.filled
        &&& self.status == o.status
        &&& self.created_at == o.created_at
    }

    /// What is told of an order.
    pub fn from(o: &Order) -> (dto: OrderDto)
        ensures
            dto.shows(*o),
    {
        OrderDto {
            id: o.id,
            owner: o.owner.to_string(),
            side: o.side,
            price: o.price,
            quantity: o.quantity,
            filled: o.filled,
            status: o.status,
            created_at: o.created_at,
        }
    }
}

/// The orders that rest, the best first on either side.
#[derive(Debug, Clone)]
pub struct OrderBookDto {
    pub bids: Vec<OrderDto>,
    pub asks: Vec<OrderDto>,
}

/// A trade, with both its parties.
#[derive(Debug, Clone)]
pub struct TradeDto {
    pub id: Id,
    pub buy_order_id: Id,
    pub sell_order_id: Id,
    pub buyer: String,
    pub seller: String,
    pub price: u64,
    pub quantity: u64,
    pub executed_at: Timestamp,
    /// Who placed the order that caused the trade. It says what the fee was
    /// paid in.
    pub taker_side: Side,
    pub taker_fee: u64,
}

impl TradeDto {
    /// Whether this is what is shown of `t`.
    pub open spec fn shows(self, t: Trade) -> bool {
        &&& self.id == t.id
        &&& self.buy_order_id == t.buy_order_id
        &&& self.sell_order_id == t.sell_order_id
        &&& self.buyer@ == hex_text(t.buyer.bytes())
        &&& self.seller@ == hex_text(t.seller.bytes())
        &&& self.price == t.price
        &&& self.quantity == t.quantity
        &&& self.executed_at == t.executed_at
        &&& self.taker_side == t.taker_side
        &&& self.taker_fee == t.taker_fee
    }

    /// What is told of a trade.
    pub fn from(t: &Trade) -> (dto: TradeDto)
        ensures
            dto.shows(*t),
    {
        TradeDto {
            id: t.id,
            buy_order_id: t.buy_order_id,
            sell_order_id: t.sell_order_id,
            buyer: t.buyer.to_string(),
            seller: t.seller.to_string(),
            price: t.price,
            quantity: t.quantity,
            executed_at: t.executed_at,
            taker_side: t.taker_side,
            taker_fee: t.taker_fee,
        }
    }
}

/// Whether the hub reaches the chain.
#[derive(Debug, Clone, Copy)]
pub struct HealthDto {
    pub status: &'static str,
    pub chain_height: u32,
}

/// An issued challenge, with all that it takes to solve it.
#[derive(Debug, Clone)]
pub struct FaucetChallengeDto {
    pub challenge_id: Id,
    pub server_nonce: String,
    pub pubkey: String,
    pub action: String,
    pub target: String,
    /// In seconds since the start of 1970.
    pub issued_at: i64,
    pub expires_at: i64,
    /// How many tries the target takes on average.
    pub expected_hashes: u64,
    pub preimage_template: String,
}

impl FaucetChallengeDto {
    /// Whether this is what is shown of `c`, which takes so many tries.
    pub open spec fn shows(self, c: ChallengeView, expected_hashes: u64) -> bool {
        &&& self.challenge_id == c.id
        &&& self.server_nonce@ == c.server_nonce
        &&& self.pubkey@ == c.pubkey
        &&& self.action@ == c.action
        &&& self.target@ == hex_text(c.target.bytes())
        &&& self.issued_at == c.issued_at
        &&& self.expires_at == c.expires_at
        &&& self.expected_hashes == expected_hashes
        &&& self.preimage_template@ == c.stem() + "{solution}"@
    }

    /// What is told of a challenge.
    pub fn from(challenge: &Challenge, expected_hashes: u64) -> (dto: FaucetChallengeDto)
        ensures
            dto.shows(challenge@, expected_hashes),
    {
        FaucetChallengeDto {
            challenge_id: challenge.id,
            server_nonce: challenge.server_nonce.clone(),
            pubkey: challenge.pubkey.clone(),
            action: challenge.action.clone(),
            target: challenge.target_hex(),
            issued_at: challenge.issued_at,
            expires_at: challenge.expires_at,
            expected_hashes,
            preimage_template: challenge.preimage_template(),
        }
    }
}

}
