//! Deposits, and what they are for.
use crate::board::types::{EscrowStatus, Task};
use crate::table::Duplicate;
use crate::tags::{ascending_names, Tags};
use crate::types::{Digest, Id, PrivateKey, PublicKey, Timestamp};
use vstd::prelude::*;

verus! {

/// A hash-checked task that is to exist once it is paid for.
#[derive(Debug, Clone)]
pub struct TaskIntent {
    pub description: String,
    pub bounty: u64,
    pub expected_output_hash: Digest,
    pub min_reputation: u64,
    pub capabilities: Tags,
}

/// A consensus task that is to exist once it is paid for.
#[derive(Debug, Clone)]
pub struct ConsensusTaskIntent {
    pub description: String,
    pub bounty: u64,
    pub num_assignees: u32,
    pub join_window_minutes: i64,
    pub submission_window_minutes: i64,
    pub min_reputation: u64,
    pub capabilities: Tags,
}

/// A disputable task that is to exist once it is paid for.
#[derive(Debug, Clone)]
pub struct DisputableTaskIntent {
    pub description: String,
    pub bounty: u64,
    pub dispute_window_minutes: i64,
    pub min_reputation: u64,
    pub capabilities: Tags,
}

/// What a deposit is meant for.
#[derive(Debug, Clone)]
pub enum EscrowPurpose {
    FundHashMatchTask(TaskIntent),
    FundConsensusTask(ConsensusTaskIntent),
    FundDisputableTask(DisputableTaskIntent),
    /// A challenger's bond against the answer to a task.
    DisputeBond { task_id: Id, reason: String },
    /// Money for the depositor's own exchange account.
    FundExchangeAccount,
}

/// What a purpose shows.
pub enum PurposeView {
    FundHashMatchTask {
        description: Seq<char>,
        bounty: u64,
        expected_output_hash: Digest,
        min_reputation: u64,
        capabilities: Seq<Seq<char>>,
    },
    FundConsensusTask {
        description: Seq<char>,
        bounty: u64,
        num_assignees: u32,
        join_window_minutes: i64,
        submission_window_minutes: i64,
        min_reputation: u64,
        capabilities: Seq<Seq<char>>,
    },
    FundDisputableTask {
        description: Seq<char>,
        bounty: u64,
        dispute_window_minutes: i64,
        min_reputation: u64,
        capabilities: Seq<Seq<char>>,
    },
    DisputeBond { task_id: Id, reason: Seq<char> },
    FundExchangeAccount,
}

impl PurposeView {
    /// The tags that a purpose asks for are listed once each, in order.
    pub open spec fn wf(self) -> bool {
        match self {
            PurposeView::FundHashMatchTask { capabilities, .. } => ascending_names(capabilities),
            PurposeView::FundConsensusTask { capabilities, .. } => ascending_names(capabilities),
            PurposeView::FundDisputableTask { capabilities, .. } => ascending_names(capabilities),
            _ => true,
        }
    }
}

impl View for EscrowPurpose {
    type V = PurposeView;

    open spec fn view(&self) -> PurposeView {
        match self {
            EscrowPurpose::FundHashMatchTask(i) => PurposeView::FundHashMatchTask {
                description: i.description@,
                bounty: i.bounty,
                expected_output_hash: i.expected_output_hash,
                min_reputation: i.min_reputation,
                capabilities: i.capabilities@,
            },
            EscrowPurpose::FundConsensusTask(i) => PurposeView::FundConsensusTask {
                description: i.description@,
                bounty: i.bounty,
                num_assignees: i.num_assignees,
                join_window_minutes: i.join_window_minutes,
                submission_window_minutes: i.submission_window_minutes,
                min_reputation: i.min_reputation,
                capabilities: i.capabilities@,
            },
            EscrowPurpose::FundDisputableTask(i) => PurposeView::FundDisputableTask {
                description: i.description@,
                bounty: i.bounty,
                dispute_window_minutes: i.dispute_window_minutes,
                min_reputation: i.min_reputation,
                capabilities: i.capabilities@,
            },
            EscrowPurpose::DisputeBond { task_id, reason } => PurposeView::DisputeBond {
                task_id: *task_id,
                reason: reason@,
            },
            EscrowPurpose::FundExchangeAccount => PurposeView::FundExchangeAccount,
        }
    }
}

impl Duplicate for EscrowPurpose {
    fn duplicate(&self) -> (copy: Self) {
        match self {
            EscrowPurpose::FundHashMatchTask(i) => EscrowPurpose::FundHashMatchTask(
                TaskIntent {
                    description: i.description.clone(),
                    bounty: i.bounty,
                    expected_output_hash: i.expected_output_hash,
                    min_reputation: i.min_reputation,
                    capabilities: i.capabilities.duplicate(),
                },
            ),
            EscrowPurpose::FundConsensusTask(i) => EscrowPurpose::FundConsensusTask(
                ConsensusTaskIntent {
                    description: i.description.clone(),
                    bounty: i.bounty,
                    num_assignees: i.num_assignees,
                    join_window_minutes: i.join_window_minutes,
                    submission_window_minutes: i.submission_window_minutes,
                    min_reputation: i.min_reputation,
                    capabilities: i.capabilities.duplicate(),
                },
            ),
            EscrowPurpose::FundDisputableTask(i) => EscrowPurpose::FundDisputableTask(
                DisputableTaskIntent {
                    description: i.description.clone(),
                    bounty: i.bounty,
                    dispute_window_minutes: i.dispute_window_minutes,
                    min_reputation: i.min_reputation,
                    capabilities: i.capabilities.duplicate(),
                },
            ),
            EscrowPurpose::DisputeBond { task_id, reason } => EscrowPurpose::DisputeBond {
                task_id: *task_id,
                reason: reason.clone(),
            },
            EscrowPurpose::FundExchangeAccount => EscrowPurpose::FundExchangeAccount,
        }
    }
}

/// An address of its own for one purpose: whatever arrives there was sent
/// for it.
#[derive(Clone)]
pub struct PendingDeposit {
    pub id: Id,
    pub depositor: PublicKey,
    pub deposit_pubkey: PublicKey,
    /// Only deposits that were made with a random key carry it; any other
    /// key is derived again when it is needed.
    pub deposit_private_key: Option<PrivateKey>,
    pub required_amount: u64,
    pub purpose: EscrowPurpose,
    pub status: EscrowStatus,
    pub created_at: Timestamp,
    pub expires_at: Timestamp,
}

/// What a deposit shows.
#[verifier::ext_equal]
pub struct DepositView {
    pub id: Id,
    pub depositor: PublicKey,
    pub deposit_pubkey: PublicKey,
    pub deposit_private_key: Option<PrivateKey>,
    pub required_amount: u64,
    pub purpose: PurposeView,
    pub status: EscrowStatus,
    pub created_at: Timestamp,
    pub expires_at: Timestamp,
}

impl View for PendingDeposit {
    type V = DepositView;

    open spec fn view(&self) -> DepositView {
        DepositView {
            id: self.id,
            depositor: self.depositor,
            deposit_pubkey: self.deposit_pubkey,
            deposit_private_key: self.deposit_private_key,
            required_amount: self.required_amount,
            purpose: self.purpose@,
            status: self.status,
            created_at: self.created_at,
            expires_at: self.expires_at,
        }
    }
}

impl Duplicate for PendingDeposit {
    fn duplicate(&self) -> (copy: Self) {
        PendingDeposit {
            id: self.id,
            depositor: self.depositor,
            deposit_pubkey: self.deposit_pubkey,
            deposit_private_key: self.deposit_private_key,
            required_amount: self.required_amount,
            purpose: self.purpose.duplicate(),
            status: self.status,
            created_at: self.created_at,
            expires_at: self.expires_at,
        }
    }
}

/// What a confirmed deposit made.
#[derive(Debug, Clone)]
pub enum EscrowConfirmation {
    TaskCreated(Task),
}

}
