//! Deposits: reserving an address, and what comes of the money that arrives.
use crate::board::deposits::{DepositView, EscrowConfirmation, EscrowPurpose, PendingDeposit, PurposeView};
use crate::board::lifecycle::{posted, unanswered, unjoined};
use crate::board::types::{
    BoardError, Dispute, DisputeView, EscrowStatus, KindView, Task, TaskKind, TaskStatus, TaskView,
};
use crate::board::{BoardView, TaskBoard};
use crate::clock::{fresh_id, now as clock_now};
use crate::escrow_key::{derived, EscrowSecret};
use crate::table::Duplicate;
use crate::types::{Id, PrivateKey, PublicKey, Timestamp, NANOS_PER_MINUTE};
use vstd::prelude::*;

verus! {

/// The key that a deposit is spent with: its own where one was stored, and else the
/// one that is derived for it.
pub open spec fn spending_key(stored: Option<PrivateKey>, secret: Seq<u8>, id: Id) -> Option<PrivateKey> {
    match stored {
        Some(key) => Some(key),
        None => derived(secret, id),
    }
}

impl PendingDeposit {
    /// The key controlling this deposit's address: the stored one, where the
    /// deposit carries it, and the derived one otherwise.
    pub fn private_key(&self, secret: &EscrowSecret) -> (key: Option<PrivateKey>)
        ensures
            key == spending_key(self.deposit_private_key, secret@, self.id),
    {
        match self.deposit_private_key {
            Some(stored) => Some(stored),
            None => secret.derive(self.id),
        }
    }
}

impl BoardView {
    /// The board with `deposit` filed under its id.
    pub open spec fn with_deposit(self, deposit: DepositView) -> BoardView {
        BoardView { pending_deposits: self.pending_deposits.insert(deposit.id, deposit), ..self }
    }
}

/// A deposit as it is when its address is handed out.
pub open spec fn reserved(
    id: Id,
    now: Timestamp,
    depositor: PublicKey,
    deposit_pubkey: PublicKey,
    required_amount: u64,
    purpose: PurposeView,
    expires_at: Timestamp,
) -> DepositView {
    DepositView {
        id,
        depositor,
        deposit_pubkey,
        deposit_private_key: None,
        required_amount,
        purpose,
        status: EscrowStatus::Reserved,
        created_at: now,
        expires_at,
    }
}

/// Why a deposit does not count as paid in: it must exist, serve a fitting
/// purpose, be reserved, be in time and hold enough.
pub open spec fn deposit_refusal(b: BoardView, id: Id, observed: u64, now: Timestamp, purpose_fits: bool) -> Option<
    BoardError,
> {
    if !b.pending_deposits.contains_key(id) {
        Some(BoardError::EscrowNotFound)
    } else {
        let d = b.pending_deposits[id];
        if !purpose_fits {
            Some(BoardError::WrongEscrowPurpose)
        } else if d.status != EscrowStatus::Reserved {
            Some(BoardError::EscrowNotReserved)
        } else if now.nanos > d.expires_at.nanos {
            Some(BoardError::EscrowExpired)
        } else if observed < d.required_amount {
            Some(BoardError::EscrowUnderfunded { required: d.required_amount, have: observed })
        } else {
            None
        }
    }
}

/// Whether a purpose is the funding of a task.
pub open spec fn funds_task(p: PurposeView) -> bool {
    p is FundHashMatchTask || p is FundConsensusTask || p is FundDisputableTask
}

/// The task that a deposit pays for. The time to join it runs from the
/// moment of confirmation.
pub open spec fn funded_task(d: DepositView, task_id: Id, created_at: Timestamp, now: Timestamp) -> TaskView {
    match d.purpose {
        PurposeView::FundHashMatchTask { description, bounty, expected_output_hash, min_reputation, capabilities } => {
            TaskView {
                min_reputation,
                capabilities,
                escrow_id: Some(d.id),
                ..posted(
                    task_id,
                    created_at,
                    d.depositor,
                    description,
                    bounty,
                    KindView::HashMatch { expected_output_hash },
                )
            }
        },
        PurposeView::FundConsensusTask {
            description,
            bounty,
            num_assignees,
            join_window_minutes,
            submission_window_minutes,
            min_reputation,
            capabilities,
        } => {
            TaskView {
                min_reputation,
                capabilities,
                escrow_id: Some(d.id),
                ..posted(
                    task_id,
                    created_at,
                    d.depositor,
                    description,
                    bounty,
                    unjoined(
                        num_assignees,
                        now.later(join_window_minutes * NANOS_PER_MINUTE),
                        submission_window_minutes,
                    ),
                )
            }
        },
        PurposeView::FundDisputableTask { description, bounty, dispute_window_minutes, min_reputation, capabilities } => {
            TaskView {
                min_reputation,
                capabilities,
                escrow_id: Some(d.id),
                ..posted(
                    task_id,
                    created_at,
                    d.depositor,
                    description,
                    bounty,
                    unanswered(dispute_window_minutes),
                )
            }
        },
        _ => arbitrary(),
    }
}

/// A deposit with another status.
pub open spec fn with_status(d: DepositView, status: EscrowStatus) -> DepositView {
    DepositView { status, ..d }
}

/// The board with a deposit taken for what it was made for.
pub open spec fn escrow_spent(b: BoardView, id: Id) -> BoardView {
    b.with_deposit(with_status(b.pending_deposits[id], EscrowStatus::Consumed))
}

/// The board with a deposit given back.
pub open spec fn escrow_refunded(b: BoardView, id: Id) -> BoardView {
    b.with_deposit(with_status(b.pending_deposits[id], EscrowStatus::Refunded))
}

/// Why a bond does not open a dispute.
pub open spec fn bond_refusal(b: BoardView, escrow_id: Id, observed: u64, now: Timestamp) -> Option<BoardError> {
    let d = b.pending_deposits[escrow_id];
    let unpaid = deposit_refusal(b, escrow_id, observed, now, d.purpose is DisputeBond);
    if unpaid is Some {
        unpaid
    } else if !b.tasks.contains_key(d.purpose->task_id) {
        Some(BoardError::NotFound)
    } else {
        let t = b.tasks[d.purpose->task_id];
        match t.kind {
            KindView::Disputable { dispute_deadline, dispute, .. } => if t.status != TaskStatus::AwaitingDispute {
                Some(BoardError::DisputeWindowClosed)
            } else if now.nanos > dispute_deadline->0.nanos {
                Some(BoardError::DisputeWindowClosed)
            } else if dispute is Some {
                Some(BoardError::AlreadyDisputed)
            } else if t.claimant == Some(d.depositor) {
                Some(BoardError::AssigneeCannotDisputeOwnSubmission)
            } else {
                None
            },
            _ => Some(BoardError::WrongTaskKind),
        }
    }
}

/// A task whose answer `bond` challenges.
pub open spec fn challenged(t: TaskView, bond: DepositView, now: Timestamp) -> TaskView {
    match t.kind {
        KindView::Disputable { answer, dispute_window_minutes, dispute_deadline, .. } => TaskView {
            status: TaskStatus::Disputed,
            kind: KindView::Disputable {
                answer,
                dispute_window_minutes,
                dispute_deadline,
                dispute: Some(
                    DisputeView {
                        challenger: bond.depositor,
                        reason: bond.purpose->reason,
                        bond_escrow_id: bond.id,
                        bond_amount: bond.required_amount,
                        filed_at: now,
                        resolution: None,
                    },
                ),
            },
            ..t
        },
        _ => t,
    }
}

impl TaskBoard {
    /// Reserves an address for a deposit, with the identifier, the instant
    /// and the address given.
    pub fn reserve_escrow_at(
        &mut self,
        id: Id,
        now: Timestamp,
        deposit_pubkey: PublicKey,
        depositor: PublicKey,
        required_amount: u64,
        purpose: EscrowPurpose,
        expires_at: Timestamp,
    ) -> (deposit: PendingDeposit)
        requires
            old(self).wf(),
            purpose@.wf(),
        ensures
            final(self).wf(),
            deposit@ == reserved(id, now, depositor, deposit_pubkey, required_amount, purpose@, expires_at),
            final(self)@ == old(self)@.with_deposit(deposit@),
    {
        let deposit = PendingDeposit {
            id,
            depositor,
            deposit_pubkey,
            deposit_private_key: None,
            required_amount,
            purpose,
            status: EscrowStatus::Reserved,
            created_at: now,
            expires_at,
        };
        self.pending_deposits.insert(id, deposit.duplicate());
        deposit
    }

    /// Reserves a fresh address for a deposit: the address of the key that
    /// `escrow_secret` and the deposit's own id give, as `public_key` computes
    /// it. `None`, with the board as it was, if they give no key.
    pub fn reserve_escrow<F: FnOnce(&PrivateKey) -> PublicKey>(
        &mut self,
        escrow_secret: &EscrowSecret,
        depositor: PublicKey,
        required_amount: u64,
        purpose: EscrowPurpose,
        expires_at: Timestamp,
        public_key: F,
    ) -> (r: Option<PendingDeposit>)
        requires
            old(self).wf(),
            purpose@.wf(),
            forall|key: PrivateKey| public_key.requires((&key,)),
        ensures
            final(self).wf(),
            match r {
                Some(deposit) => {
                    &&& derived(escrow_secret@, deposit@.id) is Some
                    &&& public_key.ensures((&derived(escrow_secret@, deposit@.id)->0,), deposit@.deposit_pubkey)
                    &&& deposit@ == reserved(
                        deposit@.id,
                        deposit@.created_at,
                        depositor,
                        deposit@.deposit_pubkey,
                        required_amount,
                        purpose@,
                        expires_at,
                    )
                    &&& final(self)@ == old(self)@.with_deposit(deposit@)
                },
                None => final(self)@ == old(self)@ && exists|id: Id| #[trigger] derived(escrow_secret@, id) is None,
            },
    {
        let id = fresh_id();
        match escrow_secret.derive(id) {
            Some(key) => {
                let address = public_key(&key);
                Some(
                    self.reserve_escrow_at(
                        id,
                        clock_now(),
                        address,
                        depositor,
                        required_amount,
                        purpose,
                        expires_at,
                    ),
                )
            },
            None => None,
        }
    }

    /// The deposit of that id.
    pub fn get_pending_deposit(&self, id: Id) -> (r: Option<&PendingDeposit>)
        requires
            self.wf(),
        ensures
            match r {
                Some(d) => self@.pending_deposits.contains_key(id) && self@.pending_deposits[id] == d@,
                None => !self@.pending_deposits.contains_key(id),
            },
    {
        self.pending_deposits.get(&id)
    }

    /// Makes the task that a deposit pays for, once `observed_amount` has
    /// been seen at its address. The task's identifier and the instant of its
    /// making are given.
    pub fn confirm_escrow_at(
        &mut self,
        id: Id,
        observed_amount: u64,
        now: Timestamp,
        task_id: Id,
        created_at: Timestamp,
    ) -> (r: Result<EscrowConfirmation, BoardError>)
        requires
            old(self).wf(),
            created_at.valid(),
        ensures
            final(self).wf(),
            match deposit_refusal(
                old(self)@,
                id,
                observed_amount,
                now,
                funds_task(old(self)@.pending_deposits[id].purpose),
            ) {
                Some(e) => r == Result::<EscrowConfirmation, BoardError>::Err(e) && final(self)@ == old(self)@,
                None => {
                    let d = old(self)@.pending_deposits[id];
                    let made = funded_task(d, task_id, created_at, now);
                    &&& r is Ok && r->Ok_0->TaskCreated_0@ == made
                    &&& final(self)@ == escrow_spent(old(self)@, id).with_task(made)
                },
            },
    {
        let deposit = match self.pending_deposits.get(&id) {
            Some(deposit) => deposit,
            None => return Err(BoardError::EscrowNotFound),
        };
        match &deposit.purpose {
            EscrowPurpose::DisputeBond { .. } | EscrowPurpose::FundExchangeAccount => {
                return Err(BoardError::WrongEscrowPurpose);
            },
            _ => {},
        }
        if deposit.status != EscrowStatus::Reserved {
            return Err(BoardError::EscrowNotReserved);
        }
        if now.nanos > deposit.expires_at.nanos {
            return Err(BoardError::EscrowExpired);
        }
        if observed_amount < deposit.required_amount {
            return Err(BoardError::EscrowUnderfunded { required: deposit.required_amount, have: observed_amount });
        }
        let depositor = deposit.depositor;
        let purpose = deposit.purpose.duplicate();
        if let Some(deposit) = self.pending_deposits.get_mut(&id) {
            deposit.status = EscrowStatus::Consumed;
        }
        let ghost consumed = self@;
        let mut task = match purpose {
            EscrowPurpose::FundHashMatchTask(intent) => {
                let mut task = self.create_task_at(
                    task_id,
                    created_at,
                    depositor,
                    intent.description,
                    intent.bounty,
                    intent.expected_output_hash,
                );
                task.min_reputation = intent.min_reputation;
                task.capabilities = intent.capabilities;
                task
            },
            EscrowPurpose::FundConsensusTask(intent) => {
                let join_deadline = now.plus_minutes(intent.join_window_minutes);
                let mut task = self.create_consensus_task_at(
                    task_id,
                    created_at,
                    depositor,
                    intent.description,
                    intent.bounty,
                    intent.num_assignees,
                    join_deadline,
                    intent.submission_window_minutes,
                );
                task.min_reputation = intent.min_reputation;
                task.capabilities = intent.capabilities;
                task
            },
            EscrowPurpose::FundDisputableTask(intent) => {
                let mut task = self.create_disputable_task_at(
                    task_id,
                    created_at,
                    depositor,
                    intent.description,
                    intent.bounty,
                    intent.dispute_window_minutes,
                );
                task.min_reputation = intent.min_reputation;
                task.capabilities = intent.capabilities;
                task
            },
            _ => return Err(BoardError::WrongEscrowPurpose),
        };
        task.escrow_id = Some(id);
        assert(task@ == funded_task(old(self)@.pending_deposits[id], task_id, created_at, now));
        self.tasks.insert(task_id, task.duplicate());
        Ok(EscrowConfirmation::TaskCreated(task))
    }

    /// Makes the task that a deposit pays for, once `observed_amount` has
    /// been seen at its address.
    pub fn confirm_escrow(&mut self, id: Id, observed_amount: u64, now: Timestamp) -> (r: Result<
        EscrowConfirmation,
        BoardError,
    >)
        requires
            old(self).wf(),
        ensures
            final(self).wf(),
            match deposit_refusal(
                old(self)@,
                id,
                observed_amount,
                now,
                funds_task(old(self)@.pending_deposits[id].purpose),
            ) {
                Some(e) => r == Result::<EscrowConfirmation, BoardError>::Err(e) && final(self)@ == old(self)@,
                None => {
                    let d = old(self)@.pending_deposits[id];
                    let made = r->Ok_0->TaskCreated_0@;
                    &&& r is Ok && made == funded_task(d, made.id, made.created_at, now)
                    &&& final(self)@ == escrow_spent(old(self)@, id).with_task(made)
                },
            },
    {
        self.confirm_escrow_at(id, observed_amount, now, fresh_id(), clock_now())
    }

    /// Opens the dispute that a bond is for, once `observed_amount` has been
    /// seen at its address. A bond that comes too late is not consumed: the
    /// caller has to refund it.
    pub fn confirm_dispute_bond(&mut self, escrow_id: Id, observed_amount: u64, now: Timestamp) -> (r: Result<
        Task,
        BoardError,
    >)
        requires
            old(self).wf(),
        ensures
            final(self).wf(),
            match bond_refusal(old(self)@, escrow_id, observed_amount, now) {
                Some(e) => r == Result::<Task, BoardError>::Err(e) && final(self)@ == old(self)@,
                None => {
                    let d = old(self)@.pending_deposits[escrow_id];
                    let t = challenged(old(self)@.tasks[d.purpose->task_id], d, now);
                    &&& r is Ok && r->Ok_0@ == t
                    &&& final(self)@ == escrow_spent(old(self)@.with_task(t), escrow_id)
                },
            },
    {
        let deposit = match self.pending_deposits.get(&escrow_id) {
            Some(deposit) => deposit,
            None => return Err(BoardError::EscrowNotFound),
        };
        let (task_id, reason) = match &deposit.purpose {
            EscrowPurpose::DisputeBond { task_id, reason } => (*task_id, reason.clone()),
            _ => return Err(BoardError::WrongEscrowPurpose),
        };
        if deposit.status != EscrowStatus::Reserved {
            return Err(BoardError::EscrowNotReserved);
        }
        if now.nanos > deposit.expires_at.nanos {
            return Err(BoardError::EscrowExpired);
        }
        if observed_amount < deposit.required_amount {
            return Err(BoardError::EscrowUnderfunded { required: deposit.required_amount, have: observed_amount });
        }
        let challenger = deposit.depositor;
        let bond_amount = deposit.required_amount;

        let task = match self.tasks.get_mut(&task_id) {
            Some(task) => task,
            None => return Err(BoardError::NotFound),
        };
        match &mut task.kind {
            TaskKind::Disputable { dispute_deadline, dispute, .. } => {
                if task.status != TaskStatus::AwaitingDispute {
                    return Err(BoardError::DisputeWindowClosed);
                }
                if let Some(deadline) = *dispute_deadline {
                    if now.nanos > deadline.nanos {
                        return Err(BoardError::DisputeWindowClosed);
                    }
                }
                if dispute.is_some() {
                    return Err(BoardError::AlreadyDisputed);
                }
                if task.claimant == Some(challenger) {
                    return Err(BoardError::AssigneeCannotDisputeOwnSubmission);
                }
                *dispute = Some(
                    Dispute { challenger, reason, bond_escrow_id: escrow_id, bond_amount, filed_at: now, resolution: None },
                );
                task.status = TaskStatus::Disputed;
            },
            _ => return Err(BoardError::WrongTaskKind),
        }
        let disputed = task.duplicate();
        if let Some(deposit) = self.pending_deposits.get_mut(&escrow_id) {
            deposit.status = EscrowStatus::Consumed;
        }
        Ok(disputed)
    }
}

}
