//! Settling what tasks owe: what is on its way, what has arrived, and what
//! was lost.
use crate::board::promises::lemma_paid_off_wf;
use crate::board::types::{
    AssignmentView, AttemptView, BoardError, ConsensusAssignment, DisputeResolution, KindView, PayoutAttempt,
    PayoutOutcome, Reputation, TaskKind, TaskStatus, TaskView,
};
use crate::board::{BoardView, TaskBoard};
use crate::clock::now as clock_now;
use crate::seqs::{lemma_pick_step, pick};
use crate::sort::{key1, lemma_ordered, order_of, ordered, stable_order, SortKey};
use crate::table::{as_map, kept_rows, lemma_kept_rows, rows_of, Duplicate, Table};
use crate::types::{Digest, Id, PayoutKey, PublicKey, Timestamp};
use vstd::prelude::*;

verus! {

/// An unspent output at some address, with its hash.
#[derive(Debug, Clone, Copy, PartialEq, Eq, Structural)]
pub struct TransactionOutput {
    pub value: u64,
    pub unique_id: Id,
    pub pubkey: PublicKey,
    pub hash: Digest,
}

/// An address's unspent outputs, each with whether a transaction that waits
/// for a block already spends it.
pub type Utxos = Vec<(bool, TransactionOutput)>;

/// Whether an address holds the output `hash`.
pub open spec fn holds(utxos: Seq<(bool, TransactionOutput)>, hash: Digest) -> bool {
    exists|i: int| 0 <= i < utxos.len() && (#[trigger] utxos[i]).1.hash == hash
}

/// Whether an address holds the output `hash` and nothing spends it.
pub open spec fn free_at(utxos: Seq<(bool, TransactionOutput)>, hash: Digest) -> bool {
    exists|i: int| 0 <= i < utxos.len() && !(#[trigger] utxos[i]).0 && utxos[i].1.hash == hash
}

/// What the recipient's and the source's outputs say of a payment: held by
/// the recipient it is confirmed; with every input free at the source it
/// never landed; anything else says nothing, and neither does a payment
/// without inputs.
pub open spec fn outcome_of(
    output_hash: Digest,
    spent_inputs: Seq<Digest>,
    recipient_utxos: Seq<(bool, TransactionOutput)>,
    source_utxos: Seq<(bool, TransactionOutput)>,
) -> PayoutOutcome {
    if holds(recipient_utxos, output_hash) {
        PayoutOutcome::Confirmed
    } else if spent_inputs.len() > 0 && forall|i: int|
        0 <= i < spent_inputs.len() ==> free_at(source_utxos, #[trigger] spent_inputs[i]) {
        PayoutOutcome::NeverLanded
    } else {
        PayoutOutcome::Ambiguous
    }
}

/// Whether an address holds the output `hash` and nothing spends it.
fn unspent_at_source(utxos: &Utxos, hash: &Digest) -> (r: bool)
    ensures
        r == free_at(utxos@, *hash),
{
    let mut i: usize = 0;
    while i < utxos.len()
        invariant
            i <= utxos.len(),
            forall|j: int| 0 <= j < i ==> (#[trigger] utxos@[j]).0 || utxos@[j].1.hash != *hash,
        decreases utxos.len() - i,
    {
        if !utxos[i].0 && utxos[i].1.hash == *hash {
            return true;
        }
        i += 1;
    }
    false
}

/// The rule for what became of a payment, over its output and its inputs.
pub fn resolve_against(
    output_hash: &Digest,
    spent_inputs: &Vec<Digest>,
    recipient_utxos: &Utxos,
    source_utxos: &Utxos,
) -> (outcome: PayoutOutcome)
    ensures
        outcome == outcome_of(*output_hash, spent_inputs@, recipient_utxos@, source_utxos@),
{
    let mut i: usize = 0;
    while i < recipient_utxos.len()
        invariant
            i <= recipient_utxos.len(),
            forall|j: int| 0 <= j < i ==> (#[trigger] recipient_utxos@[j]).1.hash != *output_hash,
        decreases recipient_utxos.len() - i,
    {
        if recipient_utxos[i].1.hash == *output_hash {
            return PayoutOutcome::Confirmed;
        }
        i += 1;
    }
    if spent_inputs.len() == 0 {
        return PayoutOutcome::Ambiguous;
    }
    let mut k: usize = 0;
    while k < spent_inputs.len()
        invariant
            k <= spent_inputs.len(),
            !holds(recipient_utxos@, *output_hash),
            forall|j: int| 0 <= j < k ==> free_at(source_utxos@, #[trigger] spent_inputs@[j]),
        decreases spent_inputs.len() - k,
    {
        if !unspent_at_source(source_utxos, &spent_inputs[k]) {
            assert(!free_at(source_utxos@, spent_inputs@[k as int]));
            return PayoutOutcome::Ambiguous;
        }
        k += 1;
    }
    PayoutOutcome::NeverLanded
}

impl PayoutAttempt {
    /// What became of this payout, by what the node reports for the two
    /// addresses.
    pub fn resolve(&self, recipient_utxos: &Utxos, source_utxos: &Utxos) -> (outcome: PayoutOutcome)
        ensures
            outcome == outcome_of(self@.output_hash, self@.spent_inputs, recipient_utxos@, source_utxos@),
    {
        resolve_against(&self.output_hash, &self.spent_inputs, recipient_utxos, source_utxos)
    }
}

/// A withdrawal from the exchange whose payment was handed to the node.
#[derive(Debug, Clone)]
pub struct WithdrawalAttempt {
    pub id: Id,
    pub owner: PublicKey,
    pub amount: u64,
    /// The hash of the very output that pays the owner.
    pub output_hash: Digest,
    /// The hashes of the outputs of custody that the transaction spends.
    pub spent_inputs: Vec<Digest>,
    pub source: PublicKey,
    pub submitted_at: Timestamp,
}

impl WithdrawalAttempt {
    /// What became of this withdrawal: the same rule as for a payout.
    pub fn resolve(&self, recipient_utxos: &Utxos, source_utxos: &Utxos) -> (outcome: PayoutOutcome)
        ensures
            outcome == outcome_of(self.output_hash, self.spent_inputs@, recipient_utxos@, source_utxos@),
    {
        resolve_against(&self.output_hash, &self.spent_inputs, recipient_utxos, source_utxos)
    }
}

/// Why a payment to `recipient` cannot be recorded for a task.
pub open spec fn pay_refusal(b: BoardView, id: Id, recipient: PublicKey) -> Option<BoardError> {
    if !b.tasks.contains_key(id) {
        Some(BoardError::NotFound)
    } else {
        let t = b.tasks[id];
        if !t.awaits_payout() {
            Some(BoardError::NotVerified)
        } else {
            match t.kind {
                KindView::Consensus { assignees, .. } => if as_map(assignees).contains_key(recipient) && as_map(
                    assignees,
                )[recipient].share is Some {
                    None
                } else {
                    Some(BoardError::NotClaimant)
                },
                _ => if t.bounty_recipient() == Some(recipient) {
                    None
                } else {
                    Some(BoardError::NotClaimant)
                },
            }
        }
    }
}

/// A consensus task with `recipient`'s share marked as paid; another kind of
/// task as it is.
pub open spec fn share_paid(t: TaskView, recipient: PublicKey) -> TaskView {
    match t.kind {
        KindView::Consensus {
            num_assignees,
            join_deadline,
            submission_window_minutes,
            submission_deadline,
            assignees,
        } => TaskView {
            kind: KindView::Consensus {
                num_assignees,
                join_deadline,
                submission_window_minutes,
                submission_deadline,
                assignees: rows_of(
                    as_map(assignees).insert(
                        recipient,
                        AssignmentView { paid: true, ..as_map(assignees)[recipient] },
                    ),
                ),
            },
            ..t
        },
        _ => t,
    }
}

/// Whether nobody with a share is left unpaid.
pub open spec fn all_shares_paid(assignees: Seq<(PublicKey, AssignmentView)>) -> bool {
    forall|i: int|
        0 <= i < assignees.len() ==> (#[trigger] assignees[i]).1.share is None || assignees[i].1.paid
}

/// Whether a payment to `recipient` is the last the task makes.
pub open spec fn completes(t: TaskView, recipient: PublicKey) -> bool {
    match share_paid(t, recipient).kind {
        KindView::Consensus { assignees, .. } => all_shares_paid(assignees),
        _ => true,
    }
}

/// A task with a payment to `recipient` recorded at `now`. The last payment
/// makes it `Paid`, and an instant of settlement that is there already stays.
pub open spec fn paid_off(t: TaskView, recipient: PublicKey, now: Timestamp) -> TaskView {
    if completes(t, recipient) {
        TaskView {
            status: TaskStatus::Paid,
            settled_at: match t.settled_at {
                Some(at) => Some(at),
                None => Some(now),
            },
            ..share_paid(t, recipient)
        }
    } else {
        share_paid(t, recipient)
    }
}

/// Whether an assignee's share has been recorded as paid before.
pub open spec fn paid_before(t: TaskView, recipient: PublicKey) -> bool {
    t.kind is Consensus && as_map(t.kind->assignees)[recipient].paid
}

impl BoardView {
    /// The reputations with one more completed task for `agent`, which earned
    /// `amount`.
    pub open spec fn credited(self, agent: PublicKey, amount: u64) -> Map<PublicKey, Reputation> {
        let r = self.reputation_of(agent);
        self.reputation.insert(
            agent,
            Reputation {
                completed: (r.completed + 1) as u64,
                total_earned: (r.total_earned + amount) as u64,
                ..r
            },
        )
    }

    /// The payouts that a task still owes and that no transaction is on its
    /// way for.
    pub open spec fn unsubmitted(self, task_id: Id) -> Seq<(PublicKey, u64)> {
        if self.tasks.contains_key(task_id) {
            pick(
                self.tasks[task_id].pending(),
                |p: (PublicKey, u64)|
                    if self.payout_attempts.contains_key(PayoutKey { task_id, recipient: p.0 }) {
                        None
                    } else {
                        Some(p)
                    },
            )
        } else {
            Seq::empty()
        }
    }

    /// The board with `attempt` filed under its task and recipient.
    pub open spec fn with_attempt(self, attempt: AttemptView) -> BoardView {
        BoardView {
            payout_attempts: self.payout_attempts.insert(
                PayoutKey { task_id: attempt.task_id, recipient: attempt.recipient },
                attempt,
            ),
            ..self
        }
    }
}

/// Whether recording a payment to `recipient` credits their record: it is not
/// refused, and was not recorded before.
pub open spec fn credits(b: BoardView, id: Id, recipient: PublicKey) -> bool {
    pay_refusal(b, id, recipient) is None && !paid_before(b.tasks[id], recipient)
}

/// Whether a record can hold one more completed task that earned `amount`.
pub open spec fn has_room(r: Reputation, amount: u64) -> bool {
    r.completed < u64::MAX && r.total_earned + amount <= u64::MAX
}

/// What comes of recording a payment to `recipient` at `now`, and the board
/// then: a share that was recorded before is not recorded again.
pub open spec fn marked(b: BoardView, id: Id, recipient: PublicKey, amount: u64, now: Timestamp) -> (
    Result<bool, BoardError>,
    BoardView,
) {
    match pay_refusal(b, id, recipient) {
        Some(e) => (Err(e), b),
        None => {
            let t = b.tasks[id];
            if paid_before(t, recipient) {
                (Ok(false), b)
            } else {
                (
                    Ok(completes(t, recipient)),
                    BoardView {
                        reputation: b.credited(recipient, amount),
                        ..b.with_task(paid_off(t, recipient, now))
                    },
                )
            }
        },
    }
}

/// The board once an attempt is recorded: a task with nothing left to send
/// is `Submitted`.
pub open spec fn attempt_recorded(b: BoardView, attempt: AttemptView) -> BoardView {
    let with = b.with_attempt(attempt);
    if with.unsubmitted(attempt.task_id).len() == 0 && b.tasks.contains_key(attempt.task_id)
        && b.tasks[attempt.task_id].status == TaskStatus::Verified {
        with.with_task(TaskView { status: TaskStatus::Submitted, ..b.tasks[attempt.task_id] })
    } else {
        with
    }
}

/// The board once an attempt is off the record.
pub open spec fn attempt_cleared(b: BoardView, k: PayoutKey) -> BoardView {
    BoardView { payout_attempts: b.payout_attempts.remove(k), ..b }
}

/// Every attempt on record, the one that went out first in front.
pub open spec fn attempts_by_age(b: BoardView) -> Seq<AttemptView> {
    ordered(
        rows_of(b.payout_attempts).map_values(|row: (PayoutKey, AttemptView)| row.1),
        |a: AttemptView| a.submitted_at.nanos as int,
    )
}

/// Why a task's payout cannot be given up.
pub open spec fn giving_up_refusal(b: BoardView, task_id: Id) -> Option<BoardError> {
    if !b.tasks.contains_key(task_id) {
        Some(BoardError::NotFound)
    } else if !b.tasks[task_id].awaits_payout() {
        Some(BoardError::NotVerified)
    } else {
        None
    }
}

/// The attempts on record for a task.
pub open spec fn attempts_of(b: BoardView, task_id: Id) -> Seq<AttemptView> {
    pick(
        rows_of(b.payout_attempts),
        |row: (PayoutKey, AttemptView)|
            if row.0.task_id == task_id {
                Some(row.1)
            } else {
                None
            },
    )
}

/// The board with a task's payout given up, and no attempt at it on record.
pub open spec fn given_up(b: BoardView, task_id: Id) -> BoardView {
    BoardView {
        payout_attempts: b.payout_attempts.restrict(Set::new(|k: PayoutKey| k.task_id != task_id)),
        ..b.with_task(TaskView { status: TaskStatus::PayoutFailed, ..b.tasks[task_id] })
    }
}

/// Whether nobody with a share is left unpaid.
fn everybody_paid(assignees: &Table<PublicKey, ConsensusAssignment>) -> (r: bool)
    ensures
        r == all_shares_paid(assignees.rows()),
{
    let mut i: usize = 0;
    while i < assignees.len()
        invariant
            i <= assignees.rows().len(),
            forall|j: int|
                0 <= j < i ==> (#[trigger] assignees.rows()[j]).1.share is None || assignees.rows()[j].1.paid,
        decreases assignees.rows().len() - i,
    {
        let a = assignees.value_at(i);
        if a.share.is_some() && !a.paid {
            assert(assignees.rows()[i as int].1.share is Some);
            return false;
        }
        i += 1;
    }
    true
}

impl TaskBoard {
    /// Records that `recipient`'s part of a task's bounty has been seen on
    /// chain at `now`, and credits their record. Says whether the task is now
    /// paid in full.
    pub fn mark_recipient_paid_at(&mut self, id: Id, recipient: &PublicKey, amount: u64, now: Timestamp) -> (r: Result<
        bool,
        BoardError,
    >)
        requires
            old(self).wf(),
            credits(old(self)@, id, *recipient) ==> has_room(old(self)@.reputation_of(*recipient), amount),
        ensures
            final(self).wf(),
            (r, final(self)@) == marked(old(self)@, id, *recipient, amount, now),
    {
        proof {
            let t = self@.tasks[id];
            if pay_refusal(self@, id, *recipient) is None {
                lemma_paid_off_wf(t, *recipient, now);
            }
        }
        let task = match self.tasks.get_mut(&id) {
            Some(task) => task,
            None => return Err(BoardError::NotFound),
        };
        if task.status != TaskStatus::Verified && task.status != TaskStatus::Submitted {
            return Err(BoardError::NotVerified);
        }
        let now_fully_paid = match &mut task.kind {
            TaskKind::HashMatch { .. } => {
                if task.claimant != Some(*recipient) {
                    return Err(BoardError::NotClaimant);
                }
                true
            },
            TaskKind::Consensus { assignees, .. } => {
                match assignees.get(recipient) {
                    Some(assignment) => {
                        if assignment.share.is_none() {
                            return Err(BoardError::NotClaimant);
                        }
                        if assignment.paid {
                            return Ok(false);
                        }
                    },
                    None => return Err(BoardError::NotClaimant),
                }
                if let Some(assignment) = assignees.get_mut(recipient) {
                    assignment.paid = true;
                }
                proof {
                    assignees.lemma_rows();
                }
                everybody_paid(assignees)
            },
            TaskKind::Disputable { dispute, .. } => {
                let expected = match dispute {
                    None => task.claimant,
                    Some(d) => match d.resolution {
                        Some(DisputeResolution::ChallengerWins) => Some(d.challenger),
                        Some(DisputeResolution::AssigneeWins) | None => task.claimant,
                    },
                };
                if expected != Some(*recipient) {
                    return Err(BoardError::NotClaimant);
                }
                true
            },
        };
        if now_fully_paid {
            task.status = TaskStatus::Paid;
            if task.settled_at.is_none() {
                task.settled_at = Some(now);
            }
        }
        assert(self@ == old(self)@.with_task(paid_off(old(self)@.tasks[id], *recipient, now)));
        let rep = self.reputation(recipient);
        self.reputation.insert(
            *recipient,
            Reputation { completed: rep.completed + 1, total_earned: rep.total_earned + amount, ..rep },
        );
        Ok(now_fully_paid)
    }

    /// Records that `recipient`'s part of a task's bounty has been seen on
    /// chain.
    pub fn mark_recipient_paid(&mut self, id: Id, recipient: &PublicKey, amount: u64) -> (r: Result<bool, BoardError>)
        requires
            old(self).wf(),
            credits(old(self)@, id, *recipient) ==> has_room(old(self)@.reputation_of(*recipient), amount),
        ensures
            final(self).wf(),
            exists|now: Timestamp|
                now.valid() && (r, final(self)@) == #[trigger] marked(old(self)@, id, *recipient, amount, now),
    {
        let now = clock_now();
        let r = self.mark_recipient_paid_at(id, recipient, amount, now);
        assert(now.valid());
        r
    }

    /// The payouts that `task_id` still owes and that no transaction is on
    /// its way for.
    pub fn unsubmitted_payouts(&self, task_id: Id) -> (payouts: Vec<(PublicKey, u64)>)
        requires
            self.wf(),
        ensures
            payouts@ == self@.unsubmitted(task_id),
    {
        let mut payouts: Vec<(PublicKey, u64)> = Vec::new();
        if let Some(task) = self.tasks.get(&task_id) {
            let pending = task.pending_payouts();
            let ghost f = |p: (PublicKey, u64)|
                if self@.payout_attempts.contains_key(PayoutKey { task_id, recipient: p.0 }) {
                    None
                } else {
                    Some(p)
                };
            let mut i: usize = 0;
            while i < pending.len()
                invariant
                    i <= pending.len(),
                    self.wf(),
                    f == (|p: (PublicKey, u64)|
                        if self@.payout_attempts.contains_key(PayoutKey { task_id, recipient: p.0 }) {
                            None
                        } else {
                            Some(p)
                        }),
                    payouts@ == pick(pending@.take(i as int), f),
                decreases pending.len() - i,
            {
                proof {
                    lemma_pick_step(pending@, f, i as int);
                }
                if !self.payout_attempts.contains_key(&PayoutKey { task_id, recipient: pending[i].0 }) {
                    payouts.push(pending[i]);
                }
                i += 1;
            }
            assert(pending@.take(i as int) =~= pending@);
        }
        payouts
    }

    /// Records that `attempt`'s transaction was handed to the node. A task
    /// with nothing left to send is `Submitted`.
    pub fn record_payout_attempt(&mut self, attempt: PayoutAttempt)
        requires
            old(self).wf(),
        ensures
            final(self).wf(),
            final(self)@ == attempt_recorded(old(self)@, attempt@),
    {
        let task_id = attempt.task_id;
        self.restore_payout_attempt(attempt);
        if self.unsubmitted_payouts(task_id).len() > 0 {
            return;
        }
        if let Some(task) = self.tasks.get_mut(&task_id) {
            if task.status == TaskStatus::Verified {
                task.status = TaskStatus::Submitted;
            }
        }
    }

    /// Files an attempt; no task changes.
    pub fn restore_payout_attempt(&mut self, attempt: PayoutAttempt)
        requires
            old(self).wf(),
        ensures
            final(self).wf(),
            final(self)@ == old(self)@.with_attempt(attempt@),
    {
        self.payout_attempts.insert(
            PayoutKey { task_id: attempt.task_id, recipient: attempt.recipient },
            attempt,
        );
    }

    /// The attempt to pay `recipient` for `task_id`.
    pub fn payout_attempt(&self, task_id: Id, recipient: &PublicKey) -> (r: Option<&PayoutAttempt>)
        requires
            self.wf(),
        ensures
            ({
                let k = PayoutKey { task_id, recipient: *recipient };
                match r {
                    Some(a) => self@.payout_attempts.contains_key(k) && self@.payout_attempts[k] == a@,
                    None => !self@.payout_attempts.contains_key(k),
                }
            }),
    {
        self.payout_attempts.get(&PayoutKey { task_id, recipient: *recipient })
    }

    /// Drops the attempt to pay `recipient` for `task_id`, and hands it back.
    pub fn clear_payout_attempt(&mut self, task_id: Id, recipient: &PublicKey) -> (r: Option<PayoutAttempt>)
        requires
            old(self).wf(),
        ensures
            final(self).wf(),
            ({
                let k = PayoutKey { task_id, recipient: *recipient };
                &&& final(self)@ == attempt_cleared(old(self)@, k)
                &&& match r {
                    Some(a) => old(self)@.payout_attempts.contains_key(k) && old(self)@.payout_attempts[k] == a@,
                    None => !old(self)@.payout_attempts.contains_key(k),
                }
            }),
    {
        self.payout_attempts.remove(&PayoutKey { task_id, recipient: *recipient })
    }

    /// Every attempt whose fate is open, the one sent first in front.
    pub fn outstanding_payout_attempts(&self) -> (attempts: Vec<PayoutAttempt>)
        requires
            self.wf(),
        ensures
            attempts@.map_values(|a: PayoutAttempt| a@) == attempts_by_age(self@),
    {
        let ghost items = self.payout_attempts.rows().map_values(|row: (PayoutKey, AttemptView)| row.1);
        let ghost key = |a: AttemptView| a.submitted_at.nanos as int;
        proof {
            self.payout_attempts.lemma_rows();
        }
        let mut keys: Vec<SortKey> = Vec::new();
        let mut i: usize = 0;
        while i < self.payout_attempts.len()
            invariant
                i <= items.len(),
                items == self.payout_attempts.rows().map_values(|row: (PayoutKey, AttemptView)| row.1),
                keys.len() == i,
                forall|j: int|
                    0 <= j < i ==> (#[trigger] keys@[j]) == (SortKey {
                        a: (items[j].submitted_at.nanos + 0x8000_0000_0000_0000_0000_0000_0000_0000int) as u128,
                        b: 0,
                        c: 0,
                        d: 0,
                    }),
            decreases items.len() - i,
        {
            keys.push(key1(self.payout_attempts.value_at(i).submitted_at.sort_word()));
            i += 1;
        }
        let order = stable_order(&keys);
        proof {
            lemma_ordered(items, key, keys@);
        }
        let ghost o = order_of(items.map_values(key));
        let mut attempts: Vec<PayoutAttempt> = Vec::new();
        let mut k: usize = 0;
        while k < order.len()
            invariant
                k <= order.len(),
                items == self.payout_attempts.rows().map_values(|row: (PayoutKey, AttemptView)| row.1),
                order.len() == items.len(),
                forall|p: int| 0 <= p < order.len() ==> (#[trigger] order@[p]) < items.len(),
                attempts.len() == k,
                forall|j: int| 0 <= j < k ==> (#[trigger] attempts@[j])@ == items[order@[j] as int],
            decreases order.len() - k,
        {
            attempts.push(self.payout_attempts.value_at(order[k]).duplicate());
            k += 1;
        }
        proof {
            assert forall|j: int| 0 <= j < order.len() implies o[j] == #[trigger] order@[j] by {
                assert(order@.map_values(|i: usize| i as int)[j] == order@[j]);
            }
            assert(o.len() == order@.map_values(|i: usize| i as int).len());
            assert(attempts@.map_values(|a: PayoutAttempt| a@) =~= ordered(items, key));
        }
        attempts
    }

    /// Gives up on a task's payout: every attempt for it is dropped and
    /// handed back. The money is still owed, and a deposit behind the task
    /// stays as it is.
    pub fn mark_payout_failed(&mut self, task_id: Id) -> (r: Result<Vec<PayoutAttempt>, BoardError>)
        requires
            old(self).wf(),
        ensures
            final(self).wf(),
            match giving_up_refusal(old(self)@, task_id) {
                Some(e) => r == Result::<Vec<PayoutAttempt>, BoardError>::Err(e) && final(self)@ == old(self)@,
                None => {
                    &&& r is Ok
                    &&& r->Ok_0@.map_values(|a: PayoutAttempt| a@) == attempts_of(old(self)@, task_id)
                    &&& final(self)@ == given_up(old(self)@, task_id)
                },
            },
    {
        let task = match self.tasks.get_mut(&task_id) {
            Some(task) => task,
            None => return Err(BoardError::NotFound),
        };
        if task.status != TaskStatus::Verified && task.status != TaskStatus::Submitted {
            return Err(BoardError::NotVerified);
        }
        task.status = TaskStatus::PayoutFailed;
        let ghost rows = self.payout_attempts.rows();
        let ghost keep = |k: PayoutKey| k.task_id != task_id;
        let ghost kept = |row: (PayoutKey, AttemptView)| if keep(row.0) { Some(row) } else { None };
        let ghost gone = |row: (PayoutKey, AttemptView)|
            if row.0.task_id == task_id {
                Some(row.1)
            } else {
                None
            };
        let ghost middle = *self;
        proof {
            self.payout_attempts.lemma_rows();
        }
        let mut dropped: Vec<PayoutAttempt> = Vec::new();
        let mut i: usize = 0;
        let ghost mut seen: int = 0;
        assert(dropped@.map_values(|a: PayoutAttempt| a@) =~= pick(rows.take(0), gone));
        assert(self.payout_attempts.rows() =~= pick(rows.take(0), kept) + rows.skip(0));
        while i < self.payout_attempts.len()
            invariant
                0 <= seen <= rows.len(),
                i == pick(rows.take(seen), kept).len(),
                keep == (|k: PayoutKey| k.task_id != task_id),
                kept == (|row: (PayoutKey, AttemptView)| if keep(row.0) { Some(row) } else { None }),
                gone == (|row: (PayoutKey, AttemptView)|
                    if row.0.task_id == task_id {
                        Some(row.1)
                    } else {
                        None
                    }),
                self.payout_attempts.wf(),
                self.payout_attempts.rows() == pick(rows.take(seen), kept) + rows.skip(seen),
                dropped@.map_values(|a: PayoutAttempt| a@) == pick(rows.take(seen), gone),
                *self == (TaskBoard { payout_attempts: self.payout_attempts, ..middle }),
            decreases self.payout_attempts.rows().len() - i,
        {
            proof {
                lemma_pick_step(rows, kept, seen);
                lemma_pick_step(rows, gone, seen);
                assert(self.payout_attempts.rows()[i as int] == rows[seen]);
            }
            let ghost before = self.payout_attempts.rows();
            let ghost had = dropped@;
            if self.payout_attempts.key_at(i).task_id == task_id {
                let a = self.payout_attempts.remove_at(i);
                let ghost view = a@;
                dropped.push(a);
                proof {
                    assert(dropped@.map_values(|a: PayoutAttempt| a@) =~= had.map_values(
                        |a: PayoutAttempt| a@,
                    ).push(view));
                    assert(before.remove(i as int) =~= pick(rows.take(seen), kept) + rows.skip(seen + 1));
                }
            } else {
                i += 1;
                assert(before =~= pick(rows.take(seen + 1), kept) + rows.skip(seen + 1));
            }
            proof {
                seen = seen + 1;
            }
        }
        proof {
            assert(rows.skip(seen).len() == 0);
            assert(rows.take(seen) =~= rows);
            assert(self.payout_attempts.rows() =~= kept_rows(rows, keep));
            lemma_kept_rows(rows, keep);
        }
        Ok(dropped)
    }
}

}
