//! Challenges of submitted answers.
use crate::board::types::{
    BoardError, DisputeResolution, DisputeView, EscrowStatus, KindView, Reputation, TaskKind, TaskStatus, TaskView,
};
use crate::board::{BoardView, TaskBoard};
use crate::seqs::{lemma_pick_step, pick};
use crate::table::{changed_rows, lemma_changed_rows, rows_of};
use crate::types::{Id, PublicKey, Timestamp};
use vstd::prelude::*;

verus! {

/// Whether a challenge window closed with nobody challenging.
pub open spec fn unchallenged(t: TaskView, now: Timestamp) -> bool {
    t.status == TaskStatus::AwaitingDispute && t.kind is Disputable && t.kind->dispute is None
        && t.kind->dispute_deadline is Some && now.nanos > t.kind->dispute_deadline->0.nanos
}

/// A task whose bounty is owed.
pub open spec fn verified(t: TaskView) -> TaskView {
    TaskView { status: TaskStatus::Verified, ..t }
}

/// Why there is no dispute to decide.
pub open spec fn resolution_refusal(b: BoardView, task_id: Id) -> Option<BoardError> {
    if !b.tasks.contains_key(task_id) {
        Some(BoardError::NotFound)
    } else if b.tasks[task_id].status != TaskStatus::Disputed {
        Some(BoardError::NotDisputed)
    } else {
        None
    }
}

/// A dispute decided.
pub open spec fn ruled(t: TaskView, outcome: DisputeResolution) -> TaskView {
    match t.kind {
        KindView::Disputable { answer, dispute_window_minutes, dispute_deadline, dispute } => TaskView {
            status: TaskStatus::Verified,
            kind: KindView::Disputable {
                answer,
                dispute_window_minutes,
                dispute_deadline,
                dispute: Some(DisputeView { resolution: Some(outcome), ..dispute->0 }),
            },
            ..t
        },
        _ => t,
    }
}

/// Who wins a dispute and who loses it.
pub open spec fn parties(t: TaskView, outcome: DisputeResolution) -> (PublicKey, PublicKey) {
    let claimant = t.claimant->0;
    let challenger = t.kind->dispute->0.challenger;
    match outcome {
        DisputeResolution::ChallengerWins => (challenger, claimant),
        DisputeResolution::AssigneeWins => (claimant, challenger),
    }
}

/// The board once a dispute is decided: the loser's record has a failure more.
pub open spec fn dispute_ruled(b: BoardView, task_id: Id, outcome: DisputeResolution) -> BoardView {
    let t = b.tasks[task_id];
    BoardView { reputation: b.dinged(parties(t, outcome).1), ..b.with_task(ruled(t, outcome)) }
}

/// The board with `amount` more among what `recipient` has earned.
pub open spec fn bond_credited(b: BoardView, recipient: PublicKey, amount: u64) -> BoardView {
    let r = b.reputation_of(recipient);
    BoardView {
        reputation: b.reputation.insert(
            recipient,
            Reputation { total_earned: (r.total_earned + amount) as u64, ..r },
        ),
        ..b
    }
}

/// The tasks with the bond of a decided dispute still to be paid out.
pub open spec fn due_bonds(b: BoardView) -> Seq<Id> {
    pick(
        rows_of(b.tasks),
        |row: (Id, TaskView)|
            if bond_is_due(b, row.1) {
                Some(row.1.id)
            } else {
                None
            },
    )
}

/// Whether the bond of a decided dispute is still to be paid out.
pub open spec fn bond_is_due(b: BoardView, t: TaskView) -> bool {
    match t.kind {
        KindView::Disputable { dispute: Some(d), .. } => d.resolution is Some && b.pending_deposits.contains_key(
            d.bond_escrow_id,
        ) && b.pending_deposits[d.bond_escrow_id].status == EscrowStatus::Consumed,
        _ => false,
    }
}

/// The board with every task that nobody challenged in time `Verified`.
pub open spec fn windows_closed(b: BoardView, now: Timestamp) -> BoardView {
    BoardView {
        tasks: b.tasks.map_values(
            |t: TaskView|
                if unchallenged(t, now) {
                    verified(t)
                } else {
                    t
                },
        ),
        ..b
    }
}

/// The tasks that nobody challenged in time.
pub open spec fn closed_windows(b: BoardView, now: Timestamp) -> Seq<Id> {
    pick(
        rows_of(b.tasks),
        |row: (Id, TaskView)|
            if unchallenged(row.1, now) {
                Some(row.1.id)
            } else {
                None
            },
    )
}

impl TaskBoard {
    /// Makes every task whose challenge window closed unchallenged
    /// `Verified`, and lists them.
    pub fn finalize_unchallenged_disputable_tasks(&mut self, now: Timestamp) -> (ids: Vec<Id>)
        requires
            old(self).wf(),
        ensures
            final(self).wf(),
            final(self)@ == windows_closed(old(self)@, now),
            ids@ == closed_windows(old(self)@, now),
    {
        let ghost f = |t: TaskView| if unchallenged(t, now) { verified(t) } else { t };
        let ghost g = |row: (Id, TaskView)| if unchallenged(row.1, now) { Some(row.1.id) } else { None };
        let ghost rows = self.tasks.rows();
        proof {
            self.tasks.lemma_rows();
        }
        let mut ids: Vec<Id> = Vec::new();
        let mut i: usize = 0;
        let n = self.tasks.len();
        while i < n
            invariant
                i <= n,
                n == rows.len(),
                f == (|t: TaskView| if unchallenged(t, now) { verified(t) } else { t }),
                g == (|row: (Id, TaskView)| if unchallenged(row.1, now) { Some(row.1.id) } else { None }),
                self.tasks.wf(),
                self.tasks.rows() == changed_rows(rows.take(i as int), f) + rows.skip(i as int),
                ids@ == pick(rows.take(i as int), g),
                *self == (TaskBoard { tasks: self.tasks, ..*old(self) }),
            decreases n - i,
        {
            proof {
                lemma_pick_step(rows, g, i as int);
                assert(self.tasks.rows()[i as int] == rows[i as int]);
            }
            let ghost before = self.tasks.rows();
            let task = self.tasks.value_at_mut(i);
            if task.status == TaskStatus::AwaitingDispute {
                if let TaskKind::Disputable { dispute_deadline, dispute, .. } = &task.kind {
                    if dispute.is_none() {
                        if let Some(deadline) = dispute_deadline {
                            if now.nanos > deadline.nanos {
                                task.status = TaskStatus::Verified;
                                ids.push(task.id);
                            }
                        }
                    }
                }
            }
            assert(self.tasks.rows() =~= before.update(i as int, (rows[i as int].0, f(rows[i as int].1))));
            i += 1;
            assert(self.tasks.rows() =~= changed_rows(rows.take(i as int), f) + rows.skip(i as int));
        }
        proof {
            assert(rows.take(i as int) =~= rows);
            assert(self.tasks.rows() =~= changed_rows(rows, f));
            lemma_changed_rows(rows, f);
        }
        ids
    }

    /// Decides a dispute: the loser's record has a failure more, and the
    /// bounty is owed to the winner. Tells who won and who lost.
    pub fn resolve_dispute(&mut self, task_id: Id, outcome: DisputeResolution) -> (r: Result<
        (PublicKey, PublicKey),
        BoardError,
    >)
        requires
            old(self).wf(),
            resolution_refusal(old(self)@, task_id) is None ==> old(self)@.reputation_of(
                parties(old(self)@.tasks[task_id], outcome).1,
            ).failed < u64::MAX,
        ensures
            final(self).wf(),
            match resolution_refusal(old(self)@, task_id) {
                Some(e) => r == Result::<(PublicKey, PublicKey), BoardError>::Err(e) && final(self)@ == old(self)@,
                None => {
                    &&& r == Result::<(PublicKey, PublicKey), BoardError>::Ok(
                        parties(old(self)@.tasks[task_id], outcome),
                    )
                    &&& final(self)@ == dispute_ruled(old(self)@, task_id, outcome)
                },
            },
    {
        let task = match self.tasks.get_mut(&task_id) {
            Some(task) => task,
            None => return Err(BoardError::NotFound),
        };
        if task.status != TaskStatus::Disputed {
            return Err(BoardError::NotDisputed);
        }
        let claimant = match task.claimant {
            Some(claimant) => claimant,
            None => return Err(BoardError::NotDisputed),
        };
        let challenger = match &mut task.kind {
            TaskKind::Disputable { dispute, .. } => match dispute {
                Some(d) => {
                    d.resolution = Some(outcome);
                    d.challenger
                },
                None => return Err(BoardError::NotDisputed),
            },
            _ => return Err(BoardError::WrongTaskKind),
        };
        task.status = TaskStatus::Verified;
        let (winner, loser) = match outcome {
            DisputeResolution::ChallengerWins => (challenger, claimant),
            DisputeResolution::AssigneeWins => (claimant, challenger),
        };
        self.ding(loser);
        Ok((winner, loser))
    }

    /// Adds a forfeited bond to what `recipient` has earned. It is no
    /// completed task.
    pub fn credit_forfeited_bond(&mut self, recipient: &PublicKey, bond_amount: u64)
        requires
            old(self).wf(),
            old(self)@.reputation_of(*recipient).total_earned + bond_amount <= u64::MAX,
        ensures
            final(self).wf(),
            final(self)@ == bond_credited(old(self)@, *recipient, bond_amount),
    {
        let r = self.reputation(recipient);
        self.reputation.insert(*recipient, Reputation { total_earned: r.total_earned + bond_amount, ..r });
    }

    /// The tasks with a decided dispute whose bond is still to be paid out.
    pub fn tasks_with_unsettled_dispute_bonds(&self) -> (ids: Vec<Id>)
        requires
            self.wf(),
        ensures
            ids@ == due_bonds(self@),
    {
        let ghost g = |row: (Id, TaskView)| if bond_is_due(self@, row.1) { Some(row.1.id) } else { None };
        let ghost rows = self.tasks.rows();
        proof {
            self.tasks.lemma_rows();
        }
        let mut ids: Vec<Id> = Vec::new();
        let mut i: usize = 0;
        while i < self.tasks.len()
            invariant
                i <= rows.len(),
                self.wf(),
                rows == self.tasks.rows(),
                g == (|row: (Id, TaskView)| if bond_is_due(self@, row.1) { Some(row.1.id) } else { None }),
                ids@ == pick(rows.take(i as int), g),
            decreases rows.len() - i,
        {
            proof {
                lemma_pick_step(rows, g, i as int);
            }
            let task = self.tasks.value_at(i);
            if let TaskKind::Disputable { dispute, .. } = &task.kind {
                if let Some(d) = dispute {
                    if d.resolution.is_some() {
                        if let Some(bond) = self.pending_deposits.get(&d.bond_escrow_id) {
                            if bond.status == EscrowStatus::Consumed {
                                ids.push(task.id);
                            }
                        }
                    }
                }
            }
            i += 1;
        }
        assert(rows.take(i as int) =~= rows);
        ids
    }
}

}
