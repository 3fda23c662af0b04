//! Claiming and answering tasks of a single worker.
use crate::board::types::{BoardError, KindView, Reputation, Task, TaskKind, TaskStatus, TaskView};
use crate::board::{BoardView, TaskBoard};
use crate::seqs::{lemma_pick_step, pick};
use crate::table::{changed_rows, lemma_changed_rows, rows_of};
use crate::types::{Digest, Id, PublicKey, Timestamp, NANOS_PER_MINUTE};
use vstd::prelude::*;

verus! {

/// Why `agent` may not take on a task because of their record.
pub open spec fn reputation_refusal(b: BoardView, t: TaskView, agent: PublicKey) -> Option<BoardError> {
    let have = b.reputation_of(agent).completed;
    if have < t.min_reputation {
        Some(BoardError::InsufficientReputation { required: t.min_reputation, have })
    } else {
        None
    }
}

/// Why `claimant` may not claim a task.
pub open spec fn claim_refusal(b: BoardView, id: Id, claimant: PublicKey) -> Option<BoardError> {
    if !b.tasks.contains_key(id) {
        Some(BoardError::NotFound)
    } else {
        let t = b.tasks[id];
        if t.kind is Consensus {
            Some(BoardError::WrongTaskKind)
        } else if t.status != TaskStatus::Open {
            Some(BoardError::NotOpen)
        } else if t.poster == claimant {
            Some(BoardError::PosterCannotClaimOwnTask)
        } else {
            reputation_refusal(b, t, claimant)
        }
    }
}

/// Why `submitter` may not answer a task of the kind that `kind_fits` says.
pub open spec fn submit_refusal(b: BoardView, id: Id, submitter: PublicKey, kind_fits: bool) -> Option<BoardError> {
    if !b.tasks.contains_key(id) {
        Some(BoardError::NotFound)
    } else if !kind_fits {
        Some(BoardError::WrongTaskKind)
    } else if b.tasks[id].status != TaskStatus::Claimed {
        Some(BoardError::NotClaimed)
    } else if b.tasks[id].claimant != Some(submitter) {
        Some(BoardError::NotClaimant)
    } else {
        None
    }
}

/// A task back on offer after a wrong answer.
pub open spec fn reopened(t: TaskView) -> TaskView {
    TaskView { status: TaskStatus::Open, claimant: None, claim_deadline: None, ..t }
}

/// A task in the hands of `claimant` until `deadline`.
pub open spec fn claimed(t: TaskView, claimant: PublicKey, deadline: Timestamp) -> TaskView {
    TaskView { status: TaskStatus::Claimed, claimant: Some(claimant), claim_deadline: Some(deadline), ..t }
}

/// What comes of an answer whose hash is held against the one expected, and the
/// board then.
pub open spec fn hash_judged(b: BoardView, id: Id, submitter: PublicKey, output_hash: Digest) -> (
    Result<bool, BoardError>,
    BoardView,
) {
    let t = b.tasks[id];
    if output_hash == t.kind->expected_output_hash {
        (Ok(true), b.with_task(TaskView { status: TaskStatus::Verified, ..t }))
    } else {
        (
            Ok(false),
            BoardView {
                reputation: b.dinged(submitter),
                ..b.with_task(TaskView { failed_attempts: (t.failed_attempts + 1) as u32, ..reopened(t) })
            },
        )
    }
}

/// A disputable task with an answer, from `now` on open to challenge.
pub open spec fn awaiting_dispute(t: TaskView, answer: Seq<char>, now: Timestamp) -> TaskView {
    let window = t.kind->dispute_window_minutes;
    TaskView {
        status: TaskStatus::AwaitingDispute,
        kind: KindView::Disputable {
            answer: Some(answer),
            dispute_window_minutes: window,
            dispute_deadline: Some(now.later(window * NANOS_PER_MINUTE)),
            dispute: t.kind->dispute,
        },
        ..t
    }
}

/// Whether a claim has run out.
pub open spec fn claim_lapsed(t: TaskView, now: Timestamp) -> bool {
    t.status == TaskStatus::Claimed && t.claim_deadline is Some && now.nanos > t.claim_deadline->0.nanos
}

/// The board with every task whose claim has run out back on offer.
pub open spec fn claims_expired(b: BoardView, now: Timestamp) -> BoardView {
    BoardView {
        tasks: b.tasks.map_values(
            |t: TaskView|
                if claim_lapsed(t, now) {
                    reopened(t)
                } else {
                    t
                },
        ),
        ..b
    }
}

/// The tasks whose claim has run out.
pub open spec fn expired_claims(b: BoardView, now: Timestamp) -> Seq<Id> {
    pick(
        rows_of(b.tasks),
        |row: (Id, TaskView)|
            if claim_lapsed(row.1, now) {
                Some(row.1.id)
            } else {
                None
            },
    )
}

impl TaskBoard {
    /// Holds an agent's completed tasks against what the task asks for.
    pub(crate) fn check_min_reputation(&self, task: &Task, agent: &PublicKey) -> (r: Result<(), BoardError>)
        requires
            self.wf(),
        ensures
            match reputation_refusal(self@, task@, *agent) {
                Some(e) => r == Result::<(), BoardError>::Err(e),
                None => r is Ok,
            },
    {
        let have = self.reputation(agent).completed;
        if have < task.min_reputation {
            return Err(BoardError::InsufficientReputation { required: task.min_reputation, have });
        }
        Ok(())
    }

    /// Adds a failure to an agent's record.
    pub(crate) fn ding(&mut self, agent: PublicKey)
        requires
            old(self).wf(),
            old(self)@.reputation_of(agent).failed < u64::MAX,
        ensures
            final(self).wf(),
            final(self)@ == (BoardView { reputation: old(self)@.dinged(agent), ..old(self)@ }),
    {
        let r = self.reputation(&agent);
        self.reputation.insert(agent, Reputation { failed: r.failed + 1, ..r });
    }

    /// Claims a task of a single worker until `deadline`.
    pub fn claim_task(&mut self, id: Id, claimant: PublicKey, deadline: Timestamp) -> (r: Result<(), BoardError>)
        requires
            old(self).wf(),
        ensures
            final(self).wf(),
            match claim_refusal(old(self)@, id, claimant) {
                Some(e) => r == Result::<(), BoardError>::Err(e) && final(self)@ == old(self)@,
                None => r is Ok && final(self)@ == old(self)@.with_task(
                    claimed(old(self)@.tasks[id], claimant, deadline),
                ),
            },
    {
        let task = match self.tasks.get(&id) {
            Some(task) => task,
            None => return Err(BoardError::NotFound),
        };
        match task.kind {
            TaskKind::Consensus { .. } => return Err(BoardError::WrongTaskKind),
            _ => {},
        }
        if task.status != TaskStatus::Open {
            return Err(BoardError::NotOpen);
        }
        if task.poster == claimant {
            return Err(BoardError::PosterCannotClaimOwnTask);
        }
        match self.check_min_reputation(task, &claimant) {
            Err(e) => return Err(e),
            Ok(()) => {},
        }
        if let Some(task) = self.tasks.get_mut(&id) {
            task.status = TaskStatus::Claimed;
            task.claimant = Some(claimant);
            task.claim_deadline = Some(deadline);
        }
        Ok(())
    }

    /// Holds an answer's hash against the one expected: on a match the task
    /// is `Verified`, otherwise it is back on offer and the submitter's
    /// record has a failure more.
    pub fn submit(&mut self, id: Id, submitter: PublicKey, output_hash: Digest) -> (r: Result<bool, BoardError>)
        requires
            old(self).wf(),
            old(self)@.reputation_of(submitter).failed < u64::MAX,
            old(self)@.tasks.contains_key(id) ==> old(self)@.tasks[id].failed_attempts < u32::MAX,
        ensures
            final(self).wf(),
            match submit_refusal(old(self)@, id, submitter, old(self)@.tasks[id].kind is HashMatch) {
                Some(e) => r == Result::<bool, BoardError>::Err(e) && final(self)@ == old(self)@,
                None => (r, final(self)@) == hash_judged(old(self)@, id, submitter, output_hash),
            },
    {
        let task = match self.tasks.get_mut(&id) {
            Some(task) => task,
            None => return Err(BoardError::NotFound),
        };
        let expected = match &task.kind {
            TaskKind::HashMatch { expected_output_hash } => *expected_output_hash,
            _ => return Err(BoardError::WrongTaskKind),
        };
        if task.status != TaskStatus::Claimed {
            return Err(BoardError::NotClaimed);
        }
        if task.claimant != Some(submitter) {
            return Err(BoardError::NotClaimant);
        }
        if output_hash == expected {
            task.status = TaskStatus::Verified;
            Ok(true)
        } else {
            task.status = TaskStatus::Open;
            task.claimant = None;
            task.claim_deadline = None;
            task.failed_attempts = task.failed_attempts + 1;
            self.ding(submitter);
            Ok(false)
        }
    }

    /// Takes an answer to a disputable task and opens its challenge window.
    pub fn submit_disputable_answer(&mut self, id: Id, submitter: PublicKey, answer: String, now: Timestamp) -> (r:
        Result<(), BoardError>)
        requires
            old(self).wf(),
        ensures
            final(self).wf(),
            match submit_refusal(old(self)@, id, submitter, old(self)@.tasks[id].kind is Disputable) {
                Some(e) => r == Result::<(), BoardError>::Err(e) && final(self)@ == old(self)@,
                None => {
                    r is Ok && final(self)@ == old(self)@.with_task(
                        awaiting_dispute(old(self)@.tasks[id], answer@, now),
                    )
                },
            },
    {
        let task = match self.tasks.get_mut(&id) {
            Some(task) => task,
            None => return Err(BoardError::NotFound),
        };
        match &mut task.kind {
            TaskKind::Disputable { answer: stored_answer, dispute_window_minutes, dispute_deadline, .. } => {
                if task.status != TaskStatus::Claimed {
                    return Err(BoardError::NotClaimed);
                }
                if task.claimant != Some(submitter) {
                    return Err(BoardError::NotClaimant);
                }
                *stored_answer = Some(answer);
                *dispute_deadline = Some(now.plus_minutes(*dispute_window_minutes));
                task.status = TaskStatus::AwaitingDispute;
                Ok(())
            },
            _ => Err(BoardError::WrongTaskKind),
        }
    }

    /// Puts every task whose claim has run out back on offer, and lists them.
    pub fn expire_claims(&mut self, now: Timestamp) -> (ids: Vec<Id>)
        requires
            old(self).wf(),
        ensures
            final(self).wf(),
            final(self)@ == claims_expired(old(self)@, now),
            ids@ == expired_claims(old(self)@, now),
    {
        let ghost f = |t: TaskView| if claim_lapsed(t, now) { reopened(t) } else { t };
        let ghost g = |row: (Id, TaskView)| if claim_lapsed(row.1, now) { Some(row.1.id) } else { None };
        let ghost rows = self.tasks.rows();
        proof {
            self.tasks.lemma_rows();
        }
        let mut ids: Vec<Id> = Vec::new();
        let mut i: usize = 0;
        let n = self.tasks.len();
        while i < n
            invariant
                i <= n,
                n == rows.len(),
                f == (|t: TaskView| if claim_lapsed(t, now) { reopened(t) } else { t }),
                g == (|row: (Id, TaskView)| if claim_lapsed(row.1, now) { Some(row.1.id) } else { None }),
                self.tasks.wf(),
                self.tasks.rows() == changed_rows(rows.take(i as int), f) + rows.skip(i as int),
                ids@ == pick(rows.take(i as int), g),
                *self == (TaskBoard { tasks: self.tasks, ..*old(self) }),
            decreases n - i,
        {
            proof {
                lemma_pick_step(rows, g, i as int);
                assert(self.tasks.rows()[i as int] == rows[i as int]);
            }
            let ghost before = self.tasks.rows();
            let task = self.tasks.value_at_mut(i);
            if task.status == TaskStatus::Claimed {
                if let Some(deadline) = task.claim_deadline {
                    if now.nanos > deadline.nanos {
                        task.status = TaskStatus::Open;
                        task.claimant = None;
                        task.claim_deadline = None;
                        ids.push(task.id);
                    }
                }
            }
            assert(self.tasks.rows() =~= before.update(i as int, (rows[i as int].0, f(rows[i as int].1))));
            i += 1;
            assert(self.tasks.rows() =~= changed_rows(rows.take(i as int), f) + rows.skip(i as int));
        }
        proof {
            assert(rows.take(i as int) =~= rows);
            assert(self.tasks.rows() =~= changed_rows(rows, f));
            lemma_changed_rows(rows, f);
        }
        ids
    }
}

}
