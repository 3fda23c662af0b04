//! Tasks from their posting to the moment somebody is owed their bounty.
use crate::board::promises::lemma_nobody_is_promised;
use crate::board::types::{BoardError, CloseReason, KindView, Reputation, Task, TaskKind, TaskStatus, TaskView};
use crate::board::{BoardView, TaskBoard};
use crate::clock::{fresh_id, now as clock_now};
use crate::table::{Duplicate, Table};
use crate::tags::Tags;
use crate::types::{Digest, Id, PublicKey, Timestamp};
use vstd::prelude::*;

verus! {

/// A task as it is when it is posted.
pub open spec fn posted(
    id: Id,
    now: Timestamp,
    poster: PublicKey,
    description: Seq<char>,
    bounty: u64,
    kind: KindView,
) -> TaskView {
    TaskView {
        id,
        description,
        bounty,
        kind,
        poster,
        status: TaskStatus::Open,
        claimant: None,
        claim_deadline: None,
        failed_attempts: 0,
        created_at: now,
        min_reputation: 0,
        close_reason: None,
        escrow_id: None,
        capabilities: Seq::empty(),
        settled_at: None,
    }
}

/// A consensus task nobody has joined.
pub open spec fn unjoined(num_assignees: u32, join_deadline: Timestamp, submission_window_minutes: i64) -> KindView {
    KindView::Consensus {
        num_assignees,
        join_deadline,
        submission_window_minutes,
        submission_deadline: None,
        assignees: Seq::empty(),
    }
}

/// A disputable task nobody has answered.
pub open spec fn unanswered(dispute_window_minutes: i64) -> KindView {
    KindView::Disputable { answer: None, dispute_window_minutes, dispute_deadline: None, dispute: None }
}

impl BoardView {
    /// The board with `task` filed under its id.
    pub open spec fn with_task(self, task: TaskView) -> BoardView {
        BoardView { tasks: self.tasks.insert(task.id, task), ..self }
    }

    /// The reputations with one more failure for `agent`.
    pub open spec fn dinged(self, agent: PublicKey) -> Map<PublicKey, Reputation> {
        let r = self.reputation_of(agent);
        self.reputation.insert(agent, Reputation { failed: (r.failed + 1) as u64, ..r })
    }
}

/// A task for agents with so many completed tasks.
pub open spec fn asking_record(t: TaskView, min_reputation: u64) -> TaskView {
    TaskView { min_reputation, ..t }
}

/// A task with those tags.
pub open spec fn tagged_with(t: TaskView, capabilities: Seq<Seq<char>>) -> TaskView {
    TaskView { capabilities, ..t }
}

impl TaskBoard {
    /// Files a task that was just made.
    fn post(&mut self, id: Id, now: Timestamp, poster: PublicKey, description: String, bounty: u64, kind: TaskKind) -> (
        task: Task)
        requires
            old(self).wf(),
            now.valid(),
            kind@.wf(),
            kind@.promised() == 0,
            kind@.promises_nothing(),
        ensures
            final(self).wf(),
            task@ == posted(id, now, poster, description@, bounty, kind@),
            final(self)@ == old(self)@.with_task(task@),
    {
        let task = Task {
            id,
            description,
            bounty,
            kind,
            poster,
            status: TaskStatus::Open,
            claimant: None,
            claim_deadline: None,
            failed_attempts: 0,
            created_at: now,
            min_reputation: 0,
            close_reason: None,
            escrow_id: None,
            capabilities: Tags::new(),
            settled_at: None,
        };
        self.tasks.insert(id, task.duplicate());
        task
    }

    /// Posts a task whose answer is checked against a hash, with the
    /// identifier and the instant given.
    pub fn create_task_at(
        &mut self,
        id: Id,
        now: Timestamp,
        poster: PublicKey,
        description: String,
        bounty: u64,
        expected_output_hash: Digest,
    ) -> (task: Task)
        requires
            old(self).wf(),
            now.valid(),
        ensures
            final(self).wf(),
            task@ == posted(id, now, poster, description@, bounty, KindView::HashMatch { expected_output_hash }),
            final(self)@ == old(self)@.with_task(task@),
    {
        self.post(id, now, poster, description, bounty, TaskKind::HashMatch { expected_output_hash })
    }

    /// Posts a task whose answer is checked against a hash.
    pub fn create_task(&mut self, poster: PublicKey, description: String, bounty: u64, expected_output_hash: Digest) -> (
        task: Task)
        requires
            old(self).wf(),
        ensures
            final(self).wf(),
            task@ == posted(
                task@.id,
                task@.created_at,
                poster,
                description@,
                bounty,
                KindView::HashMatch { expected_output_hash },
            ),
            final(self)@ == old(self)@.with_task(task@),
    {
        self.create_task_at(fresh_id(), clock_now(), poster, description, bounty, expected_output_hash)
    }

    /// Posts a task judged by the majority of its assignees, with the
    /// identifier and the instant given.
    pub fn create_consensus_task_at(
        &mut self,
        id: Id,
        now: Timestamp,
        poster: PublicKey,
        description: String,
        bounty: u64,
        num_assignees: u32,
        join_deadline: Timestamp,
        submission_window_minutes: i64,
    ) -> (task: Task)
        requires
            old(self).wf(),
            now.valid(),
        ensures
            final(self).wf(),
            task@ == posted(
                id,
                now,
                poster,
                description@,
                bounty,
                unjoined(num_assignees, join_deadline, submission_window_minutes),
            ),
            final(self)@ == old(self)@.with_task(task@),
    {
        proof {
            lemma_nobody_is_promised();
        }
        self.post(
            id,
            now,
            poster,
            description,
            bounty,
            TaskKind::Consensus {
                num_assignees,
                join_deadline,
                submission_window_minutes,
                submission_deadline: None,
                assignees: Table::new(),
            },
        )
    }

    /// Posts a task judged by the majority of its assignees.
    pub fn create_consensus_task(
        &mut self,
        poster: PublicKey,
        description: String,
        bounty: u64,
        num_assignees: u32,
        join_deadline: Timestamp,
        submission_window_minutes: i64,
    ) -> (task: Task)
        requires
            old(self).wf(),
        ensures
            final(self).wf(),
            task@ == posted(
                task@.id,
                task@.created_at,
                poster,
                description@,
                bounty,
                unjoined(num_assignees, join_deadline, submission_window_minutes),
            ),
            final(self)@ == old(self)@.with_task(task@),
    {
        self.create_consensus_task_at(
            fresh_id(),
            clock_now(),
            poster,
            description,
            bounty,
            num_assignees,
            join_deadline,
            submission_window_minutes,
        )
    }

    /// Posts a task whose answer stands unless it is challenged, with the
    /// identifier and the instant given.
    pub fn create_disputable_task_at(
        &mut self,
        id: Id,
        now: Timestamp,
        poster: PublicKey,
        description: String,
        bounty: u64,
        dispute_window_minutes: i64,
    ) -> (task: Task)
        requires
            old(self).wf(),
            now.valid(),
        ensures
            final(self).wf(),
            task@ == posted(id, now, poster, description@, bounty, unanswered(dispute_window_minutes)),
            final(self)@ == old(self)@.with_task(task@),
    {
        self.post(
            id,
            now,
            poster,
            description,
            bounty,
            TaskKind::Disputable { answer: None, dispute_window_minutes, dispute_deadline: None, dispute: None },
        )
    }

    /// Posts a task whose answer stands unless it is challenged.
    pub fn create_disputable_task(
        &mut self,
        poster: PublicKey,
        description: String,
        bounty: u64,
        dispute_window_minutes: i64,
    ) -> (task: Task)
        requires
            old(self).wf(),
        ensures
            final(self).wf(),
            task@ == posted(
                task@.id,
                task@.created_at,
                poster,
                description@,
                bounty,
                unanswered(dispute_window_minutes),
            ),
            final(self)@ == old(self)@.with_task(task@),
    {
        self.create_disputable_task_at(fresh_id(), clock_now(), poster, description, bounty, dispute_window_minutes)
    }

    /// Sets how many completed tasks it takes to claim or join `id`.
    pub fn set_min_reputation(&mut self, id: Id, min_reputation: u64) -> (r: Result<(), BoardError>)
        requires
            old(self).wf(),
        ensures
            final(self).wf(),
            if old(self)@.tasks.contains_key(id) {
                r is Ok && final(self)@ == old(self)@.with_task(asking_record(old(self)@.tasks[id], min_reputation))
            } else {
                r == Result::<(), BoardError>::Err(BoardError::NotFound) && final(self)@ == old(self)@
            },
    {
        match self.tasks.get_mut(&id) {
            Some(task) => {
                task.min_reputation = min_reputation;
                Ok(())
            },
            None => Err(BoardError::NotFound),
        }
    }

    /// Sets the tags of `id`, as given.
    pub fn set_capabilities(&mut self, id: Id, capabilities: Tags) -> (r: Result<(), BoardError>)
        requires
            old(self).wf(),
            capabilities.wf(),
        ensures
            final(self).wf(),
            if old(self)@.tasks.contains_key(id) {
                r is Ok && final(self)@ == old(self)@.with_task(tagged_with(old(self)@.tasks[id], capabilities@))
            } else {
                r == Result::<(), BoardError>::Err(BoardError::NotFound) && final(self)@ == old(self)@
            },
    {
        match self.tasks.get_mut(&id) {
            Some(task) => {
                task.capabilities = capabilities;
                Ok(())
            },
            None => Err(BoardError::NotFound),
        }
    }
}

/// Why a task cannot be cancelled: it is over, money is owed for it, or a
/// dispute about it runs.
pub open spec fn cancel_refusal(b: BoardView, id: Id) -> Option<BoardError> {
    if !b.tasks.contains_key(id) {
        Some(BoardError::NotFound)
    } else {
        match b.tasks[id].status {
            TaskStatus::Verified | TaskStatus::Submitted | TaskStatus::PayoutFailed | TaskStatus::Paid
            | TaskStatus::Closed => Some(BoardError::AlreadyTerminal),
            TaskStatus::Disputed => Some(BoardError::CannotCancelWhileDisputed),
            _ => None,
        }
    }
}

/// A task closed for a reason.
pub open spec fn closed(t: TaskView, reason: CloseReason) -> TaskView {
    TaskView { status: TaskStatus::Closed, close_reason: Some(reason), ..t }
}

impl TaskBoard {
    /// Cancels `id`: nobody is paid and nobody's reputation changes.
    pub fn cancel_task(&mut self, id: Id) -> (r: Result<(), BoardError>)
        requires
            old(self).wf(),
        ensures
            final(self).wf(),
            match cancel_refusal(old(self)@, id) {
                Some(e) => r == Result::<(), BoardError>::Err(e) && final(self)@ == old(self)@,
                None => r is Ok && final(self)@ == old(self)@.with_task(
                    closed(old(self)@.tasks[id], CloseReason::CancelledByOperator),
                ),
            },
    {
        let task = match self.tasks.get_mut(&id) {
            Some(task) => task,
            None => return Err(BoardError::NotFound),
        };
        match task.status {
            TaskStatus::Verified | TaskStatus::Submitted | TaskStatus::PayoutFailed | TaskStatus::Paid
            | TaskStatus::Closed => return Err(BoardError::AlreadyTerminal),
            TaskStatus::Disputed => return Err(BoardError::CannotCancelWhileDisputed),
            _ => {},
        }
        task.status = TaskStatus::Closed;
        task.close_reason = Some(CloseReason::CancelledByOperator);
        Ok(())
    }
}

}
