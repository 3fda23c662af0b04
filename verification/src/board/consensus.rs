//! Tasks judged by the majority of their assignees.
use crate::board::lifecycle::closed;
use crate::board::promises::{lemma_decided_wf, lemma_joined_wf, lemma_with_answer_wf};
use crate::board::tasks::{answered, count_votes, majority, majority_answer, votes};
use crate::board::types::{
    AssignmentView, BoardError, CloseReason, ConsensusAssignment, KindView, Reputation, TaskKind, TaskStatus, TaskView,
};
use crate::board::work::reputation_refusal;
use crate::board::{BoardView, TaskBoard};
use crate::clock::now as clock_now;
use crate::seqs::{lemma_pick_len, lemma_pick_source, lemma_pick_step, pick};
use crate::table::{as_map, ascending, changed_rows, lemma_changed_rows, lemma_row_is_mapped, rows_of, Key, Table};
use crate::types::{Id, PublicKey, Timestamp, NANOS_PER_MINUTE};
use vstd::prelude::*;

verus! {

/// Why `agent` may not join a consensus task.
pub open spec fn join_refusal(b: BoardView, id: Id, agent: PublicKey, now: Timestamp) -> Option<BoardError> {
    if !b.tasks.contains_key(id) {
        Some(BoardError::NotFound)
    } else {
        let t = b.tasks[id];
        match t.kind {
            KindView::Consensus { join_deadline, assignees, .. } => if t.status != TaskStatus::Open {
                Some(BoardError::NotOpen)
            } else if now.nanos > join_deadline.nanos {
                Some(BoardError::JoinWindowExpired)
            } else if t.poster == agent {
                Some(BoardError::PosterCannotClaimOwnTask)
            } else if reputation_refusal(b, t, agent) is Some {
                reputation_refusal(b, t, agent)
            } else if as_map(assignees).contains_key(agent) {
                Some(BoardError::AlreadyJoined)
            } else {
                None
            },
            _ => Some(BoardError::WrongTaskKind),
        }
    }
}

/// A consensus task that `agent` has just joined. The one who fills it closes
/// it to others, and starts the time to answer.
pub open spec fn joined(t: TaskView, agent: PublicKey, now: Timestamp) -> TaskView {
    match t.kind {
        KindView::Consensus {
            num_assignees,
            join_deadline,
            submission_window_minutes,
            submission_deadline,
            assignees,
        } => {
            let grown = rows_of(as_map(assignees).insert(agent, ConsensusAssignment::fresh()));
            let full = grown.len() >= num_assignees;
            TaskView {
                status: if full {
                    TaskStatus::Claimed
                } else {
                    t.status
                },
                kind: KindView::Consensus {
                    num_assignees,
                    join_deadline,
                    submission_window_minutes,
                    submission_deadline: if full {
                        Some(now.later(submission_window_minutes * NANOS_PER_MINUTE))
                    } else {
                        submission_deadline
                    },
                    assignees: grown,
                },
                ..t
            }
        },
        _ => t,
    }
}

/// The reputations with one more failure for each of `agents`.
pub open spec fn with_failures(rep: Map<PublicKey, Reputation>, agents: Seq<PublicKey>) -> Map<PublicKey, Reputation>
    decreases agents.len(),
{
    if agents.len() == 0 {
        rep
    } else {
        let before = with_failures(rep, agents.drop_last());
        let r = if before.contains_key(agents.last()) {
            before[agents.last()]
        } else {
            Reputation::none()
        };
        before.insert(agents.last(), Reputation { failed: (r.failed + 1) as u64, ..r })
    }
}

/// The assignees who did not give the answer `a`.
pub open spec fn losers(assignees: Seq<(PublicKey, AssignmentView)>, a: Seq<char>) -> Seq<PublicKey> {
    pick(
        assignees,
        |row: (PublicKey, AssignmentView)|
            if row.1.answer == Some(a) {
                None
            } else {
                Some(row.0)
            },
    )
}

/// What each of those who gave the answer `a` gets: equal parts of the
/// bounty.
pub open spec fn share_of(bounty: u64, assignees: Seq<(PublicKey, AssignmentView)>, a: Seq<char>) -> u64 {
    (bounty as int / votes(assignees, a)) as u64
}

/// An assignment once `a` has won.
pub open spec fn awarded(row: AssignmentView, a: Seq<char>, share: u64) -> AssignmentView {
    if row.answer == Some(a) {
        AssignmentView { share: Some(share), ..row }
    } else {
        row
    }
}

/// A consensus task once its votes are counted.
pub open spec fn decided(t: TaskView) -> TaskView {
    match t.kind {
        KindView::Consensus {
            num_assignees,
            join_deadline,
            submission_window_minutes,
            submission_deadline,
            assignees,
        } => match majority(assignees) {
            Some(a) => TaskView {
                status: TaskStatus::Verified,
                kind: KindView::Consensus {
                    num_assignees,
                    join_deadline,
                    submission_window_minutes,
                    submission_deadline,
                    assignees: changed_rows(
                        assignees,
                        |row: AssignmentView| awarded(row, a, share_of(t.bounty, assignees, a)),
                    ),
                },
                ..t
            },
            None => closed(t, CloseReason::NoMajority),
        },
        _ => t,
    }
}

/// The board once a consensus task's votes are counted: everybody who did
/// not give the winning answer has a failure more; nobody has, where no
/// answer won.
pub open spec fn resolved(b: BoardView, id: Id) -> BoardView {
    if b.tasks.contains_key(id) && b.tasks[id].kind is Consensus {
        let t = b.tasks[id];
        let assignees = t.kind->assignees;
        BoardView {
            reputation: match majority(assignees) {
                Some(a) => with_failures(b.reputation, losers(assignees, a)),
                None => b.reputation,
            },
            ..b.with_task(decided(t))
        }
    } else {
        b
    }
}

/// The board once all of `ids` are resolved, in turn.
pub open spec fn all_resolved(b: BoardView, ids: Seq<Id>) -> BoardView
    decreases ids.len(),
{
    if ids.len() == 0 {
        b
    } else {
        resolved(all_resolved(b, ids.drop_last()), ids.last())
    }
}

/// Why `agent` may not answer a consensus task.
pub open spec fn answer_refusal(b: BoardView, id: Id, agent: PublicKey, now: Timestamp) -> Option<BoardError> {
    if !b.tasks.contains_key(id) {
        Some(BoardError::NotFound)
    } else {
        let t = b.tasks[id];
        match t.kind {
            KindView::Consensus { submission_deadline, assignees, .. } => if t.status != TaskStatus::Claimed {
                Some(BoardError::NotClaimed)
            } else if now.nanos > submission_deadline->0.nanos {
                Some(BoardError::SubmissionWindowExpired)
            } else if !as_map(assignees).contains_key(agent) {
                Some(BoardError::NotClaimant)
            } else if as_map(assignees)[agent].answer is Some {
                Some(BoardError::AlreadySubmitted)
            } else {
                None
            },
            _ => Some(BoardError::WrongTaskKind),
        }
    }
}

/// A consensus task with `agent`'s answer.
pub open spec fn with_answer(t: TaskView, agent: PublicKey, answer: Seq<char>) -> TaskView {
    match t.kind {
        KindView::Consensus {
            num_assignees,
            join_deadline,
            submission_window_minutes,
            submission_deadline,
            assignees,
        } => TaskView {
            kind: KindView::Consensus {
                num_assignees,
                join_deadline,
                submission_window_minutes,
                submission_deadline,
                assignees: rows_of(
                    as_map(assignees).insert(
                        agent,
                        AssignmentView { answer: Some(answer), ..as_map(assignees)[agent] },
                    ),
                ),
            },
            ..t
        },
        _ => t,
    }
}

/// Whether every assignee has answered.
pub open spec fn all_answered(assignees: Seq<(PublicKey, AssignmentView)>) -> bool {
    forall|i: int| 0 <= i < assignees.len() ==> (#[trigger] assignees[i]).1.answer is Some
}

/// Whether the time to answer a consensus task is over.
pub open spec fn answers_overdue(t: TaskView, now: Timestamp) -> bool {
    t.status == TaskStatus::Claimed && t.kind is Consensus && t.kind->submission_deadline is Some && now.nanos
        > t.kind->submission_deadline->0.nanos
}

/// Whether the time to join a consensus task is over.
pub open spec fn joining_overdue(t: TaskView, now: Timestamp) -> bool {
    t.status == TaskStatus::Open && t.kind is Consensus && now.nanos > t.kind->join_deadline.nanos
}

/// The board with every consensus task that too few joined in time closed.
pub open spec fn understaffed_closed(b: BoardView, now: Timestamp) -> BoardView {
    BoardView {
        tasks: b.tasks.map_values(
            |t: TaskView|
                if joining_overdue(t, now) {
                    closed(t, CloseReason::Understaffed)
                } else {
                    t
                },
        ),
        ..b
    }
}

/// The consensus tasks that too few joined in time.
pub open spec fn understaffed(b: BoardView, now: Timestamp) -> Seq<Id> {
    pick(
        rows_of(b.tasks),
        |row: (Id, TaskView)|
            if joining_overdue(row.1, now) {
                Some(row.1.id)
            } else {
                None
            },
    )
}

/// Where no agent is listed twice, each one listed has one failure more and
/// nobody else's record changes.
pub proof fn lemma_with_failures(rep: Map<PublicKey, Reputation>, agents: Seq<PublicKey>, agent: PublicKey)
    requires
        agents.no_duplicates(),
        forall|i: int| #![trigger agents[i]]
            0 <= i < agents.len() && rep.contains_key(agents[i]) ==> rep[agents[i]].failed < u64::MAX,
    ensures
        ({
            let r = if rep.contains_key(agent) { rep[agent] } else { Reputation::none() };
            let after = with_failures(rep, agents);
            if agents.contains(agent) {
                after.contains_key(agent) && after[agent] == (Reputation { failed: (r.failed + 1) as u64, ..r })
            } else {
                after.contains_key(agent) == rep.contains_key(agent) && (rep.contains_key(agent) ==> after[agent]
                    == rep[agent])
            }
        }),
    decreases agents.len(),
{
    if agents.len() > 0 {
        let shorter = agents.drop_last();
        assert forall|i: int| #![trigger shorter[i]]
            0 <= i < shorter.len() && rep.contains_key(shorter[i]) implies rep[shorter[i]].failed < u64::MAX by {
            assert(shorter[i] == agents[i]);
        }
        assert(shorter.no_duplicates());
        lemma_with_failures(rep, shorter, agent);
        lemma_with_failures(rep, shorter, agents.last());
        assert(!shorter.contains(agents.last()));
        if agents.contains(agent) && agent != agents.last() {
            let i = choose|i: int| 0 <= i < agents.len() && agents[i] == agent;
            assert(shorter[i] == agent);
        }
        if shorter.contains(agent) {
            let i = choose|i: int| 0 <= i < shorter.len() && shorter[i] == agent;
            assert(agents[i] == agent);
        }
        assert(agents[agents.len() - 1] == agents.last());
    }
}

/// Nobody is listed twice among the losers.
pub proof fn lemma_losers_are_distinct(assignees: Seq<(PublicKey, AssignmentView)>, a: Seq<char>)
    requires
        ascending(assignees),
    ensures
        losers(assignees, a).no_duplicates(),
        forall|j: int| 0 <= j < losers(assignees, a).len() ==> as_map(assignees).contains_key(
            #[trigger] losers(assignees, a)[j],
        ),
    decreases assignees.len(),
{
    let f = |row: (PublicKey, AssignmentView)| if row.1.answer == Some(a) { None } else { Some(row.0) };
    assert forall|j: int| 0 <= j < losers(assignees, a).len() implies as_map(assignees).contains_key(
        #[trigger] losers(assignees, a)[j],
    ) by {
        lemma_pick_source(assignees, f, j);
        let i = choose|i: int| 0 <= i < assignees.len() && f(#[trigger] assignees[i]) == Some(losers(assignees, a)[j]);
        lemma_row_is_mapped(assignees, i);
    }
    if assignees.len() > 0 {
        let shorter = assignees.drop_last();
        lemma_losers_are_distinct(shorter, a);
        let fewer = losers(shorter, a);
        let last = assignees.last();
        if last.1.answer != Some(a) {
            assert forall|j: int| 0 <= j < fewer.len() implies #[trigger] fewer[j] != last.0 by {
                lemma_pick_source(shorter, f, j);
                let i = choose|i: int| 0 <= i < shorter.len() && f(#[trigger] shorter[i]) == Some(fewer[j]);
                assert(assignees[i].0.rank() < assignees[assignees.len() - 1].0.rank());
            }
        }
    }
}

/// The tasks whose time to answer is over, by `rows`.
pub open spec fn due_ids(rows: Seq<(Id, TaskView)>, now: Timestamp) -> Seq<Id> {
    pick(
        rows,
        |row: (Id, TaskView)|
            if answers_overdue(row.1, now) {
                Some(row.1.id)
            } else {
                None
            },
    )
}

/// No task is listed twice as due, and each is claimed.
proof fn lemma_due_are_distinct(b: BoardView, rows: Seq<(Id, TaskView)>, now: Timestamp)
    requires
        ascending(rows),
        forall|i: int|
            0 <= i < rows.len() ==> (#[trigger] rows[i]).1.id == rows[i].0 && b.tasks.contains_key(rows[i].0)
                && b.tasks[rows[i].0] == rows[i].1,
    ensures
        due_ids(rows, now).no_duplicates(),
        forall|j: int|
            0 <= j < due_ids(rows, now).len() ==> b.tasks.contains_key(#[trigger] due_ids(rows, now)[j])
                && b.tasks[due_ids(rows, now)[j]].status == TaskStatus::Claimed,
    decreases rows.len(),
{
    let f = |row: (Id, TaskView)|
        if answers_overdue(row.1, now) {
            Some(row.1.id)
        } else {
            None
        };
    let all = due_ids(rows, now);
    assert forall|j: int| 0 <= j < all.len() implies b.tasks.contains_key(#[trigger] all[j])
        && b.tasks[all[j]].status == TaskStatus::Claimed by {
        lemma_pick_source(rows, f, j);
        let i = choose|i: int| 0 <= i < rows.len() && f(#[trigger] rows[i]) == Some(all[j]);
        assert(rows[i].1.id == rows[i].0);
    }
    if rows.len() > 0 {
        let shorter = rows.drop_last();
        assert forall|i: int| 0 <= i < shorter.len() implies (#[trigger] shorter[i]).1.id == shorter[i].0
            && b.tasks.contains_key(shorter[i].0) && b.tasks[shorter[i].0] == shorter[i].1 by {
            assert(shorter[i] == rows[i]);
        }
        lemma_due_are_distinct(b, shorter, now);
        let fewer = due_ids(shorter, now);
        let last = rows.last();
        assert(rows[rows.len() - 1] == last);
        if answers_overdue(last.1, now) {
            assert forall|j: int| 0 <= j < fewer.len() implies #[trigger] fewer[j] != last.1.id by {
                lemma_pick_source(shorter, f, j);
                let i = choose|i: int| 0 <= i < shorter.len() && f(#[trigger] shorter[i]) == Some(fewer[j]);
                assert(shorter[i] == rows[i]);
                assert(rows[i].0.rank() < rows[rows.len() - 1].0.rank());
            }
        }
    }
}

/// Counting the votes of one task adds at most one failure to anybody's
/// record.
pub proof fn lemma_resolved_failures(b: BoardView, id: Id, agent: PublicKey)
    requires
        b.wf(),
        forall|q: PublicKey| b.reputation_of(q).failed < u64::MAX,
    ensures
        b.reputation_of(agent).failed <= resolved(b, id).reputation_of(agent).failed <= b.reputation_of(agent).failed
            + 1,
{
    if b.tasks.contains_key(id) && b.tasks[id].kind is Consensus {
        let assignees = b.tasks[id].kind->assignees;
        if let Some(a) = majority(assignees) {
            lemma_losers_are_distinct(assignees, a);
            assert forall|i: int| #![trigger losers(assignees, a)[i]]
                0 <= i < losers(assignees, a).len() && b.reputation.contains_key(
                    losers(assignees, a)[i],
                ) implies b.reputation[losers(assignees, a)[i]].failed < u64::MAX by {
                assert(b.reputation_of(losers(assignees, a)[i]).failed < u64::MAX);
            }
            assert(b.reputation_of(agent).failed < u64::MAX);
            lemma_with_failures(b.reputation, losers(assignees, a), agent);
        }
    }
}

impl TaskBoard {
    /// Joins `agent` to a consensus task, at the instant given.
    pub fn join_consensus_task_at(&mut self, id: Id, agent: PublicKey, now: Timestamp) -> (r: Result<(), BoardError>)
        requires
            old(self).wf(),
        ensures
            final(self).wf(),
            match join_refusal(old(self)@, id, agent, now) {
                Some(e) => r == Result::<(), BoardError>::Err(e) && final(self)@ == old(self)@,
                None => r is Ok && final(self)@ == old(self)@.with_task(joined(old(self)@.tasks[id], agent, now)),
            },
    {
        let task = match self.tasks.get(&id) {
            Some(task) => task,
            None => return Err(BoardError::NotFound),
        };
        match &task.kind {
            TaskKind::Consensus { join_deadline, .. } => {
                if task.status != TaskStatus::Open {
                    return Err(BoardError::NotOpen);
                }
                if now.nanos > join_deadline.nanos {
                    return Err(BoardError::JoinWindowExpired);
                }
            },
            _ => return Err(BoardError::WrongTaskKind),
        }
        if task.poster == agent {
            return Err(BoardError::PosterCannotClaimOwnTask);
        }
        match self.check_min_reputation(task, &agent) {
            Err(e) => return Err(e),
            Ok(()) => {},
        }
        proof {
            if !as_map(self@.tasks[id].kind->assignees).contains_key(agent) {
                lemma_joined_wf(self@.tasks[id], agent, now);
            }
        }
        if let Some(task) = self.tasks.get_mut(&id) {
            if let TaskKind::Consensus {
                num_assignees,
                submission_window_minutes,
                submission_deadline,
                assignees,
                ..
            } = &mut task.kind {
                if assignees.contains_key(&agent) {
                    return Err(BoardError::AlreadyJoined);
                }
                assignees.insert(agent, ConsensusAssignment::default());
                proof {
                    assignees.lemma_rows();
                }
                if assignees.len() as u64 >= *num_assignees as u64 {
                    *submission_deadline = Some(now.plus_minutes(*submission_window_minutes));
                    task.status = TaskStatus::Claimed;
                }
            }
        }
        assert(self@ == old(self)@.with_task(joined(old(self)@.tasks[id], agent, now)));
        Ok(())
    }

    /// Joins `agent` to a consensus task.
    pub fn join_consensus_task(&mut self, id: Id, agent: PublicKey) -> (r: Result<(), BoardError>)
        requires
            old(self).wf(),
        ensures
            final(self).wf(),
            exists|now: Timestamp| #[trigger]
                now.valid() && match join_refusal(old(self)@, id, agent, now) {
                    Some(e) => r == Result::<(), BoardError>::Err(e) && final(self)@ == old(self)@,
                    None => r is Ok && final(self)@ == old(self)@.with_task(joined(old(self)@.tasks[id], agent, now)),
                },
    {
        let now = clock_now();
        let r = self.join_consensus_task_at(id, agent, now);
        assert(now.valid());
        r
    }

    /// Counts the votes of a consensus task.
    fn resolve_consensus(&mut self, id: Id)
        requires
            old(self).wf(),
            old(self)@.tasks.contains_key(id) ==> old(self)@.tasks[id].kind.promises_nothing(),
            forall|q: PublicKey| old(self)@.reputation_of(q).failed < u64::MAX,
        ensures
            final(self).wf(),
            final(self)@ == resolved(old(self)@, id),
    {
        let (winning_answer, share, losing) = match self.tasks.get(&id) {
            Some(task) => match &task.kind {
                TaskKind::Consensus { assignees, .. } => match majority_answer(assignees) {
                    Some(answer) => {
                        let winners = count_votes(assignees, &answer);
                        let share: u64 = task.bounty / winners;
                        let losing = losing_assignees(assignees, &answer);
                        (Some(answer), share, losing)
                    },
                    None => (None, 0, Vec::new()),
                },
                _ => return,
            },
            None => return,
        };
        let ghost t = self@.tasks[id];
        let ghost rows = t.kind->assignees;
        proof {
            lemma_decided_wf(t);
        }
        match winning_answer {
            Some(answer) => {
                proof {
                    lemma_losers_are_distinct(rows, answer@);
                }
                let mut i: usize = 0;
                assert(losing@.take(0) =~= Seq::empty());
                while i < losing.len()
                    invariant
                        i <= losing.len(),
                        self.wf(),
                        losing@ == losers(rows, answer@),
                        losing@.no_duplicates(),
                        forall|q: PublicKey| old(self)@.reputation_of(q).failed < u64::MAX,
                        self@ == (BoardView {
                            reputation: with_failures(old(self)@.reputation, losing@.take(i as int)),
                            ..old(self)@
                        }),
                    decreases losing.len() - i,
                {
                    proof {
                        let part = losing@.take(i as int);
                        assert forall|j: int| #![trigger part[j]]
                            0 <= j < part.len() && old(self)@.reputation.contains_key(part[j]) implies old(
                            self,
                        )@.reputation[part[j]].failed < u64::MAX by {
                            assert(old(self)@.reputation_of(part[j]).failed < u64::MAX);
                        }
                        assert(!part.contains(losing@[i as int])) by {
                            if part.contains(losing@[i as int]) {
                                let j = choose|j: int| 0 <= j < part.len() && part[j] == losing@[i as int];
                                assert(losing@[j] == losing@[i as int]);
                            }
                        }
                        lemma_with_failures(old(self)@.reputation, part, losing@[i as int]);
                        assert(old(self)@.reputation_of(losing@[i as int]).failed < u64::MAX);
                        assert(losing@.take(i + 1).drop_last() =~= part);
                    }
                    self.ding(losing[i]);
                    i += 1;
                }
                assert(losing@.take(i as int) =~= losing@);
                if let Some(task) = self.tasks.get_mut(&id) {
                    if let TaskKind::Consensus { assignees, .. } = &mut task.kind {
                        award(assignees, &answer, share);
                    }
                    task.status = TaskStatus::Verified;
                }
            },
            None => {
                if let Some(task) = self.tasks.get_mut(&id) {
                    task.status = TaskStatus::Closed;
                    task.close_reason = Some(CloseReason::NoMajority);
                }
            },
        }
        assert(self@ == resolved(old(self)@, id));
    }
}

/// The assignees who did not give the answer `a`.
fn losing_assignees(assignees: &Table<PublicKey, ConsensusAssignment>, a: &String) -> (agents: Vec<PublicKey>)
    ensures
        agents@ == losers(assignees.rows(), a@),
{
    let ghost f = |row: (PublicKey, AssignmentView)| if row.1.answer == Some(a@) { None } else { Some(row.0) };
    let mut agents: Vec<PublicKey> = Vec::new();
    let mut i: usize = 0;
    while i < assignees.len()
        invariant
            i <= assignees.rows().len(),
            f == (|row: (PublicKey, AssignmentView)| if row.1.answer == Some(a@) { None } else { Some(row.0) }),
            agents@ == pick(assignees.rows().take(i as int), f),
        decreases assignees.rows().len() - i,
    {
        proof {
            lemma_pick_step(assignees.rows(), f, i as int);
        }
        if !answered(assignees.value_at(i), a) {
            agents.push(assignees.key_at(i));
        }
        i += 1;
    }
    assert(assignees.rows().take(i as int) =~= assignees.rows());
    agents
}

/// Gives everybody who gave the answer `a` their share.
fn award(assignees: &mut Table<PublicKey, ConsensusAssignment>, a: &String, share: u64)
    requires
        old(assignees).wf(),
    ensures
        final(assignees).wf(),
        final(assignees).rows() == changed_rows(
            old(assignees).rows(),
            |row: AssignmentView| awarded(row, a@, share),
        ),
{
    let ghost f = |row: AssignmentView| awarded(row, a@, share);
    let ghost rows = assignees.rows();
    let n = assignees.len();
    let mut i: usize = 0;
    while i < n
        invariant
            i <= n,
            n == rows.len(),
            f == (|row: AssignmentView| awarded(row, a@, share)),
            assignees.wf(),
            assignees.rows() == changed_rows(rows.take(i as int), f) + rows.skip(i as int),
        decreases n - i,
    {
        let ghost before = assignees.rows();
        assert(before[i as int] == rows[i as int]);
        let assignment = assignees.value_at_mut(i);
        if answered(assignment, a) {
            assignment.share = Some(share);
        }
        assert(assignees.rows() =~= before.update(i as int, (rows[i as int].0, f(rows[i as int].1))));
        i += 1;
        assert(assignees.rows() =~= changed_rows(rows.take(i as int), f) + rows.skip(i as int));
    }
    assert(rows.take(i as int) =~= rows);
    assert(assignees.rows() =~= changed_rows(rows, f));
}

/// Whether every assignee has answered.
fn everybody_answered(assignees: &Table<PublicKey, ConsensusAssignment>) -> (r: bool)
    ensures
        r == all_answered(assignees.rows()),
{
    let mut i: usize = 0;
    while i < assignees.len()
        invariant
            i <= assignees.rows().len(),
            forall|j: int| 0 <= j < i ==> (#[trigger] assignees.rows()[j]).1.answer is Some,
        decreases assignees.rows().len() - i,
    {
        if assignees.value_at(i).answer.is_none() {
            assert(assignees.rows()[i as int].1.answer is None);
            return false;
        }
        i += 1;
    }
    true
}

/// What taking an answer to a consensus task does to the board.
pub open spec fn answer_taken(b: BoardView, id: Id, agent: PublicKey, answer: Seq<char>) -> (BoardView, bool) {
    let t = with_answer(b.tasks[id], agent, answer);
    let done = all_answered(t.kind->assignees);
    (
        if done {
            resolved(b.with_task(t), id)
        } else {
            b.with_task(t)
        },
        done,
    )
}

impl TaskBoard {
    /// Takes an answer to a consensus task at the instant given. The last
    /// answer has the votes counted, which is what `true` says.
    pub fn submit_consensus_answer_at(&mut self, id: Id, agent: PublicKey, answer: String, now: Timestamp) -> (r: Result<
        bool,
        BoardError,
    >)
        requires
            old(self).wf(),
            forall|q: PublicKey| old(self)@.reputation_of(q).failed < u64::MAX,
        ensures
            final(self).wf(),
            match answer_refusal(old(self)@, id, agent, now) {
                Some(e) => r == Result::<bool, BoardError>::Err(e) && final(self)@ == old(self)@,
                None => {
                    let (after, done) = answer_taken(old(self)@, id, agent, answer@);
                    r == Result::<bool, BoardError>::Ok(done) && final(self)@ == after
                },
            },
    {
        proof {
            let t = self@.tasks[id];
            if self@.tasks.contains_key(id) && t.kind is Consensus && as_map(t.kind->assignees).contains_key(agent) {
                lemma_with_answer_wf(t, agent, answer@);
            }
        }
        let ghost given = answer@;
        let task = match self.tasks.get_mut(&id) {
            Some(task) => task,
            None => return Err(BoardError::NotFound),
        };
        let done = match &mut task.kind {
            TaskKind::Consensus { submission_deadline, assignees, .. } => {
                if task.status != TaskStatus::Claimed {
                    return Err(BoardError::NotClaimed);
                }
                if let Some(deadline) = *submission_deadline {
                    if now.nanos > deadline.nanos {
                        return Err(BoardError::SubmissionWindowExpired);
                    }
                }
                match assignees.get(&agent) {
                    Some(assignment) => {
                        if assignment.answer.is_some() {
                            return Err(BoardError::AlreadySubmitted);
                        }
                    },
                    None => return Err(BoardError::NotClaimant),
                }
                if let Some(assignment) = assignees.get_mut(&agent) {
                    assignment.answer = Some(answer);
                }
                proof {
                    assignees.lemma_rows();
                }
                everybody_answered(assignees)
            },
            _ => return Err(BoardError::WrongTaskKind),
        };
        assert(self@ == old(self)@.with_task(with_answer(old(self)@.tasks[id], agent, given)));
        if done {
            proof {
                assert forall|q: PublicKey| self@.reputation_of(q).failed < u64::MAX by {
                    assert(old(self)@.reputation_of(q).failed < u64::MAX);
                }
            }
            self.resolve_consensus(id);
            Ok(true)
        } else {
            Ok(false)
        }
    }

    /// Takes an answer to a consensus task.
    pub fn submit_consensus_answer(&mut self, id: Id, agent: PublicKey, answer: String) -> (r: Result<bool, BoardError>)
        requires
            old(self).wf(),
            forall|q: PublicKey| old(self)@.reputation_of(q).failed < u64::MAX,
        ensures
            final(self).wf(),
            exists|now: Timestamp| #[trigger]
                now.valid() && match answer_refusal(old(self)@, id, agent, now) {
                    Some(e) => r == Result::<bool, BoardError>::Err(e) && final(self)@ == old(self)@,
                    None => {
                        let (after, done) = answer_taken(old(self)@, id, agent, answer@);
                        r == Result::<bool, BoardError>::Ok(done) && final(self)@ == after
                    },
                },
    {
        let now = clock_now();
        let r = self.submit_consensus_answer_at(id, agent, answer, now);
        assert(now.valid());
        r
    }

    /// Counts the votes of every consensus task whose time to answer is over;
    /// whoever has not answered by then disagreed. Lists the tasks.
    pub fn resolve_expired_consensus_tasks(&mut self, now: Timestamp) -> (ids: Vec<Id>)
        requires
            old(self).wf(),
            forall|q: PublicKey| old(self)@.reputation_of(q).failed + rows_of(old(self)@.tasks).len() <= u64::MAX,
        ensures
            final(self).wf(),
            ids@ == due_ids(rows_of(old(self)@.tasks), now),
            final(self)@ == all_resolved(old(self)@, ids@),
    {
        let ghost g = |row: (Id, TaskView)| if answers_overdue(row.1, now) { Some(row.1.id) } else { None };
        let ghost rows = self.tasks.rows();
        proof {
            self.tasks.lemma_rows();
        }
        let mut due: Vec<Id> = Vec::new();
        let mut i: usize = 0;
        while i < self.tasks.len()
            invariant
                i <= rows.len(),
                rows == self.tasks.rows(),
                g == (|row: (Id, TaskView)| if answers_overdue(row.1, now) { Some(row.1.id) } else { None }),
                due@ == pick(rows.take(i as int), g),
            decreases rows.len() - i,
        {
            proof {
                lemma_pick_step(rows, g, i as int);
            }
            let task = self.tasks.value_at(i);
            if task.status == TaskStatus::Claimed {
                if let TaskKind::Consensus { submission_deadline, .. } = &task.kind {
                    if let Some(deadline) = submission_deadline {
                        if now.nanos > deadline.nanos {
                            due.push(task.id);
                        }
                    }
                }
            }
            i += 1;
        }
        proof {
            assert(rows.take(i as int) =~= rows);
            lemma_pick_len(rows, g);
            assert forall|i: int| 0 <= i < rows.len() implies (#[trigger] rows[i]).1.id == rows[i].0
                && self@.tasks.contains_key(rows[i].0) && self@.tasks[rows[i].0] == rows[i].1 by {
                lemma_row_is_mapped(rows, i);
                assert(self@.tasks.contains_key(rows[i].0));
            }
            lemma_due_are_distinct(self@, rows, now);
        }
        let mut j: usize = 0;
        assert(due@.take(0) =~= Seq::empty());
        while j < due.len()
            invariant
                j <= due.len() <= rows.len(),
                self.wf(),
                old(self)@.tasks == as_map(rows),
                forall|q: PublicKey| old(self)@.reputation_of(q).failed + rows.len() <= u64::MAX,
                self@ == all_resolved(old(self)@, due@.take(j as int)),
                due@.no_duplicates(),
                forall|m: int|
                    j <= m < due.len() ==> self@.tasks.contains_key(#[trigger] due@[m]) && self@.tasks[due@[m]].status
                        == TaskStatus::Claimed,
                forall|q: PublicKey| self@.reputation_of(q).failed <= old(self)@.reputation_of(q).failed + j,
            decreases due.len() - j,
        {
            proof {
                assert(due@.take(j + 1).drop_last() =~= due@.take(j as int));
                assert forall|q: PublicKey| self@.reputation_of(q).failed < u64::MAX by {
                    assert(old(self)@.reputation_of(q).failed + rows.len() <= u64::MAX);
                }
            }
            let ghost before = self@;
            assert(self@.tasks.contains_key(due@[j as int]) && self@.tasks[due@[j as int]].status
                == TaskStatus::Claimed);
            self.resolve_consensus(due[j]);
            proof {
                assert forall|q: PublicKey| self@.reputation_of(q).failed <= old(self)@.reputation_of(q).failed + j
                    + 1 by {
                    lemma_resolved_failures(before, due@[j as int], q);
                }
            }
            j += 1;
        }
        assert(due@.take(j as int) =~= due@);
        due
    }

    /// Closes every consensus task that did not fill in time, and lists them.
    pub fn cancel_understaffed_consensus_tasks(&mut self, now: Timestamp) -> (ids: Vec<Id>)
        requires
            old(self).wf(),
        ensures
            final(self).wf(),
            final(self)@ == understaffed_closed(old(self)@, now),
            ids@ == understaffed(old(self)@, now),
    {
        let ghost f = |t: TaskView| if joining_overdue(t, now) { closed(t, CloseReason::Understaffed) } else { t };
        let ghost g = |row: (Id, TaskView)| if joining_overdue(row.1, now) { Some(row.1.id) } else { None };
        let ghost rows = self.tasks.rows();
        proof {
            self.tasks.lemma_rows();
        }
        let mut ids: Vec<Id> = Vec::new();
        let mut i: usize = 0;
        let n = self.tasks.len();
        while i < n
            invariant
                i <= n,
                n == rows.len(),
                f == (|t: TaskView|
                    if joining_overdue(t, now) { closed(t, CloseReason::Understaffed) } else { t }),
                g == (|row: (Id, TaskView)| if joining_overdue(row.1, now) { Some(row.1.id) } else { None }),
                self.tasks.wf(),
                self.tasks.rows() == changed_rows(rows.take(i as int), f) + rows.skip(i as int),
                ids@ == pick(rows.take(i as int), g),
                *self == (TaskBoard { tasks: self.tasks, ..*old(self) }),
            decreases n - i,
        {
            proof {
                lemma_pick_step(rows, g, i as int);
                assert(self.tasks.rows()[i as int] == rows[i as int]);
            }
            let ghost before = self.tasks.rows();
            let task = self.tasks.value_at_mut(i);
            if task.status == TaskStatus::Open {
                if let TaskKind::Consensus { join_deadline, .. } = &task.kind {
                    if now.nanos > join_deadline.nanos {
                        task.status = TaskStatus::Closed;
                        task.close_reason = Some(CloseReason::Understaffed);
                        ids.push(task.id);
                    }
                }
            }
            assert(self.tasks.rows() =~= before.update(i as int, (rows[i as int].0, f(rows[i as int].1))));
            i += 1;
            assert(self.tasks.rows() =~= changed_rows(rows.take(i as int), f) + rows.skip(i as int));
        }
        proof {
            assert(rows.take(i as int) =~= rows);
            assert(self.tasks.rows() =~= changed_rows(rows, f));
            lemma_changed_rows(rows, f);
        }
        ids
    }
}

}
