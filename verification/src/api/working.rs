//! Taking tasks on, answering them, and what the one who answers is told.
use crate::api::dtos::SubmitResultDto;
use crate::api::errors::{board_error, refused, ApiError};
use crate::api::requests::{digest_of, hash_output, CLAIM_TTL_MINUTES};
use crate::board::consensus::{answer_refusal, answer_taken, join_refusal, joined};
use crate::board::disputes::{dispute_ruled, parties, resolution_refusal, ruled};
use crate::board::lifecycle::{cancel_refusal, closed};
use crate::board::payouts::attempt_recorded;
use crate::board::promises::lemma_unwon_allocates_nothing;
use crate::board::types::{
    AssignmentView, AttemptView, BoardError, CloseReason, DisputeResolution, KindView, Reputation, Task, TaskKind, TaskStatus,
    TaskView,
};
use crate::board::work::{awaiting_dispute, claim_refusal, hash_judged, submit_refusal};
use crate::board::{BoardView, TaskBoard};
use crate::faucet_pow::sha256;
use crate::seqs::{lemma_pick_step, pick};
use crate::table::Duplicate;
use crate::types::{Id, PayoutKey, PublicKey, Timestamp, NANOS_PER_MINUTE};
use vstd::prelude::*;
use vstd::utf8::encode_utf8;

verus! {

/// Why an agent may not take a task on at `now`.
pub open spec fn taking_refusal(b: BoardView, task_id: Id, agent: PublicKey, now: Timestamp) -> Option<BoardError> {
    if b.tasks.contains_key(task_id) && b.tasks[task_id].kind is Consensus {
        join_refusal(b, task_id, agent, now)
    } else {
        claim_refusal(b, task_id, agent)
    }
}

/// A task that an agent has taken on at `now`: joined, if it is for several,
/// and otherwise claimed for half an hour.
pub open spec fn taken(t: TaskView, agent: PublicKey, now: Timestamp) -> TaskView {
    if t.kind is Consensus {
        joined(t, agent, now)
    } else {
        TaskView {
            status: TaskStatus::Claimed,
            claimant: Some(agent),
            claim_deadline: Some(now.later(CLAIM_TTL_MINUTES * NANOS_PER_MINUTE)),
            ..t
        }
    }
}

/// What is told of an answer that can still be challenged.
pub open spec fn open_to_challenge(t: TaskView) -> SubmitResultDto {
    SubmitResultDto { verified: true, paid: false, bounty: Some(t.bounty), resolved: Some(false) }
}

/// What is told of an answer that a hash decided.
pub open spec fn told_of_hash(verified: bool, paid: bool, t: TaskView) -> SubmitResultDto {
    if verified {
        SubmitResultDto { verified: true, paid, bounty: Some(t.bounty), resolved: None }
    } else {
        SubmitResultDto { verified: false, paid: false, bounty: None, resolved: None }
    }
}

/// What somebody is told who gave one of several answers.
pub open spec fn told_of_vote(resolved: bool, t: TaskView, b: BoardView, agent: PublicKey) -> SubmitResultDto {
    if !resolved {
        SubmitResultDto { verified: false, paid: false, bounty: None, resolved: Some(false) }
    } else {
        match part_of(t.pending(), agent) {
            None => SubmitResultDto { verified: false, paid: false, bounty: None, resolved: Some(true) },
            Some(share) => SubmitResultDto {
                verified: true,
                paid: was_sent(b, t.id, agent),
                bounty: Some(share),
                resolved: Some(true),
            },
        }
    }
}

/// The task of that id, which the board is known to have.
fn copy_of(board: &TaskBoard, id: Id) -> (task: Task)
    requires
        board.wf(),
        board@.tasks.contains_key(id),
    ensures
        task@ == board@.tasks[id],
        task.wf(),
{
    proof {
        board.lemma_view_wf();
    }
    match board.get_task(id) {
        Some(task) => task.duplicate(),
        None => vstd::pervasive::unreached(),
    }
}

/// Takes a task on at `now`.
pub fn take_task_at(board: &mut TaskBoard, task_id: Id, agent: PublicKey, now: Timestamp) -> (r: Result<Task, ApiError>)
    requires
        old(board).wf(),
    ensures
        final(board).wf(),
        match taking_refusal(old(board)@, task_id, agent, now) {
            Some(e) => refused(r, board_error(e)) && final(board)@ == old(board)@,
            None => {
                &&& r is Ok && r->Ok_0@ == taken(old(board)@.tasks[task_id], agent, now)
                &&& final(board)@ == old(board)@.with_task(r->Ok_0@)
            },
        },
{
    proof {
        board.lemma_view_wf();
    }
    let is_consensus = match board.get_task(task_id) {
        Some(task) => match &task.kind {
            TaskKind::Consensus { .. } => true,
            _ => false,
        },
        None => return Err(ApiError::from_board(BoardError::NotFound)),
    };
    let done = if is_consensus {
        board.join_consensus_task_at(task_id, agent, now)
    } else {
        board.claim_task(task_id, agent, now.plus_minutes(CLAIM_TTL_MINUTES))
    };
    match done {
        Err(e) => Err(ApiError::from_board(e)),
        Ok(()) => Ok(copy_of(board, task_id)),
    }
}

/// How the answer to a task is taken.
#[derive(Debug, Clone, Copy, PartialEq, Eq, Structural)]
pub enum Dispatch {
    HashMatch,
    Consensus,
    Disputable,
}

/// How the answer to a task of that kind is taken.
pub open spec fn dispatch_of(kind: KindView) -> Dispatch {
    match kind {
        KindView::HashMatch { .. } => Dispatch::HashMatch,
        KindView::Consensus { .. } => Dispatch::Consensus,
        KindView::Disputable { .. } => Dispatch::Disputable,
    }
}

/// How the answer to a task is taken.
pub fn dispatch_for(board: &TaskBoard, task_id: Id) -> (r: Result<Dispatch, ApiError>)
    requires
        board.wf(),
    ensures
        if board@.tasks.contains_key(task_id) {
            r is Ok && r->Ok_0 == dispatch_of(board@.tasks[task_id].kind)
        } else {
            refused(r, board_error(BoardError::NotFound))
        },
{
    match board.get_task(task_id) {
        None => Err(ApiError::from_board(BoardError::NotFound)),
        Some(task) => match &task.kind {
            TaskKind::HashMatch { .. } => Ok(Dispatch::HashMatch),
            TaskKind::Consensus { .. } => Ok(Dispatch::Consensus),
            TaskKind::Disputable { .. } => Ok(Dispatch::Disputable),
        },
    }
}

/// Takes the answer to a disputable task, and says what the task is then.
pub fn take_disputable_answer(
    board: &mut TaskBoard,
    task_id: Id,
    agent: PublicKey,
    answer: String,
    now: Timestamp,
) -> (r: Result<Task, ApiError>)
    requires
        old(board).wf(),
    ensures
        final(board).wf(),
        match submit_refusal(old(board)@, task_id, agent, old(board)@.tasks[task_id].kind is Disputable) {
            Some(e) => refused(r, board_error(e)) && final(board)@ == old(board)@,
            None => {
                &&& r is Ok && r->Ok_0@ == awaiting_dispute(old(board)@.tasks[task_id], answer@, now)
                &&& final(board)@ == old(board)@.with_task(r->Ok_0@)
            },
        },
{
    proof {
        board.lemma_view_wf();
    }
    match board.submit_disputable_answer(task_id, agent, answer, now) {
        Err(e) => Err(ApiError::from_board(e)),
        Ok(()) => Ok(copy_of(board, task_id)),
    }
}

/// What is told of an answer to a disputable task: it stands, and is not paid
/// before the time to challenge it is over.
pub fn disputable_result(task: &Task) -> (dto: SubmitResultDto)
    ensures
        dto == open_to_challenge(task@),
{
    SubmitResultDto { verified: true, paid: false, bounty: Some(task.bounty), resolved: Some(false) }
}

/// Holds the digest of an answer against the one expected, and says whether it
/// fits and what the task is then.
pub fn take_hash_answer(board: &mut TaskBoard, task_id: Id, agent: PublicKey, output: &str) -> (r: Result<
    (bool, Task),
    ApiError,
>)
    requires
        old(board).wf(),
        old(board)@.reputation_of(agent).failed < u64::MAX,
        old(board)@.tasks.contains_key(task_id) ==> old(board)@.tasks[task_id].failed_attempts < u32::MAX,
    ensures
        final(board).wf(),
        match submit_refusal(old(board)@, task_id, agent, old(board)@.tasks[task_id].kind is HashMatch) {
            Some(e) => refused(r, board_error(e)) && final(board)@ == old(board)@,
            None => {
                let (judged, after) = hash_judged(
                    old(board)@,
                    task_id,
                    agent,
                    digest_of(sha256(encode_utf8(output@))),
                );
                &&& r is Ok && judged == Ok::<bool, BoardError>(r->Ok_0.0)
                &&& r->Ok_0.1@ == after.tasks[task_id]
                &&& final(board)@ == after
            },
        },
{
    proof {
        board.lemma_view_wf();
    }
    let digest = hash_output(output);
    match board.submit(task_id, agent, digest) {
        Err(e) => Err(ApiError::from_board(e)),
        Ok(verified) => Ok((verified, copy_of(board, task_id))),
    }
}

/// What is told of an answer that was held against a digest. `paid` says
/// whether the payout went out.
pub fn hash_result(verified: bool, paid: bool, task: &Task) -> (dto: SubmitResultDto)
    ensures
        dto == told_of_hash(verified, paid, task@),
{
    if !verified {
        return SubmitResultDto { verified: false, paid: false, bounty: None, resolved: None };
    }
    SubmitResultDto { verified: true, paid, bounty: Some(task.bounty), resolved: None }
}

/// Takes an answer to a consensus task at `now`, and says whether it had the
/// votes counted and what the task is then.
pub fn take_consensus_answer_at(
    board: &mut TaskBoard,
    task_id: Id,
    agent: PublicKey,
    output: String,
    now: Timestamp,
) -> (r: Result<(bool, Task), ApiError>)
    requires
        old(board).wf(),
        forall|q: PublicKey| old(board)@.reputation_of(q).failed < u64::MAX,
    ensures
        final(board).wf(),
        match answer_refusal(old(board)@, task_id, agent, now) {
            Some(e) => refused(r, board_error(e)) && final(board)@ == old(board)@,
            None => {
                let (after, done) = answer_taken(old(board)@, task_id, agent, output@);
                &&& final(board)@ == after
                &&& r is Ok && r->Ok_0.0 == done && r->Ok_0.1@ == after.tasks[task_id]
            },
        },
{
    proof {
        board.lemma_view_wf();
    }
    match board.submit_consensus_answer_at(task_id, agent, output, now) {
        Err(e) => Err(ApiError::from_board(e)),
        Ok(resolved) => Ok((resolved, copy_of(board, task_id))),
    }
}

/// The part of `payouts` that is for `agent`, the first if there are more.
pub open spec fn part_of(payouts: Seq<(PublicKey, u64)>, agent: PublicKey) -> Option<u64>
    decreases payouts.len(),
{
    if payouts.len() == 0 {
        None
    } else if payouts[0].0 == agent {
        Some(payouts[0].1)
    } else {
        part_of(payouts.skip(1), agent)
    }
}

fn find_part(payouts: &Vec<(PublicKey, u64)>, agent: &PublicKey) -> (r: Option<u64>)
    ensures
        r == part_of(payouts@, *agent),
{
    let mut i: usize = 0;
    assert(payouts@.skip(0) =~= payouts@);
    while i < payouts.len()
        invariant
            i <= payouts.len(),
            part_of(payouts@, *agent) == part_of(payouts@.skip(i as int), *agent),
        decreases payouts.len() - i,
    {
        if payouts[i].0 == *agent {
            return Some(payouts[i].1);
        }
        assert(payouts@.skip(i as int).skip(1) =~= payouts@.skip(i + 1));
        i += 1;
    }
    None
}

/// Whether an agent's part of a task is on its way or has arrived: the task
/// says that it was paid, or a transaction that pays it is with the node.
pub open spec fn was_sent(b: BoardView, task_id: Id, agent: PublicKey) -> bool {
    ||| b.tasks.contains_key(task_id) && b.tasks[task_id].paid_to(agent)
    ||| b.payout_attempts.contains_key(PayoutKey { task_id, recipient: agent })
}

/// What is told of an answer to a consensus task. `task` is the task as the
/// answer left it, and `board` the board once whoever won has been paid as far
/// as that went.
pub fn consensus_result(resolved: bool, task: &Task, board: &TaskBoard, agent: &PublicKey) -> (dto: SubmitResultDto)
    requires
        task.wf(),
        board.wf(),
    ensures
        dto == told_of_vote(resolved, task@, board@, *agent),
{
    proof {
        board.lemma_view_wf();
    }
    if !resolved {
        return SubmitResultDto { verified: false, paid: false, bounty: None, resolved: Some(false) };
    }
    match find_part(&task.pending_payouts(), agent) {
        None => SubmitResultDto { verified: false, paid: false, bounty: None, resolved: Some(true) },
        Some(share) => {
            let arrived = match board.get_task(task.id) {
                Some(settled) => settled.is_recipient_paid(agent),
                None => false,
            };
            let paid = arrived || board.payout_attempt(task.id, agent).is_some();
            SubmitResultDto { verified: true, paid, bounty: Some(share), resolved: Some(true) }
        },
    }
}

/// Once a payout has been handed to the node, its recipient is told so: what is
/// told does not wait for the payment to be seen on chain.
pub proof fn lemma_sent_payout_is_told(b: BoardView, attempt: AttemptView)
    ensures
        was_sent(attempt_recorded(b, attempt), attempt.task_id, attempt.recipient),
{
}

/// Cancels a task in a copy of it, which is to be kept before the board
/// follows.
pub fn stage_cancel(board: &TaskBoard, task_id: Id) -> (r: Result<Task, ApiError>)
    requires
        board.wf(),
    ensures
        match cancel_refusal(board@, task_id) {
            Some(e) => refused(r, board_error(e)),
            None => r is Ok && r->Ok_0.wf() && r->Ok_0@ == closed(
                board@.tasks[task_id],
                CloseReason::CancelledByOperator,
            ),
        },
{
    proof {
        board.lemma_view_wf();
    }
    let mut staged = TaskBoard::new();
    match board.get_task(task_id) {
        None => return Err(ApiError::from_board(BoardError::NotFound)),
        Some(task) => staged.restore_task(task.duplicate()),
    }
    match staged.cancel_task(task_id) {
        Err(e) => Err(ApiError::from_board(e)),
        Ok(()) => Ok(copy_of(&staged, task_id)),
    }
}

/// Decides a dispute as the operator rules, and says what is to be kept of it:
/// the task, and the record of whoever lost.
pub fn rule_on_dispute(board: &mut TaskBoard, task_id: Id, outcome: DisputeResolution) -> (r: Result<
    (Task, PublicKey, Reputation),
    ApiError,
>)
    requires
        old(board).wf(),
        resolution_refusal(old(board)@, task_id) is None ==> old(board)@.reputation_of(
            parties(old(board)@.tasks[task_id], outcome).1,
        ).failed < u64::MAX,
    ensures
        final(board).wf(),
        match resolution_refusal(old(board)@, task_id) {
            Some(e) => refused(r, board_error(e)) && final(board)@ == old(board)@,
            None => {
                let t = old(board)@.tasks[task_id];
                let loser = parties(t, outcome).1;
                &&& r is Ok && r->Ok_0.0@ == ruled(t, outcome)
                &&& r->Ok_0.1 == loser && r->Ok_0.2 == final(board)@.reputation_of(loser)
                &&& final(board)@ == dispute_ruled(old(board)@, task_id, outcome)
            },
        },
{
    proof {
        board.lemma_view_wf();
    }
    match board.resolve_dispute(task_id, outcome) {
        Err(e) => Err(ApiError::from_board(e)),
        Ok((_, loser)) => {
            let reputation = board.reputation(&loser);
            Ok((copy_of(board, task_id), loser, reputation))
        },
    }
}

/// The records that an answer to a consensus task touched: that of the agent
/// who answered, and once the votes are counted those of the other assignees.
pub open spec fn touched_records(b: BoardView, t: TaskView, submitter: PublicKey, resolved: bool) -> Seq<
    (PublicKey, Reputation),
> {
    let others = match t.kind {
        KindView::Consensus { assignees, .. } => pick(
            assignees.map_values(|row: (PublicKey, AssignmentView)| row.0),
            other_record_of(b, submitter),
        ),
        _ => Seq::empty(),
    };
    seq![(submitter, b.reputation_of(submitter))] + if resolved {
        others
    } else {
        Seq::empty()
    }
}

/// The record of an agent who is not `submitter`.
pub open spec fn other_record_of(b: BoardView, submitter: PublicKey) -> spec_fn(PublicKey) -> Option<
    (PublicKey, Reputation),
> {
    |agent: PublicKey|
        if agent != submitter {
            Some((agent, b.reputation_of(agent)))
        } else {
            None
        }
}

/// The records that are to be kept together with a consensus task that
/// `submitter` has answered.
pub fn records_after_answer(board: &TaskBoard, task: &Task, submitter: &PublicKey, resolved: bool) -> (entries: Vec<
    (PublicKey, Reputation),
>)
    requires
        board.wf(),
    ensures
        entries@ == touched_records(board@, task@, *submitter, resolved),
{
    let ghost f = other_record_of(board@, *submitter);
    let mut entries: Vec<(PublicKey, Reputation)> = Vec::new();
    entries.push((*submitter, board.reputation(submitter)));
    let ghost first = entries@;
    if resolved {
        let agents = task.consensus_assignees();
        let mut i: usize = 0;
        assert(first + pick(agents@.take(0), f) =~= first);
        while i < agents.len()
            invariant
                i <= agents.len(),
                board.wf(),
                f == other_record_of(board@, *submitter),
                entries@ == first + pick(agents@.take(i as int), f),
            decreases agents.len() - i,
        {
            proof {
                lemma_pick_step(agents@, f, i as int);
            }
            if agents[i] != *submitter {
                entries.push((agents[i], board.reputation(&agents[i])));
            }
            assert(entries@ =~= first + pick(agents@.take(i + 1), f));
            i += 1;
        }
        assert(agents@.take(i as int) =~= agents@);
        assert(pick(Seq::<PublicKey>::empty(), f) =~= Seq::empty());
    }
    assert(entries@ =~= touched_records(board@, task@, *submitter, resolved));
    entries
}

/// No task can be cancelled while anybody is to be paid for it, or while a
/// challenge of its answer runs; and once it is cancelled nothing is owed for
/// it. A consensus task is taken to be open or claimed, as one is until its
/// votes are counted.
pub proof fn lemma_cancelled_owes_nothing(b: BoardView, task_id: Id)
    requires
        b.wf(),
        cancel_refusal(b, task_id) is None,
        b.tasks[task_id].kind is Consensus ==> b.tasks[task_id].status != TaskStatus::AwaitingDispute,
    ensures
        b.tasks[task_id].status != TaskStatus::PayoutFailed,
        b.tasks[task_id].status != TaskStatus::Paid,
        b.tasks[task_id].status != TaskStatus::Disputed,
        b.tasks[task_id].owed().len() == 0,
        closed(b.tasks[task_id], CloseReason::CancelledByOperator).owed().len() == 0,
{
    let t = b.tasks[task_id];
    let after = closed(t, CloseReason::CancelledByOperator);
    lemma_unwon_allocates_nothing(t);
    assert(after.allocated() =~= Seq::<(PublicKey, u64)>::empty());
}

}
