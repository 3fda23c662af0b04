//! What those who post a task, claim it, answer it and challenge an answer can
//! rely on.
use crate::board::BoardView;
use crate::board::disputes::{
    bond_credited, bond_is_due, closed_windows, dispute_ruled, due_bonds, parties, resolution_refusal, ruled,
    unchallenged, windows_closed,
};
use crate::board::escrow::{bond_refusal, challenged};
use crate::board::lifecycle::{asking_record, cancel_refusal, closed, posted, tagged_with, unanswered, unjoined};
use crate::board::tasks::assignees_of;
use crate::board::types::{BoardError, CloseReason, DisputeResolution, EscrowStatus, KindView, TaskStatus, TaskView};
use crate::board::work::{
    awaiting_dispute, claim_lapsed, claim_refusal, claimed, claims_expired, expired_claims, hash_judged,
    submit_refusal,
};
use crate::seqs::pick;
use crate::table::{lemma_listed, lemma_picked_keys, lemma_row_is_mapped, rows_of};
use crate::types::{in_calendar, Digest, Id, PublicKey, Timestamp};
use vstd::prelude::*;

verus! {

/// A task is posted as it was asked for, and on offer: nobody has claimed it,
/// joined it or answered it, nothing is held against it, and anybody may take it
/// on.
pub proof fn lemma_posting(id: Id, now: Timestamp, poster: PublicKey, description: Seq<char>, bounty: u64, kind: KindView)
    ensures
        ({
            let t = posted(id, now, poster, description, bounty, kind);
            &&& t.id == id
            &&& t.created_at == now
            &&& t.poster == poster
            &&& t.description == description
            &&& t.bounty == bounty
            &&& t.kind == kind
            &&& t.status == TaskStatus::Open
            &&& t.claimant is None
            &&& t.claim_deadline is None
            &&& t.failed_attempts == 0
            &&& t.min_reputation == 0
            &&& t.close_reason is None
            &&& t.escrow_id is None
            &&& t.capabilities.len() == 0
            &&& t.settled_at is None
        }),
{
}

/// A consensus task starts out with nobody joined and no time to answer running.
pub proof fn lemma_posting_consensus(n: u32, join_deadline: Timestamp, minutes: i64)
    ensures
        unjoined(n, join_deadline, minutes) is Consensus,
        unjoined(n, join_deadline, minutes)->num_assignees == n,
        unjoined(n, join_deadline, minutes)->join_deadline == join_deadline,
        unjoined(n, join_deadline, minutes)->submission_window_minutes == minutes,
        unjoined(n, join_deadline, minutes)->submission_deadline is None,
        unjoined(n, join_deadline, minutes)->assignees.len() == 0,
{
}

/// A disputable task starts out with no answer and nothing to challenge.
pub proof fn lemma_posting_disputable(minutes: i64)
    ensures
        unanswered(minutes) is Disputable,
        unanswered(minutes)->answer is None,
        unanswered(minutes)->dispute_window_minutes == minutes,
        unanswered(minutes)->dispute_deadline is None,
        unanswered(minutes)->dispute is None,
{
}

/// Who may claim: whoever did not post the task and has completed as much work as
/// it asks for, while it is open and of a kind for one worker.
pub proof fn lemma_who_may_claim(b: BoardView, id: Id, claimant: PublicKey)
    ensures
        ({
            let t = b.tasks[id];
            let e = claim_refusal(b, id, claimant);
            let done = b.reputation_of(claimant).completed;
            &&& e is None <==> {
                &&& b.tasks.contains_key(id)
                &&& t.kind is HashMatch || t.kind is Disputable
                &&& t.status == TaskStatus::Open
                &&& t.poster != claimant
                &&& t.min_reputation <= done
            }
            &&& e == Some(BoardError::NotFound) <==> !b.tasks.contains_key(id)
            &&& e == Some(BoardError::WrongTaskKind) <==> b.tasks.contains_key(id) && t.kind is Consensus
            &&& e == Some(BoardError::NotOpen) ==> t.status != TaskStatus::Open
            &&& e == Some(BoardError::PosterCannotClaimOwnTask) ==> t.poster == claimant
            &&& e is Some && e->0 is InsufficientReputation ==> done < t.min_reputation && e->0 == (
            BoardError::InsufficientReputation { required: t.min_reputation, have: done })
        }),
{
}

/// A claim holds until its deadline, and changes nothing else.
pub proof fn lemma_claiming(t: TaskView, claimant: PublicKey, deadline: Timestamp)
    ensures
        claimed(t, claimant, deadline).status == TaskStatus::Claimed,
        claimed(t, claimant, deadline).claimant == Some(claimant),
        claimed(t, claimant, deadline).claim_deadline == Some(deadline),
        claimed(t, claimant, deadline) == (TaskView {
            status: TaskStatus::Claimed,
            claimant: claimed(t, claimant, deadline).claimant,
            claim_deadline: claimed(t, claimant, deadline).claim_deadline,
            ..t
        }),
{
}

/// Only the one who claimed a task may answer it, and only while they hold it.
pub proof fn lemma_who_may_submit(b: BoardView, id: Id, submitter: PublicKey, kind_fits: bool)
    ensures
        ({
            let t = b.tasks[id];
            let e = submit_refusal(b, id, submitter, kind_fits);
            &&& e is None <==> {
                &&& b.tasks.contains_key(id)
                &&& kind_fits
                &&& t.status == TaskStatus::Claimed
                &&& t.claimant == Some(submitter)
            }
            &&& e == Some(BoardError::NotFound) <==> !b.tasks.contains_key(id)
            &&& e == Some(BoardError::WrongTaskKind) ==> !kind_fits
            &&& e == Some(BoardError::NotClaimed) ==> t.status != TaskStatus::Claimed
            &&& e == Some(BoardError::NotClaimant) ==> t.claimant != Some(submitter)
        }),
{
}

/// An answer is right exactly if its hash is the one expected. A right one makes
/// the task `Verified` and costs nobody anything. A wrong one puts the task back
/// on offer and costs the submitter a failure.
pub proof fn lemma_hash_decides(b: BoardView, id: Id, submitter: PublicKey, output_hash: Digest)
    requires
        b.wf(),
        b.tasks.contains_key(id),
        b.tasks[id].kind is HashMatch,
        b.tasks[id].failed_attempts < u32::MAX,
        b.reputation_of(submitter).failed < u64::MAX,
    ensures
        ({
            let t = b.tasks[id];
            let right = output_hash == t.kind->expected_output_hash;
            let (r, after) = hash_judged(b, id, submitter, output_hash);
            let z = after.tasks[id];
            let record = after.reputation_of(submitter);
            &&& r == Result::<bool, BoardError>::Ok(right)
            &&& right ==> z == (TaskView { status: TaskStatus::Verified, ..t }) && after.reputation == b.reputation
            &&& !right ==> {
                &&& z.status == TaskStatus::Open
                &&& z.claimant is None
                &&& z.claim_deadline is None
                &&& z.failed_attempts == t.failed_attempts + 1
                &&& z == (TaskView {
                    status: z.status,
                    claimant: None,
                    claim_deadline: None,
                    failed_attempts: z.failed_attempts,
                    ..t
                })
                &&& record.failed == b.reputation_of(submitter).failed + 1
                &&& record.completed == b.reputation_of(submitter).completed
                &&& record.total_earned == b.reputation_of(submitter).total_earned
            }
            &&& forall|other: PublicKey| other != submitter ==> #[trigger] after.reputation_of(other)
                == b.reputation_of(other)
            &&& forall|other: Id| #[trigger] b.tasks.contains_key(other) && other != id ==> after.tasks[other]
                == b.tasks[other]
        }),
{
}

/// An answer to a disputable task is kept as it was given and can be challenged
/// for as many minutes as the task says.
pub proof fn lemma_answer_opens_window(t: TaskView, answer: Seq<char>, now: Timestamp)
    requires
        t.kind is Disputable,
        in_calendar(now.nanos + t.kind->dispute_window_minutes * 60_000_000_000),
    ensures
        ({
            let z = awaiting_dispute(t, answer, now);
            &&& z.status == TaskStatus::AwaitingDispute
            &&& z.kind is Disputable
            &&& z.kind->answer == Some(answer)
            &&& z.kind->dispute_deadline is Some
            &&& z.kind->dispute_deadline->0.nanos == now.nanos + t.kind->dispute_window_minutes * 60_000_000_000
            &&& z.kind->dispute_window_minutes == t.kind->dispute_window_minutes
            &&& z.kind->dispute == t.kind->dispute
            &&& z == (TaskView { status: z.status, kind: z.kind, ..t })
        }),
{
}

/// The sweep for lapsed claims. Afterwards no task is `Claimed` with a deadline
/// that has passed. The tasks listed, each once, are those that were; each of
/// them is open again with neither claimant nor deadline. No other task changes,
/// and nothing but tasks does.
pub proof fn lemma_lapsed_claims_reopen(b: BoardView, now: Timestamp, id: Id)
    requires
        b.wf(),
    ensures
        ({
            let t = b.tasks[id];
            let after = claims_expired(b, now);
            let z = after.tasks[id];
            let late = b.tasks.contains_key(id) && t.status == TaskStatus::Claimed && t.claim_deadline is Some
                && t.claim_deadline->0.nanos < now.nanos;
            &&& after.tasks.contains_key(id) <==> b.tasks.contains_key(id)
            &&& after.tasks.contains_key(id) && z.status == TaskStatus::Claimed && z.claim_deadline is Some ==> now.nanos
                <= z.claim_deadline->0.nanos
            &&& expired_claims(b, now).contains(id) <==> late
            &&& expired_claims(b, now).no_duplicates()
            &&& late ==> z == (TaskView { status: TaskStatus::Open, claimant: None, claim_deadline: None, ..t })
            &&& b.tasks.contains_key(id) && !late ==> z == t
            &&& after == (BoardView { tasks: after.tasks, ..b })
        }),
{
    let g = |row: (Id, TaskView)| if claim_lapsed(row.1, now) { Some(row.1.id) } else { None };
    let rows = rows_of(b.tasks);
    lemma_listed(b.tasks);
    assert forall|i: int| 0 <= i < rows.len() && g(#[trigger] rows[i]) is Some implies g(rows[i])->0 == rows[i].0 by {
        lemma_row_is_mapped(rows, i);
        assert(b.tasks.contains_key(rows[i].0));
    }
    lemma_picked_keys(rows, g, id);
}

/// The sweep for answers that nobody challenged in time makes exactly those
/// `Verified`, lists each of them once, and changes no other task.
pub proof fn lemma_unchallenged_answers_stand(b: BoardView, now: Timestamp, id: Id)
    requires
        b.wf(),
    ensures
        ({
            let t = b.tasks[id];
            let after = windows_closed(b, now);
            let over = b.tasks.contains_key(id) && t.kind is Disputable && t.status == TaskStatus::AwaitingDispute
                && t.kind->dispute is None && t.kind->dispute_deadline->0.nanos < now.nanos;
            &&& after.tasks.contains_key(id) <==> b.tasks.contains_key(id)
            &&& closed_windows(b, now).contains(id) <==> over
            &&& closed_windows(b, now).no_duplicates()
            &&& over ==> after.tasks[id] == (TaskView { status: TaskStatus::Verified, ..t })
            &&& b.tasks.contains_key(id) && !over ==> after.tasks[id] == t
            &&& after == (BoardView { tasks: after.tasks, ..b })
        }),
{
    let g = |row: (Id, TaskView)| if unchallenged(row.1, now) { Some(row.1.id) } else { None };
    let rows = rows_of(b.tasks);
    lemma_listed(b.tasks);
    assert forall|i: int| 0 <= i < rows.len() && g(#[trigger] rows[i]) is Some implies g(rows[i])->0 == rows[i].0 by {
        lemma_row_is_mapped(rows, i);
        assert(b.tasks.contains_key(rows[i].0));
    }
    lemma_picked_keys(rows, g, id);
}

/// Who may challenge an answer: whoever put down the bond in time and in full,
/// and did not give the answer, while the window is open and nobody else has
/// challenged.
pub proof fn lemma_who_may_challenge(b: BoardView, bond: Id, observed: u64, now: Timestamp)
    requires
        b.wf(),
    ensures
        ({
            let d = b.pending_deposits[bond];
            let t = b.tasks[d.purpose->task_id];
            bond_refusal(b, bond, observed, now) is None <==> {
                &&& b.pending_deposits.contains_key(bond)
                &&& d.purpose is DisputeBond
                &&& d.status == EscrowStatus::Reserved
                &&& now.nanos <= d.expires_at.nanos
                &&& d.required_amount <= observed
                &&& b.tasks.contains_key(d.purpose->task_id)
                &&& t.kind is Disputable
                &&& t.status == TaskStatus::AwaitingDispute
                &&& now.nanos <= t.kind->dispute_deadline->0.nanos
                &&& t.kind->dispute is None
                &&& t.claimant != Some(d.depositor)
            }
        }),
{
}

/// A challenge names the one who put down the bond, their reason, the bond and
/// the instant, and awaits a ruling. The answer stays.
pub proof fn lemma_challenging(b: BoardView, bond: Id, now: Timestamp)
    requires
        b.pending_deposits[bond].purpose is DisputeBond,
        b.pending_deposits[bond].id == bond,
        b.tasks[b.pending_deposits[bond].purpose->task_id].kind is Disputable,
    ensures
        ({
            let d = b.pending_deposits[bond];
            let t = b.tasks[d.purpose->task_id];
            let z = challenged(t, d, now);
            let filed = z.kind->dispute->0;
            &&& z.status == TaskStatus::Disputed
            &&& z.kind is Disputable
            &&& z.kind->dispute is Some
            &&& filed.challenger == d.depositor
            &&& filed.reason == d.purpose->reason
            &&& filed.bond_escrow_id == bond
            &&& filed.bond_amount == d.required_amount
            &&& filed.filed_at == now
            &&& filed.resolution is None
            &&& z.kind->answer == t.kind->answer
            &&& z.kind->dispute_deadline == t.kind->dispute_deadline
            &&& z.kind->dispute_window_minutes == t.kind->dispute_window_minutes
            &&& z == (TaskView { status: z.status, kind: z.kind, ..t })
        }),
{
}

/// A ruling goes for the one it names: they are owed the bounty, the other one
/// has a failure more, and nobody else's record changes. There has to be a
/// dispute to rule on.
pub proof fn lemma_ruling(b: BoardView, id: Id, outcome: DisputeResolution, agent: PublicKey)
    requires
        b.wf(),
        forall|q: PublicKey| b.reputation_of(q).failed < u64::MAX,
    ensures
        resolution_refusal(b, id) is None <==> b.tasks.contains_key(id) && b.tasks[id].status == TaskStatus::Disputed,
        resolution_refusal(b, id) == Some(BoardError::NotFound) <==> !b.tasks.contains_key(id),
        resolution_refusal(b, id) is None ==> {
            let t = b.tasks[id];
            let d = t.kind->dispute->0;
            let after = dispute_ruled(b, id, outcome);
            let z = after.tasks[id];
            let winner = if outcome == DisputeResolution::ChallengerWins { d.challenger } else { t.claimant->0 };
            let loser = if outcome == DisputeResolution::ChallengerWins { t.claimant->0 } else { d.challenger };
            let record = after.reputation_of(agent);
            &&& parties(t, outcome) == (winner, loser)
            &&& z.status == TaskStatus::Verified
            &&& z.kind is Disputable
            &&& z.kind->dispute is Some
            &&& z.kind->dispute->0.resolution == Some(outcome)
            &&& z.kind->dispute->0.challenger == d.challenger
            &&& z.kind->dispute->0.bond_escrow_id == d.bond_escrow_id
            &&& z.kind->dispute->0.bond_amount == d.bond_amount
            &&& z.kind->answer == t.kind->answer
            &&& z.claimant == t.claimant
            &&& z.bounty == t.bounty
            &&& z.pending() == seq![(winner, t.bounty)]
            &&& record.failed == b.reputation_of(agent).failed + (if agent == loser { 1int } else { 0 })
            &&& record.completed == b.reputation_of(agent).completed
            &&& record.total_earned == b.reputation_of(agent).total_earned
            &&& forall|other: Id| #[trigger] b.tasks.contains_key(other) && other != id ==> after.tasks[other]
                == b.tasks[other]
        },
{
    assert(b.reputation_of(agent).failed < u64::MAX);
    if resolution_refusal(b, id) is None {
        let t = b.tasks[id];
        assert(t.wf());
        let z = ruled(t, outcome);
        assert(z.allocated() =~= seq![(parties(t, outcome).0, t.bounty)]);
        let p = z.allocated();
        assert(p.drop_last() =~= Seq::empty());
        let f = |x: (PublicKey, u64)| if z.paid_to(x.0) { None } else { Some(x) };
        assert(pick(p.drop_last(), f) =~= Seq::empty());
        assert(z.owed() =~= p);
    }
}

/// A forfeited bond is earned, and completes nothing.
pub proof fn lemma_bond_is_earned(b: BoardView, recipient: PublicKey, amount: u64, agent: PublicKey)
    requires
        b.reputation_of(recipient).total_earned + amount <= u64::MAX,
    ensures
        ({
            let before = b.reputation_of(agent);
            let after = bond_credited(b, recipient, amount).reputation_of(agent);
            &&& after.total_earned == before.total_earned + (if agent == recipient { amount as int } else { 0 })
            &&& after.completed == before.completed
            &&& after.failed == before.failed
        }),
{
}

/// The bonds to be settled are those of decided disputes whose deposit was taken
/// and has not gone anywhere.
pub proof fn lemma_bonds_to_settle(b: BoardView, id: Id)
    requires
        b.wf(),
    ensures
        due_bonds(b).contains(id) <==> {
            let t = b.tasks[id];
            let d = t.kind->dispute->0;
            &&& b.tasks.contains_key(id)
            &&& t.kind is Disputable
            &&& t.kind->dispute is Some
            &&& d.resolution is Some
            &&& b.pending_deposits.contains_key(d.bond_escrow_id)
            &&& b.pending_deposits[d.bond_escrow_id].status == EscrowStatus::Consumed
        },
        due_bonds(b).no_duplicates(),
{
    let g = |row: (Id, TaskView)| if bond_is_due(b, row.1) { Some(row.1.id) } else { None };
    let rows = rows_of(b.tasks);
    lemma_listed(b.tasks);
    assert forall|i: int| 0 <= i < rows.len() && g(#[trigger] rows[i]) is Some implies g(rows[i])->0 == rows[i].0 by {
        lemma_row_is_mapped(rows, i);
        assert(b.tasks.contains_key(rows[i].0));
    }
    lemma_picked_keys(rows, g, id);
}

/// A task can be cancelled while nobody is owed its bounty, nobody disputes it
/// and it is not over; it is then closed by the operator.
pub proof fn lemma_cancelling(b: BoardView, id: Id)
    ensures
        ({
            let s = b.tasks[id].status;
            let e = cancel_refusal(b, id);
            &&& e is None <==> b.tasks.contains_key(id) && (s == TaskStatus::Open || s == TaskStatus::Claimed || s
                == TaskStatus::AwaitingDispute)
            &&& e == Some(BoardError::NotFound) <==> !b.tasks.contains_key(id)
            &&& e == Some(BoardError::CannotCancelWhileDisputed) <==> b.tasks.contains_key(id) && s
                == TaskStatus::Disputed
            &&& closed(b.tasks[id], CloseReason::CancelledByOperator) == (TaskView {
                status: TaskStatus::Closed,
                close_reason: Some(CloseReason::CancelledByOperator),
                ..b.tasks[id]
            })
        }),
{
}

/// Asking for a record, or giving tags, changes that of a task and nothing else.
pub proof fn lemma_what_can_be_set(t: TaskView, min_reputation: u64, tags: Seq<Seq<char>>)
    ensures
        ({
            let (a, b) = (asking_record(t, min_reputation), tagged_with(t, tags));
            &&& a.min_reputation == min_reputation
            &&& a.capabilities == t.capabilities
            &&& b.capabilities == tags
            &&& b.min_reputation == t.min_reputation
            &&& forall|z: TaskView| z == a || z == b ==> #[trigger] same_but_for_terms(z, t)
        }),
{
}

/// Whether two tasks are one in all but the record and the tags they ask for.
pub open spec fn same_but_for_terms(z: TaskView, t: TaskView) -> bool {
    &&& z.id == t.id
    &&& z.poster == t.poster
    &&& z.bounty == t.bounty
    &&& z.description == t.description
    &&& z.status == t.status
    &&& z.kind == t.kind
    &&& z.claimant == t.claimant
    &&& z.claim_deadline == t.claim_deadline
    &&& z.escrow_id == t.escrow_id
    &&& z.created_at == t.created_at
    &&& z.settled_at == t.settled_at
}

/// The assignees of a consensus task are those who joined it; another task has none.
pub proof fn lemma_who_the_assignees_are(t: TaskView, agent: PublicKey)
    ensures
        assignees_of(t).contains(agent) <==> t.kind is Consensus && exists|i: int|
            0 <= i < t.kind->assignees.len() && (#[trigger] t.kind->assignees[i]).0 == agent,
        t.kind is Consensus ==> assignees_of(t).len() == t.kind->assignees.len(),
{
    if t.kind is Consensus {
        let rows = t.kind->assignees;
        let all = assignees_of(t);
        if exists|i: int| 0 <= i < rows.len() && (#[trigger] rows[i]).0 == agent {
            let i = choose|i: int| 0 <= i < rows.len() && (#[trigger] rows[i]).0 == agent;
            assert(all[i] == agent);
        }
        if all.contains(agent) {
            let i = choose|i: int| 0 <= i < all.len() && all[i] == agent;
            assert(rows[i].0 == agent);
        }
    }
}

}
