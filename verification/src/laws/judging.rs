//! What the assignees of a consensus task can rely on.
use crate::board::consensus::{
    all_resolved, answer_refusal, answer_taken, answers_overdue, decided, due_ids, join_refusal, joined, joining_overdue,
    lemma_losers_are_distinct, lemma_with_failures, losers, resolved, share_of, understaffed, understaffed_closed,
    with_answer,
};
use crate::board::tasks::{is_majority, lemma_majority_is_unique, majority, votes};
use crate::board::types::{
    AssignmentView, BoardError, CloseReason, ConsensusAssignment, KindView, TaskStatus, TaskView,
};
use crate::board::BoardView;
use crate::seqs::{lemma_count_of_places, lemma_pick_found, lemma_pick_source, places_of};
use crate::table::{
    as_map, ascending, lemma_listed, lemma_map_sum_insert, lemma_picked_keys, lemma_row_count, lemma_row_is_mapped,
    lemma_rows_of, row_of, rows_of,
};
use crate::types::{in_calendar, Id, PublicKey, Timestamp};
use vstd::prelude::*;

verus! {

/// How many of the assignees gave the answer `a`.
pub open spec fn supporters(rows: Seq<(PublicKey, AssignmentView)>, a: Seq<char>) -> nat {
    Set::new(|i: int| 0 <= i < rows.len() && rows[i].1.answer == Some(a)).len()
}

proof fn lemma_votes_are_supporters(rows: Seq<(PublicKey, AssignmentView)>, a: Seq<char>)
    ensures
        votes(rows, a) == supporters(rows, a),
{
    let f = |row: (PublicKey, AssignmentView)| row.1.answer == Some(a);
    lemma_count_of_places(rows, f);
    assert(places_of(rows, f) =~= Set::new(|i: int| 0 <= i < rows.len() && rows[i].1.answer == Some(a)));
}

/// An answer wins exactly if more than half of all the assignees gave it,
/// whoever has not answered counted among them; and where none wins, half of them
/// or fewer gave each.
pub proof fn lemma_more_than_half_wins(rows: Seq<(PublicKey, AssignmentView)>, a: Seq<char>)
    ensures
        majority(rows) == Some(a) <==> 2 * supporters(rows, a) > rows.len(),
        majority(rows) is None ==> 2 * supporters(rows, a) <= rows.len(),
{
    lemma_votes_are_supporters(rows, a);
    if majority(rows) == Some(a) {
        assert(is_majority(rows, a));
    }
    if 2 * supporters(rows, a) > rows.len() {
        assert(is_majority(rows, a));
        lemma_majority_is_unique(rows, a, a);
    }
}

/// What winning is worth: once more than half of the assignees have given one
/// answer the task is `Verified`, and each of them is owed an equal part of the
/// bounty, rounded down. Nobody else is owed more than before. Nothing else of
/// the task changes.
pub proof fn lemma_winners_share_alike(t: TaskView, a: Seq<char>)
    requires
        t.kind is Consensus,
        2 * supporters(t.kind->assignees, a) > t.kind->assignees.len(),
    ensures
        ({
            let rows = t.kind->assignees;
            let after = decided(t).kind->assignees;
            let n = supporters(rows, a) as int;
            &&& decided(t) == (TaskView { status: TaskStatus::Verified, kind: decided(t).kind, ..t })
            &&& decided(t).kind == (KindView::Consensus {
                num_assignees: t.kind->num_assignees,
                join_deadline: t.kind->join_deadline,
                submission_window_minutes: t.kind->submission_window_minutes,
                submission_deadline: t.kind->submission_deadline,
                assignees: after,
            })
            &&& after.len() == rows.len()
            &&& forall|i: int|
                0 <= i < rows.len() ==> {
                    &&& (#[trigger] after[i]).0 == rows[i].0
                    &&& after[i].1.answer == rows[i].1.answer
                    &&& after[i].1.paid == rows[i].1.paid
                    &&& rows[i].1.answer != Some(a) ==> after[i].1.share == rows[i].1.share
                    &&& rows[i].1.answer == Some(a) ==> after[i].1.share is Some && n * after[i].1.share->0 <= t.bounty
                        < n * (after[i].1.share->0 + 1)
                }
        }),
{
    let rows = t.kind->assignees;
    lemma_more_than_half_wins(rows, a);
    lemma_votes_are_supporters(rows, a);
    let n = votes(rows, a);
    let bounty = t.bounty as int;
    let share = share_of(t.bounty, rows, a) as int;
    assert(0 <= bounty / n <= bounty) by (nonlinear_arith)
        requires
            n > 0,
            bounty >= 0,
    ;
    assert(n * share <= bounty < n * (share + 1)) by (nonlinear_arith)
        requires
            n > 0,
            share == bounty / n,
    ;
}

/// Where no answer has more than half of the assignees behind it the task is
/// closed for that reason, and nobody is owed anything they were not owed.
pub proof fn lemma_no_majority_closes(t: TaskView)
    requires
        t.kind is Consensus,
        forall|a: Seq<char>| 2 * #[trigger] supporters(t.kind->assignees, a) <= t.kind->assignees.len(),
    ensures
        decided(t) == (TaskView {
            status: TaskStatus::Closed,
            close_reason: Some(CloseReason::NoMajority),
            ..t
        }),
{
    if let Some(a) = majority(t.kind->assignees) {
        lemma_more_than_half_wins(t.kind->assignees, a);
    }
}

/// Who is held to have failed when the votes are counted: of the assignees,
/// exactly those who did not give the winning answer, by one failure; where no
/// answer won, nobody. Nobody's completed work or earnings change, and no other
/// task does.
pub proof fn lemma_losers_fail(b: BoardView, id: Id, a: Seq<char>, agent: PublicKey)
    requires
        b.wf(),
        b.tasks.contains_key(id),
        b.tasks[id].kind is Consensus,
        forall|q: PublicKey| b.reputation_of(q).failed < u64::MAX,
    ensures
        ({
            let rows = b.tasks[id].kind->assignees;
            let before = b.reputation_of(agent);
            let after = resolved(b, id).reputation_of(agent);
            let among = as_map(rows).contains_key(agent);
            let lost = among && as_map(rows)[agent].answer != Some(a);
            &&& 2 * supporters(rows, a) > rows.len() ==> after.failed == before.failed + (if lost { 1int } else { 0 })
            &&& (forall|x: Seq<char>| 2 * #[trigger] supporters(rows, x) <= rows.len()) ==> after.failed
                == before.failed
            &&& after.completed == before.completed
            &&& after.total_earned == before.total_earned
            &&& resolved(b, id).tasks == b.tasks.insert(id, decided(b.tasks[id]))
        }),
{
    let rows = b.tasks[id].kind->assignees;
    assert(b.reputation_of(agent).failed < u64::MAX);
    assert(ascending(rows));
    lemma_more_than_half_wins(rows, a);
    if let Some(w) = majority(rows) {
        lemma_more_than_half_wins(rows, w);
        let gone = losers(rows, w);
        lemma_losers_are_distinct(rows, w);
        assert forall|i: int| #![trigger gone[i]] 0 <= i < gone.len() && b.reputation.contains_key(
            gone[i],
        ) implies b.reputation[gone[i]].failed < u64::MAX by {
            assert(b.reputation_of(gone[i]).failed < u64::MAX);
        }
        lemma_with_failures(b.reputation, gone, agent);
        let f = |row: (PublicKey, AssignmentView)| if row.1.answer == Some(w) { None } else { Some(row.0) };
        if gone.contains(agent) {
            let j = choose|j: int| 0 <= j < gone.len() && gone[j] == agent;
            lemma_pick_source(rows, f, j);
            let i = choose|i: int| 0 <= i < rows.len() && f(#[trigger] rows[i]) == Some(gone[j]);
            lemma_row_is_mapped(rows, i);
        }
        if as_map(rows).contains_key(agent) && as_map(rows)[agent].answer != Some(w) {
            let i = row_of(rows, agent);
            lemma_pick_found(rows, f, i);
        }
    }
}

/// Who may join: whoever did not post the task, has completed as much work as it
/// asks for and has not joined yet, while it is open and until its time to join
/// is over.
pub proof fn lemma_who_may_join(b: BoardView, id: Id, agent: PublicKey, now: Timestamp)
    ensures
        ({
            let t = b.tasks[id];
            let e = join_refusal(b, id, agent, now);
            &&& e is None <==> {
                &&& b.tasks.contains_key(id)
                &&& t.kind is Consensus
                &&& t.status == TaskStatus::Open
                &&& now.nanos <= t.kind->join_deadline.nanos
                &&& t.poster != agent
                &&& t.min_reputation <= b.reputation_of(agent).completed
                &&& !as_map(t.kind->assignees).contains_key(agent)
            }
            &&& e == Some(BoardError::NotFound) <==> !b.tasks.contains_key(id)
            &&& e == Some(BoardError::JoinWindowExpired) ==> t.kind->join_deadline.nanos < now.nanos
            &&& e == Some(BoardError::PosterCannotClaimOwnTask) ==> t.poster == agent
            &&& e == Some(BoardError::AlreadyJoined) ==> as_map(t.kind->assignees).contains_key(agent)
            &&& e == Some(BoardError::NotOpen) ==> t.status != TaskStatus::Open
            &&& e == Some(BoardError::WrongTaskKind) ==> !(t.kind is Consensus)
        }),
{
}

/// Joining adds the one who joins, without an answer, and nobody else. The one
/// who makes the number full claims the task for all of them, and from then on
/// the time to answer runs.
pub proof fn lemma_joining(t: TaskView, agent: PublicKey, now: Timestamp)
    requires
        t.wf(),
        t.kind is Consensus,
        t.status == TaskStatus::Open,
        !as_map(t.kind->assignees).contains_key(agent),
        t.kind->assignees.len() < t.kind->num_assignees,
        in_calendar(now.nanos + t.kind->submission_window_minutes * 60_000_000_000),
    ensures
        ({
            let after = joined(t, agent, now);
            let rows = after.kind->assignees;
            let full = rows.len() == t.kind->num_assignees;
            &&& after.kind is Consensus
            &&& rows.len() == t.kind->assignees.len() + 1
            &&& as_map(rows).contains_key(agent)
            &&& as_map(rows)[agent].answer is None
            &&& as_map(rows)[agent].share is None
            &&& !as_map(rows)[agent].paid
            &&& forall|other: PublicKey|
                other != agent ==> (#[trigger] as_map(rows).contains_key(other) <==> as_map(
                    t.kind->assignees,
                ).contains_key(other)) && (as_map(t.kind->assignees).contains_key(other) ==> as_map(rows)[other]
                    == as_map(t.kind->assignees)[other])
            &&& full ==> after.status == TaskStatus::Claimed && after.kind->submission_deadline == Some(
                Timestamp { nanos: (now.nanos + t.kind->submission_window_minutes * 60_000_000_000) as i128 },
            )
            &&& !full ==> after.status == TaskStatus::Open && after.kind->submission_deadline
                == t.kind->submission_deadline
            &&& after == (TaskView { status: after.status, kind: after.kind, ..t })
            &&& after.kind->join_deadline == t.kind->join_deadline
            &&& after.kind->num_assignees == t.kind->num_assignees
        }),
{
    let rows = t.kind->assignees;
    let m = as_map(rows).insert(agent, ConsensusAssignment::fresh());
    lemma_rows_of(rows);
    lemma_map_sum_insert(
        as_map(rows),
        agent,
        ConsensusAssignment::fresh(),
        |k: PublicKey, a: AssignmentView| 0int,
    );
    lemma_listed(m);
    lemma_row_count(rows);
    lemma_row_count(rows_of(m));
    assert(m.dom() =~= as_map(rows).dom().insert(agent));
}

/// Who may answer: whoever has joined and not answered yet, from the moment the
/// number was full until the time to answer is over.
pub proof fn lemma_who_may_answer(b: BoardView, id: Id, agent: PublicKey, now: Timestamp)
    requires
        b.wf(),
    ensures
        ({
            let t = b.tasks[id];
            let rows = t.kind->assignees;
            let e = answer_refusal(b, id, agent, now);
            &&& e is None <==> {
                &&& b.tasks.contains_key(id)
                &&& t.kind is Consensus
                &&& t.status == TaskStatus::Claimed
                &&& now.nanos <= t.kind->submission_deadline->0.nanos
                &&& as_map(rows).contains_key(agent)
                &&& as_map(rows)[agent].answer is None
            }
            &&& e == Some(BoardError::NotFound) <==> !b.tasks.contains_key(id)
            &&& e == Some(BoardError::NotClaimant) ==> !as_map(rows).contains_key(agent)
            &&& e == Some(BoardError::AlreadySubmitted) ==> as_map(rows)[agent].answer is Some
            &&& e == Some(BoardError::SubmissionWindowExpired) ==> t.kind->submission_deadline->0.nanos < now.nanos
            &&& e == Some(BoardError::NotClaimed) ==> t.status != TaskStatus::Claimed
        }),
{
}

/// An answer is the one who gave it's alone, and the votes are counted with the
/// answer that makes them complete and not before.
pub proof fn lemma_answering(b: BoardView, id: Id, agent: PublicKey, answer: Seq<char>)
    requires
        b.wf(),
        b.tasks.contains_key(id),
        b.tasks[id].kind is Consensus,
        as_map(b.tasks[id].kind->assignees).contains_key(agent),
    ensures
        ({
            let t = b.tasks[id];
            let given = with_answer(t, agent, answer);
            let rows = given.kind->assignees;
            let before = as_map(t.kind->assignees);
            let (after, done) = answer_taken(b, id, agent, answer);
            &&& as_map(rows).dom() == before.dom()
            &&& as_map(rows)[agent] == (AssignmentView { answer: Some(answer), ..before[agent] })
            &&& forall|other: PublicKey| #[trigger] before.contains_key(other) && other != agent ==> as_map(rows)[other]
                == before[other]
            &&& given == (TaskView { kind: given.kind, ..t })
            &&& given.kind == (KindView::Consensus {
                num_assignees: t.kind->num_assignees,
                join_deadline: t.kind->join_deadline,
                submission_window_minutes: t.kind->submission_window_minutes,
                submission_deadline: t.kind->submission_deadline,
                assignees: rows,
            })
            &&& done <==> forall|other: PublicKey| #[trigger] before.contains_key(other) && other != agent
                ==> before[other].answer is Some
            &&& done ==> after == resolved(b.with_task(given), id)
            &&& !done ==> after == (BoardView { tasks: b.tasks.insert(id, given), ..b })
        }),
{
    let t = b.tasks[id];
    let old = t.kind->assignees;
    let before = as_map(old);
    let m = before.insert(agent, AssignmentView { answer: Some(answer), ..before[agent] });
    assert(ascending(old));
    lemma_rows_of(old);
    lemma_map_sum_insert(
        before,
        agent,
        AssignmentView { answer: Some(answer), ..before[agent] },
        |k: PublicKey, a: AssignmentView| 0int,
    );
    lemma_listed(m);
    let rows = rows_of(m);
    assert(m.dom() =~= before.dom());
    if forall|other: PublicKey| #[trigger] before.contains_key(other) && other != agent ==> before[other].answer is Some {
        assert forall|i: int| 0 <= i < rows.len() implies (#[trigger] rows[i]).1.answer is Some by {
            lemma_row_is_mapped(rows, i);
            assert(before.contains_key(rows[i].0));
        }
    } else {
        let other = choose|other: PublicKey| #[trigger] before.contains_key(other) && other != agent
            && before[other].answer is None;
        let i = row_of(rows, other);
        assert(m.contains_key(other));
        lemma_row_is_mapped(rows, i);
        assert(rows[i].1.answer is None);
    }
}

/// The sweep for overdue answers lists a task, once, exactly if its number was
/// full and its time to answer is over.
pub proof fn lemma_overdue_votes_are_counted(b: BoardView, now: Timestamp, id: Id)
    requires
        b.wf(),
    ensures
        due_ids(rows_of(b.tasks), now).contains(id) <==> {
            &&& b.tasks.contains_key(id)
            &&& b.tasks[id].kind is Consensus
            &&& b.tasks[id].status == TaskStatus::Claimed
            &&& b.tasks[id].kind->submission_deadline->0.nanos < now.nanos
        },
        due_ids(rows_of(b.tasks), now).no_duplicates(),
{
    let g = |row: (Id, TaskView)| if answers_overdue(row.1, now) { Some(row.1.id) } else { None };
    let rows = rows_of(b.tasks);
    lemma_listed(b.tasks);
    assert forall|i: int| 0 <= i < rows.len() && g(#[trigger] rows[i]) is Some implies g(rows[i])->0 == rows[i].0 by {
        lemma_row_is_mapped(rows, i);
        assert(b.tasks.contains_key(rows[i].0));
    }
    lemma_picked_keys(rows, g, id);
}

/// Every task on the sweep's list is decided as it would be by itself, whatever
/// else is on the list; and no other task changes.
pub proof fn lemma_sweep_decides_each(b: BoardView, ids: Seq<Id>, id: Id)
    requires
        b.wf(),
        ids.no_duplicates(),
    ensures
        ({
            let after = all_resolved(b, ids);
            &&& after.tasks.contains_key(id) <==> b.tasks.contains_key(id)
            &&& ids.contains(id) ==> after.tasks[id] == resolved(b, id).tasks[id]
            &&& !ids.contains(id) ==> after.tasks[id] == b.tasks[id]
            &&& after.orders == b.orders
            &&& after.exchange_accounts == b.exchange_accounts
            &&& after.pending_deposits == b.pending_deposits
            &&& after.payments == b.payments
        }),
    decreases ids.len(),
{
    if ids.len() > 0 {
        let fewer = ids.drop_last();
        let last = ids.last();
        let before = all_resolved(b, fewer);
        assert forall|i: int, j: int| 0 <= i < j < fewer.len() implies fewer[i] != fewer[j] by {
            assert(ids[i] != ids[j]);
        }
        lemma_sweep_decides_each(b, fewer, id);
        lemma_sweep_decides_each(b, fewer, last);
        if fewer.contains(last) {
            let i = choose|i: int| 0 <= i < fewer.len() && fewer[i] == last;
            assert(ids[i] != ids[ids.len() - 1]);
        }
        assert(before.tasks[last] == b.tasks[last]);
        if b.tasks.contains_key(last) {
            assert(b.tasks[last].id == last);
        }
        if ids.contains(id) && id != last {
            let i = choose|i: int| 0 <= i < ids.len() && ids[i] == id;
            assert(fewer[i] == id);
        }
        if fewer.contains(id) {
            let i = choose|i: int| 0 <= i < fewer.len() && fewer[i] == id;
            assert(ids[i] == id);
        }
        assert(ids[ids.len() - 1] == last);
        assert(after_is_plain(before, last));
    }
}

/// Deciding one task leaves alone what is neither a task nor a record.
spec fn after_is_plain(b: BoardView, id: Id) -> bool {
    let after = resolved(b, id);
    after.orders == b.orders && after.exchange_accounts == b.exchange_accounts && after.pending_deposits
        == b.pending_deposits && after.payments == b.payments
}

/// The sweep for understaffed tasks closes, for that reason, exactly those still
/// open after their time to join, lists each of them, and changes no other.
pub proof fn lemma_understaffed_are_closed(b: BoardView, now: Timestamp, id: Id)
    requires
        b.wf(),
    ensures
        ({
            let t = b.tasks[id];
            let late = b.tasks.contains_key(id) && t.kind is Consensus && t.status == TaskStatus::Open
                && t.kind->join_deadline.nanos < now.nanos;
            let after = understaffed_closed(b, now);
            &&& understaffed(b, now).contains(id) <==> late
            &&& understaffed(b, now).no_duplicates()
            &&& after.tasks.contains_key(id) <==> b.tasks.contains_key(id)
            &&& late ==> after.tasks[id] == (TaskView {
                status: TaskStatus::Closed,
                close_reason: Some(CloseReason::Understaffed),
                ..t
            })
            &&& b.tasks.contains_key(id) && !late ==> after.tasks[id] == t
            &&& after == (BoardView { tasks: after.tasks, ..b })
        }),
{
    let g = |row: (Id, TaskView)| if joining_overdue(row.1, now) { Some(row.1.id) } else { None };
    let rows = rows_of(b.tasks);
    lemma_listed(b.tasks);
    assert forall|i: int| 0 <= i < rows.len() && g(#[trigger] rows[i]) is Some implies g(rows[i])->0 == rows[i].0 by {
        lemma_row_is_mapped(rows, i);
        assert(b.tasks.contains_key(rows[i].0));
    }
    lemma_picked_keys(rows, g, id);
}

}
