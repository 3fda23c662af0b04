//! What the hub promises for a task: never more than its bounty.
use crate::board::consensus::{awarded, decided, joined, share_of, with_answer};
use crate::board::payouts::{marked, paid_before, paid_off};
use crate::board::queries::operator_share;
use crate::board::tasks::{majority, sum_of, votes};
use crate::board::types::{
    share_amount, AssignmentView, BoardError, ConsensusAssignment, KindView, TaskStatus, TaskView,
};
use crate::board::BoardView;
use crate::seqs::{lemma_total_not_negative, pick, total};
use crate::table::{
    as_map, ascending, changed_rows, lemma_changed_rows, lemma_map_sum_insert, lemma_row_is_mapped, lemma_rows_of,
    lemma_update_row, map_sum, row_of, rows_of,
};
use crate::types::{Id, PublicKey, Timestamp};
use vstd::prelude::*;

verus! {

/// What a row of assignees has been promised.
pub open spec fn row_amount() -> spec_fn((PublicKey, AssignmentView)) -> int {
    |row: (PublicKey, AssignmentView)| share_amount()(row.0, row.1)
}

/// What the assignees have been promised is the sum over their rows.
pub proof fn lemma_rows_promised(assignees: Seq<(PublicKey, AssignmentView)>)
    requires
        ascending(assignees),
    ensures
        map_sum(as_map(assignees), share_amount()) == total(assignees, row_amount()),
{
    lemma_rows_of(assignees);
}

/// A task with `agent`'s row changed to `a`, or added, stays within its
/// bounty where the row promises what it did before.
proof fn lemma_row_set(assignees: Seq<(PublicKey, AssignmentView)>, agent: PublicKey, a: AssignmentView)
    requires
        ascending(assignees),
        as_map(assignees).contains_key(agent) ==> a.share == as_map(assignees)[agent].share,
        !as_map(assignees).contains_key(agent) ==> a.share is None,
    ensures
        ascending(rows_of(as_map(assignees).insert(agent, a))),
        as_map(rows_of(as_map(assignees).insert(agent, a))) == as_map(assignees).insert(agent, a),
        map_sum(as_map(assignees).insert(agent, a), share_amount()) == map_sum(as_map(assignees), share_amount()),
{
    lemma_map_sum_insert(as_map(assignees), agent, a, share_amount());
}

/// A task nobody has joined promises nothing.
pub proof fn lemma_nobody_is_promised()
    ensures
        map_sum(as_map(Seq::<(PublicKey, AssignmentView)>::empty()), share_amount()) == 0,
        ascending(Seq::<(PublicKey, AssignmentView)>::empty()),
{
    lemma_rows_promised(Seq::<(PublicKey, AssignmentView)>::empty());
}

/// Joining promises nothing.
pub proof fn lemma_joined_wf(t: TaskView, agent: PublicKey, now: Timestamp)
    requires
        t.wf(),
        t.kind is Consensus,
        t.status == TaskStatus::Open,
        !as_map(t.kind->assignees).contains_key(agent),
    ensures
        joined(t, agent, now).wf(),
{
    lemma_row_set(t.kind->assignees, agent, ConsensusAssignment::fresh());
}

/// Answering promises nothing.
pub proof fn lemma_with_answer_wf(t: TaskView, agent: PublicKey, answer: Seq<char>)
    requires
        t.wf(),
        t.kind is Consensus,
        as_map(t.kind->assignees).contains_key(agent),
    ensures
        with_answer(t, agent, answer).wf(),
{
    let assignees = t.kind->assignees;
    lemma_row_set(assignees, agent, AssignmentView { answer: Some(answer), ..as_map(assignees)[agent] });
}

/// Paying promises nothing.
pub proof fn lemma_paid_off_wf(t: TaskView, recipient: PublicKey, now: Timestamp)
    requires
        t.wf(),
        t.status == TaskStatus::Verified || t.status == TaskStatus::Submitted,
        t.kind is Consensus ==> as_map(t.kind->assignees).contains_key(recipient),
    ensures
        paid_off(t, recipient, now).wf(),
{
    if t.kind is Consensus {
        let assignees = t.kind->assignees;
        lemma_row_set(assignees, recipient, AssignmentView { paid: true, ..as_map(assignees)[recipient] });
    }
}

proof fn lemma_awarded_total(assignees: Seq<(PublicKey, AssignmentView)>, a: Seq<char>, share: u64)
    requires
        forall|i: int| 0 <= i < assignees.len() ==> (#[trigger] assignees[i]).1.share is None,
    ensures
        total(changed_rows(assignees, |row: AssignmentView| awarded(row, a, share)), row_amount()) == votes(
            assignees,
            a,
        ) * share,
    decreases assignees.len(),
{
    let f = |row: AssignmentView| awarded(row, a, share);
    let changed = changed_rows(assignees, f);
    if assignees.len() > 0 {
        let shorter = assignees.drop_last();
        assert forall|i: int| 0 <= i < shorter.len() implies (#[trigger] shorter[i]).1.share is None by {
            assert(shorter[i] == assignees[i]);
        }
        lemma_awarded_total(shorter, a, share);
        assert(changed.drop_last() =~= changed_rows(shorter, f));
        let last = assignees.last();
        assert(assignees[assignees.len() - 1].1.share is None);
        assert(changed.last() == (last.0, f(last.1)));
        let fewer = votes(shorter, a);
        assert((fewer + 1) * share == fewer * share + share) by (nonlinear_arith);
    }
}

/// Once the votes are counted, the shares together are at most the bounty:
/// as many equal parts as there are winners.
pub proof fn lemma_decided_wf(t: TaskView)
    requires
        t.wf(),
        t.kind is Consensus,
        t.kind.promises_nothing(),
    ensures
        decided(t).wf(),
        majority(t.kind->assignees) is Some ==> decided(t).kind.promised() == votes(
            t.kind->assignees,
            majority(t.kind->assignees)->0,
        ) * share_of(t.bounty, t.kind->assignees, majority(t.kind->assignees)->0),
{
    let assignees = t.kind->assignees;
    if let Some(a) = majority(assignees) {
        let n = votes(assignees, a);
        let share = share_of(t.bounty, assignees, a);
        let f = |row: AssignmentView| awarded(row, a, share);
        assert forall|i: int| 0 <= i < assignees.len() implies (#[trigger] assignees[i]).1.share is None by {
            lemma_row_is_mapped(assignees, i);
        }
        lemma_awarded_total(assignees, a, share);
        lemma_changed_rows(assignees, f);
        lemma_rows_promised(changed_rows(assignees, f));
        assert(n > 0);
        assert(0 <= t.bounty as int / n <= t.bounty) by (nonlinear_arith)
            requires
                n > 0,
                0 <= t.bounty,
        ;
        assert(n * (t.bounty as int / n) <= t.bounty) by (nonlinear_arith)
            requires
                n > 0,
                0 <= t.bounty,
        ;
    }
}

/// No more than the bounty is ever allocated, whatever has been paid of it.
pub proof fn lemma_allocated_within_bounty(t: TaskView)
    requires
        t.wf(),
    ensures
        0 <= sum_of(t.allocated()) <= t.bounty,
{
    let each = |p: (PublicKey, u64)| p.1 as int;
    lemma_total_not_negative(t.allocated(), each);
    match t.kind {
        KindView::Consensus { assignees, .. } => {
            lemma_rows_promised(assignees);
            lemma_allocated_rows(assignees);
        },
        _ => {
            if let Some(w) = t.winner() {
                let one = seq![(w, t.bounty)];
                assert(t.allocated() =~= one);
                assert(one.drop_last() =~= Seq::empty());
                assert(one.last() == (w, t.bounty));
                assert(total(one.drop_last(), each) == 0);
                assert(total(one, each) == t.bounty);
            } else {
                assert(t.allocated() =~= Seq::empty());
            }
        },
    }
}

proof fn lemma_allocated_rows(assignees: Seq<(PublicKey, AssignmentView)>)
    ensures
        sum_of(
            pick(
                assignees,
                |row: (PublicKey, AssignmentView)|
                    match row.1.share {
                        Some(share) => Some((row.0, share)),
                        None => None,
                    },
            ),
        ) == total(assignees, row_amount()),
    decreases assignees.len(),
{
    let f = |row: (PublicKey, AssignmentView)|
        match row.1.share {
            Some(share) => Some((row.0, share)),
            None => None,
        };
    if assignees.len() > 0 {
        let shorter = assignees.drop_last();
        lemma_allocated_rows(shorter);
        let before = pick(shorter, f);
        match f(assignees.last()) {
            Some(p) => {
                assert(pick(assignees, f) == before.push(p));
                assert(before.push(p).drop_last() =~= before);
            },
            None => {},
        }
    }
}

/// What is paid and what is owed are what is allocated, and nothing is both.
pub proof fn lemma_paid_and_owed(t: TaskView)
    ensures
        sum_of(t.paid_out()) + sum_of(t.owed()) == sum_of(t.allocated()),
        t.paid_out().len() + t.owed().len() == t.allocated().len(),
        0 <= sum_of(t.paid_out()),
        0 <= sum_of(t.owed()),
{
    let each = |p: (PublicKey, u64)| p.1 as int;
    lemma_total_not_negative(t.paid_out(), each);
    lemma_total_not_negative(t.owed(), each);
    lemma_split_sum(t, t.allocated());
}

proof fn lemma_split_sum(t: TaskView, payouts: Seq<(PublicKey, u64)>)
    ensures
        ({
            let paid = pick(payouts, |p: (PublicKey, u64)| if t.paid_to(p.0) { Some(p) } else { None });
            let owed = pick(payouts, |p: (PublicKey, u64)| if t.paid_to(p.0) { None } else { Some(p) });
            sum_of(paid) + sum_of(owed) == sum_of(payouts) && paid.len() + owed.len() == payouts.len()
        }),
    decreases payouts.len(),
{
    let f = |p: (PublicKey, u64)| if t.paid_to(p.0) { Some(p) } else { None };
    let g = |p: (PublicKey, u64)| if t.paid_to(p.0) { None } else { Some(p) };
    if payouts.len() > 0 {
        let shorter = payouts.drop_last();
        lemma_split_sum(t, shorter);
        let last = payouts.last();
        if t.paid_to(last.0) {
            assert(pick(payouts, f) == pick(shorter, f).push(last));
            assert(pick(shorter, f).push(last).drop_last() =~= pick(shorter, f));
        } else {
            assert(pick(payouts, g) == pick(shorter, g).push(last));
            assert(pick(shorter, g).push(last).drop_last() =~= pick(shorter, g));
        }
    }
}

/// A task that nobody has won yet, or that was closed, has allocated nothing:
/// nothing is owed for it and nothing was paid. Of a consensus task that is so
/// while it is open or claimed, and the votes are not counted.
pub proof fn lemma_unwon_allocates_nothing(t: TaskView)
    requires
        t.wf(),
        !t.is_won(),
        t.kind is Consensus ==> t.status == TaskStatus::Open || t.status == TaskStatus::Claimed,
    ensures
        t.allocated() == Seq::<(PublicKey, u64)>::empty(),
        t.owed() == Seq::<(PublicKey, u64)>::empty(),
        t.paid_out() == Seq::<(PublicKey, u64)>::empty(),
{
    if t.kind is Consensus {
        let assignees = t.kind->assignees;
        assert forall|i: int| 0 <= i < assignees.len() implies (#[trigger] assignees[i]).1.share is None by {
            lemma_row_is_mapped(assignees, i);
        }
        lemma_nobody_has_a_share(assignees);
    }
}

/// Where no row has a share, nothing is picked.
proof fn lemma_nobody_has_a_share(assignees: Seq<(PublicKey, AssignmentView)>)
    requires
        forall|i: int| 0 <= i < assignees.len() ==> (#[trigger] assignees[i]).1.share is None,
    ensures
        pick(
            assignees,
            |row: (PublicKey, AssignmentView)|
                match row.1.share {
                    Some(share) => Some((row.0, share)),
                    None => None,
                },
        ) == Seq::<(PublicKey, u64)>::empty(),
    decreases assignees.len(),
{
    if assignees.len() > 0 {
        let shorter = assignees.drop_last();
        assert forall|i: int| 0 <= i < shorter.len() implies (#[trigger] shorter[i]).1.share is None by {
            assert(shorter[i] == assignees[i]);
        }
        lemma_nobody_has_a_share(shorter);
        assert(assignees[assignees.len() - 1].1.share is None);
    }
}

/// A winner's share is settled when the votes are counted: paying one winner
/// changes nobody's share, and what is owed from then on is what was owed to the
/// others.
pub proof fn lemma_shares_stay_fixed(t: TaskView, recipient: PublicKey, now: Timestamp)
    requires
        t.wf(),
        t.kind is Consensus,
        as_map(t.kind->assignees).contains_key(recipient),
    ensures
        paid_off(t, recipient, now).allocated() == t.allocated(),
        paid_off(t, recipient, now).owed() == pick(
            t.owed(),
            |p: (PublicKey, u64)|
                if p.0 == recipient {
                    None
                } else {
                    Some(p)
                },
        ),
{
    let rows = t.kind->assignees;
    let after = paid_off(t, recipient, now);
    let paid = after.kind->assignees;
    let row = AssignmentView { paid: true, ..as_map(rows)[recipient] };
    lemma_row_set(rows, recipient, row);
    let at = row_of(rows, recipient);
    lemma_row_is_mapped(rows, at);
    lemma_update_row(rows, at, row);
    lemma_rows_of(rows.update(at, (recipient, row)));
    let share = |row: (PublicKey, AssignmentView)|
        match row.1.share {
            Some(share) => Some((row.0, share)),
            None => None,
        };
    assert(paid == rows.update(at, (recipient, row)));
    lemma_pick_agrees(rows, paid, share);
    assert forall|k: PublicKey| #[trigger] after.paid_to(k) == (t.paid_to(k) || k == recipient) by {
    }
    lemma_pick_twice(t, after, recipient, t.allocated());
}

/// Lists that `f` cannot tell apart are picked from alike.
proof fn lemma_pick_agrees<A, B>(a: Seq<A>, b: Seq<A>, f: spec_fn(A) -> Option<B>)
    requires
        a.len() == b.len(),
        forall|i: int| 0 <= i < a.len() ==> f(#[trigger] a[i]) == f(b[i]),
    ensures
        pick(a, f) == pick(b, f),
    decreases a.len(),
{
    if a.len() > 0 {
        let x = a.drop_last();
        let y = b.drop_last();
        assert forall|i: int| 0 <= i < x.len() implies f(#[trigger] x[i]) == f(y[i]) by {
            assert(x[i] == a[i]);
        }
        lemma_pick_agrees(x, y, f);
        assert(f(a[a.len() - 1]) == f(b[a.len() - 1]));
    }
}

/// What is left of `payouts` once `recipient` is paid too.
proof fn lemma_pick_twice(before: TaskView, after: TaskView, recipient: PublicKey, payouts: Seq<(PublicKey, u64)>)
    requires
        forall|k: PublicKey| #[trigger] after.paid_to(k) == (before.paid_to(k) || k == recipient),
    ensures
        pick(payouts, |p: (PublicKey, u64)| if after.paid_to(p.0) { None } else { Some(p) }) == pick(
            pick(payouts, |p: (PublicKey, u64)| if before.paid_to(p.0) { None } else { Some(p) }),
            |p: (PublicKey, u64)|
                if p.0 == recipient {
                    None
                } else {
                    Some(p)
                },
        ),
    decreases payouts.len(),
{
    let f = |p: (PublicKey, u64)| if after.paid_to(p.0) { None } else { Some(p) };
    let g = |p: (PublicKey, u64)| if before.paid_to(p.0) { None } else { Some(p) };
    let h = |p: (PublicKey, u64)| if p.0 == recipient { None } else { Some(p) };
    if payouts.len() > 0 {
        let shorter = payouts.drop_last();
        let last = payouts.last();
        lemma_pick_twice(before, after, recipient, shorter);
        assert(after.paid_to(last.0) == (before.paid_to(last.0) || last.0 == recipient));
        if !before.paid_to(last.0) {
            let rest = pick(shorter, g);
            assert(pick(payouts, g) == rest.push(last));
            assert(rest.push(last).drop_last() =~= rest);
            assert(pick(rest.push(last), h) == match h(last) {
                Some(p) => pick(rest, h).push(p),
                None => pick(rest, h),
            });
        }
    }
}

/// A payout that is given up stays owed: a task that is abandoned owes what it
/// owed, has paid what it had paid, and still counts against whoever funds it;
/// but nothing more is sent for it.
pub proof fn lemma_abandoned_is_still_owed(t: TaskView)
    requires
        t.awaits_payout(),
    ensures
        ({
            let after = TaskView { status: TaskStatus::PayoutFailed, ..t };
            &&& after.owed() == t.owed()
            &&& after.paid_out() == t.paid_out()
            &&& after.pending() == Seq::<(PublicKey, u64)>::empty()
            &&& operator_share()(t.id, after) == operator_share()(t.id, t)
        }),
{
    let after = TaskView { status: TaskStatus::PayoutFailed, ..t };
    let f = |p: (PublicKey, u64)| if t.paid_to(p.0) { None } else { Some(p) };
    let g = |p: (PublicKey, u64)| if after.paid_to(p.0) { None } else { Some(p) };
    let x = |p: (PublicKey, u64)| if t.paid_to(p.0) { Some(p) } else { None };
    let y = |p: (PublicKey, u64)| if after.paid_to(p.0) { Some(p) } else { None };
    assert(f =~= g);
    assert(x =~= y);
    assert(after.allocated() == t.allocated());
}

/// A payment is recorded once: recorded again, whenever and over whatever
/// amount, it is told to be recorded already, or that the task is paid, and
/// nothing changes.
pub proof fn lemma_paid_once(
    b: BoardView,
    id: Id,
    recipient: PublicKey,
    amount: u64,
    now: Timestamp,
    again: u64,
    later: Timestamp,
)
    requires
        b.wf(),
        marked(b, id, recipient, amount, now).0 is Ok,
    ensures
        ({
            let after = marked(b, id, recipient, amount, now).1;
            let second = marked(after, id, recipient, again, later);
            &&& second.1 == after
            &&& second.0 == Result::<bool, BoardError>::Ok(false) || second.0 == Result::<bool, BoardError>::Err(
                BoardError::NotVerified,
            )
        }),
{
    let t = b.tasks[id];
    if !paid_before(t, recipient) && t.kind is Consensus {
        let assignees = t.kind->assignees;
        lemma_row_set(assignees, recipient, AssignmentView { paid: true, ..as_map(assignees)[recipient] });
    }
}

}
