//! A task's own questions: who is owed what, and who has been paid.
use crate::board::promises::{lemma_allocated_within_bounty, lemma_paid_and_owed};
use crate::board::types::{
    AssignmentView, ConsensusAssignment, DisputeResolution, KindView, Task, TaskKind, TaskStatus, TaskView,
};
use crate::seqs::{count, lemma_pick_step, lemma_total_prefix, lemma_total_step, pick, total};
use crate::table::{as_map, Table};
use crate::types::PublicKey;
use vstd::prelude::*;

verus! {

impl TaskView {
    /// Whether there may be a payout left to make.
    pub open spec fn awaits_payout(self) -> bool {
        self.status == TaskStatus::Verified || self.status == TaskStatus::Submitted
    }

    /// Whether it is settled who has earned the bounty, be it sent or not.
    pub open spec fn is_won(self) -> bool {
        self.awaits_payout() || self.status == TaskStatus::PayoutFailed || self.status == TaskStatus::Paid
    }

    /// Who has earned the bounty of a single-winner task: nobody until that is
    /// settled, or once the task is closed.
    pub open spec fn winner(self) -> Option<PublicKey> {
        if !self.is_won() {
            None
        } else {
            match self.kind {
                KindView::Disputable { dispute: Some(d), .. } => match d.resolution {
                    None => None,
                    Some(DisputeResolution::ChallengerWins) => Some(d.challenger),
                    Some(DisputeResolution::AssigneeWins) => self.claimant,
                },
                _ => self.claimant,
            }
        }
    }

    /// Every payout the task will ever make, none before there is a winner: the
    /// whole bounty to the winner, or each winning assignee's share.
    pub open spec fn allocated(self) -> Seq<(PublicKey, u64)> {
        match self.kind {
            KindView::Consensus { assignees, .. } => pick(
                assignees,
                |row: (PublicKey, AssignmentView)|
                    match row.1.share {
                        Some(share) => Some((row.0, share)),
                        None => None,
                    },
            ),
            _ => match self.winner() {
                Some(w) => seq![(w, self.bounty)],
                None => Seq::empty(),
            },
        }
    }

    /// Who a disputable task's bounty is for, an undecided dispute counted as
    /// none.
    pub open spec fn bounty_recipient(self) -> Option<PublicKey> {
        match self.kind {
            KindView::Disputable { dispute: Some(d), .. } => match d.resolution {
                Some(DisputeResolution::ChallengerWins) => Some(d.challenger),
                _ => self.claimant,
            },
            _ => self.claimant,
        }
    }

    /// Whether `recipient` has had their part of the task.
    pub open spec fn paid_to(self, recipient: PublicKey) -> bool {
        match self.kind {
            KindView::Consensus { assignees, .. } => as_map(assignees).contains_key(recipient) && as_map(
                assignees,
            )[recipient].paid,
            _ => self.status == TaskStatus::Paid && self.bounty_recipient() == Some(recipient),
        }
    }

    /// The payouts that have not been confirmed.
    pub open spec fn owed(self) -> Seq<(PublicKey, u64)> {
        pick(
            self.allocated(),
            |p: (PublicKey, u64)|
                if self.paid_to(p.0) {
                    None
                } else {
                    Some(p)
                },
        )
    }

    /// The payouts that have been confirmed.
    pub open spec fn paid_out(self) -> Seq<(PublicKey, u64)> {
        pick(
            self.allocated(),
            |p: (PublicKey, u64)|
                if self.paid_to(p.0) {
                    Some(p)
                } else {
                    None
                },
        )
    }

    /// The payouts still to be made while the task awaits them.
    pub open spec fn pending(self) -> Seq<(PublicKey, u64)> {
        if self.awaits_payout() {
            self.owed()
        } else {
            Seq::empty()
        }
    }
}

/// Whoever joined a consensus task, in ascending order; nobody, of another task.
pub open spec fn assignees_of(t: TaskView) -> Seq<PublicKey> {
    match t.kind {
        KindView::Consensus { assignees, .. } => assignees.map_values(|row: (PublicKey, AssignmentView)| row.0),
        _ => Seq::empty(),
    }
}

/// The sum of a list of payouts.
pub open spec fn sum_of(payouts: Seq<(PublicKey, u64)>) -> int {
    total(payouts, |p: (PublicKey, u64)| p.1 as int)
}

/// Adds up a list of payouts.
fn sum_payouts(payouts: &Vec<(PublicKey, u64)>) -> (sum: u64)
    requires
        sum_of(payouts@) <= u64::MAX,
    ensures
        sum == sum_of(payouts@),
{
    let ghost f = |p: (PublicKey, u64)| p.1 as int;
    let mut sum: u64 = 0;
    let mut i: usize = 0;
    while i < payouts.len()
        invariant
            i <= payouts.len(),
            f == (|p: (PublicKey, u64)| p.1 as int),
            sum_of(payouts@) <= u64::MAX,
            sum == total(payouts@.take(i as int), f),
        decreases payouts.len() - i,
    {
        proof {
            lemma_total_step(payouts@, f, i as int);
            lemma_total_prefix(payouts@, f, i + 1);
        }
        sum = sum + payouts[i].1;
        i += 1;
    }
    assert(payouts@.take(i as int) =~= payouts@);
    sum
}

impl Task {
    /// Every payout still owed, while the task is `Verified` or `Submitted`.
    pub fn pending_payouts(&self) -> (payouts: Vec<(PublicKey, u64)>)
        requires
            self.wf(),
        ensures
            payouts@ == self@.pending(),
    {
        if self.status != TaskStatus::Verified && self.status != TaskStatus::Submitted {
            return Vec::new();
        }
        self.owed_payouts()
    }

    /// Every payout that is earned and not confirmed, also where the hub has
    /// given up sending it.
    pub fn owed_payouts(&self) -> (payouts: Vec<(PublicKey, u64)>)
        requires
            self.wf(),
        ensures
            payouts@ == self@.owed(),
    {
        self.split_payouts(false)
    }

    /// Every payout that is confirmed.
    pub fn paid_payouts(&self) -> (payouts: Vec<(PublicKey, u64)>)
        requires
            self.wf(),
        ensures
            payouts@ == self@.paid_out(),
    {
        self.split_payouts(true)
    }

    /// The payouts that are confirmed, or those that are not.
    fn split_payouts(&self, paid: bool) -> (payouts: Vec<(PublicKey, u64)>)
        requires
            self.wf(),
        ensures
            payouts@ == if paid { self@.paid_out() } else { self@.owed() },
    {
        let all = self.allocated_payouts();
        let ghost keep = |p: (PublicKey, u64)| if self@.paid_to(p.0) == paid { Some(p) } else { None };
        let mut payouts: Vec<(PublicKey, u64)> = Vec::new();
        let mut i: usize = 0;
        while i < all.len()
            invariant
                i <= all.len(),
                self.wf(),
                keep == (|p: (PublicKey, u64)| if self@.paid_to(p.0) == paid { Some(p) } else { None }),
                payouts@ == pick(all@.take(i as int), keep),
            decreases all.len() - i,
        {
            proof {
                lemma_pick_step(all@, keep, i as int);
            }
            if self.is_recipient_paid(&all[i].0) == paid {
                payouts.push(all[i]);
            }
            i += 1;
        }
        proof {
            assert(all@.take(i as int) =~= all@);
            if paid {
                let f = |p: (PublicKey, u64)| if self@.paid_to(p.0) { Some(p) } else { None };
                assert(keep =~= f);
            } else {
                let f = |p: (PublicKey, u64)| if self@.paid_to(p.0) { None } else { Some(p) };
                assert(keep =~= f);
            }
        }
        payouts
    }

    /// Whether it is settled who has earned the bounty, be it sent or not.
    pub fn has_winner(&self) -> (r: bool)
        ensures
            r == self@.is_won(),
    {
        match self.status {
            TaskStatus::Verified | TaskStatus::Submitted | TaskStatus::PayoutFailed | TaskStatus::Paid => true,
            _ => false,
        }
    }

    /// Every payout the task will ever make, made or not; none before there is
    /// a winner.
    pub fn allocated_payouts(&self) -> (payouts: Vec<(PublicKey, u64)>)
        requires
            self.wf(),
        ensures
            payouts@ == self@.allocated(),
    {
        let mut payouts: Vec<(PublicKey, u64)> = Vec::new();
        match &self.kind {
            TaskKind::HashMatch { .. } => {
                if self.has_winner() {
                    if let Some(claimant) = self.claimant {
                        payouts.push((claimant, self.bounty));
                    }
                }
            },
            TaskKind::Consensus { assignees, .. } => {
                let ghost shared = |row: (PublicKey, AssignmentView)|
                    match row.1.share {
                        Some(share) => Some((row.0, share)),
                        None => None,
                    };
                let mut i: usize = 0;
                while i < assignees.len()
                    invariant
                        i <= assignees.rows().len(),
                        shared == (|row: (PublicKey, AssignmentView)|
                            match row.1.share {
                                Some(share) => Some((row.0, share)),
                                None => None,
                            }),
                        payouts@ == pick(assignees.rows().take(i as int), shared),
                    decreases assignees.rows().len() - i,
                {
                    proof {
                        lemma_pick_step(assignees.rows(), shared, i as int);
                    }
                    if let Some(share) = assignees.value_at(i).share {
                        payouts.push((assignees.key_at(i), share));
                    }
                    i += 1;
                }
                assert(assignees.rows().take(i as int) =~= assignees.rows());
            },
            TaskKind::Disputable { dispute, .. } => {
                let winner = match dispute {
                    None => self.claimant,
                    Some(d) => match d.resolution {
                        None => None,
                        Some(DisputeResolution::ChallengerWins) => Some(d.challenger),
                        Some(DisputeResolution::AssigneeWins) => self.claimant,
                    },
                };
                if self.has_winner() {
                    if let Some(w) = winner {
                        payouts.push((w, self.bounty));
                    }
                }
            },
        }
        assert(payouts@ =~= self@.allocated());
        payouts
    }

    /// How much of the bounty has been seen to land.
    pub fn confirmed_payout_total(&self) -> (sum: u64)
        requires
            self.wf(),
        ensures
            sum == sum_of(self@.paid_out()),
    {
        proof {
            lemma_allocated_within_bounty(self@);
            lemma_paid_and_owed(self@);
        }
        sum_payouts(&self.paid_payouts())
    }

    /// How much is owed and has not been seen to land.
    pub fn unconfirmed_payout_total(&self) -> (sum: u64)
        requires
            self.wf(),
        ensures
            sum == sum_of(self@.owed()),
    {
        proof {
            lemma_allocated_within_bounty(self@);
            lemma_paid_and_owed(self@);
        }
        sum_payouts(&self.owed_payouts())
    }

    /// Whether `recipient` has had their part of the task.
    pub fn is_recipient_paid(&self, recipient: &PublicKey) -> (r: bool)
        requires
            self.wf(),
        ensures
            r == self@.paid_to(*recipient),
    {
        match &self.kind {
            TaskKind::HashMatch { .. } => self.status == TaskStatus::Paid && self.claimant == Some(*recipient),
            TaskKind::Consensus { assignees, .. } => match assignees.get(recipient) {
                Some(a) => a.paid,
                None => false,
            },
            TaskKind::Disputable { .. } => self.status == TaskStatus::Paid
                && self.pending_payouts_recipient_hint() == Some(*recipient),
        }
    }

    /// Who a disputable task's bounty is for, paid or not.
    fn pending_payouts_recipient_hint(&self) -> (r: Option<PublicKey>)
        ensures
            r == if self@.kind is Disputable { self@.bounty_recipient() } else { None },
    {
        match &self.kind {
            TaskKind::Disputable { dispute, .. } => match dispute {
                None => self.claimant,
                Some(d) => match d.resolution {
                    Some(DisputeResolution::ChallengerWins) => Some(d.challenger),
                    Some(DisputeResolution::AssigneeWins) | None => self.claimant,
                },
            },
            _ => None,
        }
    }

    /// Every assignee of a consensus task; nobody for the other kinds.
    pub fn consensus_assignees(&self) -> (agents: Vec<PublicKey>)
        ensures
            agents@ == assignees_of(self@),
    {
        let mut agents: Vec<PublicKey> = Vec::new();
        match &self.kind {
            TaskKind::Consensus { assignees, .. } => {
                let mut i: usize = 0;
                while i < assignees.len()
                    invariant
                        i <= assignees.rows().len(),
                        agents@.len() == i,
                        forall|j: int| 0 <= j < i ==> agents@[j] == (#[trigger] assignees.rows()[j]).0,
                    decreases assignees.rows().len() - i,
                {
                    agents.push(assignees.key_at(i));
                    i += 1;
                }
                assert(agents@ =~= assignees.rows().map_values(|row: (PublicKey, AssignmentView)| row.0));
            },
            _ => {},
        }
        agents
    }
}

/// How many assignees gave the answer `a`.
pub open spec fn votes(assignees: Seq<(PublicKey, AssignmentView)>, a: Seq<char>) -> int {
    count(assignees, |row: (PublicKey, AssignmentView)| row.1.answer == Some(a))
}

/// Whether more than half of all assignees gave the answer `a`. Whoever has
/// not answered counts against it.
pub open spec fn is_majority(assignees: Seq<(PublicKey, AssignmentView)>, a: Seq<char>) -> bool {
    2 * votes(assignees, a) > assignees.len()
}

/// The answer that more than half of all assignees gave, if there is one.
pub open spec fn majority(assignees: Seq<(PublicKey, AssignmentView)>) -> Option<Seq<char>> {
    if exists|a: Seq<char>| is_majority(assignees, a) {
        Some(choose|a: Seq<char>| is_majority(assignees, a))
    } else {
        None
    }
}

/// Two different answers never have more votes between them than there are
/// assignees.
proof fn lemma_votes_of_two(assignees: Seq<(PublicKey, AssignmentView)>, a: Seq<char>, b: Seq<char>)
    requires
        a != b,
    ensures
        votes(assignees, a) + votes(assignees, b) <= assignees.len(),
    decreases assignees.len(),
{
    if assignees.len() > 0 {
        lemma_votes_of_two(assignees.drop_last(), a, b);
    }
}

/// At most one answer is a majority.
pub proof fn lemma_majority_is_unique(assignees: Seq<(PublicKey, AssignmentView)>, a: Seq<char>, b: Seq<char>)
    requires
        is_majority(assignees, a),
        is_majority(assignees, b),
    ensures
        a == b,
        majority(assignees) == Some(a),
{
    if a != b {
        lemma_votes_of_two(assignees, a, b);
    }
    let c = choose|c: Seq<char>| is_majority(assignees, c);
    if a != c {
        lemma_votes_of_two(assignees, a, c);
    }
}

/// An answer that nobody gave has no votes.
proof fn lemma_unheard_answer(assignees: Seq<(PublicKey, AssignmentView)>, a: Seq<char>)
    requires
        forall|i: int| 0 <= i < assignees.len() ==> (#[trigger] assignees[i]).1.answer != Some(a),
    ensures
        votes(assignees, a) == 0,
    decreases assignees.len(),
{
    if assignees.len() > 0 {
        let shorter = assignees.drop_last();
        assert forall|i: int| 0 <= i < shorter.len() implies (#[trigger] shorter[i]).1.answer != Some(a) by {
            assert(shorter[i] == assignees[i]);
        }
        lemma_unheard_answer(shorter, a);
        assert(assignees[assignees.len() - 1].1.answer != Some(a));
    }
}

/// Counts who gave the answer `a`.
pub fn count_votes(assignees: &Table<PublicKey, ConsensusAssignment>, a: &String) -> (n: u64)
    ensures
        n == votes(assignees.rows(), a@),
{
    let ghost f = |row: (PublicKey, AssignmentView)| if row.1.answer == Some(a@) { 1int } else { 0 };
    let mut n: u64 = 0;
    let mut i: usize = 0;
    while i < assignees.len()
        invariant
            i <= assignees.rows().len(),
            f == (|row: (PublicKey, AssignmentView)| if row.1.answer == Some(a@) { 1int } else { 0 }),
            n == total(assignees.rows().take(i as int), f),
            n <= i,
        decreases assignees.rows().len() - i,
    {
        proof {
            lemma_total_step(assignees.rows(), f, i as int);
        }
        if answered(assignees.value_at(i), a) {
            n = n + 1;
        }
        i += 1;
    }
    proof {
        assert(assignees.rows().take(i as int) =~= assignees.rows());
        let g = |row: (PublicKey, AssignmentView)| row.1.answer == Some(a@);
        assert(f =~= (|row: (PublicKey, AssignmentView)| if g(row) { 1int } else { 0 }));
    }
    n
}

/// Whether an assignee gave the answer `a`.
pub fn answered(assignment: &ConsensusAssignment, a: &String) -> (r: bool)
    ensures
        r == (assignment@.answer == Some(a@)),
{
    match &assignment.answer {
        Some(answer) => *answer == *a,
        None => false,
    }
}

/// An answer supported by strictly more than half of all assigned voters.
pub fn majority_answer(assignees: &Table<PublicKey, ConsensusAssignment>) -> (r: Option<String>)
    ensures
        match r {
            Some(a) => is_majority(assignees.rows(), a@) && majority(assignees.rows()) == Some(a@),
            None => majority(assignees.rows()) is None,
        },
{
    let ghost rows = assignees.rows();
    let n = assignees.len();
    let mut i: usize = 0;
    while i < n
        invariant
            i <= n,
            n == rows.len(),
            rows == assignees.rows(),
            forall|j: int|
                0 <= j < i && (#[trigger] rows[j]).1.answer is Some ==> !is_majority(rows, rows[j].1.answer->0),
        decreases n - i,
    {
        if let Some(answer) = &assignees.value_at(i).answer {
            let support = count_votes(assignees, answer);
            if support > (n / 2) as u64 {
                proof {
                    assert(is_majority(rows, answer@));
                    lemma_majority_is_unique(rows, answer@, answer@);
                }
                return Some(answer.clone());
            }
        }
        i += 1;
    }
    proof {
        assert forall|a: Seq<char>| !is_majority(rows, a) by {
            if is_majority(rows, a) {
                if forall|j: int| 0 <= j < rows.len() ==> (#[trigger] rows[j]).1.answer != Some(a) {
                    lemma_unheard_answer(rows, a);
                } else {
                    let j = choose|j: int| 0 <= j < rows.len() && (#[trigger] rows[j]).1.answer == Some(a);
                    assert(rows[j].1.answer->0 == a);
                }
            }
        }
    }
    None
}

}
