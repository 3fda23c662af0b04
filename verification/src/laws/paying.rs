//! What those who are owed a bounty, or anything else the hub pays, can rely on.
use crate::board::BoardView;
use crate::board::deposits::DepositView;
use crate::board::payouts::{
    all_shares_paid, attempt_cleared, attempt_recorded, attempts_by_age, attempts_of, free_at, given_up,
    giving_up_refusal, holds, marked, outcome_of, pay_refusal, share_paid, TransactionOutput,
};
use crate::board::queries::pays_out;
use crate::board::types::{
    AssignmentView, AttemptView, BoardError, DisputeResolution, EscrowStatus, Payment, PaymentPurpose, PaymentStatus,
    PayoutOutcome, TaskStatus, TaskView,
};
use crate::seqs::{lemma_pick_found, lemma_pick_source, lemma_total_not_negative, pick, total, values_that};
use crate::settlement::{
    attempt_for, attempts_recorded, came_to_an_end, disbursement, due, emptying, is_sweepable, less_fee, needed_for,
    owed_by, payout_recorded, payout_step, pays, resends, resolution, settles, settles_bond, stands, unpaid_at,
    with_agent_filed, BondStep, BuiltTransaction, DisbursementStep, GivingUp, PayoutStep, ResendStep, ResolutionStep,
    SettlementStep,
};
use crate::sort::lemma_ordered_keeps;
use crate::table::{
    as_map, ascending, lemma_listed, lemma_map_sum_insert, lemma_row_is_mapped, lemma_rows_of, row_of, rows_of,
};
use crate::types::{Digest, Id, PayoutKey, PublicKey, Timestamp};
use vstd::prelude::*;

verus! {

/// Whether the task has a winner, be they paid or not.
pub open spec fn is_decided(t: TaskView) -> bool {
    t.status == TaskStatus::Verified || t.status == TaskStatus::Submitted || t.status == TaskStatus::PayoutFailed
        || t.status == TaskStatus::Paid
}

/// The bounty of a task for one worker goes to one, whole: to the one who claimed
/// it, or to a challenger who was ruled to be right; and to nobody before it is
/// decided whose it is.
pub proof fn lemma_bounty_goes_to_the_winner(t: TaskView)
    requires
        !(t.kind is Consensus),
    ensures
        ({
            let disputed = t.kind is Disputable && t.kind->dispute is Some;
            let ruling = t.kind->dispute->0.resolution;
            let challenger = t.kind->dispute->0.challenger;
            &&& !is_decided(t) ==> t.allocated().len() == 0
            &&& is_decided(t) && !disputed && t.claimant is Some ==> t.allocated() == seq![(t.claimant->0, t.bounty)]
            &&& is_decided(t) && disputed && ruling == Some(DisputeResolution::AssigneeWins) && t.claimant is Some
                ==> t.allocated() == seq![(t.claimant->0, t.bounty)]
            &&& is_decided(t) && disputed && ruling == Some(DisputeResolution::ChallengerWins) ==> t.allocated()
                == seq![(challenger, t.bounty)]
            &&& disputed && ruling is None ==> t.allocated().len() == 0
        }),
{
}

/// Of a consensus task, whoever was promised a share is owed that share and
/// nobody else is owed anything.
pub proof fn lemma_shares_are_owed(t: TaskView, agent: PublicKey, amount: u64)
    requires
        t.kind is Consensus,
        ascending(t.kind->assignees),
    ensures
        t.allocated().contains((agent, amount)) <==> as_map(t.kind->assignees).contains_key(agent) && as_map(
            t.kind->assignees,
        )[agent].share == Some(amount),
{
    let rows = t.kind->assignees;
    let f = |row: (PublicKey, AssignmentView)|
        match row.1.share {
            Some(share) => Some((row.0, share)),
            None => None,
        };
    let all = t.allocated();
    if all.contains((agent, amount)) {
        let j = choose|j: int| 0 <= j < all.len() && all[j] == (agent, amount);
        lemma_pick_source(rows, f, j);
        let i = choose|i: int| 0 <= i < rows.len() && f(#[trigger] rows[i]) == Some(all[j]);
        lemma_row_is_mapped(rows, i);
    }
    if as_map(rows).contains_key(agent) && as_map(rows)[agent].share == Some(amount) {
        lemma_pick_found(rows, f, row_of(rows, agent));
    }
}

/// What is allocated is either paid or owed, and not both: of a consensus task
/// each share by itself, of another the bounty with the task. While the task
/// awaits its payouts what is owed is pending, and what has no transaction on its
/// way is what is left to send.
pub proof fn lemma_paid_or_owed(b: BoardView, id: Id, p: (PublicKey, u64))
    requires
        b.tasks.contains_key(id),
        b.tasks[id].kind is Consensus ==> ascending(b.tasks[id].kind->assignees),
    ensures
        ({
            let t = b.tasks[id];
            let paid = if t.kind is Consensus {
                as_map(t.kind->assignees)[p.0].paid
            } else {
                t.status == TaskStatus::Paid
            };
            let awaits = t.status == TaskStatus::Verified || t.status == TaskStatus::Submitted;
            &&& t.owed().contains(p) <==> t.allocated().contains(p) && !paid
            &&& t.paid_out().contains(p) <==> t.allocated().contains(p) && paid
            &&& t.pending().contains(p) <==> awaits && t.owed().contains(p)
            &&& b.unsubmitted(id).contains(p) <==> t.pending().contains(p) && !b.payout_attempts.contains_key(
                PayoutKey { task_id: id, recipient: p.0 },
            )
        }),
{
    let t = b.tasks[id];
    let all = t.allocated();
    let f = |p: (PublicKey, u64)| if t.paid_to(p.0) { None } else { Some(p) };
    let g = |p: (PublicKey, u64)| if t.paid_to(p.0) { Some(p) } else { None };
    let h = |p: (PublicKey, u64)|
        if b.payout_attempts.contains_key(PayoutKey { task_id: id, recipient: p.0 }) {
            None
        } else {
            Some(p)
        };
    lemma_kept(all, f, p);
    lemma_kept(all, g, p);
    lemma_kept(t.pending(), h, p);
    if all.contains(p) && t.kind is Consensus {
        lemma_shares_are_owed(t, p.0, p.1);
    }
    if all.contains(p) && !(t.kind is Consensus) {
        lemma_bounty_goes_to_the_winner(t);
        assert(all[0] == p);
        assert(t.bounty_recipient() == Some(p.0));
    }
}

/// What a selection keeps is what it says it keeps.
proof fn lemma_kept(s: Seq<(PublicKey, u64)>, f: spec_fn((PublicKey, u64)) -> Option<(PublicKey, u64)>, p: (PublicKey, u64))
    requires
        forall|q: (PublicKey, u64)| #[trigger] f(q) is Some ==> f(q)->0 == q,
    ensures
        pick(s, f).contains(p) <==> s.contains(p) && f(p) is Some,
{
    if pick(s, f).contains(p) {
        let j = choose|j: int| 0 <= j < pick(s, f).len() && pick(s, f)[j] == p;
        lemma_pick_source(s, f, j);
        let i = choose|i: int| 0 <= i < s.len() && f(#[trigger] s[i]) == Some(pick(s, f)[j]);
        assert(s[i] == p);
    }
    if s.contains(p) && f(p) is Some {
        let i = choose|i: int| 0 <= i < s.len() && s[i] == p;
        lemma_pick_found(s, f, i);
    }
}

/// A payment can be recorded for those the task owes, while it awaits its
/// payouts: for an assignee with a share, for a challenger who was ruled to be
/// right, and otherwise for the one who claimed the task.
pub proof fn lemma_who_can_be_paid(b: BoardView, id: Id, recipient: PublicKey)
    ensures
        ({
            let t = b.tasks[id];
            let awaits = t.status == TaskStatus::Verified || t.status == TaskStatus::Submitted;
            let rows = t.kind->assignees;
            let won = t.kind is Disputable && t.kind->dispute is Some && t.kind->dispute->0.resolution == Some(
                DisputeResolution::ChallengerWins,
            );
            let e = pay_refusal(b, id, recipient);
            &&& e == Some(BoardError::NotFound) <==> !b.tasks.contains_key(id)
            &&& e == Some(BoardError::NotVerified) <==> b.tasks.contains_key(id) && !awaits
            &&& e is None <==> b.tasks.contains_key(id) && awaits && if t.kind is Consensus {
                as_map(rows).contains_key(recipient) && as_map(rows)[recipient].share is Some
            } else if won {
                t.kind->dispute->0.challenger == recipient
            } else {
                t.claimant == Some(recipient)
            }
            &&& e is Some ==> e == Some(BoardError::NotFound) || e == Some(BoardError::NotVerified) || e == Some(
                BoardError::NotClaimant,
            )
        }),
{
}

/// What recording a payment does. The recipient has completed one more task and
/// earned the amount, and nobody else's record changes. A task for one worker is
/// `Paid` with it; a consensus task once nobody with a share is left unpaid. The
/// instant of settlement is the one at which the last payment was recorded.
pub proof fn lemma_recording_a_payment(
    b: BoardView,
    id: Id,
    recipient: PublicKey,
    amount: u64,
    now: Timestamp,
    agent: PublicKey,
)
    requires
        b.wf(),
        pay_refusal(b, id, recipient) is None,
        b.tasks[id].kind is Consensus ==> !as_map(b.tasks[id].kind->assignees)[recipient].paid,
        b.reputation_of(recipient).completed < u64::MAX,
        b.reputation_of(recipient).total_earned + amount <= u64::MAX,
    ensures
        ({
            let t = b.tasks[id];
            let (r, after) = marked(b, id, recipient, amount, now);
            let z = after.tasks[id];
            let record = after.reputation_of(agent);
            let rows = t.kind->assignees;
            let last = !(t.kind is Consensus) || forall|k: PublicKey| #[trigger]
                as_map(rows).contains_key(k) && k != recipient && as_map(rows)[k].share is Some ==> as_map(rows)[k].paid;
            &&& r == Result::<bool, BoardError>::Ok(last)
            &&& agent == recipient ==> record.completed == b.reputation_of(agent).completed + 1 && record.total_earned
                == b.reputation_of(agent).total_earned + amount
            &&& agent != recipient ==> record == b.reputation_of(agent)
            &&& record.failed == b.reputation_of(agent).failed
            &&& last ==> z.status == TaskStatus::Paid
            &&& last && t.settled_at is None ==> z.settled_at == Some(now)
            &&& last && t.settled_at is Some ==> z.settled_at == t.settled_at
            &&& !last ==> z.status == t.status && z.settled_at == t.settled_at
            &&& z.bounty == t.bounty
            &&& z.claimant == t.claimant
            &&& z.poster == t.poster
            &&& !(t.kind is Consensus) ==> z.kind == t.kind
            &&& t.kind is Consensus ==> z.kind is Consensus && as_map(z.kind->assignees) == as_map(rows).insert(
                recipient,
                AssignmentView { paid: true, ..as_map(rows)[recipient] },
            )
            &&& forall|other: Id| #[trigger] b.tasks.contains_key(other) && other != id ==> after.tasks[other]
                == b.tasks[other]
            &&& after.payout_attempts == b.payout_attempts
            &&& after.exchange_accounts == b.exchange_accounts
        }),
{
    let t = b.tasks[id];
    assert(t.wf());
    if t.kind is Consensus {
        let rows = t.kind->assignees;
        let m = as_map(rows);
        let paid = AssignmentView { paid: true, ..m[recipient] };
        lemma_rows_of(rows);
        lemma_map_sum_insert(m, recipient, paid, |k: PublicKey, a: AssignmentView| 0int);
        let n = m.insert(recipient, paid);
        lemma_listed(n);
        let grown = rows_of(n);
        assert(share_paid(t, recipient).kind->assignees == grown);
        if forall|k: PublicKey| #[trigger] m.contains_key(k) && k != recipient && m[k].share is Some ==> m[k].paid {
            assert forall|i: int| 0 <= i < grown.len() implies (#[trigger] grown[i]).1.share is None || grown[i].1.paid by {
                lemma_row_is_mapped(grown, i);
                assert(n.contains_key(grown[i].0));
                assert(m.contains_key(grown[i].0));
            }
            assert(all_shares_paid(grown));
        } else {
            let k = choose|k: PublicKey| #[trigger] m.contains_key(k) && k != recipient && m[k].share is Some
                && !m[k].paid;
            let i = row_of(grown, k);
            assert(n.contains_key(k));
            lemma_row_is_mapped(grown, i);
            assert(!all_shares_paid(grown));
        }
    }
}

/// Whether an output lies there that no transaction is spending.
pub open spec fn lies_unspent(utxos: Seq<(bool, TransactionOutput)>, hash: Digest) -> bool {
    exists|i: int| 0 <= i < utxos.len() && (#[trigger] utxos[i]).1.hash == hash && !utxos[i].0
}

/// What the two addresses say of a payment. It is confirmed exactly if the
/// recipient holds its output. It never landed, exactly if they do not and every
/// one of its inputs, of which there is one at least, lies at the source and is
/// not being spent. Otherwise nothing is known.
pub proof fn lemma_what_became_of_a_payment(
    output: Digest,
    inputs: Seq<Digest>,
    theirs: Seq<(bool, TransactionOutput)>,
    ours: Seq<(bool, TransactionOutput)>,
)
    ensures
        ({
            let arrived = exists|i: int| 0 <= i < theirs.len() && (#[trigger] theirs[i]).1.hash == output;
            let untouched = forall|j: int| 0 <= j < inputs.len() ==> lies_unspent(ours, #[trigger] inputs[j]);
            let r = outcome_of(output, inputs, theirs, ours);
            &&& r == PayoutOutcome::Confirmed <==> arrived
            &&& r == PayoutOutcome::NeverLanded <==> !arrived && inputs.len() > 0 && untouched
        }),
{
    assert forall|j: int| 0 <= j < inputs.len() implies (free_at(ours, inputs[j]) <==> lies_unspent(
        ours,
        #[trigger] inputs[j],
    )) by {
    }
    assert(holds(theirs, output) <==> exists|i: int| 0 <= i < theirs.len() && (#[trigger] theirs[i]).1.hash == output);
}

/// An attempt is on record under its task and its recipient, and the others stay.
/// A task whose last payout it was goes from `Verified` to `Submitted`; nothing
/// else of any task changes.
pub proof fn lemma_recording_an_attempt(b: BoardView, a: AttemptView, k: PayoutKey)
    requires
        b.wf(),
    ensures
        ({
            let after = attempt_recorded(b, a);
            let own = PayoutKey { task_id: a.task_id, recipient: a.recipient };
            let t = b.tasks[a.task_id];
            let z = after.tasks[a.task_id];
            &&& after.payout_attempts.contains_key(own)
            &&& after.payout_attempts[own] == a
            &&& k != own ==> after.payout_attempts.contains_key(k) == b.payout_attempts.contains_key(k) && (
            b.payout_attempts.contains_key(k) ==> after.payout_attempts[k] == b.payout_attempts[k])
            &&& b.tasks.contains_key(a.task_id) ==> z == t || (t.status == TaskStatus::Verified && z == (TaskView {
                status: TaskStatus::Submitted,
                ..t
            }))
            &&& forall|other: Id| #[trigger] b.tasks.contains_key(other) && other != a.task_id ==> after.tasks[other]
                == b.tasks[other]
            &&& after.reputation == b.reputation
        }),
{
}

/// The attempts of a transaction are all on record, each under its task and its
/// recipient, and no other comes or goes.
pub proof fn lemma_recording_attempts(b: BoardView, attempts: Seq<AttemptView>, k: PayoutKey)
    ensures
        ({
            let after = attempts_recorded(b, attempts);
            let own = exists|i: int|
                0 <= i < attempts.len() && (#[trigger] attempts[i]).task_id == k.task_id && attempts[i].recipient
                    == k.recipient;
            &&& own ==> after.payout_attempts.contains_key(k) && attempts.contains(after.payout_attempts[k])
            &&& !own ==> after.payout_attempts.contains_key(k) == b.payout_attempts.contains_key(k)
                && after.payout_attempts[k] == b.payout_attempts[k]
            &&& after.reputation == b.reputation
            &&& after.exchange_accounts == b.exchange_accounts
        }),
    decreases attempts.len(),
{
    if attempts.len() > 0 {
        let fewer = attempts.drop_last();
        let a = attempts.last();
        lemma_recording_attempts(b, fewer, k);
        let before = attempts_recorded(b, fewer);
        let after = attempts_recorded(b, attempts);
        assert(attempts[attempts.len() - 1] == a);
        assert forall|i: int| 0 <= i < fewer.len() implies #[trigger] attempts[i] == fewer[i] by {
        }
        if a.task_id == k.task_id && a.recipient == k.recipient {
            assert(after.payout_attempts[k] == a);
        } else if exists|i: int|
            0 <= i < attempts.len() && (#[trigger] attempts[i]).task_id == k.task_id && attempts[i].recipient
                == k.recipient {
            let i = choose|i: int|
                0 <= i < attempts.len() && (#[trigger] attempts[i]).task_id == k.task_id && attempts[i].recipient
                    == k.recipient;
            assert(fewer[i].task_id == k.task_id && fewer[i].recipient == k.recipient);
            let j = choose|j: int| 0 <= j < fewer.len() && fewer[j] == before.payout_attempts[k];
            assert(attempts[j] == before.payout_attempts[k]);
        }
    }
}

/// A payout can be given up while it awaits its making. The task is then
/// `PayoutFailed`, none of its attempts is on record, and everybody else's are.
pub proof fn lemma_giving_up(b: BoardView, id: Id, k: PayoutKey)
    requires
        b.wf(),
    ensures
        giving_up_refusal(b, id) is None <==> b.tasks.contains_key(id) && (b.tasks[id].status == TaskStatus::Verified
            || b.tasks[id].status == TaskStatus::Submitted),
        giving_up_refusal(b, id) == Some(BoardError::NotFound) <==> !b.tasks.contains_key(id),
        b.tasks.contains_key(id) ==> given_up(b, id).tasks[id] == (TaskView {
            status: TaskStatus::PayoutFailed,
            ..b.tasks[id]
        }),
        given_up(b, id).payout_attempts.contains_key(k) <==> b.payout_attempts.contains_key(k) && k.task_id != id,
        given_up(b, id).payout_attempts.contains_key(k) ==> given_up(b, id).payout_attempts[k] == b.payout_attempts[k],
        given_up(b, id).reputation == b.reputation,
        forall|a: AttemptView| #[trigger] attempts_of(b, id).contains(a) <==> b.payout_attempts.contains_key(
            PayoutKey { task_id: id, recipient: a.recipient },
        ) && b.payout_attempts[PayoutKey { task_id: id, recipient: a.recipient }] == a,
{
    let m = b.payout_attempts;
    let rows = rows_of(m);
    lemma_listed(m);
    let f = |row: (PayoutKey, AttemptView)| if row.0.task_id == id { Some(row.1) } else { None };
    let all = attempts_of(b, id);
    assert forall|a: AttemptView| #[trigger] all.contains(a) <==> m.contains_key(
        PayoutKey { task_id: id, recipient: a.recipient },
    ) && m[PayoutKey { task_id: id, recipient: a.recipient }] == a by {
        let own = PayoutKey { task_id: id, recipient: a.recipient };
        if all.contains(a) {
            let j = choose|j: int| 0 <= j < all.len() && all[j] == a;
            lemma_pick_source(rows, f, j);
            let i = choose|i: int| 0 <= i < rows.len() && f(#[trigger] rows[i]) == Some(all[j]);
            lemma_row_is_mapped(rows, i);
            assert(m.contains_key(rows[i].0));
            assert(rows[i].0 == own);
        }
        if m.contains_key(own) && m[own] == a {
            let i = row_of(rows, own);
            lemma_row_is_mapped(rows, i);
            lemma_pick_found(rows, f, i);
        }
    }
}

/// How what a task owes is sent. Nothing is, where nothing is left to send; where
/// the task says that all of it is on its way already, nothing may be. What a
/// deposit funds is paid out of that deposit, and everything else is paid, each
/// recipient their own part, by the operator.
pub proof fn lemma_how_a_task_is_settled(b: BoardView, id: Id, step: SettlementStep)
    requires
        settles(b, id, step),
    ensures
        ({
            let t = b.tasks[id];
            let left = b.unsubmitted(id);
            let funded = t.escrow_id is Some && b.pending_deposits.contains_key(t.escrow_id->0);
            let open = b.tasks.contains_key(id) && left.len() > 0;
            &&& step is Nothing <==> !open || (t.status != TaskStatus::Verified && t.status != TaskStatus::Submitted)
            &&& step is Refuse <==> open && t.status == TaskStatus::Submitted
            &&& step is FromEscrow <==> open && t.status == TaskStatus::Verified && funded
            &&& step is PayEach <==> open && t.status == TaskStatus::Verified && !funded
            &&& step is Refuse ==> step->Refuse_0 == left.len()
            &&& step is FromEscrow ==> step->FromEscrow_0@ == b.pending_deposits[t.escrow_id->0]
            &&& step is PayEach ==> step->PayEach_0@ == left
        }),
{
}

/// Right before anything is spent, a payout goes out exactly if it was not made
/// and is not on its way.
pub proof fn lemma_when_a_payout_goes_out(b: BoardView, id: Id, recipient: PublicKey)
    ensures
        ({
            let step = payout_step(b, id, recipient);
            let under_way = b.payout_attempts.contains_key(PayoutKey { task_id: id, recipient });
            &&& step == PayoutStep::NoTask <==> !b.tasks.contains_key(id)
            &&& step == PayoutStep::Send <==> b.tasks.contains_key(id) && !b.tasks[id].paid_to(recipient) && !under_way
        }),
{
}

/// Whether a payment is out of the deposit.
pub open spec fn is_out_of(p: Payment, deposit: Id) -> bool {
    match p.purpose {
        PaymentPurpose::Escrow { deposit_id, .. } => deposit_id == deposit,
        _ => false,
    }
}

/// A deposit's money leaves it once: it is paid out exactly if nothing has been
/// paid out of it, and it stands as it was seen and was not given back.
pub proof fn lemma_deposit_is_paid_out_once(b: BoardView, id: Id, seen: EscrowStatus)
    requires
        b.wf(),
    ensures
        disbursement(b, id, seen) == DisbursementStep::Pay <==> {
            &&& forall|p: Id| #[trigger] b.payments.contains_key(p) ==> !is_out_of(b.payments[p], id)
            &&& b.pending_deposits.contains_key(id)
            &&& b.pending_deposits[id].status == seen
            &&& seen != EscrowStatus::Refunded
        },
{
    let rows = rows_of(b.payments);
    lemma_listed(b.payments);
    let p = pays_out(id);
    let f = |row: (Id, Payment)| if p(row.1) { Some(row.1) } else { None };
    let made = values_that(rows, p);
    if made.len() > 0 {
        lemma_pick_source(rows, f, 0);
        let i = choose|i: int| 0 <= i < rows.len() && f(#[trigger] rows[i]) == Some(made[0]);
        lemma_row_is_mapped(rows, i);
        assert(b.payments.contains_key(rows[i].0));
    } else {
        assert forall|q: Id| #[trigger] b.payments.contains_key(q) implies !p(b.payments[q]) by {
            let i = row_of(rows, q);
            lemma_row_is_mapped(rows, i);
            if p(b.payments[q]) {
                lemma_pick_found(rows, f, i);
            }
        }
    }
}

/// What is paid out of a deposit goes from its address to the recipient, all of
/// it but the thousand that the payment costs.
pub proof fn lemma_emptying_a_deposit(
    d: DepositView,
    recipient: PublicKey,
    balance: u64,
    forfeited: bool,
    id: Id,
    now: Timestamp,
)
    ensures
        ({
            let p = emptying(d, recipient, balance, forfeited, id, now);
            &&& 1_000 <= balance ==> p.amount + 1_000 == balance && less_fee(balance) + 1_000 == balance
            &&& balance < 1_000 ==> p.amount == 0 && less_fee(balance) == 0
            &&& p.recipient == recipient
            &&& p.source == d.deposit_pubkey
            &&& p.status == PaymentStatus::Pending
            &&& p.id == id
            &&& p.created_at == now
            &&& p.purpose == (PaymentPurpose::Escrow {
                deposit_id: d.id,
                forfeited_bond: forfeited,
                previous_status: d.status,
            })
        }),
{
}

/// What a transaction needs is what its recipients get and a thousand more.
pub proof fn lemma_what_a_transaction_needs(recipients: Seq<(PublicKey, u64)>)
    ensures
        ({
            let sum = total(recipients, |r: (PublicKey, u64)| r.1 as int);
            &&& needed_for(recipients) is Some <==> sum + 1_000 <= u64::MAX
            &&& needed_for(recipients) is Some ==> needed_for(recipients)->0 == sum + 1_000
        }),
{
    let f = |r: (PublicKey, u64)| r.1 as int;
    assert(due() =~= f);
    lemma_total_not_negative(recipients, f);
}

/// The bond of a decided dispute goes to the winner, as a loss where the winner
/// is the one whose answer was challenged; and only while the deposit still holds
/// it.
pub proof fn lemma_bond_goes_to_the_winner(b: BoardView, id: Id, step: BondStep)
    requires
        settles_bond(b, id, step),
    ensures
        ({
            let t = b.tasks[id];
            let d = t.kind->dispute->0;
            let held = b.tasks.contains_key(id) && t.kind is Disputable && t.kind->dispute is Some
                && b.pending_deposits.contains_key(d.bond_escrow_id) && b.pending_deposits[d.bond_escrow_id].status
                == EscrowStatus::Consumed;
            let challenger_won = d.resolution == Some(DisputeResolution::ChallengerWins);
            &&& step is Nothing <==> !held || d.resolution is None
            &&& step is NoWinner <==> held && d.resolution == Some(DisputeResolution::AssigneeWins) && t.claimant is None
            &&& step is Pay ==> step->Pay_0@ == b.pending_deposits[d.bond_escrow_id]
            &&& step is Pay && challenger_won ==> step->Pay_1 == d.challenger && !step->Pay_2
            &&& step is Pay && !challenger_won ==> t.claimant == Some(step->Pay_1) && step->Pay_2
        }),
{
}

/// An exchange deposit is to be moved to custody once it is credited, and until
/// it is there.
pub proof fn lemma_what_is_swept(b: BoardView, id: Id)
    ensures
        is_sweepable(b, id) <==> {
            &&& b.pending_deposits.contains_key(id)
            &&& b.pending_deposits[id].purpose is FundExchangeAccount
            &&& b.pending_deposits[id].status == EscrowStatus::Consumed || b.pending_deposits[id].status
                == EscrowStatus::Disbursing
        },
{
}

/// What follows from what became of a payout: one that arrived is recorded, if it
/// is the one on record; one that is lost is sent again until it has been sent
/// four times, and then given up; and as long as nothing is known, nothing is
/// done.
pub proof fn lemma_what_follows(b: BoardView, a: AttemptView, outcome: PayoutOutcome)
    ensures
        ({
            let k = PayoutKey { task_id: a.task_id, recipient: a.recipient };
            let current = b.payout_attempts.contains_key(k) && b.payout_attempts[k] == a;
            let step = resolution(b, a, outcome);
            &&& step == ResolutionStep::Record <==> outcome == PayoutOutcome::Confirmed && current
            &&& step == ResolutionStep::GiveUp <==> outcome == PayoutOutcome::NeverLanded && a.submissions >= 4
            &&& step == ResolutionStep::Resend <==> outcome == PayoutOutcome::NeverLanded && a.submissions < 4
            &&& stands(b, a) <==> current
        }),
{
}

/// A lost payout is sent again as the same transaction wherever that was kept, so
/// that it cannot arrive twice; and not at all where it is no longer the one on
/// record.
pub proof fn lemma_how_a_lost_payout_is_resent(b: BoardView, a: AttemptView, now: Timestamp, step: ResendStep)
    requires
        resends(b, a, now, step),
        a.submissions < u32::MAX,
    ensures
        ({
            let t = b.tasks[a.task_id];
            let k = PayoutKey { task_id: a.task_id, recipient: a.recipient };
            let current = b.tasks.contains_key(a.task_id) && b.payout_attempts.contains_key(k) && b.payout_attempts[k]
                == a;
            let funded = t.escrow_id is Some && b.pending_deposits.contains_key(t.escrow_id->0);
            &&& step is Nothing <==> !current
            &&& step is SameTransaction <==> current && a.transaction is Some
            &&& step is FromEscrow <==> current && a.transaction is None && funded
            &&& step is FromEscrow ==> step->FromEscrow_0@ == b.pending_deposits[t.escrow_id->0]
            &&& step is SameTransaction ==> {
                let next = step->SameTransaction_0@;
                &&& next.submissions == a.submissions + 1
                &&& next.submitted_at == now
                &&& next == (AttemptView { submissions: next.submissions, submitted_at: now, ..a })
            }
        }),
{
}

/// Recording a payout that was seen on chain takes the attempt behind it off the
/// record, pays whoever was not recorded as paid before, and leaves every other
/// attempt.
pub proof fn lemma_confirmed_payout_is_recorded(
    b: BoardView,
    id: Id,
    recipient: PublicKey,
    amount: u64,
    now: Timestamp,
    k: PayoutKey,
)
    requires
        b.wf(),
        pay_refusal(b, id, recipient) is None,
    ensures
        ({
            let after = payout_recorded(b, id, recipient, amount, now);
            let own = PayoutKey { task_id: id, recipient };
            &&& after == (BoardView {
                payout_attempts: after.payout_attempts,
                ..marked(b, id, recipient, amount, now).1
            })
            &&& !after.payout_attempts.contains_key(own)
            &&& k != own ==> after.payout_attempts.contains_key(k) == b.payout_attempts.contains_key(k) && (
            b.payout_attempts.contains_key(k) ==> after.payout_attempts[k] == b.payout_attempts[k])
        }),
{
}

/// Filing an agent's record and account as they are changes what is known of
/// nobody.
pub proof fn lemma_filing_changes_nothing(b: BoardView, agent: PublicKey, other: PublicKey)
    ensures
        with_agent_filed(b, agent).reputation_of(other) == b.reputation_of(other),
        with_agent_filed(b, agent).account_of(other) == b.account_of(other),
        with_agent_filed(b, agent).tasks == b.tasks,
        with_agent_filed(b, agent).payout_attempts == b.payout_attempts,
{
}

/// The attempt kept of a transaction names the task, the recipient, what they get
/// and the very output that pays them, and is one more than was sent before.
pub proof fn lemma_attempt_names_its_output(
    b: BoardView,
    id: Id,
    recipient: (PublicKey, u64),
    i: int,
    tx: BuiltTransaction,
    source: PublicKey,
    now: Timestamp,
)
    requires
        b.payout_attempts.contains_key(PayoutKey { task_id: id, recipient: recipient.0 })
            ==> b.payout_attempts[PayoutKey { task_id: id, recipient: recipient.0 }].submissions < u32::MAX,
    ensures
        ({
            let a = attempt_for(b, id, recipient, i, tx, source, now);
            let k = PayoutKey { task_id: id, recipient: recipient.0 };
            &&& a.task_id == id
            &&& a.recipient == recipient.0
            &&& a.amount == recipient.1
            &&& a.output_hash == tx.outputs@[i].hash
            &&& a.spent_inputs == tx.spent_inputs@
            &&& a.source == source
            &&& a.submitted_at == now
            &&& a.transaction == Some(tx.bytes@)
            &&& b.payout_attempts.contains_key(k) ==> a.submissions == b.payout_attempts[k].submissions + 1
            &&& !b.payout_attempts.contains_key(k) ==> a.submissions == 1
        }),
{
}

/// A transaction is turned away at the first recipient whose own output, in their
/// place, does not pay them what they are owed.
pub proof fn lemma_every_recipient_has_their_output(
    recipients: Seq<(PublicKey, u64)>,
    outputs: Seq<TransactionOutput>,
    i: int,
)
    requires
        unpaid_at(recipients, outputs, i),
    ensures
        0 <= i < recipients.len(),
        i >= outputs.len() || outputs[i].pubkey != recipients[i].0 || outputs[i].value != recipients[i].1,
        i <= outputs.len(),
        forall|j: int|
            0 <= j < i ==> outputs[j].pubkey == (#[trigger] recipients[j]).0 && outputs[j].value == recipients[j].1,
{
    if i > 0 {
        assert(pays(outputs, i - 1, recipients[i - 1].0, recipients[i - 1].1));
    }
}

/// Taking an attempt off the record takes off that one and nothing else.
pub proof fn lemma_clearing_an_attempt(b: BoardView, k: PayoutKey, other: PayoutKey)
    ensures
        ({
            let after = attempt_cleared(b, k);
            &&& !after.payout_attempts.contains_key(k)
            &&& other != k ==> after.payout_attempts.contains_key(other) == b.payout_attempts.contains_key(other)
                && after.payout_attempts[other] == b.payout_attempts[other]
            &&& after.tasks == b.tasks
            &&& after.reputation == b.reputation
            &&& after.exchange_accounts == b.exchange_accounts
        }),
{
}

/// Every attempt on record is listed, and no other, and the one that went out first
/// comes first.
pub proof fn lemma_attempts_are_listed_by_age(b: BoardView, a: AttemptView)
    requires
        b.wf(),
    ensures
        ({
            let all = attempts_by_age(b);
            &&& all.contains(a) <==> exists|k: PayoutKey| #[trigger] b.payout_attempts.contains_key(k)
                && b.payout_attempts[k] == a
            &&& forall|i: int, j: int|
                0 <= i < j < all.len() ==> (#[trigger] all[i]).submitted_at.nanos <= (
                #[trigger] all[j]).submitted_at.nanos
        }),
{
    let rows = rows_of(b.payout_attempts);
    lemma_listed(b.payout_attempts);
    let kept = rows.map_values(|row: (PayoutKey, AttemptView)| row.1);
    let key = |a: AttemptView| a.submitted_at.nanos as int;
    let all = attempts_by_age(b);
    lemma_ordered_keeps(kept, key);
    assert(all.contains(a) <==> kept.contains(a));
    if kept.contains(a) {
        let i = choose|i: int| 0 <= i < kept.len() && kept[i] == a;
        lemma_row_is_mapped(rows, i);
        assert(b.payout_attempts.contains_key(rows[i].0));
    }
    if exists|k: PayoutKey| #[trigger] b.payout_attempts.contains_key(k) && b.payout_attempts[k] == a {
        let k = choose|k: PayoutKey| #[trigger] b.payout_attempts.contains_key(k) && b.payout_attempts[k] == a;
        let i = row_of(rows, k);
        lemma_row_is_mapped(rows, i);
        assert(kept[i] == a);
    }
    assert forall|i: int, j: int| 0 <= i < j < all.len() implies (#[trigger] all[i]).submitted_at.nanos <= (
    #[trigger] all[j]).submitted_at.nanos by {
        assert(key(all[i]) <= key(all[j]));
    }
}

/// What a deposit is paid out for is all that its task owes, sent or not; and giving
/// a payout up is tried again only where it could not be kept.
pub proof fn lemma_what_is_left_to_do(b: BoardView, id: Id, r: GivingUp)
    ensures
        b.tasks.contains_key(id) ==> owed_by(b, id) == Some(b.tasks[id].owed()),
        !b.tasks.contains_key(id) ==> owed_by(b, id) is None,
        came_to_an_end(r) <==> r is Done || r is Refused,
{
}

}
