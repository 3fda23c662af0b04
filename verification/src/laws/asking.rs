//! Who may ask what of the hub, and what they are told.
use crate::api::errors::{auth_answer, board_answer, board_error, redemption_answer, status_of, Answer};
use crate::api::posting::{
    admin_refusal, bond_amount, bond_intent_refusal, bond_purpose, consensus_refusal, depositor_refusal,
    exposure_refusal, funding_refusal, hash_refusal, meets_consensus_task, meets_disputable_task,
    meets_operator_consensus_task, meets_operator_task, meets_task, operator_refusal, record_refusal, reserved_until,
    tags_refusal,
};
use crate::api::requests::{
    amount_to_deposit, digest_of, keeps_tags, normals, overlong, text_refusal, CreateConsensusTaskPayload,
    CreateTaskPayload, EscrowConsensusTaskPayload, EscrowDisputableTaskPayload, EscrowTaskPayload,
};
use crate::api::working::{
    dispatch_of, open_to_challenge, other_record_of, part_of, taken, taking_refusal, told_of_hash, told_of_vote,
    touched_records, was_sent,
};
use crate::auth::AuthError;
use crate::board::BoardView;
use crate::board::consensus::join_refusal;
use crate::board::deposits::{ConsensusTaskIntent, DisputableTaskIntent, PurposeView, TaskIntent};
use crate::board::types::{AssignmentView, BoardError, Reputation, TaskStatus, TaskView};
use crate::board::work::claim_refusal;
use crate::faucet_pow::RedemptionError;
use crate::seqs::{lemma_pick_found, lemma_pick_source, pick};
use crate::text::{hex_text, lowercase, trimmed, HexError};
use crate::types::{in_calendar, Id, PayoutKey, PublicKey, Timestamp};
use vstd::prelude::*;

verus! {

/// What is the operator's to do is refused to everybody else, and what is for those
/// who run the hub to everybody but the operator and the keys that are listed. A
/// request for one record that is sent to another is refused, and only who made a
/// deposit is told where to pay it.
pub proof fn lemma_who_may_ask(
    pubkey: PublicKey,
    operator: PublicKey,
    keys: Seq<Seq<char>>,
    addressed: Id,
    signed: Id,
    what: Seq<char>,
    b: BoardView,
    deposit: Id,
)
    ensures
        operator_refusal(pubkey, operator) is None <==> pubkey == operator,
        admin_refusal(pubkey, operator, keys) is None <==> pubkey == operator || exists|i: int|
            0 <= i < keys.len() && #[trigger] keys[i] == hex_text(pubkey.bytes()),
        record_refusal(addressed, signed, what) is None <==> addressed == signed,
        depositor_refusal(b, deposit, pubkey) is None <==> b.pending_deposits.contains_key(deposit)
            && b.pending_deposits[deposit].depositor == pubkey,
        operator_refusal(pubkey, operator) is Some ==> operator_refusal(pubkey, operator)->0.answer is Forbidden,
        admin_refusal(pubkey, operator, keys) is Some ==> admin_refusal(pubkey, operator, keys)->0.answer is Forbidden,
        record_refusal(addressed, signed, what) is Some ==> record_refusal(addressed, signed, what)->0.answer is BadRequest,
        depositor_refusal(b, deposit, pubkey) is Some ==> depositor_refusal(b, deposit, pubkey)->0.answer
            == if b.pending_deposits.contains_key(deposit) {
            Answer::Forbidden
        } else {
            Answer::NotFound
        },
{
}

/// Text may have twenty thousand characters. A deposit is the bounty and a thousand,
/// as long as sixty-four bits hold it, and an hour is given to pay it. A bond is as
/// much, for the task that it challenges.
pub proof fn lemma_what_is_asked_for(
    value: Seq<char>,
    field: Seq<char>,
    bounty: u64,
    now: Timestamp,
    task_id: Id,
    t: TaskView,
)
    requires
        in_calendar(now.nanos + 3_600_000_000_000),
    ensures
        text_refusal(value, field) is None <==> value.len() <= 20_000,
        amount_to_deposit(bounty) is Some <==> bounty + 1_000 <= 0xffff_ffff_ffff_ffff,
        amount_to_deposit(bounty) is Some ==> amount_to_deposit(bounty)->0 == bounty + 1_000,
        reserved_until(now).nanos == now.nanos + 3_600_000_000_000,
        bond_amount(t) == t.bounty + 1_000,
        bond_purpose(task_id, value) == (PurposeView::DisputeBond { task_id, reason: value }),
{
}

/// A bond is taken for a disputable task whose answer can be challenged, from
/// anybody but who gave the answer.
pub proof fn lemma_who_may_offer_a_bond(b: BoardView, task_id: Id, pubkey: PublicKey)
    ensures
        ({
            let t = b.tasks[task_id];
            bond_intent_refusal(b, task_id, pubkey) is None <==> {
                &&& b.tasks.contains_key(task_id)
                &&& t.kind is Disputable
                &&& t.status == TaskStatus::AwaitingDispute
                &&& t.claimant != Some(pubkey)
                &&& t.bounty + 1_000 <= 0xffff_ffff_ffff_ffff
            }
        }),
{
}

/// The operator can promise a bounty that the balance still covers, and a consensus
/// task can be posted while what is at stake on agreement stays under the ceiling.
pub proof fn lemma_what_can_be_promised(b: BoardView, balance: u64, bounty: u64, ceiling: u64)
    requires
        0 <= b.operator_bounties(),
        0 <= b.consensus_bounties(),
        ceiling < 0xffff_ffff_ffff_ffff,
    ensures
        bounty > 0 ==> (funding_refusal(b, balance, bounty) is None <==> b.operator_bounties() + bounty <= balance),
        exposure_refusal(b, bounty, ceiling) is None <==> b.consensus_bounties() + bounty <= ceiling,
{
}

/// The windows of a consensus task are from a minute to a year, its assignees from
/// two to a hundred, and its description not too long; an expected hash has
/// thirty-two bytes. Of two refusals the first is given.
pub proof fn lemma_limits_of_a_consensus_task(
    description: Seq<char>,
    n: u32,
    join: i64,
    submission: i64,
    decoded: Result<Seq<u8>, HexError>,
)
    ensures
        consensus_refusal(description, n, join, submission) is None <==> {
            &&& description.len() <= 20_000
            &&& 2 <= n <= 100
            &&& 1 <= join <= 525_600
            &&& 1 <= submission <= 525_600
        },
        hash_refusal(decoded) is None <==> decoded is Ok && decoded->Ok_0.len() == 32,
{
}

/// Whether the tags are those that were asked for: each of them in lower case and
/// without the white space around it, and the blank ones left out.
pub open spec fn are_tags_of(kept: Seq<Seq<char>>, asked: Seq<Seq<char>>) -> bool {
    forall|tag: Seq<char>| #[trigger]
        kept.contains(tag) <==> tag.len() > 0 && exists|i: int|
            0 <= i < asked.len() && lowercase(trimmed(#[trigger] asked[i])) == tag
}

proof fn lemma_tags_kept(kept: Seq<Seq<char>>, asked: Seq<Seq<char>>)
    requires
        keeps_tags(kept, normals(asked)),
    ensures
        are_tags_of(kept, asked),
{
    let all = normals(asked);
    assert forall|tag: Seq<char>| #[trigger]
        kept.contains(tag) <==> tag.len() > 0 && exists|i: int|
            0 <= i < asked.len() && lowercase(trimmed(#[trigger] asked[i])) == tag by {
        if kept.contains(tag) {
            let i = choose|i: int| 0 <= i < all.len() && all[i] == tag;
            assert(lowercase(trimmed(asked[i])) == tag);
        }
        if tag.len() > 0 && exists|i: int| 0 <= i < asked.len() && lowercase(trimmed(#[trigger] asked[i])) == tag {
            let i = choose|i: int| 0 <= i < asked.len() && lowercase(trimmed(#[trigger] asked[i])) == tag;
            assert(all[i] == tag);
        }
    }
}

/// A task has the tags and the hash that were asked for.
pub proof fn lemma_tags_and_hash_are_kept(
    p: EscrowTaskPayload,
    hash: Seq<u8>,
    i: TaskIntent,
    q: EscrowConsensusTaskPayload,
    j: ConsensusTaskIntent,
    r: EscrowDisputableTaskPayload,
    k: DisputableTaskIntent,
    required: u64,
)
    ensures
        meets_task(p, hash, i, required) ==> i.expected_output_hash == digest_of(hash) && are_tags_of(
            i.capabilities@,
            p.capabilities@,
        ),
        meets_consensus_task(q, j, required) ==> are_tags_of(j.capabilities@, q.capabilities@),
        meets_disputable_task(r, k, required) ==> are_tags_of(k.capabilities@, r.capabilities@),
{
    if meets_task(p, hash, i, required) {
        lemma_tags_kept(i.capabilities@, p.capabilities@);
    }
    if meets_consensus_task(q, j, required) {
        lemma_tags_kept(j.capabilities@, q.capabilities@);
    }
    if meets_disputable_task(r, k, required) {
        lemma_tags_kept(k.capabilities@, r.capabilities@);
    }
}

/// The operator's tasks are as they were asked for, too.
pub proof fn lemma_operator_gets_what_was_asked(
    p: CreateTaskPayload,
    hash: Seq<u8>,
    i: TaskIntent,
    q: CreateConsensusTaskPayload,
    j: ConsensusTaskIntent,
)
    ensures
        meets_operator_task(p, hash, i) ==> {
            &&& i.description@ == p.description@
            &&& i.bounty == p.bounty
            &&& i.expected_output_hash == digest_of(hash)
            &&& i.min_reputation == p.min_reputation
            &&& are_tags_of(i.capabilities@, p.capabilities@)
        },
        meets_operator_consensus_task(q, j) ==> {
            &&& j.description@ == q.description@
            &&& j.bounty == q.bounty
            &&& j.num_assignees == q.num_assignees
            &&& j.join_window_minutes == q.join_window_minutes
            &&& j.submission_window_minutes == q.submission_window_minutes
            &&& j.min_reputation == q.min_reputation
            &&& are_tags_of(j.capabilities@, q.capabilities@)
        },
{
    if meets_operator_task(p, hash, i) {
        lemma_tags_kept(i.capabilities@, p.capabilities@);
    }
    if meets_operator_consensus_task(q, j) {
        lemma_tags_kept(j.capabilities@, q.capabilities@);
    }
}

/// A task for several is joined, and any other claimed, for half an hour. Its answer
/// is taken as its kind asks.
pub proof fn lemma_taking_a_task(b: BoardView, task_id: Id, agent: PublicKey, now: Timestamp)
    requires
        b.tasks.contains_key(task_id),
        in_calendar(now.nanos + 1_800_000_000_000),
    ensures
        ({
            let t = b.tasks[task_id];
            let u = taken(t, agent, now);
            &&& t.kind is Consensus ==> taking_refusal(b, task_id, agent, now) == join_refusal(b, task_id, agent, now)
            &&& !(t.kind is Consensus) ==> {
                &&& taking_refusal(b, task_id, agent, now) == claim_refusal(b, task_id, agent)
                &&& u.status == TaskStatus::Claimed
                &&& u.claimant == Some(agent)
                &&& u.claim_deadline is Some
                &&& u.claim_deadline->0.nanos == now.nanos + 1_800_000_000_000
                &&& u.kind == t.kind
                &&& u.bounty == t.bounty
                &&& u.id == t.id
            }
            &&& dispatch_of(t.kind) is HashMatch <==> t.kind is HashMatch
            &&& dispatch_of(t.kind) is Consensus <==> t.kind is Consensus
            &&& dispatch_of(t.kind) is Disputable <==> t.kind is Disputable
        }),
{
}

/// The first part that is meant for an agent is theirs.
pub proof fn lemma_part_of(payouts: Seq<(PublicKey, u64)>, agent: PublicKey)
    ensures
        match part_of(payouts, agent) {
            Some(share) => exists|i: int|
                0 <= i < payouts.len() && #[trigger] payouts[i] == (agent, share) && forall|j: int|
                    0 <= j < i ==> (#[trigger] payouts[j]).0 != agent,
            None => forall|i: int| 0 <= i < payouts.len() ==> (#[trigger] payouts[i]).0 != agent,
        },
    decreases payouts.len(),
{
    if payouts.len() > 0 {
        if payouts[0].0 == agent {
            assert(payouts[0] == (agent, payouts[0].1));
        } else {
            let rest = payouts.skip(1);
            lemma_part_of(rest, agent);
            assert forall|i: int| 0 < i < payouts.len() implies #[trigger] payouts[i] == rest[i - 1] by {
            }
            match part_of(rest, agent) {
                Some(share) => {
                    let i = choose|i: int|
                        0 <= i < rest.len() && #[trigger] rest[i] == (agent, share) && forall|j: int|
                            0 <= j < i ==> (#[trigger] rest[j]).0 != agent;
                    assert(payouts[i + 1] == (agent, share));
                    assert forall|j: int| 0 <= j < i + 1 implies (#[trigger] payouts[j]).0 != agent by {
                        if j > 0 {
                            assert(rest[j - 1].0 != agent);
                        }
                    }
                },
                None => {},
            }
        }
    }
}

/// Who gave the right answer to a task that a hash decides is told of the bounty,
/// and of a payment if it went out; who gave a wrong one of neither. An answer that
/// can be challenged is not paid yet, nor decided. Of several answers none is paid
/// before all are decided, and then whoever has a part is told how much, and whether
/// it is paid or on its way.
pub proof fn lemma_what_is_told_of_an_answer(
    verified: bool,
    paid: bool,
    resolved: bool,
    t: TaskView,
    b: BoardView,
    agent: PublicKey,
)
    ensures
        ({
            let h = told_of_hash(verified, paid, t);
            &&& h.verified == verified
            &&& h.paid == (verified && paid)
            &&& verified ==> h.bounty == Some(t.bounty)
            &&& !verified ==> h.bounty is None
            &&& h.resolved is None
        }),
        ({
            let d = open_to_challenge(t);
            d.verified && !d.paid && d.bounty == Some(t.bounty) && d.resolved == Some(false)
        }),
        ({
            let v = told_of_vote(resolved, t, b, agent);
            let share = part_of(t.pending(), agent);
            &&& v.resolved == Some(resolved)
            &&& v.verified == (resolved && share is Some)
            &&& v.bounty == if resolved {
                share
            } else {
                None
            }
            &&& v.paid == (resolved && share is Some && was_sent(b, t.id, agent))
        }),
        was_sent(b, t.id, agent) <==> {
            ||| b.tasks.contains_key(t.id) && b.tasks[t.id].paid_to(agent)
            ||| b.payout_attempts.contains_key(PayoutKey { task_id: t.id, recipient: agent })
        },
{
}

/// After an answer the record of who gave it is kept, and once a task for several
/// is decided those of all its assignees, each once.
pub proof fn lemma_whose_records_are_kept(
    b: BoardView,
    t: TaskView,
    submitter: PublicKey,
    resolved: bool,
    agent: PublicKey,
    record: Reputation,
)
    ensures
        touched_records(b, t, submitter, resolved)[0] == (submitter, b.reputation_of(submitter)),
        touched_records(b, t, submitter, resolved).contains((agent, record)) <==> record == b.reputation_of(agent) && (
        agent == submitter || (resolved && t.kind is Consensus && exists|i: int|
            0 <= i < t.kind->assignees.len() && (#[trigger] t.kind->assignees[i]).0 == agent)),
{
    let all = touched_records(b, t, submitter, resolved);
    let mine = (submitter, b.reputation_of(submitter));
    assert(all[0] == mine);
    if t.kind is Consensus && resolved {
        let keys = t.kind->assignees.map_values(|row: (PublicKey, AssignmentView)| row.0);
        let f = other_record_of(b, submitter);
        let others = pick(keys, f);
        assert(all == seq![mine] + others);
        if all.contains((agent, record)) {
            let j = choose|j: int| 0 <= j < all.len() && all[j] == (agent, record);
            if j > 0 {
                assert(others[j - 1] == (agent, record));
                lemma_pick_source(keys, f, j - 1);
                let i = choose|i: int| 0 <= i < keys.len() && f(#[trigger] keys[i]) == Some(others[j - 1]);
                assert(t.kind->assignees[i].0 == agent);
            }
        }
        if agent != submitter && record == b.reputation_of(agent) && exists|i: int|
            0 <= i < t.kind->assignees.len() && (#[trigger] t.kind->assignees[i]).0 == agent {
            let i = choose|i: int| 0 <= i < t.kind->assignees.len() && (#[trigger] t.kind->assignees[i]).0 == agent;
            assert(keys[i] == agent);
            lemma_pick_found(keys, f, i);
            let j = choose|j: int| 0 <= j < others.len() && others[j] == f(keys[i])->0;
            assert(all[j + 1] == (agent, record));
        }
    } else {
        assert(all =~= seq![mine]);
    }
}

/// What a refusal answers: what is not there is not found; what is not the caller's
/// to do is forbidden; an order or a withdrawal that makes no sense is a bad request;
/// and whatever else stands in the way is a conflict.
pub proof fn lemma_how_refusals_are_answered(e: BoardError)
    ensures
        ({
            let status = status_of(board_answer(e));
            let missing = e is NotFound || e is EscrowNotFound || e is OrderNotFound;
            let barred = e is NotClaimant || e is InsufficientReputation || e is PosterCannotClaimOwnTask
                || e is AssigneeCannotDisputeOwnSubmission || e is NotOrderOwner;
            let senseless = e is InvalidOrder || e is OrderNotionalOverflow || e is ZeroWithdrawal;
            &&& missing ==> status == 404
            &&& barred ==> status == 403
            &&& senseless ==> status == 400
            &&& !missing && !barred && !senseless ==> status == 409
        }),
        board_error(e).answer == board_answer(e),
        board_error(e).challenge is None,
{
}

/// A request whose signature does not hold is unauthorized, one that cannot be read
/// a bad request, and one that the hub cannot judge now is for later. A challenge
/// that is unknown is not found, one that is spent a conflict, and one of another
/// key forbidden.
pub proof fn lemma_how_strangers_are_answered(a: AuthError, r: RedemptionError)
    ensures
        ({
            let status = status_of(auth_answer(a));
            &&& a is ClockDrift || a is Replayed || a is BadSignature ==> status == 401
            &&& a is BadPublicKey || a is BadSignatureEncoding ==> status == 400
            &&& a is GuardWarmingUp || a is GuardUnavailable ==> status == 503
        }),
        ({
            let status = status_of(redemption_answer(r));
            &&& r is Unknown ==> status == 404
            &&& r is AlreadyRedeemed ==> status == 409
            &&& r is WrongKey ==> status == 403
            &&& r is Expired || r is Unsolved ==> status == 400
            &&& r is NotRecorded ==> status == 503
        }),
{
}

/// Tags are refused exactly if there are more than twenty of them, or one is longer
/// than sixty-four characters as it would be kept.
pub proof fn lemma_which_tags_are_refused(raw: Seq<Seq<char>>)
    ensures
        tags_refusal(raw) is None <==> raw.len() <= 20 && overlong(normals(raw)) is None,
        raw.len() > 20 ==> tags_refusal(raw) is Some,
{
}

}
