//! The faucet's rules: what it gives, how much of it in a day, and what it says
//! when it cannot.
use crate::api::errors::{redemption_answer, refused, told, Answer, ApiError, ErrorView};
use crate::board::faucet::{grant_recorded, lemma_grant_is_counted};
use crate::board::types::{Payment, PaymentPurpose, PaymentStatus};
use crate::board::{BoardView, TaskBoard};
use crate::faucet_pow::{Challenge, ChallengeBook, RedemptionError};
use crate::series::{FAUCET_GRANT_AMOUNT, HUB_TRANSACTION_FEE};
use crate::text::{dec, decimal, joined};
use crate::types::{Id, PublicKey, Timestamp, NANOS_PER_SECOND};
use vstd::prelude::*;
use vstd::string::*;

verus! {

/// Over how long grants are counted, in seconds: a day, wherever it begins.
pub const FAUCET_BUDGET_WINDOW_SECONDS: i64 = 86_400;

/// When to come back to a faucet that cannot pay, in seconds: a block later.
pub const FAUCET_RETRY_AFTER_SECONDS: u64 = 16;

/// When to come back to a faucet that has given its part, in seconds.
pub const FAUCET_BUDGET_RETRY_AFTER_SECONDS: u64 = 3600;

/// The second from which grants count at `now`.
pub open spec fn window_start(now: Timestamp) -> int {
    now.later(-FAUCET_BUDGET_WINDOW_SECONDS * NANOS_PER_SECOND).second()
}

fn starts_at(now: Timestamp) -> (cutoff: i64)
    requires
        now.valid(),
    ensures
        cutoff == window_start(now),
{
    now.plus_seconds(-FAUCET_BUDGET_WINDOW_SECONDS).timestamp()
}

/// How many grants a day's part of `daily` still allows.
pub open spec fn grants_left(b: BoardView, daily: u64, now: Timestamp) -> int {
    let spent = b.grants_since(window_start(now) as i64);
    if daily >= spent {
        daily - spent
    } else {
        0
    }
}

/// How many grants a day's part of `daily` still allows.
pub fn faucet_budget_remaining(board: &TaskBoard, daily: u64, now: Timestamp) -> (n: u64)
    requires
        board.wf(),
        now.valid(),
    ensures
        n == grants_left(board@, daily, now),
{
    daily.saturating_sub(board.faucet_granted_since(starts_at(now)))
}

/// What is told when the day's part is given.
pub open spec fn budget_spent(daily: u64) -> ErrorView {
    told(
        Answer::Unavailable { retry_after: FAUCET_BUDGET_RETRY_AFTER_SECONDS },
        "the faucet has made its "@ + dec(daily as nat)
            + " grants for the last 24 hours; it refills as older grants age out of the window"@,
    )
}

/// Whether nothing is left of the day.
pub open spec fn is_spent(b: BoardView, daily: u64, now: Timestamp) -> bool {
    grants_left(b, daily, now) == 0
}

/// Why a key is not granted to, if so. `message` is what is told of a grant before.
pub open spec fn grant_denied(b: BoardView, key: PublicKey, daily: u64, now: Timestamp, message: Seq<char>) -> Option<
    ErrorView,
> {
    if b.faucet_grants.contains_key(key) {
        Some(granted_before(message))
    } else if is_spent(b, daily, now) {
        Some(budget_spent(daily))
    } else {
        None
    }
}

/// How many grants a network has taken inside the window.
pub open spec fn taken_in_window(b: BoardView, network: Seq<char>, now: Timestamp) -> u64 {
    b.grants_to_since(network, window_start(now) as i64) as u64
}

/// Holds the faucet to a day's part of `daily` grants.
pub fn faucet_budget_exhausted(board: &TaskBoard, daily: u64, now: Timestamp) -> (r: Option<ApiError>)
    requires
        board.wf(),
        now.valid(),
    ensures
        match r {
            None => !is_spent(board@, daily, now),
            Some(e) => is_spent(board@, daily, now) && e@ == budget_spent(daily),
        },
{
    if faucet_budget_remaining(board, daily, now) > 0 {
        return None;
    }
    let mut message = joined("the faucet has made its ", decimal(daily).as_str());
    message.append(" grants for the last 24 hours; it refills as older grants age out of the window");
    Some(ApiError::Unavailable { message, retry_after: FAUCET_BUDGET_RETRY_AFTER_SECONDS, challenge: None })
}

/// What is told to a key that has had its grant.
pub open spec fn granted_before(message: Seq<char>) -> ErrorView {
    told(Answer::Conflict, message)
}

/// Turns a key away that has had its grant, or anybody once the day's part is
/// given. `message` is what the key is told.
pub fn check_grant(board: &TaskBoard, pubkey: &PublicKey, daily: u64, now: Timestamp, message: &str) -> (r: Result<
    (),
    ApiError,
>)
    requires
        board.wf(),
        now.valid(),
    ensures
        match grant_denied(board@, *pubkey, daily, now, message@) {
            Some(e) => refused(r, e),
            None => r is Ok,
        },
{
    if !board.can_claim_faucet(pubkey) {
        return Err(ApiError::Conflict(message.to_owned()));
    }
    match faucet_budget_exhausted(board, daily, now) {
        Some(e) => Err(e),
        None => Ok(()),
    }
}

/// Turns a key away that asks for a challenge and may not have a grant, before
/// it works for one.
pub fn check_challenge_request(board: &TaskBoard, pubkey: &PublicKey, daily: u64, now: Timestamp) -> (r: Result<
    (),
    ApiError,
>)
    requires
        board.wf(),
        now.valid(),
    ensures
        match grant_denied(board@, *pubkey, daily, now, "this pubkey has already claimed a faucet grant"@) {
            Some(e) => refused(r, e),
            None => r is Ok,
        },
{
    check_grant(board, pubkey, daily, now, "this pubkey has already claimed a faucet grant")
}

/// Turns a key away that claims a grant and may not have one.
pub fn check_claim(board: &TaskBoard, pubkey: &PublicKey, daily: u64, now: Timestamp) -> (r: Result<(), ApiError>)
    requires
        board.wf(),
        now.valid(),
    ensures
        match grant_denied(
            board@,
            *pubkey,
            daily,
            now,
            "this pubkey already has a faucet grant or pending payment"@,
        ) {
            Some(e) => refused(r, e),
            None => r is Ok,
        },
{
    check_grant(board, pubkey, daily, now, "this pubkey already has a faucet grant or pending payment")
}

/// Why a key that claims a grant may not have one.
pub open spec fn claim_denied(b: BoardView, key: PublicKey, daily: u64, now: Timestamp) -> Option<ErrorView> {
    if b.faucet_grants.contains_key(key) {
        Some(granted_before("this pubkey already has a faucet grant or pending payment"@))
    } else if grants_left(b, daily, now) == 0 {
        Some(budget_spent(daily))
    } else {
        None
    }
}

/// Redeems a challenge for a grant: the claim is looked at first, so that a key
/// which may not have a grant keeps the work that it has done. `save` keeps the
/// redeemed challenge.
pub fn redeem_for_grant<F: FnOnce(&Challenge) -> Result<(), String>>(
    board: &TaskBoard,
    book: &mut ChallengeBook,
    id: Id,
    pubkey: &PublicKey,
    solution: u64,
    daily: u64,
    now: Timestamp,
    save: F,
) -> (r: Result<Challenge, ApiError>)
    requires
        board.wf(),
        now.valid(),
        forall|c: Challenge| save.requires((&c,)),
    ensures
        match claim_denied(board@, *pubkey, daily, now) {
            Some(e) => refused(r, e) && final(book)@ == old(book)@,
            None => match old(book)@.refusal(id, *pubkey, solution, now) {
                Some(e) => refused(r, told(redemption_answer(e), e.text())) && final(book)@ == old(book)@,
                None => exists|c: Challenge, outcome: Result<(), String>|
                    c@ == old(book)@.spent(id, now) && #[trigger] save.ensures((&c,), outcome) && match outcome {
                        Ok(_) => r is Ok && r->Ok_0@ == c@ && final(book)@ == old(book)@.with_redeemed(id, now),
                        Err(cause) => {
                            let e = RedemptionError::NotRecorded(cause);
                            refused(r, told(redemption_answer(e), e.text())) && final(book)@ == old(book)@
                        },
                    },
            },
        },
{
    match check_claim(board, pubkey, daily, now) {
        Err(e) => Err(e),
        Ok(()) => match book.redeem(id, pubkey, solution, now, save) {
            Err(e) => Err(ApiError::from_redemption(e)),
            Ok(challenge) => Ok(challenge),
        },
    }
}

/// What the next grant to a network costs, in expected hashes: `base` where the
/// network is not known, and otherwise what `price` makes of how many grants
/// the network has had in a day.
pub fn faucet_difficulty_for<F: FnOnce(u64) -> u64>(
    board: &TaskBoard,
    prefix: Option<&str>,
    base: u64,
    now: Timestamp,
    price: F,
) -> (hashes: u64)
    requires
        board.wf(),
        now.valid(),
        forall|taken: u64| price.requires((taken,)),
    ensures
        match prefix {
            None => hashes == base,
            Some(network) => price.ensures((taken_in_window(board@, network@, now),), hashes),
        },
{
    match prefix {
        None => base,
        Some(network) => {
            let taken = board.faucet_granted_from_prefix_since(network, starts_at(now));
            price(taken)
        },
    }
}

/// Whether `balance`, if it is known, pays for a grant and its fee.
pub open spec fn can_fund(balance: Option<u64>) -> bool {
    match balance {
        Some(n) => n >= FAUCET_GRANT_AMOUNT + HUB_TRANSACTION_FEE,
        None => true,
    }
}

/// Whether the operator can pay for a grant out of `balance`. A balance that is
/// not known is not an empty one.
pub fn operator_can_fund_a_grant(balance: Option<u64>) -> (r: bool)
    ensures
        r == can_fund(balance),
{
    match balance {
        Some(n) => n >= FAUCET_GRANT_AMOUNT + HUB_TRANSACTION_FEE,
        None => true,
    }
}

/// When it was found that a grant cannot be paid.
#[derive(Debug)]
pub enum GrantUnfunded {
    /// Before the challenge was spent: the solution can be presented again.
    BeforeRedemption,
    /// After it was spent, for that cause. With it comes the challenge to start
    /// again from, if one could be issued.
    AfterRedemption(String, Option<Challenge>),
}

/// What is told when a grant cannot be paid.
pub open spec fn unfunded(when: GrantUnfunded) -> ErrorView {
    let answer = Answer::Unavailable { retry_after: FAUCET_RETRY_AFTER_SECONDS };
    match when {
        GrantUnfunded::BeforeRedemption => told(
            answer,
            "the faucet cannot fund a grant at this instant; nothing was spent, so present the same solution again after the retry interval"@,
        ),
        GrantUnfunded::AfterRedemption(cause, challenge) => ErrorView {
            answer,
            message: "the faucet could not fund a grant ("@ + cause@
                + "); your challenge was spent, so a fresh one is attached at no further cost"@,
            challenge: match challenge {
                Some(c) => Some(c@),
                None => None,
            },
        },
    }
}

/// What is told when a grant cannot be paid.
pub fn grant_unfunded(when: GrantUnfunded) -> (e: ApiError)
    ensures
        e@ == unfunded(when),
{
    match when {
        GrantUnfunded::BeforeRedemption => ApiError::Unavailable {
            message: "the faucet cannot fund a grant at this instant; nothing was spent, so present the same solution again after the retry interval".to_owned(),
            retry_after: FAUCET_RETRY_AFTER_SECONDS,
            challenge: None,
        },
        GrantUnfunded::AfterRedemption(cause, challenge) => {
            let mut message = joined("the faucet could not fund a grant (", cause.as_str());
            message.append("); your challenge was spent, so a fresh one is attached at no further cost");
            ApiError::Unavailable { message, retry_after: FAUCET_RETRY_AFTER_SECONDS, challenge }
        },
    }
}

/// The faucet keeps to its day's part: a grant to a new key that passes the
/// check is within what the day allows, and leaves one less of it.
pub proof fn lemma_grants_stay_within_the_day(b: BoardView, key: PublicKey, daily: u64, now: Timestamp)
    requires
        b.wf(),
        now.valid(),
        !b.faucet_grants.contains_key(key),
        grants_left(b, daily, now) > 0,
    ensures
        ({
            let after = grant_recorded(b, key, now.second() as i64);
            &&& after.grants_since(window_start(now) as i64) <= daily
            &&& grants_left(after, daily, now) == grants_left(b, daily, now) - 1
        }),
{
    lemma_grant_is_counted(b, key, now.second() as i64, window_start(now) as i64);
}

/// The payment that a grant is.
pub open spec fn granting(operator: PublicKey, agent: PublicKey, id: Id, now: Timestamp) -> Payment {
    Payment {
        id,
        purpose: PaymentPurpose::Faucet,
        source: operator,
        recipient: agent,
        amount: FAUCET_GRANT_AMOUNT,
        status: PaymentStatus::Pending,
        created_at: now,
    }
}

/// The payment that a grant is.
pub fn grant_payment(operator: &PublicKey, agent: &PublicKey, id: Id, now: Timestamp) -> (p: Payment)
    ensures
        p == granting(*operator, *agent, id, now),
{
    Payment {
        id,
        purpose: PaymentPurpose::Faucet,
        source: *operator,
        recipient: *agent,
        amount: FAUCET_GRANT_AMOUNT,
        status: PaymentStatus::Pending,
        created_at: now,
    }
}

}
