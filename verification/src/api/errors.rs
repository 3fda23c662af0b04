//! What the hub answers when it turns a request away.
use crate::auth::{AuthError, VerifyError};
use crate::board::types::BoardError;
use crate::faucet_pow::{Challenge, ChallengeView, RedemptionError};
use crate::text::{dec, decimal, joined};
use vstd::prelude::*;
use vstd::string::*;

verus! {

/// Why a request is turned away, and what the caller is told.
#[derive(Debug)]
pub enum ApiError {
    BadRequest(String),
    Unauthorized(String),
    Forbidden(String),
    NotFound(String),
    Conflict(String),
    TooManyRequests(String),
    Internal(String),
    /// The hub cannot serve the request yet.
    ServiceUnavailable(String),
    /// The hub cannot serve the request yet, and knows when to come back.
    Unavailable {
        message: String,
        /// In seconds.
        retry_after: u64,
        /// A challenge to start again from, where the last one is spent.
        challenge: Option<Challenge>,
    },
}

/// The class of an answer.
#[derive(Debug, Clone, Copy, PartialEq, Eq, Structural)]
pub enum Answer {
    BadRequest,
    Unauthorized,
    Forbidden,
    NotFound,
    Conflict,
    TooManyRequests,
    Internal,
    ServiceUnavailable,
    Unavailable { retry_after: u64 },
}

/// What an answer shows.
#[verifier::ext_equal]
pub struct ErrorView {
    pub answer: Answer,
    pub message: Seq<char>,
    pub challenge: Option<ChallengeView>,
}

/// An answer with a message alone.
pub open spec fn told(answer: Answer, message: Seq<char>) -> ErrorView {
    ErrorView { answer, message, challenge: None }
}

impl View for ApiError {
    type V = ErrorView;

    open spec fn view(&self) -> ErrorView {
        match self {
            ApiError::BadRequest(m) => told(Answer::BadRequest, m@),
            ApiError::Unauthorized(m) => told(Answer::Unauthorized, m@),
            ApiError::Forbidden(m) => told(Answer::Forbidden, m@),
            ApiError::NotFound(m) => told(Answer::NotFound, m@),
            ApiError::Conflict(m) => told(Answer::Conflict, m@),
            ApiError::TooManyRequests(m) => told(Answer::TooManyRequests, m@),
            ApiError::Internal(m) => told(Answer::Internal, m@),
            ApiError::ServiceUnavailable(m) => told(Answer::ServiceUnavailable, m@),
            ApiError::Unavailable { message, retry_after, challenge } => ErrorView {
                answer: Answer::Unavailable { retry_after: *retry_after },
                message: message@,
                challenge: match challenge {
                    Some(c) => Some(c@),
                    None => None,
                },
            },
        }
    }
}

/// The error inside a result, by what it shows.
pub open spec fn refused<T>(r: Result<T, ApiError>, e: ErrorView) -> bool {
    r is Err && r->Err_0@ == e
}

/// The HTTP status of an answer.
pub open spec fn status_of(answer: Answer) -> u16 {
    match answer {
        Answer::BadRequest => 400,
        Answer::Unauthorized => 401,
        Answer::Forbidden => 403,
        Answer::NotFound => 404,
        Answer::Conflict => 409,
        Answer::TooManyRequests => 429,
        Answer::Internal => 500,
        Answer::ServiceUnavailable => 503,
        Answer::Unavailable { .. } => 503,
    }
}

impl ApiError {
    /// The error of that class with that message.
    pub fn of(answer: Answer, message: String) -> (e: ApiError)
        ensures
            e@ == told(answer, message@),
    {
        match answer {
            Answer::BadRequest => ApiError::BadRequest(message),
            Answer::Unauthorized => ApiError::Unauthorized(message),
            Answer::Forbidden => ApiError::Forbidden(message),
            Answer::NotFound => ApiError::NotFound(message),
            Answer::Conflict => ApiError::Conflict(message),
            Answer::TooManyRequests => ApiError::TooManyRequests(message),
            Answer::Internal => ApiError::Internal(message),
            Answer::ServiceUnavailable => ApiError::ServiceUnavailable(message),
            Answer::Unavailable { retry_after } => ApiError::Unavailable { message, retry_after, challenge: None },
        }
    }

    /// What the caller is told.
    pub fn message(&self) -> (text: String)
        ensures
            text@ == self@.message,
    {
        match self {
            ApiError::BadRequest(m) => m.clone(),
            ApiError::Unauthorized(m) => m.clone(),
            ApiError::Forbidden(m) => m.clone(),
            ApiError::NotFound(m) => m.clone(),
            ApiError::Conflict(m) => m.clone(),
            ApiError::TooManyRequests(m) => m.clone(),
            ApiError::Internal(m) => m.clone(),
            ApiError::ServiceUnavailable(m) => m.clone(),
            ApiError::Unavailable { message, .. } => message.clone(),
        }
    }

    /// The HTTP status of the answer.
    pub fn status(&self) -> (code: u16)
        ensures
            code == status_of(self@.answer),
    {
        match self {
            ApiError::BadRequest(_) => 400,
            ApiError::Unauthorized(_) => 401,
            ApiError::Forbidden(_) => 403,
            ApiError::NotFound(_) => 404,
            ApiError::Conflict(_) => 409,
            ApiError::TooManyRequests(_) => 429,
            ApiError::Internal(_) => 500,
            ApiError::ServiceUnavailable(_) => 503,
            ApiError::Unavailable { .. } => 503,
        }
    }
}

/// A sentence about the task a request concerns: `before`, then the word,
/// then `after`.
pub open spec fn naming_task(before: Seq<char>, after: Seq<char>) -> Seq<char> {
    before + "task"@ + after
}

/// A sentence about the task a request concerns.
fn name_task(before: &str, after: &str) -> (text: String)
    ensures
        text@ == naming_task(before@, after@),
{
    let mut text = joined(before, "task");
    text.append(after);
    text
}

/// Two numbers in a sentence.
pub(crate) fn worded_pair(a: &str, m: u64, b: &str, n: u64, c: &str) -> (text: String)
    ensures
        text@ == a@ + dec(m as nat) + b@ + dec(n as nat) + c@,
{
    let mut text = joined(a, decimal(m).as_str());
    text.append(b);
    text.append(decimal(n).as_str());
    text.append(c);
    text
}

impl BoardError {
    /// What the caller is told.
    pub open spec fn text(self) -> Seq<char> {
        match self {
            BoardError::NotFound => "task not found"@,
            BoardError::NotOpen => "task is not open"@,
            BoardError::NotClaimed => "task is not claimed"@,
            BoardError::NotClaimant => naming_task("you are not the claimant of this "@, ""@),
            BoardError::NotVerified => "task has not been verified yet"@,
            BoardError::AlreadyClaimed => "this pubkey has already claimed a faucet grant"@,
            BoardError::AlreadyJoined => naming_task("you have already joined this "@, ""@),
            BoardError::JoinWindowExpired => naming_task("the window to join this "@, " has passed"@),
            BoardError::SubmissionWindowExpired => naming_task("the window to submit an answer for this "@, " has passed"@),
            BoardError::WrongTaskKind => naming_task("this operation doesn't apply to this "@, "'s verification kind"@),
            BoardError::AlreadySubmitted => naming_task("you have already submitted an answer for this "@, ""@),
            BoardError::InsufficientReputation { required, have } => naming_task("this "@, " requires at least "@) + dec(
                required as nat,
            ) + " completed tasks, you have "@ + dec(have as nat),
            BoardError::AlreadyTerminal => "task is already in a terminal state and cannot be cancelled"@,
            BoardError::EscrowNotFound => "no such escrow deposit"@,
            BoardError::EscrowNotReserved => "this escrow deposit has already been consumed or refunded"@,
            BoardError::EscrowExpired => "this escrow deposit's reservation window has expired"@,
            BoardError::EscrowUnderfunded { required, have } => "escrow deposit requires at least "@ + dec(
                required as nat,
            ) + ", only "@ + dec(have as nat) + " has been received so far"@,
            BoardError::PosterCannotClaimOwnTask => "a task's own poster may not claim or join it themselves"@,
            BoardError::WrongEscrowPurpose => "this escrow deposit's purpose doesn't match the confirmation endpoint used"@,
            BoardError::DisputeWindowClosed => naming_task("the window to dispute this "@, "'s submission has passed"@),
            BoardError::AssigneeCannotDisputeOwnSubmission => "the assignee may not dispute their own submission"@,
            BoardError::AlreadyDisputed => naming_task("this "@, " already has a dispute filed against it"@),
            BoardError::NotDisputed => naming_task("this "@, " has no dispute awaiting resolution"@),
            BoardError::CannotCancelWhileDisputed => "cannot cancel a task with an active dispute in progress"@,
            BoardError::OrderNotFound => "no such order"@,
            BoardError::NotOrderOwner => "you are not the owner of this order"@,
            BoardError::OrderNotOpen => "order is not open"@,
            BoardError::InvalidOrder => "order price and quantity must both be non-zero"@,
            BoardError::OrderNotionalOverflow => "order notional (price times quantity) overflows"@,
            BoardError::ZeroWithdrawal => "withdrawal amount must be non-zero"@,
            BoardError::InsufficientBalance { available, required } => "insufficient balance: "@ + dec(
                available as nat,
            ) + " available, "@ + dec(required as nat) + " required"@,
        }
    }

    /// What the caller is told.
    pub fn message(&self) -> (text: String)
        ensures
            text@ == self.text(),
    {
        proof {
            reveal_strlit("");
        }
        let text = match self {
            BoardError::NotFound => "task not found".to_owned(),
            BoardError::NotOpen => "task is not open".to_owned(),
            BoardError::NotClaimed => "task is not claimed".to_owned(),
            BoardError::NotClaimant => name_task("you are not the claimant of this ", ""),
            BoardError::NotVerified => "task has not been verified yet".to_owned(),
            BoardError::AlreadyClaimed => "this pubkey has already claimed a faucet grant".to_owned(),
            BoardError::AlreadyJoined => name_task("you have already joined this ", ""),
            BoardError::JoinWindowExpired => name_task("the window to join this ", " has passed"),
            BoardError::SubmissionWindowExpired => name_task("the window to submit an answer for this ", " has passed"),
            BoardError::WrongTaskKind => name_task("this operation doesn't apply to this ", "'s verification kind"),
            BoardError::AlreadySubmitted => name_task("you have already submitted an answer for this ", ""),
            BoardError::InsufficientReputation { required, have } => worded_pair(
                name_task("this ", " requires at least ").as_str(),
                *required,
                " completed tasks, you have ",
                *have,
                "",
            ),
            BoardError::AlreadyTerminal => "task is already in a terminal state and cannot be cancelled".to_owned(),
            BoardError::EscrowNotFound => "no such escrow deposit".to_owned(),
            BoardError::EscrowNotReserved => "this escrow deposit has already been consumed or refunded".to_owned(),
            BoardError::EscrowExpired => "this escrow deposit's reservation window has expired".to_owned(),
            BoardError::EscrowUnderfunded { required, have } => worded_pair(
                "escrow deposit requires at least ",
                *required,
                ", only ",
                *have,
                " has been received so far",
            ),
            BoardError::PosterCannotClaimOwnTask => "a task's own poster may not claim or join it themselves".to_owned(),
            BoardError::WrongEscrowPurpose => "this escrow deposit's purpose doesn't match the confirmation endpoint used".to_owned(),
            BoardError::DisputeWindowClosed => name_task("the window to dispute this ", "'s submission has passed"),
            BoardError::AssigneeCannotDisputeOwnSubmission => "the assignee may not dispute their own submission".to_owned(),
            BoardError::AlreadyDisputed => name_task("this ", " already has a dispute filed against it"),
            BoardError::NotDisputed => name_task("this ", " has no dispute awaiting resolution"),
            BoardError::CannotCancelWhileDisputed => "cannot cancel a task with an active dispute in progress".to_owned(),
            BoardError::OrderNotFound => "no such order".to_owned(),
            BoardError::NotOrderOwner => "you are not the owner of this order".to_owned(),
            BoardError::OrderNotOpen => "order is not open".to_owned(),
            BoardError::InvalidOrder => "order price and quantity must both be non-zero".to_owned(),
            BoardError::OrderNotionalOverflow => "order notional (price times quantity) overflows".to_owned(),
            BoardError::ZeroWithdrawal => "withdrawal amount must be non-zero".to_owned(),
            BoardError::InsufficientBalance { available, required } => worded_pair(
                "insufficient balance: ",
                *available,
                " available, ",
                *required,
                " required",
            ),
        };
        assert(text@ =~= self.text());
        text
    }
}

/// How the board's refusals are answered.
pub open spec fn board_answer(e: BoardError) -> Answer {
    match e {
        BoardError::NotFound => Answer::NotFound,
        BoardError::NotOpen => Answer::Conflict,
        BoardError::NotClaimed => Answer::Conflict,
        BoardError::NotClaimant => Answer::Forbidden,
        BoardError::NotVerified => Answer::Conflict,
        BoardError::AlreadyClaimed => Answer::Conflict,
        BoardError::AlreadyJoined => Answer::Conflict,
        BoardError::JoinWindowExpired => Answer::Conflict,
        BoardError::SubmissionWindowExpired => Answer::Conflict,
        BoardError::WrongTaskKind => Answer::Conflict,
        BoardError::AlreadySubmitted => Answer::Conflict,
        BoardError::InsufficientReputation { .. } => Answer::Forbidden,
        BoardError::AlreadyTerminal => Answer::Conflict,
        BoardError::EscrowNotFound => Answer::NotFound,
        BoardError::EscrowNotReserved => Answer::Conflict,
        BoardError::EscrowExpired => Answer::Conflict,
        BoardError::EscrowUnderfunded { .. } => Answer::Conflict,
        BoardError::PosterCannotClaimOwnTask => Answer::Forbidden,
        BoardError::WrongEscrowPurpose => Answer::Conflict,
        BoardError::DisputeWindowClosed => Answer::Conflict,
        BoardError::AssigneeCannotDisputeOwnSubmission => Answer::Forbidden,
        BoardError::AlreadyDisputed => Answer::Conflict,
        BoardError::NotDisputed => Answer::Conflict,
        BoardError::CannotCancelWhileDisputed => Answer::Conflict,
        BoardError::OrderNotFound => Answer::NotFound,
        BoardError::NotOrderOwner => Answer::Forbidden,
        BoardError::OrderNotOpen => Answer::Conflict,
        BoardError::InvalidOrder => Answer::BadRequest,
        BoardError::OrderNotionalOverflow => Answer::BadRequest,
        BoardError::ZeroWithdrawal => Answer::BadRequest,
        BoardError::InsufficientBalance { .. } => Answer::Conflict,
    }
}

fn answer_of_board(e: &BoardError) -> (answer: Answer)
    ensures
        answer == board_answer(*e),
{
    match e {
        BoardError::NotFound
        | BoardError::EscrowNotFound
        | BoardError::OrderNotFound => Answer::NotFound,
        BoardError::NotOpen
        | BoardError::NotClaimed
        | BoardError::NotVerified
        | BoardError::AlreadyClaimed
        | BoardError::AlreadyJoined
        | BoardError::JoinWindowExpired
        | BoardError::SubmissionWindowExpired
        | BoardError::WrongTaskKind
        | BoardError::AlreadySubmitted
        | BoardError::AlreadyTerminal
        | BoardError::EscrowNotReserved
        | BoardError::EscrowExpired
        | BoardError::EscrowUnderfunded { .. }
        | BoardError::WrongEscrowPurpose
        | BoardError::DisputeWindowClosed
        | BoardError::AlreadyDisputed
        | BoardError::NotDisputed
        | BoardError::CannotCancelWhileDisputed
        | BoardError::OrderNotOpen
        | BoardError::InsufficientBalance { .. } => Answer::Conflict,
        BoardError::NotClaimant
        | BoardError::InsufficientReputation { .. }
        | BoardError::PosterCannotClaimOwnTask
        | BoardError::AssigneeCannotDisputeOwnSubmission
        | BoardError::NotOrderOwner => Answer::Forbidden,
        BoardError::InvalidOrder
        | BoardError::OrderNotionalOverflow
        | BoardError::ZeroWithdrawal => Answer::BadRequest,
    }
}

/// How the board's refusals are told.
pub open spec fn board_error(e: BoardError) -> ErrorView {
    told(board_answer(e), e.text())
}

/// How a failed redemption is answered.
pub open spec fn redemption_answer(e: RedemptionError) -> Answer {
    match e {
        RedemptionError::Unknown => Answer::NotFound,
        RedemptionError::AlreadyRedeemed => Answer::Conflict,
        RedemptionError::WrongKey => Answer::Forbidden,
        RedemptionError::Expired => Answer::BadRequest,
        RedemptionError::Unsolved => Answer::BadRequest,
        RedemptionError::NotRecorded(_) => Answer::ServiceUnavailable,
    }
}

/// How a request that is not authentic is answered.
pub open spec fn auth_answer(e: AuthError) -> Answer {
    match e {
        AuthError::ClockDrift => Answer::Unauthorized,
        AuthError::Replayed => Answer::Unauthorized,
        AuthError::BadSignature => Answer::Unauthorized,
        AuthError::BadPublicKey(_) => Answer::BadRequest,
        AuthError::BadSignatureEncoding(_) => Answer::BadRequest,
        AuthError::GuardWarmingUp => Answer::ServiceUnavailable,
        AuthError::GuardUnavailable(_) => Answer::ServiceUnavailable,
    }
}

impl ApiError {
    /// How the board's refusals are told.
    pub fn from_board(e: BoardError) -> (api: ApiError)
        ensures
            api@ == board_error(e),
    {
        ApiError::of(answer_of_board(&e), e.message())
    }

    /// How a failed redemption is told.
    pub fn from_redemption(e: RedemptionError) -> (api: ApiError)
        ensures
            api@ == told(redemption_answer(e), e.text()),
    {
        let message = e.message();
        match e {
            RedemptionError::Unknown => ApiError::NotFound(message),
            RedemptionError::AlreadyRedeemed => ApiError::Conflict(message),
            RedemptionError::WrongKey => ApiError::Forbidden(message),
            RedemptionError::Expired | RedemptionError::Unsolved => ApiError::BadRequest(message),
            RedemptionError::NotRecorded(_) => ApiError::ServiceUnavailable(message),
        }
    }

    /// How a request that is not authentic is told, in the words given.
    pub fn from_auth(e: &AuthError, message: String) -> (api: ApiError)
        ensures
            api@ == told(auth_answer(*e), message@),
    {
        match e {
            AuthError::ClockDrift | AuthError::Replayed | AuthError::BadSignature => ApiError::Unauthorized(message),
            AuthError::BadPublicKey(_) | AuthError::BadSignatureEncoding(_) => ApiError::BadRequest(message),
            AuthError::GuardWarmingUp | AuthError::GuardUnavailable(_) => ApiError::ServiceUnavailable(message),
        }
    }

    /// How a request that is turned away before anything else is told, in the
    /// words given.
    pub fn from_verify<Q>(e: &VerifyError<Q>, message: String) -> (api: ApiError)
        ensures
            api@ == told(
                match *e {
                    VerifyError::Auth(e) => auth_answer(e),
                    VerifyError::Quota(_) => Answer::TooManyRequests,
                },
                message@,
            ),
    {
        match e {
            VerifyError::Auth(e) => ApiError::from_auth(e, message),
            VerifyError::Quota(_) => ApiError::TooManyRequests(message),
        }
    }
}

}
