//! Posting tasks: who may, what is asked of a task, and where its money comes
//! from.
use crate::api::errors::{board_error, refused, told, Answer, ApiError, ErrorView};
use crate::api::requests::{
    bounty_too_large, digest_of, escrow_amount_for, keeps_tags, normals, overlong, overlong_tag, parse_hex_hash,
    reads_digest, text_refusal, too_long, too_many_tags, validate_capabilities, validate_positive_minutes, validate_text_field,
    window_refusal, CreateConsensusTaskPayload, CreateTaskPayload, EscrowConsensusTaskPayload,
    EscrowDisputableTaskPayload, EscrowTaskPayload, ESCROW_RESERVATION_TTL_MINUTES, MAX_CAPABILITY_TAGS,
    MAX_CONSENSUS_ASSIGNEES, MAX_TEXT_FIELD_LENGTH,
};
use crate::board::deposits::{ConsensusTaskIntent, DisputableTaskIntent, EscrowPurpose, PurposeView, TaskIntent};
use crate::board::lifecycle::{posted, unjoined};
use crate::board::queries::{capped, consensus_share, operator_share};
use crate::board::types::{BoardError, KindView, Task, TaskKind, TaskStatus, TaskView};
use crate::board::{BoardView, TaskBoard};
use crate::series::HUB_TRANSACTION_FEE;
use crate::table::{lemma_map_sum_insert, Duplicate};
use crate::tags::Tags;
use crate::text::{dec, decimal, decoded_hex, hex_text, joined, HexError};
use crate::types::{Id, PublicKey, Timestamp, NANOS_PER_MINUTE};
use vstd::prelude::*;
use vstd::string::*;
use vstd::utf8::encode_utf8;

verus! {

/// Why what only the operator may do is refused, if it is.
pub open spec fn operator_refusal(pubkey: PublicKey, operator: PublicKey) -> Option<ErrorView> {
    if pubkey == operator {
        None
    } else {
        Some(not_operator())
    }
}

/// Why what only those who run the hub may do is refused, if it is.
pub open spec fn admin_refusal(pubkey: PublicKey, operator: PublicKey, admin_keys: Seq<Seq<char>>) -> Option<ErrorView> {
    if pubkey == operator || admin_keys.contains(hex_text(pubkey.bytes())) {
        None
    } else {
        Some(told(Answer::Forbidden, "not an admin key for this hub"@))
    }
}

/// Why a request signed for one record and addressed to another is refused.
pub open spec fn record_refusal(addressed: Id, signed: Id, what: Seq<char>) -> Option<ErrorView> {
    if addressed == signed {
        None
    } else {
        Some(other_record(what))
    }
}

/// Why the operator cannot promise one more bounty, if so.
pub open spec fn funding_refusal(b: BoardView, balance: u64, bounty: u64) -> Option<ErrorView> {
    if uncommitted(b, balance) >= bounty {
        None
    } else {
        Some(operator_short(b, balance, bounty))
    }
}

/// Until when a deposit that is asked for now can be paid.
pub open spec fn reserved_until(now: Timestamp) -> Timestamp {
    now.later(ESCROW_RESERVATION_TTL_MINUTES * NANOS_PER_MINUTE)
}

/// What a bond is for.
pub open spec fn bond_purpose(task_id: Id, reason: Seq<char>) -> PurposeView {
    PurposeView::DisputeBond { task_id, reason }
}

/// What a bond has to hold.
pub open spec fn bond_amount(t: TaskView) -> int {
    t.bounty + HUB_TRANSACTION_FEE
}

/// Why somebody is not told where to pay, if so.
pub open spec fn depositor_refusal(b: BoardView, escrow_id: Id, pubkey: PublicKey) -> Option<ErrorView> {
    if !b.pending_deposits.contains_key(escrow_id) {
        Some(board_error(BoardError::EscrowNotFound))
    } else if b.pending_deposits[escrow_id].depositor != pubkey {
        Some(told(Answer::Forbidden, "you are not the depositor of this escrow"@))
    } else {
        None
    }
}

/// Whether the operator's task is as it was asked for.
pub open spec fn meets_operator_task(p: CreateTaskPayload, hash: Seq<u8>, i: TaskIntent) -> bool {
    &&& i.description@ == p.description@
    &&& i.bounty == p.bounty
    &&& i.expected_output_hash == digest_of(hash)
    &&& i.min_reputation == p.min_reputation
    &&& i.capabilities.wf()
    &&& keeps_tags(i.capabilities@, normals(p.capabilities@))
}

/// Whether the operator's consensus task is as it was asked for.
pub open spec fn meets_operator_consensus_task(p: CreateConsensusTaskPayload, i: ConsensusTaskIntent) -> bool {
    &&& i.description@ == p.description@
    &&& i.bounty == p.bounty
    &&& i.num_assignees == p.num_assignees
    &&& i.join_window_minutes == p.join_window_minutes
    &&& i.submission_window_minutes == p.submission_window_minutes
    &&& i.min_reputation == p.min_reputation
    &&& i.capabilities.wf()
    &&& keeps_tags(i.capabilities@, normals(p.capabilities@))
}

/// Lets nobody but the operator pass.
pub fn require_operator(pubkey: &PublicKey, operator: &PublicKey) -> (r: Result<(), ApiError>)
    ensures
        match operator_refusal(*pubkey, *operator) {
            Some(e) => refused(r, e),
            None => r is Ok,
        },
{
    if *pubkey != *operator {
        return Err(ApiError::Forbidden("only the hub operator may post tasks".to_owned()));
    }
    Ok(())
}

/// What is told to anybody but the operator.
pub open spec fn not_operator() -> ErrorView {
    told(Answer::Forbidden, "only the hub operator may post tasks"@)
}

/// Lets nobody pass but the operator and the keys that may watch, which go by
/// their text.
pub fn require_admin(pubkey: &PublicKey, operator: &PublicKey, admin_keys: &Tags) -> (r: Result<(), ApiError>)
    requires
        admin_keys.wf(),
    ensures
        match admin_refusal(*pubkey, *operator, admin_keys@) {
            Some(e) => refused(r, e),
            None => r is Ok,
        },
{
    if *pubkey == *operator || admin_keys.contains(pubkey.to_string().as_str()) {
        return Ok(());
    }
    Err(ApiError::Forbidden("not an admin key for this hub".to_owned()))
}

/// What is told of a request whose address names another record than the one
/// that is signed.
pub open spec fn other_record(what: Seq<char>) -> ErrorView {
    told(Answer::BadRequest, what + " id in the URL doesn't match the signed payload"@)
}

/// Holds the record that the address names to the one that is signed.
pub fn check_same_id(addressed: Id, signed: Id, what: &str) -> (r: Result<(), ApiError>)
    ensures
        match record_refusal(addressed, signed, what@) {
            Some(e) => refused(r, e),
            None => r is Ok,
        },
{
    if addressed != signed {
        return Err(ApiError::BadRequest(joined(what, " id in the URL doesn't match the signed payload")));
    }
    Ok(())
}

/// The unsettled bounty of consensus tasks, with one more.
pub open spec fn exposure_with(b: BoardView, bounty: u64) -> u64 {
    capped(capped(b.consensus_bounties()) + bounty)
}

/// What is told when consensus tasks would stand for too much.
pub open spec fn too_exposed(ceiling: u64, after: u64) -> ErrorView {
    told(
        Answer::Unavailable { retry_after: 3600 },
        "consensus tasks are capped at "@ + dec(ceiling as nat)
            + " of unsettled bounty in total and this would make "@ + dec(after as nat)
            + "; consensus is experimental (see /llms.txt) and deliberately limited until its results can be validated"@,
    )
}

/// Holds the unsettled bounty of consensus tasks to the ceiling.
pub fn ensure_consensus_exposure_allows(board: &TaskBoard, bounty: u64, ceiling: u64) -> (r: Result<(), ApiError>)
    requires
        board.wf(),
    ensures
        match exposure_refusal(board@, bounty, ceiling) {
            Some(e) => refused(r, e),
            None => r is Ok,
        },
{
    let after = board.consensus_exposure().saturating_add(bounty);
    if after > ceiling {
        let mut message = joined("consensus tasks are capped at ", decimal(ceiling).as_str());
        message.append(" of unsettled bounty in total and this would make ");
        message.append(decimal(after).as_str());
        message.append(
            "; consensus is experimental (see /llms.txt) and deliberately limited until its results can be validated",
        );
        return Err(ApiError::Unavailable { message, retry_after: 3600, challenge: None });
    }
    Ok(())
}

/// What is left of the operator's balance once every bounty that stands on it
/// is set aside.
pub open spec fn uncommitted(b: BoardView, balance: u64) -> int {
    let allocated = b.operator_bounties();
    if balance >= allocated {
        balance - allocated
    } else {
        0
    }
}

/// What is told when the operator cannot pay for a task.
pub open spec fn operator_short(b: BoardView, balance: u64, bounty: u64) -> ErrorView {
    told(
        Answer::BadRequest,
        "insufficient escrow balance: operator has "@ + dec(balance as nat) + ", "@ + dec(
            b.operator_bounties() as nat,
        ) + " already allocated, this "@ + "task needs "@ + dec(bounty as nat) + ". Fund the operator address first."@,
    )
}

/// Holds a task that the operator pays for to the operator's balance.
pub fn ensure_operator_can_fund(board: &TaskBoard, balance: u64, bounty: u64) -> (r: Result<(), ApiError>)
    requires
        board.wf(),
        board@.operator_bounties() <= u64::MAX,
    ensures
        match funding_refusal(board@, balance, bounty) {
            Some(e) => refused(r, e),
            None => r is Ok,
        },
{
    let allocated = board.allocated_bounty();
    let free: u64 = if balance >= allocated {
        balance - allocated
    } else {
        0
    };
    if free < bounty {
        let mut message = joined("insufficient escrow balance: operator has ", decimal(balance).as_str());
        message.append(", ");
        message.append(decimal(allocated).as_str());
        message.append(" already allocated, this ");
        message.append("task needs ");
        message.append(decimal(bounty).as_str());
        message.append(". Fund the operator address first.");
        return Err(ApiError::BadRequest(message));
    }
    Ok(())
}

/// What is told of too few or too many assignees.
pub open spec fn assignees_refusal(n: u32) -> Option<ErrorView> {
    if n < 2 {
        Some(
            told(
                Answer::BadRequest,
                "a consensus task needs at least 2 assignees for majority agreement to mean anything"@,
            ),
        )
    } else if n > MAX_CONSENSUS_ASSIGNEES {
        Some(told(Answer::BadRequest, "num_assignees must be at most 100"@))
    } else {
        None
    }
}

fn check_assignees(n: u32) -> (r: Result<(), ApiError>)
    ensures
        match assignees_refusal(n) {
            Some(e) => refused(r, e),
            None => r is Ok,
        },
{
    if n < 2 {
        return Err(
            ApiError::BadRequest(
                "a consensus task needs at least 2 assignees for majority agreement to mean anything".to_owned(),
            ),
        );
    }
    if n > MAX_CONSENSUS_ASSIGNEES {
        return Err(ApiError::BadRequest("num_assignees must be at most 100".to_owned()));
    }
    Ok(())
}

/// What is told of a task's tags, if they are refused.
pub open spec fn tags_refusal(raw: Seq<Seq<char>>) -> Option<ErrorView> {
    if raw.len() > MAX_CAPABILITY_TAGS {
        Some(too_many_tags(raw.len()))
    } else {
        match overlong(normals(raw)) {
            Some(tag) => Some(overlong_tag(tag)),
            None => None,
        }
    }
}

/// What is told of a description, if it is refused.
pub open spec fn description_refusal(description: Seq<char>) -> Option<ErrorView> {
    if description.len() > MAX_TEXT_FIELD_LENGTH {
        Some(too_long("description"@))
    } else {
        None
    }
}

/// What is told of a hash that `hex::decode` makes so much of, if it is
/// refused.
pub open spec fn hash_refusal(decoded: Result<Seq<u8>, HexError>) -> Option<ErrorView> {
    match decoded {
        Ok(bytes) => if bytes.len() == 32 {
            None
        } else {
            Some(told(Answer::BadRequest, "expected_output_hash must be exactly 32 bytes (64 hex chars)"@))
        },
        Err(e) => Some(told(Answer::BadRequest, "expected_output_hash isn't valid hex: "@ + e.text())),
    }
}

/// What is told of a bounty, if it is refused.
pub open spec fn bounty_refusal(bounty: u64) -> Option<ErrorView> {
    if bounty + HUB_TRANSACTION_FEE <= u64::MAX {
        None
    } else {
        Some(bounty_too_large())
    }
}

/// The first refusal, or the second where there is none.
pub open spec fn or_else(first: Option<ErrorView>, second: Option<ErrorView>) -> Option<ErrorView> {
    match first {
        Some(e) => Some(e),
        None => second,
    }
}

/// Whether an intent and a deposit are what was asked for, with a hash that reads
/// as `hash`.
pub open spec fn meets_task(p: EscrowTaskPayload, hash: Seq<u8>, i: TaskIntent, required: u64) -> bool {
    &&& i.description@ == p.description@
    &&& i.bounty == p.bounty
    &&& i.expected_output_hash == digest_of(hash)
    &&& i.min_reputation == p.min_reputation
    &&& i.capabilities.wf()
    &&& keeps_tags(i.capabilities@, normals(p.capabilities@))
    &&& required == p.bounty + HUB_TRANSACTION_FEE
}

/// Whether an intent and a deposit are what was asked for.
pub open spec fn meets_consensus_task(p: EscrowConsensusTaskPayload, i: ConsensusTaskIntent, required: u64) -> bool {
    &&& i.description@ == p.description@
    &&& i.bounty == p.bounty
    &&& i.num_assignees == p.num_assignees
    &&& i.join_window_minutes == p.join_window_minutes
    &&& i.submission_window_minutes == p.submission_window_minutes
    &&& i.min_reputation == p.min_reputation
    &&& i.capabilities.wf()
    &&& keeps_tags(i.capabilities@, normals(p.capabilities@))
    &&& required == p.bounty + HUB_TRANSACTION_FEE
}

/// Whether an intent and a deposit are what was asked for.
pub open spec fn meets_disputable_task(p: EscrowDisputableTaskPayload, i: DisputableTaskIntent, required: u64) -> bool {
    &&& i.description@ == p.description@
    &&& i.bounty == p.bounty
    &&& i.dispute_window_minutes == p.dispute_window_minutes
    &&& i.min_reputation == p.min_reputation
    &&& i.capabilities.wf()
    &&& keeps_tags(i.capabilities@, normals(p.capabilities@))
    &&& required == p.bounty + HUB_TRANSACTION_FEE
}

/// What a task that its poster pays for is made from, and what the deposit
/// has to hold.
pub fn task_intent(p: &EscrowTaskPayload) -> (r: Result<(TaskIntent, u64), ApiError>)
    ensures
        exists|decoded: Result<Seq<u8>, HexError>| #[trigger]
            decoded_hex(encode_utf8(p.expected_output_hash@), decoded) && match or_else(
                or_else(description_refusal(p.description@), hash_refusal(decoded)),
                or_else(bounty_refusal(p.bounty), tags_refusal(p.capabilities@)),
            ) {
                Some(e) => refused(r, e),
                None => {
                    let (i, required) = r->Ok_0;
                    &&& r is Ok
                    &&& meets_task(*p, decoded->Ok_0, i, required)
                },
            },
{
    let hash = parse_hex_hash(p.expected_output_hash.as_str());
    let ghost decoded = choose|decoded: Result<Seq<u8>, HexError>| #[trigger]
        decoded_hex(encode_utf8(p.expected_output_hash@), decoded) && reads_digest(decoded, hash);
    assert(decoded_hex(encode_utf8(p.expected_output_hash@), decoded) && reads_digest(decoded, hash));
    match validate_text_field(p.description.as_str(), "description") {
        Err(e) => return Err(e),
        Ok(()) => {},
    }
    let expected_output_hash = match hash {
        Err(e) => return Err(e),
        Ok(h) => h,
    };
    let required = match escrow_amount_for(p.bounty) {
        Err(e) => return Err(e),
        Ok(n) => n,
    };
    let capabilities = match validate_capabilities(&p.capabilities) {
        Err(e) => return Err(e),
        Ok(tags) => tags,
    };
    Ok(
        (
            TaskIntent {
                description: p.description.clone(),
                bounty: p.bounty,
                expected_output_hash,
                min_reputation: p.min_reputation,
                capabilities,
            },
            required,
        ),
    )
}

/// What is told of the fixed parts of a consensus task, if they are refused.
pub open spec fn consensus_refusal(description: Seq<char>, num_assignees: u32, join: i64, submission: i64) -> Option<
    ErrorView,
> {
    or_else(
        or_else(description_refusal(description), assignees_refusal(num_assignees)),
        or_else(
            window_refusal(join, "join_window_minutes"@),
            window_refusal(submission, "submission_window_minutes"@),
        ),
    )
}

fn check_consensus(description: &str, num_assignees: u32, join: i64, submission: i64) -> (r: Result<(), ApiError>)
    ensures
        match consensus_refusal(description@, num_assignees, join, submission) {
            Some(e) => refused(r, e),
            None => r is Ok,
        },
{
    match validate_text_field(description, "description") {
        Err(e) => return Err(e),
        Ok(()) => {},
    }
    match check_assignees(num_assignees) {
        Err(e) => return Err(e),
        Ok(()) => {},
    }
    match validate_positive_minutes(join, "join_window_minutes") {
        Err(e) => return Err(e),
        Ok(()) => {},
    }
    validate_positive_minutes(submission, "submission_window_minutes")
}

/// What is told when consensus tasks would stand for too much, if they would.
pub open spec fn exposure_refusal(b: BoardView, bounty: u64, ceiling: u64) -> Option<ErrorView> {
    if exposure_with(b, bounty) <= ceiling {
        None
    } else {
        Some(too_exposed(ceiling, exposure_with(b, bounty)))
    }
}

/// What a consensus task that its poster pays for is made from, and what the
/// deposit has to hold.
pub fn consensus_intent(board: &TaskBoard, p: &EscrowConsensusTaskPayload, ceiling: u64) -> (r: Result<
    (ConsensusTaskIntent, u64),
    ApiError,
>)
    requires
        board.wf(),
    ensures
        match or_else(
            or_else(
                consensus_refusal(
                    p.description@,
                    p.num_assignees,
                    p.join_window_minutes,
                    p.submission_window_minutes,
                ),
                exposure_refusal(board@, p.bounty, ceiling),
            ),
            or_else(bounty_refusal(p.bounty), tags_refusal(p.capabilities@)),
        ) {
            Some(e) => refused(r, e),
            None => {
                let (i, required) = r->Ok_0;
                &&& r is Ok
                &&& meets_consensus_task(*p, i, required)
            },
        },
{
    match check_consensus(
        p.description.as_str(),
        p.num_assignees,
        p.join_window_minutes,
        p.submission_window_minutes,
    ) {
        Err(e) => return Err(e),
        Ok(()) => {},
    }
    match ensure_consensus_exposure_allows(board, p.bounty, ceiling) {
        Err(e) => return Err(e),
        Ok(()) => {},
    }
    let required = match escrow_amount_for(p.bounty) {
        Err(e) => return Err(e),
        Ok(n) => n,
    };
    let capabilities = match validate_capabilities(&p.capabilities) {
        Err(e) => return Err(e),
        Ok(tags) => tags,
    };
    Ok(
        (
            ConsensusTaskIntent {
                description: p.description.clone(),
                bounty: p.bounty,
                num_assignees: p.num_assignees,
                join_window_minutes: p.join_window_minutes,
                submission_window_minutes: p.submission_window_minutes,
                min_reputation: p.min_reputation,
                capabilities,
            },
            required,
        ),
    )
}

/// What a disputable task is made from, and what the deposit has to hold.
pub fn disputable_intent(p: &EscrowDisputableTaskPayload) -> (r: Result<(DisputableTaskIntent, u64), ApiError>)
    ensures
        match or_else(
            or_else(
                description_refusal(p.description@),
                window_refusal(p.dispute_window_minutes, "dispute_window_minutes"@),
            ),
            or_else(bounty_refusal(p.bounty), tags_refusal(p.capabilities@)),
        ) {
            Some(e) => refused(r, e),
            None => {
                let (i, required) = r->Ok_0;
                &&& r is Ok
                &&& meets_disputable_task(*p, i, required)
            },
        },
{
    match validate_text_field(p.description.as_str(), "description") {
        Err(e) => return Err(e),
        Ok(()) => {},
    }
    match validate_positive_minutes(p.dispute_window_minutes, "dispute_window_minutes") {
        Err(e) => return Err(e),
        Ok(()) => {},
    }
    let required = match escrow_amount_for(p.bounty) {
        Err(e) => return Err(e),
        Ok(n) => n,
    };
    let capabilities = match validate_capabilities(&p.capabilities) {
        Err(e) => return Err(e),
        Ok(tags) => tags,
    };
    Ok(
        (
            DisputableTaskIntent {
                description: p.description.clone(),
                bounty: p.bounty,
                dispute_window_minutes: p.dispute_window_minutes,
                min_reputation: p.min_reputation,
                capabilities,
            },
            required,
        ),
    )
}

/// Until when a deposit that is made at `now` stays open for funding.
pub fn reservation_ends(now: Timestamp) -> (end: Timestamp)
    ensures
        end == reserved_until(now),
{
    now.plus_minutes(ESCROW_RESERVATION_TTL_MINUTES)
}

/// Why `pubkey` may not challenge the answer to a task, so far as can be said
/// before the bond is paid.
pub open spec fn bond_intent_refusal(b: BoardView, task_id: Id, pubkey: PublicKey) -> Option<ErrorView> {
    if !b.tasks.contains_key(task_id) {
        Some(told(Answer::NotFound, "task not found"@))
    } else {
        let t = b.tasks[task_id];
        if !(t.kind is Disputable) {
            Some(board_error(BoardError::WrongTaskKind))
        } else if t.status != TaskStatus::AwaitingDispute {
            Some(board_error(BoardError::DisputeWindowClosed))
        } else if t.claimant == Some(pubkey) {
            Some(board_error(BoardError::AssigneeCannotDisputeOwnSubmission))
        } else {
            bounty_refusal(t.bounty)
        }
    }
}

/// What a challenger's bond is for, and how much it has to be: what the
/// deposit behind the task had to hold.
pub fn bond_intent(board: &TaskBoard, task_id: Id, pubkey: &PublicKey, reason: &str) -> (r: Result<
    (EscrowPurpose, u64),
    ApiError,
>)
    requires
        board.wf(),
    ensures
        match or_else(text_refusal(reason@, "reason"@), bond_intent_refusal(board@, task_id, *pubkey)) {
            Some(e) => refused(r, e),
            None => {
                &&& r is Ok
                &&& r->Ok_0.0@ == bond_purpose(task_id, reason@)
                &&& r->Ok_0.1 == bond_amount(board@.tasks[task_id])
            },
        },
{
    match validate_text_field(reason, "reason") {
        Err(e) => return Err(e),
        Ok(()) => {},
    }
    let task = match board.get_task(task_id) {
        Some(task) => task,
        None => return Err(ApiError::NotFound("task not found".to_owned())),
    };
    match &task.kind {
        TaskKind::Disputable { .. } => {},
        _ => return Err(ApiError::from_board(BoardError::WrongTaskKind)),
    }
    if task.status != TaskStatus::AwaitingDispute {
        return Err(ApiError::from_board(BoardError::DisputeWindowClosed));
    }
    if task.claimant == Some(*pubkey) {
        return Err(ApiError::from_board(BoardError::AssigneeCannotDisputeOwnSubmission));
    }
    match escrow_amount_for(task.bounty) {
        Err(e) => Err(e),
        Ok(required) => Ok((EscrowPurpose::DisputeBond { task_id, reason: reason.to_owned() }, required)),
    }
}

/// Lets nobody but its depositor confirm a deposit, and says where to look
/// for the money.
pub fn own_deposit(board: &TaskBoard, escrow_id: Id, pubkey: &PublicKey) -> (r: Result<PublicKey, ApiError>)
    requires
        board.wf(),
    ensures
        match depositor_refusal(board@, escrow_id, *pubkey) {
            Some(e) => refused(r, e),
            None => r is Ok && r->Ok_0 == board@.pending_deposits[escrow_id].deposit_pubkey,
        },
{
    match board.get_pending_deposit(escrow_id) {
        None => Err(ApiError::from_board(BoardError::EscrowNotFound)),
        Some(deposit) => {
            if deposit.depositor != *pubkey {
                return Err(ApiError::Forbidden("you are not the depositor of this escrow".to_owned()));
            }
            Ok(deposit.deposit_pubkey)
        },
    }
}

/// Holds a task that the operator is to pay for to the rules, and says what it
/// is made from.
pub fn check_task(p: &CreateTaskPayload, pubkey: &PublicKey, operator: &PublicKey) -> (r: Result<TaskIntent, ApiError>)
    ensures
        match operator_refusal(*pubkey, *operator) {
            Some(e) => refused(r, e),
            None => exists|decoded: Result<Seq<u8>, HexError>| #[trigger]
                decoded_hex(encode_utf8(p.expected_output_hash@), decoded) && match or_else(
                    or_else(description_refusal(p.description@), hash_refusal(decoded)),
                    tags_refusal(p.capabilities@),
                ) {
                    Some(e) => refused(r, e),
                    None => r is Ok && meets_operator_task(*p, decoded->Ok_0, r->Ok_0),
                },
        },
{
    match require_operator(pubkey, operator) {
        Err(e) => return Err(e),
        Ok(()) => {},
    }
    let hash = parse_hex_hash(p.expected_output_hash.as_str());
    let ghost decoded = choose|decoded: Result<Seq<u8>, HexError>| #[trigger]
        decoded_hex(encode_utf8(p.expected_output_hash@), decoded) && reads_digest(decoded, hash);
    assert(decoded_hex(encode_utf8(p.expected_output_hash@), decoded) && reads_digest(decoded, hash));
    match validate_text_field(p.description.as_str(), "description") {
        Err(e) => return Err(e),
        Ok(()) => {},
    }
    let expected_output_hash = match hash {
        Err(e) => return Err(e),
        Ok(h) => h,
    };
    let capabilities = match validate_capabilities(&p.capabilities) {
        Err(e) => return Err(e),
        Ok(tags) => tags,
    };
    Ok(
        TaskIntent {
            description: p.description.clone(),
            bounty: p.bounty,
            expected_output_hash,
            min_reputation: p.min_reputation,
            capabilities,
        },
    )
}

/// Holds a consensus task that the operator is to pay for to the rules, and
/// says what it is made from.
pub fn check_consensus_task(
    board: &TaskBoard,
    p: &CreateConsensusTaskPayload,
    pubkey: &PublicKey,
    operator: &PublicKey,
    ceiling: u64,
) -> (r: Result<ConsensusTaskIntent, ApiError>)
    requires
        board.wf(),
    ensures
        match operator_refusal(*pubkey, *operator) {
            Some(e) => refused(r, e),
            None => match or_else(
                or_else(
                    consensus_refusal(
                        p.description@,
                        p.num_assignees,
                        p.join_window_minutes,
                        p.submission_window_minutes,
                    ),
                    exposure_refusal(board@, p.bounty, ceiling),
                ),
                tags_refusal(p.capabilities@),
            ) {
                Some(e) => refused(r, e),
                None => r is Ok && meets_operator_consensus_task(*p, r->Ok_0),
            },
        },
{
    match require_operator(pubkey, operator) {
        Err(e) => return Err(e),
        Ok(()) => {},
    }
    match check_consensus(
        p.description.as_str(),
        p.num_assignees,
        p.join_window_minutes,
        p.submission_window_minutes,
    ) {
        Err(e) => return Err(e),
        Ok(()) => {},
    }
    match ensure_consensus_exposure_allows(board, p.bounty, ceiling) {
        Err(e) => return Err(e),
        Ok(()) => {},
    }
    let capabilities = match validate_capabilities(&p.capabilities) {
        Err(e) => return Err(e),
        Ok(tags) => tags,
    };
    Ok(
        ConsensusTaskIntent {
            description: p.description.clone(),
            bounty: p.bounty,
            num_assignees: p.num_assignees,
            join_window_minutes: p.join_window_minutes,
            submission_window_minutes: p.submission_window_minutes,
            min_reputation: p.min_reputation,
            capabilities,
        },
    )
}

/// Sets how many completed tasks it takes to work on a task that was just
/// made, on the board and in the copy at hand.
fn apply_min_reputation(board: &mut TaskBoard, task: &mut Task, min_reputation: u64)
    requires
        old(board).wf(),
        old(board)@.tasks.contains_key(old(task)@.id),
        old(board)@.tasks[old(task)@.id] == old(task)@,
        old(task)@.min_reputation == 0,
    ensures
        final(board).wf(),
        final(task)@ == (TaskView { min_reputation, ..old(task)@ }),
        final(board)@ == old(board)@.with_task(final(task)@),
{
    if min_reputation > 0 {
        let _ = board.set_min_reputation(task.id, min_reputation);
        task.min_reputation = min_reputation;
    }
    assert(board@.tasks =~= old(board)@.tasks.insert(task@.id, task@));
}

/// Sets the tags of a task that was just made, on the board and in the copy at
/// hand.
fn apply_capabilities(board: &mut TaskBoard, task: &mut Task, capabilities: Tags)
    requires
        old(board).wf(),
        capabilities.wf(),
        old(board)@.tasks.contains_key(old(task)@.id),
        old(board)@.tasks[old(task)@.id] == old(task)@,
        old(task)@.capabilities.len() == 0,
    ensures
        final(board).wf(),
        final(task)@ == (TaskView { capabilities: capabilities@, ..old(task)@ }),
        final(board)@ == old(board)@.with_task(final(task)@),
{
    if capabilities.len() > 0 {
        let _ = board.set_capabilities(task.id, capabilities.duplicate());
        task.capabilities = capabilities;
    }
    assert(task@.capabilities =~= capabilities@);
    assert(board@.tasks =~= old(board)@.tasks.insert(task@.id, task@));
}

/// The hash-checked task that an intent makes of the operator's money.
pub open spec fn posted_task(i: TaskIntent, poster: PublicKey, id: Id, now: Timestamp) -> TaskView {
    TaskView {
        min_reputation: i.min_reputation,
        capabilities: i.capabilities@,
        ..posted(
            id,
            now,
            poster,
            i.description@,
            i.bounty,
            KindView::HashMatch { expected_output_hash: i.expected_output_hash },
        )
    }
}

/// The consensus task that an intent makes of the operator's money. The time
/// to join runs from `opened`.
pub open spec fn posted_consensus_task(
    i: ConsensusTaskIntent,
    poster: PublicKey,
    id: Id,
    now: Timestamp,
    opened: Timestamp,
) -> TaskView {
    TaskView {
        min_reputation: i.min_reputation,
        capabilities: i.capabilities@,
        ..posted(
            id,
            now,
            poster,
            i.description@,
            i.bounty,
            unjoined(
                i.num_assignees,
                opened.later(i.join_window_minutes * NANOS_PER_MINUTE),
                i.submission_window_minutes,
            ),
        )
    }
}

/// Posts a hash-checked task that the operator, who has `balance`, pays for.
pub fn post_task_at(
    board: &mut TaskBoard,
    intent: TaskIntent,
    poster: PublicKey,
    balance: u64,
    id: Id,
    now: Timestamp,
) -> (r: Result<Task, ApiError>)
    requires
        old(board).wf(),
        old(board)@.operator_bounties() <= u64::MAX,
        intent.capabilities.wf(),
        now.valid(),
    ensures
        final(board).wf(),
        match funding_refusal(old(board)@, balance, intent.bounty) {
            Some(e) => refused(r, e) && final(board)@ == old(board)@,
            None => {
                &&& r is Ok && r->Ok_0@ == posted_task(intent, poster, id, now)
                &&& final(board)@ == old(board)@.with_task(r->Ok_0@)
            },
        },
{
    match ensure_operator_can_fund(board, balance, intent.bounty) {
        Err(e) => return Err(e),
        Ok(()) => {},
    }
    let mut task = board.create_task_at(
        id,
        now,
        poster,
        intent.description,
        intent.bounty,
        intent.expected_output_hash,
    );
    apply_min_reputation(board, &mut task, intent.min_reputation);
    apply_capabilities(board, &mut task, intent.capabilities);
    assert(board@.tasks =~= old(board)@.tasks.insert(id, task@));
    Ok(task)
}

/// Posts a consensus task that the operator, who has `balance`, pays for.
pub fn post_consensus_task_at(
    board: &mut TaskBoard,
    intent: ConsensusTaskIntent,
    poster: PublicKey,
    balance: u64,
    id: Id,
    now: Timestamp,
    opened: Timestamp,
) -> (r: Result<Task, ApiError>)
    requires
        old(board).wf(),
        old(board)@.operator_bounties() <= u64::MAX,
        intent.capabilities.wf(),
        now.valid(),
    ensures
        final(board).wf(),
        match funding_refusal(old(board)@, balance, intent.bounty) {
            Some(e) => refused(r, e) && final(board)@ == old(board)@,
            None => {
                &&& r is Ok && r->Ok_0@ == posted_consensus_task(intent, poster, id, now, opened)
                &&& final(board)@ == old(board)@.with_task(r->Ok_0@)
            },
        },
{
    match ensure_operator_can_fund(board, balance, intent.bounty) {
        Err(e) => return Err(e),
        Ok(()) => {},
    }
    let join_deadline = opened.plus_minutes(intent.join_window_minutes);
    let mut task = board.create_consensus_task_at(
        id,
        now,
        poster,
        intent.description,
        intent.bounty,
        intent.num_assignees,
        join_deadline,
        intent.submission_window_minutes,
    );
    apply_min_reputation(board, &mut task, intent.min_reputation);
    apply_capabilities(board, &mut task, intent.capabilities);
    assert(board@.tasks =~= old(board)@.tasks.insert(id, task@));
    Ok(task)
}

/// What the operator promises stays covered: a task that passes the check of
/// the operator's funds, under an id that is free, leaves every bounty of the
/// operator within the balance.
pub proof fn lemma_posting_stays_funded(b: BoardView, t: TaskView, balance: u64)
    requires
        b.wf(),
        !b.tasks.contains_key(t.id),
        t.status == TaskStatus::Open,
        t.escrow_id is None,
        uncommitted(b, balance) >= t.bounty,
        b.operator_bounties() <= balance,
    ensures
        b.with_task(t).operator_bounties() == b.operator_bounties() + t.bounty,
        b.with_task(t).operator_bounties() <= balance,
{
    lemma_map_sum_insert(b.tasks, t.id, t, operator_share());
}

/// A task that a deposit pays for costs the operator nothing, whatever becomes
/// of it.
pub proof fn lemma_escrow_is_not_the_operators(b: BoardView, t: TaskView)
    requires
        b.wf(),
        t.escrow_id is Some,
        b.tasks.contains_key(t.id) ==> b.tasks[t.id].escrow_id is Some,
    ensures
        b.with_task(t).operator_bounties() == b.operator_bounties(),
{
    lemma_map_sum_insert(b.tasks, t.id, t, operator_share());
}

/// Consensus tasks never stand for more than the ceiling: one that passes the
/// check, under an id that is free, leaves their unsettled bounty within it.
pub proof fn lemma_exposure_stays_within(b: BoardView, t: TaskView, ceiling: u64)
    requires
        b.wf(),
        !b.tasks.contains_key(t.id),
        t.status == TaskStatus::Open,
        t.kind is Consensus,
        exposure_with(b, t.bounty) <= ceiling,
        ceiling < u64::MAX,
    ensures
        b.with_task(t).consensus_bounties() <= ceiling,
{
    lemma_map_sum_insert(b.tasks, t.id, t, consensus_share());
}

}
