use itx_hub::api::errors::{Answer, ApiError};
use itx_hub::api::requests::{
    escrow_amount_for, hash_output, normalize, parse_hex_hash, parse_hex_pubkey, parse_status_filter,
    validate_capabilities, validate_positive_minutes, validate_text_field, StatusFilter, MAX_CONSENSUS_WINDOW_MINUTES,
    MAX_TEXT_FIELD_LENGTH,
};
use itx_hub::auth::{AuthError, VerifyError};
use itx_hub::board::types::{BoardError, TaskStatus};
use itx_hub::faucet_pow::RedemptionError;
use itx_hub::tags::Tags;
use itx_hub::types::{Digest, PublicKey, Timestamp};

fn text_of<T>(r: Result<T, ApiError>) -> (u16, String) {
    match r {
        Ok(_) => panic!("it was accepted"),
        Err(e) => (e.status(), e.message()),
    }
}

#[test]
fn a_text_field_is_measured_in_characters() {
    assert!(validate_text_field(&"é".repeat(MAX_TEXT_FIELD_LENGTH), "description").is_ok());
    assert_eq!(
        text_of(validate_text_field(&"a".repeat(MAX_TEXT_FIELD_LENGTH + 1), "reason")),
        (400, "reason exceeds the 20000-character limit".to_string())
    );
}

#[test]
fn a_window_is_positive_and_at_most_a_year() {
    assert!(validate_positive_minutes(1, "join_window_minutes").is_ok());
    assert!(validate_positive_minutes(MAX_CONSENSUS_WINDOW_MINUTES, "join_window_minutes").is_ok());
    assert_eq!(
        text_of(validate_positive_minutes(0, "join_window_minutes")),
        (400, "join_window_minutes must be positive".to_string())
    );
    assert_eq!(
        text_of(validate_positive_minutes(MAX_CONSENSUS_WINDOW_MINUTES + 1, "dispute_window_minutes")),
        (400, "dispute_window_minutes must be at most 525600 minutes (~1 year)".to_string())
    );
}

#[test]
fn a_bounty_too_large_for_the_fee_is_told_the_largest() {
    assert_eq!(
        text_of(escrow_amount_for(u64::MAX)),
        (
            400,
            "bounty must be at most 18446744073709550615, leaving room for the 1000 network fee the payout pays"
                .to_string()
        )
    );
}

#[test]
fn a_tag_is_trimmed_and_lowercased() {
    assert_eq!(normalize("  Python\t"), "python");
    assert_eq!(normalize("\u{a0}ÄRGER\u{3000}"), "ärger");
    assert_eq!(normalize(" \n "), "");
}

#[test]
fn tags_that_come_to_the_same_count_once_and_empty_ones_not_at_all() {
    let mut raw = Tags::new();
    for tag in ["Rust", " rust ", "", "OCR"] {
        raw.insert(tag.to_string());
    }
    let tags = validate_capabilities(&raw).ok().unwrap();
    assert_eq!(tags.len(), 2);
    assert_eq!(tags.tag_at(0), "ocr");
    assert_eq!(tags.tag_at(1), "rust");
    assert!(tags.contains("rust") && !tags.contains("Rust"));
}

#[test]
fn a_tag_may_not_be_too_long_nor_tags_too_many() {
    let mut raw = Tags::new();
    raw.insert("x".repeat(65));
    assert_eq!(
        text_of(validate_capabilities(&raw)),
        (400, format!("capability tag \"{}\" exceeds the 64-character limit", "x".repeat(65)))
    );
    let mut raw = Tags::new();
    for i in 0..21 {
        raw.insert(format!("tag{i}"));
    }
    assert_eq!(
        text_of(validate_capabilities(&raw)),
        (400, "at most 20 capability tags are allowed, got 21".to_string())
    );
    let mut raw = Tags::new();
    raw.insert("x".repeat(64));
    assert!(validate_capabilities(&raw).is_ok());
}

#[test]
fn a_status_is_named_in_any_case() {
    assert!(matches!(parse_status_filter("  OPEN "), Ok(StatusFilter::Only(TaskStatus::Open))));
    assert!(matches!(parse_status_filter("payoutFailed"), Ok(StatusFilter::Only(TaskStatus::PayoutFailed))));
    assert!(matches!(parse_status_filter("All"), Ok(StatusFilter::Any)));
    let (status, message) = text_of(parse_status_filter("done\"?"));
    assert_eq!(status, 400);
    assert!(message.starts_with("unknown status \"done\\\"?\" -- expected one of: all, Open,"), "{message}");
}

#[test]
fn a_hash_is_sixty_four_hexadecimal_digits() {
    let empty = "e3b0c44298fc1c149afbf4c8996fb92427ae41e4649b934ca495991b7852b855";
    let digest = parse_hex_hash(empty).ok().unwrap();
    assert_eq!(
        digest,
        Digest { hi: 0xe3b0_c442_98fc_1c14_9afb_f4c8_996f_b924, lo: 0x27ae_41e4_649b_934c_a495_991b_7852_b855 }
    );
    assert_eq!(hash_output(""), digest, "the digest of nothing");
    assert_eq!(parse_hex_hash(&empty.to_uppercase()).ok().unwrap(), digest);
    assert_eq!(
        text_of(parse_hex_hash("abcd")),
        (400, "expected_output_hash must be exactly 32 bytes (64 hex chars)".to_string())
    );
    assert_eq!(
        text_of(parse_hex_hash("abc")),
        (400, "expected_output_hash isn't valid hex: Odd number of digits".to_string())
    );
    assert_eq!(
        text_of(parse_hex_hash("abz'")),
        (400, "expected_output_hash isn't valid hex: Invalid character 'z' at position 2".to_string())
    );
}

#[test]
fn a_key_is_hexadecimal_and_a_point() {
    let point = |bytes: &[u8]| -> Result<PublicKey, String> {
        if bytes == [2, 1] {
            Ok(PublicKey { tag: 2, hi: 0, lo: 1 })
        } else {
            Err("not a point".to_string())
        }
    };
    assert_eq!(parse_hex_pubkey("0201", &point).ok().unwrap(), PublicKey { tag: 2, hi: 0, lo: 1 });
    assert_eq!(text_of(parse_hex_pubkey("0202", &point)), (400, "bad pubkey: not a point".to_string()));
    assert_eq!(
        text_of(parse_hex_pubkey("0g", &point)),
        (400, "bad pubkey hex: Invalid character 'g' at position 1".to_string())
    );
}

#[test]
fn a_key_is_written_as_sixty_six_digits() {
    let key = PublicKey { tag: 3, hi: 0xab, lo: 0xcd };
    assert_eq!(key.to_string(), format!("03{}ab{}cd", "0".repeat(30), "0".repeat(30)));
}

#[test]
fn an_instant_is_written_as_rfc_3339_has_it() {
    let noon = Timestamp { nanos: 1_786_449_600_000_000_000 };
    assert_eq!(noon.to_rfc3339(), "2026-08-11T12:00:00+00:00");
    assert_eq!(Timestamp { nanos: noon.nanos + 5_000_000 }.to_rfc3339(), "2026-08-11T12:00:00.005+00:00");
    assert_eq!(Timestamp { nanos: -1_000_000_000 }.to_rfc3339(), "1969-12-31T23:59:59+00:00");
    assert_eq!(Timestamp { nanos: -1 }.timestamp(), -1);
}

fn naming_task(before: &str, after: &str) -> String {
    format!("{before}task{after}")
}

#[test]
fn refusals_of_the_board_are_answered_by_their_class() {
    let told = |e: BoardError| {
        let api = ApiError::from_board(e);
        (api.status(), api.message())
    };
    assert_eq!(told(BoardError::NotFound), (404, "task not found".to_string()));
    assert_eq!(told(BoardError::NotClaimant), (403, naming_task("you are not the claimant of this ", "")));
    assert_eq!(
        told(BoardError::InsufficientReputation { required: 5, have: 0 }),
        (403, naming_task("this ", " requires at least 5 completed tasks, you have 0"))
    );
    assert_eq!(
        told(BoardError::EscrowUnderfunded { required: 500, have: 499 }),
        (409, "escrow deposit requires at least 500, only 499 has been received so far".to_string())
    );
    assert_eq!(
        told(BoardError::InsufficientBalance { available: 100, required: 200 }),
        (409, "insufficient balance: 100 available, 200 required".to_string())
    );
    assert_eq!(told(BoardError::ZeroWithdrawal).0, 400);
    assert_eq!(
        told(BoardError::WrongTaskKind).1,
        naming_task("this operation doesn't apply to this ", "'s verification kind")
    );
}

#[test]
fn every_class_of_answer_has_its_status() {
    for (answer, status) in [
        (Answer::BadRequest, 400),
        (Answer::Unauthorized, 401),
        (Answer::Forbidden, 403),
        (Answer::NotFound, 404),
        (Answer::Conflict, 409),
        (Answer::TooManyRequests, 429),
        (Answer::Internal, 500),
        (Answer::ServiceUnavailable, 503),
        (Answer::Unavailable { retry_after: 16 }, 503),
    ] {
        let e = ApiError::of(answer, "m".to_string());
        assert_eq!((e.status(), e.message()), (status, "m".to_string()));
    }
}

#[test]
fn redemption_and_signature_refusals_are_told_apart() {
    assert_eq!(ApiError::from_redemption(RedemptionError::Unknown).message(), "no such faucet challenge");
    assert_eq!(ApiError::from_auth(&AuthError::Replayed, "m".to_string()).status(), 401);
    assert_eq!(ApiError::from_auth(&AuthError::GuardWarmingUp, "m".to_string()).status(), 503);
    let quota: VerifyError<u8> = VerifyError::Quota(1);
    assert_eq!(ApiError::from_verify(&quota, "m".to_string()).status(), 429);
}
