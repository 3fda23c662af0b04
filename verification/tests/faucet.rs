use itx_hub::clock;
use itx_hub::faucet_pow::{target_for_expected_hashes, Challenge, ChallengeBook, RedemptionError, CHALLENGE_TTL_SECONDS, REDEEMED_RETENTION_SECONDS};
use itx_hub::types::{Id, PublicKey};
use itx_hub::wide::U256;
use sha2::Digest;

fn unused_id() -> Id {
    uuid::Uuid::new_v4().as_u128()
}

fn pubkey() -> PublicKey {
    PublicKey { tag: 2, hi: unused_id(), lo: unused_id() }
}

/// Easy enough to solve at once, hard enough that the first try is seldom a
/// hit.
fn easy() -> U256 {
    target_for_expected_hashes(64)
}

fn challenge_for(key: &PublicKey) -> Challenge {
    Challenge::issue(key, easy(), clock::now())
}

fn solve(challenge: &Challenge) -> u64 {
    challenge.solve_from(0).unwrap()
}

#[test]
fn a_solution_verifies_against_the_challenge_it_was_found_for() {
    let key = pubkey();
    let challenge = challenge_for(&key);
    let solution = solve(&challenge);
    assert!(challenge.is_solved_by(solution));
}

/// Tightened so that a solution carrying over by chance is out of the
/// question.
fn hard_challenge_for(key: &PublicKey) -> Challenge {
    Challenge::issue(key, target_for_expected_hashes(4_096), clock::now())
}

#[test]
fn a_solution_for_one_key_does_not_solve_another_keys_challenge() {
    let (alice, bob) = (pubkey(), pubkey());
    let for_alice = hard_challenge_for(&alice);
    let solution = solve(&for_alice);

    let mut for_bob = for_alice.clone();
    for_bob.pubkey = bob.to_string();
    assert!(!for_bob.is_solved_by(solution), "a solution must not carry across keys");
}

#[test]
fn a_solution_does_not_carry_across_actions() {
    let key = pubkey();
    let faucet = hard_challenge_for(&key);
    let solution = solve(&faucet);

    let mut other = faucet.clone();
    other.action = "some-later-action".to_string();
    assert!(!other.is_solved_by(solution));
}

#[test]
fn a_solution_does_not_carry_across_issuances() {
    let key = pubkey();
    let first = hard_challenge_for(&key);
    let solution = solve(&first);

    let mut second = first.clone();
    second.server_nonce = hex::encode([7u8; 32]);
    assert!(!second.is_solved_by(solution), "the nonce makes each issuance its own puzzle");

    let mut third = first.clone();
    third.id = unused_id();
    assert!(!third.is_solved_by(solution), "so does the id");
}

#[test]
fn asking_for_more_work_produces_a_tighter_target() {
    let easy = target_for_expected_hashes(1_000);
    let hard = target_for_expected_hashes(1_000_000);
    assert!(hard < easy, "more expected hashes must mean a smaller target");
    assert_eq!(target_for_expected_hashes(0), target_for_expected_hashes(1), "zero is clamped");
}

#[test]
fn the_expected_work_is_about_what_was_asked_for() {
    let key = pubkey();
    let expected = 2_000u64;
    let mut total = 0u64;
    let rounds = 20;
    for _ in 0..rounds {
        let challenge = Challenge::issue(&key, target_for_expected_hashes(expected), clock::now());
        total += solve(&challenge) + 1;
    }
    let mean = total / rounds;
    assert!(
        mean > expected / 8 && mean < expected * 8,
        "mean of {mean} tries is not in the right order of magnitude for {expected}"
    );
}

#[test]
fn the_wire_target_compares_the_way_a_client_would() {
    let key = pubkey();
    let challenge = challenge_for(&key);
    let solution = solve(&challenge);

    let digest: [u8; 32] = sha2::Sha256::digest(challenge.preimage(solution).as_bytes()).into();
    let as_client_sees_it = U256 {
        hi: u128::from_le_bytes(digest[16..].try_into().unwrap()),
        lo: u128::from_le_bytes(digest[..16].try_into().unwrap()),
    };
    let wire = challenge.target_hex();
    let target_from_wire = U256 {
        hi: u128::from_str_radix(&wire[..32], 16).unwrap(),
        lo: u128::from_str_radix(&wire[32..], 16).unwrap(),
    };

    assert!(
        as_client_sees_it <= target_from_wire,
        "a client reading the digest little-endian must agree with the hub"
    );
    assert_eq!(target_from_wire, challenge.target, "the hex target must round-trip");
}

#[test]
fn expiry_and_redemption_are_reported_from_the_record() {
    let key = pubkey();
    let now = clock::now();
    let mut challenge = Challenge::issue(&key, easy(), now);
    assert!(!challenge.is_expired_at(now));
    assert!(!challenge.is_expired_at(now.plus_seconds(CHALLENGE_TTL_SECONDS)));
    assert!(challenge.is_expired_at(now.plus_seconds(CHALLENGE_TTL_SECONDS + 1)));

    assert!(!challenge.is_redeemed());
    challenge.redeemed_at = Some(now.timestamp());
    assert!(challenge.is_redeemed());
}

#[test]
fn a_target_is_the_largest_number_over_the_work_asked_for() {
    assert_eq!(target_for_expected_hashes(1), U256 { hi: u128::MAX, lo: u128::MAX });
    assert_eq!(target_for_expected_hashes(2), U256 { hi: u128::MAX >> 1, lo: u128::MAX });
    assert_eq!(target_for_expected_hashes(16).to_hex(), format!("0{}", "f".repeat(63)));
}

#[test]
fn a_preimage_names_everything_the_work_is_bound_to() {
    let key = PublicKey { tag: 2, hi: 0, lo: 1 };
    let challenge = Challenge::issue_with(
        0x0123_4567_89ab_cdef_0123_4567_89ab_cdef,
        &[0xab; 32],
        &key,
        easy(),
        clock::now(),
    );
    assert_eq!(challenge.pubkey, format!("02{}1", "0".repeat(63)));
    assert_eq!(challenge.server_nonce, "ab".repeat(32));
    let text = challenge.preimage(42);
    assert!(text.ends_with(":42"));
    assert!(text.contains("01234567-89ab-cdef-0123-456789abcdef"));
    assert!(text.contains(&challenge.server_nonce));
    assert_eq!(challenge.preimage_template().replace("{solution}", "42"), text);
}

#[test]
fn a_challenge_is_redeemed_once() {
    let key = pubkey();
    let now = clock::now();
    let mut book = ChallengeBook::open(easy());
    let challenge = book.issue(&key, now, |_| Ok(())).unwrap();
    assert_eq!(book.outstanding_for(&key), Some(challenge.id));
    let solution = solve(&challenge);

    let redeemed = book.redeem(challenge.id, &key, solution, now, |_| Ok(())).unwrap();
    assert!(redeemed.is_redeemed());
    assert!(matches!(
        book.redeem(challenge.id, &key, solution, now, |_| Ok(())),
        Err(RedemptionError::AlreadyRedeemed)
    ));
    assert_eq!(book.outstanding_for(&key), None);
}

#[test]
fn every_refusal_is_told_apart() {
    let (key, stranger) = (pubkey(), pubkey());
    let now = clock::now();
    let mut book = ChallengeBook::open(target_for_expected_hashes(4_096));
    let challenge = book.issue(&key, now, |_| Ok(())).unwrap();
    let solution = solve(&challenge);
    let wrong = if solution > 0 { 0 } else { challenge.solve_from(1).unwrap() - 1 };

    assert!(matches!(book.check(unused_id(), &key, solution, now), Err(RedemptionError::Unknown)));
    assert!(matches!(book.check(challenge.id, &stranger, solution, now), Err(RedemptionError::WrongKey)));
    let late = now.plus_seconds(CHALLENGE_TTL_SECONDS + 1);
    assert!(matches!(book.check(challenge.id, &key, solution, late), Err(RedemptionError::Expired)));
    if !challenge.is_solved_by(wrong) {
        assert!(matches!(book.check(challenge.id, &key, wrong, now), Err(RedemptionError::Unsolved)));
    }
    assert!(book.check(challenge.id, &key, solution, now).is_ok());
    assert!(matches!(
        book.redeem(challenge.id, &key, solution, now, |_| Err("disk full".to_string())),
        Err(RedemptionError::NotRecorded(_))
    ));
    assert!(book.check(challenge.id, &key, solution, now).is_ok(), "an unrecorded redemption spends nothing");
}

#[test]
fn a_second_challenge_takes_the_place_of_the_first() {
    let key = pubkey();
    let now = clock::now();
    let mut book = ChallengeBook::open(easy());
    let first = book.issue(&key, now, |_| Ok(())).unwrap();
    let second = book.issue_at_target(&key, target_for_expected_hashes(8), now, |_| Ok(())).unwrap();
    assert_eq!(book.len(), 1);
    assert_eq!(book.outstanding_for(&key), Some(second.id));
    assert_eq!(second.target, target_for_expected_hashes(8));
    assert!(matches!(book.check(first.id, &key, 0, now), Err(RedemptionError::Unknown)));
}

#[test]
fn a_book_forgets_the_unredeemed_at_expiry_and_the_redeemed_later() {
    let (idle, busy) = (pubkey(), pubkey());
    let now = clock::now();
    let mut book = ChallengeBook::open(easy());
    book.issue(&idle, now, |_| Ok(())).unwrap();
    let challenge = book.issue(&busy, now, |_| Ok(())).unwrap();
    book.redeem(challenge.id, &busy, solve(&challenge), now, |_| Ok(())).unwrap();

    book.cleanup(now.plus_seconds(CHALLENGE_TTL_SECONDS));
    assert_eq!(book.len(), 2);
    book.cleanup(now.plus_seconds(CHALLENGE_TTL_SECONDS + 1));
    assert_eq!(book.len(), 1);
    assert_eq!(book.outstanding_for(&idle), None);
    book.cleanup(now.plus_seconds(CHALLENGE_TTL_SECONDS + REDEEMED_RETENTION_SECONDS + 1));
    assert_eq!(book.len(), 0);
}

#[test]
fn a_restored_book_remembers_what_was_redeemed() {
    let key = pubkey();
    let now = clock::now();
    let mut redeemed = challenge_for(&key);
    redeemed.redeemed_at = Some(now.timestamp());
    let pending = challenge_for(&key);
    let mut expired = challenge_for(&key);
    expired.expires_at = now.timestamp() - 1;

    let (book, held) = ChallengeBook::restore(&vec![redeemed.clone(), pending.clone(), expired], easy(), now);
    assert_eq!(held, 2);
    assert_eq!(book.outstanding_for(&key), Some(pending.id));
    assert!(matches!(book.check(redeemed.id, &key, 0, now), Err(RedemptionError::AlreadyRedeemed)));
}
