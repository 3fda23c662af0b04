use itx_hub::api::requests::hash_output;
use itx_hub::board::types::{BoardError, CloseReason, Reputation, TaskStatus};
use itx_hub::board::TaskBoard;
use itx_hub::clock;
use itx_hub::types::{Digest, Id, PublicKey, Timestamp, NANOS_PER_MINUTE};

fn unused_id() -> Id {
    uuid::Uuid::new_v4().as_u128()
}

fn pubkey() -> PublicKey {
    PublicKey { tag: 2, hi: unused_id(), lo: unused_id() }
}

fn hash(text: &[u8]) -> Digest {
    hash_output(std::str::from_utf8(text).unwrap())
}

fn minutes_until(deadline: Timestamp) -> i64 {
    ((deadline.nanos - clock::now().nanos) / NANOS_PER_MINUTE) as i64
}

#[test]
fn full_task_lifecycle_pays_out_and_updates_reputation() {
    let mut board = TaskBoard::new();
    let poster = pubkey();
    let worker = pubkey();
    let expected = hash(b"the correct answer");

    let task = board.create_task(poster, "add 2+2".to_string(), 100, expected);
    assert_eq!(board.list_open_tasks().len(), 1);
    assert_eq!(board.allocated_bounty(), 100);

    board
        .claim_task(task.id, worker, clock::now().plus_minutes(10))
        .unwrap();
    assert!(board.list_open_tasks().is_empty());
    let wrong = hash(b"a wrong answer");
    assert!(!board.submit(task.id, worker, wrong).unwrap());
    assert_eq!(board.get_task(task.id).unwrap().status, TaskStatus::Open);
    assert_eq!(board.reputation(&worker).failed, 1);
    board
        .claim_task(task.id, worker, clock::now().plus_minutes(10))
        .unwrap();
    assert!(board.submit(task.id, worker, expected).unwrap());
    assert_eq!(board.get_task(task.id).unwrap().status, TaskStatus::Verified);
    assert_eq!(board.reputation(&worker).completed, 0);
    assert!(board.mark_recipient_paid(task.id, &worker, 100).unwrap());
    assert_eq!(board.get_task(task.id).unwrap().status, TaskStatus::Paid);
    assert_eq!(board.reputation(&worker).completed, 1);
    assert_eq!(board.reputation(&worker).total_earned, 100);
    assert_eq!(board.allocated_bounty(), 0);
}

#[test]
fn only_the_claimant_can_submit() {
    let mut board = TaskBoard::new();
    let expected = hash(b"answer");
    let task = board.create_task(pubkey(), "task".to_string(), 10, expected);
    let claimant = pubkey();
    let impostor = pubkey();
    board
        .claim_task(task.id, claimant, clock::now().plus_minutes(5))
        .unwrap();

    assert!(matches!(
        board.submit(task.id, impostor, expected),
        Err(BoardError::NotClaimant)
    ));
}

#[test]
fn cannot_claim_an_already_claimed_task() {
    let mut board = TaskBoard::new();
    let task = board.create_task(pubkey(), "task".to_string(), 10, hash(b"x"));
    let deadline = clock::now().plus_minutes(5);
    board.claim_task(task.id, pubkey(), deadline).unwrap();

    assert!(matches!(
        board.claim_task(task.id, pubkey(), deadline),
        Err(BoardError::NotOpen)
    ));
}

#[test]
fn abandoned_claims_expire_back_to_open() {
    let mut board = TaskBoard::new();
    let task = board.create_task(pubkey(), "task".to_string(), 10, hash(b"x"));
    let now = clock::now();
    board.claim_task(task.id, pubkey(), now.plus_seconds(1)).unwrap();
    assert!(board.expire_claims(now).is_empty());
    let later = now.plus_seconds(2);
    let reopened = board.expire_claims(later);
    assert_eq!(reopened, vec![task.id]);
    assert_eq!(board.get_task(task.id).unwrap().status, TaskStatus::Open);
}

#[test]
fn faucet_grants_are_one_per_pubkey() {
    let mut board = TaskBoard::new();
    let agent = pubkey();
    assert!(board.can_claim_faucet(&agent));
    board.record_faucet_grant(agent, clock::now().timestamp()).unwrap();
    assert!(!board.can_claim_faucet(&agent));
    assert!(matches!(
        board.record_faucet_grant(agent, clock::now().timestamp()),
        Err(BoardError::AlreadyClaimed)
    ));
}

#[test]
fn verified_unpaid_tasks_lists_only_verified_tasks() {
    let mut board = TaskBoard::new();
    let expected = hash(b"x");
    let worker = pubkey();
    board.create_task(pubkey(), "open".to_string(), 10, expected);
    let verified_task = board.create_task(pubkey(), "verified".to_string(), 10, expected);
    board
        .claim_task(verified_task.id, worker, clock::now().plus_minutes(5))
        .unwrap();
    board.submit(verified_task.id, worker, expected).unwrap();
    let paid_task = board.create_task(pubkey(), "paid".to_string(), 10, expected);
    board
        .claim_task(paid_task.id, worker, clock::now().plus_minutes(5))
        .unwrap();
    board.submit(paid_task.id, worker, expected).unwrap();
    board.mark_recipient_paid(paid_task.id, &worker, 10).unwrap();

    let unpaid = board.verified_unpaid_tasks();
    assert_eq!(unpaid.len(), 1);
    assert_eq!(unpaid[0].id, verified_task.id);
}

#[test]
fn leaderboard_sorts_by_total_earned_descending() {
    let mut board = TaskBoard::new();
    let low = pubkey();
    let high = pubkey();

    for (agent, bounty) in [(&low, 10u64), (&high, 500u64)] {
        let expected = hash(b"x");
        let task = board.create_task(pubkey(), "t".to_string(), bounty, expected);
        board
            .claim_task(task.id, *agent, clock::now().plus_minutes(5))
            .unwrap();
        board.submit(task.id, *agent, expected).unwrap();
        board.mark_recipient_paid(task.id, agent, bounty).unwrap();
    }

    let board_order = board.leaderboard(10);
    assert_eq!(board_order[0].0, high);
    assert_eq!(board_order[1].0, low);
}

fn create_and_fill_consensus_task(
    board: &mut TaskBoard,
    num_assignees: u32,
    deadline: Timestamp,
) -> (Id, Vec<PublicKey>) {
    let join_deadline = clock::now().plus_minutes(60);
    let submission_window_minutes = minutes_until(deadline).max(1);
    let task = board.create_consensus_task(
        pubkey(),
        "open-ended".to_string(),
        900,
        num_assignees,
        join_deadline,
        submission_window_minutes,
    );
    let assignees: Vec<PublicKey> = (0..num_assignees).map(|_| pubkey()).collect();
    for agent in &assignees {
        board.join_consensus_task(task.id, *agent).unwrap();
    }
    (task.id, assignees)
}

#[test]
fn consensus_task_resolves_and_pays_the_majority_once_everyone_submits() {
    let mut board = TaskBoard::new();
    let deadline = clock::now().plus_minutes(30);
    let (task_id, assignees) = create_and_fill_consensus_task(&mut board, 3, deadline);
    assert_eq!(board.get_task(task_id).unwrap().status, TaskStatus::Claimed);
    assert!(!board.submit_consensus_answer(task_id, assignees[0], "42".to_string()).unwrap());
    assert!(!board.submit_consensus_answer(task_id, assignees[1], "42".to_string()).unwrap());
    assert!(board.submit_consensus_answer(task_id, assignees[2], "wrong".to_string()).unwrap());

    let task = board.get_task(task_id).unwrap();
    assert_eq!(task.status, TaskStatus::Verified);

    let payouts = task.pending_payouts();
    assert_eq!(payouts.len(), 2, "the two agreeing assignees each owe a share");
    for (pk, amount) in &payouts {
        assert!(assignees[0..2].contains(pk));
        assert_eq!(*amount, 900 / 2);
    }
    assert_eq!(board.reputation(&assignees[2]).failed, 1);
    assert_eq!(board.reputation(&assignees[0]).completed, 0, "not credited until actually paid");
}

#[test]
fn consensus_task_closes_with_no_payout_on_a_tie() {
    let mut board = TaskBoard::new();
    let deadline = clock::now().plus_minutes(30);
    let (task_id, assignees) = create_and_fill_consensus_task(&mut board, 2, deadline);

    board.submit_consensus_answer(task_id, assignees[0], "a".to_string()).unwrap();
    board.submit_consensus_answer(task_id, assignees[1], "b".to_string()).unwrap();

    let task = board.get_task(task_id).unwrap();
    assert_eq!(task.status, TaskStatus::Closed);
    assert!(task.pending_payouts().is_empty());
    assert_eq!(board.reputation(&assignees[0]).failed, 0, "an honest tie dings no one");
    assert_eq!(board.reputation(&assignees[1]).failed, 0);
    assert_eq!(board.allocated_bounty(), 0, "a closed task's bounty is no longer allocated");
}

#[test]
fn join_consensus_task_closes_to_new_joiners_once_full() {
    let mut board = TaskBoard::new();
    let deadline = clock::now().plus_minutes(30);
    let (task_id, _assignees) = create_and_fill_consensus_task(&mut board, 2, deadline);

    assert!(matches!(
        board.join_consensus_task(task_id, pubkey()),
        Err(BoardError::NotOpen)
    ));
}

#[test]
fn cannot_join_a_consensus_task_twice() {
    let mut board = TaskBoard::new();
    let deadline = clock::now().plus_minutes(30);
    let task = board.create_consensus_task(pubkey(), "t".to_string(), 10, 3, deadline, 30);
    let agent = pubkey();
    board.join_consensus_task(task.id, agent).unwrap();

    assert!(matches!(
        board.join_consensus_task(task.id, agent),
        Err(BoardError::AlreadyJoined)
    ));
}

#[test]
fn resolve_expired_consensus_tasks_treats_no_shows_as_disagreeing() {
    let mut board = TaskBoard::new();
    let now = clock::now();
    let deadline = now.plus_minutes(5);
    let (task_id, assignees) = create_and_fill_consensus_task(&mut board, 3, deadline);
    board.submit_consensus_answer(task_id, assignees[0], "42".to_string()).unwrap();
    board.submit_consensus_answer(task_id, assignees[1], "42".to_string()).unwrap();
    assert!(board.resolve_expired_consensus_tasks(now).is_empty());
    assert_eq!(board.get_task(task_id).unwrap().status, TaskStatus::Claimed);
    let resolved = board.resolve_expired_consensus_tasks(deadline.plus_seconds(1));
    assert_eq!(resolved, vec![task_id]);
    assert_eq!(board.get_task(task_id).unwrap().status, TaskStatus::Verified);
    assert_eq!(board.reputation(&assignees[2]).failed, 1, "no-show counts as disagreeing");
    assert_eq!(board.get_task(task_id).unwrap().pending_payouts().len(), 2);
}

#[test]
fn mark_recipient_paid_completes_a_consensus_task_only_once_every_winner_is_paid() {
    let mut board = TaskBoard::new();
    let deadline = clock::now().plus_minutes(30);
    let (task_id, assignees) = create_and_fill_consensus_task(&mut board, 2, deadline);
    board.submit_consensus_answer(task_id, assignees[0], "42".to_string()).unwrap();
    board.submit_consensus_answer(task_id, assignees[1], "42".to_string()).unwrap();
    assert_eq!(board.get_task(task_id).unwrap().status, TaskStatus::Verified);

    let fully_paid = board.mark_recipient_paid(task_id, &assignees[0], 450).unwrap();
    assert!(!fully_paid, "one of two winners paid -- task not fully settled yet");
    assert_eq!(board.get_task(task_id).unwrap().status, TaskStatus::Verified);
    assert_eq!(board.get_task(task_id).unwrap().pending_payouts().len(), 1);

    let fully_paid = board.mark_recipient_paid(task_id, &assignees[1], 450).unwrap();
    assert!(fully_paid, "both winners paid -- task fully settled");
    assert_eq!(board.get_task(task_id).unwrap().status, TaskStatus::Paid);
    assert_eq!(board.reputation(&assignees[0]).total_earned, 450);
    assert_eq!(board.reputation(&assignees[1]).total_earned, 450);
}

#[test]
fn hash_match_operations_reject_a_consensus_task_and_vice_versa() {
    let mut board = TaskBoard::new();
    let deadline = clock::now().plus_minutes(30);
    let consensus_task = board.create_consensus_task(pubkey(), "c".to_string(), 10, 2, deadline, 30);
    let hash_task = board.create_task(pubkey(), "h".to_string(), 10, hash(b"x"));

    assert!(matches!(
        board.claim_task(consensus_task.id, pubkey(), deadline),
        Err(BoardError::WrongTaskKind)
    ));
    assert!(matches!(
        board.join_consensus_task(hash_task.id, pubkey()),
        Err(BoardError::WrongTaskKind)
    ));

    board.claim_task(hash_task.id, pubkey(), deadline).unwrap();
    assert!(matches!(
        board.submit_consensus_answer(hash_task.id, pubkey(), "x".to_string()),
        Err(BoardError::WrongTaskKind)
    ));

    board.join_consensus_task(consensus_task.id, pubkey()).unwrap();
    board.join_consensus_task(consensus_task.id, pubkey()).unwrap();
    assert!(matches!(
        board.submit(consensus_task.id, pubkey(), hash(b"x")),
        Err(BoardError::WrongTaskKind)
    ));
}

#[test]
fn cannot_submit_a_consensus_answer_twice() {
    let mut board = TaskBoard::new();
    let deadline = clock::now().plus_minutes(30);
    let (task_id, assignees) = create_and_fill_consensus_task(&mut board, 2, deadline);
    board.submit_consensus_answer(task_id, assignees[0], "42".to_string()).unwrap();

    assert!(matches!(
        board.submit_consensus_answer(task_id, assignees[0], "43".to_string()),
        Err(BoardError::AlreadySubmitted)
    ));
}

#[test]
fn claim_task_enforces_min_reputation() {
    let mut board = TaskBoard::new();
    let task = board.create_task(pubkey(), "gated".to_string(), 10, hash(b"x"));
    board.set_min_reputation(task.id, 5).unwrap();
    let novice = pubkey();
    let deadline = clock::now().plus_minutes(5);

    assert!(matches!(
        board.claim_task(task.id, novice, deadline),
        Err(BoardError::InsufficientReputation { required: 5, have: 0 })
    ));
    assert_eq!(board.get_task(task.id).unwrap().status, TaskStatus::Open, "a rejected claim must not consume the task");

    let veteran = pubkey();
    board.restore_reputation(veteran, Reputation { completed: 5, failed: 0, total_earned: 0 });
    assert!(board.claim_task(task.id, veteran, deadline).is_ok());
}

#[test]
fn join_consensus_task_enforces_min_reputation() {
    let mut board = TaskBoard::new();
    let deadline = clock::now().plus_minutes(30);
    let task = board.create_consensus_task(pubkey(), "gated".to_string(), 10, 2, deadline, 30);
    board.set_min_reputation(task.id, 3).unwrap();

    let novice = pubkey();
    assert!(matches!(
        board.join_consensus_task(task.id, novice),
        Err(BoardError::InsufficientReputation { required: 3, have: 0 })
    ));

    let veteran = pubkey();
    board.restore_reputation(veteran, Reputation { completed: 3, failed: 0, total_earned: 0 });
    assert!(board.join_consensus_task(task.id, veteran).is_ok());
}

#[test]
fn set_min_reputation_on_a_missing_task_fails() {
    let mut board = TaskBoard::new();
    assert!(matches!(
        board.set_min_reputation(unused_id(), 5),
        Err(BoardError::NotFound)
    ));
}

#[test]
fn consensus_share_stays_fixed_across_a_partial_payout_retry() {
    let mut board = TaskBoard::new();
    let deadline = clock::now().plus_minutes(30);
    let (task_id, assignees) = create_and_fill_consensus_task(&mut board, 3, deadline);
    for agent in &assignees {
        board.submit_consensus_answer(task_id, *agent, "42".to_string()).unwrap();
    }

    let payouts = board.get_task(task_id).unwrap().pending_payouts();
    assert_eq!(payouts.len(), 3);
    for (_, amount) in &payouts {
        assert_eq!(*amount, 300, "900 bounty split 3 ways");
    }

    let fully_paid = board.mark_recipient_paid(task_id, &assignees[0], 300).unwrap();
    assert!(!fully_paid);

    let remaining = board.get_task(task_id).unwrap().pending_payouts();
    assert_eq!(remaining.len(), 2);
    for (_, amount) in &remaining {
        assert_eq!(
            *amount, 300,
            "share must stay fixed at 300 -- must NOT inflate to 900/2=450 just because one winner is already paid"
        );
    }
}

#[test]
fn is_recipient_paid_reflects_live_state_for_both_task_kinds() {
    let mut board = TaskBoard::new();
    let deadline = clock::now().plus_minutes(30);
    let hash_task = board.create_task(pubkey(), "h".to_string(), 100, hash(b"x"));
    let worker = pubkey();
    board.claim_task(hash_task.id, worker, deadline).unwrap();
    board.submit(hash_task.id, worker, hash(b"x")).unwrap();
    assert!(!board.get_task(hash_task.id).unwrap().is_recipient_paid(&worker));
    board.mark_recipient_paid(hash_task.id, &worker, 100).unwrap();
    assert!(board.get_task(hash_task.id).unwrap().is_recipient_paid(&worker));
    let (task_id, assignees) = create_and_fill_consensus_task(&mut board, 2, deadline);
    for agent in &assignees {
        board.submit_consensus_answer(task_id, *agent, "42".to_string()).unwrap();
    }
    assert!(!board.get_task(task_id).unwrap().is_recipient_paid(&assignees[0]));
    board.mark_recipient_paid(task_id, &assignees[0], 450).unwrap();
    assert!(board.get_task(task_id).unwrap().is_recipient_paid(&assignees[0]));
    assert!(!board.get_task(task_id).unwrap().is_recipient_paid(&assignees[1]), "the other winner is still unpaid");
}

#[test]
fn consensus_assignees_lists_everyone_for_consensus_and_nobody_for_hash_match() {
    let mut board = TaskBoard::new();
    let deadline = clock::now().plus_minutes(30);
    let hash_task = board.create_task(pubkey(), "h".to_string(), 10, hash(b"x"));
    assert!(board.get_task(hash_task.id).unwrap().consensus_assignees().is_empty());

    let (task_id, assignees) = create_and_fill_consensus_task(&mut board, 3, deadline);
    let mut listed = board.get_task(task_id).unwrap().consensus_assignees();
    listed.sort();
    let mut expected = assignees.clone();
    expected.sort();
    assert_eq!(listed, expected);
}

#[test]
fn cancel_understaffed_consensus_tasks_closes_a_task_that_never_filled_up() {
    let mut board = TaskBoard::new();
    let now = clock::now();
    let join_deadline = now.plus_minutes(5);
    let task = board.create_consensus_task(
        pubkey(),
        "needs 3, only 1 shows up".to_string(),
        900,
        3,
        join_deadline,
        60,
    );
    board.join_consensus_task(task.id, pubkey()).unwrap();
    assert_eq!(board.get_task(task.id).unwrap().status, TaskStatus::Open);
    assert_eq!(board.allocated_bounty(), 900);
    assert!(board.cancel_understaffed_consensus_tasks(now).is_empty());
    let cancelled = board.cancel_understaffed_consensus_tasks(join_deadline.plus_seconds(1));
    assert_eq!(cancelled, vec![task.id]);
    assert_eq!(board.get_task(task.id).unwrap().status, TaskStatus::Closed);
    assert_eq!(board.allocated_bounty(), 0, "a cancelled task's bounty is freed back up");
}

#[test]
fn cancel_understaffed_consensus_tasks_leaves_a_fully_joined_task_alone() {
    let mut board = TaskBoard::new();
    let deadline = clock::now().plus_minutes(5);
    let (task_id, _assignees) = create_and_fill_consensus_task(&mut board, 2, deadline);
    let cancelled = board.cancel_understaffed_consensus_tasks(clock::now().plus_minutes(120));
    assert!(cancelled.is_empty());
    assert_eq!(board.get_task(task_id).unwrap().status, TaskStatus::Claimed);
}

#[test]
fn join_consensus_task_rejects_a_join_past_its_deadline() {
    let mut board = TaskBoard::new();
    let now = clock::now();
    let join_deadline = now.plus_seconds(-1);
    let task = board.create_consensus_task(
        pubkey(),
        "already expired".to_string(),
        10,
        2,
        join_deadline,
        60,
    );

    assert!(matches!(
        board.join_consensus_task(task.id, pubkey()),
        Err(BoardError::JoinWindowExpired)
    ));
}

#[test]
fn submit_consensus_answer_rejects_a_submission_past_its_deadline() {
    let mut board = TaskBoard::new();
    let task = board.create_consensus_task(
        pubkey(),
        "already expired by the time it fills".to_string(),
        10,
        2,
        clock::now().plus_minutes(60),
        -1,
    );
    let a = pubkey();
    let b = pubkey();
    board.join_consensus_task(task.id, a).unwrap();
    board.join_consensus_task(task.id, b).unwrap();
    assert_eq!(board.get_task(task.id).unwrap().status, TaskStatus::Claimed);

    assert!(matches!(
        board.submit_consensus_answer(task.id, a, "42".to_string()),
        Err(BoardError::SubmissionWindowExpired)
    ));
}

#[test]
fn cancel_task_closes_an_open_task_and_frees_its_escrow() {
    let mut board = TaskBoard::new();
    let task = board.create_task(pubkey(), "oops, typo".to_string(), 100, hash(b"x"));
    assert_eq!(board.allocated_bounty(), 100);

    board.cancel_task(task.id).unwrap();

    let task = board.get_task(task.id).unwrap();
    assert_eq!(task.status, TaskStatus::Closed);
    assert_eq!(task.close_reason, Some(CloseReason::CancelledByOperator));
    assert_eq!(board.allocated_bounty(), 0);
}

#[test]
fn cancel_task_closes_a_claimed_task_without_dinging_the_claimant() {
    let mut board = TaskBoard::new();
    let task = board.create_task(pubkey(), "abandoned".to_string(), 100, hash(b"x"));
    let claimant = pubkey();
    board
        .claim_task(task.id, claimant, clock::now().plus_minutes(30))
        .unwrap();

    board.cancel_task(task.id).unwrap();

    assert_eq!(board.get_task(task.id).unwrap().status, TaskStatus::Closed);
    assert_eq!(board.reputation(&claimant).failed, 0, "an operator cancellation isn't the claimant's fault");
}

#[test]
fn cancel_task_works_on_a_claimed_consensus_task_too() {
    let mut board = TaskBoard::new();
    let deadline = clock::now().plus_minutes(30);
    let (task_id, assignees) = create_and_fill_consensus_task(&mut board, 2, deadline);
    assert_eq!(board.get_task(task_id).unwrap().status, TaskStatus::Claimed);
    assert_eq!(board.allocated_bounty(), 900);

    board.cancel_task(task_id).unwrap();

    let task = board.get_task(task_id).unwrap();
    assert_eq!(task.status, TaskStatus::Closed);
    assert_eq!(task.close_reason, Some(CloseReason::CancelledByOperator));
    assert_eq!(board.allocated_bounty(), 0);
    for assignee in &assignees {
        assert_eq!(board.reputation(assignee).failed, 0);
    }
}

#[test]
fn cancel_task_rejects_an_already_terminal_task() {
    let mut board = TaskBoard::new();
    let expected = hash(b"x");
    let task = board.create_task(pubkey(), "t".to_string(), 10, expected);
    let worker = pubkey();
    board
        .claim_task(task.id, worker, clock::now().plus_minutes(5))
        .unwrap();
    board.submit(task.id, worker, expected).unwrap();
    board.mark_recipient_paid(task.id, &worker, 10).unwrap();
    assert_eq!(board.get_task(task.id).unwrap().status, TaskStatus::Paid);

    assert!(matches!(
        board.cancel_task(task.id),
        Err(BoardError::AlreadyTerminal)
    ));
}

#[test]
fn cancel_task_on_a_missing_task_fails() {
    let mut board = TaskBoard::new();
    assert!(matches!(
        board.cancel_task(unused_id()),
        Err(BoardError::NotFound)
    ));
}
