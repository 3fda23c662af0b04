use itx_hub::api::requests::hash_output;
use itx_hub::board::deposits::{ConsensusTaskIntent, EscrowConfirmation, EscrowPurpose, PendingDeposit, TaskIntent};
use itx_hub::board::types::{BoardError, DisputeResolution, EscrowStatus, ExchangeAccount, TaskKind, TaskStatus};
use itx_hub::board::TaskBoard;
use itx_hub::clock;
use itx_hub::escrow_key::EscrowSecret;
use itx_hub::tags::Tags;
use itx_hub::types::{Digest, Id, PrivateKey, PublicKey, Timestamp};

fn unused_id() -> Id {
    uuid::Uuid::new_v4().as_u128()
}

fn pubkey() -> PublicKey {
    PublicKey { tag: 2, hi: unused_id(), lo: unused_id() }
}

fn hash(text: &[u8]) -> Digest {
    hash_output(std::str::from_utf8(text).unwrap())
}

/// Stands in for the curve: a distinct address for every key.
fn address(key: &PrivateKey) -> PublicKey {
    PublicKey { tag: 3, hi: key.hi, lo: key.lo }
}

fn reserve(
    board: &mut TaskBoard,
    depositor: PublicKey,
    amount: u64,
    purpose: EscrowPurpose,
    expires_at: Timestamp,
) -> PendingDeposit {
    board.reserve_escrow(&EscrowSecret::generate(), depositor, amount, purpose, expires_at, address).unwrap()
}

/// An intent for a deposit whose purpose does not matter.
fn any_intent(bounty: u64) -> TaskIntent {
    TaskIntent {
        description: "t".to_string(),
        bounty,
        expected_output_hash: hash(b"x"),
        min_reputation: 0,
        capabilities: Tags::new(),
    }
}

#[test]
fn a_reserved_escrow_carries_no_key_and_derives_the_address_it_handed_out() {
    let mut board = TaskBoard::new();
    let secret = EscrowSecret::generate();

    let deposit = board
        .reserve_escrow(
            &secret,
            pubkey(),
            100,
            EscrowPurpose::FundHashMatchTask(any_intent(100)),
            clock::now().plus_minutes(30),
            address,
        )
        .unwrap();

    assert!(deposit.deposit_private_key.is_none());
    assert_eq!(
        address(&deposit.private_key(&secret).unwrap()),
        deposit.deposit_pubkey,
        "the derived key must control the address the depositor is told to pay"
    );
}

#[test]
fn reads_back_a_deposit_written_before_keys_were_derived() {
    let stored_key = PrivateKey { hi: unused_id(), lo: unused_id() };
    let stored_pubkey = address(&stored_key);
    let restored = PendingDeposit {
        id: unused_id(),
        depositor: pubkey(),
        deposit_pubkey: stored_pubkey,
        deposit_private_key: Some(stored_key),
        required_amount: 500,
        purpose: EscrowPurpose::FundHashMatchTask(any_intent(500)),
        status: EscrowStatus::Reserved,
        created_at: clock::now(),
        expires_at: clock::now().plus_minutes(30),
    };

    let unrelated_secret = EscrowSecret::generate();
    assert_eq!(
        address(&restored.private_key(&unrelated_secret).unwrap()),
        stored_pubkey,
        "a deposit with a stored key must keep settling against that key"
    );
}

#[test]
fn reserve_escrow_creates_a_reserved_deposit_with_a_fresh_address() {
    let mut board = TaskBoard::new();
    let depositor = pubkey();
    let intent = TaskIntent {
        description: "t".to_string(),
        bounty: 100,
        expected_output_hash: hash(b"x"),
        min_reputation: 0,
        capabilities: Tags::new(),
    };
    let deposit = reserve(
        &mut board,
        depositor,
        100,
        EscrowPurpose::FundHashMatchTask(intent),
        clock::now().plus_minutes(30),
    );

    assert_eq!(deposit.status, EscrowStatus::Reserved);
    assert_eq!(deposit.depositor, depositor);
    assert_ne!(deposit.deposit_pubkey, depositor, "must be a fresh address, not the depositor's own");
    assert!(board.get_pending_deposit(deposit.id).is_some());
}

#[test]
fn confirm_escrow_creates_a_hash_match_task_once_sufficiently_funded() {
    let mut board = TaskBoard::new();
    let depositor = pubkey();
    let expected = hash(b"answer");
    let intent = TaskIntent {
        description: "escrowed".to_string(),
        bounty: 500,
        expected_output_hash: expected,
        min_reputation: 0,
        capabilities: Tags::new(),
    };
    let deposit = reserve(
        &mut board,
        depositor,
        500,
        EscrowPurpose::FundHashMatchTask(intent),
        clock::now().plus_minutes(30),
    );

    let EscrowConfirmation::TaskCreated(task) =
        board.confirm_escrow(deposit.id, 500, clock::now()).unwrap();

    assert_eq!(task.poster, depositor, "the depositor, not the operator, is the poster");
    assert_eq!(task.escrow_id, Some(deposit.id));
    assert_eq!(task.bounty, 500);
    assert_eq!(board.get_task(task.id).unwrap().id, task.id, "must actually be a real, retrievable task");
    assert_eq!(
        board.get_pending_deposit(deposit.id).unwrap().status,
        EscrowStatus::Consumed
    );
}

#[test]
fn confirm_escrow_creates_a_consensus_task_once_sufficiently_funded() {
    let mut board = TaskBoard::new();
    let depositor = pubkey();
    let intent = ConsensusTaskIntent {
        description: "open-ended, escrowed".to_string(),
        bounty: 900,
        num_assignees: 3,
        join_window_minutes: 60,
        submission_window_minutes: 30,
        min_reputation: 0,
        capabilities: Tags::new(),
    };
    let deposit = reserve(
        &mut board,
        depositor,
        900,
        EscrowPurpose::FundConsensusTask(intent),
        clock::now().plus_minutes(30),
    );

    let EscrowConfirmation::TaskCreated(task) =
        board.confirm_escrow(deposit.id, 900, clock::now()).unwrap();

    assert_eq!(task.poster, depositor);
    assert_eq!(task.escrow_id, Some(deposit.id));
    assert!(matches!(task.kind, TaskKind::Consensus { num_assignees: 3, .. }));
}

#[test]
fn confirm_escrow_rejects_an_underfunded_deposit() {
    let mut board = TaskBoard::new();
    let intent = TaskIntent {
        description: "t".to_string(),
        bounty: 500,
        expected_output_hash: hash(b"x"),
        min_reputation: 0,
        capabilities: Tags::new(),
    };
    let deposit = reserve(
        &mut board,
        pubkey(),
        500,
        EscrowPurpose::FundHashMatchTask(intent),
        clock::now().plus_minutes(30),
    );

    assert!(matches!(
        board.confirm_escrow(deposit.id, 499, clock::now()),
        Err(BoardError::EscrowUnderfunded { required: 500, have: 499 })
    ));
    assert_eq!(board.get_pending_deposit(deposit.id).unwrap().status, EscrowStatus::Reserved);
}

#[test]
fn confirm_escrow_rejects_an_expired_deposit() {
    let mut board = TaskBoard::new();
    let now = clock::now();
    let intent = TaskIntent {
        description: "t".to_string(),
        bounty: 100,
        expected_output_hash: hash(b"x"),
        min_reputation: 0,
        capabilities: Tags::new(),
    };
    let deposit = reserve(
        &mut board,
        pubkey(),
        100,
        EscrowPurpose::FundHashMatchTask(intent),
        now.plus_minutes(5),
    );

    assert!(matches!(
        board.confirm_escrow(deposit.id, 100, now.plus_minutes(6)),
        Err(BoardError::EscrowExpired)
    ));
}

#[test]
fn confirm_escrow_rejects_an_already_consumed_deposit() {
    let mut board = TaskBoard::new();
    let intent = TaskIntent {
        description: "t".to_string(),
        bounty: 100,
        expected_output_hash: hash(b"x"),
        min_reputation: 0,
        capabilities: Tags::new(),
    };
    let deposit = reserve(
        &mut board,
        pubkey(),
        100,
        EscrowPurpose::FundHashMatchTask(intent),
        clock::now().plus_minutes(30),
    );
    board.confirm_escrow(deposit.id, 100, clock::now()).unwrap();

    assert!(matches!(
        board.confirm_escrow(deposit.id, 100, clock::now()),
        Err(BoardError::EscrowNotReserved)
    ));
}

#[test]
fn confirm_escrow_on_a_missing_deposit_fails() {
    let mut board = TaskBoard::new();
    assert!(matches!(
        board.confirm_escrow(unused_id(), 100, clock::now()),
        Err(BoardError::EscrowNotFound)
    ));
}

#[test]
fn overdue_reserved_escrows_lists_only_expired_still_reserved_deposits() {
    let mut board = TaskBoard::new();
    let now = clock::now();
    let intent = |bounty| TaskIntent {
        description: "t".to_string(),
        bounty,
        expected_output_hash: hash(b"x"),
        min_reputation: 0,
        capabilities: Tags::new(),
    };
    let expired = reserve(&mut board, pubkey(), 100, EscrowPurpose::FundHashMatchTask(intent(100)), now.plus_seconds(-1));
    let still_fresh = reserve(&mut board, pubkey(), 100, EscrowPurpose::FundHashMatchTask(intent(100)), now.plus_minutes(30));
    let expired_but_confirmed = reserve(&mut board, pubkey(), 100, EscrowPurpose::FundHashMatchTask(intent(100)), now.plus_seconds(-1));
    board.confirm_escrow(expired_but_confirmed.id, 100, now.plus_seconds(-2)).unwrap();

    let overdue: Vec<Id> = board.overdue_reserved_escrows(now).iter().map(|d| d.id).collect();
    assert_eq!(overdue, vec![expired.id]);
    assert!(!overdue.contains(&still_fresh.id));
    assert!(!overdue.contains(&expired_but_confirmed.id), "already-consumed deposits aren't 'overdue', just done");
}

#[test]
fn mark_escrow_refunded_transitions_status() {
    let mut board = TaskBoard::new();
    let intent = TaskIntent {
        description: "t".to_string(),
        bounty: 100,
        expected_output_hash: hash(b"x"),
        min_reputation: 0,
        capabilities: Tags::new(),
    };
    let deposit = reserve(&mut board, pubkey(), 100, EscrowPurpose::FundHashMatchTask(intent), clock::now().plus_seconds(-1));

    board.mark_escrow_refunded(deposit.id).unwrap();
    assert_eq!(board.get_pending_deposit(deposit.id).unwrap().status, EscrowStatus::Refunded);
}

#[test]
fn allocated_bounty_excludes_escrow_funded_tasks() {
    let mut board = TaskBoard::new();
    board.create_task(pubkey(), "operator-funded".to_string(), 100, hash(b"x"));
    assert_eq!(board.allocated_bounty(), 100);

    let intent = TaskIntent {
        description: "escrow-funded".to_string(),
        bounty: 900,
        expected_output_hash: hash(b"y"),
        min_reputation: 0,
        capabilities: Tags::new(),
    };
    let deposit = reserve(&mut board, pubkey(), 900, EscrowPurpose::FundHashMatchTask(intent), clock::now().plus_minutes(30));
    board.confirm_escrow(deposit.id, 900, clock::now()).unwrap();

    assert_eq!(board.allocated_bounty(), 100, "the escrow-funded task's bounty must not count against the operator");
}

#[test]
fn poster_cannot_claim_their_own_hash_match_task() {
    let mut board = TaskBoard::new();
    let poster = pubkey();
    let task = board.create_task(poster, "t".to_string(), 10, hash(b"x"));

    assert!(matches!(
        board.claim_task(task.id, poster, clock::now().plus_minutes(5)),
        Err(BoardError::PosterCannotClaimOwnTask)
    ));
    assert_eq!(board.get_task(task.id).unwrap().status, TaskStatus::Open, "a rejected claim must not consume the task");
}

#[test]
fn poster_cannot_join_their_own_consensus_task() {
    let mut board = TaskBoard::new();
    let poster = pubkey();
    let deadline = clock::now().plus_minutes(30);
    let task = board.create_consensus_task(poster, "t".to_string(), 10, 2, deadline, 30);

    assert!(matches!(
        board.join_consensus_task(task.id, poster),
        Err(BoardError::PosterCannotClaimOwnTask)
    ));
}

#[test]
fn escrow_for_task_finds_the_funding_deposit_and_none_for_operator_funded() {
    let mut board = TaskBoard::new();
    let operator_task = board.create_task(pubkey(), "t".to_string(), 10, hash(b"x"));
    assert!(board.escrow_for_task(operator_task.id).is_none());

    let intent = TaskIntent {
        description: "t".to_string(),
        bounty: 10,
        expected_output_hash: hash(b"x"),
        min_reputation: 0,
        capabilities: Tags::new(),
    };
    let deposit = reserve(&mut board, pubkey(), 10, EscrowPurpose::FundHashMatchTask(intent), clock::now().plus_minutes(30));
    let EscrowConfirmation::TaskCreated(task) = board.confirm_escrow(deposit.id, 10, clock::now()).unwrap();

    assert_eq!(board.escrow_for_task(task.id).unwrap().id, deposit.id);
}

fn create_and_submit_disputable_task(
    board: &mut TaskBoard,
    poster: PublicKey,
    claimant: PublicKey,
    bounty: u64,
    dispute_window_minutes: i64,
) -> Id {
    let task = board.create_disputable_task(poster, "open-ended work".to_string(), bounty, dispute_window_minutes);
    board.claim_task(task.id, claimant, clock::now().plus_minutes(30)).unwrap();
    board.submit_disputable_answer(task.id, claimant, "my answer".to_string(), clock::now()).unwrap();
    assert_eq!(board.get_task(task.id).unwrap().status, TaskStatus::AwaitingDispute);
    task.id
}

fn file_dispute(board: &mut TaskBoard, task_id: Id, challenger: PublicKey, reason: &str) -> Id {
    let bounty = board.get_task(task_id).unwrap().bounty;
    let deposit = reserve(
        board,
        challenger,
        bounty,
        EscrowPurpose::DisputeBond { task_id, reason: reason.to_string() },
        clock::now().plus_minutes(30),
    );
    board.confirm_dispute_bond(deposit.id, bounty, clock::now()).unwrap();
    assert_eq!(board.get_task(task_id).unwrap().status, TaskStatus::Disputed);
    deposit.id
}

#[test]
fn disputable_task_finalizes_unchallenged_via_sweep_and_pays_the_claimant() {
    let mut board = TaskBoard::new();
    let claimant = pubkey();
    let task_id = create_and_submit_disputable_task(&mut board, pubkey(), claimant, 900, 30);
    assert!(board.finalize_unchallenged_disputable_tasks(clock::now()).is_empty());
    assert_eq!(board.get_task(task_id).unwrap().status, TaskStatus::AwaitingDispute);
    let later = clock::now().plus_minutes(31);
    let finalized = board.finalize_unchallenged_disputable_tasks(later);
    assert_eq!(finalized, vec![task_id]);
    let task = board.get_task(task_id).unwrap();
    assert_eq!(task.status, TaskStatus::Verified);
    assert_eq!(task.pending_payouts(), vec![(claimant, 900)]);
}

#[test]
fn submit_disputable_answer_rejects_non_claimant() {
    let mut board = TaskBoard::new();
    let task = board.create_disputable_task(pubkey(), "t".to_string(), 10, 30);
    let claimant = pubkey();
    let impostor = pubkey();
    board.claim_task(task.id, claimant, clock::now().plus_minutes(30)).unwrap();

    assert!(matches!(
        board.submit_disputable_answer(task.id, impostor, "answer".to_string(), clock::now()),
        Err(BoardError::NotClaimant)
    ));
}

#[test]
fn confirm_dispute_bond_rejects_the_assignee() {
    let mut board = TaskBoard::new();
    let claimant = pubkey();
    let task_id = create_and_submit_disputable_task(&mut board, pubkey(), claimant, 900, 30);

    let deposit = reserve(
        &mut board,
        claimant,
        900,
        EscrowPurpose::DisputeBond { task_id, reason: "self-dispute attempt".to_string() },
        clock::now().plus_minutes(30),
    );
    assert!(matches!(
        board.confirm_dispute_bond(deposit.id, 900, clock::now()),
        Err(BoardError::AssigneeCannotDisputeOwnSubmission)
    ));
    assert_eq!(board.get_task(task_id).unwrap().status, TaskStatus::AwaitingDispute, "must not have attached");
}

#[test]
fn confirm_dispute_bond_rejects_after_window_closed_without_consuming_deposit() {
    let mut board = TaskBoard::new();
    let claimant = pubkey();
    let challenger = pubkey();
    let task_id = create_and_submit_disputable_task(&mut board, pubkey(), claimant, 900, -1);

    let deposit = reserve(
        &mut board,
        challenger,
        900,
        EscrowPurpose::DisputeBond { task_id, reason: "too late".to_string() },
        clock::now().plus_minutes(30),
    );
    assert!(matches!(
        board.confirm_dispute_bond(deposit.id, 900, clock::now()),
        Err(BoardError::DisputeWindowClosed)
    ));
    assert_eq!(board.get_pending_deposit(deposit.id).unwrap().status, EscrowStatus::Reserved);
}

#[test]
fn cannot_file_a_second_dispute_on_an_already_disputed_task() {
    let mut board = TaskBoard::new();
    let claimant = pubkey();
    let task_id = create_and_submit_disputable_task(&mut board, pubkey(), claimant, 900, 30);
    file_dispute(&mut board, task_id, pubkey(), "first challenge");

    let second_challenger = pubkey();
    let deposit = reserve(
        &mut board,
        second_challenger,
        900,
        EscrowPurpose::DisputeBond { task_id, reason: "second challenge".to_string() },
        clock::now().plus_minutes(30),
    );
    assert!(matches!(
        board.confirm_dispute_bond(deposit.id, 900, clock::now()),
        Err(BoardError::DisputeWindowClosed)
    ));
}

#[test]
fn resolve_dispute_challenger_wins_dings_assignee_and_pays_challenger() {
    let mut board = TaskBoard::new();
    let claimant = pubkey();
    let challenger = pubkey();
    let task_id = create_and_submit_disputable_task(&mut board, pubkey(), claimant, 900, 30);
    file_dispute(&mut board, task_id, challenger, "wrong answer");

    let (winner, loser) = board.resolve_dispute(task_id, DisputeResolution::ChallengerWins).unwrap();
    assert_eq!(winner, challenger);
    assert_eq!(loser, claimant);
    assert_eq!(board.reputation(&claimant).failed, 1);
    assert_eq!(board.reputation(&challenger).failed, 0, "not credited (completed) until actually paid");

    let task = board.get_task(task_id).unwrap();
    assert_eq!(task.status, TaskStatus::Verified);
    assert_eq!(task.pending_payouts(), vec![(challenger, 900)], "bounty leg goes to the challenger");
}

#[test]
fn resolve_dispute_assignee_wins_dings_challenger_and_pays_assignee() {
    let mut board = TaskBoard::new();
    let claimant = pubkey();
    let challenger = pubkey();
    let task_id = create_and_submit_disputable_task(&mut board, pubkey(), claimant, 900, 30);
    file_dispute(&mut board, task_id, challenger, "actually correct");

    let (winner, loser) = board.resolve_dispute(task_id, DisputeResolution::AssigneeWins).unwrap();
    assert_eq!(winner, claimant);
    assert_eq!(loser, challenger);
    assert_eq!(board.reputation(&challenger).failed, 1);

    let task = board.get_task(task_id).unwrap();
    assert_eq!(task.status, TaskStatus::Verified);
    assert_eq!(task.pending_payouts(), vec![(claimant, 900)], "bounty leg goes to the assignee -- the bond leg is separate, see settle_dispute_bond");
}

#[test]
fn resolve_dispute_rejects_a_task_that_isnt_currently_disputed() {
    let mut board = TaskBoard::new();
    let claimant = pubkey();
    let task_id = create_and_submit_disputable_task(&mut board, pubkey(), claimant, 900, 30);
    assert!(matches!(
        board.resolve_dispute(task_id, DisputeResolution::ChallengerWins),
        Err(BoardError::NotDisputed)
    ));
}

#[test]
fn cancel_task_rejects_a_disputed_task() {
    let mut board = TaskBoard::new();
    let claimant = pubkey();
    let task_id = create_and_submit_disputable_task(&mut board, pubkey(), claimant, 900, 30);
    file_dispute(&mut board, task_id, pubkey(), "contested");

    assert!(matches!(board.cancel_task(task_id), Err(BoardError::CannotCancelWhileDisputed)));
    assert_eq!(board.get_task(task_id).unwrap().status, TaskStatus::Disputed);
}

#[test]
fn cancel_task_still_accepts_an_awaiting_dispute_task() {
    let mut board = TaskBoard::new();
    let claimant = pubkey();
    let task_id = create_and_submit_disputable_task(&mut board, pubkey(), claimant, 900, 30);

    board.cancel_task(task_id).unwrap();
    assert_eq!(board.get_task(task_id).unwrap().status, TaskStatus::Closed);
}

#[test]
fn exchange_account_defaults_to_zero_for_a_new_pubkey() {
    let board = TaskBoard::new();
    let account = board.exchange_account(&pubkey());
    assert_eq!(account.base_balance, 0);
    assert_eq!(account.locked_base, 0);
    assert_eq!(account.compute_balance, 0);
    assert_eq!(account.locked_compute, 0);
}

#[test]
fn confirm_exchange_deposit_credits_net_of_fee() {
    let mut board = TaskBoard::new();
    let depositor = pubkey();
    let deposit = reserve(
        &mut board,
        depositor,
        1,
        EscrowPurpose::FundExchangeAccount,
        clock::now().plus_minutes(30),
    );

    let (credited_to, credited_amount) =
        board.confirm_exchange_deposit(deposit.id, 10_000, 1_000, clock::now()).unwrap();

    assert_eq!(credited_to, depositor);
    assert_eq!(credited_amount, 9_000);
    assert_eq!(board.exchange_account(&depositor).base_balance, 9_000);
    assert_eq!(board.get_pending_deposit(deposit.id).unwrap().status, EscrowStatus::Consumed);
}

#[test]
fn an_account_needs_room_for_what_is_credited_and_no_more() {
    let mut board = TaskBoard::new();
    let depositor = pubkey();
    board.restore_exchange_account(
        depositor,
        ExchangeAccount { base_balance: u64::MAX - 9_000, ..Default::default() },
    );
    let deposit =
        reserve(&mut board, depositor, 1, EscrowPurpose::FundExchangeAccount, clock::now().plus_minutes(30));
    let (_, account, staged) = board.stage_exchange_deposit(deposit.id, 10_000, 1_000, clock::now()).unwrap();
    assert_eq!((account.base_balance, staged.status), (u64::MAX, EscrowStatus::Consumed));
    assert_eq!(
        board.confirm_exchange_deposit(deposit.id, 10_000, 1_000, clock::now()),
        Ok((depositor, 9_000))
    );
    assert_eq!(board.exchange_account(&depositor).base_balance, u64::MAX);
}

#[test]
fn confirm_exchange_deposit_rejects_wrong_purpose() {
    let mut board = TaskBoard::new();
    let intent = TaskIntent {
        description: "t".to_string(),
        bounty: 100,
        expected_output_hash: hash(b"x"),
        min_reputation: 0,
        capabilities: Tags::new(),
    };
    let deposit = reserve(
        &mut board,
        pubkey(),
        100,
        EscrowPurpose::FundHashMatchTask(intent),
        clock::now().plus_minutes(30),
    );

    assert!(matches!(
        board.confirm_exchange_deposit(deposit.id, 100, 0, clock::now()),
        Err(BoardError::WrongEscrowPurpose)
    ));
}

#[test]
fn confirm_exchange_deposit_rejects_underfunded() {
    let mut board = TaskBoard::new();
    let deposit = reserve(
        &mut board,
        pubkey(),
        1_001,
        EscrowPurpose::FundExchangeAccount,
        clock::now().plus_minutes(30),
    );

    assert!(matches!(
        board.confirm_exchange_deposit(deposit.id, 1_000, 0, clock::now()),
        Err(BoardError::EscrowUnderfunded { required: 1_001, have: 1_000 })
    ));
}

#[test]
fn confirm_exchange_deposit_rejects_expired() {
    let mut board = TaskBoard::new();
    let now = clock::now();
    let deposit =
        reserve(&mut board, pubkey(), 1, EscrowPurpose::FundExchangeAccount, now.plus_minutes(5));

    assert!(matches!(
        board.confirm_exchange_deposit(deposit.id, 10_000, 0, now.plus_minutes(6)),
        Err(BoardError::EscrowExpired)
    ));
}

#[test]
fn confirm_exchange_deposit_rejects_already_consumed() {
    let mut board = TaskBoard::new();
    let deposit = reserve(
        &mut board,
        pubkey(),
        1,
        EscrowPurpose::FundExchangeAccount,
        clock::now().plus_minutes(30),
    );
    board.confirm_exchange_deposit(deposit.id, 10_000, 0, clock::now()).unwrap();

    assert!(matches!(
        board.confirm_exchange_deposit(deposit.id, 10_000, 0, clock::now()),
        Err(BoardError::EscrowNotReserved)
    ));
}

#[test]
fn confirm_exchange_deposit_rejects_missing() {
    let mut board = TaskBoard::new();
    assert!(matches!(
        board.confirm_exchange_deposit(unused_id(), 10_000, 0, clock::now()),
        Err(BoardError::EscrowNotFound)
    ));
}

#[test]
fn confirm_escrow_rejects_a_fund_exchange_account_purpose() {
    let mut board = TaskBoard::new();
    let deposit = reserve(
        &mut board,
        pubkey(),
        1,
        EscrowPurpose::FundExchangeAccount,
        clock::now().plus_minutes(30),
    );

    assert!(matches!(
        board.confirm_escrow(deposit.id, 10_000, clock::now()),
        Err(BoardError::WrongEscrowPurpose)
    ));
}

#[test]
fn unswept_exchange_deposits_lists_only_consumed_exchange_deposits() {
    let mut board = TaskBoard::new();
    let confirmed = reserve(
        &mut board,
        pubkey(),
        1,
        EscrowPurpose::FundExchangeAccount,
        clock::now().plus_minutes(30),
    );
    let still_reserved = reserve(
        &mut board,
        pubkey(),
        1,
        EscrowPurpose::FundExchangeAccount,
        clock::now().plus_minutes(30),
    );
    let intent = TaskIntent {
        description: "t".to_string(),
        bounty: 100,
        expected_output_hash: hash(b"x"),
        min_reputation: 0,
        capabilities: Tags::new(),
    };
    let unrelated = reserve(
        &mut board,
        pubkey(),
        100,
        EscrowPurpose::FundHashMatchTask(intent),
        clock::now().plus_minutes(30),
    );
    board.confirm_exchange_deposit(confirmed.id, 10_000, 0, clock::now()).unwrap();
    board.confirm_escrow(unrelated.id, 100, clock::now()).unwrap();

    assert_eq!(board.unswept_exchange_deposits(), vec![confirmed.id]);
    assert_eq!(board.get_pending_deposit(still_reserved.id).unwrap().status, EscrowStatus::Reserved);
}
