use itx_hub::api::requests::hash_output;
use itx_hub::board::deposits::{EscrowPurpose, PendingDeposit, TaskIntent};
use itx_hub::board::payouts::TransactionOutput;
use itx_hub::board::types::{DisputeResolution, EscrowStatus, ExchangeAccount, PaymentStatus, PayoutAttempt, Reputation, TaskStatus, MAX_PAYOUT_SUBMISSIONS};
use itx_hub::board::TaskBoard;
use itx_hub::clock;
use itx_hub::escrow_key::EscrowSecret;
use itx_hub::settlement::{
    abandon_payout, escrow_payment, escrow_recipients, is_current, is_over, net_of_fee, payment_total,
    payout_attempts, plan_bond, plan_disbursement, plan_payout, plan_resend, plan_resolution, plan_settlement, record_attempts,
    record_confirmed_payout_at, sweepable, BondStep, BuiltTransaction, DisbursementStep, GivingUp, PayoutStep,
    ResendStep, ResolutionStep, SettlementStep,
};
use itx_hub::tags::Tags;
use itx_hub::types::{Id, PrivateKey, PublicKey, Timestamp};
use itx_hub::wallet::{may_reshape, outputs_to_spend, shares_to, wait_for_reshaping, Reshape, WalletKind};

fn unused_id() -> Id {
    uuid::Uuid::new_v4().as_u128()
}

fn pubkey() -> PublicKey {
    PublicKey { tag: 2, hi: unused_id(), lo: unused_id() }
}

fn address(key: &PrivateKey) -> PublicKey {
    PublicKey { tag: 3, hi: key.hi, lo: key.lo }
}

fn reserve(
    board: &mut TaskBoard,
    depositor: PublicKey,
    amount: u64,
    purpose: EscrowPurpose,
    expires_at: Timestamp,
) -> PendingDeposit {
    board.reserve_escrow(&EscrowSecret::generate(), depositor, amount, purpose, expires_at, address).unwrap()
}

fn output(value: u64, owner: &PublicKey) -> TransactionOutput {
    let unique_id = unused_id();
    TransactionOutput { value, unique_id, pubkey: *owner, hash: hash_output(&format!("{unique_id}")) }
}

/// A task whose answer is verified, and the worker who is to be paid.
fn verified_task(board: &mut TaskBoard, bounty: u64) -> (Id, PublicKey) {
    let worker = pubkey();
    let task = board.create_task(pubkey(), "t".to_string(), bounty, hash_output("ok"));
    board.claim_task(task.id, worker, clock::now().plus_minutes(10)).unwrap();
    board.submit(task.id, worker, hash_output("ok")).unwrap();
    (task.id, worker)
}

/// A transaction that pays `recipients` out of one output of `source`.
fn transaction(recipients: &[(PublicKey, u64)], source: &PublicKey) -> (BuiltTransaction, TransactionOutput) {
    let spent = output(1_000_000, source);
    let outputs = recipients.iter().map(|(key, amount)| output(*amount, key)).collect();
    (BuiltTransaction { outputs, spent_inputs: vec![spent.hash], bytes: vec![1, 2, 3] }, spent)
}

fn send(board: &mut TaskBoard, task_id: Id, recipients: Vec<(PublicKey, u64)>, source: &PublicKey) -> (Vec<PayoutAttempt>, BuiltTransaction, TransactionOutput) {
    let (tx, spent) = transaction(&recipients, source);
    let attempts = payout_attempts(board, task_id, &recipients, &tx, source, clock::now()).unwrap();
    record_attempts(board, &attempts);
    (attempts, tx, spent)
}

#[test]
fn an_operators_task_pays_each_winner_once() {
    let mut board = TaskBoard::new();
    let operator = pubkey();
    let (task_id, worker) = verified_task(&mut board, 100);
    match plan_settlement(&board, task_id) {
        SettlementStep::PayEach(each) => assert_eq!(each, vec![(worker, 100)]),
        _ => panic!("there is a winner to pay"),
    }
    assert!(matches!(plan_payout(&board, task_id, &worker), PayoutStep::Send));
    assert!(matches!(plan_payout(&board, unused_id(), &worker), PayoutStep::NoTask));

    let (attempts, tx, _) = send(&mut board, task_id, vec![(worker, 100)], &operator);
    assert_eq!((attempts[0].submissions, attempts[0].output_hash), (1, tx.outputs[0].hash));
    assert_eq!(board.get_task(task_id).unwrap().status, TaskStatus::Submitted);
    assert!(matches!(plan_settlement(&board, task_id), SettlementStep::Nothing), "it is on its way");
}

#[test]
fn a_transaction_that_does_not_pay_is_not_recorded() {
    let mut board = TaskBoard::new();
    let operator = pubkey();
    let (task_id, worker) = verified_task(&mut board, 100);
    let (tx, _) = transaction(&[(worker, 99)], &operator);
    assert_eq!(payout_attempts(&board, task_id, &vec![(worker, 100)], &tx, &operator, clock::now()).err(), Some(0));
}

#[test]
fn a_payout_is_followed_until_it_is_on_chain() {
    let mut board = TaskBoard::new();
    let operator = pubkey();
    let (task_id, worker) = verified_task(&mut board, 100);
    let (attempts, tx, spent) = send(&mut board, task_id, vec![(worker, 100)], &operator);
    let attempt = &attempts[0];
    assert!(is_current(&board, attempt));
    assert!(matches!(plan_resolution(&board, attempt, &vec![], &vec![]), ResolutionStep::Wait));
    assert!(matches!(plan_resolution(&board, attempt, &vec![], &vec![(false, spent)]), ResolutionStep::Resend));
    assert!(matches!(
        plan_resolution(&board, attempt, &vec![(false, tx.outputs[0])], &vec![]),
        ResolutionStep::Record
    ));

    let now = clock::now();
    let mut kept: Option<Reputation> = None;
    assert!(record_confirmed_payout_at(&mut board, task_id, &worker, 100, now, |_, _, record| {
        kept = Some(*record);
        Ok(())
    }));
    assert_eq!(kept, Some(Reputation { completed: 1, failed: 0, total_earned: 100 }));
    assert_eq!(board.get_task(task_id).unwrap().status, TaskStatus::Paid);
    assert!(!is_current(&board, attempt));
    record_confirmed_payout_at(&mut board, task_id, &worker, 100, now, |_, _, _| Ok(()));
    assert_eq!(board.reputation(&worker).total_earned, 100, "a payout counts once");
}

#[test]
fn a_payout_that_cannot_be_kept_is_not_recorded() {
    let mut board = TaskBoard::new();
    let operator = pubkey();
    let (task_id, worker) = verified_task(&mut board, 100);
    send(&mut board, task_id, vec![(worker, 100)], &operator);
    assert!(!record_confirmed_payout_at(&mut board, task_id, &worker, 100, clock::now(), |_, _, _| {
        Err("disk full".to_string())
    }));
    assert_eq!(board.get_task(task_id).unwrap().status, TaskStatus::Submitted);
    assert_eq!(board.reputation(&worker).completed, 0);
}

#[test]
fn a_lost_payout_is_sent_again_as_it_was_until_it_is_given_up() {
    let mut board = TaskBoard::new();
    let operator = pubkey();
    let now = clock::now();
    let (task_id, worker) = verified_task(&mut board, 100);
    let (attempts, _, spent) = send(&mut board, task_id, vec![(worker, 100)], &operator);
    let mut attempt = attempts[0].clone();
    while attempt.submissions < MAX_PAYOUT_SUBMISSIONS {
        assert!(matches!(plan_resolution(&board, &attempt, &vec![], &vec![(false, spent)]), ResolutionStep::Resend));
        let next = match plan_resend(&board, &attempt, now) {
            ResendStep::SameTransaction(next) => next,
            _ => panic!("the transaction is there to be sent again"),
        };
        assert_eq!(next.submissions, attempt.submissions + 1);
        assert_eq!(next.transaction, Some(vec![1, 2, 3]));
        board.record_payout_attempt(next.clone());
        assert!(matches!(plan_resend(&board, &attempt, now), ResendStep::Nothing), "it was overtaken");
        attempt = next;
    }
    assert!(matches!(plan_resolution(&board, &attempt, &vec![], &vec![(false, spent)]), ResolutionStep::GiveUp));
    assert!(matches!(abandon_payout(&mut board, task_id, |_, _| Err("disk full".to_string())), GivingUp::NotKept));
    assert_eq!(board.get_task(task_id).unwrap().status, TaskStatus::Submitted);
    assert!(matches!(abandon_payout(&mut board, task_id, |_, _| Ok(())), GivingUp::Done));
    let task = board.get_task(task_id).unwrap();
    assert_eq!(task.status, TaskStatus::PayoutFailed);
    assert_eq!((task.owed_payouts(), task.pending_payouts().len()), (vec![(worker, 100)], 0));
    assert_eq!(board.allocated_bounty(), 100);
}

#[test]
fn an_attempt_without_its_transaction_is_made_anew() {
    let mut board = TaskBoard::new();
    let operator = pubkey();
    let (task_id, worker) = verified_task(&mut board, 100);
    let (attempts, _, _) = send(&mut board, task_id, vec![(worker, 100)], &operator);
    let mut bare = attempts[0].clone();
    bare.transaction = None;
    board.record_payout_attempt(bare.clone());
    assert!(matches!(plan_resend(&board, &bare, clock::now()), ResendStep::FromOperator));
}

fn funded_task(board: &mut TaskBoard, bounty: u64) -> (Id, PendingDeposit, PublicKey) {
    let now = clock::now();
    let intent = TaskIntent {
        description: "t".to_string(),
        bounty,
        expected_output_hash: hash_output("ok"),
        min_reputation: 0,
        capabilities: Tags::new(),
    };
    let deposit = reserve(board, pubkey(), bounty + 1_000, EscrowPurpose::FundHashMatchTask(intent), now.plus_minutes(60));
    let itx_hub::board::deposits::EscrowConfirmation::TaskCreated(task) =
        board.confirm_escrow(deposit.id, bounty + 1_000, now).unwrap();
    let worker = pubkey();
    board.claim_task(task.id, worker, now.plus_minutes(10)).unwrap();
    board.submit(task.id, worker, hash_output("ok")).unwrap();
    (task.id, deposit, worker)
}

#[test]
fn a_funded_task_pays_out_of_its_deposit() {
    let mut board = TaskBoard::new();
    let (task_id, deposit, worker) = funded_task(&mut board, 500);
    match plan_settlement(&board, task_id) {
        SettlementStep::FromEscrow(from) => assert_eq!(from.id, deposit.id),
        _ => panic!("the deposit pays"),
    }
    assert_eq!(escrow_recipients(&board, task_id), Some(vec![(worker, 500)]));
}

#[test]
fn what_is_left_of_a_deposit_goes_out_once() {
    let mut board = TaskBoard::new();
    let now = clock::now();
    let owner = pubkey();
    let deposit = reserve(&mut board, owner, 100, EscrowPurpose::FundExchangeAccount, now.plus_minutes(30));
    assert!(matches!(plan_disbursement(&board, &deposit), DisbursementStep::Pay));
    let mut payment = escrow_payment(&deposit, &owner, 5_000, false, unused_id(), now);
    assert_eq!((payment.source, payment.recipient, payment.amount), (deposit.deposit_pubkey, owner, 4_000));
    board.restore_payment(payment);
    assert!(matches!(plan_disbursement(&board, &deposit), DisbursementStep::Wait));
    payment.status = PaymentStatus::Confirmed;
    board.restore_payment(payment);
    assert!(matches!(plan_disbursement(&board, &deposit), DisbursementStep::Done(_)));
    assert_eq!((net_of_fee(5_000), net_of_fee(1_000), net_of_fee(3)), (4_000, 0, 0));
}

#[test]
fn the_winner_of_a_challenge_has_the_bond() {
    for (outcome, forfeited) in [(DisputeResolution::ChallengerWins, false), (DisputeResolution::AssigneeWins, true)] {
        let mut board = TaskBoard::new();
        let now = clock::now();
        let (worker, challenger) = (pubkey(), pubkey());
        let task = board.create_disputable_task(pubkey(), "t".to_string(), 900, 30);
        board.claim_task(task.id, worker, now.plus_minutes(30)).unwrap();
        board.submit_disputable_answer(task.id, worker, "a".to_string(), now).unwrap();
        assert!(matches!(plan_bond(&board, task.id), BondStep::Nothing));
        let bond = reserve(
            &mut board,
            challenger,
            900,
            EscrowPurpose::DisputeBond { task_id: task.id, reason: "r".to_string() },
            now.plus_minutes(30),
        );
        board.confirm_dispute_bond(bond.id, 900, now).unwrap();
        assert!(matches!(plan_bond(&board, task.id), BondStep::Nothing), "nobody has won yet");
        let (winner, _) = board.resolve_dispute(task.id, outcome).unwrap();
        match plan_bond(&board, task.id) {
            BondStep::Pay(deposit, to, lost) => assert_eq!((deposit.id, to, lost), (bond.id, winner, forfeited)),
            _ => panic!("the bond is due"),
        }
    }
}

#[test]
fn only_a_consumed_exchange_deposit_is_swept() {
    let mut board = TaskBoard::new();
    let now = clock::now();
    let deposit = reserve(&mut board, pubkey(), 1, EscrowPurpose::FundExchangeAccount, now.plus_minutes(30));
    assert!(sweepable(&board, deposit.id).is_none());
    board.confirm_exchange_deposit(deposit.id, 10_000, 1_000, now).unwrap();
    assert_eq!(sweepable(&board, deposit.id).unwrap().status, EscrowStatus::Consumed);
}

#[test]
fn custody_is_reshaped_out_of_a_surplus_only() {
    let mut board = TaskBoard::new();
    let (custody, owner) = (pubkey(), pubkey());
    board.restore_exchange_account(owner, ExchangeAccount { base_balance: 5_000, ..Default::default() });
    let short = vec![(false, output(5_999, &custody))];
    let enough = vec![(false, output(6_000, &custody))];
    assert!(!may_reshape(&board, WalletKind::Custody, &short));
    assert!(may_reshape(&board, WalletKind::Custody, &enough));
    assert!(may_reshape(&board, WalletKind::Operator, &short));
}

#[test]
fn a_reshaping_is_waited_for_while_its_inputs_are_marked() {
    let wallet = pubkey();
    let spent = output(10, &wallet);
    let mut inflight = vec![spent.hash];
    assert!(wait_for_reshaping(&mut inflight, &vec![(true, spent)]));
    assert_eq!(inflight.len(), 1);
    assert!(!wait_for_reshaping(&mut inflight, &vec![(false, spent)]), "it is gone");
    assert!(inflight.is_empty());
    let plan = Reshape { inputs: vec![spent], shares: vec![4, 5] };
    assert_eq!(shares_to(&wallet, &plan), vec![(wallet, 4), (wallet, 5)]);
    assert_eq!(outputs_to_spend(&plan), vec![(false, spent)]);
}

#[test]
fn a_payment_needs_its_amounts_and_the_fee() {
    let (a, b) = (pubkey(), pubkey());
    assert_eq!(payment_total(&[]), Some(1_000));
    assert_eq!(payment_total(&[(a, 5), (b, 70)]), Some(1_075));
    assert_eq!(payment_total(&[(a, u64::MAX - 1_000)]), Some(u64::MAX));
    assert_eq!(payment_total(&[(a, u64::MAX - 1_000), (b, 1)]), None);
}

#[test]
fn a_payout_that_could_not_be_given_up_is_not_over() {
    let mut board = TaskBoard::new();
    let operator = pubkey();
    let (task_id, worker) = verified_task(&mut board, 100);
    send(&mut board, task_id, vec![(worker, 100)], &operator);
    assert!(!is_over(&abandon_payout(&mut board, task_id, |_, _| Err("disk full".to_string()))));
    assert!(is_over(&abandon_payout(&mut board, task_id, |_, _| Ok(()))));
    assert!(is_over(&abandon_payout(&mut board, task_id, |_, _| Ok(()))), "there is nothing left to give up");
}
