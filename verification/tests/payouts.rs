use itx_hub::api::requests::hash_output;
use itx_hub::board::payouts::{TransactionOutput, WithdrawalAttempt};
use itx_hub::board::types::{PayoutAttempt, PayoutOutcome, TaskStatus};
use itx_hub::board::TaskBoard;
use itx_hub::clock;
use itx_hub::types::{Digest, Id, PublicKey, Timestamp, NANOS_PER_MINUTE};

fn unused_id() -> Id {
    uuid::Uuid::new_v4().as_u128()
}

fn pubkey() -> PublicKey {
    PublicKey { tag: 2, hi: unused_id(), lo: unused_id() }
}

fn hash(text: &[u8]) -> Digest {
    hash_output(std::str::from_utf8(text).unwrap())
}

fn minutes_until(deadline: Timestamp) -> i64 {
    ((deadline.nanos - clock::now().nanos) / NANOS_PER_MINUTE) as i64
}

/// An output of `value` belonging to `owner`. Its fresh id makes two such
/// outputs hash differently.
fn output(value: u64, owner: &PublicKey) -> TransactionOutput {
    let unique_id = unused_id();
    TransactionOutput { value, unique_id, pubkey: *owner, hash: hash(format!("{unique_id}").as_bytes()) }
}

/// An attempt that claims to have paid `paid_output` to its recipient by
/// spending `spent` from `source`.
fn attempt(
    recipient: &PublicKey,
    source: &PublicKey,
    paid_output: &TransactionOutput,
    spent: &[&TransactionOutput],
) -> PayoutAttempt {
    PayoutAttempt {
        task_id: unused_id(),
        recipient: *recipient,
        amount: paid_output.value,
        output_hash: paid_output.hash,
        spent_inputs: spent.iter().map(|o| o.hash).collect(),
        source: *source,
        submitted_at: clock::now(),
        submissions: 1,
        transaction: None,
    }
}

fn create_and_fill_consensus_task(
    board: &mut TaskBoard,
    num_assignees: u32,
    deadline: Timestamp,
) -> (Id, Vec<PublicKey>) {
    let join_deadline = clock::now().plus_minutes(60);
    let submission_window_minutes = minutes_until(deadline).max(1);
    let task = board.create_consensus_task(
        pubkey(),
        "open-ended".to_string(),
        900,
        num_assignees,
        join_deadline,
        submission_window_minutes,
    );
    let assignees: Vec<PublicKey> = (0..num_assignees).map(|_| pubkey()).collect();
    for agent in &assignees {
        board.join_consensus_task(task.id, *agent).unwrap();
    }
    (task.id, assignees)
}

#[test]
fn a_payout_whose_output_the_recipient_holds_is_confirmed() {
    let (worker, operator) = (pubkey(), pubkey());
    let spent = output(1_000, &operator);
    let paid = output(100, &worker);
    let attempt = attempt(&worker, &operator, &paid, &[&spent]);

    assert_eq!(
        attempt.resolve(&vec![(false, paid)], &vec![]),
        PayoutOutcome::Confirmed
    );
}

#[test]
fn a_confirmed_payout_the_recipient_is_already_spending_is_still_confirmed() {
    let (worker, operator) = (pubkey(), pubkey());
    let spent = output(1_000, &operator);
    let paid = output(100, &worker);
    let attempt = attempt(&worker, &operator, &paid, &[&spent]);

    assert_eq!(
        attempt.resolve(&vec![(true, paid)], &vec![(false, spent)]),
        PayoutOutcome::Confirmed
    );
}

#[test]
fn a_withdrawal_and_a_payout_resolve_identically_on_every_row() {
    let (owner, custody) = (pubkey(), pubkey());
    let spent = output(1_000, &custody);
    let paid = output(100, &owner);
    let payout = attempt(&owner, &custody, &paid, &[&spent]);
    let withdrawal = WithdrawalAttempt {
        id: unused_id(),
        owner,
        amount: 100,
        output_hash: paid.hash,
        spent_inputs: vec![spent.hash],
        source: custody,
        submitted_at: clock::now(),
    };

    let confirmed = (vec![(true, paid.clone())], vec![(false, spent.clone())]);
    let never = (vec![], vec![(false, spent.clone())]);
    let ambiguous: (
        Vec<(bool, TransactionOutput)>,
        Vec<(bool, TransactionOutput)>,
    ) = (vec![], vec![]);

    for (recipient_utxos, source_utxos) in [confirmed, never, ambiguous] {
        assert_eq!(
            withdrawal.resolve(&recipient_utxos, &source_utxos),
            payout.resolve(&recipient_utxos, &source_utxos),
            "the two wrappers must not be able to disagree"
        );
    }
}

#[test]
fn a_payout_whose_inputs_are_all_still_unspent_never_landed() {
    let (worker, operator) = (pubkey(), pubkey());
    let spent = output(1_000, &operator);
    let paid = output(100, &worker);
    let attempt = attempt(&worker, &operator, &paid, &[&spent]);

    assert_eq!(
        attempt.resolve(&vec![], &vec![(false, spent)]),
        PayoutOutcome::NeverLanded
    );
}

#[test]
fn a_payout_with_only_some_inputs_returned_is_ambiguous_not_lost() {
    let (worker, operator) = (pubkey(), pubkey());
    let (first, second) = (output(60, &operator), output(60, &operator));
    let paid = output(100, &worker);
    let attempt = attempt(&worker, &operator, &paid, &[&first, &second]);

    assert_eq!(
        attempt.resolve(&vec![], &vec![(false, first)]),
        PayoutOutcome::Ambiguous
    );
}

#[test]
fn a_payout_whose_inputs_the_mempool_has_marked_is_ambiguous() {
    let (worker, operator) = (pubkey(), pubkey());
    let spent = output(1_000, &operator);
    let paid = output(100, &worker);
    let attempt = attempt(&worker, &operator, &paid, &[&spent]);

    assert_eq!(
        attempt.resolve(&vec![], &vec![(true, spent)]),
        PayoutOutcome::Ambiguous
    );
}

#[test]
fn a_payout_whose_inputs_have_vanished_is_ambiguous() {
    let (worker, operator) = (pubkey(), pubkey());
    let spent = output(1_000, &operator);
    let paid = output(100, &worker);
    let attempt = attempt(&worker, &operator, &paid, &[&spent]);
    assert_eq!(
        attempt.resolve(&vec![], &vec![(false, output(900, &operator))]),
        PayoutOutcome::Ambiguous
    );
}

#[test]
fn an_identical_payment_from_a_different_attempt_does_not_confirm_this_one() {
    let (worker, operator) = (pubkey(), pubkey());
    let spent = output(1_000, &operator);
    let earlier = output(100, &worker);
    let this_attempt = attempt(&worker, &operator, &output(100, &worker), &[&spent]);

    assert_ne!(
        this_attempt.resolve(&vec![(false, earlier)], &vec![(false, spent)]),
        PayoutOutcome::Confirmed,
        "same value, same recipient, different attempt -- must not read as this one confirming"
    );
}

#[test]
fn an_attempt_that_recorded_no_inputs_is_ambiguous_rather_than_lost() {
    let (worker, operator) = (pubkey(), pubkey());
    let paid = output(100, &worker);
    let attempt = attempt(&worker, &operator, &paid, &[]);

    assert_eq!(attempt.resolve(&vec![], &vec![]), PayoutOutcome::Ambiguous);
}

#[test]
fn a_task_reaches_submitted_only_when_every_leg_has_been_sent() {
    let mut board = TaskBoard::new();
    let (task_id, assignees) =
        create_and_fill_consensus_task(&mut board, 2, clock::now().plus_minutes(30));
    for assignee in &assignees {
        board.submit_consensus_answer(task_id, *assignee, "same".to_string()).unwrap();
    }
    assert_eq!(board.get_task(task_id).unwrap().status, TaskStatus::Verified);

    let source = pubkey();
    let first = output(450, &assignees[0]);
    let mut first_attempt = attempt(&assignees[0], &source, &first, &[&output(900, &source)]);
    first_attempt.task_id = task_id;
    board.record_payout_attempt(first_attempt);
    assert_eq!(
        board.get_task(task_id).unwrap().status,
        TaskStatus::Verified,
        "one winner still has nothing on the wire -- the sweep must keep trying"
    );
    assert_eq!(board.unsubmitted_payouts(task_id).len(), 1);

    let second = output(450, &assignees[1]);
    let mut second_attempt = attempt(&assignees[1], &source, &second, &[&output(900, &source)]);
    second_attempt.task_id = task_id;
    board.record_payout_attempt(second_attempt);
    assert_eq!(board.get_task(task_id).unwrap().status, TaskStatus::Submitted);
    assert!(
        board.unsubmitted_payouts(task_id).is_empty(),
        "nothing may be re-sent while it is already in flight"
    );
}

#[test]
fn an_abandoned_payout_still_reports_the_money_as_owed() {
    let mut board = TaskBoard::new();
    let (poster, worker) = (pubkey(), pubkey());
    let task = board.create_task(poster, "t".to_string(), 100, hash(b"answer"));
    board.claim_task(task.id, worker, clock::now().plus_minutes(10)).unwrap();
    board.submit(task.id, worker, hash(b"answer")).unwrap();

    board.mark_payout_failed(task.id).unwrap();
    let task = board.get_task(task.id).unwrap();
    assert_eq!(task.status, TaskStatus::PayoutFailed);
    assert_eq!(task.unconfirmed_payout_total(), 100, "the worker is still owed the bounty");
    assert_eq!(task.confirmed_payout_total(), 0);
    assert!(
        task.pending_payouts().is_empty(),
        "but nothing may be sent for it again without an operator"
    );
    assert_eq!(board.reputation(&worker).completed, 0, "an unpaid worker is not a completed one");
    assert_eq!(
        board.allocated_bounty(),
        100,
        "the operator's balance stays committed -- the debt is real"
    );
}

#[test]
fn confirmed_and_unconfirmed_totals_track_each_winner_separately() {
    let mut board = TaskBoard::new();
    let (task_id, assignees) =
        create_and_fill_consensus_task(&mut board, 2, clock::now().plus_minutes(30));
    for assignee in &assignees {
        board.submit_consensus_answer(task_id, *assignee, "same".to_string()).unwrap();
    }
    let before = board.get_task(task_id).unwrap();
    assert_eq!(before.confirmed_payout_total(), 0);
    assert_eq!(before.unconfirmed_payout_total(), 900);

    board.mark_recipient_paid(task_id, &assignees[0], 450).unwrap();
    let midway = board.get_task(task_id).unwrap();
    assert_eq!(midway.confirmed_payout_total(), 450);
    assert_eq!(midway.unconfirmed_payout_total(), 450);

    board.mark_recipient_paid(task_id, &assignees[1], 450).unwrap();
    let done = board.get_task(task_id).unwrap();
    assert_eq!(done.confirmed_payout_total(), 900);
    assert_eq!(done.unconfirmed_payout_total(), 0);
}

#[test]
fn a_plurality_of_two_of_five_is_not_consensus() {
    let mut board = TaskBoard::new();
    let (id, keys) = create_and_fill_consensus_task(&mut board, 5, clock::now().plus_minutes(30));
    for (key, answer) in keys.iter().zip(["collusion", "collusion", "a", "b", "c"]) {
        board.submit_consensus_answer(id, *key, answer.to_string()).unwrap();
    }
    let task = board.get_task(id).unwrap();
    assert_eq!(task.status, TaskStatus::Closed);
    assert!(task.pending_payouts().is_empty());
}

#[test]
fn one_of_five_cannot_win_after_timeout() {
    let mut board = TaskBoard::new();
    let (id, keys) = create_and_fill_consensus_task(&mut board, 5, clock::now().plus_minutes(30));
    board.submit_consensus_answer(id, keys[0], "alone".to_string()).unwrap();
    board.resolve_expired_consensus_tasks(clock::now().plus_minutes(120));
    let task = board.get_task(id).unwrap();
    assert_eq!(task.status, TaskStatus::Closed);
    assert!(task.pending_payouts().is_empty());
    assert_eq!(task.unconfirmed_payout_total(), 0);
}

#[test]
fn cancellation_is_refused_in_every_state_that_owes_money() {
    for (label, drive) in [
        ("Verified", 0usize),
        ("Submitted", 1),
        ("PayoutFailed", 2),
        ("Paid", 3),
    ] {
        let mut board = TaskBoard::new();
        let (poster, worker) = (pubkey(), pubkey());
        let task = board.create_task(poster, "owed".into(), 100, hash(b"ok"));
        board.claim_task(task.id, worker, clock::now().plus_minutes(10)).unwrap();
        board.submit(task.id, worker, hash(b"ok")).unwrap();
        let submit_payout = |board: &mut TaskBoard| {
            board.record_payout_attempt(PayoutAttempt {
                task_id: task.id,
                recipient: worker,
                amount: 100,
                output_hash: hash(b"payout"),
                spent_inputs: vec![hash(b"input")],
                source: pubkey(),
                submitted_at: clock::now(),
                submissions: 1,
                transaction: None,
            });
        };
        match drive {
            0 => {}
            1 => submit_payout(&mut board),
            2 => { board.mark_payout_failed(task.id).unwrap(); }
            _ => {
                submit_payout(&mut board);
                board.mark_recipient_paid(task.id, &worker, 100).unwrap();
            }
        }
        let before = board.get_task(task.id).unwrap().status;
        assert!(
            board.cancel_task(task.id).is_err(),
            "cancelling a {label} task would release a bounty that is owed or already moving"
        );
        assert_eq!(board.get_task(task.id).unwrap().status, before, "{label} must be untouched");
    }
}

#[test]
fn cancellation_preserves_failed_payout_obligation() {
    let mut board = TaskBoard::new();
    let (poster, worker) = (pubkey(), pubkey());
    let task = board.create_task(poster, "owed".into(), 100, hash(b"ok"));
    board.claim_task(task.id, worker, clock::now().plus_minutes(10)).unwrap();
    board.submit(task.id, worker, hash(b"ok")).unwrap();
    board.mark_payout_failed(task.id).unwrap();
    assert_eq!(board.allocated_bounty(), 100);
    assert!(board.cancel_task(task.id).is_err());
    assert_eq!(board.get_task(task.id).unwrap().status, TaskStatus::PayoutFailed);
    assert_eq!(board.allocated_bounty(), 100);
}
