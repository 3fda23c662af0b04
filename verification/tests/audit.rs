use itx_hub::api::faucet::grant_payment;
use itx_hub::board::types::{
    ExchangeAccount, PaymentPurpose, PaymentStatus, Reputation, Side, TaskStatus,
};
use itx_hub::board::TaskBoard;
use itx_hub::clock;
use itx_hub::series::{board_series, SeriesQuery, FAUCET_GRANT_AMOUNT};
use itx_hub::types::{Id, PublicKey, Timestamp, MAX_SECOND, MIN_SECOND, NANOS_PER_SECOND};

fn unused_id() -> Id {
    uuid::Uuid::new_v4().as_u128()
}

fn pubkey() -> PublicKey {
    PublicKey { tag: 3, hi: unused_id(), lo: unused_id() }
}

#[test]
fn a_traded_book_is_sound() {
    let mut board = TaskBoard::new();
    assert!(board.is_exchange_sound());
    let (seller, buyer) = (pubkey(), pubkey());
    board.restore_exchange_account(seller, ExchangeAccount { compute_balance: 500, ..Default::default() });
    board.restore_exchange_account(buyer, ExchangeAccount { base_balance: 5_000, ..Default::default() });
    let now = clock::now();
    board.place_order(seller, Side::Sell, 7, 400, now).unwrap();
    board.place_order(buyer, Side::Buy, 8, 300, now).unwrap();
    board.place_order(buyer, Side::Buy, 5, 100, now).unwrap();
    assert!(board.is_exchange_sound());
}

#[test]
fn a_lock_that_the_balance_does_not_cover_is_not_sound() {
    let mut board = TaskBoard::new();
    let account = ExchangeAccount { base_balance: 9, locked_base: 10, ..Default::default() };
    board.restore_exchange_account(pubkey(), account);
    assert!(!board.is_exchange_sound());
}

#[test]
fn an_order_that_no_lock_covers_is_not_sound() {
    let mut board = TaskBoard::new();
    let owner = pubkey();
    let account = ExchangeAccount { compute_balance: 500, ..Default::default() };
    board.restore_exchange_account(owner, account);
    board.place_order(owner, Side::Sell, 7, 400, clock::now()).unwrap();
    assert!(board.is_exchange_sound());
    board.restore_exchange_account(owner, account);
    assert!(!board.is_exchange_sound());
}

#[test]
fn an_order_that_is_overfilled_is_not_sound() {
    let mut board = TaskBoard::new();
    let owner = pubkey();
    board.restore_exchange_account(owner, ExchangeAccount { compute_balance: 500, ..Default::default() });
    let (mut order, _) = board.place_order(owner, Side::Sell, 7, 400, clock::now()).unwrap();
    assert!(order.is_sound());
    order.filled = 401;
    assert!(!order.is_sound());
    board.restore_order(order);
    assert!(!board.is_exchange_sound());
}

#[test]
fn balances_that_do_not_add_up_are_not_sound() {
    let mut board = TaskBoard::new();
    board.restore_exchange_account(pubkey(), ExchangeAccount { base_balance: u64::MAX, ..Default::default() });
    assert!(board.is_exchange_sound());
    board.restore_exchange_account(pubkey(), ExchangeAccount { base_balance: 1, ..Default::default() });
    assert!(!board.is_exchange_sound());
}

#[test]
fn bounties_of_the_operator_have_to_fit() {
    let mut board = TaskBoard::new();
    let now = clock::now();
    board.create_consensus_task(pubkey(), "a".to_string(), u64::MAX, 3, now.plus_minutes(60), 30);
    assert!(board.do_operator_bounties_fit());
    board.create_consensus_task(pubkey(), "b".to_string(), 1, 3, now.plus_minutes(60), 30);
    assert!(!board.do_operator_bounties_fit());
}

#[test]
fn failures_have_to_fit() {
    let mut board = TaskBoard::new();
    assert!(board.do_failures_fit(1));
    board.restore_reputation(pubkey(), Reputation { completed: 0, failed: u64::MAX - 1, total_earned: 0 });
    assert!(board.do_failures_fit(1));
    assert!(!board.do_failures_fit(2));
}

#[test]
fn a_task_whose_status_its_kind_does_not_bear_out_is_not_well_formed() {
    let mut board = TaskBoard::new();
    let now = clock::now();
    let mut task = board.create_consensus_task(pubkey(), "t".to_string(), 9, 3, now.plus_minutes(60), 30);
    assert!(task.is_well_formed());
    task.status = TaskStatus::Claimed;
    assert!(!task.is_well_formed(), "claimed, and no deadline for the answers");
    task.status = TaskStatus::Disputed;
    assert!(!task.is_well_formed());
    task.status = TaskStatus::Open;
    task.created_at = Timestamp { nanos: (MAX_SECOND + 1) * NANOS_PER_SECOND };
    assert!(!task.is_well_formed(), "posted past the calendar's end");
}

#[test]
fn the_calendar_has_two_ends() {
    let first = MIN_SECOND * NANOS_PER_SECOND;
    let past = (MAX_SECOND + 1) * NANOS_PER_SECOND;
    assert!(Timestamp { nanos: first }.is_valid() && Timestamp { nanos: past - 1 }.is_valid());
    assert!(!Timestamp { nanos: first - 1 }.is_valid() && !Timestamp { nanos: past }.is_valid());
}

#[test]
fn a_charts_buckets_add_up_to_its_totals() {
    let mut board = TaskBoard::new();
    let now = clock::now();
    for bounty in [10, 200, 3_000] {
        board.create_consensus_task(pubkey(), "t".to_string(), bounty, 3, now.plus_minutes(60), 30);
    }
    board.restore_faucet_grant(pubkey(), now.timestamp() - 60);
    let query = SeriesQuery { capability: None, window_ms: Some(3_600_000), buckets: Some(12) };
    let chart = board_series(&board, clock::now(), &query).unwrap();
    assert_eq!(chart.posted_series.iter().sum::<u64>(), chart.posted);
    assert_eq!(chart.bounty_series.iter().sum::<u64>(), chart.bounty);
    assert_eq!((chart.posted, chart.bounty, chart.faucet_grants), (3, 3_210, 1));
}

#[test]
fn a_grant_is_a_payment_from_the_operator() {
    let (operator, agent, now) = (pubkey(), pubkey(), clock::now());
    let payment = grant_payment(&operator, &agent, 5, now);
    assert_eq!((payment.id, payment.source, payment.recipient), (5, operator, agent));
    assert_eq!((payment.amount, payment.created_at), (FAUCET_GRANT_AMOUNT, now));
    assert_eq!((payment.purpose, payment.status), (PaymentPurpose::Faucet, PaymentStatus::Pending));
}
