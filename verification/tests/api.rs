use itx_hub::api::confirming::{confirm_bond, confirm_task_at, BondConfirmation};
use itx_hub::api::dtos::{EscrowReservationDto, TaskDto, TaskKindDto};
use itx_hub::api::errors::ApiError;
use itx_hub::api::faucet::{
    check_challenge_request, check_claim, faucet_budget_remaining, faucet_difficulty_for, grant_unfunded,
    operator_can_fund_a_grant, GrantUnfunded, FAUCET_BUDGET_WINDOW_SECONDS,
};
use itx_hub::api::listings::{get_order_book, list_payments, list_tasks, list_trades};
use itx_hub::api::posting::{
    bond_intent, check_consensus_task, check_same_id, check_task, consensus_intent, disputable_intent,
    ensure_consensus_exposure_allows, own_deposit, post_consensus_task_at, post_task_at, require_admin,
    require_operator, reservation_ends, task_intent,
};
use itx_hub::api::ranking::{
    find_agents, is_fresh, needle_of, rank_agents, read_leaderboard_query, show_agents, LeaderboardSort,
};
use itx_hub::api::requests::{
    hash_output, CreateConsensusTaskPayload, CreateTaskPayload, EscrowConsensusTaskPayload,
    EscrowDisputableTaskPayload, EscrowTaskPayload, LeaderboardQuery, ListTasksQuery, ListTradesQuery,
};
use itx_hub::api::withdrawals::{check_withdrawal, withdrawal_payment};
use itx_hub::api::working::{
    consensus_result, disputable_result, dispatch_for, hash_result, records_after_answer, rule_on_dispute,
    stage_cancel, take_consensus_answer_at, take_disputable_answer, take_hash_answer, take_task_at, Dispatch,
};
use itx_hub::board::deposits::{EscrowPurpose, PendingDeposit};
use itx_hub::board::types::{
    DisputeResolution, EscrowStatus, ExchangeAccount, PaymentPurpose, PaymentStatus, Reputation, Side, TaskStatus,
};
use itx_hub::board::TaskBoard;
use itx_hub::clock;
use itx_hub::escrow_key::EscrowSecret;
use itx_hub::series::{FAUCET_GRANT_AMOUNT, HUB_TRANSACTION_FEE};
use itx_hub::table::Table;
use itx_hub::tags::Tags;
use itx_hub::types::{Id, PrivateKey, PublicKey, Timestamp};

fn unused_id() -> Id {
    uuid::Uuid::new_v4().as_u128()
}

fn pubkey() -> PublicKey {
    PublicKey { tag: 2, hi: unused_id(), lo: unused_id() }
}

fn address(key: &PrivateKey) -> PublicKey {
    PublicKey { tag: 3, hi: key.hi, lo: key.lo }
}

fn reserve(
    board: &mut TaskBoard,
    depositor: PublicKey,
    amount: u64,
    purpose: EscrowPurpose,
    expires_at: Timestamp,
) -> PendingDeposit {
    board.reserve_escrow(&EscrowSecret::generate(), depositor, amount, purpose, expires_at, address).unwrap()
}

fn told<T>(r: Result<T, ApiError>) -> (u16, String) {
    match r {
        Ok(_) => panic!("it was accepted"),
        Err(e) => (e.status(), e.message()),
    }
}

fn accepted<T>(r: Result<T, ApiError>) -> T {
    match r {
        Ok(t) => t,
        Err(e) => panic!("{}", e.message()),
    }
}

const HASH_OF_X: &str = "2d711642b726b04401627ca9fbac32f5c8530fb1903cc4db02258717921a4881";

fn task_payload(bounty: u64) -> CreateTaskPayload {
    CreateTaskPayload {
        description: "d".to_string(),
        bounty,
        expected_output_hash: HASH_OF_X.to_string(),
        min_reputation: 2,
        capabilities: Tags::new(),
    }
}

#[test]
fn only_the_operator_posts_out_of_the_operators_money() {
    let (operator, other) = (pubkey(), pubkey());
    assert!(require_operator(&operator, &operator).is_ok());
    assert_eq!(told(check_task(&task_payload(1), &other, &operator)), (403, "only the hub operator may post tasks".to_string()));
    let intent = accepted(check_task(&task_payload(1), &operator, &operator));
    assert_eq!(intent.expected_output_hash, hash_output("x"));
    assert_eq!(intent.min_reputation, 2);
}

#[test]
fn an_admin_is_the_operator_or_a_listed_key() {
    let (operator, admin, other) = (pubkey(), pubkey(), pubkey());
    let mut keys = Tags::new();
    keys.insert(admin.to_string());
    assert!(require_admin(&operator, &operator, &keys).is_ok());
    assert!(require_admin(&admin, &operator, &keys).is_ok());
    assert_eq!(told(require_admin(&other, &operator, &keys)), (403, "not an admin key for this hub".to_string()));
}

#[test]
fn the_id_that_is_addressed_is_the_id_that_is_signed() {
    let id = unused_id();
    assert!(check_same_id(id, id, "task").is_ok());
    assert_eq!(
        told(check_same_id(id, id ^ 1, "escrow")),
        (400, "escrow id in the URL doesn't match the signed payload".to_string())
    );
}

#[test]
fn the_operators_promises_stay_within_the_balance() {
    let operator = pubkey();
    let now = clock::now();
    let mut board = TaskBoard::new();
    let intent = accepted(check_task(&task_payload(600), &operator, &operator));
    let task = accepted(post_task_at(&mut board, intent, operator, 1_000, unused_id(), now));
    assert_eq!(task.bounty, 600);
    assert_eq!(task.min_reputation, 2);
    let intent = accepted(check_task(&task_payload(401), &operator, &operator));
    assert_eq!(
        told(post_task_at(&mut board, intent, operator, 1_000, unused_id(), now)),
        (
            400,
            [
                "insufficient escrow balance: operator has 1000, 600 already allocated, this",
                "task needs 401. Fund the operator address first.",
            ]
            .join(" ")
        )
    );
    let intent = accepted(check_task(&task_payload(400), &operator, &operator));
    assert!(post_task_at(&mut board, intent, operator, 1_000, unused_id(), now).is_ok());
    assert_eq!(board.allocated_bounty(), 1_000);
}

#[test]
fn consensus_tasks_are_capped_in_number_window_and_bounty() {
    let operator = pubkey();
    let now = clock::now();
    let mut board = TaskBoard::new();
    let payload = |bounty: u64, num_assignees: u32, join: i64| CreateConsensusTaskPayload {
        description: "d".to_string(),
        bounty,
        num_assignees,
        join_window_minutes: join,
        submission_window_minutes: 30,
        min_reputation: 0,
        capabilities: Tags::new(),
    };
    let check = |board: &TaskBoard, p: CreateConsensusTaskPayload| check_consensus_task(board, &p, &operator, &operator, 1_000);
    assert_eq!(told(check(&board, payload(1, 1, 60))).0, 400);
    assert_eq!(told(check(&board, payload(1, 101, 60))), (400, "num_assignees must be at most 100".to_string()));
    assert_eq!(told(check(&board, payload(1, 3, 0))), (400, "join_window_minutes must be positive".to_string()));
    let intent = accepted(check(&board, payload(900, 3, 60)));
    accepted(post_consensus_task_at(&mut board, intent, operator, 5_000, unused_id(), now, now));
    assert!(told(check(&board, payload(101, 3, 60))).1.starts_with(
        "consensus tasks are capped at 1000 of unsettled bounty in total and this would make 1001"
    ));
    assert!(ensure_consensus_exposure_allows(&board, 100, 1_000).is_ok());
    assert!(ensure_consensus_exposure_allows(&board, 101, 1_000).is_err());
}

#[test]
fn an_escrow_reserves_the_bounty_and_the_fee() {
    let board = TaskBoard::new();
    let (_, required) = accepted(task_intent(&EscrowTaskPayload {
        description: "d".to_string(),
        bounty: 500,
        expected_output_hash: HASH_OF_X.to_string(),
        min_reputation: 0,
        capabilities: Tags::new(),
    }));
    assert_eq!(required, 500 + HUB_TRANSACTION_FEE);
    let (intent, required) = accepted(consensus_intent(
        &board,
        &EscrowConsensusTaskPayload {
            description: "d".to_string(),
            bounty: 900,
            num_assignees: 3,
            join_window_minutes: 60,
            submission_window_minutes: 30,
            min_reputation: 0,
            capabilities: Tags::new(),
        },
        10_000,
    ));
    assert_eq!((intent.num_assignees, required), (3, 900 + HUB_TRANSACTION_FEE));
    let disputable = |minutes: i64| {
        disputable_intent(&EscrowDisputableTaskPayload {
            description: "d".to_string(),
            bounty: 7,
            dispute_window_minutes: minutes,
            min_reputation: 0,
            capabilities: Tags::new(),
        })
    };
    assert_eq!(accepted(disputable(30)).1, 7 + HUB_TRANSACTION_FEE);
    assert_eq!(told(disputable(-1)), (400, "dispute_window_minutes must be positive".to_string()));
    let now = clock::now();
    assert_eq!(reservation_ends(now), now.plus_minutes(60));
}

#[test]
fn a_confirmed_deposit_makes_one_task() {
    let mut board = TaskBoard::new();
    let (depositor, stranger) = (pubkey(), pubkey());
    let now = clock::now();
    let (intent, required) = accepted(task_intent(&EscrowTaskPayload {
        description: "d".to_string(),
        bounty: 500,
        expected_output_hash: HASH_OF_X.to_string(),
        min_reputation: 0,
        capabilities: Tags::new(),
    }));
    let deposit = reserve(
        &mut board,
        depositor,
        required,
        EscrowPurpose::FundHashMatchTask(intent),
        reservation_ends(now),
    );
    let shown = EscrowReservationDto::from(&deposit);
    assert_eq!(shown.deposit_address, deposit.deposit_pubkey.to_string());
    assert_eq!(accepted(own_deposit(&board, deposit.id, &depositor)), deposit.deposit_pubkey);
    assert_eq!(
        told(own_deposit(&board, deposit.id, &stranger)),
        (403, "you are not the depositor of this escrow".to_string())
    );
    assert_eq!(told(own_deposit(&board, unused_id(), &depositor)).0, 404);

    let task_id = unused_id();
    let (task, consumed) = accepted(confirm_task_at(&mut board, deposit.id, required, now, task_id, now));
    assert_eq!((task.id, task.poster, task.escrow_id), (task_id, depositor, Some(deposit.id)));
    assert_eq!(consumed.status, EscrowStatus::Consumed);
    assert_eq!(told(confirm_task_at(&mut board, deposit.id, required, now, unused_id(), now)).0, 409);
    assert_eq!(board.allocated_bounty(), 0, "the operator owes nothing for it");
}

fn disputable_answer(board: &mut TaskBoard, worker: PublicKey, window: i64) -> Id {
    let now = clock::now();
    let task = board.create_disputable_task(pubkey(), "d".to_string(), 900, window);
    accepted(take_task_at(board, task.id, worker, now));
    let task = accepted(take_disputable_answer(board, task.id, worker, "answer".to_string(), now));
    assert_eq!(disputable_result(&task).resolved, Some(false));
    task.id
}

#[test]
fn a_challenge_is_opened_by_its_bond() {
    let mut board = TaskBoard::new();
    let now = clock::now();
    let (worker, challenger) = (pubkey(), pubkey());
    let task_id = disputable_answer(&mut board, worker, 30);

    assert_eq!(told(bond_intent(&board, unused_id(), &challenger, "r")).0, 404);
    assert_eq!(told(bond_intent(&board, task_id, &worker, "r")).0, 403);
    assert_eq!(told(bond_intent(&board, task_id, &challenger, &"r".repeat(20_001))).0, 400);
    let (purpose, required) = accepted(bond_intent(&board, task_id, &challenger, "wrong"));
    assert_eq!(required, 900 + HUB_TRANSACTION_FEE);
    let deposit = reserve(&mut board, challenger, required, purpose, reservation_ends(now));

    assert!(matches!(confirm_bond(&mut board, deposit.id, required - 1, now), BondConfirmation::Refused(_)));
    match confirm_bond(&mut board, deposit.id, required, now) {
        BondConfirmation::Opened(task, bond) => {
            assert_eq!(task.status, TaskStatus::Disputed);
            assert_eq!(bond.status, EscrowStatus::Consumed);
        }
        _ => panic!("the challenge was not opened"),
    }
    let (task, loser, record) = accepted(rule_on_dispute(&mut board, task_id, DisputeResolution::ChallengerWins));
    assert_eq!(task.pending_payouts(), vec![(challenger, 900)]);
    assert_eq!((loser, record.failed), (worker, 1));
    assert_eq!(told(rule_on_dispute(&mut board, task_id, DisputeResolution::AssigneeWins)).0, 409);
}

#[test]
fn a_bond_that_comes_too_late_goes_back() {
    let mut board = TaskBoard::new();
    let now = clock::now();
    let (worker, challenger) = (pubkey(), pubkey());
    let task_id = disputable_answer(&mut board, worker, 30);
    let (purpose, required) = accepted(bond_intent(&board, task_id, &challenger, "wrong"));
    let deposit = reserve(&mut board, challenger, required, purpose, now.plus_minutes(120));
    match confirm_bond(&mut board, deposit.id, required, now.plus_minutes(31)) {
        BondConfirmation::TooLate(bond) => assert_eq!(bond.id, deposit.id),
        _ => panic!("the window was closed"),
    }
}

#[test]
fn an_answer_goes_the_way_of_its_tasks_kind() {
    let mut board = TaskBoard::new();
    let now = clock::now();
    let (worker, other) = (pubkey(), pubkey());
    let hashed = board.create_task(pubkey(), "h".to_string(), 100, hash_output("right"));
    let agreed = board.create_consensus_task(pubkey(), "c".to_string(), 100, 2, now.plus_minutes(60), 30);
    let judged = board.create_disputable_task(pubkey(), "d".to_string(), 100, 30);
    assert!(matches!(dispatch_for(&board, hashed.id), Ok(Dispatch::HashMatch)));
    assert!(matches!(dispatch_for(&board, agreed.id), Ok(Dispatch::Consensus)));
    assert!(matches!(dispatch_for(&board, judged.id), Ok(Dispatch::Disputable)));
    assert_eq!(told(dispatch_for(&board, unused_id())).0, 404);

    let task = accepted(take_task_at(&mut board, hashed.id, worker, now));
    assert_eq!(task.claim_deadline, Some(now.plus_minutes(30)));
    let (matched, task) = accepted(take_hash_answer(&mut board, hashed.id, worker, "wrong"));
    assert!(!matched && task.status == TaskStatus::Open && task.failed_attempts == 1);
    assert_eq!(records_after_answer(&board, &task, &worker, false), vec![(worker, Reputation { completed: 0, failed: 1, total_earned: 0 })]);
    assert!(!hash_result(matched, false, &task).verified);
    accepted(take_task_at(&mut board, hashed.id, worker, now));
    let (matched, task) = accepted(take_hash_answer(&mut board, hashed.id, worker, "right"));
    assert!(matched && task.status == TaskStatus::Verified);
    assert_eq!(hash_result(matched, true, &task).bounty, Some(100));

    accepted(take_task_at(&mut board, agreed.id, worker, now));
    accepted(take_task_at(&mut board, agreed.id, other, now));
    let (resolved, task) = accepted(take_consensus_answer_at(&mut board, agreed.id, worker, "a".to_string(), now));
    assert!(!resolved);
    assert_eq!(consensus_result(resolved, &task, &board, &worker).resolved, Some(false));
    let (resolved, task) = accepted(take_consensus_answer_at(&mut board, agreed.id, other, "a".to_string(), now));
    assert!(resolved);
    let result = consensus_result(resolved, &task, &board, &other);
    assert_eq!((result.verified, result.paid, result.bounty), (true, false, Some(50)));
}

#[test]
fn a_cancellation_is_shown_before_it_is_made() {
    let mut board = TaskBoard::new();
    let task = board.create_task(pubkey(), "t".to_string(), 100, hash_output("x"));
    assert_eq!(accepted(stage_cancel(&board, task.id)).status, TaskStatus::Closed);
    assert_eq!(board.get_task(task.id).unwrap().status, TaskStatus::Open);
    board.cancel_task(task.id).unwrap();
    assert_eq!(told(stage_cancel(&board, task.id)).0, 409);
}

#[test]
fn tasks_are_listed_oldest_first_a_page_at_a_time() {
    let mut board = TaskBoard::new();
    let start = clock::now();
    let mut ids = Vec::new();
    for i in 0..5 {
        let intent = accepted(check_task(&task_payload(1), &PublicKey { tag: 2, hi: 0, lo: 0 }, &PublicKey { tag: 2, hi: 0, lo: 0 }));
        let task = accepted(post_task_at(&mut board, intent, pubkey(), 100, unused_id(), start.plus_seconds(i)));
        ids.push(task.id);
    }
    let query = |offset: usize, limit: Option<usize>, status: Option<&str>| ListTasksQuery {
        offset,
        limit,
        capability: None,
        status: status.map(str::to_string),
    };
    let shown = |q: ListTasksQuery| accepted(list_tasks(&board, &q));
    let (count, all) = shown(query(0, None, None));
    assert_eq!(count, 5);
    let all: Vec<Id> = all.iter().map(|t| t.id).collect();
    assert_eq!(all, ids);
    let mut pages: Vec<Id> = Vec::new();
    for offset in [0, 2, 4] {
        pages.extend(shown(query(offset, Some(2), None)).1.iter().map(|t| t.id));
    }
    assert_eq!(pages, all, "pages that follow on each other show every task once");
    assert_eq!(shown(query(0, None, Some("paid"))).0, 0);
    assert!(list_tasks(&board, &query(0, None, Some("nonsense"))).is_err());
    assert!(list_tasks(&board, &query(usize::MAX, None, None)).is_ok());
}

#[test]
fn a_task_is_shown_without_its_expected_hash() {
    let mut board = TaskBoard::new();
    let poster = pubkey();
    let task = board.create_task(poster, "t".to_string(), 100, hash_output("x"));
    let shown = TaskDto::from(&task);
    assert_eq!(shown.poster, poster.to_string());
    assert!(matches!(shown.kind, TaskKindDto::HashMatch));
    assert_eq!((shown.bounty_confirmed, shown.bounty_pending), (0, 0));
}

#[test]
fn the_book_and_the_trades_are_listed() {
    let mut board = TaskBoard::new();
    let (seller, buyer) = (pubkey(), pubkey());
    let now = clock::now();
    board.restore_exchange_account(seller, ExchangeAccount { compute_balance: 100, ..Default::default() });
    board.restore_exchange_account(buyer, ExchangeAccount { base_balance: 1_000, ..Default::default() });
    board.place_order(seller, Side::Sell, 8, 50, now).unwrap();
    board.place_order(buyer, Side::Buy, 10, 20, now.plus_seconds(1)).unwrap();
    let book = get_order_book(&board);
    assert!(book.bids.is_empty());
    assert_eq!((book.asks[0].filled, book.asks[0].quantity), (20, 50));
    let trades = list_trades(&board, &ListTradesQuery { offset: 0, limit: None });
    assert_eq!((trades.len(), trades[0].price, trades[0].quantity), (1, 8, 20));
    assert_eq!(trades[0].buyer, buyer.to_string());
    assert!(list_trades(&board, &ListTradesQuery { offset: 1, limit: None }).is_empty());
}

#[test]
fn a_withdrawal_pays_the_debit_less_the_fee() {
    let mut board = TaskBoard::new();
    let (custody, owner) = (pubkey(), pubkey());
    let now = clock::now();
    board.restore_exchange_account(owner, ExchangeAccount { base_balance: 5_000, ..Default::default() });
    assert_eq!(
        told(check_withdrawal(&board, &owner, 1_000)),
        (400, "withdrawal must be at least 1001; amount includes the 1000 fee".to_string())
    );
    assert_eq!(told(check_withdrawal(&board, &owner, 5_001)).0, 409);
    assert_eq!(accepted(check_withdrawal(&board, &owner, 5_000)), 4_000);
    let payment = withdrawal_payment(&custody, &owner, 5_000, unused_id(), now);
    assert_eq!((payment.source, payment.recipient, payment.amount), (custody, owner, 4_000));
    assert!(matches!(payment.purpose, PaymentPurpose::Withdrawal { debited: 5_000 }));
    assert!(payment.status != PaymentStatus::Confirmed);
    board.restore_payment(payment);
    let listed = list_payments(&board, &owner, 0, None);
    assert_eq!((listed.len(), listed[0].amount), (1, 4_000));
    assert!(list_payments(&board, &custody, 0, None).is_empty());
}

#[test]
fn the_faucet_keeps_to_its_day() {
    let mut board = TaskBoard::new();
    let now = clock::now();
    let (a, b, c) = (pubkey(), pubkey(), pubkey());
    board.record_faucet_grant(a, now.plus_seconds(-FAUCET_BUDGET_WINDOW_SECONDS - 1).timestamp()).unwrap();
    assert_eq!(faucet_budget_remaining(&board, 2, now), 2, "the first is out of the window");
    assert_eq!(
        told(check_challenge_request(&board, &a, 2, now)),
        (409, "this pubkey has already claimed a faucet grant".to_string())
    );
    board.record_faucet_grant(b, now.timestamp()).unwrap();
    assert_eq!(faucet_budget_remaining(&board, 2, now), 1);
    assert!(check_claim(&board, &c, 2, now).is_ok());
    board.record_faucet_grant(c, now.timestamp()).unwrap();
    assert_eq!(
        told(check_claim(&board, &pubkey(), 2, now)),
        (
            503,
            "the faucet has made its 2 grants for the last 24 hours; it refills as older grants age out of the window"
                .to_string()
        )
    );
    assert_eq!(told(check_claim(&board, &b, 2, now)).0, 409);
    board.revoke_faucet_grant(&c);
    assert!(check_claim(&board, &c, 2, now).is_ok());
}

#[test]
fn a_busy_network_pays_more_work() {
    let mut board = TaskBoard::new();
    let now = clock::now();
    for _ in 0..3 {
        let key = pubkey();
        board.record_faucet_grant(key, now.timestamp()).unwrap();
        board.record_faucet_grant_prefix(key, "10.0.0.0/24".to_string());
    }
    let price = |granted: u64| 100 << granted;
    assert_eq!(faucet_difficulty_for(&board, Some("10.0.0.0/24"), 100, now, price), 800);
    assert_eq!(faucet_difficulty_for(&board, Some("10.0.1.0/24"), 100, now, price), 100);
    assert_eq!(faucet_difficulty_for(&board, None, 100, now, price), 100);
}

#[test]
fn an_unfunded_faucet_says_so() {
    assert!(operator_can_fund_a_grant(Some(FAUCET_GRANT_AMOUNT + HUB_TRANSACTION_FEE)));
    assert!(!operator_can_fund_a_grant(Some(FAUCET_GRANT_AMOUNT + HUB_TRANSACTION_FEE - 1)));
    assert_eq!(grant_unfunded(GrantUnfunded::BeforeRedemption).status(), 503);
    assert_eq!(
        grant_unfunded(GrantUnfunded::AfterRedemption("short".to_string(), None)).message(),
        "the faucet could not fund a grant (short); your challenge was spent, so a fresh one is attached at no \
         further cost"
    );
}

#[test]
fn the_leaderboard_is_searched_before_it_is_paged() {
    let mut board = TaskBoard::new();
    let (first, second, third) = (pubkey(), pubkey(), pubkey());
    for (key, earned) in [(first, 300), (second, 200), (third, 100)] {
        board.restore_reputation(key, Reputation { completed: 1, failed: 0, total_earned: earned });
    }
    let mut names: Table<PublicKey, String> = Table::new();
    names.insert(first, "SwiftWarlock".to_string());
    names.insert(third, "CalmWarlock".to_string());
    let page = read_leaderboard_query(&LeaderboardQuery {
        offset: None,
        limit: Some(500),
        q: Some("  WARLOCK ".to_string()),
        sort: Some("earned".to_string()),
        dir: Some("asc".to_string()),
    });
    assert_eq!((page.sort, page.ascending, page.limit), (LeaderboardSort::Earned, true, 50));
    assert_eq!(page.needle, Some("warlock".to_string()));
    assert_eq!(needle_of(&Some("   ".to_string())), None);
    let ranked = rank_agents(&board, page.sort, &None, false);
    let (found, entries) = find_agents(&ranked, &page.needle, &names, 0, 10);
    assert_eq!(found, 2);
    let mut worths: Table<PublicKey, u64> = Table::new();
    worths.insert(third, 7);
    let shown = show_agents(&entries, &worths, &names);
    assert_eq!((shown[0].rank, shown[1].rank), (1, 3), "a place is kept through a search");
    assert_eq!(shown[1].reputation.net_worth, Some(7));
    assert_eq!(shown[0].reputation.name, Some("SwiftWarlock".to_string()));
    assert!(is_fresh(29) && !is_fresh(30));
}
