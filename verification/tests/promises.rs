use itx_hub::api::dtos::TaskDto;
use itx_hub::api::faucet::redeem_for_grant;
use itx_hub::api::ranking::agent_matches;
use itx_hub::api::requests::{hash_output, validate_capabilities};
use itx_hub::api::working::{consensus_result, take_consensus_answer_at};
use itx_hub::board::payouts::TransactionOutput;
use itx_hub::board::types::{BoardError, ExchangeAccount, Order, Reputation, Side, Task, TaskStatus, Trade};
use itx_hub::board::TaskBoard;
use itx_hub::clock;
use itx_hub::faucet_pow::{target_for_expected_hashes, ChallengeBook};
use itx_hub::series::{board_series, SeriesQuery};
use itx_hub::settlement::{payout_attempts, record_attempts, BuiltTransaction};
use itx_hub::tags::Tags;
use itx_hub::text::{chars_of, is_white_space};
use itx_hub::types::{push_be_bytes, Id, PublicKey};

fn unused_id() -> Id {
    uuid::Uuid::new_v4().as_u128()
}

fn pubkey() -> PublicKey {
    PublicKey { tag: 2, hi: unused_id(), lo: unused_id() }
}

fn tag_set(tags: &[&str]) -> Tags {
    let mut set = Tags::new();
    for tag in tags {
        set.insert(tag.to_string());
    }
    set
}

fn listed(tags: &Tags) -> Vec<String> {
    (0..tags.len()).map(|i| tags.tag_at(i).to_string()).collect()
}

fn allocates_nothing(task: &Task) -> bool {
    let shown = TaskDto::from(task);
    task.allocated_payouts().is_empty()
        && task.owed_payouts().is_empty()
        && task.unconfirmed_payout_total() == 0
        && (shown.bounty_confirmed, shown.bounty_pending) == (0, 0)
}

#[test]
fn a_task_without_a_winner_has_allocated_nothing() {
    let mut board = TaskBoard::new();
    let worker = pubkey();
    let deadline = clock::now().plus_minutes(30);
    let task = board.create_task(pubkey(), "t".to_string(), 100, hash_output("x"));
    assert!(allocates_nothing(&task));
    board.claim_task(task.id, worker, deadline).unwrap();
    assert!(allocates_nothing(board.get_task(task.id).unwrap()), "only claimed");
    board.submit(task.id, worker, hash_output("x")).unwrap();
    let won = board.get_task(task.id).unwrap();
    assert_eq!(won.allocated_payouts(), vec![(worker, 100)]);
    assert_eq!((won.unconfirmed_payout_total(), won.confirmed_payout_total()), (100, 0));
    board.mark_recipient_paid(task.id, &worker, 100).unwrap();
    let paid = board.get_task(task.id).unwrap();
    assert_eq!((paid.unconfirmed_payout_total(), paid.confirmed_payout_total()), (0, 100));
}

#[test]
fn a_cancelled_task_shows_nothing_as_pending() {
    let mut board = TaskBoard::new();
    let task = board.create_task(pubkey(), "t".to_string(), 100, hash_output("x"));
    board.claim_task(task.id, pubkey(), clock::now().plus_minutes(30)).unwrap();
    board.cancel_task(task.id).unwrap();
    let closed = board.get_task(task.id).unwrap();
    assert!(closed.claimant.is_some() && allocates_nothing(closed));
}

#[test]
fn an_answer_that_can_be_disputed_is_not_won_yet() {
    let mut board = TaskBoard::new();
    let worker = pubkey();
    let now = clock::now();
    let task = board.create_disputable_task(pubkey(), "t".to_string(), 100, 30);
    board.claim_task(task.id, worker, now.plus_minutes(30)).unwrap();
    assert!(allocates_nothing(board.get_task(task.id).unwrap()));
    board.submit_disputable_answer(task.id, worker, "done".to_string(), now).unwrap();
    assert!(allocates_nothing(board.get_task(task.id).unwrap()), "the window is open");
    board.finalize_unchallenged_disputable_tasks(now.plus_minutes(31));
    assert_eq!(board.get_task(task.id).unwrap().owed_payouts(), vec![(worker, 100)]);
}

#[test]
fn a_payout_that_was_given_up_is_shown_as_pending() {
    let mut board = TaskBoard::new();
    let worker = pubkey();
    let task = board.create_task(pubkey(), "t".to_string(), 100, hash_output("x"));
    board.claim_task(task.id, worker, clock::now().plus_minutes(30)).unwrap();
    board.submit(task.id, worker, hash_output("x")).unwrap();
    board.mark_payout_failed(task.id).unwrap();
    assert_eq!(board.get_task(task.id).unwrap().unconfirmed_payout_total(), 100);
}

#[test]
fn a_consensus_winner_whose_payout_was_sent_is_told_so() {
    let mut board = TaskBoard::new();
    let now = clock::now();
    let (first, last, operator) = (pubkey(), pubkey(), pubkey());
    let task = board.create_consensus_task(pubkey(), "t".to_string(), 100, 2, now.plus_minutes(60), 30);
    for agent in [first, last] {
        board.join_consensus_task(task.id, agent).unwrap();
    }
    board.submit_consensus_answer(task.id, first, "same".to_string()).unwrap();
    let (resolved, answered) =
        take_consensus_answer_at(&mut board, task.id, last, "same".to_string(), clock::now()).ok().unwrap();
    assert!(!consensus_result(resolved, &answered, &board, &last).paid, "nothing is sent yet");

    let recipients = vec![(first, 50), (last, 50)];
    let outputs = recipients
        .iter()
        .map(|(key, value)| {
            let unique_id = unused_id();
            TransactionOutput { value: *value, unique_id, pubkey: *key, hash: hash_output(&format!("{unique_id}")) }
        })
        .collect();
    let tx = BuiltTransaction { outputs, spent_inputs: vec![hash_output("spent")], bytes: vec![1] };
    let attempts = payout_attempts(&board, task.id, &recipients, &tx, &operator, clock::now()).unwrap();
    record_attempts(&mut board, &attempts);
    assert_eq!(board.get_task(task.id).unwrap().status, TaskStatus::Submitted);
    let told = consensus_result(resolved, &answered, &board, &last);
    assert_eq!((told.verified, told.paid, told.bounty, told.resolved), (true, true, Some(50), Some(true)));

    board.clear_payout_attempt(task.id, &last);
    board.mark_recipient_paid(task.id, &last, 50).unwrap();
    assert!(consensus_result(resolved, &answered, &board, &last).paid, "and once it has arrived");
    assert!(!consensus_result(resolved, &answered, &board, &pubkey()).verified);
}

#[test]
fn a_refused_claim_costs_no_work() {
    let mut board = TaskBoard::new();
    let mut book = ChallengeBook::open(target_for_expected_hashes(64));
    let (early, late) = (pubkey(), pubkey());
    let now = clock::now();
    board.record_faucet_grant(early, now.timestamp()).unwrap();
    let challenge = book.issue(&late, now, |_| Ok(())).unwrap();
    let solution = challenge.solve_from(0).unwrap();
    let mut redeem = |board: &TaskBoard, daily: u64| {
        redeem_for_grant(board, &mut book, challenge.id, &late, solution, daily, now, |_| Ok(()))
    };
    assert_eq!(redeem(&board, 1).err().unwrap().status(), 503, "the day's grants are made");
    assert_eq!(redeem(&board, 2).ok().unwrap().redeemed_at, Some(now.timestamp()));
    assert_eq!(redeem(&board, 2).err().unwrap().status(), 409, "it is spent now");

    let again = book.issue(&early, now, |_| Ok(())).unwrap();
    let found = again.solve_from(0).unwrap();
    let refused = redeem_for_grant(&board, &mut book, again.id, &early, found, 9, now, |_| Ok(()));
    assert_eq!(refused.err().unwrap().status(), 409);
    assert!(book.check(again.id, &early, found, now).is_ok(), "nothing was spent");
    let foreign = redeem_for_grant(&board, &mut book, again.id, &late, found, 9, now, |_| Ok(()));
    assert_eq!(foreign.err().unwrap().status(), 403, "somebody else's challenge");
}

#[test]
fn a_payment_is_recorded_once() {
    let mut board = TaskBoard::new();
    let now = clock::now();
    let (one, other) = (pubkey(), pubkey());
    let task = board.create_consensus_task(pubkey(), "t".to_string(), 100, 2, now.plus_minutes(60), 30);
    for agent in [one, other] {
        board.join_consensus_task(task.id, agent).unwrap();
    }
    for agent in [one, other] {
        board.submit_consensus_answer(task.id, agent, "same".to_string()).unwrap();
    }
    assert_eq!(board.mark_recipient_paid(task.id, &one, 50), Ok(false));
    let record = board.reputation(&one);
    assert_eq!(board.mark_recipient_paid(task.id, &one, 50), Ok(false));
    assert_eq!(board.reputation(&one), record);
    assert_eq!(board.mark_recipient_paid(task.id, &other, 50), Ok(true));
    let settled_at = board.get_task(task.id).unwrap().settled_at;
    assert_eq!(board.mark_recipient_paid(task.id, &other, 50), Err(BoardError::NotVerified));
    assert_eq!(board.get_task(task.id).unwrap().settled_at, settled_at);
    assert_eq!((board.reputation(&other).completed, board.reputation(&other).total_earned), (1, 50));
}

#[test]
fn a_payment_that_was_recorded_needs_no_room_in_the_record() {
    let mut board = TaskBoard::new();
    let now = clock::now();
    let (one, other) = (pubkey(), pubkey());
    let task = board.create_consensus_task(pubkey(), "t".to_string(), 100, 2, now.plus_minutes(60), 30);
    for agent in [one, other] {
        board.join_consensus_task(task.id, agent).unwrap();
    }
    for agent in [one, other] {
        board.submit_consensus_answer(task.id, agent, "same".to_string()).unwrap();
    }
    board.mark_recipient_paid(task.id, &one, 50).unwrap();
    let full = Reputation { completed: u64::MAX, failed: 0, total_earned: u64::MAX };
    board.restore_reputation(one, full);
    assert_eq!(board.mark_recipient_paid(task.id, &one, 50), Ok(false));
    assert_eq!(board.reputation(&one), full);
}

#[test]
fn two_markets_show_the_same_grants() {
    let mut board = TaskBoard::new();
    let now = clock::now();
    board.create_task(pubkey(), "t".to_string(), 10, hash_output("x"));
    for age in [10, 700, 2_000] {
        board.restore_faucet_grant(pubkey(), now.timestamp() - age);
    }
    let asked = |tag: Option<&str>| SeriesQuery {
        capability: tag.map(str::to_string),
        window_ms: Some(3_600_000),
        buckets: Some(6),
    };
    let whole = board_series(&board, now, &asked(None)).unwrap();
    let tagged = board_series(&board, now, &asked(Some("python"))).unwrap();
    assert_eq!((whole.faucet_grants, tagged.posted), (3, 0));
    assert_eq!(
        (&whole.faucet_series, whole.faucet_grants, whole.faucet_itx),
        (&tagged.faucet_series, tagged.faucet_grants, tagged.faucet_itx)
    );
}

/// An order and its trades, without what was drawn for them.
fn nameless(order: Order, trades: Vec<Trade>) -> (Order, Vec<Trade>) {
    let trades = trades
        .into_iter()
        .map(|t| match t.taker_side {
            Side::Buy => Trade { id: 0, buy_order_id: 0, ..t },
            Side::Sell => Trade { id: 0, sell_order_id: 0, ..t },
        })
        .collect();
    (Order { id: 0, ..order }, trades)
}

#[test]
fn a_stage_fills_an_order_as_the_board_does() {
    let mut board = TaskBoard::new();
    let now = clock::now();
    let (taker, sink) = (pubkey(), pubkey());
    let makers: Vec<PublicKey> = (0..3).map(|_| pubkey()).collect();
    for key in makers.iter().chain([&taker]) {
        let account = ExchangeAccount { base_balance: 90_000, compute_balance: 9_000, ..Default::default() };
        board.restore_exchange_account(*key, account);
    }
    for (i, maker) in makers.iter().enumerate() {
        board.place_order(*maker, Side::Sell, 5 + i as u64, 2_000, now.plus_seconds(i as i64)).unwrap();
        board.place_order(*maker, Side::Buy, 2, 10, now).unwrap();
    }
    let mut stage = board.stage_order(&taker, Side::Buy, 6, &sink);
    let later = now.plus_seconds(60);
    let (order, trades) = stage.place_order(taker, Side::Buy, 6, 3_000, later).unwrap();
    let (placed, made) = board.place_order(taker, Side::Buy, 6, 3_000, later).unwrap();
    assert_ne!(order.id, placed.id);
    assert_eq!(trades.len(), 2);
    assert_eq!(nameless(order, trades), nameless(placed, made));
    for key in makers.iter().take(2).chain([&taker, &sink]) {
        assert_eq!(stage.exchange_account(key), board.exchange_account(key));
    }
    let mut poor = board.stage_order(&sink, Side::Buy, 6, &sink);
    let refused = poor.place_order(sink, Side::Buy, 6, 1, later);
    assert_eq!(refused.err(), board.place_order(sink, Side::Buy, 6, 1, later).err());
}

#[test]
fn validated_tags_are_validated_to_themselves() {
    let raw = tag_set(&["  Python ", "\u{3000}RUST\u{a0}", "python", "   ", "\u{c9}t\u{e9}"]);
    let once = validate_capabilities(&raw).ok().unwrap();
    assert_eq!(listed(&once), vec!["python", "rust", "\u{e9}t\u{e9}"]);
    let twice = validate_capabilities(&once).ok().unwrap();
    assert_eq!(listed(&twice), listed(&once));
}

#[test]
fn tags_are_in_the_order_of_their_characters() {
    let mut words = vec!["b", "", "ab", "a", "\u{10000}", "\u{ffff}", "z", "\u{e9}", "Z", "abc"];
    let tags = tag_set(&words);
    words.sort();
    assert_eq!(listed(&tags), words);
}

#[test]
fn an_agent_is_found_by_any_part_of_its_name() {
    let name = Some("Sw\u{ef}ftWarlock");
    assert!(agent_matches("", "ab", None));
    assert!(agent_matches("sw\u{ef}ft", "02ab", name) && agent_matches("lock", "02ab", name));
    assert!(agent_matches("02", "02ab", None) && agent_matches("2a", "02ab", None));
    assert!(!agent_matches("02abc", "02ab", None) && !agent_matches("b0", "02ab", None));
}

#[test]
fn characters_and_bytes_come_in_order() {
    assert_eq!(chars_of("a\u{e9}\u{10000}"), vec!['a', '\u{e9}', '\u{10000}']);
    for n in 0..0x3100u32 {
        if let Some(c) = char::from_u32(n) {
            assert_eq!(is_white_space(c), c.is_whitespace(), "{n:x}");
        }
    }
    for n in [0, 1, 255, 256, u128::MAX, 0x0102_0304_0506_0708_090a_0b0c_0d0e_0f10] {
        let mut bytes = vec![9];
        push_be_bytes(&mut bytes, n);
        assert_eq!(bytes[1..], n.to_be_bytes());
    }
}
