use itx_hub::board::types::{BoardError, ExchangeAccount, OrderStatus, Side};
use itx_hub::board::TaskBoard;
use itx_hub::clock;
use itx_hub::types::{Id, PublicKey};

fn unused_id() -> Id {
    uuid::Uuid::new_v4().as_u128()
}

fn pubkey() -> PublicKey {
    PublicKey { tag: 2, hi: unused_id(), lo: unused_id() }
}

#[test]
fn place_order_locks_the_correct_balance_for_a_buy() {
    let mut board = TaskBoard::new();
    let owner = pubkey();
    board.restore_exchange_account(owner, ExchangeAccount { base_balance: 1_000, ..Default::default() });

    let (order, trades) = board.place_order(owner, Side::Buy, 10, 50, clock::now()).unwrap();

    assert!(trades.is_empty(), "no resting sell orders to match against");
    assert_eq!(order.status, OrderStatus::Open);
    let account = board.exchange_account(&owner);
    assert_eq!(account.locked_base, 500, "10 price * 50 quantity");
    assert_eq!(account.base_balance, 1_000, "balance itself untouched, only locked, until it actually fills");
}

#[test]
fn place_order_locks_the_correct_balance_for_a_sell() {
    let mut board = TaskBoard::new();
    let owner = pubkey();
    board.restore_exchange_account(owner, ExchangeAccount { compute_balance: 100, ..Default::default() });

    let (order, trades) = board.place_order(owner, Side::Sell, 10, 40, clock::now()).unwrap();

    assert!(trades.is_empty());
    assert_eq!(order.status, OrderStatus::Open);
    let account = board.exchange_account(&owner);
    assert_eq!(account.locked_compute, 40);
    assert_eq!(account.compute_balance, 100);
}

#[test]
fn place_order_rejects_insufficient_available_balance() {
    let mut board = TaskBoard::new();
    let owner = pubkey();
    board.restore_exchange_account(owner, ExchangeAccount { base_balance: 100, ..Default::default() });

    assert!(matches!(
        board.place_order(owner, Side::Buy, 10, 20, clock::now()),
        Err(BoardError::InsufficientBalance { available: 100, required: 200 })
    ));
}

#[test]
fn place_order_rejects_when_balance_already_locked_by_another_open_order() {
    let mut board = TaskBoard::new();
    let owner = pubkey();
    board.restore_exchange_account(owner, ExchangeAccount { base_balance: 1_000, ..Default::default() });
    board.place_order(owner, Side::Buy, 10, 90, clock::now()).unwrap();

    assert!(matches!(
        board.place_order(owner, Side::Buy, 10, 20, clock::now()),
        Err(BoardError::InsufficientBalance { available: 100, required: 200 })
    ));
}

#[test]
fn place_order_rejects_zero_price_or_quantity() {
    let mut board = TaskBoard::new();
    let owner = pubkey();
    assert!(matches!(board.place_order(owner, Side::Buy, 0, 10, clock::now()), Err(BoardError::InvalidOrder)));
    assert!(matches!(board.place_order(owner, Side::Buy, 10, 0, clock::now()), Err(BoardError::InvalidOrder)));
}

#[test]
fn place_order_rejects_overflowing_notional() {
    let mut board = TaskBoard::new();
    assert!(matches!(
        board.place_order(pubkey(), Side::Buy, u64::MAX, 2, clock::now()),
        Err(BoardError::OrderNotionalOverflow)
    ));
}

#[test]
fn matching_fills_at_the_resting_makers_price_not_the_takers() {
    let mut board = TaskBoard::new();
    let seller = pubkey();
    let buyer = pubkey();
    board.restore_exchange_account(seller, ExchangeAccount { compute_balance: 100, ..Default::default() });
    board.restore_exchange_account(buyer, ExchangeAccount { base_balance: 10_000, ..Default::default() });

    board.place_order(seller, Side::Sell, 8, 50, clock::now()).unwrap();
    let (order, trades) = board.place_order(buyer, Side::Buy, 10, 50, clock::now()).unwrap();

    assert_eq!(trades.len(), 1);
    assert_eq!(trades[0].price, 8, "fills at the resting maker's price, not the taker's own limit");
    assert_eq!(trades[0].quantity, 50);
    assert_eq!(order.status, OrderStatus::Filled);
    assert_eq!(board.exchange_account(&seller).base_balance, 400, "50 * 8");
    assert_eq!(board.exchange_account(&buyer).compute_balance, 50);
}

#[test]
fn small_fills_round_the_taker_fee_down_to_zero() {
    let mut board = TaskBoard::new();
    let seller = pubkey();
    let buyer = pubkey();
    board.restore_exchange_account(seller, ExchangeAccount { compute_balance: 50, ..Default::default() });
    board.restore_exchange_account(buyer, ExchangeAccount { base_balance: 1_000, ..Default::default() });

    board.place_order(seller, Side::Sell, 10, 50, clock::now()).unwrap();
    let (_, trades) = board.place_order(buyer, Side::Buy, 10, 50, clock::now()).unwrap();

    assert_eq!(trades[0].taker_fee, 0);
    assert_eq!(board.exchange_account(&buyer).compute_balance, 50, "no fee actually withheld at this size");
}

#[test]
fn buy_taker_pays_the_fee_in_compute_and_the_sell_maker_is_unaffected() {
    let mut board = TaskBoard::new();
    let seller = pubkey();
    let buyer = pubkey();
    board.restore_exchange_account(seller, ExchangeAccount { compute_balance: 5_000, ..Default::default() });
    board.restore_exchange_account(buyer, ExchangeAccount { base_balance: 100_000, ..Default::default() });

    board.place_order(seller, Side::Sell, 10, 5_000, clock::now()).unwrap();
    let (_, trades) = board.place_order(buyer, Side::Buy, 10, 5_000, clock::now()).unwrap();

    assert_eq!(trades.len(), 1);
    assert_eq!(trades[0].taker_side, Side::Buy);
    assert_eq!(trades[0].taker_fee, 5, "5_000 * 10 bps");
    assert_eq!(
        board.exchange_account(&buyer).compute_balance,
        4_995,
        "taker receives the fill minus the fee, never charged as an extra debit"
    );
    assert_eq!(
        board.exchange_account(&seller).base_balance,
        50_000,
        "the maker side is paid in full -- 5_000 * 10, no fee deducted"
    );
}

#[test]
fn sell_taker_pays_the_fee_in_base_and_the_buy_maker_is_unaffected() {
    let mut board = TaskBoard::new();
    let buyer = pubkey();
    let seller = pubkey();
    board.restore_exchange_account(buyer, ExchangeAccount { base_balance: 100_000, ..Default::default() });
    board.restore_exchange_account(seller, ExchangeAccount { compute_balance: 1_000, ..Default::default() });

    board.place_order(buyer, Side::Buy, 10, 1_000, clock::now()).unwrap();
    let (_, trades) = board.place_order(seller, Side::Sell, 10, 1_000, clock::now()).unwrap();

    assert_eq!(trades.len(), 1);
    assert_eq!(trades[0].taker_side, Side::Sell);
    assert_eq!(trades[0].taker_fee, 10, "notional 10_000 * 10 bps");
    assert_eq!(
        board.exchange_account(&seller).base_balance,
        9_990,
        "taker receives the notional minus the fee"
    );
    assert_eq!(
        board.exchange_account(&buyer).compute_balance,
        1_000,
        "the maker side is paid in full -- no fee deducted"
    );
}

#[test]
fn taker_price_improvement_credits_the_slack_back_to_available_balance() {
    let mut board = TaskBoard::new();
    let seller = pubkey();
    let buyer = pubkey();
    board.restore_exchange_account(seller, ExchangeAccount { compute_balance: 50, ..Default::default() });
    board.restore_exchange_account(buyer, ExchangeAccount { base_balance: 1_000, ..Default::default() });

    board.place_order(seller, Side::Sell, 8, 50, clock::now()).unwrap();
    board.place_order(buyer, Side::Buy, 10, 50, clock::now()).unwrap();

    let account = board.exchange_account(&buyer);
    assert_eq!(account.base_balance, 600, "1000 - 400 actually spent");
    assert_eq!(account.locked_base, 0, "fully filled, nothing left locked");
}

#[test]
fn partial_fill_leaves_the_order_open_with_reduced_locked_amount() {
    let mut board = TaskBoard::new();
    let seller = pubkey();
    let buyer = pubkey();
    board.restore_exchange_account(seller, ExchangeAccount { compute_balance: 20, ..Default::default() });
    board.restore_exchange_account(buyer, ExchangeAccount { base_balance: 1_000, ..Default::default() });

    board.place_order(seller, Side::Sell, 10, 20, clock::now()).unwrap();
    let (order, trades) = board.place_order(buyer, Side::Buy, 10, 50, clock::now()).unwrap();

    assert_eq!(trades.len(), 1);
    assert_eq!(trades[0].quantity, 20);
    assert_eq!(order.status, OrderStatus::Open, "50 requested, only 20 filled");
    assert_eq!(order.filled, 20);
    let account = board.exchange_account(&buyer);
    assert_eq!(account.locked_base, 300, "30 remaining unfilled quantity * price 10");
}

#[test]
fn full_fill_across_multiple_resting_orders_releases_locked_balance_to_exactly_zero() {
    let mut board = TaskBoard::new();
    let seller_a = pubkey();
    let seller_b = pubkey();
    let buyer = pubkey();
    board.restore_exchange_account(seller_a, ExchangeAccount { compute_balance: 30, ..Default::default() });
    board.restore_exchange_account(seller_b, ExchangeAccount { compute_balance: 30, ..Default::default() });
    board.restore_exchange_account(buyer, ExchangeAccount { base_balance: 1_000, ..Default::default() });

    board.place_order(seller_a, Side::Sell, 10, 30, clock::now()).unwrap();
    board.place_order(seller_b, Side::Sell, 10, 30, clock::now()).unwrap();
    let (order, trades) = board.place_order(buyer, Side::Buy, 10, 60, clock::now()).unwrap();

    assert_eq!(trades.len(), 2, "one taker order filled across two resting makers");
    assert_eq!(order.status, OrderStatus::Filled);
    let account = board.exchange_account(&buyer);
    assert_eq!(account.locked_base, 0);
    assert_eq!(account.base_balance, 400, "1000 - 600 spent across both fills");
}

#[test]
fn price_time_priority_matches_the_earliest_order_at_a_tied_price() {
    let mut board = TaskBoard::new();
    let earlier = pubkey();
    let later = pubkey();
    let buyer = pubkey();
    board.restore_exchange_account(earlier, ExchangeAccount { compute_balance: 10, ..Default::default() });
    board.restore_exchange_account(later, ExchangeAccount { compute_balance: 10, ..Default::default() });
    board.restore_exchange_account(buyer, ExchangeAccount { base_balance: 1_000, ..Default::default() });
    let now = clock::now();

    board.place_order(earlier, Side::Sell, 10, 10, now).unwrap();
    board.place_order(later, Side::Sell, 10, 10, now.plus_seconds(1)).unwrap();
    let (_, trades) = board.place_order(buyer, Side::Buy, 10, 10, now.plus_seconds(2)).unwrap();

    assert_eq!(trades.len(), 1);
    assert_eq!(trades[0].seller, earlier, "same price -- earliest resting order wins");
}

#[test]
fn orders_never_self_trade() {
    let mut board = TaskBoard::new();
    let owner = pubkey();
    board.restore_exchange_account(
        owner,
        ExchangeAccount { base_balance: 1_000, compute_balance: 100, ..Default::default() },
    );

    board.place_order(owner, Side::Sell, 10, 50, clock::now()).unwrap();
    let (order, trades) = board.place_order(owner, Side::Buy, 10, 50, clock::now()).unwrap();

    assert!(trades.is_empty(), "must not match against its own resting order");
    assert_eq!(order.status, OrderStatus::Open);
}

#[test]
fn cancel_order_releases_remaining_locked_balance() {
    let mut board = TaskBoard::new();
    let owner = pubkey();
    board.restore_exchange_account(owner, ExchangeAccount { base_balance: 1_000, ..Default::default() });
    let (order, _) = board.place_order(owner, Side::Buy, 10, 50, clock::now()).unwrap();

    let cancelled = board.cancel_order(order.id, &owner).unwrap();

    assert_eq!(cancelled.status, OrderStatus::Cancelled);
    assert_eq!(board.exchange_account(&owner).locked_base, 0);
}

#[test]
fn cancel_order_after_a_partial_fill_releases_only_the_unfilled_remainder() {
    let mut board = TaskBoard::new();
    let seller = pubkey();
    let buyer = pubkey();
    board.restore_exchange_account(seller, ExchangeAccount { compute_balance: 20, ..Default::default() });
    board.restore_exchange_account(buyer, ExchangeAccount { base_balance: 1_000, ..Default::default() });
    board.place_order(seller, Side::Sell, 10, 20, clock::now()).unwrap();
    let (order, _) = board.place_order(buyer, Side::Buy, 10, 50, clock::now()).unwrap();
    assert_eq!(board.exchange_account(&buyer).locked_base, 300, "30 unfilled remaining * 10");

    board.cancel_order(order.id, &buyer).unwrap();

    assert_eq!(board.exchange_account(&buyer).locked_base, 0);
}

#[test]
fn cancel_order_rejects_non_owner() {
    let mut board = TaskBoard::new();
    let owner = pubkey();
    board.restore_exchange_account(owner, ExchangeAccount { base_balance: 1_000, ..Default::default() });
    let (order, _) = board.place_order(owner, Side::Buy, 10, 50, clock::now()).unwrap();

    assert!(matches!(board.cancel_order(order.id, &pubkey()), Err(BoardError::NotOrderOwner)));
}

#[test]
fn cancel_order_rejects_an_already_terminal_order() {
    let mut board = TaskBoard::new();
    let owner = pubkey();
    board.restore_exchange_account(owner, ExchangeAccount { base_balance: 1_000, ..Default::default() });
    let (order, _) = board.place_order(owner, Side::Buy, 10, 50, clock::now()).unwrap();
    board.cancel_order(order.id, &owner).unwrap();

    assert!(matches!(board.cancel_order(order.id, &owner), Err(BoardError::OrderNotOpen)));
}

#[test]
fn order_book_lists_bids_and_asks_best_first() {
    let mut board = TaskBoard::new();
    let a = pubkey();
    let b = pubkey();
    board.restore_exchange_account(
        a,
        ExchangeAccount { base_balance: 1_000, compute_balance: 100, ..Default::default() },
    );
    board.restore_exchange_account(
        b,
        ExchangeAccount { base_balance: 1_000, compute_balance: 100, ..Default::default() },
    );

    board.place_order(a, Side::Buy, 5, 10, clock::now()).unwrap();
    board.place_order(b, Side::Buy, 8, 10, clock::now()).unwrap();
    board.place_order(a, Side::Sell, 20, 10, clock::now()).unwrap();
    board.place_order(b, Side::Sell, 15, 10, clock::now()).unwrap();

    let (bids, asks) = board.order_book();
    assert_eq!(bids.iter().map(|o| o.price).collect::<Vec<_>>(), vec![8, 5], "bids best (highest) first");
    assert_eq!(asks.iter().map(|o| o.price).collect::<Vec<_>>(), vec![15, 20], "asks best (lowest) first");
}

#[test]
fn debit_for_withdrawal_rejects_amount_exceeding_available_balance() {
    let mut board = TaskBoard::new();
    let owner = pubkey();
    board.restore_exchange_account(owner, ExchangeAccount { base_balance: 100, ..Default::default() });

    assert!(matches!(
        board.debit_for_withdrawal(&owner, 101),
        Err(BoardError::InsufficientBalance { available: 100, required: 101 })
    ));
    assert_eq!(board.exchange_account(&owner).base_balance, 100, "rejected debit must not touch the balance");

    board.debit_for_withdrawal(&owner, 100).unwrap();
    assert_eq!(board.exchange_account(&owner).base_balance, 0);
}

#[test]
fn debit_for_withdrawal_refuses_a_withdrawal_of_nothing() {
    let mut board = TaskBoard::new();
    let owner = pubkey();
    board.restore_exchange_account(owner, ExchangeAccount { base_balance: 100, ..Default::default() });

    assert!(matches!(board.debit_for_withdrawal(&owner, 0), Err(BoardError::ZeroWithdrawal)));
    assert_eq!(board.exchange_account(&owner).base_balance, 100, "and it must not have touched the balance");
}

#[test]
fn a_withdrawal_of_nothing_is_refused_even_on_an_account_that_has_never_existed() {
    let mut board = TaskBoard::new();
    assert!(matches!(board.debit_for_withdrawal(&pubkey(), 0), Err(BoardError::ZeroWithdrawal)));
}

#[test]
fn credit_compute_accumulates_across_multiple_calls() {
    let mut board = TaskBoard::new();
    let recipient = pubkey();
    board.credit_compute(&recipient, 10);
    board.credit_compute(&recipient, 5);
    assert_eq!(board.exchange_account(&recipient).compute_balance, 15);
}
