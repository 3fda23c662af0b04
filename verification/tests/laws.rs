use itx_hub::api::requests::hash_output;
use itx_hub::board::types::{ExchangeAccount, OrderStatus, Reputation, Side};
use itx_hub::board::TaskBoard;
use itx_hub::clock;
use itx_hub::types::{Id, PublicKey};

fn unused_id() -> Id {
    uuid::Uuid::new_v4().as_u128()
}

fn pubkey() -> PublicKey {
    PublicKey { tag: 2, hi: unused_id(), lo: unused_id() }
}

fn totals(board: &TaskBoard) -> (u64, u64) {
    let accounts = board.all_exchange_accounts();
    (accounts.iter().map(|a| a.1.base_balance).sum(), accounts.iter().map(|a| a.1.compute_balance).sum())
}

/// What is locked in every account is what its owner's open orders hold back.
fn locks_are_exact(board: &TaskBoard) -> bool {
    board.all_exchange_accounts().iter().all(|(owner, account)| {
        let open = board.all_orders();
        let open: Vec<_> = open.iter().filter(|o| o.owner == *owner && o.status == OrderStatus::Open).collect();
        let base: u64 =
            open.iter().filter(|o| o.side == Side::Buy).map(|o| o.price * (o.quantity - o.filled)).sum();
        let compute: u64 = open.iter().filter(|o| o.side == Side::Sell).map(|o| o.quantity - o.filled).sum();
        account.locked_base == base && account.locked_compute == compute
    })
}

/// A small market: three owners and a run of orders that cross.
fn market() -> (TaskBoard, Vec<PublicKey>) {
    let mut board = TaskBoard::new();
    let owners: Vec<PublicKey> = (0..3).map(|_| pubkey()).collect();
    for owner in &owners {
        board.restore_exchange_account(
            *owner,
            ExchangeAccount { base_balance: 1_000_000, compute_balance: 100_000, ..Default::default() },
        );
    }
    (board, owners)
}

const ORDERS: [(usize, Side, u64, u64); 8] = [
    (0, Side::Sell, 12, 9_000),
    (1, Side::Sell, 10, 7_000),
    (2, Side::Buy, 11, 5_000),
    (2, Side::Buy, 12, 6_000),
    (0, Side::Buy, 9, 4_000),
    (1, Side::Sell, 9, 6_000),
    (2, Side::Sell, 13, 1_000),
    (1, Side::Buy, 20, 3_000),
];

#[test]
fn trading_makes_nothing_and_loses_only_fees() {
    let (mut board, owners) = market();
    let before = totals(&board);
    let now = clock::now();
    let (mut base_fees, mut compute_fees) = (0, 0);
    for (i, (who, side, price, quantity)) in ORDERS.into_iter().enumerate() {
        let (_, trades) = board.place_order(owners[who], side, price, quantity, now.plus_seconds(i as i64)).unwrap();
        for trade in &trades {
            assert_ne!(trade.buyer, trade.seller);
            match trade.taker_side {
                Side::Buy => {
                    assert!(trade.price <= price);
                    compute_fees += trade.taker_fee;
                    assert_eq!(trade.taker_fee, trade.quantity / 1_000);
                }
                Side::Sell => {
                    assert!(trade.price >= price);
                    base_fees += trade.taker_fee;
                    assert_eq!(trade.taker_fee, trade.price * trade.quantity / 1_000);
                }
            }
        }
        assert!(locks_are_exact(&board), "after order {i}");
    }
    let after = totals(&board);
    assert_eq!((after.0 + base_fees, after.1 + compute_fees), before);
    assert!(base_fees > 0 && compute_fees > 0);
}

#[test]
fn an_owner_without_open_orders_has_nothing_locked() {
    let (mut board, owners) = market();
    let now = clock::now();
    for (i, (who, side, price, quantity)) in ORDERS.into_iter().enumerate() {
        board.place_order(owners[who], side, price, quantity, now.plus_seconds(i as i64)).unwrap();
    }
    let open: Vec<(Id, PublicKey)> = board
        .all_orders()
        .iter()
        .filter(|o| o.status == OrderStatus::Open)
        .map(|o| (o.id, o.owner))
        .collect();
    assert!(!open.is_empty());
    for (id, owner) in open {
        board.cancel_order(id, &owner).unwrap();
        assert!(locks_are_exact(&board));
    }
    for owner in &owners {
        let account = board.exchange_account(owner);
        assert_eq!((account.locked_base, account.locked_compute), (0, 0));
    }
}

#[test]
fn an_order_filled_on_a_stage_is_the_order_filled_on_the_board() {
    let (mut staged, owners) = market();
    let (mut direct, _) = market();
    let sink = pubkey();
    for owner in &owners {
        direct.restore_exchange_account(
            *owner,
            ExchangeAccount { base_balance: 1_000_000, compute_balance: 100_000, ..Default::default() },
        );
    }
    let before = totals(&staged);
    let now = clock::now();
    for (i, (who, side, price, quantity)) in ORDERS.into_iter().enumerate() {
        let at = now.plus_seconds(i as i64);
        let fill = staged.fill_order(owners[who], side, price, quantity, &sink, at).unwrap();
        assert_eq!(fill.orders[0].id, fill.order.id);
        assert!(fill.orders[1..].windows(2).all(|pair| pair[0].id < pair[1].id));
        assert!(fill.orders[1..].iter().all(|o| {
            o.id != fill.order.id && fill.trades.iter().any(|t| t.buy_order_id == o.id || t.sell_order_id == o.id)
        }));
        assert!(fill.accounts.windows(2).all(|pair| pair[0].0 < pair[1].0));
        let resting = staged.exchange_account(&owners[who]);
        staged.publish(&fill);
        let (order, trades) = direct.place_order(owners[who], side, price, quantity, at).unwrap();
        assert_eq!((fill.order.filled, fill.order.status), (order.filled, order.status));
        assert_eq!(fill.trades.len(), trades.len());
        for owner in &owners {
            assert_eq!(staged.exchange_account(owner), direct.exchange_account(owner));
        }
        assert!(resting.locked_base <= resting.base_balance);
    }
    assert_eq!(totals(&staged), before, "the fees are credited, so nothing is lost");
}

#[test]
fn a_cancelled_order_and_a_reversed_withdrawal_leave_the_account_as_it_was() {
    let mut board = TaskBoard::new();
    let owner = pubkey();
    let account = ExchangeAccount { base_balance: 1_000, compute_balance: 50, ..Default::default() };
    board.restore_exchange_account(owner, account);
    let (order, _) = board.place_order(owner, Side::Buy, 10, 50, clock::now()).unwrap();
    board.cancel_order(order.id, &owner).unwrap();
    assert_eq!(board.exchange_account(&owner), account);
    board.debit_for_withdrawal(&owner, 400).unwrap();
    board.credit_back_withdrawal(&owner, 400);
    assert_eq!(board.exchange_account(&owner), account);
}

#[test]
fn one_winner_paid_leaves_the_others_shares() {
    let mut board = TaskBoard::new();
    let now = clock::now();
    let task = board.create_consensus_task(pubkey(), "t".to_string(), 1_000, 3, now.plus_minutes(60), 30);
    let agents: Vec<PublicKey> = (0..3).map(|_| pubkey()).collect();
    for agent in &agents {
        board.join_consensus_task(task.id, *agent).unwrap();
    }
    for agent in &agents {
        board.submit_consensus_answer(task.id, *agent, "same".to_string()).unwrap();
    }
    let owed = board.get_task(task.id).unwrap().owed_payouts();
    assert_eq!(owed.iter().map(|p| p.1).collect::<Vec<_>>(), vec![333, 333, 333], "at most the bounty");
    board.mark_recipient_paid(task.id, &agents[1], 333).unwrap();
    let left: Vec<(PublicKey, u64)> = owed.into_iter().filter(|p| p.0 != agents[1]).collect();
    assert_eq!(board.get_task(task.id).unwrap().owed_payouts(), left);
}

#[test]
fn a_key_is_granted_once_and_a_revoked_grant_is_undone() {
    let mut board = TaskBoard::new();
    let (key, other) = (pubkey(), pubkey());
    board.record_faucet_grant(key, 100).unwrap();
    board.record_faucet_grant(other, 200).unwrap();
    assert!(board.record_faucet_grant(key, 300).is_err());
    assert_eq!((board.faucet_granted_since(150), board.faucet_granted_since(301)), (2, 0));
    board.revoke_faucet_grant(&key);
    assert!(board.can_claim_faucet(&key) && !board.can_claim_faucet(&other));
    assert_eq!(board.all_faucet_grants(), vec![other]);
    assert_eq!(board.faucet_grant_times(), vec![200]);
}

#[test]
fn grants_are_counted_by_network() {
    let mut board = TaskBoard::new();
    for (at, prefix) in [(100, "b"), (200, "a"), (300, "b")] {
        let key = pubkey();
        board.restore_faucet_grant(key, at);
        board.restore_faucet_grant_prefix(key, prefix.to_string());
    }
    assert_eq!(
        board.faucet_grants_by_prefix(200),
        vec![("a".to_string(), (1, 1)), ("b".to_string(), (1, 2))]
    );
    assert_eq!(board.faucet_granted_from_prefix_since("b", 0), 2);
}

#[test]
fn a_restored_board_shows_what_was_kept() {
    let mut board = TaskBoard::new();
    let agent = pubkey();
    let task = board.create_task(pubkey(), "t".to_string(), 7, hash_output("x"));
    board.restore_reputation(agent, Reputation { completed: 1, failed: 2, total_earned: 3 });
    let mut again = TaskBoard::new();
    again.restore_task(task.clone());
    for (key, record) in board.all_reputation() {
        again.restore_reputation(key, record);
    }
    assert_eq!(again.get_task(task.id).unwrap().bounty, 7);
    assert_eq!(again.reputation(&agent), board.reputation(&agent));
    assert_eq!(again.all_tasks().len(), 1);
}
