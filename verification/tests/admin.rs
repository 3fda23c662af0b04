use itx_hub::admin::{agents_of, alerts_for, networks_of, overview, work_of, Readings, Settings, Severity};
use itx_hub::api::requests::hash_output;
use itx_hub::board::types::{ExchangeAccount, Reputation};
use itx_hub::board::TaskBoard;
use itx_hub::clock;
use itx_hub::types::{Id, PublicKey};

fn unused_id() -> Id {
    uuid::Uuid::new_v4().as_u128()
}

fn pubkey() -> PublicKey {
    PublicKey { tag: 2, hi: unused_id(), lo: unused_id() }
}

/// Readings that give no cause for concern at `unix`.
fn quiet(unix: u64) -> Readings {
    Readings {
        custody_balance: 10_000,
        faucet_granted_units: 0,
        payments_pending: 0,
        payments_needs_review: 0,
        payments_oldest_pending_seconds: 0,
        operator_ready_outputs: 8,
        custody_ready_outputs: 8,
        replays_rejected: 0,
        burned_envelopes: 0,
        replay_guard_degraded: 0,
        rate_limited_by_tier: vec![("read".to_string(), 3)],
        rate_limited_per_key: 0,
        ledger_store_divergences: 0,
        chain_height: 42,
        chain_observed_at_unix: unix,
    }
}

fn settings() -> Settings {
    Settings {
        consensus_max_exposure: 1_000,
        faucet_daily_grants: 4,
        faucet_free_grants_per_prefix: 1,
        faucet_pow_doubling_grants: 2,
    }
}

fn percent(part: u64, whole: u64) -> String {
    format!("{}", 100 * part / whole.max(1))
}

fn kinds(board: &TaskBoard, readings: Readings, disagreements: Vec<String>) -> Vec<(Severity, &'static str)> {
    let now = clock::now();
    let shown = overview(board, readings, &settings(), disagreements, now, |n| n, percent);
    shown.alerts.iter().map(|a| (a.severity, a.kind)).collect()
}

fn present() -> u64 {
    clock::now().timestamp() as u64
}

#[test]
fn a_quiet_hub_raises_nothing() {
    assert!(kinds(&TaskBoard::new(), quiet(present()), vec![]).is_empty());
}

#[test]
fn every_cause_raises_its_own_alert_the_critical_first() {
    let mut board = TaskBoard::new();
    let now = clock::now();
    board.restore_exchange_account(pubkey(), ExchangeAccount { base_balance: 10_001, ..Default::default() });
    board.create_consensus_task(pubkey(), "t".to_string(), 800, 2, now.plus_minutes(60), 30);
    for _ in 0..4 {
        let key = pubkey();
        board.record_faucet_grant(key, now.timestamp()).unwrap();
        board.record_faucet_grant_prefix(key, "10.0.0.0/24".to_string());
    }
    let mut readings = quiet(present() - 181);
    readings.payments_needs_review = 2;
    readings.payments_oldest_pending_seconds = 901;
    readings.operator_ready_outputs = 3;
    readings.burned_envelopes = 1;
    readings.replay_guard_degraded = 1;
    readings.ledger_store_divergences = 1;
    let raised = kinds(&board, readings, vec!["x".to_string()]);
    let names: Vec<&str> = raised.iter().map(|a| a.1).collect();
    assert_eq!(
        names,
        vec![
            "insolvent",
            "payments_need_review",
            "store_disagreement",
            "burned_envelopes",
            "ledger_store_divergence",
            "replay_guard_degraded",
            "chain_stale",
            "operator_wallet_flat",
            "faucet_budget_exhausted",
            "payment_stuck",
            "consensus_exposure_high",
            "network_dominates_faucet",
        ]
    );
    assert!(raised[..5].iter().all(|a| a.0 == Severity::Critical));
    assert!(raised[5..].iter().all(|a| a.0 == Severity::Warning));
}

#[test]
fn an_alert_is_worded_with_its_figures() {
    let mut board = TaskBoard::new();
    board.restore_exchange_account(pubkey(), ExchangeAccount { base_balance: 10_001, ..Default::default() });
    let now = clock::now();
    let shown = overview(&board, quiet(present()), &settings(), vec![], now, |n| n, percent);
    assert!(!shown.money.solvent);
    assert_eq!(shown.alerts[0].title, "Custody holds 10000 against 10001 owed");
    assert_eq!(alerts_for(&shown, "0").len(), shown.alerts.len());
    assert_eq!((shown.chain_height, shown.window_hours), (42, 24));
    assert_eq!(shown.generated_at, now.to_rfc3339());
}

#[test]
fn the_population_is_counted() {
    let mut board = TaskBoard::new();
    let (worker, idler, holder) = (pubkey(), pubkey(), pubkey());
    board.restore_reputation(worker, Reputation { completed: 1, failed: 1, total_earned: 5 });
    board.restore_reputation(idler, Reputation { completed: 0, failed: 0, total_earned: 0 });
    board.record_faucet_grant(worker, 1).unwrap();
    board.restore_exchange_account(holder, ExchangeAccount { compute_balance: 1, ..Default::default() });
    let agents = agents_of(&board);
    assert_eq!(agents.known, 3);
    assert_eq!((agents.funded_by_faucet, agents.with_completed_work, agents.with_failed_work), (1, 1, 1));
    assert_eq!(agents.holding_balance, 1);
}

#[test]
fn the_work_is_counted_by_where_it_stands() {
    let mut board = TaskBoard::new();
    let now = clock::now();
    board.create_task(pubkey(), "open".to_string(), 1, hash_output("x"));
    let claimed = board.create_task(pubkey(), "claimed".to_string(), 1, hash_output("x"));
    board.claim_task(claimed.id, pubkey(), now.plus_minutes(5)).unwrap();
    let gone = board.create_task(pubkey(), "closed".to_string(), 1, hash_output("x"));
    board.cancel_task(gone.id).unwrap();
    board.create_consensus_task(pubkey(), "c".to_string(), 900, 2, now.plus_minutes(60), 30);
    let work = work_of(&board, 1_000);
    assert_eq!((work.open, work.claimed, work.closed), (2, 1, 1));
    assert_eq!((work.consensus_exposure, work.consensus_exposure_ceiling), (900, 1_000));
}

#[test]
fn networks_are_listed_the_busiest_first() {
    let mut board = TaskBoard::new();
    for (at, prefix) in [(10, "quiet"), (10, "busy"), (11, "busy"), (1, "past")] {
        let key = pubkey();
        board.restore_faucet_grant(key, at);
        board.restore_faucet_grant_prefix(key, prefix.to_string());
    }
    let rows = networks_of(&board, 10, |granted| granted + 1);
    let shown: Vec<(&str, u64, u64)> =
        rows.iter().map(|r| (r.prefix.as_str(), r.grants_in_window, r.next_price_multiplier)).collect();
    assert_eq!(shown[0], ("busy", 2, 3));
    assert_eq!(shown[1], ("quiet", 1, 2));
    assert_eq!(rows.iter().find(|r| r.prefix == "past").map(|r| r.grants_all_time), Some(1));
}
