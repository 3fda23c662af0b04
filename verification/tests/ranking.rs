use itx_hub::api::names::{lookup_names, FoundName, MAX_NAMES_LOOKUP};
use itx_hub::api::ranking::{agent_matches, compare_for_ranking, rank_agents, LeaderboardSort};
use itx_hub::api::requests::escrow_amount_for;
use itx_hub::board::types::Reputation;
use itx_hub::board::TaskBoard;
use itx_hub::series::HUB_TRANSACTION_FEE;
use itx_hub::table::Table;
use itx_hub::tags::TextTable;
use itx_hub::types::{Id, PublicKey};
use std::cmp::Ordering;

fn unused_id() -> Id {
    uuid::Uuid::new_v4().as_u128()
}

fn pubkey() -> PublicKey {
    PublicKey { tag: 2, hi: unused_id(), lo: unused_id() }
}

fn hex_of(pubkey: &PublicKey) -> String {
    pubkey.to_string()
}

/// Reads a compressed point: a tag and a coordinate.
fn point(bytes: &[u8]) -> Result<PublicKey, String> {
    if bytes.len() != 33 {
        return Err("not a point".to_string());
    }
    let word = |from: usize| u128::from_be_bytes(bytes[from..from + 16].try_into().unwrap());
    Ok(PublicKey { tag: bytes[0], hi: word(1), lo: word(17) })
}

fn name_of<'a>(out: &'a TextTable<FoundName>, key: &str) -> Option<Option<&'a str>> {
    out.find(key).map(|at| out.value_at(at).name.as_deref())
}

fn amount(bounty: u64) -> Option<u64> {
    escrow_amount_for(bounty).ok()
}

#[test]
fn names_resolves_a_batch_and_answers_null_for_keys_it_has_never_seen() {
    let known = pubkey();
    let stranger = pubkey();
    let mut registry: Table<PublicKey, String> = Table::new();
    registry.insert(known, "SwiftWarlock".to_string());

    let out = lookup_names(&registry, &format!("{},{}", hex_of(&known), hex_of(&stranger)), &point);
    assert_eq!(name_of(&out, &hex_of(&known)).unwrap(), Some("SwiftWarlock"));
    assert!(out.contains(&hex_of(&stranger)));
    assert_eq!(name_of(&out, &hex_of(&stranger)).unwrap(), None);
}

#[test]
fn names_skips_a_malformed_key_rather_than_failing_the_whole_batch() {
    let known = pubkey();
    let mut registry: Table<PublicKey, String> = Table::new();
    registry.insert(known, "AmberOtter".to_string());

    let out = lookup_names(&registry, &format!("nonsense,{},,zz", hex_of(&known)), &point);
    assert_eq!(out.len(), 1, "one good key answered, the rubbish dropped");
    assert_eq!(name_of(&out, &hex_of(&known)).unwrap(), Some("AmberOtter"));
}

#[test]
fn names_stops_at_the_batch_ceiling() {
    let registry: Table<PublicKey, String> = Table::new();
    let keys: Vec<String> =
        (0..MAX_NAMES_LOOKUP + 20).map(|_| hex_of(&pubkey())).collect();
    assert_eq!(lookup_names(&registry, &keys.join(","), &point).len(), MAX_NAMES_LOOKUP);
}

#[test]
fn leaderboard_sort_reads_the_column_asked_for_and_defaults_to_earnings() {
    assert_eq!(LeaderboardSort::parse(None), LeaderboardSort::Earned);
    assert_eq!(LeaderboardSort::parse(Some("completed")), LeaderboardSort::Completed);
    assert_eq!(LeaderboardSort::parse(Some("failed")), LeaderboardSort::Failed);
    assert_eq!(LeaderboardSort::parse(Some("net_worth")), LeaderboardSort::NetWorth);
    assert_eq!(LeaderboardSort::parse(Some("nonsense")), LeaderboardSort::Earned);
}

#[test]
fn leaderboard_sort_keys_off_the_right_figure() {
    let reputation = Reputation { completed: 7, failed: 2, total_earned: 900 };
    assert_eq!(LeaderboardSort::Earned.key(&reputation), Some(900));
    assert_eq!(LeaderboardSort::Completed.key(&reputation), Some(7));
    assert_eq!(LeaderboardSort::Failed.key(&reputation), Some(2));
    assert_eq!(LeaderboardSort::NetWorth.key(&reputation), None);
}

#[test]
fn ranking_puts_an_agent_with_no_figure_last_in_both_directions() {
    assert_eq!(compare_for_ranking(Some(9), Some(1), false), Ordering::Less);
    assert_eq!(compare_for_ranking(Some(9), Some(1), true), Ordering::Greater);
    for ascending in [true, false] {
        assert_eq!(compare_for_ranking(Some(0), None, ascending), Ordering::Less);
        assert_eq!(compare_for_ranking(None, Some(0), ascending), Ordering::Greater);
        assert_eq!(compare_for_ranking(None, None, ascending), Ordering::Equal);
    }
}

#[test]
fn agent_search_matches_either_half_of_a_name_case_insensitively() {
    let key = hex_of(&pubkey());
    assert!(agent_matches("swift", &key, Some("SwiftWarlock")));
    assert!(agent_matches("warlock", &key, Some("SwiftWarlock")));
    assert!(agent_matches("swiftwarlock", &key, Some("SwiftWarlock")));
    assert!(!agent_matches("otter", &key, Some("SwiftWarlock")));
}

#[test]
fn agent_search_matches_a_pubkey_fragment_not_just_its_start() {
    let key = hex_of(&pubkey());
    assert!(agent_matches(&key[..8], &key, None));
    assert!(agent_matches(&key[key.len() - 6..], &key, None));
    assert!(agent_matches(&key[..8], &key.to_uppercase(), None));
}

#[test]
fn an_unnamed_agent_is_still_searchable_by_key() {
    let key = hex_of(&pubkey());
    assert!(agent_matches(&key[..6], &key, None));
    assert!(!agent_matches("swiftwarlock", &key, None));
}

#[test]
fn an_ordinary_bounty_reserves_itself_plus_the_fee() {
    assert_eq!(amount(1_000_000), Some(1_000_000 + HUB_TRANSACTION_FEE));
    assert_eq!(amount(0), Some(HUB_TRANSACTION_FEE));
}

#[test]
fn a_bounty_whose_fee_would_wrap_is_refused_rather_than_reserved() {
    let bounty = u64::MAX - HUB_TRANSACTION_FEE + 1;
    assert_eq!(
        bounty.wrapping_add(HUB_TRANSACTION_FEE),
        0,
        "this is the input that used to reserve zero, so pin it"
    );
    assert_eq!(amount(bounty), None);
    assert_eq!(amount(u64::MAX), None);
}

#[test]
fn the_largest_bounty_that_leaves_room_for_the_fee_is_allowed() {
    let largest = u64::MAX - HUB_TRANSACTION_FEE;
    assert_eq!(amount(largest), Some(u64::MAX));
    assert_eq!(amount(largest + 1), None);
}

#[test]
fn leaderboard_ties_break_on_the_pubkey_so_paging_cannot_repeat_an_agent() {
    let field: Vec<(PublicKey, Reputation)> =
        (0..8).map(|_| (pubkey(), Reputation { completed: 3, failed: 0, total_earned: 0 })).collect();

    let order = |input: &[(PublicKey, Reputation)]| {
        let mut board = TaskBoard::new();
        for (key, reputation) in input {
            board.restore_reputation(*key, *reputation);
        }
        rank_agents(&board, LeaderboardSort::Completed, &None, false)
            .into_iter()
            .map(|(key, _)| key.to_string())
            .collect::<Vec<_>>()
    };

    let first = order(&field);
    let mut shuffled = field.clone();
    shuffled.reverse();
    assert_eq!(first, order(&shuffled));
    let mut unique = first.clone();
    unique.dedup();
    assert_eq!(unique.len(), first.len());
    assert_eq!(first.len(), 8);
}
