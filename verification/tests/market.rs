use itx_hub::api::requests::hash_output;
use itx_hub::board::types::{Task, TaskKind, TaskStatus};
use itx_hub::board::TaskBoard;
use itx_hub::market::{summarize_board, BoardSummaryDto, SUMMARY_BUCKETS, SUMMARY_DEFAULT_WINDOW_MS};
use itx_hub::series::{
    board_series, board_summary, series_for, MarketSeriesDto, SeriesQuery, FAUCET_GRANT_AMOUNT, HUB_TRANSACTION_FEE,
    MAX_SERIES_BUCKETS, MIN_SERIES_WINDOW_MS,
};
use itx_hub::tags::Tags;
use itx_hub::types::{Id, PublicKey, Timestamp, NANOS_PER_MILLI, NANOS_PER_SECOND};

fn unused_id() -> Id {
    uuid::Uuid::new_v4().as_u128()
}

fn pubkey() -> PublicKey {
    PublicKey { tag: 2, hi: unused_id(), lo: unused_id() }
}

fn tag_set(tags: &[&str]) -> Tags {
    let mut set = Tags::new();
    for tag in tags {
        set.insert(tag.to_string());
    }
    set
}

/// A task with just the fields a summary reads.
fn task(created_at: Timestamp, bounty: u64, status: TaskStatus, tags: &[&str]) -> Task {
    Task {
        id: unused_id(),
        description: "t".to_string(),
        bounty,
        kind: TaskKind::HashMatch { expected_output_hash: hash_output("x") },
        poster: pubkey(),
        status,
        claimant: None,
        claim_deadline: None,
        failed_attempts: 0,
        created_at,
        min_reputation: 0,
        close_reason: None,
        escrow_id: None,
        capabilities: tag_set(tags),
        settled_at: None,
    }
}

/// Noon on 2026-08-11.
fn now() -> Timestamp {
    Timestamp { nanos: 1_786_449_600 * NANOS_PER_SECOND }
}

fn summarize(tasks: &[Task]) -> BoardSummaryDto {
    let refs: Vec<&Task> = tasks.iter().collect();
    summarize_board(&refs, now())
}

fn series(tasks: &[Task], query: SeriesQuery) -> MarketSeriesDto {
    let refs: Vec<&Task> = tasks.iter().collect();
    series_for(&refs, &vec![], now(), &query)
}

fn series_with_faucet(tasks: &[Task], grants: &[i64], query: SeriesQuery) -> MarketSeriesDto {
    let refs: Vec<&Task> = tasks.iter().collect();
    series_for(&refs, &grants.to_vec(), now(), &query)
}

/// A task posted at one instant and paid at another.
fn settled_task(created_at: Timestamp, settled_at: Timestamp, bounty: u64, winner: &PublicKey, tags: &[&str]) -> Task {
    let mut t = task(created_at, bounty, TaskStatus::Paid, tags);
    t.claimant = Some(*winner);
    t.settled_at = Some(settled_at);
    t
}

fn ask(capability: Option<&str>, window_ms: Option<u64>, buckets: Option<usize>) -> SeriesQuery {
    SeriesQuery { capability: capability.map(str::to_string), window_ms, buckets }
}

#[test]
fn a_task_counts_as_posted_when_it_was_posted_and_as_paid_when_it_was_paid() {
    let winner = pubkey();
    let tasks = [settled_task(
        now().plus_minutes(-60 * 20),
        now().plus_minutes(-60 * 2),
        700,
        &winner,
        &["python"],
    )];
    let out = series(&tasks, ask(Some("python"), Some(24 * 3_600_000), Some(4)));
    assert_eq!(out.posted_series, vec![1, 0, 0, 0]);
    assert_eq!(out.bounty_series, vec![700, 0, 0, 0]);
    assert_eq!(out.settled_series, vec![0, 0, 0, 1]);
    assert_eq!(out.paid_bounty_series, vec![0, 0, 0, 700]);
    assert_eq!(out.posted, 1);
    assert_eq!(out.settled, 1);
    assert_eq!(out.paid_bounty, 700);
    assert_eq!(out.fees_series, vec![0, 0, 0, HUB_TRANSACTION_FEE]);
    assert_eq!(out.fees, HUB_TRANSACTION_FEE);
}

#[test]
fn work_posted_before_the_window_still_counts_when_it_is_paid_inside_it() {
    let winner = pubkey();
    let tasks = [settled_task(
        now().plus_minutes(-1_440 * 30),
        now().plus_minutes(-60 * 1),
        400,
        &winner,
        &[],
    )];
    let out = series(&tasks, ask(None, Some(24 * 3_600_000), Some(2)));
    assert_eq!(out.posted, 0, "posted a month ago, outside this window");
    assert_eq!(out.settled, 1, "but paid an hour ago, inside it");
    assert_eq!(out.paid_bounty, 400);
    assert_eq!(out.settled_series, vec![0, 1]);
}

#[test]
fn agents_are_counted_distinctly_per_bucket_and_again_over_the_window() {
    let regular = pubkey();
    let tasks = [
        settled_task(now().plus_minutes(-60 * 20), now().plus_minutes(-60 * 20), 10, &regular, &[]),
        settled_task(now().plus_minutes(-60 * 2), now().plus_minutes(-60 * 2), 10, &regular, &[]),
    ];
    let out = series(&tasks, ask(None, Some(24 * 3_600_000), Some(2)));
    assert_eq!(out.agents_series, vec![2, 2]);
    assert_eq!(out.agents, 3, "summing the series would say four");
}

#[test]
fn faucet_grants_are_board_wide_and_ignore_the_capability_filter() {
    let grants = [
        now().plus_minutes(-60 * 20).timestamp(),
        now().plus_minutes(-60 * 2).timestamp(),
        now().plus_minutes(-1_440 * 9).timestamp(),
    ];
    let tasks = [task(now().plus_minutes(-60 * 3), 1, TaskStatus::Open, &["python"])];
    let window = ask(Some("python"), Some(24 * 3_600_000), Some(2));
    let filtered = series_with_faucet(&tasks, &grants, window);
    assert_eq!(filtered.faucet_series, vec![1, 1]);
    assert_eq!(filtered.faucet_grants, 2, "the third is older than the window");
    assert_eq!(filtered.faucet_itx, 2 * FAUCET_GRANT_AMOUNT);

    let whole_board =
        series_with_faucet(&tasks, &grants, ask(None, Some(24 * 3_600_000), Some(2)));
    assert_eq!(
        whole_board.faucet_series, filtered.faucet_series,
        "identical whatever capability was asked for"
    );
}

#[test]
fn the_summary_reports_the_boards_age_so_a_chart_can_size_its_ranges() {
    let oldest = now().plus_minutes(-1_440 * 3);
    let tasks = [
        task(oldest, 1, TaskStatus::Open, &[]),
        task(now().plus_minutes(-60 * 1), 1, TaskStatus::Open, &[]),
    ];
    assert_eq!(summarize(&tasks).first_task_at.as_deref(), Some(oldest.to_rfc3339()).as_deref());
    assert!(summarize(&[]).first_task_at.is_none());
}

#[test]
fn a_series_buckets_one_market_over_the_window_it_was_asked_for() {
    let tasks = [
        task(now().plus_minutes(-(23 * 60 + 30)), 100, TaskStatus::Open, &["python"]),
        task(now().plus_minutes(-30), 250, TaskStatus::Open, &["python"]),
        task(now().plus_minutes(-60 * 2), 999, TaskStatus::Open, &["rust"]),
        task(now().plus_minutes(-60 * 2), 999, TaskStatus::Open, &[]),
    ];
    let out = series(&tasks, ask(Some("python"), Some(86_400_000), Some(24)));

    assert_eq!(out.buckets, 24);
    assert_eq!(out.posted, 2);
    assert_eq!(out.bounty, 350);
    assert_eq!(out.bounty_series.iter().sum::<u64>(), 350);
    assert_eq!(out.bounty_series[0], 100);
    assert_eq!(out.bounty_series[23], 250);
    assert_eq!(out.end_ms - out.start_ms, 86_400_000);
}

#[test]
fn a_window_shorter_than_the_market_drops_what_falls_outside_it() {
    let tasks = [
        task(now().plus_minutes(-1_440 * 10), 500, TaskStatus::Open, &["ocr"]),
        task(now().plus_minutes(-60 * 2), 70, TaskStatus::Open, &["ocr"]),
    ];
    let day = series(&tasks, ask(Some("ocr"), Some(86_400_000), Some(24)));
    assert_eq!(day.posted, 1);
    assert_eq!(day.bounty, 70);
    assert_eq!(day.open, 2);
    assert_eq!(day.open_bounty, 570);
}

#[test]
fn a_series_defaults_its_window_to_the_market_not_the_board() {
    let tasks = [
        task(now().plus_minutes(-1_440 * 60), 1, TaskStatus::Open, &["labeling"]),
        task(now().plus_minutes(-30), 1, TaskStatus::Open, &["vision"]),
    ];
    assert_eq!(series(&tasks, ask(Some("vision"), None, None)).window_ms, 3_600_000, "1H");
    assert_eq!(series(&tasks, ask(Some("labeling"), None, None)).window_ms, 7_776_000_000, "90D");
}

#[test]
fn an_untagged_request_charts_the_whole_board() {
    let tasks = [
        task(now().plus_minutes(-60 * 2), 10, TaskStatus::Open, &["python"]),
        task(now().plus_minutes(-60 * 2), 20, TaskStatus::Open, &[]),
    ];
    let out = series(&tasks, ask(None, Some(86_400_000), Some(24)));
    assert_eq!(out.posted, 2, "an untagged task is still a task on the board");
    assert_eq!(out.bounty, 30);
    assert!(out.capability.is_none());
}

#[test]
fn series_bounds_are_clamped_rather_than_trusted() {
    let tasks = [task(now().plus_minutes(-60 * 1), 1, TaskStatus::Open, &["python"])];
    assert_eq!(series(&tasks, ask(Some("python"), Some(86_400_000), Some(100_000))).buckets, MAX_SERIES_BUCKETS);
    assert_eq!(series(&tasks, ask(Some("python"), Some(86_400_000), Some(0))).buckets, 1);
    assert_eq!(series(&tasks, ask(Some("python"), Some(0), Some(24))).window_ms, MIN_SERIES_WINDOW_MS);
}

#[test]
fn a_market_that_has_never_traded_answers_empty_rather_than_failing() {
    let tasks = [task(now().plus_minutes(-60 * 1), 5, TaskStatus::Open, &["python"])];
    let out = series(&tasks, ask(Some("nonesuch"), Some(86_400_000), Some(12)));
    assert_eq!(out.posted, 0);
    assert_eq!(out.bounty_series, vec![0; 12], "a flat line, not a missing one");
    assert!(out.first_task_at.is_none());
}

#[test]
fn picks_the_smallest_window_covering_the_board() {
    let recent = [task(now().plus_minutes(-20), 1, TaskStatus::Open, &[])];
    assert_eq!(summarize(&recent).window_ms, 3_600_000, "1H");

    let older = [task(now().plus_minutes(-60 * 30), 1, TaskStatus::Open, &[])];
    assert_eq!(summarize(&older).window_ms, 604_800_000, "7D");
}

#[test]
fn an_empty_board_gets_the_default_window_not_the_narrowest() {
    assert_eq!(summarize(&[]).window_ms, SUMMARY_DEFAULT_WINDOW_MS);
    assert_eq!(summarize(&[]).total_tasks, 0);
}

#[test]
fn a_future_dated_task_does_not_collapse_the_window() {
    let skewed = [task(now().plus_minutes(60 * 5), 1, TaskStatus::Open, &[])];
    assert_eq!(summarize(&skewed).window_ms, 3_600_000);
}

#[test]
fn buckets_tasks_by_when_they_were_posted() {
    let tasks = [
        task(now().plus_minutes(-50), 1, TaskStatus::Open, &[]),
        task(now().plus_minutes(-2), 1, TaskStatus::Open, &[]),
        task(now().plus_minutes(-1), 1, TaskStatus::Open, &[]),
    ];
    let summary = summarize(&tasks);
    assert_eq!(summary.window_ms, 3_600_000);
    assert_eq!(summary.buckets, SUMMARY_BUCKETS);
    assert_eq!(summary.totals.posted_series.iter().sum::<u64>(), 3);
    assert_eq!(summary.totals.posted_series[SUMMARY_BUCKETS - 1], 2);
    assert_eq!(summary.totals.posted_series[4], 1);
}

#[test]
fn drops_tasks_older_than_the_window_instead_of_piling_them_into_bucket_zero() {
    let tasks = [
        task(now().plus_minutes(-1_440 * 8), 1, TaskStatus::Open, &["python"]),
        task(now().plus_minutes(-1_440 * 1), 1, TaskStatus::Open, &["python"]),
    ];
    let summary = summarize(&tasks);
    assert_eq!(summary.window_ms, 2_592_000_000, "30D covers 8 days");
    assert_eq!(summary.totals.posted_series.iter().sum::<u64>(), 2);
    let far = [
        task(now().plus_minutes(-1_440 * 100), 1, TaskStatus::Open, &[]),
        task(now().plus_minutes(-1_440 * 1), 1, TaskStatus::Open, &[]),
    ];
    let summary = summarize(&far);
    assert_eq!(summary.window_ms, 7_776_000_000, "90D");
    assert_eq!(summary.totals.posted_series.iter().sum::<u64>(), 1);
    assert_eq!(summary.total_tasks, 2, "still counted, just not charted");
}

#[test]
fn separates_value_on_offer_from_value_settled() {
    let tasks = [
        task(now().plus_minutes(-60 * 1), 100, TaskStatus::Open, &[]),
        task(now().plus_minutes(-60 * 1), 700, TaskStatus::Paid, &[]),
        task(now().plus_minutes(-60 * 1), 500, TaskStatus::Claimed, &[]),
    ];
    let t = summarize(&tasks).totals;
    assert_eq!((t.open_tasks, t.open_bounty), (1, 100));
    assert_eq!((t.paid_tasks, t.paid_bounty), (1, 700));
}

#[test]
fn reports_every_kind_even_when_the_board_has_none_of_it() {
    let summary = summarize(&[task(now().plus_minutes(-60 * 1), 1, TaskStatus::Open, &[])]);
    let kinds: Vec<&str> = summary.kinds.iter().map(|k| k.kind).collect();
    assert_eq!(kinds, vec!["hash_match", "consensus", "disputable"]);
    let consensus = summary.kinds.iter().find(|k| k.kind == "consensus").unwrap();
    assert_eq!(consensus.posted, 0);
    assert_eq!(consensus.posted_series.len(), SUMMARY_BUCKETS);
}

#[test]
fn ranks_capabilities_by_value_on_offer() {
    let tasks = [
        task(now().plus_minutes(-60 * 1), 100, TaskStatus::Open, &["python"]),
        task(now().plus_minutes(-60 * 1), 900, TaskStatus::Open, &["ocr"]),
        task(now().plus_minutes(-60 * 1), 50, TaskStatus::Open, &["rust"]),
    ];
    let summary = summarize(&tasks);
    let order: Vec<&str> = summary.capabilities.iter().map(|c| c.capability.as_str()).collect();
    assert_eq!(order, vec!["ocr", "python", "rust"]);
}

#[test]
fn carries_both_an_activity_series_and_a_value_series_per_capability() {
    let tasks = [
        task(now().plus_minutes(-2), 400, TaskStatus::Open, &["python"]),
        task(now().plus_minutes(-1), 600, TaskStatus::Open, &["python"]),
    ];
    let summary = summarize(&tasks);
    let python = &summary.capabilities[0];
    assert_eq!(python.posted, 2);
    assert_eq!(python.open_bounty, 1000);
    assert_eq!(python.posted_series[SUMMARY_BUCKETS - 1], 2);
    assert_eq!(python.bounty_series[SUMMARY_BUCKETS - 1], 1000);
}

#[test]
fn counts_a_task_once_when_it_carries_the_same_tag_twice() {
    let tasks = [task(now().plus_minutes(-60 * 1), 250, TaskStatus::Open, &["ocr", "ocr"])];
    let summary = summarize(&tasks);
    assert_eq!(summary.capabilities.len(), 1);
    assert_eq!(summary.capabilities[0].posted, 1);
    assert_eq!(summary.capabilities[0].open_bounty, 250);
}

#[test]
fn untagged_tasks_belong_to_no_capability_but_still_count_in_the_totals() {
    let tasks = [task(now().plus_minutes(-60 * 1), 300, TaskStatus::Open, &[])];
    let summary = summarize(&tasks);
    assert!(summary.capabilities.is_empty());
    assert_eq!(summary.totals.open_bounty, 300);
}

/// A chart of one task, posted `offset` milliseconds into the window.
fn bucket_of_one(offset: u64, window: u64, buckets: usize) -> usize {
    let ago = (window - offset) as i128;
    let at = Timestamp { nanos: now().nanos - ago * NANOS_PER_MILLI };
    let out = series(&[task(at, 1, TaskStatus::Open, &[])], ask(None, Some(window), Some(buckets)));
    assert_eq!(out.posted, 1);
    out.posted_series.iter().position(|n| *n == 1).unwrap()
}

#[test]
fn a_bucket_is_divided_out_in_double_precision() {
    assert_eq!(bucket_of_one(20_000, 60_000, 21), 6, "a third of twenty-one buckets, rounded short");
    assert_eq!(bucket_of_one(114_689, 229_378, 14), 6, "half of fourteen buckets, rounded short");
    assert_eq!(bucket_of_one(0, 60_000, 21), 0);
    assert_eq!(bucket_of_one(60_000, 60_000, 21), 20, "the end of the window is in the last bucket");
    for window in [60_000u64, 86_399_999, 229_378, 9_007_199_254_740, 1_000_000_000_000_007] {
        for buckets in [1usize, 3, 7, 11, 14, 21, 96, 240] {
            for k in 0..=buckets as u64 {
                let edge = (window as u128 * k as u128 / buckets as u128) as u64;
                for offset in [edge.saturating_sub(1), edge, (edge + 1).min(window)] {
                    let width = window as f64 / buckets as f64;
                    let expected = ((offset as f64 / width) as usize).min(buckets - 1);
                    assert_eq!(bucket_of_one(offset, window, buckets), expected, "{offset} of {window} in {buckets}");
                }
            }
        }
    }
}

#[test]
fn buckets_of_the_longest_windows_are_those_of_doubles() {
    let far = 8_000_000_000_000_000u64;
    let end = Timestamp { nanos: far as i128 * NANOS_PER_MILLI };
    for window in [9_007_199_254_740_993u64, 9_223_372_036_854_775_807 / 2, 4_611_686_018_427_388_160] {
        for buckets in [7usize, 96, 240] {
            for ago in [1u64, 999_999_999_999_937, far - 1] {
                let at = Timestamp { nanos: end.nanos - ago as i128 * NANOS_PER_MILLI };
                let posted = task(at, 1, TaskStatus::Open, &[]);
                let out = series_for(&vec![&posted], &vec![], end, &ask(None, Some(window), Some(buckets)));
                let offset = (at.timestamp_millis() - (end.timestamp_millis() - window as i64)) as f64;
                let expected = ((offset / (window as f64 / buckets as f64)) as usize).min(buckets - 1);
                assert_eq!(out.posted_series[expected], 1, "{ago} before the end of {window} in {buckets}");
            }
        }
    }
}

fn board_of(tasks: Vec<Task>) -> TaskBoard {
    let mut board = TaskBoard::new();
    for t in tasks {
        board.restore_task(t);
    }
    board
}

const HALF: u64 = 1 << 63;

#[test]
fn bounties_that_no_figure_shows_do_not_count() {
    let old = now().plus_minutes(-60 * 24 * 365);
    let closed = |tags: &[&str]| task(old, HALF, TaskStatus::Closed, tags);
    let board = board_of(vec![closed(&["a"]), closed(&["a"]), task(now(), 5, TaskStatus::Open, &["a"])]);
    let summary = board_summary(&board, now()).unwrap();
    assert_eq!((summary.totals.open_bounty, summary.totals.paid_bounty, summary.total_tasks), (5, 0, 3));
    assert_eq!(summary.capabilities[0].bounty_series.iter().sum::<u64>(), 5);
    let chart = board_series(&board, now(), &ask(None, Some(3_600_000), None)).unwrap();
    assert_eq!((chart.bounty, chart.open_bounty, chart.posted), (5, 5, 1));

    let untagged = board_of(vec![task(now(), HALF, TaskStatus::Closed, &[]), task(now(), HALF, TaskStatus::Closed, &[])]);
    assert_eq!(board_summary(&untagged, now()).unwrap().totals.open_bounty, 0);
    assert!(board_series(&untagged, now(), &ask(None, Some(3_600_000), None)).is_none(), "what was posted is too much");
    assert_eq!(board_series(&untagged, now(), &ask(Some("a"), Some(3_600_000), None)).unwrap().bounty, 0);
}

#[test]
fn a_figure_that_is_too_large_is_not_shown() {
    let two = |status: TaskStatus, tags: &[&str]| board_of(vec![task(now(), HALF, status, tags), task(now(), HALF, status, tags)]);
    assert!(board_summary(&two(TaskStatus::Open, &[]), now()).is_none(), "what is on offer");
    assert!(board_summary(&two(TaskStatus::Paid, &[]), now()).is_none(), "what was paid");
    assert!(board_summary(&two(TaskStatus::Closed, &["a"]), now()).is_none(), "a tag's bounty in one bucket");
    let apart = board_of(vec![
        task(now(), HALF, TaskStatus::Closed, &["a"]),
        task(now().plus_minutes(-30), HALF, TaskStatus::Closed, &["a"]),
    ]);
    assert!(board_summary(&apart, now()).is_some(), "a tag's bounty in two buckets");
}
