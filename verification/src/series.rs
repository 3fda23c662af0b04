//! What one market has done over a window of time.
use crate::board::promises::{lemma_allocated_within_bounty, lemma_paid_and_owed};
use crate::board::queries::{capped, lemma_task_list, task_list};
use crate::board::tasks::sum_of;
use crate::board::types::{opt_text, Task, TaskStatus, TaskView};
use crate::board::{BoardView, TaskBoard};
use crate::double::lemma_parts_in;
use crate::market::{
    all_wf, and_open, bounty_if, bounty_of, bucket, bucket_of, every_task, milli_of, oldest, oldest_of, opt_instant,
    opt_int, pick_window, posting_slot, posting_slots, summarizes, summary_fits, tagged, try_summary, window_since, zeros,
    BoardSummaryDto,
};
use crate::seqs::{
    count, lemma_count_step, lemma_pick_step, lemma_total_at_most, lemma_total_not_negative, lemma_total_of_two,
    lemma_total_prefix, lemma_total_step, pick, total, views,
};
use crate::table::{lemma_row_count, rows_of, Table};
use crate::text::{trim, trimmed};
use crate::types::{PublicKey, Timestamp};
use vstd::prelude::*;
use vstd::string::*;

verus! {

/// How many points a series may have.
pub const MAX_SERIES_BUCKETS: usize = 240;

/// How many points a series has unless asked otherwise.
pub const DEFAULT_SERIES_BUCKETS: usize = 96;

/// The shortest window a series may cover, in milliseconds.
pub const MIN_SERIES_WINDOW_MS: u64 = 60_000;

/// What each payment of the hub costs.
pub const HUB_TRANSACTION_FEE: u64 = 1_000;

/// What one faucet grant is worth.
pub const FAUCET_GRANT_AMOUNT: u64 = 50_000_000;

/// What is asked of a market.
#[derive(Debug, Clone)]
pub struct SeriesQuery {
    /// Which market; the whole board if there is none.
    pub capability: Option<String>,
    /// How far back to reach, in milliseconds.
    pub window_ms: Option<u64>,
    pub buckets: Option<usize>,
}

/// What one market has done.
#[derive(Debug, Clone)]
pub struct MarketSeriesDto {
    pub capability: Option<String>,
    pub window_ms: u64,
    pub buckets: usize,
    /// The left edge of the first bucket and the right edge of the last, in
    /// milliseconds since the start of 1970.
    pub start_ms: i64,
    pub end_ms: i64,
    /// Tasks posted in each bucket, the oldest first.
    pub posted_series: Vec<u64>,
    /// Bounty posted in each bucket.
    pub bounty_series: Vec<u64>,
    /// Tasks settled in each bucket.
    pub settled_series: Vec<u64>,
    /// Bounty paid out in each bucket.
    pub paid_bounty_series: Vec<u64>,
    /// Different agents who posted or were paid in each bucket.
    pub agents_series: Vec<u64>,
    /// Fees paid to settle in each bucket.
    pub fees_series: Vec<u64>,
    /// Faucet grants in each bucket, whatever the market.
    pub faucet_series: Vec<u64>,
    /// The same over the whole window.
    pub posted: u64,
    pub bounty: u64,
    pub settled: u64,
    pub paid_bounty: u64,
    /// Different agents over the whole window, each counted once.
    pub agents: u64,
    pub fees: u64,
    pub faucet_grants: u64,
    /// What the grants were worth.
    pub faucet_itx: u64,
    /// What is open now, whenever it was posted.
    pub open: u64,
    pub open_bounty: u64,
    /// When the market's first task was posted.
    pub first_task_at: Option<String>,
}

/// The amounts of the tasks that fall in the bucket `b`.
pub open spec fn amount_in(
    f: spec_fn(TaskView) -> int,
    slot: spec_fn(TaskView) -> Option<int>,
    b: int,
) -> spec_fn(TaskView) -> int {
    |t: TaskView|
        if slot(t) == Some(b) {
            f(t)
        } else {
            0
        }
}

/// The amounts of the tasks that fall in any bucket.
pub open spec fn amount_within(
    f: spec_fn(TaskView) -> int,
    slot: spec_fn(TaskView) -> Option<int>,
) -> spec_fn(TaskView) -> int {
    |t: TaskView|
        if slot(t) is Some {
            f(t)
        } else {
            0
        }
}

/// Whether `series` adds the amounts up in each bucket, and `sum` over all of
/// them.
pub open spec fn spreads(
    series: Seq<u64>,
    sum: u64,
    all: Seq<TaskView>,
    f: spec_fn(TaskView) -> int,
    slot: spec_fn(TaskView) -> Option<int>,
    buckets: int,
) -> bool {
    &&& series.len() == buckets
    &&& forall|b: int| 0 <= b < buckets ==> (#[trigger] series[b]) == total(all, amount_in(f, slot, b))
    &&& sum == total(all, amount_within(f, slot))
}

proof fn lemma_amount_step(
    all: Seq<TaskView>,
    f: spec_fn(TaskView) -> int,
    g: spec_fn(TaskView) -> int,
    i: int,
)
    requires
        0 <= i < all.len(),
        forall|t: TaskView| #[trigger] g(t) >= 0,
        forall|t: TaskView| #[trigger] g(t) <= f(t),
    ensures
        total(all.take(i + 1), g) == total(all.take(i), g) + g(all[i]),
        0 <= total(all.take(i), g),
        total(all.take(i + 1), g) <= total(all.take(i + 1), f) <= total(all, f),
{
    lemma_total_step(all, g, i);
    lemma_total_prefix(all, g, i);
    assert forall|t: TaskView| #[trigger] f(t) >= 0 by {
        assert(g(t) >= 0);
        assert(g(t) <= f(t));
    }
    lemma_total_prefix(all, f, i + 1);
    lemma_total_at_most(all.take(i + 1), g, f);
}

/// Adds amounts up by bucket, and over all buckets, unless they come to more
/// than sixty-four bits hold.
fn spread(
    amounts: &Vec<u128>,
    slots: &Vec<Option<usize>>,
    buckets: usize,
    Ghost(all): Ghost<Seq<TaskView>>,
    Ghost(f): Ghost<spec_fn(TaskView) -> int>,
    Ghost(slot): Ghost<spec_fn(TaskView) -> Option<int>>,
) -> (r: Option<(Vec<u64>, u64)>)
    requires
        amounts.len() == all.len(),
        slots.len() == all.len(),
        forall|i: int| 0 <= i < all.len() ==> (#[trigger] amounts@[i]) == f(all[i]),
        forall|i: int|
            0 <= i < all.len() ==> opt_int(#[trigger] slots@[i]) == slot(all[i]) && (slots@[i] is Some ==> slots@[i]->0
                < buckets),
        forall|t: TaskView| #[trigger] f(t) >= 0,
    ensures
        match r {
            Some((series, sum)) => spreads(series@, sum, all, f, slot, buckets as int),
            None => total(all, amount_within(f, slot)) > u64::MAX,
        },
{
    let mut series = zeros(buckets);
    let mut sum: u64 = 0;
    let ghost within = amount_within(f, slot);
    let mut i: usize = 0;
    assert(all.take(0) =~= Seq::empty());
    while i < amounts.len()
        invariant
            i <= all.len(),
            amounts.len() == all.len(),
            slots.len() == all.len(),
            forall|i: int| 0 <= i < all.len() ==> (#[trigger] amounts@[i]) == f(all[i]),
            forall|i: int|
                0 <= i < all.len() ==> opt_int(#[trigger] slots@[i]) == slot(all[i]) && (slots@[i] is Some
                    ==> slots@[i]->0 < buckets),
            forall|t: TaskView| #[trigger] f(t) >= 0,
            within == amount_within(f, slot),
            spreads(series@, sum, all.take(i as int), f, slot, buckets as int),
        decreases all.len() - i,
    {
        let ghost t = all[i as int];
        let ghost before = series@;
        proof {
            lemma_amount_step(all, within, within, i as int);
            assert forall|b: int| 0 <= b < buckets implies total(all.take(i + 1), amount_in(f, slot, b)) == (
            #[trigger] before[b]) + (if slot(t) == Some(b) {
                f(t)
            } else {
                0
            }) && total(all.take(i + 1), amount_in(f, slot, b)) <= total(all.take(i + 1), within) by {
                lemma_amount_step(all, within, amount_in(f, slot, b), i as int);
            }
        }
        match slots[i] {
            Some(b) => {
                assert(slot(t) == Some(b as int));
                assert(amounts@[i as int] == f(t));
                assert(total(all.take(i + 1), within) == sum + f(t));
                if amounts[i] > (u64::MAX - sum) as u128 {
                    return None;
                }
                let amount: u64 = amounts[i] as u64;
                assert(before[b as int] + f(t) <= u64::MAX);
                series[b] = series[b] + amount;
                sum = sum + amount;
            },
            None => {},
        }
        i += 1;
    }
    assert(all.take(i as int) =~= all);
    Some((series, sum))
}

/// Whether `agent` was paid by the task.
pub open spec fn is_paid_by(t: TaskView, agent: PublicKey) -> bool {
    exists|j: int| 0 <= j < t.paid_out().len() && (#[trigger] t.paid_out()[j]).0 == agent
}

/// Whether `agent` posted the task, or was paid by it, in the bucket `b`.
pub open spec fn takes_part(
    t: TaskView,
    agent: PublicKey,
    posting: spec_fn(TaskView) -> Option<int>,
    settling: spec_fn(TaskView) -> Option<int>,
    b: int,
) -> bool {
    (posting(t) == Some(b) && t.poster == agent) || (settling(t) == Some(b) && is_paid_by(t, agent))
}

/// Whether `agent` takes part in any of the tasks, in the bucket `b`.
pub open spec fn is_active(
    agent: PublicKey,
    all: Seq<TaskView>,
    posting: spec_fn(TaskView) -> Option<int>,
    settling: spec_fn(TaskView) -> Option<int>,
    b: int,
) -> bool {
    exists|i: int| 0 <= i < all.len() && takes_part(#[trigger] all[i], agent, posting, settling, b)
}

/// The agents who take part in any of the tasks, in the bucket `b`.
pub open spec fn agents_in(
    all: Seq<TaskView>,
    posting: spec_fn(TaskView) -> Option<int>,
    settling: spec_fn(TaskView) -> Option<int>,
    b: int,
) -> Set<PublicKey> {
    Set::new(|agent: PublicKey| is_active(agent, all, posting, settling, b))
}

/// All the buckets taken for one.
pub open spec fn any_slot(slot: spec_fn(TaskView) -> Option<int>) -> spec_fn(TaskView) -> Option<int> {
    |t: TaskView|
        if slot(t) is Some {
            Some(0int)
        } else {
            None
        }
}

/// Whether `known` holds the agents who take part in any of the tasks.
spec fn holds_agents(
    known: Table<PublicKey, bool>,
    all: Seq<TaskView>,
    posting: spec_fn(TaskView) -> Option<int>,
    settling: spec_fn(TaskView) -> Option<int>,
    b: int,
) -> bool {
    known.wf() && forall|k: PublicKey| #[trigger]
        known@.contains_key(k) <==> is_active(k, all, posting, settling, b)
}

proof fn lemma_active_step(
    agent: PublicKey,
    all: Seq<TaskView>,
    posting: spec_fn(TaskView) -> Option<int>,
    settling: spec_fn(TaskView) -> Option<int>,
    b: int,
    i: int,
)
    requires
        0 <= i < all.len(),
    ensures
        is_active(agent, all.take(i + 1), posting, settling, b) <==> is_active(
            agent,
            all.take(i),
            posting,
            settling,
            b,
        ) || takes_part(all[i], agent, posting, settling, b),
{
    let more = all.take(i + 1);
    let less = all.take(i);
    if is_active(agent, more, posting, settling, b) {
        let j = choose|j: int| 0 <= j < more.len() && takes_part(#[trigger] more[j], agent, posting, settling, b);
        if j < i {
            assert(takes_part(less[j], agent, posting, settling, b));
        }
    }
    if is_active(agent, less, posting, settling, b) {
        let j = choose|j: int| 0 <= j < less.len() && takes_part(#[trigger] less[j], agent, posting, settling, b);
        assert(takes_part(more[j], agent, posting, settling, b));
    }
    if takes_part(all[i], agent, posting, settling, b) {
        assert(takes_part(more[i], agent, posting, settling, b));
    }
}

/// How many different agents take part in the bucket `b`.
fn count_agents(
    tasks: &Vec<&Task>,
    posting_slots: &Vec<Option<usize>>,
    settling_slots: &Vec<Option<usize>>,
    b: usize,
    Ghost(posting): Ghost<spec_fn(TaskView) -> Option<int>>,
    Ghost(settling): Ghost<spec_fn(TaskView) -> Option<int>>,
) -> (n: u64)
    requires
        all_wf(views(tasks@)),
        posting_slots.len() == tasks.len(),
        settling_slots.len() == tasks.len(),
        forall|i: int| 0 <= i < tasks.len() ==> opt_int(#[trigger] posting_slots@[i]) == posting(views(tasks@)[i]),
        forall|i: int| 0 <= i < tasks.len() ==> opt_int(#[trigger] settling_slots@[i]) == settling(views(tasks@)[i]),
    ensures
        n == agents_in(views(tasks@), posting, settling, b as int).len(),
{
    let ghost all = views(tasks@);
    let mut known: Table<PublicKey, bool> = Table::new();
    let mut i: usize = 0;
    while i < tasks.len()
        invariant
            i <= tasks.len(),
            all == views(tasks@),
            all_wf(all),
            posting_slots.len() == tasks.len(),
            settling_slots.len() == tasks.len(),
            forall|i: int| 0 <= i < tasks.len() ==> opt_int(#[trigger] posting_slots@[i]) == posting(all[i]),
            forall|i: int| 0 <= i < tasks.len() ==> opt_int(#[trigger] settling_slots@[i]) == settling(all[i]),
            holds_agents(known, all.take(i as int), posting, settling, b as int),
        decreases tasks.len() - i,
    {
        let task = tasks[i];
        let ghost t = all[i as int];
        let ghost before = known@;
        let ghost posted = posting(t) == Some(b as int);
        let ghost settled = settling(t) == Some(b as int);
        proof {
            assert(t == task@ && t.wf());
            assert(opt_int(posting_slots@[i as int]) == posting(t));
            assert(opt_int(settling_slots@[i as int]) == settling(t));
        }
        if posting_slots[i] == Some(b) {
            known.insert(task.poster, true);
        }
        let ghost middle = known@;
        if settling_slots[i] == Some(b) {
            let legs = task.paid_payouts();
            let mut k: usize = 0;
            while k < legs.len()
                invariant
                    k <= legs.len(),
                    known.wf(),
                    forall|a: PublicKey| #[trigger]
                        known@.contains_key(a) <==> middle.contains_key(a) || exists|j: int|
                            0 <= j < k && (#[trigger] legs@[j]).0 == a,
                decreases legs.len() - k,
            {
                known.insert(legs[k].0, true);
                k += 1;
            }
            assert(forall|a: PublicKey| #[trigger] known@.contains_key(a) <==> middle.contains_key(a) || is_paid_by(t, a));
        }
        proof {
            assert forall|a: PublicKey| #[trigger] known@.contains_key(a) <==> is_active(
                a,
                all.take(i + 1),
                posting,
                settling,
                b as int,
            ) by {
                lemma_active_step(a, all, posting, settling, b as int, i as int);
                assert(before.contains_key(a) <==> is_active(a, all.take(i as int), posting, settling, b as int));
            }
        }
        i += 1;
    }
    proof {
        assert(all.take(i as int) =~= all);
        assert(known@.dom() =~= agents_in(all, posting, settling, b as int)) by {
            assert forall|a: PublicKey| known@.dom().contains(a) <==> agents_in(
                all,
                posting,
                settling,
                b as int,
            ).contains(a) by {
                assert(known@.contains_key(a) <==> is_active(a, all, posting, settling, b as int));
            }
        }
        lemma_row_count(known.rows());
    }
    known.len() as u64
}

/// A second in milliseconds, at the ends of sixty-four bits if it is beyond
/// them.
pub open spec fn saturated_milli(second: i64) -> int {
    if second * 1_000 > i64::MAX {
        i64::MAX as int
    } else if second * 1_000 < i64::MIN {
        i64::MIN as int
    } else {
        second * 1_000
    }
}

fn to_milli(second: i64) -> (ms: i128)
    ensures
        ms == saturated_milli(second),
{
    let ms: i128 = second as i128 * 1_000;
    if ms > i64::MAX as i128 {
        i64::MAX as i128
    } else if ms < i64::MIN as i128 {
        i64::MIN as i128
    } else {
        ms
    }
}

/// The grants that fall in the bucket `b`.
pub open spec fn granted_in(start: int, end: int, window: int, buckets: int, b: int) -> spec_fn(i64) -> bool {
    |second: i64| bucket(saturated_milli(second), start, end, window, buckets) == Some(b)
}

/// The grants that fall in the window.
pub open spec fn granted_within(start: int, end: int) -> spec_fn(i64) -> bool {
    |second: i64| start <= saturated_milli(second) <= end
}

/// Whether `series` counts the grants in each bucket, and `sum` in all of
/// them.
pub open spec fn counts_grants(
    series: Seq<u64>,
    sum: u64,
    grants: Seq<i64>,
    start: int,
    end: int,
    window: int,
    buckets: int,
) -> bool {
    &&& series.len() == buckets
    &&& forall|b: int| 0 <= b < buckets ==> (#[trigger] series[b]) == count(grants, granted_in(start, end, window, buckets, b))
    &&& sum == count(grants, granted_within(start, end))
}

/// Counts grants by bucket, and over all buckets.
fn grant_series(grants: &Vec<i64>, start: i128, end: i128, window: u64, buckets: usize) -> (r: (Vec<u64>, u64))
    requires
        0 < buckets <= 1000 <= window,
        end - start <= u64::MAX,
    ensures
        counts_grants(r.0@, r.1, grants@, start as int, end as int, window as int, buckets as int),
{
    let mut series = zeros(buckets);
    let mut sum: u64 = 0;
    let mut i: usize = 0;
    assert(grants@.take(0) =~= Seq::empty());
    while i < grants.len()
        invariant
            i <= grants.len(),
            0 < buckets <= 1000 <= window,
            end - start <= u64::MAX,
            sum <= i,
            counts_grants(
                series@,
                sum,
                grants@.take(i as int),
                start as int,
                end as int,
                window as int,
                buckets as int,
            ),
        decreases grants.len() - i,
    {
        let at = to_milli(grants[i]);
        let ghost before = series@;
        let ghost all = grants@;
        let ghost s = start as int;
        let ghost e = end as int;
        let ghost w = window as int;
        let ghost n = buckets as int;
        proof {
            assert(at == saturated_milli(grants@[i as int]));
            lemma_count_step(all, granted_within(s, e), i as int);
            assert forall|b: int| 0 <= b < buckets implies count(all.take(i + 1), granted_in(s, e, w, n, b)) == (
            #[trigger] before[b]) + (if bucket(at as int, s, e, w, n) == Some(b) {
                1int
            } else {
                0
            }) && before[b] <= i by {
                lemma_count_step(all, granted_in(s, e, w, n, b), i as int);
            }
        }
        match bucket_of(at, start, end, window, buckets) {
            Some(b) => {
                assert(before[b as int] <= i);
                series[b] = series[b] + 1;
                sum = sum + 1;
            },
            None => {},
        }
        i += 1;
    }
    assert(grants@.take(i as int) =~= grants@);
    (series, sum)
}

/// The market that is asked for: a tag that is more than white space, or the
/// whole board.
pub open spec fn market_tag(capability: Option<Seq<char>>) -> Option<Seq<char>> {
    match capability {
        Some(tag) => if trimmed(tag).len() > 0 {
            Some(tag)
        } else {
            None
        },
        None => None,
    }
}

/// The tasks of a market.
pub open spec fn in_market(all: Seq<TaskView>, tag: Option<Seq<char>>) -> Seq<TaskView> {
    pick(
        all,
        |t: TaskView|
            if tag is None || tagged(tag->0)(t) {
                Some(t)
            } else {
                None
            },
    )
}

/// The tasks of a market.
fn market_tasks<'a>(tasks: &Vec<&'a Task>, tag: Option<&str>) -> (matching: Vec<&'a Task>)
    requires
        all_wf(views(tasks@)),
    ensures
        views(matching@) == in_market(
            views(tasks@),
            match tag {
                Some(tag) => Some(tag@),
                None => None,
            },
        ),
        all_wf(views(matching@)),
{
    let ghost all = views(tasks@);
    let ghost name = match tag {
        Some(tag) => Some(tag@),
        None => None,
    };
    let ghost f = |t: TaskView|
        if name is None || tagged(name->0)(t) {
            Some(t)
        } else {
            None
        };
    let mut matching: Vec<&'a Task> = Vec::new();
    let mut i: usize = 0;
    assert(views(matching@) =~= pick(all.take(0), f));
    while i < tasks.len()
        invariant
            i <= tasks.len(),
            all == views(tasks@),
            all_wf(all),
            name == (match tag {
                Some(tag) => Some(tag@),
                None => None,
            }),
            f == (|t: TaskView|
                if name is None || tagged(name->0)(t) {
                    Some(t)
                } else {
                    None
                }),
            views(matching@) == pick(all.take(i as int), f),
            all_wf(views(matching@)),
        decreases tasks.len() - i,
    {
        let task = tasks[i];
        let ghost before = matching@;
        proof {
            lemma_pick_step(all, f, i as int);
            assert(all[i as int] == task@ && all[i as int].wf());
        }
        let keep = match tag {
            Some(tag) => task.capabilities.contains(tag),
            None => true,
        };
        if keep {
            matching.push(task);
            assert(views(matching@) =~= views(before).push(task@));
        }
        i += 1;
    }
    assert(all.take(i as int) =~= all);
    matching
}

/// The bucket in which a task was settled.
pub open spec fn settling_slot(start: int, end: int, window: int, buckets: int) -> spec_fn(TaskView) -> Option<int> {
    |t: TaskView|
        match t.settled_at {
            Some(at) => bucket(at.milli(), start, end, window, buckets),
            None => None,
        }
}

/// One for each task.
pub open spec fn one_each() -> spec_fn(TaskView) -> int {
    |t: TaskView| 1int
}

/// What each task has paid out.
pub open spec fn paid_out_of() -> spec_fn(TaskView) -> int {
    |t: TaskView| sum_of(t.paid_out())
}

/// What each task's payments cost in fees.
pub open spec fn fees_of() -> spec_fn(TaskView) -> int {
    |t: TaskView| t.paid_out().len() * HUB_TRANSACTION_FEE
}

/// The window that is asked for, and never less than the shortest.
pub open spec fn series_window(requested: Option<u64>, first: Option<Timestamp>, now: Timestamp) -> u64 {
    match requested {
        Some(w) => if w < MIN_SERIES_WINDOW_MS {
            MIN_SERIES_WINDOW_MS
        } else {
            w
        },
        None => window_since(first, now),
    }
}

/// How many points are asked for, between one and the most there may be.
pub open spec fn series_buckets(requested: Option<usize>) -> usize {
    match requested {
        Some(n) => if n < 1 {
            1
        } else if n > MAX_SERIES_BUCKETS {
            MAX_SERIES_BUCKETS
        } else {
            n
        },
        None => DEFAULT_SERIES_BUCKETS,
    }
}

/// A number of sixty-four bits read as one with a sign.
pub open spec fn signed(n: u64) -> int {
    if n <= i64::MAX {
        n as int
    } else {
        n - 0x1_0000_0000_0000_0000int
    }
}

/// Whether a window of that length starts at an instant of sixty-four bits.
pub open spec fn window_fits(requested: Option<u64>, now: Timestamp) -> bool {
    match requested {
        Some(w) => i64::MIN <= now.milli() - signed(series_window(Some(w), None, now)) <= i64::MAX,
        None => true,
    }
}

/// Whether the sums that a chart shows are numbers of sixty-four bits: the
/// bounty on offer and, within the window, the bounty that was posted, what was
/// paid out and the fees.
pub open spec fn figures_fit(all: Seq<TaskView>, now: Timestamp, query: SeriesQuery) -> bool {
    let m = in_market(all, market_tag(opt_text(query.capability)));
    let window = series_window(query.window_ms, oldest(m), now);
    let n = series_buckets(query.buckets) as int;
    let end = now.milli();
    let start = end - signed(window);
    let posting = posting_slot(start, end, window as int, n);
    let settling = settling_slot(start, end, window as int, n);
    &&& total(m, bounty_if(and_open(every_task()))) <= u64::MAX
    &&& total(m, amount_within(bounty_of(), posting)) <= u64::MAX
    &&& total(m, amount_within(paid_out_of(), settling)) <= u64::MAX
    &&& total(m, amount_within(fees_of(), settling)) <= u64::MAX
}

/// Whether `r` is what the market that `query` asks for has done up to `now`.
pub open spec fn charts(
    r: MarketSeriesDto,
    all: Seq<TaskView>,
    grants: Seq<i64>,
    now: Timestamp,
    query: SeriesQuery,
) -> bool {
    let tag = market_tag(opt_text(query.capability));
    let m = in_market(all, tag);
    let window = series_window(query.window_ms, oldest(m), now);
    let n = series_buckets(query.buckets) as int;
    let end = now.milli();
    let start = end - signed(window);
    let posting = posting_slot(start, end, window as int, n);
    let settling = settling_slot(start, end, window as int, n);
    &&& opt_text(r.capability) == tag
    &&& r.window_ms == window
    &&& r.buckets == n
    &&& r.start_ms == start
    &&& r.end_ms == end
    &&& spreads(r.posted_series@, r.posted, m, one_each(), posting, n)
    &&& spreads(r.bounty_series@, r.bounty, m, bounty_of(), posting, n)
    &&& spreads(r.settled_series@, r.settled, m, one_each(), settling, n)
    &&& spreads(r.paid_bounty_series@, r.paid_bounty, m, paid_out_of(), settling, n)
    &&& spreads(r.fees_series@, r.fees, m, fees_of(), settling, n)
    &&& r.agents_series.len() == n
    &&& forall|b: int|
        0 <= b < n ==> (#[trigger] r.agents_series@[b]) == agents_in(m, posting, settling, b).len()
    &&& r.agents == agents_in(m, any_slot(posting), any_slot(settling), 0).len()
    &&& counts_grants(r.faucet_series@, r.faucet_grants, grants, start, end, window as int, n)
    &&& r.faucet_itx == capped(r.faucet_grants * FAUCET_GRANT_AMOUNT)
    &&& r.open == count(m, and_open(every_task()))
    &&& r.open_bounty == total(m, bounty_if(and_open(every_task())))
    &&& opt_text(r.first_task_at) == opt_instant(oldest(m))
}

/// No more tasks fall in the buckets than there are.
proof fn lemma_one_each_within(all: Seq<TaskView>, slot: spec_fn(TaskView) -> Option<int>)
    ensures
        total(all, amount_within(one_each(), slot)) <= all.len(),
    decreases all.len(),
{
    if all.len() > 0 {
        lemma_one_each_within(all.drop_last(), slot);
    }
}

/// Together the tasks have paid out no more than their bounties.
pub proof fn lemma_paid_within_bounties(all: Seq<TaskView>)
    requires
        all_wf(all),
    ensures
        total(all, paid_out_of()) <= total(all, bounty_of()),
    decreases all.len(),
{
    if all.len() > 0 {
        let shorter = all.drop_last();
        assert forall|i: int| 0 <= i < shorter.len() implies (#[trigger] shorter[i]).wf() by {
            assert(shorter[i] == all[i]);
        }
        lemma_paid_within_bounties(shorter);
        let last = all[all.len() - 1];
        lemma_allocated_within_bounty(last);
        lemma_paid_and_owed(last);
    }
}

proof fn lemma_paid_out_is_not_negative()
    ensures
        forall|t: TaskView| #[trigger] paid_out_of()(t) >= 0,
{
    assert forall|t: TaskView| #[trigger] paid_out_of()(t) >= 0 by {
        lemma_total_not_negative(t.paid_out(), |p: (PublicKey, u64)| p.1 as int);
    }
}

/// One for each of `n` tasks.
fn ones(n: usize) -> (v: Vec<u128>)
    ensures
        v.len() == n,
        forall|i: int| 0 <= i < n ==> (#[trigger] v@[i]) == 1,
{
    let mut v: Vec<u128> = Vec::new();
    let mut i: usize = 0;
    while i < n
        invariant
            i <= n,
            v.len() == i,
            forall|j: int| 0 <= j < i ==> (#[trigger] v@[j]) == 1,
        decreases n - i,
    {
        v.push(1);
        i += 1;
    }
    v
}

/// The bounty of each task.
fn bounties(tasks: &Vec<&Task>) -> (v: Vec<u128>)
    ensures
        v.len() == tasks.len(),
        forall|i: int| 0 <= i < tasks.len() ==> (#[trigger] v@[i]) == bounty_of()(views(tasks@)[i]),
{
    let mut v: Vec<u128> = Vec::new();
    let mut i: usize = 0;
    while i < tasks.len()
        invariant
            i <= tasks.len(),
            v.len() == i,
            forall|j: int| 0 <= j < i ==> (#[trigger] v@[j]) == bounty_of()(views(tasks@)[j]),
        decreases tasks.len() - i,
    {
        v.push(tasks[i].bounty as u128);
        i += 1;
    }
    v
}

/// What each task has paid out, and what that cost in fees.
fn payments_of(tasks: &Vec<&Task>) -> (r: (Vec<u128>, Vec<u128>))
    requires
        all_wf(views(tasks@)),
    ensures
        r.0.len() == tasks.len(),
        r.1.len() == tasks.len(),
        forall|i: int| 0 <= i < tasks.len() ==> (#[trigger] r.0@[i]) == paid_out_of()(views(tasks@)[i]),
        forall|i: int| 0 <= i < tasks.len() ==> (#[trigger] r.1@[i]) == fees_of()(views(tasks@)[i]),
{
    let ghost all = views(tasks@);
    let mut paid: Vec<u128> = Vec::new();
    let mut fees: Vec<u128> = Vec::new();
    let mut i: usize = 0;
    while i < tasks.len()
        invariant
            i <= tasks.len(),
            all == views(tasks@),
            all_wf(all),
            paid.len() == i,
            fees.len() == i,
            forall|j: int| 0 <= j < i ==> (#[trigger] paid@[j]) == paid_out_of()(all[j]),
            forall|j: int| 0 <= j < i ==> (#[trigger] fees@[j]) == fees_of()(all[j]),
        decreases tasks.len() - i,
    {
        let task = tasks[i];
        proof {
            assert(all[i as int] == task@ && all[i as int].wf());
            assert(paid_out_of()(all[i as int]) == sum_of(task@.paid_out()));
            assert(fees_of()(all[i as int]) == task@.paid_out().len() * HUB_TRANSACTION_FEE);
        }
        let legs = task.paid_payouts();
        paid.push(task.confirmed_payout_total() as u128);
        fees.push(legs.len() as u128 * HUB_TRANSACTION_FEE as u128);
        i += 1;
    }
    (paid, fees)
}

/// The bucket in which each task was settled.
fn settling_slots(tasks: &Vec<&Task>, start: i128, end: i128, window: u64, buckets: usize) -> (slots: Vec<Option<usize>>)
    requires
        0 < buckets <= 1000 <= window,
        end - start <= u64::MAX,
    ensures
        slots.len() == tasks.len(),
        forall|i: int|
            0 <= i < tasks.len() ==> opt_int(#[trigger] slots@[i]) == settling_slot(
                start as int,
                end as int,
                window as int,
                buckets as int,
            )(views(tasks@)[i]) && (slots@[i] is Some ==> slots@[i]->0 < buckets),
{
    let mut slots: Vec<Option<usize>> = Vec::new();
    let mut i: usize = 0;
    while i < tasks.len()
        invariant
            i <= tasks.len(),
            0 < buckets <= 1000 <= window,
            end - start <= u64::MAX,
            slots.len() == i,
            forall|j: int|
                0 <= j < i ==> opt_int(#[trigger] slots@[j]) == settling_slot(
                    start as int,
                    end as int,
                    window as int,
                    buckets as int,
                )(views(tasks@)[j]) && (slots@[j] is Some ==> slots@[j]->0 < buckets),
        decreases tasks.len() - i,
    {
        slots.push(
            match tasks[i].settled_at {
                Some(at) => bucket_of(milli_of(&at), start, end, window, buckets),
                None => None,
            },
        );
        i += 1;
    }
    slots
}

/// All the buckets taken for one.
fn collapsed(
    slots: &Vec<Option<usize>>,
    Ghost(all): Ghost<Seq<TaskView>>,
    Ghost(slot): Ghost<spec_fn(TaskView) -> Option<int>>,
) -> (whole: Vec<Option<usize>>)
    requires
        slots.len() == all.len(),
        forall|i: int| 0 <= i < all.len() ==> opt_int(#[trigger] slots@[i]) == slot(all[i]),
    ensures
        whole.len() == all.len(),
        forall|i: int| 0 <= i < all.len() ==> opt_int(#[trigger] whole@[i]) == any_slot(slot)(all[i]),
{
    let mut whole: Vec<Option<usize>> = Vec::new();
    let mut i: usize = 0;
    while i < slots.len()
        invariant
            i <= all.len(),
            slots.len() == all.len(),
            forall|i: int| 0 <= i < all.len() ==> opt_int(#[trigger] slots@[i]) == slot(all[i]),
            whole.len() == i,
            forall|j: int| 0 <= j < i ==> opt_int(#[trigger] whole@[j]) == any_slot(slot)(all[j]),
        decreases all.len() - i,
    {
        assert(opt_int(slots@[i as int]) == slot(all[i as int]));
        whole.push(
            match slots[i] {
                Some(_) => Some(0),
                None => None,
            },
        );
        i += 1;
    }
    whole
}

/// How many tasks are open, and their bounty, unless that is more than
/// sixty-four bits hold.
fn open_now(tasks: &Vec<&Task>) -> (r: Option<(u64, u64)>)
    ensures
        match r {
            Some((open, bounty)) => {
                &&& open == count(views(tasks@), and_open(every_task()))
                &&& bounty == total(views(tasks@), bounty_if(and_open(every_task())))
            },
            None => total(views(tasks@), bounty_if(and_open(every_task()))) > u64::MAX,
        },
{
    let ghost all = views(tasks@);
    let ghost p = and_open(every_task());
    let mut open: u64 = 0;
    let mut bounty: u64 = 0;
    let mut i: usize = 0;
    assert(all.take(0) =~= Seq::empty());
    while i < tasks.len()
        invariant
            i <= tasks.len(),
            all == views(tasks@),
            p == and_open(every_task()),
            open == count(all.take(i as int), p),
            bounty == total(all.take(i as int), bounty_if(p)),
        decreases tasks.len() - i,
    {
        proof {
            lemma_count_step(all, p, i as int);
            lemma_amount_step(all, bounty_if(p), bounty_if(p), i as int);
        }
        if tasks[i].status == TaskStatus::Open {
            open = open + 1;
            match bounty.checked_add(tasks[i].bounty) {
                Some(more) => {
                    bounty = more;
                },
                None => {
                    return None;
                },
            }
        }
        i += 1;
    }
    assert(all.take(i as int) =~= all);
    Some((open, bounty))
}

/// What the market that `query` asks for has done up to `now`, given its
/// tasks, unless a figure is more than sixty-four bits hold.
fn chart(
    matching: &Vec<&Task>,
    grants: &Vec<i64>,
    now: Timestamp,
    query: &SeriesQuery,
    tag: Option<&str>,
    Ghost(all): Ghost<Seq<TaskView>>,
) -> (r: Option<MarketSeriesDto>)
    requires
        all_wf(views(matching@)),
        views(matching@) == in_market(all, market_tag(opt_text(query.capability))),
        market_tag(opt_text(query.capability)) == (match tag {
            Some(tag) => Some(tag@),
            None => None,
        }),
        window_fits(query.window_ms, now),
        now.valid(),
    ensures
        match r {
            Some(r) => figures_fit(all, now, *query) && charts(r, all, grants@, now, *query),
            None => !figures_fit(all, now, *query),
        },
{
    let ghost m = views(matching@);
    assert forall|i: int| 0 <= i < matching.len() implies (#[trigger] m[i]).created_at.valid() by {
        assert(m[i].wf());
    }
    let first = oldest_of(matching);
    let window: u64 = match query.window_ms {
        Some(w) => if w < MIN_SERIES_WINDOW_MS {
            MIN_SERIES_WINDOW_MS
        } else {
            w
        },
        None => pick_window(first, now),
    };
    let buckets: usize = match query.buckets {
        Some(n) => if n < 1 {
            1
        } else if n > MAX_SERIES_BUCKETS {
            MAX_SERIES_BUCKETS
        } else {
            n
        },
        None => DEFAULT_SERIES_BUCKETS,
    };
    let end_ms = now.timestamp_millis();
    let end: i128 = end_ms as i128;
    let start: i128 = if window <= i64::MAX as u64 {
        end - window as i128
    } else {
        end - (window as i128 - 0x1_0000_0000_0000_0000i128)
    };
    let ghost posting = posting_slot(start as int, end as int, window as int, buckets as int);
    let ghost settling = settling_slot(start as int, end as int, window as int, buckets as int);
    let posted_at = posting_slots(matching, start, end, window, buckets);
    let settled_at = settling_slots(matching, start, end, window, buckets);
    proof {
        lemma_paid_out_is_not_negative();
        lemma_one_each_within(m, posting);
        lemma_one_each_within(m, settling);
    }
    let each = ones(matching.len());
    let worth = bounties(matching);
    let (paid, cost) = payments_of(matching);
    let (posted_series, posted) = spread(
        &each,
        &posted_at,
        buckets,
        Ghost(m),
        Ghost(one_each()),
        Ghost(posting),
    ).unwrap();
    let (settled_series, settled) = spread(
        &each,
        &settled_at,
        buckets,
        Ghost(m),
        Ghost(one_each()),
        Ghost(settling),
    ).unwrap();
    let (bounty_series, bounty) = match spread(
        &worth,
        &posted_at,
        buckets,
        Ghost(m),
        Ghost(bounty_of()),
        Ghost(posting),
    ) {
        Some(sums) => sums,
        None => return None,
    };
    let (paid_bounty_series, paid_bounty) = match spread(
        &paid,
        &settled_at,
        buckets,
        Ghost(m),
        Ghost(paid_out_of()),
        Ghost(settling),
    ) {
        Some(sums) => sums,
        None => return None,
    };
    let (fees_series, fees) = match spread(
        &cost,
        &settled_at,
        buckets,
        Ghost(m),
        Ghost(fees_of()),
        Ghost(settling),
    ) {
        Some(sums) => sums,
        None => return None,
    };
    let (open, open_bounty) = match open_now(matching) {
        Some(now) => now,
        None => return None,
    };
    let mut agents_series: Vec<u64> = Vec::new();
    let mut b: usize = 0;
    while b < buckets
        invariant
            b <= buckets,
            m == views(matching@),
            all_wf(m),
            posted_at.len() == matching.len(),
            settled_at.len() == matching.len(),
            forall|i: int| 0 <= i < matching.len() ==> opt_int(#[trigger] posted_at@[i]) == posting(m[i]),
            forall|i: int| 0 <= i < matching.len() ==> opt_int(#[trigger] settled_at@[i]) == settling(m[i]),
            agents_series.len() == b,
            forall|j: int| 0 <= j < b ==> (#[trigger] agents_series@[j]) == agents_in(m, posting, settling, j).len(),
        decreases buckets - b,
    {
        agents_series.push(count_agents(matching, &posted_at, &settled_at, b, Ghost(posting), Ghost(settling)));
        b += 1;
    }
    let whole_posted = collapsed(&posted_at, Ghost(m), Ghost(posting));
    let whole_settled = collapsed(&settled_at, Ghost(m), Ghost(settling));
    let agents = count_agents(
        matching,
        &whole_posted,
        &whole_settled,
        0,
        Ghost(any_slot(posting)),
        Ghost(any_slot(settling)),
    );
    let (faucet_series, faucet_grants) = grant_series(grants, start, end, window, buckets);
    let issued: u128 = faucet_grants as u128 * FAUCET_GRANT_AMOUNT as u128;
    Some(
        MarketSeriesDto {
            capability: match tag {
                Some(tag) => Some(tag.to_owned()),
                None => None,
            },
            window_ms: window,
            buckets,
            start_ms: start as i64,
            end_ms,
            posted_series,
            bounty_series,
            settled_series,
            paid_bounty_series,
            agents_series,
            fees_series,
            faucet_series,
            posted,
            bounty,
            settled,
            paid_bounty,
            agents,
            fees,
            faucet_grants,
            faucet_itx: if issued <= u64::MAX as u128 {
                issued as u64
            } else {
                u64::MAX
            },
            open,
            open_bounty,
            first_task_at: match first {
                Some(t) => Some(t.to_rfc3339()),
                None => None,
            },
        },
    )
}

/// The tag that is asked for, if it is more than white space.
fn asked_tag(query: &SeriesQuery) -> (tag: Option<&str>)
    ensures
        market_tag(opt_text(query.capability)) == (match tag {
            Some(tag) => Some(tag@),
            None => None,
        }),
{
    match &query.capability {
        Some(c) => if trim(c.as_str()).is_empty() {
            None
        } else {
            Some(c.as_str())
        },
        None => None,
    }
}

/// What the market that `query` asks for has done up to `now`.
pub fn series_for(tasks: &Vec<&Task>, faucet_grants: &Vec<i64>, now: Timestamp, query: &SeriesQuery) -> (r:
    MarketSeriesDto)
    requires
        all_wf(views(tasks@)),
        figures_fit(views(tasks@), now, *query),
        window_fits(query.window_ms, now),
        now.valid(),
    ensures
        charts(r, views(tasks@), faucet_grants@, now, *query),
{
    let tag = asked_tag(query);
    let matching = market_tasks(tasks, tag);
    chart(&matching, faucet_grants, now, query, tag, Ghost(views(tasks@))).unwrap()
}

/// Whether a window of that length starts at an instant of sixty-four bits.
fn does_window_fit(requested: Option<u64>, now: Timestamp) -> (r: bool)
    requires
        now.valid(),
    ensures
        r == window_fits(requested, now),
{
    match requested {
        None => true,
        Some(w) => {
            let end: i128 = now.timestamp_millis() as i128;
            let start: i128 = if w < MIN_SERIES_WINDOW_MS {
                end - MIN_SERIES_WINDOW_MS as i128
            } else if w <= i64::MAX as u64 {
                end - w as i128
            } else {
                end - (w as i128 - 0x1_0000_0000_0000_0000i128)
            };
            i64::MIN as i128 <= start && start <= i64::MAX as i128
        },
    }
}

/// When the faucet's grants were made.
pub open spec fn grant_seconds(b: BoardView) -> Seq<i64> {
    rows_of(b.faucet_grants).map_values(|row: (PublicKey, i64)| row.1)
}

/// What the market that `query` asks for has done up to `now`, read off the
/// board. `None` if a figure that it shows is not a number of sixty-four bits.
pub fn board_series(board: &TaskBoard, now: Timestamp, query: &SeriesQuery) -> (r: Option<MarketSeriesDto>)
    requires
        board.wf(),
        now.valid(),
    ensures
        ({
            let all = task_list(board@);
            let fits = window_fits(query.window_ms, now) && figures_fit(all, now, *query);
            match r {
                Some(r) => fits && charts(r, all, grant_seconds(board@), now, *query),
                None => !fits,
            }
        }),
{
    proof {
        board.lemma_view_wf();
        lemma_task_list(board@);
    }
    let tasks = board.all_tasks();
    let tag = asked_tag(query);
    let matching = market_tasks(&tasks, tag);
    if !does_window_fit(query.window_ms, now) {
        return None;
    }
    let grants = board.faucet_grant_times();
    chart(&matching, &grants, now, query, tag, Ghost(views(tasks@)))
}

/// What the board looks like at `now`. `None` if a figure that it shows is not a
/// number of sixty-four bits.
pub fn board_summary(board: &TaskBoard, now: Timestamp) -> (r: Option<BoardSummaryDto>)
    requires
        board.wf(),
        now.valid(),
    ensures
        match r {
            Some(r) => summary_fits(task_list(board@), now) && summarizes(r, task_list(board@), now),
            None => !summary_fits(task_list(board@), now),
        },
{
    proof {
        board.lemma_view_wf();
        lemma_task_list(board@);
    }
    let tasks = board.all_tasks();
    try_summary(&tasks, now)
}

/// The sum of a series.
pub open spec fn series_sum(series: Seq<u64>) -> int {
    total(series, |n: u64| n as int)
}

/// The amounts that fall in a bucket before `k`.
spec fn amount_before<A>(f: spec_fn(A) -> int, slot: spec_fn(A) -> Option<int>, k: int) -> spec_fn(A) -> int {
    |a: A|
        if slot(a) is Some && slot(a)->0 < k {
            f(a)
        } else {
            0
        }
}

/// The amounts that fall in the bucket `b`.
spec fn amount_at<A>(f: spec_fn(A) -> int, slot: spec_fn(A) -> Option<int>, b: int) -> spec_fn(A) -> int {
    |a: A|
        if slot(a) == Some(b) {
            f(a)
        } else {
            0
        }
}

proof fn lemma_buckets_add_up<A>(
    series: Seq<u64>,
    all: Seq<A>,
    f: spec_fn(A) -> int,
    slot: spec_fn(A) -> Option<int>,
    k: int,
)
    requires
        0 <= k <= series.len(),
        forall|a: A| #[trigger] slot(a) is Some ==> slot(a)->0 >= 0,
        forall|b: int| 0 <= b < series.len() ==> (#[trigger] series[b]) == total(all, amount_at(f, slot, b)),
    ensures
        series_sum(series.take(k)) == total(all, amount_before(f, slot, k)),
    decreases k,
{
    let each = |n: u64| n as int;
    if k == 0 {
        lemma_total_none(all, amount_before(f, slot, 0));
    } else {
        lemma_buckets_add_up(series, all, f, slot, k - 1);
        lemma_total_step(series, each, k - 1);
        assert(series[k - 1] == total(all, amount_at(f, slot, k - 1)));
        lemma_total_of_two(
            all,
            amount_before(f, slot, k),
            amount_before(f, slot, k - 1),
            amount_at(f, slot, k - 1),
        );
    }
}

proof fn lemma_total_none<A>(all: Seq<A>, f: spec_fn(A) -> int)
    requires
        forall|a: A| #[trigger] f(a) == 0,
    ensures
        total(all, f) == 0,
    decreases all.len(),
{
    if all.len() > 0 {
        lemma_total_none(all.drop_last(), f);
    }
}

/// A bucket is one of those there are.
proof fn lemma_bucket_range(at: int, start: int, end: int, window: int, buckets: int)
    requires
        0 < buckets <= 1000 <= window,
    ensures
        match bucket(at, start, end, window, buckets) {
            Some(b) => 0 <= b < buckets,
            None => true,
        },
{
    if start <= at {
        lemma_parts_in(at - start, window, buckets);
    }
}

proof fn lemma_spread_adds_up(
    series: Seq<u64>,
    sum: u64,
    all: Seq<TaskView>,
    f: spec_fn(TaskView) -> int,
    slot: spec_fn(TaskView) -> Option<int>,
    buckets: int,
)
    requires
        spreads(series, sum, all, f, slot, buckets),
        forall|t: TaskView| #[trigger] slot(t) is Some ==> 0 <= slot(t)->0 < buckets,
    ensures
        series_sum(series) == sum,
{
    assert forall|b: int| 0 <= b < series.len() implies (#[trigger] series[b]) == total(all, amount_at(f, slot, b)) by {
        assert(amount_at(f, slot, b) =~= amount_in(f, slot, b));
    }
    lemma_buckets_add_up(series, all, f, slot, buckets);
    assert(series.take(buckets) =~= series);
    assert(amount_before(f, slot, buckets) =~= amount_within(f, slot));
}

/// A chart adds up: the points of a series make the figure that is shown for
/// all of the window. The agents are the exception, for one may be at work in
/// many buckets.
pub proof fn lemma_chart_adds_up(
    r: MarketSeriesDto,
    all: Seq<TaskView>,
    grants: Seq<i64>,
    now: Timestamp,
    query: SeriesQuery,
)
    requires
        charts(r, all, grants, now, query),
    ensures
        series_sum(r.posted_series@) == r.posted,
        series_sum(r.bounty_series@) == r.bounty,
        series_sum(r.settled_series@) == r.settled,
        series_sum(r.paid_bounty_series@) == r.paid_bounty,
        series_sum(r.fees_series@) == r.fees,
        series_sum(r.faucet_series@) == r.faucet_grants,
{
    let tag = market_tag(opt_text(query.capability));
    let m = in_market(all, tag);
    let window = series_window(query.window_ms, oldest(m), now) as int;
    let n = series_buckets(query.buckets) as int;
    let end = now.milli();
    let start = end - signed(window as u64);
    let posting = posting_slot(start, end, window, n);
    let settling = settling_slot(start, end, window, n);
    assert(0 < n <= 1000 <= window);
    assert forall|t: TaskView| #[trigger] posting(t) is Some implies 0 <= posting(t)->0 < n by {
        lemma_bucket_range(t.created_at.milli(), start, end, window, n);
    }
    assert forall|t: TaskView| #[trigger] settling(t) is Some implies 0 <= settling(t)->0 < n by {
        lemma_bucket_range(t.settled_at->0.milli(), start, end, window, n);
    }
    lemma_spread_adds_up(r.posted_series@, r.posted, m, one_each(), posting, n);
    lemma_spread_adds_up(r.bounty_series@, r.bounty, m, bounty_of(), posting, n);
    lemma_spread_adds_up(r.settled_series@, r.settled, m, one_each(), settling, n);
    lemma_spread_adds_up(r.paid_bounty_series@, r.paid_bounty, m, paid_out_of(), settling, n);
    lemma_spread_adds_up(r.fees_series@, r.fees, m, fees_of(), settling, n);
    let one = |second: i64| 1int;
    let slot = |second: i64| bucket(saturated_milli(second), start, end, window, n);
    assert forall|second: i64| #[trigger] slot(second) is Some implies 0 <= slot(second)->0 < n by {
        lemma_bucket_range(saturated_milli(second), start, end, window, n);
    }
    assert forall|b: int| 0 <= b < n implies (#[trigger] r.faucet_series@[b]) == total(
        grants,
        amount_at(one, slot, b),
    ) by {
        let p = granted_in(start, end, window, n, b);
        assert(amount_at(one, slot, b) =~= (|a: i64| if p(a) { 1int } else { 0 }));
    }
    lemma_buckets_add_up(r.faucet_series@, grants, one, slot, n);
    assert(r.faucet_series@.take(n) =~= r.faucet_series@);
    let p = granted_within(start, end);
    assert(amount_before(one, slot, n) =~= (|a: i64| if p(a) { 1int } else { 0 }));
}

/// Grants of the faucet belong to the whole board: two charts that differ in
/// the market they show, and in nothing else that is asked for, show the same
/// grants. A window is asked for, as it would otherwise begin with the market's
/// own first task.
pub proof fn lemma_grants_ignore_the_market(
    r: MarketSeriesDto,
    s: MarketSeriesDto,
    all: Seq<TaskView>,
    grants: Seq<i64>,
    now: Timestamp,
    a: SeriesQuery,
    b: SeriesQuery,
)
    requires
        charts(r, all, grants, now, a),
        charts(s, all, grants, now, b),
        a.window_ms is Some,
        a.window_ms == b.window_ms,
        a.buckets == b.buckets,
    ensures
        r.faucet_series@ == s.faucet_series@,
        r.faucet_grants == s.faucet_grants,
        r.faucet_itx == s.faucet_itx,
{
    assert(r.faucet_series@ =~= s.faucet_series@);
}

}
