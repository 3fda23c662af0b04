//! What the board looks like: what is on offer, what was settled, and how
//! both went over time.
use crate::board::types::{opt_text, KindView, Task, TaskKind, TaskStatus, TaskView};
use crate::double::{lemma_parts_in, part_of, parts_in};
use crate::seqs::{count, lemma_count_step, lemma_total_at_most, lemma_total_prefix, lemma_total_step, total, views};
use crate::sort::{lemma_ordered, order_of, ordered, stable_order, SortKey};
use crate::tags::{ascending_names, Tags};
use crate::types::{floor_div, Timestamp, NANOS_PER_MILLI};
use vstd::prelude::*;
use vstd::string::*;

verus! {

/// How many points every series of a summary has.
pub const SUMMARY_BUCKETS: usize = 24;

/// The windows a summary picks from, in milliseconds: an hour, six, a day, a
/// week, thirty days, ninety.
pub const SUMMARY_WINDOWS_MS: [u64; 6] = [3_600_000, 21_600_000, 86_400_000, 604_800_000, 2_592_000_000, 7_776_000_000];

/// The window of a board with nothing to measure.
pub const SUMMARY_DEFAULT_WINDOW_MS: u64 = 604_800_000;

/// Which of `buckets` equal parts of the window from `start` to `end` an
/// instant falls in, if it falls in the window. The length of a part, and how
/// often it goes into the time since `start`, are divided out in double
/// precision.
pub open spec fn bucket(at: int, start: int, end: int, window: int, buckets: int) -> Option<int> {
    if start <= at <= end {
        let b = parts_in(at - start, window, buckets);
        Some(
            if b < buckets {
                b
            } else {
                buckets - 1
            },
        )
    } else {
        None
    }
}

/// A bucket that may be missing, as a number.
pub open spec fn opt_int(b: Option<usize>) -> Option<int> {
    match b {
        Some(b) => Some(b as int),
        None => None,
    }
}

/// Which part of the window an instant falls in.
pub(crate) fn bucket_of(at: i128, start: i128, end: i128, window: u64, buckets: usize) -> (b: Option<usize>)
    requires
        0 < buckets <= 1000 <= window,
        end - start <= u64::MAX,
    ensures
        opt_int(b) == bucket(at as int, start as int, end as int, window as int, buckets as int),
        b is Some ==> b->0 < buckets,
{
    if at < start || at > end {
        return None;
    }
    proof {
        lemma_parts_in(at - start, window as int, buckets as int);
    }
    Some(part_of((at - start) as u64, window, buckets as u128) as usize)
}

/// The tasks of `p` that are open.
pub open spec fn and_open(p: spec_fn(TaskView) -> bool) -> spec_fn(TaskView) -> bool {
    |t: TaskView| p(t) && t.status == TaskStatus::Open
}

/// The tasks of `p` that fall in the bucket `b`.
pub open spec fn in_slot(
    p: spec_fn(TaskView) -> bool,
    slot: spec_fn(TaskView) -> Option<int>,
    b: int,
) -> spec_fn(TaskView) -> bool {
    |t: TaskView| p(t) && slot(t) == Some(b)
}

/// The bounty of the tasks of `p`.
pub open spec fn bounty_if(p: spec_fn(TaskView) -> bool) -> spec_fn(TaskView) -> int {
    |t: TaskView|
        if p(t) {
            t.bounty as int
        } else {
            0
        }
}

/// The bounty of every task.
pub open spec fn bounty_of() -> spec_fn(TaskView) -> int {
    |t: TaskView| t.bounty as int
}

/// What some of the tasks come to.
#[derive(Debug, Clone)]
pub struct Tally {
    pub posted: usize,
    pub open: usize,
    pub open_bounty: u64,
    /// How many fall in each bucket, the oldest first.
    pub posted_series: Vec<u64>,
}

/// Whether `r` is what the tasks of `p` come to.
pub open spec fn tallies(
    r: Tally,
    all: Seq<TaskView>,
    p: spec_fn(TaskView) -> bool,
    slot: spec_fn(TaskView) -> Option<int>,
    buckets: int,
) -> bool {
    &&& r.posted == count(all, p)
    &&& r.open == count(all, and_open(p))
    &&& r.open_bounty == total(all, bounty_if(and_open(p)))
    &&& counts_per_slot(r.posted_series@, all, p, slot, buckets)
}

/// Whether `series` counts the tasks of `p` in each bucket.
pub open spec fn counts_per_slot(
    series: Seq<u64>,
    all: Seq<TaskView>,
    p: spec_fn(TaskView) -> bool,
    slot: spec_fn(TaskView) -> Option<int>,
    buckets: int,
) -> bool {
    &&& series.len() == buckets
    &&& forall|b: int| 0 <= b < buckets ==> (#[trigger] series[b]) == count(all, in_slot(p, slot, b))
}

/// Whether `series` adds the bounty of the tasks of `p` up in each bucket.
pub open spec fn bounty_per_slot(
    series: Seq<u64>,
    all: Seq<TaskView>,
    p: spec_fn(TaskView) -> bool,
    slot: spec_fn(TaskView) -> Option<int>,
    buckets: int,
) -> bool {
    &&& series.len() == buckets
    &&& forall|b: int| 0 <= b < buckets ==> (#[trigger] series[b]) == total(all, bounty_if(in_slot(p, slot, b)))
}

/// As many zeros.
pub(crate) fn zeros(n: usize) -> (z: Vec<u64>)
    ensures
        z.len() == n,
        forall|i: int| 0 <= i < n ==> (#[trigger] z@[i]) == 0,
{
    let mut z: Vec<u64> = Vec::new();
    let mut i: usize = 0;
    while i < n
        invariant
            i <= n,
            z.len() == i,
            forall|j: int| 0 <= j < i ==> (#[trigger] z@[j]) == 0,
        decreases n - i,
    {
        z.push(0);
        i += 1;
    }
    z
}

proof fn lemma_bounty_step(all: Seq<TaskView>, p: spec_fn(TaskView) -> bool, i: int)
    requires
        0 <= i < all.len(),
    ensures
        total(all.take(i + 1), bounty_if(p)) == total(all.take(i), bounty_if(p)) + (if p(all[i]) {
            all[i].bounty as int
        } else {
            0
        }),
        0 <= total(all.take(i), bounty_if(p)),
        total(all.take(i + 1), bounty_if(p)) <= total(all, bounty_if(p)),
{
    lemma_total_step(all, bounty_if(p), i);
    lemma_total_prefix(all, bounty_if(p), i);
    lemma_total_prefix(all, bounty_if(p), i + 1);
}

/// Adds up the bounty of the tasks that are flagged, unless it is more than
/// sixty-four bits hold.
fn bounty_sum(tasks: &Vec<&Task>, flags: &Vec<bool>, Ghost(p): Ghost<spec_fn(TaskView) -> bool>) -> (sum: Option<u64>)
    requires
        flags.len() == tasks.len(),
        forall|i: int| 0 <= i < tasks.len() ==> (#[trigger] flags@[i]) == p(views(tasks@)[i]),
    ensures
        match sum {
            Some(n) => n == total(views(tasks@), bounty_if(p)),
            None => total(views(tasks@), bounty_if(p)) > u64::MAX,
        },
{
    let ghost all = views(tasks@);
    let mut sum: u64 = 0;
    let mut i: usize = 0;
    assert(all.take(0) =~= Seq::empty());
    while i < tasks.len()
        invariant
            i <= tasks.len(),
            all == views(tasks@),
            flags.len() == tasks.len(),
            forall|j: int| 0 <= j < tasks.len() ==> (#[trigger] flags@[j]) == p(all[j]),
            sum == total(all.take(i as int), bounty_if(p)),
        decreases tasks.len() - i,
    {
        let task = tasks[i];
        proof {
            assert(all[i as int] == task@);
            lemma_bounty_step(all, p, i as int);
        }
        if flags[i] {
            match sum.checked_add(task.bounty) {
                Some(more) => {
                    sum = more;
                },
                None => {
                    return None;
                },
            }
        }
        i += 1;
    }
    assert(all.take(i as int) =~= all);
    Some(sum)
}

/// Adds the bounty of the tasks that are flagged up in each bucket, unless one
/// of the sums is more than sixty-four bits hold.
fn bounty_sums(
    tasks: &Vec<&Task>,
    flags: &Vec<bool>,
    slots: &Vec<Option<usize>>,
    buckets: usize,
    Ghost(p): Ghost<spec_fn(TaskView) -> bool>,
    Ghost(slot): Ghost<spec_fn(TaskView) -> Option<int>>,
) -> (sums: Option<Vec<u64>>)
    requires
        flags.len() == tasks.len(),
        slots.len() == tasks.len(),
        forall|i: int| 0 <= i < tasks.len() ==> (#[trigger] flags@[i]) == p(views(tasks@)[i]),
        forall|i: int|
            0 <= i < tasks.len() ==> opt_int(#[trigger] slots@[i]) == slot(views(tasks@)[i]) && (slots@[i] is Some
                ==> slots@[i]->0 < buckets),
    ensures
        match sums {
            Some(series) => bounty_per_slot(series@, views(tasks@), p, slot, buckets as int),
            None => exists|b: int|
                0 <= b < buckets && total(views(tasks@), bounty_if(#[trigger] in_slot(p, slot, b))) > u64::MAX,
        },
{
    let ghost all = views(tasks@);
    let mut series = zeros(buckets);
    let mut i: usize = 0;
    assert(all.take(0) =~= Seq::empty());
    while i < tasks.len()
        invariant
            i <= tasks.len(),
            all == views(tasks@),
            flags.len() == tasks.len(),
            slots.len() == tasks.len(),
            forall|j: int| 0 <= j < tasks.len() ==> (#[trigger] flags@[j]) == p(all[j]),
            forall|j: int|
                0 <= j < tasks.len() ==> opt_int(#[trigger] slots@[j]) == slot(all[j]) && (slots@[j] is Some
                    ==> slots@[j]->0 < buckets),
            bounty_per_slot(series@, all.take(i as int), p, slot, buckets as int),
        decreases tasks.len() - i,
    {
        let task = tasks[i];
        let ghost t = all[i as int];
        let ghost before = series@;
        proof {
            assert(t == task@);
            assert forall|b: int| 0 <= b < buckets implies total(
                all.take(i + 1),
                bounty_if(in_slot(p, slot, b)),
            ) == (#[trigger] before[b]) + (if p(t) && slot(t) == Some(b) {
                t.bounty as int
            } else {
                0
            }) && total(all.take(i + 1), bounty_if(in_slot(p, slot, b))) <= total(
                all,
                bounty_if(in_slot(p, slot, b)),
            ) by {
                lemma_bounty_step(all, in_slot(p, slot, b), i as int);
            }
        }
        if flags[i] {
            match slots[i] {
                Some(b) => {
                    assert(slot(t) == Some(b as int));
                    match series[b].checked_add(task.bounty) {
                        Some(more) => {
                            series[b] = more;
                        },
                        None => {
                            assert(before[b as int] + t.bounty > u64::MAX);
                            assert(total(all, bounty_if(in_slot(p, slot, b as int))) > u64::MAX);
                            return None;
                        },
                    }
                },
                None => {},
            }
        }
        i += 1;
    }
    assert(all.take(i as int) =~= all);
    Some(series)
}

/// Adds up the tasks that are flagged, unless the bounty of the open ones is
/// more than sixty-four bits hold.
fn tally(
    tasks: &Vec<&Task>,
    flags: &Vec<bool>,
    slots: &Vec<Option<usize>>,
    buckets: usize,
    Ghost(p): Ghost<spec_fn(TaskView) -> bool>,
    Ghost(slot): Ghost<spec_fn(TaskView) -> Option<int>>,
) -> (r: Option<Tally>)
    requires
        flags.len() == tasks.len(),
        slots.len() == tasks.len(),
        forall|i: int| 0 <= i < tasks.len() ==> (#[trigger] flags@[i]) == p(views(tasks@)[i]),
        forall|i: int|
            0 <= i < tasks.len() ==> opt_int(#[trigger] slots@[i]) == slot(views(tasks@)[i]) && (slots@[i] is Some
                ==> slots@[i]->0 < buckets),
    ensures
        match r {
            Some(r) => tallies(r, views(tasks@), p, slot, buckets as int),
            None => total(views(tasks@), bounty_if(and_open(p))) > u64::MAX,
        },
{
    let ghost all = views(tasks@);
    let mut posted: usize = 0;
    let mut open: usize = 0;
    let mut is_open: Vec<bool> = Vec::new();
    let mut posted_series = zeros(buckets);
    let mut i: usize = 0;
    assert(all.take(0) =~= Seq::empty());
    while i < tasks.len()
        invariant
            i <= tasks.len(),
            all == views(tasks@),
            flags.len() == tasks.len(),
            slots.len() == tasks.len(),
            forall|j: int| 0 <= j < tasks.len() ==> (#[trigger] flags@[j]) == p(all[j]),
            forall|j: int|
                0 <= j < tasks.len() ==> opt_int(#[trigger] slots@[j]) == slot(all[j]) && (slots@[j] is Some
                    ==> slots@[j]->0 < buckets),
            posted == count(all.take(i as int), p),
            open == count(all.take(i as int), and_open(p)),
            is_open.len() == i,
            forall|j: int| 0 <= j < i ==> (#[trigger] is_open@[j]) == and_open(p)(all[j]),
            counts_per_slot(posted_series@, all.take(i as int), p, slot, buckets as int),
        decreases tasks.len() - i,
    {
        let task = tasks[i];
        let ghost t = all[i as int];
        let ghost before = posted_series@;
        proof {
            assert(t == task@);
            lemma_count_step(all, p, i as int);
            lemma_count_step(all, and_open(p), i as int);
            assert forall|b: int| 0 <= b < buckets implies count(all.take(i + 1), in_slot(p, slot, b)) == (
            #[trigger] before[b]) + (if p(t) && slot(t) == Some(b) {
                1int
            } else {
                0
            }) && before[b] <= i by {
                lemma_count_step(all, in_slot(p, slot, b), i as int);
            }
        }
        let counts = flags[i] && task.status == TaskStatus::Open;
        is_open.push(counts);
        if flags[i] {
            posted = posted + 1;
            if counts {
                open = open + 1;
            }
            match slots[i] {
                Some(b) => {
                    assert(slot(t) == Some(b as int));
                    assert(before[b as int] <= i);
                    posted_series[b] = posted_series[b] + 1;
                },
                None => {},
            }
        }
        i += 1;
    }
    assert(all.take(i as int) =~= all);
    match bounty_sum(tasks, &is_open, Ghost(and_open(p))) {
        Some(open_bounty) => Some(Tally { posted, open, open_bounty, posted_series }),
        None => None,
    }
}

/// When the oldest of the tasks was posted.
pub open spec fn oldest(all: Seq<TaskView>) -> Option<Timestamp>
    decreases all.len(),
{
    if all.len() == 0 {
        None
    } else {
        match oldest(all.drop_last()) {
            Some(t) => Some(
                if all.last().created_at.nanos < t.nanos {
                    all.last().created_at
                } else {
                    t
                },
            ),
            None => Some(all.last().created_at),
        }
    }
}

/// When the oldest of the tasks was posted.
pub(crate) fn oldest_of(tasks: &Vec<&Task>) -> (first: Option<Timestamp>)
    requires
        forall|i: int| 0 <= i < tasks.len() ==> (#[trigger] views(tasks@)[i]).created_at.valid(),
    ensures
        first == oldest(views(tasks@)),
        first is Some ==> first->0.valid(),
{
    let ghost all = views(tasks@);
    let mut first: Option<Timestamp> = None;
    let mut i: usize = 0;
    while i < tasks.len()
        invariant
            i <= tasks.len(),
            all == views(tasks@),
            forall|i: int| 0 <= i < tasks.len() ==> (#[trigger] all[i]).created_at.valid(),
            first == oldest(all.take(i as int)),
            first is Some ==> first->0.valid(),
        decreases tasks.len() - i,
    {
        let at = tasks[i].created_at;
        proof {
            assert(all.take(i + 1).drop_last() =~= all.take(i as int));
            assert(all[i as int].created_at == at);
        }
        first = match first {
            Some(t) => Some(
                if at.nanos < t.nanos {
                    at
                } else {
                    t
                },
            ),
            None => Some(at),
        };
        i += 1;
    }
    assert(all.take(i as int) =~= all);
    first
}

/// The smallest window that holds `span` milliseconds, or the largest one.
pub open spec fn window_for(span: int) -> u64 {
    if span <= 3_600_000 {
        3_600_000
    } else if span <= 21_600_000 {
        21_600_000
    } else if span <= 86_400_000 {
        86_400_000
    } else if span <= 604_800_000 {
        604_800_000
    } else if span <= 2_592_000_000 {
        2_592_000_000
    } else {
        7_776_000_000
    }
}

/// The window that holds everything since `first`.
pub open spec fn window_since(first: Option<Timestamp>, now: Timestamp) -> u64 {
    match first {
        None => SUMMARY_DEFAULT_WINDOW_MS,
        Some(t) => window_for(
            if now.nanos >= t.nanos {
                (now.nanos - t.nanos) / NANOS_PER_MILLI as int
            } else {
                0
            },
        ),
    }
}

/// The window that holds everything since `first`.
pub(crate) fn pick_window(first: Option<Timestamp>, now: Timestamp) -> (window: u64)
    requires
        now.valid(),
        first is Some ==> first->0.valid(),
    ensures
        window == window_since(first, now),
        1000 <= window <= 7_776_000_000,
{
    match first {
        None => SUMMARY_DEFAULT_WINDOW_MS,
        Some(t) => {
            let span: i128 = if now.nanos >= t.nanos {
                (now.nanos - t.nanos) / NANOS_PER_MILLI
            } else {
                0
            };
            let mut i: usize = 0;
            while i < 5
                invariant
                    i <= 5,
                    i >= 1 ==> span > 3_600_000,
                    i >= 2 ==> span > 21_600_000,
                    i >= 3 ==> span > 86_400_000,
                    i >= 4 ==> span > 604_800_000,
                    i >= 5 ==> span > 2_592_000_000,
                    now.valid(),
                    first == Some(t),
                    span == if now.nanos >= t.nanos {
                        (now.nanos - t.nanos) / NANOS_PER_MILLI as int
                    } else {
                        0
                    },
                decreases 5 - i,
            {
                if SUMMARY_WINDOWS_MS[i] as i128 >= span {
                    return SUMMARY_WINDOWS_MS[i];
                }
                i += 1;
            }
            SUMMARY_WINDOWS_MS[5]
        },
    }
}

/// The bucket in which a task was posted.
pub open spec fn posting_slot(start: int, end: int, window: int, buckets: int) -> spec_fn(TaskView) -> Option<int> {
    |t: TaskView| bucket(t.created_at.milli(), start, end, window, buckets)
}

/// Every task.
pub open spec fn every_task() -> spec_fn(TaskView) -> bool {
    |t: TaskView| true
}

/// The tasks that are paid.
pub open spec fn paid_tasks() -> spec_fn(TaskView) -> bool {
    |t: TaskView| t.status == TaskStatus::Paid
}

/// The tasks that carry the tag.
pub open spec fn tagged(tag: Seq<char>) -> spec_fn(TaskView) -> bool {
    |t: TaskView| t.capabilities.contains(tag)
}

/// How a task is judged, by the name it goes by.
pub open spec fn slug(kind: KindView) -> Seq<char> {
    match kind {
        KindView::HashMatch { .. } => "hash_match"@,
        KindView::Consensus { .. } => "consensus"@,
        KindView::Disputable { .. } => "disputable"@,
    }
}

/// How a task is judged, by the name it goes by.
pub fn kind_slug(kind: &TaskKind) -> (name: &'static str)
    ensures
        name@ == slug(kind@),
{
    match kind {
        TaskKind::HashMatch { .. } => "hash_match",
        TaskKind::Consensus { .. } => "consensus",
        TaskKind::Disputable { .. } => "disputable",
    }
}

/// The tasks that are judged so.
pub open spec fn of_kind(name: Seq<char>) -> spec_fn(TaskView) -> bool {
    |t: TaskView| slug(t.kind) == name
}

/// The figures of the whole board.
#[derive(Debug, Clone)]
pub struct BoardTotalsDto {
    pub open_tasks: usize,
    pub open_bounty: u64,
    pub paid_tasks: usize,
    pub paid_bounty: u64,
    /// Tasks posted in each bucket, the oldest first.
    pub posted_series: Vec<u64>,
}

/// The figures of one kind of task.
#[derive(Debug, Clone)]
pub struct KindSummaryDto {
    pub kind: &'static str,
    pub open: usize,
    pub open_bounty: u64,
    pub posted: usize,
    pub posted_series: Vec<u64>,
}

/// The figures of the tasks that carry a tag.
#[derive(Debug, Clone)]
pub struct CapabilitySummaryDto {
    pub capability: String,
    pub open: usize,
    pub open_bounty: u64,
    pub posted: usize,
    /// Tasks posted in each bucket, the oldest first.
    pub posted_series: Vec<u64>,
    /// Bounty posted in each bucket, the oldest first.
    pub bounty_series: Vec<u64>,
}

/// What the board looks like.
#[derive(Debug, Clone)]
pub struct BoardSummaryDto {
    /// When the oldest task was posted.
    pub first_task_at: Option<String>,
    /// How far back the series reach.
    pub window_ms: u64,
    /// The length of every series.
    pub buckets: usize,
    pub total_tasks: usize,
    pub totals: BoardTotalsDto,
    pub kinds: Vec<KindSummaryDto>,
    pub capabilities: Vec<CapabilitySummaryDto>,
}

/// Whether a row has the figures of one kind of task.
pub open spec fn kind_row(
    row: KindSummaryDto,
    name: Seq<char>,
    all: Seq<TaskView>,
    slot: spec_fn(TaskView) -> Option<int>,
) -> bool {
    &&& row.kind@ == name
    &&& row.posted == count(all, of_kind(name))
    &&& row.open == count(all, and_open(of_kind(name)))
    &&& row.open_bounty == total(all, bounty_if(and_open(of_kind(name))))
    &&& counts_per_slot(row.posted_series@, all, of_kind(name), slot, SUMMARY_BUCKETS as int)
}

/// Whether a row has the figures of the tasks that carry a tag.
pub open spec fn capability_row(
    row: CapabilitySummaryDto,
    tag: Seq<char>,
    all: Seq<TaskView>,
    slot: spec_fn(TaskView) -> Option<int>,
) -> bool {
    &&& row.capability@ == tag
    &&& row.posted == count(all, tagged(tag))
    &&& row.open == count(all, and_open(tagged(tag)))
    &&& row.open_bounty == total(all, bounty_if(and_open(tagged(tag))))
    &&& counts_per_slot(row.posted_series@, all, tagged(tag), slot, SUMMARY_BUCKETS as int)
    &&& bounty_per_slot(row.bounty_series@, all, tagged(tag), slot, SUMMARY_BUCKETS as int)
}

/// Whether any of the tasks carries the tag.
pub open spec fn is_carried(all: Seq<TaskView>, tag: Seq<char>) -> bool {
    exists|i: int| 0 <= i < all.len() && (#[trigger] all[i]).capabilities.contains(tag)
}

/// Whether `names` lists the tags that any of the tasks carries, in ascending
/// order.
pub open spec fn lists_tags(names: Seq<Seq<char>>, all: Seq<TaskView>) -> bool {
    &&& ascending_names(names)
    &&& forall|tag: Seq<char>| #[trigger]
        names.contains(tag) <==> is_carried(all, tag)
}

/// A tag's place: the most bounty on offer first, then the most tasks.
pub open spec fn capability_place(all: Seq<TaskView>) -> spec_fn(Seq<char>) -> int {
    |tag: Seq<char>|
        -(total(all, bounty_if(and_open(tagged(tag)))) * 0x1_0000_0000_0000_0000int + count(
            all,
            and_open(tagged(tag)),
        ))
}

/// Whether every task is well formed.
pub open spec fn all_wf(all: Seq<TaskView>) -> bool {
    forall|i: int| 0 <= i < all.len() ==> (#[trigger] all[i]).wf()
}

/// An instant in milliseconds.
pub(crate) fn milli_of(t: &Timestamp) -> (ms: i128)
    ensures
        ms == t.milli(),
{
    floor_div(t.nanos, NANOS_PER_MILLI)
}

/// The bucket in which each task was posted.
pub(crate) fn posting_slots(tasks: &Vec<&Task>, start: i128, end: i128, window: u64, buckets: usize) -> (slots: Vec<Option<usize>>)
    requires
        0 < buckets <= 1000 <= window,
        end - start <= u64::MAX,
    ensures
        slots.len() == tasks.len(),
        forall|i: int|
            0 <= i < tasks.len() ==> opt_int(#[trigger] slots@[i]) == posting_slot(
                start as int,
                end as int,
                window as int,
                buckets as int,
            )(views(tasks@)[i]) && (slots@[i] is Some ==> slots@[i]->0 < buckets),
{
    let ghost all = views(tasks@);
    let mut slots: Vec<Option<usize>> = Vec::new();
    let mut i: usize = 0;
    while i < tasks.len()
        invariant
            i <= tasks.len(),
            all == views(tasks@),
            0 < buckets <= 1000 <= window,
            end - start <= u64::MAX,
            slots.len() == i,
            forall|j: int|
                0 <= j < i ==> opt_int(#[trigger] slots@[j]) == posting_slot(
                    start as int,
                    end as int,
                    window as int,
                    buckets as int,
                )(all[j]) && (slots@[j] is Some ==> slots@[j]->0 < buckets),
        decreases tasks.len() - i,
    {
        slots.push(bucket_of(milli_of(&tasks[i].created_at), start, end, window, buckets));
        i += 1;
    }
    slots
}

/// A flag for each of `n` tasks.
fn all_flagged(n: usize) -> (flags: Vec<bool>)
    ensures
        flags.len() == n,
        forall|i: int| 0 <= i < n ==> #[trigger] flags@[i],
{
    let mut flags: Vec<bool> = Vec::new();
    let mut i: usize = 0;
    while i < n
        invariant
            i <= n,
            flags.len() == i,
            forall|j: int| 0 <= j < i ==> #[trigger] flags@[j],
        decreases n - i,
    {
        flags.push(true);
        i += 1;
    }
    flags
}

/// Which tasks are judged in the `which`-th way.
fn kind_flags(tasks: &Vec<&Task>, which: usize) -> (flags: Vec<bool>)
    requires
        which < 3,
    ensures
        flags.len() == tasks.len(),
        forall|i: int| 0 <= i < tasks.len() ==> (#[trigger] flags@[i]) == of_kind(slug_at(which as int))(views(tasks@)[i]),
{
    proof {
        reveal_strlit("hash_match");
        reveal_strlit("consensus");
        reveal_strlit("disputable");
        assert("hash_match"@.len() == 10 && "consensus"@.len() == 9 && "disputable"@.len() == 10);
        assert("hash_match"@[0] == 'h' && "disputable"@[0] == 'd');
    }
    let mut flags: Vec<bool> = Vec::new();
    let mut i: usize = 0;
    while i < tasks.len()
        invariant
            i <= tasks.len(),
            which < 3,
            "hash_match"@ != "consensus"@,
            "hash_match"@ != "disputable"@,
            "consensus"@ != "disputable"@,
            flags.len() == i,
            forall|j: int|
                0 <= j < i ==> (#[trigger] flags@[j]) == of_kind(slug_at(which as int))(views(tasks@)[j]),
        decreases tasks.len() - i,
    {
        let found: usize = match tasks[i].kind {
            TaskKind::HashMatch { .. } => 0,
            TaskKind::Consensus { .. } => 1,
            TaskKind::Disputable { .. } => 2,
        };
        flags.push(found == which);
        i += 1;
    }
    flags
}

/// The names of the ways a task is judged, in the order they are listed.
pub open spec fn slug_at(which: int) -> Seq<char> {
    if which == 0 {
        "hash_match"@
    } else if which == 1 {
        "consensus"@
    } else {
        "disputable"@
    }
}

/// Which tasks carry the tag.
fn tag_flags(tasks: &Vec<&Task>, tag: &str) -> (flags: Vec<bool>)
    requires
        all_wf(views(tasks@)),
    ensures
        flags.len() == tasks.len(),
        forall|i: int| 0 <= i < tasks.len() ==> (#[trigger] flags@[i]) == tagged(tag@)(views(tasks@)[i]),
{
    let ghost all = views(tasks@);
    let mut flags: Vec<bool> = Vec::new();
    let mut i: usize = 0;
    while i < tasks.len()
        invariant
            i <= tasks.len(),
            all == views(tasks@),
            all_wf(all),
            flags.len() == i,
            forall|j: int| 0 <= j < i ==> (#[trigger] flags@[j]) == tagged(tag@)(all[j]),
        decreases tasks.len() - i,
    {
        assert(all[i as int].wf());
        flags.push(tasks[i].capabilities.contains(tag));
        i += 1;
    }
    flags
}

/// Every tag that any of the tasks carries.
fn all_tags(tasks: &Vec<&Task>) -> (tags: Tags)
    ensures
        tags.wf(),
        lists_tags(tags@, views(tasks@)),
{
    let ghost all = views(tasks@);
    let mut tags = Tags::new();
    let mut i: usize = 0;
    while i < tasks.len()
        invariant
            i <= tasks.len(),
            all == views(tasks@),
            tags.wf(),
            forall|tag: Seq<char>| #[trigger]
                tags@.contains(tag) <==> exists|n: int|
                    0 <= n < i && (#[trigger] all[n]).capabilities.contains(tag),
        decreases tasks.len() - i,
    {
        let own = &tasks[i].capabilities;
        let ghost before = tags@;
        let mut k: usize = 0;
        while k < own.len()
            invariant
                k <= own@.len(),
                tags.wf(),
                forall|tag: Seq<char>| #[trigger]
                    tags@.contains(tag) <==> before.contains(tag) || exists|m: int|
                        0 <= m < k && (#[trigger] own@[m]) == tag,
            decreases own@.len() - k,
        {
            tags.insert(own.tag_at(k).to_owned());
            k += 1;
        }
        proof {
            assert(all[i as int].capabilities == own@);
            assert forall|tag: Seq<char>| #[trigger] tags@.contains(tag) <==> exists|n: int|
                0 <= n < i + 1 && (#[trigger] all[n]).capabilities.contains(tag) by {
                if own@.contains(tag) {
                    let m = choose|m: int| 0 <= m < own@.len() && own@[m] == tag;
                    assert(own@[m] == tag);
                    assert(all[i as int].capabilities.contains(tag));
                }
                if before.contains(tag) {
                    let n = choose|n: int| 0 <= n < i && (#[trigger] all[n]).capabilities.contains(tag);
                    assert(all[n].capabilities.contains(tag));
                }
                if exists|n: int| 0 <= n < i + 1 && (#[trigger] all[n]).capabilities.contains(tag) {
                    let n = choose|n: int| 0 <= n < i + 1 && (#[trigger] all[n]).capabilities.contains(tag);
                    if n < i {
                        assert(before.contains(tag));
                    } else {
                        let m = choose|m: int| 0 <= m < own@.len() && own@[m] == tag;
                        assert(own@[m] == tag);
                    }
                }
            }
        }
        i += 1;
    }
    tags
}

/// Whether the figures that a summary shows of a tag are numbers of sixty-four
/// bits.
pub open spec fn tag_fits(all: Seq<TaskView>, slot: spec_fn(TaskView) -> Option<int>, tag: Seq<char>) -> bool {
    &&& total(all, bounty_if(and_open(tagged(tag)))) <= u64::MAX
    &&& forall|b: int|
        0 <= b < SUMMARY_BUCKETS ==> total(all, bounty_if(#[trigger] in_slot(tagged(tag), slot, b))) <= u64::MAX
}

/// Adds up the tasks that carry the tag, unless a figure is more than
/// sixty-four bits hold.
fn capability_summary(tasks: &Vec<&Task>, slots: &Vec<Option<usize>>, tag: &str, Ghost(slot): Ghost<
    spec_fn(TaskView) -> Option<int>,
>) -> (row: Option<CapabilitySummaryDto>)
    requires
        all_wf(views(tasks@)),
        slots.len() == tasks.len(),
        forall|i: int|
            0 <= i < tasks.len() ==> opt_int(#[trigger] slots@[i]) == slot(views(tasks@)[i]) && (slots@[i] is Some
                ==> slots@[i]->0 < SUMMARY_BUCKETS),
    ensures
        match row {
            Some(row) => tag_fits(views(tasks@), slot, tag@) && capability_row(row, tag@, views(tasks@), slot),
            None => !tag_fits(views(tasks@), slot, tag@),
        },
{
    let flags = tag_flags(tasks, tag);
    let r = match tally(tasks, &flags, slots, SUMMARY_BUCKETS, Ghost(tagged(tag@)), Ghost(slot)) {
        Some(r) => r,
        None => return None,
    };
    match bounty_sums(tasks, &flags, slots, SUMMARY_BUCKETS, Ghost(tagged(tag@)), Ghost(slot)) {
        Some(bounty_series) => {
            assert forall|b: int| 0 <= b < SUMMARY_BUCKETS implies total(
                views(tasks@),
                bounty_if(#[trigger] in_slot(tagged(tag@), slot, b)),
            ) <= u64::MAX by {
                assert(bounty_series@[b] <= u64::MAX);
            }
            Some(
                CapabilitySummaryDto {
                    capability: tag.to_owned(),
                    open: r.open,
                    open_bounty: r.open_bounty,
                    posted: r.posted,
                    posted_series: r.posted_series,
                    bounty_series,
                },
            )
        },
        None => None,
    }
}

/// Whether the figures that a summary shows of the tags are numbers of
/// sixty-four bits.
pub open spec fn tags_fit(all: Seq<TaskView>, slot: spec_fn(TaskView) -> Option<int>) -> bool {
    forall|tag: Seq<char>| is_carried(all, tag) ==> #[trigger] tag_fits(all, slot, tag)
}

/// Whether the rows are those of `names`, the most bounty on offer first,
/// then the most tasks, then by ascending tag.
pub open spec fn capability_rows(
    rows: Seq<CapabilitySummaryDto>,
    names: Seq<Seq<char>>,
    all: Seq<TaskView>,
    slot: spec_fn(TaskView) -> Option<int>,
) -> bool {
    let placed = ordered(names, capability_place(all));
    &&& rows.len() == placed.len()
    &&& forall|i: int| 0 <= i < rows.len() ==> capability_row(#[trigger] rows[i], placed[i], all, slot)
}

/// Whether `key` puts a tag in its place.
spec fn places(key: SortKey, tag: Seq<char>, all: Seq<TaskView>) -> bool {
    let bounty = total(all, bounty_if(and_open(tagged(tag))));
    let open = count(all, and_open(tagged(tag)));
    &&& 0 <= bounty <= u64::MAX
    &&& 0 <= open <= u64::MAX
    &&& key == (SortKey { a: (u64::MAX - bounty) as u128, b: (u64::MAX - open) as u128, c: 0, d: 0 })
}

/// The figures of each tag, the most bounty on offer first, unless one is more
/// than sixty-four bits hold.
fn capability_summaries(tasks: &Vec<&Task>, slots: &Vec<Option<usize>>, Ghost(slot): Ghost<
    spec_fn(TaskView) -> Option<int>,
>) -> (rows: Option<Vec<CapabilitySummaryDto>>)
    requires
        all_wf(views(tasks@)),
        slots.len() == tasks.len(),
        forall|i: int|
            0 <= i < tasks.len() ==> opt_int(#[trigger] slots@[i]) == slot(views(tasks@)[i]) && (slots@[i] is Some
                ==> slots@[i]->0 < SUMMARY_BUCKETS),
    ensures
        match rows {
            Some(rows) => tags_fit(views(tasks@), slot) && exists|names: Seq<Seq<char>>| #[trigger]
                lists_tags(names, views(tasks@)) && capability_rows(rows@, names, views(tasks@), slot),
            None => !tags_fit(views(tasks@), slot),
        },
{
    let ghost all = views(tasks@);
    let tags = all_tags(tasks);
    let ghost names = tags@;
    let ghost place = capability_place(all);
    let mut keys: Vec<SortKey> = Vec::new();
    let mut i: usize = 0;
    while i < tags.len()
        invariant
            i <= names.len(),
            names == tags@,
            all == views(tasks@),
            all_wf(all),
            slots.len() == tasks.len(),
            forall|i: int|
                0 <= i < tasks.len() ==> opt_int(#[trigger] slots@[i]) == slot(all[i]) && (slots@[i] is Some
                    ==> slots@[i]->0 < SUMMARY_BUCKETS),
            keys.len() == i,
            forall|j: int| 0 <= j < i ==> places(#[trigger] keys@[j], names[j], all),
            forall|j: int| 0 <= j < i ==> tag_fits(all, slot, #[trigger] names[j]),
            lists_tags(names, all),
        decreases names.len() - i,
    {
        assert(names.contains(names[i as int]));
        let row = match capability_summary(tasks, slots, tags.tag_at(i), Ghost(slot)) {
            Some(row) => row,
            None => return None,
        };
        let key = SortKey {
            a: (u64::MAX - row.open_bounty) as u128,
            b: (u64::MAX - row.open as u64) as u128,
            c: 0,
            d: 0,
        };
        assert(places(key, names[i as int], all));
        keys.push(key);
        i += 1;
    }
    let order = stable_order(&keys);
    proof {
        assert forall|tag: Seq<char>| is_carried(all, tag) implies #[trigger] tag_fits(all, slot, tag) by {
            assert(names.contains(tag));
            let j = choose|j: int| 0 <= j < names.len() && names[j] == tag;
            assert(tag_fits(all, slot, names[j]));
        }
        assert forall|i: int, j: int| #![trigger keys@[i], keys@[j]]
            0 <= i < keys.len() && 0 <= j < keys.len() implies (keys@[i].rank() <= keys@[j].rank() <==> place(names[i])
            <= place(names[j])) by {
            assert(places(keys@[i], names[i], all) && places(keys@[j], names[j], all));
            let x = total(all, bounty_if(and_open(tagged(names[i]))));
            let y = count(all, and_open(tagged(names[i])));
            let v = total(all, bounty_if(and_open(tagged(names[j]))));
            let w = count(all, and_open(tagged(names[j])));
            assert(place(names[i]) == -(x * 0x1_0000_0000_0000_0000int + y));
            assert(place(names[j]) == -(v * 0x1_0000_0000_0000_0000int + w));
        }
        lemma_ordered(names, place, keys@);
    }
    let ghost o = order_of(names.map_values(place));
    assert forall|j: int| 0 <= j < order.len() implies o[j] == #[trigger] order@[j] by {
        assert(order@.map_values(|x: usize| x as int)[j] == order@[j]);
    }
    let mut rows: Vec<CapabilitySummaryDto> = Vec::new();
    let mut k: usize = 0;
    while k < order.len()
        invariant
            k <= order.len(),
            order.len() == names.len(),
            o.len() == order.len(),
            names == tags@,
            all == views(tasks@),
            all_wf(all),
            slots.len() == tasks.len(),
            forall|i: int|
                0 <= i < tasks.len() ==> opt_int(#[trigger] slots@[i]) == slot(all[i]) && (slots@[i] is Some
                    ==> slots@[i]->0 < SUMMARY_BUCKETS),
            place == capability_place(all),
            o == order_of(names.map_values(place)),
            forall|j: int| 0 <= j < order.len() ==> o[j] == #[trigger] order@[j],
            forall|j: int| 0 <= j < order.len() ==> (#[trigger] order@[j]) < names.len(),
            rows.len() == k,
            forall|j: int| 0 <= j < k ==> capability_row(#[trigger] rows@[j], ordered(names, place)[j], all, slot),
            forall|j: int| 0 <= j < names.len() ==> tag_fits(all, slot, #[trigger] names[j]),
        decreases order.len() - k,
    {
        assert(ordered(names, place)[k as int] == names[o[k as int]]);
        assert(o[k as int] == order@[k as int]);
        assert(tag_fits(all, slot, names[order@[k as int] as int]));
        rows.push(capability_summary(tasks, slots, tags.tag_at(order[k]), Ghost(slot)).unwrap());
        k += 1;
    }
    assert(lists_tags(names, all) && capability_rows(rows@, names, all, slot));
    Some(rows)
}

/// A text that may be missing, for an instant that may be.
pub open spec fn opt_instant(t: Option<Timestamp>) -> Option<Seq<char>> {
    match t {
        Some(t) => Some(t.text()),
        None => None,
    }
}

/// The bucket of a summary in which a task was posted.
pub open spec fn summary_slot(all: Seq<TaskView>, now: Timestamp) -> spec_fn(TaskView) -> Option<int> {
    let window = window_since(oldest(all), now);
    posting_slot(now.milli() - window, now.milli(), window as int, SUMMARY_BUCKETS as int)
}

/// Whether the figures that a summary shows are numbers of sixty-four bits:
/// what is on offer, what was paid, and of each tag the bounty that was posted
/// in each bucket.
pub open spec fn summary_fits(all: Seq<TaskView>, now: Timestamp) -> bool {
    &&& total(all, bounty_if(and_open(every_task()))) <= u64::MAX
    &&& total(all, bounty_if(paid_tasks())) <= u64::MAX
    &&& tags_fit(all, summary_slot(all, now))
}

/// Whether `r` is what the board looks like at `now`.
pub open spec fn summarizes(r: BoardSummaryDto, all: Seq<TaskView>, now: Timestamp) -> bool {
    let window = window_since(oldest(all), now);
    let slot = summary_slot(all, now);
    &&& opt_text(r.first_task_at) == opt_instant(oldest(all))
    &&& r.window_ms == window
    &&& r.buckets == SUMMARY_BUCKETS
    &&& r.total_tasks == all.len()
    &&& r.totals.open_tasks == count(all, and_open(every_task()))
    &&& r.totals.open_bounty == total(all, bounty_if(and_open(every_task())))
    &&& r.totals.paid_tasks == count(all, paid_tasks())
    &&& r.totals.paid_bounty == total(all, bounty_if(paid_tasks()))
    &&& counts_per_slot(r.totals.posted_series@, all, every_task(), slot, SUMMARY_BUCKETS as int)
    &&& r.kinds.len() == 3
    &&& forall|i: int| 0 <= i < 3 ==> kind_row(#[trigger] r.kinds@[i], slug_at(i), all, slot)
    &&& exists|names: Seq<Seq<char>>| #[trigger]
        lists_tags(names, all) && capability_rows(r.capabilities@, names, all, slot)
}

/// Open tasks of one kind or with one tag offer no more than all open tasks.
proof fn lemma_open_within(all: Seq<TaskView>, p: spec_fn(TaskView) -> bool)
    ensures
        total(all, bounty_if(and_open(p))) <= total(all, bounty_if(and_open(every_task()))),
{
    lemma_total_at_most(all, bounty_if(and_open(p)), bounty_if(and_open(every_task())));
}

/// What the board looks like at `now`.
pub fn summarize_board(tasks: &Vec<&Task>, now: Timestamp) -> (r: BoardSummaryDto)
    requires
        all_wf(views(tasks@)),
        summary_fits(views(tasks@), now),
        now.valid(),
    ensures
        summarizes(r, views(tasks@), now),
{
    try_summary(tasks, now).unwrap()
}

/// What the board looks like at `now`, unless a figure is more than sixty-four
/// bits hold.
pub(crate) fn try_summary(tasks: &Vec<&Task>, now: Timestamp) -> (r: Option<BoardSummaryDto>)
    requires
        all_wf(views(tasks@)),
        now.valid(),
    ensures
        match r {
            Some(r) => summary_fits(views(tasks@), now) && summarizes(r, views(tasks@), now),
            None => !summary_fits(views(tasks@), now),
        },
{
    let ghost all = views(tasks@);
    assert forall|i: int| 0 <= i < tasks.len() implies (#[trigger] all[i]).created_at.valid() by {
        assert(all[i].wf());
    }
    let first = oldest_of(tasks);
    let window = pick_window(first, now);
    let end = milli_of(&now);
    let start: i128 = end - window as i128;
    let ghost slot = posting_slot(start as int, end as int, window as int, SUMMARY_BUCKETS as int);
    let slots = posting_slots(tasks, start, end, window, SUMMARY_BUCKETS);
    let flags = all_flagged(tasks.len());
    assert(slot == summary_slot(all, now));
    let whole = match tally(tasks, &flags, &slots, SUMMARY_BUCKETS, Ghost(every_task()), Ghost(slot)) {
        Some(whole) => whole,
        None => return None,
    };
    let mut paid: usize = 0;
    let mut is_paid: Vec<bool> = Vec::new();
    let mut i: usize = 0;
    assert(all.take(0) =~= Seq::empty());
    while i < tasks.len()
        invariant
            i <= tasks.len(),
            all == views(tasks@),
            paid == count(all.take(i as int), paid_tasks()),
            is_paid.len() == i,
            forall|j: int| 0 <= j < i ==> (#[trigger] is_paid@[j]) == paid_tasks()(all[j]),
        decreases tasks.len() - i,
    {
        proof {
            lemma_count_step(all, paid_tasks(), i as int);
        }
        let counts = tasks[i].status == TaskStatus::Paid;
        is_paid.push(counts);
        if counts {
            paid = paid + 1;
        }
        i += 1;
    }
    assert(all.take(i as int) =~= all);
    let paid_bounty = match bounty_sum(tasks, &is_paid, Ghost(paid_tasks())) {
        Some(sum) => sum,
        None => return None,
    };
    let mut kinds: Vec<KindSummaryDto> = Vec::new();
    let mut k: usize = 0;
    while k < 3
        invariant
            k <= 3,
            all == views(tasks@),
            total(all, bounty_if(and_open(every_task()))) <= u64::MAX,
            slots.len() == tasks.len(),
            forall|i: int|
                0 <= i < tasks.len() ==> opt_int(#[trigger] slots@[i]) == slot(all[i]) && (slots@[i] is Some
                    ==> slots@[i]->0 < SUMMARY_BUCKETS),
            kinds.len() == k,
            forall|j: int| 0 <= j < k ==> kind_row(#[trigger] kinds@[j], slug_at(j), all, slot),
        decreases 3 - k,
    {
        let flags = kind_flags(tasks, k);
        proof {
            lemma_open_within(all, of_kind(slug_at(k as int)));
        }
        let r = tally(
            tasks,
            &flags,
            &slots,
            SUMMARY_BUCKETS,
            Ghost(of_kind(slug_at(k as int))),
            Ghost(slot),
        ).unwrap();
        let kind: &'static str = if k == 0 {
            "hash_match"
        } else if k == 1 {
            "consensus"
        } else {
            "disputable"
        };
        kinds.push(
            KindSummaryDto {
                kind,
                open: r.open,
                open_bounty: r.open_bounty,
                posted: r.posted,
                posted_series: r.posted_series,
            },
        );
        k += 1;
    }
    let capabilities = match capability_summaries(tasks, &slots, Ghost(slot)) {
        Some(rows) => rows,
        None => return None,
    };
    let first_task_at = match first {
        Some(t) => Some(t.to_rfc3339()),
        None => None,
    };
    Some(
        BoardSummaryDto {
            first_task_at,
            window_ms: window,
            buckets: SUMMARY_BUCKETS,
            total_tasks: tasks.len(),
            totals: BoardTotalsDto {
                open_tasks: whole.open,
                open_bounty: whole.open_bounty,
                paid_tasks: paid,
                paid_bounty,
                posted_series: whole.posted_series,
            },
            kinds,
            capabilities,
        },
    )
}

}
