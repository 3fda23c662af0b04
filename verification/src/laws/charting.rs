//! What somebody who reads a market's chart can rely on.
use crate::board::tasks::sum_of;
use crate::board::types::{opt_text, TaskStatus, TaskView};
use crate::market::{and_open, bounty_if, bounty_of, bucket, every_task, oldest, posting_slot, tagged, window_since};
use crate::seqs::{count, lemma_pick_found, lemma_pick_source, lemma_total_agrees, pick, total};
use crate::series::{
    agents_in, amount_in, amount_within, any_slot, charts, fees_of, figures_fit, granted_in, granted_within, in_market,
    is_active, is_paid_by, market_tag, one_each, paid_out_of, saturated_milli, settling_slot, takes_part, window_fits,
    MarketSeriesDto, SeriesQuery,
};
use crate::text::trimmed;
use crate::types::{PublicKey, Timestamp};
use vstd::prelude::*;

verus! {

/// Whether a task is of the market that is asked for: every task is where no tag
/// is given, or one of white space, and else those that carry the tag.
pub open spec fn belongs(t: TaskView, query: SeriesQuery) -> bool {
    query.capability is None || trimmed(query.capability->0@).len() == 0 || t.capabilities.contains(
        query.capability->0@,
    )
}

/// Whether a chart shows the instant, both ends of its window counted.
pub open spec fn covers(r: MarketSeriesDto, at: Timestamp) -> bool {
    r.start_ms <= at.nanos as int / 1_000_000 <= r.end_ms
}

/// Which point of a chart the instant counts for.
pub open spec fn point(r: MarketSeriesDto, at: Timestamp) -> Option<int> {
    bucket(at.nanos as int / 1_000_000, r.start_ms as int, r.end_ms as int, r.window_ms as int, r.buckets as int)
}

/// The amounts of the tasks that meet `p`, added up.
pub open spec fn sum_where(
    all: Seq<TaskView>,
    p: spec_fn(TaskView) -> bool,
    amount: spec_fn(TaskView) -> int,
) -> int {
    total(
        all,
        |t: TaskView|
            if p(t) {
                amount(t)
            } else {
                0
            },
    )
}

/// What was added up over the tasks of a market was added up over those of the
/// tasks that belong to it.
proof fn lemma_total_in_market(
    all: Seq<TaskView>,
    query: SeriesQuery,
    f: spec_fn(TaskView) -> int,
    p: spec_fn(TaskView) -> bool,
    amount: spec_fn(TaskView) -> int,
)
    requires
        forall|t: TaskView| #[trigger] belongs(t, query) ==> f(t) == if p(t) { amount(t) } else { 0 },
        forall|t: TaskView| #[trigger] p(t) ==> belongs(t, query),
    ensures
        total(in_market(all, market_tag(opt_text(query.capability))), f) == sum_where(all, p, amount),
    decreases all.len(),
{
    if all.len() > 0 {
        let t = all.last();
        lemma_total_in_market(all.drop_last(), query, f, p, amount);
        let less = in_market(all.drop_last(), market_tag(opt_text(query.capability)));
        assert(belongs(t, query) || !p(t));
        if belongs(t, query) {
            assert(in_market(all, market_tag(opt_text(query.capability))) =~= less.push(t));
            assert(less.push(t).drop_last() =~= less);
        }
    }
}

/// A chart ends now and reaches back as far as was asked, but for a minute at
/// least; where nothing was asked, as far as a summary of the market would. It has
/// ninety-six points unless asked otherwise, and from one to two hundred and
/// forty.
pub proof fn lemma_what_a_chart_covers(
    r: MarketSeriesDto,
    all: Seq<TaskView>,
    grants: Seq<i64>,
    now: Timestamp,
    query: SeriesQuery,
)
    requires
        charts(r, all, grants, now, query),
    ensures
        r.end_ms == now.nanos as int / 1_000_000,
        r.window_ms <= i64::MAX ==> r.start_ms == r.end_ms - r.window_ms,
        match query.window_ms {
            Some(w) => r.window_ms == if w < 60_000 { 60_000u64 } else { w },
            None => r.window_ms == window_since(
                oldest(in_market(all, market_tag(opt_text(query.capability)))),
                now,
            ),
        },
        match query.buckets {
            Some(n) => r.buckets == if n == 0 {
                1usize
            } else if n > 240 {
                240
            } else {
                n
            },
            None => r.buckets == 96,
        },
        r.capability is Some <==> query.capability is Some && trimmed(query.capability->0@).len() > 0,
        r.capability is Some ==> r.capability->0@ == query.capability->0@,
{
}

/// The market's tasks are those that belong to it.
pub proof fn lemma_tasks_of_a_market(all: Seq<TaskView>, query: SeriesQuery, t: TaskView)
    ensures
        in_market(all, market_tag(opt_text(query.capability))).contains(t) <==> all.contains(t) && belongs(t, query),
{
    let tag = market_tag(opt_text(query.capability));
    let f = |t: TaskView|
        if tag is None || tagged(tag->0)(t) {
            Some(t)
        } else {
            None
        };
    let some = in_market(all, tag);
    assert(some == pick(all, f));
    if some.contains(t) {
        let j = choose|j: int| 0 <= j < some.len() && some[j] == t;
        lemma_pick_source(all, f, j);
        let i = choose|i: int| 0 <= i < all.len() && f(#[trigger] all[i]) == Some(some[j]);
        assert(all[i] == t);
    }
    if all.contains(t) && belongs(t, query) {
        let i = choose|i: int| 0 <= i < all.len() && all[i] == t;
        lemma_pick_found(all, f, i);
    }
}

/// The figures of a chart are those of the market's tasks: of what was posted in
/// the window the number and the bounty; of what was settled in it the number, what
/// was paid out and a fee of a thousand for each payment; and of what is open now,
/// whenever it was posted, the number and the bounty.
pub proof fn lemma_figures_of_a_chart(
    r: MarketSeriesDto,
    all: Seq<TaskView>,
    grants: Seq<i64>,
    now: Timestamp,
    query: SeriesQuery,
)
    requires
        charts(r, all, grants, now, query),
    ensures
        ({
            let posted = |t: TaskView| belongs(t, query) && covers(r, t.created_at);
            let settled = |t: TaskView| belongs(t, query) && t.settled_at is Some && covers(r, t.settled_at->0);
            let open = |t: TaskView| belongs(t, query) && t.status == TaskStatus::Open;
            &&& r.posted == sum_where(all, posted, |t: TaskView| 1)
            &&& r.bounty == sum_where(all, posted, |t: TaskView| t.bounty as int)
            &&& r.settled == sum_where(all, settled, |t: TaskView| 1)
            &&& r.paid_bounty == sum_where(all, settled, |t: TaskView| sum_of(t.paid_out()))
            &&& r.fees == sum_where(all, settled, |t: TaskView| 1_000int * t.paid_out().len())
            &&& r.open == sum_where(all, open, |t: TaskView| 1)
            &&& r.open_bounty == sum_where(all, open, |t: TaskView| t.bounty as int)
        }),
{
    let posted = |t: TaskView| belongs(t, query) && covers(r, t.created_at);
    let settled = |t: TaskView| belongs(t, query) && t.settled_at is Some && covers(r, t.settled_at->0);
    let open = |t: TaskView| belongs(t, query) && t.status == TaskStatus::Open;
    let (start, end, w, n) = (r.start_ms as int, r.end_ms as int, r.window_ms as int, r.buckets as int);
    let posting = posting_slot(start, end, w, n);
    let settling = settling_slot(start, end, w, n);
    let p = and_open(every_task());
    lemma_total_in_market(all, query, amount_within(one_each(), posting), posted, |t: TaskView| 1);
    lemma_total_in_market(all, query, amount_within(bounty_of(), posting), posted, |t: TaskView| t.bounty as int);
    lemma_total_in_market(all, query, amount_within(one_each(), settling), settled, |t: TaskView| 1);
    lemma_total_in_market(
        all,
        query,
        amount_within(paid_out_of(), settling),
        settled,
        |t: TaskView| sum_of(t.paid_out()),
    );
    lemma_total_in_market(
        all,
        query,
        amount_within(fees_of(), settling),
        settled,
        |t: TaskView| 1_000int * t.paid_out().len(),
    );
    lemma_total_in_market(
        all,
        query,
        |t: TaskView|
            if p(t) {
                1int
            } else {
                0
            },
        open,
        |t: TaskView| 1,
    );
    lemma_total_in_market(all, query, bounty_if(p), open, |t: TaskView| t.bounty as int);
}

/// The points of a chart show the same figures, each of what falls in its part of
/// the window.
pub proof fn lemma_points_of_a_chart(
    r: MarketSeriesDto,
    all: Seq<TaskView>,
    grants: Seq<i64>,
    now: Timestamp,
    query: SeriesQuery,
    b: int,
)
    requires
        charts(r, all, grants, now, query),
        0 <= b < r.buckets,
    ensures
        ({
            let posted = |t: TaskView| belongs(t, query) && point(r, t.created_at) == Some(b);
            let settled = |t: TaskView|
                belongs(t, query) && t.settled_at is Some && point(r, t.settled_at->0) == Some(b);
            &&& r.posted_series@[b] == sum_where(all, posted, |t: TaskView| 1)
            &&& r.bounty_series@[b] == sum_where(all, posted, |t: TaskView| t.bounty as int)
            &&& r.settled_series@[b] == sum_where(all, settled, |t: TaskView| 1)
            &&& r.paid_bounty_series@[b] == sum_where(all, settled, |t: TaskView| sum_of(t.paid_out()))
            &&& r.fees_series@[b] == sum_where(all, settled, |t: TaskView| 1_000int * t.paid_out().len())
        }),
        r.posted_series@.len() == r.buckets,
        r.bounty_series@.len() == r.buckets,
        r.settled_series@.len() == r.buckets,
        r.paid_bounty_series@.len() == r.buckets,
        r.fees_series@.len() == r.buckets,
        r.agents_series@.len() == r.buckets,
        r.faucet_series@.len() == r.buckets,
{
    let posted = |t: TaskView| belongs(t, query) && point(r, t.created_at) == Some(b);
    let settled = |t: TaskView| belongs(t, query) && t.settled_at is Some && point(r, t.settled_at->0) == Some(b);
    let (start, end, w, n) = (r.start_ms as int, r.end_ms as int, r.window_ms as int, r.buckets as int);
    let posting = posting_slot(start, end, w, n);
    let settling = settling_slot(start, end, w, n);
    lemma_total_in_market(all, query, amount_in(one_each(), posting, b), posted, |t: TaskView| 1);
    lemma_total_in_market(all, query, amount_in(bounty_of(), posting, b), posted, |t: TaskView| t.bounty as int);
    lemma_total_in_market(all, query, amount_in(one_each(), settling, b), settled, |t: TaskView| 1);
    lemma_total_in_market(
        all,
        query,
        amount_in(paid_out_of(), settling, b),
        settled,
        |t: TaskView| sum_of(t.paid_out()),
    );
    lemma_total_in_market(
        all,
        query,
        amount_in(fees_of(), settling, b),
        settled,
        |t: TaskView| 1_000int * t.paid_out().len(),
    );
}

/// Whether somebody had part in one of the tasks: as its poster where it was
/// posted at an instant that counts, or as somebody it paid where it was settled at
/// one.
pub open spec fn had_part(
    agent: PublicKey,
    all: Seq<TaskView>,
    query: SeriesQuery,
    counts: spec_fn(Timestamp) -> bool,
) -> bool {
    exists|i: int|
        0 <= i < all.len() && belongs(#[trigger] all[i], query) && ((counts(all[i].created_at) && all[i].poster == agent)
            || (all[i].settled_at is Some && counts(all[i].settled_at->0) && is_paid_by(all[i], agent)))
}

proof fn lemma_had_part(
    agent: PublicKey,
    all: Seq<TaskView>,
    query: SeriesQuery,
    counts: spec_fn(Timestamp) -> bool,
    posting: spec_fn(TaskView) -> Option<int>,
    settling: spec_fn(TaskView) -> Option<int>,
    b: int,
)
    requires
        forall|t: TaskView| #[trigger] posting(t) == Some(b) <==> counts(t.created_at),
        forall|t: TaskView| #[trigger] settling(t) == Some(b) <==> t.settled_at is Some && counts(t.settled_at->0),
    ensures
        is_active(agent, in_market(all, market_tag(opt_text(query.capability))), posting, settling, b) <==> had_part(
            agent,
            all,
            query,
            counts,
        ),
{
    let m = in_market(all, market_tag(opt_text(query.capability)));
    if is_active(agent, m, posting, settling, b) {
        let i = choose|i: int| 0 <= i < m.len() && takes_part(#[trigger] m[i], agent, posting, settling, b);
        lemma_tasks_of_a_market(all, query, m[i]);
        assert(m.contains(m[i]));
        let j = choose|j: int| 0 <= j < all.len() && all[j] == m[i];
        assert(belongs(all[j], query));
        assert(posting(m[i]) == Some(b) <==> counts(m[i].created_at));
        assert(settling(m[i]) == Some(b) <==> m[i].settled_at is Some && counts(m[i].settled_at->0));
    }
    if had_part(agent, all, query, counts) {
        let i = choose|i: int|
            0 <= i < all.len() && belongs(#[trigger] all[i], query) && ((counts(all[i].created_at) && all[i].poster
                == agent) || (all[i].settled_at is Some && counts(all[i].settled_at->0) && is_paid_by(all[i], agent)));
        let t = all[i];
        assert(all.contains(t));
        lemma_tasks_of_a_market(all, query, t);
        let j = choose|j: int| 0 <= j < m.len() && m[j] == t;
        assert(posting(t) == Some(b) <==> counts(t.created_at));
        assert(settling(t) == Some(b) <==> t.settled_at is Some && counts(t.settled_at->0));
        assert(takes_part(m[j], agent, posting, settling, b));
    }
}

/// The agents of a chart are those who posted, or were paid, in the window, each of
/// them counted once; and those of a point who did so in its part of the window.
pub proof fn lemma_agents_of_a_chart(
    r: MarketSeriesDto,
    all: Seq<TaskView>,
    grants: Seq<i64>,
    now: Timestamp,
    query: SeriesQuery,
    b: int,
)
    requires
        charts(r, all, grants, now, query),
        0 <= b < r.buckets,
    ensures
        r.agents == Set::new(
            |agent: PublicKey| had_part(agent, all, query, |at: Timestamp| covers(r, at)),
        ).len(),
        r.agents_series@[b] == Set::new(
            |agent: PublicKey| had_part(agent, all, query, |at: Timestamp| point(r, at) == Some(b)),
        ).len(),
{
    let m = in_market(all, market_tag(opt_text(query.capability)));
    let (start, end, w, n) = (r.start_ms as int, r.end_ms as int, r.window_ms as int, r.buckets as int);
    let posting = posting_slot(start, end, w, n);
    let settling = settling_slot(start, end, w, n);
    let within = |at: Timestamp| covers(r, at);
    let here = |at: Timestamp| point(r, at) == Some(b);
    let every = Set::new(|agent: PublicKey| had_part(agent, all, query, within));
    let some = Set::new(|agent: PublicKey| had_part(agent, all, query, here));
    let (anytime, anywhere) = (any_slot(posting), any_slot(settling));
    assert forall|agent: PublicKey| #[trigger] every.contains(agent) <==> agents_in(m, anytime, anywhere, 0).contains(
        agent,
    ) by {
        assert forall|t: TaskView| #[trigger] anytime(t) == Some(0int) <==> within(t.created_at) by {
        }
        lemma_had_part(agent, all, query, within, anytime, anywhere, 0);
    }
    assert(every =~= agents_in(m, anytime, anywhere, 0));
    assert forall|agent: PublicKey| #[trigger] some.contains(agent) <==> agents_in(m, posting, settling, b).contains(
        agent,
    ) by {
        lemma_had_part(agent, all, query, here, posting, settling, b);
    }
    assert(some =~= agents_in(m, posting, settling, b));
}

/// A chart counts the faucet's grants that were made in the window, whatever the
/// market, each of them worth fifty million.
pub proof fn lemma_grants_of_a_chart(
    r: MarketSeriesDto,
    all: Seq<TaskView>,
    grants: Seq<i64>,
    now: Timestamp,
    query: SeriesQuery,
    b: int,
)
    requires
        charts(r, all, grants, now, query),
        forall|i: int| 0 <= i < grants.len() ==> i64::MIN <= 1_000 * (#[trigger] grants[i]) <= i64::MAX,
        0 <= b < r.buckets,
    ensures
        r.faucet_grants == total(
            grants,
            |second: i64|
                if r.start_ms <= 1_000 * second <= r.end_ms {
                    1int
                } else {
                    0
                },
        ),
        r.faucet_series@[b] == total(
            grants,
            |second: i64|
                if bucket(
                    1_000 * second,
                    r.start_ms as int,
                    r.end_ms as int,
                    r.window_ms as int,
                    r.buckets as int,
                ) == Some(b) {
                    1int
                } else {
                    0
                },
        ),
        50_000_000 * r.faucet_grants <= u64::MAX ==> r.faucet_itx == 50_000_000 * r.faucet_grants,
{
    let (start, end, w, n) = (r.start_ms as int, r.end_ms as int, r.window_ms as int, r.buckets as int);
    let p = granted_within(start, end);
    let q = granted_in(start, end, w, n, b);
    assert(r.faucet_grants == count(grants, p));
    assert(r.faucet_series@[b] == count(grants, q));
    assert forall|i: int| 0 <= i < grants.len() implies saturated_milli(#[trigger] grants[i]) == 1_000 * grants[i] by {
    }
    lemma_total_agrees(
        grants,
        |a: i64| if p(a) { 1int } else { 0 },
        |second: i64|
            if r.start_ms <= 1_000 * second <= r.end_ms {
                1int
            } else {
                0
            },
    );
    lemma_total_agrees(
        grants,
        |a: i64| if q(a) { 1int } else { 0 },
        |second: i64|
            if bucket(1_000 * second, r.start_ms as int, r.end_ms as int, r.window_ms as int, r.buckets as int) == Some(b) {
                1int
            } else {
                0
            },
    );
}

/// A chart is drawn wherever it can be shown in sixty-four bits: the bounty on offer
/// in the market, and within the window what was posted, paid out and charged. A
/// window that is not too long for the calendar always begins in it.
pub proof fn lemma_when_a_chart_is_drawn(all: Seq<TaskView>, now: Timestamp, query: SeriesQuery)
    ensures
        figures_fit(all, now, query) ==> sum_where(
            all,
            |t: TaskView| belongs(t, query) && t.status == TaskStatus::Open,
            |t: TaskView| t.bounty as int,
        ) <= 0xffff_ffff_ffff_ffff,
        now.valid() && query.window_ms is Some && query.window_ms->0 <= 0xff_ffff_ffff_ffff ==> window_fits(
            query.window_ms,
            now,
        ),
        query.window_ms is None ==> window_fits(query.window_ms, now),
{
    let open = |t: TaskView| belongs(t, query) && t.status == TaskStatus::Open;
    lemma_total_in_market(all, query, bounty_if(and_open(every_task())), open, |t: TaskView| t.bounty as int);
}

}
