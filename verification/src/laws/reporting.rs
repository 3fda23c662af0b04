//! What somebody who reads the board's figures can rely on.
use crate::board::types::{TaskStatus, TaskView};
use crate::market::{
    and_open, bounty_if, capability_place, capability_row, capability_rows, every_task, in_slot, is_carried, kind_row,
    lists_tags, of_kind, oldest, paid_tasks, slug, slug_at, summarizes, summary_fits, summary_slot, tag_fits, tagged,
    window_since, BoardSummaryDto, CapabilitySummaryDto, KindSummaryDto,
};
use crate::seqs::{count, lemma_count_of_places, lemma_total_at_most, places_of, total};
use crate::sort::{lemma_ordered_keeps, ordered};
use crate::types::Timestamp;
use vstd::prelude::*;
use vstd::string::*;

verus! {

/// How many of the tasks meet `p`.
pub open spec fn how_many(all: Seq<TaskView>, p: spec_fn(TaskView) -> bool) -> nat {
    Set::new(|i: int| 0 <= i < all.len() && p(all[i])).len()
}

/// What the tasks that meet `p` are worth together.
pub open spec fn worth_of(all: Seq<TaskView>, p: spec_fn(TaskView) -> bool) -> int {
    total(
        all,
        |t: TaskView|
            if p(t) {
                t.bounty as int
            } else {
                0
            },
    )
}

proof fn lemma_count_is_how_many(all: Seq<TaskView>, p: spec_fn(TaskView) -> bool)
    ensures
        count(all, p) == how_many(all, p),
{
    lemma_count_of_places(all, p);
    assert(places_of(all, p) =~= Set::new(|i: int| 0 <= i < all.len() && p(all[i])));
}

/// Whether the row has the figures of the tasks that meet `p`: how many were
/// posted, how many of those are open and what these are worth, and how many were
/// posted in each of the twenty-four parts of the window.
pub open spec fn has_figures_of(
    row: KindSummaryDto,
    all: Seq<TaskView>,
    p: spec_fn(TaskView) -> bool,
    slot: spec_fn(TaskView) -> Option<int>,
) -> bool {
    &&& row.posted == how_many(all, p)
    &&& row.open == how_many(all, |t: TaskView| p(t) && t.status == TaskStatus::Open)
    &&& row.open_bounty == worth_of(all, |t: TaskView| p(t) && t.status == TaskStatus::Open)
    &&& row.posted_series@.len() == 24
    &&& forall|b: int| 0 <= b < 24 ==> (#[trigger] row.posted_series@[b]) == how_many(
        all,
        |t: TaskView| p(t) && slot(t) == Some(b),
    )
}

proof fn lemma_kind_figures(
    row: KindSummaryDto,
    name: Seq<char>,
    all: Seq<TaskView>,
    p: spec_fn(TaskView) -> bool,
    slot: spec_fn(TaskView) -> Option<int>,
)
    requires
        kind_row(row, name, all, slot),
        of_kind(name) == p,
    ensures
        has_figures_of(row, all, p, slot),
{
    let q = |t: TaskView| p(t) && t.status == TaskStatus::Open;
    assert(and_open(p) =~= q);
    lemma_count_is_how_many(all, p);
    lemma_count_is_how_many(all, q);
    assert forall|b: int| 0 <= b < 24 implies (#[trigger] row.posted_series@[b]) == how_many(
        all,
        |t: TaskView| p(t) && slot(t) == Some(b),
    ) by {
        let s = |t: TaskView| p(t) && slot(t) == Some(b);
        assert(in_slot(p, slot, b) =~= s);
        lemma_count_is_how_many(all, s);
    }
}

proof fn lemma_slugs_differ()
    ensures
        "hash_match"@ != "consensus"@,
        "hash_match"@ != "disputable"@,
        "consensus"@ != "disputable"@,
{
    reveal_strlit("hash_match");
    reveal_strlit("consensus");
    reveal_strlit("disputable");
    assert("hash_match"@.len() == 10 && "consensus"@.len() == 9 && "disputable"@.len() == 10);
    assert("hash_match"@[0] == 'h' && "disputable"@[0] == 'd');
}

/// Each kind of task goes by its own name: the row `hash_match` has the figures of
/// the tasks judged by a hash, `consensus` those of the ones judged by their
/// assignees, `disputable` those of the ones open to challenge.
pub proof fn lemma_kinds_are_told_apart(r: BoardSummaryDto, all: Seq<TaskView>, now: Timestamp)
    requires
        summarizes(r, all, now),
    ensures
        r.kinds@.len() == 3,
        r.kinds@[0].kind@ == "hash_match"@,
        has_figures_of(r.kinds@[0], all, |t: TaskView| t.kind is HashMatch, summary_slot(all, now)),
        r.kinds@[1].kind@ == "consensus"@,
        has_figures_of(r.kinds@[1], all, |t: TaskView| t.kind is Consensus, summary_slot(all, now)),
        r.kinds@[2].kind@ == "disputable"@,
        has_figures_of(r.kinds@[2], all, |t: TaskView| t.kind is Disputable, summary_slot(all, now)),
{
    lemma_slugs_differ();
    let slot = summary_slot(all, now);
    assert(kind_row(r.kinds@[0], slug_at(0), all, slot));
    assert(kind_row(r.kinds@[1], slug_at(1), all, slot));
    assert(kind_row(r.kinds@[2], slug_at(2), all, slot));
    assert(of_kind("hash_match"@) =~= (|t: TaskView| t.kind is HashMatch));
    assert(of_kind("consensus"@) =~= (|t: TaskView| t.kind is Consensus));
    assert(of_kind("disputable"@) =~= (|t: TaskView| t.kind is Disputable));
    lemma_kind_figures(r.kinds@[0], "hash_match"@, all, |t: TaskView| t.kind is HashMatch, slot);
    lemma_kind_figures(r.kinds@[1], "consensus"@, all, |t: TaskView| t.kind is Consensus, slot);
    lemma_kind_figures(r.kinds@[2], "disputable"@, all, |t: TaskView| t.kind is Disputable, slot);
}

/// A task goes by the name of its kind.
pub proof fn lemma_slug_names_the_kind(t: TaskView)
    ensures
        slug(t.kind) == "hash_match"@ <==> t.kind is HashMatch,
        slug(t.kind) == "consensus"@ <==> t.kind is Consensus,
        slug(t.kind) == "disputable"@ <==> t.kind is Disputable,
{
    lemma_slugs_differ();
}

/// The totals count every task, those that are open and what they offer, and
/// those that were paid and what they paid.
pub proof fn lemma_totals(r: BoardSummaryDto, all: Seq<TaskView>, now: Timestamp)
    requires
        summarizes(r, all, now),
    ensures
        r.total_tasks == all.len(),
        r.totals.open_tasks == how_many(all, |t: TaskView| t.status == TaskStatus::Open),
        r.totals.open_bounty == worth_of(all, |t: TaskView| t.status == TaskStatus::Open),
        r.totals.paid_tasks == how_many(all, |t: TaskView| t.status == TaskStatus::Paid),
        r.totals.paid_bounty == worth_of(all, |t: TaskView| t.status == TaskStatus::Paid),
        r.totals.posted_series@.len() == 24,
        forall|b: int| 0 <= b < 24 ==> (#[trigger] r.totals.posted_series@[b]) == how_many(
            all,
            |t: TaskView| summary_slot(all, now)(t) == Some(b),
        ),
{
    let slot = summary_slot(all, now);
    let open = |t: TaskView| t.status == TaskStatus::Open;
    let paid = |t: TaskView| t.status == TaskStatus::Paid;
    assert(and_open(every_task()) =~= open);
    assert(paid_tasks() =~= paid);
    lemma_count_is_how_many(all, open);
    lemma_count_is_how_many(all, paid);
    assert forall|b: int| 0 <= b < 24 implies (#[trigger] r.totals.posted_series@[b]) == how_many(
        all,
        |t: TaskView| slot(t) == Some(b),
    ) by {
        let s = |t: TaskView| slot(t) == Some(b);
        assert(in_slot(every_task(), slot, b) =~= s);
        lemma_count_is_how_many(all, s);
    }
}

/// Whether the row has the figures of the tasks that carry the tag.
pub open spec fn has_tag_figures(
    row: CapabilitySummaryDto,
    tag: Seq<char>,
    all: Seq<TaskView>,
    slot: spec_fn(TaskView) -> Option<int>,
) -> bool {
    &&& row.capability@ == tag
    &&& row.posted == how_many(all, |t: TaskView| t.capabilities.contains(tag))
    &&& row.open == how_many(all, |t: TaskView| t.capabilities.contains(tag) && t.status == TaskStatus::Open)
    &&& row.open_bounty == worth_of(all, |t: TaskView| t.capabilities.contains(tag) && t.status == TaskStatus::Open)
    &&& row.posted_series@.len() == 24
    &&& row.bounty_series@.len() == 24
    &&& forall|b: int| 0 <= b < 24 ==> (#[trigger] row.posted_series@[b]) == how_many(
        all,
        |t: TaskView| t.capabilities.contains(tag) && slot(t) == Some(b),
    )
    &&& forall|b: int| 0 <= b < 24 ==> (#[trigger] row.bounty_series@[b]) == worth_of(
        all,
        |t: TaskView| t.capabilities.contains(tag) && slot(t) == Some(b),
    )
}

proof fn lemma_tag_figures(
    row: CapabilitySummaryDto,
    tag: Seq<char>,
    all: Seq<TaskView>,
    slot: spec_fn(TaskView) -> Option<int>,
)
    requires
        capability_row(row, tag, all, slot),
    ensures
        has_tag_figures(row, tag, all, slot),
{
    let p = |t: TaskView| t.capabilities.contains(tag);
    let q = |t: TaskView| t.capabilities.contains(tag) && t.status == TaskStatus::Open;
    assert(tagged(tag) =~= p);
    assert(and_open(tagged(tag)) =~= q);
    lemma_count_is_how_many(all, p);
    lemma_count_is_how_many(all, q);
    assert(bounty_if(and_open(tagged(tag))) =~= bounty_if(q));
    assert forall|b: int| 0 <= b < 24 implies (#[trigger] row.posted_series@[b]) == how_many(
        all,
        |t: TaskView| t.capabilities.contains(tag) && slot(t) == Some(b),
    ) by {
        let s = |t: TaskView| t.capabilities.contains(tag) && slot(t) == Some(b);
        assert(in_slot(tagged(tag), slot, b) =~= s);
        lemma_count_is_how_many(all, s);
    }
    assert forall|b: int| 0 <= b < 24 implies (#[trigger] row.bounty_series@[b]) == worth_of(
        all,
        |t: TaskView| t.capabilities.contains(tag) && slot(t) == Some(b),
    ) by {
        let s = |t: TaskView| t.capabilities.contains(tag) && slot(t) == Some(b);
        assert(in_slot(tagged(tag), slot, b) =~= s);
    }
}

/// Whether one of the rows is that of the tag.
pub open spec fn has_row_of(rows: Seq<CapabilitySummaryDto>, tag: Seq<char>) -> bool {
    exists|i: int| 0 <= i < rows.len() && (#[trigger] rows[i]).capability@ == tag
}

/// Every tag that a task carries has a row, no other has, and a row has the
/// figures of the tasks that carry its tag. The tag with the most bounty on offer
/// comes first; of two with as much, the one with more tasks on offer.
pub proof fn lemma_tags_are_ranked_by_offer(r: BoardSummaryDto, all: Seq<TaskView>, now: Timestamp)
    requires
        summarizes(r, all, now),
    ensures
        forall|i: int|
            0 <= i < r.capabilities@.len() ==> has_tag_figures(
                #[trigger] r.capabilities@[i],
                r.capabilities@[i].capability@,
                all,
                summary_slot(all, now),
            ),
        forall|tag: Seq<char>| #[trigger] has_row_of(r.capabilities@, tag) <==> exists|j: int|
            0 <= j < all.len() && (#[trigger] all[j]).capabilities.contains(tag),
        forall|i: int, j: int|
            0 <= i < j < r.capabilities@.len() ==> {
                let (x, y) = (#[trigger] r.capabilities@[i], #[trigger] r.capabilities@[j]);
                x.open_bounty > y.open_bounty || (x.open_bounty == y.open_bounty && x.open >= y.open)
            },
{
    let slot = summary_slot(all, now);
    let rows = r.capabilities@;
    let names = choose|names: Seq<Seq<char>>| #[trigger]
        lists_tags(names, all) && capability_rows(r.capabilities@, names, all, slot);
    let place = capability_place(all);
    let placed = ordered(names, place);
    lemma_ordered_keeps(names, place);
    assert forall|i: int| 0 <= i < rows.len() implies has_tag_figures(
        #[trigger] rows[i],
        rows[i].capability@,
        all,
        slot,
    ) && rows[i].capability@ == placed[i] by {
        assert(capability_row(rows[i], placed[i], all, slot));
        lemma_tag_figures(rows[i], placed[i], all, slot);
    }
    assert forall|tag: Seq<char>| #[trigger] has_row_of(rows, tag) <==> exists|j: int|
        0 <= j < all.len() && (#[trigger] all[j]).capabilities.contains(tag) by {
        assert(names.contains(tag) <==> is_carried(all, tag));
        assert(placed.contains(tag) <==> names.contains(tag));
        if has_row_of(rows, tag) {
            let i = choose|i: int| 0 <= i < rows.len() && (#[trigger] rows[i]).capability@ == tag;
            assert(placed[i] == tag);
        }
        if placed.contains(tag) {
            let i = choose|i: int| 0 <= i < placed.len() && placed[i] == tag;
            assert(rows[i].capability@ == tag);
        }
    }
    assert forall|i: int, j: int| 0 <= i < j < rows.len() implies {
        let (x, y) = (#[trigger] rows[i], #[trigger] rows[j]);
        x.open_bounty > y.open_bounty || (x.open_bounty == y.open_bounty && x.open >= y.open)
    } by {
        assert(capability_row(rows[i], placed[i], all, slot));
        assert(capability_row(rows[j], placed[j], all, slot));
        assert(place(placed[i]) <= place(placed[j]));
    }
}

/// The summary reaches back as far as it has to: it covers the time since the
/// oldest task with the shortest of an hour, six, a day, a week, thirty days and
/// ninety that holds it, and with ninety days where none does; a week where there
/// is no task.
pub proof fn lemma_window_holds_the_board(all: Seq<TaskView>, now: Timestamp)
    ensures
        ({
            let w = window_since(oldest(all), now) as int;
            let span = (now.nanos - oldest(all)->0.nanos) / 1_000_000;
            let hour = 3_600_000int;
            &&& all.len() == 0 ==> w == 168 * hour
            &&& all.len() > 0 ==> {
                &&& w == hour || w == 6 * hour || w == 24 * hour || w == 168 * hour || w == 720 * hour || w == 2160
                    * hour
                &&& span <= w || w == 2160 * hour
                &&& span <= hour ==> w == hour
                &&& hour < span ==> w >= 6 * hour
                &&& span <= 6 * hour ==> w <= 6 * hour
                &&& span <= 24 * hour ==> w <= 24 * hour
                &&& span <= 168 * hour ==> w <= 168 * hour
                &&& span <= 720 * hour ==> w <= 720 * hour
            }
        }),
{
    lemma_oldest(all);
}

/// The oldest of the tasks is one of them, and none was posted before it.
pub proof fn lemma_oldest(all: Seq<TaskView>)
    ensures
        oldest(all) is None <==> all.len() == 0,
        forall|i: int| 0 <= i < all.len() ==> oldest(all)->0.nanos <= (#[trigger] all[i]).created_at.nanos,
        all.len() > 0 ==> exists|i: int| 0 <= i < all.len() && (#[trigger] all[i]).created_at == oldest(all)->0,
    decreases all.len(),
{
    if all.len() > 0 {
        let shorter = all.drop_last();
        lemma_oldest(shorter);
        assert forall|i: int| 0 <= i < all.len() implies oldest(all)->0.nanos <= (#[trigger] all[i]).created_at.nanos by {
            if i < shorter.len() {
                assert(shorter[i] == all[i]);
            }
        }
        let last = all.len() - 1;
        if oldest(all)->0 == all[last].created_at {
            assert(all[last].created_at == oldest(all)->0);
        } else {
            let i = choose|i: int| 0 <= i < shorter.len() && (#[trigger] shorter[i]).created_at == oldest(shorter)->0;
            assert(all[i] == shorter[i]);
        }
    }
}

/// A task counts in the window exactly if it was posted between the window's
/// start and now, and in the last part of it if it was posted just now.
pub proof fn lemma_what_falls_in_the_window(all: Seq<TaskView>, now: Timestamp, t: TaskView)
    ensures
        ({
            let w = window_since(oldest(all), now);
            let at = t.created_at.nanos as int / 1_000_000;
            let end = now.nanos as int / 1_000_000;
            summary_slot(all, now)(t) is Some <==> end - w <= at <= end
        }),
{
}

/// A summary is drawn wherever the bounties of all tasks together are a number of
/// sixty-four bits, and never where those on offer, or those paid, are not.
pub proof fn lemma_when_a_summary_is_drawn(all: Seq<TaskView>, now: Timestamp)
    ensures
        total(all, |t: TaskView| t.bounty as int) <= 0xffff_ffff_ffff_ffff ==> summary_fits(all, now),
        summary_fits(all, now) ==> worth_of(all, |t: TaskView| t.status == TaskStatus::Open) <= 0xffff_ffff_ffff_ffff
            && worth_of(all, |t: TaskView| t.status == TaskStatus::Paid) <= 0xffff_ffff_ffff_ffff,
{
    let every = |t: TaskView| t.bounty as int;
    let slot = summary_slot(all, now);
    let open = |t: TaskView| t.status == TaskStatus::Open;
    let paid = |t: TaskView| t.status == TaskStatus::Paid;
    assert(bounty_if(and_open(every_task())) =~= bounty_if(open));
    assert(bounty_if(paid_tasks()) =~= bounty_if(paid));
    lemma_total_at_most(all, bounty_if(and_open(every_task())), every);
    lemma_total_at_most(all, bounty_if(paid_tasks()), every);
    if total(all, every) <= 0xffff_ffff_ffff_ffff {
        assert forall|tag: Seq<char>| is_carried(all, tag) implies #[trigger] tag_fits(all, slot, tag) by {
            lemma_total_at_most(all, bounty_if(and_open(tagged(tag))), every);
            assert forall|b: int| 0 <= b < 24 implies total(
                all,
                bounty_if(#[trigger] in_slot(tagged(tag), slot, b)),
            ) <= 0xffff_ffff_ffff_ffff by {
                lemma_total_at_most(all, bounty_if(in_slot(tagged(tag), slot, b)), every);
            }
        }
    }
}

}
