//! What somebody who lists what is on the board can rely on.
use crate::api::errors::ApiError;
use crate::api::listings::{
    age, asked_filter, asked_tag, carrying, latest_trades, matching_tasks, page, page_size, payment_place,
    payments_in_order, standing, DEFAULT_PAYMENTS_PAGE_SIZE, MAX_PAYMENTS_PAGE_SIZE,
};
use crate::api::requests::{
    filter_named, normal, normals, overlong, validates, window_refusal, StatusFilter, DEFAULT_TASKS_PAGE_SIZE,
    DEFAULT_TRADES_PAGE_SIZE, MAX_TASKS_PAGE_SIZE, MAX_TRADES_PAGE_SIZE,
};
use crate::board::BoardView;
use crate::board::book::{ask_place, asks_of, bid_place, bids_of, earnings, leaders, rests, top_earners};
use crate::board::deposits::DepositView;
use crate::board::queries::{escrow_behind, goes_to, open_tasks, overdue_deposits, task_list, verified_tasks};
use crate::board::types::{EscrowStatus, Order, OrderStatus, Payment, Reputation, Side, TaskStatus, TaskView, Trade};
use crate::seqs::{lemma_pick_found, lemma_pick_source, pick, values_that};
use crate::sort::{lemma_ordered_keeps, ordered, word};
use crate::table::{lemma_listed, lemma_row_is_mapped, listable, row_of, rows_of, Key};
use crate::tags::Tags;
use crate::text::{lowercase, trimmed};
use crate::types::{Id, PublicKey, Timestamp};
use vstd::prelude::*;
use vstd::string::*;

verus! {

/// What is listed of a map is what is on it and meets the condition.
proof fn lemma_listed_values<K: Key, T>(m: Map<K, T>, p: spec_fn(T) -> bool, x: T)
    requires
        listable(m),
    ensures
        values_that(rows_of(m), p).contains(x) <==> p(x) && exists|k: K| #[trigger] m.contains_key(k) && m[k] == x,
{
    let rows = rows_of(m);
    lemma_listed(m);
    let f = |row: (K, T)| if p(row.1) { Some(row.1) } else { None };
    let all = values_that(rows, p);
    if all.contains(x) {
        let j = choose|j: int| 0 <= j < all.len() && all[j] == x;
        lemma_pick_source(rows, f, j);
        let i = choose|i: int| 0 <= i < rows.len() && f(#[trigger] rows[i]) == Some(all[j]);
        lemma_row_is_mapped(rows, i);
        assert(m.contains_key(rows[i].0) && m[rows[i].0] == x);
    }
    if p(x) && exists|k: K| #[trigger] m.contains_key(k) && m[k] == x {
        let k = choose|k: K| #[trigger] m.contains_key(k) && m[k] == x;
        let i = row_of(rows, k);
        lemma_row_is_mapped(rows, i);
        lemma_pick_found(rows, f, i);
    }
}

/// What a selection of tasks keeps is what it says it keeps.
proof fn lemma_kept_tasks(s: Seq<TaskView>, f: spec_fn(TaskView) -> Option<TaskView>, x: TaskView)
    requires
        forall|t: TaskView| #[trigger] f(t) is Some ==> f(t)->0 == t,
    ensures
        pick(s, f).contains(x) <==> s.contains(x) && f(x) is Some,
{
    let all = pick(s, f);
    if all.contains(x) {
        let j = choose|j: int| 0 <= j < all.len() && all[j] == x;
        lemma_pick_source(s, f, j);
        let i = choose|i: int| 0 <= i < s.len() && f(#[trigger] s[i]) == Some(all[j]);
        assert(s[i] == x);
    }
    if s.contains(x) && f(x) is Some {
        let i = choose|i: int| 0 <= i < s.len() && s[i] == x;
        lemma_pick_found(s, f, i);
    }
}

/// A selection keeps the order.
proof fn lemma_kept_in_order(s: Seq<TaskView>, f: spec_fn(TaskView) -> Option<TaskView>)
    requires
        forall|t: TaskView| #[trigger] f(t) is Some ==> f(t)->0 == t,
        forall|i: int, j: int|
            0 <= i < j < s.len() ==> (#[trigger] s[i]).created_at.nanos <= (#[trigger] s[j]).created_at.nanos,
    ensures
        forall|i: int, j: int|
            0 <= i < j < pick(s, f).len() ==> (#[trigger] pick(s, f)[i]).created_at.nanos <= (#[trigger] pick(
                s,
                f,
            )[j]).created_at.nanos,
    decreases s.len(),
{
    if s.len() > 0 {
        let shorter = s.drop_last();
        let last = s.len() - 1;
        assert forall|i: int, j: int| 0 <= i < j < shorter.len() implies (#[trigger] shorter[i]).created_at.nanos <= (
        #[trigger] shorter[j]).created_at.nanos by {
            assert(s[i].created_at.nanos <= s[j].created_at.nanos);
        }
        lemma_kept_in_order(shorter, f);
        let fewer = pick(shorter, f);
        assert forall|i: int| 0 <= i < fewer.len() implies (#[trigger] fewer[i]).created_at.nanos
            <= s[last].created_at.nanos by {
            lemma_pick_source(shorter, f, i);
            let n = choose|n: int| 0 <= n < shorter.len() && f(#[trigger] shorter[n]) == Some(fewer[i]);
            assert(s[n] == shorter[n]);
            assert(s[n].created_at.nanos <= s[last].created_at.nanos);
        }
    }
}

/// A task is listed exactly if it is on the board, has the status that is asked
/// for and carries the tag, where one is asked for. The oldest is listed first.
pub proof fn lemma_which_tasks_are_listed(b: BoardView, filter: StatusFilter, tag: Option<Seq<char>>, t: TaskView)
    requires
        b.wf(),
    ensures
        ({
            let all = matching_tasks(b, filter, tag);
            let right = match filter {
                StatusFilter::Any => true,
                StatusFilter::Only(s) => t.status == s,
            };
            &&& all.contains(t) <==> {
                &&& b.tasks.contains_key(t.id)
                &&& b.tasks[t.id] == t
                &&& right
                &&& tag is Some ==> t.capabilities.contains(tag->0)
            }
            &&& forall|i: int, j: int|
                0 <= i < j < all.len() ==> (#[trigger] all[i]).created_at.nanos <= (#[trigger] all[j]).created_at.nanos
        }),
{
    let list = task_list(b);
    let some = pick(list, standing(filter));
    let aged = ordered(some, age());
    lemma_listed_values(b.tasks, |t: TaskView| true, t);
    lemma_kept_tasks(list, standing(filter), t);
    lemma_ordered_keeps(some, age());
    assert(aged.contains(t) <==> some.contains(t));
    lemma_kept_tasks(aged, carrying(tag), t);
    assert forall|i: int, j: int| 0 <= i < j < aged.len() implies (#[trigger] aged[i]).created_at.nanos <= (
    #[trigger] aged[j]).created_at.nanos by {
        assert(age()(aged[i]) <= age()(aged[j]));
    }
    lemma_kept_in_order(aged, carrying(tag));
    if b.tasks.contains_key(t.id) && b.tasks[t.id] == t {
        assert(list.contains(t));
    }
    if list.contains(t) {
        let k = choose|k: Id| #[trigger] b.tasks.contains_key(k) && b.tasks[k] == t;
        assert(b.tasks[k].id == k);
    }
}

/// A page shows as many items as were asked for, from where it was asked for on,
/// as far as there are any.
pub proof fn lemma_what_a_page_shows<T>(items: Seq<T>, offset: int, limit: int)
    requires
        0 <= offset,
        0 <= limit,
    ensures
        ({
            let p = page(items, offset, limit);
            let left = items.len() - offset;
            &&& left <= 0 ==> p.len() == 0
            &&& 0 < left <= limit ==> p.len() == left
            &&& limit < left ==> p.len() == limit
            &&& forall|i: int| 0 <= i < p.len() ==> #[trigger] p[i] == items[offset + i]
        }),
{
}

/// Pages have fifty items unless asked otherwise, and two hundred at most.
pub proof fn lemma_how_long_pages_are(limit: usize)
    ensures
        page_size(None, DEFAULT_TASKS_PAGE_SIZE, MAX_TASKS_PAGE_SIZE) == 50,
        page_size(None, DEFAULT_TRADES_PAGE_SIZE, MAX_TRADES_PAGE_SIZE) == 50,
        page_size(None, DEFAULT_PAYMENTS_PAGE_SIZE, MAX_PAYMENTS_PAGE_SIZE) == 50,
        limit <= 200 ==> page_size(Some(limit), DEFAULT_TASKS_PAGE_SIZE, MAX_TASKS_PAGE_SIZE) == limit && page_size(
            Some(limit),
            DEFAULT_TRADES_PAGE_SIZE,
            MAX_TRADES_PAGE_SIZE,
        ) == limit && page_size(Some(limit), DEFAULT_PAYMENTS_PAGE_SIZE, MAX_PAYMENTS_PAGE_SIZE) == limit,
        limit > 200 ==> page_size(Some(limit), DEFAULT_TASKS_PAGE_SIZE, MAX_TASKS_PAGE_SIZE) == 200 && page_size(
            Some(limit),
            DEFAULT_TRADES_PAGE_SIZE,
            MAX_TRADES_PAGE_SIZE,
        ) == 200 && page_size(Some(limit), DEFAULT_PAYMENTS_PAGE_SIZE, MAX_PAYMENTS_PAGE_SIZE) == 200,
{
}

/// Each status is asked for by its own name, and all of them together by `all`;
/// who names none is shown what is open.
pub proof fn lemma_statuses_go_by_their_names()
    ensures
        asked_filter(None) == Some(StatusFilter::Only(TaskStatus::Open)),
        filter_named("all"@) == Some(StatusFilter::Any),
        filter_named("open"@) == Some(StatusFilter::Only(TaskStatus::Open)),
        filter_named("claimed"@) == Some(StatusFilter::Only(TaskStatus::Claimed)),
        filter_named("awaitingdispute"@) == Some(StatusFilter::Only(TaskStatus::AwaitingDispute)),
        filter_named("disputed"@) == Some(StatusFilter::Only(TaskStatus::Disputed)),
        filter_named("verified"@) == Some(StatusFilter::Only(TaskStatus::Verified)),
        filter_named("submitted"@) == Some(StatusFilter::Only(TaskStatus::Submitted)),
        filter_named("paid"@) == Some(StatusFilter::Only(TaskStatus::Paid)),
        filter_named("payoutfailed"@) == Some(StatusFilter::Only(TaskStatus::PayoutFailed)),
        filter_named("closed"@) == Some(StatusFilter::Only(TaskStatus::Closed)),
{
    reveal_strlit("all");
    reveal_strlit("open");
    reveal_strlit("claimed");
    reveal_strlit("awaitingdispute");
    reveal_strlit("disputed");
    reveal_strlit("verified");
    reveal_strlit("submitted");
    reveal_strlit("paid");
    reveal_strlit("payoutfailed");
    reveal_strlit("closed");
    assert("all"@.len() == 3 && "open"@.len() == 4 && "paid"@.len() == 4 && "closed"@.len() == 6);
    assert("claimed"@.len() == 7 && "disputed"@.len() == 8 && "verified"@.len() == 8 && "submitted"@.len() == 9);
    assert("payoutfailed"@.len() == 12 && "awaitingdispute"@.len() == 15);
    assert("open"@[0] == 'o' && "paid"@[0] == 'p' && "disputed"@[0] == 'd' && "verified"@[0] == 'v');
}

/// Tags are asked for, and kept, without the white space around them and in lower
/// case.
pub proof fn lemma_tags_are_kept_in_one_form(tag: Seq<char>)
    ensures
        normal(tag) == lowercase(trimmed(tag)),
        asked_tag(Some(tag)) == Some(lowercase(trimmed(tag))),
        asked_tag(None) is None,
{
}

/// Tags are refused exactly if there are more than twenty or one, as it is kept, is
/// longer than sixty-four characters; and else those that are not empty are kept,
/// and no others.
pub proof fn lemma_limits_of_tags(raw: Seq<Seq<char>>, r: Result<Tags, ApiError>, tag: Seq<char>)
    requires
        validates(raw, r),
    ensures
        r is Ok <==> raw.len() <= 20 && forall|i: int|
            0 <= i < raw.len() ==> lowercase(trimmed(#[trigger] raw[i])).len() <= 64,
        r is Ok ==> (r->Ok_0@.contains(tag) <==> tag.len() > 0 && exists|i: int|
            0 <= i < raw.len() && lowercase(trimmed(#[trigger] raw[i])) == tag),
{
    let kept = normals(raw);
    lemma_overlong(kept);
    assert forall|i: int| 0 <= i < raw.len() implies kept[i] == lowercase(trimmed(#[trigger] raw[i])) by {
    }
    if overlong(kept) is None {
        assert forall|i: int| 0 <= i < raw.len() implies lowercase(trimmed(#[trigger] raw[i])).len() <= 64 by {
            assert(kept[i].len() <= 64);
        }
    } else {
        let i = choose|i: int| 0 <= i < kept.len() && (#[trigger] kept[i]).len() > 64;
        assert(lowercase(trimmed(raw[i])).len() > 64);
    }
    if r is Ok {
        if r->Ok_0@.contains(tag) {
            let i = choose|i: int| 0 <= i < kept.len() && kept[i] == tag;
            assert(lowercase(trimmed(raw[i])) == tag);
        }
        if tag.len() > 0 && exists|i: int| 0 <= i < raw.len() && lowercase(trimmed(#[trigger] raw[i])) == tag {
            let i = choose|i: int| 0 <= i < raw.len() && lowercase(trimmed(#[trigger] raw[i])) == tag;
            assert(kept[i] == tag);
        }
    }
}

proof fn lemma_overlong(tags: Seq<Seq<char>>)
    ensures
        overlong(tags) is Some <==> exists|i: int| 0 <= i < tags.len() && (#[trigger] tags[i]).len() > 64,
    decreases tags.len(),
{
    if tags.len() > 0 {
        let shorter = tags.drop_last();
        lemma_overlong(shorter);
        let last = tags.len() - 1;
        if exists|i: int| 0 <= i < tags.len() && (#[trigger] tags[i]).len() > 64 {
            let i = choose|i: int| 0 <= i < tags.len() && (#[trigger] tags[i]).len() > 64;
            if i < last {
                assert(shorter[i] == tags[i]);
            }
        }
        if overlong(shorter) is Some {
            let i = choose|i: int| 0 <= i < shorter.len() && (#[trigger] shorter[i]).len() > 64;
            assert(tags[i] == shorter[i]);
        }
        assert(tags.last() == tags[last]);
    }
}

/// A window is from a minute to a year.
pub proof fn lemma_limits_of_a_window(minutes: i64, field: Seq<char>)
    ensures
        window_refusal(minutes, field) is None <==> 1 <= minutes <= 525_600,
{
}

/// The book shows the orders that are open: of the bids the dearest first, of the
/// asks the cheapest, and of one price the earliest.
pub proof fn lemma_the_book(b: BoardView, o: Order)
    requires
        b.wf(),
    ensures
        ({
            let (bids, asks) = (bids_of(b), asks_of(b));
            let filed = b.orders.contains_key(o.id) && b.orders[o.id] == o && o.status == OrderStatus::Open;
            &&& bids.contains(o) <==> filed && o.side == Side::Buy
            &&& asks.contains(o) <==> filed && o.side == Side::Sell
            &&& forall|i: int, j: int|
                0 <= i < j < bids.len() ==> (#[trigger] bids[i]).price > (#[trigger] bids[j]).price || (bids[i].price
                    == bids[j].price && bids[i].created_at.nanos <= bids[j].created_at.nanos)
            &&& forall|i: int, j: int|
                0 <= i < j < asks.len() ==> (#[trigger] asks[i]).price < (#[trigger] asks[j]).price || (asks[i].price
                    == asks[j].price && asks[i].created_at.nanos <= asks[j].created_at.nanos)
        }),
{
    let (bids, asks) = (bids_of(b), asks_of(b));
    let x = |o: Order| rests(o, Side::Buy);
    let y = |o: Order| rests(o, Side::Sell);
    let bid = |o: Order| bid_place(o);
    let ask = |o: Order| ask_place(o);
    lemma_listed_values(b.orders, x, o);
    lemma_listed_values(b.orders, y, o);
    lemma_ordered_keeps(values_that(rows_of(b.orders), x), bid);
    lemma_ordered_keeps(values_that(rows_of(b.orders), y), ask);
    assert(bids.contains(o) <==> values_that(rows_of(b.orders), x).contains(o));
    assert(asks.contains(o) <==> values_that(rows_of(b.orders), y).contains(o));
    assert forall|i: int, j: int| 0 <= i < j < bids.len() implies (#[trigger] bids[i]).price > (
    #[trigger] bids[j]).price || (bids[i].price == bids[j].price && bids[i].created_at.nanos
        <= bids[j].created_at.nanos) by {
        assert(bid(bids[i]) <= bid(bids[j]));
    }
    assert forall|i: int, j: int| 0 <= i < j < asks.len() implies (#[trigger] asks[i]).price < (
    #[trigger] asks[j]).price || (asks[i].price == asks[j].price && asks[i].created_at.nanos
        <= asks[j].created_at.nanos) by {
        assert(ask(asks[i]) <= ask(asks[j]));
    }
    if exists|k: Id| #[trigger] b.orders.contains_key(k) && b.orders[k] == o {
        let k = choose|k: Id| #[trigger] b.orders.contains_key(k) && b.orders[k] == o;
        assert(b.orders[k].id == k);
    }
}

/// Every trade is shown, the latest first.
pub proof fn lemma_latest_trades(b: BoardView, t: Trade)
    requires
        b.wf(),
    ensures
        latest_trades(b).contains(t) <==> b.trades.contains_key(t.id) && b.trades[t.id] == t,
        forall|i: int, j: int|
            0 <= i < j < latest_trades(b).len() ==> (#[trigger] latest_trades(b)[i]).executed_at.nanos >= (
            #[trigger] latest_trades(b)[j]).executed_at.nanos,
{
    let p = |t: Trade| true;
    let key = |t: Trade| -t.executed_at.nanos;
    let all = latest_trades(b);
    lemma_listed_values(b.trades, p, t);
    lemma_ordered_keeps(values_that(rows_of(b.trades), p), key);
    assert(all.contains(t) <==> values_that(rows_of(b.trades), p).contains(t));
    assert forall|i: int, j: int| 0 <= i < j < all.len() implies (#[trigger] all[i]).executed_at.nanos >= (
    #[trigger] all[j]).executed_at.nanos by {
        assert(key(all[i]) <= key(all[j]));
    }
    if exists|k: Id| #[trigger] b.trades.contains_key(k) && b.trades[k] == t {
        let k = choose|k: Id| #[trigger] b.trades.contains_key(k) && b.trades[k] == t;
        assert(b.trades[k].id == k);
    }
}

/// The payments shown for an address are those to it, the latest first.
pub proof fn lemma_payments_to_an_address(b: BoardView, recipient: PublicKey, p: Payment)
    requires
        b.wf(),
    ensures
        ({
            let all = payments_in_order(b, recipient);
            &&& all.contains(p) <==> b.payments.contains_key(p.id) && b.payments[p.id] == p && p.recipient == recipient
            &&& forall|i: int, j: int|
                0 <= i < j < all.len() ==> (#[trigger] all[i]).created_at.nanos >= (#[trigger] all[j]).created_at.nanos
        }),
{
    let all = payments_in_order(b, recipient);
    lemma_listed_values(b.payments, goes_to(recipient), p);
    lemma_ordered_keeps(values_that(rows_of(b.payments), goes_to(recipient)), payment_place());
    assert(all.contains(p) <==> values_that(rows_of(b.payments), goes_to(recipient)).contains(p));
    assert forall|i: int, j: int| 0 <= i < j < all.len() implies (#[trigger] all[i]).created_at.nanos >= (
    #[trigger] all[j]).created_at.nanos by {
        assert(payment_place()(all[i]) <= payment_place()(all[j]));
        let (x, y) = (all[i], all[j]);
        assert(0 <= x.id < word() && 0 <= y.id < word());
    }
    if exists|k: Id| #[trigger] b.payments.contains_key(k) && b.payments[k] == p {
        let k = choose|k: Id| #[trigger] b.payments.contains_key(k) && b.payments[k] == p;
        assert(b.payments[k].id == k);
    }
}

/// Everybody on record can lead; whoever earned most does, and no more lead than
/// were asked for.
pub proof fn lemma_who_leads(b: BoardView, n: usize, row: (PublicKey, Reputation))
    requires
        b.wf(),
    ensures
        ({
            let all = top_earners(b);
            &&& all.contains(row) <==> b.reputation.contains_key(row.0) && b.reputation[row.0] == row.1
            &&& forall|i: int, j: int|
                0 <= i < j < all.len() ==> (#[trigger] all[i]).1.total_earned >= (#[trigger] all[j]).1.total_earned
            &&& leaders(b, n).len() == if n < all.len() { n as int } else { all.len() as int }
            &&& forall|i: int| 0 <= i < leaders(b, n).len() ==> #[trigger] leaders(b, n)[i] == all[i]
        }),
{
    let rows = rows_of(b.reputation);
    lemma_listed(b.reputation);
    lemma_ordered_keeps(rows, earnings());
    let all = top_earners(b);
    assert(all.contains(row) <==> rows.contains(row));
    if rows.contains(row) {
        let i = choose|i: int| 0 <= i < rows.len() && rows[i] == row;
        lemma_row_is_mapped(rows, i);
    }
    if b.reputation.contains_key(row.0) && b.reputation[row.0] == row.1 {
        let i = row_of(rows, row.0);
        lemma_row_is_mapped(rows, i);
        assert(rows[i] == row);
    }
    assert forall|i: int, j: int| 0 <= i < j < all.len() implies (#[trigger] all[i]).1.total_earned >= (
    #[trigger] all[j]).1.total_earned by {
        assert(earnings()(all[i]) <= earnings()(all[j]));
    }
}

/// The tasks that are on offer are the open ones, those to be settled the verified
/// ones, and the deposits to be let go those that were reserved and not paid in
/// time. The deposit behind a task is the one it names.
pub proof fn lemma_what_is_looked_up(b: BoardView, t: TaskView, d: DepositView, now: Timestamp, id: Id)
    requires
        b.wf(),
    ensures
        ({
            let filed = b.tasks.contains_key(t.id) && b.tasks[t.id] == t;
            &&& open_tasks(b).contains(t) <==> filed && t.status == TaskStatus::Open
            &&& verified_tasks(b).contains(t) <==> filed && t.status == TaskStatus::Verified
            &&& task_list(b).contains(t) <==> filed
            &&& overdue_deposits(b, now).contains(d) <==> b.pending_deposits.contains_key(d.id)
                && b.pending_deposits[d.id] == d && d.status == EscrowStatus::Reserved && d.expires_at.nanos < now.nanos
            &&& escrow_behind(b, id) == Some(d) ==> b.tasks.contains_key(id) && b.tasks[id].escrow_id == Some(d.id)
                && b.pending_deposits[d.id] == d
            &&& b.tasks.contains_key(id) && b.tasks[id].escrow_id == Some(d.id) && b.pending_deposits.contains_key(d.id)
                && b.pending_deposits[d.id] == d ==> escrow_behind(b, id) == Some(d)
        }),
{
    lemma_listed_values(b.tasks, |t: TaskView| t.status == TaskStatus::Open, t);
    lemma_listed_values(b.tasks, |t: TaskView| t.status == TaskStatus::Verified, t);
    lemma_listed_values(b.tasks, |t: TaskView| true, t);
    lemma_listed_values(
        b.pending_deposits,
        |d: DepositView| d.status == EscrowStatus::Reserved && now.nanos > d.expires_at.nanos,
        d,
    );
    if exists|k: Id| #[trigger] b.tasks.contains_key(k) && b.tasks[k] == t {
        let k = choose|k: Id| #[trigger] b.tasks.contains_key(k) && b.tasks[k] == t;
        assert(b.tasks[k].id == k);
    }
    if exists|k: Id| #[trigger] b.pending_deposits.contains_key(k) && b.pending_deposits[k] == d {
        let k = choose|k: Id| #[trigger] b.pending_deposits.contains_key(k) && b.pending_deposits[k] == d;
        assert(b.pending_deposits[k].id == k);
    }
}

}
