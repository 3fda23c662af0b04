//! Lists of records, a page at a time.
use crate::api::dtos::{OrderBookDto, OrderDto, TaskDto, TradeDto};
use crate::api::errors::{refused, ApiError};
use crate::api::requests::{
    filter_named, normal, normalize, parse_status_filter, unknown_status, ListTasksQuery, ListTradesQuery,
    StatusFilter, DEFAULT_TASKS_PAGE_SIZE, DEFAULT_TRADES_PAGE_SIZE, MAX_TASKS_PAGE_SIZE, MAX_TRADES_PAGE_SIZE,
};
use crate::board::book::{asks_of, bids_of};
use crate::board::queries::{goes_to, lemma_task_list, task_list};
use crate::board::types::{opt_text, Order, Payment, Task, TaskStatus, TaskView, Trade};
use crate::board::{BoardView, TaskBoard};
use crate::seqs::{lemma_pick_step, pick, values_that, views};
use crate::sort::{arranged, key1, lemma_order_of, lemma_ordered_views, order_of, ordered, word, SortKey};
use crate::table::rows_of;
use crate::types::PublicKey;
use vstd::prelude::*;

verus! {

/// `n`, or `top` if it is more.
pub open spec fn at_most(n: int, top: int) -> int {
    if n <= top {
        n
    } else {
        top
    }
}

/// The part of a list that starts behind `offset` items and has `limit` at
/// most.
pub open spec fn page<T>(items: Seq<T>, offset: int, limit: int) -> Seq<T> {
    items.subrange(
        at_most(offset, items.len() as int),
        at_most(offset + limit, items.len() as int),
    )
}

/// Pages that follow on each other show every item once: two of them make one
/// longer page.
pub proof fn lemma_pages_join<T>(items: Seq<T>, offset: int, first: int, second: int)
    requires
        0 <= offset,
        0 <= first,
        0 <= second,
    ensures
        page(items, offset, first) + page(items, offset + first, second) == page(items, offset, first + second),
{
    assert(page(items, offset, first) + page(items, offset + first, second) =~= page(items, offset, first + second));
}

/// Where a page starts and ends in a list of `len` items.
pub(crate) fn page_bounds(len: usize, offset: usize, limit: usize) -> (r: (usize, usize))
    ensures
        r.0 == at_most(offset as int, len as int),
        r.1 == at_most(offset + limit, len as int),
        r.0 <= r.1 <= len,
{
    let from: usize = if offset <= len {
        offset
    } else {
        len
    };
    let to: usize = if limit <= len - from {
        from + limit
    } else {
        len
    };
    (from, to)
}

/// How many items a page has that is asked for with `limit`.
pub open spec fn page_size(limit: Option<usize>, default: usize, most: usize) -> usize {
    let asked = match limit {
        Some(n) => n,
        None => default,
    };
    if asked <= most {
        asked
    } else {
        most
    }
}

/// How many items a page has that is asked for with `limit`.
pub(crate) fn sized(limit: Option<usize>, default: usize, most: usize) -> (n: usize)
    ensures
        n == page_size(limit, default, most),
{
    let asked: usize = match limit {
        Some(n) => n,
        None => default,
    };
    if asked <= most {
        asked
    } else {
        most
    }
}

impl StatusFilter {
    /// Whether a task of that status is listed.
    pub open spec fn admits(self, status: TaskStatus) -> bool {
        match self {
            StatusFilter::Any => true,
            StatusFilter::Only(s) => s == status,
        }
    }
}

/// Keeps the tasks that the filter admits.
pub open spec fn standing(filter: StatusFilter) -> spec_fn(TaskView) -> Option<TaskView> {
    |t: TaskView|
        if filter.admits(t.status) {
            Some(t)
        } else {
            None
        }
}

/// When a task was posted.
pub open spec fn age() -> spec_fn(TaskView) -> int {
    |t: TaskView| t.created_at.nanos as int
}

/// Keeps the tasks that carry the tag, or every task if there is none.
pub open spec fn carrying(tag: Option<Seq<char>>) -> spec_fn(TaskView) -> Option<TaskView> {
    |t: TaskView|
        match tag {
            Some(name) => if t.capabilities.contains(name) {
                Some(t)
            } else {
                None
            },
            None => Some(t),
        }
}

/// The tasks of one status or of all, the oldest first, that carry a tag if
/// one is asked for.
pub open spec fn matching_tasks(b: BoardView, filter: StatusFilter, tag: Option<Seq<char>>) -> Seq<TaskView> {
    pick(ordered(pick(task_list(b), standing(filter)), age()), carrying(tag))
}

/// Keeps the tasks that the filter admits.
fn keep_standing<'a>(tasks: &Vec<&'a Task>, filter: StatusFilter) -> (kept: Vec<&'a Task>)
    requires
        forall|i: int| 0 <= i < tasks.len() ==> (#[trigger] tasks@[i])@.wf(),
    ensures
        views(kept@) == pick(views(tasks@), standing(filter)),
        forall|i: int| 0 <= i < kept.len() ==> (#[trigger] kept@[i])@.wf(),
{
    let ghost all = views(tasks@);
    let ghost f = standing(filter);
    let mut kept: Vec<&'a Task> = Vec::new();
    let mut i: usize = 0;
    assert(views(kept@) =~= pick(all.take(0), f));
    while i < tasks.len()
        invariant
            i <= tasks.len(),
            all == views(tasks@),
            f == standing(filter),
            views(kept@) == pick(all.take(i as int), f),
            forall|i: int| 0 <= i < tasks.len() ==> (#[trigger] tasks@[i])@.wf(),
            forall|i: int| 0 <= i < kept.len() ==> (#[trigger] kept@[i])@.wf(),
        decreases tasks.len() - i,
    {
        proof {
            lemma_pick_step(all, f, i as int);
        }
        let ghost before = kept@;
        let task: &'a Task = tasks[i];
        let admitted = match filter {
            StatusFilter::Any => true,
            StatusFilter::Only(s) => s == task.status,
        };
        if admitted {
            kept.push(task);
            assert(views(kept@) =~= views(before).push(task@));
        }
        i += 1;
    }
    assert(all.take(i as int) =~= all);
    kept
}

/// Puts the oldest tasks first.
fn by_age<'a>(tasks: &Vec<&'a Task>) -> (r: Vec<&'a Task>)
    requires
        forall|i: int| 0 <= i < tasks.len() ==> (#[trigger] tasks@[i])@.wf(),
    ensures
        views(r@) == ordered(views(tasks@), age()),
        forall|i: int| 0 <= i < r.len() ==> (#[trigger] r@[i])@.wf(),
{
    let mut keys: Vec<SortKey> = Vec::new();
    let mut i: usize = 0;
    while i < tasks.len()
        invariant
            i <= tasks.len(),
            keys.len() == i,
            forall|j: int|
                0 <= j < i ==> (#[trigger] keys@[j]) == (SortKey {
                    a: (tasks@[j].created_at.nanos + 0x8000_0000_0000_0000_0000_0000_0000_0000int) as u128,
                    b: 0,
                    c: 0,
                    d: 0,
                }),
        decreases tasks.len() - i,
    {
        keys.push(key1(tasks[i].created_at.sort_word()));
        i += 1;
    }
    let ghost key = |t: &Task| age()(t@);
    let r = arranged(tasks, &keys, Ghost(key));
    proof {
        lemma_ordered_views(tasks@, age());
        lemma_order_of(tasks@.map_values(key));
        let o = order_of(tasks@.map_values(key));
        assert forall|i: int| 0 <= i < r.len() implies (#[trigger] r@[i])@.wf() by {
            assert(r@[i] == tasks@[o[i]]);
        }
    }
    r
}

/// Keeps the tasks that carry the tag, or every task if there is none.
fn keep_carrying<'a>(tasks: &Vec<&'a Task>, tag: &Option<String>) -> (kept: Vec<&'a Task>)
    requires
        forall|i: int| 0 <= i < tasks.len() ==> (#[trigger] tasks@[i])@.wf(),
    ensures
        views(kept@) == pick(views(tasks@), carrying(opt_text(*tag))),
        forall|i: int| 0 <= i < kept.len() ==> (#[trigger] kept@[i])@.wf(),
{
    let ghost all = views(tasks@);
    let ghost f = carrying(opt_text(*tag));
    let mut kept: Vec<&'a Task> = Vec::new();
    let mut i: usize = 0;
    assert(views(kept@) =~= pick(all.take(0), f));
    while i < tasks.len()
        invariant
            i <= tasks.len(),
            all == views(tasks@),
            f == carrying(opt_text(*tag)),
            views(kept@) == pick(all.take(i as int), f),
            forall|i: int| 0 <= i < tasks.len() ==> (#[trigger] tasks@[i])@.wf(),
            forall|i: int| 0 <= i < kept.len() ==> (#[trigger] kept@[i])@.wf(),
        decreases tasks.len() - i,
    {
        proof {
            lemma_pick_step(all, f, i as int);
        }
        let ghost before = kept@;
        let task: &'a Task = tasks[i];
        let fits = match tag {
            Some(name) => task.capabilities.contains(name.as_str()),
            None => true,
        };
        if fits {
            kept.push(task);
            assert(views(kept@) =~= views(before).push(task@));
        }
        i += 1;
    }
    assert(all.take(i as int) =~= all);
    kept
}

/// Whether these are what is shown of the tasks, one by one.
pub open spec fn shows_tasks(shown: Seq<TaskDto>, tasks: Seq<TaskView>) -> bool {
    &&& shown.len() == tasks.len()
    &&& forall|i: int| 0 <= i < shown.len() ==> (#[trigger] shown[i]).shows(tasks[i])
}

/// How many tasks match, and a page of them.
pub fn page_of_tasks(board: &TaskBoard, filter: StatusFilter, tag: &Option<String>, offset: usize, limit: usize) -> (r:
    (usize, Vec<TaskDto>))
    requires
        board.wf(),
    ensures
        r.0 == matching_tasks(board@, filter, opt_text(*tag)).len(),
        shows_tasks(
            r.1@,
            page(matching_tasks(board@, filter, opt_text(*tag)), offset as int, limit as int),
        ),
{
    let ghost matching = matching_tasks(board@, filter, opt_text(*tag));
    let all = board.all_tasks();
    proof {
        board.lemma_view_wf();
        lemma_task_list(board@);
        assert forall|i: int| 0 <= i < all.len() implies (#[trigger] all@[i])@.wf() by {
            assert(views(all@)[i] == task_list(board@)[i]);
        }
    }
    let matched = keep_carrying(&by_age(&keep_standing(&all, filter)), tag);
    assert(views(matched@) == matching);
    let (from, to) = page_bounds(matched.len(), offset, limit);
    let mut shown: Vec<TaskDto> = Vec::new();
    let mut i: usize = from;
    while i < to
        invariant
            from <= i <= to,
            to <= matched.len(),
            matching == views(matched@),
            forall|i: int| 0 <= i < matched.len() ==> (#[trigger] matched@[i])@.wf(),
            shown.len() == i - from,
            forall|j: int| 0 <= j < i - from ==> (#[trigger] shown@[j]).shows(matching[from + j]),
        decreases to - i,
    {
        shown.push(TaskDto::from(matched[i]));
        i += 1;
    }
    (matched.len(), shown)
}

/// The filter that a query asks for: the open tasks, unless it names another.
pub open spec fn asked_filter(status: Option<Seq<char>>) -> Option<StatusFilter> {
    match status {
        None => Some(StatusFilter::Only(TaskStatus::Open)),
        Some(name) => filter_named(normal(name)),
    }
}

/// The tag that a query asks for, in the form in which tags are kept.
pub open spec fn asked_tag(tag: Option<Seq<char>>) -> Option<Seq<char>> {
    match tag {
        Some(name) => Some(normal(name)),
        None => None,
    }
}

/// How many tasks a query finds, and the page of them that it asks for.
pub fn list_tasks(board: &TaskBoard, query: &ListTasksQuery) -> (r: Result<(usize, Vec<TaskDto>), ApiError>)
    requires
        board.wf(),
    ensures
        match asked_filter(opt_text(query.status)) {
            None => refused(r, unknown_status(normal(query.status->0@))),
            Some(filter) => {
                let found = matching_tasks(board@, filter, asked_tag(opt_text(query.capability)));
                &&& r is Ok
                &&& r->Ok_0.0 == found.len()
                &&& shows_tasks(
                    r->Ok_0.1@,
                    page(
                        found,
                        query.offset as int,
                        page_size(query.limit, DEFAULT_TASKS_PAGE_SIZE, MAX_TASKS_PAGE_SIZE) as int,
                    ),
                )
            },
        },
{
    let tag = match &query.capability {
        Some(name) => Some(normalize(name.as_str())),
        None => None,
    };
    let filter = match &query.status {
        None => StatusFilter::Only(TaskStatus::Open),
        Some(name) => match parse_status_filter(name.as_str()) {
            Ok(f) => f,
            Err(e) => return Err(e),
        },
    };
    let limit = sized(query.limit, DEFAULT_TASKS_PAGE_SIZE, MAX_TASKS_PAGE_SIZE);
    Ok(page_of_tasks(board, filter, &tag, query.offset, limit))
}

/// Whether these are what is shown of the orders, one by one.
pub open spec fn shows_orders(shown: Seq<OrderDto>, orders: Seq<Order>) -> bool {
    &&& shown.len() == orders.len()
    &&& forall|i: int| 0 <= i < shown.len() ==> (#[trigger] shown[i]).shows(orders[i])
}

fn show_orders(orders: &Vec<&Order>) -> (shown: Vec<OrderDto>)
    ensures
        shows_orders(shown@, views(orders@)),
{
    let mut shown: Vec<OrderDto> = Vec::new();
    let mut i: usize = 0;
    while i < orders.len()
        invariant
            i <= orders.len(),
            shown.len() == i,
            forall|j: int| 0 <= j < i ==> (#[trigger] shown@[j]).shows(*orders@[j]),
        decreases orders.len() - i,
    {
        shown.push(OrderDto::from(orders[i]));
        i += 1;
    }
    shown
}

/// The orders that rest on the book, the best in front on either side.
pub fn get_order_book(board: &TaskBoard) -> (book: OrderBookDto)
    requires
        board.wf(),
    ensures
        shows_orders(book.bids@, bids_of(board@)),
        shows_orders(book.asks@, asks_of(board@)),
{
    let (bids, asks) = board.order_book();
    OrderBookDto { bids: show_orders(&bids), asks: show_orders(&asks) }
}

/// Every trade, the latest first.
pub open spec fn latest_trades(b: BoardView) -> Seq<Trade> {
    ordered(values_that(rows_of(b.trades), |t: Trade| true), |t: Trade| -t.executed_at.nanos)
}

/// Whether these are what is shown of the trades, one by one.
pub open spec fn shows_trades(shown: Seq<TradeDto>, trades: Seq<Trade>) -> bool {
    &&& shown.len() == trades.len()
    &&& forall|i: int| 0 <= i < shown.len() ==> (#[trigger] shown[i]).shows(trades[i])
}

/// The page of trades that a query asks for, the latest first.
pub fn list_trades(board: &TaskBoard, query: &ListTradesQuery) -> (shown: Vec<TradeDto>)
    requires
        board.wf(),
    ensures
        shows_trades(
            shown@,
            page(
                latest_trades(board@),
                query.offset as int,
                page_size(query.limit, DEFAULT_TRADES_PAGE_SIZE, MAX_TRADES_PAGE_SIZE) as int,
            ),
        ),
{
    let limit = sized(query.limit, DEFAULT_TRADES_PAGE_SIZE, MAX_TRADES_PAGE_SIZE);
    let trades = board.all_trades_newest_first();
    let ghost all = latest_trades(board@);
    assert(views(trades@) == all);
    let (from, to) = page_bounds(trades.len(), query.offset, limit);
    let mut shown: Vec<TradeDto> = Vec::new();
    let mut i: usize = from;
    while i < to
        invariant
            from <= i <= to,
            to <= trades.len(),
            all == views(trades@),
            shown.len() == i - from,
            forall|j: int| 0 <= j < i - from ==> (#[trigger] shown@[j]).shows(all[from + j]),
        decreases to - i,
    {
        shown.push(TradeDto::from(trades[i]));
        i += 1;
    }
    shown
}

/// How many payments are listed unless asked otherwise.
pub const DEFAULT_PAYMENTS_PAGE_SIZE: usize = 50;

/// How many payments are listed at most.
pub const MAX_PAYMENTS_PAGE_SIZE: usize = 200;

/// A payment's place in a list: the latest first, then the lowest id.
pub open spec fn payment_place() -> spec_fn(Payment) -> int {
    |p: Payment| -p.created_at.nanos * word() + p.id
}

/// Every payment to an address, the latest first.
pub open spec fn payments_in_order(b: BoardView, recipient: PublicKey) -> Seq<Payment> {
    ordered(values_that(rows_of(b.payments), goes_to(recipient)), payment_place())
}

/// A page of the payments to an address, the latest first.
pub fn list_payments(board: &TaskBoard, recipient: &PublicKey, offset: usize, limit: Option<usize>) -> (shown: Vec<
    Payment,
>)
    requires
        board.wf(),
    ensures
        shown@ == page(
            payments_in_order(board@, *recipient),
            offset as int,
            page_size(limit, DEFAULT_PAYMENTS_PAGE_SIZE, MAX_PAYMENTS_PAGE_SIZE) as int,
        ),
{
    let found = board.payments_to(recipient);
    let mut keys: Vec<SortKey> = Vec::new();
    let mut k: usize = 0;
    while k < found.len()
        invariant
            k <= found.len(),
            keys.len() == k,
            forall|j: int|
                0 <= j < k ==> (#[trigger] keys@[j]) == (SortKey {
                    a: (u128::MAX - (found@[j].created_at.nanos + 0x8000_0000_0000_0000_0000_0000_0000_0000int)) as u128,
                    b: found@[j].id,
                    c: 0,
                    d: 0,
                }),
        decreases found.len() - k,
    {
        let p = found[k];
        keys.push(SortKey { a: u128::MAX - p.created_at.sort_word(), b: p.id, c: 0, d: 0 });
        k += 1;
    }
    let ghost key = |p: &Payment| payment_place()(p@);
    let sorted = arranged(&found, &keys, Ghost(key));
    proof {
        lemma_ordered_views(found@, payment_place());
    }
    let ghost all = payments_in_order(board@, *recipient);
    assert(views(sorted@) == all);
    let (from, to) = page_bounds(
        sorted.len(),
        offset,
        sized(limit, DEFAULT_PAYMENTS_PAGE_SIZE, MAX_PAYMENTS_PAGE_SIZE),
    );
    let mut shown: Vec<Payment> = Vec::new();
    let mut i: usize = from;
    while i < to
        invariant
            from <= i <= to,
            to <= sorted.len(),
            all == views(sorted@),
            shown.len() == i - from,
            forall|j: int| 0 <= j < i - from ==> (#[trigger] shown@[j]) == all[from + j],
        decreases to - i,
    {
        shown.push(*sorted[i]);
        i += 1;
    }
    shown
}

}
