//! The leaderboard: every agent in the order of one figure, and the part of it
//! that is asked for.
use crate::api::dtos::{LeaderboardEntryDto, ReputationDto};
use crate::api::listings::{page, page_bounds, page_size, sized};
use crate::api::requests::LeaderboardQuery;
use crate::board::book::{earnings, top_earners};
use crate::board::types::{opt_text, Reputation};
use crate::board::{BoardView, TaskBoard};
use crate::seqs::{lemma_pick_step, pick};
use crate::sort::{arranged, lemma_order_of, order_of, ordered, word, SortKey};
use crate::table::{lemma_listed, rows_of, Key, Table};
use crate::text::{contains, has_part, hex_text, lowercase, same, to_lowercase, trim, trimmed};
use crate::types::PublicKey;
use vstd::prelude::*;
use vstd::string::*;

verus! {

/// How many agents are listed unless asked otherwise.
pub const DEFAULT_LEADERBOARD_PAGE_SIZE: usize = 50;

/// How many agents are listed at most.
pub const MAX_LEADERBOARD_PAGE_SIZE: usize = 50;

/// The figure that ranks the agents.
#[derive(Debug, Clone, Copy, PartialEq, Eq, Structural)]
pub enum LeaderboardSort {
    Earned,
    Completed,
    Failed,
    /// The balance on chain, which the board does not know.
    NetWorth,
}

/// The column of that name; earnings for any other name, and for none.
pub open spec fn column_named(name: Option<Seq<char>>) -> LeaderboardSort {
    match name {
        Some(raw) => if trimmed(raw) == "completed"@ {
            LeaderboardSort::Completed
        } else if trimmed(raw) == "failed"@ {
            LeaderboardSort::Failed
        } else if trimmed(raw) == "net_worth"@ {
            LeaderboardSort::NetWorth
        } else {
            LeaderboardSort::Earned
        },
        None => LeaderboardSort::Earned,
    }
}

/// A borrowed text that may be missing, by its view.
pub open spec fn opt_str(text: Option<&str>) -> Option<Seq<char>> {
    match text {
        Some(t) => Some(t@),
        None => None,
    }
}

impl LeaderboardSort {
    /// The column that is asked for; one that is not known is no error.
    pub fn parse(raw: Option<&str>) -> (sort: LeaderboardSort)
        ensures
            sort == column_named(opt_str(raw)),
    {
        match raw {
            Some(text) => {
                let name = trim(text);
                if same(name, "completed") {
                    LeaderboardSort::Completed
                } else if same(name, "failed") {
                    LeaderboardSort::Failed
                } else if same(name, "net_worth") {
                    LeaderboardSort::NetWorth
                } else {
                    LeaderboardSort::Earned
                }
            },
            None => LeaderboardSort::Earned,
        }
    }

    /// The figure an agent's record has in this column.
    pub open spec fn figure(self, r: Reputation) -> Option<u64> {
        match self {
            LeaderboardSort::Earned => Some(r.total_earned),
            LeaderboardSort::Completed => Some(r.completed),
            LeaderboardSort::Failed => Some(r.failed),
            LeaderboardSort::NetWorth => None,
        }
    }

    /// The figure an agent's record has in this column. A balance is not on
    /// record: there is none, rather than zero.
    pub fn key(self, reputation: &Reputation) -> (figure: Option<u64>)
        ensures
            figure == self.figure(*reputation),
    {
        match self {
            LeaderboardSort::Earned => Some(reputation.total_earned),
            LeaderboardSort::Completed => Some(reputation.completed),
            LeaderboardSort::Failed => Some(reputation.failed),
            LeaderboardSort::NetWorth => None,
        }
    }
}

/// A figure's place in the ranking: the greatest first unless it is ascending,
/// and an agent without a figure behind all others either way.
pub open spec fn figure_place(figure: Option<u64>, ascending: bool) -> int {
    match figure {
        Some(n) => if ascending {
            n as int
        } else {
            u64::MAX - n
        },
        None => u64::MAX + 1,
    }
}

/// Compares two agents by their figures.
pub fn compare_for_ranking(left: Option<u64>, right: Option<u64>, ascending: bool) -> (o: std::cmp::Ordering)
    ensures
        o is Less <==> figure_place(left, ascending) < figure_place(right, ascending),
        o is Equal <==> figure_place(left, ascending) == figure_place(right, ascending),
        o is Greater <==> figure_place(left, ascending) > figure_place(right, ascending),
{
    match (left, right) {
        (Some(left), Some(right)) => {
            let (first, second) = if ascending {
                (left, right)
            } else {
                (right, left)
            };
            if first < second {
                std::cmp::Ordering::Less
            } else if first == second {
                std::cmp::Ordering::Equal
            } else {
                std::cmp::Ordering::Greater
            }
        },
        (Some(_), None) => std::cmp::Ordering::Less,
        (None, Some(_)) => std::cmp::Ordering::Greater,
        (None, None) => std::cmp::Ordering::Equal,
    }
}

/// An agent who has no figure comes after every agent who has one, whichever
/// way the ranking goes.
pub proof fn lemma_no_figure_is_last(n: u64, ascending: bool)
    ensures
        figure_place(Some(n), ascending) < figure_place(None, ascending),
{
}

/// The place of a figure as a number.
fn place_word(figure: Option<u64>, ascending: bool) -> (w: u128)
    ensures
        w == figure_place(figure, ascending),
{
    match figure {
        Some(n) => if ascending {
            n as u128
        } else {
            (u64::MAX - n) as u128
        },
        None => 0x1_0000_0000_0000_0000u128,
    }
}

/// The figure that ranks an agent: the one on record, or where balances are
/// given, the agent's balance, if it is among them.
pub open spec fn ranking_figure(
    sort: LeaderboardSort,
    worths: Option<Map<PublicKey, u64>>,
    row: (PublicKey, Reputation),
) -> Option<u64> {
    match worths {
        Some(balances) => if balances.contains_key(row.0) {
            Some(balances[row.0])
        } else {
            None
        },
        None => sort.figure(row.1),
    }
}

/// An agent's place in the ranking; of two with one figure the lower key is
/// first.
pub open spec fn agent_place(sort: LeaderboardSort, worths: Option<Map<PublicKey, u64>>, ascending: bool) -> spec_fn(
    (PublicKey, Reputation),
) -> int {
    |row: (PublicKey, Reputation)|
        figure_place(ranking_figure(sort, worths, row), ascending) * word() * word() * word() + row.0.rank()
}

/// Every agent on record in the order of the figure.
pub open spec fn ranking(
    b: BoardView,
    sort: LeaderboardSort,
    worths: Option<Map<PublicKey, u64>>,
    ascending: bool,
) -> Seq<(PublicKey, Reputation)> {
    if sort == LeaderboardSort::Earned && !ascending {
        top_earners(b)
    } else {
        ordered(top_earners(b), agent_place(sort, worths, ascending))
    }
}

/// Balances that may be missing, by their view.
pub open spec fn opt_balances(worths: Option<Table<PublicKey, u64>>) -> Option<Map<PublicKey, u64>> {
    match worths {
        Some(balances) => Some(balances@),
        None => None,
    }
}

/// Every agent on record in the order of the figure. `worths` has the
/// balances, where it is they that rank.
pub fn rank_agents(board: &TaskBoard, sort: LeaderboardSort, worths: &Option<Table<PublicKey, u64>>, ascending: bool) -> (
    ranked: Vec<(PublicKey, Reputation)>)
    requires
        board.wf(),
        worths is Some ==> worths->0.wf(),
    ensures
        ranked@ == ranking(board@, sort, opt_balances(*worths), ascending),
{
    let all = board.leaderboard(usize::MAX);
    assert(all@ == top_earners(board@));
    if sort == LeaderboardSort::Earned && !ascending {
        return all;
    }
    let ghost balances = opt_balances(*worths);
    let ghost key = agent_place(sort, balances, ascending);
    let mut keys: Vec<SortKey> = Vec::new();
    let mut i: usize = 0;
    while i < all.len()
        invariant
            i <= all.len(),
            worths is Some ==> worths->0.wf(),
            balances == opt_balances(*worths),
            keys.len() == i,
            forall|j: int| 0 <= j < i ==> (#[trigger] keys@[j]).rank() == agent_place(sort, balances, ascending)(all@[j]),
        decreases all.len() - i,
    {
        let (pubkey, reputation) = all[i];
        let figure = match worths {
            Some(balances) => match balances.get(&pubkey) {
                Some(n) => Some(*n),
                None => None,
            },
            None => sort.key(&reputation),
        };
        let k = SortKey { a: place_word(figure, ascending), b: pubkey.tag as u128, c: pubkey.hi, d: pubkey.lo };
        keys.push(k);
        i += 1;
    }
    arranged(&all, &keys, Ghost(key))
}

/// Putting items in order neither drops nor repeats any.
proof fn lemma_ordered_once(items: Seq<(PublicKey, Reputation)>, key: spec_fn((PublicKey, Reputation)) -> int)
    requires
        forall|i: int, j: int| 0 <= i < j < items.len() ==> (#[trigger] items[i]).0 != (#[trigger] items[j]).0,
    ensures
        ordered(items, key).len() == items.len(),
        forall|i: int, j: int|
            0 <= i < j < ordered(items, key).len() ==> (#[trigger] ordered(items, key)[i]).0 != (#[trigger] ordered(
                items,
                key,
            )[j]).0,
{
    let keys = items.map_values(key);
    lemma_order_of(keys);
    let o = order_of(keys);
    let z = ordered(items, key);
    assert forall|i: int, j: int| 0 <= i < j < z.len() implies (#[trigger] z[i]).0 != (#[trigger] z[j]).0 by {
        assert(z[i] == items[o[i]] && z[j] == items[o[j]]);
        assert(o[i] != o[j]);
        if o[i] < o[j] {
            assert(items[o[i]].0 != items[o[j]].0);
        } else {
            assert(items[o[j]].0 != items[o[i]].0);
        }
    }
}

/// Every agent on record has one place in a ranking, whatever ranks.
pub proof fn lemma_ranking_lists_agents_once(
    b: BoardView,
    sort: LeaderboardSort,
    worths: Option<Map<PublicKey, u64>>,
    ascending: bool,
)
    requires
        b.wf(),
    ensures
        ranking(b, sort, worths, ascending).len() == rows_of(b.reputation).len(),
        forall|i: int, j: int|
            0 <= i < j < ranking(b, sort, worths, ascending).len() ==> (#[trigger] ranking(
                b,
                sort,
                worths,
                ascending,
            )[i]).0 != (#[trigger] ranking(b, sort, worths, ascending)[j]).0,
{
    let rows = rows_of(b.reputation);
    lemma_listed(b.reputation);
    assert forall|i: int, j: int| 0 <= i < j < rows.len() implies (#[trigger] rows[i]).0 != (#[trigger] rows[j]).0 by {
        assert(rows[i].0.rank() < rows[j].0.rank());
    }
    lemma_ordered_once(rows, earnings());
    lemma_ordered_once(top_earners(b), agent_place(sort, worths, ascending));
}

/// How long balances that were looked up for a ranking are used again, in
/// seconds.
pub const NET_WORTH_SNAPSHOT_TTL_SECS: u64 = 30;

/// Whether balances that are so many seconds old are used again.
pub open spec fn reusable(age: u64) -> bool {
    age < NET_WORTH_SNAPSHOT_TTL_SECS
}

/// Whether balances that are so many seconds old are used again.
pub fn is_fresh(age: u64) -> (r: bool)
    ensures
        r == reusable(age),
{
    age < NET_WORTH_SNAPSHOT_TTL_SECS
}

/// What a search looks for: nothing, if it is blank.
pub open spec fn searched(q: Option<Seq<char>>) -> Option<Seq<char>> {
    match q {
        Some(text) => if trimmed(text).len() > 0 {
            Some(lowercase(trimmed(text)))
        } else {
            None
        },
        None => None,
    }
}

/// What a search looks for, in lower case.
pub fn needle_of(q: &Option<String>) -> (needle: Option<String>)
    ensures
        opt_text(needle) == searched(opt_text(*q)),
{
    match q {
        Some(text) => {
            let part = trim(text.as_str());
            if part.is_empty() {
                None
            } else {
                Some(to_lowercase(part))
            }
        },
        None => None,
    }
}

/// Whether a search finds an agent by the key or by the name, both in lower
/// case.
pub open spec fn found_by(needle: Seq<char>, key: Seq<char>, name: Option<Seq<char>>) -> bool {
    has_part(key, needle) || (name is Some && has_part(name->0, needle))
}

/// Whether a search finds an agent by the key or by the name, both in lower
/// case.
pub fn answers_to(needle: &str, key: &str, name: Option<&str>) -> (r: bool)
    ensures
        r == found_by(needle@, key@, opt_str(name)),
{
    if contains(key, needle) {
        return true;
    }
    match name {
        Some(n) => contains(n, needle),
        None => false,
    }
}

/// A text that may be missing, in lower case.
pub open spec fn opt_lowercase(text: Option<Seq<char>>) -> Option<Seq<char>> {
    match text {
        Some(t) => Some(lowercase(t)),
        None => None,
    }
}

/// Whether a search, which is in lower case, finds an agent by any part of the
/// key or of the name.
pub fn agent_matches(needle: &str, pubkey_hex: &str, name: Option<&str>) -> (r: bool)
    ensures
        r == found_by(needle@, lowercase(pubkey_hex@), opt_lowercase(opt_str(name))),
{
    let key = to_lowercase(pubkey_hex);
    match name {
        Some(n) => answers_to(needle, key.as_str(), Some(to_lowercase(n).as_str())),
        None => answers_to(needle, key.as_str(), None),
    }
}

/// The name that an agent goes by.
pub open spec fn name_of(names: Map<PublicKey, Seq<char>>, agent: PublicKey) -> Option<Seq<char>> {
    if names.contains_key(agent) {
        Some(names[agent])
    } else {
        None
    }
}

/// Keeps the agents whom a search finds, each with its place counted from
/// zero.
pub open spec fn kept_agent(
    needle: Option<Seq<char>>,
    names: Map<PublicKey, Seq<char>>,
) -> spec_fn((int, (PublicKey, Reputation))) -> Option<(int, (PublicKey, Reputation))> {
    |entry: (int, (PublicKey, Reputation))|
        match needle {
            None => Some(entry),
            Some(text) => if found_by(
                text,
                lowercase(hex_text(entry.1.0.bytes())),
                opt_lowercase(name_of(names, entry.1.0)),
            ) {
                Some(entry)
            } else {
                None
            },
        }
}

/// A ranking with each agent's place.
pub open spec fn numbered(ranked: Seq<(PublicKey, Reputation)>) -> Seq<(int, (PublicKey, Reputation))> {
    Seq::new(ranked.len(), |i: int| (i, ranked[i]))
}

/// The agents of a ranking whom a search finds, each with its place among all.
pub open spec fn found_agents(
    ranked: Seq<(PublicKey, Reputation)>,
    needle: Option<Seq<char>>,
    names: Map<PublicKey, Seq<char>>,
) -> Seq<(int, (PublicKey, Reputation))> {
    pick(numbered(ranked), kept_agent(needle, names))
}

/// Entries by their values.
pub open spec fn entries_view(entries: Seq<(usize, (PublicKey, Reputation))>) -> Seq<(int, (PublicKey, Reputation))> {
    entries.map_values(|e: (usize, (PublicKey, Reputation))| (e.0 as int, e.1))
}

/// How many agents of a ranking a search finds, and a page of them, each with
/// its place among all.
pub fn find_agents(
    ranked: &Vec<(PublicKey, Reputation)>,
    needle: &Option<String>,
    names: &Table<PublicKey, String>,
    offset: usize,
    limit: usize,
) -> (r: (usize, Vec<(usize, (PublicKey, Reputation))>))
    requires
        names.wf(),
    ensures
        r.0 == found_agents(ranked@, opt_text(*needle), names@).len(),
        entries_view(r.1@) == page(
            found_agents(ranked@, opt_text(*needle), names@),
            offset as int,
            limit as int,
        ),
{
    let ghost f = kept_agent(opt_text(*needle), names@);
    let ghost all = numbered(ranked@);
    let mut found: Vec<(usize, (PublicKey, Reputation))> = Vec::new();
    let mut i: usize = 0;
    assert(entries_view(found@) =~= pick(all.take(0), f));
    while i < ranked.len()
        invariant
            i <= ranked.len(),
            names.wf(),
            f == kept_agent(opt_text(*needle), names@),
            all == numbered(ranked@),
            entries_view(found@) == pick(all.take(i as int), f),
        decreases ranked.len() - i,
    {
        proof {
            lemma_pick_step(all, f, i as int);
        }
        let ghost before = found@;
        let agent = ranked[i].0;
        let keep = match needle {
            None => true,
            Some(text) => match names.get(&agent) {
                Some(name) => agent_matches(text.as_str(), agent.to_string().as_str(), Some(name.as_str())),
                None => agent_matches(text.as_str(), agent.to_string().as_str(), None),
            },
        };
        if keep {
            found.push((i, ranked[i]));
            assert(entries_view(found@) =~= entries_view(before).push((i as int, ranked@[i as int])));
        }
        i += 1;
    }
    assert(all.take(i as int) =~= all);
    let (from, to) = page_bounds(found.len(), offset, limit);
    let mut shown: Vec<(usize, (PublicKey, Reputation))> = Vec::new();
    let mut k: usize = from;
    while k < to
        invariant
            from <= k <= to,
            to <= found.len(),
            shown.len() == k - from,
            forall|j: int| 0 <= j < k - from ==> (#[trigger] shown@[j]) == found@[from + j],
        decreases to - k,
    {
        shown.push(found[k]);
        k += 1;
    }
    assert(entries_view(shown@) =~= entries_view(found@).subrange(from as int, to as int));
    (found.len(), shown)
}

/// Whether a leaderboard entry is what is shown of an agent at a place counted
/// from zero.
pub open spec fn shows_agent(
    dto: LeaderboardEntryDto,
    entry: (usize, (PublicKey, Reputation)),
    worths: Map<PublicKey, u64>,
    names: Map<PublicKey, Seq<char>>,
) -> bool {
    let agent = entry.1.0;
    let r = entry.1.1;
    &&& dto.pubkey@ == hex_text(agent.bytes())
    &&& dto.rank == entry.0 + 1
    &&& dto.reputation.completed == r.completed
    &&& dto.reputation.failed == r.failed
    &&& dto.reputation.total_earned == r.total_earned
    &&& dto.reputation.net_worth == if worths.contains_key(agent) {
        Some(worths[agent])
    } else {
        None
    }
    &&& opt_text(dto.reputation.name) == name_of(names, agent)
}

/// What is shown of a page of agents.
pub fn show_agents(
    entries: &Vec<(usize, (PublicKey, Reputation))>,
    worths: &Table<PublicKey, u64>,
    names: &Table<PublicKey, String>,
) -> (shown: Vec<LeaderboardEntryDto>)
    requires
        worths.wf(),
        names.wf(),
        forall|i: int| 0 <= i < entries.len() ==> (#[trigger] entries@[i]).0 < usize::MAX,
    ensures
        shown.len() == entries.len(),
        forall|i: int| 0 <= i < shown.len() ==> shows_agent(#[trigger] shown@[i], entries@[i], worths@, names@),
{
    let mut shown: Vec<LeaderboardEntryDto> = Vec::new();
    let mut i: usize = 0;
    while i < entries.len()
        invariant
            i <= entries.len(),
            worths.wf(),
            names.wf(),
            forall|i: int| 0 <= i < entries.len() ==> (#[trigger] entries@[i]).0 < usize::MAX,
            shown.len() == i,
            forall|j: int| 0 <= j < i ==> shows_agent(#[trigger] shown@[j], entries@[j], worths@, names@),
        decreases entries.len() - i,
    {
        let (index, (agent, r)) = entries[i];
        assert(entries@[i as int].0 < usize::MAX);
        let mut reputation = ReputationDto::from(r);
        reputation.net_worth = match worths.get(&agent) {
            Some(n) => Some(*n),
            None => None,
        };
        reputation.name = match names.get(&agent) {
            Some(name) => Some(name.clone()),
            None => None,
        };
        let dto = LeaderboardEntryDto { pubkey: agent.to_string(), rank: index + 1, reputation };
        assert(shows_agent(dto, entries@[i as int], worths@, names@));
        shown.push(dto);
        i += 1;
    }
    shown
}

/// What a query for the leaderboard asks for.
#[derive(Debug, Clone)]
pub struct LeaderboardPage {
    pub sort: LeaderboardSort,
    pub ascending: bool,
    /// In lower case.
    pub needle: Option<String>,
    pub offset: usize,
    pub limit: usize,
}

/// Whether the ranking is asked for with the least figure first.
pub open spec fn least_first(dir: Option<Seq<char>>) -> bool {
    dir is Some && trimmed(dir->0) == "asc"@
}

/// Reads a query for the leaderboard. Nothing in it is an error.
pub fn read_leaderboard_query(query: &LeaderboardQuery) -> (asked: LeaderboardPage)
    ensures
        asked.sort == column_named(opt_text(query.sort)),
        asked.ascending == least_first(opt_text(query.dir)),
        opt_text(asked.needle) == searched(opt_text(query.q)),
        asked.offset == match query.offset {
            Some(n) => n,
            None => 0,
        },
        asked.limit == page_size(query.limit, DEFAULT_LEADERBOARD_PAGE_SIZE, MAX_LEADERBOARD_PAGE_SIZE),
{
    let sort = match &query.sort {
        Some(name) => LeaderboardSort::parse(Some(name.as_str())),
        None => LeaderboardSort::parse(None),
    };
    let ascending = match &query.dir {
        Some(dir) => same(trim(dir.as_str()), "asc"),
        None => false,
    };
    LeaderboardPage {
        sort,
        ascending,
        needle: needle_of(&query.q),
        offset: match query.offset {
            Some(n) => n,
            None => 0,
        },
        limit: sized(query.limit, DEFAULT_LEADERBOARD_PAGE_SIZE, MAX_LEADERBOARD_PAGE_SIZE),
    }
}

}
