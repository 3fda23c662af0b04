//! What somebody who reads the leaderboard can rely on.
use crate::api::listings::page_size;
use crate::api::ranking::{
    agent_place, column_named, figure_place, found_agents, kept_agent, least_first, numbered, ranking, ranking_figure,
    reusable, searched, LeaderboardSort, DEFAULT_LEADERBOARD_PAGE_SIZE, MAX_LEADERBOARD_PAGE_SIZE,
};
use crate::board::BoardView;
use crate::board::book::{earnings, top_earners};
use crate::board::types::Reputation;
use crate::seqs::{lemma_pick_found, lemma_pick_source, pick};
use crate::sort::{lemma_order_of, lemma_ordered_keeps, order_of, word};
use crate::table::{lemma_listed, lemma_row_is_mapped, row_of, rows_of, Key};
use crate::text::{has_part, hex_text, lowercase, trimmed};
use crate::types::PublicKey;
use vstd::prelude::*;
use vstd::string::*;

verus! {

/// The figure an agent is ranked by: where balances are given the balance, if the
/// agent has one, and else what is on record in the column.
pub open spec fn shown_figure(
    sort: LeaderboardSort,
    worths: Option<Map<PublicKey, u64>>,
    row: (PublicKey, Reputation),
) -> Option<u64> {
    if worths is Some {
        if worths->0.contains_key(row.0) {
            Some(worths->0[row.0])
        } else {
            None
        }
    } else if sort == LeaderboardSort::Earned {
        Some(row.1.total_earned)
    } else if sort == LeaderboardSort::Completed {
        Some(row.1.completed)
    } else if sort == LeaderboardSort::Failed {
        Some(row.1.failed)
    } else {
        None
    }
}

/// Of two with one key to be ordered by, the one that was in front stays in front.
proof fn lemma_ties(b: BoardView, i: int, j: int)
    requires
        b.wf(),
        0 <= i < j < top_earners(b).len(),
        top_earners(b)[i].1.total_earned == top_earners(b)[j].1.total_earned,
    ensures
        top_earners(b)[i].0.rank() < top_earners(b)[j].0.rank(),
{
    let rows = rows_of(b.reputation);
    lemma_listed(b.reputation);
    let keys = rows.map_values(earnings());
    lemma_order_of(keys);
    let o = order_of(keys);
    assert(top_earners(b)[i] == rows[o[i]] && top_earners(b)[j] == rows[o[j]]);
    assert(keys[o[i]] == earnings()(rows[o[i]]) && keys[o[j]] == earnings()(rows[o[j]]));
    assert(o[i] < o[j]);
    assert(rows[o[i]].0.rank() < rows[o[j]].0.rank());
}

/// Every agent on record is ranked, and nobody else. The greatest figure comes
/// first, or the least where that is asked for, an agent without a figure after all
/// others, and of two with one figure the one with the lower key.
pub proof fn lemma_how_agents_are_ranked(
    b: BoardView,
    sort: LeaderboardSort,
    worths: Option<Map<PublicKey, u64>>,
    ascending: bool,
    row: (PublicKey, Reputation),
)
    requires
        b.wf(),
        worths is Some && sort == LeaderboardSort::Earned ==> ascending,
    ensures
        ({
            let all = ranking(b, sort, worths, ascending);
            &&& all.contains(row) <==> b.reputation.contains_key(row.0) && b.reputation[row.0] == row.1
            &&& forall|i: int, j: int|
                0 <= i < j < all.len() ==> {
                    let x = shown_figure(sort, worths, #[trigger] all[i]);
                    let y = shown_figure(sort, worths, #[trigger] all[j]);
                    &&& y is Some ==> x is Some
                    &&& y is Some && ascending ==> x->0 <= y->0
                    &&& y is Some && !ascending ==> x->0 >= y->0
                    &&& x == y ==> all[i].0.rank() <= all[j].0.rank()
                }
        }),
{
    let rows = rows_of(b.reputation);
    let all = ranking(b, sort, worths, ascending);
    let key = agent_place(sort, worths, ascending);
    lemma_listed(b.reputation);
    lemma_ordered_keeps(rows, earnings());
    let earners = top_earners(b);
    lemma_ordered_keeps(earners, key);
    assert(earners.contains(row) <==> rows.contains(row));
    if rows.contains(row) {
        let i = choose|i: int| 0 <= i < rows.len() && rows[i] == row;
        lemma_row_is_mapped(rows, i);
    }
    if b.reputation.contains_key(row.0) && b.reputation[row.0] == row.1 {
        let i = row_of(rows, row.0);
        lemma_row_is_mapped(rows, i);
        assert(rows[i] == row);
    }
    assert forall|i: int, j: int| 0 <= i < j < all.len() implies {
        let x = shown_figure(sort, worths, #[trigger] all[i]);
        let y = shown_figure(sort, worths, #[trigger] all[j]);
        &&& y is Some ==> x is Some
        &&& y is Some && ascending ==> x->0 <= y->0
        &&& y is Some && !ascending ==> x->0 >= y->0
        &&& x == y ==> all[i].0.rank() <= all[j].0.rank()
    } by {
        let x = shown_figure(sort, worths, all[i]);
        let y = shown_figure(sort, worths, all[j]);
        if sort == LeaderboardSort::Earned && !ascending {
            assert(earnings()(earners[i]) <= earnings()(earners[j]));
            if x == y {
                lemma_ties(b, i, j);
            }
        } else {
            assert(key(all[i]) <= key(all[j]));
            assert(ranking_figure(sort, worths, all[i]) == x);
            assert(ranking_figure(sort, worths, all[j]) == y);
            let p = figure_place(x, ascending);
            let q = figure_place(y, ascending);
            lemma_rank_range(all[i].0);
            lemma_rank_range(all[j].0);
            let cube = word() * word() * word();
            assert(p * word() * word() * word() == p * cube && q * word() * word() * word() == q * cube)
                by (nonlinear_arith)
                requires
                    cube == word() * word() * word(),
            ;
            let (m, n) = (all[i].0.rank(), all[j].0.rank());
            assert(p <= q && (p == q ==> m <= n)) by (nonlinear_arith)
                requires
                    p * cube + m <= q * cube + n,
                    0 <= m < cube,
                    0 <= n < cube,
            ;
        }
    }
}

/// A key is a number of three words.
proof fn lemma_rank_range(k: PublicKey)
    ensures
        0 <= k.rank() < word() * word() * word(),
{
    let w = word();
    let (a, b, c) = (k.tag as int, k.hi as int, k.lo as int);
    assert(k.rank() == (a * w + b) * w + c);
    assert(0 <= (a * w + b) * w + c < w * w * w) by (nonlinear_arith)
        requires
            0 <= a < 256,
            0 <= b < w,
            0 <= c < w,
            w > 256,
    ;
}

/// Each column goes by its own name; earnings rank where another name is given, or
/// none. The least comes first only where `asc` is asked for.
pub proof fn lemma_columns_go_by_their_names(name: Option<Seq<char>>, dir: Option<Seq<char>>)
    ensures
        column_named(None) == LeaderboardSort::Earned,
        name is Some && trimmed(name->0) == "completed"@ ==> column_named(name) == LeaderboardSort::Completed,
        name is Some && trimmed(name->0) == "failed"@ ==> column_named(name) == LeaderboardSort::Failed,
        name is Some && trimmed(name->0) == "net_worth"@ ==> column_named(name) == LeaderboardSort::NetWorth,
        name is Some && trimmed(name->0) != "completed"@ && trimmed(name->0) != "failed"@ && trimmed(name->0)
            != "net_worth"@ ==> column_named(name) == LeaderboardSort::Earned,
        least_first(dir) <==> dir is Some && trimmed(dir->0) == "asc"@,
{
    reveal_strlit("completed");
    reveal_strlit("failed");
    reveal_strlit("net_worth");
    assert("completed"@.len() == 9 && "failed"@.len() == 6 && "net_worth"@.len() == 9);
    assert("completed"@[0] == 'c' && "net_worth"@[0] == 'n');
}

/// A leaderboard has fifty rows at most, and as many unless fewer are asked for.
/// Balances are used again for less than thirty seconds.
pub proof fn lemma_limits_of_a_leaderboard(limit: usize, age: u64)
    ensures
        page_size(None, DEFAULT_LEADERBOARD_PAGE_SIZE, MAX_LEADERBOARD_PAGE_SIZE) == 50,
        limit <= 50 ==> page_size(Some(limit), DEFAULT_LEADERBOARD_PAGE_SIZE, MAX_LEADERBOARD_PAGE_SIZE) == limit,
        limit > 50 ==> page_size(Some(limit), DEFAULT_LEADERBOARD_PAGE_SIZE, MAX_LEADERBOARD_PAGE_SIZE) == 50,
        reusable(age) <==> age < 30,
{
}

/// A search that is blank finds everybody, and another those whose key or name has
/// the text in it, all in lower case. Whoever is found keeps the place that they
/// have among all.
pub proof fn lemma_who_is_found(
    ranked: Seq<(PublicKey, Reputation)>,
    q: Option<Seq<char>>,
    names: Map<PublicKey, Seq<char>>,
    place: int,
    row: (PublicKey, Reputation),
)
    ensures
        ({
            let agent = row.0;
            let blank = q is None || trimmed(q->0).len() == 0;
            let needle = lowercase(trimmed(q->0));
            found_agents(ranked, searched(q), names).contains((place, row)) <==> 0 <= place < ranked.len()
                && ranked[place] == row && (blank || has_part(lowercase(hex_text(agent.bytes())), needle) || (
            names.contains_key(agent) && has_part(lowercase(names[agent]), needle)))
        }),
{
    let all = numbered(ranked);
    let f = kept_agent(searched(q), names);
    let found = found_agents(ranked, searched(q), names);
    assert(found == pick(all, f));
    if found.contains((place, row)) {
        let j = choose|j: int| 0 <= j < found.len() && found[j] == (place, row);
        lemma_pick_source(all, f, j);
        let i = choose|i: int| 0 <= i < all.len() && f(#[trigger] all[i]) == Some(found[j]);
        assert(all[i] == (i, ranked[i]));
    }
    if 0 <= place < ranked.len() && ranked[place] == row && f((place, row)) is Some {
        assert(all[place] == (place, row));
        lemma_pick_found(all, f, place);
    }
}

}
