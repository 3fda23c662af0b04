//! What is shown of what the hub holds.
use crate::api::dtos::{
    EscrowReservationDto, FaucetChallengeDto, LeaderboardEntryDto, OrderDto, ReputationDto, TaskDto, TradeDto,
};
use crate::api::listings::{shows_orders, shows_tasks, shows_trades};
use crate::api::names::{answers, asked_keys, first, not_blank, parts};
use crate::api::ranking::{name_of, shows_agent};
use crate::board::deposits::DepositView;
use crate::board::tasks::sum_of;
use crate::board::types::{opt_text, Order, Reputation, TaskView, Trade};
use crate::faucet_pow::ChallengeView;
use crate::seqs::{lemma_pick_found, lemma_pick_len, lemma_pick_source, pick};
use crate::text::{hex_text, trimmed};
use crate::types::PublicKey;
use vstd::prelude::*;
use vstd::string::*;

verus! {

/// A task is shown as it is: what it asks, what it offers, where it stands, and how
/// much of its bounty has been paid and is still owed.
pub proof fn lemma_what_is_shown_of_a_task(dto: TaskDto, t: TaskView)
    requires
        dto.shows(t),
    ensures
        dto.id == t.id,
        dto.description@ == t.description,
        dto.bounty == t.bounty,
        dto.status == t.status,
        dto.poster@ == hex_text(t.poster.bytes()),
        dto.claimant is Some <==> t.claimant is Some,
        dto.claimant is Some ==> dto.claimant->0@ == hex_text(t.claimant->0.bytes()),
        dto.failed_attempts == t.failed_attempts,
        dto.min_reputation == t.min_reputation,
        dto.close_reason == t.close_reason,
        dto.capabilities@ == t.capabilities,
        dto.created_at == t.created_at,
        dto.settled_at == t.settled_at,
        dto.bounty_confirmed == sum_of(t.paid_out()),
        dto.bounty_pending == sum_of(t.owed()),
        t.kind is HashMatch <==> dto.kind is HashMatch,
        t.kind is Consensus <==> dto.kind is Consensus,
        t.kind is Disputable <==> dto.kind is Disputable,
        t.kind is Consensus && t.kind->assignees.len() <= u32::MAX ==> {
            &&& dto.kind->num_assignees == t.kind->num_assignees
            &&& dto.kind->assignees_joined == t.kind->assignees.len()
            &&& dto.kind->join_deadline == t.kind->join_deadline
            &&& dto.kind->submission_deadline == t.kind->submission_deadline
        },
        t.kind is Disputable ==> {
            &&& opt_text(dto.kind->answer) == t.kind->answer
            &&& dto.kind->dispute_deadline == t.kind->dispute_deadline
            &&& dto.kind->dispute is Some <==> t.kind->dispute is Some
            &&& t.kind->dispute is Some ==> {
                let (shown, d) = (dto.kind->dispute->0, t.kind->dispute->0);
                &&& shown.challenger@ == hex_text(d.challenger.bytes())
                &&& shown.reason@ == d.reason
                &&& shown.bond_amount == d.bond_amount
                &&& shown.filed_at == d.filed_at
                &&& shown.resolution == d.resolution
            }
        },
{
}

/// An order is shown as it is.
pub proof fn lemma_what_is_shown_of_an_order(dto: OrderDto, o: Order)
    requires
        dto.shows(o),
    ensures
        dto.id == o.id,
        dto.owner@ == hex_text(o.owner.bytes()),
        dto.side == o.side,
        dto.price == o.price,
        dto.quantity == o.quantity,
        dto.filled == o.filled,
        dto.status == o.status,
        dto.created_at == o.created_at,
{
}

/// A trade is shown as it is.
pub proof fn lemma_what_is_shown_of_a_trade(dto: TradeDto, t: Trade)
    requires
        dto.shows(t),
    ensures
        dto.id == t.id,
        dto.buy_order_id == t.buy_order_id,
        dto.sell_order_id == t.sell_order_id,
        dto.buyer@ == hex_text(t.buyer.bytes()),
        dto.seller@ == hex_text(t.seller.bytes()),
        dto.price == t.price,
        dto.quantity == t.quantity,
        dto.executed_at == t.executed_at,
        dto.taker_side == t.taker_side,
        dto.taker_fee == t.taker_fee,
{
}

/// Lists show one item for each, in order.
pub proof fn lemma_lists_show_each(
    tasks: Seq<TaskDto>,
    t: Seq<TaskView>,
    orders: Seq<OrderDto>,
    o: Seq<Order>,
    trades: Seq<TradeDto>,
    d: Seq<Trade>,
)
    ensures
        shows_tasks(tasks, t) ==> tasks.len() == t.len() && forall|i: int|
            0 <= i < t.len() ==> (#[trigger] tasks[i]).id == t[i].id && tasks[i].shows(t[i]),
        shows_orders(orders, o) ==> orders.len() == o.len() && forall|i: int|
            0 <= i < o.len() ==> (#[trigger] orders[i]).id == o[i].id && orders[i].shows(o[i]),
        shows_trades(trades, d) ==> trades.len() == d.len() && forall|i: int|
            0 <= i < d.len() ==> (#[trigger] trades[i]).id == d[i].id && trades[i].shows(d[i]),
{
}

/// Of a deposit is shown where to pay, how much and until when; of a record what was
/// done, failed and earned; and of a challenge all that it takes to solve it.
pub proof fn lemma_what_is_shown_of_the_rest(
    e: EscrowReservationDto,
    d: DepositView,
    r: ReputationDto,
    rep: Reputation,
    c: FaucetChallengeDto,
    ch: ChallengeView,
    hashes: u64,
)
    ensures
        e.shows(d) ==> {
            &&& e.escrow_id == d.id
            &&& e.deposit_address@ == hex_text(d.deposit_pubkey.bytes())
            &&& e.required_amount == d.required_amount
            &&& e.expires_at == d.expires_at
        },
        r.shows(rep) ==> {
            &&& r.completed == rep.completed
            &&& r.failed == rep.failed
            &&& r.total_earned == rep.total_earned
        },
        c.shows(ch, hashes) ==> {
            &&& c.challenge_id == ch.id
            &&& c.server_nonce@ == ch.server_nonce
            &&& c.pubkey@ == ch.pubkey
            &&& c.action@ == ch.action
            &&& c.target@ == hex_text(ch.target.bytes())
            &&& c.issued_at == ch.issued_at
            &&& c.expires_at == ch.expires_at
            &&& c.expected_hashes == hashes
            &&& c.preimage_template@ == ch.stem() + "{solution}"@
        },
{
}

/// A row of the leaderboard has the agent's key, name, record and balance, and the
/// agent's place counted from one.
pub proof fn lemma_what_is_shown_of_an_agent(
    dto: LeaderboardEntryDto,
    place: usize,
    agent: PublicKey,
    r: Reputation,
    worths: Map<PublicKey, u64>,
    names: Map<PublicKey, Seq<char>>,
)
    requires
        shows_agent(dto, (place, (agent, r)), worths, names),
    ensures
        dto.pubkey@ == hex_text(agent.bytes()),
        dto.rank == place + 1,
        dto.reputation.completed == r.completed,
        dto.reputation.failed == r.failed,
        dto.reputation.total_earned == r.total_earned,
        worths.contains_key(agent) ==> dto.reputation.net_worth == Some(worths[agent]),
        !worths.contains_key(agent) ==> dto.reputation.net_worth is None,
        names.contains_key(agent) ==> dto.reputation.name is Some && dto.reputation.name->0@ == names[agent],
        !names.contains_key(agent) ==> dto.reputation.name is None,
{
}

/// The parts joined again, with a comma between any two.
pub open spec fn rejoined(parts: Seq<Seq<char>>) -> Seq<char>
    decreases parts.len(),
{
    if parts.len() == 0 {
        Seq::empty()
    } else if parts.len() == 1 {
        parts[0]
    } else {
        rejoined(parts.drop_last()) + seq![','] + parts.last()
    }
}

/// A text is split at its commas: no part has one, and joined again they are the
/// text.
pub proof fn lemma_text_is_split_at_commas(text: Seq<char>)
    ensures
        parts(text).len() > 0,
        rejoined(parts(text)) == text,
        forall|i: int| 0 <= i < parts(text).len() ==> !(#[trigger] parts(text)[i]).contains(','),
    decreases text.len(),
{
    let all = parts(text);
    if text.len() == 0 {
        assert(all[0] =~= Seq::empty());
    } else {
        let before = parts(text.drop_last());
        lemma_text_is_split_at_commas(text.drop_last());
        let last = before.len() - 1;
        if text.last() == ',' {
            assert(all.drop_last() =~= before);
            assert(rejoined(all) =~= text);
            assert forall|i: int| 0 <= i < all.len() implies !(#[trigger] all[i]).contains(',') by {
                if i < before.len() {
                    assert(all[i] == before[i]);
                }
            }
        } else {
            let longer = before.last().push(text.last());
            assert(all.drop_last() =~= before.drop_last());
            assert(all.last() == longer);
            if last == 0 {
                assert(all[0] == longer);
                assert(text =~= before[0].push(text.last()));
            } else {
                let front = rejoined(before.drop_last()) + seq![','];
                assert(rejoined(before) == front + before.last());
                assert(rejoined(all) == front + longer);
                assert(front + longer =~= (front + before.last()).push(text.last()));
            }
            assert(text =~= text.drop_last().push(text.last()));
            assert forall|i: int| 0 <= i < all.len() implies !(#[trigger] all[i]).contains(',') by {
                assert(!before[last].contains(','));
                if i < last {
                    assert(all[i] == before[i]);
                } else {
                    assert(all[i] == longer);
                    if longer.contains(',') {
                        let k = choose|k: int| 0 <= k < longer.len() && longer[k] == ',';
                        if k < longer.len() - 1 {
                            assert(before[last][k] == ',');
                        }
                    }
                }
            }
        }
    }
}

/// Of what stands between commas the first sixty-four that are not blank are looked
/// up, without the white space around them.
pub proof fn lemma_which_names_are_looked_up(text: Seq<char>, key: Seq<char>)
    ensures
        asked_keys(text).len() <= 64,
        asked_keys(text).contains(key) ==> key.len() > 0 && exists|i: int|
            0 <= i < parts(text).len() && trimmed(#[trigger] parts(text)[i]) == key,
        parts(text).len() <= 64 && key.len() > 0 && (exists|i: int|
            0 <= i < parts(text).len() && trimmed(#[trigger] parts(text)[i]) == key) ==> asked_keys(text).contains(key),
{
    let all = parts(text);
    let f = not_blank();
    let some = pick(all, f);
    let asked = asked_keys(text);
    assert(asked == first(some, 64));
    if asked.contains(key) {
        let j = choose|j: int| 0 <= j < asked.len() && asked[j] == key;
        assert(some[j] == key);
        lemma_pick_source(all, f, j);
        let i = choose|i: int| 0 <= i < all.len() && f(#[trigger] all[i]) == Some(some[j]);
        assert(trimmed(all[i]) == key);
    }
    if all.len() <= 64 && key.len() > 0 && exists|i: int| 0 <= i < all.len() && trimmed(#[trigger] all[i]) == key {
        let i = choose|i: int| 0 <= i < all.len() && trimmed(#[trigger] all[i]) == key;
        lemma_pick_found(all, f, i);
        lemma_pick_len(all, f);
    }
}

/// Every text that reads as a key is answered, with the name of that key or with
/// none; a text that does not is left out.
pub proof fn lemma_how_names_are_answered(
    asked: Seq<Seq<char>>,
    keys: Seq<Option<PublicKey>>,
    names: Map<PublicKey, Seq<char>>,
    text: Seq<char>,
)
    requires
        keys.len() == asked.len(),
        forall|i: int, j: int| 0 <= i < j < asked.len() && asked[i] == asked[j] ==> #[trigger] keys[i] == #[trigger] keys[j],
    ensures
        answers(asked, keys, names).contains_key(text) <==> exists|i: int|
            0 <= i < asked.len() && asked[i] == text && (#[trigger] keys[i]) is Some,
        forall|i: int|
            0 <= i < asked.len() && asked[i] == text && (#[trigger] keys[i]) is Some ==> answers(
                asked,
                keys,
                names,
            )[text] == name_of(names, keys[i]->0),
    decreases asked.len(),
{
    if asked.len() > 0 {
        let (a, k) = (asked.drop_last(), keys.drop_last());
        let last = asked.len() - 1;
        assert forall|i: int, j: int| 0 <= i < j < a.len() && a[i] == a[j] implies #[trigger] k[i] == #[trigger] k[j] by {
            assert(keys[i] == keys[j]);
        }
        lemma_how_names_are_answered(a, k, names, text);
        let before = answers(a, k, names);
        let after = answers(asked, keys, names);
        assert forall|i: int| 0 <= i < asked.len() && asked[i] == text && (#[trigger] keys[i]) is Some implies after[text]
            == name_of(names, keys[i]->0) by {
            if i < last {
                assert(k[i] == keys[i] && a[i] == asked[i]);
                if asked[last] == text {
                    assert(keys[i] == keys[last]);
                }
            }
        }
        if exists|i: int| 0 <= i < a.len() && a[i] == text && (#[trigger] k[i]) is Some {
            let i = choose|i: int| 0 <= i < a.len() && a[i] == text && (#[trigger] k[i]) is Some;
            assert(keys[i] is Some);
        }
        if exists|i: int| 0 <= i < asked.len() && asked[i] == text && (#[trigger] keys[i]) is Some {
            let i = choose|i: int| 0 <= i < asked.len() && asked[i] == text && (#[trigger] keys[i]) is Some;
            if i < last {
                assert(k[i] is Some && a[i] == text);
            }
        }
    }
}

}
