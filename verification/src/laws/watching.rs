//! What an operator who watches the hub can rely on.
use crate::admin::{
    activity_since, alert_if, alerts_shown, by_activity, completed_work, counts_agents, counts_work, dominates,
    failed_work, holding_balance, known_keys, less, network_place, observation_age, shows_networks, stands, Agents,
    AlertView, NetworkRow, Overview, Severity, Standing, Work,
};
use crate::board::BoardView;
use crate::board::queries::{capped, task_list};
use crate::board::types::{TaskStatus, TaskView};
use crate::laws::reporting::how_many;
use crate::seqs::{count, lemma_count_of_places, places_of};
use crate::sort::lemma_ordered_keeps;
use crate::table::{lemma_count_of_keys, lemma_listed, rows_of};
use crate::types::{in_calendar, PublicKey, Timestamp};
use vstd::prelude::*;
use vstd::string::*;

verus! {

/// Whether a finding of that name is among them, with that weight.
pub open spec fn warns(alerts: Seq<AlertView>, severity: Severity, kind: Seq<char>) -> bool {
    exists|i: int| 0 <= i < alerts.len() && (#[trigger] alerts[i]).severity == severity && alerts[i].kind == kind
}

proof fn lemma_warns_of_two(a: Seq<AlertView>, b: Seq<AlertView>, severity: Severity, kind: Seq<char>)
    ensures
        warns(a + b, severity, kind) <==> warns(a, severity, kind) || warns(b, severity, kind),
{
    let c = a + b;
    if warns(c, severity, kind) {
        let i = choose|i: int| 0 <= i < c.len() && (#[trigger] c[i]).severity == severity && c[i].kind == kind;
        if i < a.len() {
            assert(a[i] == c[i]);
        } else {
            assert(b[i - a.len()] == c[i]);
        }
    }
    if warns(a, severity, kind) {
        let i = choose|i: int| 0 <= i < a.len() && (#[trigger] a[i]).severity == severity && a[i].kind == kind;
        assert(c[i] == a[i]);
    }
    if warns(b, severity, kind) {
        let i = choose|i: int| 0 <= i < b.len() && (#[trigger] b[i]).severity == severity && b[i].kind == kind;
        assert(c[i + a.len()] == b[i]);
    }
}

proof fn lemma_warns_of_one(
    raised: bool,
    weight: Severity,
    name: Seq<char>,
    title: Seq<char>,
    detail: Seq<char>,
    severity: Severity,
    kind: Seq<char>,
)
    ensures
        warns(alert_if(raised, weight, name, title, detail), severity, kind) <==> raised && weight == severity && name
            == kind,
{
    let a = alert_if(raised, weight, name, title, detail);
    if raised {
        assert(a[0].severity == weight && a[0].kind == name);
    }
}

/// Whether there is cause for a finding of that name.
pub open spec fn is_cause(o: Overview, kind: Seq<char>) -> bool {
    ||| kind == "insolvent"@ && !o.money.solvent
    ||| kind == "payments_need_review"@ && o.money.payments_needs_review > 0
    ||| kind == "store_disagreement"@ && o.integrity.store_disagreements@.len() > 0
    ||| kind == "burned_envelopes"@ && o.integrity.burned_envelopes > 0
    ||| kind == "ledger_store_divergence"@ && o.integrity.ledger_store_divergences > 0
}

/// Whether there is reason for a look, by that name: what the hub forgot of its
/// requests, a chain not seen for three minutes, fewer than four outputs to spend,
/// a faucet's window all used up, a payment on its way for more than a quarter of
/// an hour, four fifths of what may be at stake on agreement, or half of a faucet's
/// window to one network.
pub open spec fn is_reason(o: Overview, kind: Seq<char>) -> bool {
    ||| kind == "replay_guard_degraded"@ && o.integrity.replay_guard_degraded
    ||| kind == "chain_stale"@ && o.chain_observation_age_seconds > 180
    ||| kind == "operator_wallet_flat"@ && o.money.operator_ready_outputs < 4
    ||| kind == "faucet_budget_exhausted"@ && o.faucet.window_remaining == 0 && o.faucet.window_budget > 0
    ||| kind == "payment_stuck"@ && o.money.payments_oldest_pending_seconds > 900
    ||| kind == "consensus_exposure_high"@ && o.work.consensus_exposure_ceiling > 0 && o.work.consensus_exposure
        >= o.work.consensus_exposure_ceiling / 5 * 4
    ||| kind == "network_dominates_faucet"@ && o.networks@.len() > 0 && o.networks@[0].grants_in_window > 1 && 2
        * o.networks@[0].grants_in_window >= o.faucet.window_budget
}

proof fn lemma_findings(o: Overview, percent: Seq<char>, severity: Severity, kind: Seq<char>)
    ensures
        warns(alerts_shown(o, percent), severity, kind) <==> (severity == Severity::Critical && is_cause(o, kind)) || (
        severity == Severity::Warning && is_reason(o, kind)),
{
    assert forall|a: Seq<AlertView>, b: Seq<AlertView>| #[trigger] warns(a + b, severity, kind) <==> warns(
        a,
        severity,
        kind,
    ) || warns(b, severity, kind) by {
        lemma_warns_of_two(a, b, severity, kind);
    }
    assert forall|raised: bool, weight: Severity, name: Seq<char>, title: Seq<char>, detail: Seq<char>| #[trigger]
        warns(alert_if(raised, weight, name, title, detail), severity, kind) <==> raised && weight == severity && name
            == kind by {
        lemma_warns_of_one(raised, weight, name, title, detail, severity, kind);
    }
    if o.networks@.len() > 0 {
        let n = o.networks@[0].grants_in_window;
        assert(dominates(o.networks@[0], o.faucet.window_budget) <==> n > 1 && 2 * n >= o.faucet.window_budget);
    }
}

/// Whether no critical finding comes after a warning.
#[verifier::opaque]
pub open spec fn critical_first(alerts: Seq<AlertView>) -> bool {
    forall|i: int, j: int|
        0 <= i < j < alerts.len() && (#[trigger] alerts[j]).severity == Severity::Critical ==> (
        #[trigger] alerts[i]).severity == Severity::Critical
}

/// Whether the findings are all of one weight.
#[verifier::opaque]
pub open spec fn all_of(alerts: Seq<AlertView>, severity: Severity) -> bool {
    forall|i: int| 0 <= i < alerts.len() ==> (#[trigger] alerts[i]).severity == severity
}

/// A finding is critical exactly if there is cause for it, and a warning exactly if
/// there is reason for a look.
pub proof fn lemma_what_is_found(o: Overview, percent: Seq<char>, kind: Seq<char>)
    ensures
        warns(alerts_shown(o, percent), Severity::Critical, kind) <==> is_cause(o, kind),
        warns(alerts_shown(o, percent), Severity::Warning, kind) <==> is_reason(o, kind),
{
    lemma_findings(o, percent, Severity::Critical, kind);
    lemma_findings(o, percent, Severity::Warning, kind);
}

/// Critical findings come before warnings.
pub proof fn lemma_critical_findings_come_first(o: Overview, percent: Seq<char>)
    ensures
        critical_first(alerts_shown(o, percent)),
{
    let (critical, warning) = (Severity::Critical, Severity::Warning);
    assert forall|a: Seq<AlertView>, b: Seq<AlertView>| all_of(a, critical) && all_of(b, critical) implies #[trigger] all_of(
        a + b,
        critical,
    ) by {
        reveal(all_of);
    }
    assert forall|a: Seq<AlertView>, b: Seq<AlertView>| critical_first(a) && all_of(
        b,
        warning,
    ) implies #[trigger] critical_first(a + b) by {
        reveal(all_of);
        reveal(critical_first);
        let c = a + b;
        assert forall|i: int, j: int|
            0 <= i < j < c.len() && (#[trigger] c[j]).severity == critical implies (#[trigger] c[i]).severity
            == critical by {
            if j >= a.len() {
                assert(b[j - a.len()].severity == warning);
            } else {
                assert(a[j] == c[j] && a[i] == c[i]);
            }
        }
    }
    assert forall|a: Seq<AlertView>| all_of(a, critical) implies #[trigger] critical_first(a) by {
        reveal(all_of);
        reveal(critical_first);
    }
    assert forall|raised: bool, weight: Severity, name: Seq<char>, title: Seq<char>, detail: Seq<char>| #[trigger]
        all_of(alert_if(raised, weight, name, title, detail), weight) by {
        reveal(all_of);
    }
}

/// The population: everybody with a record, a grant or an account, each once;
/// everybody granted to; and whoever has completed a task, failed one, or holds a
/// balance of either kind.
pub proof fn lemma_who_is_counted(b: BoardView, agents: Agents)
    requires
        b.wf(),
        counts_agents(b, agents),
    ensures
        agents.known == Set::new(
            |k: PublicKey|
                b.reputation.contains_key(k) || b.faucet_grants.contains_key(k) || b.exchange_accounts.contains_key(k),
        ).len(),
        agents.funded_by_faucet == b.faucet_grants.dom().len(),
        agents.with_completed_work == Set::new(
            |k: PublicKey| b.reputation.contains_key(k) && b.reputation[k].completed > 0,
        ).len(),
        agents.with_failed_work == Set::new(
            |k: PublicKey| b.reputation.contains_key(k) && b.reputation[k].failed > 0,
        ).len(),
        agents.holding_balance == Set::new(
            |k: PublicKey|
                b.exchange_accounts.contains_key(k) && (b.exchange_accounts[k].base_balance > 0
                    || b.exchange_accounts[k].compute_balance > 0),
        ).len(),
{
    lemma_listed(b.reputation);
    lemma_listed(b.exchange_accounts);
    assert(known_keys(b) =~= Set::new(
        |k: PublicKey|
            b.reputation.contains_key(k) || b.faucet_grants.contains_key(k) || b.exchange_accounts.contains_key(k),
    ));
    lemma_count_of_keys(rows_of(b.reputation), completed_work());
    lemma_count_of_keys(rows_of(b.reputation), failed_work());
    lemma_count_of_keys(rows_of(b.exchange_accounts), holding_balance());
    let (done, missed, held) = (completed_work(), failed_work(), holding_balance());
    assert(Set::new(|k: PublicKey| b.reputation.contains_key(k) && done((k, b.reputation[k]))) =~= Set::new(
        |k: PublicKey| b.reputation.contains_key(k) && b.reputation[k].completed > 0,
    ));
    assert(Set::new(|k: PublicKey| b.reputation.contains_key(k) && missed((k, b.reputation[k]))) =~= Set::new(
        |k: PublicKey| b.reputation.contains_key(k) && b.reputation[k].failed > 0,
    ));
    assert(Set::new(
        |k: PublicKey| b.exchange_accounts.contains_key(k) && held((k, b.exchange_accounts[k])),
    ) =~= Set::new(
        |k: PublicKey|
            b.exchange_accounts.contains_key(k) && (b.exchange_accounts[k].base_balance > 0
                || b.exchange_accounts[k].compute_balance > 0),
    ));
}

proof fn lemma_standing_count(all: Seq<TaskView>, standing: Standing, p: spec_fn(TaskView) -> bool)
    requires
        stands(standing) == p,
    ensures
        count(all, stands(standing)) == how_many(all, p),
{
    lemma_count_of_places(all, p);
    assert(places_of(all, p) =~= Set::new(|i: int| 0 <= i < all.len() && p(all[i])));
}

/// The tasks by where they stand: each status is counted once, and whatever has an
/// answer and no payment yet awaits settlement.
pub proof fn lemma_work_is_counted(b: BoardView, ceiling: u64, w: Work)
    requires
        counts_work(b, ceiling, w),
    ensures
        w.open == how_many(task_list(b), |t: TaskView| t.status == TaskStatus::Open),
        w.claimed == how_many(task_list(b), |t: TaskView| t.status == TaskStatus::Claimed),
        w.awaiting_settlement == how_many(
            task_list(b),
            |t: TaskView|
                t.status == TaskStatus::AwaitingDispute || t.status == TaskStatus::Disputed || t.status
                    == TaskStatus::Verified || t.status == TaskStatus::Submitted,
        ),
        w.paid == how_many(task_list(b), |t: TaskView| t.status == TaskStatus::Paid),
        w.closed == how_many(task_list(b), |t: TaskView| t.status == TaskStatus::Closed),
        w.payout_failed == how_many(task_list(b), |t: TaskView| t.status == TaskStatus::PayoutFailed),
        w.consensus_exposure == capped(b.consensus_bounties()),
        w.consensus_exposure_ceiling == ceiling,
{
    let all = task_list(b);
    let open = |t: TaskView| t.status == TaskStatus::Open;
    let claimed = |t: TaskView| t.status == TaskStatus::Claimed;
    let awaiting = |t: TaskView|
        t.status == TaskStatus::AwaitingDispute || t.status == TaskStatus::Disputed || t.status == TaskStatus::Verified
            || t.status == TaskStatus::Submitted;
    let paid = |t: TaskView| t.status == TaskStatus::Paid;
    let closed = |t: TaskView| t.status == TaskStatus::Closed;
    let failed = |t: TaskView| t.status == TaskStatus::PayoutFailed;
    assert(stands(Standing::Open) =~= open);
    assert(stands(Standing::Claimed) =~= claimed);
    assert(stands(Standing::AwaitingSettlement) =~= awaiting);
    assert(stands(Standing::Paid) =~= paid);
    assert(stands(Standing::Closed) =~= closed);
    assert(stands(Standing::PayoutFailed) =~= failed);
    lemma_standing_count(all, Standing::Open, open);
    lemma_standing_count(all, Standing::Claimed, claimed);
    lemma_standing_count(all, Standing::AwaitingSettlement, awaiting);
    lemma_standing_count(all, Standing::Paid, paid);
    lemma_standing_count(all, Standing::Closed, closed);
    lemma_standing_count(all, Standing::PayoutFailed, failed);
}

/// Of the networks at most fifty are shown: whichever took most inside the window
/// first, and of two that took as much, whichever took more in all. One that is not
/// shown took no more than those that are.
pub proof fn lemma_busiest_networks<P: Fn(u64) -> u64>(
    shown: Seq<NetworkRow>,
    listed: Seq<(Seq<char>, (u64, u64))>,
    price: P,
)
    requires
        shows_networks(shown, listed, price),
    ensures
        listed.len() <= 50 ==> shown.len() == listed.len(),
        listed.len() > 50 ==> shown.len() == 50,
        forall|i: int|
            0 <= i < shown.len() ==> {
                let row = #[trigger] shown[i];
                listed.contains((row.prefix@, (row.grants_in_window, row.grants_all_time))) && price.ensures(
                    (row.grants_in_window,),
                    row.next_price_multiplier,
                )
            },
        forall|i: int, j: int|
            0 <= i < j < shown.len() ==> {
                let (x, y) = (#[trigger] shown[i], #[trigger] shown[j]);
                x.grants_in_window > y.grants_in_window || (x.grants_in_window == y.grants_in_window
                    && x.grants_all_time >= y.grants_all_time)
            },
{
    let key = |row: (Seq<char>, (u64, u64))| network_place(row);
    let all = by_activity(listed);
    lemma_ordered_keeps(listed, key);
    assert forall|i: int| 0 <= i < shown.len() implies {
        let row = #[trigger] shown[i];
        listed.contains((row.prefix@, (row.grants_in_window, row.grants_all_time))) && price.ensures(
            (row.grants_in_window,),
            row.next_price_multiplier,
        )
    } by {
        let row = shown[i];
        assert(all[i] == (row.prefix@, (row.grants_in_window, row.grants_all_time)));
        assert(all.contains(all[i]));
    }
    assert forall|i: int, j: int| 0 <= i < j < shown.len() implies {
        let (x, y) = (#[trigger] shown[i], #[trigger] shown[j]);
        x.grants_in_window > y.grants_in_window || (x.grants_in_window == y.grants_in_window && x.grants_all_time
            >= y.grants_all_time)
    } by {
        assert(key(all[i]) <= key(all[j]));
    }
}

/// Activity is counted over the last day. The chain's age is the time since it was
/// last seen, and nothing where it never was or the clock went back. A second before
/// 1970 counts as it reads without its sign.
pub proof fn lemma_ages(now: Timestamp, observed: u64)
    requires
        now.valid(),
        in_calendar(now.nanos - 86_400_000_000_000),
    ensures
        activity_since(now) == (now.nanos - 86_400_000_000_000) / 1_000_000_000,
        observed == 0 ==> observation_age(now, observed) == 0,
        observed > 0 && now.nanos as int / 1_000_000_000 >= observed ==> observation_age(now, observed)
            == now.nanos as int / 1_000_000_000 - observed,
        0 <= now.nanos as int / 1_000_000_000 < observed ==> observation_age(now, observed) == 0,
        observed > 0 && now.nanos < 0 && now.nanos as int / 1_000_000_000 + 0x1_0000_0000_0000_0000 >= observed
            ==> observation_age(now, observed) == now.nanos as int / 1_000_000_000 + 0x1_0000_0000_0000_0000 - observed,
        forall|a: u64, b: int| 0 <= b <= a ==> #[trigger] less(a, b) == a - b,
        forall|a: u64, b: int| b > a ==> #[trigger] less(a, b) == 0,
{
}

}
