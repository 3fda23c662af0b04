//! The operators' own view of the hub: what is happening, what looks wrong,
//! and who is doing it.
use crate::board::faucet::named_rows;
use crate::board::queries::{capped, task_list};
use crate::board::types::{ExchangeAccount, Reputation, Task, TaskStatus, TaskView};
use crate::board::{BoardView, TaskBoard};
use crate::seqs::{count, lemma_total_step, total, views};
use crate::sort::{lemma_order_of, lemma_ordered, order_of, ordered, stable_order, SortKey};
use crate::table::{has_row, lemma_listed, lemma_row_count, rows_of, Table};
use crate::text::{dec, decimal, joined};
use crate::types::{PublicKey, Timestamp, NANOS_PER_SECOND};
use vstd::prelude::*;
use vstd::string::*;

verus! {

/// How much of the recent past the activity figures cover, in hours.
pub const ACTIVITY_WINDOW_HOURS: i64 = 24;

/// How many networks are listed at most.
pub const MAX_NETWORK_ROWS: usize = 50;

/// How serious a finding is.
#[derive(Debug, Clone, Copy, PartialEq, Eq, Structural)]
pub enum Severity {
    /// Money is wrong, or the hub cannot vouch for its own integrity.
    Critical,
    /// Worth looking at before it becomes critical.
    Warning,
}

/// A finding.
#[derive(Debug, Clone)]
pub struct Alert {
    pub severity: Severity,
    /// A name that stays the same, whatever the wording.
    pub kind: &'static str,
    pub title: String,
    /// What it means and what to do.
    pub detail: String,
}

/// One network's activity.
#[derive(Debug, Clone)]
pub struct NetworkRow {
    pub prefix: String,
    /// Faucet grants to this network inside the window.
    pub grants_in_window: u64,
    pub grants_all_time: u64,
    /// What the next grant to this network costs, as a multiple of the base.
    pub next_price_multiplier: u64,
}

/// The hub's population.
#[derive(Debug, Clone, Copy, PartialEq, Eq, Structural)]
pub struct Agents {
    /// Keys with a record, a grant or an account.
    pub known: u64,
    pub funded_by_faucet: u64,
    pub with_completed_work: u64,
    pub with_failed_work: u64,
    /// Keys that hold an exchange balance.
    pub holding_balance: u64,
}

/// The hub's tasks, by where they stand.
#[derive(Debug, Clone, Copy, PartialEq, Eq, Structural)]
pub struct Work {
    pub open: u64,
    pub claimed: u64,
    pub awaiting_settlement: u64,
    pub paid: u64,
    pub closed: u64,
    pub payout_failed: u64,
    /// The bounties of consensus tasks that are not settled.
    pub consensus_exposure: u64,
    pub consensus_exposure_ceiling: u64,
}

/// What the faucet has given and has left to give.
#[derive(Debug, Clone, Copy, PartialEq, Eq, Structural)]
pub struct Faucet {
    pub granted_all_time: u64,
    pub granted_in_window: u64,
    pub granted_units_all_time: u64,
    pub window_budget: u64,
    pub window_remaining: u64,
    pub free_grants_per_network: u64,
    pub doubling_grants: u64,
}

/// What the hub holds and owes.
#[derive(Debug, Clone, Copy, PartialEq, Eq, Structural)]
pub struct Money {
    pub custody_balance: u64,
    pub exchange_liabilities: u64,
    pub solvent: bool,
    pub payments_pending: u64,
    pub payments_needs_review: u64,
    pub payments_oldest_pending_seconds: u64,
    pub operator_ready_outputs: u64,
    pub custody_ready_outputs: u64,
}

/// The signals that somebody is probing rather than using.
#[derive(Debug, Clone)]
pub struct Integrity {
    /// Requests turned away as replays.
    pub replays_rejected: u64,
    /// Claims that could not be kept.
    pub burned_envelopes: u64,
    /// The hub could not read back which requests it had seen.
    pub replay_guard_degraded: bool,
    pub rate_limited_by_tier: Vec<(String, u64)>,
    pub rate_limited_per_key: u64,
    /// Records that disagree with each other.
    pub store_disagreements: Vec<String>,
    pub ledger_store_divergences: u64,
}

/// The whole picture.
#[derive(Debug, Clone)]
pub struct Overview {
    pub generated_at: String,
    pub window_hours: i64,
    pub chain_height: u64,
    pub chain_observation_age_seconds: u64,
    pub alerts: Vec<Alert>,
    pub agents: Agents,
    pub work: Work,
    pub faucet: Faucet,
    pub money: Money,
    pub networks: Vec<NetworkRow>,
    pub integrity: Integrity,
}

/// What a finding shows.
#[verifier::ext_equal]
pub struct AlertView {
    pub severity: Severity,
    pub kind: Seq<char>,
    pub title: Seq<char>,
    pub detail: Seq<char>,
}

impl View for Alert {
    type V = AlertView;

    open spec fn view(&self) -> AlertView {
        AlertView { severity: self.severity, kind: self.kind@, title: self.title@, detail: self.detail@ }
    }
}

/// What findings show, in order.
pub open spec fn alert_views(alerts: Seq<Alert>) -> Seq<AlertView> {
    alerts.map_values(|a: Alert| a@)
}

/// One finding, or none.
pub open spec fn alert_if(
    raised: bool,
    severity: Severity,
    kind: Seq<char>,
    title: Seq<char>,
    detail: Seq<char>,
) -> Seq<AlertView> {
    if raised {
        seq![AlertView { severity, kind, title, detail }]
    } else {
        Seq::empty()
    }
}

/// Whether the busiest network has taken at least half of the faucet's
/// window, and more than one grant.
pub open spec fn dominates(busiest: NetworkRow, budget: u64) -> bool {
    2 * busiest.grants_in_window >= (if budget == 0 {
        1int
    } else {
        budget as int
    }) && busiest.grants_in_window > 1
}

/// What the figures give cause for, the critical findings first.
/// `percent` is the share of the faucet's window that the busiest network has
/// taken, as it is shown.
pub open spec fn alerts_shown(o: Overview, percent: Seq<char>) -> Seq<AlertView> {
    alert_if(
        !o.money.solvent,
        Severity::Critical,
        "insolvent"@,
        ("Custody holds "@ + dec(o.money.custody_balance as nat) + " against "@) + (dec(o.money.exchange_liabilities as nat) + " owed"@),
        "The one number where being wrong is a financial statement. Stop withdrawals and reconcile before anything else (deployment.md §8.3, §10.4)."@,
    ) + alert_if(
        o.money.payments_needs_review > 0,
        Severity::Critical,
        "payments_need_review"@,
        dec(o.money.payments_needs_review as nat) + " payment(s) need a human"@,
        "The hub has proven it cannot complete these: every resend refused, or no block holds them and their inputs are gone. Nothing further happens automatically (deployment.md §10.4)."@,
    ) + alert_if(
        o.integrity.store_disagreements.len() > 0,
        Severity::Critical,
        "store_disagreement"@,
        dec(o.integrity.store_disagreements.len() as nat) + " record(s) disagree"@,
        "Records that no sequence of correct operations could have produced. Each one is a defect somewhere (deployment.md §10.3)."@,
    ) + alert_if(
        o.integrity.burned_envelopes > 0,
        Severity::Critical,
        "burned_envelopes"@,
        dec(o.integrity.burned_envelopes as nat) + " envelope(s) burned"@,
        "The replay guard could not record a claim durably, so the request failed and cannot be retried. The store is failing."@,
    ) + alert_if(
        o.integrity.ledger_store_divergences > 0,
        Severity::Critical,
        "ledger_store_divergence"@,
        dec(o.integrity.ledger_store_divergences as nat) + " ledger/store divergence(s)"@,
        "A withdrawal credit-back that reached memory and not disk. A restart resolves it against the user, so fix the disk before restarting (deployment.md §9.5)."@,
    ) + alert_if(
        o.integrity.replay_guard_degraded,
        Severity::Warning,
        "replay_guard_degraded"@,
        "Replay guard is running without its history"@,
        "This process could not read its replay log at boot. It refused writes for its first window so nothing is open now, but restart it once the disk is healthy — the gauge cannot clear on its own."@,
    ) + alert_if(
        o.chain_observation_age_seconds > 180,
        Severity::Warning,
        "chain_stale"@,
        "Chain last seen "@ + dec(o.chain_observation_age_seconds as nat) + "s ago"@,
        "Three blocks at the sixteen-second target. The height alone would keep reporting the last value it knew, which is why the age is the alert."@,
    ) + alert_if(
        o.money.operator_ready_outputs < 4,
        Severity::Warning,
        "operator_wallet_flat"@,
        "Operator has "@ + dec(o.money.operator_ready_outputs as nat) + " spendable output(s)"@,
        "About to start refusing grants and settlement, and the 503s will look like a client problem. Expect 0 for one block after a fresh deploy."@,
    ) + alert_if(
        o.faucet.window_remaining == 0 && o.faucet.window_budget > 0,
        Severity::Warning,
        "faucet_budget_exhausted"@,
        "Faucet budget is spent for this window"@,
        "Either an attack absorbed exactly as intended, or the budget is below what an honest cohort needs. The network table says which: one prefix near the whole budget is a farm, many small ones are a population."@,
    ) + alert_if(
        o.money.payments_oldest_pending_seconds > 900,
        Severity::Warning,
        "payment_stuck"@,
        "A payment has been pending "@ + dec(o.money.payments_oldest_pending_seconds as nat) + "s"@,
        "Brief excursions are normal — a payment is pending by design until the sweep sees it on chain. Climbing without falling means the evidence scan is not reaching the node."@,
    ) + alert_if(
        o.work.consensus_exposure_ceiling > 0 && o.work.consensus_exposure >= o.work.consensus_exposure_ceiling / 5 * 4,
        Severity::Warning,
        "consensus_exposure_high"@,
        ("Consensus exposure at "@ + dec(o.work.consensus_exposure as nat) + " of "@) + dec(o.work.consensus_exposure_ceiling as nat),
        "Consensus verifies agreement rather than correctness, so this is what a colluding majority could take. Posting more will start being refused."@,
    ) + alert_if(
        o.networks.len() > 0 && dominates(o.networks@[0], o.faucet.window_budget),
        Severity::Warning,
        "network_dominates_faucet"@,
        (o.networks@[0].prefix@ + " has taken "@) + (percent + "% of the faucet window"@),
        "One network holding most of the budget is the shape of a farm; many small rows are a population. The price curve is already charging it more — check whether that is a shared network being squeezed before tightening anything."@,
    )
}

/// A number and what it counts.
fn counted(n: u64, after: &str) -> (text: String)
    ensures
        text@ == dec(n as nat) + after@,
{
    joined(decimal(n).as_str(), after)
}

/// A number in a sentence.
fn worded(before: &str, n: u64, after: &str) -> (text: String)
    ensures
        text@ == before@ + dec(n as nat) + after@,
{
    joined(joined(before, decimal(n).as_str()).as_str(), after)
}

/// Adds a finding, if there is cause.
fn raise(
    alerts: &mut Vec<Alert>,
    raised: bool,
    severity: Severity,
    kind: &'static str,
    title: String,
    detail: &str,
)
    ensures
        alert_views(final(alerts)@) == alert_views(old(alerts)@) + alert_if(
            raised,
            severity,
            kind@,
            title@,
            detail@,
        ),
{
    if raised {
        alerts.push(Alert { severity, kind, title, detail: detail.to_owned() });
    }
    assert(alert_views(alerts@) =~= alert_views(old(alerts)@) + alert_if(raised, severity, kind@, title@, detail@));
}

/// Everything worth waking someone for, or worth a look, the critical first.
/// `percent` is the share of the faucet's window that the busiest network has
/// taken, as it is shown.
pub fn alerts_for(o: &Overview, percent: &str) -> (alerts: Vec<Alert>)
    ensures
        alert_views(alerts@) == alerts_shown(*o, percent@),
{
    let mut alerts: Vec<Alert> = Vec::new();
    assert(alert_views(alerts@) =~= Seq::<AlertView>::empty());
    raise(
        &mut alerts,
        !o.money.solvent,
        Severity::Critical,
        "insolvent",
        joined(worded("Custody holds ", o.money.custody_balance, " against ").as_str(), counted(o.money.exchange_liabilities, " owed").as_str()),
        "The one number where being wrong is a financial statement. Stop withdrawals and reconcile before anything else (deployment.md §8.3, §10.4).",
    );
    raise(
        &mut alerts,
        o.money.payments_needs_review > 0,
        Severity::Critical,
        "payments_need_review",
        counted(o.money.payments_needs_review, " payment(s) need a human"),
        "The hub has proven it cannot complete these: every resend refused, or no block holds them and their inputs are gone. Nothing further happens automatically (deployment.md §10.4).",
    );
    raise(
        &mut alerts,
        o.integrity.store_disagreements.len() > 0,
        Severity::Critical,
        "store_disagreement",
        counted(o.integrity.store_disagreements.len() as u64, " record(s) disagree"),
        "Records that no sequence of correct operations could have produced. Each one is a defect somewhere (deployment.md §10.3).",
    );
    raise(
        &mut alerts,
        o.integrity.burned_envelopes > 0,
        Severity::Critical,
        "burned_envelopes",
        counted(o.integrity.burned_envelopes, " envelope(s) burned"),
        "The replay guard could not record a claim durably, so the request failed and cannot be retried. The store is failing.",
    );
    raise(
        &mut alerts,
        o.integrity.ledger_store_divergences > 0,
        Severity::Critical,
        "ledger_store_divergence",
        counted(o.integrity.ledger_store_divergences, " ledger/store divergence(s)"),
        "A withdrawal credit-back that reached memory and not disk. A restart resolves it against the user, so fix the disk before restarting (deployment.md §9.5).",
    );
    raise(
        &mut alerts,
        o.integrity.replay_guard_degraded,
        Severity::Warning,
        "replay_guard_degraded",
        "Replay guard is running without its history".to_owned(),
        "This process could not read its replay log at boot. It refused writes for its first window so nothing is open now, but restart it once the disk is healthy — the gauge cannot clear on its own.",
    );
    raise(
        &mut alerts,
        o.chain_observation_age_seconds > 180,
        Severity::Warning,
        "chain_stale",
        worded("Chain last seen ", o.chain_observation_age_seconds, "s ago"),
        "Three blocks at the sixteen-second target. The height alone would keep reporting the last value it knew, which is why the age is the alert.",
    );
    raise(
        &mut alerts,
        o.money.operator_ready_outputs < 4,
        Severity::Warning,
        "operator_wallet_flat",
        worded("Operator has ", o.money.operator_ready_outputs, " spendable output(s)"),
        "About to start refusing grants and settlement, and the 503s will look like a client problem. Expect 0 for one block after a fresh deploy.",
    );
    raise(
        &mut alerts,
        o.faucet.window_remaining == 0 && o.faucet.window_budget > 0,
        Severity::Warning,
        "faucet_budget_exhausted",
        "Faucet budget is spent for this window".to_owned(),
        "Either an attack absorbed exactly as intended, or the budget is below what an honest cohort needs. The network table says which: one prefix near the whole budget is a farm, many small ones are a population.",
    );
    raise(
        &mut alerts,
        o.money.payments_oldest_pending_seconds > 900,
        Severity::Warning,
        "payment_stuck",
        worded("A payment has been pending ", o.money.payments_oldest_pending_seconds, "s"),
        "Brief excursions are normal — a payment is pending by design until the sweep sees it on chain. Climbing without falling means the evidence scan is not reaching the node.",
    );
    raise(
        &mut alerts,
        o.work.consensus_exposure_ceiling > 0 && o.work.consensus_exposure >= o.work.consensus_exposure_ceiling / 5 * 4,
        Severity::Warning,
        "consensus_exposure_high",
        joined(worded("Consensus exposure at ", o.work.consensus_exposure, " of ").as_str(), decimal(o.work.consensus_exposure_ceiling).as_str()),
        "Consensus verifies agreement rather than correctness, so this is what a colluding majority could take. Posting more will start being refused.",
    );
    if o.networks.len() > 0 {
        let busiest = &o.networks[0];
        let budget: u64 = if o.faucet.window_budget == 0 {
            1
        } else {
            o.faucet.window_budget
        };
        raise(
            &mut alerts,
            busiest.grants_in_window as u128 * 2 >= budget as u128 && busiest.grants_in_window > 1,
            Severity::Warning,
            "network_dominates_faucet",
            joined(
                joined(busiest.prefix.as_str(), " has taken ").as_str(),
                joined(percent, "% of the faucet window").as_str(),
            ),
            "One network holding most of the budget is the shape of a farm; many small rows are a population. The price curve is already charging it more — check whether that is a shared network being squeezed before tightening anything.",
        );
    }
    alerts
}

/// The keys with a record, a grant or an account.
pub open spec fn known_keys(b: BoardView) -> Set<PublicKey> {
    b.reputation.dom().union(b.faucet_grants.dom()).union(b.exchange_accounts.dom())
}

/// The agents with a completed task.
pub open spec fn completed_work() -> spec_fn((PublicKey, Reputation)) -> bool {
    |row: (PublicKey, Reputation)| row.1.completed > 0
}

/// The agents with a failed task.
pub open spec fn failed_work() -> spec_fn((PublicKey, Reputation)) -> bool {
    |row: (PublicKey, Reputation)| row.1.failed > 0
}

/// The agents with an exchange balance.
pub open spec fn holding_balance() -> spec_fn((PublicKey, ExchangeAccount)) -> bool {
    |row: (PublicKey, ExchangeAccount)| row.1.base_balance > 0 || row.1.compute_balance > 0
}

/// Whether `agents` counts the population of the board.
pub open spec fn counts_agents(b: BoardView, agents: Agents) -> bool {
    &&& agents.known == known_keys(b).len()
    &&& agents.funded_by_faucet == b.faucet_grants.dom().len()
    &&& agents.with_completed_work == count(rows_of(b.reputation), completed_work())
    &&& agents.with_failed_work == count(rows_of(b.reputation), failed_work())
    &&& agents.holding_balance == count(rows_of(b.exchange_accounts), holding_balance())
}

/// Counts the hub's population.
pub fn agents_of(board: &TaskBoard) -> (agents: Agents)
    requires
        board.wf(),
    ensures
        counts_agents(board@, agents),
{
    proof {
        board.lemma_view_wf();
        lemma_listed(board@.reputation);
        lemma_listed(board@.faucet_grants);
        lemma_listed(board@.exchange_accounts);
        lemma_row_count(rows_of(board@.faucet_grants));
    }
    let mut known: Table<PublicKey, bool> = Table::new();
    let records = board.all_reputation();
    let ghost done_row = completed_work();
    let ghost missed_row = failed_work();
    let ghost done = |row: (PublicKey, Reputation)| if done_row(row) { 1int } else { 0 };
    let ghost missed = |row: (PublicKey, Reputation)| if missed_row(row) { 1int } else { 0 };
    let mut completed: u64 = 0;
    let mut failed: u64 = 0;
    let mut i: usize = 0;
    while i < records.len()
        invariant
            i <= records.len(),
            known.wf(),
            done_row == completed_work(),
            missed_row == failed_work(),
            done == (|row: (PublicKey, Reputation)| if done_row(row) { 1int } else { 0 }),
            missed == (|row: (PublicKey, Reputation)| if missed_row(row) { 1int } else { 0 }),
            completed == total(records@.take(i as int), done),
            failed == total(records@.take(i as int), missed),
            completed <= i,
            failed <= i,
            forall|k: PublicKey| #[trigger]
                known@.contains_key(k) <==> exists|j: int| 0 <= j < i && (#[trigger] records@[j]).0 == k,
        decreases records.len() - i,
    {
        proof {
            lemma_total_step(records@, done, i as int);
            lemma_total_step(records@, missed, i as int);
        }
        known.insert(records[i].0, true);
        if records[i].1.completed > 0 {
            completed = completed + 1;
        }
        if records[i].1.failed > 0 {
            failed = failed + 1;
        }
        i += 1;
    }
    assert(records@.take(i as int) =~= records@);
    let ghost first = known@;
    assert(first.dom() =~= board@.reputation.dom()) by {
        assert forall|k: PublicKey| first.contains_key(k) <==> board@.reputation.contains_key(k) by {
            assert(board@.reputation.contains_key(k) <==> has_row(rows_of(board@.reputation), k));
        }
    }
    let grants = board.all_faucet_grants();
    let ghost granted = rows_of(board@.faucet_grants);
    let mut j: usize = 0;
    while j < grants.len()
        invariant
            j <= grants.len(),
            known.wf(),
            forall|k: PublicKey| #[trigger]
                known@.contains_key(k) <==> first.contains_key(k) || exists|n: int|
                    0 <= n < j && (#[trigger] grants@[n]) == k,
        decreases grants.len() - j,
    {
        known.insert(grants[j], true);
        j += 1;
    }
    let ghost second = known@;
    assert(second.dom() =~= first.dom().union(board@.faucet_grants.dom())) by {
        assert forall|k: PublicKey| second.contains_key(k) <==> first.contains_key(k)
            || board@.faucet_grants.contains_key(k) by {
            assert(board@.faucet_grants.contains_key(k) <==> has_row(granted, k));
            if has_row(granted, k) {
                let n = choose|n: int| 0 <= n < granted.len() && (#[trigger] granted[n]).0 == k;
                assert(grants@[n] == k);
            }
            if exists|n: int| 0 <= n < grants.len() && (#[trigger] grants@[n]) == k {
                let n = choose|n: int| 0 <= n < grants.len() && (#[trigger] grants@[n]) == k;
                assert(granted[n].0 == k);
            }
        }
    }
    let accounts = board.all_exchange_accounts();
    let ghost holds_row = holding_balance();
    let ghost holds = |row: (PublicKey, ExchangeAccount)| if holds_row(row) { 1int } else { 0 };
    let mut holding: u64 = 0;
    let mut m: usize = 0;
    while m < accounts.len()
        invariant
            m <= accounts.len(),
            known.wf(),
            holds_row == holding_balance(),
            holds == (|row: (PublicKey, ExchangeAccount)| if holds_row(row) { 1int } else { 0 }),
            holding == total(accounts@.take(m as int), holds),
            holding <= m,
            forall|k: PublicKey| #[trigger]
                known@.contains_key(k) <==> second.contains_key(k) || exists|n: int|
                    0 <= n < m && (#[trigger] accounts@[n]).0 == k,
        decreases accounts.len() - m,
    {
        proof {
            lemma_total_step(accounts@, holds, m as int);
        }
        known.insert(accounts[m].0, true);
        if accounts[m].1.base_balance > 0 || accounts[m].1.compute_balance > 0 {
            holding = holding + 1;
        }
        m += 1;
    }
    assert(accounts@.take(m as int) =~= accounts@);
    proof {
        let third = known@;
        assert forall|k: PublicKey| third.contains_key(k) <==> second.contains_key(k)
            || board@.exchange_accounts.contains_key(k) by {
            assert(board@.exchange_accounts.contains_key(k) <==> has_row(rows_of(board@.exchange_accounts), k));
        }
        assert(third.dom() =~= known_keys(board@));
        lemma_row_count(known.rows());
    }
    Agents {
        known: known.len() as u64,
        funded_by_faucet: grants.len() as u64,
        with_completed_work: completed,
        with_failed_work: failed,
        holding_balance: holding,
    }
}

/// How a task is counted.
#[derive(Debug, Clone, Copy, PartialEq, Eq, Structural)]
pub enum Standing {
    Open,
    Claimed,
    AwaitingSettlement,
    Paid,
    PayoutFailed,
    Closed,
}

/// How a task of that status is counted.
pub open spec fn standing_of(status: TaskStatus) -> Standing {
    match status {
        TaskStatus::Open => Standing::Open,
        TaskStatus::Claimed => Standing::Claimed,
        TaskStatus::AwaitingDispute => Standing::AwaitingSettlement,
        TaskStatus::Disputed => Standing::AwaitingSettlement,
        TaskStatus::Verified => Standing::AwaitingSettlement,
        TaskStatus::Submitted => Standing::AwaitingSettlement,
        TaskStatus::Paid => Standing::Paid,
        TaskStatus::PayoutFailed => Standing::PayoutFailed,
        TaskStatus::Closed => Standing::Closed,
    }
}

/// The tasks that are counted so.
pub open spec fn stands(standing: Standing) -> spec_fn(TaskView) -> bool {
    |t: TaskView| standing_of(t.status) == standing
}

fn standing(status: TaskStatus) -> (s: Standing)
    ensures
        s == standing_of(status),
{
    match status {
        TaskStatus::Open => Standing::Open,
        TaskStatus::Claimed => Standing::Claimed,
        TaskStatus::AwaitingDispute | TaskStatus::Disputed | TaskStatus::Verified | TaskStatus::Submitted => {
            Standing::AwaitingSettlement
        },
        TaskStatus::Paid => Standing::Paid,
        TaskStatus::PayoutFailed => Standing::PayoutFailed,
        TaskStatus::Closed => Standing::Closed,
    }
}

/// How many of `tasks` are counted so.
fn count_standing(tasks: &Vec<&Task>, wanted: Standing) -> (n: u64)
    ensures
        n == count(views(tasks@), stands(wanted)),
{
    let ghost all = views(tasks@);
    let ghost p = stands(wanted);
    let ghost f = |t: TaskView| if p(t) { 1int } else { 0 };
    let mut n: u64 = 0;
    let mut i: usize = 0;
    while i < tasks.len()
        invariant
            i <= tasks.len(),
            all == views(tasks@),
            p == stands(wanted),
            f == (|t: TaskView| if p(t) { 1int } else { 0 }),
            n == total(all.take(i as int), f),
            n <= i,
        decreases tasks.len() - i,
    {
        proof {
            lemma_total_step(all, f, i as int);
        }
        if standing(tasks[i].status) == wanted {
            n = n + 1;
        }
        i += 1;
    }
    assert(all.take(i as int) =~= all);
    n
}

/// Whether `w` counts the tasks of the board by where they stand.
pub open spec fn counts_work(b: BoardView, ceiling: u64, w: Work) -> bool {
    &&& w.open == count(task_list(b), stands(Standing::Open))
    &&& w.claimed == count(task_list(b), stands(Standing::Claimed))
    &&& w.awaiting_settlement == count(task_list(b), stands(Standing::AwaitingSettlement))
    &&& w.paid == count(task_list(b), stands(Standing::Paid))
    &&& w.closed == count(task_list(b), stands(Standing::Closed))
    &&& w.payout_failed == count(task_list(b), stands(Standing::PayoutFailed))
    &&& w.consensus_exposure == capped(b.consensus_bounties())
    &&& w.consensus_exposure_ceiling == ceiling
}

/// Counts the hub's tasks by where they stand.
pub fn work_of(board: &TaskBoard, ceiling: u64) -> (w: Work)
    requires
        board.wf(),
    ensures
        counts_work(board@, ceiling, w),
{
    let tasks = board.all_tasks();
    Work {
        open: count_standing(&tasks, Standing::Open),
        claimed: count_standing(&tasks, Standing::Claimed),
        awaiting_settlement: count_standing(&tasks, Standing::AwaitingSettlement),
        paid: count_standing(&tasks, Standing::Paid),
        closed: count_standing(&tasks, Standing::Closed),
        payout_failed: count_standing(&tasks, Standing::PayoutFailed),
        consensus_exposure: board.consensus_exposure(),
        consensus_exposure_ceiling: ceiling,
    }
}

/// A network's place: the busiest inside the window first, then the busiest
/// of all time.
pub open spec fn network_place(row: (Seq<char>, (u64, u64))) -> int {
    -(row.1.0 * 0x1_0000_0000_0000_0000int + row.1.1)
}

/// Networks in the order of their activity, networks of the same activity by
/// ascending prefix.
pub open spec fn by_activity(listed: Seq<(Seq<char>, (u64, u64))>) -> Seq<(Seq<char>, (u64, u64))> {
    ordered(listed, |row: (Seq<char>, (u64, u64))| network_place(row))
}

/// Whether `shown` lists the busiest networks of `listed`, each with its
/// price.
pub open spec fn shows_networks<P: Fn(u64) -> u64>(
    shown: Seq<NetworkRow>,
    listed: Seq<(Seq<char>, (u64, u64))>,
    price: P,
) -> bool {
    let all = by_activity(listed);
    &&& shown.len() == if all.len() < MAX_NETWORK_ROWS {
        all.len()
    } else {
        MAX_NETWORK_ROWS as nat
    }
    &&& forall|i: int|
        0 <= i < shown.len() ==> (#[trigger] shown[i]).prefix@ == all[i].0 && shown[i].grants_in_window == all[i].1.0
            && shown[i].grants_all_time == all[i].1.1 && price.ensures(
            (all[i].1.0,),
            shown[i].next_price_multiplier,
        )
}

/// The networks that took most of the faucet since `cutoff`. `price` says
/// what the next grant costs after so many inside the window.
pub fn networks_of<P: Fn(u64) -> u64>(board: &TaskBoard, cutoff: i64, price: P) -> (shown: Vec<NetworkRow>)
    requires
        board.wf(),
        forall|n: u64| #[trigger] price.requires((n,)),
    ensures
        exists|listed: Seq<(Seq<char>, (u64, u64))>| #[trigger]
            board@.lists_networks(listed, cutoff) && shows_networks(shown@, listed, price),
{
    let networks = board.faucet_grants_by_prefix(cutoff);
    let ghost listed = named_rows(networks@);
    let mut keys: Vec<SortKey> = Vec::new();
    let mut i: usize = 0;
    while i < networks.len()
        invariant
            i <= networks.len(),
            keys.len() == i,
            listed == named_rows(networks@),
            forall|j: int|
                0 <= j < i ==> (#[trigger] keys@[j]) == (SortKey {
                    a: (u64::MAX - listed[j].1.0) as u128,
                    b: (u64::MAX - listed[j].1.1) as u128,
                    c: 0,
                    d: 0,
                }),
        decreases networks.len() - i,
    {
        keys.push(
            SortKey {
                a: (u64::MAX - networks[i].1.0) as u128,
                b: (u64::MAX - networks[i].1.1) as u128,
                c: 0,
                d: 0,
            },
        );
        i += 1;
    }
    let order = stable_order(&keys);
    let ghost place = |row: (Seq<char>, (u64, u64))| network_place(row);
    proof {
        lemma_ordered(listed, place, keys@);
        lemma_order_of(listed.map_values(place));
    }
    let ghost o = order_of(listed.map_values(place));
    assert forall|j: int| 0 <= j < order.len() implies o[j] == #[trigger] order@[j] by {
        assert(order@.map_values(|x: usize| x as int)[j] == order@[j]);
    }
    let mut shown: Vec<NetworkRow> = Vec::new();
    let mut k: usize = 0;
    while k < order.len() && k < MAX_NETWORK_ROWS
        invariant
            k <= order.len(),
            k <= MAX_NETWORK_ROWS,
            listed == named_rows(networks@),
            order.len() == networks.len(),
            o.len() == order.len(),
            forall|n: u64| #[trigger] price.requires((n,)),
            place == (|row: (Seq<char>, (u64, u64))| network_place(row)),
            o == order_of(listed.map_values(place)),
            forall|j: int| 0 <= j < order.len() ==> o[j] == #[trigger] order@[j],
            forall|j: int| 0 <= j < order.len() ==> (#[trigger] order@[j]) < networks.len(),
            shown.len() == k,
            forall|j: int|
                0 <= j < k ==> (#[trigger] shown@[j]).prefix@ == by_activity(listed)[j].0 && shown@[j].grants_in_window
                    == by_activity(listed)[j].1.0 && shown@[j].grants_all_time == by_activity(listed)[j].1.1
                    && price.ensures((by_activity(listed)[j].1.0,), shown@[j].next_price_multiplier),
        decreases order.len() - k,
    {
        let row = &networks[order[k]];
        proof {
            assert(by_activity(listed)[k as int] == listed[o[k as int]]);
            assert(listed[order@[k as int] as int] == (row.0@, row.1));
        }
        let multiplier = price(row.1.0);
        shown.push(
            NetworkRow {
                prefix: row.0.clone(),
                grants_in_window: row.1.0,
                grants_all_time: row.1.1,
                next_price_multiplier: multiplier,
            },
        );
        k += 1;
    }
    assert(board@.lists_networks(listed, cutoff) && shows_networks(shown@, listed, price));
    shown
}

/// What the hub's gauges and counters read.
#[derive(Debug, Clone)]
pub struct Readings {
    pub custody_balance: u64,
    pub faucet_granted_units: u64,
    pub payments_pending: u64,
    pub payments_needs_review: u64,
    pub payments_oldest_pending_seconds: u64,
    pub operator_ready_outputs: u64,
    pub custody_ready_outputs: u64,
    pub replays_rejected: u64,
    pub burned_envelopes: u64,
    /// How often the hub started without what it had seen.
    pub replay_guard_degraded: u64,
    pub rate_limited_by_tier: Vec<(String, u64)>,
    pub rate_limited_per_key: u64,
    pub ledger_store_divergences: u64,
    pub chain_height: u64,
    /// When the chain was last seen, in seconds since the start of 1970;
    /// nothing if it never was.
    pub chain_observed_at_unix: u64,
}

/// What the operators have set.
#[derive(Debug, Clone, Copy, PartialEq, Eq, Structural)]
pub struct Settings {
    pub consensus_max_exposure: u64,
    pub faucet_daily_grants: u64,
    pub faucet_free_grants_per_prefix: u64,
    pub faucet_pow_doubling_grants: u64,
}

/// The second from which activity counts.
pub open spec fn activity_since(now: Timestamp) -> int {
    now.later(-(ACTIVITY_WINDOW_HOURS * 3600 * NANOS_PER_SECOND)).second()
}

/// `a` without `b`, or nothing if that is more.
pub open spec fn less(a: u64, b: int) -> int {
    if a >= b {
        a - b
    } else {
        0
    }
}

/// How long ago the chain was last seen.
pub open spec fn observation_age(now: Timestamp, observed: u64) -> int {
    if observed == 0 {
        0
    } else if now.second() >= 0 {
        less(now.second() as u64, observed as int)
    } else {
        less((now.second() + 0x1_0000_0000_0000_0000int) as u64, observed as int)
    }
}

/// Draws the whole picture. `price` says what the next grant to a network
/// costs after so many inside the window, and `percent` how a share of the
/// faucet's budget is shown.
pub fn overview<P: Fn(u64) -> u64, Q: Fn(u64, u64) -> String>(
    board: &TaskBoard,
    readings: Readings,
    settings: &Settings,
    disagreements: Vec<String>,
    now: Timestamp,
    price: P,
    percent: Q,
) -> (o: Overview)
    requires
        board.wf(),
        now.valid(),
        forall|n: u64| #[trigger] price.requires((n,)),
        forall|n: u64, budget: u64| #[trigger] percent.requires((n, budget)),
    ensures
        o.generated_at@ == now.text(),
        o.window_hours == ACTIVITY_WINDOW_HOURS,
        o.chain_height == readings.chain_height,
        o.chain_observation_age_seconds == observation_age(now, readings.chain_observed_at_unix),
        counts_agents(board@, o.agents),
        counts_work(board@, settings.consensus_max_exposure, o.work),
        o.faucet.granted_all_time == board@.faucet_grants.dom().len(),
        o.faucet.granted_in_window == board@.grants_since(activity_since(now) as i64),
        o.faucet.granted_units_all_time == readings.faucet_granted_units,
        o.faucet.window_budget == settings.faucet_daily_grants,
        o.faucet.window_remaining == less(
            settings.faucet_daily_grants,
            board@.grants_since(activity_since(now) as i64),
        ),
        o.faucet.free_grants_per_network == settings.faucet_free_grants_per_prefix,
        o.faucet.doubling_grants == settings.faucet_pow_doubling_grants,
        o.money == (Money {
            custody_balance: readings.custody_balance,
            exchange_liabilities: capped(board@.liabilities()),
            solvent: readings.custody_balance >= capped(board@.liabilities()),
            payments_pending: readings.payments_pending,
            payments_needs_review: readings.payments_needs_review,
            payments_oldest_pending_seconds: readings.payments_oldest_pending_seconds,
            operator_ready_outputs: readings.operator_ready_outputs,
            custody_ready_outputs: readings.custody_ready_outputs,
        }),
        o.integrity == (Integrity {
            replays_rejected: readings.replays_rejected,
            burned_envelopes: readings.burned_envelopes,
            replay_guard_degraded: readings.replay_guard_degraded > 0,
            rate_limited_by_tier: readings.rate_limited_by_tier,
            rate_limited_per_key: readings.rate_limited_per_key,
            store_disagreements: disagreements,
            ledger_store_divergences: readings.ledger_store_divergences,
        }),
        exists|listed: Seq<(Seq<char>, (u64, u64))>| #[trigger]
            board@.lists_networks(listed, activity_since(now) as i64) && shows_networks(o.networks@, listed, price),
        o.networks.len() == 0 ==> alert_views(o.alerts@) == alerts_shown(o, Seq::empty()),
        o.networks.len() > 0 ==> exists|text: String| #[trigger]
            percent.ensures((o.networks@[0].grants_in_window, settings.faucet_daily_grants), text) && alert_views(
                o.alerts@,
            ) == alerts_shown(o, text@),
{
    let cutoff = now.plus_seconds(-(ACTIVITY_WINDOW_HOURS * 3600)).timestamp();
    let agents = agents_of(board);
    let work = work_of(board, settings.consensus_max_exposure);
    let networks = networks_of(board, cutoff, price);
    let ghost listed = choose|listed: Seq<(Seq<char>, (u64, u64))>| #[trigger]
        board@.lists_networks(listed, cutoff) && shows_networks(networks@, listed, price);
    assert(board@.lists_networks(listed, activity_since(now) as i64));
    let granted_in_window = board.faucet_granted_since(cutoff);
    let liabilities = board.exchange_liabilities();
    let observed = readings.chain_observed_at_unix;
    let second = now.timestamp();
    let clock: u64 = if second >= 0 {
        second as u64
    } else {
        (second as i128 + 0x1_0000_0000_0000_0000i128) as u64
    };
    let age: u64 = if observed == 0 || clock < observed {
        0
    } else {
        clock - observed
    };
    let remaining: u64 = if settings.faucet_daily_grants >= granted_in_window {
        settings.faucet_daily_grants - granted_in_window
    } else {
        0
    };
    let mut o = Overview {
        generated_at: now.to_rfc3339(),
        window_hours: ACTIVITY_WINDOW_HOURS,
        chain_height: readings.chain_height,
        chain_observation_age_seconds: age,
        alerts: Vec::new(),
        agents,
        work,
        faucet: Faucet {
            granted_all_time: agents.funded_by_faucet,
            granted_in_window,
            granted_units_all_time: readings.faucet_granted_units,
            window_budget: settings.faucet_daily_grants,
            window_remaining: remaining,
            free_grants_per_network: settings.faucet_free_grants_per_prefix,
            doubling_grants: settings.faucet_pow_doubling_grants,
        },
        money: Money {
            custody_balance: readings.custody_balance,
            exchange_liabilities: liabilities,
            solvent: readings.custody_balance >= liabilities,
            payments_pending: readings.payments_pending,
            payments_needs_review: readings.payments_needs_review,
            payments_oldest_pending_seconds: readings.payments_oldest_pending_seconds,
            operator_ready_outputs: readings.operator_ready_outputs,
            custody_ready_outputs: readings.custody_ready_outputs,
        },
        networks,
        integrity: Integrity {
            replays_rejected: readings.replays_rejected,
            burned_envelopes: readings.burned_envelopes,
            replay_guard_degraded: readings.replay_guard_degraded > 0,
            rate_limited_by_tier: readings.rate_limited_by_tier,
            rate_limited_per_key: readings.rate_limited_per_key,
            store_disagreements: disagreements,
            ledger_store_divergences: readings.ledger_store_divergences,
        },
    };
    let text = if o.networks.len() > 0 {
        percent(o.networks[0].grants_in_window, settings.faucet_daily_grants)
    } else {
        String::new()
    };
    let alerts = alerts_for(&o, text.as_str());
    proof {
        if o.networks.len() == 0 {
            assert(text@ =~= Seq::empty());
        } else {
            assert(percent.ensures((o.networks@[0].grants_in_window, settings.faucet_daily_grants), text));
        }
    }
    o.alerts = alerts;
    o
}

}
