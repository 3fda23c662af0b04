//! The task board: every record the hub's rules work on, and the rules.
pub mod audit;
pub mod book;
pub mod consensus;
pub mod conservation;
pub mod deposits;
pub mod disputes;
pub mod drawn;
pub mod escrow;
pub mod exchange;
pub mod faucet;
pub mod ledger;
pub mod lifecycle;
pub mod locks;
pub mod payouts;
pub mod promises;
pub mod queries;
pub mod staging;
pub mod tasks;
pub mod types;
pub mod work;

use crate::board::deposits::{DepositView, PendingDeposit};
use crate::board::types::{
    AttemptView, ExchangeAccount, Order, Payment, PayoutAttempt, Reputation, Task, TaskView, Trade,
};
use crate::table::{listable, Table};
use crate::types::{Id, PayoutKey, PublicKey};
use vstd::prelude::*;

verus! {

/// Every record of the marketplace. It does no I/O and knows neither the
/// chain nor HTTP: callers pay people, and call back to record the outcome.
#[derive(Clone)]
pub struct TaskBoard {
    pub(crate) payments: Table<Id, Payment>,
    pub(crate) tasks: Table<Id, Task>,
    pub(crate) reputation: Table<PublicKey, Reputation>,
    pub(crate) faucet_grants: Table<PublicKey, i64>,
    pub(crate) faucet_grant_prefixes: Table<PublicKey, String>,
    pub(crate) pending_deposits: Table<Id, PendingDeposit>,
    pub(crate) exchange_accounts: Table<PublicKey, ExchangeAccount>,
    pub(crate) orders: Table<Id, Order>,
    pub(crate) trades: Table<Id, Trade>,
    pub(crate) payout_attempts: Table<PayoutKey, PayoutAttempt>,
}

/// The board's records as maps.
#[verifier::ext_equal]
pub struct BoardView {
    pub payments: Map<Id, Payment>,
    pub tasks: Map<Id, TaskView>,
    pub reputation: Map<PublicKey, Reputation>,
    /// When each key was granted, in seconds since the start of 1970.
    pub faucet_grants: Map<PublicKey, i64>,
    /// The network each grant was made to, where it was recorded.
    pub faucet_grant_prefixes: Map<PublicKey, Seq<char>>,
    pub pending_deposits: Map<Id, DepositView>,
    pub exchange_accounts: Map<PublicKey, ExchangeAccount>,
    pub orders: Map<Id, Order>,
    pub trades: Map<Id, Trade>,
    pub payout_attempts: Map<PayoutKey, AttemptView>,
}

impl BoardView {
    /// Every map is one that can be listed.
    pub open spec fn listed(self) -> bool {
        &&& listable(self.payments)
        &&& listable(self.tasks)
        &&& listable(self.reputation)
        &&& listable(self.faucet_grants)
        &&& listable(self.faucet_grant_prefixes)
        &&& listable(self.pending_deposits)
        &&& listable(self.exchange_accounts)
        &&& listable(self.orders)
        &&& listable(self.trades)
        &&& listable(self.payout_attempts)
    }

    /// Every record is filed under its own id, and is well formed itself.
    pub open spec fn wf(self) -> bool {
        &&& self.listed()
        &&& forall|id: Id| #[trigger] self.tasks.contains_key(id) ==> self.tasks[id].id == id && self.tasks[id].wf()
        &&& forall|id: Id| #[trigger]
            self.pending_deposits.contains_key(id) ==> self.pending_deposits[id].id == id
                && self.pending_deposits[id].purpose.wf()
        &&& forall|id: Id| #[trigger] self.orders.contains_key(id) ==> self.orders[id].id == id
        &&& forall|id: Id| #[trigger] self.trades.contains_key(id) ==> self.trades[id].id == id
        &&& forall|id: Id| #[trigger] self.payments.contains_key(id) ==> self.payments[id].id == id
        &&& forall|k: PayoutKey| #[trigger]
            self.payout_attempts.contains_key(k) ==> self.payout_attempts[k].task_id == k.task_id
                && self.payout_attempts[k].recipient == k.recipient
    }

    /// What is known of an agent; nothing done where there is no record.
    pub open spec fn reputation_of(self, agent: PublicKey) -> Reputation {
        if self.reputation.contains_key(agent) {
            self.reputation[agent]
        } else {
            Reputation::none()
        }
    }

    /// An agent's exchange account; an empty one where there is no record.
    pub open spec fn account_of(self, owner: PublicKey) -> ExchangeAccount {
        if self.exchange_accounts.contains_key(owner) {
            self.exchange_accounts[owner]
        } else {
            ExchangeAccount::none()
        }
    }
}

impl View for TaskBoard {
    type V = BoardView;

    closed spec fn view(&self) -> BoardView {
        BoardView {
            payments: self.payments@,
            tasks: self.tasks@,
            reputation: self.reputation@,
            faucet_grants: self.faucet_grants@,
            faucet_grant_prefixes: self.faucet_grant_prefixes@,
            pending_deposits: self.pending_deposits@,
            exchange_accounts: self.exchange_accounts@,
            orders: self.orders@,
            trades: self.trades@,
            payout_attempts: self.payout_attempts@,
        }
    }
}

impl TaskBoard {
    /// The board's invariant.
    pub closed spec fn wf(&self) -> bool {
        &&& self.payments.wf()
        &&& self.tasks.wf()
        &&& self.reputation.wf()
        &&& self.faucet_grants.wf()
        &&& self.faucet_grant_prefixes.wf()
        &&& self.pending_deposits.wf()
        &&& self.exchange_accounts.wf()
        &&& self.orders.wf()
        &&& self.trades.wf()
        &&& self.payout_attempts.wf()
        &&& self@.wf()
    }

    /// The records of a well-formed board are well formed.
    pub proof fn lemma_view_wf(&self)
        requires
            self.wf(),
        ensures
            self@.wf(),
    {
    }

    /// An empty board.
    pub fn new() -> (board: Self)
        ensures
            board.wf(),
            board@ == BoardView::empty(),
    {
        TaskBoard {
            payments: Table::new(),
            tasks: Table::new(),
            reputation: Table::new(),
            faucet_grants: Table::new(),
            faucet_grant_prefixes: Table::new(),
            pending_deposits: Table::new(),
            exchange_accounts: Table::new(),
            orders: Table::new(),
            trades: Table::new(),
            payout_attempts: Table::new(),
        }
    }

    /// What is known of an agent; nothing done where there is no record.
    pub fn reputation(&self, pubkey: &PublicKey) -> (r: Reputation)
        requires
            self.wf(),
        ensures
            r == self@.reputation_of(*pubkey),
    {
        match self.reputation.get(pubkey) {
            Some(r) => *r,
            None => Reputation::default(),
        }
    }

    /// An agent's exchange account; an empty one where there is no record.
    pub fn exchange_account(&self, pubkey: &PublicKey) -> (a: ExchangeAccount)
        requires
            self.wf(),
        ensures
            a == self@.account_of(*pubkey),
    {
        match self.exchange_accounts.get(pubkey) {
            Some(a) => *a,
            None => ExchangeAccount::default(),
        }
    }
}

impl BoardView {
    /// A board without records.
    pub open spec fn empty() -> BoardView {
        BoardView {
            payments: Map::empty(),
            tasks: Map::empty(),
            reputation: Map::empty(),
            faucet_grants: Map::empty(),
            faucet_grant_prefixes: Map::empty(),
            pending_deposits: Map::empty(),
            exchange_accounts: Map::empty(),
            orders: Map::empty(),
            trades: Map::empty(),
            payout_attempts: Map::empty(),
        }
    }
}

}
