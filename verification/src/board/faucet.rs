//! The faucet's grants, and the networks they were made to.
use crate::board::types::{BoardError, ExchangeAccount, Reputation};
use crate::board::{BoardView, TaskBoard};
use crate::seqs::{count, lemma_count_bounds, lemma_total_step, total};
use crate::table::{has_row, lemma_map_sum_insert, listable, rows_of};
use crate::tags::{lemma_named_row_is_mapped, text_ascending, TextTable};
use crate::types::PublicKey;
use vstd::prelude::*;
use vstd::string::*;

verus! {

impl BoardView {
    /// Whether a key was granted at or after `cutoff`.
    pub open spec fn granted_since(self, key: PublicKey, cutoff: i64) -> bool {
        self.faucet_grants.contains_key(key) && self.faucet_grants[key] >= cutoff
    }

    /// How many grants were made at or after `cutoff`.
    pub open spec fn grants_since(self, cutoff: i64) -> int {
        count(rows_of(self.faucet_grants), |row: (PublicKey, i64)| row.1 >= cutoff)
    }

    /// How many grants were made to the network `prefix`.
    pub open spec fn grants_to(self, prefix: Seq<char>) -> int {
        count(rows_of(self.faucet_grant_prefixes), made_to(prefix))
    }

    /// How many grants were made to the network `prefix` at or after
    /// `cutoff`.
    pub open spec fn grants_to_since(self, prefix: Seq<char>, cutoff: i64) -> int {
        count(rows_of(self.faucet_grant_prefixes), made_to_since(self, prefix, cutoff))
    }

    /// Whether some grant was made to the network `prefix`.
    pub open spec fn network_known(self, prefix: Seq<char>) -> bool {
        exists|i: int|
            0 <= i < rows_of(self.faucet_grant_prefixes).len() && (#[trigger] rows_of(self.faucet_grant_prefixes)[i]).1
                == prefix
    }

    /// Whether `rows` lists every network that was granted to, in ascending
    /// order, with how many grants were made to it at or after `cutoff`, and
    /// how many in all.
    pub open spec fn lists_networks(self, rows: Seq<(Seq<char>, (u64, u64))>, cutoff: i64) -> bool {
        &&& text_ascending(rows)
        &&& forall|prefix: Seq<char>| #[trigger] has_row(rows, prefix) <==> self.network_known(prefix)
        &&& forall|i: int|
            0 <= i < rows.len() ==> (#[trigger] rows[i]).1.0 == self.grants_to_since(rows[i].0, cutoff)
                && rows[i].1.1 == self.grants_to(rows[i].0)
    }
}

/// The grants made to the network `prefix`.
pub open spec fn made_to(prefix: Seq<char>) -> spec_fn((PublicKey, Seq<char>)) -> bool {
    |row: (PublicKey, Seq<char>)| row.1 == prefix
}

/// The grants made to the network `prefix` at or after `cutoff`.
pub open spec fn made_to_since(b: BoardView, prefix: Seq<char>, cutoff: i64) -> spec_fn(
    (PublicKey, Seq<char>),
) -> bool {
    |row: (PublicKey, Seq<char>)| row.1 == prefix && b.granted_since(row.0, cutoff)
}

/// A listing by name, each name by its view.
pub open spec fn named_rows(rows: Seq<(String, (u64, u64))>) -> Seq<(Seq<char>, (u64, u64))> {
    rows.map_values(|row: (String, (u64, u64))| (row.0@, row.1))
}

/// The board with a grant to `key` on record.
pub open spec fn grant_recorded(b: BoardView, key: PublicKey, at: i64) -> BoardView {
    BoardView { faucet_grants: b.faucet_grants.insert(key, at), ..b }
}

/// The board without a grant to `key`.
pub open spec fn grant_revoked(b: BoardView, key: PublicKey) -> BoardView {
    BoardView { faucet_grants: b.faucet_grants.remove(key), ..b }
}

/// Why a key is not granted to once more, if so.
pub open spec fn grant_refusal(b: BoardView, pubkey: PublicKey) -> Option<BoardError> {
    if b.faucet_grants.contains_key(pubkey) {
        Some(BoardError::AlreadyClaimed)
    } else {
        None
    }
}

/// The board once it is known which network a grant went to.
pub open spec fn network_recorded(b: BoardView, pubkey: PublicKey, prefix: Seq<char>) -> BoardView {
    BoardView { faucet_grant_prefixes: b.faucet_grant_prefixes.insert(pubkey, prefix), ..b }
}

/// Every key that was granted to, in ascending order.
pub open spec fn granted_keys(b: BoardView) -> Seq<PublicKey> {
    rows_of(b.faucet_grants).map_values(|row: (PublicKey, i64)| row.0)
}

impl TaskBoard {
    /// Whether a key can still be granted.
    pub fn can_claim_faucet(&self, pubkey: &PublicKey) -> (r: bool)
        requires
            self.wf(),
        ensures
            r == (grant_refusal(self@, *pubkey) is None),
    {
        !self.faucet_grants.contains_key(pubkey)
    }

    /// Takes the one grant a key is entitled to. A second time it is refused,
    /// and the instant on record is the later one.
    pub fn record_faucet_grant(&mut self, pubkey: PublicKey, granted_at: i64) -> (r: Result<(), BoardError>)
        requires
            old(self).wf(),
        ensures
            final(self).wf(),
            match grant_refusal(old(self)@, pubkey) {
                Some(e) => r == Result::<(), BoardError>::Err(e),
                None => r == Result::<(), BoardError>::Ok(()),
            },
            final(self)@ == grant_recorded(old(self)@, pubkey, granted_at),
    {
        if self.faucet_grants.insert(pubkey, granted_at).is_some() {
            return Err(BoardError::AlreadyClaimed);
        }
        Ok(())
    }

    /// Gives a grant back that was not paid.
    pub fn revoke_faucet_grant(&mut self, pubkey: &PublicKey)
        requires
            old(self).wf(),
        ensures
            final(self).wf(),
            final(self)@ == grant_revoked(old(self)@, *pubkey),
    {
        self.faucet_grants.remove(pubkey);
    }

    /// Puts a grant back as it was kept.
    pub fn restore_faucet_grant(&mut self, pubkey: PublicKey, granted_at: i64)
        requires
            old(self).wf(),
        ensures
            final(self).wf(),
            final(self)@ == grant_recorded(old(self)@, pubkey, granted_at),
    {
        self.faucet_grants.insert(pubkey, granted_at);
    }

    /// Puts a grant's network back as it was kept.
    pub fn restore_faucet_grant_prefix(&mut self, pubkey: PublicKey, prefix: String)
        requires
            old(self).wf(),
        ensures
            final(self).wf(),
            final(self)@ == network_recorded(old(self)@, pubkey, prefix@),
    {
        self.faucet_grant_prefixes.insert(pubkey, prefix);
    }

    /// Records the network a grant was made to.
    pub fn record_faucet_grant_prefix(&mut self, pubkey: PublicKey, prefix: String)
        requires
            old(self).wf(),
        ensures
            final(self).wf(),
            final(self)@ == network_recorded(old(self)@, pubkey, prefix@),
    {
        self.faucet_grant_prefixes.insert(pubkey, prefix);
    }

    /// Every key that was granted, in ascending order.
    pub fn all_faucet_grants(&self) -> (keys: Vec<PublicKey>)
        requires
            self.wf(),
        ensures
            keys@ == granted_keys(self@),
    {
        let ghost rows = self.faucet_grants.rows();
        proof {
            self.faucet_grants.lemma_rows();
        }
        let mut keys: Vec<PublicKey> = Vec::new();
        let mut i: usize = 0;
        while i < self.faucet_grants.len()
            invariant
                i <= rows.len(),
                rows == self.faucet_grants.rows(),
                keys.len() == i,
                forall|j: int| 0 <= j < i ==> (#[trigger] keys@[j]) == rows[j].0,
            decreases rows.len() - i,
        {
            keys.push(self.faucet_grants.key_at(i));
            i += 1;
        }
        assert(keys@ =~= rows.map_values(|row: (PublicKey, i64)| row.0));
        keys
    }

    /// When each grant was made, in seconds since the start of 1970.
    pub fn faucet_grant_times(&self) -> (times: Vec<i64>)
        requires
            self.wf(),
        ensures
            times@ == rows_of(self@.faucet_grants).map_values(|row: (PublicKey, i64)| row.1),
    {
        let ghost rows = self.faucet_grants.rows();
        proof {
            self.faucet_grants.lemma_rows();
        }
        let mut times: Vec<i64> = Vec::new();
        let mut i: usize = 0;
        while i < self.faucet_grants.len()
            invariant
                i <= rows.len(),
                rows == self.faucet_grants.rows(),
                times.len() == i,
                forall|j: int| 0 <= j < i ==> (#[trigger] times@[j]) == rows[j].1,
            decreases rows.len() - i,
        {
            times.push(*self.faucet_grants.value_at(i));
            i += 1;
        }
        assert(times@ =~= rows.map_values(|row: (PublicKey, i64)| row.1));
        times
    }

    /// How many grants were made at or after `cutoff`.
    pub fn faucet_granted_since(&self, cutoff: i64) -> (n: u64)
        requires
            self.wf(),
        ensures
            n == self@.grants_since(cutoff),
    {
        let ghost rows = self.faucet_grants.rows();
        let ghost p = |row: (PublicKey, i64)| row.1 >= cutoff;
        let ghost f = |row: (PublicKey, i64)| if p(row) { 1int } else { 0 };
        proof {
            self.faucet_grants.lemma_rows();
        }
        let mut n: u64 = 0;
        let mut i: usize = 0;
        while i < self.faucet_grants.len()
            invariant
                i <= rows.len(),
                rows == self.faucet_grants.rows(),
                p == (|row: (PublicKey, i64)| row.1 >= cutoff),
                f == (|row: (PublicKey, i64)| if p(row) { 1int } else { 0 }),
                n == total(rows.take(i as int), f),
                n <= i,
            decreases rows.len() - i,
        {
            proof {
                lemma_total_step(rows, f, i as int);
            }
            if *self.faucet_grants.value_at(i) >= cutoff {
                n = n + 1;
            }
            i += 1;
        }
        assert(rows.take(i as int) =~= rows);
        n
    }

    /// Whether a key was granted at or after `cutoff`.
    fn in_window(&self, pubkey: &PublicKey, cutoff: i64) -> (r: bool)
        requires
            self.wf(),
        ensures
            r == self@.granted_since(*pubkey, cutoff),
    {
        match self.faucet_grants.get(pubkey) {
            Some(at) => *at >= cutoff,
            None => false,
        }
    }

    /// How many grants were made to the network `prefix` at or after
    /// `cutoff`.
    pub fn faucet_granted_from_prefix_since(&self, prefix: &str, cutoff: i64) -> (n: u64)
        requires
            self.wf(),
        ensures
            n == self@.grants_to_since(prefix@, cutoff),
    {
        let ghost rows = self.faucet_grant_prefixes.rows();
        let ghost p = made_to_since(self@, prefix@, cutoff);
        let ghost f = |row: (PublicKey, Seq<char>)| if p(row) { 1int } else { 0 };
        proof {
            self.faucet_grant_prefixes.lemma_rows();
        }
        let wanted = prefix.to_owned();
        let mut n: u64 = 0;
        let mut i: usize = 0;
        while i < self.faucet_grant_prefixes.len()
            invariant
                i <= rows.len(),
                self.wf(),
                wanted@ == prefix@,
                rows == self.faucet_grant_prefixes.rows(),
                p == made_to_since(self@, prefix@, cutoff),
                f == (|row: (PublicKey, Seq<char>)| if p(row) { 1int } else { 0 }),
                n == total(rows.take(i as int), f),
                n <= i,
            decreases rows.len() - i,
        {
            proof {
                lemma_total_step(rows, f, i as int);
            }
            if *self.faucet_grant_prefixes.value_at(i) == wanted && self.in_window(
                &self.faucet_grant_prefixes.key_at(i),
                cutoff,
            ) {
                n = n + 1;
            }
            i += 1;
        }
        assert(rows.take(i as int) =~= rows);
        n
    }

    /// Every network that was granted to, in ascending order, with how many
    /// grants were made to it at or after `cutoff`, and how many in all.
    pub fn faucet_grants_by_prefix(&self, cutoff: i64) -> (networks: Vec<(String, (u64, u64))>)
        requires
            self.wf(),
        ensures
            self@.lists_networks(named_rows(networks@), cutoff),
    {
        let ghost rows = self.faucet_grant_prefixes.rows();
        proof {
            self.faucet_grant_prefixes.lemma_rows();
        }
        let mut table: TextTable<(u64, u64)> = TextTable::new();
        let mut i: usize = 0;
        while i < self.faucet_grant_prefixes.len()
            invariant
                i <= rows.len(),
                self.wf(),
                rows == self.faucet_grant_prefixes.rows(),
                table.wf(),
                forall|name: Seq<char>| #[trigger]
                    table@.contains_key(name) <==> exists|j: int| 0 <= j < i && (#[trigger] rows[j]).1 == name,
                forall|name: Seq<char>| #[trigger]
                    table@.contains_key(name) ==> table@[name] == (
                        tally_since(self@, rows.take(i as int), name, cutoff) as u64,
                        tally(rows.take(i as int), name) as u64,
                    ),
            decreases rows.len() - i,
        {
            let prefix = self.faucet_grant_prefixes.value_at(i);
            let recent = self.in_window(&self.faucet_grant_prefixes.key_at(i), cutoff);
            let ghost before = table@;
            let at = table.slot(prefix.clone(), (0, 0));
            let ghost middle = table@;
            proof {
                assert forall|name: Seq<char>| tally_since(self@, rows.take(i + 1), name, cutoff) == tally_since(
                    self@,
                    rows.take(i as int),
                    name,
                    cutoff,
                ) + (if name == prefix@ && recent { 1int } else { 0 }) && tally(rows.take(i + 1), name) == tally(
                    rows.take(i as int),
                    name,
                ) + (if name == prefix@ { 1int } else { 0 }) && 0 <= tally_since(
                    self@,
                    rows.take(i as int),
                    name,
                    cutoff,
                ) <= i && 0 <= tally(rows.take(i as int), name) <= i by {
                    lemma_tally_step(self@, rows, i as int, name, cutoff);
                }
                if !before.contains_key(prefix@) {
                    lemma_no_tally(self@, rows.take(i as int), prefix@, cutoff);
                }
                assert(middle[prefix@] == (
                    tally_since(self@, rows.take(i as int), prefix@, cutoff) as u64,
                    tally(rows.take(i as int), prefix@) as u64,
                ));
            }
            let entry = table.value_at_mut(at);
            entry.1 = entry.1 + 1;
            if recent {
                entry.0 = entry.0 + 1;
            }
            proof {
                assert(rows[i as int].1 == prefix@);
                assert forall|name: Seq<char>| #[trigger] table@.contains_key(name) <==> exists|j: int|
                    0 <= j < i + 1 && (#[trigger] rows[j]).1 == name by {
                    if table@.contains_key(name) && name != prefix@ {
                        assert(before.contains_key(name));
                        let j = choose|j: int| 0 <= j < i && (#[trigger] rows[j]).1 == name;
                        assert(rows[j].1 == name);
                    }
                    if exists|j: int| 0 <= j < i + 1 && (#[trigger] rows[j]).1 == name {
                        let j = choose|j: int| 0 <= j < i + 1 && (#[trigger] rows[j]).1 == name;
                        if j < i {
                            assert(before.contains_key(name));
                        }
                    }
                }
                assert forall|name: Seq<char>| #[trigger] table@.contains_key(name) implies table@[name] == (
                    tally_since(self@, rows.take(i + 1), name, cutoff) as u64,
                    tally(rows.take(i + 1), name) as u64,
                ) by {
                    if name != prefix@ {
                        assert(before.contains_key(name));
                        assert(table@[name] == before[name]);
                    }
                }
            }
            i += 1;
        }
        assert(rows.take(i as int) =~= rows);
        let mut networks: Vec<(String, (u64, u64))> = Vec::new();
        let mut k: usize = 0;
        while k < table.len()
            invariant
                k <= table.rows().len(),
                networks.len() == k,
                forall|j: int|
                    0 <= j < k ==> (#[trigger] networks@[j]).0@ == table.rows()[j].0 && networks@[j].1
                        == table.rows()[j].1,
            decreases table.rows().len() - k,
        {
            networks.push((table.name_at(k).to_owned(), *table.value_at(k)));
            k += 1;
        }
        proof {
            assert(named_rows(networks@) =~= table.rows());
            let listed = named_rows(networks@);
            assert forall|j: int| 0 <= j < listed.len() implies (#[trigger] listed[j]).1.0
                == self@.grants_to_since(listed[j].0, cutoff) && listed[j].1.1 == self@.grants_to(listed[j].0) by {
                lemma_named_row_is_mapped(table.rows(), j);
                let name = table.rows()[j].0;
                assert(table@.contains_key(name));
                assert(table@[name] == listed[j].1);
                lemma_tally_bounds(self@, rows, name, cutoff);
            }
            assert forall|prefix: Seq<char>| #[trigger] has_row(named_rows(networks@), prefix)
                <==> self@.network_known(prefix) by {
                assert(table@.contains_key(prefix) <==> has_row(table.rows(), prefix));
            }
        }
        networks
    }

    /// Every agent with a record, in ascending order.
    pub fn all_reputation(&self) -> (entries: Vec<(PublicKey, Reputation)>)
        requires
            self.wf(),
        ensures
            entries@ == rows_of(self@.reputation),
    {
        let ghost rows = self.reputation.rows();
        proof {
            self.reputation.lemma_rows();
        }
        let mut entries: Vec<(PublicKey, Reputation)> = Vec::new();
        let mut i: usize = 0;
        while i < self.reputation.len()
            invariant
                i <= rows.len(),
                rows == self.reputation.rows(),
                entries.len() == i,
                forall|j: int| 0 <= j < i ==> (#[trigger] entries@[j]) == rows[j],
            decreases rows.len() - i,
        {
            entries.push((self.reputation.key_at(i), *self.reputation.value_at(i)));
            i += 1;
        }
        assert(entries@ =~= rows);
        entries
    }

    /// Every exchange account, in ascending order of its owner.
    pub fn all_exchange_accounts(&self) -> (entries: Vec<(PublicKey, ExchangeAccount)>)
        requires
            self.wf(),
        ensures
            entries@ == rows_of(self@.exchange_accounts),
    {
        let ghost rows = self.exchange_accounts.rows();
        proof {
            self.exchange_accounts.lemma_rows();
        }
        let mut entries: Vec<(PublicKey, ExchangeAccount)> = Vec::new();
        let mut i: usize = 0;
        while i < self.exchange_accounts.len()
            invariant
                i <= rows.len(),
                rows == self.exchange_accounts.rows(),
                entries.len() == i,
                forall|j: int| 0 <= j < i ==> (#[trigger] entries@[j]) == rows[j],
            decreases rows.len() - i,
        {
            entries.push((self.exchange_accounts.key_at(i), *self.exchange_accounts.value_at(i)));
            i += 1;
        }
        assert(entries@ =~= rows);
        entries
    }
}

/// How many of `rows` name `prefix`.
pub open spec fn tally(rows: Seq<(PublicKey, Seq<char>)>, prefix: Seq<char>) -> int {
    count(rows, made_to(prefix))
}

/// How many of `rows` name `prefix` and were granted at or after `cutoff`.
pub open spec fn tally_since(b: BoardView, rows: Seq<(PublicKey, Seq<char>)>, prefix: Seq<char>, cutoff: i64) -> int {
    count(rows, made_to_since(b, prefix, cutoff))
}

proof fn lemma_tally_bounds(b: BoardView, rows: Seq<(PublicKey, Seq<char>)>, prefix: Seq<char>, cutoff: i64)
    ensures
        0 <= tally(rows, prefix) <= rows.len(),
        0 <= tally_since(b, rows, prefix, cutoff) <= rows.len(),
{
    lemma_count_bounds(rows, made_to(prefix));
    lemma_count_bounds(rows, made_to_since(b, prefix, cutoff));
}

proof fn lemma_tally_step(
    b: BoardView,
    rows: Seq<(PublicKey, Seq<char>)>,
    i: int,
    prefix: Seq<char>,
    cutoff: i64,
)
    requires
        0 <= i < rows.len(),
    ensures
        tally(rows.take(i + 1), prefix) == tally(rows.take(i), prefix) + (if rows[i].1 == prefix { 1int } else { 0 }),
        tally_since(b, rows.take(i + 1), prefix, cutoff) == tally_since(b, rows.take(i), prefix, cutoff) + (
        if rows[i].1 == prefix && b.granted_since(rows[i].0, cutoff) { 1int } else { 0 }),
        0 <= tally(rows.take(i), prefix) <= i,
        0 <= tally_since(b, rows.take(i), prefix, cutoff) <= i,
{
    let p = made_to(prefix);
    let q = made_to_since(b, prefix, cutoff);
    lemma_total_step(rows, |row: (PublicKey, Seq<char>)| if p(row) { 1int } else { 0 }, i);
    lemma_total_step(rows, |row: (PublicKey, Seq<char>)| if q(row) { 1int } else { 0 }, i);
    lemma_tally_bounds(b, rows.take(i), prefix, cutoff);
}

proof fn lemma_no_tally(b: BoardView, rows: Seq<(PublicKey, Seq<char>)>, prefix: Seq<char>, cutoff: i64)
    requires
        forall|j: int| 0 <= j < rows.len() ==> (#[trigger] rows[j]).1 != prefix,
    ensures
        tally(rows, prefix) == 0,
        tally_since(b, rows, prefix, cutoff) == 0,
    decreases rows.len(),
{
    if rows.len() > 0 {
        let shorter = rows.drop_last();
        assert forall|j: int| 0 <= j < shorter.len() implies (#[trigger] shorter[j]).1 != prefix by {
            assert(shorter[j] == rows[j]);
        }
        lemma_no_tally(b, shorter, prefix, cutoff);
        assert(rows[rows.len() - 1].1 != prefix);
    }
}

/// A key gets one grant: from the first on there is one on record, whatever
/// other keys are granted, and all that gives it back is its being revoked.
pub proof fn lemma_one_grant_per_key(b: BoardView, key: PublicKey, other: PublicKey, at: i64)
    ensures
        grant_recorded(b, key, at).faucet_grants.contains_key(key),
        b.faucet_grants.contains_key(key) ==> grant_recorded(b, other, at).faucet_grants.contains_key(key),
        b.faucet_grants.contains_key(key) && other != key ==> grant_revoked(b, other).faucet_grants.contains_key(key),
{
}

/// A grant that is revoked leaves nothing behind.
pub proof fn lemma_revoking_undoes_a_grant(b: BoardView, key: PublicKey, at: i64)
    requires
        !b.faucet_grants.contains_key(key),
    ensures
        grant_revoked(grant_recorded(b, key, at), key) == b,
{
    assert(b.faucet_grants.insert(key, at).remove(key) =~= b.faucet_grants);
}

/// A grant to a new key counts as one from its instant on.
pub proof fn lemma_grant_is_counted(b: BoardView, key: PublicKey, at: i64, cutoff: i64)
    requires
        listable(b.faucet_grants),
        !b.faucet_grants.contains_key(key),
        at >= cutoff,
    ensures
        grant_recorded(b, key, at).grants_since(cutoff) == b.grants_since(cutoff) + 1,
{
    let f = |k: PublicKey, t: i64| if t >= cutoff { 1int } else { 0 };
    lemma_map_sum_insert(b.faucet_grants, key, at, f);
    let p = |row: (PublicKey, i64)| row.1 >= cutoff;
    let x = |row: (PublicKey, i64)| if p(row) { 1int } else { 0 };
    let y = |row: (PublicKey, i64)| f(row.0, row.1);
    assert(x =~= y);
}

}
