//! Keeping the hub's wallets in many outputs, so that many payments can go out
//! in one block. How to split them is worked out elsewhere.
use crate::board::payouts::{TransactionOutput, Utxos};
use crate::board::{BoardView, TaskBoard};
use crate::seqs::{lemma_total_step, total};
use crate::series::HUB_TRANSACTION_FEE;
use crate::types::{Digest, PublicKey};
use vstd::prelude::*;

verus! {

/// A wallet that the hub pays out of.
#[derive(Debug, Clone, Copy, PartialEq, Eq, Structural)]
pub enum WalletKind {
    /// The operator's own money.
    Operator,
    /// The money of the exchange's customers.
    Custody,
}

/// The value of an address's outputs.
pub open spec fn worth(utxos: Seq<(bool, TransactionOutput)>) -> int {
    total(utxos, |u: (bool, TransactionOutput)| u.1.value as int)
}

/// Whether custody holds enough beyond its customers' money to pay the fee of
/// reshaping it.
pub fn has_surplus(board: &TaskBoard, utxos: &Utxos) -> (r: bool)
    requires
        board.wf(),
    ensures
        r == (worth(utxos@) >= board@.backing() + HUB_TRANSACTION_FEE),
{
    let ghost f = |u: (bool, TransactionOutput)| u.1.value as int;
    let mut assets: u128 = 0;
    let mut i: usize = 0;
    while i < utxos.len()
        invariant
            i <= utxos.len(),
            f == (|u: (bool, TransactionOutput)| u.1.value as int),
            assets == total(utxos@.take(i as int), f),
            assets <= i * 0xffff_ffff_ffff_ffff,
        decreases utxos.len() - i,
    {
        proof {
            lemma_total_step(utxos@, f, i as int);
        }
        assets = assets + utxos[i].1.value as u128;
        i += 1;
    }
    assert(utxos@.take(i as int) =~= utxos@);
    let (balances, withdrawals) = board.backing();
    assets >= balances && assets - balances >= withdrawals && assets - balances - withdrawals
        >= HUB_TRANSACTION_FEE as u128
}

/// Whether a reshaping that went out is still on its way: one of the outputs it
/// spends is there and marked as spent. One that is there and not marked says
/// that the transaction is gone.
pub open spec fn in_flight(utxos: Seq<(bool, TransactionOutput)>, spent: Seq<Digest>) -> bool {
    exists|i: int| 0 <= i < utxos.len() && (#[trigger] utxos[i]).0 && spent.contains(utxos[i].1.hash)
}

/// Whether a reshaping that went out is still on its way.
pub fn is_in_flight(utxos: &Utxos, spent: &Vec<Digest>) -> (r: bool)
    ensures
        r == in_flight(utxos@, spent@),
{
    let mut i: usize = 0;
    while i < utxos.len()
        invariant
            i <= utxos.len(),
            forall|j: int| 0 <= j < i ==> !((#[trigger] utxos@[j]).0 && spent@.contains(utxos@[j].1.hash)),
        decreases utxos.len() - i,
    {
        if utxos[i].0 {
            let mut k: usize = 0;
            while k < spent.len()
                invariant
                    k <= spent.len(),
                    i < utxos.len(),
                    utxos@[i as int].0,
                    forall|j: int| 0 <= j < k ==> spent@[j] != utxos@[i as int].1.hash,
                decreases spent.len() - k,
            {
                if spent[k] == utxos[i].1.hash {
                    assert(spent@[k as int] == utxos@[i as int].1.hash);
                    assert(spent@.contains(utxos@[i as int].1.hash));
                    return true;
                }
                k += 1;
            }
        }
        i += 1;
    }
    false
}

/// Whether a wallet may be reshaped: custody only out of money beyond its
/// customers'.
pub open spec fn reshapeable(b: BoardView, kind: WalletKind, utxos: Seq<(bool, TransactionOutput)>) -> bool {
    kind is Custody ==> worth(utxos) >= b.backing() + HUB_TRANSACTION_FEE
}

/// Whether a wallet that holds `utxos` may be reshaped.
pub fn may_reshape(board: &TaskBoard, kind: WalletKind, utxos: &Utxos) -> (r: bool)
    requires
        board.wf(),
    ensures
        r == reshapeable(board@, kind, utxos@),
{
    match kind {
        WalletKind::Operator => true,
        WalletKind::Custody => has_surplus(board, utxos),
    }
}

/// Whether to wait for the reshaping that spends `spent`. Once it is no longer
/// on its way there is nothing to wait for, and `spent` is emptied.
pub fn wait_for_reshaping(spent: &mut Vec<Digest>, utxos: &Utxos) -> (r: bool)
    ensures
        r == in_flight(utxos@, old(spent)@),
        final(spent)@ == if r {
            old(spent)@
        } else {
            Seq::<Digest>::empty()
        },
{
    if is_in_flight(utxos, spent) {
        return true;
    }
    *spent = Vec::new();
    false
}

/// How to reshape a wallet: the outputs to spend and what each new one holds.
#[derive(Debug, Clone)]
pub struct Reshape {
    pub inputs: Vec<TransactionOutput>,
    pub shares: Vec<u64>,
}

/// What a reshaping of `wallet` pays: each share, to the wallet itself.
pub fn shares_to(wallet: &PublicKey, plan: &Reshape) -> (recipients: Vec<(PublicKey, u64)>)
    ensures
        recipients@ == plan.shares@.map_values(|share: u64| (*wallet, share)),
{
    let mut recipients: Vec<(PublicKey, u64)> = Vec::new();
    let mut i: usize = 0;
    while i < plan.shares.len()
        invariant
            i <= plan.shares.len(),
            recipients@ == plan.shares@.take(i as int).map_values(|share: u64| (*wallet, share)),
        decreases plan.shares.len() - i,
    {
        recipients.push((*wallet, plan.shares[i]));
        i += 1;
        assert(recipients@ =~= plan.shares@.take(i as int).map_values(|share: u64| (*wallet, share)));
    }
    assert(plan.shares@.take(i as int) =~= plan.shares@);
    recipients
}

/// What a reshaping spends: the outputs of the plan, none of them marked.
pub fn outputs_to_spend(plan: &Reshape) -> (utxos: Utxos)
    ensures
        utxos@ == plan.inputs@.map_values(|output: TransactionOutput| (false, output)),
{
    let mut utxos: Utxos = Vec::new();
    let mut i: usize = 0;
    while i < plan.inputs.len()
        invariant
            i <= plan.inputs.len(),
            utxos@ == plan.inputs@.take(i as int).map_values(|output: TransactionOutput| (false, output)),
        decreases plan.inputs.len() - i,
    {
        utxos.push((false, plan.inputs[i]));
        i += 1;
        assert(utxos@ =~= plan.inputs@.take(i as int).map_values(|output: TransactionOutput| (false, output)));
    }
    assert(plan.inputs@.take(i as int) =~= plan.inputs@);
    utxos
}

/// A reshaping of custody never takes its fee out of customers' money: what is
/// left once the fee is paid still covers all that they are owed.
pub proof fn lemma_customers_stay_backed(
    b: BoardView,
    before: Seq<(bool, TransactionOutput)>,
    after: Seq<(bool, TransactionOutput)>,
)
    requires
        reshapeable(b, WalletKind::Custody, before),
        worth(after) == worth(before) - HUB_TRANSACTION_FEE,
    ensures
        worth(after) >= b.backing(),
{
}

}
