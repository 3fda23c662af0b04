//! What the hub keeps safe: the keys of deposits, and money that is not its own.
use crate::board::BoardView;
use crate::board::escrow::spending_key;
use crate::board::payouts::TransactionOutput;
use crate::escrow_key::{
    candidate, derivation_info, derived, derived_from, hkdf_sha256, is_scalar, key_of, HKDF_INFO_PREFIX, HKDF_SALT,
};
use crate::seqs::total;
use crate::types::{be_bytes, Digest, Id, PrivateKey};
use crate::wallet::{in_flight, reshapeable, worth, WalletKind};
use vstd::prelude::*;

verus! {

/// A number is a private key exactly if it lies from one to below the order of the
/// curve.
pub proof fn lemma_what_is_a_key(key: PrivateKey)
    ensures
        is_scalar(key) <==> 0 < key.hi * 0x1_0000_0000_0000_0000_0000_0000_0000_0000int + key.lo
            < 0xFFFF_FFFF_FFFF_FFFF_FFFF_FFFF_FFFF_FFFE_BAAE_DCE6_AF48_A03B_BFD2_5E8C_D036_4141int,
{
}

/// Which key is tried at which turn: it comes from the secret and, in this order, a
/// fixed prefix, the sixteen bytes of the deposit's id and the turn.
pub proof fn lemma_what_is_tried(secret: Seq<u8>, deposit_id: Id, turn: int)
    requires
        0 <= turn <= 255,
    ensures
        candidate(secret, deposit_id, turn) == hkdf_sha256(HKDF_SALT@, secret, derivation_info(deposit_id, turn)),
        derivation_info(deposit_id, turn).len() == 42,
        derivation_info(deposit_id, turn).take(25) == HKDF_INFO_PREFIX@,
        derivation_info(deposit_id, turn).subrange(25, 41) == be_bytes(deposit_id),
        derivation_info(deposit_id, turn)[41] == turn,
{
}

proof fn lemma_first_from(secret: Seq<u8>, deposit_id: Id, from: int)
    requires
        0 <= from <= 256,
    ensures
        match derived_from(secret, deposit_id, from) {
            Some(key) => exists|turn: int|
                from <= turn <= 255 && is_scalar(key) && key == key_of(#[trigger] candidate(secret, deposit_id, turn))
                    && forall|before: int|
                    from <= before < turn ==> !is_scalar(key_of(#[trigger] candidate(secret, deposit_id, before))),
            None => forall|turn: int|
                from <= turn <= 255 ==> !is_scalar(key_of(#[trigger] candidate(secret, deposit_id, turn))),
        },
    decreases 256 - from,
{
    if from <= 255 {
        let here = key_of(candidate(secret, deposit_id, from));
        if !is_scalar(here) {
            lemma_first_from(secret, deposit_id, from + 1);
            match derived_from(secret, deposit_id, from + 1) {
                Some(key) => {
                    let turn = choose|turn: int|
                        from + 1 <= turn <= 255 && is_scalar(key) && key == key_of(
                            #[trigger] candidate(secret, deposit_id, turn),
                        ) && forall|before: int|
                            from + 1 <= before < turn ==> !is_scalar(
                                key_of(#[trigger] candidate(secret, deposit_id, before)),
                            );
                    assert forall|before: int| from <= before < turn implies !is_scalar(
                        key_of(#[trigger] candidate(secret, deposit_id, before)),
                    ) by {
                        if before == from {
                            assert(key_of(candidate(secret, deposit_id, before)) == here);
                        }
                    }
                },
                None => {},
            }
        }
    }
}

/// A deposit's key is the first of two hundred and fifty-six tries that is one.
pub proof fn lemma_deposit_has_the_first_key(secret: Seq<u8>, deposit_id: Id)
    ensures
        match derived(secret, deposit_id) {
            Some(key) => exists|turn: int|
                0 <= turn <= 255 && is_scalar(key) && key == key_of(#[trigger] candidate(secret, deposit_id, turn))
                    && forall|before: int|
                    0 <= before < turn ==> !is_scalar(key_of(#[trigger] candidate(secret, deposit_id, before))),
            None => forall|turn: int|
                0 <= turn <= 255 ==> !is_scalar(key_of(#[trigger] candidate(secret, deposit_id, turn))),
        },
{
    lemma_first_from(secret, deposit_id, 0);
}

/// The operator's wallet may always be reshaped, and custody's only where its
/// outputs come to a thousand more than what it stands for.
pub proof fn lemma_what_may_be_reshaped(b: BoardView, utxos: Seq<(bool, TransactionOutput)>)
    ensures
        reshapeable(b, WalletKind::Operator, utxos),
        reshapeable(b, WalletKind::Custody, utxos) <==> total(
            utxos,
            |u: (bool, TransactionOutput)| u.1.value as int,
        ) >= b.backing() + 1_000,
        worth(Seq::empty()) == 0,
{
}

/// A reshaping is on its way exactly while an output that it spends is there and is
/// marked as spent.
pub proof fn lemma_what_is_on_its_way(utxos: Seq<(bool, TransactionOutput)>, spent: Seq<Digest>)
    ensures
        in_flight(utxos, spent) <==> exists|i: int, j: int|
            0 <= i < utxos.len() && 0 <= j < spent.len() && (#[trigger] utxos[i]).0 && utxos[i].1.hash
                == #[trigger] spent[j],
{
    if in_flight(utxos, spent) {
        let i = choose|i: int| 0 <= i < utxos.len() && (#[trigger] utxos[i]).0 && spent.contains(utxos[i].1.hash);
        let j = choose|j: int| 0 <= j < spent.len() && spent[j] == utxos[i].1.hash;
        assert(utxos[i].0 && utxos[i].1.hash == spent[j]);
    }
}

/// A deposit is spent with the key that was stored with it, and without one with the
/// key that is derived for it.
pub proof fn lemma_which_key_spends_a_deposit(stored: Option<PrivateKey>, secret: Seq<u8>, id: Id)
    ensures
        stored is Some ==> spending_key(stored, secret, id) == stored,
        stored is None ==> spending_key(stored, secret, id) == derived(secret, id),
{
}

}
