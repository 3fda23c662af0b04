//! What somebody who asks the faucet for a grant can rely on.
use crate::api::faucet::{
    can_fund, claim_denied, grant_denied, granting, grants_left, is_spent, taken_in_window, window_start,
};
use crate::board::BoardView;
use crate::board::faucet::{
    grant_recorded, grant_refusal, grant_revoked, granted_keys, made_to, made_to_since, network_recorded,
};
use crate::board::types::{BoardError, Payment, PaymentPurpose, PaymentStatus};
use crate::clock::uuid_text;
use crate::faucet_pow::{issued, restored, sha256, target_value, BookView, ChallengeView, RedemptionError};
use crate::table::{has_row, lemma_count_of_keys, lemma_listed, lemma_row_is_mapped, row_of, rows_of};
use crate::tags::{lemma_text_lt_irreflexive, text_lt};
use crate::text::{dec, hex_text};
use crate::types::{in_calendar, Id, PublicKey, Timestamp};
use crate::wide::{le_value, U256};
use vstd::prelude::*;
use vstd::string::*;
use vstd::utf8::encode_utf8;

verus! {

/// A target that takes so many hashes to meet lets that part of all numbers of
/// two hundred and fifty-six bits through.
pub proof fn lemma_target_is_a_part_of_all(expected: u64)
    ensures
        ({
            let n = if expected == 0 { 1int } else { expected as int };
            let most = 0xffff_ffff_ffff_ffff_ffff_ffff_ffff_ffff_ffff_ffff_ffff_ffff_ffff_ffff_ffff_ffffint;
            n * target_value(expected) <= most < n * (target_value(expected) + 1)
        }),
{
    let n = if expected == 0 { 1int } else { expected as int };
    let most = 0xffff_ffff_ffff_ffff_ffff_ffff_ffff_ffff_ffff_ffff_ffff_ffff_ffff_ffff_ffff_ffffint;
    let t = target_value(expected);
    assert(t == most / n);
    assert(n * t <= most < n * (t + 1)) by (nonlinear_arith)
        requires
            n > 0,
            t == most / n,
    ;
}

/// A number solves a challenge exactly if the digest of the text that names the
/// challenge, its nonce, the key, the action and the number, read with its least
/// byte first, is no larger than the target.
pub proof fn lemma_what_a_solution_is(c: ChallengeView, n: u64)
    ensures
        ({
            let text = uuid_text(c.id) + seq![':'] + c.server_nonce + seq![':'] + c.pubkey + seq![':'] + c.action + seq![
                ':',
            ] + dec(n as nat);
            &&& c.preimage(n) == text
            &&& c.solved_by(n) <==> le_value(sha256(encode_utf8(text))) <= c.target.value()
        }),
{
}

/// A challenge is issued to the key that asked, for a grant, at the target that is
/// in force; it can be redeemed for ten minutes and has not been.
pub proof fn lemma_issuing(id: Id, nonce: Seq<u8>, key: PublicKey, target: U256, now: Timestamp)
    requires
        now.valid(),
        in_calendar(now.nanos + 600_000_000_000),
    ensures
        ({
            let c = issued(id, nonce, key, target, now);
            &&& c.id == id
            &&& c.pubkey == hex_text(key.bytes())
            &&& c.server_nonce == hex_text(nonce)
            &&& c.action == "faucet"@
            &&& c.target == target
            &&& c.issued_at == now.nanos as int / 1_000_000_000
            &&& c.expires_at == c.issued_at + 600
            &&& c.redeemed_at is None
        }),
{
}

/// A challenge is redeemed exactly by the key that it was issued to, with a
/// solution of it, once, and not after it has run out.
pub proof fn lemma_who_may_redeem(b: BookView, id: Id, key: PublicKey, solution: u64, now: Timestamp)
    ensures
        ({
            let c = b.by_id[id];
            let e = b.refusal(id, key, solution, now);
            let late = c.expires_at < now.nanos as int / 1_000_000_000;
            &&& e is None <==> {
                &&& b.by_id.contains_key(id)
                &&& c.pubkey == hex_text(key.bytes())
                &&& c.redeemed_at is None
                &&& !late
                &&& c.solved_by(solution)
            }
            &&& e == Some(RedemptionError::Unknown) <==> !b.by_id.contains_key(id)
            &&& e == Some(RedemptionError::WrongKey) ==> c.pubkey != hex_text(key.bytes())
            &&& e == Some(RedemptionError::AlreadyRedeemed) ==> c.redeemed_at is Some
            &&& e == Some(RedemptionError::Expired) ==> late
            &&& e == Some(RedemptionError::Unsolved) ==> !c.solved_by(solution)
        }),
{
}

/// Redeeming marks the one challenge, with the instant, and takes it off its key.
pub proof fn lemma_redeeming(b: BookView, id: Id, now: Timestamp, other: Id, key: Seq<char>)
    requires
        now.valid(),
        b.by_id.contains_key(id),
    ensures
        ({
            let z = b.with_redeemed(id, now);
            let c = b.by_id[id];
            &&& z.by_id[id].redeemed_at is Some
            &&& z.by_id[id].redeemed_at->0 == now.nanos as int / 1_000_000_000
            &&& z.by_id[id] == (ChallengeView { redeemed_at: z.by_id[id].redeemed_at, ..c })
            &&& b.spent(id, now) == z.by_id[id]
            &&& other != id ==> z.by_id.contains_key(other) == b.by_id.contains_key(other) && z.by_id[other]
                == b.by_id[other]
            &&& !z.outstanding.contains_key(c.pubkey)
            &&& key != c.pubkey ==> z.outstanding.contains_key(key) == b.outstanding.contains_key(key)
                && z.outstanding[key] == b.outstanding[key]
            &&& z.target == b.target
        }),
{
}

/// Issuing leaves every challenge of another key as it is.
pub proof fn lemma_issuing_leaves_others(b: BookView, c: ChallengeView, other: Id, key: Seq<char>)
    ensures
        ({
            let z = b.with_issued(c);
            let replaced = b.outstanding.contains_key(c.pubkey) && b.outstanding[c.pubkey] == other;
            &&& other != c.id && !replaced ==> z.by_id.contains_key(other) == b.by_id.contains_key(other)
                && z.by_id[other] == b.by_id[other]
            &&& key != c.pubkey ==> z.outstanding.contains_key(key) == b.outstanding.contains_key(key)
                && z.outstanding[key] == b.outstanding[key]
            &&& z.target == b.target
        }),
{
}

/// A sweep keeps a challenge until it has run out, and one that was redeemed for an
/// hour longer; and it changes none.
pub proof fn lemma_what_a_sweep_keeps(b: BookView, now: Timestamp, id: Id)
    ensures
        ({
            let second = now.nanos as int / 1_000_000_000;
            let c = b.by_id[id];
            let until = if c.redeemed_at is Some { c.expires_at + 3_600 } else { c.expires_at as int };
            &&& b.swept(now).by_id.contains_key(id) <==> b.by_id.contains_key(id) && second <= until
            &&& b.swept(now).by_id.contains_key(id) ==> b.swept(now).by_id[id] == c
            &&& forall|key: Seq<char>| #[trigger] b.swept(now).outstanding.contains_key(key)
                <==> b.outstanding.contains_key(key) && b.swept(now).by_id.contains_key(b.outstanding[key])
        }),
{
}

/// Reading a challenge back holds it if a sweep would, and as its key's own if it
/// was not redeemed.
pub proof fn lemma_reading_back(b: BookView, c: ChallengeView, now: Timestamp)
    ensures
        ({
            let second = now.nanos as int / 1_000_000_000;
            let until = if c.redeemed_at is Some { c.expires_at + 3_600 } else { c.expires_at as int };
            let z = b.with_restored(c, now);
            &&& second <= until ==> z.by_id == b.by_id.insert(c.id, c)
            &&& second > until ==> z == b
            &&& second <= until && c.redeemed_at is None ==> z.outstanding == b.outstanding.insert(c.pubkey, c.id)
            &&& c.redeemed_at is Some ==> z.outstanding == b.outstanding
        }),
{
}

/// A book that is read back holds a challenge exactly if it was kept and a sweep
/// would keep it, and has the target that it was given.
pub proof fn lemma_reading_all_back(kept: Seq<ChallengeView>, target: U256, now: Timestamp, id: Id)
    ensures
        ({
            let second = now.nanos as int / 1_000_000_000;
            let z = restored(kept, target, now);
            &&& z.by_id.contains_key(id) <==> exists|i: int|
                0 <= i < kept.len() && (#[trigger] kept[i]).id == id && second <= kept[i].expires_at + if kept[i].redeemed_at is Some {
                    3_600int
                } else {
                    0
                }
            &&& z.by_id.contains_key(id) ==> kept.contains(z.by_id[id]) && z.by_id[id].id == id
            &&& z.target == target
        }),
    decreases kept.len(),
{
    let second = now.nanos as int / 1_000_000_000;
    if kept.len() > 0 {
        let fewer = kept.drop_last();
        let last = kept.len() - 1;
        lemma_reading_all_back(fewer, target, now, id);
        lemma_reading_back(restored(fewer, target, now), kept[last], now);
        let before = restored(fewer, target, now);
        let z = restored(kept, target, now);
        if before.by_id.contains_key(id) {
            let i = choose|i: int|
                0 <= i < fewer.len() && (#[trigger] fewer[i]).id == id && second <= fewer[i].expires_at
                    + if fewer[i].redeemed_at is Some {
                    3_600int
                } else {
                    0
                };
            assert(kept[i] == fewer[i]);
            let j = choose|j: int| 0 <= j < fewer.len() && fewer[j] == before.by_id[id];
            assert(kept[j] == before.by_id[id]);
        }
        assert forall|i: int| 0 <= i < last implies #[trigger] kept[i] == fewer[i] by {
        }
        assert(kept[last] == kept.last());
    }
}

/// How many keys were granted at or after a second.
pub open spec fn keys_granted_since(b: BoardView, cutoff: int) -> nat {
    Set::new(|k: PublicKey| b.faucet_grants.contains_key(k) && b.faucet_grants[k] >= cutoff).len()
}

/// What a day allows, less the keys that were granted in the last twenty-four
/// hours, is what is left of it, and never less than nothing.
pub proof fn lemma_what_is_left_of_the_day(b: BoardView, daily: u64, now: Timestamp)
    requires
        b.wf(),
        now.valid(),
        in_calendar(now.nanos - 86_400_000_000_000),
    ensures
        ({
            let used = keys_granted_since(b, now.nanos as int / 1_000_000_000 - 86_400) as int;
            &&& used <= daily ==> grants_left(b, daily, now) == daily - used
            &&& daily <= used ==> grants_left(b, daily, now) == 0
        }),
{
    let cutoff = window_start(now) as i64;
    let rows = rows_of(b.faucet_grants);
    let p = |row: (PublicKey, i64)| row.1 >= cutoff;
    lemma_listed(b.faucet_grants);
    lemma_count_of_keys(rows, p);
    assert(cutoff == now.nanos as int / 1_000_000_000 - 86_400);
    assert(Set::new(|k: PublicKey| b.faucet_grants.contains_key(k) && p((k, b.faucet_grants[k]))) =~= Set::new(
        |k: PublicKey| b.faucet_grants.contains_key(k) && b.faucet_grants[k] >= cutoff as int,
    ));
}

/// How many grants a network has had, in all and since a second, is how many of
/// its keys were granted.
pub proof fn lemma_grants_of_a_network(b: BoardView, network: Seq<char>, cutoff: i64)
    requires
        b.wf(),
    ensures
        b.grants_to(network) == Set::new(
            |k: PublicKey| b.faucet_grant_prefixes.contains_key(k) && b.faucet_grant_prefixes[k] == network,
        ).len(),
        b.grants_to_since(network, cutoff) == Set::new(
            |k: PublicKey|
                b.faucet_grant_prefixes.contains_key(k) && b.faucet_grant_prefixes[k] == network
                    && b.faucet_grants.contains_key(k) && b.faucet_grants[k] >= cutoff,
        ).len(),
{
    let m = b.faucet_grant_prefixes;
    let rows = rows_of(m);
    lemma_listed(m);
    let p = made_to(network);
    let q = made_to_since(b, network, cutoff);
    lemma_count_of_keys(rows, p);
    lemma_count_of_keys(rows, q);
    assert(Set::new(|k: PublicKey| m.contains_key(k) && p((k, m[k]))) =~= Set::new(
        |k: PublicKey| m.contains_key(k) && m[k] == network,
    ));
    assert(Set::new(|k: PublicKey| m.contains_key(k) && q((k, m[k]))) =~= Set::new(
        |k: PublicKey|
            m.contains_key(k) && m[k] == network && b.faucet_grants.contains_key(k) && b.faucet_grants[k] >= cutoff,
    ));
}

/// The listing has one row for every network that was granted to, with how many
/// keys there were granted since a second and how many in all.
pub proof fn lemma_networks_are_listed(
    b: BoardView,
    rows: Seq<(Seq<char>, (u64, u64))>,
    cutoff: i64,
    network: Seq<char>,
    i: int,
    j: int,
)
    requires
        b.wf(),
        b.lists_networks(rows, cutoff),
        0 <= i < rows.len(),
    ensures
        (exists|n: int| 0 <= n < rows.len() && (#[trigger] rows[n]).0 == network) <==> exists|k: PublicKey| #[trigger]
            b.faucet_grant_prefixes.contains_key(k) && b.faucet_grant_prefixes[k] == network,
        i < j < rows.len() ==> rows[i].0 != rows[j].0,
        rows[i].1.0 == b.grants_to_since(rows[i].0, cutoff),
        rows[i].1.1 == b.grants_to(rows[i].0),
{
    let m = b.faucet_grant_prefixes;
    let all = rows_of(m);
    lemma_listed(m);
    if i < j < rows.len() {
        assert(text_lt(rows[i].0, rows[j].0));
        lemma_text_lt_irreflexive(rows[i].0);
    }
    assert(has_row(rows, network) <==> b.network_known(network));
    if exists|n: int| 0 <= n < rows.len() && (#[trigger] rows[n]).0 == network {
        assert(has_row(rows, network));
        let n = choose|n: int| 0 <= n < all.len() && (#[trigger] all[n]).1 == network;
        lemma_row_is_mapped(all, n);
        assert(m.contains_key(all[n].0));
    }
    if exists|k: PublicKey| #[trigger] m.contains_key(k) && m[k] == network {
        let k = choose|k: PublicKey| #[trigger] m.contains_key(k) && m[k] == network;
        let n = row_of(all, k);
        lemma_row_is_mapped(all, n);
        assert(all[n].1 == network);
    }
}

/// A claim is met exactly if its key was never granted and something is left of
/// the day.
pub proof fn lemma_who_may_be_granted(b: BoardView, key: PublicKey, daily: u64, now: Timestamp)
    ensures
        claim_denied(b, key, daily, now) is None <==> !b.faucet_grants.contains_key(key) && grants_left(b, daily, now)
            != 0,
{
}

/// A grant is fifty million, from the operator to the key, and the operator has to
/// have that and the fee of a thousand where it is known what they have.
pub proof fn lemma_what_a_grant_is(operator: PublicKey, key: PublicKey, id: Id, now: Timestamp, balance: u64)
    ensures
        granting(operator, key, id, now) == (Payment {
            id,
            purpose: PaymentPurpose::Faucet,
            source: operator,
            recipient: key,
            amount: 50_000_000,
            status: PaymentStatus::Pending,
            created_at: now,
        }),
        can_fund(Some(balance)) <==> 50_001_000 <= balance,
        can_fund(None),
{
}

/// A grant is on record for its key, at its instant, and a revoked one is not;
/// either way no other key is touched and nothing else is.
pub proof fn lemma_recording_a_grant(b: BoardView, key: PublicKey, at: i64, other: PublicKey)
    ensures
        grant_recorded(b, key, at).faucet_grants.contains_key(key),
        grant_recorded(b, key, at).faucet_grants[key] == at,
        !grant_revoked(b, key).faucet_grants.contains_key(key),
        other != key ==> {
            &&& grant_recorded(b, key, at).faucet_grants.contains_key(other) == b.faucet_grants.contains_key(other)
            &&& grant_recorded(b, key, at).faucet_grants[other] == b.faucet_grants[other]
            &&& grant_revoked(b, key).faucet_grants.contains_key(other) == b.faucet_grants.contains_key(other)
            &&& grant_revoked(b, key).faucet_grants[other] == b.faucet_grants[other]
        },
        grant_recorded(b, key, at) == (BoardView { faucet_grants: grant_recorded(b, key, at).faucet_grants, ..b }),
        grant_revoked(b, key) == (BoardView { faucet_grants: grant_revoked(b, key).faucet_grants, ..b }),
{
}

/// A key is granted to once, on a day on which something is left; and which network
/// it went to is kept by its key.
pub proof fn lemma_one_grant_each(
    b: BoardView,
    key: PublicKey,
    other: PublicKey,
    daily: u64,
    now: Timestamp,
    message: Seq<char>,
    network: Seq<char>,
)
    requires
        b.wf(),
    ensures
        grant_refusal(b, key) is None <==> !b.faucet_grants.contains_key(key),
        grant_refusal(b, key) is Some ==> grant_refusal(b, key) == Some(BoardError::AlreadyClaimed),
        is_spent(b, daily, now) <==> grants_left(b, daily, now) == 0,
        grant_denied(b, key, daily, now, message) is None <==> !b.faucet_grants.contains_key(key) && grants_left(
            b,
            daily,
            now,
        ) > 0,
        granted_keys(b).contains(key) <==> b.faucet_grants.contains_key(key),
        ({
            let after = network_recorded(b, key, network);
            &&& after.faucet_grant_prefixes.contains_key(key)
            &&& after.faucet_grant_prefixes[key] == network
            &&& other != key ==> after.faucet_grant_prefixes.contains_key(other)
                == b.faucet_grant_prefixes.contains_key(other) && after.faucet_grant_prefixes[other]
                == b.faucet_grant_prefixes[other]
            &&& after.faucet_grants == b.faucet_grants
        }),
{
    let rows = rows_of(b.faucet_grants);
    lemma_listed(b.faucet_grants);
    let keys = granted_keys(b);
    if keys.contains(key) {
        let i = choose|i: int| 0 <= i < keys.len() && keys[i] == key;
        lemma_row_is_mapped(rows, i);
    }
    if b.faucet_grants.contains_key(key) {
        let i = row_of(rows, key);
        lemma_row_is_mapped(rows, i);
        assert(keys[i] == key);
    }
}

/// A network pays for what it took in the last day.
pub proof fn lemma_what_a_network_took(b: BoardView, network: Seq<char>, now: Timestamp)
    requires
        b.wf(),
        now.valid(),
        in_calendar(now.nanos - 86_400_000_000_000),
    ensures
        ({
            let since = (now.nanos - 86_400_000_000_000) / 1_000_000_000;
            0 <= b.grants_to_since(network, since as i64) <= u64::MAX ==> taken_in_window(b, network, now)
                == b.grants_to_since(network, since as i64)
        }),
{
}

}
