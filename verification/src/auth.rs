//! Signed requests: what makes one acceptable once, and only once.
use crate::clock;
use crate::escrow_key::push_all;
use crate::held::{count_signatures, has_signature, insert_signature, no_signatures, retain_signatures, signatures_in};
use crate::text::{hex_decode, is_hex_digit, unhex};
use crate::types::{PublicKey, Timestamp, MAX_SECOND, MIN_SECOND, NANOS_PER_SECOND};
use dashmap::DashMap;
use vstd::prelude::*;
use vstd::string::*;

verus! {

/// How far a request's own time may lie from the hub's clock, either way, in
/// seconds.
pub const MAX_REQUEST_DRIFT_SECONDS: i64 = 120;

/// How long a claimed signature is remembered, in seconds. A request dated
/// ahead of the clock by all that drift allows stays acceptable for twice
/// that long.
pub const REPLAY_MEMORY_SECONDS: i64 = 240;

/// The instant up to which signatures may be forgotten. It lies one second
/// further back than the memory, because kept signatures carry whole seconds.
pub open spec fn forgotten_until(now: Timestamp) -> Timestamp {
    now.later(-(REPLAY_MEMORY_SECONDS + 1) * NANOS_PER_SECOND)
}

/// The instant up to which signatures may be forgotten.
pub fn forget_before(now: Timestamp) -> (cutoff: Timestamp)
    ensures
        cutoff == forgotten_until(now),
{
    now.plus_seconds(-(REPLAY_MEMORY_SECONDS + 1))
}

/// Why a signed request is not authentic, or cannot be told to be.
#[derive(Debug)]
pub enum AuthError {
    ClockDrift,
    Replayed,
    BadSignature,
    BadPublicKey(String),
    BadSignatureEncoding(String),
    /// The hub has just started, and might not know a replay.
    GuardWarmingUp,
    /// The claim of the signature could not be kept.
    GuardUnavailable(String),
}

/// Why a signed request is turned away: it is not authentic, or its key has
/// used up its quota.
#[derive(Debug)]
pub enum VerifyError<Q> {
    Auth(AuthError),
    Quota(Q),
}

/// What a guard has counted.
#[derive(Debug, Clone, Copy, PartialEq, Eq, Structural)]
pub struct ReplayCounters {
    pub signatures_claimed: u64,
    pub signatures_rejected: u64,
    pub signatures_evicted: u64,
    pub durable_write_failures: u64,
}

/// The signatures that the hub has accepted and that could still be replayed.
pub struct ReplayGuard {
    seen: DashMap<Vec<u8>, Timestamp>,
    accepting_from: Option<Timestamp>,
    counters: ReplayCounters,
}

/// What a guard shows.
#[verifier::ext_equal]
pub struct GuardView {
    /// The signatures, each with the instant it was claimed.
    pub seen: Map<Seq<u8>, Timestamp>,
    /// When requests are accepted from, if there is anything to wait for.
    pub accepting_from: Option<Timestamp>,
    pub counters: ReplayCounters,
}

impl View for ReplayGuard {
    type V = GuardView;

    closed spec fn view(&self) -> GuardView {
        GuardView {
            seen: signatures_in(self.seen),
            accepting_from: self.accepting_from,
            counters: self.counters,
        }
    }
}

/// Nothing counted.
pub open spec fn nothing_counted() -> ReplayCounters {
    ReplayCounters { signatures_claimed: 0, signatures_rejected: 0, signatures_evicted: 0, durable_write_failures: 0 }
}

impl GuardView {
    /// Whether the guard is still waiting out its start at `now`.
    pub open spec fn refuses(self, now: Timestamp) -> bool {
        self.accepting_from is Some && now.nanos < self.accepting_from->0.nanos
    }

    /// With `signature` held as claimed at `now`.
    pub open spec fn holding(self, signature: Seq<u8>, now: Timestamp) -> GuardView {
        GuardView { seen: self.seen.insert(signature, now), ..self }
    }

    /// With one more replay counted.
    pub open spec fn rejecting(self) -> GuardView {
        GuardView {
            counters: ReplayCounters {
                signatures_rejected: self.counters.signatures_rejected.wrapping_add(1),
                ..self.counters
            },
            ..self
        }
    }

    /// With a claim that was kept counted, or one that could not be.
    pub open spec fn counting(self, kept: bool) -> GuardView {
        GuardView {
            counters: if kept {
                ReplayCounters {
                    signatures_claimed: self.counters.signatures_claimed.wrapping_add(1),
                    ..self.counters
                }
            } else {
                ReplayCounters {
                    durable_write_failures: self.counters.durable_write_failures.wrapping_add(1),
                    ..self.counters
                }
            },
            ..self
        }
    }

    /// The signatures claimed after `cutoff`.
    pub open spec fn seen_after(self, cutoff: Timestamp) -> Map<Seq<u8>, Timestamp> {
        self.seen.restrict(Set::new(|s: Seq<u8>| self.seen.contains_key(s) && self.seen[s].nanos > cutoff.nanos))
    }

    /// Without the signatures that can be forgotten at `now`.
    pub open spec fn swept(self, now: Timestamp) -> GuardView {
        let seen = self.seen_after(forgotten_until(now));
        let before = self.seen.dom().len() as int;
        let after = seen.dom().len() as int;
        GuardView {
            seen,
            counters: ReplayCounters {
                signatures_evicted: self.counters.signatures_evicted.wrapping_add(
                    if before >= after {
                        (before - after) as u64
                    } else {
                        0
                    },
                ),
                ..self.counters
            },
            ..self
        }
    }
}

/// Whether a kept row can still matter at `now`.
pub open spec fn row_matters(row: (Seq<u8>, i64), now: Timestamp) -> bool {
    row.1 > forgotten_until(now).second() && MIN_SECOND <= row.1 <= MAX_SECOND
}

/// The signatures read back at `now` from what was kept, in order.
pub open spec fn remembered(rows: Seq<(Seq<u8>, i64)>, now: Timestamp) -> Map<Seq<u8>, Timestamp>
    decreases rows.len(),
{
    if rows.len() == 0 {
        Map::empty()
    } else {
        let before = remembered(rows.drop_last(), now);
        let row = rows.last();
        if row_matters(row, now) {
            before.insert(row.0, Timestamp { nanos: (row.1 * NANOS_PER_SECOND) as i128 })
        } else {
            before
        }
    }
}

/// A guard that knows nothing from before its start.
pub open spec fn started(at: Timestamp) -> GuardView {
    GuardView {
        seen: Map::empty(),
        accepting_from: Some(at.later(REPLAY_MEMORY_SECONDS * NANOS_PER_SECOND)),
        counters: nothing_counted(),
    }
}

/// Kept rows, each signature by its view.
pub open spec fn row_views(rows: Seq<(Vec<u8>, i64)>) -> Seq<(Seq<u8>, i64)> {
    rows.map_values(|row: (Vec<u8>, i64)| (row.0@, row.1))
}

/// A copy of `bytes`.
fn copied(bytes: &[u8]) -> (copy: Vec<u8>)
    ensures
        copy@ == bytes@,
{
    let mut copy: Vec<u8> = Vec::new();
    push_all(&mut copy, bytes);
    assert(copy@ =~= bytes@);
    copy
}

impl ReplayGuard {
    /// Reads a guard back from the signatures that were kept, each with the
    /// second it was claimed in; with it comes how many it holds. Nothing was
    /// forgotten, so there is nothing to wait for.
    pub fn restore(kept: &Vec<(Vec<u8>, i64)>, now: Timestamp) -> (r: (Self, usize))
        requires
            now.valid(),
        ensures
            r.0@ == (GuardView {
                seen: remembered(row_views(kept@), now),
                accepting_from: None,
                counters: nothing_counted(),
            }),
            r.1 == r.0@.seen.dom().len(),
    {
        let mut guard = Self::open();
        let cutoff = forget_before(now).timestamp();
        let ghost rows = row_views(kept@);
        let mut i: usize = 0;
        while i < kept.len()
            invariant
                i <= kept.len(),
                rows == row_views(kept@),
                cutoff == forgotten_until(now).second(),
                guard@ == (GuardView {
                    seen: remembered(rows.take(i as int), now),
                    accepting_from: None,
                    counters: nothing_counted(),
                }),
            decreases kept.len() - i,
        {
            let (signature, at) = &kept[i];
            proof {
                assert(rows.take(i + 1).drop_last() =~= rows.take(i as int));
                assert(rows.take(i + 1).last() == (signature@, *at));
            }
            let second: i128 = *at as i128;
            if *at > cutoff && MIN_SECOND <= second && second <= MAX_SECOND {
                insert_signature(
                    &mut guard.seen,
                    copied(signature.as_slice()),
                    Timestamp { nanos: second * NANOS_PER_SECOND },
                );
            }
            i += 1;
        }
        assert(rows.take(i as int) =~= rows);
        let held = count_signatures(&guard.seen);
        (guard, held)
    }

    /// A guard for a hub that could not read back what it had seen: it turns
    /// requests away until none accepted before its start can be replayed.
    pub fn booting(started_at: Timestamp) -> (guard: Self)
        ensures
            guard@ == started(started_at),
    {
        let mut guard = Self::open();
        guard.accepting_from = Some(started_at.plus_seconds(REPLAY_MEMORY_SECONDS));
        guard
    }

    /// A guard that has seen nothing and waits for nothing.
    pub fn open() -> (guard: Self)
        ensures
            guard@ == (GuardView { seen: Map::empty(), accepting_from: None, counters: nothing_counted() }),
    {
        ReplayGuard {
            seen: no_signatures(),
            accepting_from: None,
            counters: ReplayCounters {
                signatures_claimed: 0,
                signatures_rejected: 0,
                signatures_evicted: 0,
                durable_write_failures: 0,
            },
        }
    }

    /// What the guard has counted.
    pub fn counters(&self) -> (counters: ReplayCounters)
        ensures
            counters == self@.counters,
    {
        self.counters
    }

    /// Whether the guard is still waiting out its start at `now`.
    pub fn refuses_at(&self, now: Timestamp) -> (r: bool)
        ensures
            r == self@.refuses(now),
    {
        match self.accepting_from {
            Some(from) => now.nanos < from.nanos,
            None => false,
        }
    }

    /// Whether a signature was claimed.
    pub fn already_seen(&self, signature: &[u8]) -> (r: bool)
        ensures
            r == self@.seen.contains_key(signature@),
    {
        has_signature(&self.seen, signature)
    }

    /// Claims a signature, unless it was claimed before. The claim is handed
    /// to `save` with its second; if that fails, the signature stays claimed,
    /// so that the request cannot come again.
    pub fn claim<S: FnOnce(&[u8], i64) -> Result<(), String>>(
        &mut self,
        signature: &[u8],
        now: Timestamp,
        save: S,
    ) -> (r: Result<(), AuthError>)
        requires
            now.valid(),
            save.requires((signature, now.second() as i64)),
        ensures
            if old(self)@.seen.contains_key(signature@) {
                r == Result::<(), AuthError>::Err(AuthError::Replayed) && final(self)@ == old(self)@.holding(
                    signature@,
                    now,
                ).rejecting()
            } else {
                exists|outcome: Result<(), String>| #[trigger]
                    save.ensures((signature, now.second() as i64), outcome) && final(self)@ == old(self)@.holding(
                        signature@,
                        now,
                    ).counting(outcome is Ok) && match outcome {
                        Ok(_) => r is Ok,
                        Err(cause) => r == Result::<(), AuthError>::Err(AuthError::GuardUnavailable(cause)),
                    }
            },
    {
        if insert_signature(&mut self.seen, copied(signature), now).is_some() {
            self.counters.signatures_rejected = self.counters.signatures_rejected.wrapping_add(1);
            return Err(AuthError::Replayed);
        }
        let outcome = save(signature, now.timestamp());
        assert(save.ensures((signature, now.second() as i64), outcome));
        match outcome {
            Ok(()) => {
                self.counters.signatures_claimed = self.counters.signatures_claimed.wrapping_add(1);
                Ok(())
            },
            Err(cause) => {
                self.counters.durable_write_failures = self.counters.durable_write_failures.wrapping_add(1);
                Err(AuthError::GuardUnavailable(cause))
            },
        }
    }

    /// Forgets the signatures whose requests are too old by now to be
    /// accepted anyway.
    pub fn cleanup(&mut self, now: Timestamp)
        ensures
            final(self)@ == old(self)@.swept(now),
    {
        let before = count_signatures(&self.seen);
        retain_signatures(&mut self.seen, forget_before(now));
        let after = count_signatures(&self.seen);
        let evicted: u64 = if before >= after {
            (before - after) as u64
        } else {
            0
        };
        self.counters.signatures_evicted = self.counters.signatures_evicted.wrapping_add(evicted);
    }
}

/// Whether a text is hexadecimal through and through.
pub open spec fn is_hex(text: Seq<u8>) -> bool {
    text.len() % 2 == 0 && forall|i: int| 0 <= i < text.len() ==> is_hex_digit(#[trigger] text[i])
}

/// What comes of a signed request at `now`: turned away while the guard waits
/// out its start; else as `verify` says; else turned away as a replay; else as
/// `charge` says; and else the signature is claimed, and kept by `save`.
pub open spec fn answered<
    Q,
    V: FnOnce(Timestamp) -> Result<PublicKey, AuthError>,
    C: FnOnce(&PublicKey) -> Result<(), Q>,
    S: FnOnce(&[u8], i64) -> Result<(), String>,
>(
    before: GuardView,
    after: GuardView,
    signature: Seq<u8>,
    now: Timestamp,
    verify: V,
    charge: C,
    save: S,
    r: Result<PublicKey, VerifyError<Q>>,
) -> bool {
    if before.refuses(now) {
        r == Result::<PublicKey, VerifyError<Q>>::Err(VerifyError::Auth(AuthError::GuardWarmingUp)) && after == before
    } else {
        exists|verdict: Result<PublicKey, AuthError>| #[trigger]
            verify.ensures((now,), verdict) && match verdict {
                Err(e) => r == Result::<PublicKey, VerifyError<Q>>::Err(VerifyError::Auth(e)) && after == before,
                Ok(key) => if before.seen.contains_key(unhex(signature)) {
                    r == Result::<PublicKey, VerifyError<Q>>::Err(VerifyError::Auth(AuthError::Replayed)) && after
                        == before.rejecting()
                } else {
                    exists|charged: Result<(), Q>| #[trigger]
                        charge.ensures((&key,), charged) && match charged {
                            Err(q) => r == Result::<PublicKey, VerifyError<Q>>::Err(VerifyError::Quota(q)) && after
                                == before,
                            Ok(_) => exists|bytes: &[u8], kept: Result<(), String>|
                                bytes@ == unhex(signature) && #[trigger] save.ensures(
                                    (bytes, now.second() as i64),
                                    kept,
                                ) && after == before.holding(bytes@, now).counting(kept is Ok) && match kept {
                                    Ok(_) => r == Result::<PublicKey, VerifyError<Q>>::Ok(key),
                                    Err(cause) => r == Result::<PublicKey, VerifyError<Q>>::Err(
                                        VerifyError::Auth(AuthError::GuardUnavailable(cause)),
                                    ),
                                },
                        }
                },
            }
    }
}

/// Answers a signed request at `now`. `verify` checks the signature, which
/// must be hexadecimal if it is genuine; `charge` takes the request off the
/// key's quota; `save` keeps the claim.
pub fn verify_charging_at<
    Q,
    V: FnOnce(Timestamp) -> Result<PublicKey, AuthError>,
    C: FnOnce(&PublicKey) -> Result<(), Q>,
    S: FnOnce(&[u8], i64) -> Result<(), String>,
>(
    guard: &mut ReplayGuard,
    signature: &str,
    now: Timestamp,
    verify: V,
    charge: C,
    save: S,
) -> (r: Result<PublicKey, VerifyError<Q>>)
    requires
        now.valid(),
        verify.requires((now,)),
        forall|key: PublicKey|
            #[trigger] verify.ensures((now,), Result::<PublicKey, AuthError>::Ok(key)) ==> is_hex(signature.spec_bytes()),
        forall|key: PublicKey| #[trigger] charge.requires((&key,)),
        forall|bytes: &[u8]| #[trigger] save.requires((bytes, now.second() as i64)),
    ensures
        answered(old(guard)@, final(guard)@, signature.spec_bytes(), now, verify, charge, save, r),
{
    if guard.refuses_at(now) {
        return Err(VerifyError::Auth(AuthError::GuardWarmingUp));
    }
    let verdict = verify(now);
    assert(verify.ensures((now,), verdict));
    match verdict {
        Err(e) => Err(VerifyError::Auth(e)),
        Ok(key) => {
            let bytes = match hex_decode(signature) {
                Ok(bytes) => bytes,
                Err(_) => Vec::new(),
            };
            assert(bytes@ == unhex(signature.spec_bytes()));
            if guard.already_seen(bytes.as_slice()) {
                guard.counters.signatures_rejected = guard.counters.signatures_rejected.wrapping_add(1);
                return Err(VerifyError::Auth(AuthError::Replayed));
            }
            let charged = charge(&key);
            assert(charge.ensures((&key,), charged));
            match charged {
                Err(q) => Err(VerifyError::Quota(q)),
                Ok(()) => {
                    let claimed = bytes.as_slice();
                    match guard.claim(claimed, now, save) {
                        Ok(()) => Ok(key),
                        Err(e) => Err(VerifyError::Auth(e)),
                    }
                },
            }
        },
    }
}

/// Answers a signed request at the present instant.
pub fn verify_charging<
    Q,
    V: FnOnce(Timestamp) -> Result<PublicKey, AuthError>,
    C: FnOnce(&PublicKey) -> Result<(), Q>,
    S: FnOnce(&[u8], i64) -> Result<(), String>,
>(guard: &mut ReplayGuard, signature: &str, verify: V, charge: C, save: S) -> (r: Result<PublicKey, VerifyError<Q>>)
    requires
        forall|now: Timestamp| #[trigger] verify.requires((now,)),
        forall|now: Timestamp, key: PublicKey|
            #[trigger] verify.ensures((now,), Result::<PublicKey, AuthError>::Ok(key)) ==> is_hex(signature.spec_bytes()),
        forall|key: PublicKey| #[trigger] charge.requires((&key,)),
        forall|bytes: &[u8], second: i64| #[trigger] save.requires((bytes, second)),
    ensures
        exists|now: Timestamp|
            now.valid() && now.nanos >= 0 && #[trigger] answered(
                old(guard)@,
                final(guard)@,
                signature.spec_bytes(),
                now,
                verify,
                charge,
                save,
                r,
            ),
{
    let now = clock::now();
    verify_charging_at(guard, signature, now, verify, charge, save)
}

/// Whether a request dated `stamped` is close enough to the clock at `now`.
pub open spec fn within_drift(stamped: Timestamp, now: Timestamp) -> bool {
    -(MAX_REQUEST_DRIFT_SECONDS * NANOS_PER_SECOND) <= now.nanos - stamped.nanos <= MAX_REQUEST_DRIFT_SECONDS
        * NANOS_PER_SECOND
}

/// A claimed signature is not forgotten while its request could still be
/// accepted: neither the claim itself, nor what is kept of it, which carries
/// whole seconds.
pub proof fn lemma_memory_outlasts_validity(
    signature: Seq<u8>,
    stamped: Timestamp,
    claimed: Timestamp,
    now: Timestamp,
)
    requires
        claimed.valid(),
        now.valid(),
        claimed.nanos >= 0,
        now.nanos >= 0,
        within_drift(stamped, claimed),
        within_drift(stamped, now),
    ensures
        claimed.nanos > forgotten_until(now).nanos,
        row_matters((signature, claimed.second() as i64), now),
{
    let cutoff = forgotten_until(now);
    assert(cutoff.nanos == now.nanos - 241 * NANOS_PER_SECOND);
    assert(cutoff.second() == now.second() - 241);
    assert(claimed.second() >= now.second() - 240);
}

/// A replay is turned away, and nothing is claimed anew.
pub proof fn lemma_replay_is_turned_away<
    Q,
    V: FnOnce(Timestamp) -> Result<PublicKey, AuthError>,
    C: FnOnce(&PublicKey) -> Result<(), Q>,
    S: FnOnce(&[u8], i64) -> Result<(), String>,
>(
    before: GuardView,
    after: GuardView,
    signature: Seq<u8>,
    now: Timestamp,
    verify: V,
    charge: C,
    save: S,
    r: Result<PublicKey, VerifyError<Q>>,
)
    requires
        before.seen.contains_key(unhex(signature)),
        answered(before, after, signature, now, verify, charge, save, r),
    ensures
        r is Err,
        after.seen == before.seen,
{
}

/// An accepted request is claimed, so that it is turned away from then on.
pub proof fn lemma_accepted_is_claimed<
    Q,
    V: FnOnce(Timestamp) -> Result<PublicKey, AuthError>,
    C: FnOnce(&PublicKey) -> Result<(), Q>,
    S: FnOnce(&[u8], i64) -> Result<(), String>,
>(
    before: GuardView,
    after: GuardView,
    signature: Seq<u8>,
    now: Timestamp,
    verify: V,
    charge: C,
    save: S,
    r: Result<PublicKey, VerifyError<Q>>,
)
    requires
        answered(before, after, signature, now, verify, charge, save, r),
        r is Ok,
    ensures
        after.seen == before.seen.insert(unhex(signature), now),
        !before.seen.contains_key(unhex(signature)),
{
}

/// A sweep up to the present does not forget a signature whose request could
/// still be accepted.
pub proof fn lemma_sweep_keeps_what_is_valid(
    guard: GuardView,
    signature: Seq<u8>,
    stamped: Timestamp,
    swept_at: Timestamp,
    now: Timestamp,
)
    requires
        guard.seen.contains_key(signature),
        guard.seen[signature].valid(),
        guard.seen[signature].nanos >= 0,
        swept_at.valid(),
        now.valid(),
        0 <= swept_at.nanos <= now.nanos,
        within_drift(stamped, guard.seen[signature]),
        within_drift(stamped, now),
    ensures
        guard.swept(swept_at).seen.contains_key(signature),
        guard.swept(swept_at).seen[signature] == guard.seen[signature],
{
    lemma_memory_outlasts_validity(signature, stamped, guard.seen[signature], now);
}

/// A restart does not forget a signature whose request could still be
/// accepted, once its claim was kept.
pub proof fn lemma_restart_keeps_what_is_valid(
    rows: Seq<(Seq<u8>, i64)>,
    at: int,
    stamped: Timestamp,
    claimed: Timestamp,
    now: Timestamp,
)
    requires
        0 <= at < rows.len(),
        claimed.valid(),
        now.valid(),
        claimed.nanos >= 0,
        now.nanos >= 0,
        rows[at].1 == claimed.second(),
        within_drift(stamped, claimed),
        within_drift(stamped, now),
    ensures
        remembered(rows, now).contains_key(rows[at].0),
    decreases rows.len(),
{
    lemma_memory_outlasts_validity(rows[at].0, stamped, claimed, now);
    if at < rows.len() - 1 {
        lemma_restart_keeps_what_is_valid(rows.drop_last(), at, stamped, claimed, now);
    }
}

/// A guard that could not read back what it had seen turns every request away
/// that was accepted before its start and could still be accepted.
pub proof fn lemma_start_is_waited_out(
    started_at: Timestamp,
    stamped: Timestamp,
    accepted: Timestamp,
    now: Timestamp,
    guard: GuardView,
)
    requires
        started_at.valid(),
        now.valid(),
        accepted.nanos < started_at.nanos,
        started_at.nanos + REPLAY_MEMORY_SECONDS * NANOS_PER_SECOND < (MAX_SECOND + 1) * NANOS_PER_SECOND,
        within_drift(stamped, accepted),
        within_drift(stamped, now),
        guard.accepting_from == Some(started_at.later(REPLAY_MEMORY_SECONDS * NANOS_PER_SECOND)),
    ensures
        guard.refuses(now),
{
}

}
