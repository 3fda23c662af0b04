use itx_hub::auth::{
    forget_before, verify_charging, verify_charging_at, AuthError, ReplayGuard, VerifyError, MAX_REQUEST_DRIFT_SECONDS,
    REPLAY_MEMORY_SECONDS,
};
use itx_hub::clock;
use itx_hub::types::{Id, PublicKey, Timestamp, NANOS_PER_SECOND};
use std::cell::RefCell;

fn unused_id() -> Id {
    uuid::Uuid::new_v4().as_u128()
}

fn pubkey() -> PublicKey {
    PublicKey { tag: 2, hi: unused_id(), lo: unused_id() }
}

/// What survives a restart: signatures and the second each was claimed in.
struct Store {
    rows: RefCell<Vec<(Vec<u8>, i64)>>,
}

impl Store {
    fn new() -> Store {
        Store { rows: RefCell::new(Vec::new()) }
    }

    fn record_seen_signature(&self, signature: &[u8], second: i64) -> Result<(), String> {
        self.rows.borrow_mut().push((signature.to_vec(), second));
        Ok(())
    }

    fn recent_signatures(&self) -> Vec<(Vec<u8>, i64)> {
        self.rows.borrow().clone()
    }

    fn forget(&self, cutoff: i64) {
        self.rows.borrow_mut().retain(|row| row.1 > cutoff);
    }
}

/// A signed request whose signature is genuine.
struct Envelope {
    key: PublicKey,
    stamped: Timestamp,
    signature: String,
}

impl Envelope {
    fn new_at(key: PublicKey, stamped: Timestamp) -> Envelope {
        Envelope { key, stamped, signature: format!("{:032x}", unused_id()) }
    }

    fn new(key: PublicKey) -> Envelope {
        Envelope::new_at(key, clock::now())
    }

    fn verify_signature(&self, now: Timestamp) -> Result<PublicKey, AuthError> {
        let drift = (now.nanos - self.stamped.nanos).abs();
        if drift > MAX_REQUEST_DRIFT_SECONDS as i128 * NANOS_PER_SECOND {
            Err(AuthError::ClockDrift)
        } else {
            Ok(self.key)
        }
    }

    fn verify_unmetered(&self, guard: &mut ReplayGuard, store: Option<&Store>) -> Result<PublicKey, AuthError> {
        let answer = verify_charging(
            guard,
            &self.signature,
            |now| self.verify_signature(now),
            |_| Ok::<(), ()>(()),
            |signature, second| match store {
                Some(store) => store.record_seen_signature(signature, second),
                None => Ok(()),
            },
        );
        match answer {
            Ok(key) => Ok(key),
            Err(VerifyError::Auth(e)) => Err(e),
            Err(VerifyError::Quota(())) => unreachable!(),
        }
    }
}

#[test]
fn a_booting_guard_refuses_until_the_last_pre_restart_envelope_has_expired() {
    let boot = clock::now();
    let guard = ReplayGuard::booting(boot);

    assert!(guard.refuses_at(boot));
    assert!(guard.refuses_at(boot.plus_seconds(MAX_REQUEST_DRIFT_SECONDS)));
    assert!(guard.refuses_at(boot.plus_seconds(REPLAY_MEMORY_SECONDS - 1)));

    assert!(!guard.refuses_at(boot.plus_seconds(REPLAY_MEMORY_SECONDS)));
    assert!(!guard.refuses_at(boot.plus_seconds(REPLAY_MEMORY_SECONDS + 1)));
}

#[test]
fn an_open_guard_never_refuses() {
    let guard = ReplayGuard::open();
    assert!(!guard.refuses_at(clock::now()));
    assert!(!guard.refuses_at(clock::now().plus_minutes(-365 * 1_440)));
}

#[test]
fn the_window_is_reported_as_its_own_error_not_as_a_replay() {
    let key = pubkey();
    let envelope = Envelope::new(key);
    let mut guard = ReplayGuard::booting(clock::now());
    assert!(matches!(envelope.verify_unmetered(&mut guard, None), Err(AuthError::GuardWarmingUp)));

    let mut guard = ReplayGuard::open();
    assert_eq!(envelope.verify_unmetered(&mut guard, None).unwrap(), key);
}

#[test]
fn a_replayed_envelope_is_still_rejected_after_a_restart() {
    let store = Store::new();
    let key = pubkey();
    let envelope = Envelope::new(key);

    let (mut before, restored) = ReplayGuard::restore(&store.recent_signatures(), clock::now());
    assert_eq!(restored, 0, "a fresh store has nothing to restore");
    assert_eq!(envelope.verify_unmetered(&mut before, Some(&store)).unwrap(), key);
    drop(before);

    let (mut after, restored) = ReplayGuard::restore(&store.recent_signatures(), clock::now());
    assert_eq!(restored, 1, "the accepted signature must come back from disk");
    assert!(
        matches!(envelope.verify_unmetered(&mut after, Some(&store)), Err(AuthError::Replayed)),
        "an envelope accepted before the restart must not be accepted after it"
    );
    assert!(!after.refuses_at(clock::now()));
}

#[test]
fn a_degraded_guard_still_records_durably_for_its_successor() {
    let store = Store::new();
    let key = pubkey();
    let envelope = Envelope::new(key);

    let mut degraded = ReplayGuard::booting(clock::now().plus_seconds(-(REPLAY_MEMORY_SECONDS + 1)));
    assert!(!degraded.refuses_at(clock::now()), "the window has closed, so it is serving");
    assert_eq!(envelope.verify_unmetered(&mut degraded, Some(&store)).unwrap(), key);
    drop(degraded);

    let (mut successor, restored) = ReplayGuard::restore(&store.recent_signatures(), clock::now());
    assert_eq!(restored, 1, "the degraded process's signature must be on disk");
    assert!(
        matches!(envelope.verify_unmetered(&mut successor, Some(&store)), Err(AuthError::Replayed)),
        "an envelope accepted by a degraded hub must not be accepted by its successor"
    );
}

#[test]
fn a_restart_restores_everything_still_replayable_and_nothing_older() {
    let store = Store::new();
    let now = clock::now();
    store.record_seen_signature(b"stale", now.plus_seconds(-(REPLAY_MEMORY_SECONDS + 1)).timestamp()).unwrap();
    store
        .record_seen_signature(b"one_drift_old", now.plus_seconds(-(MAX_REQUEST_DRIFT_SECONDS + 1)).timestamp())
        .unwrap();
    store.record_seen_signature(b"fresh", now.timestamp()).unwrap();

    let (guard, restored) = ReplayGuard::restore(&store.recent_signatures(), now);
    assert_eq!(restored, 2);
    assert!(guard.already_seen(b"fresh"));
    assert!(
        guard.already_seen(b"one_drift_old"),
        "a signature past one drift window can still belong to a replayable envelope"
    );
    assert!(!guard.already_seen(b"stale"));
}

#[test]
fn a_signature_recorded_a_full_window_ago_is_still_restored() {
    let store = Store::new();
    let now = clock::now();

    let boundary = now.timestamp() - REPLAY_MEMORY_SECONDS;
    store.record_seen_signature(b"boundary", boundary).unwrap();

    let (guard, _) = ReplayGuard::restore(&store.recent_signatures(), now);
    assert!(
        guard.already_seen(b"boundary"),
        "a signature whose stored second is exactly one window old may still belong to a verifiable envelope"
    );

    let (later, _) = ReplayGuard::restore(&store.recent_signatures(), now.plus_seconds(2));
    assert!(!later.already_seen(b"boundary"));
}

#[test]
fn cleanup_evicts_expired_signatures_from_memory_and_from_disk_together() {
    let store = Store::new();
    let now = clock::now();
    let stale = now.plus_seconds(-(REPLAY_MEMORY_SECONDS + 1));
    store.record_seen_signature(b"stale", stale.timestamp()).unwrap();
    store.record_seen_signature(b"fresh", now.timestamp()).unwrap();

    let (mut guard, restored) = ReplayGuard::restore(&store.recent_signatures(), stale);
    assert_eq!(restored, 2);

    guard.cleanup(now);
    store.forget(forget_before(now).timestamp());
    assert!(guard.already_seen(b"fresh"));
    assert!(!guard.already_seen(b"stale"));
    assert_eq!(guard.counters().signatures_evicted, 1);
    let on_disk = store.recent_signatures();
    assert_eq!(on_disk.len(), 1, "the stale row must be gone from disk too");
    assert_eq!(on_disk[0].0, b"fresh".to_vec());
}

#[test]
fn a_future_dated_envelope_stays_remembered_for_as_long_as_it_stays_valid() {
    let key = pubkey();
    let now = clock::now();
    let envelope = Envelope::new_at(key, now.plus_seconds(MAX_REQUEST_DRIFT_SECONDS - 1));

    let mut guard = ReplayGuard::open();
    assert_eq!(envelope.verify_unmetered(&mut guard, None).unwrap(), key);

    let after_one_window = now.plus_seconds(MAX_REQUEST_DRIFT_SECONDS + 1);
    guard.cleanup(after_one_window);

    assert!(
        envelope.verify_signature(after_one_window).is_ok(),
        "the envelope is still inside its drift window here"
    );
    assert!(
        matches!(envelope.verify_unmetered(&mut guard, None), Err(AuthError::Replayed)),
        "an envelope that can still be replayed must still be remembered"
    );
}

#[test]
fn a_stale_envelope_is_rejected_by_drift_even_though_the_guard_has_never_seen_it() {
    let store = Store::new();
    let stale = Envelope::new_at(pubkey(), clock::now().plus_seconds(-(MAX_REQUEST_DRIFT_SECONDS + 1)));

    let (mut guard, _) = ReplayGuard::restore(&store.recent_signatures(), clock::now());
    assert!(matches!(stale.verify_unmetered(&mut guard, Some(&store)), Err(AuthError::ClockDrift)));
    assert!(store.recent_signatures().is_empty());
}

#[test]
fn an_open_guard_still_rejects_a_replay_within_one_process() {
    let envelope = Envelope::new(pubkey());
    let mut guard = ReplayGuard::open();
    assert!(envelope.verify_unmetered(&mut guard, None).is_ok());
    assert!(matches!(envelope.verify_unmetered(&mut guard, None), Err(AuthError::Replayed)));
    assert_eq!(guard.counters().signatures_claimed, 1);
    assert_eq!(guard.counters().signatures_rejected, 1);
}

#[test]
fn a_claim_that_cannot_be_kept_is_refused() {
    let key = pubkey();
    let now = clock::now();
    let mut guard = ReplayGuard::open();
    let answer = verify_charging_at(
        &mut guard,
        "00ff",
        now,
        |_| Ok(key),
        |_| Ok::<(), ()>(()),
        |_, _| Err("disk full".to_string()),
    );
    assert!(matches!(answer, Err(VerifyError::Auth(AuthError::GuardUnavailable(_)))));
    assert_eq!(guard.counters().durable_write_failures, 1);
}

#[test]
fn an_exhausted_quota_claims_nothing() {
    let key = pubkey();
    let now = clock::now();
    let mut guard = ReplayGuard::open();
    let answer =
        verify_charging_at(&mut guard, "00ff", now, |_| Ok(key), |_| Err::<(), u8>(7), |_, _| Ok(()));
    assert!(matches!(answer, Err(VerifyError::Quota(7))));
    assert!(!guard.already_seen(&[0x00, 0xff]));

    let answer =
        verify_charging_at(&mut guard, "00ff", now, |_| Ok(key), |_| Ok::<(), u8>(()), |_, _| Ok(()));
    assert!(answer.is_ok());
    assert!(guard.already_seen(&[0x00, 0xff]), "the signature is remembered by its bytes, not its text");
    assert!(!guard.already_seen(b"00ff"));
}

#[test]
fn a_bad_signature_is_answered_as_it_was_found() {
    let now = clock::now();
    let mut guard = ReplayGuard::open();
    let answer = verify_charging_at(
        &mut guard,
        "zz",
        now,
        |_| Err(AuthError::BadSignature),
        |_| Ok::<(), ()>(()),
        |_, _| Ok(()),
    );
    assert!(matches!(answer, Err(VerifyError::Auth(AuthError::BadSignature))));
}
