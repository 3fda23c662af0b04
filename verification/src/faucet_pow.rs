//! The faucet's proof of work: a puzzle that a key solves before it is
//! granted anything.
//!
//! A solver looks for a number which, put at the end of a text that names the
//! challenge, its nonce, the key and the action, makes the SHA-256 digest of
//! the text, read with the least significant byte first, at most the target.
use crate::clock::{fresh_id, uuid_text, uuid_to_string};
use crate::escrow_key::random_bytes;
use crate::held::{
    challenges_in, count_challenges, get_challenge, get_outstanding, insert_challenge, insert_outstanding,
    no_challenges, none_outstanding, outstanding_in, remove_challenge, remove_outstanding, retain_challenges,
    retain_outstanding,
};
use crate::table::Duplicate;
use crate::text::{
    dec, decimal, hex_encode, hex_text, joined, lemma_dec_is_injective, lemma_hex_has_no, lemma_hex_is_injective,
    lemma_split_at,
};
use crate::types::{be_bytes, lemma_be_bytes_value, Id, PublicKey, Timestamp, NANOS_PER_SECOND};
use crate::wide::{le_value, lemma_max_over_is_monotone, u256_max, U256};
use dashmap::DashMap;
use vstd::prelude::*;
use vstd::string::*;
use vstd::utf8::encode_utf8;

verus! {

/// The one action that is priced by proof of work.
pub const FAUCET_ACTION: &'static str = "faucet";

/// How long an issued challenge can be redeemed, in seconds.
pub const CHALLENGE_TTL_SECONDS: i64 = 600;

/// How long a redeemed challenge is remembered after it expires, in seconds.
pub const REDEEMED_RETENTION_SECONDS: i64 = 3_600;

/// How many hashes one challenge is expected to take, unless told otherwise.
pub const DEFAULT_EXPECTED_HASHES: u64 = 20_000_000;

/// The target that takes `expected` hashes to meet on average.
pub open spec fn target_value(expected: u64) -> int {
    u256_max() / if expected == 0 {
        1int
    } else {
        expected as int
    }
}

/// The target that takes `expected` hashes to meet on average; none is taken
/// for one.
pub fn target_for_expected_hashes(expected: u64) -> (target: U256)
    ensures
        target.value() == target_value(expected),
{
    U256::max_over(if expected == 0 { 1 } else { expected })
}

/// Asking for more work never loosens the target.
pub proof fn lemma_more_work_tightens_the_target(less: u64, more: u64)
    requires
        less <= more,
    ensures
        target_value(more) <= target_value(less),
{
    lemma_max_over_is_monotone(
        if less == 0 {
            1int
        } else {
            less as int
        },
        if more == 0 {
            1int
        } else {
            more as int
        },
    );
}

/// The SHA-256 digest of `bytes`.
pub uninterp spec fn sha256(bytes: Seq<u8>) -> Seq<u8>;

/// Calls `digest` of `sha2::Sha256`. The digest depends on the bytes alone.
#[verifier::external_body]
pub(crate) fn sha256_digest(bytes: &[u8]) -> (digest: [u8; 32])
    ensures
        digest@ == sha256(bytes@),
{
    <sha2::Sha256 as sha2::Digest>::digest(bytes).into()
}

/// An issued challenge. Once redeemed it stays on record, so that a second
/// redemption is told apart from one of a challenge that never was.
#[derive(Clone, Debug)]
pub struct Challenge {
    pub id: Id,
    /// The key that will be paid, in hexadecimal.
    pub pubkey: String,
    /// Thirty-two random bytes, in hexadecimal.
    pub server_nonce: String,
    pub action: String,
    pub target: U256,
    pub issued_at: i64,
    pub expires_at: i64,
    /// `None` while outstanding.
    pub redeemed_at: Option<i64>,
}

/// What a challenge shows.
#[verifier::ext_equal]
pub struct ChallengeView {
    pub id: Id,
    pub pubkey: Seq<char>,
    pub server_nonce: Seq<char>,
    pub action: Seq<char>,
    pub target: U256,
    pub issued_at: i64,
    pub expires_at: i64,
    pub redeemed_at: Option<i64>,
}

impl View for Challenge {
    type V = ChallengeView;

    open spec fn view(&self) -> ChallengeView {
        ChallengeView {
            id: self.id,
            pubkey: self.pubkey@,
            server_nonce: self.server_nonce@,
            action: self.action@,
            target: self.target,
            issued_at: self.issued_at,
            expires_at: self.expires_at,
            redeemed_at: self.redeemed_at,
        }
    }
}

impl Duplicate for Challenge {
    fn duplicate(&self) -> (copy: Self) {
        Challenge {
            id: self.id,
            pubkey: self.pubkey.clone(),
            server_nonce: self.server_nonce.clone(),
            action: self.action.clone(),
            target: self.target,
            issued_at: self.issued_at,
            expires_at: self.expires_at,
            redeemed_at: self.redeemed_at,
        }
    }
}

impl ChallengeView {
    /// The text that names the challenge, up to the solution.
    pub open spec fn stem(self) -> Seq<char> {
        uuid_text(self.id) + seq![':'] + self.server_nonce + seq![':'] + self.pubkey + seq![':'] + self.action
            + seq![':']
    }

    /// The text that a solver hashes.
    pub open spec fn preimage(self, solution: u64) -> Seq<char> {
        self.stem() + dec(solution as nat)
    }

    /// Whether `solution` meets the target.
    pub open spec fn solved_by(self, solution: u64) -> bool {
        le_value(sha256(encode_utf8(self.preimage(solution)))) <= self.target.value()
    }

    /// Whether the challenge has run out by `now`.
    pub open spec fn expired_at(self, now: Timestamp) -> bool {
        now.second() > self.expires_at
    }

    /// Whether the challenge still matters at the second `ts`.
    pub open spec fn held_at(self, ts: int) -> bool {
        ts <= self.expires_at + if self.redeemed_at is Some {
            REDEEMED_RETENTION_SECONDS as int
        } else {
            0
        }
    }
}

/// A challenge as it is issued to `pubkey` at `now`, with its random parts.
pub open spec fn issued(id: Id, nonce: Seq<u8>, pubkey: PublicKey, target: U256, now: Timestamp) -> ChallengeView {
    ChallengeView {
        id,
        pubkey: hex_text(pubkey.bytes()),
        server_nonce: hex_text(nonce),
        action: FAUCET_ACTION@,
        target,
        issued_at: now.second() as i64,
        expires_at: now.later(CHALLENGE_TTL_SECONDS * NANOS_PER_SECOND).second() as i64,
        redeemed_at: None,
    }
}

impl Challenge {
    /// The challenge issued to `pubkey` at `now` under that identifier and
    /// nonce.
    pub fn issue_with(id: Id, nonce: &[u8; 32], pubkey: &PublicKey, target: U256, now: Timestamp) -> (c: Self)
        requires
            now.valid(),
        ensures
            c@ == issued(id, nonce@, *pubkey, target, now),
    {
        Challenge {
            id,
            pubkey: pubkey.to_string(),
            server_nonce: hex_encode(nonce),
            action: FAUCET_ACTION.to_owned(),
            target,
            issued_at: now.timestamp(),
            expires_at: now.plus_seconds(CHALLENGE_TTL_SECONDS).timestamp(),
            redeemed_at: None,
        }
    }

    /// Issues a fresh challenge to `pubkey`: its identifier and its nonce are
    /// left to chance.
    pub fn issue(pubkey: &PublicKey, target: U256, now: Timestamp) -> (c: Self)
        requires
            now.valid(),
        ensures
            exists|nonce: Seq<u8>| nonce.len() == 32 && c@ == #[trigger] issued(c.id, nonce, *pubkey, target, now),
    {
        let nonce = random_bytes();
        Self::issue_with(fresh_id(), &nonce, pubkey, target, now)
    }

    /// The text that names the challenge, up to the solution.
    fn stem(&self) -> (text: String)
        ensures
            text@ == self@.stem(),
    {
        proof {
            reveal_strlit(":");
        }
        let mut text = uuid_to_string(self.id);
        text.append(":");
        text.append(self.server_nonce.as_str());
        text.append(":");
        text.append(self.pubkey.as_str());
        text.append(":");
        text.append(self.action.as_str());
        text.append(":");
        assert(text@ =~= self@.stem());
        text
    }

    /// The text that a solver hashes.
    pub fn preimage(&self, solution: u64) -> (text: String)
        ensures
            text@ == self@.preimage(solution),
    {
        let mut text = self.stem();
        text.append(decimal(solution).as_str());
        text
    }

    /// Whether `solution` meets the target recorded when the challenge was
    /// issued.
    pub fn is_solved_by(&self, solution: u64) -> (r: bool)
        ensures
            r == self@.solved_by(solution),
    {
        let text = self.preimage(solution);
        let digest = sha256_digest(text.as_str().as_bytes());
        U256::from_little_endian(&digest).at_most(&self.target)
    }

    /// The target in hexadecimal, in sixty-four digits, the most significant
    /// first.
    pub fn target_hex(&self) -> (text: String)
        ensures
            text@ == hex_text(self@.target.bytes()),
    {
        self.target.to_hex()
    }

    /// The text that a solver hashes, with `{solution}` where the solution
    /// goes.
    pub fn preimage_template(&self) -> (text: String)
        ensures
            text@ == self@.stem() + "{solution}"@,
    {
        let mut text = self.stem();
        text.append("{solution}");
        text
    }

    /// Whether the challenge has run out by `now`.
    pub fn is_expired_at(&self, now: Timestamp) -> (r: bool)
        requires
            now.valid(),
        ensures
            r == self@.expired_at(now),
    {
        now.timestamp() > self.expires_at
    }

    /// Whether the challenge was redeemed.
    pub fn is_redeemed(&self) -> (r: bool)
        ensures
            r == (self@.redeemed_at is Some),
    {
        self.redeemed_at.is_some()
    }

    /// Whether the challenge still matters at the second `ts`: until it runs
    /// out, or for the time of retention more once it was redeemed.
    pub fn is_held_at(&self, ts: i64) -> (r: bool)
        ensures
            r == self@.held_at(ts as int),
    {
        let horizon: i128 = if self.is_redeemed() {
            self.expires_at as i128 + REDEEMED_RETENTION_SECONDS as i128
        } else {
            self.expires_at as i128
        };
        ts as i128 <= horizon
    }

    /// The first solution from `start` on, if there is one.
    pub fn solve_from(&self, start: u64) -> (solution: Option<u64>)
        ensures
            match solution {
                Some(n) => start <= n && self@.solved_by(n) && (forall|m: u64|
                    start <= m < n ==> !#[trigger] self@.solved_by(m)),
                None => forall|m: u64| start <= m ==> !#[trigger] self@.solved_by(m),
            },
    {
        let mut n: u64 = start;
        loop
            invariant
                start <= n,
                forall|m: u64| start <= m < n ==> !#[trigger] self@.solved_by(m),
            decreases u64::MAX - n,
        {
            if self.is_solved_by(n) {
                return Some(n);
            }
            if n == u64::MAX {
                return None;
            }
            n = n + 1;
        }
    }
}

/// Why a challenge could not be issued or redeemed.
#[derive(Debug)]
pub enum RedemptionError {
    Unknown,
    WrongKey,
    Expired,
    AlreadyRedeemed,
    Unsolved,
    NotRecorded(String),
}

impl RedemptionError {
    /// What to tell the one who redeems.
    pub open spec fn text(self) -> Seq<char> {
        match self {
            RedemptionError::Unknown => "no such faucet challenge"@,
            RedemptionError::WrongKey => "this faucet challenge was issued to a different key"@,
            RedemptionError::Expired => "this faucet challenge has expired; request another"@,
            RedemptionError::AlreadyRedeemed => "this faucet challenge has already been redeemed"@,
            RedemptionError::Unsolved => "that solution does not meet the challenge's target"@,
            RedemptionError::NotRecorded(cause) => "could not record the redemption durably: "@ + cause@,
        }
    }

    /// What to tell the one who redeems.
    pub fn message(&self) -> (text: String)
        ensures
            text@ == self.text(),
    {
        match self {
            RedemptionError::Unknown => "no such faucet challenge".to_owned(),
            RedemptionError::WrongKey => "this faucet challenge was issued to a different key".to_owned(),
            RedemptionError::Expired => "this faucet challenge has expired; request another".to_owned(),
            RedemptionError::AlreadyRedeemed => "this faucet challenge has already been redeemed".to_owned(),
            RedemptionError::Unsolved => "that solution does not meet the challenge's target".to_owned(),
            RedemptionError::NotRecorded(cause) => joined("could not record the redemption durably: ", cause.as_str()),
        }
    }
}

/// The challenges that the hub holds, and the one that each key has
/// outstanding. What is redeemed is also kept elsewhere, before it counts, so
/// that a restart does not forget it.
pub struct ChallengeBook {
    by_id: DashMap<Id, Challenge>,
    outstanding: DashMap<String, Id>,
    target: U256,
}

/// What a book shows.
#[verifier::ext_equal]
pub struct BookView {
    /// Every challenge that is held, redeemed or not.
    pub by_id: Map<Id, ChallengeView>,
    /// The challenge that each key has outstanding.
    pub outstanding: Map<Seq<char>, Id>,
    /// What the next challenge will have to meet.
    pub target: U256,
}

impl View for ChallengeBook {
    type V = BookView;

    closed spec fn view(&self) -> BookView {
        BookView {
            by_id: challenges_in(self.by_id),
            outstanding: outstanding_in(self.outstanding),
            target: self.target,
        }
    }
}

impl BookView {
    /// A book that holds nothing.
    pub open spec fn empty(target: U256) -> BookView {
        BookView { by_id: Map::empty(), outstanding: Map::empty(), target }
    }

    /// With a challenge read back at `now`: left out once it no longer
    /// matters, and outstanding unless it was redeemed.
    pub open spec fn with_restored(self, c: ChallengeView, now: Timestamp) -> BookView {
        if !c.held_at(now.second()) {
            self
        } else {
            BookView {
                by_id: self.by_id.insert(c.id, c),
                outstanding: if c.redeemed_at is Some {
                    self.outstanding
                } else {
                    self.outstanding.insert(c.pubkey, c.id)
                },
                ..self
            }
        }
    }

    /// With a challenge issued, in place of the one its key had outstanding.
    pub open spec fn with_issued(self, c: ChallengeView) -> BookView {
        let others = if self.outstanding.contains_key(c.pubkey) {
            self.by_id.remove(self.outstanding[c.pubkey])
        } else {
            self.by_id
        };
        BookView {
            by_id: others.insert(c.id, c),
            outstanding: self.outstanding.insert(c.pubkey, c.id),
            ..self
        }
    }

    /// Why a solution is turned away, if it is.
    pub open spec fn refusal(self, id: Id, pubkey: PublicKey, solution: u64, now: Timestamp) -> Option<
        RedemptionError,
    > {
        if !self.by_id.contains_key(id) {
            Some(RedemptionError::Unknown)
        } else {
            let c = self.by_id[id];
            if c.pubkey != hex_text(pubkey.bytes()) {
                Some(RedemptionError::WrongKey)
            } else if c.redeemed_at is Some {
                Some(RedemptionError::AlreadyRedeemed)
            } else if c.expired_at(now) {
                Some(RedemptionError::Expired)
            } else if !c.solved_by(solution) {
                Some(RedemptionError::Unsolved)
            } else {
                None
            }
        }
    }

    /// The challenge `id` as redeemed at `now`.
    pub open spec fn spent(self, id: Id, now: Timestamp) -> ChallengeView {
        ChallengeView { redeemed_at: Some(now.second() as i64), ..self.by_id[id] }
    }

    /// With the challenge `id` redeemed at `now`.
    pub open spec fn with_redeemed(self, id: Id, now: Timestamp) -> BookView {
        BookView {
            by_id: self.by_id.insert(id, self.spent(id, now)),
            outstanding: self.outstanding.remove(self.by_id[id].pubkey),
            ..self
        }
    }

    /// Without what no longer matters at `now`.
    pub open spec fn swept(self, now: Timestamp) -> BookView {
        let by_id = self.by_id.restrict(
            Set::new(|id: Id| self.by_id.contains_key(id) && self.by_id[id].held_at(now.second())),
        );
        BookView {
            by_id,
            outstanding: self.outstanding.restrict(
                Set::new(
                    |key: Seq<char>| self.outstanding.contains_key(key) && by_id.contains_key(self.outstanding[key]),
                ),
            ),
            ..self
        }
    }

    /// Whether `id` can be redeemed at all.
    pub open spec fn is_live(self, id: Id) -> bool {
        self.by_id.contains_key(id) && self.by_id[id].redeemed_at is None
    }
}

/// A book read back at `now` from what was kept, in order.
pub open spec fn restored(kept: Seq<ChallengeView>, target: U256, now: Timestamp) -> BookView
    decreases kept.len(),
{
    if kept.len() == 0 {
        BookView::empty(target)
    } else {
        restored(kept.drop_last(), target, now).with_restored(kept.last(), now)
    }
}

/// What challenges show, in order.
pub open spec fn challenge_views(challenges: Seq<Challenge>) -> Seq<ChallengeView> {
    challenges.map_values(|c: Challenge| c@)
}

impl ChallengeBook {
    /// Reads a book back from the challenges that were kept; with it comes
    /// how many it holds.
    pub fn restore(kept: &Vec<Challenge>, target: U256, now: Timestamp) -> (r: (Self, usize))
        requires
            now.valid(),
        ensures
            r.0@ == restored(challenge_views(kept@), target, now),
            r.1 == r.0@.by_id.dom().len(),
    {
        let mut book = Self::open(target);
        let ts = now.timestamp();
        let ghost all = challenge_views(kept@);
        let mut i: usize = 0;
        while i < kept.len()
            invariant
                i <= kept.len(),
                now.valid(),
                ts == now.second(),
                all == challenge_views(kept@),
                book@ == restored(all.take(i as int), target, now),
            decreases kept.len() - i,
        {
            let c = &kept[i];
            proof {
                assert(all.take(i + 1).drop_last() =~= all.take(i as int));
                assert(all.take(i + 1).last() == c@);
            }
            if c.is_held_at(ts) {
                if !c.is_redeemed() {
                    insert_outstanding(&mut book.outstanding, c.pubkey.clone(), c.id);
                }
                insert_challenge(&mut book.by_id, c.id, c.duplicate());
            }
            i += 1;
        }
        assert(all.take(i as int) =~= all);
        let held = count_challenges(&book.by_id);
        (book, held)
    }

    /// A book that holds nothing.
    pub fn open(target: U256) -> (book: Self)
        ensures
            book@ == BookView::empty(target),
    {
        ChallengeBook { by_id: no_challenges(), outstanding: none_outstanding(), target }
    }

    /// What the next challenge will have to meet.
    pub fn target(&self) -> (target: U256)
        ensures
            target == self@.target,
    {
        self.target
    }

    /// Takes a challenge on, in place of the one its key had outstanding. It
    /// is handed to `save` first; if that fails, nothing changes.
    pub fn take_on<F: FnOnce(&Challenge) -> Result<(), String>>(&mut self, challenge: Challenge, save: F) -> (r: Result<
        Challenge,
        RedemptionError,
    >)
        requires
            save.requires((&challenge,)),
        ensures
            exists|outcome: Result<(), String>| #[trigger]
                save.ensures((&challenge,), outcome) && match outcome {
                    Ok(_) => r is Ok && r->Ok_0@ == challenge@ && final(self)@ == old(self)@.with_issued(challenge@),
                    Err(cause) => r == Result::<Challenge, RedemptionError>::Err(RedemptionError::NotRecorded(cause))
                        && final(self)@ == old(self)@,
                },
    {
        let outcome = save(&challenge);
        assert(save.ensures((&challenge,), outcome));
        match outcome {
            Err(cause) => Err(RedemptionError::NotRecorded(cause)),
            Ok(()) => {
                match get_outstanding(&self.outstanding, challenge.pubkey.as_str()) {
                    Some(previous) => {
                        remove_challenge(&mut self.by_id, previous);
                    },
                    None => {},
                }
                insert_outstanding(&mut self.outstanding, challenge.pubkey.clone(), challenge.id);
                insert_challenge(&mut self.by_id, challenge.id, challenge.duplicate());
                Ok(challenge)
            },
        }
    }

    /// Issues a challenge to `pubkey`, in place of the one it had outstanding.
    /// It is handed to `save` first; if that fails, nothing changes.
    pub fn issue<F: FnOnce(&Challenge) -> Result<(), String>>(&mut self, pubkey: &PublicKey, now: Timestamp, save: F) -> (r:
        Result<Challenge, RedemptionError>)
        requires
            now.valid(),
            forall|c: Challenge| save.requires((&c,)),
        ensures
            exists|c: Challenge, nonce: Seq<u8>, outcome: Result<(), String>|
                nonce.len() == 32 && c@ == #[trigger] issued(c.id, nonce, *pubkey, old(self)@.target, now)
                    && #[trigger] save.ensures((&c,), outcome) && match outcome {
                    Ok(_) => r is Ok && r->Ok_0@ == c@ && final(self)@ == old(self)@.with_issued(c@),
                    Err(cause) => r == Result::<Challenge, RedemptionError>::Err(RedemptionError::NotRecorded(cause))
                        && final(self)@ == old(self)@,
                },
    {
        let c = Challenge::issue(pubkey, self.target, now);
        let ghost nonce = choose|nonce: Seq<u8>|
            nonce.len() == 32 && c@ == #[trigger] issued(c.id, nonce, *pubkey, self.target, now);
        assert(c@ == issued(c.id, nonce, *pubkey, old(self)@.target, now));
        self.take_on(c, save)
    }

    /// Issues a challenge that has to meet `target` to `pubkey`, in place of the
    /// one it had outstanding. It is handed to `save` first; if that fails,
    /// nothing changes.
    pub fn issue_at_target<F: FnOnce(&Challenge) -> Result<(), String>>(
        &mut self,
        pubkey: &PublicKey,
        target: U256,
        now: Timestamp,
        save: F,
    ) -> (r: Result<Challenge, RedemptionError>)
        requires
            now.valid(),
            forall|c: Challenge| save.requires((&c,)),
        ensures
            exists|c: Challenge, nonce: Seq<u8>, outcome: Result<(), String>|
                nonce.len() == 32 && c@ == #[trigger] issued(c.id, nonce, *pubkey, target, now)
                    && #[trigger] save.ensures((&c,), outcome) && match outcome {
                    Ok(_) => r is Ok && r->Ok_0@ == c@ && final(self)@ == old(self)@.with_issued(c@),
                    Err(cause) => r == Result::<Challenge, RedemptionError>::Err(RedemptionError::NotRecorded(cause))
                        && final(self)@ == old(self)@,
                },
    {
        let c = Challenge::issue(pubkey, target, now);
        let ghost nonce = choose|nonce: Seq<u8>|
            nonce.len() == 32 && c@ == #[trigger] issued(c.id, nonce, *pubkey, target, now);
        assert(c@ == issued(c.id, nonce, *pubkey, target, now));
        self.take_on(c, save)
    }

    /// Whether `redeem` would accept a solution now. Nothing is spent.
    pub fn check(&self, id: Id, pubkey: &PublicKey, solution: u64, now: Timestamp) -> (r: Result<(), RedemptionError>)
        requires
            now.valid(),
        ensures
            match self@.refusal(id, *pubkey, solution, now) {
                Some(e) => r == Result::<(), RedemptionError>::Err(e),
                None => r is Ok,
            },
    {
        match get_challenge(&self.by_id, id) {
            None => Err(RedemptionError::Unknown),
            Some(entry) => {
                if entry.pubkey != pubkey.to_string() {
                    Err(RedemptionError::WrongKey)
                } else if entry.is_redeemed() {
                    Err(RedemptionError::AlreadyRedeemed)
                } else if entry.is_expired_at(now) {
                    Err(RedemptionError::Expired)
                } else if !entry.is_solved_by(solution) {
                    Err(RedemptionError::Unsolved)
                } else {
                    Ok(())
                }
            },
        }
    }

    /// Checks a solution and spends the challenge. What is spent is handed to
    /// `save` before anything else; if that fails, nothing changes.
    pub fn redeem<F: FnOnce(&Challenge) -> Result<(), String>>(
        &mut self,
        id: Id,
        pubkey: &PublicKey,
        solution: u64,
        now: Timestamp,
        save: F,
    ) -> (r: Result<Challenge, RedemptionError>)
        requires
            now.valid(),
            forall|c: Challenge| save.requires((&c,)),
        ensures
            match old(self)@.refusal(id, *pubkey, solution, now) {
                Some(e) => r == Result::<Challenge, RedemptionError>::Err(e) && final(self)@ == old(self)@,
                None => exists|c: Challenge, outcome: Result<(), String>|
                    c@ == old(self)@.spent(id, now) && #[trigger] save.ensures((&c,), outcome) && match outcome {
                        Ok(_) => r is Ok && r->Ok_0@ == c@ && final(self)@ == old(self)@.with_redeemed(id, now),
                        Err(cause) => r == Result::<Challenge, RedemptionError>::Err(
                            RedemptionError::NotRecorded(cause),
                        ) && final(self)@ == old(self)@,
                    },
            },
    {
        match get_challenge(&self.by_id, id) {
            None => Err(RedemptionError::Unknown),
            Some(entry) => {
                if entry.pubkey != pubkey.to_string() {
                    return Err(RedemptionError::WrongKey);
                }
                if entry.is_redeemed() {
                    return Err(RedemptionError::AlreadyRedeemed);
                }
                if entry.is_expired_at(now) {
                    return Err(RedemptionError::Expired);
                }
                if !entry.is_solved_by(solution) {
                    return Err(RedemptionError::Unsolved);
                }
                let mut redeemed = entry;
                redeemed.redeemed_at = Some(now.timestamp());
                let outcome = save(&redeemed);
                assert(redeemed@ == old(self)@.spent(id, now) && save.ensures((&redeemed,), outcome));
                match outcome {
                    Err(cause) => Err(RedemptionError::NotRecorded(cause)),
                    Ok(()) => {
                        insert_challenge(&mut self.by_id, id, redeemed.duplicate());
                        remove_outstanding(&mut self.outstanding, redeemed.pubkey.as_str());
                        Ok(redeemed)
                    },
                }
            },
        }
    }

    /// Drops what no longer matters.
    pub fn cleanup(&mut self, now: Timestamp)
        requires
            now.valid(),
        ensures
            final(self)@ == old(self)@.swept(now),
    {
        retain_challenges(&mut self.by_id, now.timestamp());
        retain_outstanding(&mut self.outstanding, &self.by_id);
    }

    /// The challenge that `pubkey` has outstanding, if any.
    pub fn outstanding_for(&self, pubkey: &PublicKey) -> (id: Option<Id>)
        ensures
            match id {
                Some(id) => self@.outstanding.contains_key(hex_text(pubkey.bytes())) && id
                    == self@.outstanding[hex_text(pubkey.bytes())],
                None => !self@.outstanding.contains_key(hex_text(pubkey.bytes())),
            },
    {
        get_outstanding(&self.outstanding, pubkey.to_string().as_str())
    }

    /// How many challenges the book holds.
    pub fn len(&self) -> (n: usize)
        ensures
            n == self@.by_id.dom().len(),
    {
        count_challenges(&self.by_id)
    }
}

/// A challenge that cannot be redeemed is turned away whatever it is offered.
pub proof fn lemma_spent_is_refused(b: BookView, id: Id, pubkey: PublicKey, solution: u64, now: Timestamp)
    requires
        !b.is_live(id),
    ensures
        b.refusal(id, pubkey, solution, now) is Some,
{
}

/// Once redeemed, a challenge cannot be redeemed again, whatever the book
/// goes through: other challenges issued and redeemed, and sweeps.
pub proof fn lemma_spent_stays_spent(b: BookView, id: Id, other: Id, c: ChallengeView, now: Timestamp)
    ensures
        !b.with_redeemed(id, now).is_live(id),
        !b.is_live(id) && c.id != id ==> !b.with_issued(c).is_live(id),
        !b.is_live(id) && b.by_id.contains_key(other) ==> !b.with_redeemed(other, now).is_live(id),
        !b.is_live(id) ==> !b.swept(now).is_live(id),
{
}

/// A restart does not bring a spent challenge back: what was kept under an
/// identifier as redeemed cannot be redeemed again.
pub proof fn lemma_spent_survives_restart(kept: Seq<ChallengeView>, target: U256, now: Timestamp, id: Id)
    requires
        forall|i: int| 0 <= i < kept.len() && (#[trigger] kept[i]).id == id ==> kept[i].redeemed_at is Some,
    ensures
        !restored(kept, target, now).is_live(id),
    decreases kept.len(),
{
    if kept.len() > 0 {
        let shorter = kept.drop_last();
        assert forall|i: int| 0 <= i < shorter.len() && (#[trigger] shorter[i]).id == id implies shorter[i].redeemed_at is Some by {
            assert(shorter[i] == kept[i]);
        }
        lemma_spent_survives_restart(shorter, target, now, id);
        assert(kept.last() == kept[kept.len() - 1]);
    }
}

/// A key has the challenge issued to it last outstanding, and the one it had
/// before is gone.
pub proof fn lemma_issuing_replaces(b: BookView, c: ChallengeView)
    ensures
        b.with_issued(c).outstanding[c.pubkey] == c.id,
        b.with_issued(c).by_id[c.id] == c,
        b.outstanding.contains_key(c.pubkey) && b.outstanding[c.pubkey] != c.id ==> !b.with_issued(
            c,
        ).by_id.contains_key(b.outstanding[c.pubkey]),
{
}

impl ChallengeView {
    /// Whether no part holds the sign that parts the text that is hashed.
    pub open spec fn parts_cleanly(self) -> bool {
        !self.server_nonce.contains(':') && !self.pubkey.contains(':') && !self.action.contains(':')
    }
}

/// An issued challenge's parts do not run into each other.
pub proof fn lemma_issued_parts_cleanly(id: Id, nonce: Seq<u8>, pubkey: PublicKey, target: U256, now: Timestamp)
    ensures
        issued(id, nonce, pubkey, target, now).parts_cleanly(),
{
    lemma_hex_has_no(nonce, ':');
    lemma_hex_has_no(pubkey.bytes(), ':');
    reveal_strlit("faucet");
    assert forall|i: int| 0 <= i < FAUCET_ACTION@.len() implies FAUCET_ACTION@[i] != ':' by {}
}

/// Five texts with signs between, grouped from the front or from the back.
proof fn lemma_regrouped(
    id: Seq<char>,
    nonce: Seq<char>,
    key: Seq<char>,
    action: Seq<char>,
    rest: Seq<char>,
    c: Seq<char>,
)
    ensures
        id + c + nonce + c + key + c + action + c + rest == id + c + (nonce + c + (key + c + (action + c + rest))),
{
    assert(id + c + nonce + c + key + c + action + c + rest =~= id + c + (nonce + c + (key + c + (action + c
        + rest))));
}

/// Texts that are the same and begin with parts of one length have the same
/// parts.
proof fn lemma_same_parts(a: Seq<char>, after_a: Seq<char>, b: Seq<char>, after_b: Seq<char>)
    requires
        a.len() == b.len(),
        a + after_a == b + after_b,
    ensures
        a == b,
        after_a == after_b,
{
    assert(a =~= (a + after_a).take(a.len() as int));
    assert(b =~= (b + after_b).take(b.len() as int));
    assert(after_a =~= (a + after_a).skip(a.len() as int));
    assert(after_b =~= (b + after_b).skip(b.len() as int));
}

/// An identifier is written in thirty-six characters.
proof fn lemma_uuid_text_len(id: Id)
    ensures
        uuid_text(id).len() == 36,
{
}

/// What is hashed binds everything in it: work for one challenge, key, action
/// or solution is the hash of a text that no other has.
pub proof fn lemma_preimage_binds(a: ChallengeView, b: ChallengeView, m: u64, n: u64)
    requires
        a.parts_cleanly(),
        b.parts_cleanly(),
        a.preimage(m) == b.preimage(n),
    ensures
        a.id == b.id,
        a.server_nonce == b.server_nonce,
        a.pubkey == b.pubkey,
        a.action == b.action,
        m == n,
{
    let c = seq![':'];
    let rest_a = dec(m as nat);
    let rest_b = dec(n as nat);
    let after_key_a = a.action + c + rest_a;
    let after_key_b = b.action + c + rest_b;
    let after_nonce_a = a.pubkey + c + after_key_a;
    let after_nonce_b = b.pubkey + c + after_key_b;
    let after_id_a = a.server_nonce + c + after_nonce_a;
    let after_id_b = b.server_nonce + c + after_nonce_b;
    lemma_regrouped(uuid_text(a.id), a.server_nonce, a.pubkey, a.action, rest_a, c);
    lemma_regrouped(uuid_text(b.id), b.server_nonce, b.pubkey, b.action, rest_b, c);
    lemma_uuid_text_len(a.id);
    lemma_uuid_text_len(b.id);
    lemma_same_parts(uuid_text(a.id) + c, after_id_a, uuid_text(b.id) + c, after_id_b);
    lemma_same_parts(uuid_text(a.id), c, uuid_text(b.id), c);
    lemma_uuid_text_is_injective(a.id, b.id);
    lemma_split_at(a.server_nonce, after_nonce_a, b.server_nonce, after_nonce_b, ':');
    lemma_split_at(a.pubkey, after_key_a, b.pubkey, after_key_b, ':');
    lemma_split_at(a.action, rest_a, b.action, rest_b, ':');
    lemma_dec_is_injective(m as nat, n as nat);
}

proof fn lemma_uuid_text_is_injective(a: Id, b: Id)
    requires
        uuid_text(a) == uuid_text(b),
    ensures
        a == b,
{
    let x = uuid_text(a);
    let y = uuid_text(b);
    let d = hex_text(be_bytes(a));
    let e = hex_text(be_bytes(b));
    assert(d =~= x.subrange(0, 8) + x.subrange(9, 13) + x.subrange(14, 18) + x.subrange(19, 23) + x.subrange(24, 36));
    assert(e =~= y.subrange(0, 8) + y.subrange(9, 13) + y.subrange(14, 18) + y.subrange(19, 23) + y.subrange(24, 36));
    lemma_hex_is_injective(be_bytes(a), be_bytes(b));
    lemma_be_bytes_value(a);
    lemma_be_bytes_value(b);
}

}
