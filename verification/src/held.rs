//! What the hub holds in concurrent maps: challenges, the challenge each key
//! has outstanding, and signatures that were seen.
use crate::faucet_pow::{Challenge, ChallengeView};
use crate::table::Duplicate;
use crate::types::{Id, Timestamp};
use dashmap::DashMap;
use vstd::prelude::*;

verus! {

/// A concurrent map of `dashmap`.
#[verifier::external_type_specification]
#[verifier::external_body]
#[verifier::reject_recursive_types(K)]
#[verifier::reject_recursive_types(V)]
#[verifier::reject_recursive_types(S)]
pub struct ExDashMap<K, V, S>(dashmap::DashMap<K, V, S>);

/// The challenges that a map holds, by their identifier.
pub uninterp spec fn challenges_in(map: DashMap<Id, Challenge>) -> Map<Id, ChallengeView>;

/// The identifier that a map holds for each key, which goes by its text.
pub uninterp spec fn outstanding_in(map: DashMap<String, Id>) -> Map<Seq<char>, Id>;

/// The signatures that a map holds, each with the instant it was seen.
pub uninterp spec fn signatures_in(map: DashMap<Vec<u8>, Timestamp>) -> Map<Seq<u8>, Timestamp>;

/// Calls `DashMap::new`: the map holds nothing.
#[verifier::external_body]
pub(crate) fn no_challenges() -> (fresh: DashMap<Id, Challenge>)
    ensures
        (challenges_in(fresh) == Map::<Id, ChallengeView>::empty()),
{
    DashMap::new()
}

/// Calls `DashMap::get`: a copy of the challenge held under `id`, if any.
#[verifier::external_body]
pub(crate) fn get_challenge(map: &DashMap<Id, Challenge>, id: Id) -> (c: Option<Challenge>)
    ensures
        match c {
            Some(c) => challenges_in(*map).contains_key(id) && c@ == challenges_in(*map)[id],
            None => !challenges_in(*map).contains_key(id),
        },
{
    map.get(&id).map(|entry| entry.value().duplicate())
}

/// Calls `DashMap::insert`: the challenge is held under `id`, in place of the
/// one held there before.
#[verifier::external_body]
pub(crate) fn insert_challenge(map: &mut DashMap<Id, Challenge>, id: Id, c: Challenge)
    ensures
        challenges_in(*final(map)) == challenges_in(*old(map)).insert(id, c@),
{
    map.insert(id, c);
}

/// Calls `DashMap::remove`: nothing is held under `id` any more.
#[verifier::external_body]
pub(crate) fn remove_challenge(map: &mut DashMap<Id, Challenge>, id: Id)
    ensures
        challenges_in(*final(map)) == challenges_in(*old(map)).remove(id),
{
    map.remove(&id);
}

/// Calls `DashMap::retain`: what stays are the challenges that still matter at
/// the second `ts`.
#[verifier::external_body]
pub(crate) fn retain_challenges(map: &mut DashMap<Id, Challenge>, ts: i64)
    ensures
        challenges_in(*final(map)) == challenges_in(*old(map)).restrict(
            Set::new(|id: Id| challenges_in(*old(map)).contains_key(id) && challenges_in(*old(map))[id].held_at(ts as int)),
        ),
{
    map.retain(|_, c| c.is_held_at(ts));
}

/// Calls `DashMap::len`: how many challenges the map holds.
#[verifier::external_body]
pub(crate) fn count_challenges(map: &DashMap<Id, Challenge>) -> (n: usize)
    ensures
        n == challenges_in(*map).dom().len(),
{
    map.len()
}

/// Calls `DashMap::new`: the map holds nothing.
#[verifier::external_body]
pub(crate) fn none_outstanding() -> (fresh: DashMap<String, Id>)
    ensures
        (outstanding_in(fresh) == Map::<Seq<char>, Id>::empty()),
{
    DashMap::new()
}

/// Calls `DashMap::get`: the identifier held for `key`, if any.
#[verifier::external_body]
pub(crate) fn get_outstanding(map: &DashMap<String, Id>, key: &str) -> (id: Option<Id>)
    ensures
        match id {
            Some(id) => outstanding_in(*map).contains_key(key@) && id == outstanding_in(*map)[key@],
            None => !outstanding_in(*map).contains_key(key@),
        },
{
    map.get(key).map(|entry| *entry.value())
}

/// Calls `DashMap::insert`: the identifier is held for `key`, in place of the
/// one held before.
#[verifier::external_body]
pub(crate) fn insert_outstanding(map: &mut DashMap<String, Id>, key: String, id: Id)
    ensures
        outstanding_in(*final(map)) == outstanding_in(*old(map)).insert(key@, id),
{
    map.insert(key, id);
}

/// Calls `DashMap::remove`: nothing is held for `key` any more.
#[verifier::external_body]
pub(crate) fn remove_outstanding(map: &mut DashMap<String, Id>, key: &str)
    ensures
        outstanding_in(*final(map)) == outstanding_in(*old(map)).remove(key@),
{
    map.remove(key);
}

/// Whether a challenge is held under `id`.
pub(crate) fn is_held(map: &DashMap<Id, Challenge>, id: Id) -> (r: bool)
    ensures
        r == challenges_in(*map).contains_key(id),
{
    get_challenge(map, id).is_some()
}

/// Calls `DashMap::retain`: what stays are the identifiers under which a
/// challenge is held.
#[verifier::external_body]
pub(crate) fn retain_outstanding(map: &mut DashMap<String, Id>, held: &DashMap<Id, Challenge>)
    ensures
        outstanding_in(*final(map)) == outstanding_in(*old(map)).restrict(
            Set::new(
                |key: Seq<char>|
                    outstanding_in(*old(map)).contains_key(key) && challenges_in(*held).contains_key(
                        outstanding_in(*old(map))[key],
                    ),
            ),
        ),
{
    map.retain(|_, id| is_held(held, *id));
}

/// Calls `DashMap::new`: the map holds nothing.
#[verifier::external_body]
pub(crate) fn no_signatures() -> (fresh: DashMap<Vec<u8>, Timestamp>)
    ensures
        (signatures_in(fresh) == Map::<Seq<u8>, Timestamp>::empty()),
{
    DashMap::new()
}

/// Calls `DashMap::contains_key`: whether the signature is held.
#[verifier::external_body]
pub(crate) fn has_signature(map: &DashMap<Vec<u8>, Timestamp>, signature: &[u8]) -> (r: bool)
    ensures
        r == signatures_in(*map).contains_key(signature@),
{
    map.contains_key(signature)
}

/// Calls `DashMap::insert`: the signature is held as seen at `at`. The instant
/// it was held with before comes back, if it was held.
#[verifier::external_body]
pub(crate) fn insert_signature(map: &mut DashMap<Vec<u8>, Timestamp>, signature: Vec<u8>, at: Timestamp) -> (before:
    Option<Timestamp>)
    ensures
        signatures_in(*final(map)) == signatures_in(*old(map)).insert(signature@, at),
        before == (if signatures_in(*old(map)).contains_key(signature@) {
            Some(signatures_in(*old(map))[signature@])
        } else {
            Option::<Timestamp>::None
        }),
{
    map.insert(signature, at)
}

/// Whether `at` lies after `cutoff`.
pub(crate) fn is_after(at: Timestamp, cutoff: Timestamp) -> (r: bool)
    ensures
        r == (at.nanos > cutoff.nanos),
{
    at.nanos > cutoff.nanos
}

/// Calls `DashMap::retain`: what stays are the signatures seen after `cutoff`.
#[verifier::external_body]
pub(crate) fn retain_signatures(map: &mut DashMap<Vec<u8>, Timestamp>, cutoff: Timestamp)
    ensures
        signatures_in(*final(map)) == signatures_in(*old(map)).restrict(
            Set::new(
                |s: Seq<u8>|
                    signatures_in(*old(map)).contains_key(s) && signatures_in(*old(map))[s].nanos > cutoff.nanos,
            ),
        ),
{
    map.retain(|_, at| is_after(*at, cutoff));
}

/// Calls `DashMap::len`: how many signatures the map holds.
#[verifier::external_body]
pub(crate) fn count_signatures(map: &DashMap<Vec<u8>, Timestamp>) -> (n: usize)
    ensures
        n == signatures_in(*map).dom().len(),
{
    map.len()
}

}
