//! The clock and fresh identifiers.
use crate::text::hex_text;
use crate::types::{be_bytes, Id, Timestamp, MAX_SECOND, MIN_SECOND, NANOS_PER_SECOND};
use vstd::prelude::*;

verus! {

/// Calls `chrono::Utc::now`: the system clock in whole seconds since the
/// start of 1970 and the nanoseconds on top. On a clock set before 1970, or
/// past the calendar, the call panics, so neither is ever returned.
#[verifier::external_body]
fn clock_reading() -> (reading: (i64, u32))
    ensures
        0 <= reading.0 <= MAX_SECOND,
        reading.1 < NANOS_PER_SECOND,
{
    let now = chrono::Utc::now();
    (now.timestamp(), now.timestamp_subsec_nanos())
}

/// The present instant.
pub fn now() -> (t: Timestamp)
    ensures
        t.valid(),
        t.nanos >= 0,
{
    let (seconds, nanos) = clock_reading();
    Timestamp { nanos: seconds as i128 * NANOS_PER_SECOND + nanos as i128 }
}

/// Whether an identifier is marked as a random UUID.
pub open spec fn is_random_uuid(id: Id) -> bool {
    &&& (id as int / 0x1000_0000_0000_0000_0000) % 16 == 4
    &&& (id as int / 0x4000_0000_0000_0000) % 4 == 2
}

/// Calls `uuid::Uuid::new_v4`: random but for the bits that mark a random
/// UUID. Which identifier comes back is left to chance.
#[verifier::external_body]
pub(crate) fn fresh_id() -> (id: Id)
    ensures
        is_random_uuid(id),
{
    uuid::Uuid::new_v4().as_u128()
}

/// An identifier as a UUID is written: thirty-two digits in groups of eight,
/// four, four, four and twelve, with a hyphen between.
pub open spec fn uuid_text(id: Id) -> Seq<char> {
    let d = hex_text(be_bytes(id));
    d.subrange(0, 8) + seq!['-'] + d.subrange(8, 12) + seq!['-'] + d.subrange(12, 16) + seq!['-'] + d.subrange(16, 20)
        + seq!['-'] + d.subrange(20, 32)
}

/// Calls `to_string` of `uuid::Uuid`: lower-case digits, with the hyphens.
#[verifier::external_body]
pub(crate) fn uuid_to_string(id: Id) -> (text: String)
    ensures
        text@ == uuid_text(id),
{
    uuid::Uuid::from_u128(id).to_string()
}

/// An instant as RFC 3339 writes it, in UTC: the second since the start of
/// 1970, and the nanoseconds on top.
pub uninterp spec fn rfc3339_text(second: i64, nanos: u32) -> Seq<char>;

/// Calls `to_rfc3339` of `chrono::DateTime<Utc>`. The text depends on the
/// instant alone.
#[verifier::external_body]
fn rfc3339(second: i64, nanos: u32) -> (text: String)
    requires
        MIN_SECOND <= second <= MAX_SECOND,
        nanos < NANOS_PER_SECOND,
    ensures
        text@ == rfc3339_text(second, nanos),
{
    let at = chrono::DateTime::<chrono::Utc>::from_timestamp(second, nanos).expect("inside the calendar");
    at.to_rfc3339()
}

impl Timestamp {
    /// The instant as RFC 3339 writes it.
    pub open spec fn text(self) -> Seq<char> {
        rfc3339_text(self.second() as i64, (self.nanos as int % NANOS_PER_SECOND as int) as u32)
    }

    /// The instant as RFC 3339 writes it.
    pub fn to_rfc3339(&self) -> (text: String)
        requires
            self.valid(),
        ensures
            text@ == self.text(),
    {
        let second = self.timestamp();
        let nanos: i128 = self.nanos - second as i128 * NANOS_PER_SECOND;
        rfc3339(second, nanos as u32)
    }
}

}
