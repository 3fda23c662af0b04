//! What somebody who signs a request can rely on.
use crate::auth::{
    answered, forgotten_until, remembered, row_matters, started, within_drift, AuthError, GuardView, VerifyError,
};
use crate::text::{decoded_hex, digit_char, hex_text, unhex, HexError};
use crate::types::{in_calendar, PublicKey, Timestamp};
use vstd::prelude::*;

verus! {

/// A request may be dated two minutes off the clock, either way, and no more.
pub proof fn lemma_two_minutes_of_drift(stamped: Timestamp, now: Timestamp)
    ensures
        within_drift(stamped, now) <==> now.nanos - stamped.nanos <= 120_000_000_000 && stamped.nanos - now.nanos
            <= 120_000_000_000,
{
}

/// Whoever is let in has signed: the key is the one that the signature was found
/// to be of, at that instant, with a signature that was not used before; and the
/// key's quota allowed it. The signature is used from then on.
pub proof fn lemma_who_is_let_in<
    Q,
    V: FnOnce(Timestamp) -> Result<PublicKey, AuthError>,
    C: FnOnce(&PublicKey) -> Result<(), Q>,
    S: FnOnce(&[u8], i64) -> Result<(), String>,
>(
    before: GuardView,
    after: GuardView,
    signature: Seq<u8>,
    now: Timestamp,
    verify: V,
    charge: C,
    save: S,
    r: Result<PublicKey, VerifyError<Q>>,
)
    requires
        answered(before, after, signature, now, verify, charge, save, r),
    ensures
        r is Ok ==> {
            &&& verify.ensures((now,), Result::<PublicKey, AuthError>::Ok(r->Ok_0))
            &&& exists|charged: Result<(), Q>| #[trigger] charge.ensures((&r->Ok_0,), charged) && charged is Ok
            &&& !before.seen.contains_key(unhex(signature))
            &&& after.seen == before.seen.insert(unhex(signature), now)
            &&& before.accepting_from is Some ==> before.accepting_from->0.nanos <= now.nanos
        },
        r matches Err(VerifyError::Quota(q)) ==> after == before,
        after.seen != before.seen ==> after.seen == before.seen.insert(unhex(signature), now),
        after.accepting_from == before.accepting_from,
{
}

/// A guard that knows nothing from before its start lets nobody in for four
/// minutes, and from then on waits no longer.
pub proof fn lemma_start_takes_four_minutes(at: Timestamp, now: Timestamp)
    requires
        in_calendar(at.nanos + 240_000_000_000),
    ensures
        started(at).refuses(now) <==> now.nanos < at.nanos + 240_000_000_000,
        started(at).seen.dom() == Set::<Seq<u8>>::empty(),
{
    assert(started(at).seen.dom() =~= Set::<Seq<u8>>::empty());
}

/// A signature is remembered for four minutes and a second: a sweep forgets exactly
/// those that were used longer ago.
pub proof fn lemma_what_is_forgotten(guard: GuardView, now: Timestamp, signature: Seq<u8>)
    requires
        in_calendar(now.nanos - 241_000_000_000),
    ensures
        forgotten_until(now).nanos == now.nanos - 241_000_000_000,
        guard.swept(now).seen.contains_key(signature) <==> guard.seen.contains_key(signature)
            && guard.seen[signature].nanos > now.nanos - 241_000_000_000,
        guard.swept(now).seen.contains_key(signature) ==> guard.swept(now).seen[signature] == guard.seen[signature],
        guard.swept(now).accepting_from == guard.accepting_from,
{
}

/// What is read back is what was kept and is not to be forgotten.
pub proof fn lemma_what_is_read_back(rows: Seq<(Seq<u8>, i64)>, now: Timestamp, signature: Seq<u8>)
    requires
        now.valid(),
        in_calendar(now.nanos - 241_000_000_000),
        forall|i: int| 0 <= i < rows.len() ==> -8_334_601_228_800 <= (#[trigger] rows[i]).1 <= 8_210_266_876_799,
    ensures
        remembered(rows, now).contains_key(signature) <==> exists|i: int|
            0 <= i < rows.len() && (#[trigger] rows[i]).0 == signature && rows[i].1 > now.nanos as int / 1_000_000_000
                - 241,
    decreases rows.len(),
{
    assert(forgotten_until(now).second() == now.nanos as int / 1_000_000_000 - 241);
    if rows.len() > 0 {
        let shorter = rows.drop_last();
        let last = rows.len() - 1;
        assert forall|i: int| 0 <= i < shorter.len() implies -8_334_601_228_800 <= (#[trigger] shorter[i]).1
            <= 8_210_266_876_799 by {
            assert(shorter[i] == rows[i]);
        }
        lemma_what_is_read_back(shorter, now, signature);
        assert(row_matters(rows[last], now) <==> rows[last].1 > now.nanos as int / 1_000_000_000 - 241);
        if remembered(shorter, now).contains_key(signature) {
            let i = choose|i: int|
                0 <= i < shorter.len() && (#[trigger] shorter[i]).0 == signature && shorter[i].1 > now.nanos as int
                    / 1_000_000_000 - 241;
            assert(rows[i] == shorter[i]);
        }
        if exists|i: int|
            0 <= i < rows.len() && (#[trigger] rows[i]).0 == signature && rows[i].1 > now.nanos as int / 1_000_000_000
                - 241 {
            let i = choose|i: int|
                0 <= i < rows.len() && (#[trigger] rows[i]).0 == signature && rows[i].1 > now.nanos as int
                    / 1_000_000_000 - 241;
            if i < last {
                assert(shorter[i] == rows[i]);
            }
        }
    }
}

/// A replay counts as one turned away, a claim as one claimed or as one that could
/// not be kept, and neither as anything else.
pub proof fn lemma_what_is_counted(guard: GuardView)
    requires
        guard.counters.signatures_rejected < u64::MAX,
        guard.counters.signatures_claimed < u64::MAX,
        guard.counters.durable_write_failures < u64::MAX,
    ensures
        ({
            let (was, turned, kept, lost) = (
                guard.counters,
                guard.rejecting().counters,
                guard.counting(true).counters,
                guard.counting(false).counters,
            );
            &&& turned.signatures_rejected == was.signatures_rejected + 1
            &&& turned.signatures_claimed == was.signatures_claimed
            &&& turned.durable_write_failures == was.durable_write_failures
            &&& kept.signatures_claimed == was.signatures_claimed + 1
            &&& kept.signatures_rejected == was.signatures_rejected
            &&& kept.durable_write_failures == was.durable_write_failures
            &&& lost.durable_write_failures == was.durable_write_failures + 1
            &&& lost.signatures_claimed == was.signatures_claimed
            &&& lost.signatures_rejected == was.signatures_rejected
            &&& guard.rejecting().seen == guard.seen
            &&& guard.counting(true).seen == guard.seen
            &&& guard.counting(false).seen == guard.seen
        }),
{
}

/// What a sweep forgets is counted.
pub proof fn lemma_forgotten_are_counted(guard: GuardView, now: Timestamp)
    requires
        guard.seen.dom().finite(),
        guard.counters.signatures_evicted + guard.seen.dom().len() <= u64::MAX,
    ensures
        guard.swept(now).counters.signatures_evicted == guard.counters.signatures_evicted + guard.seen.dom().len()
            - guard.swept(now).seen.dom().len(),
{
    let kept = guard.swept(now).seen.dom();
    assert(kept.subset_of(guard.seen.dom()));
    vstd::set_lib::lemma_len_subset(kept, guard.seen.dom());
}

/// The digit of a number below sixteen: `0` to `9`, and on from `a`.
pub proof fn lemma_digits(d: int)
    ensures
        0 <= d < 10 ==> digit_char(d) as int == '0' as int + d,
        10 <= d < 16 ==> digit_char(d) as int == 'a' as int + d - 10,
{
}

/// Bytes in hexadecimal have the high half of each in front; and read back, whatever
/// the case of their digits, they are the bytes.
pub proof fn lemma_hexadecimal(bytes: Seq<u8>, digits: Seq<u8>, i: int)
    requires
        0 <= i < bytes.len(),
        digits.len() == 2 * bytes.len(),
    ensures
        hex_text(bytes).len() == 2 * bytes.len(),
        hex_text(bytes)[2 * i] == digit_char(bytes[i] as int / 16),
        hex_text(bytes)[2 * i + 1] == digit_char(bytes[i] as int % 16),
        unhex(digits).len() == bytes.len(),
        digits[2 * i] as int == digit_char(bytes[i] as int / 16) as int && digits[2 * i + 1] as int == digit_char(
            bytes[i] as int % 16,
        ) as int ==> unhex(digits)[i] == bytes[i],
{
    let (high, low) = (bytes[i] as int / 16, bytes[i] as int % 16);
    lemma_digits(high);
    lemma_digits(low);
    assert((2 * i) / 2 == i && (2 * i + 1) / 2 == i && (2 * i) % 2 == 0 && (2 * i + 1) % 2 == 1);
}

/// A text reads as bytes exactly if it has an even number of characters and each is
/// a digit, and what it is worth is then told by its pairs.
pub proof fn lemma_what_reads_as_bytes(text: Seq<u8>, r: Result<Seq<u8>, HexError>)
    requires
        decoded_hex(text, r),
    ensures
        r is Ok <==> text.len() % 2 == 0 && forall|i: int|
            0 <= i < text.len() ==> {
                ||| '0' as int <= #[trigger] text[i] <= '9' as int
                ||| 'a' as int <= text[i] <= 'f' as int
                ||| 'A' as int <= text[i] <= 'F' as int
            },
        r is Ok ==> r->Ok_0 == unhex(text) && 2 * r->Ok_0.len() == text.len(),
        text.len() % 2 != 0 <==> r is Err && r->Err_0 is OddLength,
{
}

}
