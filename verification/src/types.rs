//! The plain values the hub's rules speak of: keys, hashes, instants and
//! wide integers.
use crate::table::{Duplicate, Key};
use crate::text::{hex_encode, hex_text};
use vstd::prelude::*;

verus! {

/// A 128-bit identifier, as a UUID's value.
pub type Id = u128;

/// The `i`-th byte of `n`, counted from the most significant.
pub open spec fn byte_of(n: u128, i: int) -> u8 {
    ((n as int / pow256(15 - i)) % 256) as u8
}

/// Two hundred and fifty-six to the power `e`.
pub open spec fn pow256(e: int) -> int
    decreases e,
{
    if e <= 0 {
        1
    } else {
        256 * pow256(e - 1)
    }
}

/// The sixteen bytes of `n`, the most significant first.
pub open spec fn be_bytes(n: u128) -> Seq<u8> {
    Seq::new(16, |i: int| byte_of(n, i))
}

/// Appends the sixteen bytes of `n` to `out`, the most significant first.
pub fn push_be_bytes(out: &mut Vec<u8>, n: u128)
    ensures
        final(out)@ == old(out)@ + be_bytes(n),
{
    let mut place: u128 = 0x0100_0000_0000_0000_0000_0000_0000_0000;
    let mut i: usize = 0;
    proof {
        reveal_with_fuel(pow256, 16);
        assert(pow256(15) == place);
    }
    while i < 16
        invariant
            i <= 16,
            i < 16 ==> place == pow256(15 - i),
            out@ == old(out)@ + be_bytes(n).take(i as int),
        decreases 16 - i,
    {
        proof {
            lemma_pow256_positive(15 - i);
        }
        let byte: u128 = (n / place) % 256;
        out.push(byte as u8);
        place = place / 256;
        i += 1;
        assert(be_bytes(n).take(i as int) =~= be_bytes(n).take(i - 1).push(be_bytes(n)[i - 1]));
        assert(out@ =~= old(out)@ + be_bytes(n).take(i as int));
    }
    assert(be_bytes(n).take(16) =~= be_bytes(n));
}

/// The number that `bytes` spell, the most significant first.
pub open spec fn be_value(bytes: Seq<u8>) -> nat
    decreases bytes.len(),
{
    if bytes.len() == 0 {
        0
    } else {
        be_value(bytes.drop_last()) * 256 + bytes.last() as nat
    }
}

/// Bytes spell less than the power of their number.
pub proof fn lemma_be_value_bound(bytes: Seq<u8>)
    ensures
        be_value(bytes) < pow256(bytes.len() as int),
    decreases bytes.len(),
{
    if bytes.len() > 0 {
        lemma_be_value_bound(bytes.drop_last());
    }
}

/// The number that sixteen bytes from `from` on spell.
pub fn read_be(bytes: &[u8], from: usize) -> (n: u128)
    requires
        from + 16 <= bytes@.len(),
    ensures
        n == be_value(bytes@.skip(from as int).take(16)),
{
    let ghost part = bytes@.skip(from as int).take(16);
    let len: usize = bytes.len();
    let mut n: u128 = 0;
    let mut i: usize = 0;
    while i < 16
        invariant
            i <= 16,
            from + 16 <= len,
            len == bytes@.len(),
            part == bytes@.skip(from as int).take(16),
            n == be_value(part.take(i as int)),
        decreases 16 - i,
    {
        proof {
            assert(part.take(i + 1).drop_last() =~= part.take(i as int));
            lemma_be_value_bound(part.take(i + 1));
            lemma_pow256_to_word(i + 1);
        }
        n = n * 256 + bytes[from + i] as u128;
        i += 1;
    }
    assert(part.take(16) =~= part);
    n
}

/// Bytes followed by others spell the former moved up by the power of the
/// latters' number, and the latter.
pub proof fn lemma_be_value_joined(a: Seq<u8>, b: Seq<u8>)
    ensures
        be_value(a + b) == be_value(a) * pow256(b.len() as int) + be_value(b),
    decreases b.len(),
{
    if b.len() == 0 {
        assert(a + b =~= a);
    } else {
        lemma_be_value_joined(a, b.drop_last());
        assert((a + b).drop_last() =~= a + b.drop_last());
        let v = be_value(a) as int;
        let p = pow256(b.len() - 1);
        let w = be_value(b.drop_last()) as int;
        assert((v * p + w) * 256 == v * (256 * p) + w * 256) by (nonlinear_arith);
    }
}

/// The bytes of a number spell it.
pub proof fn lemma_be_bytes_value(n: u128)
    ensures
        be_value(be_bytes(n)) == n,
{
    lemma_be_bytes_prefix(n, 16);
    assert(be_bytes(n).take(16) =~= be_bytes(n));
}

proof fn lemma_be_bytes_prefix(n: u128, k: int)
    requires
        0 <= k <= 16,
    ensures
        be_value(be_bytes(n).take(k)) == n as int / pow256(16 - k),
    decreases k,
{
    lemma_pow256_positive(16 - k);
    if k == 0 {
        lemma_pow256_to_word(16);
        reveal_with_fuel(pow256, 17);
        assert(n as int / pow256(16) == 0) by (nonlinear_arith)
            requires
                0 <= n < pow256(16),
        ;
    } else {
        lemma_be_bytes_prefix(n, k - 1);
        assert(be_bytes(n).take(k).drop_last() =~= be_bytes(n).take(k - 1));
        let p = pow256(16 - k);
        vstd::arithmetic::div_mod::lemma_div_denominator(n as int, p, 256);
        assert(p * 256 == pow256(17 - k)) by (nonlinear_arith)
            requires
                pow256(17 - k) == 256 * p,
        ;
        vstd::arithmetic::div_mod::lemma_fundamental_div_mod(n as int / p, 256);
        assert(be_bytes(n).take(k).last() == byte_of(n, k - 1));
    }
}

proof fn lemma_pow256_to_word(e: int)
    requires
        0 <= e <= 16,
    ensures
        pow256(e) <= 0x1_0000_0000_0000_0000_0000_0000_0000_0000int,
    decreases 16 - e,
{
    if e < 16 {
        lemma_pow256_to_word(e + 1);
        lemma_pow256_positive(e);
    } else {
        reveal_with_fuel(pow256, 17);
    }
}

proof fn lemma_pow256_positive(e: int)
    ensures
        pow256(e) >= 1,
    decreases e,
{
    if e > 0 {
        lemma_pow256_positive(e - 1);
    }
}

/// A point of the curve in compressed form: the byte for the parity of its
/// second coordinate, and the first coordinate in two halves.
#[derive(Debug, Clone, Copy, PartialEq, Eq, PartialOrd, Ord, Hash, Structural)]
pub struct PublicKey {
    pub tag: u8,
    pub hi: u128,
    pub lo: u128,
}

impl View for PublicKey {
    type V = PublicKey;

    open spec fn view(&self) -> PublicKey {
        *self
    }
}

impl PublicKey {
    /// The thirty-three bytes of the compressed form.
    pub open spec fn bytes(self) -> Seq<u8> {
        seq![self.tag] + be_bytes(self.hi) + be_bytes(self.lo)
    }

    /// The compressed form in hexadecimal: the name a key goes by everywhere.
    pub fn to_string(&self) -> (text: String)
        ensures
            text@ == hex_text(self.bytes()),
    {
        let mut bytes: Vec<u8> = Vec::new();
        bytes.push(self.tag);
        push_be_bytes(&mut bytes, self.hi);
        push_be_bytes(&mut bytes, self.lo);
        assert(bytes@ =~= self.bytes());
        hex_encode(bytes.as_slice())
    }
}

impl Key for PublicKey {
    open spec fn rank(self) -> int {
        self.tag * 0x1_0000_0000_0000_0000_0000_0000_0000_0000_0000_0000_0000_0000_0000_0000_0000_0000int + self.hi
            * 0x1_0000_0000_0000_0000_0000_0000_0000_0000int + self.lo
    }

    proof fn rank_is_injective(a: Self, b: Self) {
    }

    fn precedes(&self, other: &Self) -> (r: bool) {
        if self.tag != other.tag {
            self.tag < other.tag
        } else if self.hi != other.hi {
            self.hi < other.hi
        } else {
            self.lo < other.lo
        }
    }
}

/// The numbers of keys are below 2 to the power of 264.
proof fn lemma_key_rank_bound(k: PublicKey)
    ensures
        0 <= k.rank() < 0x1_0000_0000_0000_0000_0000_0000_0000_0000_0000_0000_0000_0000_0000_0000_0000_0000_00int,
{
}

/// A number and what stands before it, which fix each other.
proof fn lemma_digits(m: int, i: int, n: int, j: int)
    requires
        0 <= i < 0x1_0000_0000_0000_0000_0000_0000_0000_0000_0000_0000_0000_0000_0000_0000_0000_0000_00int,
        0 <= j < 0x1_0000_0000_0000_0000_0000_0000_0000_0000_0000_0000_0000_0000_0000_0000_0000_0000_00int,
    ensures
        m * 0x1_0000_0000_0000_0000_0000_0000_0000_0000_0000_0000_0000_0000_0000_0000_0000_0000_00int + i == n
            * 0x1_0000_0000_0000_0000_0000_0000_0000_0000_0000_0000_0000_0000_0000_0000_0000_0000_00int + j
            ==> m == n && i == j,
{
}

/// One recipient of one task's payout.
#[derive(Debug, Clone, Copy, PartialEq, Eq, PartialOrd, Ord, Hash, Structural)]
pub struct PayoutKey {
    pub task_id: Id,
    pub recipient: PublicKey,
}

impl Key for PayoutKey {
    open spec fn rank(self) -> int {
        self.task_id
            * 0x1_0000_0000_0000_0000_0000_0000_0000_0000_0000_0000_0000_0000_0000_0000_0000_0000_00int
            + self.recipient.rank()
    }

    proof fn rank_is_injective(a: Self, b: Self) {
        lemma_key_rank_bound(a.recipient);
        lemma_key_rank_bound(b.recipient);
        lemma_digits(a.task_id as int, a.recipient.rank(), b.task_id as int, b.recipient.rank());
        PublicKey::rank_is_injective(a.recipient, b.recipient);
    }

    fn precedes(&self, other: &Self) -> (r: bool) {
        if self.task_id != other.task_id {
            self.task_id < other.task_id
        } else {
            self.recipient.precedes(&other.recipient)
        }
    }
}

/// A private key: a scalar of the curve in two halves, the most significant
/// first.
#[derive(Clone, Copy, PartialEq, Eq, Structural)]
pub struct PrivateKey {
    pub hi: u128,
    pub lo: u128,
}

/// A SHA-256 digest, in two halves, the first byte the most significant.
#[derive(Debug, Clone, Copy, PartialEq, Eq, PartialOrd, Ord, Hash, Structural)]
pub struct Digest {
    pub hi: u128,
    pub lo: u128,
}

/// An instant: nanoseconds since the start of 1970, in UTC.
#[derive(Debug, Clone, Copy, PartialEq, Eq, PartialOrd, Ord, Hash, Structural)]
pub struct Timestamp {
    pub nanos: i128,
}

/// Nanoseconds in a second.
pub const NANOS_PER_SECOND: i128 = 1_000_000_000;

/// Nanoseconds in a millisecond.
pub const NANOS_PER_MILLI: i128 = 1_000_000;

/// Nanoseconds in a minute.
pub const NANOS_PER_MINUTE: i128 = 60_000_000_000;

/// The first second of the calendar, in the year -262143.
pub const MIN_SECOND: i128 = -8_334_601_228_800;

/// The last second of the calendar, in the year 262142.
pub const MAX_SECOND: i128 = 8_210_266_876_799;

/// Whether a count of nanoseconds falls inside the calendar.
pub open spec fn in_calendar(nanos: int) -> bool {
    MIN_SECOND * NANOS_PER_SECOND <= nanos < (MAX_SECOND + 1) * NANOS_PER_SECOND
}

impl Timestamp {
    /// Whether the instant falls inside the calendar.
    pub open spec fn valid(self) -> bool {
        in_calendar(self.nanos as int)
    }

    /// Whether the instant falls inside the calendar.
    pub fn is_valid(&self) -> (r: bool)
        ensures
            r == self.valid(),
    {
        MIN_SECOND * NANOS_PER_SECOND <= self.nanos && self.nanos < (MAX_SECOND + 1) * NANOS_PER_SECOND
    }

    /// Whole seconds since the start of 1970, rounded down.
    pub open spec fn second(self) -> int {
        self.nanos as int / NANOS_PER_SECOND as int
    }

    /// Whole milliseconds since the start of 1970, rounded down.
    pub open spec fn milli(self) -> int {
        self.nanos as int / NANOS_PER_MILLI as int
    }

    /// The second that the instant falls in.
    pub fn timestamp(&self) -> (s: i64)
        requires
            self.valid(),
        ensures
            s == self.second(),
    {
        floor_div(self.nanos, NANOS_PER_SECOND) as i64
    }

    /// The millisecond that the instant falls in.
    pub fn timestamp_millis(&self) -> (ms: i64)
        requires
            self.valid(),
        ensures
            ms == self.milli(),
    {
        floor_div(self.nanos, NANOS_PER_MILLI) as i64
    }

    /// The instant as a number that is never negative, in the same order.
    pub fn sort_word(&self) -> (w: u128)
        ensures
            w == self.nanos + 0x8000_0000_0000_0000_0000_0000_0000_0000int,
    {
        if self.nanos >= 0 {
            self.nanos as u128 + 0x8000_0000_0000_0000_0000_0000_0000_0000u128
        } else {
            (self.nanos + i128::MAX + 1) as u128
        }
    }

    /// The instant `nanos` nanoseconds later; past the end of the calendar,
    /// its last instant, and before its beginning, its first.
    pub open spec fn later(self, nanos: int) -> Timestamp {
        let at = self.nanos + nanos;
        if at < MIN_SECOND * NANOS_PER_SECOND {
            Timestamp { nanos: (MIN_SECOND * NANOS_PER_SECOND) as i128 }
        } else if at >= (MAX_SECOND + 1) * NANOS_PER_SECOND {
            Timestamp { nanos: ((MAX_SECOND + 1) * NANOS_PER_SECOND - 1) as i128 }
        } else {
            Timestamp { nanos: at as i128 }
        }
    }

    fn moved(&self, nanos: i128) -> (t: Timestamp)
        requires
            -0x1000_0000_0000_0000_0000_0000_0000int <= nanos <= 0x1000_0000_0000_0000_0000_0000_0000int,
        ensures
            t == self.later(nanos as int),
    {
        let first: i128 = MIN_SECOND * NANOS_PER_SECOND;
        let last: i128 = (MAX_SECOND + 1) * NANOS_PER_SECOND - 1;
        if nanos >= 0 {
            if self.nanos > last - nanos {
                return Timestamp { nanos: last };
            }
        } else if self.nanos < first - nanos {
            return Timestamp { nanos: first };
        }
        let at: i128 = self.nanos + nanos;
        if at < first {
            Timestamp { nanos: first }
        } else if at > last {
            Timestamp { nanos: last }
        } else {
            Timestamp { nanos: at }
        }
    }

    /// The instant `seconds` later.
    pub fn plus_seconds(&self, seconds: i64) -> (t: Timestamp)
        ensures
            t == self.later(seconds * NANOS_PER_SECOND),
    {
        self.moved(seconds as i128 * NANOS_PER_SECOND)
    }

    /// The instant `minutes` later.
    pub fn plus_minutes(&self, minutes: i64) -> (t: Timestamp)
        ensures
            t == self.later(minutes * NANOS_PER_MINUTE),
    {
        self.moved(minutes as i128 * NANOS_PER_MINUTE)
    }
}

/// The quotient of `n` by `d`, rounded down.
pub(crate) fn floor_div(n: i128, d: i128) -> (q: i128)
    requires
        1 < d,
    ensures
        q == n as int / d as int,
{
    if n >= 0 {
        n / d
    } else {
        let up: i128 = -1 - n;
        let k: i128 = up / d;
        proof {
            lemma_floor_below(n as int, d as int);
            vstd::arithmetic::div_mod::lemma_div_nonincreasing(up as int, d as int);
        }
        -1 - k
    }
}

proof fn lemma_floor_below(n: int, d: int)
    by (nonlinear_arith)
    requires
        0 < d,
    ensures
        n / d == -1 - (-1 - n) / d,
{
}

impl View for Digest {
    type V = Digest;

    open spec fn view(&self) -> Digest {
        *self
    }
}

impl View for Timestamp {
    type V = Timestamp;

    open spec fn view(&self) -> Timestamp {
        *self
    }
}

impl Duplicate for PublicKey {
    fn duplicate(&self) -> (copy: Self) {
        *self
    }
}

}
