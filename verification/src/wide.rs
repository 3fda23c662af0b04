//! Numbers of 256 bits.
use crate::text::{hex_encode, hex_text};
use crate::types::{be_bytes, be_value, lemma_be_bytes_value, lemma_be_value_joined, pow256, push_be_bytes, read_be};
use vstd::arithmetic::div_mod::{
    lemma_div_is_ordered_by_denominator, lemma_fundamental_div_mod, lemma_fundamental_div_mod_converse,
};
use vstd::prelude::*;

verus! {

/// Two to the sixty-fourth power.
pub const LIMB: u128 = 0x1_0000_0000_0000_0000;

/// Two to the hundred and twenty-eighth power.
pub open spec fn word() -> int {
    0x1_0000_0000_0000_0000_0000_0000_0000_0000int
}

/// The largest number of 256 bits.
pub open spec fn u256_max() -> int {
    word() * word() - 1
}

/// A number of 256 bits, in two halves.
#[derive(Debug, Clone, Copy, PartialEq, Eq, PartialOrd, Ord, Hash, Structural)]
pub struct U256 {
    pub hi: u128,
    pub lo: u128,
}

impl View for U256 {
    type V = U256;

    open spec fn view(&self) -> U256 {
        *self
    }
}

/// The number that `bytes` spell, the least significant first.
pub open spec fn le_value(bytes: Seq<u8>) -> nat {
    be_value(bytes.reverse())
}

impl U256 {
    /// The number.
    pub open spec fn value(self) -> int {
        self.hi * word() + self.lo
    }

    /// Whether the number is at most `other`.
    pub fn at_most(&self, other: &U256) -> (r: bool)
        ensures
            r == (self.value() <= other.value()),
    {
        self.hi < other.hi || (self.hi == other.hi && self.lo <= other.lo)
    }

    /// The number that thirty-two bytes spell, the least significant first.
    pub fn from_little_endian(bytes: &[u8; 32]) -> (n: U256)
        ensures
            n.value() == le_value(bytes@),
    {
        let mut turned: Vec<u8> = Vec::new();
        let mut i: usize = 0;
        while i < 32
            invariant
                i <= 32,
                turned@ == bytes@.reverse().take(i as int),
            decreases 32 - i,
        {
            turned.push(bytes[31 - i]);
            i += 1;
            assert(turned@ =~= bytes@.reverse().take(i as int));
        }
        let ghost s = bytes@.reverse();
        assert(turned@ =~= s);
        let n = U256 { hi: read_be(turned.as_slice(), 0), lo: read_be(turned.as_slice(), 16) };
        proof {
            assert(s.skip(0).take(16) =~= s.take(16));
            assert(s.skip(16).take(16) =~= s.skip(16));
            assert(s.take(16) + s.skip(16) =~= s);
            lemma_be_value_joined(s.take(16), s.skip(16));
            lemma_word_is_power();
        }
        n
    }

    /// The thirty-two bytes of the number, the most significant first.
    pub open spec fn bytes(self) -> Seq<u8> {
        be_bytes(self.hi) + be_bytes(self.lo)
    }

    /// The number in hexadecimal, in sixty-four digits.
    pub fn to_hex(&self) -> (text: String)
        ensures
            text@ == hex_text(self.bytes()),
    {
        let mut bytes: Vec<u8> = Vec::new();
        push_be_bytes(&mut bytes, self.hi);
        push_be_bytes(&mut bytes, self.lo);
        assert(bytes@ =~= self.bytes());
        hex_encode(bytes.as_slice())
    }

    /// The largest number of 256 bits, divided by `d` and rounded down.
    pub fn max_over(d: u64) -> (n: U256)
        requires
            d > 0,
        ensures
            n.value() == u256_max() / d as int,
    {
        let (a, r3) = long_division_step(0, d);
        let (b, r2) = long_division_step(r3, d);
        let (c, r1) = long_division_step(r2, d);
        let (e, r0) = long_division_step(r1, d);
        let n = U256 { hi: a as u128 * LIMB + b as u128, lo: c as u128 * LIMB + e as u128 };
        proof {
            let m = LIMB as int;
            let q = d as int;
            let top = m - 1;
            assert(n.value() == ((a * m + b) * m + c) * m + e) by (nonlinear_arith)
                requires
                    n.value() == (a * m + b) * (m * m) + (c * m + e),
            ;
            lemma_carry(a as int, b as int, r3 as int, r2 as int, q, m, top);
            lemma_carry(a * m + b, c as int, r2 as int, r1 as int, q, m, top);
            lemma_carry((a * m + b) * m + c, e as int, r1 as int, r0 as int, q, m, top);
            assert(n.value() * q + r0 == u256_max());
            assert(q * n.value() + r0 == u256_max()) by (nonlinear_arith)
                requires
                    n.value() * q + r0 == u256_max(),
            ;
            lemma_fundamental_div_mod_converse(u256_max(), q, n.value(), r0 as int);
        }
        n
    }
}

/// One step of dividing a number whose digits of sixty-four bits are all the
/// largest: what is carried over, followed by such a digit, over `d`.
fn long_division_step(carry: u64, d: u64) -> (r: (u64, u64))
    requires
        carry < d,
    ensures
        r.0 * d + r.1 == carry * LIMB + (LIMB - 1),
        r.1 < d,
{
    let n: u128 = carry as u128 * LIMB + (LIMB - 1);
    let q: u128 = n / d as u128;
    let rest: u128 = n % d as u128;
    proof {
        lemma_fundamental_div_mod(n as int, d as int);
        assert(q < LIMB) by (nonlinear_arith)
            requires
                n == d * q + rest,
                n < d * LIMB,
                0 <= rest,
                0 < d,
        ;
        assert(q * d == d * q) by (nonlinear_arith);
    }
    (q as u64, rest as u64)
}

proof fn lemma_carry(x: int, digit: int, r: int, rest: int, q: int, m: int, top: int)
    by (nonlinear_arith)
    requires
        digit * q + rest == r * m + top,
    ensures
        (x * m + digit) * q + rest == (x * q + r) * m + top,
{
}

proof fn lemma_word_is_power()
    ensures
        pow256(16) == word(),
{
    reveal_with_fuel(pow256, 17);
}

/// The digits of a number spell it.
pub proof fn lemma_bytes_spell_the_number(n: U256)
    ensures
        be_value(n.bytes()) == n.value(),
{
    lemma_be_value_joined(be_bytes(n.hi), be_bytes(n.lo));
    lemma_be_bytes_value(n.hi);
    lemma_be_bytes_value(n.lo);
    lemma_word_is_power();
}

/// The more a number is divided by, the less is left of it.
pub proof fn lemma_max_over_is_monotone(a: int, b: int)
    requires
        0 < a <= b,
    ensures
        u256_max() / b <= u256_max() / a,
{
    lemma_div_is_ordered_by_denominator(u256_max(), a, b);
}

}
