//! Division in double precision, worked out in whole numbers. The result of
//! every step is the nearest number of fifty-three significant bits, so a
//! quotient that lies just short of a whole number may come out as that number.
use vstd::prelude::*;

verus! {

/// A power of two.
pub open spec fn power(e: nat) -> int
    decreases e,
{
    if e == 0 {
        1
    } else {
        2 * power((e - 1) as nat)
    }
}

/// The place of the highest bit of a number that is one or more.
pub open spec fn top_bit(n: int) -> nat
    decreases n,
{
    if n < 2 {
        0
    } else {
        1 + top_bit(n / 2)
    }
}

/// The whole number nearest to a fraction; the even one of two that are equally
/// near.
pub open spec fn nearest(p: int, q: int) -> int {
    let down = p / q;
    let twice = 2 * (p % q);
    if twice < q || (twice == q && down % 2 == 0) {
        down
    } else {
        down + 1
    }
}

/// The double nearest to a fraction that is one or more, as a fraction: the
/// last of its fifty-three bits is worth a power of two, or one part in a power
/// of two.
pub open spec fn double(p: int, q: int) -> (int, int) {
    let e = top_bit(p / q);
    if e <= 52 {
        (nearest(p * power((52 - e) as nat), q), power((52 - e) as nat))
    } else {
        (nearest(p, q * power((e - 52) as nat)) * power((e - 52) as nat), 1)
    }
}

/// The double nearest to a whole number.
pub open spec fn whole(n: int) -> int {
    if n < 0x20_0000_0000_0000 {
        n
    } else {
        double(n, 1).0
    }
}

/// How many whole times the double `num / den` goes into the double `n`, by
/// their quotient as a double. That quotient is the next whole number where it
/// is within half its last bit of it, for a quotient that fifty-two bits hold.
pub open spec fn quotient(n: int, num: int, den: int) -> int {
    let k = n * den / num;
    let e = if k == 0 {
        54
    } else {
        53 - top_bit(k)
    };
    if ((k + 1) * num - n * den) * power(e as nat) <= num {
        k + 1
    } else {
        k
    }
}

proof fn lemma_power_grows(a: nat, b: nat)
    requires
        a <= b,
    ensures
        0 < power(a) <= power(b),
    decreases b,
{
    if a < b {
        lemma_power_grows(a, (b - 1) as nat);
    } else if a > 0 {
        lemma_power_grows((a - 1) as nat, (a - 1) as nat);
    }
}

proof fn lemma_powers()
    ensures
        power(10) == 0x400,
        power(52) == 0x10_0000_0000_0000,
        power(53) == 0x20_0000_0000_0000,
        power(65) == 0x2_0000_0000_0000_0000,
{
    reveal_with_fuel(power, 66);
}

proof fn lemma_power_sum(a: nat, b: nat)
    ensures
        power(a + b) == power(a) * power(b),
    decreases b,
{
    if b > 0 {
        lemma_power_sum(a, (b - 1) as nat);
        let x = power(a);
        let y = power((b - 1) as nat);
        assert(2 * (x * y) == x * (2 * y)) by (nonlinear_arith);
    }
}

proof fn lemma_top_bit(n: int)
    requires
        n >= 1,
    ensures
        power(top_bit(n)) <= n < power(top_bit(n) + 1),
    decreases n,
{
    if n >= 2 {
        lemma_top_bit(n / 2);
    }
}

/// The highest bit of a number is below that of a power of two that is larger.
proof fn lemma_top_bit_below(n: int, e: nat)
    requires
        n < power(e),
        e > 0,
    ensures
        top_bit(n) < e,
{
    if n >= 1 {
        lemma_top_bit(n);
        if top_bit(n) >= e {
            lemma_power_grows(e, top_bit(n));
        }
    }
}

fn power_of(e: u32) -> (r: u128)
    requires
        e <= 65,
    ensures
        r == power(e as nat),
        0 < r <= 0x2_0000_0000_0000_0000,
{
    let mut r: u128 = 1;
    let mut i: u32 = 0;
    while i < e
        invariant
            i <= e <= 65,
            r == power(i as nat),
            0 < r <= 0x2_0000_0000_0000_0000,
        decreases e - i,
    {
        proof {
            lemma_powers();
            lemma_power_grows((i + 1) as nat, 65);
        }
        r = 2 * r;
        i += 1;
    }
    r
}

fn top_bit_of(n: u128) -> (e: u32)
    requires
        n < 0x2_0000_0000_0000_0000,
    ensures
        e == top_bit(n as int),
        e < 65,
{
    let mut left: u128 = n;
    let mut e: u32 = 0;
    proof {
        lemma_powers();
        lemma_top_bit_below(n as int, 65);
    }
    while left >= 2
        invariant
            top_bit(n as int) == e + top_bit(left as int),
            top_bit(n as int) < 65,
        decreases left,
    {
        left = left / 2;
        e += 1;
    }
    e
}

fn nearest_of(p: u128, q: u128) -> (r: u128)
    requires
        0 < q <= 0x1_0000_0000_0000_0000_0000,
        p < 0x8000_0000_0000_0000_0000_0000_0000_0000,
    ensures
        r == nearest(p as int, q as int),
        p >= q ==> r >= 1,
        r <= p / q + 1,
{
    let down: u128 = p / q;
    let twice: u128 = 2 * (p % q);
    proof {
        if p >= q {
            assert(p / q >= 1) by (nonlinear_arith)
                requires
                    p >= q,
                    q > 0,
            ;
        }
        assert(p / q <= p) by (nonlinear_arith)
            requires
                q > 0,
        ;
    }
    if twice < q || (twice == q && down % 2 == 0) {
        down
    } else {
        down + 1
    }
}

/// The double nearest to a fraction that is one or more.
fn double_of(p: u128, q: u128) -> (r: (u128, u128))
    requires
        0 < q <= 1000,
        q <= p < 0x2_0000_0000_0000_0000,
    ensures
        (r.0 as int, r.1 as int) == double(p as int, q as int),
        0 < r.0 <= 0x40_0000_0000_0000_0000_0000_0000_0000,
        0 < r.1 <= 0x10_0000_0000_0000,
{
    proof {
        assert(p / q <= p) by (nonlinear_arith)
            requires
                q > 0,
        ;
    }
    let e = top_bit_of(p / q);
    if e <= 52 {
        let scale = power_of(52 - e);
        proof {
            lemma_powers();
            lemma_power_grows((52 - e) as nat, 52);
            assert(p <= p * scale <= 0x2_0000_0000_0000_0000int * 0x10_0000_0000_0000) by (nonlinear_arith)
                requires
                    0 <= p < 0x2_0000_0000_0000_0000,
                    1 <= scale <= 0x10_0000_0000_0000,
            ;
        }
        let scaled: u128 = p * scale;
        let num = nearest_of(scaled, q);
        proof {
            assert(scaled / q <= scaled) by (nonlinear_arith)
                requires
                    q > 0,
            ;
        }
        (num, scale)
    } else {
        let unit = power_of(e - 52);
        proof {
            lemma_powers();
            lemma_power_grows((e - 52) as nat, 52);
            assert(0 < q * unit <= 1000 * 0x10_0000_0000_0000) by (nonlinear_arith)
                requires
                    0 < q <= 1000,
                    1 <= unit <= 0x10_0000_0000_0000,
            ;
        }
        let step: u128 = q * unit;
        let places = nearest_of(p, step);
        proof {
            assert(p / step <= p) by (nonlinear_arith)
                requires
                    step > 0,
            ;
            lemma_whole_units(p as int, q as int);
            assert(0 < places * unit <= 0x2_0000_0000_0000_0000int * 0x10_0000_0000_0000) by (nonlinear_arith)
                requires
                    0 < places <= 0x2_0000_0000_0000_0000,
                    1 <= unit <= 0x10_0000_0000_0000,
            ;
        }
        (places * unit, 1)
    }
}

/// A fraction whose highest bit is above the fifty-third has at least so many
/// whole units of its last bit.
proof fn lemma_whole_units(p: int, q: int)
    requires
        0 < q <= p,
        top_bit(p / q) > 52,
    ensures
        q * power((top_bit(p / q) - 52) as nat) > 0,
        p / (q * power((top_bit(p / q) - 52) as nat)) >= power(52),
{
    let e = top_bit(p / q);
    let unit = power((e - 52) as nat);
    lemma_power_grows((e - 52) as nat, e);
    lemma_power_grows(52, 52);
    assert(p / q >= 1 && (p / q) * q <= p) by (nonlinear_arith)
        requires
            0 < q <= p,
    ;
    lemma_top_bit(p / q);
    lemma_power_sum(52, (e - 52) as nat);
    let f = power(52);
    let k = p / q;
    assert(q * unit > 0) by (nonlinear_arith)
        requires
            q > 0,
            unit > 0,
    ;
    assert(f * (q * unit) <= p) by (nonlinear_arith)
        requires
            f * unit <= k,
            k * q <= p,
            q > 0,
    ;
    let step = q * unit;
    assert(p / step >= f) by (nonlinear_arith)
        requires
            f * step <= p,
            step > 0,
    ;
}

/// A number of more than fifty-three bits stays at least a thousand as a double,
/// and at most doubles.
proof fn lemma_whole(n: int)
    requires
        n >= 0x20_0000_0000_0000,
    ensures
        top_bit(n / 1) > 52,
        1000 <= whole(n) <= 2 * n,
{
    lemma_powers();
    lemma_top_bit(n);
    let e = top_bit(n);
    if e <= 52 {
        lemma_power_grows(e + 1, 53);
    }
    lemma_power_grows((e - 52) as nat, e);
    lemma_whole_units(n, 1);
    let unit = power((e - 52) as nat);
    let k = n / unit;
    let r = nearest(n, unit);
    assert(n / 1 == n);
    assert(1 * unit == unit);
    assert(k * unit <= n) by (nonlinear_arith)
        requires
            k == n / unit,
            unit > 0,
    ;
    assert(1000 <= r * unit <= n + unit) by (nonlinear_arith)
        requires
            k <= r <= k + 1,
            1000 <= k,
            k * unit <= n,
            1 <= unit,
    ;
}

/// The double nearest to a fraction that is one or more is above zero.
proof fn lemma_double(p: int, q: int)
    requires
        0 < q <= p,
    ensures
        double(p, q).0 > 0,
        double(p, q).1 > 0,
{
    let e = top_bit(p / q);
    lemma_power_grows(0, 52);
    if e <= 52 {
        let scale = power((52 - e) as nat);
        lemma_power_grows(0, (52 - e) as nat);
        assert(p * scale / q >= 1) by (nonlinear_arith)
            requires
                0 < q <= p,
                scale >= 1,
        ;
    } else {
        let unit = power((e - 52) as nat);
        lemma_power_grows(0, (e - 52) as nat);
        lemma_whole_units(p, q);
        let places = nearest(p, q * unit);
        assert(places * unit > 0) by (nonlinear_arith)
            requires
                places > 0,
                unit > 0,
        ;
    }
}

/// The double nearest to a whole number.
fn whole_of(n: u64) -> (r: u128)
    ensures
        r == whole(n as int),
        n >= 1000 ==> r >= 1000,
        r < 0x2_0000_0000_0000_0000,
{
    if n < 0x20_0000_0000_0000 {
        return n as u128;
    }
    proof {
        lemma_whole(n as int);
    }
    double_of(n as u128, 1).0
}

/// How many whole times `window / parts` goes into `n`, all of them doubles.
pub open spec fn parts_in(n: int, window: int, parts: int) -> int {
    let (num, den) = double(whole(window), parts);
    quotient(whole(n), num, den)
}

/// No part comes before the first.
pub proof fn lemma_parts_in(n: int, window: int, parts: int)
    requires
        n >= 0,
        0 < parts <= 1000 <= window,
    ensures
        parts_in(n, window, parts) >= 0,
{
    if n >= 0x20_0000_0000_0000 {
        lemma_whole(n);
    }
    if window >= 0x20_0000_0000_0000 {
        lemma_whole(window);
    }
    lemma_double(whole(window), parts);
    let (num, den) = double(whole(window), parts);
    let x = whole(n);
    assert(x * den / num >= 0) by (nonlinear_arith)
        requires
            x >= 0,
            den > 0,
            num > 0,
    ;
}

/// Which of so many equal parts of a window `n` falls in, where what is past the
/// last part counts as of the last part.
pub(crate) fn part_of(n: u64, window: u64, parts: u128) -> (b: u128)
    requires
        0 < parts <= 1000 <= window,
    ensures
        b == if parts_in(n as int, window as int, parts as int) < parts {
            parts_in(n as int, window as int, parts as int)
        } else {
            parts - 1
        },
{
    let (num, den) = double_of(whole_of(window), parts);
    let offset = whole_of(n);
    proof {
        assert(offset * den <= 0x2_0000_0000_0000_0000int * 0x10_0000_0000_0000) by (nonlinear_arith)
            requires
                0 <= offset < 0x2_0000_0000_0000_0000,
                0 < den <= 0x10_0000_0000_0000,
        ;
    }
    let x: u128 = offset * den;
    let k: u128 = x / num;
    if k >= parts - 1 {
        return parts - 1;
    }
    let e: u32 = if k == 0 {
        54
    } else {
        proof {
            lemma_powers();
            lemma_top_bit_below(k as int, 10);
        }
        53 - top_bit_of(k)
    };
    let scale = power_of(e);
    proof {
        assert((k + 1) * num == x - x % num + num && 0 <= x % num < num) by (nonlinear_arith)
            requires
                k == x / num,
                num > 0,
        ;
    }
    let short: u128 = (k + 1) * num - x;
    proof {
        assert((short <= num / scale) <==> short * scale <= num) by (nonlinear_arith)
            requires
                scale > 0,
        ;
    }
    if short <= num / scale {
        k + 1
    } else {
        k
    }
}

}
