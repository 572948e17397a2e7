//! Decimal figures of ratios as the nearest binary64 value renders them with two
//! decimals: the quotient is rounded to 53 significant bits (ties to even), and its exact
//! value is then rounded to hundredths (ties to even). Everything is integer arithmetic.
use vstd::prelude::*;

verus! {

/// `2^e`.
pub open spec fn two_pow(e: nat) -> nat
    decreases e,
{
    if e == 0 {
        1
    } else {
        2 * two_pow((e - 1) as nat)
    }
}

/// `a / b` rounded to the nearest integer, ties to the even one.
pub open spec fn div_round_even(a: nat, b: nat) -> nat
    recommends
        b > 0,
{
    let q = a / b;
    let r = a % b;
    if 2 * r > b || (2 * r == b && q % 2 == 1) {
        q + 1
    } else {
        q
    }
}

/// The least exponent from `e` on at which `n * 2^e` reaches `2^52 * s`: scaled by it,
/// the quotient `n / s` has 53 significant bits before the point.
pub open spec fn quotient_exp(n: nat, s: nat, e: nat) -> nat
    decreases 256 - e,
{
    if e >= 256 || n * two_pow(e) >= two_pow(52) * s {
        e
    } else {
        quotient_exp(n, s, e + 1)
    }
}

/// The significand of the binary64 quotient `n / s`, whose value is this number over
/// `2^quotient_exp(n, s, 0)`.
pub open spec fn quotient_sig(n: nat, s: nat) -> nat {
    div_round_even(n * two_pow(quotient_exp(n, s, 0)), s)
}

/// The least `k` from the given one on for which `x / 2^k` is below `2^53`.
pub open spec fn drop_exp(x: nat, k: nat) -> nat
    decreases 256 - k,
{
    if k >= 256 || x < two_pow(53) * two_pow(k) {
        k
    } else {
        drop_exp(x, k + 1)
    }
}

/// The value `m / 2^e` in hundredths, rounded to the nearest, ties to even.
pub open spec fn hundredths_even(m: nat, e: nat) -> nat {
    div_round_even(100 * m, two_pow(e))
}

/// The least `k` from the given one on with `num < 2^53 * den * 2^k`.
pub open spec fn big_exp(num: nat, den: nat, k: nat) -> nat
    decreases 256 - k,
{
    if k >= 256 || num < two_pow(53) * den * two_pow(k) {
        k
    } else {
        big_exp(num, den, k + 1)
    }
}

/// The binary64 quotient `num / den` in hundredths, as two-decimal formatting renders it:
/// below `2^53` the quotient keeps 53 significant bits and its exact value is rounded to
/// hundredths; from `2^53` on it is a whole number rounded to 53 significant bits.
pub open spec fn ratio_hundredths(num: nat, den: nat) -> nat {
    if num < two_pow(53) * den {
        let e = quotient_exp(num, den, 0);
        hundredths_even(div_round_even(num * two_pow(e), den), e)
    } else {
        let k = big_exp(num, den, 1);
        100 * div_round_even(num, den * two_pow(k)) * two_pow(k)
    }
}

/// The binary64 product of the binary64 quotient `v / t` with 100, in hundredths, as
/// two-decimal formatting rounds it: the percentage `v` is of `t`.
pub open spec fn percent_hundredths(v: nat, t: nat) -> nat {
    if v == 0 {
        0
    } else {
        let e = quotient_exp(v, t, 0);
        let x = 100 * quotient_sig(v, t);
        let k = drop_exp(x, 0);
        hundredths_even(div_round_even(x, two_pow(k)), if e >= k { (e - k) as nat } else { 0 })
    }
}

/// Nanoseconds in a second.
pub const NANOS_PER_SEC: u32 = 1_000_000_000;

/// The least `b` from the given one on with `x < 2^b`: the bit length of `x`.
pub open spec fn bit_length(x: nat, b: nat) -> nat
    decreases 64 - b,
{
    if b >= 64 || x < two_pow(b) {
        b
    } else {
        bit_length(x, b + 1)
    }
}

/// The binary64 value of `secs + nanos / 10^9` (the seconds converted, plus the binary64
/// quotient of the nanoseconds, rounded to 53 significant bits), for `secs < 2^52`, as a
/// pair `(m, e)` of value `m / 2^e`.
pub open spec fn seconds_parts(secs: nat, nanos: nat) -> (nat, nat) {
    if nanos == 0 {
        (secs, 0)
    } else {
        let m1 = quotient_sig(nanos, NANOS_PER_SEC as nat);
        let e1 = quotient_exp(nanos, NANOS_PER_SEC as nat, 0);
        if secs == 0 {
            (m1, e1)
        } else {
            let b = bit_length(secs, 0);
            let k = (e1 + b - 53) as nat;
            (div_round_even(secs * two_pow(e1) + m1, two_pow(k)), (53 - b) as nat)
        }
    }
}

/// The binary64 rate `n / (secs + nanos / 10^9)` in hundredths, as two-decimal formatting
/// renders it. From `2^52` seconds on the rate is below `2^-20`, which renders as zero.
pub open spec fn interval_rate_hundredths(n: nat, secs: nat, nanos: nat) -> nat {
    if n == 0 || secs >= two_pow(52) {
        0
    } else {
        let (m, e) = seconds_parts(secs, nanos);
        ratio_hundredths(n * two_pow(e), m)
    }
}

proof fn lemma_two_pow_adds(a: nat, b: nat)
    ensures
        two_pow(a + b) == two_pow(a) * two_pow(b),
    decreases b,
{
    if b == 0 {
        assert(two_pow(0) == 1);
        assert(a + b == a);
    } else {
        let c = (b - 1) as nat;
        lemma_two_pow_adds(a, c);
        assert((a + b - 1) as nat == a + c);
        assert(two_pow(a + b) == 2 * two_pow(a + c));
        assert(two_pow(b) == 2 * two_pow(c));
        let x = two_pow(a);
        let y = two_pow(c);
        assert(2 * (x * y) == x * (2 * y)) by (nonlinear_arith);
    }
}

proof fn lemma_two_pow_values()
    ensures
        two_pow(13) == 0x2000,
        two_pow(26) == 0x400_0000,
        two_pow(52) == 0x10_0000_0000_0000,
        two_pow(53) == 0x20_0000_0000_0000,
        two_pow(104) == 0x100_0000_0000_0000_0000_0000_0000,
        two_pow(105) == 0x200_0000_0000_0000_0000_0000_0000,
{
    reveal_with_fuel(two_pow, 14);
    lemma_two_pow_adds(13, 13);
    assert(two_pow(26) == 0x400_0000);
    lemma_two_pow_adds(26, 26);
    assert(two_pow(52) == 0x10_0000_0000_0000);
    lemma_two_pow_adds(52, 1);
    lemma_two_pow_adds(52, 52);
    assert(two_pow(104) == 0x100_0000_0000_0000_0000_0000_0000);
    lemma_two_pow_adds(104, 1);
}

proof fn lemma_two_pow_values_big()
    ensures
        two_pow(30) == 0x4000_0000,
        two_pow(60) == 0x1000_0000_0000_0000,
        two_pow(61) == 0x2000_0000_0000_0000,
        two_pow(82) == 0x4_0000_0000_0000_0000_0000,
{
    reveal_with_fuel(two_pow, 5);
    lemma_two_pow_values();
    lemma_two_pow_adds(26, 4);
    assert(two_pow(30) == 0x4000_0000);
    lemma_two_pow_adds(30, 30);
    lemma_two_pow_adds(60, 1);
    lemma_two_pow_adds(52, 30);
}

proof fn lemma_two_pow_pos(e: nat)
    ensures
        two_pow(e) >= 1,
    decreases e,
{
    if e > 0 {
        lemma_two_pow_pos((e - 1) as nat);
    }
}

proof fn lemma_two_pow_mono(a: nat, b: nat)
    requires
        a <= b,
    ensures
        two_pow(a) <= two_pow(b),
    decreases b,
{
    if a < b {
        lemma_two_pow_mono(a, (b - 1) as nat);
        lemma_two_pow_pos((b - 1) as nat);
    }
}

/// Rounding never goes past an integer bound of the exact quotient.
proof fn lemma_div_round_even_le(a: nat, b: nat, c: nat)
    requires
        b > 0,
        a <= c * b,
    ensures
        div_round_even(a, b) <= c,
{
    let q = a / b;
    let r = a % b;
    assert(a == q * b + r && r < b) by (nonlinear_arith)
        requires q == a / b, r == a % b, b > 0;
    assert(q <= c) by (nonlinear_arith)
        requires a == q * b + r, r >= 0, a <= c * b, b > 0;
    if q == c {
        assert(r == 0) by (nonlinear_arith)
            requires a == q * b + r, a <= c * b, q == c, r >= 0;
    }
}

/// The exponent search stops within 105 at an exponent that brings the scaled quotient
/// into `[2^52, 2^53)`.
proof fn lemma_quotient_exp(n: nat, s: nat, e: nat)
    requires
        n >= 1,
        1 <= s <= two_pow(53),
        e <= 105,
    ensures
        e <= quotient_exp(n, s, e) <= 105,
        n * two_pow(quotient_exp(n, s, e)) >= two_pow(52) * s,
        quotient_exp(n, s, e) > e ==> n * two_pow((quotient_exp(n, s, e) - 1) as nat) < two_pow(52) * s,
    decreases 105 - e,
{
    lemma_two_pow_values();
    if n * two_pow(e) >= two_pow(52) * s {
    } else {
        if e == 105 {
            assert(n * two_pow(105) >= two_pow(52) * s) by (nonlinear_arith)
                requires n >= 1, s <= 0x20_0000_0000_0000, two_pow(105) == 0x200_0000_0000_0000_0000_0000_0000,
                    two_pow(52) == 0x10_0000_0000_0000;
        }
        lemma_quotient_exp(n, s, e + 1);
        assert(((e + 1) - 1) as nat == e);
    }
}

/// The search for the bits to drop stops within 7 for a number below `2^60`.
proof fn lemma_drop_exp(x: nat, k: nat)
    requires
        x <= 100 * 0x20_0000_0000_0000,
        k <= 7,
    ensures
        k <= drop_exp(x, k) <= 7,
    decreases 7 - k,
{
    lemma_two_pow_values();
    if x < two_pow(53) * two_pow(k) {
    } else {
        if k == 7 {
            reveal_with_fuel(two_pow, 8);
            assert(false) by (nonlinear_arith)
                requires x <= 100 * 0x20_0000_0000_0000, x >= two_pow(53) * two_pow(7),
                    two_pow(7) == 128, two_pow(53) == 0x20_0000_0000_0000;
        }
        lemma_drop_exp(x, k + 1);
    }
}

/// The percentage of a part is at most 100: the binary64 quotient of `v <= t` is at most
/// 1, and each rounding stays within the bound.
pub proof fn law_percent_at_most_hundred(v: nat, t: nat)
    requires
        v <= t,
        0 < t <= u32::MAX,
    ensures
        percent_hundredths(v, t) <= 10000,
{
    if v > 0 {
        lemma_two_pow_values();
        lemma_quotient_exp(v, t, 0);
        let e = quotient_exp(v, t, 0);
        if e < 52 {
            lemma_two_pow_mono(e, 51);
            lemma_two_pow_adds(51, 1);
            reveal_with_fuel(two_pow, 2);
            assert(false) by (nonlinear_arith)
                requires v * two_pow(e) >= two_pow(52) * t, two_pow(e) <= two_pow(51),
                    two_pow(52) == 2 * two_pow(51), v <= t, v >= 1, two_pow(51) >= 1;
        }
        // the quotient is below 2^53 / 2^e, and at most 1
        assert(v * two_pow((e - 1) as nat) < two_pow(52) * t);
        lemma_two_pow_adds((e - 1) as nat, 1);
        reveal_with_fuel(two_pow, 2);
        assert(two_pow(e) == 2 * two_pow((e - 1) as nat));
        let m = quotient_sig(v, t);
        assert(v * two_pow(e) <= two_pow(e) * t) by (nonlinear_arith)
            requires v <= t;
        lemma_div_round_even_le(v * two_pow(e), t, two_pow(e));
        assert(v * two_pow(e) <= two_pow(53) * t) by (nonlinear_arith)
            requires v * two_pow((e - 1) as nat) < two_pow(52) * t, two_pow(e) == 2 * two_pow((e - 1) as nat),
                two_pow(53) == 2 * two_pow(52);
        lemma_div_round_even_le(v * two_pow(e), t, two_pow(53));
        let x = 100 * m;
        lemma_drop_exp(x, 0);
        let k = drop_exp(x, 0);
        let ee = (e - k) as nat;
        lemma_two_pow_adds(ee, k);
        assert(ee + k == e);
        lemma_two_pow_pos(k);
        lemma_two_pow_pos(ee);
        assert(x <= (100 * two_pow(ee)) * two_pow(k)) by (nonlinear_arith)
            requires x == 100 * m, m <= two_pow(e), two_pow(e) == two_pow(ee) * two_pow(k);
        lemma_div_round_even_le(x, two_pow(k), 100 * two_pow(ee));
        let mm = div_round_even(x, two_pow(k));
        assert(100 * mm <= 10000 * two_pow(ee)) by (nonlinear_arith)
            requires mm <= 100 * two_pow(ee);
        lemma_div_round_even_le(100 * mm, two_pow(ee), 10000);
    }
}

/// Rounding to the nearest integer, ties to even, is monotone: a smaller quotient never
/// rounds to more.
proof fn lemma_div_round_even_monotone(x1: nat, y1: nat, x2: nat, y2: nat)
    requires
        y1 > 0,
        y2 > 0,
        x1 * y2 <= x2 * y1,
    ensures
        div_round_even(x1, y1) <= div_round_even(x2, y2),
{
    let q1 = x1 / y1;
    let r1 = x1 % y1;
    let q2 = x2 / y2;
    let r2 = x2 % y2;
    assert(x1 == q1 * y1 + r1 && r1 < y1) by (nonlinear_arith)
        requires q1 == x1 / y1, r1 == x1 % y1, y1 > 0;
    assert(x2 == q2 * y2 + r2 && r2 < y2) by (nonlinear_arith)
        requires q2 == x2 / y2, r2 == x2 % y2, y2 > 0;
    assert(q1 <= q2) by (nonlinear_arith)
        requires x1 == q1 * y1 + r1, x2 == q2 * y2 + r2, r2 < y2, r1 >= 0, x1 * y2 <= x2 * y1, y1 > 0, y2 > 0;
    if q1 == q2 {
        assert(r1 * y2 <= r2 * y1) by (nonlinear_arith)
            requires x1 == q1 * y1 + r1, x2 == q1 * y2 + r2, x1 * y2 <= x2 * y1;
        if 2 * r1 > y1 {
            assert(2 * r2 > y2) by (nonlinear_arith)
                requires r1 * y2 <= r2 * y1, 2 * r1 > y1, y1 > 0, y2 > 0;
        } else if 2 * r1 == y1 {
            assert(2 * r2 >= y2) by (nonlinear_arith)
                requires r1 * y2 <= r2 * y1, 2 * r1 == y1, y1 > 0, y2 > 0;
        }
    }
}

/// Below `2^53`, the binary64 quotient never decreases as the exact quotient grows:
/// `a1 / d1 <= a2 / d2` gives `m1 / 2^e1 <= m2 / 2^e2`.
proof fn lemma_quotient_value_monotone(a1: nat, d1: nat, a2: nat, d2: nat)
    requires
        1 <= a1,
        1 <= a2,
        1 <= d1 <= two_pow(53),
        1 <= d2 <= two_pow(53),
        a1 < two_pow(53) * d1,
        a2 < two_pow(53) * d2,
        a1 * d2 <= a2 * d1,
    ensures
        quotient_sig(a1, d1) * two_pow(quotient_exp(a2, d2, 0)) <= quotient_sig(a2, d2) * two_pow(
            quotient_exp(a1, d1, 0),
        ),
        quotient_sig(a1, d1) <= two_pow(53),
{
    lemma_two_pow_values();
    lemma_quotient_exp(a1, d1, 0);
    lemma_quotient_exp(a2, d2, 0);
    let e1 = quotient_exp(a1, d1, 0);
    let e2 = quotient_exp(a2, d2, 0);
    let p1 = two_pow(e1);
    let p2 = two_pow(e2);
    lemma_two_pow_pos(e1);
    lemma_two_pow_pos(e2);
    // the smaller quotient needs at least as much scaling
    if e1 < e2 {
        let p = two_pow((e2 - 1) as nat);
        lemma_two_pow_mono(e1, (e2 - 1) as nat);
        assert(a1 * p >= two_pow(52) * d1) by (nonlinear_arith)
            requires a1 * p1 >= two_pow(52) * d1, p1 <= p, a1 >= 1;
        assert(a2 * p < two_pow(52) * d2);
        assert(false) by (nonlinear_arith)
            requires a1 * p >= two_pow(52) * d1, a2 * p < two_pow(52) * d2, a1 * d2 <= a2 * d1,
                d1 >= 1, d2 >= 1, p >= 1, two_pow(52) >= 1;
    }
    let m1 = div_round_even(a1 * p1, d1);
    let m2 = div_round_even(a2 * p2, d2);
    assert(a1 * p1 <= two_pow(53) * d1) by {
        if e1 > 0 {
            assert(p1 == 2 * two_pow((e1 - 1) as nat));
            assert(a1 * p1 <= two_pow(53) * d1) by (nonlinear_arith)
                requires a1 * two_pow((e1 - 1) as nat) < two_pow(52) * d1, p1 == 2 * two_pow((e1 - 1) as nat),
                    two_pow(53) == 2 * two_pow(52);
        } else {
            assert(p1 == 1);
            assert(a1 * p1 == a1) by (nonlinear_arith)
                requires p1 == 1;
        }
    }
    lemma_div_round_even_le(a1 * p1, d1, two_pow(53));
    if e1 == e2 {
        assert((a1 * p1) * d2 <= (a2 * p2) * d1) by (nonlinear_arith)
            requires a1 * d2 <= a2 * d1, p1 == p2;
        lemma_div_round_even_monotone(a1 * p1, d1, a2 * p2, d2);
        assert(m1 * p2 <= m2 * p1) by (nonlinear_arith)
            requires m1 <= m2, p1 == p2;
    } else {
        // the first lies in a lower binade: at most 2^53 / 2^e1 <= 2^52 / 2^e2 <= the second
        assert(m2 >= two_pow(52)) by {
            lemma_div_round_even_ge(a2 * p2, d2, two_pow(52));
        }
        lemma_two_pow_adds(e2 + 1, (e1 - e2 - 1) as nat);
        assert(e2 + 1 + (e1 - e2 - 1) as nat == e1);
        lemma_two_pow_pos((e1 - e2 - 1) as nat);
        lemma_two_pow_adds(e2, 1);
        reveal_with_fuel(two_pow, 2);
        assert(two_pow(e2 + 1) == 2 * p2);
        assert(m1 * p2 <= m2 * p1) by (nonlinear_arith)
            requires m1 <= two_pow(53), m2 >= two_pow(52), two_pow(53) == 2 * two_pow(52),
                p1 == two_pow(e2 + 1) * two_pow((e1 - e2 - 1) as nat), two_pow(e2 + 1) == 2 * p2,
                two_pow((e1 - e2 - 1) as nat) >= 1, p2 >= 1;
    }
}

/// Below `2^53`, the two-decimal rendering of the binary64 quotient never decreases as the
/// exact quotient grows: `a1 / d1 <= a2 / d2` gives no more hundredths for the first.
proof fn lemma_ratio_hundredths_monotone(a1: nat, d1: nat, a2: nat, d2: nat)
    requires
        1 <= a1,
        1 <= a2,
        1 <= d1 <= two_pow(53),
        1 <= d2 <= two_pow(53),
        a1 < two_pow(53) * d1,
        a2 < two_pow(53) * d2,
        a1 * d2 <= a2 * d1,
    ensures
        ratio_hundredths(a1, d1) <= ratio_hundredths(a2, d2),
{
    lemma_quotient_value_monotone(a1, d1, a2, d2);
    let m1 = quotient_sig(a1, d1);
    let m2 = quotient_sig(a2, d2);
    let p1 = two_pow(quotient_exp(a1, d1, 0));
    let p2 = two_pow(quotient_exp(a2, d2, 0));
    lemma_two_pow_pos(quotient_exp(a1, d1, 0));
    lemma_two_pow_pos(quotient_exp(a2, d2, 0));
    assert((100 * m1) * p2 <= (100 * m2) * p1) by (nonlinear_arith)
        requires m1 * p2 <= m2 * p1;
    lemma_div_round_even_monotone(100 * m1, p1, 100 * m2, p2);
}

/// Rounding never goes below an integer bound of the exact quotient.
proof fn lemma_div_round_even_ge(a: nat, b: nat, c: nat)
    requires
        b > 0,
        a >= c * b,
    ensures
        div_round_even(a, b) >= c,
{
    assert(a / b >= c) by (nonlinear_arith)
        requires a >= c * b, b > 0;
}

proof fn lemma_bit_length(x: nat, b: nat)
    requires
        x < two_pow(52),
        b <= 52,
        b > 0 ==> x >= two_pow((b - 1) as nat),
    ensures
        b <= bit_length(x, b) <= 52,
        x < two_pow(bit_length(x, b)),
        bit_length(x, b) > 0 ==> x >= two_pow((bit_length(x, b) - 1) as nat),
    decreases 52 - b,
{
    if x >= two_pow(b) {
        if b < 52 {
            lemma_bit_length(x, b + 1);
        }
    }
}

/// For at least one second and under `2^52`, the binary64 interval `m / 2^e` has a
/// significand of at most 53 bits and is at least 1.
proof fn lemma_seconds_parts(secs: nat, nanos: nat)
    requires
        1 <= secs < two_pow(52),
        nanos < NANOS_PER_SEC,
    ensures
        1 <= seconds_parts(secs, nanos).0 <= two_pow(53),
        two_pow(seconds_parts(secs, nanos).1) <= seconds_parts(secs, nanos).0,
        secs * two_pow(seconds_parts(secs, nanos).1) <= seconds_parts(secs, nanos).0,
        seconds_parts(secs, nanos).0 <= two_pow(bit_length(secs, 0)) * two_pow(seconds_parts(secs, nanos).1),
        1 <= bit_length(secs, 0) <= 52,
        secs < two_pow(bit_length(secs, 0)),
        secs >= two_pow((bit_length(secs, 0) - 1) as nat),
        nanos > 0 ==> seconds_parts(secs, nanos).1 == 53 - bit_length(secs, 0),
        nanos > 0 ==> quotient_exp(nanos, NANOS_PER_SEC as nat, 0) >= 53,
        nanos > 0 ==> quotient_sig(nanos, NANOS_PER_SEC as nat) <= two_pow(
            quotient_exp(nanos, NANOS_PER_SEC as nat, 0),
        ),
{
    lemma_bit_length(secs, 0);
    if bit_length(secs, 0) == 0 {
        assert(two_pow(0) == 1);
    }
    lemma_two_pow_values();
    lemma_two_pow_values_big();
    if nanos == 0 {
        assert(two_pow(0) == 1);
        assert(secs * two_pow(0) == secs);
        assert(two_pow(bit_length(secs, 0)) * two_pow(0) == two_pow(bit_length(secs, 0)));
    } else {
        let d: nat = 1_000_000_000;
        lemma_quotient_exp(nanos, d, 0);
        let e1 = quotient_exp(nanos, d, 0);
        let m1 = quotient_sig(nanos, d);
        if e1 <= 52 {
            lemma_two_pow_mono(e1, 52);
            assert(nanos * two_pow(e1) < two_pow(52) * d) by (nonlinear_arith)
                requires nanos < d, two_pow(e1) <= two_pow(52), two_pow(52) > 0;
        }
        assert(two_pow(e1) == 2 * two_pow((e1 - 1) as nat));
        assert(nanos * two_pow(e1) <= two_pow(53) * d) by (nonlinear_arith)
            requires nanos * two_pow((e1 - 1) as nat) < two_pow(52) * d,
                two_pow(e1) == 2 * two_pow((e1 - 1) as nat), two_pow(53) == 2 * two_pow(52);
        lemma_div_round_even_le(nanos * two_pow(e1), d, two_pow(53));
        assert(nanos * two_pow(e1) <= two_pow(e1) * d) by (nonlinear_arith)
            requires nanos < d;
        lemma_div_round_even_le(nanos * two_pow(e1), d, two_pow(e1));
        lemma_bit_length(secs, 0);
        let b = bit_length(secs, 0);
        if b == 0 {
            assert(two_pow(0) == 1);
        }
        let k = (e1 + b - 53) as nat;
        let up = (53 - b) as nat;
        let x = secs * two_pow(e1) + m1;
        lemma_two_pow_adds(up, k);
        assert(up + k == e1);
        lemma_two_pow_adds(b, up);
        assert(b + up == 53);
        lemma_two_pow_pos(k);
        lemma_two_pow_pos(up);
        lemma_two_pow_mono(53, e1);
        // at least 2^up: the seconds alone give that much
        assert(x >= (secs * two_pow(up)) * two_pow(k)) by (nonlinear_arith)
            requires x == secs * two_pow(e1) + m1, two_pow(e1) == two_pow(up) * two_pow(k);
        lemma_div_round_even_ge(x, two_pow(k), secs * two_pow(up));
        assert(secs * two_pow(up) >= two_pow(up)) by (nonlinear_arith)
            requires secs >= 1;
        // at most 2^53: the seconds are below 2^b and the fraction below one unit of 2^up
        assert(x <= two_pow(53) * two_pow(k)) by (nonlinear_arith)
            requires x == secs * two_pow(e1) + m1, secs + 1 <= two_pow(b), m1 <= two_pow(53),
                two_pow(e1) == two_pow(up) * two_pow(k), two_pow(53) == two_pow(b) * two_pow(up),
                two_pow(e1) >= two_pow(53);
        lemma_div_round_even_le(x, two_pow(k), two_pow(53));
    }
}

/// The search for the scaling of a quotient of `2^53` or more stops within 61, at the least
/// `k` with `num < 2^53 * den * 2^k`.
proof fn lemma_big_exp(num: nat, den: nat, k: nat)
    requires
        num < 0x4_0000_0000_0000_0000_0000_0000_0000,
        den >= 1,
        k <= 61,
    ensures
        k <= big_exp(num, den, k) <= 61,
        num < two_pow(53) * den * two_pow(big_exp(num, den, k)),
        big_exp(num, den, k) > k ==> num >= two_pow(53) * den * two_pow((big_exp(num, den, k) - 1) as nat),
    decreases 61 - k,
{
    lemma_two_pow_values();
    lemma_two_pow_values_big();
    if num < two_pow(53) * den * two_pow(k) {
    } else {
        if k == 61 {
            assert(false) by (nonlinear_arith)
                requires num < 0x4_0000_0000_0000_0000_0000_0000_0000, den >= 1,
                    num >= two_pow(53) * den * two_pow(61), two_pow(53) == 0x20_0000_0000_0000,
                    two_pow(61) == 0x2000_0000_0000_0000;
        }
        lemma_big_exp(num, den, k + 1);
        assert(((k + 1) - 1) as nat == k);
    }
}

/// The two-decimal rendering of a binary64 quotient below `2^53` is at most `100 * 2^53`.
proof fn lemma_small_ratio_bounded(a: nat, d: nat)
    requires
        1 <= a,
        1 <= d <= two_pow(53),
        a < two_pow(53) * d,
    ensures
        ratio_hundredths(a, d) <= 100 * two_pow(53),
{
    lemma_quotient_value_monotone(a, d, a, d);
    let e = quotient_exp(a, d, 0);
    let m = quotient_sig(a, d);
    lemma_two_pow_pos(e);
    assert(100 * m <= (100 * two_pow(53)) * two_pow(e)) by (nonlinear_arith)
        requires m <= two_pow(53), two_pow(e) >= 1;
    lemma_div_round_even_le(100 * m, two_pow(e), 100 * two_pow(53));
}

/// The two-decimal rendering of a binary64 quotient never decreases as the exact quotient
/// grows, for quotients of any size up to `2^114`.
proof fn lemma_ratio_monotone(a1: nat, d1: nat, a2: nat, d2: nat)
    requires
        1 <= a1 < 0x4_0000_0000_0000_0000_0000_0000_0000,
        1 <= a2 < 0x4_0000_0000_0000_0000_0000_0000_0000,
        1 <= d1 <= two_pow(53),
        1 <= d2 <= two_pow(53),
        a1 * d2 <= a2 * d1,
    ensures
        ratio_hundredths(a1, d1) <= ratio_hundredths(a2, d2),
{
    lemma_two_pow_values();
    let big1 = a1 >= two_pow(53) * d1;
    let big2 = a2 >= two_pow(53) * d2;
    if !big1 && !big2 {
        lemma_ratio_hundredths_monotone(a1, d1, a2, d2);
    } else if big1 && !big2 {
        assert(false) by (nonlinear_arith)
            requires a1 >= two_pow(53) * d1, a2 < two_pow(53) * d2, a1 * d2 <= a2 * d1, d1 >= 1, d2 >= 1;
    } else {
        lemma_big_exp(a2, d2, 1);
        let k2 = big_exp(a2, d2, 1);
        let t2 = two_pow(k2);
        lemma_two_pow_pos(k2);
        // the second is at least 2^52 * 2^k2
        assert(a2 >= (two_pow(52) * d2) * t2) by {
            if k2 == 1 {
                reveal_with_fuel(two_pow, 2);
                assert(a2 >= (two_pow(52) * d2) * t2) by (nonlinear_arith)
                    requires a2 >= two_pow(53) * d2, t2 == 2, two_pow(53) == 2 * two_pow(52);
            } else {
                assert(t2 == 2 * two_pow((k2 - 1) as nat));
                assert(a2 >= (two_pow(52) * d2) * t2) by (nonlinear_arith)
                    requires a2 >= two_pow(53) * d2 * two_pow((k2 - 1) as nat), t2 == 2 * two_pow((k2 - 1) as nat),
                        two_pow(53) == 2 * two_pow(52);
            }
        }
        assert(d2 * t2 >= 1) by (nonlinear_arith)
            requires d2 >= 1, t2 >= 1;
        assert(a2 >= two_pow(52) * (d2 * t2)) by (nonlinear_arith)
            requires a2 >= (two_pow(52) * d2) * t2;
        lemma_div_round_even_ge(a2, d2 * t2, two_pow(52));
        let v2 = div_round_even(a2, d2 * t2);
        if !big1 {
            lemma_small_ratio_bounded(a1, d1);
            assert(100 * two_pow(53) <= 100 * v2 * t2) by (nonlinear_arith)
                requires v2 >= two_pow(52), t2 >= 2, two_pow(53) == 2 * two_pow(52);
        } else {
            lemma_big_exp(a1, d1, 1);
            let k1 = big_exp(a1, d1, 1);
            let t1 = two_pow(k1);
            lemma_two_pow_pos(k1);
            if k1 > k2 {
                lemma_two_pow_mono(k2, (k1 - 1) as nat);
                assert(false) by (nonlinear_arith)
                    requires a1 >= two_pow(53) * d1 * two_pow((k1 - 1) as nat), two_pow((k1 - 1) as nat) >= t2,
                        a2 < two_pow(53) * d2 * t2, a1 * d2 <= a2 * d1, d1 >= 1, d2 >= 1;
            }
            assert(d1 * t1 >= 1) by (nonlinear_arith)
                requires d1 >= 1, t1 >= 1;
            let v1 = div_round_even(a1, d1 * t1);
            if k1 == k2 {
                assert(a1 * (d2 * t2) <= a2 * (d1 * t1)) by (nonlinear_arith)
                    requires a1 * d2 <= a2 * d1, t1 == t2;
                lemma_div_round_even_monotone(a1, d1 * t1, a2, d2 * t2);
                assert(100 * v1 * t1 <= 100 * v2 * t2) by (nonlinear_arith)
                    requires v1 <= v2, t1 == t2;
            } else {
                assert(a1 <= two_pow(53) * (d1 * t1)) by (nonlinear_arith)
                    requires a1 < two_pow(53) * d1 * t1;
                lemma_div_round_even_le(a1, d1 * t1, two_pow(53));
                lemma_two_pow_mono(k1 + 1, k2);
                lemma_two_pow_adds(k1, 1);
                reveal_with_fuel(two_pow, 2);
                assert(two_pow(k1 + 1) == 2 * t1);
                assert(100 * v1 * t1 <= 100 * v2 * t2) by (nonlinear_arith)
                    requires v1 <= two_pow(53), v2 >= two_pow(52), two_pow(53) == 2 * two_pow(52),
                        t2 >= 2 * t1, t1 >= 1;
            }
        }
    }
}

/// Under one second, the binary64 interval is the binary64 quotient of the nanoseconds:
/// at most 1, with a significand of 53 bits and a scaling of at most 82.
proof fn lemma_subsecond_parts(nanos: nat)
    requires
        1 <= nanos < NANOS_PER_SEC,
    ensures
        1 <= seconds_parts(0, nanos).0 <= two_pow(53),
        seconds_parts(0, nanos).0 <= two_pow(seconds_parts(0, nanos).1),
        seconds_parts(0, nanos).1 <= 82,
{
    lemma_two_pow_values();
    lemma_two_pow_values_big();
    let d: nat = 1_000_000_000;
    lemma_quotient_exp(nanos, d, 0);
    lemma_quotient_value_monotone(nanos, d, nanos, d);
    let e = quotient_exp(nanos, d, 0);
    lemma_two_pow_pos(e);
    assert(nanos * two_pow(e) <= two_pow(e) * d) by (nonlinear_arith)
        requires nanos < d;
    lemma_div_round_even_le(nanos * two_pow(e), d, two_pow(e));
    assert(nanos * two_pow(e) >= 1 * d) by (nonlinear_arith)
        requires nanos * two_pow(e) >= two_pow(52) * d, two_pow(52) >= 1;
    lemma_div_round_even_ge(nanos * two_pow(e), d, 1);
    if e > 82 {
        lemma_two_pow_mono(82, (e - 1) as nat);
        assert(nanos * two_pow((e - 1) as nat) >= two_pow(52) * d) by (nonlinear_arith)
            requires nanos >= 1, two_pow((e - 1) as nat) >= 0x4_0000_0000_0000_0000_0000,
                two_pow(52) == 0x10_0000_0000_0000, d == 1_000_000_000;
    }
}

/// A nonzero interval under `2^52` seconds has a binary64 value `m / 2^e` with
/// `1 <= m <= 2^53` and `e <= 82`.
proof fn lemma_interval_parts(secs: nat, nanos: nat)
    requires
        secs < two_pow(52),
        nanos < NANOS_PER_SEC,
        secs > 0 || nanos > 0,
    ensures
        1 <= seconds_parts(secs, nanos).0 <= two_pow(53),
        seconds_parts(secs, nanos).1 <= 82,
{
    if secs == 0 {
        lemma_subsecond_parts(nanos);
    } else {
        lemma_seconds_parts(secs, nanos);
        lemma_bit_length(secs, 0);
    }
}

/// The rendered rate never falls as the count grows, over any nonzero interval.
pub proof fn law_rate_grows_with_count(n1: nat, n2: nat, secs: nat, nanos: nat)
    requires
        n1 <= n2 <= u32::MAX,
        secs > 0 || nanos > 0,
        nanos < NANOS_PER_SEC,
    ensures
        interval_rate_hundredths(n1, secs, nanos) <= interval_rate_hundredths(n2, secs, nanos),
{
    lemma_two_pow_values();
    lemma_two_pow_values_big();
    if n1 > 0 && secs < two_pow(52) {
        lemma_interval_parts(secs, nanos);
        let m = seconds_parts(secs, nanos).0;
        let e = seconds_parts(secs, nanos).1;
        let p = two_pow(e);
        lemma_two_pow_pos(e);
        lemma_two_pow_mono(e, 82);
        assert((n1 * p) * m <= (n2 * p) * m) by (nonlinear_arith)
            requires n1 <= n2;
        assert(n2 * p < 0x4_0000_0000_0000_0000_0000_0000_0000) by (nonlinear_arith)
            requires n2 <= u32::MAX, p <= 0x4_0000_0000_0000_0000_0000;
        assert(n1 * p >= 1 && n1 * p <= n2 * p) by (nonlinear_arith)
            requires n2 >= n1, n1 >= 1, p >= 1;
        lemma_ratio_monotone(n1 * p, m, n2 * p, m);
    }
}

/// For at least one second and under `2^52`, the binary64 interval never decreases as the
/// interval grows: `m1 / 2^e1 <= m2 / 2^e2`.
proof fn lemma_seconds_value_monotone(s1: nat, n1: nat, s2: nat, n2: nat)
    requires
        1 <= s1 <= s2 < two_pow(52),
        n1 < NANOS_PER_SEC,
        n2 < NANOS_PER_SEC,
        s1 < s2 || n1 <= n2,
    ensures
        seconds_parts(s1, n1).0 * two_pow(seconds_parts(s2, n2).1) <= seconds_parts(s2, n2).0
            * two_pow(seconds_parts(s1, n1).1),
{
    lemma_seconds_parts(s1, n1);
    lemma_seconds_parts(s2, n2);
    let m1 = seconds_parts(s1, n1).0;
    let e1 = seconds_parts(s1, n1).1;
    let m2 = seconds_parts(s2, n2).0;
    let e2 = seconds_parts(s2, n2).1;
    let p1 = two_pow(e1);
    let p2 = two_pow(e2);
    lemma_two_pow_pos(e1);
    lemma_two_pow_pos(e2);
    let b1 = bit_length(s1, 0);
    let b2 = bit_length(s2, 0);
    let d: nat = 1_000_000_000;
    if b1 > b2 {
        lemma_two_pow_mono(b2, (b1 - 1) as nat);
    }
    if s1 < s2 {
        // the first stays at most s2, the second at least s2
        assert(m1 <= s2 * p1) by {
            if n1 == 0 {
                assert(p1 == 1);
                assert(s2 * p1 == s2) by (nonlinear_arith)
                    requires p1 == 1;
            } else if b1 < b2 {
                lemma_two_pow_mono(b1, (b2 - 1) as nat);
                assert(m1 <= s2 * p1) by (nonlinear_arith)
                    requires m1 <= two_pow(b1) * p1, two_pow(b1) <= two_pow((b2 - 1) as nat),
                        s2 >= two_pow((b2 - 1) as nat), p1 >= 1;
            } else {
                let f1 = quotient_exp(n1, d, 0);
                let q1 = quotient_sig(n1, d);
                let k1 = (f1 + b1 - 53) as nat;
                let x1 = s1 * two_pow(f1) + q1;
                lemma_two_pow_adds(e1, k1);
                assert(e1 + k1 == f1);
                lemma_two_pow_pos(k1);
                assert(x1 <= (s2 * p1) * two_pow(k1)) by (nonlinear_arith)
                    requires x1 == s1 * two_pow(f1) + q1, q1 <= two_pow(f1), s1 + 1 <= s2,
                        two_pow(f1) == p1 * two_pow(k1);
                lemma_div_round_even_le(x1, two_pow(k1), s2 * p1);
            }
        }
        assert(m1 * p2 <= m2 * p1) by (nonlinear_arith)
            requires m1 <= s2 * p1, s2 * p2 <= m2, p1 >= 1, p2 >= 1;
    } else {
        // same seconds, no more nanoseconds
        if n1 == 0 {
            assert(p1 == 1);
            assert(m1 * p2 <= m2 * p1) by (nonlinear_arith)
                requires m1 == s1, s1 == s2, s2 * p2 <= m2, p1 == 1;
        } else {
            let f1 = quotient_exp(n1, d, 0);
            let q1 = quotient_sig(n1, d);
            let f2 = quotient_exp(n2, d, 0);
            let q2 = quotient_sig(n2, d);
            lemma_two_pow_values();
            lemma_quotient_exp(n1, d, 0);
            lemma_quotient_exp(n2, d, 0);
            assert(n1 * d <= n2 * d) by (nonlinear_arith)
                requires n1 <= n2;
            lemma_quotient_value_monotone(n1, d, n2, d);
            assert(e1 == e2);
            let k1 = (f1 + b1 - 53) as nat;
            let k2 = (f2 + b1 - 53) as nat;
            lemma_two_pow_adds(e1, k1);
            lemma_two_pow_adds(e1, k2);
            assert(e1 + k1 == f1 && e1 + k2 == f2);
            lemma_two_pow_pos(k1);
            lemma_two_pow_pos(k2);
            let x1 = s1 * two_pow(f1) + q1;
            let x2 = s1 * two_pow(f2) + q2;
            let t1 = two_pow(k1);
            let t2 = two_pow(k2);
            assert(q1 * t2 <= q2 * t1) by (nonlinear_arith)
                requires q1 * two_pow(f2) <= q2 * two_pow(f1), two_pow(f1) == p1 * t1,
                    two_pow(f2) == p1 * t2, p1 >= 1;
            assert(x1 * t2 <= x2 * t1) by (nonlinear_arith)
                requires x1 == s1 * (p1 * t1) + q1, x2 == s1 * (p1 * t2) + q2, q1 * t2 <= q2 * t1;
            lemma_div_round_even_monotone(x1, t1, x2, t2);
            assert(m1 * p2 <= m2 * p1) by (nonlinear_arith)
                requires m1 <= m2, p1 == p2;
        }
    }
}

/// A nonzero binary64 interval never decreases as the interval grows: `m1 / 2^e1 <= m2 / 2^e2`.
proof fn lemma_interval_value_monotone(s1: nat, n1: nat, s2: nat, n2: nat)
    requires
        s1 <= s2 < two_pow(52),
        n1 < NANOS_PER_SEC,
        n2 < NANOS_PER_SEC,
        s1 > 0 || n1 > 0,
        s1 < s2 || n1 <= n2,
    ensures
        seconds_parts(s1, n1).0 * two_pow(seconds_parts(s2, n2).1) <= seconds_parts(s2, n2).0
            * two_pow(seconds_parts(s1, n1).1),
{
    if s1 >= 1 {
        lemma_seconds_value_monotone(s1, n1, s2, n2);
    } else {
        lemma_subsecond_parts(n1);
        let m1 = seconds_parts(s1, n1).0;
        let p1 = two_pow(seconds_parts(s1, n1).1);
        let m2 = seconds_parts(s2, n2).0;
        let p2 = two_pow(seconds_parts(s2, n2).1);
        lemma_two_pow_pos(seconds_parts(s2, n2).1);
        if s2 == 0 {
            let d: nat = 1_000_000_000;
            lemma_two_pow_values();
            assert(n1 * d <= n2 * d) by (nonlinear_arith)
                requires n1 <= n2;
            lemma_quotient_value_monotone(n1, d, n2, d);
        } else {
            // the first is at most 1, the second at least 1
            lemma_seconds_parts(s2, n2);
            assert(m1 * p2 <= m2 * p1) by (nonlinear_arith)
                requires m1 <= p1, s2 * p2 <= m2, s2 >= 1, p2 >= 1;
        }
    }
}

/// The rendered rate never grows as the interval grows, over nonzero intervals.
pub proof fn law_rate_falls_with_interval(n: nat, secs1: nat, nanos1: nat, secs2: nat, nanos2: nat)
    requires
        n <= u32::MAX,
        secs1 <= secs2,
        nanos1 < NANOS_PER_SEC,
        nanos2 < NANOS_PER_SEC,
        secs1 > 0 || nanos1 > 0,
        secs1 < secs2 || nanos1 <= nanos2,
    ensures
        interval_rate_hundredths(n, secs2, nanos2) <= interval_rate_hundredths(n, secs1, nanos1),
{
    lemma_two_pow_values();
    lemma_two_pow_values_big();
    if n > 0 && secs2 < two_pow(52) {
        lemma_interval_parts(secs1, nanos1);
        lemma_interval_parts(secs2, nanos2);
        lemma_interval_value_monotone(secs1, nanos1, secs2, nanos2);
        let m1 = seconds_parts(secs1, nanos1).0;
        let e1 = seconds_parts(secs1, nanos1).1;
        let m2 = seconds_parts(secs2, nanos2).0;
        let e2 = seconds_parts(secs2, nanos2).1;
        let p1 = two_pow(e1);
        let p2 = two_pow(e2);
        lemma_two_pow_pos(e1);
        lemma_two_pow_pos(e2);
        lemma_two_pow_mono(e1, 82);
        lemma_two_pow_mono(e2, 82);
        assert((n * p2) * m1 <= (n * p1) * m2) by (nonlinear_arith)
            requires m1 * p2 <= m2 * p1;
        assert(n * p1 < 0x4_0000_0000_0000_0000_0000_0000_0000 && n * p2
            < 0x4_0000_0000_0000_0000_0000_0000_0000) by (nonlinear_arith)
            requires n <= u32::MAX, p1 <= 0x4_0000_0000_0000_0000_0000, p2 <= 0x4_0000_0000_0000_0000_0000;
        assert(n * p1 >= 1 && n * p2 >= 1) by (nonlinear_arith)
            requires n >= 1, p1 >= 1, p2 >= 1;
        lemma_ratio_monotone(n * p2, m2, n * p1, m1);
    }
}

/// `a / b` rounded to the nearest integer, ties to even.
fn div_round_even_exec(a: u128, b: u128) -> (r: u128)
    requires
        b > 0,
        b < 0x8000_0000_0000_0000_0000_0000_0000_0000,
        a < u128::MAX,
    ensures
        r == div_round_even(a as nat, b as nat),
        r <= a + 1,
{
    let q = a / b;
    let r = a % b;
    assert(q <= a) by (nonlinear_arith)
        requires q == a / b, b > 0;
    if 2 * r > b || (2 * r == b && q % 2 == 1) {
        q + 1
    } else {
        q
    }
}

/// The exponent and the significand of the binary64 quotient `n / s`, for a quotient
/// below `2^53`.
fn quotient_parts(n: u128, s: u128) -> (r: (u32, u128))
    requires
        0 < n,
        0 < s <= 0x20_0000_0000_0000,
        n < 0x20_0000_0000_0000 * s,
    ensures
        r.0 as nat == quotient_exp(n as nat, s as nat, 0),
        r.1 as nat == quotient_sig(n as nat, s as nat),
        r.0 <= 105,
        1 <= r.1 <= 0x20_0000_0000_0000,
        n * two_pow(r.0 as nat) >= two_pow(52) * s,
        r.0 > 0 ==> n * two_pow((r.0 - 1) as nat) < two_pow(52) * s,
{
    let ghost nn = n as nat;
    let ghost ss = s as nat;
    let two52: u128 = 0x10_0000_0000_0000;
    proof {
        lemma_two_pow_values();
        lemma_quotient_exp(nn, ss, 0);
    }
    let target: u128 = two52 * s;
    assert(target <= 0x200_0000_0000_0000_0000_0000_0000) by (nonlinear_arith)
        requires target == two52 * s, two52 == 0x10_0000_0000_0000, s <= 0x20_0000_0000_0000u128;
    let mut e: u32 = 0;
    let mut p: u128 = 1;
    while n * p < target
        invariant
            p == two_pow(e as nat),
            e <= 105,
            target == two_pow(52) * ss,
            two52 == two_pow(52),
            0 < nn,
            0 < ss <= 0x20_0000_0000_0000,
            nn == n,
            ss == s,
            n * p < 2 * target,
            target <= 0x200_0000_0000_0000_0000_0000_0000,
            quotient_exp(nn, ss, 0) == quotient_exp(nn, ss, e as nat),
        decreases 105 - e,
    {
        assert(e < 105) by {
            if e >= 105 {
                lemma_two_pow_mono(105, e as nat);
                lemma_two_pow_values();
                assert(nn * two_pow(e as nat) >= two_pow(52) * ss) by (nonlinear_arith)
                    requires nn >= 1, two_pow(e as nat) >= 0x200_0000_0000_0000_0000_0000_0000,
                        ss <= 0x20_0000_0000_0000, two_pow(52) == 0x10_0000_0000_0000;
            }
        }
        let ghost old_p = p;
        assert(old_p <= n * old_p) by (nonlinear_arith)
            requires n >= 1u128;
        assert(n * (2 * old_p) == 2 * (n * old_p)) by (nonlinear_arith);
        assert(quotient_exp(nn, ss, e as nat) == quotient_exp(nn, ss, (e + 1) as nat));
        p = p * 2;
        e = e + 1;
    }
    let num: u128 = n * p;
    let sig = div_round_even_exec(num, s);
    proof {
        lemma_div_round_even_le(num as nat, ss, 0x20_0000_0000_0000);
        assert(num / s >= 1) by (nonlinear_arith)
            requires num >= target, target == two52 * s, two52 == 0x10_0000_0000_0000, s > 0;
    }
    (e, sig)
}

/// `2^e` as a machine integer.
fn two_pow_exec(e: u32) -> (d: u128)
    requires
        e <= 105,
    ensures
        d == two_pow(e as nat),
{
    let mut d: u128 = 1;
    let mut i: u32 = 0;
    while i < e
        invariant
            i <= e,
            e <= 105,
            d == two_pow(i as nat),
        decreases e - i,
    {
        proof { lemma_two_pow_mono(i as nat, 104); lemma_two_pow_values(); }
        d = d * 2;
        i = i + 1;
    }
    d
}

/// `(a * b + c) / b == a + c / b` and `(a * b + c) % b == c % b`.
proof fn lemma_div_mod_shift(a: nat, b: nat, c: nat)
    requires
        b > 0,
    ensures
        (a * b + c) / b == a + c / b,
        (a * b + c) % b == c % b,
{
    let q = c / b;
    let r = c % b;
    assert(c == q * b + r && 0 <= r < b) by (nonlinear_arith)
        requires q == c / b, r == c % b, b > 0;
    assert(a * b + c == (a + q) * b + r) by (nonlinear_arith)
        requires c == q * b + r;
    vstd::arithmetic::div_mod::lemma_fundamental_div_mod_converse(
        (a * b + c) as int,
        b as int,
        (a + q) as int,
        r as int,
    );
}

/// The binary64 value of `secs + nanos / 10^9` as `(m, e)`, value `m / 2^e`.
fn seconds_parts_exec(secs: u64, nanos: u32) -> (r: (u128, u32))
    requires
        secs < 0x10_0000_0000_0000,
        nanos < NANOS_PER_SEC,
        secs > 0 || nanos > 0,
    ensures
        r.0 as nat == seconds_parts(secs as nat, nanos as nat).0,
        r.1 as nat == seconds_parts(secs as nat, nanos as nat).1,
        1 <= r.0 <= 0x20_0000_0000_0000,
        r.1 <= 82,
{
    proof { lemma_two_pow_values(); lemma_two_pow_values_big(); }
    if nanos == 0 {
        return (secs as u128, 0);
    }
    let (e1, m1) = quotient_parts(nanos as u128, NANOS_PER_SEC as u128);
    let ghost nn = nanos as nat;
    proof {
        // 52 < e1 <= 82: the quotient lies in [1e-9, 1)
        if e1 <= 52 {
            lemma_two_pow_mono(e1 as nat, 52);
            assert(nn * two_pow(e1 as nat) < two_pow(52) * 1_000_000_000) by (nonlinear_arith)
                requires nn < 1_000_000_000, two_pow(e1 as nat) <= two_pow(52), two_pow(52) > 0;
        }
        if e1 > 82 {
            lemma_two_pow_mono(82, (e1 - 1) as nat);
            assert(nn * two_pow((e1 - 1) as nat) >= two_pow(52) * 1_000_000_000) by (nonlinear_arith)
                requires nn >= 1, two_pow((e1 - 1) as nat) >= 0x4_0000_0000_0000_0000_0000,
                    two_pow(52) == 0x10_0000_0000_0000;
        }
    }
    if secs == 0 {
        return (m1, e1);
    }
    // the bit length of the seconds
    let mut b: u32 = 0;
    let mut pb: u64 = 1;
    while pb <= secs
        invariant
            pb as nat == two_pow(b as nat),
            b <= 52,
            secs < 0x10_0000_0000_0000,
            two_pow(52) == 0x10_0000_0000_0000,
            bit_length(secs as nat, 0) == bit_length(secs as nat, b as nat),
        decreases 52 - b,
    {
        assert(b < 52) by {
            if b >= 52 {
                lemma_two_pow_mono(52, b as nat);
            }
        }
        assert(bit_length(secs as nat, b as nat) == bit_length(secs as nat, (b + 1) as nat));
        proof { lemma_two_pow_mono(b as nat, 51); reveal_with_fuel(two_pow, 2); }
        pb = pb * 2;
        b = b + 1;
    }
    assert(b >= 1) by {
        if b == 0 {
            reveal_with_fuel(two_pow, 1);
        }
    }
    let ghost bb = b as nat;
    let ghost e = e1 as nat;
    let k: u32 = e1 + b - 53;
    let up: u32 = 53 - b;
    let pk = two_pow_exec(k);
    let pu = two_pow_exec(up);
    proof {
        lemma_two_pow_adds(up as nat, k as nat);
        assert(up as nat + k as nat == e);
        lemma_two_pow_pos(k as nat);
        lemma_two_pow_mono(up as nat, 52);
        lemma_two_pow_mono(k as nat, 81);
        assert(two_pow(81) == 0x2_0000_0000_0000_0000_0000) by {
            reveal_with_fuel(two_pow, 2);
        }
    }
    // secs < 2^b, so secs * 2^(53 - b) < 2^53
    assert((secs as u128) * pu < 0x20_0000_0000_0000) by {
        lemma_two_pow_adds(bb, up as nat);
        assert(bb + up as nat == 53);
        assert((secs as nat) * two_pow(up as nat) < two_pow(bb) * two_pow(up as nat)) by (nonlinear_arith)
            requires (secs as nat) < two_pow(bb), two_pow(up as nat) > 0;
    }
    let hi: u128 = (secs as u128) * pu;
    proof { lemma_two_pow_pos(up as nat); }
    assert(hi >= 1) by (nonlinear_arith)
        requires hi == (secs as u128) * pu, secs >= 1u64, pu >= 1u128;
    let q: u128 = hi + m1 / pk;
    let r: u128 = m1 % pk;
    let m: u128 = if 2 * r > pk || (2 * r == pk && q % 2 == 1) {
        q + 1
    } else {
        q
    };
    proof {
        let x = (secs as nat) * two_pow(e) + (m1 as nat);
        assert(x == (hi as nat) * (pk as nat) + (m1 as nat)) by (nonlinear_arith)
            requires hi == (secs as nat) * two_pow(up as nat), two_pow(e) == two_pow(up as nat) * two_pow(k as nat),
                pk == two_pow(k as nat), x == (secs as nat) * two_pow(e) + (m1 as nat);
        lemma_div_mod_shift(hi as nat, pk as nat, m1 as nat);
        // the rounded value stays within 53 bits and above 1
        lemma_two_pow_adds(bb, up as nat);
        assert(bb + up as nat == 53);
        assert(hi + pu <= 0x20_0000_0000_0000) by (nonlinear_arith)
            requires hi == (secs as nat) * (pu as nat), (secs as nat) + 1 <= two_pow(bb),
                two_pow(bb) * (pu as nat) == 0x20_0000_0000_0000;
        lemma_two_pow_mono(53, e);
        assert(x <= 0x20_0000_0000_0000 * (pk as nat)) by (nonlinear_arith)
            requires x == (hi as nat) * (pk as nat) + (m1 as nat), m1 <= 0x20_0000_0000_0000,
                (pu as nat) * (pk as nat) >= 0x20_0000_0000_0000, hi + pu <= 0x20_0000_0000_0000;
        lemma_div_round_even_le(x, pk as nat, 0x20_0000_0000_0000);
    }
    (m, up)
}

/// The binary64 quotient `num / den` in hundredths, as two-decimal formatting renders it.
pub fn ratio_hundredths_exec(num: u128, den: u128) -> (h: u128)
    requires
        0 < num < 0x4_0000_0000_0000_0000_0000_0000_0000,
        0 < den <= 0x20_0000_0000_0000,
    ensures
        h as nat == ratio_hundredths(num as nat, den as nat),
{
    proof { lemma_two_pow_values(); }
    let two53: u128 = 0x20_0000_0000_0000;
    if num < two53 * den {
        let (e, sig) = quotient_parts(num, den);
        let d = two_pow_exec(e);
        proof { lemma_two_pow_mono(e as nat, 105); lemma_two_pow_pos(e as nat); }
        return div_round_even_exec(100 * sig, d);
    }
    let ghost nn = num as nat;
    let ghost dd = den as nat;
    let bound: u128 = two53 * den;
    let mut k: u32 = 1;
    let mut p: u128 = 2;
    proof { reveal_with_fuel(two_pow, 2); }
    while num / p >= bound
        invariant
            p == two_pow(k as nat),
            p >= 2,
            1 <= k <= 61,
            bound == two_pow(53) * dd,
            two_pow(53) == 0x20_0000_0000_0000,
            1 <= dd <= 0x20_0000_0000_0000,
            nn == num,
            dd == den,
            0 < nn < 0x4_0000_0000_0000_0000_0000_0000_0000,
            big_exp(nn, dd, 1) == big_exp(nn, dd, k as nat),
        decreases 61 - k,
    {
        proof { lemma_two_pow_pos(k as nat); }
        assert(num >= bound * p) by (nonlinear_arith)
            requires num / p >= bound, p > 0;
        assert(k < 61) by {
            if k >= 61 {
                lemma_two_pow_values_big();
                assert(bound * p >= 0x4_0000_0000_0000_0000_0000_0000_0000) by (nonlinear_arith)
                    requires bound >= 0x20_0000_0000_0000, p == 0x2000_0000_0000_0000;
            }
        }
        assert(!(nn < two_pow(53) * dd * two_pow(k as nat)));
        assert(big_exp(nn, dd, k as nat) == big_exp(nn, dd, (k + 1) as nat));
        proof { lemma_two_pow_mono(k as nat, 60); lemma_two_pow_values_big(); }
        p = p * 2;
        k = k + 1;
    }
    proof {
        lemma_two_pow_pos(k as nat);
        lemma_two_pow_mono(k as nat, 61);
        lemma_two_pow_values_big();
    }
    assert(num < bound * p) by (nonlinear_arith)
        requires num / p < bound, p > 0;
    assert(den * p <= 0x20_0000_0000_0000 * 0x2000_0000_0000_0000) by (nonlinear_arith)
        requires den <= 0x20_0000_0000_0000u128, p <= 0x2000_0000_0000_0000u128;
    let dp: u128 = den * p;
    assert(dp >= 1) by (nonlinear_arith)
        requires dp == den * p, den >= 1, p >= 1;
    let mant = div_round_even_exec(num, dp);
    proof {
        assert(num <= 0x20_0000_0000_0000 * dp) by (nonlinear_arith)
            requires num < bound * p, bound == 0x20_0000_0000_0000 * den, dp == den * p;
        lemma_div_round_even_le(nn, dp as nat, 0x20_0000_0000_0000);
        assert(dd * two_pow(k as nat) == dp);
    }
    assert(100 * mant * p <= 100 * 0x20_0000_0000_0000 * 0x2000_0000_0000_0000) by (nonlinear_arith)
        requires mant <= 0x20_0000_0000_0000u128, p <= 0x2000_0000_0000_0000u128;
    100 * mant * p
}

/// The binary64 rate `n / (secs + nanos / 10^9)` in hundredths, as two-decimal
/// formatting renders it.
pub fn interval_rate_hundredths_exec(n: u64, secs: u64, nanos: u32) -> (h: u128)
    requires
        n <= u32::MAX,
        nanos < NANOS_PER_SEC,
        secs > 0 || nanos > 0,
    ensures
        h as nat == interval_rate_hundredths(n as nat, secs as nat, nanos as nat),
{
    proof { lemma_two_pow_values(); lemma_two_pow_values_big(); }
    if n == 0 || secs >= 0x10_0000_0000_0000 {
        return 0;
    }
    let (m, e) = seconds_parts_exec(secs, nanos);
    let pe = two_pow_exec(e);
    proof { lemma_two_pow_mono(e as nat, 82); lemma_two_pow_pos(e as nat); }
    assert((n as u128) * pe < 0x4_0000_0000_0000_0000_0000_0000_0000) by (nonlinear_arith)
        requires n <= 0xffff_ffffu64, pe <= 0x4_0000_0000_0000_0000_0000u128;
    assert((n as u128) * pe >= 1) by (nonlinear_arith)
        requires n >= 1u64, pe >= 1u128;
    ratio_hundredths_exec((n as u128) * pe, m)
}

/// The percentage `v` is of `t`, computed in binary64 and rounded to hundredths.
pub fn percent_hundredths_exec(v: u32, t: u32) -> (h: u64)
    requires
        v <= t,
        t > 0,
    ensures
        h as nat == percent_hundredths(v as nat, t as nat),
{
    if v == 0 {
        return 0;
    }
    proof { lemma_two_pow_values(); }
    let (e, m) = quotient_parts(v as u128, t as u128);
    let x: u128 = 100 * m;
    let ghost xx = x as nat;
    let mut k: u32 = 0;
    let mut d: u128 = 1;
    let two53: u128 = 0x20_0000_0000_0000;
    while x >= two53 * d
        invariant
            d == two_pow(k as nat),
            k <= 7,
            d <= 128,
            x <= 100 * 0x20_0000_0000_0000,
            two53 == two_pow(53),
            two_pow(53) == 0x20_0000_0000_0000,
            xx == x,
            drop_exp(xx, 0) == drop_exp(xx, k as nat),
        decreases 7 - k,
    {
        assert(k < 7) by {
            if k >= 7 {
                reveal_with_fuel(two_pow, 8);
                assert(two53 * d >= 0x20_0000_0000_0000 * 128) by (nonlinear_arith)
                    requires d == 128, two53 == 0x20_0000_0000_0000;
            }
        }
        assert(d <= 64) by {
            if d > 64 {
                reveal_with_fuel(two_pow, 8);
                lemma_two_pow_mono(k as nat, 6);
            }
        }
        assert(drop_exp(xx, k as nat) == drop_exp(xx, (k + 1) as nat));
        d = d * 2;
        k = k + 1;
    }
    proof { lemma_two_pow_pos(k as nat); }
    let mm = div_round_even_exec(x, d);
    let ee: u32 = if e >= k { e - k } else { 0 };
    let d2 = two_pow_exec(ee);
    proof { lemma_two_pow_pos(ee as nat); lemma_two_pow_mono(ee as nat, 105); }
    let h = div_round_even_exec(100 * mm, d2);
    proof { law_percent_at_most_hundred(v as nat, t as nat); }
    h as u64
}

} // verus!
