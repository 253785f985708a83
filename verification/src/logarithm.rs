//! Base-two logarithms and powers in Q16, the pair under every conversion
//! between magnitudes and levels.
//!
//! The logarithm is worked out bit by bit: the number's mantissa is squared
//! sixteen times, and each time the square reaches two, the next bit of the
//! logarithm is one and the square is halved. Every square is rounded down to
//! 63 fractional bits, so the result is the true logarithm rounded down to a
//! 65536th of an octave, or one such step less. The power is the logarithm's
//! inverse: the smallest number whose logarithm reaches the exponent.

use vstd::arithmetic::power::{
    lemma_pow1, lemma_pow_distributes, lemma_pow_multiplies, lemma_square_is_pow2, pow,
};
use vstd::arithmetic::power2::{
    lemma2_to64, lemma2_to64_rest, lemma_pow2, lemma_pow2_adds, lemma_pow2_pos,
    lemma_pow2_strictly_increases, lemma_pow2_unfold, pow2,
};
use vstd::prelude::*;

use crate::numeric::{
    floor_log2, integer_log2, lemma_floor_log2_brackets, lemma_floor_log2_monotonic,
    lemma_floor_log2_unique, power_of_two,
};

verus! {

/// One, in Q16 fixed point.
pub const ONE_Q16: u64 = 65_536;

/// The base-two logarithm of `ONE_Q16`, in Q16.
pub const LOG2_OF_ONE_Q16: i64 = 1_048_576;

/// One, as a mantissa with 63 fractional bits.
pub const MANTISSA_ONE: u128 = 0x8000_0000_0000_0000;

/// Whether `log2` is the base-two logarithm of `m` in 65536ths of an octave,
/// rounded down, or one less. Said in whole numbers: `m` raised to 65536 is
/// at least two to the power of `log2`, and less than two to the power of
/// `log2 + 2`.
pub open spec fn logarithm_brackets(m: int, log2: int) -> bool {
    &&& log2 >= 0
    &&& pow2(log2 as nat) <= pow(m, 65_536)
    &&& pow(m, 65_536) < 4 * pow2(log2 as nat)
}

/// Whether `power` is two to the power of `exponent` 65536ths of an octave,
/// rounded up to a whole number, or no further above that than the
/// logarithm is below the true one. Said in whole numbers: `power` raised to
/// 65536 is at least two to the power of `exponent`, and the number before
/// `power`, raised to 65536, is less than two to the power of `exponent + 1`.
pub open spec fn power_brackets(power: int, exponent: int) -> bool {
    &&& power >= 1
    &&& exponent >= 0
    &&& pow2(exponent as nat) <= pow(power, 65_536)
    &&& power > 1 ==> pow(power - 1, 65_536) < 2 * pow2(exponent as nat)
}

/// The square of the mantissa `x`, rounded down to 63 fractional bits.
pub open spec fn squared_mantissa(x: nat) -> nat {
    x * x / (MANTISSA_ONE as nat)
}

/// The first `steps` fractional bits of the base-two logarithm of the
/// mantissa `x`, a number from one up to two with 63 fractional bits.
pub open spec fn log2_bits(x: nat, steps: nat) -> nat
    decreases steps,
{
    if steps == 0 {
        0
    } else if squared_mantissa(x) >= 2 * MANTISSA_ONE {
        pow2((steps - 1) as nat) + log2_bits(squared_mantissa(x) / 2, (steps - 1) as nat)
    } else {
        log2_bits(squared_mantissa(x), (steps - 1) as nat)
    }
}

/// `m` scaled by a power of two to a mantissa with 63 fractional bits.
pub open spec fn mantissa_q63(m: nat) -> nat {
    m * pow2((63 - floor_log2(m)) as nat)
}

/// The base-two logarithm of `m` in Q16, for `m` of at least one.
pub open spec fn log2_q16(m: nat) -> int {
    (floor_log2(m) * 65_536 + log2_bits(mantissa_q63(m), 16)) as int
}

/// The square of a mantissa from one up to two is from one up to four.
pub proof fn lemma_squared_mantissa_range(x: nat)
    requires
        MANTISSA_ONE <= x < 2 * MANTISSA_ONE,
    ensures
        MANTISSA_ONE <= squared_mantissa(x) < 4 * MANTISSA_ONE,
        MANTISSA_ONE <= squared_mantissa(x) / 2 || squared_mantissa(x) < 2 * MANTISSA_ONE,
        squared_mantissa(x) / 2 < 2 * MANTISSA_ONE,
{
    let square = x * x;
    assert(0x8000_0000_0000_0000 * 0x8000_0000_0000_0000 <= square < 4
        * 0x8000_0000_0000_0000 * 0x8000_0000_0000_0000) by (nonlinear_arith)
        requires
            0x8000_0000_0000_0000 <= x < 2 * 0x8000_0000_0000_0000,
            square == x * x,
    ;
}

/// A larger mantissa never has a smaller square.
proof fn lemma_squared_mantissa_monotonic(x: nat, y: nat)
    requires
        x <= y,
    ensures
        squared_mantissa(x) <= squared_mantissa(y),
{
    assert(x * x <= y * y) by (nonlinear_arith)
        requires
            0 <= x <= y,
    ;
}

/// `steps` bits make a number below two to the power of `steps`.
pub proof fn lemma_log2_bits_bound(x: nat, steps: nat)
    ensures
        log2_bits(x, steps) < pow2(steps),
    decreases steps,
{
    if steps == 0 {
        lemma2_to64();
    } else {
        lemma_pow2_unfold(steps);
        lemma_log2_bits_bound(squared_mantissa(x) / 2, (steps - 1) as nat);
        lemma_log2_bits_bound(squared_mantissa(x), (steps - 1) as nat);
    }
}

/// A larger mantissa never has a smaller logarithm.
pub proof fn lemma_log2_bits_monotonic(x: nat, y: nat, steps: nat)
    requires
        MANTISSA_ONE <= x <= y < 2 * MANTISSA_ONE,
    ensures
        log2_bits(x, steps) <= log2_bits(y, steps),
    decreases steps,
{
    if steps > 0 {
        let rest = (steps - 1) as nat;
        let x2 = squared_mantissa(x);
        let y2 = squared_mantissa(y);
        lemma_squared_mantissa_range(x);
        lemma_squared_mantissa_range(y);
        lemma_squared_mantissa_monotonic(x, y);
        if y2 < 2 * MANTISSA_ONE {
            lemma_log2_bits_monotonic(x2, y2, rest);
        } else if x2 >= 2 * MANTISSA_ONE {
            lemma_log2_bits_monotonic(x2 / 2, y2 / 2, rest);
        } else {
            lemma_log2_bits_bound(x2, rest);
        }
    }
}

/// The logarithm of a mantissa of exactly one is zero.
pub proof fn lemma_log2_bits_of_one(steps: nat)
    ensures
        log2_bits(MANTISSA_ONE as nat, steps) == 0,
    decreases steps,
{
    if steps > 0 {
        assert(squared_mantissa(MANTISSA_ONE as nat) == MANTISSA_ONE) by {
            assert(0x8000_0000_0000_0000nat * 0x8000_0000_0000_0000nat / 0x8000_0000_0000_0000nat
                == 0x8000_0000_0000_0000nat);
        }
        lemma_log2_bits_of_one((steps - 1) as nat);
    }
}

/// The mantissa of a number of at least one and below 2^64 is from one up to
/// two.
pub proof fn lemma_mantissa_range(m: nat)
    requires
        1 <= m < 0x1_0000_0000_0000_0000,
    ensures
        floor_log2(m) <= 63,
        MANTISSA_ONE <= mantissa_q63(m) < 2 * MANTISSA_ONE,
{
    let k = floor_log2(m);
    lemma_floor_log2_brackets(m);
    lemma2_to64();
    lemma2_to64_rest();
    if k > 64 {
        lemma_pow2_strictly_increases(64, k);
    }
    assert(k <= 63);
    let up = (63 - k) as nat;
    let low = pow2(k);
    let lift = pow2(up);
    lemma_pow2_adds(k, up);
    lemma_pow2_pos(up);
    assert(low * lift == 0x8000_0000_0000_0000);
    assert(low * lift <= m * lift < 2 * (low * lift)) by (nonlinear_arith)
        requires
            low <= m < 2 * low,
            lift > 0,
    ;
}

/// A larger number never has a smaller logarithm.
pub proof fn lemma_log2_monotonic(m1: nat, m2: nat)
    requires
        1 <= m1 <= m2 < 0x1_0000_0000_0000_0000,
    ensures
        0 <= log2_q16(m1) <= log2_q16(m2),
{
    let k1 = floor_log2(m1);
    let k2 = floor_log2(m2);
    lemma_floor_log2_monotonic(m1, m2);
    lemma_mantissa_range(m1);
    lemma_mantissa_range(m2);
    lemma_log2_bits_bound(mantissa_q63(m1), 16);
    lemma2_to64();
    if k1 == k2 {
        let up = pow2((63 - k1) as nat);
        assert(m1 * up <= m2 * up) by (nonlinear_arith)
            requires
                m1 <= m2,
                up >= 0,
        ;
        lemma_log2_bits_monotonic(mantissa_q63(m1), mantissa_q63(m2), 16);
    }
}

/// The logarithm of a power of two is its exponent.
pub proof fn lemma_log2_of_power(exponent: nat)
    requires
        exponent <= 63,
    ensures
        log2_q16(pow2(exponent)) == exponent * 65_536,
{
    lemma_pow2_pos(exponent);
    lemma_floor_log2_unique(pow2(exponent), exponent);
    lemma_pow2_adds(exponent, (63 - exponent) as nat);
    lemma2_to64_rest();
    lemma_log2_bits_of_one(16);
}

/// A number below a power of two has a logarithm below that power's exponent.
pub proof fn lemma_log2_below_power(m: nat, exponent: nat)
    requires
        1 <= m < pow2(exponent),
        exponent <= 64,
    ensures
        0 <= log2_q16(m) < exponent * 65_536,
{
    let k = floor_log2(m);
    lemma_floor_log2_brackets(m);
    if k >= exponent {
        if k > exponent {
            lemma_pow2_strictly_increases(exponent, k);
        }
    }
    lemma_log2_bits_bound(mantissa_q63(m), 16);
    lemma2_to64();
}

/// One squaring keeps the true value bracketed. Where `x` over one stands
/// for `n` over `d` from below, short by at most `e`, the rounded square of
/// `x` stands for the square of `n` over the square of `d` from below, short
/// by at most `5 * e + 1`.
proof fn lemma_square_step(x: int, e: int, n: int, d: int)
    requires
        MANTISSA_ONE <= x < 2 * MANTISSA_ONE,
        0 <= e < MANTISSA_ONE,
        n >= 0,
        d > 0,
        x * d <= n * MANTISSA_ONE,
        n * MANTISSA_ONE <= (x + e) * d,
    ensures
        (x * x / (MANTISSA_ONE as int)) * (d * d) <= (n * n) * MANTISSA_ONE,
        (n * n) * MANTISSA_ONE <= (x * x / (MANTISSA_ONE as int) + 5 * e + 1) * (d * d),
{
    let s = MANTISSA_ONE as int;
    let square = x * x;
    let q = square / s;
    let low = x * d;
    let mid = n * s;
    let high = (x + e) * d;
    let dd = d * d;
    let nn = n * n;
    let wide = (x + e) * (x + e);
    assert(q * s <= square < q * s + s);
    assert(low >= 0) by (nonlinear_arith)
        requires
            low == x * d,
            x >= 0,
            d > 0,
    ;
    assert(mid >= 0) by (nonlinear_arith)
        requires
            mid == n * s,
            n >= 0,
            s > 0,
    ;
    assert(low * low <= mid * mid) by (nonlinear_arith)
        requires
            0 <= low <= mid,
    ;
    assert(mid * mid <= high * high) by (nonlinear_arith)
        requires
            0 <= mid <= high,
    ;
    assert(low * low == square * dd) by (nonlinear_arith)
        requires
            low == x * d,
            square == x * x,
            dd == d * d,
    ;
    assert(mid * mid == (nn * s) * s) by (nonlinear_arith)
        requires
            mid == n * s,
            nn == n * n,
    ;
    assert(high * high == wide * dd) by (nonlinear_arith)
        requires
            high == (x + e) * d,
            wide == (x + e) * (x + e),
            dd == d * d,
    ;
    assert(dd > 0) by (nonlinear_arith)
        requires
            dd == d * d,
            d > 0,
    ;
    assert((q * dd) * s <= square * dd) by (nonlinear_arith)
        requires
            q * s <= square,
            dd > 0,
    ;
    assert(q * dd <= nn * s) by (nonlinear_arith)
        requires
            (q * dd) * s <= (nn * s) * s,
            s > 0,
    ;
    assert(wide <= (q + 5 * e + 1) * s) by (nonlinear_arith)
        requires
            wide == (x + e) * (x + e),
            square == x * x,
            square < q * s + s,
            0 <= x < 2 * s,
            0 <= e < s,
    ;
    assert(wide * dd <= ((q + 5 * e + 1) * dd) * s) by (nonlinear_arith)
        requires
            wide <= (q + 5 * e + 1) * s,
            dd > 0,
    ;
    assert(nn * s <= (q + 5 * e + 1) * dd) by (nonlinear_arith)
        requires
            (nn * s) * s <= ((q + 5 * e + 1) * dd) * s,
            s > 0,
    ;
}

/// The bits of a mantissa bracket the true logarithm. Where `x` over one
/// stands for `n` over `d` from below, short by little, `n` over `d` raised to
/// two to the power of `steps` lies from two to the power of the bits up to
/// four times that.
proof fn lemma_log2_bits_bracket(x: int, steps: nat, n: int, d: int, e: int)
    requires
        MANTISSA_ONE <= x < 2 * MANTISSA_ONE,
        0 <= e,
        (e + 1) * pow2(3 * steps) <= MANTISSA_ONE,
        n >= 0,
        d > 0,
        x * d <= n * MANTISSA_ONE,
        n * MANTISSA_ONE <= (x + e) * d,
    ensures
        pow2(log2_bits(x as nat, steps)) * pow(d, pow2(steps)) <= pow(n, pow2(steps)),
        pow(n, pow2(steps)) < 4 * (pow2(log2_bits(x as nat, steps)) * pow(d, pow2(steps))),
    decreases steps,
{
    let s = MANTISSA_ONE as int;
    lemma_pow2_pos(3 * steps);
    assert(e + 1 <= s) by (nonlinear_arith)
        requires
            (e + 1) * pow2(3 * steps) <= s,
            pow2(3 * steps) >= 1,
            e >= 0,
    ;
    if steps == 0 {
        lemma2_to64();
        lemma_pow1(d);
        lemma_pow1(n);
        assert(d <= n) by (nonlinear_arith)
            requires
                s <= x,
                x * d <= n * s,
                d > 0,
                s > 0,
        ;
        assert(n < 4 * d) by (nonlinear_arith)
            requires
                x < 2 * s,
                e < s,
                n * s <= (x + e) * d,
                d > 0,
                s > 0,
        ;
        assert(pow2(steps) == 1);
        assert(log2_bits(x as nat, steps) == 0);
        assert(pow2(0) * pow(d, 1) == d);
    } else {
        let rest = (steps - 1) as nat;
        let half = pow2(rest);
        let q = x * x / s;
        let dd = d * d;
        let nn = n * n;
        let e1 = 5 * e + 1;
        lemma_square_step(x, e, n, d);
        lemma_squared_mantissa_range(x as nat);
        lemma_pow2_unfold(steps);
        lemma_pow2_adds(3, 3 * rest);
        lemma2_to64();
        lemma_pow2_pos(3 * rest);
        assert((e1 + 1) * pow2(3 * rest) <= s) by (nonlinear_arith)
            requires
                (e + 1) * (8 * pow2(3 * rest)) <= s,
                e1 == 5 * e + 1,
                e >= 0,
                pow2(3 * rest) >= 1,
        ;
        assert(nn >= 0 && dd > 0) by (nonlinear_arith)
            requires
                nn == n * n,
                dd == d * d,
                d > 0,
        ;
        lemma_square_is_pow2(n);
        lemma_pow_multiplies(n, 2, half);
        lemma_square_is_pow2(d);
        lemma_pow_multiplies(d, 2, half);
        assert(pow(nn, half) == pow(n, pow2(steps)));
        assert(pow(dd, half) == pow(d, pow2(steps)));
        if q >= 2 * s {
            let x1 = q / 2;
            let d1 = 2 * dd;
            assert(x1 * d1 <= q * dd) by (nonlinear_arith)
                requires
                    2 * x1 <= q,
                    d1 == 2 * dd,
                    dd > 0,
            ;
            assert((q + e1) * dd <= (x1 + e1) * d1) by (nonlinear_arith)
                requires
                    q <= 2 * x1 + 1,
                    e1 >= 1,
                    d1 == 2 * dd,
                    dd > 0,
            ;
            lemma_log2_bits_bracket(x1, rest, nn, d1, e1);
            let bits = log2_bits(x1 as nat, rest);
            lemma_pow_distributes(2, dd, half);
            lemma_pow2(half);
            lemma_pow2_adds(half, bits);
            assert(log2_bits(x as nat, steps) == half + bits);
            assert(pow2(bits) * pow(d1, half) == pow2(half + bits) * pow(dd, half))
                by (nonlinear_arith)
                requires
                    pow(d1, half) == pow2(half) * pow(dd, half),
                    pow2(half + bits) == pow2(half) * pow2(bits),
            ;
            assert(pow2(log2_bits(x as nat, steps)) * pow(d, pow2(steps)) <= pow(n, pow2(steps)));
        } else {
            lemma_log2_bits_bracket(q, rest, nn, dd, e1);
            assert(log2_bits(x as nat, steps) == log2_bits(q as nat, rest));
            assert(pow2(log2_bits(x as nat, steps)) * pow(d, pow2(steps)) <= pow(n, pow2(steps)));
        }
    }
}

/// How close the logarithm is: `m` raised to the power of 65536 lies from two
/// to the power of `log2_q16(m)` up to four times that. The true logarithm of
/// `m`, counted in 65536ths of an octave, is thus at least `log2_q16(m)` and
/// less than two more.
pub proof fn lemma_log2_brackets(m: nat)
    requires
        1 <= m < 0x1_0000_0000_0000_0000,
    ensures
        logarithm_brackets(m as int, log2_q16(m)),
{
    let k = floor_log2(m);
    let up = (63 - k) as nat;
    let x = mantissa_q63(m);
    let d = pow2(k) as int;
    let lift = pow2(up) as int;
    let bits = log2_bits(x, 16);
    lemma_mantissa_range(m);
    lemma_pow2_adds(k, up);
    lemma_pow2_pos(k);
    lemma2_to64();
    lemma2_to64_rest();
    assert(x * d == m * 0x8000_0000_0000_0000) by (nonlinear_arith)
        requires
            x == m * lift,
            d * lift == 0x8000_0000_0000_0000,
    ;
    lemma_log2_bits_bracket(x as int, 16, m as int, d, 0);
    lemma_pow2(k);
    lemma_pow_multiplies(2, k, 65_536);
    lemma_pow2(k * 65_536);
    lemma_pow2_adds(k * 65_536, bits);
    assert(pow(d, 65_536) == pow2(k * 65_536));
    assert(pow2(bits) * pow(d, 65_536) == pow2((k * 65_536 + bits) as nat)) by (nonlinear_arith)
        requires
            pow(d, 65_536) == pow2(k * 65_536),
            pow2(k * 65_536 + bits) == pow2(k * 65_536) * pow2(bits),
    ;
}

/// The base-two logarithm of `m` in Q16: the true logarithm in 65536ths of an
/// octave, rounded down, or one less.
pub fn log2_fixed(m: u64) -> (log2: u64)
    requires
        m >= 1,
    ensures
        log2 == log2_q16(m as nat),
        log2 < 64 * 65_536,
        logarithm_brackets(m as int, log2 as int),
{
    let (exponent, power) = integer_log2(m);
    let lift: u64 = power_of_two(63 - exponent);
    proof {
        lemma_mantissa_range(m as nat);
        lemma_log2_brackets(m as nat);
        lemma_log2_bits_bound(mantissa_q63(m as nat), 16);
        lemma2_to64();
    }
    let ghost whole = log2_bits(mantissa_q63(m as nat), 16);
    let mut x: u128 = m as u128 * lift as u128;
    let mut bits: u64 = 0;
    let mut left: u32 = 16;
    while left > 0
        invariant
            left <= 16,
            MANTISSA_ONE <= x < 2 * MANTISSA_ONE,
            whole < 65_536,
            whole == bits * pow2(left as nat) + log2_bits(x as nat, left as nat),
        decreases left,
    {
        proof {
            lemma_squared_mantissa_range(x as nat);
            lemma_pow2_unfold(left as nat);
            lemma_pow2_pos((left - 1) as nat);
            assert(bits < 65_536) by (nonlinear_arith)
                requires
                    bits * pow2(left as nat) <= whole,
                    whole < 65_536,
                    pow2(left as nat) >= 1,
                    bits >= 0,
            ;
            assert(x * x <= 0xFFFF_FFFF_FFFF_FFFF * 0xFFFF_FFFF_FFFF_FFFF) by (nonlinear_arith)
                requires
                    0 <= x <= 0xFFFF_FFFF_FFFF_FFFF,
            ;
        }
        let ghost before = bits;
        let ghost rest = pow2((left - 1) as nat);
        let square: u128 = x * x / MANTISSA_ONE;
        if square >= 2 * MANTISSA_ONE {
            bits = 2 * bits + 1;
            x = square / 2;
            assert(before * (2 * rest) + rest == (2 * before + 1) * rest) by (nonlinear_arith);
        } else {
            bits = 2 * bits;
            x = square;
            assert(before * (2 * rest) == (2 * before) * rest) by (nonlinear_arith);
        }
        left = left - 1;
    }
    proof {
        assert(bits * pow2(0) == bits) by (nonlinear_arith)
            requires
                pow2(0) == 1,
        ;
    }
    exponent as u64 * 65_536 + bits
}

/// Whether `g` is the smallest number of at least one whose logarithm
/// reaches `target`.
pub open spec fn is_least_with_log(target: int, g: nat) -> bool {
    &&& g >= 1
    &&& log2_q16(g) >= target
    &&& forall|h: nat| 1 <= h < g ==> #[trigger] log2_q16(h) < target
}

/// The smallest number of at least one whose logarithm reaches `target`.
pub open spec fn least_with_log(target: int) -> nat {
    choose|g: nat| is_least_with_log(target, g)
}

/// Two to the power of `x`, both in Q16: the smallest Q16 number whose
/// logarithm reaches that of `x` octaves above one, and zero where `x` is
/// more than sixteen octaves below zero.
pub open spec fn exp2_q16(x: int) -> int {
    if x < -LOG2_OF_ONE_Q16 {
        0
    } else {
        least_with_log(x + LOG2_OF_ONE_Q16) as int
    }
}

/// There is no more than one smallest number.
pub proof fn lemma_least_with_log_unique(target: int, g1: nat, g2: nat)
    requires
        is_least_with_log(target, g1),
        is_least_with_log(target, g2),
    ensures
        g1 == g2,
{
    if g1 < g2 {
        assert(log2_q16(g1) < target);
    }
    if g2 < g1 {
        assert(log2_q16(g2) < target);
    }
}

/// Where the logarithm of `bound` reaches `target`, there is a smallest
/// number that does, and it is no larger than `bound`.
pub proof fn lemma_least_with_log_exists(target: int, bound: nat)
    requires
        bound >= 1,
        log2_q16(bound) >= target,
    ensures
        is_least_with_log(target, least_with_log(target)),
        1 <= least_with_log(target) <= bound,
    decreases bound,
{
    if forall|h: nat| 1 <= h < bound ==> #[trigger] log2_q16(h) < target {
        assert(is_least_with_log(target, bound));
        lemma_least_with_log_unique(target, bound, least_with_log(target));
    } else {
        let h = choose|h: nat| 1 <= h < bound && #[trigger] log2_q16(h) >= target;
        lemma_least_with_log_exists(target, h);
    }
}

/// Every exponent up to 47 octaves has a power: the smallest number whose
/// logarithm reaches it, which is no larger than any other that does.
pub proof fn lemma_exp2_is_least(x: int)
    requires
        -LOG2_OF_ONE_Q16 <= x <= 47 * 65_536,
    ensures
        exp2_q16(x) >= 1,
        is_least_with_log(x + LOG2_OF_ONE_Q16, exp2_q16(x) as nat),
        exp2_q16(x) <= 0x8000_0000_0000_0000,
{
    lemma2_to64_rest();
    lemma_log2_of_power(63);
    lemma_least_with_log_exists(x + LOG2_OF_ONE_Q16, pow2(63));
}

/// A larger exponent never gives a smaller power of two.
pub proof fn lemma_exp2_monotonic(x1: int, x2: int)
    requires
        x1 <= x2 <= 47 * 65_536,
    ensures
        0 <= exp2_q16(x1) <= exp2_q16(x2),
{
    if x2 >= -LOG2_OF_ONE_Q16 {
        lemma_exp2_is_least(x2);
        if x1 >= -LOG2_OF_ONE_Q16 {
            lemma_exp2_is_least(x1);
            let g1 = exp2_q16(x1) as nat;
            let g2 = exp2_q16(x2) as nat;
            if g2 < g1 {
                assert(log2_q16(g2) < x1 + LOG2_OF_ONE_Q16);
            }
        }
    }
}

/// The power of a whole number of octaves is exact.
pub proof fn lemma_exp2_of_octaves(octaves: int)
    requires
        -16 <= octaves <= 47,
    ensures
        exp2_q16(octaves * 65_536) == pow2((octaves + 16) as nat),
{
    let exponent = (octaves + 16) as nat;
    let target = octaves * 65_536 + LOG2_OF_ONE_Q16;
    let power = pow2(exponent);
    lemma_pow2_pos(exponent);
    lemma_log2_of_power(exponent);
    assert forall|h: nat| 1 <= h < power implies #[trigger] log2_q16(h) < target by {
        lemma_log2_below_power(h, exponent);
    }
    assert(is_least_with_log(target, power));
    lemma_exp2_is_least(octaves * 65_536);
    lemma_least_with_log_unique(target, power, exp2_q16(octaves * 65_536) as nat);
}

/// The zeroth power of two is exactly one.
pub proof fn lemma_exp2_of_zero()
    ensures
        exp2_q16(0) == ONE_Q16,
{
    lemma_exp2_of_octaves(0);
    lemma2_to64();
}

/// At or below an exponent of zero, a power of two is at most one.
pub proof fn lemma_exp2_at_most_one(x: int)
    requires
        x <= 0,
    ensures
        0 <= exp2_q16(x) <= ONE_Q16,
{
    lemma_exp2_monotonic(x, 0);
    lemma_exp2_of_zero();
}

/// Below 30 octaves a power of two is at most 2^46.
pub proof fn lemma_exp2_below_limit(x: int)
    requires
        x < 30 * 65_536,
    ensures
        0 <= exp2_q16(x) <= 0x4000_0000_0000,
{
    lemma_exp2_monotonic(x, 1_966_080);
    lemma_exp2_of_octaves(30);
    lemma2_to64_rest();
}

/// How close the power is: it is at least the true power of two, and the
/// number before it is less than the true power of an exponent that is one
/// 65536th of an octave higher. In whole numbers: the power raised to 65536
/// reaches two to the power of the exponent counted from one step of Q16,
/// and the number before it, raised to 65536, stays below twice that.
pub proof fn lemma_exp2_brackets(x: int)
    requires
        -LOG2_OF_ONE_Q16 <= x <= 47 * 65_536,
    ensures
        power_brackets(exp2_q16(x), x + LOG2_OF_ONE_Q16),
{
    let target = (x + LOG2_OF_ONE_Q16) as nat;
    let g = exp2_q16(x) as nat;
    lemma_exp2_is_least(x);
    lemma_log2_brackets(g);
    if log2_q16(g) > target {
        lemma_pow2_strictly_increases(target, log2_q16(g) as nat);
    }
    if g > 1 {
        let before = (g - 1) as nat;
        let reached = log2_q16(before) as nat;
        lemma_log2_brackets(before);
        assert(log2_q16(before) < target);
        lemma_pow2_unfold(target);
        if reached + 1 < target {
            lemma_pow2_strictly_increases(reached, (target - 1) as nat);
        }
    }
}

/// A number whose logarithm reaches the exponent, while that of the number
/// before it does not, is the power of two of the exponent.
pub proof fn lemma_exp2_by_neighbours(x: int, g: nat)
    requires
        -LOG2_OF_ONE_Q16 <= x <= 47 * 65_536,
        1 <= g < 0x1_0000_0000_0000_0000,
        log2_q16(g) >= x + LOG2_OF_ONE_Q16,
        g > 1 ==> log2_q16((g - 1) as nat) < x + LOG2_OF_ONE_Q16,
    ensures
        exp2_q16(x) == g,
{
    let target = x + LOG2_OF_ONE_Q16;
    assert forall|h: nat| 1 <= h < g implies #[trigger] log2_q16(h) < target by {
        lemma_log2_monotonic(h, (g - 1) as nat);
    }
    lemma_exp2_is_least(x);
    lemma_least_with_log_unique(target, g, exp2_q16(x) as nat);
}

/// Two to the power of `x`, both in Q16: at least the true power, and less
/// than one step of Q16 above the true power of an exponent that is one
/// 65536th of an octave higher.
pub fn exp2_fixed(x: i64) -> (value: u64)
    requires
        x < 30 * 65_536,
    ensures
        value == exp2_q16(x as int),
        value <= 0x4000_0000_0000,
        x >= -LOG2_OF_ONE_Q16 ==> is_least_with_log(x + LOG2_OF_ONE_Q16, value as nat),
        x >= -LOG2_OF_ONE_Q16 ==> power_brackets(value as int, x + LOG2_OF_ONE_Q16),
{
    if x < -LOG2_OF_ONE_Q16 {
        return 0;
    }
    proof {
        lemma_exp2_brackets(x as int);
    }
    let target: u64 = (x + LOG2_OF_ONE_Q16) as u64;
    let octave: u32 = (target / 65_536) as u32;
    let low: u64 = power_of_two(octave);
    proof {
        lemma_exp2_is_least(x as int);
        lemma_exp2_below_limit(x as int);
        lemma_log2_of_power(octave as nat);
        lemma_log2_of_power((octave + 1) as nat);
        lemma_pow2_unfold((octave + 1) as nat);
        lemma2_to64_rest();
        if octave < 45 {
            lemma_pow2_strictly_increases(octave as nat, 45);
        }
    }
    if target % 65_536 == 0 {
        proof {
            lemma_exp2_of_octaves(octave as int - 16);
        }
        return low;
    }
    let mut below: u64 = low;
    let mut reached: u64 = 2 * low;
    while reached - below > 1
        invariant
            1 <= low <= below < reached <= 2 * low,
            low <= 0x2000_0000_0000,
            log2_q16(below as nat) < target <= log2_q16(reached as nat),
        decreases reached - below,
    {
        let middle: u64 = below + (reached - below) / 2;
        if log2_fixed(middle) >= target {
            reached = middle;
        } else {
            below = middle;
        }
    }
    proof {
        lemma_exp2_by_neighbours(x as int, reached as nat);
    }
    reached
}

} // verus!
