//! Integer square roots and logarithms, the exact building blocks under the
//! fixed-point level arithmetic.

use vstd::arithmetic::power2::{
    lemma2_to64, lemma2_to64_rest, lemma_pow2_pos, lemma_pow2_strictly_increases,
    lemma_pow2_unfold, pow2,
};
use vstd::bits::lemma_u64_shl_is_mul;
use vstd::prelude::*;

verus! {

/// Whether `root` is the largest natural number whose square is at most `n`.
pub open spec fn is_floor_sqrt(n: nat, root: nat) -> bool {
    root * root <= n < (root + 1) * (root + 1)
}

/// The square root of `n`, rounded down.
pub open spec fn floor_sqrt(n: nat) -> nat {
    choose|root: nat| is_floor_sqrt(n, root)
}

/// Only one number brackets `n` between its square and the next square, so
/// whichever number does is `floor_sqrt(n)`.
pub proof fn lemma_floor_sqrt_unique(n: nat, root: nat)
    requires
        is_floor_sqrt(n, root),
    ensures
        floor_sqrt(n) == root,
{
    let other = floor_sqrt(n);
    assert(is_floor_sqrt(n, other));
    if other < root {
        assert((other + 1) * (other + 1) <= root * root) by (nonlinear_arith)
            requires
                other + 1 <= root,
        ;
    }
    if root < other {
        assert((root + 1) * (root + 1) <= other * other) by (nonlinear_arith)
            requires
                root + 1 <= other,
        ;
    }
}

/// The square root of zero is zero.
pub proof fn lemma_floor_sqrt_zero()
    ensures
        floor_sqrt(0) == 0,
{
    let zero: nat = 0;
    assert(zero * zero == 0 && (zero + 1) * (zero + 1) == 1) by (nonlinear_arith)
        requires
            zero == 0,
    ;
    lemma_floor_sqrt_unique(0, zero);
}

/// The square root of `n`, rounded down.
pub fn integer_sqrt(n: u64) -> (root: u64)
    ensures
        root == floor_sqrt(n as nat),
        is_floor_sqrt(n as nat, root as nat),
        root <= 0xFFFF_FFFF,
{
    let mut low: u64 = 0;
    let mut high: u64 = 0x1_0000_0000;
    while high - low > 1
        invariant
            low < high <= 0x1_0000_0000,
            low * low <= n < high * high,
        decreases high - low,
    {
        let mid: u64 = low + (high - low) / 2;
        assert(mid * mid <= 0xFFFF_FFFF * 0xFFFF_FFFF) by (nonlinear_arith)
            requires
                0 <= mid <= 0xFFFF_FFFF,
        ;
        if mid * mid <= n {
            low = mid;
        } else {
            high = mid;
        }
    }
    proof {
        lemma_floor_sqrt_unique(n as nat, low as nat);
    }
    low
}

/// The number of times `m` can be halved before it drops below two: the
/// base-two logarithm of `m`, rounded down, for `m` of at least one.
pub open spec fn floor_log2(m: nat) -> nat
    decreases m,
{
    if m < 2 {
        0
    } else {
        1 + floor_log2(m / 2)
    }
}

/// Whichever exponent brackets `m` between two neighbouring powers of two is
/// `floor_log2(m)`.
pub proof fn lemma_floor_log2_unique(m: nat, exponent: nat)
    requires
        pow2(exponent) <= m < 2 * pow2(exponent),
    ensures
        floor_log2(m) == exponent,
    decreases exponent,
{
    if exponent == 0 {
        lemma2_to64();
    } else {
        lemma_pow2_unfold(exponent);
        let lower = (exponent - 1) as nat;
        assert(pow2(exponent) == 2 * pow2(lower));
        lemma_floor_log2_unique(m / 2, lower);
    }
}

/// A number of at least one lies between the power of two at its logarithm
/// and the next power.
pub proof fn lemma_floor_log2_brackets(m: nat)
    requires
        m >= 1,
    ensures
        pow2(floor_log2(m)) <= m < 2 * pow2(floor_log2(m)),
    decreases m,
{
    if m < 2 {
        lemma2_to64();
    } else {
        lemma_floor_log2_brackets(m / 2);
        lemma_pow2_unfold(floor_log2(m));
    }
}

/// A larger number never has a smaller logarithm.
pub proof fn lemma_floor_log2_monotonic(m1: nat, m2: nat)
    requires
        1 <= m1 <= m2,
    ensures
        floor_log2(m1) <= floor_log2(m2),
{
    lemma_floor_log2_brackets(m1);
    lemma_floor_log2_brackets(m2);
    if floor_log2(m2) < floor_log2(m1) {
        lemma_pow2_unfold(floor_log2(m2) + 1);
        if floor_log2(m2) + 1 < floor_log2(m1) {
            lemma_pow2_strictly_increases(floor_log2(m2) + 1, floor_log2(m1));
        }
    }
}

/// `floor_log2(m)` together with that power of two.
pub fn integer_log2(m: u64) -> (result: (u32, u64))
    requires
        m >= 1,
    ensures
        result.0 == floor_log2(m as nat),
        result.0 < 64,
        result.1 == pow2(result.0 as nat),
        result.1 <= m < 2 * result.1,
{
    let mut exponent: u32 = 0;
    let mut power: u64 = 1;
    proof {
        lemma2_to64();
    }
    while m / 2 >= power
        invariant
            power == pow2(exponent as nat),
            1 <= power <= m,
            exponent < 64,
            exponent < 63 ==> power <= 0x4000_0000_0000_0000,
            exponent == 63 ==> power == 0x8000_0000_0000_0000,
        decreases m - power,
    {
        proof {
            lemma_pow2_unfold((exponent + 1) as nat);
        }
        power = power * 2;
        exponent = exponent + 1;
        proof {
            lemma_power_below_limit(exponent as nat);
        }
    }
    proof {
        lemma_floor_log2_unique(m as nat, exponent as nat);
    }
    (exponent, power)
}

/// Two to the power of `exponent`.
pub fn power_of_two(exponent: u32) -> (power: u64)
    requires
        exponent <= 63,
    ensures
        power == pow2(exponent as nat),
        1 <= power <= 0x8000_0000_0000_0000,
{
    proof {
        lemma_power_below_limit(exponent as nat);
        lemma_u64_shl_is_mul(1, exponent as u64);
    }
    1u64 << (exponent as u64)
}

/// Powers of two with an exponent below 63 stay at or below 2^62, and the
/// next one is 2^63.
pub proof fn lemma_power_below_limit(exponent: nat)
    ensures
        1 <= pow2(exponent),
        exponent < 63 ==> pow2(exponent) <= 0x4000_0000_0000_0000,
        exponent == 63 ==> pow2(exponent) == 0x8000_0000_0000_0000,
{
    lemma2_to64();
    lemma2_to64_rest();
    lemma_pow2_pos(exponent);
    if exponent < 62 {
        lemma_pow2_strictly_increases(exponent, 62);
    }
}

} // verus!
