//! The envelope follower: a one-pole smoother with separate attack and release
//! times, kept per bin and updated once per block.

use vstd::prelude::*;

use crate::logarithm::{
    exp2_fixed, exp2_q16, lemma_exp2_at_most_one, lemma_exp2_brackets, power_brackets,
    LOG2_OF_ONE_Q16, ONE_Q16,
};

verus! {

/// The base-two logarithm of Euler's number, in Q16.
pub const LOG2_E_Q16: u64 = 94_548;

/// The largest smoothing coefficient, one step below one, so that an envelope
/// always moves towards the magnitude it follows.
pub const MAX_COEFFICIENT_Q16: u64 = 65_535;

/// The number of microseconds in a second.
pub const MICROS_PER_SECOND: u64 = 1_000_000;

/// The number of octaves, in Q16 and rounded down, by which a smoothed
/// difference decays in one block: the base-two logarithm of Euler's number
/// over the time constant counted in blocks, where a block is `hop_size`
/// samples at `sample_rate` samples per second.
pub open spec fn decay_octaves_q16(time_us: nat, sample_rate: nat, hop_size: nat) -> int {
    (LOG2_E_Q16 * hop_size * MICROS_PER_SECOND) as int / (time_us * sample_rate) as int
}

/// The share of the previous envelope, in Q16, that a block keeps: Euler's
/// number to the power of minus one over the time constant in blocks, and
/// zero for a time of zero.
pub open spec fn smoothing_coefficient_q16(time_us: nat, sample_rate: nat, hop_size: nat) -> int {
    if time_us == 0 {
        0
    } else {
        let kept = exp2_q16(-decay_octaves_q16(time_us, sample_rate, hop_size));
        if kept > MAX_COEFFICIENT_Q16 {
            MAX_COEFFICIENT_Q16 as int
        } else {
            kept
        }
    }
}

/// The share `coefficient`, a Q16 fraction, of `distance`, rounded down.
pub open spec fn share_q16(coefficient: int, distance: int) -> int {
    (coefficient * distance) / (ONE_Q16 as int)
}

/// The envelope after a block with magnitude `raw`, when it was `previous`
/// before: `raw`, moved back towards `previous` by the attack coefficient's
/// share of the distance where the magnitude rose, and by the release
/// coefficient's share where it did not.
pub open spec fn envelope_step(
    previous: int,
    raw: int,
    attack_coefficient: int,
    release_coefficient: int,
) -> int {
    if raw > previous {
        raw - share_q16(attack_coefficient, raw - previous)
    } else {
        raw + share_q16(release_coefficient, previous - raw)
    }
}

/// A coefficient's share of a distance is no more than the distance, and
/// less where the coefficient is below one and the distance above zero.
pub proof fn lemma_share_bounds(coefficient: int, distance: int)
    requires
        0 <= coefficient <= ONE_Q16,
        0 <= distance,
    ensures
        0 <= share_q16(coefficient, distance) <= distance,
        coefficient < ONE_Q16 && distance > 0 ==> share_q16(coefficient, distance) < distance,
        coefficient == 0 ==> share_q16(coefficient, distance) == 0,
{
    assert(0 <= coefficient * distance <= 65_536 * distance) by (nonlinear_arith)
        requires
            0 <= coefficient <= 65_536,
            0 <= distance,
    ;
    if coefficient < ONE_Q16 && distance > 0 {
        assert(coefficient * distance <= 65_536 * distance - distance) by (nonlinear_arith)
            requires
                0 <= coefficient <= 65_535,
                0 < distance,
        ;
    }
    if coefficient == 0 {
        assert(coefficient * distance == 0) by (nonlinear_arith)
            requires
                coefficient == 0,
        ;
    }
}

/// With an attack time of zero, an envelope under a magnitude that did not
/// fall is at that magnitude after one block, whatever the release time.
pub proof fn lemma_zero_attack_is_immediate(
    previous: int,
    raw: int,
    sample_rate: nat,
    hop_size: nat,
    release_coefficient: int,
)
    requires
        previous <= raw,
    ensures
        envelope_step(
            previous,
            raw,
            smoothing_coefficient_q16(0, sample_rate, hop_size),
            release_coefficient,
        ) == raw,
{
    if raw > previous {
        lemma_share_bounds(0, raw - previous);
    } else {
        assert(release_coefficient * 0 == 0) by (nonlinear_arith);
    }
}

/// The smoothing coefficient in Q16 for a time constant of `time_us`
/// microseconds, where a block is `hop_size` samples at `sample_rate` samples
/// per second: the power of two of the decay in octaves, within a step, and
/// never more than `MAX_COEFFICIENT_Q16`.
pub fn smoothing_coefficient(time_us: u32, sample_rate: u32, hop_size: u32) -> (coefficient: u64)
    requires
        sample_rate > 0,
    ensures
        coefficient == smoothing_coefficient_q16(
            time_us as nat,
            sample_rate as nat,
            hop_size as nat,
        ),
        coefficient <= MAX_COEFFICIENT_Q16,
        time_us == 0 ==> coefficient == 0,
        time_us > 0 && decay_octaves_q16(time_us as nat, sample_rate as nat, hop_size as nat)
            <= LOG2_OF_ONE_Q16 ==> power_brackets(
            exp2_q16(-decay_octaves_q16(time_us as nat, sample_rate as nat, hop_size as nat)),
            LOG2_OF_ONE_Q16 - decay_octaves_q16(
                time_us as nat,
                sample_rate as nat,
                hop_size as nat,
            ),
        ),
{
    if time_us == 0 {
        return 0;
    }
    assert(LOG2_E_Q16 * hop_size * MICROS_PER_SECOND <= 94_548 * 0xFFFF_FFFF * 1_000_000)
        by (nonlinear_arith)
        requires
            0 <= hop_size <= 0xFFFF_FFFF,
    ;
    assert(0 < time_us * sample_rate <= 0xFFFF_FFFF * 0xFFFF_FFFF) by (nonlinear_arith)
        requires
            0 < time_us <= 0xFFFF_FFFF,
            0 < sample_rate <= 0xFFFF_FFFF,
    ;
    let numerator: u128 = LOG2_E_Q16 as u128 * hop_size as u128 * MICROS_PER_SECOND as u128;
    let denominator: u128 = time_us as u128 * sample_rate as u128;
    let octaves: u128 = numerator / denominator;
    assert(octaves == decay_octaves_q16(time_us as nat, sample_rate as nat, hop_size as nat));
    if octaves > 1_048_576 {
        return 0;
    }
    let exponent: i64 = -(octaves as i64);
    proof {
        lemma_exp2_at_most_one(exponent as int);
        lemma_exp2_brackets(exponent as int);
    }
    let kept: u64 = exp2_fixed(exponent);
    if kept > MAX_COEFFICIENT_Q16 {
        MAX_COEFFICIENT_Q16
    } else {
        kept
    }
}

/// The envelope after a block with magnitude `raw`, when it was `previous`
/// before.
pub fn follow_envelope(
    previous: u64,
    raw: u64,
    attack_coefficient: u64,
    release_coefficient: u64,
) -> (envelope: u64)
    requires
        attack_coefficient <= ONE_Q16,
        release_coefficient <= ONE_Q16,
    ensures
        envelope == envelope_step(
            previous as int,
            raw as int,
            attack_coefficient as int,
            release_coefficient as int,
        ),
        raw > previous ==> previous <= envelope <= raw,
        raw <= previous ==> raw <= envelope <= previous,
        attack_coefficient == 0 && raw >= previous ==> envelope == raw,
{
    if raw > previous {
        let distance: u64 = raw - previous;
        proof {
            lemma_share_bounds(attack_coefficient as int, distance as int);
        }
        assert(attack_coefficient * distance <= 65_536 * 0xFFFF_FFFF_FFFF_FFFF)
            by (nonlinear_arith)
            requires
                0 <= attack_coefficient <= 65_536,
                0 <= distance <= 0xFFFF_FFFF_FFFF_FFFF,
        ;
        let share: u128 = attack_coefficient as u128 * distance as u128 / 65_536;
        raw - share as u64
    } else {
        let distance: u64 = previous - raw;
        proof {
            lemma_share_bounds(release_coefficient as int, distance as int);
        }
        assert(release_coefficient * distance <= 65_536 * 0xFFFF_FFFF_FFFF_FFFF)
            by (nonlinear_arith)
            requires
                0 <= release_coefficient <= 65_536,
                0 <= distance <= 0xFFFF_FFFF_FFFF_FFFF,
        ;
        let share: u128 = release_coefficient as u128 * distance as u128 / 65_536;
        raw + share as u64
    }
}

} // verus!
