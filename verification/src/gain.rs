//! The gain curve: from a bin's level relative to the target curve to the gain
//! that the bin is scaled by.
//!
//! Above the downward threshold the excess over the threshold is divided by
//! the downward ratio; below the upward threshold the deficit under the
//! threshold is divided by the upward ratio. Where both apply, the two
//! changes add up.

use vstd::arithmetic::div_mod::{
    lemma_div_by_multiple, lemma_div_is_ordered, lemma_div_is_ordered_by_denominator,
};
use vstd::prelude::*;

use crate::decibel::{
    gain_from_mdb, gain_of_mdb, lemma_gain_of_mdb_below_limit, lemma_gain_of_mdb_monotonic,
    level_mdb, level_of_magnitude, GAIN_LIMIT_Q16, MAX_GAIN_MDB, MIN_GAIN_MDB,
};
use crate::logarithm::{lemma_exp2_of_zero, ONE_Q16};
use crate::params::{clamp_int, CompressorBankParams, RATIO_UNITY};

verus! {

/// `amount` divided by a ratio given in thousandths, rounded down.
pub open spec fn divided_by_ratio(amount: int, ratio_milli: int) -> int {
    (amount * RATIO_UNITY) / ratio_milli
}

/// The change in level, never positive, that downward compression makes at
/// `level`: the excess over `threshold`, divided by the ratio, less the
/// excess itself.
pub open spec fn downward_adjustment_mdb(level: int, threshold: int, ratio_milli: int) -> int {
    if ratio_milli > RATIO_UNITY && level > threshold {
        divided_by_ratio(level - threshold, ratio_milli) - (level - threshold)
    } else {
        0
    }
}

/// The change in level, never negative, that upward compression makes at
/// `level`: the deficit under `threshold` less that deficit divided by the
/// ratio.
pub open spec fn upward_adjustment_mdb(level: int, threshold: int, ratio_milli: int) -> int {
    if ratio_milli > RATIO_UNITY && level < threshold {
        (threshold - level) - divided_by_ratio(threshold - level, ratio_milli)
    } else {
        0
    }
}

/// The total change in level at `level`, a level relative to the target
/// curve: both adjustments added, and kept within 180 dB either way.
pub open spec fn gain_change_mdb(level: int, params: CompressorBankParams) -> int {
    clamp_int(
        downward_adjustment_mdb(
            level,
            params.downwards_threshold_offset_mdb as int,
            params.downwards_ratio_milli as int,
        ) + upward_adjustment_mdb(
            level,
            params.upwards_threshold_offset_mdb as int,
            params.upwards_ratio_milli as int,
        ),
        MIN_GAIN_MDB as int,
        MAX_GAIN_MDB as int,
    )
}

/// The gain in Q16 for a bin whose smoothed magnitude is `magnitude` where the
/// target curve is at `target`. Where both are silent the gain is one.
pub open spec fn bin_gain_q16(magnitude: nat, target: nat, params: CompressorBankParams) -> int {
    if magnitude == 0 && target == 0 {
        ONE_Q16 as int
    } else {
        gain_of_mdb(gain_change_mdb(level_mdb(magnitude) - level_mdb(target), params))
    }
}

/// Dividing by a ratio above one to one leaves no more than there was, and
/// nothing negative.
pub proof fn lemma_divided_by_ratio_bounds(amount: int, ratio_milli: int)
    requires
        amount >= 0,
        ratio_milli >= RATIO_UNITY,
    ensures
        0 <= divided_by_ratio(amount, ratio_milli) <= amount,
{
    assert(0 <= amount * 1000 <= amount * ratio_milli) by (nonlinear_arith)
        requires
            amount >= 0,
            ratio_milli >= 1000,
    ;
    lemma_div_is_ordered(0, amount * 1000, ratio_milli);
    lemma_div_is_ordered(amount * 1000, amount * ratio_milli, ratio_milli);
    lemma_div_by_multiple(amount, ratio_milli);
}

/// A larger ratio leaves no more than a smaller one does.
pub proof fn lemma_divided_by_ratio_monotonic(amount: int, ratio1: int, ratio2: int)
    requires
        amount >= 0,
        1 <= ratio1 <= ratio2,
    ensures
        divided_by_ratio(amount, ratio2) <= divided_by_ratio(amount, ratio1),
{
    assert(amount * 1000 >= 0) by (nonlinear_arith)
        requires
            amount >= 0,
    ;
    lemma_div_is_ordered_by_denominator(amount * 1000, ratio1, ratio2);
}

/// Downward compression only ever lowers the level, and by no more than the
/// excess over the threshold.
pub proof fn lemma_downward_adjustment_bounds(level: int, threshold: int, ratio_milli: int)
    ensures
        downward_adjustment_mdb(level, threshold, ratio_milli) <= 0,
        level > threshold ==> downward_adjustment_mdb(level, threshold, ratio_milli) >= threshold
            - level,
        level <= threshold ==> downward_adjustment_mdb(level, threshold, ratio_milli) == 0,
{
    if ratio_milli > RATIO_UNITY && level > threshold {
        lemma_divided_by_ratio_bounds(level - threshold, ratio_milli);
    }
}

/// Upward compression only ever raises the level, and by no more than the
/// deficit under the threshold.
pub proof fn lemma_upward_adjustment_bounds(level: int, threshold: int, ratio_milli: int)
    ensures
        upward_adjustment_mdb(level, threshold, ratio_milli) >= 0,
        level < threshold ==> upward_adjustment_mdb(level, threshold, ratio_milli) <= threshold
            - level,
        level >= threshold ==> upward_adjustment_mdb(level, threshold, ratio_milli) == 0,
{
    if ratio_milli > RATIO_UNITY && level < threshold {
        lemma_divided_by_ratio_bounds(threshold - level, ratio_milli);
    }
}

/// With neither ratio above one to one the gain is exactly one, whatever the
/// magnitude, the target and the thresholds.
pub proof fn lemma_unity_gain_when_disengaged(
    magnitude: nat,
    target: nat,
    params: CompressorBankParams,
)
    requires
        params.downwards_ratio_milli <= RATIO_UNITY,
        params.upwards_ratio_milli <= RATIO_UNITY,
    ensures
        bin_gain_q16(magnitude, target, params) == ONE_Q16,
{
    lemma_exp2_of_zero();
}

/// Whatever the magnitude, the target and the parameters, the gain is a
/// number that is not negative and stays below `GAIN_LIMIT_Q16`.
pub proof fn lemma_gain_is_bounded(magnitude: nat, target: nat, params: CompressorBankParams)
    ensures
        0 <= bin_gain_q16(magnitude, target, params) < GAIN_LIMIT_Q16,
{
    if !(magnitude == 0 && target == 0) {
        lemma_gain_of_mdb_below_limit(
            gain_change_mdb(level_mdb(magnitude) - level_mdb(target), params),
        );
    }
}

/// With everything else held, a higher downward ratio never gives a higher
/// gain: more compression is never louder.
pub proof fn lemma_higher_downward_ratio_never_louder(
    magnitude: nat,
    target: nat,
    params: CompressorBankParams,
    higher: CompressorBankParams,
)
    requires
        params.downwards_ratio_milli <= higher.downwards_ratio_milli,
        higher == (CompressorBankParams {
            downwards_ratio_milli: higher.downwards_ratio_milli,
            ..params
        }),
    ensures
        bin_gain_q16(magnitude, target, higher) <= bin_gain_q16(magnitude, target, params),
{
    if !(magnitude == 0 && target == 0) {
        let level = level_mdb(magnitude) - level_mdb(target);
        lemma_gain_change_falls_with_downward_ratio(level, params, higher);
        lemma_gain_of_mdb_monotonic(
            gain_change_mdb(level, higher),
            gain_change_mdb(level, params),
        );
    }
}

/// With everything else held, a higher downward ratio never gives a higher
/// change in level.
pub proof fn lemma_gain_change_falls_with_downward_ratio(
    level: int,
    params: CompressorBankParams,
    higher: CompressorBankParams,
)
    requires
        params.downwards_ratio_milli <= higher.downwards_ratio_milli,
        higher == (CompressorBankParams {
            downwards_ratio_milli: higher.downwards_ratio_milli,
            ..params
        }),
    ensures
        gain_change_mdb(level, higher) <= gain_change_mdb(level, params),
{
    let threshold = params.downwards_threshold_offset_mdb as int;
    let ratio1 = params.downwards_ratio_milli as int;
    let ratio2 = higher.downwards_ratio_milli as int;
    lemma_downward_adjustment_bounds(level, threshold, ratio2);
    if ratio1 > RATIO_UNITY && level > threshold {
        lemma_divided_by_ratio_monotonic(level - threshold, ratio1, ratio2);
    }
}

/// `amount` divided by a ratio given in thousandths, rounded down.
fn divide_by_ratio(amount: u64, ratio_milli: u32) -> (part: u64)
    requires
        amount <= 0x1_0000_0000,
        ratio_milli > RATIO_UNITY,
    ensures
        part == divided_by_ratio(amount as int, ratio_milli as int),
        part <= amount,
{
    proof {
        lemma_divided_by_ratio_bounds(amount as int, ratio_milli as int);
    }
    amount * 1000 / (ratio_milli as u64)
}

/// The total change in level, in millidecibels, for a bin at `level_mdb`
/// relative to the target curve. Downward compression alone never raises
/// the level, and upward compression alone never lowers it.
pub fn gain_change(level_mdb: i32, params: &CompressorBankParams) -> (change: i64)
    ensures
        change == gain_change_mdb(level_mdb as int, *params),
        MIN_GAIN_MDB <= change <= MAX_GAIN_MDB,
        params.upwards_ratio_milli <= RATIO_UNITY ==> change <= 0,
        params.downwards_ratio_milli <= RATIO_UNITY ==> change >= 0,
{
    proof {
        lemma_downward_adjustment_bounds(
            level_mdb as int,
            params.downwards_threshold_offset_mdb as int,
            params.downwards_ratio_milli as int,
        );
        lemma_upward_adjustment_bounds(
            level_mdb as int,
            params.upwards_threshold_offset_mdb as int,
            params.upwards_ratio_milli as int,
        );
    }
    let level: i64 = level_mdb as i64;
    let downward_threshold: i64 = params.downwards_threshold_offset_mdb as i64;
    let upward_threshold: i64 = params.upwards_threshold_offset_mdb as i64;
    let downward: i64 = if params.downwards_ratio_milli > RATIO_UNITY && level
        > downward_threshold {
        let excess: u64 = (level - downward_threshold) as u64;
        let reduced: u64 = divide_by_ratio(excess, params.downwards_ratio_milli);
        reduced as i64 - excess as i64
    } else {
        0
    };
    let upward: i64 = if params.upwards_ratio_milli > RATIO_UNITY && level < upward_threshold {
        let deficit: u64 = (upward_threshold - level) as u64;
        let boosted: u64 = divide_by_ratio(deficit, params.upwards_ratio_milli);
        deficit as i64 - boosted as i64
    } else {
        0
    };
    let total: i64 = downward + upward;
    if total < MIN_GAIN_MDB {
        MIN_GAIN_MDB
    } else if total > MAX_GAIN_MDB {
        MAX_GAIN_MDB
    } else {
        total
    }
}

/// The gain in Q16 for a bin whose smoothed magnitude is `magnitude` where the
/// target curve is at `target`.
pub fn evaluate_gain(magnitude: u64, target: u64, params: &CompressorBankParams) -> (gain: u64)
    ensures
        gain == bin_gain_q16(magnitude as nat, target as nat, *params),
        gain < GAIN_LIMIT_Q16,
        params.downwards_ratio_milli <= RATIO_UNITY && params.upwards_ratio_milli <= RATIO_UNITY
            ==> gain == ONE_Q16,
        magnitude == 0 && target == 0 ==> gain == ONE_Q16,
{
    if magnitude == 0 && target == 0 {
        return ONE_Q16;
    }
    let level: i64 = level_of_magnitude(magnitude) - level_of_magnitude(target);
    let change: i64 = gain_change(level as i32, params);
    proof {
        lemma_exp2_of_zero();
    }
    gain_from_mdb(change)
}

} // verus!
