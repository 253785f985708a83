//! Conversion between linear magnitudes and levels in millidecibels.
//!
//! Linear values are in Q16 fixed point: `ONE_Q16` stands for a magnitude, or a
//! gain, of one. A level is the base-two logarithm of the magnitude, taken to
//! a 65536th of an octave, times the 6020.599913 millidecibels of an octave,
//! rounded down to a whole millidecibel. A gain is the power of two of the
//! level change, brought back to 65536ths of an octave in the same way.

use vstd::prelude::*;

use crate::logarithm::{
    exp2_fixed, exp2_q16, lemma_exp2_below_limit, lemma_exp2_monotonic, log2_fixed, log2_q16,
    logarithm_brackets, power_brackets, LOG2_OF_ONE_Q16,
};

verus! {

/// A Q16 unit of base-two logarithm is `MDB_PER_OCTAVE_NUM /
/// MDB_PER_OCTAVE_DEN` millidecibels, which puts an octave at 6020.599913
/// millidecibels.
pub const MDB_PER_OCTAVE_NUM: u64 = 6_020_599_913;

/// See `MDB_PER_OCTAVE_NUM`.
pub const MDB_PER_OCTAVE_DEN: u64 = 65_536_000_000;

/// How far the level of `ONE_Q16` lies above that of the smallest magnitude,
/// a single step. Taken off every level, it puts `ONE_Q16` at 0 dB.
pub const UNIT_OFFSET_MDB: i64 = 96_329;

/// The level given to a magnitude of zero: 100 dB below a magnitude of one,
/// and below the level of every other magnitude.
pub const SILENCE_FLOOR_MDB: i64 = -100_000;

/// The largest gain change that is converted, 180 dB up.
pub const MAX_GAIN_MDB: i64 = 180_000;

/// The largest gain change that is converted, 180 dB down.
pub const MIN_GAIN_MDB: i64 = -180_000;

/// No gain is as large as this, 2^47 in Q16.
pub const GAIN_LIMIT_Q16: u64 = 0x8000_0000_0000;

/// The level of the magnitude `m` in millidecibels, where `ONE_Q16` is at
/// 0 dB and silence at `SILENCE_FLOOR_MDB`.
pub open spec fn level_mdb(m: nat) -> int {
    if m == 0 {
        SILENCE_FLOOR_MDB as int
    } else {
        (log2_q16(m) * MDB_PER_OCTAVE_NUM) / (MDB_PER_OCTAVE_DEN as int) - UNIT_OFFSET_MDB
    }
}

/// A level difference in millidecibels as a base-two logarithm in Q16,
/// rounded down.
pub open spec fn octaves_q16(mdb: int) -> int {
    (mdb * MDB_PER_OCTAVE_DEN) / (MDB_PER_OCTAVE_NUM as int)
}

/// The linear gain in Q16 that changes a level by `mdb` millidecibels.
pub open spec fn gain_of_mdb(mdb: int) -> int {
    exp2_q16(octaves_q16(mdb))
}

/// A larger level change never gives a smaller gain.
pub proof fn lemma_gain_of_mdb_monotonic(mdb1: int, mdb2: int)
    requires
        mdb1 <= mdb2 <= MAX_GAIN_MDB,
    ensures
        0 <= gain_of_mdb(mdb1) <= gain_of_mdb(mdb2),
{
    lemma_exp2_monotonic(octaves_q16(mdb1), octaves_q16(mdb2));
}

/// Every gain change within the limits gives a gain below `GAIN_LIMIT_Q16`.
pub proof fn lemma_gain_of_mdb_below_limit(mdb: int)
    requires
        mdb <= MAX_GAIN_MDB,
    ensures
        0 <= gain_of_mdb(mdb) < GAIN_LIMIT_Q16,
{
    lemma_exp2_below_limit(octaves_q16(mdb));
}

/// The linear gain in Q16 that changes a level by `mdb` millidecibels. From
/// 96 dB down on it is at least the true power of two of the change in
/// octaves, and the number before it is less than that power for a change
/// that is one 65536th of an octave larger.
pub fn gain_from_mdb(mdb: i64) -> (gain: u64)
    requires
        MIN_GAIN_MDB <= mdb <= MAX_GAIN_MDB,
    ensures
        gain == gain_of_mdb(mdb as int),
        gain < GAIN_LIMIT_Q16,
        octaves_q16(mdb as int) >= -LOG2_OF_ONE_Q16 ==> power_brackets(
            gain as int,
            octaves_q16(mdb as int) + LOG2_OF_ONE_Q16,
        ),
        octaves_q16(mdb as int) < -LOG2_OF_ONE_Q16 ==> gain == 0,
{
    let octaves: i64 = if mdb >= 0 {
        let scaled: u64 = mdb as u64 * MDB_PER_OCTAVE_DEN;
        (scaled / MDB_PER_OCTAVE_NUM) as i64
    } else {
        let scaled: u64 = (-mdb) as u64 * MDB_PER_OCTAVE_DEN;
        -(((scaled + (MDB_PER_OCTAVE_NUM - 1)) / MDB_PER_OCTAVE_NUM) as i64)
    };
    assert(octaves == octaves_q16(mdb as int));
    exp2_fixed(octaves)
}

/// The level of `magnitude` in millidecibels: the base-two logarithm of the
/// magnitude, which is within two 65536ths of an octave under the true one,
/// as millidecibels above `ONE_Q16`.
pub fn level_of_magnitude(magnitude: u64) -> (level: i64)
    ensures
        level == level_mdb(magnitude as nat),
        SILENCE_FLOOR_MDB <= level < 300_000,
        magnitude > 0 ==> level > SILENCE_FLOOR_MDB,
        magnitude > 0 ==> logarithm_brackets(magnitude as int, log2_q16(magnitude as nat)),
{
    if magnitude == 0 {
        return SILENCE_FLOOR_MDB;
    }
    let log2: u64 = log2_fixed(magnitude);
    ((log2 * MDB_PER_OCTAVE_NUM / MDB_PER_OCTAVE_DEN) as i64) - UNIT_OFFSET_MDB
}

} // verus!
