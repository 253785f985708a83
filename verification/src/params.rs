//! The six knobs of the compressor bank, held as integers.
//!
//! Levels are in millidecibels, ratios in thousandths (so `1000` is a ratio of
//! one to one, at which that direction of compression is disengaged) and times
//! in microseconds.

use vstd::prelude::*;

verus! {

/// The lowest threshold offset, 50 dB below the target curve.
pub const THRESHOLD_OFFSET_MIN_MDB: i32 = -50_000;

/// The highest threshold offset, 50 dB above the target curve.
pub const THRESHOLD_OFFSET_MAX_MDB: i32 = 50_000;

/// The ratio of one to one, in thousandths.
pub const RATIO_UNITY: u32 = 1_000;

/// The attack time a fresh parameter set starts with, 150 ms.
pub const DEFAULT_ATTACK_US: u32 = 150_000;

/// The release time a fresh parameter set starts with, 300 ms.
pub const DEFAULT_RELEASE_US: u32 = 300_000;

/// The step of a level knob, a tenth of a decibel.
pub const LEVEL_STEP_MDB: i64 = 100;

/// The step of a ratio knob, a tenth.
pub const RATIO_STEP_MILLI: i64 = 100;

/// The step of a time knob, a tenth of a millisecond.
pub const TIME_STEP_US: i64 = 100;

/// The highest ratio a knob offers, 300 to one.
pub const RATIO_KNOB_MAX_MILLI: i64 = 300_000;

/// The longest time a knob offers, ten seconds.
pub const TIME_KNOB_MAX_US: i64 = 10_000_000;

/// The exponent of the skew of the ratio and time knobs, which gives the
/// low end of their ranges most of the knob's travel.
pub const KNOB_SKEW: i32 = -2;

/// One of the six knobs.
#[derive(Clone, Copy, Debug, PartialEq, Eq, Structural)]
pub enum Knob {
    /// The downwards compression threshold relative to the target curve.
    DownwardsThresholdOffset,
    /// The upwards compression threshold relative to the target curve.
    UpwardsThresholdOffset,
    /// The downwards compression ratio.
    DownwardsRatio,
    /// The upwards compression ratio.
    UpwardsRatio,
    /// The attack time.
    Attack,
    /// The release time.
    Release,
}

/// What a host is offered of a knob, in the unit of the knob's field.
#[derive(Clone, Copy, Debug, PartialEq, Eq, Structural)]
pub struct KnobRange {
    /// The lowest value.
    pub min: i64,
    /// The highest value.
    pub max: i64,
    /// The value a fresh parameter set holds.
    pub default: i64,
    /// The distance between neighbouring values.
    pub step: i64,
    /// The exponent of the range's skew, or zero for a linear range.
    pub skew: i32,
}

/// What a host is offered of `knob`.
pub open spec fn knob_range(knob: Knob) -> KnobRange {
    match knob {
        Knob::DownwardsThresholdOffset | Knob::UpwardsThresholdOffset => KnobRange {
            min: THRESHOLD_OFFSET_MIN_MDB as i64,
            max: THRESHOLD_OFFSET_MAX_MDB as i64,
            default: 0,
            step: LEVEL_STEP_MDB,
            skew: 0,
        },
        Knob::DownwardsRatio | Knob::UpwardsRatio => KnobRange {
            min: RATIO_UNITY as i64,
            max: RATIO_KNOB_MAX_MILLI,
            default: RATIO_UNITY as i64,
            step: RATIO_STEP_MILLI,
            skew: KNOB_SKEW,
        },
        Knob::Attack => KnobRange {
            min: 0,
            max: TIME_KNOB_MAX_US,
            default: DEFAULT_ATTACK_US as i64,
            step: TIME_STEP_US,
            skew: KNOB_SKEW,
        },
        Knob::Release => KnobRange {
            min: 0,
            max: TIME_KNOB_MAX_US,
            default: DEFAULT_RELEASE_US as i64,
            step: TIME_STEP_US,
            skew: KNOB_SKEW,
        },
    }
}

impl Knob {
    /// What a host is offered of this knob.
    pub fn range(self) -> (range: KnobRange)
        ensures
            range == knob_range(self),
            range.min <= range.default <= range.max,
            range.step > 0,
    {
        match self {
            Knob::DownwardsThresholdOffset | Knob::UpwardsThresholdOffset => KnobRange {
                min: THRESHOLD_OFFSET_MIN_MDB as i64,
                max: THRESHOLD_OFFSET_MAX_MDB as i64,
                default: 0,
                step: LEVEL_STEP_MDB,
                skew: 0,
            },
            Knob::DownwardsRatio | Knob::UpwardsRatio => KnobRange {
                min: RATIO_UNITY as i64,
                max: RATIO_KNOB_MAX_MILLI,
                default: RATIO_UNITY as i64,
                step: RATIO_STEP_MILLI,
                skew: KNOB_SKEW,
            },
            Knob::Attack => KnobRange {
                min: 0,
                max: TIME_KNOB_MAX_US,
                default: DEFAULT_ATTACK_US as i64,
                step: TIME_STEP_US,
                skew: KNOB_SKEW,
            },
            Knob::Release => KnobRange {
                min: 0,
                max: TIME_KNOB_MAX_US,
                default: DEFAULT_RELEASE_US as i64,
                step: TIME_STEP_US,
                skew: KNOB_SKEW,
            },
        }
    }
}

/// A snapshot of the compressor's knobs, taken once per block.
#[derive(Clone, Copy, Debug, PartialEq, Eq, Structural)]
pub struct CompressorBankParams {
    /// The downwards compression threshold relative to the target curve.
    pub downwards_threshold_offset_mdb: i32,
    /// The upwards compression threshold relative to the target curve.
    pub upwards_threshold_offset_mdb: i32,
    /// The downwards compression ratio. At `RATIO_UNITY` the downwards
    /// compressor is disengaged.
    pub downwards_ratio_milli: u32,
    /// The upwards compression ratio. At `RATIO_UNITY` the upwards compressor
    /// is disengaged.
    pub upwards_ratio_milli: u32,
    /// The attack time. Controls both upwards and downwards compression.
    pub compressor_attack_us: u32,
    /// The release time. Controls both upwards and downwards compression.
    pub compressor_release_us: u32,
}

/// Whether `offset_mdb` lies within 50 dB of the target curve.
pub open spec fn offset_in_range(offset_mdb: int) -> bool {
    THRESHOLD_OFFSET_MIN_MDB <= offset_mdb <= THRESHOLD_OFFSET_MAX_MDB
}

/// `value` moved to the nearest point of `[lo, hi]`.
pub open spec fn clamp_int(value: int, lo: int, hi: int) -> int {
    if value < lo {
        lo
    } else if value > hi {
        hi
    } else {
        value
    }
}

impl CompressorBankParams {
    /// The declared ranges: both offsets within 50 dB of the target curve and
    /// neither ratio below one to one. Times cannot be negative.
    pub open spec fn is_valid(&self) -> bool {
        &&& offset_in_range(self.downwards_threshold_offset_mdb as int)
        &&& offset_in_range(self.upwards_threshold_offset_mdb as int)
        &&& self.downwards_ratio_milli >= RATIO_UNITY
        &&& self.upwards_ratio_milli >= RATIO_UNITY
    }

    /// The value at `knob`.
    pub open spec fn value_at(&self, knob: Knob) -> int {
        match knob {
            Knob::DownwardsThresholdOffset => self.downwards_threshold_offset_mdb as int,
            Knob::UpwardsThresholdOffset => self.upwards_threshold_offset_mdb as int,
            Knob::DownwardsRatio => self.downwards_ratio_milli as int,
            Knob::UpwardsRatio => self.upwards_ratio_milli as int,
            Knob::Attack => self.compressor_attack_us as int,
            Knob::Release => self.compressor_release_us as int,
        }
    }

    /// The value at `knob`.
    pub fn value(&self, knob: Knob) -> (value: i64)
        ensures
            value == self.value_at(knob),
    {
        match knob {
            Knob::DownwardsThresholdOffset => self.downwards_threshold_offset_mdb as i64,
            Knob::UpwardsThresholdOffset => self.upwards_threshold_offset_mdb as i64,
            Knob::DownwardsRatio => self.downwards_ratio_milli as i64,
            Knob::UpwardsRatio => self.upwards_ratio_milli as i64,
            Knob::Attack => self.compressor_attack_us as i64,
            Knob::Release => self.compressor_release_us as i64,
        }
    }

    /// Builds a parameter set, or `None` when a value is outside its range.
    pub fn new(
        downwards_threshold_offset_mdb: i32,
        upwards_threshold_offset_mdb: i32,
        downwards_ratio_milli: u32,
        upwards_ratio_milli: u32,
        compressor_attack_us: u32,
        compressor_release_us: u32,
    ) -> (result: Option<Self>)
        ensures
            result.is_some() <==> (CompressorBankParams {
                downwards_threshold_offset_mdb,
                upwards_threshold_offset_mdb,
                downwards_ratio_milli,
                upwards_ratio_milli,
                compressor_attack_us,
                compressor_release_us,
            }).is_valid(),
            result.is_some() ==> result.unwrap() == (CompressorBankParams {
                downwards_threshold_offset_mdb,
                upwards_threshold_offset_mdb,
                downwards_ratio_milli,
                upwards_ratio_milli,
                compressor_attack_us,
                compressor_release_us,
            }),
    {
        let params = CompressorBankParams {
            downwards_threshold_offset_mdb,
            upwards_threshold_offset_mdb,
            downwards_ratio_milli,
            upwards_ratio_milli,
            compressor_attack_us,
            compressor_release_us,
        };
        if THRESHOLD_OFFSET_MIN_MDB <= downwards_threshold_offset_mdb
            && downwards_threshold_offset_mdb <= THRESHOLD_OFFSET_MAX_MDB
            && THRESHOLD_OFFSET_MIN_MDB <= upwards_threshold_offset_mdb
            && upwards_threshold_offset_mdb <= THRESHOLD_OFFSET_MAX_MDB
            && downwards_ratio_milli >= RATIO_UNITY
            && upwards_ratio_milli >= RATIO_UNITY
        {
            Some(params)
        } else {
            None
        }
    }

    /// Builds a parameter set from any values by moving each one that lies
    /// outside its range to the nearest end of that range.
    pub fn clamped(
        downwards_threshold_offset_mdb: i32,
        upwards_threshold_offset_mdb: i32,
        downwards_ratio_milli: u32,
        upwards_ratio_milli: u32,
        compressor_attack_us: u32,
        compressor_release_us: u32,
    ) -> (result: Self)
        ensures
            result.is_valid(),
            result.downwards_threshold_offset_mdb == clamp_int(
                downwards_threshold_offset_mdb as int,
                THRESHOLD_OFFSET_MIN_MDB as int,
                THRESHOLD_OFFSET_MAX_MDB as int,
            ),
            result.upwards_threshold_offset_mdb == clamp_int(
                upwards_threshold_offset_mdb as int,
                THRESHOLD_OFFSET_MIN_MDB as int,
                THRESHOLD_OFFSET_MAX_MDB as int,
            ),
            result.downwards_ratio_milli == clamp_int(
                downwards_ratio_milli as int,
                RATIO_UNITY as int,
                u32::MAX as int,
            ),
            result.upwards_ratio_milli == clamp_int(
                upwards_ratio_milli as int,
                RATIO_UNITY as int,
                u32::MAX as int,
            ),
            result.compressor_attack_us == compressor_attack_us,
            result.compressor_release_us == compressor_release_us,
    {
        CompressorBankParams {
            downwards_threshold_offset_mdb: clamp_offset(downwards_threshold_offset_mdb),
            upwards_threshold_offset_mdb: clamp_offset(upwards_threshold_offset_mdb),
            downwards_ratio_milli: clamp_ratio(downwards_ratio_milli),
            upwards_ratio_milli: clamp_ratio(upwards_ratio_milli),
            compressor_attack_us,
            compressor_release_us,
        }
    }
}

fn clamp_offset(offset_mdb: i32) -> (result: i32)
    ensures
        result == clamp_int(
            offset_mdb as int,
            THRESHOLD_OFFSET_MIN_MDB as int,
            THRESHOLD_OFFSET_MAX_MDB as int,
        ),
{
    if offset_mdb < THRESHOLD_OFFSET_MIN_MDB {
        THRESHOLD_OFFSET_MIN_MDB
    } else if offset_mdb > THRESHOLD_OFFSET_MAX_MDB {
        THRESHOLD_OFFSET_MAX_MDB
    } else {
        offset_mdb
    }
}

fn clamp_ratio(ratio_milli: u32) -> (result: u32)
    ensures
        result == clamp_int(ratio_milli as int, RATIO_UNITY as int, u32::MAX as int),
{
    if ratio_milli < RATIO_UNITY {
        RATIO_UNITY
    } else {
        ratio_milli
    }
}

impl Default for CompressorBankParams {
    /// Both thresholds on the target curve, both directions disengaged, 150 ms
    /// of attack and 300 ms of release.
    fn default() -> (result: Self)
        ensures
            result.is_valid(),
            result.downwards_threshold_offset_mdb == 0,
            result.upwards_threshold_offset_mdb == 0,
            result.downwards_ratio_milli == RATIO_UNITY,
            result.upwards_ratio_milli == RATIO_UNITY,
            result.compressor_attack_us == DEFAULT_ATTACK_US,
            result.compressor_release_us == DEFAULT_RELEASE_US,
            forall|knob: Knob| #[trigger] result.value_at(knob) == knob_range(knob).default,
    {
        CompressorBankParams {
            downwards_threshold_offset_mdb: 0,
            upwards_threshold_offset_mdb: 0,
            downwards_ratio_milli: RATIO_UNITY,
            upwards_ratio_milli: RATIO_UNITY,
            compressor_attack_us: DEFAULT_ATTACK_US,
            compressor_release_us: DEFAULT_RELEASE_US,
        }
    }
}

} // verus!
