//! Complex spectral bins in fixed point: their power and magnitude, the target
//! curve of a frame, and scaling by a gain.

use vstd::prelude::*;

use crate::decibel::GAIN_LIMIT_Q16;
use crate::logarithm::ONE_Q16;
use crate::numeric::{floor_sqrt, integer_sqrt, lemma_floor_sqrt_zero};

verus! {

/// The largest size of a component of a bin that is processed, 2^31.
pub const MAX_COMPONENT: i64 = 0x8000_0000;

/// One complex sample of a spectrum, in Q16.
#[derive(Clone, Copy, Debug, PartialEq, Eq, Structural)]
pub struct Complex {
    /// The real part.
    pub re: i64,
    /// The imaginary part.
    pub im: i64,
}

/// The size of `value`, whatever its sign.
pub open spec fn abs_int(value: int) -> int {
    if value < 0 {
        -value
    } else {
        value
    }
}

/// `value` times the Q16 gain `gain`, rounded towards zero.
pub open spec fn scaled_component(value: int, gain: int) -> int {
    if value < 0 {
        -((-value * gain) / (ONE_Q16 as int))
    } else {
        (value * gain) / (ONE_Q16 as int)
    }
}

/// The cross product of two bins taken as vectors: zero exactly where one is a
/// real multiple of the other, that is where their phases agree or oppose.
pub open spec fn cross_product(a: Complex, b: Complex) -> int {
    a.re * b.im - a.im * b.re
}

/// The size of the larger component of `bin`.
pub open spec fn larger_component(bin: Complex) -> int {
    if abs_int(bin.re as int) >= abs_int(bin.im as int) {
        abs_int(bin.re as int)
    } else {
        abs_int(bin.im as int)
    }
}

/// The sum of the powers of `bins`.
pub open spec fn total_power(bins: Seq<Complex>) -> nat
    decreases bins.len(),
{
    if bins.len() == 0 {
        0
    } else {
        total_power(bins.drop_last()) + bins.last().power()
    }
}

/// Whether every bin of `bins` is small enough to be processed.
pub open spec fn all_in_range(bins: Seq<Complex>) -> bool {
    forall|i: int| 0 <= i < bins.len() ==> (#[trigger] bins[i]).in_range()
}

/// Whether every bin of `bins` is zero.
pub open spec fn all_zero(bins: Seq<Complex>) -> bool {
    forall|i: int| 0 <= i < bins.len() ==> (#[trigger] bins[i]).is_zero()
}

/// The level that the bins of a frame are compressed towards: the root of
/// their mean power, rounded down, and zero for a frame without bins.
pub open spec fn target_magnitude(bins: Seq<Complex>) -> nat {
    if bins.len() == 0 {
        0
    } else {
        floor_sqrt(total_power(bins) / bins.len())
    }
}

impl Complex {
    /// Whether neither component is larger than `MAX_COMPONENT`.
    pub open spec fn in_range(&self) -> bool {
        &&& -MAX_COMPONENT <= self.re <= MAX_COMPONENT
        &&& -MAX_COMPONENT <= self.im <= MAX_COMPONENT
    }

    /// Whether both components are zero.
    pub open spec fn is_zero(&self) -> bool {
        self.re == 0 && self.im == 0
    }

    /// The squared magnitude.
    pub open spec fn power(&self) -> nat {
        (self.re * self.re + self.im * self.im) as nat
    }

    /// The magnitude, rounded down.
    pub open spec fn magnitude(&self) -> nat {
        floor_sqrt(self.power())
    }

    /// The bin with both components scaled by the Q16 gain `gain`.
    pub open spec fn scaled(&self, gain: int) -> Complex {
        Complex {
            re: scaled_component(self.re as int, gain) as i64,
            im: scaled_component(self.im as int, gain) as i64,
        }
    }

    /// The squared magnitude.
    pub fn squared_magnitude(&self) -> (power: u64)
        requires
            self.in_range(),
        ensures
            power == self.power(),
            power <= 0x8000_0000_0000_0000,
            self.is_zero() ==> power == 0,
    {
        let re_size: u64 = component_size(self.re);
        let im_size: u64 = component_size(self.im);
        assert(re_size * re_size <= 0x4000_0000_0000_0000 && re_size * re_size == self.re
            * self.re) by (nonlinear_arith)
            requires
                0 <= re_size <= 0x8000_0000,
                re_size == self.re || re_size == -self.re,
        ;
        assert(im_size * im_size <= 0x4000_0000_0000_0000 && im_size * im_size == self.im
            * self.im) by (nonlinear_arith)
            requires
                0 <= im_size <= 0x8000_0000,
                im_size == self.im || im_size == -self.im,
        ;
        assert(self.is_zero() ==> re_size * re_size + im_size * im_size == 0) by (nonlinear_arith)
            requires
                self.is_zero() ==> re_size == 0 && im_size == 0,
        ;
        re_size * re_size + im_size * im_size
    }

    /// The magnitude, rounded down.
    pub fn linear_magnitude(&self) -> (magnitude: u64)
        requires
            self.in_range(),
        ensures
            magnitude == self.magnitude(),
            magnitude <= 0xFFFF_FFFF,
            self.is_zero() ==> magnitude == 0,
    {
        proof {
            lemma_floor_sqrt_zero();
        }
        integer_sqrt(self.squared_magnitude())
    }

    /// The bin with both components scaled by the Q16 gain `gain`, each
    /// rounded towards zero.
    pub fn scale(&self, gain: u64) -> (scaled: Complex)
        requires
            self.in_range(),
            gain < GAIN_LIMIT_Q16,
        ensures
            scaled == self.scaled(gain as int),
            scaled.re == scaled_component(self.re as int, gain as int),
            scaled.im == scaled_component(self.im as int, gain as int),
            self.is_zero() ==> scaled.is_zero(),
            gain == ONE_Q16 ==> scaled == *self,
    {
        Complex { re: scale_component(self.re, gain), im: scale_component(self.im, gain) }
    }
}

/// The size of a component.
fn component_size(value: i64) -> (size: u64)
    requires
        -MAX_COMPONENT <= value <= MAX_COMPONENT,
    ensures
        size == abs_int(value as int),
        size <= MAX_COMPONENT,
{
    if value < 0 {
        (-value) as u64
    } else {
        value as u64
    }
}

/// `value` times the Q16 gain `gain`, rounded towards zero.
fn scale_component(value: i64, gain: u64) -> (scaled: i64)
    requires
        -MAX_COMPONENT <= value <= MAX_COMPONENT,
        gain < GAIN_LIMIT_Q16,
    ensures
        scaled == scaled_component(value as int, gain as int),
        value == 0 ==> scaled == 0,
        gain == ONE_Q16 ==> scaled == value,
{
    let size: u64 = component_size(value);
    assert(0 <= size * gain <= 0x8000_0000 * 0x8000_0000_0000) by (nonlinear_arith)
        requires
            0 <= size <= 0x8000_0000,
            0 <= gain <= 0x8000_0000_0000,
    ;
    assert(value == 0 ==> size * gain == 0) by (nonlinear_arith)
        requires
            value == 0 ==> size == 0,
    ;
    assert(-value * gain == size * gain || value * gain == size * gain) by (nonlinear_arith)
        requires
            size == value || size == -value,
            value < 0 ==> size == -value,
            value >= 0 ==> size == value,
    ;
    assert(gain == 65_536 ==> size * gain == size * 65_536) by (nonlinear_arith);
    let product: u128 = size as u128 * gain as u128;
    let quotient: i64 = (product / 65_536) as i64;
    if value < 0 {
        -quotient
    } else {
        quotient
    }
}

/// Two sizes scaled by one gain stay in proportion, up to the rounding of
/// each: their cross product with the unscaled sizes is no larger than the
/// sizes themselves.
proof fn lemma_scaled_sizes_in_proportion(a: int, b: int, gain: int)
    requires
        a >= 0,
        b >= 0,
        gain >= 0,
    ensures
        -b <= scaled_component(a, gain) * b - scaled_component(b, gain) * a <= a,
        scaled_component(a, gain) >= 0,
        scaled_component(b, gain) >= 0,
{
    let scaled_a = (a * gain) / 65_536;
    let rest_a = (a * gain) % 65_536;
    let scaled_b = (b * gain) / 65_536;
    let rest_b = (b * gain) % 65_536;
    assert(a * gain >= 0 && b * gain >= 0) by (nonlinear_arith)
        requires
            a >= 0,
            b >= 0,
            gain >= 0,
    ;
    assert(65_536 * (scaled_a * b - scaled_b * a) == rest_b * a - rest_a * b) by (nonlinear_arith)
        requires
            a * gain == 65_536 * scaled_a + rest_a,
            b * gain == 65_536 * scaled_b + rest_b,
    ;
    assert(-65_536 * b <= rest_b * a - rest_a * b <= 65_536 * a) by (nonlinear_arith)
        requires
            0 <= rest_a < 65_536,
            0 <= rest_b < 65_536,
            a >= 0,
            b >= 0,
    ;
}

/// A scaled component is the scaled size of the component, under the
/// component's sign.
proof fn lemma_scaled_component_by_size(value: int, gain: int)
    requires
        gain >= 0,
    ensures
        value >= 0 ==> scaled_component(value, gain) == scaled_component(abs_int(value), gain),
        value < 0 ==> scaled_component(value, gain) == -scaled_component(abs_int(value), gain),
        scaled_component(abs_int(value), gain) >= 0,
        abs_int(scaled_component(value, gain)) == scaled_component(abs_int(value), gain),
        value == 0 ==> scaled_component(value, gain) == 0,
{
    let size = abs_int(value);
    assert(size * gain >= 0 && (size == 0 ==> size * gain == 0)) by (nonlinear_arith)
        requires
            size >= 0,
            gain >= 0,
    ;
}

/// A scaled component of a bin in range fits its type.
pub proof fn lemma_scaled_component_fits(value: int, gain: int)
    requires
        -MAX_COMPONENT <= value <= MAX_COMPONENT,
        0 <= gain < GAIN_LIMIT_Q16,
    ensures
        abs_int(scaled_component(value, gain)) <= 0x4000_0000_0000_0000,
{
    let size = abs_int(value);
    lemma_scaled_component_by_size(value, gain);
    assert(0 <= size * gain <= 0x8000_0000 * 0x8000_0000_0000) by (nonlinear_arith)
        requires
            0 <= size <= 0x8000_0000,
            0 <= gain <= 0x8000_0000_0000,
    ;
}

/// Scaling turns no bin. Each component keeps its sign, and the scaled bin
/// is parallel to the bin up to the rounding of its components: the cross
/// product of the two is no larger than the larger component of the bin.
pub proof fn lemma_scaling_keeps_phase(bin: Complex, gain: int)
    requires
        bin.in_range(),
        0 <= gain < GAIN_LIMIT_Q16,
    ensures
        bin.re >= 0 ==> bin.scaled(gain).re >= 0,
        bin.re <= 0 ==> bin.scaled(gain).re <= 0,
        bin.im >= 0 ==> bin.scaled(gain).im >= 0,
        bin.im <= 0 ==> bin.scaled(gain).im <= 0,
        abs_int(cross_product(bin.scaled(gain), bin)) <= larger_component(bin),
{
    let re = bin.re as int;
    let im = bin.im as int;
    let a = abs_int(re);
    let b = abs_int(im);
    let scaled_a = scaled_component(a, gain);
    let scaled_b = scaled_component(b, gain);
    let out_re = scaled_component(re, gain);
    let out_im = scaled_component(im, gain);
    lemma_scaled_component_fits(re, gain);
    lemma_scaled_component_fits(im, gain);
    lemma_scaled_component_by_size(re, gain);
    lemma_scaled_component_by_size(im, gain);
    lemma_scaled_sizes_in_proportion(a, b, gain);
    assert(bin.scaled(gain).re == out_re);
    assert(bin.scaled(gain).im == out_im);
    let cross = scaled_a * b - scaled_b * a;
    assert(out_re * im - out_im * re == cross || out_re * im - out_im * re == -cross)
        by (nonlinear_arith)
        requires
            cross == scaled_a * b - scaled_b * a,
            (re == a && out_re == scaled_a) || (re == -a && out_re == -scaled_a),
            (im == b && out_im == scaled_b) || (im == -b && out_im == -scaled_b),
    ;
}

/// A gain of exactly one changes no bin.
pub proof fn lemma_unity_gain_changes_nothing(bin: Complex)
    ensures
        bin.scaled(ONE_Q16 as int) == bin,
{
    let re = bin.re as int;
    let im = bin.im as int;
    assert(scaled_component(re, 65_536) == re);
    assert(scaled_component(im, 65_536) == im);
}

/// A larger gain never gives a smaller component.
pub proof fn lemma_scaling_monotonic(value: int, gain1: int, gain2: int)
    requires
        0 <= gain1 <= gain2,
    ensures
        abs_int(scaled_component(value, gain1)) <= abs_int(scaled_component(value, gain2)),
{
    let size = abs_int(value);
    lemma_scaled_component_by_size(value, gain1);
    lemma_scaled_component_by_size(value, gain2);
    assert(size * gain1 <= size * gain2) by (nonlinear_arith)
        requires
            size >= 0,
            gain1 <= gain2,
    ;
}

/// The sum of the powers of the bins before `end` is the sum of those before
/// `end - 1` and the power of the bin there.
proof fn lemma_total_power_extend(bins: Seq<Complex>, start: int, end: int)
    requires
        0 <= start < end <= bins.len(),
    ensures
        total_power(bins.subrange(start, end)) == total_power(bins.subrange(start, end - 1))
            + bins[end - 1].power(),
{
    let taken = bins.subrange(start, end);
    assert(taken.drop_last() =~= bins.subrange(start, end - 1));
    assert(taken.last() == bins[end - 1]);
}

/// A frame of zeros has no power.
pub proof fn lemma_zero_frame_has_no_power(bins: Seq<Complex>)
    requires
        all_zero(bins),
    ensures
        total_power(bins) == 0,
        target_magnitude(bins) == 0,
    decreases bins.len(),
{
    lemma_floor_sqrt_zero();
    if bins.len() > 0 {
        let front = bins.drop_last();
        assert forall|i: int| 0 <= i < front.len() implies (#[trigger] front[i]).is_zero() by {
            assert(front[i] == bins[i]);
        }
        lemma_zero_frame_has_no_power(front);
        assert(bins.last() == bins[bins.len() - 1]);
        assert(bins.last().is_zero());
        assert(total_power(bins) == 0);
        assert(0nat / bins.len() == 0);
    }
}

/// The target magnitude of the `count` bins of `spectrum` from `start` on.
pub fn estimate_target(spectrum: &Vec<Complex>, start: usize, count: usize) -> (target: u64)
    requires
        start + count <= spectrum.len(),
        all_in_range(spectrum@.subrange(start as int, start + count)),
    ensures
        target == target_magnitude(spectrum@.subrange(start as int, start + count)),
        target <= 0xFFFF_FFFF,
{
    if count == 0 {
        return 0;
    }
    let ghost frame = spectrum@.subrange(start as int, start + count);
    let mut sum: u128 = 0;
    let mut taken: usize = 0;
    while taken < count
        invariant
            taken <= count,
            start + count <= spectrum.len(),
            frame == spectrum@.subrange(start as int, start + count),
            all_in_range(frame),
            sum == total_power(spectrum@.subrange(start as int, start + taken)),
            sum <= taken * 0x8000_0000_0000_0000,
        decreases count - taken,
    {
        proof {
            lemma_total_power_extend(spectrum@, start as int, start + taken + 1);
            assert(frame[taken as int] == spectrum@[start + taken]);
        }
        let power: u64 = spectrum[start + taken].squared_magnitude();
        sum = sum + power as u128;
        taken = taken + 1;
    }
    let mean: u128 = sum / count as u128;
    assert(mean <= 0x8000_0000_0000_0000) by (nonlinear_arith)
        requires
            mean == sum as int / count as int,
            count > 0,
            0 <= sum <= count * 0x8000_0000_0000_0000,
    ;
    integer_sqrt(mean as u64)
}

} // verus!
