//! The compressor bank: one envelope per channel and bin, and the block-level
//! entry point that follows, evaluates and scales every bin of a spectrum.
//!
//! Spectra and envelopes are flat and channel-major: the bin `bin` of the
//! channel `channel` is at the index `channel * bins + bin`.

use vstd::arithmetic::div_mod::{lemma_div_multiples_vanish_fancy, lemma_fundamental_div_mod};
use vstd::prelude::*;

use crate::logarithm::ONE_Q16;
use crate::envelope::{
    envelope_step, follow_envelope, smoothing_coefficient, smoothing_coefficient_q16,
};
use crate::gain::{
    bin_gain_q16, evaluate_gain, lemma_gain_is_bounded, lemma_higher_downward_ratio_never_louder,
    lemma_unity_gain_when_disengaged,
};
use crate::numeric::lemma_floor_sqrt_zero;
use crate::params::{CompressorBankParams, RATIO_UNITY};
use crate::spectrum::{
    abs_int, all_in_range, all_zero, estimate_target, lemma_scaling_monotonic,
    lemma_unity_gain_changes_nothing, lemma_zero_frame_has_no_power, scaled_component,
    target_magnitude, Complex,
};

verus! {

/// Why a bank could not be initialised.
#[derive(Clone, Copy, Debug, PartialEq, Eq, Structural)]
pub enum InitError {
    /// The sample rate was zero.
    ZeroSampleRate,
    /// The transform size was zero.
    ZeroFftSize,
    /// The channel count was zero.
    ZeroChannels,
    /// The bins of all channels together cannot be counted in a `usize`.
    TooLarge,
}

/// What a bank holds, as plain values.
pub struct BankState {
    /// The sample rate given at initialisation, in samples per second.
    pub sample_rate: nat,
    /// The number of channels.
    pub channels: nat,
    /// The number of bins per channel.
    pub bins: nat,
    /// The smoothed magnitude of every bin, channel by channel.
    pub envelopes: Seq<u64>,
    /// The Q16 gain that the last block applied to every bin, channel by
    /// channel, and one where no block came since the bank was sized or
    /// reset.
    pub gains: Seq<u64>,
}

/// A bank of per-bin compressors for a fixed transform size and channel
/// count.
pub struct CompressorBank {
    sample_rate: u32,
    channels: usize,
    bins: usize,
    envelopes: Vec<u64>,
    gains: Vec<u64>,
}

impl View for CompressorBank {
    type V = BankState;

    closed spec fn view(&self) -> BankState {
        BankState {
            sample_rate: self.sample_rate as nat,
            channels: self.channels as nat,
            bins: self.bins as nat,
            envelopes: self.envelopes@,
            gains: self.gains@,
        }
    }
}

impl Default for CompressorBank {
    /// A bank without channels, as `CompressorBank::new` makes it.
    fn default() -> (bank: Self)
        ensures
            bank.wf(),
            bank@.sample_rate == 0,
            bank@.channels == 0,
            bank@.bins == 0,
            bank@.envelopes.len() == 0,
            bank@.gains.len() == 0,
    {
        CompressorBank::new()
    }
}

/// The number of bins in the spectrum of a real signal of `fft_size` samples.
pub open spec fn bins_for(fft_size: nat) -> nat {
    fft_size / 2 + 1
}

/// The reason to reject an initialisation, if there is one: the first of a
/// zero sample rate, a zero transform size, a zero channel count and a bin
/// count beyond `usize`.
pub open spec fn init_error(sample_rate: nat, fft_size: nat, channel_count: nat) -> Option<
    InitError,
> {
    if sample_rate == 0 {
        Some(InitError::ZeroSampleRate)
    } else if fft_size == 0 {
        Some(InitError::ZeroFftSize)
    } else if channel_count == 0 {
        Some(InitError::ZeroChannels)
    } else if channel_count * bins_for(fft_size) > usize::MAX {
        Some(InitError::TooLarge)
    } else {
        None
    }
}

/// `len` envelopes at rest.
pub open spec fn silent_envelopes(len: nat) -> Seq<u64> {
    Seq::new(len, |i: int| 0u64)
}

/// `len` gains of one.
pub open spec fn unity_gains(len: nat) -> Seq<u64> {
    Seq::new(len, |i: int| ONE_Q16)
}

/// The envelope of a bin after a block in which the bin held `bin`, when the
/// envelope was `previous` before.
pub open spec fn next_envelope(
    previous: u64,
    bin: Complex,
    params: CompressorBankParams,
    sample_rate: nat,
    hop_size: nat,
) -> int {
    envelope_step(
        previous as int,
        bin.magnitude() as int,
        smoothing_coefficient_q16(params.compressor_attack_us as nat, sample_rate, hop_size),
        smoothing_coefficient_q16(params.compressor_release_us as nat, sample_rate, hop_size),
    )
}

/// The bins of one channel of a flat spectrum.
pub open spec fn channel_frame(spectrum: Seq<Complex>, bins: nat, channel: int) -> Seq<Complex> {
    spectrum.subrange(channel * bins, (channel + 1) * bins)
}

/// The gain in Q16 that a block applies to the bin at `index`: the gain curve
/// at the bin's new envelope, against the target of the bin's channel.
pub open spec fn gain_at(
    envelopes: Seq<u64>,
    spectrum: Seq<Complex>,
    bins: nat,
    index: int,
    params: CompressorBankParams,
    sample_rate: nat,
    hop_size: nat,
) -> int {
    bin_gain_q16(
        next_envelope(envelopes[index], spectrum[index], params, sample_rate, hop_size) as nat,
        target_magnitude(channel_frame(spectrum, bins, index / bins as int)),
        params,
    )
}

/// The bin at `index` after a block.
pub open spec fn processed_bin(
    envelopes: Seq<u64>,
    spectrum: Seq<Complex>,
    bins: nat,
    index: int,
    params: CompressorBankParams,
    sample_rate: nat,
    hop_size: nat,
) -> Complex {
    spectrum[index].scaled(
        gain_at(envelopes, spectrum, bins, index, params, sample_rate, hop_size),
    )
}

impl CompressorBank {
    /// Whether there is one envelope and one gain for every bin of every
    /// channel.
    pub open spec fn wf(&self) -> bool {
        &&& self@.envelopes.len() == self@.channels * self@.bins
        &&& self@.gains.len() == self@.channels * self@.bins
    }

    /// A bank without channels, to be initialised before use.
    pub fn new() -> (bank: Self)
        ensures
            bank.wf(),
            bank@.sample_rate == 0,
            bank@.channels == 0,
            bank@.bins == 0,
            bank@.envelopes.len() == 0,
            bank@.gains.len() == 0,
    {
        CompressorBank {
            sample_rate: 0,
            channels: 0,
            bins: 0,
            envelopes: Vec::new(),
            gains: Vec::new(),
        }
    }

    /// Sizes the bank for `channel_count` channels of a transform of
    /// `fft_size` samples, with every envelope at rest and every gain at one. A request that cannot
    /// be met is rejected and leaves the bank as it was.
    pub fn initialize(
        &mut self,
        sample_rate: u32,
        fft_size: usize,
        channel_count: usize,
    ) -> (result: Result<(), InitError>)
        requires
            old(self).wf(),
        ensures
            final(self).wf(),
            result.is_err() <==> init_error(
                sample_rate as nat,
                fft_size as nat,
                channel_count as nat,
            ).is_some(),
            result.is_err() ==> *final(self) == *old(self) && Some(result.unwrap_err())
                == init_error(sample_rate as nat, fft_size as nat, channel_count as nat),
            result.is_ok() ==> final(self)@ == (BankState {
                sample_rate: sample_rate as nat,
                channels: channel_count as nat,
                bins: bins_for(fft_size as nat),
                envelopes: silent_envelopes(channel_count as nat * bins_for(fft_size as nat)),
                gains: unity_gains(channel_count as nat * bins_for(fft_size as nat)),
            }),
    {
        if sample_rate == 0 {
            return Err(InitError::ZeroSampleRate);
        }
        if fft_size == 0 {
            return Err(InitError::ZeroFftSize);
        }
        if channel_count == 0 {
            return Err(InitError::ZeroChannels);
        }
        let bins: usize = fft_size / 2 + 1;
        if bins > usize::MAX / channel_count {
            proof {
                lemma_product_overflows(channel_count as int, bins as int, usize::MAX as int);
            }
            return Err(InitError::TooLarge);
        }
        proof {
            lemma_product_fits(channel_count as int, bins as int, usize::MAX as int);
        }
        let len: usize = channel_count * bins;
        let mut envelopes: Vec<u64> = Vec::new();
        let mut gains: Vec<u64> = Vec::new();
        while envelopes.len() < len
            invariant
                envelopes@.len() <= len,
                gains@.len() == envelopes@.len(),
                forall|i: int| 0 <= i < envelopes@.len() ==> envelopes@[i] == 0,
                forall|i: int| 0 <= i < gains@.len() ==> gains@[i] == ONE_Q16,
            decreases len - envelopes@.len(),
        {
            envelopes.push(0);
            gains.push(ONE_Q16);
        }
        assert(envelopes@ =~= silent_envelopes(len as nat));
        assert(gains@ =~= unity_gains(len as nat));
        self.sample_rate = sample_rate;
        self.channels = channel_count;
        self.bins = bins;
        self.envelopes = envelopes;
        self.gains = gains;
        Ok(())
    }

    /// Puts every envelope at rest and every gain at one, keeping the bank's
    /// size.
    pub fn reset(&mut self)
        requires
            old(self).wf(),
        ensures
            final(self).wf(),
            final(self)@ == (BankState {
                envelopes: silent_envelopes(old(self)@.envelopes.len()),
                gains: unity_gains(old(self)@.envelopes.len()),
                ..old(self)@
            }),
    {
        let len: usize = self.envelopes.len();
        let mut index: usize = 0;
        while index < len
            invariant
                index <= len,
                self.envelopes@.len() == len,
                self.gains@.len() == len,
                self.sample_rate == old(self).sample_rate,
                self.channels == old(self).channels,
                self.bins == old(self).bins,
                forall|i: int| 0 <= i < index ==> self.envelopes@[i] == 0,
                forall|i: int| 0 <= i < index ==> self.gains@[i] == ONE_Q16,
            decreases len - index,
        {
            self.envelopes.set(index, 0);
            self.gains.set(index, ONE_Q16);
            index = index + 1;
        }
        assert(self.envelopes@ =~= silent_envelopes(len as nat));
        assert(self.gains@ =~= unity_gains(len as nat));
    }

    /// The sample rate given at initialisation.
    pub fn sample_rate(&self) -> (sample_rate: u32)
        ensures
            sample_rate == self@.sample_rate,
    {
        self.sample_rate
    }

    /// The number of channels.
    pub fn channel_count(&self) -> (channels: usize)
        ensures
            channels == self@.channels,
    {
        self.channels
    }

    /// The number of bins per channel.
    pub fn bin_count(&self) -> (bins: usize)
        ensures
            bins == self@.bins,
    {
        self.bins
    }

    /// The smoothed magnitude of the bin `bin` of the channel `channel`, or
    /// `None` where the bank has no such bin.
    pub fn envelope(&self, channel: usize, bin: usize) -> (envelope: Option<u64>)
        requires
            self.wf(),
        ensures
            envelope.is_some() <==> channel < self@.channels && bin < self@.bins,
            envelope.is_some() ==> envelope.unwrap() == self@.envelopes[channel * self@.bins
                + bin],
    {
        if channel < self.channels && bin < self.bins {
            let len: usize = self.envelopes.len();
            proof {
                lemma_index_in_bounds(
                    channel as int,
                    bin as int,
                    self.channels as int,
                    self.bins as int,
                );
                assert(len == self.channels * self.bins);
                assert(channel * self.bins + bin < len);
            }
            Some(self.envelopes[channel * self.bins + bin])
        } else {
            None
        }
    }

    /// The gain in Q16 that the last block gave the bin `bin` of the channel
    /// `channel`, or `None` where the bank has no such bin.
    pub fn gain(&self, channel: usize, bin: usize) -> (gain: Option<u64>)
        requires
            self.wf(),
        ensures
            gain.is_some() <==> channel < self@.channels && bin < self@.bins,
            gain.is_some() ==> gain.unwrap() == self@.gains[channel * self@.bins + bin],
    {
        if channel < self.channels && bin < self.bins {
            let len: usize = self.gains.len();
            proof {
                lemma_index_in_bounds(
                    channel as int,
                    bin as int,
                    self.channels as int,
                    self.bins as int,
                );
                assert(len == self.channels * self.bins);
                assert(channel * self.bins + bin < len);
            }
            Some(self.gains[channel * self.bins + bin])
        } else {
            None
        }
    }

    /// Processes one block: for every bin of every channel, moves the
    /// envelope towards the bin's magnitude, evaluates the gain curve at the
    /// envelope against the channel's target, and scales the bin by the gain.
    /// The gains stay in the bank until the next block. With neither ratio
    /// above one to one the spectrum comes back as it was, and a silent
    /// spectrum comes back silent, at a gain of one where the bank was at
    /// rest.
    pub fn process(
        &mut self,
        spectrum: &mut Vec<Complex>,
        params: &CompressorBankParams,
        sample_rate: u32,
        hop_size: u32,
    )
        requires
            old(self).wf(),
            old(spectrum)@.len() == old(self)@.channels * old(self)@.bins,
            all_in_range(old(spectrum)@),
            sample_rate > 0,
        ensures
            final(self).wf(),
            final(self)@.sample_rate == old(self)@.sample_rate,
            final(self)@.channels == old(self)@.channels,
            final(self)@.bins == old(self)@.bins,
            final(spectrum)@.len() == old(spectrum)@.len(),
            forall|i: int|
                0 <= i < old(spectrum)@.len() ==> #[trigger] final(self)@.envelopes[i]
                    == next_envelope(
                    old(self)@.envelopes[i],
                    old(spectrum)@[i],
                    *params,
                    sample_rate as nat,
                    hop_size as nat,
                ),
            forall|i: int|
                0 <= i < old(spectrum)@.len() ==> #[trigger] final(spectrum)@[i] == processed_bin(
                    old(self)@.envelopes,
                    old(spectrum)@,
                    old(self)@.bins,
                    i,
                    *params,
                    sample_rate as nat,
                    hop_size as nat,
                ),
            forall|i: int|
                0 <= i < old(spectrum)@.len() ==> #[trigger] final(self)@.gains[i] == gain_at(
                    old(self)@.envelopes,
                    old(spectrum)@,
                    old(self)@.bins,
                    i,
                    *params,
                    sample_rate as nat,
                    hop_size as nat,
                ),
            params.downwards_ratio_milli <= RATIO_UNITY && params.upwards_ratio_milli
                <= RATIO_UNITY ==> final(spectrum)@ == old(spectrum)@ && final(self)@.gains
                == unity_gains(old(spectrum)@.len()),
            all_zero(old(spectrum)@) ==> all_zero(final(spectrum)@),
            all_zero(old(spectrum)@) && old(self)@.envelopes == silent_envelopes(
                old(spectrum)@.len(),
            ) ==> final(self)@.gains == unity_gains(old(spectrum)@.len()) && final(self)@.envelopes
                == silent_envelopes(old(spectrum)@.len()),
    {
        let attack: u64 = smoothing_coefficient(params.compressor_attack_us, sample_rate, hop_size);
        let release: u64 = smoothing_coefficient(
            params.compressor_release_us,
            sample_rate,
            hop_size,
        );
        let ghost before = spectrum@;
        let ghost rested = self.envelopes@;
        let ghost rate = sample_rate as nat;
        let ghost hop = hop_size as nat;
        let bins: usize = self.bins;
        let channels: usize = self.channels;
        let len: usize = spectrum.len();
        let mut channel: usize = 0;
        let mut offset: usize = 0;
        while channel < channels
            invariant
                channel <= channels,
                offset == channel * bins,
                offset <= len,
                before.len() == len,
                self.bins == bins,
                self.channels == channels,
                self.sample_rate == old(self).sample_rate,
                before.len() == channels * bins,
                spectrum@.len() == before.len(),
                self.envelopes@.len() == before.len(),
                self.gains@.len() == before.len(),
                rested.len() == before.len(),
                all_in_range(before),
                attack == smoothing_coefficient_q16(params.compressor_attack_us as nat, rate, hop),
                release == smoothing_coefficient_q16(
                    params.compressor_release_us as nat,
                    rate,
                    hop,
                ),
                attack <= 65_535,
                release <= 65_535,
                forall|i: int|
                    0 <= i < offset ==> #[trigger] self.envelopes@[i] == next_envelope(
                        rested[i],
                        before[i],
                        *params,
                        rate,
                        hop,
                    ),
                forall|i: int|
                    0 <= i < offset ==> #[trigger] self.gains@[i] == gain_at(
                        rested,
                        before,
                        bins as nat,
                        i,
                        *params,
                        rate,
                        hop,
                    ),
                forall|i: int|
                    0 <= i < offset ==> #[trigger] spectrum@[i] == processed_bin(
                        rested,
                        before,
                        bins as nat,
                        i,
                        *params,
                        rate,
                        hop,
                    ),
                forall|i: int|
                    offset <= i < before.len() ==> #[trigger] self.envelopes@[i] == rested[i],
                forall|i: int| offset <= i < before.len() ==> #[trigger] spectrum@[i] == before[i],
            decreases channels - channel,
        {
            proof {
                lemma_frame_in_bounds(channel as int, channels as int, bins as int);
                assert(spectrum@.subrange(offset as int, offset + bins) =~= channel_frame(
                    before,
                    bins as nat,
                    channel as int,
                ));
            }
            let target: u64 = estimate_target(spectrum, offset, bins);
            let mut bin: usize = 0;
            while bin < bins
                invariant
                    bin <= bins,
                    channel < channels,
                    offset == channel * bins,
                    offset + bins <= len,
                    before.len() == len,
                    self.bins == bins,
                    self.channels == channels,
                    self.sample_rate == old(self).sample_rate,
                    before.len() == channels * bins,
                    spectrum@.len() == before.len(),
                    self.envelopes@.len() == before.len(),
                    self.gains@.len() == before.len(),
                    rested.len() == before.len(),
                    all_in_range(before),
                    target == target_magnitude(channel_frame(before, bins as nat, channel as int)),
                    attack == smoothing_coefficient_q16(
                        params.compressor_attack_us as nat,
                        rate,
                        hop,
                    ),
                    release == smoothing_coefficient_q16(
                        params.compressor_release_us as nat,
                        rate,
                        hop,
                    ),
                    attack <= 65_535,
                    release <= 65_535,
                    forall|i: int|
                        0 <= i < offset + bin ==> #[trigger] self.envelopes@[i] == next_envelope(
                            rested[i],
                            before[i],
                            *params,
                            rate,
                            hop,
                        ),
                    forall|i: int|
                        0 <= i < offset + bin ==> #[trigger] self.gains@[i] == gain_at(
                            rested,
                            before,
                            bins as nat,
                            i,
                            *params,
                            rate,
                            hop,
                        ),
                    forall|i: int|
                        0 <= i < offset + bin ==> #[trigger] spectrum@[i] == processed_bin(
                            rested,
                            before,
                            bins as nat,
                            i,
                            *params,
                            rate,
                            hop,
                        ),
                    forall|i: int|
                        offset + bin <= i < before.len() ==> #[trigger] self.envelopes@[i]
                            == rested[i],
                    forall|i: int|
                        offset + bin <= i < before.len() ==> #[trigger] spectrum@[i] == before[i],
                decreases bins - bin,
            {
                let index: usize = offset + bin;
                let sample: Complex = spectrum[index];
                assert(sample == before[index as int]);
                assert(before[index as int].in_range());
                let raw: u64 = sample.linear_magnitude();
                let previous: u64 = self.envelopes[index];
                let envelope: u64 = follow_envelope(previous, raw, attack, release);
                self.envelopes.set(index, envelope);
                let gain: u64 = evaluate_gain(envelope, target, params);
                self.gains.set(index, gain);
                spectrum.set(index, sample.scale(gain));
                proof {
                    assert(offset == bins * channel) by (nonlinear_arith)
                        requires
                            offset == channel * bins,
                    ;
                    lemma_div_multiples_vanish_fancy(channel as int, bin as int, bins as int);
                    assert(index as int / bins as int == channel);
                }
                bin = bin + 1;
            }
            proof {
                assert((channel + 1) * bins == offset + bins) by (nonlinear_arith)
                    requires
                        offset == channel * bins,
                ;
            }
            offset = offset + bins;
            channel = channel + 1;
        }
        proof {
            if params.downwards_ratio_milli <= RATIO_UNITY && params.upwards_ratio_milli
                <= RATIO_UNITY {
                assert forall|i: int| 0 <= i < before.len() implies spectrum@[i] == before[i]
                    && self.gains@[i] == ONE_Q16 by {
                    lemma_unity_gain_when_disengaged(
                        next_envelope(rested[i], before[i], *params, rate, hop) as nat,
                        target_magnitude(channel_frame(before, bins as nat, i / bins as int)),
                        *params,
                    );
                    lemma_unity_gain_changes_nothing(before[i]);
                }
                assert(spectrum@ =~= before);
                assert(self.gains@ =~= unity_gains(before.len()));
            }
            if all_zero(before) {
                assert forall|i: int| 0 <= i < spectrum@.len() implies (
                #[trigger] spectrum@[i]).is_zero() by {
                    lemma_silence_in_silence_out(
                        rested,
                        before,
                        channels as nat,
                        bins as nat,
                        i,
                        *params,
                        rate,
                        hop,
                    );
                }
                if rested == silent_envelopes(before.len()) {
                    assert forall|i: int| 0 <= i < before.len() implies self.gains@[i] == ONE_Q16
                        && self.envelopes@[i] == 0 by {
                        lemma_silence_in_silence_out(
                            rested,
                            before,
                            channels as nat,
                            bins as nat,
                            i,
                            *params,
                            rate,
                            hop,
                        );
                    }
                    assert(self.gains@ =~= unity_gains(before.len()));
                    assert(self.envelopes@ =~= silent_envelopes(before.len()));
                }
            }
        }
    }
}

/// The channel of a flat index is one of the channels, and the index lies in
/// that channel's frame.
proof fn lemma_channel_of_index(index: int, channels: int, bins: int)
    requires
        0 <= channels,
        0 <= bins,
        0 <= index < channels * bins,
    ensures
        bins > 0,
        0 <= index / bins < channels,
        (index / bins) * bins <= index < (index / bins + 1) * bins,
        (index / bins + 1) * bins <= channels * bins,
{
    assert(bins > 0) by (nonlinear_arith)
        requires
            0 <= bins,
            0 <= index < channels * bins,
    ;
    let channel = index / bins;
    lemma_fundamental_div_mod(index, bins);
    assert(0 <= channel < channels && channel * bins <= index < (channel + 1) * bins && (channel
        + 1) * bins <= channels * bins) by (nonlinear_arith)
        requires
            bins > 0,
            0 <= index < channels * bins,
            index == bins * channel + index % bins,
            0 <= index % bins < bins,
    ;
}

/// Silence in, silence out: a block of zeros leaves every bin at zero, and a
/// bin whose envelope is at rest keeps it at rest and gets a gain of exactly
/// one.
pub proof fn lemma_silence_in_silence_out(
    envelopes: Seq<u64>,
    spectrum: Seq<Complex>,
    channels: nat,
    bins: nat,
    index: int,
    params: CompressorBankParams,
    sample_rate: nat,
    hop_size: nat,
)
    requires
        spectrum.len() == channels * bins,
        envelopes.len() == spectrum.len(),
        all_zero(spectrum),
        0 <= index < spectrum.len(),
    ensures
        processed_bin(envelopes, spectrum, bins, index, params, sample_rate, hop_size).is_zero(),
        envelopes[index] == 0 ==> next_envelope(
            envelopes[index],
            spectrum[index],
            params,
            sample_rate,
            hop_size,
        ) == 0,
        envelopes[index] == 0 ==> gain_at(
            envelopes,
            spectrum,
            bins,
            index,
            params,
            sample_rate,
            hop_size,
        ) == ONE_Q16,
{
    let bin = spectrum[index];
    let gain = gain_at(envelopes, spectrum, bins, index, params, sample_rate, hop_size);
    assert(bin.is_zero());
    assert(scaled_component(0, gain) == 0) by {
        assert(0 * gain == 0) by (nonlinear_arith);
    }
    if envelopes[index] == 0 {
        lemma_channel_of_index(index, channels as int, bins as int);
        let channel = index / bins as int;
        let frame = channel_frame(spectrum, bins, channel);
        assert forall|i: int| 0 <= i < frame.len() implies (#[trigger] frame[i]).is_zero() by {
            assert(frame[i] == spectrum[channel * bins + i]);
        }
        lemma_zero_frame_has_no_power(frame);
        lemma_floor_sqrt_zero();
        assert(bin.power() == 0) by (nonlinear_arith)
            requires
                bin.re == 0,
                bin.im == 0,
                bin.power() == (bin.re * bin.re + bin.im * bin.im) as nat,
        ;
        let release = smoothing_coefficient_q16(
            params.compressor_release_us as nat,
            sample_rate,
            hop_size,
        );
        assert(release * 0 == 0) by (nonlinear_arith);
    }
}

/// With everything else held, a higher downward ratio never makes a bin
/// louder: neither component of the scaled bin grows.
pub proof fn lemma_more_compression_never_louder(
    bin: Complex,
    magnitude: nat,
    target: nat,
    params: CompressorBankParams,
    higher: CompressorBankParams,
)
    requires
        params.downwards_ratio_milli <= higher.downwards_ratio_milli,
        higher == (CompressorBankParams {
            downwards_ratio_milli: higher.downwards_ratio_milli,
            ..params
        }),
    ensures
        abs_int(scaled_component(bin.re as int, bin_gain_q16(magnitude, target, higher)))
            <= abs_int(scaled_component(bin.re as int, bin_gain_q16(magnitude, target, params))),
        abs_int(scaled_component(bin.im as int, bin_gain_q16(magnitude, target, higher)))
            <= abs_int(scaled_component(bin.im as int, bin_gain_q16(magnitude, target, params))),
{
    let lower_gain = bin_gain_q16(magnitude, target, higher);
    let upper_gain = bin_gain_q16(magnitude, target, params);
    lemma_higher_downward_ratio_never_louder(magnitude, target, params, higher);
    lemma_gain_is_bounded(magnitude, target, higher);
    lemma_scaling_monotonic(bin.re as int, lower_gain, upper_gain);
    lemma_scaling_monotonic(bin.im as int, lower_gain, upper_gain);
}

/// Where one factor is more than the limit divided by the other, the product
/// is beyond the limit.
proof fn lemma_product_overflows(count: int, size: int, limit: int)
    requires
        count > 0,
        limit >= 0,
        size > limit / count,
    ensures
        count * size > limit,
{
    lemma_fundamental_div_mod(limit, count);
    assert(count * size > limit) by (nonlinear_arith)
        requires
            count > 0,
            size >= limit / count + 1,
            limit == count * (limit / count) + limit % count,
            0 <= limit % count < count,
    ;
}

/// Where one factor is at most the limit divided by the other, the product
/// is within the limit.
proof fn lemma_product_fits(count: int, size: int, limit: int)
    requires
        count > 0,
        limit >= 0,
        0 <= size <= limit / count,
    ensures
        0 <= count * size <= limit,
{
    lemma_fundamental_div_mod(limit, count);
    assert(0 <= count * size <= limit) by (nonlinear_arith)
        requires
            count > 0,
            0 <= size <= limit / count,
            limit == count * (limit / count) + limit % count,
            0 <= limit % count < count,
    ;
}

/// The index of a bin of a channel is within the flat length.
proof fn lemma_index_in_bounds(channel: int, bin: int, channels: int, bins: int)
    requires
        0 <= channel < channels,
        0 <= bin < bins,
    ensures
        0 <= channel * bins + bin < channels * bins,
        0 <= channel * bins,
{
    assert(0 <= channel * bins && channel * bins + bins <= channels * bins) by (nonlinear_arith)
        requires
            0 <= channel,
            channel + 1 <= channels,
            0 <= bins,
    ;
}

/// The frame of a channel lies within the flat length.
proof fn lemma_frame_in_bounds(channel: int, channels: int, bins: int)
    requires
        0 <= channel < channels,
        0 <= bins,
    ensures
        0 <= channel * bins,
        (channel + 1) * bins == channel * bins + bins,
        (channel + 1) * bins <= channels * bins,
{
    assert(0 <= channel * bins && (channel + 1) * bins == channel * bins + bins && (channel + 1)
        * bins <= channels * bins) by (nonlinear_arith)
        requires
            0 <= channel,
            channel + 1 <= channels,
            0 <= bins,
    ;
}

} // verus!
