use spectral_compressor::bank::{CompressorBank, InitError};
use spectral_compressor::envelope::{follow_envelope, smoothing_coefficient};
use spectral_compressor::gain::evaluate_gain;
use spectral_compressor::params::CompressorBankParams;
use spectral_compressor::spectrum::{estimate_target, Complex};

fn bin(re: i64, im: i64) -> Complex {
    Complex { re, im }
}

fn frame() -> Vec<Complex> {
    vec![
        bin(65_536, 0),
        bin(0, 65_536),
        bin(300_000, -400_000),
        bin(-1_000, 1_000),
        bin(0, 0),
        bin(20_000, 20_000),
        bin(-65_536, -65_536),
        bin(1, 0),
        bin(0, -1),
        bin(123_456, 654_321),
    ]
}

fn engaged() -> CompressorBankParams {
    CompressorBankParams::new(0, -20_000, 4_000, 2_000, 150_000, 300_000).unwrap()
}

fn two_channels_of_five() -> CompressorBank {
    let mut bank = CompressorBank::new();
    assert_eq!(bank.initialize(48_000, 8, 2), Ok(()));
    bank
}

fn envelopes(bank: &CompressorBank) -> Vec<u64> {
    let mut all = Vec::new();
    for channel in 0..bank.channel_count() {
        for index in 0..bank.bin_count() {
            all.push(bank.envelope(channel, index).unwrap());
        }
    }
    all
}

#[test]
fn a_new_bank_is_empty() {
    let bank = CompressorBank::new();
    assert_eq!(bank.sample_rate(), 0);
    assert_eq!(bank.channel_count(), 0);
    assert_eq!(bank.bin_count(), 0);
    assert_eq!(bank.envelope(0, 0), None);
}

#[test]
fn an_empty_bank_processes_an_empty_spectrum() {
    let mut bank = CompressorBank::new();
    let mut spectrum: Vec<Complex> = Vec::new();
    bank.process(&mut spectrum, &engaged(), 48_000, 512);
    assert!(spectrum.is_empty());
    assert_eq!(bank.channel_count(), 0);
}

#[test]
fn initialize_sizes_the_bank() {
    let mut bank = CompressorBank::new();
    assert_eq!(bank.initialize(44_100, 2_048, 2), Ok(()));
    assert_eq!(bank.sample_rate(), 44_100);
    assert_eq!(bank.channel_count(), 2);
    assert_eq!(bank.bin_count(), 1_025);
    assert_eq!(bank.envelope(0, 0), Some(0));
    assert_eq!(bank.envelope(1, 1_024), Some(0));
    assert_eq!(bank.envelope(2, 0), None);
    assert_eq!(bank.envelope(0, 1_025), None);
    assert_eq!(envelopes(&bank), vec![0u64; 2_050]);
}

#[test]
fn initialize_counts_bins_of_odd_and_small_sizes() {
    let mut bank = CompressorBank::new();
    assert_eq!(bank.initialize(48_000, 1, 1), Ok(()));
    assert_eq!(bank.bin_count(), 1);
    assert_eq!(bank.initialize(48_000, 2, 1), Ok(()));
    assert_eq!(bank.bin_count(), 2);
    assert_eq!(bank.initialize(48_000, 7, 3), Ok(()));
    assert_eq!(bank.bin_count(), 4);
    assert_eq!(bank.channel_count(), 3);
}

#[test]
fn initialize_rejects_a_zero_sample_rate() {
    let mut bank = CompressorBank::new();
    assert_eq!(bank.initialize(0, 1_024, 2), Err(InitError::ZeroSampleRate));
    assert_eq!(bank.initialize(0, 0, 0), Err(InitError::ZeroSampleRate));
}

#[test]
fn initialize_rejects_a_zero_size() {
    let mut bank = CompressorBank::new();
    assert_eq!(bank.initialize(48_000, 0, 2), Err(InitError::ZeroFftSize));
    assert_eq!(bank.initialize(48_000, 0, 0), Err(InitError::ZeroFftSize));
}

#[test]
fn initialize_rejects_zero_channels() {
    let mut bank = CompressorBank::new();
    assert_eq!(bank.initialize(48_000, 1_024, 0), Err(InitError::ZeroChannels));
}

#[test]
fn initialize_rejects_more_bins_than_can_be_counted() {
    let mut bank = CompressorBank::new();
    assert_eq!(bank.initialize(48_000, usize::MAX, 4), Err(InitError::TooLarge));
    assert_eq!(bank.initialize(48_000, 2, usize::MAX), Err(InitError::TooLarge));
}

#[test]
fn a_rejected_initialize_leaves_the_bank_as_it_was() {
    let mut bank = two_channels_of_five();
    let mut spectrum = frame();
    bank.process(&mut spectrum, &engaged(), 48_000, 512);
    let before = envelopes(&bank);
    assert_eq!(bank.initialize(0, 16, 1), Err(InitError::ZeroSampleRate));
    assert_eq!(bank.initialize(96_000, 0, 1), Err(InitError::ZeroFftSize));
    assert_eq!(bank.initialize(96_000, 16, 0), Err(InitError::ZeroChannels));
    assert_eq!(bank.initialize(96_000, usize::MAX, 2), Err(InitError::TooLarge));
    assert_eq!(bank.sample_rate(), 48_000);
    assert_eq!(bank.channel_count(), 2);
    assert_eq!(bank.bin_count(), 5);
    assert_eq!(envelopes(&bank), before);
}

#[test]
fn initialize_again_resets_the_envelopes() {
    let mut bank = two_channels_of_five();
    let mut spectrum = frame();
    bank.process(&mut spectrum, &engaged(), 48_000, 512);
    assert_eq!(bank.initialize(96_000, 4, 1), Ok(()));
    assert_eq!(bank.sample_rate(), 96_000);
    assert_eq!(bank.channel_count(), 1);
    assert_eq!(bank.bin_count(), 3);
    assert_eq!(envelopes(&bank), vec![0, 0, 0]);
}

fn gains(bank: &CompressorBank) -> Vec<u64> {
    let mut all = Vec::new();
    for channel in 0..bank.channel_count() {
        for index in 0..bank.bin_count() {
            all.push(bank.gain(channel, index).unwrap());
        }
    }
    all
}

#[test]
fn gains_start_at_one() {
    let bank = two_channels_of_five();
    assert_eq!(gains(&bank), vec![65_536u64; 10]);
    assert_eq!(bank.gain(2, 0), None);
    assert_eq!(bank.gain(0, 5), None);
    assert_eq!(CompressorBank::new().gain(0, 0), None);
}

#[test]
fn process_keeps_the_gain_of_every_bin() {
    let mut bank = two_channels_of_five();
    let mut spectrum = frame();
    bank.process(&mut spectrum, &engaged(), 48_000, 512);
    assert_eq!(
        gains(&bank),
        vec![
            147_360, 147_360, 65_536, 998_338, 12_208_881, 258_005, 142_537, 11_369_094,
            11_369_094, 65_536
        ]
    );
    for (index, sample) in frame().iter().enumerate() {
        assert_eq!(spectrum[index], sample.scale(bank.gain(index / 5, index % 5).unwrap()));
    }
    bank.reset();
    assert_eq!(gains(&bank), vec![65_536u64; 10]);
}

#[test]
fn reset_puts_every_envelope_at_rest() {
    let mut bank = two_channels_of_five();
    let mut spectrum = frame();
    bank.process(&mut spectrum, &engaged(), 48_000, 512);
    assert!(envelopes(&bank).iter().any(|envelope| *envelope != 0));
    bank.reset();
    assert_eq!(envelopes(&bank), vec![0u64; 10]);
    assert_eq!(bank.sample_rate(), 48_000);
    assert_eq!(bank.channel_count(), 2);
    assert_eq!(bank.bin_count(), 5);
}

#[test]
fn process_follows_evaluates_and_scales() {
    let mut bank = two_channels_of_five();
    let mut spectrum = frame();
    bank.process(&mut spectrum, &engaged(), 48_000, 512);
    assert_eq!(envelopes(&bank), vec![4_498, 4_498, 34_318, 98, 0, 1_942, 6_362, 1, 1, 45_702]);
    assert_eq!(
        spectrum,
        vec![
            bin(147_360, 0),
            bin(0, 147_360),
            bin(300_000, -400_000),
            bin(-15_233, 15_233),
            bin(0, 0),
            bin(78_736, 78_736),
            bin(-142_537, -142_537),
            bin(173, 0),
            bin(0, -173),
            bin(123_456, 654_321),
        ]
    );
}

#[test]
fn process_carries_the_envelopes_from_block_to_block() {
    let mut bank = two_channels_of_five();
    let mut first = frame();
    bank.process(&mut first, &engaged(), 48_000, 512);
    let mut second = frame();
    bank.process(&mut second, &engaged(), 48_000, 512);
    assert_eq!(
        envelopes(&bank),
        vec![8_688, 8_688, 66_280, 189, 0, 3_750, 12_287, 1, 1, 88_267]
    );
    assert_eq!(
        second,
        vec![
            bin(106_030, 0),
            bin(0, 106_030),
            bin(300_000, -400_000),
            bin(-10_969, 10_969),
            bin(0, 0),
            bin(56_660, 56_660),
            bin(-102_572, -102_572),
            bin(173, 0),
            bin(0, -173),
            bin(123_456, 654_321),
        ]
    );
    let mut silence = vec![bin(0, 0); 10];
    bank.process(&mut silence, &engaged(), 48_000, 512);
    assert_eq!(
        envelopes(&bank),
        vec![8_384, 8_384, 63_966, 182, 0, 3_619, 11_858, 0, 0, 85_185]
    );
    assert_eq!(silence, vec![bin(0, 0); 10]);
}

#[test]
fn process_is_the_three_steps_bin_by_bin() {
    let params = CompressorBankParams::new(-3_000, -12_000, 2_500, 1_700, 20_000, 90_000).unwrap();
    let mut bank = two_channels_of_five();
    let mut warm_up = frame();
    bank.process(&mut warm_up, &params, 44_100, 256);
    let previous = envelopes(&bank);
    let input: Vec<Complex> = frame().into_iter().rev().collect();
    let mut spectrum = input.clone();
    bank.process(&mut spectrum, &params, 44_100, 256);
    let attack = smoothing_coefficient(20_000, 44_100, 256);
    let release = smoothing_coefficient(90_000, 44_100, 256);
    for index in 0..10 {
        let target = estimate_target(&input, index / 5 * 5, 5);
        let envelope =
            follow_envelope(previous[index], input[index].linear_magnitude(), attack, release);
        assert_eq!(bank.envelope(index / 5, index % 5), Some(envelope));
        let gain = evaluate_gain(envelope, target, &params);
        assert_eq!(bank.gain(index / 5, index % 5), Some(gain));
        assert_eq!(spectrum[index], input[index].scale(gain));
    }
}

#[test]
fn channels_do_not_touch_each_other() {
    let mut both = two_channels_of_five();
    let mut spectrum = frame();
    both.process(&mut spectrum, &engaged(), 48_000, 512);
    let mut single = CompressorBank::new();
    assert_eq!(single.initialize(48_000, 8, 1), Ok(()));
    let mut second_channel: Vec<Complex> = frame().split_off(5);
    single.process(&mut second_channel, &engaged(), 48_000, 512);
    assert_eq!(second_channel[..], spectrum[5..]);
    for index in 0..5 {
        assert_eq!(single.envelope(0, index), both.envelope(1, index));
    }
}

#[test]
fn silence_in_gives_silence_out_at_unity() {
    let mut bank = two_channels_of_five();
    let mut spectrum = vec![bin(0, 0); 10];
    bank.process(&mut spectrum, &engaged(), 48_000, 512);
    assert_eq!(spectrum, vec![bin(0, 0); 10]);
    assert_eq!(envelopes(&bank), vec![0u64; 10]);
    assert_eq!(gains(&bank), vec![65_536u64; 10]);
    for index in 0..10 {
        let envelope = bank.envelope(index / 5, index % 5).unwrap();
        let target = estimate_target(&spectrum, index / 5 * 5, 5);
        assert_eq!(evaluate_gain(envelope, target, &engaged()), 65_536);
    }
}

#[test]
fn disengaged_ratios_leave_the_spectrum_untouched() {
    let mut bank = two_channels_of_five();
    let params =
        CompressorBankParams::new(-20_000, 20_000, 1_000, 1_000, 150_000, 300_000).unwrap();
    for _ in 0..5 {
        let mut spectrum = frame();
        bank.process(&mut spectrum, &params, 48_000, 512);
        assert_eq!(spectrum, frame());
        assert_eq!(gains(&bank), vec![65_536u64; 10]);
    }
    assert_eq!(CompressorBankParams::default().downwards_ratio_milli, 1_000);
    let mut spectrum = frame();
    bank.process(&mut spectrum, &CompressorBankParams::default(), 48_000, 512);
    assert_eq!(spectrum, frame());
}

#[test]
fn zero_attack_brings_the_envelope_to_the_magnitude_in_one_block() {
    let mut bank = two_channels_of_five();
    let params = CompressorBankParams::new(0, 0, 4_000, 1_000, 0, 300_000).unwrap();
    let mut spectrum = frame();
    bank.process(&mut spectrum, &params, 48_000, 512);
    let magnitudes: Vec<u64> = frame().iter().map(|sample| sample.linear_magnitude()).collect();
    assert_eq!(envelopes(&bank), magnitudes);
    assert_eq!(magnitudes, vec![65_536, 65_536, 500_000, 1_414, 0, 28_284, 92_681, 1, 1, 665_865]);
}

#[test]
fn process_keeps_the_phase_of_every_bin() {
    let mut bank = two_channels_of_five();
    for _ in 0..3 {
        let mut spectrum = frame();
        bank.process(&mut spectrum, &engaged(), 48_000, 512);
        for (scaled, sample) in spectrum.iter().zip(frame().iter()) {
            assert!(scaled.re * sample.re >= 0);
            assert!(scaled.im * sample.im >= 0);
            let cross = (scaled.re * sample.im - scaled.im * sample.re).abs();
            assert!(cross <= sample.re.abs().max(sample.im.abs()));
            if sample.linear_magnitude() >= 1_000 {
                let before = (sample.im as f64).atan2(sample.re as f64);
                let after = (scaled.im as f64).atan2(scaled.re as f64);
                assert!((before - after).abs() <= 1e-3);
            }
        }
    }
}

#[test]
fn more_downward_ratio_never_gives_a_louder_bin() {
    let mut previous: Option<Vec<Complex>> = None;
    for ratio in [1_000u32, 1_500, 2_000, 4_000, 20_000, 300_000] {
        let params = CompressorBankParams::new(-6_000, -40_000, ratio, 2_000, 0, 0).unwrap();
        let mut bank = two_channels_of_five();
        let mut spectrum = frame();
        bank.process(&mut spectrum, &params, 48_000, 512);
        if let Some(louder) = previous {
            for (now, then) in spectrum.iter().zip(louder.iter()) {
                assert!(now.re.abs() <= then.re.abs());
                assert!(now.im.abs() <= then.im.abs());
            }
        }
        previous = Some(spectrum);
    }
}

#[test]
fn the_default_bank_is_empty() {
    let bank = CompressorBank::default();
    assert_eq!(bank.sample_rate(), 0);
    assert_eq!(bank.channel_count(), 0);
    assert_eq!(bank.bin_count(), 0);
    assert_eq!(bank.envelope(0, 0), None);
}
