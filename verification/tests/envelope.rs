use spectral_compressor::envelope::{follow_envelope, smoothing_coefficient};

#[test]
fn zero_time_gives_a_zero_coefficient() {
    assert_eq!(smoothing_coefficient(0, 48_000, 512), 0);
    assert_eq!(smoothing_coefficient(0, 1, 0), 0);
    assert_eq!(smoothing_coefficient(0, u32::MAX, u32::MAX), 0);
}

#[test]
fn coefficient_of_chosen_times() {
    assert_eq!(smoothing_coefficient(150_000, 48_000, 512), 61_038);
    assert_eq!(smoothing_coefficient(300_000, 48_000, 512), 63_248);
    assert_eq!(smoothing_coefficient(10_000_000, 44_100, 256), 65_499);
    assert_eq!(smoothing_coefficient(1, 48_000, 512), 0);
    assert_eq!(smoothing_coefficient(100, 48_000, 512), 0);
    assert_eq!(smoothing_coefficient(1_000, 48_000, u32::MAX), 0);
}

#[test]
fn coefficient_stays_below_one() {
    assert_eq!(smoothing_coefficient(10_000_000, 48_000, 1), 65_535);
    assert_eq!(smoothing_coefficient(u32::MAX, u32::MAX, 0), 65_535);
    assert_eq!(smoothing_coefficient(u32::MAX, u32::MAX, 1), 65_535);
}

#[test]
fn coefficient_is_close_to_the_exponential() {
    for time_us in [5_000u32, 20_000, 150_000, 300_000, 1_000_000, 10_000_000] {
        for (sample_rate, hop_size) in [(44_100u32, 256u32), (48_000, 512), (96_000, 1_024)] {
            let blocks = time_us as f64 * 1e-6 * sample_rate as f64 / hop_size as f64;
            let exact = 65_536.0 * (-1.0 / blocks).exp();
            let coefficient = smoothing_coefficient(time_us, sample_rate, hop_size) as f64;
            assert!((coefficient - exact).abs() <= 2.0, "{time_us}: {coefficient} for {exact}");
        }
    }
}

#[test]
fn zero_attack_jumps_to_a_rising_magnitude() {
    let attack = smoothing_coefficient(0, 48_000, 512);
    let release = smoothing_coefficient(300_000, 48_000, 512);
    assert_eq!(follow_envelope(0, 123_456, attack, release), 123_456);
    assert_eq!(follow_envelope(123_455, 123_456, attack, release), 123_456);
    assert_eq!(follow_envelope(123_456, 123_456, attack, release), 123_456);
    assert_eq!(follow_envelope(0, u64::MAX, attack, release), u64::MAX);
}

#[test]
fn zero_release_jumps_to_a_falling_magnitude() {
    assert_eq!(follow_envelope(123_456, 7, 61_149, 0), 7);
    assert_eq!(follow_envelope(u64::MAX, 0, 61_149, 0), 0);
}

#[test]
fn envelope_moves_by_the_share_that_is_not_kept() {
    assert_eq!(follow_envelope(1_000, 2_000, 32_768, 0), 1_500);
    assert_eq!(follow_envelope(2_000, 1_000, 0, 49_152), 1_750);
    assert_eq!(follow_envelope(0, 4_294_967_295, 65_535, 65_535), 65_536);
    assert_eq!(follow_envelope(0, 65_536, 61_038, 63_248), 4_498);
    assert_eq!(follow_envelope(4_498, 0, 61_038, 63_248), 4_340);
}

#[test]
fn envelope_always_moves_towards_the_magnitude() {
    assert_eq!(follow_envelope(5, 4, 65_535, 65_535), 4);
    assert_eq!(follow_envelope(4, 5, 65_535, 65_535), 5);
    assert_eq!(follow_envelope(1, 0, 65_535, 65_535), 0);
}

#[test]
fn a_coefficient_of_one_holds_the_envelope() {
    assert_eq!(follow_envelope(1_000, 2_000, 65_536, 65_536), 1_000);
    assert_eq!(follow_envelope(2_000, 1_000, 65_536, 65_536), 2_000);
}

#[test]
fn envelope_stays_between_old_and_new() {
    for previous in [0u64, 1, 500, 65_536, u64::MAX] {
        for raw in [0u64, 2, 499, 70_000, u64::MAX] {
            for coefficient in [0u64, 1, 30_000, 65_535, 65_536] {
                let envelope = follow_envelope(previous, raw, coefficient, coefficient);
                assert!(envelope >= previous.min(raw));
                assert!(envelope <= previous.max(raw));
            }
        }
    }
}

#[test]
fn envelope_settles_on_a_steady_magnitude() {
    let attack = smoothing_coefficient(150_000, 48_000, 512);
    let release = smoothing_coefficient(300_000, 48_000, 512);
    let mut envelope: u64 = 0;
    for _ in 0..400 {
        envelope = follow_envelope(envelope, 1_000_000, attack, release);
    }
    assert_eq!(envelope, 1_000_000);
    for _ in 0..800 {
        envelope = follow_envelope(envelope, 0, attack, release);
    }
    assert_eq!(envelope, 0);
}

#[test]
fn longer_time_never_gives_a_smaller_coefficient() {
    let mut previous = 0;
    let mut time_us: u32 = 0;
    while time_us < 20_000_000 {
        let coefficient = smoothing_coefficient(time_us, 48_000, 512);
        assert!(coefficient >= previous);
        previous = coefficient;
        time_us += 1 + time_us / 50;
    }
}

#[test]
fn an_envelope_off_the_magnitude_moves() {
    for (previous, raw) in [(0u64, 1u64), (1, 0), (1_000, 1_001), (1_001, 1_000), (0, u64::MAX)] {
        assert_ne!(follow_envelope(previous, raw, 65_535, 65_535), previous);
    }
}
