use spectral_compressor::logarithm::ONE_Q16;
use spectral_compressor::spectrum::{estimate_target, Complex, MAX_COMPONENT};

fn bin(re: i64, im: i64) -> Complex {
    Complex { re, im }
}

#[test]
fn power_is_the_sum_of_squares() {
    assert_eq!(bin(0, 0).squared_magnitude(), 0);
    assert_eq!(bin(3, -4).squared_magnitude(), 25);
    assert_eq!(bin(-65_536, 65_536).squared_magnitude(), 8_589_934_592);
    assert_eq!(bin(MAX_COMPONENT, -MAX_COMPONENT).squared_magnitude(), 1 << 63);
}

#[test]
fn magnitude_is_the_root_of_the_power_rounded_down() {
    assert_eq!(bin(0, 0).linear_magnitude(), 0);
    assert_eq!(bin(3, 4).linear_magnitude(), 5);
    assert_eq!(bin(-3, -4).linear_magnitude(), 5);
    assert_eq!(bin(1, 1).linear_magnitude(), 1);
    assert_eq!(bin(300_000, -400_000).linear_magnitude(), 500_000);
    assert_eq!(bin(123_456, 654_321).linear_magnitude(), 665_865);
    assert_eq!(bin(-MAX_COMPONENT, MAX_COMPONENT).linear_magnitude(), 3_037_000_499);
}

#[test]
fn scaling_by_one_changes_nothing() {
    let largest = bin(MAX_COMPONENT, -MAX_COMPONENT);
    for sample in [bin(0, 0), bin(1, -1), bin(-123_456, 654_321), largest] {
        assert_eq!(sample.scale(ONE_Q16), sample);
    }
}

#[test]
fn scaling_rounds_towards_zero() {
    assert_eq!(bin(3, -4).scale(32_768), bin(1, -2));
    assert_eq!(bin(-3, 4).scale(32_768), bin(-1, 2));
    assert_eq!(bin(1, -1).scale(65_535), bin(0, 0));
    assert_eq!(bin(65_536, -65_536).scale(1), bin(1, -1));
    assert_eq!(bin(7, -7).scale(0), bin(0, 0));
}

#[test]
fn scaling_at_the_largest_size_and_gain() {
    let gain = (1u64 << 47) - 1;
    let scaled = bin(MAX_COMPONENT, -MAX_COMPONENT).scale(gain);
    assert_eq!(scaled, bin(4_611_686_018_427_355_136, -4_611_686_018_427_355_136));
}

#[test]
fn scaling_keeps_zero_at_zero() {
    for gain in [0u64, 1, 65_536, 1 << 30, (1 << 47) - 1] {
        assert_eq!(bin(0, 0).scale(gain), bin(0, 0));
    }
}

#[test]
fn scaling_keeps_each_sign() {
    for sample in [bin(5, 9), bin(-5, 9), bin(5, -9), bin(-5, -9), bin(0, -9), bin(5, 0)] {
        for gain in [1u64, 20_000, 65_536, 200_000, 1 << 40] {
            let scaled = sample.scale(gain);
            assert!(scaled.re * sample.re >= 0);
            assert!(scaled.im * sample.im >= 0);
        }
    }
}

#[test]
fn scaling_keeps_the_phase_up_to_rounding() {
    let samples = [
        bin(300_000, -400_000),
        bin(-1_000, 1_000),
        bin(123_456, 654_321),
        bin(-2_000_000_000, 17),
        bin(1, -2_000_000_000),
    ];
    for sample in samples {
        for gain in [3u64, 207, 32_842, 65_536, 149_474, 20_683_264] {
            let scaled = sample.scale(gain);
            let forth = scaled.re as i128 * sample.im as i128;
            let back = scaled.im as i128 * sample.re as i128;
            let cross = (forth - back).abs();
            let larger = sample.re.abs().max(sample.im.abs()) as i128;
            assert!(cross <= larger);
            if scaled.re.abs().max(scaled.im.abs()) >= 1_000 {
                let before = (sample.im as f64).atan2(sample.re as f64);
                let after = (scaled.im as f64).atan2(scaled.re as f64);
                assert!((before - after).abs() <= 2e-3);
            }
        }
    }
}

#[test]
fn larger_gain_is_never_quieter() {
    let sample = bin(-123_456, 654_321);
    let mut previous = bin(0, 0);
    for gain in [0u64, 1, 2, 1_000, 65_535, 65_536, 65_537, 1 << 20, 1 << 46] {
        let scaled = sample.scale(gain);
        assert!(scaled.re.abs() >= previous.re.abs());
        assert!(scaled.im.abs() >= previous.im.abs());
        previous = scaled;
    }
}

#[test]
fn target_is_the_root_of_the_mean_power() {
    let spectrum = vec![
        bin(65_536, 0),
        bin(0, 65_536),
        bin(300_000, -400_000),
        bin(-1_000, 1_000),
        bin(0, 0),
        bin(20_000, 20_000),
        bin(-65_536, -65_536),
        bin(1, 0),
        bin(0, -1),
        bin(123_456, 654_321),
    ];
    assert_eq!(estimate_target(&spectrum, 0, 5), 227_416);
    assert_eq!(estimate_target(&spectrum, 5, 5), 300_921);
    assert_eq!(estimate_target(&spectrum, 2, 1), 500_000);
    assert_eq!(estimate_target(&spectrum, 7, 2), 1);
}

#[test]
fn target_of_no_bins_is_zero() {
    let spectrum = vec![bin(65_536, 0), bin(0, 65_536)];
    assert_eq!(estimate_target(&spectrum, 0, 0), 0);
    assert_eq!(estimate_target(&spectrum, 2, 0), 0);
    assert_eq!(estimate_target(&Vec::new(), 0, 0), 0);
}

#[test]
fn target_of_silence_is_zero() {
    let spectrum = vec![bin(0, 0); 64];
    assert_eq!(estimate_target(&spectrum, 0, 64), 0);
    assert_eq!(estimate_target(&spectrum, 10, 20), 0);
}

#[test]
fn target_of_the_loudest_frame() {
    let spectrum = vec![bin(MAX_COMPONENT, -MAX_COMPONENT); 1_000];
    assert_eq!(estimate_target(&spectrum, 0, 1_000), 3_037_000_499);
}

#[test]
fn target_of_equal_bins_is_their_magnitude() {
    let spectrum = vec![bin(3, 4), bin(-4, 3), bin(5, 0), bin(0, -5)];
    assert_eq!(estimate_target(&spectrum, 0, 4), 5);
}
