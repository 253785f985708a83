use spectral_compressor::decibel::{
    gain_from_mdb, level_of_magnitude, GAIN_LIMIT_Q16, MAX_GAIN_MDB, MIN_GAIN_MDB,
    SILENCE_FLOOR_MDB,
};

#[test]
fn silence_is_at_the_floor() {
    assert_eq!(level_of_magnitude(0), -100_000);
    assert_eq!(SILENCE_FLOOR_MDB, -100_000);
}

#[test]
fn every_sound_is_above_the_floor() {
    assert_eq!(level_of_magnitude(1), -96_329);
    assert!(level_of_magnitude(1) > SILENCE_FLOOR_MDB);
}

#[test]
fn level_of_chosen_magnitudes() {
    assert_eq!(level_of_magnitude(2), -90_309);
    assert_eq!(level_of_magnitude(3), -86_787);
    assert_eq!(level_of_magnitude(5), -82_350);
    assert_eq!(level_of_magnitude(1_000), -36_330);
    assert_eq!(level_of_magnitude(6_554), -19_999);
    assert_eq!(level_of_magnitude(16_462), -12_000);
    assert_eq!(level_of_magnitude(65_536), 0);
    assert_eq!(level_of_magnitude(98_304), 3_522);
    assert_eq!(level_of_magnitude(131_072), 6_021);
    assert_eq!(level_of_magnitude(6_553_600), 40_000);
    assert_eq!(level_of_magnitude(4_294_967_295), 96_330);
    assert_eq!(level_of_magnitude(u64::MAX), 288_989);
}

#[test]
fn level_is_close_to_the_true_logarithm() {
    let mut magnitude: u64 = 1;
    while magnitude < 4_000_000_000 {
        let exact = 20_000.0 * (magnitude as f64 / 65_536.0).log10();
        let level = level_of_magnitude(magnitude) as f64;
        assert!((level - exact).abs() <= 1.0, "magnitude {magnitude}: {level} for {exact}");
        magnitude = magnitude + magnitude / 97 + 1;
    }
}

#[test]
fn level_never_falls_as_the_magnitude_rises() {
    let mut previous = level_of_magnitude(0);
    for magnitude in 1u64..300_000 {
        let level = level_of_magnitude(magnitude);
        assert!(level >= previous);
        previous = level;
    }
}

#[test]
fn gain_of_no_change_is_one() {
    assert_eq!(gain_from_mdb(0), 65_536);
}

#[test]
fn gain_of_chosen_changes() {
    assert_eq!(gain_from_mdb(1), 65_543);
    assert_eq!(gain_from_mdb(-1), 65_529);
    assert_eq!(gain_from_mdb(-5_000), 36_854);
    assert_eq!(gain_from_mdb(-6_000), 32_846);
    assert_eq!(gain_from_mdb(6_000), 130_761);
    assert_eq!(gain_from_mdb(-6_021), 32_767);
    assert_eq!(gain_from_mdb(6_021), 131_078);
    assert_eq!(gain_from_mdb(-20_000), 6_554);
    assert_eq!(gain_from_mdb(20_000), 655_354);
    assert_eq!(gain_from_mdb(60_000), 65_535_558);
    assert_eq!(gain_from_mdb(-96_000), 2);
    assert_eq!(gain_from_mdb(-96_329), 2);
    assert_eq!(gain_from_mdb(-96_330), 0);
    assert_eq!(gain_from_mdb(-100_000), 0);
}

#[test]
fn gain_at_the_limits() {
    assert_eq!(gain_from_mdb(MAX_GAIN_MDB), 65_535_364_637_450);
    assert_eq!(gain_from_mdb(MIN_GAIN_MDB), 0);
    assert!(gain_from_mdb(MAX_GAIN_MDB) < GAIN_LIMIT_Q16);
}

#[test]
fn gain_is_close_to_the_true_power() {
    let mut mdb: i64 = -40_000;
    while mdb <= 180_000 {
        let exact = 65_536.0 * 10f64.powf(mdb as f64 / 20_000.0);
        let gain = gain_from_mdb(mdb) as f64;
        assert!((gain - exact).abs() <= 1.0 + 0.000_02 * exact, "{mdb} mdB: {gain} for {exact}");
        mdb += 37;
    }
}

#[test]
fn gain_never_falls_as_the_change_rises() {
    let mut previous = gain_from_mdb(MIN_GAIN_MDB);
    let mut mdb = MIN_GAIN_MDB;
    while mdb < MAX_GAIN_MDB {
        mdb += 1;
        let gain = gain_from_mdb(mdb);
        assert!(gain >= previous);
        previous = gain;
    }
}
