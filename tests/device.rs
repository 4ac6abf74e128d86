use rustic_sdr::device::{DeviceRange, RangeItem};
use rustic_sdr::sdr::{
    check_freq, gain_for, FreqUnits, Pallet, SampleRates, SdrError, SdrLimits,
};

fn range(items: Vec<RangeItem>) -> DeviceRange {
    DeviceRange::new(items).unwrap()
}

fn limits() -> SdrLimits {
    SdrLimits {
        freq_range: range(vec![RangeItem::Interval(24_000_000, 1_766_000_000)]),
        // Thousandths of a dB, as an RTL-SDR tuner reports them.
        gain_range: range(vec![
            RangeItem::Value(0),
            RangeItem::Value(9_000),
            RangeItem::Value(14_000),
            RangeItem::Value(27_000),
            RangeItem::Value(37_000),
            RangeItem::Value(77_000),
            RangeItem::Value(87_000),
            RangeItem::Value(125_000),
            RangeItem::Value(144_000),
            RangeItem::Value(157_000),
            RangeItem::Value(166_000),
            RangeItem::Value(197_000),
            RangeItem::Value(207_000),
            RangeItem::Value(229_000),
            RangeItem::Value(254_000),
            RangeItem::Value(280_000),
            RangeItem::Value(297_000),
            RangeItem::Value(328_000),
            RangeItem::Value(338_000),
            RangeItem::Value(364_000),
            RangeItem::Value(372_000),
            RangeItem::Value(386_000),
            RangeItem::Value(402_000),
            RangeItem::Value(421_000),
            RangeItem::Value(434_000),
            RangeItem::Value(439_000),
            RangeItem::Value(445_000),
            RangeItem::Value(480_000),
            RangeItem::Value(496_000),
        ]),
        sample_rate_range: range(vec![RangeItem::Interval(225_001, 3_200_000)]),
    }
}

#[test]
fn invalid_ranges_are_refused() {
    assert!(DeviceRange::new(vec![]).is_none());
    assert!(DeviceRange::new(vec![RangeItem::Interval(5, 4)]).is_none());
    assert!(DeviceRange::new(vec![RangeItem::Step(0, 10, 0)]).is_none());
    assert!(DeviceRange::new(vec![RangeItem::Value(1), RangeItem::Step(0, 10, -2)]).is_none());
    assert!(DeviceRange::new(vec![RangeItem::Step(0, 10, 2)]).is_some());
}

#[test]
fn contains_each_item_kind() {
    let r = range(vec![
        RangeItem::Interval(10, 20),
        RangeItem::Value(35),
        RangeItem::Step(100, 200, 25),
    ]);
    assert!(r.contains(10) && r.contains(20) && r.contains(15));
    assert!(!r.contains(9) && !r.contains(21));
    assert!(r.contains(35) && !r.contains(34));
    assert!(r.contains(100) && r.contains(125) && r.contains(200));
    assert!(!r.contains(110) && !r.contains(225));
}

#[test]
fn closest_picks_nearest_and_smaller_on_tie() {
    let r = range(vec![
        RangeItem::Interval(10, 20),
        RangeItem::Value(30),
        RangeItem::Step(100, 190, 20),
    ]);
    assert_eq!(r.closest(15), 15);
    assert_eq!(r.closest(-5), 10);
    assert_eq!(r.closest(24), 20);
    assert_eq!(r.closest(25), 20);
    assert_eq!(r.closest(26), 30);
    assert_eq!(r.closest(111), 120);
    assert_eq!(r.closest(110), 100);
    assert_eq!(r.closest(175), 180);
    assert_eq!(r.closest(1_000), 180);
}

#[test]
fn max_value_is_largest_upper_bound() {
    let r = range(vec![
        RangeItem::Interval(10, 20),
        RangeItem::Value(30),
        RangeItem::Step(1, 25, 4),
    ]);
    assert_eq!(r.max_value(), 30);
    assert_eq!(range(vec![RangeItem::Value(-7)]).max_value(), 0);
}

#[test]
fn gain_request_goes_to_nearest_supported_value() {
    let l = limits();
    // Half of 49.6 dB is 24.8 dB; the nearest supported value is 25.4 dB.
    assert_eq!(gain_for(&l, 500), 254_000);
    assert_eq!(gain_for(&l, 0), 0);
    assert_eq!(gain_for(&l, 1000), 496_000);
    assert_eq!(gain_for(&l, 4_000_000_000), 496_000);
}

#[test]
fn gain_compares_exact_share() {
    let r = range(vec![RangeItem::Value(0), RangeItem::Value(2), RangeItem::Value(3)]);
    let l = SdrLimits { freq_range: range(vec![RangeItem::Value(1)]), gain_range: r, sample_rate_range: range(vec![RangeItem::Value(1)]) };
    // Half of 3 is 1.5: 2 is nearer than 0.
    assert_eq!(gain_for(&l, 500), 2);
    // 0.999 is nearer to 0 than to 2.
    assert_eq!(gain_for(&l, 333), 0);
}

#[test]
fn closest_ratio_ties_go_down() {
    let r = range(vec![RangeItem::Step(0, 10, 2)]);
    assert_eq!(r.closest_ratio(3, 1), 2);
    assert_eq!(r.closest_ratio(7, 2), 4);
    assert_eq!(r.closest_ratio(11, 2), 6);
    assert_eq!(r.closest_ratio(1_000_000, 1), 10);
}

#[test]
fn frequency_outside_range_is_refused() {
    let l = limits();
    assert!(check_freq(&l, 2_400_000).is_err());
    assert_eq!(check_freq(&l, 2_400_000), Err(SdrError::FreqNotInRange));
    assert_eq!(check_freq(&l, 100_000_000), Ok(()));
    assert_eq!(check_freq(&l, u64::MAX), Err(SdrError::FreqNotInRange));
}

#[test]
fn sample_rate_table() {
    assert_eq!(SampleRates::S250k.hz(), 250_000);
    assert_eq!(SampleRates::S2048m.hz(), 2_048_000);
    assert_eq!(SampleRates::S32m.hz(), 3_200_000);
    assert_eq!(SampleRates::S192m.hz(), 1_920_000);
    assert_eq!(SampleRates::S2048m.label(), "2.048 msps");
    assert_eq!(SampleRates::ALL.len(), 11);
}

#[test]
fn unit_multipliers_and_labels() {
    assert_eq!(FreqUnits::Hz.multiplier(), 1);
    assert_eq!(FreqUnits::KHz.multiplier(), 1_000);
    assert_eq!(FreqUnits::MHz.multiplier(), 1_000_000);
    assert_eq!(FreqUnits::GHz.multiplier(), 1_000_000_000);
    assert_eq!(FreqUnits::MHz.label(), "MHz");
    assert_eq!(FreqUnits::ALL.len(), 4);
}

#[test]
fn pallet_labels() {
    assert_eq!(Pallet::Turbo.label(), "Turbo");
    assert_eq!(Pallet::Rainbow.label(), "Rainbow");
}

use rustic_sdr::sdr::parse_freq;

#[test]
fn parse_whole_and_decimal_frequencies() {
    assert_eq!(parse_freq("100", FreqUnits::Hz), Some(100));
    assert_eq!(parse_freq("433.92", FreqUnits::MHz), Some(433_920_000));
    assert_eq!(parse_freq(".5", FreqUnits::KHz), Some(500));
    assert_eq!(parse_freq("2.", FreqUnits::GHz), Some(2_000_000_000));
    assert_eq!(parse_freq("1.0000000009", FreqUnits::GHz), Some(1_000_000_000));
    assert_eq!(parse_freq("99.9", FreqUnits::Hz), Some(99));
}

#[test]
fn parse_rejects_malformed_text() {
    assert_eq!(parse_freq("", FreqUnits::Hz), None);
    assert_eq!(parse_freq(".", FreqUnits::Hz), None);
    assert_eq!(parse_freq("1.2.3", FreqUnits::Hz), None);
    assert_eq!(parse_freq("12a", FreqUnits::Hz), None);
    assert_eq!(parse_freq("-5", FreqUnits::Hz), None);
    assert_eq!(parse_freq(" 5", FreqUnits::Hz), None);
}

#[test]
fn parse_rejects_values_beyond_u64() {
    assert_eq!(parse_freq("18446744073709551615", FreqUnits::Hz), Some(u64::MAX));
    assert_eq!(parse_freq("18446744073709551616", FreqUnits::Hz), None);
    assert_eq!(parse_freq("18446744074", FreqUnits::GHz), None);
    assert_eq!(parse_freq("18446744073.709551615", FreqUnits::GHz), Some(18_446_744_073_709_551_615));
}
