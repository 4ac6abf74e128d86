use rustic_sdr::recording::{
    recording_file_name, recording_file_name_now, utc_now, BaseBandFormat, BaseBandSink,
    BaseBandSpec, RecordDuration, UtcTime,
};

fn spec(rate: u32) -> BaseBandSpec {
    BaseBandSpec { format: BaseBandFormat::Int16, sample_rate: rate }
}

#[test]
fn idle_duration_is_zero() {
    let s = BaseBandSink::new();
    assert!(!s.is_recording());
    assert_eq!(s.query_duration().samples, 0);
    assert_eq!(s.query_duration().whole_seconds(), 0);
    assert_eq!(s.spec(), BaseBandSpec { format: BaseBandFormat::Int16, sample_rate: 0 });
}

fn seconds(d: RecordDuration) -> f64 {
    d.samples as f64 / d.sample_rate as f64
}

#[test]
fn duration_counts_samples_over_rate() {
    let mut s = BaseBandSink::new();
    s.start(spec(2_048_000));
    s.record(2_048_000);
    assert_eq!(s.query_duration().whole_seconds(), 1);
    s.record(2_048_000);
    assert_eq!(s.query_duration(), RecordDuration { samples: 4_096_000, sample_rate: 2_048_000 });
    assert_eq!(seconds(s.query_duration()), 2.0);
    assert_eq!(s.elapsed_samples(), 4_096_000);
}

#[test]
fn duration_is_exact_fraction() {
    let mut s = BaseBandSink::new();
    s.start(spec(2));
    s.record(3);
    assert_eq!(seconds(s.query_duration()), 1.5);
    assert_eq!(s.query_duration().whole_seconds(), 1);
}

#[test]
fn elapsed_grows_with_every_sample() {
    let mut s = BaseBandSink::new();
    s.start(spec(10));
    let mut last = seconds(s.query_duration());
    for _ in 0..25 {
        s.record(1);
        let now = seconds(s.query_duration());
        assert!(now > last);
        assert!((now - last - 0.1).abs() < 1e-9);
        last = now;
    }
    assert_eq!(s.query_duration().whole_seconds(), 2);
}

#[test]
fn stop_then_fresh_start_reads_zero() {
    let mut s = BaseBandSink::new();
    s.start(spec(1000));
    s.record(5000);
    assert_eq!(seconds(s.query_duration()), 5.0);
    s.stop();
    assert_eq!(s.query_duration().samples, 0);
    s.start(spec(1000));
    assert_eq!(seconds(s.query_duration()), 0.0);
    assert_eq!(s.elapsed_samples(), 0);
}

#[test]
fn samples_while_idle_are_not_counted() {
    let mut s = BaseBandSink::new();
    s.record(123);
    assert_eq!(s.elapsed_samples(), 0);
}

#[test]
fn zero_rate_reads_zero_duration() {
    let mut s = BaseBandSink::new();
    s.start(spec(0));
    s.record(10);
    assert_eq!(s.query_duration(), RecordDuration { samples: 10, sample_rate: 0 });
    assert_eq!(s.query_duration().whole_seconds(), 0);
}

#[test]
fn elapsed_count_saturates() {
    let mut s = BaseBandSink::new();
    s.start(spec(1));
    s.record(u64::MAX);
    s.record(5);
    assert_eq!(s.elapsed_samples(), u64::MAX);
}

#[test]
fn container_layout_per_format() {
    let c = BaseBandSpec { format: BaseBandFormat::Int16, sample_rate: 250_000 }.container();
    assert_eq!((c.channels, c.sample_rate, c.bits_per_sample, c.is_float), (2, 250_000, 16, false));
    let c = BaseBandSpec { format: BaseBandFormat::Float32, sample_rate: 1 }.container();
    assert_eq!((c.bits_per_sample, c.is_float), (32, true));
    let c = BaseBandSpec { format: BaseBandFormat::Int8, sample_rate: 1 }.container();
    assert_eq!((c.bits_per_sample, c.is_float), (8, false));
}

#[test]
fn full_scale_per_format() {
    assert_eq!(BaseBandFormat::Int16.full_scale(), Some(32767));
    assert_eq!(BaseBandFormat::Int8.full_scale(), Some(127));
    assert_eq!(BaseBandFormat::Float32.full_scale(), None);
}

#[test]
fn int16_encoding_round_trips_within_one_step() {
    let scale = BaseBandFormat::Int16.full_scale().unwrap() as f32;
    for x in [1.0f32, -1.0, 0.5, -0.25, 0.123_456, 0.999_99, 0.0] {
        let code = (x * scale) as i16;
        let back = code as f32 / scale;
        assert!((back - x).abs() <= 1.0 / scale, "{x} -> {code} -> {back}");
    }
}

#[test]
fn default_spec_is_int16() {
    let s = BaseBandSpec::default();
    assert_eq!(s.format, BaseBandFormat::Int16);
    assert_eq!(s.sample_rate, 0);
}

#[test]
fn file_name_layout() {
    let t = UtcTime { year: 2024, month: 3, day: 9, hour: 14, minute: 5, second: 0 };
    assert_eq!(recording_file_name(100_000_000, &t), "baseband_100000000Hz_14-5-0_3-9-2024.wav");
}

#[test]
fn file_name_negative_year() {
    let t = UtcTime { year: -44, month: 3, day: 15, hour: 0, minute: 0, second: 59 };
    assert_eq!(recording_file_name(7, &t), "baseband_7Hz_0-0-59_3-15--44.wav");
}

#[test]
fn file_name_now_uses_current_time() {
    let (name, t) = recording_file_name_now(2_400_000).unwrap();
    assert!((1..=12).contains(&t.month));
    assert!((1..=31).contains(&t.day));
    assert!(t.hour < 24 && t.minute < 60 && t.second < 60);
    assert!(t.year >= 2024);
    assert_eq!(name, recording_file_name(2_400_000, &t));
    assert!(name.starts_with("baseband_2400000Hz_"));
}

#[test]
fn clock_reads_current_time() {
    let t = utc_now().unwrap();
    assert!(t.year >= 2024);
    assert!((1..=12).contains(&t.month));
}
