use rustic_sdr::acquisition::{Acquisition, Action, Command};
use rustic_sdr::device::{DeviceRange, RangeItem};
use rustic_sdr::recording::{BaseBandFormat, BaseBandSpec};
use rustic_sdr::sdr::{SdrError, SdrLimits};

fn limits() -> SdrLimits {
    SdrLimits {
        freq_range: DeviceRange::new(vec![RangeItem::Interval(1_000_000, 6_000_000_000)]).unwrap(),
        gain_range: DeviceRange::new(vec![RangeItem::Step(0, 62_000, 2_000)]).unwrap(),
        sample_rate_range: DeviceRange::new(vec![RangeItem::Interval(1_000_000, 20_000_000)])
            .unwrap(),
    }
}

fn spec() -> BaseBandSpec {
    BaseBandSpec { format: BaseBandFormat::Int16, sample_rate: 2_048_000 }
}

#[test]
fn record_two_seconds_end_to_end() {
    let mut acq = Acquisition::new(limits(), 2_400_000, 500, 10, 1024);
    // Half of 62 dB is 31 dB, which is off the 2 dB grid: 30 dB and 32 dB
    // are equally near, and the smaller one is taken.
    assert_eq!(acq.gain(), 30_000);
    match acq.apply(Command::SetGain(500)) {
        Action::ApplyGain(g) => assert_eq!(g, 30_000),
        other => panic!("unexpected {other:?}"),
    }

    let opened = match acq.apply(Command::ToggleRecording(spec())) {
        Action::OpenRecording { file_name, spec: s, container, .. } => {
            assert!(file_name.starts_with("baseband_2400000Hz_"));
            assert!(file_name.ends_with(".wav"));
            assert_eq!(container.channels, 2);
            assert_eq!(container.sample_rate, 2_048_000);
            assert_eq!(container.bits_per_sample, 16);
            s
        }
        other => panic!("unexpected {other:?}"),
    };
    assert!(!acq.is_recording());
    acq.recording_opened(opened);
    assert!(acq.is_recording());

    let block: u64 = 16_384;
    for _ in 0..(2 * 2_048_000 / block) {
        assert!(acq.on_block(block));
    }
    let d = acq.query_duration();
    assert_eq!((d.samples, d.sample_rate), (4_096_000, 2_048_000));
    assert_eq!(d.whole_seconds(), 2);

    assert!(matches!(acq.apply(Command::ToggleRecording(spec())), Action::CloseRecording));
    assert_eq!(acq.query_duration().samples, 0);
    assert!(!acq.on_block(block));

    assert!(matches!(
        acq.apply(Command::Stop),
        Action::Shutdown { close_recording: false }
    ));
    assert!(!acq.is_running());
    assert!(matches!(acq.apply(Command::Stop), Action::Ignored));
    assert_eq!(acq.query_duration().samples, 0);
}

#[test]
fn stop_while_recording_closes_the_file() {
    let mut acq = Acquisition::new(limits(), 100_000_000, 0, 1, 8);
    acq.recording_opened(spec());
    acq.on_block(10);
    assert!(matches!(acq.apply(Command::Stop), Action::Shutdown { close_recording: true }));
    assert!(!acq.is_recording());
}

#[test]
fn frequency_out_of_range_changes_nothing() {
    let mut acq = Acquisition::new(limits(), 100_000_000, 0, 1, 8);
    assert!(matches!(
        acq.apply(Command::SetFrequency(500_000)),
        Action::Rejected(SdrError::FreqNotInRange)
    ));
    assert_eq!(acq.frequency(), 100_000_000);
    assert!(matches!(acq.apply(Command::SetFrequency(433_920_000)), Action::Tune(433_920_000)));
    assert_eq!(acq.frequency(), 433_920_000);
}

#[test]
fn commands_after_stop_are_ignored() {
    let mut acq = Acquisition::new(limits(), 100_000_000, 0, 1, 8);
    acq.apply(Command::Stop);
    assert!(matches!(acq.apply(Command::SetFrequency(200_000_000)), Action::Ignored));
    assert!(matches!(acq.apply(Command::SetGain(1000)), Action::Ignored));
    assert!(matches!(acq.apply(Command::ToggleRecording(spec())), Action::Ignored));
    assert_eq!(acq.frequency(), 100_000_000);
}

#[test]
fn leftover_samples_do_not_make_a_frame() {
    let acq = Acquisition::new(limits(), 100_000_000, 0, 1, 1024);
    assert_eq!(acq.frames_in_block(4096), 4);
    assert_eq!(acq.frames_in_block(5000), 4);
    assert_eq!(acq.frames_in_block(1000), 0);
}

#[test]
fn power_frames_are_averaged() {
    let mut acq = Acquisition::new(limits(), 100_000_000, 0, 2, 2);
    assert_eq!(acq.on_power_frame(vec![10, 0]), vec![10, 0]);
    assert_eq!(acq.on_power_frame(vec![20, 4]), vec![15, 2]);
    acq.set_depth(1);
    assert_eq!(acq.on_power_frame(vec![1, 1]), vec![1, 1]);
}
