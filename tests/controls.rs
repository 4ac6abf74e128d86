use rustic_sdr::controls::{get_name, get_sdr_names, recording_label, step_setting, DeviceArgs};

fn args(driver: &str) -> DeviceArgs {
    DeviceArgs { driver: driver.to_string(), index: None, soapy_driver: None, label: None }
}

#[test]
fn rtlsdr_name_has_index() {
    let mut a = args("rtlsdr");
    assert_eq!(get_name(&a), None);
    a.index = Some("0".to_string());
    assert_eq!(get_name(&a).unwrap(), "rtlsdr 0");
}

#[test]
fn soapy_name_has_driver_and_label() {
    let mut a = args("soapy");
    a.soapy_driver = Some("hackrf".to_string());
    assert_eq!(get_name(&a), None);
    a.label = Some("HackRF One".to_string());
    assert_eq!(get_name(&a).unwrap(), "soapy hackrf HackRF One");
}

#[test]
fn other_driver_name_is_driver() {
    assert_eq!(get_name(&args("dummy")).unwrap(), "dummy");
}

#[test]
fn device_list_entries_are_numbered() {
    let names = vec!["rtlsdr 0".to_string(), "dummy".to_string()];
    assert_eq!(get_sdr_names(&names), vec!["0 | rtlsdr 0".to_string(), "1 | dummy".to_string()]);
    assert!(get_sdr_names(&vec![]).is_empty());
}

#[test]
fn recording_label_pads_fields() {
    assert_eq!(recording_label(0), "Recording: 00:00:00");
    assert_eq!(recording_label(3_725), "Recording: 01:02:05");
    assert_eq!(recording_label(360_000), "Recording: 100:00:00");
}

#[test]
fn setting_steps_stop_at_bounds() {
    assert_eq!(step_setting(10, true), 11);
    assert_eq!(step_setting(10, false), 9);
    assert_eq!(step_setting(1, false), 1);
    assert_eq!(step_setting(usize::MAX, true), usize::MAX);
}
