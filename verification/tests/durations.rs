use std::str::FromStr;

use cgd1_tools::durations::read_duration_seconds;
use cgd1_tools::iso_duration::parse_iso_duration_to_seconds;
use cgd1_tools::monitor_duration::MonitorDuration;
use cgd1_tools::scan_duration::ScanDuration;

#[test]
fn monitor_duration_new_valid() {
    assert_eq!(MonitorDuration::new(0).unwrap().seconds(), 0);
    assert_eq!(MonitorDuration::new(60).unwrap().seconds(), 60);
    assert_eq!(MonitorDuration::new(3600).unwrap().seconds(), 3600);
}

#[test]
fn is_indefinite() {
    assert!(MonitorDuration::indefinite().is_indefinite());
    assert!(MonitorDuration::new(0).unwrap().is_indefinite());
    assert!(!MonitorDuration::new(60).unwrap().is_indefinite());
}

#[test]
fn monitor_duration_from_str_valid() {
    assert_eq!(MonitorDuration::from_str("0").unwrap().seconds(), 0);
    assert_eq!(MonitorDuration::from_str("60").unwrap().seconds(), 60);
}

#[test]
fn monitor_duration_from_str_iso_duration() {
    assert_eq!(MonitorDuration::from_str("PT30S").unwrap().seconds(), 30);
    assert_eq!(MonitorDuration::from_str("PT1M").unwrap().seconds(), 60);
    assert_eq!(MonitorDuration::from_str("PT1H").unwrap().seconds(), 3600);
    assert_eq!(MonitorDuration::from_str("PT1H30M").unwrap().seconds(), 5400);
}

#[test]
fn monitor_duration_from_str_invalid() {
    assert!(MonitorDuration::from_str("-1").is_err());
    assert!(MonitorDuration::from_str("abc").is_err());
}

#[test]
fn monitor_duration_display() {
    assert_eq!(MonitorDuration::new(0).unwrap().to_string(), "indefinite");
    assert_eq!(MonitorDuration::new(60).unwrap().to_string(), "60s");
}

#[test]
fn monitor_duration_into_std_duration() {
    let d: std::time::Duration = MonitorDuration::new(60).unwrap().into();
    assert_eq!(d, std::time::Duration::from_secs(60));
}

#[test]
fn scan_duration_new_valid() {
    assert_eq!(ScanDuration::new(1).unwrap().seconds(), 1);
    assert_eq!(ScanDuration::new(10).unwrap().seconds(), 10);
    assert_eq!(ScanDuration::new(600).unwrap().seconds(), 600);
}

#[test]
fn new_rejects_zero() {
    assert!(ScanDuration::new(0).is_err());
}

#[test]
fn new_rejects_too_large() {
    assert!(ScanDuration::new(601).is_err());
}

#[test]
fn scan_duration_from_str_valid() {
    assert_eq!(ScanDuration::from_str("30").unwrap().seconds(), 30);
}

#[test]
fn scan_duration_from_str_iso_duration() {
    assert_eq!(ScanDuration::from_str("PT30S").unwrap().seconds(), 30);
    assert_eq!(ScanDuration::from_str("PT1M").unwrap().seconds(), 60);
    assert_eq!(ScanDuration::from_str("PT5M").unwrap().seconds(), 300);
    assert_eq!(ScanDuration::from_str("PT10M").unwrap().seconds(), 600);
}

#[test]
fn from_str_iso_duration_out_of_range() {
    assert!(ScanDuration::from_str("PT10M1S").is_err());
    assert!(ScanDuration::from_str("PT1H").is_err());
}

#[test]
fn scan_duration_from_str_invalid() {
    assert!(ScanDuration::from_str("0").is_err());
    assert!(ScanDuration::from_str("601").is_err());
    assert!(ScanDuration::from_str("abc").is_err());
}

#[test]
fn scan_duration_display() {
    assert_eq!(ScanDuration::new(30).unwrap().to_string(), "30s");
}

#[test]
fn scan_duration_into_std_duration() {
    let d: std::time::Duration = ScanDuration::new(30).unwrap().into();
    assert_eq!(d, std::time::Duration::from_secs(30));
}

#[test]
fn scan_duration_limits() {
    assert_eq!(ScanDuration::minimum().seconds(), 1);
    assert_eq!(ScanDuration::maximum().seconds(), 600);
    assert_eq!(u64::from(ScanDuration::new(42).unwrap()), 42);
    assert!(ScanDuration::try_from(601u64).is_err());
    assert_eq!(ScanDuration::try_from(600u64).unwrap().seconds(), 600);
}

#[test]
fn scan_duration_error_carries_input() {
    let err = ScanDuration::new(0).unwrap_err();
    assert_eq!(err.input, "0");
    let err = ScanDuration::from_str("abc").unwrap_err();
    assert_eq!(err.input, "abc");
    let err = ScanDuration::from_str("PT1H").unwrap_err();
    assert_eq!(err.input, "PT1H");
    assert_eq!(err.reason, "must be at most 600 seconds (10 minutes)");
    let err = ScanDuration::from_str("+0").unwrap_err();
    assert_eq!(err.input, "+0");
    assert_eq!(err.reason, "must be at least 1 second");
    let err = ScanDuration::new(601).unwrap_err();
    assert_eq!(err.input, "601");
}

#[test]
fn monitor_duration_conversions() {
    assert_eq!(u64::from(MonitorDuration::new(5).unwrap()), 5);
    assert_eq!(MonitorDuration::try_from(7u64).unwrap().seconds(), 7);
    let d = MonitorDuration::new(90).unwrap();
    assert_eq!(MonitorDuration::try_from(d.seconds()), Ok(d));
    assert_eq!(MonitorDuration::new(0).unwrap(), MonitorDuration::indefinite());
    let d: std::time::Duration = MonitorDuration::indefinite().into();
    assert_eq!(d, std::time::Duration::from_secs(0));
    let err = MonitorDuration::from_str("abc").unwrap_err();
    assert_eq!(err.input, "abc");
}

#[test]
fn iso_duration_values() {
    assert_eq!(parse_iso_duration_to_seconds("PT30S"), Some(30));
    assert_eq!(parse_iso_duration_to_seconds("PT1H30M"), Some(5400));
    assert_eq!(parse_iso_duration_to_seconds("P1D"), Some(86400));
    assert_eq!(parse_iso_duration_to_seconds("P1DT1S"), Some(86401));
    assert_eq!(parse_iso_duration_to_seconds("PT"), None);
    assert_eq!(parse_iso_duration_to_seconds("P"), None);
    assert_eq!(parse_iso_duration_to_seconds("PT1S1M"), None);
    assert_eq!(parse_iso_duration_to_seconds("30"), None);
    assert_eq!(parse_iso_duration_to_seconds("PT1X"), None);
}

#[test]
fn read_duration_prefers_plain_numbers() {
    assert_eq!(read_duration_seconds("45"), Ok(45));
    assert_eq!(read_duration_seconds("PT2M"), Ok(120));
    assert!(read_duration_seconds("").is_err());
    assert!(read_duration_seconds("x1").is_err());
}

#[test]
fn single_time_components() {
    assert_eq!(parse_iso_duration_to_seconds("PT5H"), Some(18000));
    assert_eq!(parse_iso_duration_to_seconds("PT7M"), Some(420));
    assert_eq!(parse_iso_duration_to_seconds("PT0S"), Some(0));
    assert_eq!(parse_iso_duration_to_seconds("PT18446744073709551615S"), Some(u64::MAX));
    assert_eq!(parse_iso_duration_to_seconds("PT18446744073709551615M"), None);
    for n in [0u64, 1, 9, 10, 600, 123456789] {
        assert_eq!(read_duration_seconds(&n.to_string()), Ok(n));
    }
}
