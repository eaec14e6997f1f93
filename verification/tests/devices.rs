use std::collections::HashMap;

use cgd1_tools::address::{address_from_label, address_from_text};
use cgd1_tools::battery::{battery_icon_name, battery_tooltip, BatteryIcon};
use cgd1_tools::devices::{
    apply_scan_result, auto_scan_step, connect_feedback_levels, on_device_event, DeviceEvent, LinkIndicator, count_missed_scans, known_device_rssi, position_of, reconnect_index,
    scan_status_text, startup_connect_index, DeviceActivity, FoundDevice,
};

#[test]
fn missed_scans_are_counted_and_cleared() {
    let mut missed: HashMap<u64, u32> = HashMap::new();
    missed.insert(1, 2);
    missed.insert(2, 1);
    // Known: 1, 2, 3, 4; found: 2; 3 is connected; 4 is persisted.
    count_missed_scans(&mut missed, &[1, 2, 3, 4], &[2], &[3], &[4]);
    assert_eq!(missed.get(&1), Some(&3));
    assert_eq!(missed.get(&2), None);
    assert_eq!(missed.get(&3), None);
    assert_eq!(missed.get(&4), None);
}

#[test]
fn scan_drops_devices_after_three_misses() {
    let mut known = vec![10, 20, 30];
    let mut missed: HashMap<u64, u32> = HashMap::new();
    missed.insert(10, 2);
    // 10 misses its third scan and leaves; 20 is found; 30 misses its first; 40 is new.
    let connect = apply_scan_result(&mut known, &mut missed, &[20, 40], &[], &[], false);
    assert_eq!(known, vec![20, 30, 40]);
    assert_eq!(missed.get(&10), Some(&3));
    assert_eq!(missed.get(&30), Some(&1));
    assert_eq!(connect, Some(0));
}

#[test]
fn scan_keeps_connected_and_persisted_devices() {
    let mut known = vec![1, 2];
    let mut missed: HashMap<u64, u32> = HashMap::new();
    missed.insert(1, 5);
    missed.insert(2, 5);
    let connect = apply_scan_result(&mut known, &mut missed, &[], &[1], &[2], false);
    assert_eq!(known, vec![1, 2]);
    assert_eq!(connect, None);
}

#[test]
fn scan_does_not_duplicate_found_devices() {
    let mut known = vec![7];
    let mut missed: HashMap<u64, u32> = HashMap::new();
    let connect = apply_scan_result(&mut known, &mut missed, &[8, 7, 8], &[], &[], true);
    assert_eq!(known, vec![7, 8]);
    assert_eq!(connect, None, "no connect while the switch is on");
    assert!(missed.is_empty());
}

#[test]
fn auto_scan_interval_depends_on_connection() {
    let idle = [DeviceActivity { address: 1, connected: false, data_age_nanos: Some(500_000_000_000) }];
    let step = auto_scan_step(&idle, Some(59_000_000_000));
    assert_eq!(step.interval_secs, 60);
    assert!(!step.scan);
    assert!(step.stale.is_empty(), "no staleness check without a connection");
    let step = auto_scan_step(&idle, Some(60_000_000_000));
    assert!(step.scan);
    let step = auto_scan_step(&idle, None);
    assert!(step.scan);

    let busy = [
        DeviceActivity { address: 1, connected: true, data_age_nanos: Some(120_000_000_000) },
        DeviceActivity { address: 2, connected: false, data_age_nanos: Some(120_000_000_001) },
        DeviceActivity { address: 3, connected: true, data_age_nanos: None },
        DeviceActivity { address: 4, connected: true, data_age_nanos: Some(120_000_000_001) },
    ];
    let step = auto_scan_step(&busy, Some(599_999_999_999));
    assert_eq!(step.interval_secs, 600);
    assert!(!step.scan);
    assert_eq!(step.stale, vec![4], "only connected devices count as unresponsive");
}

#[test]
fn reconnect_and_startup_targets() {
    let none_connected = [DeviceActivity { address: 5, connected: false, data_age_nanos: None }];
    let one_connected = [DeviceActivity { address: 5, connected: true, data_age_nanos: None }];
    assert_eq!(reconnect_index(&none_connected, &[4, 5, 5], 5), Some(1));
    assert_eq!(reconnect_index(&none_connected, &[4], 5), None);
    assert_eq!(reconnect_index(&one_connected, &[4, 5], 5), None);
    assert_eq!(startup_connect_index(&[9, 4], &[1, 4, 9]), Some(2));
    assert_eq!(startup_connect_index(&[], &[1, 4, 9]), None);
    assert_eq!(position_of(&[3, 1, 3], 3), Some(0));
}

#[test]
fn scan_labels_and_status() {
    let found = [
        FoundDevice { address: 2, rssi: Some(-60) },
        FoundDevice { address: 3, rssi: None },
        FoundDevice { address: 2, rssi: Some(-10) },
    ];
    assert_eq!(known_device_rssi(&[1, 2, 3], &found), vec![None, Some(-60), None]);
    assert_eq!(scan_status_text(0), "No devices found");
    assert_eq!(scan_status_text(3), "Found 3 device(s)");
}

#[test]
fn battery_icons() {
    assert_eq!(battery_icon_name(Some(100)), "nf-fa-battery-full-symbolic");
    assert_eq!(battery_icon_name(Some(87)), "nf-fa-battery-full-symbolic");
    assert_eq!(battery_icon_name(Some(86)), "nf-fa-battery-three-quarters-symbolic");
    assert_eq!(battery_icon_name(Some(62)), "nf-fa-battery-three-quarters-symbolic");
    assert_eq!(battery_icon_name(Some(37)), "nf-fa-battery-half-symbolic");
    assert_eq!(battery_icon_name(Some(12)), "nf-fa-battery-quarter-symbolic");
    assert_eq!(battery_icon_name(Some(11)), "nf-fa-battery-empty-symbolic");
    assert_eq!(battery_icon_name(None), "nf-fa-battery-empty-symbolic");
    assert_eq!(BatteryIcon::for_level(Some(50)), BatteryIcon::Half);
    assert_eq!(battery_tooltip(Some(42)), Some("42 %".to_string()));
    assert_eq!(battery_tooltip(None), None);
}

#[test]
fn battery_icons_never_empty_as_level_rises() {
    let fill = |icon: BatteryIcon| match icon {
        BatteryIcon::Empty => 0,
        BatteryIcon::Quarter => 1,
        BatteryIcon::Half => 2,
        BatteryIcon::ThreeQuarters => 3,
        BatteryIcon::Full => 4,
    };
    for level in 0u8..=254 {
        assert!(fill(BatteryIcon::for_level(Some(level))) <= fill(BatteryIcon::for_level(Some(level + 1))));
    }
}

#[test]
fn device_events_update_activity() {
    let quiet = DeviceActivity { address: 4, connected: true, data_age_nanos: Some(300_000_000_000) };
    let out = on_device_event(Some(quiet), DeviceEvent::BatteryLevel(77), true);
    assert_eq!(out.activity, Some(DeviceActivity { data_age_nanos: Some(0), ..quiet }));
    assert_eq!(out.battery, Some(77));
    assert_eq!(out.battery_shown, Some(77));
    assert_eq!(out.status, None);
    let out = on_device_event(Some(quiet), DeviceEvent::AlarmTriggered(3), true);
    assert_eq!(out.status.as_deref(), Some("Alarm 3 triggered"));
    let out = on_device_event(Some(quiet), DeviceEvent::AlarmTriggered(3), false);
    assert_eq!(out.status, None);
    let out = on_device_event(Some(quiet), DeviceEvent::Disconnected, true);
    assert_eq!(out.activity, Some(DeviceActivity { address: 4, connected: false, data_age_nanos: None }));
    assert_eq!(out.status.as_deref(), Some("Reconnecting..."));
    assert_eq!(out.link, Some(LinkIndicator::Blinking));
    let out = on_device_event(out.activity, DeviceEvent::Reconnected, true);
    assert_eq!(out.activity, Some(DeviceActivity { address: 4, connected: true, data_age_nanos: Some(0) }));
    assert_eq!(out.status.as_deref(), Some("Device reconnected"));
    assert_eq!(out.link, Some(LinkIndicator::Steady));
    let out = on_device_event(None, DeviceEvent::BatteryLevel(10), false);
    assert_eq!(out.activity, None);
    assert_eq!(out.battery, None);
    assert_eq!(connect_feedback_levels(true), vec![20, 50, 80]);
    assert!(connect_feedback_levels(false).is_empty());
}

#[test]
fn address_texts() {
    assert_eq!(address_from_text("aa:bb:cc:dd:ee:ff"), Some(0xaabb_ccdd_eeff));
    assert_eq!(address_from_text("AA:BB:CC:DD:EE:0F"), Some(0xaabb_ccdd_ee0f));
    assert_eq!(address_from_text("00:00:00:00:00:01"), Some(1));
    assert_eq!(address_from_text("aa-bb-cc-dd-ee-ff"), None);
    assert_eq!(address_from_text("aa:bb:cc:dd:ee:fg"), None);
    assert_eq!(address_from_text("aa:bb:cc:dd:ee"), None);
    assert_eq!(address_from_text(""), None);
}

#[test]
fn device_activity_constructors() {
    assert_eq!(DeviceActivity::connected_now(9), DeviceActivity { address: 9, connected: true, data_age_nanos: Some(0) });
    assert_eq!(DeviceActivity::seen_in_scan(9), DeviceActivity { address: 9, connected: false, data_age_nanos: Some(0) });
}

#[test]
fn address_labels() {
    assert_eq!(address_from_label("aa:bb:cc:dd:ee:ff (-60 dBm)"), Some(0xaabb_ccdd_eeff));
    assert_eq!(address_from_label("aa:bb:cc:dd:ee:ff"), Some(0xaabb_ccdd_eeff));
    assert_eq!(address_from_label("No devices"), None);
    assert_eq!(address_from_label(""), None);
}
