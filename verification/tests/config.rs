use cgd1_tools::config::app_config::{default_blink_on_connect, AppConfig};
use cgd1_tools::config::time_based_blink::TimeBasedBlink;
use cgd1_tools::config::ConfigStore;

#[test]
fn config_default_has_blink_enabled() {
    let config = AppConfig::default();
    assert!(config.blink_on_connect);
}

#[test]
fn app_config_default_has_blink_enabled() {
    let config = AppConfig::default();
    assert!(config.blink_on_connect);
    assert_eq!(config.time_based_blink, TimeBasedBlink::Off);
    assert!(default_blink_on_connect());
}

#[test]
fn missing_file_uses_defaults() {
    let loaded = ConfigStore::load_from(None);
    assert!(loaded.blink_on_connect);
}

#[test]
fn loaded_config_is_kept() {
    let saved = AppConfig { blink_on_connect: false, time_based_blink: TimeBasedBlink::Hourly };
    let store = ConfigStore::load_default("/tmp/cgd1/config.toml".to_string(), Some(saved));
    assert!(!store.blink_on_connect());
    assert_eq!(store.time_based_blink(), TimeBasedBlink::Hourly);
    assert_eq!(store.path(), "/tmp/cgd1/config.toml");
}

#[test]
fn set_then_get_config() {
    let mut store = ConfigStore::load_default("c.toml".to_string(), None);
    assert!(store.blink_on_connect());
    store.set_blink_on_connect(false);
    assert!(!store.blink_on_connect());
    assert_eq!(store.time_based_blink(), TimeBasedBlink::Off);
    store.set_time_based_blink(TimeBasedBlink::EveryMinute);
    assert_eq!(store.time_based_blink(), TimeBasedBlink::EveryMinute);
    assert!(!store.blink_on_connect());
    assert_eq!(store.config(), AppConfig { blink_on_connect: false, time_based_blink: TimeBasedBlink::EveryMinute });
    assert_eq!(store.path(), "c.toml");
}

#[test]
fn time_based_blink_index_roundtrip() {
    for b in TimeBasedBlink::all() {
        assert_eq!(TimeBasedBlink::from_index(b.index()), Some(b));
    }
    assert_eq!(TimeBasedBlink::from_index(5), None);
    assert_eq!(TimeBasedBlink::EveryFifteenMinutes.index(), 2);
    assert_eq!(TimeBasedBlink::default(), TimeBasedBlink::Off);
}

#[test]
fn time_based_blink_due_minutes() {
    assert!(!TimeBasedBlink::Off.should_blink(0));
    assert!(TimeBasedBlink::Hourly.should_blink(0));
    assert!(!TimeBasedBlink::Hourly.should_blink(15));
    assert!(TimeBasedBlink::EveryFifteenMinutes.should_blink(45));
    assert!(!TimeBasedBlink::EveryFifteenMinutes.should_blink(10));
    assert!(TimeBasedBlink::EveryFiveMinutes.should_blink(10));
    assert!(!TimeBasedBlink::EveryFiveMinutes.should_blink(11));
    assert!(TimeBasedBlink::EveryMinute.should_blink(11));
    // A minute at which a rarer blink is due is one at which the more frequent ones are due.
    for minute in 0..60u32 {
        if TimeBasedBlink::Hourly.should_blink(minute) {
            assert!(TimeBasedBlink::EveryFifteenMinutes.should_blink(minute));
        }
        if TimeBasedBlink::EveryFifteenMinutes.should_blink(minute) {
            assert!(TimeBasedBlink::EveryFiveMinutes.should_blink(minute));
        }
    }
}

#[test]
fn time_based_blink_labels() {
    assert_eq!(TimeBasedBlink::Off.label(), "label-off");
    assert_eq!(TimeBasedBlink::EveryFiveMinutes.label(), "label-5m");
}
