//! The settings that the controller keeps between runs.

use vstd::prelude::*;
use crate::config::time_based_blink::TimeBasedBlink;

verus! {

/// Application configuration persisted to `~/.config/cgd1-rs/config.toml`.
#[derive(Debug, Clone, Copy, PartialEq, Eq, Structural)]
pub struct AppConfig {
    /// Whether to play the triple-blink visual feedback when connecting.
    pub blink_on_connect: bool,
    /// Frequency of time-based visual blink feedback.
    pub time_based_blink: TimeBasedBlink,
}

/// The configuration used where none was saved: blink on connect, no time-based blink.
pub open spec fn default_app_config() -> AppConfig {
    AppConfig { blink_on_connect: true, time_based_blink: TimeBasedBlink::Off }
}

/// Whether to blink on connect where the saved configuration does not say.
pub fn default_blink_on_connect() -> (r: bool)
    ensures
        r == true,
{
    true
}

impl Default for AppConfig {
    fn default() -> (r: Self)
        ensures
            r == default_app_config(),
    {
        AppConfig { blink_on_connect: default_blink_on_connect(), time_based_blink: TimeBasedBlink::Off }
    }
}

} // verus!
