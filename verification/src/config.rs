//! The controller's configuration and where it is kept.

pub mod app_config;
pub mod time_based_blink;

use vstd::prelude::*;
use crate::config::app_config::{AppConfig, default_app_config};
use crate::config::time_based_blink::TimeBasedBlink;

verus! {

/// The configuration in use, together with the path of the file that keeps it.
///
/// Reading and writing the file is left to the caller: [`ConfigStore::load_default`] takes what
/// was read, and whoever saves writes [`ConfigStore::config`] to [`ConfigStore::path`].
///
/// A clone is an independent copy: a setting changed through one clone is not seen by the
/// others. Code that needs one configuration seen from several places keeps one store and
/// shares it.
#[derive(Debug, Clone)]
pub struct ConfigStore {
    config: AppConfig,
    path: String,
}

/// The configuration taken from a load: what the file held, or the default where it could not
/// be read or parsed.
pub open spec fn loaded_or_default(loaded: Option<AppConfig>) -> AppConfig {
    match loaded {
        Some(c) => c,
        None => default_app_config(),
    }
}

impl ConfigStore {
    /// The configuration in use.
    pub closed spec fn spec_config(&self) -> AppConfig {
        self.config
    }

    /// The path of the configuration file.
    pub closed spec fn spec_path(&self) -> Seq<char> {
        self.path@
    }

    /// The configuration from a load: the parsed file where there was one, else the defaults.
    pub fn load_from(loaded: Option<AppConfig>) -> (r: AppConfig)
        ensures
            r == loaded_or_default(loaded),
    {
        match loaded {
            Some(c) => c,
            None => AppConfig::default(),
        }
    }

    /// The store for the configuration file at `path`, given what reading and parsing that
    /// file gave (`None` where it is missing or invalid, in which case the defaults apply).
    pub fn load_default(path: String, loaded: Option<AppConfig>) -> (r: ConfigStore)
        ensures
            r.spec_config() == loaded_or_default(loaded),
            r.spec_path() == path@,
    {
        ConfigStore { config: Self::load_from(loaded), path }
    }

    /// The configuration in use.
    pub fn config(&self) -> (r: AppConfig)
        ensures
            r == self.spec_config(),
    {
        self.config
    }

    /// The path of the configuration file.
    pub fn path(&self) -> (r: &str)
        ensures
            r@ == self.spec_path(),
    {
        self.path.as_str()
    }

    /// Get the current config value for blink_on_connect.
    pub fn blink_on_connect(&self) -> (r: bool)
        ensures
            r == self.spec_config().blink_on_connect,
    {
        self.config.blink_on_connect
    }

    /// Set blink_on_connect; the caller then saves the configuration.
    pub fn set_blink_on_connect(&mut self, value: bool)
        ensures
            final(self).spec_config() == (AppConfig { blink_on_connect: value, ..old(self).spec_config() }),
            final(self).spec_path() == old(self).spec_path(),
    {
        self.config.blink_on_connect = value;
    }

    /// Get the current time-based blink frequency.
    pub fn time_based_blink(&self) -> (r: TimeBasedBlink)
        ensures
            r == self.spec_config().time_based_blink,
    {
        self.config.time_based_blink
    }

    /// Set the time-based blink frequency; the caller then saves the configuration.
    pub fn set_time_based_blink(&mut self, value: TimeBasedBlink)
        ensures
            final(self).spec_config() == (AppConfig { time_based_blink: value, ..old(self).spec_config() }),
            final(self).spec_path() == old(self).spec_path(),
    {
        self.config.time_based_blink = value;
    }
}

/// Reading a setting gives back what was last set, and setting one leaves the other setting
/// and the file path as they were.
pub proof fn law_config_set_then_get(store: ConfigStore, after_blink: ConfigStore, after_time: ConfigStore, value: bool, freq: TimeBasedBlink)
    requires
        after_blink.spec_config() == (AppConfig { blink_on_connect: value, ..store.spec_config() }),
        after_time.spec_config() == (AppConfig { time_based_blink: freq, ..store.spec_config() }),
    ensures
        after_blink.spec_config().blink_on_connect == value,
        after_blink.spec_config().time_based_blink == store.spec_config().time_based_blink,
        after_time.spec_config().time_based_blink == freq,
        after_time.spec_config().blink_on_connect == store.spec_config().blink_on_connect,
{
}

/// Where no configuration could be loaded, blinking on connect is enabled and time-based
/// blinking is off.
pub proof fn law_missing_config_uses_defaults()
    ensures
        loaded_or_default(None).blink_on_connect,
        loaded_or_default(None).time_based_blink == TimeBasedBlink::Off,
{
}

} // verus!
