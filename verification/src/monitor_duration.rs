//! How long the `monitor` command watches sensor data.

use vstd::prelude::*;
use vstd::string::StringSliceAdditionalSpecFns;
use vstd::std_specs::convert::{FromSpecImpl, TryFromSpecImpl};
use std::str::FromStr;
use crate::text::{decimal, push_decimal};
use crate::durations::{duration_text_seconds, read_duration_seconds};

verus! {

/// Error reading a [`MonitorDuration`] from a string.
#[derive(Debug, Clone, PartialEq, Eq)]
pub struct MonitorDurationParseError {
    /// The raw input string.
    pub input: String,
    /// The parse error reason.
    pub reason: String,
}

/// Monitor duration in seconds (0 = indefinite).
///
/// A value of 0 means monitor indefinitely until interrupted.
#[derive(Debug, Clone, Copy, PartialEq, Eq, PartialOrd, Ord, Hash)]
pub struct MonitorDuration(u64);

impl View for MonitorDuration {
    type V = u64;

    closed spec fn view(&self) -> u64 {
        self.0
    }
}

/// The text that shows a monitor duration: `indefinite`, or the seconds followed by `s`.
pub open spec fn monitor_duration_text(seconds: u64) -> Seq<char> {
    if seconds == 0 {
        "indefinite"@
    } else {
        decimal(seconds as nat).push('s')
    }
}

/// The name of what `Duration::from_secs` returns for a number of seconds.
pub uninterp spec fn duration_from_secs_spec(secs: u64) -> std::time::Duration;

/// Calls `std::time::Duration::from_secs`.
///
/// The contract claims only that the result is a function of `secs` alone. That it is a
/// duration of exactly `secs` seconds is left unsaid: no specification of `Duration`'s
/// accessors is at hand to state it over.
#[verifier::external_body]
pub(crate) fn duration_from_secs(secs: u64) -> (d: std::time::Duration)
    ensures
        d == duration_from_secs_spec(secs),
{
    std::time::Duration::from_secs(secs)
}

impl MonitorDuration {
    /// Indefinite monitoring (0 seconds = run until interrupted).
    pub fn indefinite() -> (r: MonitorDuration)
        ensures
            r@ == 0,
    {
        MonitorDuration(0)
    }

    /// Create a monitor duration. 0 means indefinite, any positive value
    /// is the duration in seconds. Every value is accepted.
    pub fn new(seconds: u64) -> (r: Result<Self, MonitorDurationParseError>)
        ensures
            r matches Ok(d) && d@ == seconds,
    {
        Ok(MonitorDuration(seconds))
    }

    /// Get the duration in seconds. 0 means indefinite.
    pub fn seconds(self) -> (r: u64)
        ensures
            r == self@,
    {
        self.0
    }

    /// Whether this duration is indefinite (0 seconds).
    pub fn is_indefinite(self) -> (r: bool)
        ensures
            r == (self@ == 0),
    {
        self.0 == 0
    }

    /// The display text: `indefinite` for 0, otherwise the seconds followed by `s`.
    pub fn to_string(&self) -> (r: String)
        ensures
            r@ == monitor_duration_text(self@),
    {
        if self.0 == 0 {
            "indefinite".to_owned()
        } else {
            let mut s = String::new();
            push_decimal(&mut s, self.0);
            s.append("s");
            proof {
                reveal_strlit("s");
            }
            s
        }
    }

    /// Reads a monitor duration: plain seconds such as `60`, or an ISO 8601 duration such as
    /// `PT1H30M` (any text starting with `P`).
    pub fn parse(s: &str) -> (r: Result<Self, MonitorDurationParseError>)
        ensures
            match r {
                Ok(d) => duration_text_seconds(s.spec_bytes()) == Ok::<nat, Seq<char>>(d@ as nat),
                Err(e) => e.input@ == s@
                    && duration_text_seconds(s.spec_bytes()) == Err::<nat, Seq<char>>(e.reason@),
            },
    {
        match read_duration_seconds(s) {
            Ok(seconds) => Self::new(seconds),
            Err(reason) => Err(MonitorDurationParseError { input: s.to_owned(), reason }),
        }
    }
}

impl FromStr for MonitorDuration {
    type Err = MonitorDurationParseError;

    fn from_str(s: &str) -> (r: Result<Self, Self::Err>)
        ensures
            match r {
                Ok(d) => duration_text_seconds(s.spec_bytes()) == Ok::<nat, Seq<char>>(d@ as nat),
                Err(e) => e.input@ == s@
                    && duration_text_seconds(s.spec_bytes()) == Err::<nat, Seq<char>>(e.reason@),
            },
    {
        Self::parse(s)
    }
}

impl TryFrom<u64> for MonitorDuration {
    type Error = MonitorDurationParseError;

    fn try_from(seconds: u64) -> (r: Result<Self, Self::Error>)
        ensures
            r matches Ok(d) && d@ == seconds,
    {
        Self::new(seconds)
    }
}

impl TryFromSpecImpl<u64> for MonitorDuration {
    open spec fn obeys_try_from_spec() -> bool {
        true
    }

    closed spec fn try_from_spec(seconds: u64) -> Result<Self, Self::Error> {
        Ok(MonitorDuration(seconds))
    }
}

impl From<MonitorDuration> for u64 {
    fn from(d: MonitorDuration) -> (r: u64) {
        d.0
    }
}

impl FromSpecImpl<MonitorDuration> for u64 {
    open spec fn obeys_from_spec() -> bool {
        true
    }

    open spec fn from_spec(d: MonitorDuration) -> u64 {
        d@
    }
}

impl From<MonitorDuration> for std::time::Duration {
    fn from(d: MonitorDuration) -> (r: std::time::Duration) {
        duration_from_secs(d.0)
    }
}

impl FromSpecImpl<MonitorDuration> for std::time::Duration {
    open spec fn obeys_from_spec() -> bool {
        true
    }

    open spec fn from_spec(d: MonitorDuration) -> std::time::Duration {
        duration_from_secs_spec(d@)
    }
}

/// Two monitor durations are equal exactly when they hold the same number of seconds; so a
/// duration of 0 seconds is the indefinite one.
pub proof fn law_monitor_duration_determined_by_seconds(a: MonitorDuration, b: MonitorDuration)
    ensures
        a@ == b@ <==> a == b,
{
}

} // verus!
