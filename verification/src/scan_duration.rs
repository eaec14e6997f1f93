//! How long the `scan` command looks for devices.

use vstd::prelude::*;
use vstd::string::StringSliceAdditionalSpecFns;
use vstd::std_specs::convert::{FromSpecImpl, TryFromSpecImpl};
use std::str::FromStr;
use crate::text::{decimal, push_decimal};
use crate::durations::{duration_text_seconds, read_duration_seconds};
use crate::monitor_duration::{duration_from_secs_spec, duration_from_secs};

verus! {

/// Error parsing a [`ScanDuration`] from a string.
#[derive(Debug, Clone, PartialEq, Eq)]
pub struct ScanDurationParseError {
    /// The raw input string.
    pub input: String,
    /// The parse error reason.
    pub reason: String,
}

/// Scan duration in seconds (1–600).
#[derive(Debug, Clone, Copy, PartialEq, Eq, PartialOrd, Ord, Hash)]
pub struct ScanDuration(u64);

/// The shortest scan, in seconds.
pub open spec fn scan_min_seconds() -> nat { 1 }

/// The longest scan, in seconds.
pub open spec fn scan_max_seconds() -> nat { 600 }

/// The reason given for a scan duration below the minimum.
pub open spec fn too_short_reason() -> Seq<char> {
    "must be at least 1 second"@
}

/// The reason given for a scan duration above the maximum.
pub open spec fn too_long_reason() -> Seq<char> {
    "must be at most 600 seconds (10 minutes)"@
}

/// What `ScanDuration::new` gives for a number of seconds: the duration, or the reason it is
/// out of range.
pub open spec fn scan_duration_check(seconds: nat) -> Result<nat, Seq<char>> {
    if seconds < scan_min_seconds() {
        Err(too_short_reason())
    } else if seconds > scan_max_seconds() {
        Err(too_long_reason())
    } else {
        Ok(seconds)
    }
}

impl View for ScanDuration {
    type V = u64;

    closed spec fn view(&self) -> u64 {
        self.0
    }
}

impl ScanDuration {
    /// Every scan duration lies between the minimum and the maximum.
    #[verifier::type_invariant]
    spec fn in_range(self) -> bool {
        1 <= self.0 <= 600
    }

    /// Minimum scan duration (1 second).
    pub fn minimum() -> (r: ScanDuration)
        ensures
            r@ == scan_min_seconds(),
    {
        ScanDuration(1)
    }

    /// Maximum scan duration (600 seconds).
    pub fn maximum() -> (r: ScanDuration)
        ensures
            r@ == scan_max_seconds(),
    {
        ScanDuration(600)
    }

    /// Create a validated scan duration. Must be 1–600 seconds; otherwise the error holds the
    /// seconds as text and the reason.
    pub fn new(seconds: u64) -> (r: Result<Self, ScanDurationParseError>)
        ensures
            match r {
                Ok(d) => scan_duration_check(seconds as nat) == Ok::<nat, Seq<char>>(d@ as nat),
                Err(e) => e.input@ == decimal(seconds as nat)
                    && scan_duration_check(seconds as nat) == Err::<nat, Seq<char>>(e.reason@),
            },
    {
        if seconds < 1 {
            let mut input = String::new();
            push_decimal(&mut input, seconds);
            return Err(ScanDurationParseError { input, reason: "must be at least 1 second".to_owned() });
        }
        if seconds > 600 {
            let mut input = String::new();
            push_decimal(&mut input, seconds);
            return Err(ScanDurationParseError {
                input,
                reason: "must be at most 600 seconds (10 minutes)".to_owned(),
            });
        }
        Ok(ScanDuration(seconds))
    }

    /// Get the duration in seconds.
    pub fn seconds(self) -> (r: u64)
        ensures
            r == self@,
            scan_min_seconds() <= r <= scan_max_seconds(),
    {
        proof {
            use_type_invariant(&self);
        }
        self.0
    }

    /// The display text: the seconds followed by `s`.
    pub fn to_string(&self) -> (r: String)
        ensures
            r@ == decimal(self@ as nat).push('s'),
    {
        let mut s = String::new();
        push_decimal(&mut s, self.0);
        s.append("s");
        proof {
            reveal_strlit("s");
        }
        s
    }

    /// Reads a scan duration: plain seconds such as `30`, or an ISO 8601 duration such as
    /// `PT5M` (any text starting with `P`), which must then lie in 1–600 seconds. Every error holds
    /// the text as given.
    pub fn parse(s: &str) -> (r: Result<Self, ScanDurationParseError>)
        ensures
            match r {
                Ok(d) => duration_text_seconds(s.spec_bytes()) == Ok::<nat, Seq<char>>(d@ as nat)
                    && scan_duration_check(d@ as nat) == Ok::<nat, Seq<char>>(d@ as nat),
                Err(e) => e.input@ == s@ && match duration_text_seconds(s.spec_bytes()) {
                    Ok(n) => scan_duration_check(n) == Err::<nat, Seq<char>>(e.reason@),
                    Err(reason) => e.reason@ == reason,
                },
            },
    {
        match read_duration_seconds(s) {
            Ok(seconds) => match Self::new(seconds) {
                Ok(d) => Ok(d),
                Err(e) => Err(ScanDurationParseError { input: s.to_owned(), reason: e.reason }),
            },
            Err(reason) => Err(ScanDurationParseError { input: s.to_owned(), reason }),
        }
    }
}

impl FromStr for ScanDuration {
    type Err = ScanDurationParseError;

    fn from_str(s: &str) -> (r: Result<Self, Self::Err>)
        ensures
            match r {
                Ok(d) => duration_text_seconds(s.spec_bytes()) == Ok::<nat, Seq<char>>(d@ as nat)
                    && scan_duration_check(d@ as nat) == Ok::<nat, Seq<char>>(d@ as nat),
                Err(e) => e.input@ == s@ && match duration_text_seconds(s.spec_bytes()) {
                    Ok(n) => scan_duration_check(n) == Err::<nat, Seq<char>>(e.reason@),
                    Err(reason) => e.reason@ == reason,
                },
            },
    {
        Self::parse(s)
    }
}

impl TryFrom<u64> for ScanDuration {
    type Error = ScanDurationParseError;

    fn try_from(seconds: u64) -> (r: Result<Self, Self::Error>)
        ensures
            match r {
                Ok(d) => scan_duration_check(seconds as nat) == Ok::<nat, Seq<char>>(d@ as nat),
                Err(e) => e.input@ == decimal(seconds as nat)
                    && scan_duration_check(seconds as nat) == Err::<nat, Seq<char>>(e.reason@),
            },
    {
        Self::new(seconds)
    }
}

/// The error of a failed conversion holds strings, which a specification cannot build, so the
/// conversion is stated by [`ScanDuration::new`], which it calls.
impl TryFromSpecImpl<u64> for ScanDuration {
    open spec fn obeys_try_from_spec() -> bool {
        false
    }

    closed spec fn try_from_spec(seconds: u64) -> Result<Self, Self::Error> {
        vstd::pervasive::arbitrary()
    }
}

impl From<ScanDuration> for u64 {
    fn from(d: ScanDuration) -> (r: u64) {
        d.0
    }
}

impl FromSpecImpl<ScanDuration> for u64 {
    open spec fn obeys_from_spec() -> bool {
        true
    }

    open spec fn from_spec(d: ScanDuration) -> u64 {
        d@
    }
}

impl From<ScanDuration> for std::time::Duration {
    fn from(d: ScanDuration) -> (r: std::time::Duration) {
        duration_from_secs(d.0)
    }
}

impl FromSpecImpl<ScanDuration> for std::time::Duration {
    open spec fn obeys_from_spec() -> bool {
        true
    }

    open spec fn from_spec(d: ScanDuration) -> std::time::Duration {
        duration_from_secs_spec(d@)
    }
}

/// Two scan durations are equal exactly when they hold the same number of seconds.
pub proof fn law_scan_duration_determined_by_seconds(a: ScanDuration, b: ScanDuration)
    ensures
        a@ == b@ <==> a == b,
{
}

} // verus!
