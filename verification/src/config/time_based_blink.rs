//! How often the controller gives time-based visual blink feedback.

use vstd::prelude::*;

verus! {

/// Frequency of time-based visual blink feedback.
#[derive(Debug, Clone, Copy, PartialEq, Eq, Structural)]
pub enum TimeBasedBlink {
    /// No time-based blink.
    Off,
    /// Blink once per hour.
    Hourly,
    /// Blink every fifteen minutes.
    EveryFifteenMinutes,
    /// Blink every five minutes.
    EveryFiveMinutes,
    /// Blink every minute.
    EveryMinute,
}

/// The variants in display order.
pub open spec fn all_blinks() -> Seq<TimeBasedBlink> {
    seq![
        TimeBasedBlink::Off,
        TimeBasedBlink::Hourly,
        TimeBasedBlink::EveryFifteenMinutes,
        TimeBasedBlink::EveryFiveMinutes,
        TimeBasedBlink::EveryMinute,
    ]
}

/// The place of a variant in display order.
pub open spec fn blink_index(b: TimeBasedBlink) -> nat {
    match b {
        TimeBasedBlink::Off => 0,
        TimeBasedBlink::Hourly => 1,
        TimeBasedBlink::EveryFifteenMinutes => 2,
        TimeBasedBlink::EveryFiveMinutes => 3,
        TimeBasedBlink::EveryMinute => 4,
    }
}

/// The variant at a place in display order, if there is one.
pub open spec fn blink_from_index(i: int) -> Option<TimeBasedBlink> {
    if 0 <= i < all_blinks().len() { Some(all_blinks()[i]) } else { None }
}

/// Whether the blink is due at a minute of the hour.
pub open spec fn blink_due(b: TimeBasedBlink, minute: u32) -> bool {
    match b {
        TimeBasedBlink::Off => false,
        TimeBasedBlink::Hourly => minute == 0,
        TimeBasedBlink::EveryFifteenMinutes => minute % 15 == 0,
        TimeBasedBlink::EveryFiveMinutes => minute % 5 == 0,
        TimeBasedBlink::EveryMinute => true,
    }
}

/// The message id under which the translation catalogue holds the short label of a variant.
pub open spec fn blink_label_key(b: TimeBasedBlink) -> Seq<char> {
    match b {
        TimeBasedBlink::Off => "label-off"@,
        TimeBasedBlink::Hourly => "label-hourly"@,
        TimeBasedBlink::EveryFifteenMinutes => "label-15m"@,
        TimeBasedBlink::EveryFiveMinutes => "label-5m"@,
        TimeBasedBlink::EveryMinute => "label-1m"@,
    }
}

impl Default for TimeBasedBlink {
    /// No time-based blink.
    fn default() -> (r: Self)
        ensures
            r == TimeBasedBlink::Off,
    {
        TimeBasedBlink::Off
    }
}

impl TimeBasedBlink {
    /// All variants in display order.
    pub fn all() -> (r: [TimeBasedBlink; 5])
        ensures
            r@ == all_blinks(),
    {
        let r = [
            TimeBasedBlink::Off,
            TimeBasedBlink::Hourly,
            TimeBasedBlink::EveryFifteenMinutes,
            TimeBasedBlink::EveryFiveMinutes,
            TimeBasedBlink::EveryMinute,
        ];
        assert(r@ =~= all_blinks());
        r
    }

    /// Short label suitable for slider tick marks: the message id under which the translation
    /// catalogue holds it.
    pub fn label(self) -> (r: String)
        ensures
            r@ == blink_label_key(self),
    {
        let key = match self {
            TimeBasedBlink::Off => "label-off",
            TimeBasedBlink::Hourly => "label-hourly",
            TimeBasedBlink::EveryFifteenMinutes => "label-15m",
            TimeBasedBlink::EveryFiveMinutes => "label-5m",
            TimeBasedBlink::EveryMinute => "label-1m",
        };
        key.to_owned()
    }

    /// Numeric index for slider positioning (0-based).
    pub fn index(self) -> (r: usize)
        ensures
            r == blink_index(self),
    {
        match self {
            TimeBasedBlink::Off => 0,
            TimeBasedBlink::Hourly => 1,
            TimeBasedBlink::EveryFifteenMinutes => 2,
            TimeBasedBlink::EveryFiveMinutes => 3,
            TimeBasedBlink::EveryMinute => 4,
        }
    }

    /// Convert a numeric index back to a variant.
    pub fn from_index(index: usize) -> (r: Option<Self>)
        ensures
            r == blink_from_index(index as int),
    {
        let all = Self::all();
        if index < 5 {
            Some(all[index])
        } else {
            None
        }
    }

    /// Check whether a blink should trigger at the given minute-of-hour.
    ///
    /// Returns `true` if the current minute aligns with the configured frequency.
    pub fn should_blink(self, minute: u32) -> (r: bool)
        ensures
            r == blink_due(self, minute),
    {
        match self {
            TimeBasedBlink::Off => false,
            TimeBasedBlink::Hourly => minute == 0,
            TimeBasedBlink::EveryFifteenMinutes => minute % 15 == 0,
            TimeBasedBlink::EveryFiveMinutes => minute % 5 == 0,
            TimeBasedBlink::EveryMinute => true,
        }
    }
}

/// Going from a variant to its index and back gives the variant again, and every index below
/// the number of variants names the variant that sits there.
pub proof fn law_blink_index_roundtrip(b: TimeBasedBlink, i: int)
    ensures
        blink_from_index(blink_index(b) as int) == Some(b),
        blink_index(b) < all_blinks().len(),
        0 <= i < all_blinks().len() ==> blink_from_index(i) is Some
            && blink_index(blink_from_index(i)->0) == i,
        !(0 <= i < all_blinks().len()) ==> blink_from_index(i) is None,
{
}

/// The blink frequencies nest: a minute at which a rarer blink is due is one at which every
/// more frequent blink is due too, and `Off` is never due.
pub proof fn law_blink_frequencies_nest(minute: u32)
    ensures
        !blink_due(TimeBasedBlink::Off, minute),
        blink_due(TimeBasedBlink::Hourly, minute) ==> blink_due(TimeBasedBlink::EveryFifteenMinutes, minute),
        blink_due(TimeBasedBlink::EveryFifteenMinutes, minute) ==> blink_due(TimeBasedBlink::EveryFiveMinutes, minute),
        blink_due(TimeBasedBlink::EveryFiveMinutes, minute) ==> blink_due(TimeBasedBlink::EveryMinute, minute),
{
    if minute % 15 == 0 {
        assert(minute % 5 == 0) by (nonlinear_arith)
            requires minute % 15 == 0;
    }
}

/// Each frequency blinks when its name says: the hourly blink at exactly one minute of the hour,
/// minute 0; the others at minute 0 and then again every 15, 5 or 1 minutes, and at no minute
/// in between; `Off` never.
pub proof fn law_blink_periods(minute: u32)
    ensures
        blink_due(TimeBasedBlink::Hourly, minute) <==> minute == 0,
        blink_due(TimeBasedBlink::EveryFifteenMinutes, 0),
        0 < minute < 15 ==> !blink_due(TimeBasedBlink::EveryFifteenMinutes, minute),
        minute + 15 <= u32::MAX ==> (blink_due(TimeBasedBlink::EveryFifteenMinutes, minute)
            <==> blink_due(TimeBasedBlink::EveryFifteenMinutes, (minute + 15) as u32)),
        blink_due(TimeBasedBlink::EveryFiveMinutes, 0),
        0 < minute < 5 ==> !blink_due(TimeBasedBlink::EveryFiveMinutes, minute),
        minute + 5 <= u32::MAX ==> (blink_due(TimeBasedBlink::EveryFiveMinutes, minute)
            <==> blink_due(TimeBasedBlink::EveryFiveMinutes, (minute + 5) as u32)),
        blink_due(TimeBasedBlink::EveryMinute, minute),
        !blink_due(TimeBasedBlink::Off, minute),
{
    if minute + 15 <= u32::MAX {
        assert((minute + 15) % 15 == minute % 15) by (nonlinear_arith);
    }
    if minute + 5 <= u32::MAX {
        assert((minute + 5) % 5 == minute % 5) by (nonlinear_arith);
    }
}

} // verus!
