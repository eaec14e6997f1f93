//! The battery indicator: which icon stands for a battery level, and its tooltip.

use vstd::prelude::*;
use crate::text::{decimal, push_decimal};

verus! {

/// The battery icons, from full to empty.
#[derive(Debug, Clone, Copy, PartialEq, Eq, Structural)]
pub enum BatteryIcon {
    /// 87 % and more.
    Full,
    /// 62 % up to 86 %.
    ThreeQuarters,
    /// 37 % up to 61 %.
    Half,
    /// 12 % up to 36 %.
    Quarter,
    /// Below 12 %, or no level known.
    Empty,
}

/// The icon that stands for a battery level.
pub open spec fn icon_for_level(level: Option<u8>) -> BatteryIcon {
    match level {
        Some(l) => if l >= 87 {
            BatteryIcon::Full
        } else if l >= 62 {
            BatteryIcon::ThreeQuarters
        } else if l >= 37 {
            BatteryIcon::Half
        } else if l >= 12 {
            BatteryIcon::Quarter
        } else {
            BatteryIcon::Empty
        },
        None => BatteryIcon::Empty,
    }
}

/// The icon theme's name of an icon.
pub open spec fn icon_theme_name(icon: BatteryIcon) -> Seq<char> {
    match icon {
        BatteryIcon::Full => "nf-fa-battery-full-symbolic"@,
        BatteryIcon::ThreeQuarters => "nf-fa-battery-three-quarters-symbolic"@,
        BatteryIcon::Half => "nf-fa-battery-half-symbolic"@,
        BatteryIcon::Quarter => "nf-fa-battery-quarter-symbolic"@,
        BatteryIcon::Empty => "nf-fa-battery-empty-symbolic"@,
    }
}

/// How full the battery is that an icon shows, from 0 (empty) to 4 (full).
pub open spec fn icon_fill(icon: BatteryIcon) -> nat {
    match icon {
        BatteryIcon::Full => 4,
        BatteryIcon::ThreeQuarters => 3,
        BatteryIcon::Half => 2,
        BatteryIcon::Quarter => 1,
        BatteryIcon::Empty => 0,
    }
}

impl BatteryIcon {
    /// The icon that stands for a battery level (0–100); no level shows an empty battery.
    pub fn for_level(level: Option<u8>) -> (r: BatteryIcon)
        ensures
            r == icon_for_level(level),
    {
        match level {
            Some(l) => if l >= 87 {
                BatteryIcon::Full
            } else if l >= 62 {
                BatteryIcon::ThreeQuarters
            } else if l >= 37 {
                BatteryIcon::Half
            } else if l >= 12 {
                BatteryIcon::Quarter
            } else {
                BatteryIcon::Empty
            },
            None => BatteryIcon::Empty,
        }
    }

    /// The icon theme's name of the icon.
    pub fn name(self) -> (r: &'static str)
        ensures
            r@ == icon_theme_name(self),
    {
        match self {
            BatteryIcon::Full => "nf-fa-battery-full-symbolic",
            BatteryIcon::ThreeQuarters => "nf-fa-battery-three-quarters-symbolic",
            BatteryIcon::Half => "nf-fa-battery-half-symbolic",
            BatteryIcon::Quarter => "nf-fa-battery-quarter-symbolic",
            BatteryIcon::Empty => "nf-fa-battery-empty-symbolic",
        }
    }
}

/// Maps a battery level (0–100) to the name of the icon that shows it.
pub fn battery_icon_name(level: Option<u8>) -> (r: &'static str)
    ensures
        r@ == icon_theme_name(icon_for_level(level)),
{
    BatteryIcon::for_level(level).name()
}

/// The tooltip of the battery icon: the level followed by " %", none without a level.
pub fn battery_tooltip(level: Option<u8>) -> (r: Option<String>)
    ensures
        match level {
            Some(l) => r is Some && r->0@ == decimal(l as nat) + " %"@,
            None => r is None,
        },
{
    match level {
        Some(l) => {
            let mut s = String::new();
            push_decimal(&mut s, l as u64);
            s.append(" %");
            Some(s)
        },
        None => None,
    }
}

/// A fuller battery never shows an emptier icon.
pub proof fn law_battery_icon_monotone(a: u8, b: u8)
    requires
        a <= b,
    ensures
        icon_fill(icon_for_level(Some(a))) <= icon_fill(icon_for_level(Some(b))),
        icon_for_level(None) == icon_for_level(Some(0)),
{
}

} // verus!
