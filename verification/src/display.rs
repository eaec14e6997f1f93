//! The digital clock face of the main window: the texts it shows each second, and the size
//! its seven-segment displays ask for.

use vstd::prelude::*;
use vstd::string::StringExecFns;
use crate::text::{zero_padded, push_zero_padded};

verus! {

/// The date and time texts of one clock tick, and whether the next tick shows the colon.
#[derive(Debug, Clone)]
pub struct ClockFace {
    /// The date, `YYYY-MM-DD`.
    pub date: String,
    /// The time, `HH:MM`, with a space in place of the colon on every other tick.
    pub time: String,
    /// Whether the colon shows on the next tick.
    pub colon_visible_next: bool,
}

/// The date text of a clock tick.
pub open spec fn date_text(year: u32, month: u32, day: u32) -> Seq<char> {
    zero_padded(year as nat, 4) + "-"@ + zero_padded(month as nat, 2) + "-"@ + zero_padded(day as nat, 2)
}

/// The time text of a clock tick: a colon between hours and minutes, or a space while the
/// colon blinks off.
pub open spec fn time_text(hour: u32, minute: u32, colon_visible: bool) -> Seq<char> {
    zero_padded(hour as nat, 2) + (if colon_visible { ":"@ } else { " "@ }) + zero_padded(minute as nat, 2)
}

/// One tick of the clock face: the texts to show and the blink state for the next tick.
pub fn clock_tick(colon_visible: bool, year: u32, month: u32, day: u32, hour: u32, minute: u32) -> (r: ClockFace)
    ensures
        r.date@ == date_text(year, month, day),
        r.time@ == time_text(hour, minute, colon_visible),
        r.colon_visible_next == !colon_visible,
{
    let mut date = String::new();
    push_zero_padded(&mut date, year as u64, 4);
    date.append("-");
    push_zero_padded(&mut date, month as u64, 2);
    date.append("-");
    push_zero_padded(&mut date, day as u64, 2);
    let mut time = String::new();
    push_zero_padded(&mut time, hour as u64, 2);
    if colon_visible {
        time.append(":");
    } else {
        time.append(" ");
    }
    push_zero_padded(&mut time, minute as u64, 2);
    proof {
        assert(date@ =~= date_text(year, month, day));
        assert(time@ =~= time_text(hour, minute, colon_visible));
    }
    ClockFace { date, time, colon_visible_next: !colon_visible }
}

/// The number of characters a seven-segment display sizes itself for: those of its text, or
/// one for the `0` it shows while empty.
pub open spec fn shown_len(text_bytes: nat) -> nat {
    if text_bytes == 0 { 1 } else { text_bytes }
}

/// `n / 2` rounded toward zero, as integer division does.
pub open spec fn half_toward_zero(n: int) -> int {
    if n >= 0 { n / 2 } else { -((-n) / 2) }
}

/// The size a seven-segment display asks for: along the text, half the font size per character
/// and 12 pixels of padding; across it, the font size and the padding.
pub open spec fn display_extent(font_size: int, text_bytes: nat, horizontal: bool) -> int {
    if horizontal {
        half_toward_zero(font_size) * shown_len(text_bytes) + 12
    } else {
        font_size + 12
    }
}

/// The minimum (and natural) size of a seven-segment display showing `text` at `font_size`.
pub fn display_size(font_size: i32, text: &str, horizontal: bool) -> (r: i32)
    requires
        i32::MIN <= display_extent(font_size as int, text.len() as nat, horizontal) <= i32::MAX,
    ensures
        r as int == display_extent(font_size as int, text.len() as nat, horizontal),
{
    let bytes = text.len();
    let len: usize = if bytes == 0 { 1 } else { bytes };
    let half: i64 = if font_size >= 0 { (font_size / 2) as i64 } else { -((-(font_size as i64)) / 2) };
    proof {
        assert(half as int == half_toward_zero(font_size as int));
        assert(len as nat == shown_len(bytes as nat));
    }
    if horizontal {
        if half == 0 {
            assert(half * (len as int) == 0) by (nonlinear_arith)
                requires
                    half == 0,
            ;
            return 12;
        }
        let ghost ext = display_extent(font_size as int, bytes as nat, horizontal);
        assert(ext == half * (len as int) + 12);
        assert(len <= 0x1_0000_0000) by (nonlinear_arith)
            requires
                ext == half * (len as int) + 12,
                i32::MIN <= ext <= i32::MAX,
                half != 0,
                len >= 1,
        ;
        assert(-0x4000_0000 <= half <= 0x4000_0000);
        assert(-0x4000_0000_0000_0000 <= half * (len as int) <= 0x4000_0000_0000_0000) by (nonlinear_arith)
            requires
                -0x4000_0000 <= half <= 0x4000_0000,
                1 <= len <= 0x1_0000_0000,
        ;
        (half * (len as i64) + 12) as i32
    } else {
        font_size + 12
    }
}

} // verus!
