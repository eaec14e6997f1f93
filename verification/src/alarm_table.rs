//! The table of alarms that the `alarm-list` command prints.

use vstd::prelude::*;
use vstd::string::{StringExecFns, StrSliceExecFns};
use crate::alarm::AlarmSlot;
use crate::text::{decimal, push_decimal, zero_padded, push_zero_padded, left_aligned, push_left_aligned};

verus! {

/// The lower-case hexadecimal digit of `d` (below 16).
pub open spec fn hex_digit(d: nat) -> char {
    if d < 10 {
        crate::text::digit_char(d)
    } else if d == 10 {
        'a'
    } else if d == 11 {
        'b'
    } else if d == 12 {
        'c'
    } else if d == 13 {
        'd'
    } else if d == 14 {
        'e'
    } else {
        'f'
    }
}

/// A byte as two lower-case hexadecimal digits, as `{:02x}` writes it.
pub open spec fn hex_byte(b: u8) -> Seq<char> {
    seq![hex_digit((b / 16) as nat), hex_digit((b % 16) as nat)]
}

/// `yes` or `no`.
pub open spec fn yes_no(b: bool) -> Seq<char> {
    if b { "yes"@ } else { "no"@ }
}

/// The header line of the alarm table.
pub open spec fn alarm_table_header_text() -> Seq<char> {
    left_aligned("Slot"@, 6) + " "@ + left_aligned("Enabled"@, 8) + " "@ + left_aligned("HH"@, 3) + " "@
        + left_aligned("MM"@, 3) + " "@ + left_aligned("Days"@, 6) + " "@ + left_aligned("Snooze"@, 6)
}

/// The line of the alarm table for one slot: slot, enabled, hour, minute, repeat mask in
/// hexadecimal and snooze.
pub open spec fn alarm_table_row_text(slot: AlarmSlot) -> Seq<char> {
    left_aligned(decimal(slot.index as nat), 6) + " "@ + left_aligned(yes_no(slot.entry.enabled), 8) + " "@
        + zero_padded(slot.entry.hour as nat, 2) + "   "@ + zero_padded(slot.entry.minute as nat, 2) + "   0x"@
        + hex_byte(slot.entry.repeat_mask) + "  "@ + yes_no(slot.entry.snooze)
}

/// A one-character string holding the hexadecimal digit `d`.
fn hex_digit_str(d: u8) -> (r: &'static str)
    requires
        d < 16,
    ensures
        r@ == seq![hex_digit(d as nat)],
{
    proof {
        reveal_strlit("0");
        reveal_strlit("1");
        reveal_strlit("2");
        reveal_strlit("3");
        reveal_strlit("4");
        reveal_strlit("5");
        reveal_strlit("6");
        reveal_strlit("7");
        reveal_strlit("8");
        reveal_strlit("9");
        reveal_strlit("a");
        reveal_strlit("b");
        reveal_strlit("c");
        reveal_strlit("d");
        reveal_strlit("e");
        reveal_strlit("f");
    }
    match d {
        0 => "0",
        1 => "1",
        2 => "2",
        3 => "3",
        4 => "4",
        5 => "5",
        6 => "6",
        7 => "7",
        8 => "8",
        9 => "9",
        10 => "a",
        11 => "b",
        12 => "c",
        13 => "d",
        14 => "e",
        _ => "f",
    }
}

/// `yes` or `no`.
fn yes_no_str(b: bool) -> (r: &'static str)
    ensures
        r@ == yes_no(b),
{
    if b { "yes" } else { "no" }
}

/// The header line of the alarm table.
pub fn alarm_table_header() -> (r: String)
    ensures
        r@ == alarm_table_header_text(),
{
    let mut s = String::new();
    push_left_aligned(&mut s, "Slot", 6);
    s.append(" ");
    push_left_aligned(&mut s, "Enabled", 8);
    s.append(" ");
    push_left_aligned(&mut s, "HH", 3);
    s.append(" ");
    push_left_aligned(&mut s, "MM", 3);
    s.append(" ");
    push_left_aligned(&mut s, "Days", 6);
    s.append(" ");
    push_left_aligned(&mut s, "Snooze", 6);
    proof {
        assert(s@ =~= alarm_table_header_text());
    }
    s
}

/// The line of the alarm table for one slot.
pub fn alarm_table_row(slot: &AlarmSlot) -> (r: String)
    ensures
        r@ == alarm_table_row_text(*slot),
{
    let mut index = String::new();
    push_decimal(&mut index, slot.index as u64);
    let mut s = String::new();
    push_left_aligned(&mut s, index.as_str(), 6);
    s.append(" ");
    push_left_aligned(&mut s, yes_no_str(slot.entry.enabled), 8);
    s.append(" ");
    push_zero_padded(&mut s, slot.entry.hour as u64, 2);
    s.append("   ");
    push_zero_padded(&mut s, slot.entry.minute as u64, 2);
    s.append("   0x");
    s.append(hex_digit_str(slot.entry.repeat_mask / 16));
    s.append(hex_digit_str(slot.entry.repeat_mask % 16));
    s.append("  ");
    s.append(yes_no_str(slot.entry.snooze));
    proof {
        assert(s@ =~= alarm_table_row_text(*slot));
    }
    s
}

/// The lines that `alarm-list` prints: a note when no alarm is set, else the header and one line
/// per slot.
pub fn alarm_table(slots: &[AlarmSlot]) -> (r: Vec<String>)
    ensures
        slots@.len() == 0 ==> r@.len() == 1 && r@[0]@ == "No alarms set."@,
        slots@.len() > 0 ==> r@.len() == slots@.len() + 1 && r@[0]@ == alarm_table_header_text()
            && forall|i: int| 0 <= i < slots@.len() ==> #[trigger] r@[i + 1]@ == alarm_table_row_text(slots@[i]),
{
    let mut r: Vec<String> = Vec::new();
    if slots.len() == 0 {
        r.push(String::from_str("No alarms set."));
        return r;
    }
    r.push(alarm_table_header());
    let mut i: usize = 0;
    while i < slots.len()
        invariant
            i <= slots@.len(),
            r@.len() == i + 1,
            r@[0]@ == alarm_table_header_text(),
            forall|j: int| 0 <= j < i ==> #[trigger] r@[j + 1]@ == alarm_table_row_text(slots@[j]),
        decreases slots@.len() - i,
    {
        r.push(alarm_table_row(&slots[i]));
        i = i + 1;
    }
    r
}

} // verus!
