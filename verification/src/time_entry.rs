//! The `HH:MM` time field: reading it, writing it, and what each key press does to it.

use vstd::prelude::*;
use vstd::string::{StringExecFns, StrSliceExecFns, StringSliceAdditionalSpecFns};
use crate::text::{parse_unsigned, parse_unsigned_bytes, two_digits, push_two_digits, ascii_bytes, lemma_two_digits_bytes, lemma_parse_digit_run};

verus! {

/// The byte of `:`.
pub open spec fn colon() -> u8 { 58 }

/// The number of `:` bytes in a text.
pub open spec fn colon_count(b: Seq<u8>) -> nat
    decreases b.len(),
{
    if b.len() == 0 {
        0
    } else {
        (if b.last() == colon() { 1nat } else { 0nat }) + colon_count(b.drop_last())
    }
}

/// The position of the first `:` in a text, or its length where there is none.
pub open spec fn colon_position(b: Seq<u8>) -> nat
    decreases b.len(),
{
    if b.len() == 0 || b[0] == colon() { 0 } else { 1 + colon_position(b.drop_first()) }
}

/// The time that a text holds: exactly two parts separated by one `:`, each an unsigned
/// integer of at most 255 as the standard library reads one, the first at most 23 and the
/// second at most 59.
pub open spec fn time_of_text(b: Seq<u8>) -> Option<(u8, u8)> {
    if colon_count(b) != 1 {
        None
    } else {
        let p = colon_position(b) as int;
        match (parse_unsigned(b.take(p), 255), parse_unsigned(b.skip(p + 1), 255)) {
            (Ok(h), Ok(m)) => if h <= 23 && m <= 59 { Some((h as u8, m as u8)) } else { None },
            _ => None,
        }
    }
}

/// The text that shows a time: `HH:MM`.
pub open spec fn time_text(hour: u8, minute: u8) -> Seq<char> {
    two_digits(hour as nat) + seq![':'] + two_digits(minute as nat)
}

proof fn lemma_colon_count_prefix(b: Seq<u8>, i: int)
    requires
        0 <= i < b.len(),
    ensures
        colon_count(b.take(i + 1)) == colon_count(b.take(i)) + (if b[i] == colon() { 1nat } else { 0nat }),
{
    assert(b.take(i + 1).drop_last() =~= b.take(i));
}

proof fn lemma_colon_count_append(a: Seq<u8>, c: Seq<u8>)
    ensures
        colon_count(a + c) == colon_count(a) + colon_count(c),
    decreases c.len(),
{
    if c.len() == 0 {
        assert(a + c =~= a);
    } else {
        assert((a + c).drop_last() =~= a + c.drop_last());
        lemma_colon_count_append(a, c.drop_last());
    }
}

proof fn lemma_colon_position(b: Seq<u8>, k: int)
    requires
        0 <= k <= b.len(),
        forall|j: int| 0 <= j < k ==> #[trigger] b[j] != colon(),
        k == b.len() || b[k] == colon(),
    ensures
        colon_position(b) == k,
    decreases k,
{
    if k > 0 {
        assert forall|j: int| 0 <= j < k - 1 implies #[trigger] b.drop_first()[j] != colon() by {
            assert(b.drop_first()[j] == b[j + 1]);
        }
        lemma_colon_position(b.drop_first(), k - 1);
    }
}

/// Parse `text` as `HH:MM`, returning `Some((hour, minute))` if valid.
pub fn validate_and_parse(text: &str) -> (r: Option<(u8, u8)>)
    ensures
        r == time_of_text(text.spec_bytes()),
{
    let b = text.as_bytes();
    let n = b.len();
    let mut count: usize = 0;
    let mut first: usize = n;
    let mut i: usize = 0;
    while i < n
        invariant
            i <= n,
            n == b@.len(),
            count as nat == colon_count(b@.take(i as int)),
            count <= i,
            count == 0 ==> first == n && forall|j: int| 0 <= j < i ==> #[trigger] b@[j] != colon(),
            count > 0 ==> first < i && b@[first as int] == colon()
                && forall|j: int| 0 <= j < first ==> #[trigger] b@[j] != colon(),
        decreases n - i,
    {
        proof {
            lemma_colon_count_prefix(b@, i as int);
        }
        if b[i] == 58 {
            if count == 0 {
                first = i;
            }
            count = count + 1;
        }
        i = i + 1;
    }
    proof {
        assert(b@.take(n as int) =~= b@);
    }
    if count != 1 {
        return None;
    }
    proof {
        lemma_colon_position(b@, first as int);
    }
    let hour_part = &b[0..first];
    let minute_part = &b[first + 1..n];
    proof {
        assert(hour_part@ =~= b@.take(first as int));
        assert(minute_part@ =~= b@.skip(first as int + 1));
    }
    let h = match parse_unsigned_bytes(hour_part, 255) {
        Ok(h) => h,
        Err(_) => return None,
    };
    let m = match parse_unsigned_bytes(minute_part, 255) {
        Ok(m) => m,
        Err(_) => return None,
    };
    if h > 23 || m > 59 {
        return None;
    }
    Some((h as u8, m as u8))
}

/// Check whether `text` matches `HH:MM` with valid ranges.
pub fn validate(text: &str) -> (r: bool)
    ensures
        r == (time_of_text(text.spec_bytes()) is Some),
{
    validate_and_parse(text).is_some()
}

/// The text that shows a time: `HH:MM`, each part with at least two digits.
pub fn format_time(hour: u8, minute: u8) -> (r: String)
    ensures
        r@ == time_text(hour, minute),
{
    let mut s = String::new();
    push_two_digits(&mut s, hour as u64);
    s.append(":");
    proof {
        reveal_strlit(":");
    }
    push_two_digits(&mut s, minute as u64);
    proof {
        assert(s@ =~= time_text(hour, minute));
    }
    s
}

} // verus!

verus! {

/// A key pressed in the time field.
#[derive(Debug, Clone, Copy, PartialEq, Eq, Structural)]
pub enum TimeKey {
    /// A key that types the decimal digit (0–9).
    Digit(u8),
    /// Arrow up.
    Up,
    /// Arrow down.
    Down,
    /// Tab, forward or backward.
    Tab,
    /// Arrow left or right.
    LeftRight,
    /// Any other key.
    Other,
}

/// What the time field does with a key press.
#[derive(Debug, Clone, Copy, PartialEq, Eq, Structural)]
pub enum KeyAction {
    /// Swallow the key and change nothing.
    Stop,
    /// Show `HH:MM` for the given time and put the cursor at the given position.
    SetTime { hour: u8, minute: u8, cursor: i32 },
    /// Move the cursor to the given position.
    MoveCursor(i32),
    /// Let the field handle the key as usual.
    Proceed,
}

/// The value of a decimal digit character, or 0 where the position holds no digit.
pub open spec fn digit_at(text: Seq<char>, i: int) -> nat {
    if 0 <= i < text.len() && '0' <= text[i] <= '9' { (text[i] as nat - '0' as nat) as nat } else { 0 }
}

/// The time shown in the field, or midnight where the text is not a valid time.
pub open spec fn shown_time(b: Seq<u8>) -> (u8, u8) {
    match time_of_text(b) {
        Some(t) => t,
        None => (0, 0),
    }
}

/// What a key press does to a field showing `text` with the cursor at `cursor`.
///
/// A digit overwrites the digit under the cursor (the cursor on the colon counts as the first
/// minute digit) and moves past it: the first hour digit must be 0–2, the hour must stay at
/// most 23, the first minute digit must be 0–5 and the minute at most 59, or the key is
/// swallowed. Up and down step the hour (cursor in the hour part, positions 0–2) or the minute,
/// wrapping around; tab jumps between the hour and the minute part; left and right move as
/// usual; every other key is swallowed.
pub open spec fn key_action(text: Seq<char>, bytes: Seq<u8>, cursor: i32, key: TimeKey) -> KeyAction {
    let (hour, minute) = shown_time(bytes);
    match key {
        TimeKey::Digit(d) => {
            let pos: int = if cursor == 2 { 3 } else { cursor as int };
            if pos == 0 {
                if d > 2 {
                    KeyAction::Stop
                } else {
                    KeyAction::SetTime { hour: (d * 10 + digit_at(text, 1)) as u8, minute, cursor: 1 }
                }
            } else if pos == 1 {
                let h = digit_at(text, 0) * 10 + d;
                if h > 23 { KeyAction::Stop } else { KeyAction::SetTime { hour: h as u8, minute, cursor: 3 } }
            } else if pos == 3 {
                if d > 5 {
                    KeyAction::Stop
                } else {
                    KeyAction::SetTime { hour, minute: (d * 10 + digit_at(text, 4)) as u8, cursor: 4 }
                }
            } else if pos == 4 {
                let m = digit_at(text, 3) * 10 + d;
                if m > 59 { KeyAction::Stop } else { KeyAction::SetTime { hour, minute: m as u8, cursor: 5 } }
            } else {
                KeyAction::Stop
            }
        },
        TimeKey::Up => if cursor <= 2 {
            KeyAction::SetTime { hour: ((hour + 1) % 24) as u8, minute, cursor }
        } else {
            KeyAction::SetTime { hour, minute: ((minute + 1) % 60) as u8, cursor }
        },
        TimeKey::Down => if cursor <= 2 {
            KeyAction::SetTime { hour: if hour == 0 { 23 } else { (hour - 1) as u8 }, minute, cursor }
        } else {
            KeyAction::SetTime { hour, minute: if minute == 0 { 59 } else { (minute - 1) as u8 }, cursor }
        },
        TimeKey::Tab => if cursor <= 2 { KeyAction::MoveCursor(3) } else { KeyAction::MoveCursor(0) },
        TimeKey::LeftRight => KeyAction::Proceed,
        TimeKey::Other => KeyAction::Stop,
    }
}

/// The value of the digit at character position `i` of `text`, or 0.
fn digit_at_exec(text: &str, len: usize, i: usize) -> (r: u8)
    requires
        len == text@.len(),
    ensures
        r as nat == digit_at(text@, i as int),
        r <= 9,
{
    if i < len {
        let c = text.get_char(i);
        if '0' <= c && c <= '9' {
            return (c as u32 - '0' as u32) as u8;
        }
    }
    0
}

/// Decide what a key press does to the field showing `text` with the cursor at `cursor`.
pub fn handle_key(text: &str, cursor: i32, key: TimeKey) -> (r: KeyAction)
    requires
        key matches TimeKey::Digit(d) ==> d <= 9,
    ensures
        r == key_action(text@, text.spec_bytes(), cursor, key),
{
    let (hour, minute) = match validate_and_parse(text) {
        Some(t) => t,
        None => (0u8, 0u8),
    };
    let len = text.unicode_len();
    match key {
        TimeKey::Digit(d) => {
            if cursor == 0 {
                if d > 2 {
                    return KeyAction::Stop;
                }
                let h_ones = digit_at_exec(text, len, 1);
                KeyAction::SetTime { hour: d * 10 + h_ones, minute, cursor: 1 }
            } else if cursor == 1 {
                let h_tens = digit_at_exec(text, len, 0);
                let h = h_tens * 10 + d;
                if h > 23 {
                    return KeyAction::Stop;
                }
                KeyAction::SetTime { hour: h, minute, cursor: 3 }
            } else if cursor == 2 || cursor == 3 {
                if d > 5 {
                    return KeyAction::Stop;
                }
                let m_ones = digit_at_exec(text, len, 4);
                KeyAction::SetTime { hour, minute: d * 10 + m_ones, cursor: 4 }
            } else if cursor == 4 {
                let m_tens = digit_at_exec(text, len, 3);
                let m = m_tens * 10 + d;
                if m > 59 {
                    return KeyAction::Stop;
                }
                KeyAction::SetTime { hour, minute: m, cursor: 5 }
            } else {
                KeyAction::Stop
            }
        },
        TimeKey::Up => {
            if cursor <= 2 {
                KeyAction::SetTime { hour: (hour + 1) % 24, minute, cursor }
            } else {
                KeyAction::SetTime { hour, minute: (minute + 1) % 60, cursor }
            }
        },
        TimeKey::Down => {
            if cursor <= 2 {
                KeyAction::SetTime { hour: if hour == 0 { 23 } else { hour - 1 }, minute, cursor }
            } else {
                KeyAction::SetTime { hour, minute: if minute == 0 { 59 } else { minute - 1 }, cursor }
            }
        },
        TimeKey::Tab => {
            if cursor <= 2 {
                KeyAction::MoveCursor(3)
            } else {
                KeyAction::MoveCursor(0)
            }
        },
        TimeKey::LeftRight => KeyAction::Proceed,
        TimeKey::Other => KeyAction::Stop,
    }
}

} // verus!

verus! {

/// A valid time written as `HH:MM` reads back as the same time.
pub proof fn law_time_text_roundtrip(hour: u8, minute: u8)
    requires
        hour <= 23,
        minute <= 59,
    ensures
        time_of_text(crate::text::ascii_bytes(time_text(hour, minute))) == Some((hour, minute)),
{
    lemma_two_digits_bytes(hour as nat);
    lemma_two_digits_bytes(minute as nat);
    let hb = ascii_bytes(two_digits(hour as nat));
    let mb = ascii_bytes(two_digits(minute as nat));
    let b = ascii_bytes(time_text(hour, minute));
    assert(b =~= hb + seq![colon()] + mb);
    let p = hb.len() as int;
    assert forall|j: int| 0 <= j < p implies #[trigger] b[j] != colon() by {
        assert(b[j] == hb[j]);
    }
    lemma_colon_position(b, p);
    assert(b.take(p) =~= hb);
    assert(b.skip(p + 1) =~= mb);
    assert(colon_count(hb) == 0) by { lemma_no_colon(hb); }
    assert(colon_count(mb) == 0) by { lemma_no_colon(mb); }
    lemma_colon_count_append(hb, seq![colon()]);
    lemma_colon_count_append(hb + seq![colon()], mb);
    assert(colon_count(seq![colon()]) == 1) by {
        assert(seq![colon()].drop_last() =~= Seq::<u8>::empty());
        assert(seq![colon()].last() == colon());
        assert(colon_count(Seq::<u8>::empty()) == 0);
    }
    lemma_parse_digit_run(hb, 255);
    lemma_parse_digit_run(mb, 255);
}

/// A run of digits holds no colon.
proof fn lemma_no_colon(s: Seq<u8>)
    requires
        forall|i: int| 0 <= i < s.len() ==> crate::text::is_digit(#[trigger] s[i]),
    ensures
        colon_count(s) == 0,
    decreases s.len(),
{
    if s.len() > 0 {
        assert forall|i: int| 0 <= i < s.drop_last().len() implies crate::text::is_digit(#[trigger] s.drop_last()[i]) by {
            assert(s.drop_last()[i] == s[i]);
        }
        lemma_no_colon(s.drop_last());
    }
}

/// Every time that a key writes into the field is a valid time, except a digit typed at the
/// first hour position, which keeps the second hour digit and may give an hour up to 29.
pub proof fn law_keys_write_valid_times(text: Seq<char>, bytes: Seq<u8>, cursor: i32, key: TimeKey)
    requires
        key matches TimeKey::Digit(d) ==> d <= 9,
        !(key is Digit && cursor == 0),
    ensures
        key_action(text, bytes, cursor, key) matches KeyAction::SetTime { hour, minute, .. }
            ==> hour <= 23 && minute <= 59,
{
}

/// Stepping a valid time up and then down with the cursor in the same place gives back the
/// time that was shown.
#[verifier::rlimit(40)]
pub proof fn law_up_then_down(hour: u8, minute: u8, cursor: i32)
    requires
        hour <= 23,
        minute <= 59,
    ensures
        key_action(time_text(hour, minute), ascii_bytes(time_text(hour, minute)), cursor, TimeKey::Up)
            matches KeyAction::SetTime { hour: h2, minute: m2, cursor: c2 }
            && key_action(time_text(h2, m2), ascii_bytes(time_text(h2, m2)), c2, TimeKey::Down)
                == (KeyAction::SetTime { hour, minute, cursor }),
{
    law_time_text_roundtrip(hour, minute);
    if cursor <= 2 {
        law_time_text_roundtrip(((hour + 1) % 24) as u8, minute);
    } else {
        law_time_text_roundtrip(hour, ((minute + 1) % 60) as u8);
    }
}

/// Stepping a valid time down and then up with the cursor in the same place gives back the
/// time that was shown.
#[verifier::rlimit(40)]
pub proof fn law_down_then_up(hour: u8, minute: u8, cursor: i32)
    requires
        hour <= 23,
        minute <= 59,
    ensures
        key_action(time_text(hour, minute), ascii_bytes(time_text(hour, minute)), cursor, TimeKey::Down)
            matches KeyAction::SetTime { hour: h2, minute: m2, cursor: c2 }
            && key_action(time_text(h2, m2), ascii_bytes(time_text(h2, m2)), c2, TimeKey::Up)
                == (KeyAction::SetTime { hour, minute, cursor }),
{
    law_time_text_roundtrip(hour, minute);
    if cursor <= 2 {
        law_time_text_roundtrip(if hour == 0 { 23 } else { (hour - 1) as u8 }, minute);
    } else {
        law_time_text_roundtrip(hour, if minute == 0 { 59 } else { (minute - 1) as u8 });
    }
}

} // verus!
