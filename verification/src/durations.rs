//! Reading durations given on the command line: plain seconds or ISO 8601 durations.

use vstd::prelude::*;
use vstd::string::StringSliceAdditionalSpecFns;
use crate::text::{IntErrorKind, parse_unsigned, parse_unsigned_bytes, ascii_bytes, decimal, lemma_decimal_bytes, lemma_parse_digit_run, is_digit};
use crate::iso_duration::{iso_duration_seconds, parse_iso_duration_to_seconds};

verus! {

/// The message that the standard library gives for each way reading an integer fails.
pub open spec fn int_error_message(k: IntErrorKind) -> Seq<char> {
    match k {
        IntErrorKind::Empty => "cannot parse integer from empty string"@,
        IntErrorKind::InvalidDigit => "invalid digit found in string"@,
        IntErrorKind::PosOverflow => "number too large to fit in target type"@,
    }
}

/// The reason given when a duration text starting with `P` is not a valid ISO 8601 duration.
pub open spec fn invalid_iso_reason() -> Seq<char> {
    "invalid ISO 8601 duration"@
}

/// The number of seconds that a duration text stands for, or the reason why it stands for
/// none: a text whose first byte is `P` is read as an ISO 8601 duration, any other as a
/// decimal number of seconds.
pub open spec fn duration_text_seconds(s: Seq<u8>) -> Result<nat, Seq<char>> {
    if s.len() > 0 && s[0] == 80 {
        match iso_duration_seconds(s) {
            Some(n) => Ok(n),
            None => Err(invalid_iso_reason()),
        }
    } else {
        match parse_unsigned(s, u64::MAX as nat) {
            Ok(n) => Ok(n),
            Err(k) => Err(int_error_message(k)),
        }
    }
}

/// The message for a failed integer read, as a string.
pub fn int_error_text(k: IntErrorKind) -> (r: String)
    ensures
        r@ == int_error_message(k),
{
    match k {
        IntErrorKind::Empty => "cannot parse integer from empty string".to_owned(),
        IntErrorKind::InvalidDigit => "invalid digit found in string".to_owned(),
        IntErrorKind::PosOverflow => "number too large to fit in target type".to_owned(),
    }
}

/// Reads a duration text as a number of seconds; on failure gives the reason.
pub fn read_duration_seconds(s: &str) -> (r: Result<u64, String>)
    ensures
        match r {
            Ok(n) => duration_text_seconds(s.spec_bytes()) == Ok::<nat, Seq<char>>(n as nat),
            Err(reason) => duration_text_seconds(s.spec_bytes()) == Err::<nat, Seq<char>>(reason@),
        },
{
    let b = s.as_bytes();
    if b.len() > 0 && b[0] == 80 {
        match parse_iso_duration_to_seconds(s) {
            Some(n) => Ok(n),
            None => Err("invalid ISO 8601 duration".to_owned()),
        }
    } else {
        match parse_unsigned_bytes(b, u64::MAX) {
            Ok(n) => Ok(n),
            Err(k) => Err(int_error_text(k)),
        }
    }
}

/// A number of seconds written in decimal reads back as that number.
pub proof fn law_decimal_seconds_read_back(n: u64)
    ensures
        duration_text_seconds(ascii_bytes(decimal(n as nat))) == Ok::<nat, Seq<char>>(n as nat),
{
    let b = ascii_bytes(decimal(n as nat));
    lemma_decimal_bytes(n as nat);
    lemma_parse_digit_run(b, u64::MAX as nat);
    assert(is_digit(b[0]));
}

} // verus!
