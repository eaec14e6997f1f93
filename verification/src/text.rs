//! Decimal text: parsing unsigned integers from bytes and writing numbers as characters.

use vstd::prelude::*;
use vstd::string::{StringExecFns, StrSliceExecFns};

verus! {

/// The character of a decimal digit.
pub open spec fn digit_char(d: nat) -> char {
    if d == 0 { '0' }
    else if d == 1 { '1' }
    else if d == 2 { '2' }
    else if d == 3 { '3' }
    else if d == 4 { '4' }
    else if d == 5 { '5' }
    else if d == 6 { '6' }
    else if d == 7 { '7' }
    else if d == 8 { '8' }
    else { '9' }
}

/// The decimal representation of `n`, without sign or leading zeros.
pub open spec fn decimal(n: nat) -> Seq<char>
    decreases n,
{
    if n < 10 {
        seq![digit_char(n)]
    } else {
        decimal(n / 10).push(digit_char(n % 10))
    }
}

/// A one-character string holding the digit `d`.
fn digit_str(d: u8) -> (r: &'static str)
    requires
        d < 10,
    ensures
        r@ == seq![digit_char(d as nat)],
{
    proof {
        reveal_strlit("0");
        reveal_strlit("1");
        reveal_strlit("2");
        reveal_strlit("3");
        reveal_strlit("4");
        reveal_strlit("5");
        reveal_strlit("6");
        reveal_strlit("7");
        reveal_strlit("8");
        reveal_strlit("9");
    }
    match d {
        0 => "0",
        1 => "1",
        2 => "2",
        3 => "3",
        4 => "4",
        5 => "5",
        6 => "6",
        7 => "7",
        8 => "8",
        _ => "9",
    }
}

/// Appends the decimal representation of `n` to `s`.
pub fn push_decimal(s: &mut String, n: u64)
    ensures
        final(s)@ == old(s)@ + decimal(n as nat),
    decreases n,
{
    if n >= 10 {
        push_decimal(s, n / 10);
    }
    let d = (n % 10) as u8;
    s.append(digit_str(d));
    proof {
        assert(decimal(n as nat) == if n < 10 { seq![digit_char(n as nat)] } else { decimal((n / 10) as nat).push(digit_char((n % 10) as nat)) });
    }
}

} // verus!

verus! {

/// Why an unsigned integer could not be read from text.
#[derive(Debug, Clone, Copy, PartialEq, Eq)]
pub enum IntErrorKind {
    /// The text is empty.
    Empty,
    /// The text holds a character that is not a decimal digit.
    InvalidDigit,
    /// The number does not fit in the target type.
    PosOverflow,
}

/// Whether the byte is an ASCII decimal digit.
pub open spec fn is_digit(b: u8) -> bool {
    48 <= b <= 57
}

/// The value of a run of ASCII digits, most significant first.
pub open spec fn digits_value(d: Seq<u8>) -> nat
    decreases d.len(),
{
    if d.len() == 0 {
        0
    } else {
        digits_value(d.drop_last()) * 10 + (d.last() - 48) as nat
    }
}

/// The length of the longest prefix of `d` made of digits.
pub open spec fn digit_prefix_len(d: Seq<u8>) -> nat
    decreases d.len(),
{
    if d.len() == 0 || !is_digit(d[0]) {
        0
    } else {
        1 + digit_prefix_len(d.drop_first())
    }
}

/// The bytes that remain after an optional leading `+`.
pub open spec fn strip_plus(s: Seq<u8>) -> Seq<u8> {
    if s.len() > 0 && s[0] == 43 { s.drop_first() } else { s }
}

/// Reading an unsigned integer of at most `max` from text, as the standard library reads one:
/// an optional `+`, then at least one digit. The digits are read from the left, and the first
/// non-digit, or the first digit after which the value exceeds `max`, decides the error.
pub open spec fn parse_unsigned(s: Seq<u8>, max: nat) -> Result<nat, IntErrorKind> {
    if s.len() == 0 {
        Err(IntErrorKind::Empty)
    } else if s.len() == 1 && (s[0] == 43 || s[0] == 45) {
        Err(IntErrorKind::InvalidDigit)
    } else {
        let d = strip_plus(s);
        let k = digit_prefix_len(d);
        if digits_value(d.take(k as int)) > max {
            Err(IntErrorKind::PosOverflow)
        } else if k < d.len() {
            Err(IntErrorKind::InvalidDigit)
        } else {
            Ok(digits_value(d))
        }
    }
}

proof fn lemma_digit_prefix(d: Seq<u8>, i: int)
    requires
        0 <= i <= d.len(),
        forall|j: int| 0 <= j < i ==> is_digit(#[trigger] d[j]),
    ensures
        i <= digit_prefix_len(d),
        i < d.len() && !is_digit(d[i]) ==> digit_prefix_len(d) == i,
        digit_prefix_len(d) <= d.len(),
    decreases i,
{
    if i > 0 {
        lemma_digit_prefix(d.drop_first(), i - 1);
    } else {
        lemma_prefix_len_bound(d);
    }
}

/// Where the first `i` bytes are digits and byte `i` is not, the digit prefix is `i` long.
pub proof fn lemma_digit_prefix_pub(d: Seq<u8>, i: int)
    requires
        0 <= i <= d.len(),
        forall|j: int| 0 <= j < i ==> is_digit(#[trigger] d[j]),
        i == d.len() || !is_digit(d[i]),
    ensures
        digit_prefix_len(d) == i,
{
    lemma_digit_prefix(d, i);
}

proof fn lemma_prefix_len_bound(d: Seq<u8>)
    ensures
        digit_prefix_len(d) <= d.len(),
        digit_prefix_len(d) < d.len() ==> !is_digit(d[digit_prefix_len(d) as int]),
        forall|j: int| 0 <= j < digit_prefix_len(d) ==> is_digit(#[trigger] d[j]),
    decreases d.len(),
{
    if d.len() > 0 && is_digit(d[0]) {
        lemma_prefix_len_bound(d.drop_first());
        assert forall|j: int| 0 <= j < digit_prefix_len(d) implies is_digit(#[trigger] d[j]) by {
            if j > 0 {
                assert(d[j] == d.drop_first()[j - 1]);
            }
        }
    }
}

/// The value of a digit run grows with each digit.
proof fn lemma_digits_value_monotone(d: Seq<u8>, i: int, j: int)
    requires
        0 <= i <= j <= d.len(),
        forall|k: int| 0 <= k < j ==> is_digit(#[trigger] d[k]),
    ensures
        digits_value(d.take(i)) <= digits_value(d.take(j)),
    decreases j - i,
{
    if i < j {
        lemma_digits_value_monotone(d, i, j - 1);
        assert(d.take(j).drop_last() =~= d.take(j - 1));
    }
}

/// Reads an unsigned integer of at most `max` from the bytes of a text.
pub fn parse_unsigned_bytes(s: &[u8], max: u64) -> (r: Result<u64, IntErrorKind>)
    ensures
        match (r, parse_unsigned(s@, max as nat)) {
            (Ok(v), Ok(w)) => v as nat == w,
            (Err(e), Err(f)) => e == f,
            _ => false,
        },
{
    let n = s.len();
    if n == 0 {
        return Err(IntErrorKind::Empty);
    }
    if n == 1 && (s[0] == 43 || s[0] == 45) {
        return Err(IntErrorKind::InvalidDigit);
    }
    let start: usize = if s[0] == 43 { 1 } else { 0 };
    let ghost d = strip_plus(s@);
    proof {
        assert(d =~= s@.subrange(start as int, n as int));
    }
    let mut acc: u64 = 0;
    let mut i: usize = start;
    while i < n
        invariant
            start <= i <= n,
            n == s@.len(),
            n > 0,
            !(n == 1 && (s@[0] == 43 || s@[0] == 45)),
            d == strip_plus(s@),
            d =~= s@.subrange(start as int, n as int),
            forall|k: int| 0 <= k < i - start ==> is_digit(#[trigger] d[k]),
            acc as nat == digits_value(d.take(i - start)),
            acc <= max,
        decreases n - i,
    {
        let b = s[i];
        let ghost k = i - start;
        assert(d[k as int] == b);
        if !(48 <= b && b <= 57) {
            proof {
                lemma_digit_prefix(d, k as int);
                assert(digit_prefix_len(d) == k);
                assert(digits_value(d.take(k as int)) <= max);
                assert(k < d.len());
            }
            return Err(IntErrorKind::InvalidDigit);
        }
        let dig = (b - 48) as u64;
        proof {
            assert(d.take(k + 1).drop_last() =~= d.take(k as int));
            assert(d.take(k + 1).last() == b);
        }
        if dig > max || acc > (max - dig) / 10 {
            proof {
                if dig <= max {
                    assert(acc * 10 + dig > max) by (nonlinear_arith)
                        requires acc > (max - dig) / 10, dig <= max;
                }
                lemma_prefix_len_bound(d);
                lemma_digit_prefix(d, k + 1);
                lemma_digits_value_monotone(d, k + 1, digit_prefix_len(d) as int);
            }
            return Err(IntErrorKind::PosOverflow);
        }
        proof {
            assert(acc * 10 + dig <= max) by (nonlinear_arith)
                requires acc <= (max - dig) / 10, dig <= max;
        }
        acc = acc * 10 + dig;
        i = i + 1;
    }
    proof {
        lemma_digit_prefix(d, d.len() as int);
        assert(d.take(d.len() as int) =~= d);
    }
    Ok(acc)
}

} // verus!

verus! {

/// A number written with at least two digits, padded with a leading zero (`{:02}`).
pub open spec fn two_digits(n: nat) -> Seq<char> {
    if n < 10 { seq!['0'] + decimal(n) } else { decimal(n) }
}

/// Appends `n` written with at least two digits.
pub fn push_two_digits(s: &mut String, n: u64)
    ensures
        final(s)@ == old(s)@ + two_digits(n as nat),
{
    if n < 10 {
        s.append("0");
        proof {
            reveal_strlit("0");
        }
    }
    let ghost mid = s@;
    push_decimal(s, n);
    proof {
        if n < 10 {
            assert(old(s)@ + seq!['0'] + decimal(n as nat) =~= old(s)@ + two_digits(n as nat));
        }
    }
}

} // verus!

verus! {

/// The bytes of a text made of ASCII characters.
pub open spec fn ascii_bytes(s: Seq<char>) -> Seq<u8> {
    s.map_values(|c: char| c as u8)
}

proof fn lemma_digit_char(d: nat)
    requires
        d < 10,
    ensures
        is_digit(digit_char(d) as u8),
        (digit_char(d) as u8 - 48) as nat == d,
        digit_char(d) as u8 != 43,
        digit_char(d) as u8 != 45,
        digit_char(d) as u8 != 58,
{
}

/// The bytes of a decimal representation are digits, and they are worth the number.
pub proof fn lemma_decimal_bytes(n: nat)
    ensures
        ascii_bytes(decimal(n)).len() >= 1,
        forall|i: int| 0 <= i < ascii_bytes(decimal(n)).len() ==> is_digit(#[trigger] ascii_bytes(decimal(n))[i]),
        digits_value(ascii_bytes(decimal(n))) == n,
    decreases n,
{
    let b = ascii_bytes(decimal(n));
    if n < 10 {
        lemma_digit_char(n);
        assert(b.len() == 1);
        assert(b.last() == digit_char(n) as u8);
        assert(b.drop_last() =~= Seq::<u8>::empty());
        assert(digits_value(Seq::<u8>::empty()) == 0);
        assert(digits_value(b) == digits_value(b.drop_last()) * 10 + (b.last() - 48) as nat);
    } else {
        lemma_decimal_bytes(n / 10);
        lemma_digit_char(n % 10);
        let b0 = ascii_bytes(decimal(n / 10));
        assert(b =~= b0.push(digit_char(n % 10) as u8));
        assert(b.drop_last() =~= b0);
        assert(b.last() == digit_char(n % 10) as u8);
        assert(digits_value(b) == digits_value(b0) * 10 + (n % 10));
        assert forall|i: int| 0 <= i < b.len() implies is_digit(#[trigger] b[i]) by {
            if i < b0.len() {
                assert(b[i] == b0[i]);
            }
        }
    }
}

/// A leading zero does not change the value of a digit run.
pub proof fn lemma_leading_zero(s: Seq<u8>)
    ensures
        digits_value(seq![48u8] + s) == digits_value(s),
    decreases s.len(),
{
    if s.len() > 0 {
        assert((seq![48u8] + s).drop_last() =~= seq![48u8] + s.drop_last());
        assert((seq![48u8] + s).last() == s.last());
        lemma_leading_zero(s.drop_last());
        assert(digits_value(seq![48u8] + s) == digits_value(seq![48u8] + s.drop_last()) * 10 + (s.last() - 48) as nat);
    } else {
        assert((seq![48u8] + s).drop_last() =~= Seq::<u8>::empty());
        assert((seq![48u8] + s).last() == 48u8);
        assert(digits_value(Seq::<u8>::empty()) == 0);
        assert(s =~= Seq::<u8>::empty());
    }
}

/// Reading back a run of digits that is worth at most `max` gives its value.
pub proof fn lemma_parse_digit_run(s: Seq<u8>, max: nat)
    requires
        s.len() >= 1,
        forall|i: int| 0 <= i < s.len() ==> is_digit(#[trigger] s[i]),
        digits_value(s) <= max,
    ensures
        parse_unsigned(s, max) == Ok::<nat, IntErrorKind>(digits_value(s)),
{
    assert(strip_plus(s) == s);
    lemma_digit_prefix_pub(s, s.len() as int);
    assert(s.take(s.len() as int) =~= s);
}

/// Reading back the bytes of two digits of a number gives the number.
pub proof fn lemma_two_digits_bytes(n: nat)
    ensures
        ascii_bytes(two_digits(n)).len() >= 1,
        forall|i: int| 0 <= i < ascii_bytes(two_digits(n)).len() ==> is_digit(#[trigger] ascii_bytes(two_digits(n))[i]),
        digits_value(ascii_bytes(two_digits(n))) == n,
{
    lemma_decimal_bytes(n);
    if n < 10 {
        let b = ascii_bytes(decimal(n));
        assert(ascii_bytes(two_digits(n)) =~= seq![48u8] + b);
        lemma_leading_zero(b);
        assert forall|i: int| 0 <= i < ascii_bytes(two_digits(n)).len() implies is_digit(#[trigger] ascii_bytes(two_digits(n))[i]) by {
            if i > 0 {
                assert(ascii_bytes(two_digits(n))[i] == b[i - 1]);
            }
        }
    }
}

} // verus!

verus! {

/// `count` copies of the character `c`.
pub open spec fn repeat_char(c: char, count: nat) -> Seq<char> {
    Seq::new(count, |i: int| c)
}

/// `n` in decimal, with zeros in front up to `width` characters, as `{:0width$}` writes it.
pub open spec fn zero_padded(n: nat, width: nat) -> Seq<char> {
    let d = decimal(n);
    if d.len() >= width { d } else { repeat_char('0', (width - d.len()) as nat) + d }
}

/// `text` with spaces after it up to `width` characters, as `{:<width$}` writes it.
pub open spec fn left_aligned(text: Seq<char>, width: nat) -> Seq<char> {
    if text.len() >= width { text } else { text + repeat_char(' ', (width - text.len()) as nat) }
}

/// The number of decimal digits of `n`.
pub fn decimal_len(n: u64) -> (r: usize)
    ensures
        r == decimal(n as nat).len(),
{
    let mut m = n;
    let mut count: usize = 1;
    proof {
        lemma_decimal_len_bound(n);
    }
    while m >= 10
        invariant
            count + decimal(m as nat).len() == decimal(n as nat).len() + 1,
            count <= 20,
            count >= 1,
            m <= n,
            count + decimal(m as nat).len() <= 21,
        decreases m,
    {
        m = m / 10;
        count = count + 1;
    }
    count
}

/// A 64-bit number has at most 20 decimal digits.
proof fn lemma_decimal_len_bound(n: u64)
    ensures
        decimal(n as nat).len() <= 20,
{
    reveal_with_fuel(pow10, 21);
    assert(pow10(20) == 100000000000000000000nat);
    lemma_decimal_len_below(n as nat, 20);
}

/// A number below `10^k` has at most `k` decimal digits.
proof fn lemma_decimal_len_below(n: nat, k: nat)
    requires
        k >= 1,
        n < pow10(k),
    ensures
        decimal(n).len() <= k,
    decreases k,
{
    if n >= 10 {
        assert(k > 1) by {
            if k == 1 {
                assert(pow10(1) == 10 * pow10(0));
            }
        }
        assert(n / 10 < pow10((k - 1) as nat)) by {
            assert(pow10(k) == 10 * pow10((k - 1) as nat));
        }
        lemma_decimal_len_below(n / 10, (k - 1) as nat);
    }
}

/// Ten to the power `k`.
pub open spec fn pow10(k: nat) -> nat
    decreases k,
{
    if k == 0 { 1 } else { 10 * pow10((k - 1) as nat) }
}

/// Appends `count` copies of the character of a one-character string.
fn push_repeated(s: &mut String, piece: &str, count: usize)
    requires
        piece@.len() == 1,
    ensures
        final(s)@ == old(s)@ + repeat_char(piece@[0], count as nat),
{
    let ghost start = s@;
    let mut i: usize = 0;
    while i < count
        invariant
            i <= count,
            piece@.len() == 1,
            s@ == start + repeat_char(piece@[0], i as nat),
        decreases count - i,
    {
        s.append(piece);
        proof {
            assert(repeat_char(piece@[0], (i + 1) as nat) =~= repeat_char(piece@[0], i as nat) + piece@);
        }
        i = i + 1;
    }
}

/// Appends `n` in decimal with zeros in front up to `width` characters.
pub fn push_zero_padded(s: &mut String, n: u64, width: usize)
    ensures
        final(s)@ == old(s)@ + zero_padded(n as nat, width as nat),
{
    let len = decimal_len(n);
    if len < width {
        proof {
            reveal_strlit("0");
        }
        push_repeated(s, "0", width - len);
    }
    push_decimal(s, n);
    proof {
        assert(final(s)@ =~= old(s)@ + zero_padded(n as nat, width as nat));
    }
}

/// Appends `text` with spaces after it up to `width` characters.
pub fn push_left_aligned(s: &mut String, text: &str, width: usize)
    ensures
        final(s)@ == old(s)@ + left_aligned(text@, width as nat),
{
    let len = text.unicode_len();
    s.append(text);
    if len < width {
        proof {
            reveal_strlit(" ");
        }
        push_repeated(s, " ", width - len);
    }
    proof {
        assert(final(s)@ =~= old(s)@ + left_aligned(text@, width as nat));
    }
}

} // verus!
