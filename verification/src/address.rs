//! Device addresses as numbers: the library keys its device lists by the 48-bit value of a
//! Bluetooth address written `aa:bb:cc:dd:ee:ff`.

use vstd::prelude::*;
use vstd::string::StringSliceAdditionalSpecFns;

verus! {

/// The value of an ASCII hexadecimal digit, either case.
pub open spec fn hex_value(c: u8) -> Option<nat> {
    if 48 <= c <= 57 {
        Some((c - 48) as nat)
    } else if 97 <= c <= 102 {
        Some((c - 87) as nat)
    } else if 65 <= c <= 70 {
        Some((c - 55) as nat)
    } else {
        None
    }
}

/// Whether the text is six pairs of hexadecimal digits separated by colons.
pub open spec fn is_address_text(b: Seq<u8>) -> bool {
    &&& b.len() == 17
    &&& forall|i: int| 0 <= i < 17 ==> (if i % 3 == 2 { #[trigger] b[i] == 58 } else { hex_value(b[i]) is Some })
}

/// The value of the `g`-th pair of digits.
pub open spec fn pair_value(b: Seq<u8>, g: int) -> nat {
    hex_value(b[3 * g])->0 * 16 + hex_value(b[3 * g + 1])->0
}

/// The value of the first `k` pairs, the first pair most significant.
pub open spec fn pairs_value(b: Seq<u8>, k: nat) -> nat
    decreases k,
{
    if k == 0 { 0 } else { pairs_value(b, (k - 1) as nat) * 256 + pair_value(b, k - 1) }
}

/// The 48-bit value of an address text, `None` where the text is no address.
pub open spec fn address_value(b: Seq<u8>) -> Option<u64> {
    if is_address_text(b) { Some(pairs_value(b, 6) as u64) } else { None }
}

/// 256 to the power `k`.
pub open spec fn pow256(k: nat) -> nat
    decreases k,
{
    if k == 0 { 1 } else { pow256((k - 1) as nat) * 256 }
}

/// The value of a hexadecimal digit byte.
fn hex_digit_value(c: u8) -> (r: Option<u8>)
    ensures
        match hex_value(c) {
            Some(v) => r == Some(v as u8),
            None => r is None,
        },
{
    if 48 <= c && c <= 57 {
        Some(c - 48)
    } else if 97 <= c && c <= 102 {
        Some(c - 87)
    } else if 65 <= c && c <= 70 {
        Some(c - 55)
    } else {
        None
    }
}

/// The 48-bit value of an address written `aa:bb:cc:dd:ee:ff` (digits in either case), or
/// `None` where the text is no such address.
pub fn address_from_text(text: &str) -> (r: Option<u64>)
    ensures
        r == address_value(text.spec_bytes()),
{
    let b = text.as_bytes();
    proof {
        assert(b@.take(b@.len() as int) =~= b@);
    }
    address_from_prefix(b, b.len())
}

/// The position of the first space in a text, or its length where it has none.
pub open spec fn first_space(b: Seq<u8>) -> nat
    decreases b.len(),
{
    if b.len() == 0 || b[0] == 32 { 0 } else { 1 + first_space(b.drop_first()) }
}

/// The address that a device list label names: the label up to its first space, which may be
/// followed by the signal strength (`aa:bb:cc:dd:ee:ff (-60 dBm)`).
pub fn address_from_label(label: &str) -> (r: Option<u64>)
    ensures
        r == address_value(label.spec_bytes().take(first_space(label.spec_bytes()) as int)),
{
    let b = label.as_bytes();
    let mut k: usize = 0;
    proof {
        assert(b@.skip(0) =~= b@);
    }
    while k < b.len() && b[k] != 32
        invariant
            k <= b@.len(),
            first_space(b@) == k + first_space(b@.skip(k as int)),
        decreases b@.len() - k,
    {
        proof {
            assert(b@.skip(k as int).drop_first() =~= b@.skip(k as int + 1));
        }
        k = k + 1;
    }
    proof {
        if k < b@.len() {
            assert(b@.skip(k as int)[0] == 32);
        }
    }
    address_from_prefix(b, k)
}

/// The 48-bit value of the address written in the first `len` bytes of `b`.
fn address_from_prefix(b: &[u8], len: usize) -> (r: Option<u64>)
    requires
        len <= b@.len(),
    ensures
        r == address_value(b@.take(len as int)),
{
    if len != 17 {
        return None;
    }
    let ghost bs = b@.take(len as int);
    let mut value: u64 = 0;
    let mut g: usize = 0;
    while g < 6
        invariant
            bs == b@.take(17),
            len == 17,
            b@.len() >= 17,
            bs.len() == 17,
            g <= 6,
            forall|i: int| 0 <= i < 3 * g && i < 17 ==> (if i % 3 == 2 { #[trigger] bs[i] == 58 } else { hex_value(bs[i]) is Some }),
            value == pairs_value(bs, g as nat),
            value < pow256(g as nat),
        decreases 6 - g,
    {
        proof {
            assert(bs[3 * g as int] == b@[3 * g as int]);
            assert(bs[3 * g as int + 1] == b@[3 * g as int + 1]);
            if g < 5 {
                assert(bs[3 * g as int + 2] == b@[3 * g as int + 2]);
            }
        }
        let hi = hex_digit_value(b[3 * g]);
        let lo = hex_digit_value(b[3 * g + 1]);
        if hi.is_none() || lo.is_none() || (g < 5 && b[3 * g + 2] != 58) {
            proof {
                if hi.is_none() {
                    assert((3 * g as int) % 3 == 0);
                    assert(!(hex_value(bs[3 * g as int]) is Some));
                    assert(!is_address_text(bs)) by {
                        if is_address_text(bs) {
                            assert(bs[3 * g as int] == bs[3 * g as int]);
                        }
                    }
                } else if lo.is_none() {
                    assert((3 * g as int + 1) % 3 == 1);
                    assert(!(hex_value(bs[3 * g as int + 1]) is Some));
                    assert(!is_address_text(bs)) by {
                        if is_address_text(bs) {
                            assert(bs[3 * g as int + 1] == bs[3 * g as int + 1]);
                        }
                    }
                } else {
                    assert((3 * g as int + 2) % 3 == 2);
                    assert(bs[3 * g as int + 2] != 58);
                }
                assert(!is_address_text(bs));
            }
            return None;
        }
        let pair = (hi.unwrap() as u64) * 16 + lo.unwrap() as u64;
        proof {
            assert(pair == pair_value(bs, g as int));
            assert(value * 256 + pair < pow256(g as nat) * 256) by (nonlinear_arith)
                requires value < pow256(g as nat), pair < 256;
            assert(pow256(g as nat) <= pow256(5)) by {
                lemma_pow256_mono(g as nat, 5);
            }
            assert(pow256(5) == 1099511627776) by {
                reveal_with_fuel(pow256, 6);
            }
            assert forall|i: int| 0 <= i < 3 * (g + 1) && i < 17 implies
                (if i % 3 == 2 { #[trigger] bs[i] == 58 } else { hex_value(bs[i]) is Some }) by {
                if i >= 3 * g {
                    assert(i == 3 * g || i == 3 * g + 1 || i == 3 * g + 2);
                }
            }
        }
        value = value * 256 + pair;
        g = g + 1;
    }
    proof {
        assert(is_address_text(bs));
    }
    Some(value)
}

proof fn lemma_pow256_mono(a: nat, b: nat)
    requires
        a <= b,
    ensures
        pow256(a) <= pow256(b),
    decreases b,
{
    if a < b {
        lemma_pow256_mono(a, (b - 1) as nat);
        assert(pow256(b) == pow256((b - 1) as nat) * 256);
    }
}

} // verus!
