//! Signatures for custom ringtone files.

use vstd::prelude::*;
use std::collections::hash_map::DefaultHasher;
use std::hash::Hash;
use std::hash::Hasher;
use vstd::string::StrSliceExecFns;

verus! {

/// The first four bytes of `h` in little-endian order.
pub open spec fn low_bytes(h: u64) -> Seq<u8> {
    seq![(h % 256) as u8, ((h / 256) % 256) as u8, ((h / 65536) % 256) as u8, ((h / 16777216) % 256) as u8]
}

/// Feeds a string into a hasher with `str`'s `Hash` implementation.
///
/// Nothing is claimed of the hasher's state afterwards: `DefaultHasher`'s algorithm is left
/// unspecified by its documentation and may change between Rust releases.
#[verifier::external_body]
fn hash_str(hasher: &mut DefaultHasher, s: &str) {
    s.hash(hasher);
}

/// Feeds a 64-bit number into a hasher with `u64`'s `Hash` implementation.
///
/// Nothing is claimed of the hasher's state afterwards: the bytes fed follow the machine's byte
/// order, and `DefaultHasher`'s algorithm may change between Rust releases.
#[verifier::external_body]
fn hash_u64(hasher: &mut DefaultHasher, x: u64) {
    x.hash(hasher);
}

/// The signature made of the first four little-endian bytes of a hash.
pub fn signature_from_hash(h: u64) -> (r: [u8; 4])
    ensures
        r@ == low_bytes(h),
{
    let r = [(h % 256) as u8, ((h / 256) % 256) as u8, ((h / 65536) % 256) as u8, ((h / 16777216) % 256) as u8];
    assert(r@ =~= low_bytes(h));
    r
}

/// Whether a signature is among the known ones.
pub fn is_known_signature(sig: [u8; 4], known: &[[u8; 4]]) -> (r: bool)
    ensures
        r == exists|i: int| 0 <= i < known@.len() && known@[i]@ == sig@,
{
    let mut i: usize = 0;
    while i < known.len()
        invariant
            i <= known@.len(),
            forall|j: int| 0 <= j < i ==> known@[j]@ != sig@,
        decreases known@.len() - i,
    {
        let k = known[i];
        if k[0] == sig[0] && k[1] == sig[1] && k[2] == sig[2] && k[3] == sig[3] {
            assert(k@ =~= sig@);
            return true;
        }
        assert(k@ != sig@) by {
            if k@ == sig@ {
                assert(k@[0] == sig@[0] && k@[1] == sig@[1] && k@[2] == sig@[2] && k@[3] == sig@[3]);
            }
        }
        i = i + 1;
    }
    false
}

/// The signature that a hash gives, unless it is among the known ones.
pub fn signature_if_unknown(hash: u64, known: &[[u8; 4]]) -> (r: Option<[u8; 4]>)
    ensures
        match r {
            Some(sig) => sig@ == low_bytes(hash) && forall|i: int| 0 <= i < known@.len() ==> known@[i]@ != sig@,
            None => exists|i: int| 0 <= i < known@.len() && known@[i]@ == low_bytes(hash),
        },
{
    let sig = signature_from_hash(hash);
    if is_known_signature(sig, known) {
        None
    } else {
        Some(sig)
    }
}

/// Derive a deterministic 4-byte signature from a filename by hashing.
///
/// Avoids collisions with the known built-in and slot signatures by hashing the name together
/// with an attempt counter, counting up from 0 until the first four bytes of the hash are no
/// known signature. Every attempt is tried; `None` only where all of them collide, which cannot
/// happen where no signature is known: the first attempt then succeeds.
pub fn derive_custom_signature(filename: &str, known: &[[u8; 4]]) -> (r: Option<[u8; 4]>)
    ensures
        r matches Some(sig) ==> forall|i: int| 0 <= i < known@.len() ==> known@[i]@ != sig@,
        known@.len() == 0 ==> r is Some,
{
    let mut attempt: u64 = 0;
    loop
        decreases u64::MAX - attempt,
    {
        let mut hasher = DefaultHasher::new();
        hash_str(&mut hasher, filename);
        hash_u64(&mut hasher, attempt);
        let hash = hasher.finish();
        if let Some(sig) = signature_if_unknown(hash, known) {
            return Some(sig);
        }
        if attempt == u64::MAX {
            return None;
        }
        attempt = attempt + 1;
    }
}

/// A custom ringtone file: its name (the file stem) and the signature derived from it.
#[derive(Debug)]
pub struct CustomRingtone {
    /// The file stem, shown in the ringtone list.
    pub name: String,
    /// The signature under which the device stores it.
    pub signature: [u8; 4],
}

/// Whether text `a` sorts before or equal to `b`: character by character, a prefix first, as
/// `String`'s ordering does.
pub open spec fn text_le(a: Seq<char>, b: Seq<char>) -> bool
    decreases a.len(),
{
    if a.len() == 0 {
        true
    } else if b.len() == 0 {
        false
    } else if a[0] == b[0] {
        text_le(a.drop_first(), b.drop_first())
    } else {
        (a[0] as int) < (b[0] as int)
    }
}

/// Whether the ringtones are sorted by name.
pub open spec fn sorted_by_name(s: Seq<CustomRingtone>) -> bool {
    forall|i: int, j: int| 0 <= i < j < s.len() ==> text_le(#[trigger] s[i].name@, #[trigger] s[j].name@)
}

/// Any two texts are ordered one way or the other.
pub proof fn lemma_text_le_total(a: Seq<char>, b: Seq<char>)
    ensures
        text_le(a, b) || text_le(b, a),
    decreases a.len(),
{
    if a.len() > 0 && b.len() > 0 && a[0] == b[0] {
        lemma_text_le_total(a.drop_first(), b.drop_first());
    }
}

/// Every text sorts before or equal to itself.
pub proof fn lemma_text_le_reflexive(a: Seq<char>)
    ensures
        text_le(a, a),
    decreases a.len(),
{
    if a.len() > 0 {
        lemma_text_le_reflexive(a.drop_first());
    }
}

/// The order on texts is transitive.
pub proof fn lemma_text_le_transitive(a: Seq<char>, b: Seq<char>, c: Seq<char>)
    requires
        text_le(a, b),
        text_le(b, c),
    ensures
        text_le(a, c),
    decreases a.len(),
{
    if a.len() > 0 && b.len() > 0 && c.len() > 0 && a[0] == b[0] && b[0] == c[0] {
        lemma_text_le_transitive(a.drop_first(), b.drop_first(), c.drop_first());
    }
}

/// Whether one text sorts before or equal to another.
pub fn text_less_or_equal(a: &str, b: &str) -> (r: bool)
    ensures
        r == text_le(a@, b@),
{
    let na = a.unicode_len();
    let nb = b.unicode_len();
    let mut i: usize = 0;
    proof {
        assert(a@.skip(0) =~= a@);
        assert(b@.skip(0) =~= b@);
    }
    while i < na && i < nb
        invariant
            na == a@.len(),
            nb == b@.len(),
            i <= na,
            i <= nb,
            text_le(a@, b@) == text_le(a@.skip(i as int), b@.skip(i as int)),
        decreases na - i,
    {
        let ca = a.get_char(i);
        let cb = b.get_char(i);
        if ca != cb {
            return (ca as u32) < (cb as u32);
        }
        proof {
            assert(a@.skip(i as int).drop_first() =~= a@.skip(i as int + 1));
            assert(b@.skip(i as int).drop_first() =~= b@.skip(i as int + 1));
        }
        i = i + 1;
    }
    i == na
}

/// Whether a ringtone has the name `n`.
pub open spec fn has_name(n: Seq<char>) -> spec_fn(CustomRingtone) -> bool {
    |c: CustomRingtone| c.name@ == n
}

/// A filter that keeps nothing gives nothing.
proof fn lemma_filter_none(s: Seq<CustomRingtone>, p: spec_fn(CustomRingtone) -> bool)
    requires
        forall|i: int| 0 <= i < s.len() ==> !p(#[trigger] s[i]),
    ensures
        s.filter(p) == Seq::<CustomRingtone>::empty(),
{
    if s.filter(p).len() > 0 {
        s.lemma_filter_pred(p, 0);
        s.lemma_filter_contains_rev(p, s.filter(p)[0]);
        let j = choose|j: int| 0 <= j < s.len() && s[j] == s.filter(p)[0];
        assert(!p(s[j]));
    }
    assert(s.filter(p) =~= Seq::<CustomRingtone>::empty());
}

/// A one-element sequence keeps its element exactly when it meets the predicate.
proof fn lemma_filter_single(x: CustomRingtone, p: spec_fn(CustomRingtone) -> bool)
    ensures
        seq![x].filter(p) == (if p(x) { seq![x] } else { Seq::<CustomRingtone>::empty() }),
{
    reveal_with_fuel(Seq::filter, 2);
    assert(seq![x].drop_last() =~= Seq::<CustomRingtone>::empty());
    assert(seq![x].last() == x);
    assert(Seq::<CustomRingtone>::empty().push(x) =~= seq![x]);
}

/// Inserting a ringtone after every entry that sorts before or equal to it, and before the first
/// one that does not, keeps a list sorted, and leaves no entry with its name after it.
proof fn lemma_insert_sorted(out0: Seq<CustomRingtone>, k: int, x: CustomRingtone)
    requires
        sorted_by_name(out0),
        0 <= k <= out0.len(),
        forall|j: int| 0 <= j < k ==> text_le(#[trigger] out0[j].name@, x.name@),
        k < out0.len() ==> !text_le(out0[k].name@, x.name@),
    ensures
        sorted_by_name(out0.insert(k, x)),
        forall|j: int| k <= j < out0.len() ==> #[trigger] out0[j].name@ != x.name@,
{
    let out = out0.insert(k, x);
    if k < out0.len() {
        lemma_text_le_total(out0[k].name@, x.name@);
    }
    assert forall|i: int, j: int| 0 <= i < j < out.len() implies
        text_le(#[trigger] out[i].name@, #[trigger] out[j].name@) by {
        if j == k {
            assert(out[i] == out0[i]);
            assert(out[j] == x);
            assert(text_le(out0[i].name@, x.name@));
        } else if i == k {
            assert(out[i] == x);
            assert(out[j] == out0[j - 1]);
            lemma_text_le_reflexive(out0[k].name@);
            if j - 1 > k {
                assert(text_le(out0[k].name@, out0[j - 1].name@));
            }
            lemma_text_le_transitive(x.name@, out0[k].name@, out0[j - 1].name@);
        } else if i < k && j > k {
            assert(out[i] == out0[i]);
            assert(out[j] == out0[j - 1]);
            assert(text_le(out0[i].name@, out0[j - 1].name@));
        } else if j < k {
            assert(out[i] == out0[i]);
            assert(out[j] == out0[j]);
            assert(text_le(out0[i].name@, out0[j].name@));
        } else {
            assert(out[i] == out0[i - 1]);
            assert(out[j] == out0[j - 1]);
            assert(text_le(out0[i - 1].name@, out0[j - 1].name@));
        }
    }
    assert forall|j: int| k <= j < out0.len() implies #[trigger] out0[j].name@ != x.name@ by {
        lemma_text_le_reflexive(x.name@);
        if j > k {
            assert(text_le(out0[k].name@, out0[j].name@));
        }
    }
}

/// The custom ringtones sorted by name; ringtones with equal names keep their order.
pub fn sort_custom_ringtones(entries: Vec<CustomRingtone>) -> (r: Vec<CustomRingtone>)
    ensures
        r@.to_multiset() == entries@.to_multiset(),
        sorted_by_name(r@),
        forall|n: Seq<char>| #[trigger] r@.filter(has_name(n)) == entries@.filter(has_name(n)),
{
    broadcast use vstd::seq_lib::group_to_multiset_ensures;
    broadcast use vstd::multiset::group_multiset_axioms;
    let ghost all = entries@;
    let mut rest = entries;
    let mut out: Vec<CustomRingtone> = Vec::new();
    while rest.len() > 0
        invariant
            out@.to_multiset().add(rest@.to_multiset()) == all.to_multiset(),
            sorted_by_name(out@),
            forall|n: Seq<char>| #[trigger] out@.filter(has_name(n)) + rest@.filter(has_name(n)) == all.filter(has_name(n)),
        decreases rest@.len(),
    {
        let ghost rest0 = rest@;
        let x = rest.remove(0);
        proof {
            vstd::seq_lib::to_multiset_remove(rest0, 0);
        }
        let mut k: usize = 0;
        while k < out.len() && text_less_or_equal(out[k].name.as_str(), x.name.as_str())
            invariant
                k <= out@.len(),
                forall|j: int| 0 <= j < k ==> text_le(#[trigger] out@[j].name@, x.name@),
            decreases out@.len() - k,
        {
            k = k + 1;
        }
        let ghost out0 = out@;
        out.insert(k, x);
        proof {
            vstd::seq_lib::to_multiset_insert(out0, k as int, x);
            assert(rest0[0] == x);
            assert(rest0.contains(x));
            vstd::seq_lib::to_multiset_contains(rest0, x);
            assert(out@.to_multiset().add(rest@.to_multiset()) =~= out0.to_multiset().add(rest0.to_multiset()));
            lemma_insert_sorted(out0, k as int, x);
            assert(out@ =~= out0.take(k as int) + seq![x] + out0.skip(k as int));
            assert(out0 =~= out0.take(k as int) + out0.skip(k as int));
            assert(rest0 =~= seq![x] + rest@);
            assert forall|n: Seq<char>| #[trigger] out@.filter(has_name(n)) + rest@.filter(has_name(n)) == all.filter(has_name(n)) by {
                let p = has_name(n);
                let a = out0.take(k as int);
                let b = out0.skip(k as int);
                Seq::filter_distributes_over_add(a + seq![x], b, p);
                Seq::filter_distributes_over_add(a, seq![x], p);
                Seq::filter_distributes_over_add(a, b, p);
                Seq::filter_distributes_over_add(seq![x], rest@, p);
                lemma_filter_single(x, p);
                assert(out0.filter(p) + rest0.filter(p) == all.filter(p));
                if n == x.name@ {
                    assert forall|i: int| 0 <= i < b.len() implies !p(#[trigger] b[i]) by {
                        assert(b[i] == out0[k + i]);
                    }
                    lemma_filter_none(b, p);
                    assert(out@.filter(p) + rest@.filter(p) =~= out0.filter(p) + rest0.filter(p));
                } else {
                    assert(out@.filter(p) + rest@.filter(p) =~= out0.filter(p) + rest0.filter(p));
                }
            }
        }
    }
    proof {
        assert(rest@.to_multiset() =~= vstd::multiset::Multiset::empty());
        assert forall|n: Seq<char>| #[trigger] out@.filter(has_name(n)) == all.filter(has_name(n)) by {
            assert(rest@ =~= Seq::<CustomRingtone>::empty());
            lemma_filter_none(rest@, has_name(n));
            assert(out@.filter(has_name(n)) + rest@.filter(has_name(n)) == all.filter(has_name(n)));
            assert(out@.filter(has_name(n)) + Seq::<CustomRingtone>::empty() =~= out@.filter(has_name(n)));
        }
    }
    out
}

/// The byte views of a list of signatures.
pub open spec fn signature_views(s: Seq<[u8; 4]>) -> Seq<Seq<u8>> {
    s.map_values(|x: [u8; 4]| x@)
}

/// The order of the ringtone list: the built-in ringtones other than the slots, then the
/// custom ringtones, then the slots.
pub open spec fn ringtone_menu_order(all: Seq<Seq<u8>>, slots: Seq<Seq<u8>>, custom: Seq<Seq<u8>>) -> Seq<Seq<u8>> {
    all.filter(|x: Seq<u8>| !slots.contains(x)) + custom + slots
}

/// The signatures of the ringtone list in display order, from all known signatures, the slot
/// signatures (custom slot A, custom slot B, unused) and the sorted custom ringtones.
pub fn ringtone_menu(all: &[[u8; 4]], slots: &[[u8; 4]], custom: &[CustomRingtone]) -> (r: Vec<[u8; 4]>)
    ensures
        signature_views(r@) == ringtone_menu_order(
            signature_views(all@),
            signature_views(slots@),
            custom@.map_values(|c: CustomRingtone| c.signature@),
        ),
{
    let ghost sv = signature_views(slots@);
    let ghost keep = |x: Seq<u8>| !sv.contains(x);
    let mut r: Vec<[u8; 4]> = Vec::new();
    let mut i: usize = 0;
    while i < all.len()
        invariant
            i <= all@.len(),
            sv == signature_views(slots@),
            keep == (|x: Seq<u8>| !sv.contains(x)),
            signature_views(r@) == signature_views(all@).take(i as int).filter(keep),
        decreases all@.len() - i,
    {
        let sig = all[i];
        let known = is_known_signature(sig, slots);
        proof {
            assert(signature_views(all@).take(i as int + 1).drop_last() =~= signature_views(all@).take(i as int));
            assert(signature_views(all@).take(i as int + 1).last() == sig@);
            reveal_with_fuel(Seq::filter, 1);
            if known {
                let j = choose|j: int| 0 <= j < slots@.len() && slots@[j]@ == sig@;
                assert(sv[j] == sig@);
            } else {
                assert(!sv.contains(sig@)) by {
                    if sv.contains(sig@) {
                        let j = choose|j: int| 0 <= j < sv.len() && sv[j] == sig@;
                        assert(slots@[j]@ == sig@);
                    }
                }
            }
        }
        let ghost before = r@;
        if !known {
            r.push(sig);
            proof {
                assert(signature_views(r@) =~= signature_views(before).push(sig@));
            }
        }
        i = i + 1;
    }
    proof {
        assert(signature_views(all@).take(all@.len() as int) =~= signature_views(all@));
    }
    let ghost filtered = signature_views(r@);
    let mut k: usize = 0;
    while k < custom.len()
        invariant
            k <= custom@.len(),
            signature_views(r@) == filtered + custom@.map_values(|c: CustomRingtone| c.signature@).take(k as int),
        decreases custom@.len() - k,
    {
        let ghost before = r@;
        r.push(custom[k].signature);
        proof {
            assert(signature_views(r@) =~= signature_views(before).push(custom@[k as int].signature@));
            assert(custom@.map_values(|c: CustomRingtone| c.signature@).take(k as int + 1) =~=
                custom@.map_values(|c: CustomRingtone| c.signature@).take(k as int).push(custom@[k as int].signature@));
        }
        k = k + 1;
    }
    proof {
        assert(custom@.map_values(|c: CustomRingtone| c.signature@).take(custom@.len() as int)
            =~= custom@.map_values(|c: CustomRingtone| c.signature@));
    }
    let ghost with_custom = signature_views(r@);
    let mut m: usize = 0;
    while m < slots.len()
        invariant
            m <= slots@.len(),
            sv == signature_views(slots@),
            signature_views(r@) == with_custom + sv.take(m as int),
        decreases slots@.len() - m,
    {
        let ghost before = r@;
        r.push(slots[m]);
        proof {
            assert(signature_views(r@) =~= signature_views(before).push(slots@[m as int]@));
            assert(sv.take(m as int + 1) =~= sv.take(m as int).push(slots@[m as int]@));
        }
        m = m + 1;
    }
    proof {
        assert(sv.take(slots@.len() as int) =~= sv);
        assert(signature_views(r@) =~= ringtone_menu_order(signature_views(all@), sv,
            custom@.map_values(|c: CustomRingtone| c.signature@)));
    }
    r
}

} // verus!
