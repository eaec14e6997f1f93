//! ISO 8601 durations in the form `P[nD][T[nH][nM][nS]]`, read as a number of seconds.

use vstd::prelude::*;
use crate::text::{is_digit, digits_value, digit_prefix_len};
use vstd::string::StringSliceAdditionalSpecFns;

verus! {

/// The designator bytes of the duration format.
pub open spec fn byte_p() -> u8 { 80 }
pub open spec fn byte_t() -> u8 { 84 }
pub open spec fn byte_d() -> u8 { 68 }
pub open spec fn byte_h() -> u8 { 72 }
pub open spec fn byte_m() -> u8 { 77 }
pub open spec fn byte_s() -> u8 { 83 }

/// A run of `number designator` items: each item is at least one digit followed by one
/// non-digit byte. `None` where the bytes do not split that way.
pub open spec fn split_items(t: Seq<u8>) -> Option<Seq<(nat, u8)>>
    decreases t.len(),
{
    if t.len() == 0 {
        Some(Seq::empty())
    } else {
        let k = digit_prefix_len(t);
        if k == 0 || k >= t.len() {
            None
        } else {
            match split_items(t.skip(k as int + 1)) {
                Some(rest) => Some(seq![(digits_value(t.take(k as int)), t[k as int])] + rest),
                None => None,
            }
        }
    }
}

/// The number of seconds that one unit of a designator stands for (0 for no designator).
pub open spec fn unit_seconds(c: u8) -> nat {
    if c == byte_d() { 86400 }
    else if c == byte_h() { 3600 }
    else if c == byte_m() { 60 }
    else if c == byte_s() { 1 }
    else { 0 }
}

/// The place of a time designator: hours before minutes before seconds.
pub open spec fn time_rank(c: u8) -> int {
    if c == byte_h() { 0 }
    else if c == byte_m() { 1 }
    else if c == byte_s() { 2 }
    else { -1 }
}

/// Items of the date part: none, or a single count of days.
pub open spec fn date_items_ok(items: Seq<(nat, u8)>) -> bool {
    items.len() <= 1 && forall|i: int| 0 <= i < items.len() ==> #[trigger] items[i].1 == byte_d()
}

/// Items of the time part: hours, minutes and seconds, each at most once and in that order.
pub open spec fn time_items_ok(items: Seq<(nat, u8)>) -> bool {
    &&& forall|i: int| 0 <= i < items.len() ==> time_rank(#[trigger] items[i].1) >= 0
    &&& forall|i: int, j: int| 0 <= i < j < items.len() ==> time_rank(#[trigger] items[i].1) < time_rank(#[trigger] items[j].1)
}

/// The seconds that a list of items adds up to.
pub open spec fn items_seconds(items: Seq<(nat, u8)>) -> nat
    decreases items.len(),
{
    if items.len() == 0 {
        0
    } else {
        items[0].0 * unit_seconds(items[0].1) + items_seconds(items.drop_first())
    }
}

/// The position of the first `T` in `t`, or its length where there is none.
pub open spec fn t_position(t: Seq<u8>) -> nat
    decreases t.len(),
{
    if t.len() == 0 || t[0] == byte_t() {
        0
    } else {
        1 + t_position(t.drop_first())
    }
}

/// The number of seconds that an ISO 8601 duration stands for: a `P`, an optional count of
/// days (`nD`), then optionally a `T` followed by at least one of hours (`nH`), minutes (`nM`)
/// and seconds (`nS`) in that order. At least one component must be given. `None` where the
/// text is not such a duration or the total does not fit in 64 bits.
pub open spec fn iso_duration_seconds(s: Seq<u8>) -> Option<nat> {
    if s.len() == 0 || s[0] != byte_p() {
        None
    } else {
        let rest = s.drop_first();
        let tp = t_position(rest);
        let has_t = tp < rest.len();
        let date = rest.take(tp as int);
        let time = if has_t { rest.skip(tp as int + 1) } else { Seq::empty() };
        match (split_items(date), split_items(time)) {
            (Some(di), Some(ti)) => {
                if date_items_ok(di) && time_items_ok(ti) && (!has_t || ti.len() >= 1)
                    && di.len() + ti.len() >= 1
                    && items_seconds(di) + items_seconds(ti) <= u64::MAX {
                    Some(items_seconds(di) + items_seconds(ti))
                } else {
                    None
                }
            },
            _ => None,
        }
    }
}

} // verus!

verus! {

/// The items of `s[lo..hi]` with their numbers as plain values.
pub open spec fn items_view(v: Seq<(u64, u8)>) -> Seq<(nat, u8)> {
    v.map_values(|p: (u64, u8)| (p.0 as nat, p.1))
}

proof fn lemma_items_seconds_ge(items: Seq<(nat, u8)>, i: int)
    requires
        0 <= i < items.len(),
    ensures
        items_seconds(items) >= items[i].0 * unit_seconds(items[i].1),
    decreases items.len(),
{
    if i > 0 {
        lemma_items_seconds_ge(items.drop_first(), i - 1);
    }
}

proof fn lemma_items_seconds_append(a: Seq<(nat, u8)>, b: Seq<(nat, u8)>)
    ensures
        items_seconds(a + b) == items_seconds(a) + items_seconds(b),
    decreases a.len(),
{
    if a.len() > 0 {
        assert((a + b).drop_first() =~= a.drop_first() + b);
        lemma_items_seconds_append(a.drop_first(), b);
    } else {
        assert(a + b =~= b);
    }
}

proof fn lemma_all_digits_prefix(d: Seq<u8>)
    requires
        forall|j: int| 0 <= j < d.len() ==> is_digit(#[trigger] d[j]),
    ensures
        digit_prefix_len(d) == d.len(),
    decreases d.len(),
{
    if d.len() > 0 {
        assert forall|j: int| 0 <= j < d.drop_first().len() implies is_digit(#[trigger] d.drop_first()[j]) by {
            assert(d.drop_first()[j] == d[j + 1]);
        }
        lemma_all_digits_prefix(d.drop_first());
    }
}

/// Splits `s[lo..hi]` into `number designator` items. `None` where the bytes do not split into
/// items, or where some number does not fit in 64 bits.
fn read_items(s: &[u8], lo: usize, hi: usize) -> (r: Option<Vec<(u64, u8)>>)
    requires
        lo <= hi <= s@.len(),
    ensures
        match r {
            Some(v) => split_items(s@.subrange(lo as int, hi as int)) == Some(items_view(v@)),
            None => match split_items(s@.subrange(lo as int, hi as int)) {
                Some(items) => exists|i: int| 0 <= i < items.len() && #[trigger] items[i].0 > u64::MAX,
                None => true,
            },
        },
{
    let mut acc: Vec<(u64, u8)> = Vec::new();
    let mut pos: usize = lo;
    let ghost whole = s@.subrange(lo as int, hi as int);
    while pos < hi
        invariant
            lo <= pos <= hi <= s@.len(),
            whole == s@.subrange(lo as int, hi as int),
            split_items(whole) == match split_items(s@.subrange(pos as int, hi as int)) {
                Some(rest) => Some(items_view(acc@) + rest),
                None => None::<Seq<(nat, u8)>>,
            },
        decreases hi - pos,
    {
        let ghost cur = s@.subrange(pos as int, hi as int);
        let mut j: usize = pos;
        while j < hi && 48 <= s[j] && s[j] <= 57
            invariant
                pos <= j <= hi <= s@.len(),
                cur == s@.subrange(pos as int, hi as int),
                forall|q: int| 0 <= q < j - pos ==> is_digit(#[trigger] cur[q]),
            decreases hi - j,
        {
            assert(cur[j - pos] == s@[j as int]);
            j = j + 1;
        }
        let k = j - pos;
        proof {
            if j < hi {
                assert(cur[k as int] == s@[j as int]);
            }
            crate::text::lemma_digit_prefix_pub(cur, k as int);
        }
        if k == 0 || j >= hi {
            proof {
                assert(split_items(cur) is None);
            }
            return None;
        }
        let digits = &s[pos..j];
        proof {
            assert(digits@ =~= cur.take(k as int));
            assert forall|q: int| 0 <= q < digits@.len() implies is_digit(#[trigger] digits@[q]) by {
                assert(digits@[q] == cur[q]);
            }
            lemma_all_digits_prefix(digits@);
            assert(digits@.take(k as int) =~= digits@);
            assert(crate::text::strip_plus(digits@) == digits@);
        }
        let parsed = crate::text::parse_unsigned_bytes(digits, u64::MAX);
        let ghost next = s@.subrange(j as int + 1, hi as int);
        proof {
            assert(cur.skip(k as int + 1) =~= next);
        }
        match parsed {
            Ok(v) => {
                let c = s[j];
                proof {
                    assert(cur[k as int] == c);
                    assert(v as nat == digits_value(cur.take(k as int)));
                }
                let ghost old_acc = acc@;
                acc.push((v, c));
                proof {
                    assert(items_view(acc@) =~= items_view(old_acc) + seq![(v as nat, c)]);
                    match split_items(next) {
                        Some(rest) => {
                            assert(items_view(old_acc) + (seq![(v as nat, c)] + rest) =~= items_view(acc@) + rest);
                        },
                        None => {},
                    }
                }
                pos = j + 1;
            },
            Err(_) => {
                proof {
                    assert(digits_value(cur.take(k as int)) > u64::MAX);
                    match split_items(next) {
                        Some(rest) => {
                            let item = (digits_value(cur.take(k as int)), cur[k as int]);
                            assert(split_items(cur) == Some(seq![item] + rest));
                            let items = items_view(acc@) + (seq![item] + rest);
                            assert(split_items(whole) == Some(items));
                            let i = acc@.len() as int;
                            assert(items[i] == item);
                            assert(items[i].0 > u64::MAX);
                            assert(s@.subrange(lo as int, hi as int) == whole);
                            let items2 = split_items(s@.subrange(lo as int, hi as int))->0;
                            assert(items2 == items);
                            assert(items2[i].0 > u64::MAX);
                        },
                        None => {
                            assert(split_items(cur) is None);
                            assert(split_items(whole) is None);
                        },
                    }
                }
                return None;
            },
        }
    }
    proof {
        assert(s@.subrange(pos as int, hi as int) =~= Seq::<u8>::empty());
        assert(items_view(acc@) + Seq::<(nat, u8)>::empty() =~= items_view(acc@));
    }
    Some(acc)
}

} // verus!

verus! {

proof fn lemma_t_position(t: Seq<u8>, k: int)
    requires
        0 <= k <= t.len(),
        forall|j: int| 0 <= j < k ==> #[trigger] t[j] != byte_t(),
        k == t.len() || t[k] == byte_t(),
    ensures
        t_position(t) == k,
    decreases k,
{
    if k > 0 {
        assert forall|j: int| 0 <= j < k - 1 implies #[trigger] t.drop_first()[j] != byte_t() by {
            assert(t.drop_first()[j] == t[j + 1]);
        }
        lemma_t_position(t.drop_first(), k - 1);
    }
}

/// Every item of a well-formed date or time part counts at least one second per unit.
proof fn lemma_big_item_overflows(di: Seq<(nat, u8)>, ti: Seq<(nat, u8)>)
    requires
        date_items_ok(di),
        time_items_ok(ti),
        (exists|i: int| 0 <= i < di.len() && #[trigger] di[i].0 > u64::MAX)
            || (exists|i: int| 0 <= i < ti.len() && #[trigger] ti[i].0 > u64::MAX),
    ensures
        items_seconds(di) + items_seconds(ti) > u64::MAX,
{
    if exists|i: int| 0 <= i < di.len() && #[trigger] di[i].0 > u64::MAX {
        let i = choose|i: int| 0 <= i < di.len() && #[trigger] di[i].0 > u64::MAX;
        lemma_items_seconds_ge(di, i);
        assert(di[i].1 == byte_d());
        assert(di[i].0 * unit_seconds(di[i].1) >= di[i].0) by (nonlinear_arith)
            requires unit_seconds(di[i].1) >= 1;
    } else {
        let i = choose|i: int| 0 <= i < ti.len() && #[trigger] ti[i].0 > u64::MAX;
        lemma_items_seconds_ge(ti, i);
        assert(time_rank(ti[i].1) >= 0);
        assert(ti[i].0 * unit_seconds(ti[i].1) >= ti[i].0) by (nonlinear_arith)
            requires unit_seconds(ti[i].1) >= 1;
    }
}

/// The total seconds of a list of items, where it fits in 64 bits.
fn sum_seconds(v: &Vec<(u64, u8)>) -> (r: Option<u64>)
    ensures
        match r {
            Some(x) => x as nat == items_seconds(items_view(v@)),
            None => items_seconds(items_view(v@)) > u64::MAX,
        },
{
    let mut acc: u64 = 0;
    let mut i: usize = 0;
    while i < v.len()
        invariant
            i <= v@.len(),
            acc as nat == items_seconds(items_view(v@).take(i as int)),
        decreases v@.len() - i,
    {
        let (n, c) = v[i];
        let unit: u64 = if c == 68 { 86400 } else if c == 72 { 3600 } else if c == 77 { 60 } else if c == 83 { 1 } else { 0 };
        proof {
            let iv = items_view(v@);
            assert(iv.take(i as int + 1) =~= iv.take(i as int) + seq![iv[i as int]]);
            lemma_items_seconds_append(iv.take(i as int), seq![iv[i as int]]);
            assert(iv[i as int] == (n as nat, c));
            assert(unit_seconds(c) == unit as nat);
            assert(items_seconds(seq![iv[i as int]]) == n * unit) by {
                assert(seq![iv[i as int]].drop_first() =~= Seq::<(nat, u8)>::empty());
                assert(items_seconds(Seq::<(nat, u8)>::empty()) == 0);
            }
            lemma_items_seconds_prefix(iv, i as int + 1);
        }
        let term = match n.checked_mul(unit) {
            Some(t) => t,
            None => return None,
        };
        acc = match acc.checked_add(term) {
            Some(a) => a,
            None => return None,
        };
        i = i + 1;
    }
    proof {
        assert(items_view(v@).take(v@.len() as int) =~= items_view(v@));
    }
    Some(acc)
}

/// The seconds of a prefix never exceed those of the whole list.
proof fn lemma_items_seconds_prefix(items: Seq<(nat, u8)>, k: int)
    requires
        0 <= k <= items.len(),
    ensures
        items_seconds(items.take(k)) <= items_seconds(items),
{
    assert(items =~= items.take(k) + items.skip(k));
    lemma_items_seconds_append(items.take(k), items.skip(k));
}

/// Whether the items of a time part are hours, minutes and seconds, each at most once and in
/// that order.
fn time_items_in_order(time: &Vec<(u64, u8)>) -> (r: bool)
    ensures
        r == time_items_ok(items_view(time@)),
{
    let ghost ti = items_view(time@);
    let mut last_rank: i64 = -1;
    let mut i: usize = 0;
    while i < time.len()
        invariant
            i <= time@.len(),
            ti == items_view(time@),
            -1 <= last_rank <= 2,
            i == 0 ==> last_rank == -1,
            i > 0 ==> last_rank == time_rank(ti[i - 1].1),
            time_items_ok(ti.take(i as int)),
        decreases time@.len() - i,
    {
        let c = time[i].1;
        let rank: i64 = if c == 72 { 0 } else if c == 77 { 1 } else if c == 83 { 2 } else { -1 };
        assert(ti[i as int].1 == c);
        if rank <= last_rank {
            proof {
                assert(time_rank(c) == rank);
                if i > 0 && rank >= 0 {
                    assert(time_rank(ti[i - 1].1) >= time_rank(ti[i as int].1));
                } else {
                    assert(time_rank(ti[i as int].1) < 0);
                }
                assert(!time_items_ok(ti));
            }
            return false;
        }
        proof {
            let t2 = ti.take(i as int + 1);
            assert forall|p: int, q: int| 0 <= p < q < t2.len() implies time_rank(#[trigger] t2[p].1) < time_rank(#[trigger] t2[q].1) by {
                if q == i {
                    if p < i - 1 {
                        assert(ti.take(i as int)[p] == t2[p]);
                        assert(ti.take(i as int)[i - 1] == ti[i - 1]);
                    }
                } else {
                    assert(ti.take(i as int)[p] == t2[p]);
                    assert(ti.take(i as int)[q] == t2[q]);
                }
            }
            assert forall|p: int| 0 <= p < t2.len() implies time_rank(#[trigger] t2[p].1) >= 0 by {
                if p < i {
                    assert(ti.take(i as int)[p] == t2[p]);
                }
            }
        }
        last_rank = rank;
        i = i + 1;
    }
    proof {
        assert(ti.take(time@.len() as int) =~= ti);
    }
    true
}

/// Reads an ISO 8601 duration such as `PT1H30M` as a number of seconds.
pub fn parse_iso_duration_to_seconds(s: &str) -> (r: Option<u64>)
    ensures
        match r {
            Some(x) => iso_duration_seconds(s.spec_bytes()) == Some(x as nat),
            None => iso_duration_seconds(s.spec_bytes()) is None,
        },
{
    let b = s.as_bytes();
    let n = b.len();
    if n == 0 || b[0] != 80 {
        return None;
    }
    let ghost rest = b@.drop_first();
    let mut tp: usize = 1;
    while tp < n && b[tp] != 84
        invariant
            1 <= tp <= n,
            n == b@.len(),
            rest == b@.drop_first(),
            forall|j: int| 0 <= j < tp - 1 ==> #[trigger] rest[j] != byte_t(),
        decreases n - tp,
    {
        assert(rest[tp - 1] == b@[tp as int]);
        tp = tp + 1;
    }
    proof {
        if tp < n {
            assert(rest[tp - 1] == b@[tp as int]);
        }
        lemma_t_position(rest, tp - 1);
        assert(rest.take(tp - 1) =~= b@.subrange(1, tp as int));
    }
    let has_t = tp < n;
    let date = match read_items(b, 1, tp) {
        Some(v) => v,
        None => {
            proof {
                let time = if has_t { rest.skip(tp as int) } else { Seq::empty() };
                match (split_items(rest.take(tp - 1)), split_items(time)) {
                    (Some(di), Some(ti)) => {
                        if date_items_ok(di) && time_items_ok(ti) {
                            lemma_big_item_overflows(di, ti);
                        }
                    },
                    _ => {},
                }
            }
            return None;
        },
    };
    let time: Vec<(u64, u8)> = if has_t {
        proof {
            assert(rest.skip(tp as int) =~= b@.subrange(tp as int + 1, n as int));
        }
        match read_items(b, tp + 1, n) {
            Some(v) => v,
            None => {
                proof {
                    match split_items(rest.skip(tp as int)) {
                        Some(ti) => {
                            let di = items_view(date@);
                            if date_items_ok(di) && time_items_ok(ti) {
                                lemma_big_item_overflows(di, ti);
                            }
                        },
                        None => {},
                    }
                }
                return None;
            },
        }
    } else {
        proof {
            assert(split_items(Seq::<u8>::empty()) == Some(Seq::<(nat, u8)>::empty()));
            assert(items_view(Seq::<(u64, u8)>::empty()) =~= Seq::<(nat, u8)>::empty());
        }
        Vec::new()
    };
    let ghost di = items_view(date@);
    let ghost ti = items_view(time@);
    proof {
        if has_t {
            assert(split_items(rest.skip(tp as int)) == Some(ti));
        } else {
            assert(split_items(Seq::<u8>::empty()) == Some(ti));
        }
    }
    // The date part holds at most a count of days.
    if date.len() > 1 || (date.len() == 1 && date[0].1 != 68) {
        proof {
            if date.len() == 1 {
                assert(di[0].1 != byte_d());
            }
        }
        return None;
    }
    // The time part holds hours, minutes and seconds in that order.
    if !time_items_in_order(&time) {
        return None;
    }
    if has_t && time.len() == 0 {
        return None;
    }
    if date.len() == 0 && time.len() == 0 {
        return None;
    }
    let ds = match sum_seconds(&date) {
        Some(x) => x,
        None => return None,
    };
    let ts = match sum_seconds(&time) {
        Some(x) => x,
        None => return None,
    };
    ds.checked_add(ts)
}

/// A duration of a single time component, `PT` followed by a number and `H`, `M` or `S`, stands
/// for that many hours, minutes or seconds, where the total fits in 64 bits.
pub proof fn law_single_time_component(n: nat, unit: u8)
    requires
        unit == byte_h() || unit == byte_m() || unit == byte_s(),
        n * unit_seconds(unit) <= u64::MAX,
    ensures
        iso_duration_seconds(seq![byte_p(), byte_t()] + crate::text::ascii_bytes(crate::text::decimal(n)) + seq![unit])
            == Some(n * unit_seconds(unit)),
{
    let digits = crate::text::ascii_bytes(crate::text::decimal(n));
    crate::text::lemma_decimal_bytes(n);
    let s = seq![byte_p(), byte_t()] + digits + seq![unit];
    let rest = s.drop_first();
    assert(rest[0] == byte_t());
    assert(t_position(rest) == 0);
    assert(rest.take(0) =~= Seq::<u8>::empty());
    let time = rest.skip(1);
    assert(time =~= digits + seq![unit]);
    assert(split_items(Seq::<u8>::empty()) == Some(Seq::<(nat, u8)>::empty()));
    crate::text::lemma_digit_prefix_pub(time, digits.len() as int);
    assert(time.take(digits.len() as int) =~= digits);
    assert(time.skip(digits.len() as int + 1) =~= Seq::<u8>::empty());
    assert(time[digits.len() as int] == unit);
    let items = seq![(n, unit)];
    assert(split_items(time) == Some(seq![(n, unit)] + Seq::<(nat, u8)>::empty()));
    assert(seq![(n, unit)] + Seq::<(nat, u8)>::empty() =~= items);
    assert(items_seconds(items.drop_first()) == 0);
    assert(items_seconds(items) == n * unit_seconds(unit));
    assert(items_seconds(Seq::<(nat, u8)>::empty()) == 0);
}

} // verus!
