//! Keeping the list of known clocks up to date from scans, and deciding when to scan,
//! disconnect and reconnect.

use vstd::prelude::*;
use std::collections::HashMap;
use crate::text::{decimal, push_decimal};

verus! {

broadcast use vstd::std_specs::hash::group_hash_axioms;

/// Scans in a row that may miss a known device before it is dropped from the list.
pub const MAX_MISSED_SCANS: u32 = 3;

/// Whether a scan counts as having missed a known device: it was not found, is not connected
/// and was never connected before (not persisted).
pub open spec fn counts_as_missed(found: Seq<u64>, connected: Seq<u64>, persisted: Seq<u64>, a: u64) -> bool {
    !found.contains(a) && !connected.contains(a) && !persisted.contains(a)
}

/// How often `a` occurs in `s`.
pub open spec fn occurrences(s: Seq<u64>, a: u64) -> nat
    decreases s.len(),
{
    if s.len() == 0 {
        0
    } else {
        occurrences(s.drop_last(), a) + (if s.last() == a { 1nat } else { 0nat })
    }
}

/// The missed-scan count of `a` before the scan, with the counts of found devices cleared.
pub open spec fn missed_before(missed: Map<u64, u32>, found: Seq<u64>, a: u64) -> nat {
    if found.contains(a) || !missed.contains_key(a) { 0 } else { missed[a] as nat }
}

/// The missed-scan count of `a` after a scan: cleared for a found device, raised by one for
/// each time a missed device occurs in the known list.
pub open spec fn missed_count_after(missed: Map<u64, u32>, known: Seq<u64>, found: Seq<u64>,
    connected: Seq<u64>, persisted: Seq<u64>, a: u64) -> nat {
    missed_before(missed, found, a)
        + (if counts_as_missed(found, connected, persisted, a) { occurrences(known, a) } else { 0 })
}

/// The missed-scan counts after a scan.
pub open spec fn missed_after(missed: Map<u64, u32>, known: Seq<u64>, found: Seq<u64>,
    connected: Seq<u64>, persisted: Seq<u64>) -> Map<u64, u32> {
    Map::new(
        |a: u64| (missed.contains_key(a) && !found.contains(a))
            || (known.contains(a) && counts_as_missed(found, connected, persisted, a)),
        |a: u64| missed_count_after(missed, known, found, connected, persisted, a) as u32,
    )
}

/// Whether the missed-scan counts stay within 32 bits after a scan.
pub open spec fn missed_fits(missed: Map<u64, u32>, known: Seq<u64>, found: Seq<u64>,
    connected: Seq<u64>, persisted: Seq<u64>) -> bool {
    forall|a: u64| known.contains(a) ==> #[trigger] missed_count_after(missed, known, found, connected, persisted, a) <= u32::MAX
}

/// Whether a slice holds an address.
pub fn contains_address(s: &[u64], a: u64) -> (r: bool)
    ensures
        r == s@.contains(a),
{
    let mut i: usize = 0;
    while i < s.len()
        invariant
            i <= s@.len(),
            forall|j: int| 0 <= j < i ==> s@[j] != a,
        decreases s@.len() - i,
    {
        if s[i] == a {
            assert(s@[i as int] == a);
            return true;
        }
        i = i + 1;
    }
    false
}

proof fn lemma_occurrences_prefix(s: Seq<u64>, i: int, a: u64)
    requires
        0 <= i < s.len(),
    ensures
        occurrences(s.take(i + 1), a) == occurrences(s.take(i), a) + (if s[i] == a { 1nat } else { 0nat }),
{
    assert(s.take(i + 1).drop_last() =~= s.take(i));
}

proof fn lemma_occurrences_bound(s: Seq<u64>, i: int, a: u64)
    requires
        0 <= i <= s.len(),
    ensures
        occurrences(s.take(i), a) <= occurrences(s, a),
        !s.contains(a) ==> occurrences(s, a) == 0,
    decreases s.len() - i,
{
    if i < s.len() {
        lemma_occurrences_prefix(s, i, a);
        lemma_occurrences_bound(s, i + 1, a);
    } else {
        assert(s.take(i) =~= s);
    }
    if !s.contains(a) {
        lemma_no_occurrences(s, a);
    }
}

proof fn lemma_no_occurrences(s: Seq<u64>, a: u64)
    requires
        !s.contains(a),
    ensures
        occurrences(s, a) == 0,
    decreases s.len(),
{
    if s.len() > 0 {
        assert(!s.drop_last().contains(a)) by {
            if s.drop_last().contains(a) {
                let j = choose|j: int| 0 <= j < s.drop_last().len() && s.drop_last()[j] == a;
                assert(s[j] == a);
            }
        }
        lemma_no_occurrences(s.drop_last(), a);
        assert(s.last() != a) by {
            if s.last() == a {
                assert(s[s.len() - 1] == a);
            }
        }
    }
}

/// Taking one more element adds exactly that element.
proof fn lemma_take_one_more(s: Seq<u64>, k: int)
    requires
        0 <= k < s.len(),
    ensures
        forall|b: u64| #[trigger] s.take(k + 1).contains(b) <==> s.take(k).contains(b) || b == s[k],
{
    assert forall|b: u64| #[trigger] s.take(k + 1).contains(b) <==> s.take(k).contains(b) || b == s[k] by {
        if s.take(k + 1).contains(b) {
            let j = choose|j: int| 0 <= j < k + 1 && #[trigger] s.take(k + 1)[j] == b;
            if j < k {
                assert(s.take(k)[j] == b);
            }
        }
        if s.take(k).contains(b) {
            let j = choose|j: int| 0 <= j < k && #[trigger] s.take(k)[j] == b;
            assert(s.take(k + 1)[j] == b);
        }
        if b == s[k] {
            assert(s.take(k + 1)[k] == b);
        }
    }
}

/// Updates the missed-scan counts after a scan found the devices `found`.
pub fn count_missed_scans(missed: &mut HashMap<u64, u32>, known: &[u64], found: &[u64],
    connected: &[u64], persisted: &[u64])
    requires
        missed_fits(old(missed)@, known@, found@, connected@, persisted@),
    ensures
        final(missed)@ == missed_after(old(missed)@, known@, found@, connected@, persisted@),
{
    let ghost m0 = missed@;
    let mut i: usize = 0;
    while i < found.len()
        invariant
            i <= found@.len(),
            missed@ == m0.remove_keys(found@.take(i as int).to_set()),
        decreases found@.len() - i,
    {
        let a = found[i];
        missed.remove(&a);
        proof {
            lemma_take_one_more(found@, i as int);
            assert(found@.take(i as int + 1).to_set() =~= found@.take(i as int).to_set().insert(a));
            assert(missed@ =~= m0.remove_keys(found@.take(i as int + 1).to_set()));
        }
        i = i + 1;
    }
    proof {
        assert(found@.take(found@.len() as int) =~= found@);
    }
    let ghost m1 = missed@;
    let mut k: usize = 0;
    while k < known.len()
        invariant
            k <= known@.len(),
            m1 == m0.remove_keys(found@.to_set()),
            missed_fits(m0, known@, found@, connected@, persisted@),
            forall|a: u64| #[trigger] missed@.contains_key(a) <==>
                (m1.contains_key(a) || (known@.take(k as int).contains(a) && counts_as_missed(found@, connected@, persisted@, a))),
            forall|a: u64| #[trigger] missed@.contains_key(a) ==> missed@[a] as nat == missed_before(m0, found@, a)
                + (if counts_as_missed(found@, connected@, persisted@, a) { occurrences(known@.take(k as int), a) } else { 0 }),
        decreases known@.len() - k,
    {
        let a = known[k];
        proof {
            lemma_occurrences_prefix(known@, k as int, a);
            lemma_occurrences_bound(known@, k as int + 1, a);
            assert(known@.contains(a)) by { assert(known@[k as int] == a); }
            assert forall|b: u64| b != a implies occurrences(known@.take(k as int + 1), b) == occurrences(known@.take(k as int), b) by {
                lemma_occurrences_prefix(known@, k as int, b);
            }
        }
        if !contains_address(found, a) && !contains_address(connected, a) && !contains_address(persisted, a) {
            let current: u32 = match missed.get(&a) {
                Some(c) => *c,
                None => 0,
            };
            proof {
                assert(missed_count_after(m0, known@, found@, connected@, persisted@, a) <= u32::MAX);
                if !missed@.contains_key(a) {
                    assert(!m1.contains_key(a));
                    assert(!known@.take(k as int).contains(a));
                    lemma_no_occurrences(known@.take(k as int), a);
                }
            }
            missed.insert(a, current + 1);
        }
        proof {
            lemma_take_one_more(known@, k as int);
        }
        k = k + 1;
    }
    proof {
        assert(known@.take(known@.len() as int) =~= known@);
        assert forall|a: u64| #[trigger] m1.contains_key(a) <==> (m0.contains_key(a) && !found@.contains(a)) by {
            assert(found@.to_set().contains(a) <==> found@.contains(a));
        }
        assert(missed@ =~= missed_after(m0, known@, found@, connected@, persisted@));
    }
}

/// The missed-scan count of `a`, zero where none was kept.
pub open spec fn missed_count(missed: Map<u64, u32>, a: u64) -> nat {
    if missed.contains_key(a) { missed[a] as nat } else { 0 }
}

/// Whether a known device stays in the list after a scan: it is connected, was connected
/// before (persisted), or has missed fewer than `MAX_MISSED_SCANS` scans in a row.
pub open spec fn keeps_device(missed: Map<u64, u32>, connected: Seq<u64>, persisted: Seq<u64>, a: u64) -> bool {
    connected.contains(a) || persisted.contains(a) || missed_count(missed, a) < MAX_MISSED_SCANS
}

/// The known devices that stay in the list, in their order.
pub open spec fn kept_devices(known: Seq<u64>, missed: Map<u64, u32>, connected: Seq<u64>,
    persisted: Seq<u64>) -> Seq<u64> {
    known.filter(|a: u64| keeps_device(missed, connected, persisted, a))
}

/// The list with each found device that it does not hold yet appended, in the order found.
pub open spec fn with_new_found(known: Seq<u64>, found: Seq<u64>) -> Seq<u64>
    decreases found.len(),
{
    if found.len() == 0 {
        known
    } else {
        let k = with_new_found(known, found.drop_last());
        if k.contains(found.last()) { k } else { k.push(found.last()) }
    }
}

/// Whether `i` is the first place in `known` that holds a device of `found`, or `None` when
/// no known device was found.
pub open spec fn is_first_found(known: Seq<u64>, found: Seq<u64>, r: Option<usize>) -> bool {
    match r {
        Some(i) => i < known.len() && found.contains(known[i as int])
            && forall|j: int| 0 <= j < i ==> !found.contains(#[trigger] known[j]),
        None => forall|j: int| 0 <= j < known.len() ==> !found.contains(#[trigger] known[j]),
    }
}

/// Drops the known devices that missed too many scans in a row; connected and persisted devices
/// always stay.
pub fn drop_missing_devices(known: &mut Vec<u64>, missed: &HashMap<u64, u32>, connected: &[u64],
    persisted: &[u64])
    ensures
        final(known)@ == kept_devices(old(known)@, missed@, connected@, persisted@),
{
    let ghost k0 = known@;
    let mut kept: Vec<u64> = Vec::new();
    let mut i: usize = 0;
    while i < known.len()
        invariant
            known@ == k0,
            i <= k0.len(),
            kept@ == kept_devices(k0.take(i as int), missed@, connected@, persisted@),
        decreases k0.len() - i,
    {
        let a = known[i];
        let count: u32 = match missed.get(&a) {
            Some(c) => *c,
            None => 0,
        };
        let keep = contains_address(connected, a) || contains_address(persisted, a) || count < MAX_MISSED_SCANS;
        proof {
            assert(k0.take(i as int + 1).drop_last() =~= k0.take(i as int));
            assert(k0.take(i as int + 1).last() == a);
            reveal_with_fuel(Seq::filter, 1);
        }
        if keep {
            kept.push(a);
        }
        i = i + 1;
    }
    proof {
        assert(k0.take(k0.len() as int) =~= k0);
    }
    *known = kept;
}

/// Appends each found device that the list does not hold yet.
pub fn add_found_devices(known: &mut Vec<u64>, found: &[u64])
    ensures
        final(known)@ == with_new_found(old(known)@, found@),
{
    let ghost k0 = known@;
    let mut i: usize = 0;
    while i < found.len()
        invariant
            i <= found@.len(),
            known@ == with_new_found(k0, found@.take(i as int)),
        decreases found@.len() - i,
    {
        let a = found[i];
        proof {
            assert(found@.take(i as int + 1).drop_last() =~= found@.take(i as int));
            assert(found@.take(i as int + 1).last() == a);
        }
        if !contains_address(known.as_slice(), a) {
            known.push(a);
        }
        i = i + 1;
    }
    proof {
        assert(found@.take(found@.len() as int) =~= found@);
    }
}

/// The first place in `known` that holds a found device.
pub fn first_found_index(known: &[u64], found: &[u64]) -> (r: Option<usize>)
    ensures
        is_first_found(known@, found@, r),
{
    let mut i: usize = 0;
    while i < known.len()
        invariant
            i <= known@.len(),
            forall|j: int| 0 <= j < i ==> !found@.contains(#[trigger] known@[j]),
        decreases known@.len() - i,
    {
        if contains_address(found, known[i]) {
            return Some(i);
        }
        i = i + 1;
    }
    None
}

/// What the list of known devices becomes after a scan, and which of them to connect to.
///
/// The missed-scan counts are brought up to date, devices that missed too many scans are
/// dropped, newly found devices are appended, and when the connect switch is off the first
/// known device that the scan found is picked for connecting.
pub fn apply_scan_result(known: &mut Vec<u64>, missed: &mut HashMap<u64, u32>, found: &[u64],
    connected: &[u64], persisted: &[u64], switch_active: bool) -> (connect_to: Option<usize>)
    requires
        missed_fits(old(missed)@, old(known)@, found@, connected@, persisted@),
    ensures
        final(missed)@ == missed_after(old(missed)@, old(known)@, found@, connected@, persisted@),
        final(known)@ == with_new_found(
            kept_devices(old(known)@, final(missed)@, connected@, persisted@),
            found@,
        ),
        switch_active ==> connect_to is None,
        !switch_active ==> is_first_found(final(known)@, found@, connect_to),
{
    count_missed_scans(missed, known.as_slice(), found, connected, persisted);
    drop_missing_devices(known, missed, connected, persisted);
    add_found_devices(known, found);
    if switch_active {
        None
    } else {
        first_found_index(known.as_slice(), found)
    }
}

proof fn lemma_push_facts(s: Seq<u64>, x: u64)
    ensures
        forall|a: u64| #[trigger] s.push(x).contains(a) <==> s.contains(a) || a == x,
        s.no_duplicates() && !s.contains(x) ==> s.push(x).no_duplicates(),
{
    assert forall|a: u64| #[trigger] s.push(x).contains(a) <==> s.contains(a) || a == x by {
        if s.push(x).contains(a) {
            let j = choose|j: int| 0 <= j < s.push(x).len() && s.push(x)[j] == a;
            if j < s.len() {
                assert(s[j] == a);
            }
        }
        if s.contains(a) {
            let j = choose|j: int| 0 <= j < s.len() && s[j] == a;
            assert(s.push(x)[j] == a);
        }
        if a == x {
            assert(s.push(x)[s.len() as int] == a);
        }
    }
    if s.no_duplicates() && !s.contains(x) {
        assert forall|i: int, j: int| 0 <= i < s.push(x).len() && 0 <= j < s.push(x).len() && i != j
            implies s.push(x)[i] != s.push(x)[j] by {
            if i == s.len() as int {
                assert(s[j] == s.push(x)[j]);
            } else if j == s.len() as int {
                assert(s[i] == s.push(x)[i]);
            }
        }
    }
}

proof fn lemma_drop_last_facts(s: Seq<u64>)
    requires
        s.len() > 0,
    ensures
        s =~= s.drop_last().push(s.last()),
        s.no_duplicates() ==> s.drop_last().no_duplicates() && !s.drop_last().contains(s.last()),
{
    assert(s =~= s.drop_last().push(s.last()));
    if s.no_duplicates() {
        if s.drop_last().contains(s.last()) {
            let j = choose|j: int| 0 <= j < s.drop_last().len() && s.drop_last()[j] == s.last();
            assert(s[j] == s[s.len() - 1]);
        }
    }
}

/// Filtering keeps exactly the elements that meet the predicate, and adds no duplicates.
proof fn lemma_filter_facts(s: Seq<u64>, p: spec_fn(u64) -> bool)
    ensures
        forall|a: u64| #[trigger] s.filter(p).contains(a) <==> s.contains(a) && p(a),
        s.no_duplicates() ==> s.filter(p).no_duplicates(),
    decreases s.len(),
{
    reveal_with_fuel(Seq::filter, 1);
    if s.len() == 0 {
        assert forall|a: u64| #[trigger] s.filter(p).contains(a) <==> s.contains(a) && p(a) by {
            if s.contains(a) {
                let j = choose|j: int| 0 <= j < s.len() && s[j] == a;
            }
        }
    } else {
        let rest = s.drop_last();
        lemma_filter_facts(rest, p);
        lemma_drop_last_facts(s);
        lemma_push_facts(rest, s.last());
        lemma_push_facts(rest.filter(p), s.last());
    }
}

/// Appending the new found devices keeps what was known, adds every found device, and adds no
/// duplicates.
proof fn lemma_with_new_found_facts(known: Seq<u64>, found: Seq<u64>)
    ensures
        forall|a: u64| #[trigger] with_new_found(known, found).contains(a) <==> known.contains(a) || found.contains(a),
        known.no_duplicates() ==> with_new_found(known, found).no_duplicates(),
    decreases found.len(),
{
    if found.len() == 0 {
        assert forall|a: u64| #[trigger] with_new_found(known, found).contains(a) <==> known.contains(a) || found.contains(a) by {
            if found.contains(a) {
                let j = choose|j: int| 0 <= j < found.len() && found[j] == a;
            }
        }
    } else {
        let rest = found.drop_last();
        lemma_with_new_found_facts(known, rest);
        lemma_drop_last_facts(found);
        lemma_push_facts(rest, found.last());
        lemma_push_facts(with_new_found(known, rest), found.last());
    }
}

/// After a scan, the list of known devices holds every device that the scan found and every
/// known device that is connected or persisted, holds nothing that was neither known nor found,
/// and, if it held no device twice before, holds none twice after.
pub proof fn law_scan_keeps_list_consistent(known: Seq<u64>, missed: Map<u64, u32>, found: Seq<u64>,
    connected: Seq<u64>, persisted: Seq<u64>, a: u64)
    ensures
        ({
            let next = with_new_found(
                kept_devices(known, missed_after(missed, known, found, connected, persisted), connected, persisted),
                found,
            );
            &&& found.contains(a) ==> next.contains(a)
            &&& known.contains(a) && (connected.contains(a) || persisted.contains(a)) ==> next.contains(a)
            &&& next.contains(a) ==> known.contains(a) || found.contains(a)
            &&& known.no_duplicates() ==> next.no_duplicates()
        }),
{
    let m = missed_after(missed, known, found, connected, persisted);
    let p = |x: u64| keeps_device(m, connected, persisted, x);
    lemma_filter_facts(known, p);
    lemma_with_new_found_facts(known.filter(p), found);
}

/// A known device that is neither found, connected nor persisted leaves the list exactly when
/// its missed-scan count reaches `MAX_MISSED_SCANS`; a found device never leaves.
pub proof fn law_scan_drops_after_missed_scans(known: Seq<u64>, missed: Map<u64, u32>, found: Seq<u64>,
    connected: Seq<u64>, persisted: Seq<u64>, a: u64)
    requires
        known.contains(a),
    ensures
        ({
            let m = missed_after(missed, known, found, connected, persisted);
            let next = with_new_found(kept_devices(known, m, connected, persisted), found);
            &&& counts_as_missed(found, connected, persisted, a) ==>
                (next.contains(a) <==> missed_count(m, a) < MAX_MISSED_SCANS)
            &&& found.contains(a) ==> next.contains(a) && missed_count(m, a) == 0
        }),
{
    let m = missed_after(missed, known, found, connected, persisted);
    let p = |x: u64| keeps_device(m, connected, persisted, x);
    lemma_filter_facts(known, p);
    lemma_with_new_found_facts(known.filter(p), found);
}

/// How long a device may send no data before it counts as unresponsive: 120 seconds.
pub const STALE_AFTER_NANOS: u128 = 120_000_000_000;

/// Seconds between automatic scans while a device is connected.
pub const SCAN_INTERVAL_CONNECTED_SECS: u64 = 600;

/// Seconds between automatic scans while no device is connected.
pub const SCAN_INTERVAL_DISCONNECTED_SECS: u64 = 60;

/// What the periodic check knows of a device.
#[derive(Debug, Clone, Copy, PartialEq, Eq, Structural)]
pub struct DeviceActivity {
    /// The device's address.
    pub address: u64,
    /// Whether it is connected.
    pub connected: bool,
    /// How long ago it last sent data, in nanoseconds; `None` if it never did.
    pub data_age_nanos: Option<u128>,
}

impl DeviceActivity {
    /// A device that was just connected: connected, with data as of now.
    pub fn connected_now(address: u64) -> (r: DeviceActivity)
        ensures
            r == (DeviceActivity { address, connected: true, data_age_nanos: Some(0) }),
    {
        DeviceActivity { address, connected: true, data_age_nanos: Some(0) }
    }

    /// A device first seen in a scan: not connected, with data as of now.
    pub fn seen_in_scan(address: u64) -> (r: DeviceActivity)
        ensures
            r == (DeviceActivity { address, connected: false, data_age_nanos: Some(0) }),
    {
        DeviceActivity { address, connected: false, data_age_nanos: Some(0) }
    }
}

/// What the periodic check decided.
#[derive(Debug, Clone, PartialEq, Eq)]
pub struct AutoScanStep {
    /// Connected devices that sent no data for too long, to be disconnected; the first is the one to
    /// reconnect to afterwards.
    pub stale: Vec<u64>,
    /// The scan interval in force, in seconds.
    pub interval_secs: u64,
    /// Whether to scan now.
    pub scan: bool,
}

/// Whether a connected device looks unresponsive: it sent no data for longer than
/// `STALE_AFTER_NANOS`.
pub open spec fn is_stale(d: DeviceActivity) -> bool {
    d.connected && match d.data_age_nanos {
        Some(age) => age > STALE_AFTER_NANOS,
        None => false,
    }
}

/// Whether any device is connected.
pub open spec fn any_connected(ds: Seq<DeviceActivity>) -> bool {
    exists|i: int| 0 <= i < ds.len() && (#[trigger] ds[i]).connected
}

/// The addresses of the stale devices, in order.
pub open spec fn stale_addresses(ds: Seq<DeviceActivity>) -> Seq<u64>
    decreases ds.len(),
{
    if ds.len() == 0 {
        Seq::empty()
    } else {
        let r = stale_addresses(ds.drop_last());
        if is_stale(ds.last()) { r.push(ds.last().address) } else { r }
    }
}

/// The scan interval in seconds: long while a device is connected, short otherwise.
pub open spec fn scan_interval_secs(has_connected: bool) -> u64 {
    if has_connected { SCAN_INTERVAL_CONNECTED_SECS } else { SCAN_INTERVAL_DISCONNECTED_SECS }
}

/// Whether a scan is due: none was made yet, or the interval has passed since the last one.
pub open spec fn scan_due(since_last_scan_nanos: Option<u128>, interval_secs: u64) -> bool {
    match since_last_scan_nanos {
        Some(t) => t >= interval_secs * 1_000_000_000,
        None => true,
    }
}

/// Whether `r` is the first place of `a` in `s`, or `None` when `s` does not hold it.
pub open spec fn is_first_index(s: Seq<u64>, a: u64, r: Option<usize>) -> bool {
    match r {
        Some(i) => i < s.len() && s[i as int] == a && forall|j: int| 0 <= j < i ==> #[trigger] s[j] != a,
        None => !s.contains(a),
    }
}

/// Whether any device in the list is connected.
pub fn has_connected_device(devices: &[DeviceActivity]) -> (r: bool)
    ensures
        r == any_connected(devices@),
{
    let mut i: usize = 0;
    while i < devices.len()
        invariant
            i <= devices@.len(),
            forall|j: int| 0 <= j < i ==> !(#[trigger] devices@[j]).connected,
        decreases devices@.len() - i,
    {
        if devices[i].connected {
            return true;
        }
        i = i + 1;
    }
    false
}

/// The addresses of the connected devices that sent no data for too long.
pub fn stale_devices(devices: &[DeviceActivity]) -> (r: Vec<u64>)
    ensures
        r@ == stale_addresses(devices@),
{
    let mut r: Vec<u64> = Vec::new();
    let mut i: usize = 0;
    while i < devices.len()
        invariant
            i <= devices@.len(),
            r@ == stale_addresses(devices@.take(i as int)),
        decreases devices@.len() - i,
    {
        let d = devices[i];
        proof {
            assert(devices@.take(i as int + 1).drop_last() =~= devices@.take(i as int));
            assert(devices@.take(i as int + 1).last() == d);
        }
        let stale = d.connected && match d.data_age_nanos {
            Some(age) => age > STALE_AFTER_NANOS,
            None => false,
        };
        if stale {
            r.push(d.address);
        }
        i = i + 1;
    }
    proof {
        assert(devices@.take(devices@.len() as int) =~= devices@);
    }
    r
}

/// The periodic check: while a device is connected, finds the connected devices that went silent, and
/// decides whether the next automatic scan is due.
pub fn auto_scan_step(devices: &[DeviceActivity], since_last_scan_nanos: Option<u128>) -> (r: AutoScanStep)
    ensures
        r.stale@ == (if any_connected(devices@) { stale_addresses(devices@) } else { Seq::empty() }),
        r.interval_secs == scan_interval_secs(any_connected(devices@)),
        r.scan == scan_due(since_last_scan_nanos, r.interval_secs),
{
    let has_connected = has_connected_device(devices);
    let stale = if has_connected { stale_devices(devices) } else { Vec::new() };
    let interval_secs = if has_connected { SCAN_INTERVAL_CONNECTED_SECS } else { SCAN_INTERVAL_DISCONNECTED_SECS };
    let scan = match since_last_scan_nanos {
        Some(t) => t >= (interval_secs as u128) * 1_000_000_000,
        None => true,
    };
    AutoScanStep { stale, interval_secs, scan }
}

/// The first place of an address in a list.
pub fn position_of(s: &[u64], a: u64) -> (r: Option<usize>)
    ensures
        is_first_index(s@, a, r),
{
    let mut i: usize = 0;
    while i < s.len()
        invariant
            i <= s@.len(),
            forall|j: int| 0 <= j < i ==> #[trigger] s@[j] != a,
        decreases s@.len() - i,
    {
        if s[i] == a {
            return Some(i);
        }
        i = i + 1;
    }
    None
}

/// Where in the list of known devices to reconnect to a device that went silent: nowhere while
/// some device is connected, or when it is no longer known.
pub fn reconnect_index(devices: &[DeviceActivity], known: &[u64], target: u64) -> (r: Option<usize>)
    ensures
        any_connected(devices@) ==> r is None,
        !any_connected(devices@) ==> is_first_index(known@, target, r),
{
    if has_connected_device(devices) {
        None
    } else {
        position_of(known, target)
    }
}

/// Where in the list of known devices to connect at start-up: the first persisted device, if
/// the list holds it.
pub fn startup_connect_index(persisted: &[u64], known: &[u64]) -> (r: Option<usize>)
    ensures
        persisted@.len() == 0 ==> r is None,
        persisted@.len() > 0 ==> is_first_index(known@, persisted@[0], r),
{
    if persisted.len() == 0 {
        None
    } else {
        position_of(known, persisted[0])
    }
}

/// A device that a scan found.
#[derive(Debug, Clone, Copy, PartialEq, Eq, Structural)]
pub struct FoundDevice {
    /// The device's address.
    pub address: u64,
    /// Its signal strength in dBm, where the scan measured one.
    pub rssi: Option<i16>,
}

/// The signal strength that the scan gave for `a`: that of the first found device with that
/// address, `None` where it was not found or had none.
pub open spec fn found_rssi(found: Seq<FoundDevice>, a: u64) -> Option<i16>
    decreases found.len(),
{
    if found.len() == 0 {
        None
    } else if found[0].address == a {
        found[0].rssi
    } else {
        found_rssi(found.drop_first(), a)
    }
}

/// The text of the status line after a scan.
pub open spec fn scan_status(found_count: nat) -> Seq<char> {
    if found_count == 0 {
        "No devices found"@
    } else {
        "Found "@ + decimal(found_count) + " device(s)"@
    }
}

/// The signal strength that the scan gave for one address.
pub fn rssi_of(found: &[FoundDevice], a: u64) -> (r: Option<i16>)
    ensures
        r == found_rssi(found@, a),
{
    let mut k: usize = 0;
    proof {
        assert(found@.skip(0) =~= found@);
    }
    while k < found.len()
        invariant
            k <= found@.len(),
            found_rssi(found@, a) == found_rssi(found@.skip(k as int), a),
        decreases found@.len() - k,
    {
        proof {
            assert(found@.skip(k as int).drop_first() =~= found@.skip(k as int + 1));
        }
        if found[k].address == a {
            return found[k].rssi;
        }
        k = k + 1;
    }
    None
}

/// The signal strength of each known device, for the labels of the device list.
pub fn known_device_rssi(known: &[u64], found: &[FoundDevice]) -> (r: Vec<Option<i16>>)
    ensures
        r@.len() == known@.len(),
        forall|i: int| 0 <= i < known@.len() ==> #[trigger] r@[i] == found_rssi(found@, known@[i]),
{
    let mut r: Vec<Option<i16>> = Vec::new();
    let mut i: usize = 0;
    while i < known.len()
        invariant
            i <= known@.len(),
            r@.len() == i,
            forall|j: int| 0 <= j < i ==> #[trigger] r@[j] == found_rssi(found@, known@[j]),
        decreases known@.len() - i,
    {
        let rssi = rssi_of(found, known[i]);
        r.push(rssi);
        i = i + 1;
    }
    r
}

/// The status line after a scan.
pub fn scan_status_text(found_count: usize) -> (r: String)
    ensures
        r@ == scan_status(found_count as nat),
{
    if found_count == 0 {
        "No devices found".to_owned()
    } else {
        let mut s = "Found ".to_owned();
        push_decimal(&mut s, found_count as u64);
        s.append(" device(s)");
        s
    }
}

/// An event that a connected device reports.
#[derive(Debug, Clone, Copy, PartialEq, Eq, Structural)]
pub enum DeviceEvent {
    /// New temperature and humidity readings.
    SensorUpdate,
    /// The battery level in percent.
    BatteryLevel(u8),
    /// The alarm of a slot went off.
    AlarmTriggered(u8),
    /// The link to the device was lost.
    Disconnected,
    /// The link to the device is back.
    Reconnected,
    /// Any other event.
    Other,
}

/// How the Bluetooth indicator shows the link.
#[derive(Debug, Clone, Copy, PartialEq, Eq, Structural)]
pub enum LinkIndicator {
    /// Blinking: the link is being re-established.
    Blinking,
    /// Steady: the link is up.
    Steady,
}

/// What the window does with a device event.
#[derive(Debug, Clone, PartialEq, Eq)]
pub struct EventOutcome {
    /// The device's activity after the event; `None` where the device is not tracked.
    pub activity: Option<DeviceActivity>,
    /// The battery level to store for the device, if the event reported one.
    pub battery: Option<u8>,
    /// The status line to show, for the selected device.
    pub status: Option<String>,
    /// The battery level for the battery icon, for the selected device.
    pub battery_shown: Option<u8>,
    /// How the Bluetooth indicator changes, for the selected device.
    pub link: Option<LinkIndicator>,
}

/// The activity of a tracked device after an event: every event but a lost link marks fresh
/// data; a lost link clears the data and the connection, a restored one sets the connection.
pub open spec fn activity_after(a: DeviceActivity, e: DeviceEvent) -> DeviceActivity {
    match e {
        DeviceEvent::SensorUpdate => DeviceActivity { data_age_nanos: Some(0), ..a },
        DeviceEvent::BatteryLevel(_) => DeviceActivity { data_age_nanos: Some(0), ..a },
        DeviceEvent::AlarmTriggered(_) => DeviceActivity { data_age_nanos: Some(0), ..a },
        DeviceEvent::Disconnected => DeviceActivity { data_age_nanos: None, connected: false, ..a },
        DeviceEvent::Reconnected => DeviceActivity { data_age_nanos: Some(0), connected: true, ..a },
        DeviceEvent::Other => a,
    }
}

/// The status line that an event shows for the selected device.
pub open spec fn event_status(e: DeviceEvent) -> Option<Seq<char>> {
    match e {
        DeviceEvent::AlarmTriggered(slot) => Some("Alarm "@ + decimal(slot as nat) + " triggered"@),
        DeviceEvent::Disconnected => Some("Reconnecting..."@),
        DeviceEvent::Reconnected => Some("Device reconnected"@),
        _ => None,
    }
}

/// How an event changes the Bluetooth indicator of the selected device.
pub open spec fn event_link(e: DeviceEvent) -> Option<LinkIndicator> {
    match e {
        DeviceEvent::Disconnected => Some(LinkIndicator::Blinking),
        DeviceEvent::Reconnected => Some(LinkIndicator::Steady),
        _ => None,
    }
}

/// What the window does with an event of a device: update the device's activity where it is
/// tracked, and, where it is the selected device, the status line and indicators.
pub fn on_device_event(state: Option<DeviceActivity>, event: DeviceEvent, is_selected: bool) -> (r: EventOutcome)
    ensures
        r.activity == (match state {
            Some(a) => Some(activity_after(a, event)),
            None => None::<DeviceActivity>,
        }),
        r.battery == (match event {
            DeviceEvent::BatteryLevel(l) => if state is Some { Some(l) } else { None::<u8> },
            _ => None::<u8>,
        }),
        match event_status(event) {
            Some(text) => if is_selected { r.status is Some && r.status->0@ == text } else { r.status is None },
            None => r.status is None,
        },
        r.battery_shown == (match event {
            DeviceEvent::BatteryLevel(l) => if is_selected { Some(l) } else { None::<u8> },
            _ => None::<u8>,
        }),
        r.link == (if is_selected { event_link(event) } else { None }),
{
    let activity = match state {
        Some(a) => Some(match event {
            DeviceEvent::SensorUpdate => DeviceActivity { data_age_nanos: Some(0), ..a },
            DeviceEvent::BatteryLevel(_) => DeviceActivity { data_age_nanos: Some(0), ..a },
            DeviceEvent::AlarmTriggered(_) => DeviceActivity { data_age_nanos: Some(0), ..a },
            DeviceEvent::Disconnected => DeviceActivity { data_age_nanos: None, connected: false, ..a },
            DeviceEvent::Reconnected => DeviceActivity { data_age_nanos: Some(0), connected: true, ..a },
            DeviceEvent::Other => a,
        }),
        None => None,
    };
    let battery = match event {
        DeviceEvent::BatteryLevel(l) => if state.is_some() { Some(l) } else { None },
        _ => None,
    };
    if !is_selected {
        return EventOutcome { activity, battery, status: None, battery_shown: None, link: None };
    }
    let status = match event {
        DeviceEvent::AlarmTriggered(slot) => {
            let mut s = "Alarm ".to_owned();
            push_decimal(&mut s, slot as u64);
            s.append(" triggered");
            Some(s)
        },
        DeviceEvent::Disconnected => Some("Reconnecting...".to_owned()),
        DeviceEvent::Reconnected => Some("Device reconnected".to_owned()),
        _ => None,
    };
    let battery_shown = match event {
        DeviceEvent::BatteryLevel(l) => Some(l),
        _ => None,
    };
    let link = match event {
        DeviceEvent::Disconnected => Some(LinkIndicator::Blinking),
        DeviceEvent::Reconnected => Some(LinkIndicator::Steady),
        _ => None,
    };
    EventOutcome { activity, battery, status, battery_shown, link }
}

/// Readings keep the link as it is: after a sensor update, a battery report or a triggered
/// alarm the device keeps its address and its connection state, and its data is fresh.
pub proof fn law_readings_keep_connection(a: DeviceActivity, level: u8, slot: u8)
    ensures
        activity_after(a, DeviceEvent::SensorUpdate).connected == a.connected,
        activity_after(a, DeviceEvent::SensorUpdate).address == a.address,
        activity_after(a, DeviceEvent::SensorUpdate).data_age_nanos == Some(0u128),
        activity_after(a, DeviceEvent::BatteryLevel(level)).connected == a.connected,
        activity_after(a, DeviceEvent::BatteryLevel(level)).address == a.address,
        activity_after(a, DeviceEvent::BatteryLevel(level)).data_age_nanos == Some(0u128),
        activity_after(a, DeviceEvent::AlarmTriggered(slot)).connected == a.connected,
        activity_after(a, DeviceEvent::AlarmTriggered(slot)).address == a.address,
        activity_after(a, DeviceEvent::AlarmTriggered(slot)).data_age_nanos == Some(0u128),
        activity_after(a, DeviceEvent::Other) == a,
{
}

/// A device that reports anything but a lost link is fresh again and is not found stale; a
/// lost link leaves it disconnected, and it is fresh and connected again once the link is back.
pub proof fn law_events_refresh_activity(a: DeviceActivity, e: DeviceEvent)
    ensures
        e != DeviceEvent::Disconnected && e != DeviceEvent::Other ==> !is_stale(activity_after(a, e)),
        !activity_after(activity_after(a, DeviceEvent::Disconnected), DeviceEvent::Disconnected).connected,
        activity_after(activity_after(a, DeviceEvent::Disconnected), DeviceEvent::Reconnected)
            == (DeviceActivity { data_age_nanos: Some(0), connected: true, ..a }),
{
}

/// The brightness levels of the feedback after connecting: a triple blink at 20, 50 and 80,
/// where the configuration asks for blinking on connect, none otherwise.
pub fn connect_feedback_levels(blink_on_connect: bool) -> (r: Vec<u8>)
    ensures
        blink_on_connect ==> r@ == seq![20u8, 50u8, 80u8],
        !blink_on_connect ==> r@.len() == 0,
{
    if blink_on_connect {
        let r = vec![20u8, 50u8, 80u8];
        assert(r@ =~= seq![20u8, 50u8, 80u8]);
        r
    } else {
        Vec::new()
    }
}

} // verus!
