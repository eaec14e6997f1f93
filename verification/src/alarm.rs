//! Alarms as the clock stores them, and when the next one fires.

use vstd::prelude::*;
use vstd::string::StringExecFns;
use crate::text::{decimal, push_decimal};

verus! {

/// Repeat mask of an alarm that fires once.
pub const ONCE_MASK: u8 = 0x00;
/// Repeat mask of an alarm that fires every day.
pub const EVERY_DAY_MASK: u8 = 0x7f;
/// Repeat mask of an alarm that fires on weekdays, as the clock's protocol writes it (`3e`).
///
/// The value assumes bit 0 = Sunday … bit 6 = Saturday, so that it selects Monday to Friday.
/// The next-ring logic of this library reads bit 0 as Monday, the layout the alarm editor's
/// day toggles use; under that layout this mask selects Tuesday to Saturday.
pub const WEEKDAYS_MASK: u8 = 0x3e;
/// Repeat mask of an alarm that fires on weekends.
///
/// The value assumes bit 0 = Sunday … bit 6 = Saturday, so that it selects Saturday and
/// Sunday. Under the bit 0 = Monday layout of the next-ring logic it selects Monday and Sunday.
pub const WEEKENDS_MASK: u8 = 0x41;

/// One alarm: its time, the days it repeats on (bit 0 = Monday … bit 6 = Sunday; no bit set
/// means once), and whether it is enabled and may be snoozed.
#[derive(Debug, Clone, Copy, PartialEq, Eq, Structural)]
pub struct AlarmEntry {
    pub hour: u8,
    pub minute: u8,
    pub repeat_mask: u8,
    pub enabled: bool,
    pub snooze: bool,
}

/// An alarm together with the slot (0–15) that holds it on the device.
#[derive(Debug, Clone, Copy, PartialEq, Eq, Structural)]
pub struct AlarmSlot {
    pub index: u8,
    pub entry: AlarmEntry,
}

/// A moment in local civil time: a day number, the weekday of that day (0 = Monday … 6 =
/// Sunday) and the whole seconds elapsed since midnight.
#[derive(Debug, Clone, Copy, PartialEq, Eq, Structural)]
pub struct LocalDateTime {
    pub day: u32,
    pub weekday: u8,
    pub second_of_day: u32,
}

/// A moment whose parts are in range, with room for two weeks of days after it.
pub open spec fn valid_moment(t: LocalDateTime) -> bool {
    &&& t.weekday < 7
    &&& t.second_of_day < 86400
    &&& t.day + 14 <= u32::MAX
}

/// Whether moment `a` comes strictly before moment `b`.
pub open spec fn moment_before(a: LocalDateTime, b: LocalDateTime) -> bool {
    a.day < b.day || (a.day == b.day && a.second_of_day < b.second_of_day)
}

/// The second of the day at which an alarm set to `hour:minute` rings.
pub open spec fn alarm_second(hour: u8, minute: u8) -> nat {
    hour as nat * 3600 + minute as nat * 60
}

/// Whether the repeat mask enables the given weekday.
pub open spec fn day_enabled(mask: u8, weekday: u8) -> bool {
    mask & (1u8 << weekday) != 0
}

/// Whether a repeating alarm at `second` rings `d` days after `now`'s day, later than `now`.
pub open spec fn rings_on(now: LocalDateTime, mask: u8, second: nat, d: nat) -> bool {
    &&& day_enabled(mask, ((now.weekday + d) % 7) as u8)
    &&& (d > 0 || second > now.second_of_day)
}

/// The moment `d` days after `now`'s day at `second`.
pub open spec fn moment_at(now: LocalDateTime, d: nat, second: nat) -> LocalDateTime {
    LocalDateTime {
        day: (now.day + d) as u32,
        weekday: ((now.weekday + d) % 7) as u8,
        second_of_day: second as u32,
    }
}

/// When an alarm at `hour:minute` with the given repeat mask next rings after `now`, looking at
/// most two weeks ahead. An alarm that fires once rings today if its time is still to come,
/// else tomorrow. A repeating alarm rings on the first enabled weekday at its time after `now`;
/// `None` where the mask enables no weekday.
pub open spec fn next_fire(now: LocalDateTime, hour: u8, minute: u8, mask: u8) -> Option<LocalDateTime> {
    let second = alarm_second(hour, minute);
    if mask == ONCE_MASK {
        Some(moment_at(now, if second > now.second_of_day { 0 } else { 1 }, second))
    } else if exists|d: nat| d < 14 && rings_on(now, mask, second, d) {
        let d = choose|d: nat| d < 14 && rings_on(now, mask, second, d)
            && forall|e: nat| e < d ==> !rings_on(now, mask, second, e);
        Some(moment_at(now, d, second))
    } else {
        None
    }
}

proof fn lemma_least_ring(now: LocalDateTime, mask: u8, second: nat, d: nat)
    requires
        d < 14,
        rings_on(now, mask, second, d),
        forall|e: nat| e < d ==> !rings_on(now, mask, second, e),
    ensures
        (choose|x: nat| x < 14 && rings_on(now, mask, second, x)
            && forall|e: nat| e < x ==> !rings_on(now, mask, second, e)) == d,
{
    let x = choose|x: nat| x < 14 && rings_on(now, mask, second, x)
            && forall|e: nat| e < x ==> !rings_on(now, mask, second, e);
    assert(x < 14 && rings_on(now, mask, second, x) && forall|e: nat| e < x ==> !rings_on(now, mask, second, e));
    if x < d {
        assert(!rings_on(now, mask, second, x));
    } else if d < x {
        assert(!rings_on(now, mask, second, d));
    }
}

/// Compute the next moment this alarm will ring, given the current moment and repeat mask.
pub fn compute_next_fire(now: LocalDateTime, hour: u8, minute: u8, mask: u8) -> (r: Option<LocalDateTime>)
    requires
        valid_moment(now),
        hour < 24,
        minute < 60,
    ensures
        r == next_fire(now, hour, minute, mask),
{
    let second: u32 = hour as u32 * 3600 + minute as u32 * 60;
    if mask == ONCE_MASK {
        let d: u32 = if second > now.second_of_day { 0 } else { 1 };
        return Some(LocalDateTime { day: now.day + d, weekday: ((now.weekday as u32 + d) % 7) as u8, second_of_day: second });
    }
    let mut d: u32 = 0;
    while d < 14
        invariant
            d <= 14,
            valid_moment(now),
            second as nat == alarm_second(hour, minute),
            mask != ONCE_MASK,
            forall|e: nat| e < d ==> !rings_on(now, mask, second as nat, e),
        decreases 14 - d,
    {
        let wd: u8 = ((now.weekday as u32 + d) % 7) as u8;
        if mask & (1u8 << wd) != 0 && (d > 0 || second > now.second_of_day) {
            proof {
                assert(rings_on(now, mask, second as nat, d as nat));
                lemma_least_ring(now, mask, second as nat, d as nat);
            }
            return Some(LocalDateTime { day: now.day + d, weekday: wd, second_of_day: second });
        }
        d = d + 1;
    }
    None
}

/// Local times of a day that name no single instant in the machine's time zone: a gap that a
/// clock change skips, or an overlap that it repeats. The seconds from `start_second` up to
/// `end_second` of day `day` are affected.
#[derive(Debug, Clone, Copy, PartialEq, Eq, Structural)]
pub struct LocalSpan {
    pub day: u32,
    pub start_second: u32,
    pub end_second: u32,
}

/// Whether the local time `second` of day `day` lies in one of the spans.
pub open spec fn unresolved(spans: Seq<LocalSpan>, day: int, second: nat) -> bool {
    exists|i: int| 0 <= i < spans.len() && #[trigger] spans[i].day == day
        && spans[i].start_second <= second < spans[i].end_second
}

/// Whether every day that is looked at on the way to the ring `w` names a single instant at the
/// alarm's time: today for an alarm that fires once; each enabled weekday up to and including
/// the day of `w` for a repeating alarm.
pub open spec fn fire_resolves(now: LocalDateTime, second: nat, mask: u8, w: LocalDateTime, spans: Seq<LocalSpan>) -> bool {
    if mask == ONCE_MASK {
        !unresolved(spans, now.day as int, second)
    } else {
        forall|d: nat| d <= w.day - now.day && #[trigger] day_enabled(mask, ((now.weekday + d) % 7) as u8)
            ==> !unresolved(spans, now.day + d, second)
    }
}

/// When an alarm next rings in local time: the calendar's next ring, or `None` where a day
/// looked at on the way holds the alarm's time in a gap or an overlap of the clock.
pub open spec fn local_fire(now: LocalDateTime, hour: u8, minute: u8, mask: u8, spans: Seq<LocalSpan>) -> Option<LocalDateTime> {
    match next_fire(now, hour, minute, mask) {
        Some(w) => if fire_resolves(now, alarm_second(hour, minute), mask, w, spans) { Some(w) } else { None },
        None => None,
    }
}

/// Whether the local time `second` of day `day` lies in one of the spans.
pub fn is_unresolved(spans: &[LocalSpan], day: u32, second: u32) -> (r: bool)
    ensures
        r == unresolved(spans@, day as int, second as nat),
{
    let mut i: usize = 0;
    while i < spans.len()
        invariant
            i <= spans@.len(),
            forall|j: int| 0 <= j < i ==> !(#[trigger] spans@[j].day == day
                && spans@[j].start_second <= second < spans@[j].end_second),
        decreases spans@.len() - i,
    {
        let sp = spans[i];
        if sp.day == day && sp.start_second <= second && second < sp.end_second {
            assert(spans@[i as int].day == day);
            return true;
        }
        i = i + 1;
    }
    false
}

/// When an alarm next rings in local time, given the gaps and overlaps of the clock in the
/// next two weeks.
pub fn compute_local_fire(now: LocalDateTime, hour: u8, minute: u8, mask: u8, spans: &[LocalSpan]) -> (r: Option<LocalDateTime>)
    requires
        valid_moment(now),
        hour < 24,
        minute < 60,
    ensures
        r == local_fire(now, hour, minute, mask, spans@),
{
    let w = match compute_next_fire(now, hour, minute, mask) {
        Some(w) => w,
        None => return None,
    };
    let second: u32 = hour as u32 * 3600 + minute as u32 * 60;
    if mask == ONCE_MASK {
        if is_unresolved(spans, now.day, second) {
            return None;
        }
        return Some(w);
    }
    proof {
        law_next_fire_is_earliest(now, hour, minute, mask, 0);
    }
    let last: u32 = w.day - now.day;
    let mut d: u32 = 0;
    while d <= last
        invariant
            valid_moment(now),
            last == w.day - now.day,
            last <= 14,
            next_fire(now, hour, minute, mask) == Some(w),
            second as nat == alarm_second(hour, minute),
            mask != ONCE_MASK,
            d <= last + 1,
            forall|e: nat| e < d && #[trigger] day_enabled(mask, ((now.weekday + e) % 7) as u8)
                ==> !unresolved(spans@, now.day + e, second as nat),
        decreases last + 1 - d,
    {
        let wd: u8 = ((now.weekday as u32 + d) % 7) as u8;
        if mask & (1u8 << wd) != 0 {
            if is_unresolved(spans, now.day + d, second) {
                proof {
                    let dn: nat = d as nat;
                    assert(day_enabled(mask, ((now.weekday + dn) % 7) as u8));
                    assert(unresolved(spans@, now.day + dn, second as nat));
                    assert(!fire_resolves(now, second as nat, mask, w, spans@));
                }
                return None;
            }
        }
        d = d + 1;
    }
    Some(w)
}

} // verus!

verus! {

/// The next ring of an alarm is strictly after the current moment, at the alarm's time of day,
/// and, for a repeating alarm, on an enabled weekday; no moment at the alarm's time on an
/// enabled weekday (any day for an alarm that fires once) lies between now and it. A
/// repeating alarm has a next ring exactly when its mask enables some weekday.
pub proof fn law_next_fire_is_earliest(now: LocalDateTime, hour: u8, minute: u8, mask: u8, k: nat)
    requires
        valid_moment(now),
        hour < 24,
        minute < 60,
    ensures
        next_fire(now, hour, minute, mask) matches Some(w) ==> {
            &&& moment_before(now, w)
            &&& w.second_of_day == alarm_second(hour, minute)
            &&& w.weekday == (now.weekday + (w.day - now.day)) % 7
            &&& (mask != ONCE_MASK ==> day_enabled(mask, w.weekday))
            &&& ((mask == ONCE_MASK || day_enabled(mask, ((now.weekday + k) % 7) as u8))
                && (k > 0 || alarm_second(hour, minute) > now.second_of_day)
                ==> w.day <= now.day + k)
        },
        mask != ONCE_MASK ==> (next_fire(now, hour, minute, mask) is None
            <==> forall|wd: u8| wd < 7 ==> !day_enabled(mask, wd)),
{
    let second = alarm_second(hour, minute);
    assert(second < 86400);
    if mask != ONCE_MASK {
        if exists|d: nat| d < 14 && rings_on(now, mask, second, d) {
            let d = choose|d: nat| d < 14 && rings_on(now, mask, second, d)
                && forall|e: nat| e < d ==> !rings_on(now, mask, second, e);
            // A least ringing day exists below 14.
            let d0 = choose|d: nat| d < 14 && rings_on(now, mask, second, d);
            lemma_least_exists(now, mask, second, d0);
            if day_enabled(mask, ((now.weekday + k) % 7) as u8) && (k > 0 || second > now.second_of_day) {
                let k2: nat = if k < 14 { k } else if k % 7 == 0 { 7 } else { k % 7 };
                assert((now.weekday + k2) % 7 == (now.weekday + k) % 7) by (nonlinear_arith)
                    requires k2 == (if k < 14 { k } else if k % 7 == 0 { 7 } else { k % 7 });
                assert(rings_on(now, mask, second, k2));
                if k2 < d {
                    assert(!rings_on(now, mask, second, k2));
                }
            }
            let wd = ((now.weekday + d) % 7) as u8;
            assert(wd < 7);
        } else {
            assert forall|wd: u8| wd < 7 implies !day_enabled(mask, wd) by {
                let d: nat = (if wd >= now.weekday { wd - now.weekday } else { wd + 7 - now.weekday }) as nat;
                let d1: nat = d + 7;
                assert((now.weekday + d1) % 7 == wd);
                assert(!rings_on(now, mask, second, d1));
            }
        }
        if forall|wd: u8| wd < 7 ==> !day_enabled(mask, wd) {
            if exists|d: nat| d < 14 && rings_on(now, mask, second, d) {
                let d = choose|d: nat| d < 14 && rings_on(now, mask, second, d);
                assert(((now.weekday + d) % 7) < 7);
            }
        }
    }
}

/// The local next ring is the calendar's next ring or none at all, and without gaps or overlaps
/// of the clock it is the calendar's next ring.
pub proof fn law_local_fire_refines_next_fire(now: LocalDateTime, hour: u8, minute: u8, mask: u8, spans: Seq<LocalSpan>)
    ensures
        local_fire(now, hour, minute, mask, spans) is Some ==> local_fire(now, hour, minute, mask, spans) == next_fire(now, hour, minute, mask),
        spans.len() == 0 ==> local_fire(now, hour, minute, mask, spans) == next_fire(now, hour, minute, mask),
{
}

/// Where some day below 14 rings, a least such day exists.
proof fn lemma_least_exists(now: LocalDateTime, mask: u8, second: nat, d: nat)
    requires
        d < 14,
        rings_on(now, mask, second, d),
    ensures
        exists|x: nat| x < 14 && rings_on(now, mask, second, x)
            && forall|e: nat| e < x ==> !rings_on(now, mask, second, e),
    decreases d,
{
    if exists|e: nat| e < d && rings_on(now, mask, second, e) {
        let e = choose|e: nat| e < d && rings_on(now, mask, second, e);
        lemma_least_exists(now, mask, second, e);
    } else {
        assert(forall|e: nat| e < d ==> !rings_on(now, mask, second, e));
    }
}

} // verus!

verus! {

/// Computed next alarm time with a short label.
#[derive(Debug, Clone)]
pub struct NextAlarm {
    /// The moment when the alarm will ring.
    pub when: LocalDateTime,
    /// Short label for display, e.g. "07:30 Mon".
    pub label: String,
}

/// The short English name of a weekday (0 = Monday).
pub open spec fn weekday_name(wd: u8) -> Seq<char> {
    if wd == 0 { "Mon"@ }
    else if wd == 1 { "Tue"@ }
    else if wd == 2 { "Wed"@ }
    else if wd == 3 { "Thu"@ }
    else if wd == 4 { "Fri"@ }
    else if wd == 5 { "Sat"@ }
    else { "Sun"@ }
}

/// Short weekday name for display.
pub fn weekday_short(wd: u8) -> (r: &'static str)
    ensures
        r@ == weekday_name(wd),
{
    if wd == 0 { "Mon" }
    else if wd == 1 { "Tue" }
    else if wd == 2 { "Wed" }
    else if wd == 3 { "Thu" }
    else if wd == 4 { "Fri" }
    else if wd == 5 { "Sat" }
    else { "Sun" }
}

/// The label of an alarm's next ring: `HH:MM`, followed by a space and the weekday of the ring
/// unless the alarm repeats every day.
pub open spec fn alarm_label(when: LocalDateTime, entry: AlarmEntry) -> Seq<char> {
    let time = crate::text::two_digits(entry.hour as nat) + seq![':'] + crate::text::two_digits(entry.minute as nat);
    if entry.repeat_mask == EVERY_DAY_MASK {
        time
    } else {
        time + seq![' '] + weekday_name(when.weekday)
    }
}

/// The weekday names, Monday first.
pub open spec fn weekday_names_in_order() -> Seq<Seq<char>> {
    seq!["Mon"@, "Tue"@, "Wed"@, "Thu"@, "Fri"@, "Sat"@, "Sun"@]
}

/// The name of weekday `wd` (0 = Monday) is the `wd`-th of Monday to Sunday, so distinct
/// weekdays have distinct names; an alarm's label ends with the name of its ring's weekday unless
/// it repeats every day.
pub proof fn law_weekday_names(wd: u8, other: u8, when: LocalDateTime, entry: AlarmEntry)
    requires
        wd < 7,
        other < 7,
    ensures
        weekday_name(wd) == weekday_names_in_order()[wd as int],
        wd != other ==> weekday_name(wd) != weekday_name(other),
        entry.repeat_mask != EVERY_DAY_MASK ==> alarm_label(when, entry).skip(
            alarm_label(when, entry).len() - weekday_name(when.weekday).len()) == weekday_name(when.weekday),
{
    reveal_strlit("Mon");
    reveal_strlit("Tue");
    reveal_strlit("Wed");
    reveal_strlit("Thu");
    reveal_strlit("Fri");
    reveal_strlit("Sat");
    reveal_strlit("Sun");
    if wd != other {
        assert(weekday_name(wd)[0] != weekday_name(other)[0] || weekday_name(wd)[1] != weekday_name(other)[1]);
    }
    if entry.repeat_mask != EVERY_DAY_MASK {
        let time = crate::text::two_digits(entry.hour as nat) + seq![':'] + crate::text::two_digits(entry.minute as nat);
        let lab = alarm_label(when, entry);
        assert(lab == time + seq![' '] + weekday_name(when.weekday));
        assert(lab.skip(lab.len() - weekday_name(when.weekday).len()) =~= weekday_name(when.weekday));
    }
}

/// Format a short label for the next alarm, e.g. "07:30 Mon".
pub fn format_label(when: LocalDateTime, slot: &AlarmSlot) -> (r: String)
    ensures
        r@ == alarm_label(when, slot.entry),
{
    let mut s = String::new();
    crate::text::push_two_digits(&mut s, slot.entry.hour as u64);
    s.append(":");
    crate::text::push_two_digits(&mut s, slot.entry.minute as u64);
    proof {
        reveal_strlit(":");
        reveal_strlit(" ");
    }
    if slot.entry.repeat_mask != EVERY_DAY_MASK {
        s.append(" ");
        s.append(weekday_short(when.weekday));
    }
    s
}

/// When an alarm slot next rings: `None` where its time is not a valid time of day or it
/// never rings.
pub open spec fn slot_fire(now: LocalDateTime, sp: Seq<LocalSpan>, s: AlarmSlot) -> Option<LocalDateTime> {
    if s.entry.hour < 24 && s.entry.minute < 60 {
        local_fire(now, s.entry.hour, s.entry.minute, s.entry.repeat_mask, sp)
    } else {
        None
    }
}

/// Whether a slot takes part in choosing the next alarm: it is enabled and has a next ring.
pub open spec fn will_ring(now: LocalDateTime, sp: Seq<LocalSpan>, s: AlarmSlot) -> bool {
    s.entry.enabled && slot_fire(now, sp, s) is Some
}

/// Slot `i` is the enabled slot with a next ring that rings first, the first in the list among
/// those that ring at that moment.
pub open spec fn first_to_ring(now: LocalDateTime, sp: Seq<LocalSpan>, slots: Seq<AlarmSlot>, i: int) -> bool {
    &&& 0 <= i < slots.len()
    &&& slots[i].entry.enabled
    &&& slot_fire(now, sp, slots[i]) is Some
    &&& forall|j: int| 0 <= j < i && slots[j].entry.enabled && #[trigger] slot_fire(now, sp, slots[j]) is Some
        ==> moment_before(slot_fire(now, sp, slots[i])->0, slot_fire(now, sp, slots[j])->0)
    &&& forall|j: int| i < j < slots.len() && slots[j].entry.enabled && #[trigger] slot_fire(now, sp, slots[j]) is Some
        ==> !moment_before(slot_fire(now, sp, slots[j])->0, slot_fire(now, sp, slots[i])->0)
}

/// Compute the next upcoming alarm from a list of alarm slots.
///
/// Only enabled alarms are considered. Returns `None` if no enabled alarm exists; an enabled
/// alarm with no valid time, that never rings, or whose time falls in a gap or an overlap of
/// the clock (`spans`) on a day looked at takes no part.
pub fn next_alarm(now: LocalDateTime, slots: &[AlarmSlot], spans: &[LocalSpan]) -> (r: Option<NextAlarm>)
    requires
        valid_moment(now),
    ensures
        match r {
            None => forall|i: int| 0 <= i < slots@.len() ==> !will_ring(now, spans@, #[trigger] slots@[i]),
            Some(na) => exists|i: int| #[trigger] first_to_ring(now, spans@, slots@, i)
                && na.when == slot_fire(now, spans@, slots@[i])->0
                && na.label@ == alarm_label(na.when, slots@[i].entry),
        },
{
    let mut best: Option<NextAlarm> = None;
    let ghost mut best_idx: int = -1;
    let mut i: usize = 0;
    while i < slots.len()
        invariant
            i <= slots@.len(),
            valid_moment(now),
            best is None ==> forall|j: int| 0 <= j < i ==> !will_ring(now, spans@, #[trigger] slots@[j]),
            best matches Some(na) ==> {
                &&& 0 <= best_idx < i
                &&& first_to_ring(now, spans@, slots@.take(i as int), best_idx)
                &&& na.when == slot_fire(now, spans@, slots@[best_idx])->0
                &&& na.label@ == alarm_label(na.when, slots@[best_idx].entry)
            },
        decreases slots@.len() - i,
    {
        let slot = slots[i];
        let fire = if slot.entry.enabled && slot.entry.hour <= 23 && slot.entry.minute <= 59 {
            compute_local_fire(now, slot.entry.hour, slot.entry.minute, slot.entry.repeat_mask, spans)
        } else {
            None
        };
        let ghost prev = slots@.take(i as int);
        let ghost next = slots@.take(i as int + 1);
        proof {
            assert(next[i as int] == slots@[i as int]);
            assert(fire is Some <==> will_ring(now, spans@, slots@[i as int]));
            assert(fire matches Some(w) ==> w == slot_fire(now, spans@, slots@[i as int])->0);
        }
        match fire {
            Some(when) => {
                let replace = match &best {
                    None => true,
                    Some(b) => when.day < b.when.day || (when.day == b.when.day && when.second_of_day < b.when.second_of_day),
                };
                if replace {
                    let label = format_label(when, &slot);
                    proof {
                        assert forall|j: int| 0 <= j < i as int && next[j].entry.enabled && #[trigger] slot_fire(now, spans@, next[j]) is Some
                            implies moment_before(slot_fire(now, spans@, next[i as int])->0, slot_fire(now, spans@, next[j])->0) by {
                            assert(next[j] == prev[j]);
                            assert(will_ring(now, spans@, slots@[j]));
                            if best is Some {
                                if j != best_idx {
                                    assert(!moment_before(slot_fire(now, spans@, prev[j])->0, slot_fire(now, spans@, prev[best_idx])->0)
                                        || moment_before(slot_fire(now, spans@, prev[best_idx])->0, slot_fire(now, spans@, prev[j])->0));
                                }
                            }
                        }
                        best_idx = i as int;
                    }
                    best = Some(NextAlarm { when, label });
                } else {
                    proof {
                        let bi = best_idx;
                        assert forall|j: int| bi < j < next.len() && next[j].entry.enabled && #[trigger] slot_fire(now, spans@, next[j]) is Some
                            implies !moment_before(slot_fire(now, spans@, next[j])->0, slot_fire(now, spans@, next[bi])->0) by {
                            if j < i {
                                assert(next[j] == prev[j]);
                            }
                        }
                        assert forall|j: int| 0 <= j < bi && next[j].entry.enabled && #[trigger] slot_fire(now, spans@, next[j]) is Some
                            implies moment_before(slot_fire(now, spans@, next[bi])->0, slot_fire(now, spans@, next[j])->0) by {
                            assert(next[j] == prev[j]);
                        }
                    }
                }
            },
            None => {
                proof {
                    if best is Some {
                        let bi = best_idx;
                        assert forall|j: int| bi < j < next.len() && next[j].entry.enabled && #[trigger] slot_fire(now, spans@, next[j]) is Some
                            implies !moment_before(slot_fire(now, spans@, next[j])->0, slot_fire(now, spans@, next[bi])->0) by {
                            if j < i {
                                assert(next[j] == prev[j]);
                            }
                        }
                        assert forall|j: int| 0 <= j < bi && next[j].entry.enabled && #[trigger] slot_fire(now, spans@, next[j]) is Some
                            implies moment_before(slot_fire(now, spans@, next[bi])->0, slot_fire(now, spans@, next[j])->0) by {
                            assert(next[j] == prev[j]);
                        }
                    }
                }
            },
        }
        i = i + 1;
    }
    proof {
        assert(slots@.take(slots@.len() as int) =~= slots@);
    }
    best
}

} // verus!

verus! {

/// The state of the repeat toggles of an alarm row: the "once" toggle and one toggle per
/// weekday (Monday first).
pub open spec fn toggles_of_mask(mask: u8) -> (bool, Seq<bool>) {
    (mask == ONCE_MASK, Seq::new(7, |j: int| day_enabled(mask, j as u8)))
}

/// The repeat mask that an alarm row's toggles select: "once", or the selected weekdays.
pub open spec fn mask_of_toggles(once: bool, days: Seq<bool>) -> u8 {
    if once {
        ONCE_MASK
    } else {
        mask_of_days(days, 7)
    }
}

/// The mask with bit `j` set for each of the first `n` selected days.
pub open spec fn mask_of_days(days: Seq<bool>, n: nat) -> u8
    decreases n,
{
    if n == 0 {
        0
    } else if days[n - 1] {
        mask_of_days(days, (n - 1) as nat) | (1u8 << ((n - 1) as u8))
    } else {
        mask_of_days(days, (n - 1) as nat)
    }
}

proof fn lemma_bit_set(m: u8, j: u8, k: u8)
    requires
        j < 8,
        k < 8,
    ensures
        ((m | (1u8 << j)) & (1u8 << k) != 0) == ((m & (1u8 << k) != 0) || j == k),
{
    assert(((m | (1u8 << j)) & (1u8 << k) != 0) == ((m & (1u8 << k) != 0) || j == k)) by (bit_vector)
        requires j < 8, k < 8;
}

proof fn lemma_mask_of_days_bits(days: Seq<bool>, n: nat, k: u8)
    requires
        n <= 7,
        days.len() == 7,
        k < 8,
    ensures
        day_enabled(mask_of_days(days, n), k) == (k < n && days[k as int]),
    decreases n,
{
    if n > 0 {
        lemma_mask_of_days_bits(days, (n - 1) as nat, k);
        if days[n - 1] {
            lemma_bit_set(mask_of_days(days, (n - 1) as nat), (n - 1) as u8, k);
        }
    } else {
        assert(0u8 & (1u8 << k) == 0) by (bit_vector);
    }
}

/// A mask is fixed by its eight bits.
proof fn lemma_mask_by_bits(a: u8, b: u8)
    requires
        forall|k: u8| k < 8 ==> day_enabled(a, k) == day_enabled(b, k),
    ensures
        a == b,
{
    assert(day_enabled(a, 0) == day_enabled(b, 0));
    assert(day_enabled(a, 1) == day_enabled(b, 1));
    assert(day_enabled(a, 2) == day_enabled(b, 2));
    assert(day_enabled(a, 3) == day_enabled(b, 3));
    assert(day_enabled(a, 4) == day_enabled(b, 4));
    assert(day_enabled(a, 5) == day_enabled(b, 5));
    assert(day_enabled(a, 6) == day_enabled(b, 6));
    assert(day_enabled(a, 7) == day_enabled(b, 7));
    assert(a == b) by (bit_vector)
        requires
            (a & (1u8 << 0u8) != 0) == (b & (1u8 << 0u8) != 0),
            (a & (1u8 << 1u8) != 0) == (b & (1u8 << 1u8) != 0),
            (a & (1u8 << 2u8) != 0) == (b & (1u8 << 2u8) != 0),
            (a & (1u8 << 3u8) != 0) == (b & (1u8 << 3u8) != 0),
            (a & (1u8 << 4u8) != 0) == (b & (1u8 << 4u8) != 0),
            (a & (1u8 << 5u8) != 0) == (b & (1u8 << 5u8) != 0),
            (a & (1u8 << 6u8) != 0) == (b & (1u8 << 6u8) != 0),
            (a & (1u8 << 7u8) != 0) == (b & (1u8 << 7u8) != 0);
}

/// The repeat mask selected by an alarm row's toggles.
pub fn repeat_mask_from_toggles(once: bool, days: &[bool; 7]) -> (r: u8)
    ensures
        r == mask_of_toggles(once, days@),
{
    if once {
        return ONCE_MASK;
    }
    let mut mask: u8 = 0;
    let mut j: usize = 0;
    while j < 7
        invariant
            j <= 7,
            mask == mask_of_days(days@, j as nat),
        decreases 7 - j,
    {
        if days[j] {
            mask = mask | (1u8 << (j as u8));
        }
        j = j + 1;
    }
    mask
}

/// The toggles of an alarm row that shows a repeat mask.
pub fn toggles_from_mask(mask: u8) -> (r: (bool, [bool; 7]))
    ensures
        r.0 == toggles_of_mask(mask).0,
        r.1@ == toggles_of_mask(mask).1,
{
    let mut days = [false; 7];
    let mut j: usize = 0;
    while j < 7
        invariant
            j <= 7,
            days@.len() == 7,
            forall|k: int| 0 <= k < j ==> days@[k] == day_enabled(mask, k as u8),
        decreases 7 - j,
    {
        days[j] = mask & (1u8 << (j as u8)) != 0;
        j = j + 1;
    }
    assert(days@ =~= toggles_of_mask(mask).1);
    (mask == ONCE_MASK, days)
}

/// Showing a repeat mask on an alarm row and reading the row back gives the mask again,
/// for every mask that only uses the seven weekday bits.
pub proof fn law_toggles_roundtrip(mask: u8)
    requires
        mask & 0x80 == 0,
    ensures
        mask_of_toggles(toggles_of_mask(mask).0, toggles_of_mask(mask).1) == mask,
{
    if mask != ONCE_MASK {
        let days = toggles_of_mask(mask).1;
        assert forall|k: u8| k < 8 implies day_enabled(mask_of_days(days, 7), k) == day_enabled(mask, k) by {
            lemma_mask_of_days_bits(days, 7, k);
            if k == 7 {
                assert(mask & (1u8 << 7u8) == 0) by (bit_vector)
                    requires mask & 0x80 == 0;
            }
        }
        lemma_mask_by_bits(mask_of_days(days, 7), mask);
    }
}

/// Reading a row whose weekday toggles select at least one day, with "once" off, and showing
/// the mask again gives the same toggles.
pub proof fn law_mask_roundtrip(days: Seq<bool>)
    requires
        days.len() == 7,
        exists|j: int| 0 <= j < 7 && days[j],
    ensures
        toggles_of_mask(mask_of_toggles(false, days)) == (false, days),
{
    let m = mask_of_days(days, 7);
    let j = choose|j: int| 0 <= j < 7 && days[j];
    lemma_mask_of_days_bits(days, 7, j as u8);
    assert(m != ONCE_MASK) by {
        if m == 0 {
            assert(0u8 & (1u8 << (j as u8)) == 0) by (bit_vector);
        }
    }
    assert forall|k: int| 0 <= k < 7 implies toggles_of_mask(m).1[k] == days[k] by {
        lemma_mask_of_days_bits(days, 7, k as u8);
    }
    assert(toggles_of_mask(m).1 =~= days);
}

} // verus!

verus! {

/// The repeat choice that the alarm dialog shows for a mask: 1 every day, 2 weekdays,
/// 3 weekends, 0 for any other mask (once).
pub open spec fn repeat_choice(mask: u8) -> u32 {
    if mask == EVERY_DAY_MASK { 1 }
    else if mask == WEEKDAYS_MASK { 2 }
    else if mask == WEEKENDS_MASK { 3 }
    else { 0 }
}

/// The mask that a repeat choice of the alarm dialog stands for.
pub open spec fn mask_of_choice(choice: u32) -> u8 {
    if choice == 1 { EVERY_DAY_MASK }
    else if choice == 2 { WEEKDAYS_MASK }
    else if choice == 3 { WEEKENDS_MASK }
    else { ONCE_MASK }
}

/// The repeat choice that the alarm dialog shows for a mask.
pub fn repeat_index_for_mask(mask: u8) -> (r: u32)
    ensures
        r == repeat_choice(mask),
{
    if mask == EVERY_DAY_MASK { 1 }
    else if mask == WEEKDAYS_MASK { 2 }
    else if mask == WEEKENDS_MASK { 3 }
    else { 0 }
}

/// The mask that a repeat choice of the alarm dialog stands for.
pub fn mask_for_repeat_index(choice: u32) -> (r: u8)
    ensures
        r == mask_of_choice(choice),
{
    if choice == 1 { EVERY_DAY_MASK }
    else if choice == 2 { WEEKDAYS_MASK }
    else if choice == 3 { WEEKENDS_MASK }
    else { ONCE_MASK }
}

/// The four repeat choices of the alarm dialog and their masks correspond one to one.
pub proof fn law_repeat_choice_roundtrip(choice: u32, mask: u8)
    ensures
        choice < 4 ==> repeat_choice(mask_of_choice(choice)) == choice,
        (mask == ONCE_MASK || mask == EVERY_DAY_MASK || mask == WEEKDAYS_MASK || mask == WEEKENDS_MASK)
            ==> mask_of_choice(repeat_choice(mask)) == mask,
{
}

/// What row `row` of an alarm editor shows: the alarm of the first slot with that index.
pub open spec fn row_alarm(slots: Seq<AlarmSlot>, row: int) -> Option<AlarmEntry> {
    if exists|i: int| 0 <= i < slots.len() && slots[i].index as int == row {
        let i = choose|i: int| 0 <= i < slots.len() && slots[i].index as int == row
            && forall|j: int| 0 <= j < i ==> slots[j].index as int != row;
        Some(slots[i].entry)
    } else {
        None
    }
}

proof fn lemma_first_slot(slots: Seq<AlarmSlot>, row: int, i: int)
    requires
        0 <= i < slots.len(),
        slots[i].index as int == row,
        forall|j: int| 0 <= j < i ==> slots[j].index as int != row,
    ensures
        row_alarm(slots, row) == Some(slots[i].entry),
{
    let k = choose|k: int| 0 <= k < slots.len() && slots[k].index as int == row
        && forall|j: int| 0 <= j < k ==> slots[j].index as int != row;
    assert(0 <= k < slots.len() && slots[k].index as int == row
        && forall|j: int| 0 <= j < k ==> slots[j].index as int != row);
    if k < i {
        assert(slots[k].index as int != row);
    } else if i < k {
        assert(slots[i].index as int != row);
    }
}

/// The alarm of the first slot with index `row`, if any.
fn row_alarm_of(slots: &[AlarmSlot], row: usize) -> (r: Option<AlarmEntry>)
    ensures
        r == row_alarm(slots@, row as int),
{
    let mut i: usize = 0;
    while i < slots.len()
        invariant
            i <= slots@.len(),
            forall|j: int| 0 <= j < i ==> slots@[j].index as int != row,
        decreases slots@.len() - i,
    {
        if slots[i].index as usize == row {
            proof {
                lemma_first_slot(slots@, row as int, i as int);
            }
            return Some(slots[i].entry);
        }
        i = i + 1;
    }
    None
}

/// The alarm that each of the rows `0..rows` of an alarm editor shows, from the slots read
/// from the device; `None` for a row whose slot holds no alarm.
pub fn alarms_by_row(slots: &[AlarmSlot], rows: usize) -> (r: Vec<Option<AlarmEntry>>)
    ensures
        r@.len() == rows,
        forall|row: int| 0 <= row < rows ==> #[trigger] r@[row] == row_alarm(slots@, row),
{
    let mut r: Vec<Option<AlarmEntry>> = Vec::new();
    let mut row: usize = 0;
    while row < rows
        invariant
            row <= rows,
            r@.len() == row,
            forall|q: int| 0 <= q < row ==> #[trigger] r@[q] == row_alarm(slots@, q),
        decreases rows - row,
    {
        let found = row_alarm_of(slots, row);
        r.push(found);
        row = row + 1;
    }
    r
}

/// Why an alarm row could not be turned into an alarm.
#[derive(Debug, Clone, Copy, PartialEq, Eq, Structural)]
pub enum AlarmRowError {
    /// The time field does not hold a valid `HH:MM` time.
    InvalidTime,
}

/// The alarm that an alarm editor row describes: its time field, its enable and snooze
/// switches and its repeat toggles.
pub fn alarm_entry_from_row(time_text: &str, enabled: bool, snooze: bool, once: bool, days: &[bool; 7])
    -> (r: Result<AlarmEntry, AlarmRowError>)
    ensures
        match crate::time_entry::time_of_text(vstd::string::StringSliceAdditionalSpecFns::spec_bytes(time_text)) {
            Some((h, m)) => r == Ok::<AlarmEntry, AlarmRowError>(AlarmEntry {
                hour: h,
                minute: m,
                repeat_mask: mask_of_toggles(once, days@),
                enabled,
                snooze,
            }),
            None => r == Err::<AlarmEntry, AlarmRowError>(AlarmRowError::InvalidTime),
        },
{
    let (hour, minute) = match crate::time_entry::validate_and_parse(time_text) {
        Some(t) => t,
        None => return Err(AlarmRowError::InvalidTime),
    };
    let repeat_mask = repeat_mask_from_toggles(once, days);
    Ok(AlarmEntry { hour, minute, repeat_mask, enabled, snooze })
}

} // verus!
