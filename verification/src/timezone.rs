//! The time zones offered in the region settings, and finding one by its offset.

use vstd::prelude::*;
use vstd::string::StringExecFns;
use crate::text::{decimal, push_decimal};

verus! {

/// The offsets from UTC, in minutes, of the offered time zones, in list order.
pub open spec fn timezone_offsets() -> Seq<i16> {
    seq![
        -720i16,
        -660i16,
        -600i16,
        -570i16,
        -540i16,
        -480i16,
        -420i16,
        -360i16,
        -300i16,
        -240i16,
        -210i16,
        -180i16,
        -120i16,
        -60i16,
        0i16,
        60i16,
        120i16,
        180i16,
        210i16,
        240i16,
        270i16,
        300i16,
        330i16,
        345i16,
        360i16,
        390i16,
        420i16,
        480i16,
        540i16,
        570i16,
        600i16,
        630i16,
        660i16,
        720i16,
        780i16,
        840i16,
    ]
}

/// The labels of the offered time zones, in list order.
pub open spec fn timezone_labels() -> Seq<Seq<char>> {
    seq![
        "UTC-12:00 - Baker Island"@,
        "UTC-11:00 - American Samoa"@,
        "UTC-10:00 - Honolulu"@,
        "UTC-09:30 - Marquesas Islands"@,
        "UTC-09:00 - Anchorage"@,
        "UTC-08:00 - Los Angeles"@,
        "UTC-07:00 - Denver"@,
        "UTC-06:00 - Chicago, Mexico City"@,
        "UTC-05:00 - New York, Lima"@,
        "UTC-04:00 - Halifax, Caracas"@,
        "UTC-03:30 - St. John's"@,
        "UTC-03:00 - Buenos Aires, São Paulo"@,
        "UTC-02:00 - South Georgia"@,
        "UTC-01:00 - Azores"@,
        "UTC+00:00 - London, Dublin, Lisbon"@,
        "UTC+01:00 - Berlin, Paris, Rome"@,
        "UTC+02:00 - Cairo, Athens, Helsinki"@,
        "UTC+03:00 - Moscow, Istanbul, Nairobi"@,
        "UTC+03:30 - Tehran"@,
        "UTC+04:00 - Dubai, Baku"@,
        "UTC+04:30 - Kabul"@,
        "UTC+05:00 - Karachi, Tashkent"@,
        "UTC+05:30 - Delhi, Mumbai"@,
        "UTC+05:45 - Kathmandu"@,
        "UTC+06:00 - Dhaka, Almaty"@,
        "UTC+06:30 - Yangon"@,
        "UTC+07:00 - Bangkok, Jakarta"@,
        "UTC+08:00 - Beijing, Singapore, Perth"@,
        "UTC+09:00 - Tokyo, Seoul"@,
        "UTC+09:30 - Adelaide, Darwin"@,
        "UTC+10:00 - Sydney, Melbourne"@,
        "UTC+10:30 - Lord Howe Island"@,
        "UTC+11:00 - Nouméa, Solomon Islands"@,
        "UTC+12:00 - Auckland, Fiji"@,
        "UTC+13:00 - Samoa, Tonga"@,
        "UTC+14:00 - Kiritimati"@,
    ]
}

/// Return a list of (display_label, offset_minutes) for common timezones.
///
/// Fractional offsets like +5:30 (India) or +5:45 (Nepal) are included.
pub fn timezone_list() -> (r: Vec<(&'static str, i16)>)
    ensures
        r@.len() == timezone_offsets().len(),
        forall|i: int| 0 <= i < r@.len() ==> (#[trigger] r@[i]).1 == timezone_offsets()[i]
            && r@[i].0@ == timezone_labels()[i],
{
    let mut v: Vec<(&'static str, i16)> = Vec::new();
    v.push(("UTC-12:00 - Baker Island", -720));
    v.push(("UTC-11:00 - American Samoa", -660));
    v.push(("UTC-10:00 - Honolulu", -600));
    v.push(("UTC-09:30 - Marquesas Islands", -570));
    v.push(("UTC-09:00 - Anchorage", -540));
    v.push(("UTC-08:00 - Los Angeles", -480));
    v.push(("UTC-07:00 - Denver", -420));
    v.push(("UTC-06:00 - Chicago, Mexico City", -360));
    v.push(("UTC-05:00 - New York, Lima", -300));
    v.push(("UTC-04:00 - Halifax, Caracas", -240));
    v.push(("UTC-03:30 - St. John's", -210));
    v.push(("UTC-03:00 - Buenos Aires, São Paulo", -180));
    v.push(("UTC-02:00 - South Georgia", -120));
    v.push(("UTC-01:00 - Azores", -60));
    v.push(("UTC+00:00 - London, Dublin, Lisbon", 0));
    v.push(("UTC+01:00 - Berlin, Paris, Rome", 60));
    v.push(("UTC+02:00 - Cairo, Athens, Helsinki", 120));
    v.push(("UTC+03:00 - Moscow, Istanbul, Nairobi", 180));
    v.push(("UTC+03:30 - Tehran", 210));
    v.push(("UTC+04:00 - Dubai, Baku", 240));
    v.push(("UTC+04:30 - Kabul", 270));
    v.push(("UTC+05:00 - Karachi, Tashkent", 300));
    v.push(("UTC+05:30 - Delhi, Mumbai", 330));
    v.push(("UTC+05:45 - Kathmandu", 345));
    v.push(("UTC+06:00 - Dhaka, Almaty", 360));
    v.push(("UTC+06:30 - Yangon", 390));
    v.push(("UTC+07:00 - Bangkok, Jakarta", 420));
    v.push(("UTC+08:00 - Beijing, Singapore, Perth", 480));
    v.push(("UTC+09:00 - Tokyo, Seoul", 540));
    v.push(("UTC+09:30 - Adelaide, Darwin", 570));
    v.push(("UTC+10:00 - Sydney, Melbourne", 600));
    v.push(("UTC+10:30 - Lord Howe Island", 630));
    v.push(("UTC+11:00 - Nouméa, Solomon Islands", 660));
    v.push(("UTC+12:00 - Auckland, Fiji", 720));
    v.push(("UTC+13:00 - Samoa, Tonga", 780));
    v.push(("UTC+14:00 - Kiritimati", 840));
    v
}

/// The position of the first offered time zone with the given offset, if any.
pub open spec fn timezone_index(offset_minutes: i16) -> Option<nat> {
    if exists|i: int| 0 <= i < timezone_offsets().len() && timezone_offsets()[i] == offset_minutes {
        Some(choose|i: nat| i < timezone_offsets().len() && timezone_offsets()[i as int] == offset_minutes)
    } else {
        None
    }
}

/// The offered offsets strictly increase, so each is offered once.
proof fn lemma_offsets_increase()
    ensures
        forall|i: int, j: int| 0 <= i < j < timezone_offsets().len()
            ==> timezone_offsets()[i] < timezone_offsets()[j],
{
    let o = timezone_offsets();
    assert forall|i: int| 0 <= i < o.len() - 1 implies #[trigger] o[i] < o[i + 1] by {}
    assert forall|i: int, j: int| 0 <= i < j < o.len() implies o[i] < o[j] by {
        lemma_increasing_steps(o, i, j);
    }
}

proof fn lemma_increasing_steps(o: Seq<i16>, i: int, j: int)
    requires
        0 <= i < j < o.len(),
        forall|k: int| 0 <= k < o.len() - 1 ==> #[trigger] o[k] < o[k + 1],
    ensures
        o[i] < o[j],
    decreases j - i,
{
    if j > i + 1 {
        lemma_increasing_steps(o, i, j - 1);
        assert(o[j - 1] < o[j]);
    } else {
        assert(o[i] < o[i + 1]);
    }
}

/// Find the dropdown index for a given offset in minutes.
pub fn find_timezone_index(offset_minutes: i16) -> (r: Option<u32>)
    ensures
        match r {
            Some(i) => timezone_index(offset_minutes) == Some(i as nat),
            None => timezone_index(offset_minutes) is None,
        },
{
    let list = timezone_list();
    proof {
        lemma_offsets_increase();
    }
    let mut i: usize = 0;
    while i < list.len()
        invariant
            i <= list@.len(),
            list@.len() == timezone_offsets().len(),
            forall|k: int| 0 <= k < list@.len() ==> (#[trigger] list@[k]).1 == timezone_offsets()[k],
            forall|k: int| 0 <= k < i ==> timezone_offsets()[k] != offset_minutes,
        decreases list@.len() - i,
    {
        if list[i].1 == offset_minutes {
            proof {
                assert(list@[i as int].1 == timezone_offsets()[i as int]);
                let c = choose|c: nat| c < timezone_offsets().len() && timezone_offsets()[c as int] == offset_minutes;
                if c != i {
                    if (c as int) < (i as int) {
                        assert(timezone_offsets()[c as int] < timezone_offsets()[i as int]);
                    } else {
                        assert(timezone_offsets()[i as int] < timezone_offsets()[c as int]);
                    }
                }
            }
            return Some(i as u32);
        }
        assert(list@[i as int].1 == timezone_offsets()[i as int]);
        i = i + 1;
    }
    None
}

/// An offset in seconds as whole minutes, dropping the rest toward zero.
pub open spec fn seconds_to_minutes(offset_seconds: i32) -> int {
    if offset_seconds >= 0 { offset_seconds / 60 } else { -((-offset_seconds) / 60) }
}

/// The dropdown index for the system's offset from UTC, given in seconds, and that offset in
/// whole minutes.
pub fn timezone_index_for_offset_seconds(offset_seconds: i32) -> (r: (Option<u32>, i16))
    requires
        -86400 < offset_seconds < 86400,
    ensures
        r.1 as int == seconds_to_minutes(offset_seconds),
        match r.0 {
            Some(i) => timezone_index(r.1) == Some(i as nat),
            None => timezone_index(r.1) is None,
        },
{
    let minutes = (offset_seconds / 60) as i16;
    (find_timezone_index(minutes), minutes)
}

/// Every offered offset lies between UTC-12:00 and UTC+14:00, the offsets strictly increase,
/// and finding the offset at a position gives that position.
pub proof fn law_timezone_list(i: int)
    requires
        0 <= i < timezone_offsets().len(),
    ensures
        -720 <= timezone_offsets()[i] <= 840,
        i + 1 < timezone_offsets().len() ==> timezone_offsets()[i] < timezone_offsets()[i + 1],
        timezone_index(timezone_offsets()[i]) == Some(i as nat),
{
    lemma_offsets_increase();
    let off = timezone_offsets()[i];
    let c = choose|c: nat| c < timezone_offsets().len() && timezone_offsets()[c as int] == off;
    if c != i {
        if (c as int) < i {
            assert(timezone_offsets()[c as int] < timezone_offsets()[i]);
        } else {
            assert(timezone_offsets()[i] < timezone_offsets()[c as int]);
        }
    }
}

/// A number of minutes written with its sign always shown, as `{:+}` writes it.
pub open spec fn signed_minutes(n: int) -> Seq<char> {
    if n >= 0 { "+"@ + decimal(n as nat) } else { "-"@ + decimal((-n) as nat) }
}

/// The status line after matching the system's offset from UTC against the list.
pub open spec fn timezone_sync_status(offset_minutes: int, found: bool) -> Seq<char> {
    if found {
        "Timezone set to match system (UTC"@ + signed_minutes(offset_minutes) + ")"@
    } else {
        "System timezone UTC"@ + signed_minutes(offset_minutes) + " not in list"@
    }
}

/// Appends a number of minutes with its sign always shown.
pub fn push_signed_minutes(s: &mut String, n: i16)
    ensures
        final(s)@ == old(s)@ + signed_minutes(n as int),
{
    if n >= 0 {
        s.append("+");
        push_decimal(s, n as u64);
    } else {
        s.append("-");
        let m: i32 = -(n as i32);
        push_decimal(s, m as u64);
    }
    proof {
        assert(final(s)@ =~= old(s)@ + signed_minutes(n as int));
    }
}

/// Matches the system's offset from UTC, in seconds, against the list: the dropdown index to
/// select, if the list has the offset, and the status line to show.
pub fn sync_timezone_from_system(offset_seconds: i32) -> (r: (Option<u32>, String))
    requires
        -86400 < offset_seconds < 86400,
    ensures
        match r.0 {
            Some(i) => timezone_index(seconds_to_minutes(offset_seconds) as i16) == Some(i as nat),
            None => timezone_index(seconds_to_minutes(offset_seconds) as i16) is None,
        },
        r.1@ == timezone_sync_status(seconds_to_minutes(offset_seconds), r.0 is Some),
{
    let (index, minutes) = timezone_index_for_offset_seconds(offset_seconds);
    let mut status = String::new();
    match index {
        Some(_) => {
            status.append("Timezone set to match system (UTC");
            push_signed_minutes(&mut status, minutes);
            status.append(")");
        },
        None => {
            status.append("System timezone UTC");
            push_signed_minutes(&mut status, minutes);
            status.append(" not in list");
        },
    }
    proof {
        assert(status@ =~= timezone_sync_status(seconds_to_minutes(offset_seconds), index is Some));
    }
    (index, status)
}

} // verus!
