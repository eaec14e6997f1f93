use cgd1_tools::alarm::{
    alarm_entry_from_row, alarms_by_row, compute_local_fire, compute_next_fire, format_label, mask_for_repeat_index, next_alarm,
    repeat_index_for_mask, repeat_mask_from_toggles, toggles_from_mask, weekday_short, AlarmEntry, AlarmRowError,
    AlarmSlot, LocalDateTime, LocalSpan, EVERY_DAY_MASK, ONCE_MASK, WEEKDAYS_MASK, WEEKENDS_MASK,
};
use cgd1_tools::alarm_table::{alarm_table, alarm_table_header, alarm_table_row};

fn make_slot(slot: u8, hour: u8, minute: u8, mask: u8, enabled: bool) -> AlarmSlot {
    AlarmSlot { index: slot, entry: AlarmEntry { hour, minute, repeat_mask: mask, enabled, snooze: true } }
}

/// Monday, day 100, at 05:00.
fn early_monday() -> LocalDateTime {
    LocalDateTime { day: 100, weekday: 0, second_of_day: 5 * 3600 }
}

#[test]
fn no_alarms_returns_none() {
    assert!(next_alarm(early_monday(), &[], &[]).is_none());
}

#[test]
fn disabled_alarm_returns_none() {
    let slots = vec![make_slot(0, 7, 30, EVERY_DAY_MASK, false)];
    assert!(next_alarm(early_monday(), &slots, &[]).is_none());
}

#[test]
fn daily_alarm_returns_some() {
    let slots = vec![make_slot(0, 7, 30, EVERY_DAY_MASK, true)];
    let result = next_alarm(early_monday(), &slots, &[]);
    assert!(result.is_some());
    assert!(result.unwrap().label.contains("07:30"));
}

#[test]
fn picks_earliest_alarm() {
    let slots = vec![make_slot(0, 9, 0, EVERY_DAY_MASK, true), make_slot(1, 6, 30, EVERY_DAY_MASK, true)];
    let result = next_alarm(early_monday(), &slots, &[]).unwrap();
    assert!(result.label.contains("06:30"));
}

#[test]
fn next_alarm_after_its_time_rings_tomorrow() {
    let now = LocalDateTime { day: 100, weekday: 0, second_of_day: 8 * 3600 };
    let slots = vec![make_slot(0, 9, 0, EVERY_DAY_MASK, true), make_slot(1, 6, 30, EVERY_DAY_MASK, true)];
    let result = next_alarm(now, &slots, &[]).unwrap();
    assert_eq!(result.label, "09:00");
    assert_eq!(result.when, LocalDateTime { day: 100, weekday: 0, second_of_day: 9 * 3600 });
}

#[test]
fn once_alarm_rings_today_or_tomorrow() {
    let now = early_monday();
    assert_eq!(
        compute_next_fire(now, 6, 0, ONCE_MASK),
        Some(LocalDateTime { day: 100, weekday: 0, second_of_day: 6 * 3600 })
    );
    assert_eq!(
        compute_next_fire(now, 4, 0, ONCE_MASK),
        Some(LocalDateTime { day: 101, weekday: 1, second_of_day: 4 * 3600 })
    );
    // The exact current second counts as passed.
    assert_eq!(
        compute_next_fire(now, 5, 0, ONCE_MASK),
        Some(LocalDateTime { day: 101, weekday: 1, second_of_day: 5 * 3600 })
    );
}

#[test]
fn saturday_alarm_waits_for_saturday() {
    let now = early_monday();
    // Bit 0 is Monday, so the weekend mask's low bit rings on Monday.
    assert_eq!(
        compute_next_fire(now, 10, 0, WEEKENDS_MASK),
        Some(LocalDateTime { day: 100, weekday: 0, second_of_day: 10 * 3600 })
    );
    assert_eq!(
        compute_next_fire(now, 10, 0, 0x20),
        Some(LocalDateTime { day: 105, weekday: 5, second_of_day: 10 * 3600 })
    );
    // On Sunday, a Saturday alarm waits six days.
    let sunday_noon = LocalDateTime { day: 106, weekday: 6, second_of_day: 12 * 3600 };
    assert_eq!(
        compute_next_fire(sunday_noon, 10, 0, 0x20),
        Some(LocalDateTime { day: 112, weekday: 5, second_of_day: 10 * 3600 })
    );
    // A mask for Monday only, past its time on Monday, waits a full week.
    assert_eq!(
        compute_next_fire(now, 4, 0, 0x01),
        Some(LocalDateTime { day: 107, weekday: 0, second_of_day: 4 * 3600 })
    );
    // Only the unused eighth bit: never rings.
    assert_eq!(compute_next_fire(now, 4, 0, 0x80), None);
}

#[test]
fn labels_show_weekday_unless_daily() {
    let when = LocalDateTime { day: 105, weekday: 5, second_of_day: 0 };
    assert_eq!(format_label(when, &make_slot(0, 7, 5, WEEKDAYS_MASK, true)), "07:05 Sat");
    assert_eq!(format_label(when, &make_slot(0, 7, 5, ONCE_MASK, true)), "07:05 Sat");
    assert_eq!(format_label(when, &make_slot(0, 17, 45, EVERY_DAY_MASK, true)), "17:45");
    assert_eq!(weekday_short(0), "Mon");
    assert_eq!(weekday_short(6), "Sun");
}

#[test]
fn alarms_that_never_ring_are_skipped() {
    let slots = vec![
        make_slot(0, 25, 0, EVERY_DAY_MASK, true),
        make_slot(1, 6, 30, EVERY_DAY_MASK, true),
        make_slot(2, 5, 30, 0x80, true),
    ];
    let result = next_alarm(early_monday(), &slots, &[]).unwrap();
    assert_eq!(result.label, "06:30");
    let never = vec![make_slot(0, 25, 0, EVERY_DAY_MASK, true), make_slot(1, 6, 0, 0x80, true)];
    assert!(next_alarm(early_monday(), &never, &[]).is_none());
}

#[test]
fn earliest_alarm_first_slot_wins_ties() {
    let slots = vec![make_slot(3, 7, 0, WEEKDAYS_MASK, true), make_slot(1, 7, 0, EVERY_DAY_MASK, true)];
    // Both ring Tuesday 07:00 from a Monday evening; the first in the list wins.
    let now = LocalDateTime { day: 100, weekday: 0, second_of_day: 20 * 3600 };
    let result = next_alarm(now, &slots, &[]).unwrap();
    assert_eq!(result.when, LocalDateTime { day: 101, weekday: 1, second_of_day: 7 * 3600 });
    assert_eq!(result.label, "07:00 Tue");
}

#[test]
fn toggles_roundtrip() {
    for mask in 0u8..0x80 {
        let (once, days) = toggles_from_mask(mask);
        assert_eq!(repeat_mask_from_toggles(once, &days), mask);
    }
    let days = [true, false, true, false, false, false, true];
    let mask = repeat_mask_from_toggles(false, &days);
    assert_eq!(mask, 0b0100_0101);
    assert_eq!(toggles_from_mask(mask), (false, days));
    assert_eq!(repeat_mask_from_toggles(true, &days), ONCE_MASK);
}

#[test]
fn repeat_choice_roundtrip() {
    assert_eq!(repeat_index_for_mask(ONCE_MASK), 0);
    assert_eq!(repeat_index_for_mask(EVERY_DAY_MASK), 1);
    assert_eq!(repeat_index_for_mask(WEEKDAYS_MASK), 2);
    assert_eq!(repeat_index_for_mask(WEEKENDS_MASK), 3);
    assert_eq!(repeat_index_for_mask(0x15), 0);
    for choice in 0..4u32 {
        assert_eq!(repeat_index_for_mask(mask_for_repeat_index(choice)), choice);
    }
    assert_eq!(mask_for_repeat_index(9), ONCE_MASK);
}

#[test]
fn rows_show_their_slots() {
    let slots = vec![make_slot(2, 7, 0, EVERY_DAY_MASK, true), make_slot(0, 6, 0, ONCE_MASK, false)];
    let rows = alarms_by_row(&slots, 4);
    assert_eq!(rows.len(), 4);
    assert_eq!(rows[0], Some(slots[1].entry));
    assert_eq!(rows[1], None);
    assert_eq!(rows[2], Some(slots[0].entry));
    assert_eq!(rows[3], None);
}

#[test]
fn row_to_alarm_entry() {
    let days = [true, true, true, true, true, false, false];
    assert_eq!(
        alarm_entry_from_row("06:45", true, false, false, &days),
        Ok(AlarmEntry { hour: 6, minute: 45, repeat_mask: 0x1f, enabled: true, snooze: false })
    );
    assert_eq!(alarm_entry_from_row("24:00", true, false, false, &days), Err(AlarmRowError::InvalidTime));
    assert_eq!(alarm_entry_from_row("6:45", true, false, false, &days).unwrap().hour, 6);
    assert_eq!(alarm_entry_from_row("06-45", true, false, false, &days), Err(AlarmRowError::InvalidTime));
}

#[test]
fn alarm_table_lines() {
    assert_eq!(alarm_table(&[]), vec!["No alarms set.".to_string()]);
    assert_eq!(alarm_table_header(), "Slot   Enabled  HH  MM  Days   Snooze");
    let slot = AlarmSlot { index: 3, entry: AlarmEntry { hour: 7, minute: 5, repeat_mask: 0x3e, enabled: true, snooze: false } };
    assert_eq!(alarm_table_row(&slot), "3      yes      07   05   0x3e  no");
    let expected = format!(
        "{:<6} {:<8} {:02}   {:02}   0x{:02x}  {}",
        12, "no", 23, 59, 0x7fu8, "yes"
    );
    let slot = AlarmSlot { index: 12, entry: AlarmEntry { hour: 23, minute: 59, repeat_mask: 0x7f, enabled: false, snooze: true } };
    assert_eq!(alarm_table_row(&slot), expected);
    let table = alarm_table(&[slot]);
    assert_eq!(table.len(), 2);
    assert_eq!(table[1], expected);
}

#[test]
fn alarm_time_in_a_clock_gap_does_not_ring() {
    let now = early_monday();
    // On Sunday (day 106) the clock skips from 02:00 to 03:00.
    let gap = [LocalSpan { day: 106, start_second: 2 * 3600, end_second: 3 * 3600 }];
    assert_eq!(compute_local_fire(now, 2, 30, 0x40, &gap), None);
    assert_eq!(
        compute_local_fire(now, 3, 30, 0x40, &gap),
        Some(LocalDateTime { day: 106, weekday: 6, second_of_day: 3 * 3600 + 1800 })
    );
    // A day after the ring is not looked at.
    assert_eq!(
        compute_local_fire(now, 2, 30, EVERY_DAY_MASK, &gap),
        Some(LocalDateTime { day: 101, weekday: 1, second_of_day: 2 * 3600 + 1800 })
    );
    // An enabled day already passed today is looked at too.
    let today_gap = [LocalSpan { day: 100, start_second: 2 * 3600, end_second: 3 * 3600 }];
    assert_eq!(compute_local_fire(now, 2, 30, EVERY_DAY_MASK, &today_gap), None);
    // A one-shot alarm looks at today only.
    assert_eq!(compute_local_fire(now, 2, 30, ONCE_MASK, &today_gap), None);
    assert_eq!(
        compute_local_fire(now, 2, 30, ONCE_MASK, &gap),
        Some(LocalDateTime { day: 101, weekday: 1, second_of_day: 2 * 3600 + 1800 })
    );
    let slots = vec![make_slot(0, 2, 30, 0x40, true), make_slot(1, 9, 0, 0x40, true)];
    let result = next_alarm(now, &slots, &gap).unwrap();
    assert_eq!(result.label, "09:00 Sun");
}
