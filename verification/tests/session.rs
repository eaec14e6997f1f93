use cgd1_tools::display::{clock_tick, display_size};
use cgd1_tools::repl::{log_filter, parse_repl_line, require_device, token_file_name, DeviceTarget, ReplInput};
use cgd1_tools::ringtone::{
    derive_custom_signature, is_known_signature, ringtone_menu, signature_from_hash, sort_custom_ringtones,
    text_less_or_equal, CustomRingtone,
};
use cgd1_tools::time_entry::{format_time, handle_key, validate, validate_and_parse, KeyAction, TimeKey};
use cgd1_tools::timezone::{find_timezone_index, sync_timezone_from_system, timezone_index_for_offset_seconds, timezone_list};
use cgd1_tools::wav::extract_pcm_from_wav;

fn command_args(input: ReplInput) -> Vec<String> {
    match input {
        ReplInput::Command(args) => args,
        other => panic!("expected a command, got {other:?}"),
    }
}

#[test]
fn repl_lines() {
    assert!(matches!(parse_repl_line(""), ReplInput::Empty));
    assert!(matches!(parse_repl_line("   "), ReplInput::Empty));
    assert!(matches!(parse_repl_line("exit"), ReplInput::Exit));
    assert!(matches!(parse_repl_line("quit now"), ReplInput::Exit));
    assert!(matches!(parse_repl_line("help"), ReplInput::Help));
    assert!(matches!(parse_repl_line("disconnect"), ReplInput::Disconnect));
    match parse_repl_line("connect aa:bb:cc:dd:ee:ff") {
        ReplInput::Connect(Some(mac)) => assert_eq!(mac, "aa:bb:cc:dd:ee:ff"),
        other => panic!("unexpected {other:?}"),
    }
    assert!(matches!(parse_repl_line("connect"), ReplInput::Connect(None)));
    assert_eq!(command_args(parse_repl_line("scan -d 5")), vec!["cgd1", "scan", "-d", "5"]);
    assert_eq!(
        command_args(parse_repl_line("alarm-set 'aa:bb' \"0\" 07:30")),
        vec!["cgd1", "alarm-set", "aa:bb", "0", "07:30"]
    );
    // An unmatched quote cannot be split: nothing happens.
    assert!(matches!(parse_repl_line("scan 'oops"), ReplInput::Empty));
}

#[test]
fn device_requirements() {
    assert_eq!(require_device(Some(7), 7), DeviceTarget::Ready);
    assert_eq!(require_device(Some(7), 8), DeviceTarget::OtherDevice(7));
    assert_eq!(require_device(None, 8), DeviceTarget::NotConnected);
}

#[test]
fn verbosity_filters() {
    assert_eq!(log_filter(0), "warn");
    assert_eq!(log_filter(1), "info");
    assert_eq!(log_filter(2), "debug");
    assert_eq!(log_filter(3), "trace");
    assert_eq!(log_filter(200), "trace");
}

#[test]
fn token_file_names() {
    assert_eq!(token_file_name("aa:bb:cc:dd:ee:ff"), "aa_bb_cc_dd_ee_ff");
    assert_eq!(token_file_name("plain"), "plain");
    assert_eq!(token_file_name(""), "");
}

#[test]
fn clock_face_blinks() {
    let face = clock_tick(true, 2024, 3, 7, 9, 5);
    assert_eq!(face.date, "2024-03-07");
    assert_eq!(face.time, "09:05");
    assert!(!face.colon_visible_next);
    let face = clock_tick(false, 987, 12, 31, 23, 59);
    assert_eq!(face.date, "0987-12-31");
    assert_eq!(face.time, "23 59");
    assert!(face.colon_visible_next);
}

#[test]
fn seven_segment_sizes() {
    assert_eq!(display_size(48, "12:34", true), 24 * 5 + 12);
    assert_eq!(display_size(48, "", true), 24 + 12);
    assert_eq!(display_size(48, "12:34", false), 60);
    assert_eq!(display_size(-5, "ab", true), -2 * 2 + 12);
    assert_eq!(display_size(48, "°C", true), 24 * 3 + 12);
}

#[test]
fn time_field_parsing() {
    assert_eq!(validate_and_parse("07:30"), Some((7, 30)));
    assert_eq!(validate_and_parse("23:59"), Some((23, 59)));
    assert_eq!(validate_and_parse("24:00"), None);
    assert_eq!(validate_and_parse("12:60"), None);
    assert_eq!(validate_and_parse("7:30"), Some((7, 30)));
    assert_eq!(validate_and_parse("+7:030"), Some((7, 30)));
    assert_eq!(validate_and_parse(":30"), None);
    assert_eq!(validate_and_parse("07:30:00"), None);
    assert_eq!(validate_and_parse("07-30"), None);
    assert!(validate("00:00"));
    assert!(!validate(""));
    assert_eq!(format_time(7, 5), "07:05");
    assert_eq!(validate_and_parse(&format_time(19, 45)), Some((19, 45)));
}

#[test]
fn time_field_keys() {
    assert_eq!(handle_key("09:00", 0, TimeKey::Digit(1)), KeyAction::SetTime { hour: 19, minute: 0, cursor: 1 });
    assert_eq!(handle_key("09:00", 0, TimeKey::Digit(3)), KeyAction::Stop);
    assert_eq!(handle_key("20:00", 1, TimeKey::Digit(4)), KeyAction::Stop);
    assert_eq!(handle_key("20:00", 1, TimeKey::Digit(3)), KeyAction::SetTime { hour: 23, minute: 0, cursor: 3 });
    assert_eq!(handle_key("20:00", 2, TimeKey::Digit(6)), KeyAction::Stop);
    assert_eq!(handle_key("20:00", 2, TimeKey::Digit(4)), KeyAction::SetTime { hour: 20, minute: 40, cursor: 4 });
    assert_eq!(handle_key("20:40", 4, TimeKey::Digit(9)), KeyAction::SetTime { hour: 20, minute: 49, cursor: 5 });
    assert_eq!(handle_key("20:40", 5, TimeKey::Digit(9)), KeyAction::Stop);
    assert_eq!(handle_key("23:59", 0, TimeKey::Up), KeyAction::SetTime { hour: 0, minute: 59, cursor: 0 });
    assert_eq!(handle_key("23:59", 4, TimeKey::Up), KeyAction::SetTime { hour: 23, minute: 0, cursor: 4 });
    assert_eq!(handle_key("00:00", 1, TimeKey::Down), KeyAction::SetTime { hour: 23, minute: 0, cursor: 1 });
    assert_eq!(handle_key("00:00", 3, TimeKey::Down), KeyAction::SetTime { hour: 0, minute: 59, cursor: 3 });
    assert_eq!(handle_key("bad", 3, TimeKey::Up), KeyAction::SetTime { hour: 0, minute: 1, cursor: 3 });
    assert_eq!(handle_key("12:00", 1, TimeKey::Tab), KeyAction::MoveCursor(3));
    assert_eq!(handle_key("12:00", 4, TimeKey::Tab), KeyAction::MoveCursor(0));
    assert_eq!(handle_key("12:00", 4, TimeKey::LeftRight), KeyAction::Proceed);
    assert_eq!(handle_key("12:00", 4, TimeKey::Other), KeyAction::Stop);
}

#[test]
fn timezones() {
    let list = timezone_list();
    assert_eq!(list.len(), 36);
    assert_eq!(list[0], ("UTC-12:00 - Baker Island", -720));
    assert_eq!(find_timezone_index(330), Some(22));
    assert_eq!(find_timezone_index(0), Some(14));
    assert_eq!(find_timezone_index(7), None);
    for (i, (_, minutes)) in list.iter().enumerate() {
        assert_eq!(find_timezone_index(*minutes), Some(i as u32));
    }
    assert_eq!(timezone_index_for_offset_seconds(19800), (Some(22), 330));
    assert_eq!(timezone_index_for_offset_seconds(-59), (Some(14), 0));
    assert_eq!(timezone_index_for_offset_seconds(-12600), (Some(10), -210));
}

#[test]
fn timezone_sync_status() {
    assert_eq!(sync_timezone_from_system(3600), (Some(15), "Timezone set to match system (UTC+60)".to_string()));
    assert_eq!(sync_timezone_from_system(0), (Some(14), "Timezone set to match system (UTC+0)".to_string()));
    assert_eq!(sync_timezone_from_system(-420), (None, "System timezone UTC-7 not in list".to_string()));
    let minutes: i16 = -300;
    assert_eq!(sync_timezone_from_system(-18000).1, format!("Timezone set to match system (UTC{minutes:+})"));
}

fn wav(chunks: &[(&[u8; 4], &[u8])]) -> Vec<u8> {
    let mut out = b"RIFF\0\0\0\0WAVE".to_vec();
    for (id, body) in chunks {
        out.extend_from_slice(*id);
        out.extend_from_slice(&(body.len() as u32).to_le_bytes());
        out.extend_from_slice(body);
        if body.len() % 2 == 1 {
            out.push(0);
        }
    }
    out
}

#[test]
fn wav_data_chunk_is_extracted() {
    let data = wav(&[(b"fmt ", &[1, 2, 3]), (b"data", &[9, 8, 7, 6])]);
    assert_eq!(extract_pcm_from_wav(&data), &[9, 8, 7, 6]);
    let raw = [1u8, 2, 3];
    assert_eq!(extract_pcm_from_wav(&raw), &raw);
    let no_data = wav(&[(b"fmt ", &[1, 2])]);
    assert_eq!(extract_pcm_from_wav(&no_data), &no_data[..]);
    // A data chunk that claims more than the file holds gives the rest of the file.
    let mut short = b"RIFF\0\0\0\0WAVEdata".to_vec();
    short.extend_from_slice(&100u32.to_le_bytes());
    short.extend_from_slice(&[5, 6]);
    assert_eq!(extract_pcm_from_wav(&short), &[5, 6]);
}

#[test]
fn custom_signatures_avoid_known_ones() {
    assert_eq!(signature_from_hash(0x1122_3344_5566_7788), [0x88, 0x77, 0x66, 0x55]);
    let first = derive_custom_signature("chime", &[]).unwrap();
    assert_eq!(derive_custom_signature("chime", &[]).unwrap(), first);
    let other = derive_custom_signature("chime", &[first]).unwrap();
    assert_ne!(other, first);
    assert!(!is_known_signature(other, &[first]));
    assert!(is_known_signature(first, &[[0, 0, 0, 0], first]));
}

#[test]
fn custom_ringtones_sort_by_name() {
    assert!(text_less_or_equal("abc", "abd"));
    assert!(text_less_or_equal("ab", "abc"));
    assert!(!text_less_or_equal("b", "abc"));
    assert!(text_less_or_equal("", ""));
    let entries = vec![
        CustomRingtone { name: "zebra".to_string(), signature: [1, 0, 0, 0] },
        CustomRingtone { name: "Alpha".to_string(), signature: [2, 0, 0, 0] },
        CustomRingtone { name: "alpha".to_string(), signature: [3, 0, 0, 0] },
        CustomRingtone { name: "beta".to_string(), signature: [4, 0, 0, 0] },
    ];
    let sorted = sort_custom_ringtones(entries);
    let names: Vec<&str> = sorted.iter().map(|c| c.name.as_str()).collect();
    assert_eq!(names, vec!["Alpha", "alpha", "beta", "zebra"]);
    let mut expected = names.clone();
    expected.sort();
    assert_eq!(names, expected);
    let twins = vec![
        CustomRingtone { name: "b".to_string(), signature: [1, 1, 1, 1] },
        CustomRingtone { name: "a".to_string(), signature: [2, 2, 2, 2] },
        CustomRingtone { name: "b".to_string(), signature: [3, 3, 3, 3] },
    ];
    let sorted_twins: Vec<[u8; 4]> = sort_custom_ringtones(twins).iter().map(|c| c.signature).collect();
    assert_eq!(sorted_twins, vec![[2, 2, 2, 2], [1, 1, 1, 1], [3, 3, 3, 3]]);
    let menu = ringtone_menu(&[[9, 9, 9, 9], [7, 7, 7, 7], [8, 8, 8, 8]], &[[7, 7, 7, 7], [6, 6, 6, 6]], &sorted);
    assert_eq!(
        menu,
        vec![[9, 9, 9, 9], [8, 8, 8, 8], [2, 0, 0, 0], [3, 0, 0, 0], [4, 0, 0, 0], [1, 0, 0, 0], [7, 7, 7, 7], [6, 6, 6, 6]]
    );
}
