use device_control::message::EspMessage;
use device_control::text::{format_decimal, parse_unsigned, same_text, split, trim};

fn message(cmd: &str, motor: Option<u8>, direction: Option<&str>, steps: Option<u32>) -> EspMessage {
    EspMessage {
        cmd: cmd.to_string(),
        motor,
        direction: direction.map(|d| d.to_string()),
        steps,
    }
}

#[test]
fn to_string_writes_the_four_fields_in_order() {
    let line = message("MOVE", Some(1), Some("FWD"), Some(5)).to_string();
    assert_eq!(line, "MOVE:1:FWD:5");
}

#[test]
fn to_string_writes_large_numbers_in_full() {
    let line = message("MOVE", Some(255), Some("BWD"), Some(4_294_967_295)).to_string();
    assert_eq!(line, "MOVE:255:BWD:4294967295");
}

#[test]
fn to_string_writes_zero_and_empty_for_absent_fields() {
    let line = message("STOP", None, None, None).to_string();
    assert_eq!(line, "STOP:0::0");
}

#[test]
fn from_string_restores_a_written_message() {
    let written = message("MOVE", Some(1), Some("FWD"), Some(5));
    let parsed = EspMessage::from_string(&written.to_string()).expect("a written line parses");
    assert_eq!(parsed.cmd, "MOVE");
    assert_eq!(parsed.motor, Some(1));
    assert_eq!(parsed.direction.as_deref(), Some("FWD"));
    assert_eq!(parsed.steps, Some(5));
}

#[test]
fn from_string_restores_extreme_numbers() {
    let written = message("M", Some(255), Some("BWD"), Some(u32::MAX));
    let parsed = EspMessage::from_string(&written.to_string()).expect("a written line parses");
    assert_eq!(parsed.cmd, "M");
    assert_eq!(parsed.motor, Some(255));
    assert_eq!(parsed.direction.as_deref(), Some("BWD"));
    assert_eq!(parsed.steps, Some(u32::MAX));
}

#[test]
fn from_string_rejects_a_line_with_a_missing_field() {
    assert!(EspMessage::from_string("MOVE:1:FWD").is_none());
    assert!(EspMessage::from_string("MOVE").is_none());
    assert!(EspMessage::from_string("").is_none());
}

#[test]
fn from_string_rejects_a_line_with_an_extra_field() {
    assert!(EspMessage::from_string("MOVE:1:FWD:5:9").is_none());
}

#[test]
fn from_string_rejects_bad_integers() {
    assert!(EspMessage::from_string("MOVE:x:FWD:5").is_none());
    assert!(EspMessage::from_string("MOVE:1:FWD:five").is_none());
    assert!(EspMessage::from_string("MOVE::FWD:5").is_none());
    assert!(EspMessage::from_string("MOVE:1:FWD:").is_none());
    assert!(EspMessage::from_string("MOVE:-1:FWD:5").is_none());
    assert!(EspMessage::from_string("MOVE:1 :FWD:5").is_none());
    assert!(EspMessage::from_string("MOVE:+:FWD:5").is_none());
}

#[test]
fn from_string_rejects_numbers_out_of_range() {
    assert!(EspMessage::from_string("MOVE:256:FWD:5").is_none());
    assert!(EspMessage::from_string("MOVE:1:FWD:4294967296").is_none());
    assert!(EspMessage::from_string("MOVE:1:FWD:99999999999999999999999999").is_none());
    assert!(EspMessage::from_string("MOVE:255:FWD:4294967295").is_some());
}

#[test]
fn from_string_ignores_surrounding_white_space() {
    let parsed = EspMessage::from_string("  MOVE:2:BWD:7\r\n").expect("trimmed line parses");
    assert_eq!(parsed.cmd, "MOVE");
    assert_eq!(parsed.motor, Some(2));
    assert_eq!(parsed.direction.as_deref(), Some("BWD"));
    assert_eq!(parsed.steps, Some(7));
}

#[test]
fn from_string_accepts_a_plus_sign_and_leading_zeros() {
    let parsed = EspMessage::from_string("MOVE:+3:FWD:007").expect("line parses");
    assert_eq!(parsed.motor, Some(3));
    assert_eq!(parsed.steps, Some(7));
}

#[test]
fn from_string_reads_an_empty_direction_as_absent() {
    let parsed = EspMessage::from_string("STOP:0::0").expect("line parses");
    assert_eq!(parsed.cmd, "STOP");
    assert_eq!(parsed.motor, Some(0));
    assert_eq!(parsed.direction, None);
    assert_eq!(parsed.steps, Some(0));
}

#[test]
fn trim_removes_white_space_at_both_ends_only() {
    assert_eq!(trim("  a b \t\r\n"), "a b");
    assert_eq!(trim("\u{a0}\u{3000}x\u{2028}"), "x");
    assert_eq!(trim(" \n "), "");
    assert_eq!(trim(""), "");
    assert_eq!(trim("ACK"), "ACK");
    assert_eq!(trim("\u{200b}x"), "\u{200b}x");
}

#[test]
fn trim_agrees_with_the_standard_library_on_the_basic_plane() {
    let mut code: u32 = 0;
    while code <= 0xffff {
        if let Some(c) = char::from_u32(code) {
            let text = format!("{}x{}", c, c);
            assert_eq!(trim(&text), text.trim(), "U+{:04X}", code);
        }
        code += 1;
    }
}

#[test]
fn no_character_beyond_the_basic_plane_is_white_space() {
    for c in ['\u{10000}', '\u{1f600}', '\u{e0020}', '\u{10ffff}'] {
        let text = format!("{}x{}", c, c);
        assert_eq!(trim(&text), text);
        assert_eq!(trim(&text), text.trim());
    }
}

#[test]
fn split_cuts_at_every_colon() {
    assert_eq!(split("a:b:c"), vec!["a".to_string(), "b".to_string(), "c".to_string()]);
    assert_eq!(split("abc"), vec!["abc".to_string()]);
    assert_eq!(split(""), vec!["".to_string()]);
    assert_eq!(split(":"), vec!["".to_string(), "".to_string()]);
    assert_eq!(split("a::b:"), vec!["a".to_string(), "".to_string(), "b".to_string(), "".to_string()]);
    assert_eq!(split("é:ü"), vec!["é".to_string(), "ü".to_string()]);
}

#[test]
fn format_decimal_writes_numbers_without_padding() {
    assert_eq!(format_decimal(0), "0");
    assert_eq!(format_decimal(7), "7");
    assert_eq!(format_decimal(10), "10");
    assert_eq!(format_decimal(1905), "1905");
    assert_eq!(format_decimal(u32::MAX), "4294967295");
}

#[test]
fn parse_unsigned_reads_what_format_decimal_writes() {
    for n in [0u32, 1, 9, 10, 99, 100, 255, 256, 65_535, 1_000_000, u32::MAX] {
        assert_eq!(parse_unsigned(&format_decimal(n), u32::MAX), Some(n));
    }
}

#[test]
fn parse_unsigned_honours_the_bound() {
    assert_eq!(parse_unsigned("255", 255), Some(255));
    assert_eq!(parse_unsigned("256", 255), None);
    assert_eq!(parse_unsigned("0000000000000000000255", 255), Some(255));
    assert_eq!(parse_unsigned("", 255), None);
    assert_eq!(parse_unsigned("+", 255), None);
    assert_eq!(parse_unsigned("++1", 255), None);
    assert_eq!(parse_unsigned("1_0", 255), None);
    assert_eq!(parse_unsigned("٣", 255), None);
}

#[test]
fn parse_unsigned_agrees_with_the_standard_library() {
    for text in ["0", "12", "+12", "012", "255", "256", "-1", "", "+", " 1", "1 ", "1a", "4294967295", "4294967296"] {
        assert_eq!(parse_unsigned(text, 255).map(|n| n as u8), text.parse::<u8>().ok(), "{:?}", text);
        assert_eq!(parse_unsigned(text, u32::MAX), text.parse::<u32>().ok(), "{:?}", text);
    }
}

#[test]
fn same_text_compares_character_by_character() {
    assert!(same_text("ACK", "ACK"));
    assert!(!same_text("ACK", "ACK "));
    assert!(!same_text("ACK", "ack"));
    assert!(same_text("", ""));
}
