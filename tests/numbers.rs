use forth_rs::numbers::{from_bool, is_true, saturating_i64_to_i32, to_char};
use forth_rs::text::parse_int;

#[test]
fn truthiness_and_flags() {
    assert!(is_true(-1));
    assert!(is_true(5));
    assert!(!is_true(0));
    assert_eq!(from_bool(true), -1);
    assert_eq!(from_bool(false), 0);
}

#[test]
fn characters_of_codes() {
    assert_eq!(to_char(65), 'A');
    assert_eq!(to_char(0x1F600), '\u{1F600}');
    assert_eq!(to_char(-1), '\u{FFFD}');
    assert_eq!(to_char(0xD800), '\u{FFFD}');
    assert_eq!(to_char(0x110000), '\u{FFFD}');
}

#[test]
fn narrowing_saturates() {
    assert_eq!(saturating_i64_to_i32(5), 5);
    assert_eq!(saturating_i64_to_i32(1 << 40), i32::MAX);
    assert_eq!(saturating_i64_to_i32(-(1 << 40)), i32::MIN);
}

#[test]
fn decimal_parsing() {
    assert_eq!(parse_int(&"42".to_string()), Some(42));
    assert_eq!(parse_int(&"-2147483648".to_string()), Some(i32::MIN));
    assert_eq!(parse_int(&"+7".to_string()), Some(7));
    assert_eq!(parse_int(&"2147483648".to_string()), None);
    assert_eq!(parse_int(&"-".to_string()), None);
    assert_eq!(parse_int(&"12a".to_string()), None);
    assert_eq!(parse_int(&"".to_string()), None);
}
