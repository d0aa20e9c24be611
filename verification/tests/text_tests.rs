use aruna_proxy::decimal::{decimal_string, parse_i32, parse_u8};
use aruna_proxy::text::{find_char, header_text};

#[test]
fn decimal_rendering() {
    assert_eq!(decimal_string(0), "0");
    assert_eq!(decimal_string(7), "7");
    assert_eq!(decimal_string(10), "10");
    assert_eq!(decimal_string(196607), "196607");
    assert_eq!(decimal_string(u64::MAX), u64::MAX.to_string());
}

#[test]
fn u8_parsing() {
    assert_eq!(parse_u8("0"), Some(0));
    assert_eq!(parse_u8("255"), Some(255));
    assert_eq!(parse_u8("007"), Some(7));
    assert_eq!(parse_u8("+5"), Some(5));
    assert_eq!(parse_u8("256"), None);
    assert_eq!(parse_u8(""), None);
    assert_eq!(parse_u8("+"), None);
    assert_eq!(parse_u8("-0"), None);
    assert_eq!(parse_u8(" 1"), None);
    assert_eq!(parse_u8("1a"), None);
    for n in 0u8..=255 {
        assert_eq!(parse_u8(&n.to_string()), Some(n));
        assert_eq!(parse_u8(&n.to_string()), n.to_string().parse::<u8>().ok());
    }
}

#[test]
fn i32_parsing() {
    assert_eq!(parse_i32("-2147483648"), Some(i32::MIN));
    assert_eq!(parse_i32("2147483647"), Some(i32::MAX));
    assert_eq!(parse_i32("-2147483649"), None);
    assert_eq!(parse_i32("2147483648"), None);
    assert_eq!(parse_i32("-"), None);
    assert_eq!(parse_i32("-0"), Some(0));
    assert_eq!(parse_i32("+12"), Some(12));
    assert_eq!(parse_i32("--1"), None);
    for text in ["12", "-12", "+0", "99999999999", "", "1_0", "٣"] {
        assert_eq!(parse_i32(text), text.parse::<i32>().ok());
    }
}

#[test]
fn finding_characters() {
    assert_eq!(find_char("abc_def", '_'), 3);
    assert_eq!(find_char("abcdef", '_'), 6);
    assert_eq!(find_char("_", '_'), 0);
    assert_eq!(find_char("äö_", '_'), 2);
}

#[test]
fn header_values_as_text() {
    assert_eq!(header_text(&b"Bearer x".to_vec()), Some("Bearer x".to_string()));
    assert_eq!(header_text(&b"a\tb".to_vec()), Some("a\tb".to_string()));
    assert_eq!(header_text(&b"a\nb".to_vec()), None);
    assert_eq!(header_text(&vec![0xc3, 0xa4]), None);
    assert_eq!(header_text(&Vec::new()), Some(String::new()));
}
