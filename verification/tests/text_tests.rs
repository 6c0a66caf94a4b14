use spc_mqtt::bridge::alert_sensor_id;
use spc_mqtt::config::parse_zone_class;
use spc_mqtt::discovery::capitalize;
use spc_mqtt::text::{
    join_strings, parse_u32_str, replace_chars, to_chars, trim_str, u32_to_string, IntErrorKind,
};

fn from_chars(v: &[char]) -> String {
    v.iter().collect()
}

#[test]
fn parse_u32_accepts_digits_and_plus() {
    assert_eq!(parse_u32_str("42"), Ok(42));
    assert_eq!(parse_u32_str("+7"), Ok(7));
    assert_eq!(parse_u32_str("0"), Ok(0));
    assert_eq!(parse_u32_str("4294967295"), Ok(u32::MAX));
}

#[test]
fn parse_u32_error_kinds() {
    assert_eq!(parse_u32_str(""), Err(IntErrorKind::Empty));
    assert_eq!(parse_u32_str("+"), Err(IntErrorKind::InvalidDigit));
    assert_eq!(parse_u32_str("-1"), Err(IntErrorKind::InvalidDigit));
    assert_eq!(parse_u32_str("1a"), Err(IntErrorKind::InvalidDigit));
    assert_eq!(parse_u32_str(" 1"), Err(IntErrorKind::InvalidDigit));
    assert_eq!(parse_u32_str("4294967296"), Err(IntErrorKind::PosOverflow));
    // the first failure in reading order decides
    assert_eq!(parse_u32_str("99999999999x"), Err(IntErrorKind::PosOverflow));
    assert_eq!(parse_u32_str("9x9999999999"), Err(IntErrorKind::InvalidDigit));
}

#[test]
fn parse_u32_agrees_with_std() {
    for s in ["", "+", "-", "12", "+12", "-12", "007", "4294967295", "4294967296", "1 ", "x1"] {
        let ours = parse_u32_str(s);
        let std = s.parse::<u32>();
        match (ours, std) {
            (Ok(a), Ok(b)) => assert_eq!(a, b, "{s:?}"),
            (Err(_), Err(_)) => {}
            other => panic!("mismatch for {s:?}: {other:?}"),
        }
    }
}

#[test]
fn decimal_roundtrip() {
    for n in [0u32, 5, 10, 99, 100, 12345, u32::MAX] {
        let s = u32_to_string(n);
        assert_eq!(s, n.to_string());
        assert_eq!(parse_u32_str(&s), Ok(n));
    }
}

#[test]
fn trim_removes_unicode_whitespace() {
    assert_eq!(trim_str("  a b \t\n"), "a b");
    assert_eq!(trim_str("\u{a0}x\u{3000}"), "x");
    assert_eq!(trim_str("   "), "");
    assert_eq!(trim_str(""), "");
}

#[test]
fn replace_left_to_right() {
    let v = to_chars("aaa");
    assert_eq!(from_chars(&replace_chars(&v, "aa", "b")), "ba");
    let v = to_chars("controller_controller_x");
    assert_eq!(from_chars(&replace_chars(&v, "controller_", "")), "x");
}

#[test]
fn join_with_separator() {
    let parts = vec!["a".to_string(), "b".to_string(), "c".to_string()];
    assert_eq!(from_chars(&join_strings(&parts, ",")), "a,b,c");
    assert_eq!(from_chars(&join_strings(&[], ",")), "");
}

#[test]
fn case_mapping_and_debug_quoting() {
    assert_eq!(alert_sensor_id("AbC É"), "abc_é");
    assert_eq!(capitalize("ßa"), "SSa");
    assert_eq!(parse_zone_class("a\"b"), Err("expected ID=CLASS, got \"a\\\"b\"".to_string()));
}

#[test]
fn replace_with_empty_pattern_agrees_with_std() {
    for (text, rep) in [("abc", "x"), ("", "x"), ("ab", ""), ("a b", "--")] {
        let v = to_chars(text);
        assert_eq!(from_chars(&replace_chars(&v, "", rep)), text.replace("", rep));
    }
    assert_eq!(from_chars(&replace_chars(&to_chars("abc"), "", "x")), "xaxbxcx");
}
