//! Behavior of the token-level parsers and the simple line history.

use ushell::float::float_token_ok;
use ushell::scan::{
    parse_u8, parse_u16, parse_u64, parse_u128, parse_i64, parse_i128, parse_bool, parse_char,
    parse_hex, parse_index,
};
use ushell::line_history::History;
use ushell::config::parse_groups;

#[test]
fn test_unsigned_extremes() {
    assert_eq!(parse_u64("18446744073709551615"), Some(u64::MAX));
    assert_eq!(parse_u64("0xFFFFFFFFFFFFFFFF"), Some(u64::MAX));
    assert_eq!(parse_u64("18446744073709551616"), None);
    assert_eq!(parse_u128("340282366920938463463374607431768211455"), Some(u128::MAX));
    assert_eq!(parse_u128("340282366920938463463374607431768211456"), None);
    assert_eq!(parse_u8("+7"), Some(7));
    assert_eq!(parse_u8(""), None);
    assert_eq!(parse_u8("0x"), None);
    assert_eq!(parse_u16(" 42 "), Some(42));
}

#[test]
fn test_signed_extremes() {
    assert_eq!(parse_i64("-9223372036854775808"), Some(i64::MIN));
    assert_eq!(parse_i64("9223372036854775807"), Some(i64::MAX));
    assert_eq!(parse_i64("9223372036854775808"), None);
    assert_eq!(parse_i128("-170141183460469231731687303715884105728"), Some(i128::MIN));
    assert_eq!(parse_i128("170141183460469231731687303715884105727"), Some(i128::MAX));
    // The sign comes after the radix prefix, as the radix parser reads it.
    assert_eq!(parse_i64("0x-10"), Some(-16));
    assert_eq!(parse_i64("-0x10"), None);
}

#[test]
fn test_bool_and_char_tokens() {
    assert_eq!(parse_bool("true"), Some(true));
    assert_eq!(parse_bool("TRUE"), Some(true));
    assert_eq!(parse_bool("0"), Some(false));
    assert_eq!(parse_bool("no"), None);
    assert_eq!(parse_bool(" true"), None);
    assert_eq!(parse_char("x"), Some('x'));
    assert_eq!(parse_char(""), None);
    assert_eq!(parse_char("xy"), None);
}

#[test]
fn test_hex_tokens() {
    assert_eq!(parse_hex("AABBCC", 16), Some(vec![0xAA, 0xBB, 0xCC]));
    assert_eq!(parse_hex("00ff", 16), Some(vec![0x00, 0xFF]));
    assert_eq!(parse_hex("", 16), None);
    assert_eq!(parse_hex("A", 16), None);
    assert_eq!(parse_hex("GG", 16), None);
    assert_eq!(parse_hex("AABB", 1), None);
}

#[test]
fn test_float_token_grammar() {
    assert!(float_token_ok("0.0"));
    assert!(float_token_ok("-0.0"));
    assert!(float_token_ok("3.141592653589793"));
    assert!(float_token_ok("1e100"));
    assert!(float_token_ok("-2.5e-50"));
    assert!(float_token_ok(".5"));
    assert!(float_token_ok("5."));
    assert!(float_token_ok("inf"));
    assert!(float_token_ok("-Infinity"));
    assert!(float_token_ok("nan"));
    assert!(!float_token_ok(""));
    assert!(!float_token_ok("."));
    assert!(!float_token_ok("1e"));
    assert!(!float_token_ok("1e5e2"));
    assert!(!float_token_ok("one"));
    // Every token accepted here is accepted by the standard float parser too.
    for s in ["0.0", "-0.0", "1e100", "-2.5e-50", ".5", "5.", "inf", "-Infinity", "nan"] {
        assert!(s.parse::<f64>().is_ok());
    }
    for s in ["", ".", "1e", "1e5e2", "one"] {
        assert!(s.parse::<f64>().is_err());
    }
}

#[test]
fn test_parse_index_plain_decimal() {
    assert_eq!(parse_index("0"), Some(0));
    assert_eq!(parse_index("42"), Some(42));
    assert_eq!(parse_index("+42"), Some(42));
    assert_eq!(parse_index("0x10"), None);
    assert_eq!(parse_index(" 42"), None);
    assert_eq!(parse_index(""), None);
}

#[test]
fn test_line_history_navigation() {
    let mut h = History::new();
    h.push("one".to_string());
    h.push("two".to_string());
    h.push("three".to_string());
    h.push("two".to_string()); // duplicate, skipped

    assert_eq!(h.get_by_index(0).as_deref(), Some("one"));
    assert_eq!(h.get_by_index(3), None);

    assert_eq!(h.previous().as_deref(), Some("three"));
    assert_eq!(h.previous().as_deref(), Some("two"));
    assert_eq!(h.previous().as_deref(), Some("one"));
    assert_eq!(h.previous().as_deref(), Some("one"));
    assert_eq!(h.next().as_deref(), Some("two"));
    assert_eq!(h.next().as_deref(), Some("three"));
    assert_eq!(h.next(), None);
    assert_eq!(h.next(), None);
}

#[test]
fn test_line_history_eviction() {
    let mut h = History::new();
    for i in 0..60 {
        h.push(format!("cmd{}", i));
    }
    // Only the newest fifty stay.
    assert_eq!(h.get_by_index(0).as_deref(), Some("cmd10"));
    assert_eq!(h.get_by_index(49).as_deref(), Some("cmd59"));
    assert_eq!(h.get_by_index(50), None);
}

#[test]
fn test_parse_groups_dsl() {
    let groups = parse_groups("dFs: path::to::f1 path::to::f2, t: my::flag,  : skipme, junk");
    assert_eq!(groups.len(), 2);
    assert_eq!(groups[0].0, "dFs");
    assert_eq!(groups[0].1, vec!["f1".to_string(), "f2".to_string()]);
    assert_eq!(groups[1].0, "t");
    assert_eq!(groups[1].1, vec!["flag".to_string()]);
}

#[test]
fn test_parse_groups_feeds_registration() {
    let groups = parse_groups("s: demo::hello demo::goodbye, v: demo::nothing");
    let reg = ushell::registry::Registry::new(groups, 8).unwrap();
    let names = reg.get_function_names();
    assert_eq!(names, vec!["goodbye".to_string(), "hello".to_string(), "nothing".to_string()]);
}
