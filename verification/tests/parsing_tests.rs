use rust_days::parsing::{
    default_debug, default_retries, default_timeout_ms, parse_bool, parse_hex_u32, parse_i64,
    parse_optional_i32, parse_u32, Config,
};

#[test]
fn parse_u32_works() {
    assert_eq!(parse_u32("42"), Some(42));
    assert_eq!(parse_u32(" -1 "), None);
}

#[test]
fn parse_i64_works() {
    assert_eq!(parse_i64("-42"), Some(-42));
    assert_eq!(parse_i64("abc"), None);
}

#[test]
fn parse_bool_works() {
    assert_eq!(parse_bool("yes"), Some(true));
    assert_eq!(parse_bool("FALSE"), Some(false));
    assert_eq!(parse_bool("maybe"), None);
}

#[test]
fn parse_optional_i32_works() {
    assert_eq!(parse_optional_i32(""), Some(None));
    assert_eq!(parse_optional_i32(" 12 "), Some(Some(12)));
    assert_eq!(parse_optional_i32("1.2"), None);
}

#[test]
fn parse_hex_u32_works() {
    assert_eq!(parse_hex_u32("0x2A"), Some(42));
    assert_eq!(parse_hex_u32("0Xff"), Some(255));
    assert_eq!(parse_hex_u32("2A"), None);
}

#[test]
fn config_uses_defaults_and_parsed_values() {
    let cfg = Config::from_options(Some("10"), Some("true"), None);
    assert_eq!(cfg.retries, 10);
    assert!(cfg.debug);
    assert_eq!(cfg.timeout_ms, 5_000);
}

#[test]
fn integer_edge_cases() {
    assert_eq!(parse_u32("+7"), Some(7));
    assert_eq!(parse_u32("4294967295"), Some(u32::MAX));
    assert_eq!(parse_u32("4294967296"), None);
    assert_eq!(parse_u32("+"), None);
    assert_eq!(parse_i64(" -9223372036854775808 "), Some(i64::MIN));
    assert_eq!(parse_i64("1_000"), None);
    assert_eq!(parse_hex_u32(" 0xffffffff "), Some(u32::MAX));
    assert_eq!(parse_hex_u32("0x"), None);
    assert_eq!(parse_hex_u32("0x+1f"), Some(31));
    assert_eq!(parse_optional_i32("   "), Some(None));
    assert_eq!(parse_optional_i32("-2147483648"), Some(Some(i32::MIN)));
}

#[test]
fn bool_words_and_defaults() {
    assert_eq!(parse_bool(" 1 "), Some(true));
    assert_eq!(parse_bool("No"), Some(false));
    assert_eq!(parse_bool("0"), Some(false));
    assert_eq!(parse_bool("TRUE"), Some(true));
    assert_eq!(default_retries(), 3);
    assert!(!default_debug());
    assert_eq!(default_timeout_ms(), 5000);
    let cfg = Config::from_options(Some("x"), Some("maybe"), Some(" 250 "));
    assert_eq!(cfg.retries, 3);
    assert!(!cfg.debug);
    assert_eq!(cfg.timeout_ms, 250);
}

#[test]
fn hex_text_parses_back() {
    for n in [0u32, 9, 10, 42, 255, 0xDEAD_BEEF, u32::MAX] {
        assert_eq!(parse_hex_u32(&format!("0x{:x}", n)), Some(n));
        assert_eq!(parse_hex_u32(&format!(" 0X{:X} ", n)), Some(n));
    }
    assert_eq!(parse_hex_u32("ff"), None);
}
