use async_in_embedded::utils::{parse_bool, parse_u32};

#[test]
fn parse_bool_accepts_only_true() {
    assert!(parse_bool(Some("true")));
    assert!(!parse_bool(Some("True")));
    assert!(!parse_bool(Some("true ")));
    assert!(!parse_bool(Some("tru")));
    assert!(!parse_bool(Some("false")));
    assert!(!parse_bool(Some("")));
    assert!(!parse_bool(Some("1")));
    assert!(!parse_bool(None));
}

#[test]
fn parse_u32_known_values() {
    assert_eq!(parse_u32(None), 0);
    assert_eq!(parse_u32(Some("0")), 0);
    assert_eq!(parse_u32(Some("42")), 42);
    assert_eq!(parse_u32(Some("+42")), 42);
    assert_eq!(parse_u32(Some("007")), 7);
    assert_eq!(parse_u32(Some("4294967295")), 4294967295);
    assert_eq!(parse_u32(Some("4294967296")), 0);
    assert_eq!(parse_u32(Some("99999999999999999999")), 0);
    assert_eq!(parse_u32(Some("")), 0);
    assert_eq!(parse_u32(Some("+")), 0);
    assert_eq!(parse_u32(Some("-1")), 0);
    assert_eq!(parse_u32(Some("-0")), 0);
    assert_eq!(parse_u32(Some(" 1")), 0);
    assert_eq!(parse_u32(Some("1 ")), 0);
    assert_eq!(parse_u32(Some("12a")), 0);
    assert_eq!(parse_u32(Some("++1")), 0);
}

#[test]
fn parse_u32_agrees_with_std_parse() {
    let inputs = [
        "", "+", "-", "0", "00000000000000000001", "+0", "-0", "1", "+1", "-1", "10", "65535",
        "4294967294", "4294967295", "4294967296", "42949672950", "12 ", " 12", "1_000", "0x10",
        "٣", "１", "+-1", "1e3", "18446744073709551616",
    ];
    for s in inputs.iter() {
        assert_eq!(parse_u32(Some(s)), s.parse::<u32>().unwrap_or(0), "input {:?}", s);
    }
}
