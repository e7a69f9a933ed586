use rin::decimal::{parse_u32, u32_to_string};

#[test]
fn formats_small_and_large_numbers() {
    assert_eq!(u32_to_string(0), "0");
    assert_eq!(u32_to_string(7), "7");
    assert_eq!(u32_to_string(10), "10");
    assert_eq!(u32_to_string(2025), "2025");
    assert_eq!(u32_to_string(4294967295), "4294967295");
}

#[test]
fn formatting_agrees_with_to_string() {
    for n in [0u32, 1, 9, 10, 99, 100, 101, 65535, 1_000_000, 123456789, u32::MAX - 1] {
        assert_eq!(u32_to_string(n), n.to_string());
    }
}

#[test]
fn parses_plain_and_signed_digits() {
    assert_eq!(parse_u32("42"), Some(42));
    assert_eq!(parse_u32("+7"), Some(7));
    assert_eq!(parse_u32("007"), Some(7));
    assert_eq!(parse_u32("0"), Some(0));
    assert_eq!(parse_u32("4294967295"), Some(4294967295));
}

#[test]
fn refuses_what_std_refuses() {
    for s in ["", "+", "-", "-1", "++1", "12a", " 1", "1 ", "4294967296", "99999999999", "１"] {
        assert_eq!(parse_u32(s), None, "{s:?}");
        assert!(s.parse::<u32>().is_err(), "{s:?}");
    }
}

#[test]
fn parsing_agrees_with_std_parse() {
    for s in ["5", "+0", "0001", "4294967294", "123", "+4294967295"] {
        assert_eq!(parse_u32(s), s.parse::<u32>().ok(), "{s:?}");
    }
}

#[test]
fn decimal_text_reads_back() {
    for n in [0u32, 3, 42, 1000, 2025, u32::MAX] {
        assert_eq!(parse_u32(&u32_to_string(n)), Some(n));
    }
}
