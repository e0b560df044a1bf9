use statmm::latency::{calc_latency, latency_at, parse_unsigned};

#[test]
fn unsigned_numbers_are_digits_after_an_optional_plus() {
    assert_eq!(parse_unsigned("0"), Some(0));
    assert_eq!(parse_unsigned("1700000000000"), Some(1_700_000_000_000));
    assert_eq!(parse_unsigned("+42"), Some(42));
    assert_eq!(parse_unsigned("007"), Some(7));
    assert_eq!(parse_unsigned(""), None);
    assert_eq!(parse_unsigned("+"), None);
    assert_eq!(parse_unsigned("-1"), None);
    assert_eq!(parse_unsigned("1.5"), None);
    assert_eq!(parse_unsigned("12a"), None);
    assert_eq!(parse_unsigned(" 1"), None);
    assert_eq!(parse_unsigned("++1"), None);
    assert_eq!(parse_unsigned("１"), None);
}

#[test]
fn unsigned_numbers_end_where_sixteen_bytes_end() {
    assert_eq!(parse_unsigned("340282366920938463463374607431768211455"), Some(u128::MAX));
    assert_eq!(parse_unsigned("340282366920938463463374607431768211456"), None);
    assert_eq!(parse_unsigned("3402823669209384634633746074317682114550"), None);
    assert_eq!(parse_unsigned("000340282366920938463463374607431768211455"), Some(u128::MAX));
}

#[test]
fn parse_unsigned_agrees_with_the_standard_parser() {
    for text in ["0", "+0", "18446744073709551616", "abc", "", "+", "-0", "12 ", "99999999999999999999999999999999999999999"] {
        assert_eq!(parse_unsigned(text), text.parse::<u128>().ok(), "for {:?}", text);
    }
}

#[test]
fn latency_is_now_less_the_stamp() {
    // stamp 1000 ms, now 1.5 s after the epoch
    assert_eq!(latency_at("1000", Some(1_500_000_000)), Some(500_000_000));
    assert_eq!(latency_at("1000", Some(1_000_000_000)), Some(0));
    assert_eq!(latency_at("0", Some(17)), Some(17));
}

#[test]
fn no_latency_for_a_stamp_in_the_future() {
    assert_eq!(latency_at("1000", Some(999_999_999)), None);
    assert_eq!(latency_at("1", Some(0)), None);
}

#[test]
fn no_latency_without_a_stamp_or_a_clock() {
    assert_eq!(latency_at("soon", Some(1_500_000_000)), None);
    assert_eq!(latency_at("", Some(1_500_000_000)), None);
    assert_eq!(latency_at("1000", None), None);
}

#[test]
fn stamp_keeps_its_low_eight_bytes() {
    // 2^64 + 5 milliseconds reads as 5
    assert_eq!(latency_at("18446744073709551621", Some(6_000_000)), Some(1_000_000));
    assert_eq!(latency_at("18446744073709551616", Some(3)), Some(3));
}

#[test]
fn latency_against_the_clock() {
    assert_eq!(calc_latency("not a stamp"), None);
    assert!(calc_latency("0").is_some());
    // a stamp of the year 2001 lies behind the clock, by more than a day
    let d = calc_latency("1000000000000").unwrap();
    assert!(d > 86_400_000_000_000);
    // the largest stamp lies ahead of it
    assert_eq!(calc_latency("18446744073709551615"), None);
}
