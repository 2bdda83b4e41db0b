use gossip_nodes::decimal::{parse_unsigned, push_decimal};

fn written(n: u64) -> String {
    let mut out = String::new();
    push_decimal(&mut out, n);
    out
}

#[test]
fn push_decimal_writes_plain_numerals() {
    assert_eq!(written(0), "0");
    assert_eq!(written(7), "7");
    assert_eq!(written(10), "10");
    assert_eq!(written(109), "109");
    assert_eq!(written(12345), "12345");
    assert_eq!(written(1_000_000), "1000000");
    assert_eq!(written(u64::MAX), "18446744073709551615");
}

#[test]
fn push_decimal_appends_to_what_is_there() {
    let mut out = String::from("n1-");
    push_decimal(&mut out, 42);
    assert_eq!(out, "n1-42");
    push_decimal(&mut out, 0);
    assert_eq!(out, "n1-420");
}

#[test]
fn push_decimal_agrees_with_the_standard_formatting() {
    for n in [0u64, 1, 9, 10, 11, 99, 100, 101, 999, 1000, 65535, 4294967296, u64::MAX - 1] {
        assert_eq!(written(n), format!("{}", n));
    }
}

#[test]
fn parse_unsigned_reads_digits() {
    assert_eq!(parse_unsigned("0"), Some(0));
    assert_eq!(parse_unsigned("7"), Some(7));
    assert_eq!(parse_unsigned("42"), Some(42));
    assert_eq!(parse_unsigned("18446744073709551615"), Some(u64::MAX));
}

#[test]
fn parse_unsigned_takes_leading_zeros_and_a_plus() {
    assert_eq!(parse_unsigned("007"), Some(7));
    assert_eq!(parse_unsigned("+5"), Some(5));
    assert_eq!(parse_unsigned("+0"), Some(0));
    assert_eq!(parse_unsigned("000000000000000000000000018446744073709551615"), Some(u64::MAX));
}

#[test]
fn parse_unsigned_refuses_what_is_no_number() {
    assert_eq!(parse_unsigned(""), None);
    assert_eq!(parse_unsigned("+"), None);
    assert_eq!(parse_unsigned("-"), None);
    assert_eq!(parse_unsigned("-1"), None);
    assert_eq!(parse_unsigned("-0"), None);
    assert_eq!(parse_unsigned("++1"), None);
    assert_eq!(parse_unsigned("1+"), None);
    assert_eq!(parse_unsigned("12a"), None);
    assert_eq!(parse_unsigned("a12"), None);
    assert_eq!(parse_unsigned(" 1"), None);
    assert_eq!(parse_unsigned("1 "), None);
    assert_eq!(parse_unsigned("1.0"), None);
    assert_eq!(parse_unsigned("\u{0663}"), None);
}

#[test]
fn parse_unsigned_refuses_what_does_not_fit() {
    assert_eq!(parse_unsigned("18446744073709551616"), None);
    assert_eq!(parse_unsigned("18446744073709551620"), None);
    assert_eq!(parse_unsigned("99999999999999999999"), None);
    assert_eq!(parse_unsigned("184467440737095516150"), None);
    assert_eq!(parse_unsigned("+18446744073709551616"), None);
}

#[test]
fn parse_unsigned_agrees_with_the_standard_parser() {
    for text in ["0", "1", "+1", "-1", "", "+", "00", "1x", "x", "18446744073709551615", "18446744073709551616", "\u{0663}", "1_000"] {
        assert_eq!(parse_unsigned(text), text.parse::<u64>().ok());
    }
}

#[test]
fn numerals_read_back_as_written() {
    for n in [0u64, 1, 9, 10, 19, 100, 12345, u64::MAX / 10, u64::MAX] {
        assert_eq!(parse_unsigned(&written(n)), Some(n));
    }
}
