use event_collector::decimal::{append_decimal, find_digits_end, parse_decimal, push_decimal};
use event_collector::json::find_closing_quote;

#[test]
fn push_decimal_writes_digits() {
    for n in [0u64, 1, 9, 10, 99, 100, 1700000000000, u64::MAX] {
        let mut out = b"x".to_vec();
        push_decimal(&mut out, n);
        assert_eq!(out, format!("x{}", n).into_bytes());
    }
}

#[test]
fn append_decimal_writes_sign_and_digits() {
    for n in [0i64, 1, -1, 10, -10, 1700000000000, i64::MAX, i64::MIN] {
        let mut text = "x".to_string();
        append_decimal(&mut text, n);
        assert_eq!(text, format!("x{}", n));
    }
}

#[test]
fn parse_decimal_reads_what_push_decimal_wrote() {
    for n in [0u64, 7, 10, 1234567890, u64::MAX - 1, u64::MAX] {
        let mut out = Vec::new();
        push_decimal(&mut out, n);
        assert_eq!(find_digits_end(&out, 0), out.len());
        assert_eq!(parse_decimal(&out, 0, out.len()), Some(n));
    }
}

#[test]
fn parse_decimal_refuses_other_notations() {
    assert_eq!(parse_decimal(b"", 0, 0), None);
    assert_eq!(parse_decimal(b"00", 0, 2), None);
    assert_eq!(parse_decimal(b"01", 0, 2), None);
    assert_eq!(parse_decimal(b"1a", 0, 2), None);
    assert_eq!(parse_decimal(b"+1", 0, 2), None);
    assert_eq!(parse_decimal(b"18446744073709551616", 0, 20), None);
    assert_eq!(parse_decimal(b"99999999999999999999", 0, 20), None);
    assert_eq!(parse_decimal(b"184467440737095516150", 0, 21), None);
}

#[test]
fn parse_decimal_refuses_what_is_no_span() {
    assert_eq!(parse_decimal(b"123", 2, 1), None);
    assert_eq!(parse_decimal(b"123", 0, 4), None);
    assert_eq!(parse_decimal(b"123", 5, 7), None);
}

#[test]
fn parse_decimal_reads_a_span() {
    assert_eq!(parse_decimal(b"ab120cd", 2, 5), Some(120));
    assert_eq!(parse_decimal(b"ab120cd", 2, 4), Some(12));
    assert_eq!(parse_decimal(b"ab120cd", 4, 5), Some(0));
}

#[test]
fn find_digits_end_stops_at_the_first_other_byte() {
    assert_eq!(find_digits_end(b"123,45", 0), 3);
    assert_eq!(find_digits_end(b"123,45", 3), 3);
    assert_eq!(find_digits_end(b"123,45", 4), 6);
    assert_eq!(find_digits_end(b"123", 3), 3);
    assert_eq!(find_digits_end(b"/0:", 0), 0);
    assert_eq!(find_digits_end(b"/0:", 1), 2);
    assert_eq!(find_digits_end(b"12", 5), 5);
}

#[test]
fn find_closing_quote_skips_escaped_quotes() {
    assert_eq!(find_closing_quote(b"\"abc\"", 1), Some(4));
    assert_eq!(find_closing_quote(b"\"a\\\"c\"", 1), Some(5));
    assert_eq!(find_closing_quote(b"\"a\\\\\"c\"", 1), Some(4));
    assert_eq!(find_closing_quote(b"\"abc", 1), None);
    assert_eq!(find_closing_quote(b"\"abc\\", 1), None);
    assert_eq!(find_closing_quote(b"\"abc\\\"", 1), None);
    assert_eq!(find_closing_quote(b"\"\"", 1), Some(1));
    assert_eq!(find_closing_quote(b"\"\"", 2), None);
    assert_eq!(find_closing_quote(b"\"\"", 7), None);
}
