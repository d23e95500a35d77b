//! Decimal rendering used by the pasting rule, and the base-10 numeral
//! parser used for range bounds.

use seq_expand::decimal::{i64_dec_string, parse_dec_i64, u64_dec_string};

#[test]
fn renders_zero() {
    assert_eq!(u64_dec_string(0), "0".to_string());
    assert_eq!(i64_dec_string(0), "0".to_string());
}

#[test]
fn renders_single_digits() {
    assert_eq!(u64_dec_string(7), "7".to_string());
    assert_eq!(i64_dec_string(9), "9".to_string());
}

#[test]
fn renders_multiple_digits() {
    assert_eq!(u64_dec_string(10), "10".to_string());
    assert_eq!(u64_dec_string(1234567890), "1234567890".to_string());
}

#[test]
fn renders_unsigned_maximum() {
    assert_eq!(u64_dec_string(u64::MAX), "18446744073709551615".to_string());
}

#[test]
fn renders_negative_values() {
    assert_eq!(i64_dec_string(-1), "-1".to_string());
    assert_eq!(i64_dec_string(-42), "-42".to_string());
}

#[test]
fn renders_signed_extremes() {
    assert_eq!(i64_dec_string(i64::MAX), "9223372036854775807".to_string());
    assert_eq!(i64_dec_string(i64::MIN), "-9223372036854775808".to_string());
}

#[test]
fn parses_plain_numerals() {
    assert_eq!(parse_dec_i64("0"), Some(0));
    assert_eq!(parse_dec_i64("42"), Some(42));
    assert_eq!(parse_dec_i64("-7"), Some(-7));
    assert_eq!(parse_dec_i64("007"), Some(7));
}

#[test]
fn parses_signed_extremes() {
    assert_eq!(parse_dec_i64("9223372036854775807"), Some(i64::MAX));
    assert_eq!(parse_dec_i64("-9223372036854775808"), Some(i64::MIN));
}

#[test]
fn rejects_out_of_range_numerals() {
    assert_eq!(parse_dec_i64("9223372036854775808"), None);
    assert_eq!(parse_dec_i64("-9223372036854775809"), None);
    assert_eq!(parse_dec_i64("99999999999999999999999999"), None);
}

#[test]
fn rejects_malformed_numerals() {
    assert_eq!(parse_dec_i64(""), None);
    assert_eq!(parse_dec_i64("-"), None);
    assert_eq!(parse_dec_i64("+5"), None);
    assert_eq!(parse_dec_i64("12a"), None);
    assert_eq!(parse_dec_i64("1_000"), None);
    assert_eq!(parse_dec_i64("0x10"), None);
    assert_eq!(parse_dec_i64(" 5"), None);
    assert_eq!(parse_dec_i64("5 "), None);
}

#[test]
fn rendering_then_parsing_round_trips() {
    for v in [0, 1, -1, 9, 10, -10, 123456789, -987654321, i64::MAX, i64::MIN] {
        assert_eq!(parse_dec_i64(&i64_dec_string(v)), Some(v));
    }
}
