use distribeautie::digits::parse_u64_checked;
use distribeautie::digits::u64_to_string;

#[test]
fn renders_decimal_without_leading_zeros() {
    assert_eq!(u64_to_string(0), "0");
    assert_eq!(u64_to_string(7), "7");
    assert_eq!(u64_to_string(100), "100");
    assert_eq!(u64_to_string(18446744073709551615), "18446744073709551615");
}

#[test]
fn parses_valid_decimals() {
    assert_eq!(parse_u64_checked("0"), Some(0));
    assert_eq!(parse_u64_checked("100"), Some(100));
    assert_eq!(parse_u64_checked("007"), Some(7));
    assert_eq!(parse_u64_checked("18446744073709551615"), Some(u64::MAX));
}

#[test]
fn rejects_empty_and_non_digits() {
    assert_eq!(parse_u64_checked(""), None);
    assert_eq!(parse_u64_checked("12a"), None);
    assert_eq!(parse_u64_checked("-1"), None);
    assert_eq!(parse_u64_checked(" 12"), None);
}

#[test]
fn rejects_values_over_u64_max() {
    assert_eq!(parse_u64_checked("18446744073709551616"), None);
    assert_eq!(parse_u64_checked("99999999999999999999999"), None);
}

#[test]
fn round_trips_through_text() {
    for n in [0u64, 1, 9, 10, 1234567890, u64::MAX] {
        assert_eq!(parse_u64_checked(u64_to_string(n).as_str()), Some(n));
    }
}
