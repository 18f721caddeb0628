use bleach_injector::decimal::{format_plain, format_two_places, parse_decimal};
use bleach_injector::units::{LIMIT, ONE};

#[test]
fn two_places_of_common_values() {
    assert_eq!(format_two_places(ONE), "1.00");
    assert_eq!(format_two_places(500_000_000), "0.50");
    assert_eq!(format_two_places(0), "0.00");
    assert_eq!(format_two_places(999_000_000), "1.00");
    assert_eq!(format_two_places(994_999_999), "0.99");
    assert_eq!(format_two_places(12_345_678_900), "12.35");
    assert_eq!(format_two_places(-250_000_000), "-0.25");
    assert_eq!(format_two_places(1_000_000), "0.00");
}

#[test]
fn two_places_round_halves_to_even() {
    assert_eq!(format_two_places(125_000_000), "0.12");
    assert_eq!(format_two_places(135_000_000), "0.14");
    assert_eq!(format_two_places(125_000_001), "0.13");
    assert_eq!(format_two_places(5_000_000), "0.00");
    assert_eq!(format_two_places(15_000_000), "0.02");
    assert_eq!(format_two_places(-125_000_000), "-0.12");
    assert_eq!(format_two_places(995_000_000), "1.00");
}

#[test]
fn two_places_keep_the_sign_of_small_negatives() {
    assert_eq!(format_two_places(-1_000_000), "-0.00");
    assert_eq!(format_two_places(-1), "-0.00");
}

#[test]
fn two_places_at_the_ends_of_the_integers() {
    assert_eq!(format_two_places(i64::MAX), "9223372036.85");
    assert_eq!(format_two_places(i64::MIN), "-9223372036.85");
}

#[test]
fn plain_text_trims_trailing_zeros() {
    assert_eq!(format_plain(ONE), "1");
    assert_eq!(format_plain(500_000_000), "0.5");
    assert_eq!(format_plain(0), "0");
    assert_eq!(format_plain(1_250_000_000), "1.25");
    assert_eq!(format_plain(1), "0.000000001");
    assert_eq!(format_plain(-1), "-0.000000001");
    assert_eq!(format_plain(100), "0.0000001");
    assert_eq!(format_plain(123_456_789), "0.123456789");
    assert_eq!(format_plain(-42 * ONE), "-42");
    assert_eq!(format_plain(10 * ONE + 10), "10.00000001");
    assert_eq!(format_plain(i64::MIN), "-9223372036.854775808");
}

#[test]
fn decimals_are_read() {
    assert_eq!(parse_decimal(b"0.5"), Some(500_000_000));
    assert_eq!(parse_decimal(b"1"), Some(ONE));
    assert_eq!(parse_decimal(b"0"), Some(0));
    assert_eq!(parse_decimal(b"+1.25"), Some(1_250_000_000));
    assert_eq!(parse_decimal(b"-0.75"), Some(-750_000_000));
    assert_eq!(parse_decimal(b"5."), Some(5 * ONE));
    assert_eq!(parse_decimal(b".5"), Some(500_000_000));
    assert_eq!(parse_decimal(b"-.5"), Some(-500_000_000));
    assert_eq!(parse_decimal(b"007.000"), Some(7 * ONE));
    assert_eq!(parse_decimal(b"0.000000001"), Some(1));
    assert_eq!(parse_decimal(b"-0"), Some(0));
}

#[test]
fn decimal_places_after_the_ninth_are_dropped() {
    assert_eq!(parse_decimal(b"0.1234567899"), Some(123_456_789));
    assert_eq!(parse_decimal(b"0.9999999999999"), Some(999_999_999));
    assert_eq!(parse_decimal(b"-0.0000000009"), Some(0));
}

#[test]
fn large_decimals_are_capped() {
    assert_eq!(parse_decimal(b"1000000000"), Some(LIMIT));
    assert_eq!(parse_decimal(b"999999999.999999999"), Some(LIMIT - 1));
    assert_eq!(parse_decimal(b"1000000000.5"), Some(LIMIT));
    assert_eq!(parse_decimal(b"1000000001"), Some(LIMIT));
    assert_eq!(parse_decimal(b"99999999999999999999999999999999"), Some(LIMIT));
    assert_eq!(parse_decimal(b"-99999999999999999999999999999999"), Some(-LIMIT));
}

#[test]
fn other_text_is_no_decimal() {
    assert_eq!(parse_decimal(b"abc"), None);
    assert_eq!(parse_decimal(b""), None);
    assert_eq!(parse_decimal(b"."), None);
    assert_eq!(parse_decimal(b"+"), None);
    assert_eq!(parse_decimal(b"-."), None);
    assert_eq!(parse_decimal(b"1.2.3"), None);
    assert_eq!(parse_decimal(b"1e3"), None);
    assert_eq!(parse_decimal(b"--1"), None);
    assert_eq!(parse_decimal(b"1-"), None);
    assert_eq!(parse_decimal(b" 1"), None);
    assert_eq!(parse_decimal(b"1,5"), None);
    assert_eq!(parse_decimal(b"0x10"), None);
    assert_eq!(parse_decimal(b"nan"), None);
    assert_eq!(parse_decimal(b"inf"), None);
    assert_eq!(parse_decimal(b"1.5x"), None);
}

#[test]
fn plain_text_reads_back() {
    for value in [0, 1, -1, 10, 500_000_000, -123_456_789, ONE, 42 * ONE + 7, LIMIT, -LIMIT] {
        assert_eq!(parse_decimal(format_plain(value).as_bytes()), Some(value));
    }
}
