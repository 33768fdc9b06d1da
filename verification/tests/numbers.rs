use stock_bayes::number::{parse_unsigned, Decimal};
use stock_bayes::parser::{price_or_zero, volume_or_zero};

fn units(text: &str) -> Option<i128> {
    Decimal::parse(text).map(|d| d.units)
}

#[test]
fn unsigned_reads_plain_digits() {
    assert_eq!(parse_unsigned("1000"), Some(1000));
    assert_eq!(parse_unsigned("0"), Some(0));
    assert_eq!(parse_unsigned("00012"), Some(12));
}

#[test]
fn unsigned_accepts_a_leading_plus_only() {
    assert_eq!(parse_unsigned("+5"), Some(5));
    assert_eq!(parse_unsigned("-5"), None);
    assert_eq!(parse_unsigned("+"), None);
    assert_eq!(parse_unsigned("++5"), None);
}

#[test]
fn unsigned_refuses_what_is_no_integer() {
    assert_eq!(parse_unsigned(""), None);
    assert_eq!(parse_unsigned("12a"), None);
    assert_eq!(parse_unsigned(" 12"), None);
    assert_eq!(parse_unsigned("1_000"), None);
    assert_eq!(parse_unsigned("1.0"), None);
    assert_eq!(parse_unsigned("１２"), None);
}

#[test]
fn unsigned_stops_at_the_largest_value() {
    assert_eq!(parse_unsigned("18446744073709551615"), Some(u64::MAX));
    assert_eq!(parse_unsigned("18446744073709551616"), None);
    assert_eq!(parse_unsigned("99999999999999999999999"), None);
}

#[test]
fn unsigned_agrees_with_the_standard_parser() {
    let samples = [
        "", "+", "-", "0", "+0", "-0", "7", "+7", "007", "1e3", "12 ", "18446744073709551615",
        "18446744073709551616", "abc", "4294967296",
    ];
    for text in samples {
        assert_eq!(parse_unsigned(text), text.parse::<u64>().ok(), "{:?}", text);
    }
}

#[test]
fn decimal_counts_ten_thousandths() {
    assert_eq!(units("123.45"), Some(1_234_500));
    assert_eq!(units("123.4500"), Some(1_234_500));
    assert_eq!(units("100"), Some(1_000_000));
    assert_eq!(units("0.0001"), Some(1));
    assert_eq!(units("0"), Some(0));
}

#[test]
fn decimal_takes_a_sign() {
    assert_eq!(units("+1.5"), Some(15_000));
    assert_eq!(units("-1.5"), Some(-15_000));
    assert_eq!(units("-0"), Some(0));
    assert_eq!(units("-"), None);
    assert_eq!(units("+-1"), None);
}

#[test]
fn decimal_needs_a_digit_on_one_side_of_the_point() {
    assert_eq!(units("5."), Some(50_000));
    assert_eq!(units(".5"), Some(5_000));
    assert_eq!(units("."), None);
    assert_eq!(units("+."), None);
    assert_eq!(units(""), None);
}

#[test]
fn decimal_drops_digits_past_the_fourth_place() {
    assert_eq!(units("123.45678"), Some(1_234_567));
    assert_eq!(units("0.00009"), Some(0));
    assert_eq!(units("-0.99999"), Some(-9_999));
}

#[test]
fn decimal_refuses_what_is_no_plain_decimal() {
    assert_eq!(units("1e5"), None);
    assert_eq!(units("inf"), None);
    assert_eq!(units("NaN"), None);
    assert_eq!(units("1.2.3"), None);
    assert_eq!(units("1,5"), None);
    assert_eq!(units(" 1.5"), None);
    assert_eq!(units("1.5x"), None);
    assert_eq!(units("12€"), None);
}

#[test]
fn decimal_stops_where_the_count_no_longer_fits() {
    assert_eq!(units("17014118346046923173168730371588410.5727"), Some(i128::MAX));
    assert_eq!(units("17014118346046923173168730371588410.5728"), None);
    assert_eq!(units("-17014118346046923173168730371588410.5728"), Some(i128::MIN));
    assert_eq!(units("-17014118346046923173168730371588410.5729"), None);
    assert_eq!(units("999999999999999999999999999999999999999999"), None);
}

#[test]
fn decimal_of_a_whole_number() {
    assert_eq!(Decimal::from_whole(0).units, 0);
    assert_eq!(Decimal::from_whole(12).units, 120_000);
    assert_eq!(Decimal::from_whole(u64::MAX).units, 184_467_440_737_095_516_150_000);
}

#[test]
fn unreadable_price_counts_as_zero() {
    assert_eq!(price_or_zero("123.50"), Decimal { units: 1_235_000 });
    assert_eq!(price_or_zero("abc"), Decimal { units: 0 });
    assert_eq!(price_or_zero(""), Decimal { units: 0 });
    assert_eq!(price_or_zero("1e2"), Decimal { units: 0 });
}

#[test]
fn unreadable_volume_counts_as_zero() {
    assert_eq!(volume_or_zero("1100"), 1100);
    assert_eq!(volume_or_zero("11.5"), 0);
    assert_eq!(volume_or_zero("-3"), 0);
    assert_eq!(volume_or_zero(""), 0);
}
