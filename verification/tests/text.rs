//! Rendering numbers, booleans and amounts as text.

use payments_engine_challenge::amount::Amount;
use payments_engine_challenge::text::{bool_string, decimal_string, fixed4_string, word};
use rust_decimal::Decimal;

fn amt(s: &str) -> Amount {
    let d: Decimal = s.parse().unwrap();
    Amount::new(d.mantissa(), d.scale()).unwrap()
}

#[test]
fn fixed4_should_match_decimal_formatting_with_four_places() {
    for s in [
        "0", "1.5", "-80", "0.0001", "12.3456", "7.00019", "-0.00005", "123456789.123456789",
        "-3.14159", "100", "0.00",
    ] {
        let d: Decimal = s.parse().unwrap();
        assert_eq!(fixed4_string(amt(s)), format!("{:.4}", d), "amount {s}");
    }
}

#[test]
fn fixed4_should_pad_and_truncate() {
    assert_eq!(fixed4_string(amt("1.5")), "1.5000");
    assert_eq!(fixed4_string(amt("2.99999")), "2.9999");
    assert_eq!(fixed4_string(amt("-4")), "-4.0000");
}

#[test]
fn decimal_string_should_print_digits() {
    assert_eq!(decimal_string(0), "0");
    assert_eq!(decimal_string(65535), "65535");
    assert_eq!(decimal_string(1_000_000_007), "1000000007");
}

#[test]
fn bool_string_should_print_the_word() {
    assert_eq!(bool_string(true), "true");
    assert_eq!(bool_string(false), "false");
}

#[test]
fn word_should_collect_the_characters() {
    assert_eq!(word(vec!['h', 'e', 'l', 'd']), "held");
}

#[test]
fn amount_arithmetic_should_be_exact() {
    let a = amt("0.1");
    let b = amt("0.2");

    assert_eq!(a.plus(b), amt("0.3"));
    assert_eq!(amt("1").minus(amt("0.0001")), amt("0.9999"));
    assert!(amt("1.0001").greater_than(&amt("1")));
    assert!(!amt("1.0000").greater_than(&amt("1")));
    assert_eq!(amt("2.50"), amt("2.5"));
}

#[test]
fn amount_new_should_refuse_out_of_range_values() {
    assert!(Amount::new(1, 29).is_none());
    assert!(Amount::new(1i128 << 96, 0).is_none());
    assert!(Amount::new((1i128 << 96) - 1, 28).is_some());
}
