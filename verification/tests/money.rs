//! Amounts: exact arithmetic, precision and rendering.
use rust_decimal::Decimal;
use transaction_parser::money::{exact_add, exact_sub, render};
use transaction_parser::Amount;

fn dec(s: &str) -> Amount {
    Amount::from_str(s).unwrap()
}

/// The largest amount there is.
fn max() -> Amount {
    dec("79228162514264337593543950335")
}

/// The smallest amount there is.
fn min() -> Amount {
    dec("-79228162514264337593543950335")
}

#[test]
fn renders_round_values_without_trailing_zeros() {
    assert_eq!(render(dec("2.0000")), "2");
    assert_eq!(render(dec("1.5000")), "1.5");
    assert_eq!(render(Amount::zero()), "0");
}

#[test]
fn renders_full_precision_when_it_is_significant() {
    assert_eq!(render(dec("1.2345")), "1.2345");
    assert_eq!(render(dec("-0.0001")), "-0.0001");
}

#[test]
fn rounds_beyond_four_places_half_to_even() {
    assert_eq!(render(dec("1.00005")), "1");
    assert_eq!(render(dec("1.00015")), "1.0002");
    assert_eq!(render(dec("1.00016")), "1.0002");
}

#[test]
fn decimal_arithmetic_is_exact() {
    // The same sum in f64 lands on 0.30000000000000004.
    assert_eq!(dec("0.1") + dec("0.2"), dec("0.3"));
}

#[test]
fn ordinary_arithmetic_is_accepted() {
    assert_eq!(exact_add(dec("0.1"), dec("0.2")), Some(dec("0.3")));
    assert_eq!(exact_add(Amount::zero(), dec("1.5000")), Some(dec("1.5000")));
    assert_eq!(exact_sub(dec("1.0"), dec("1.0")), Some(Amount::zero()));
    assert_eq!(
        exact_sub(dec("0.0001"), dec("0.0002")),
        Some(dec("-0.0001"))
    );
}

#[test]
fn a_zero_result_is_exact_whatever_scale_it_comes_back_with() {
    // `Decimal` answers 0.0 - 0.0 with a scale-0 zero, which is not a loss.
    assert_eq!(exact_sub(dec("100.0"), dec("100.0")), Some(Amount::zero()));
    assert_eq!(exact_add(dec("0.0000"), Amount::zero()), Some(Amount::zero()));
}

#[test]
fn arithmetic_that_would_silently_round_is_refused() {
    // `Decimal::checked_add` returns Some here, having dropped the 0.0001.
    let huge = dec("10000000000000000000000000");
    let decimal: Decimal = "10000000000000000000000000".parse().unwrap();
    assert_eq!(decimal.checked_add("0.0001".parse().unwrap()), Some(decimal));
    assert_eq!(exact_add(huge, dec("0.0001")), None);
    assert_eq!(exact_sub(huge, dec("0.0001")), None);
}

#[test]
fn arithmetic_that_overflows_in_magnitude_is_refused() {
    assert_eq!(exact_add(max(), max()), None);
    assert_eq!(exact_sub(min(), max()), None);
}
