//! Amounts against `Decimal` itself and against whole-number arithmetic.
use rust_decimal::Decimal;
use transaction_parser::money::{exact_add, exact_sub, render, to_engine_scale};
use transaction_parser::Amount;

fn dec(s: &str) -> Amount {
    Amount::from_str(s).unwrap()
}

fn decimal(s: &str) -> Decimal {
    s.parse().unwrap()
}

const LIMIT: i128 = 79228162514264337593543950336;

/// A repeatable sequence of numbers with no pattern to speak of.
fn scramble(state: &mut u64) -> u64 {
    *state = state
        .wrapping_mul(6364136223846793005)
        .wrapping_add(1442695040888963407);
    *state ^ (*state >> 29)
}

/// A signed count of units of some decimal place, as an amount.
fn amount(units: i128, scale: u32) -> Amount {
    dec(&Decimal::from_i128_with_scale(units, scale).to_string())
}

/// Counts of units with anything from one digit to the most there can be.
fn units(state: &mut u64) -> i128 {
    let wide = (i128::from(scramble(state)) << 32) ^ i128::from(scramble(state));
    let narrowed = (wide % LIMIT) >> (scramble(state) % 97);
    if scramble(state) % 2 == 0 {
        narrowed
    } else {
        -narrowed
    }
}

#[test]
fn sums_and_differences_agree_with_whole_number_arithmetic() {
    let mut state = 7;
    let mut refused = 0;
    for _ in 0..20_000 {
        let (l, r) = (units(&mut state), units(&mut state));
        let (ls, rs) = (
            (scramble(&mut state) % 9) as u32,
            (scramble(&mut state) % 9) as u32,
        );
        let scale = ls.max(rs);
        let (left, right) = (amount(l, ls), amount(r, rs));
        let (lu, ru) = (l * 10i128.pow(scale - ls), r * 10i128.pow(scale - rs));

        let sum = exact_add(left, right);
        let fits = l == 0 || r == 0 || (lu + ru).abs() < LIMIT;
        assert_eq!(sum.is_some(), fits, "{left:?} + {right:?}");
        if let Some(sum) = sum {
            let wanted = if l == 0 {
                right
            } else if r == 0 {
                left
            } else {
                amount(lu + ru, scale)
            };
            assert_eq!(sum.text(), wanted.text(), "{left:?} + {right:?}");
        } else {
            refused += 1;
        }

        let difference = exact_sub(left, right);
        let fits = l == 0 || r == 0 || (lu - ru).abs() < LIMIT;
        assert_eq!(difference.is_some(), fits, "{left:?} - {right:?}");
        if let Some(difference) = difference {
            let wanted = if r == 0 {
                if l == 0 {
                    right
                } else {
                    left
                }
            } else if l == 0 {
                amount(-r, rs)
            } else {
                amount(lu - ru, scale)
            };
            assert_eq!(difference.text(), wanted.text(), "{left:?} - {right:?}");
        }

        assert_eq!(left.is_less_than(right), lu < ru, "{left:?} < {right:?}");
        assert_eq!(left == right, lu == ru, "{left:?} == {right:?}");
    }
    assert!(refused > 100, "the samples should reach the limit");
}

#[test]
fn sums_near_the_limit_are_exact_or_refused() {
    let mut state = 5;
    let (mut kept, mut refused, mut beyond) = (0, 0, 0);
    for _ in 0..20_000 {
        // The coarser operand lands near the limit once it is written at the finer
        // scale, on either side of it, and the finer one leads back to near it.
        let fine = (scramble(&mut state) % 29) as u32;
        let coarse = fine - (scramble(&mut state) % u64::from(fine.min(27) + 1)) as u32;
        let power = 10i128.pow(fine - coarse);
        let spread = 1i128 << (scramble(&mut state) % 96);
        let mut near = |around: i128| {
            let offset = (i128::from(scramble(&mut state)) << 32) % (2 * spread) - spread;
            around + offset
        };
        let coarse_units = near(LIMIT) / power;
        let scaled = coarse_units * power;
        let wanted = near(LIMIT);
        let fine_units = wanted - scaled;
        if coarse_units == 0 || fine_units == 0 || coarse_units >= LIMIT || fine_units.abs() >= LIMIT {
            continue;
        }
        if scaled >= LIMIT {
            beyond += 1;
        }
        for sign in [1, -1] {
            let left = amount(sign * coarse_units, coarse);
            let right = amount(sign * fine_units, fine);
            let negated = amount(-sign * fine_units, fine);
            let sums = [
                exact_add(left, right),
                exact_add(right, left),
                exact_sub(left, negated),
            ];
            for sum in sums {
                assert_eq!(sum.is_some(), wanted.abs() < LIMIT, "{left:?} + {right:?}");
                if let Some(sum) = sum {
                    assert_eq!(sum.text(), amount(sign * wanted, fine).text());
                    kept += 1;
                } else {
                    refused += 1;
                }
            }
        }
    }
    assert!(kept > 1000 && refused > 1000 && beyond > 1000, "{kept} {refused} {beyond}");
}

#[test]
fn a_difference_of_equal_numbers_is_a_plain_zero() {
    for (left, right) in [
        ("5", "5.000"),
        ("-5.5", "-5.50"),
        ("12345678901234567890", "12345678901234567890.0"),
        ("-79228162514264337593543950335", "-79228162514264337593543950335"),
        ("-7922816251426433759354395033.5", "-7922816251426433759354395033.5"),
    ] {
        let scale = dec(left).scale().max(dec(right).scale());
        let zero = amount(0, scale).text();
        assert_eq!(exact_sub(dec(left), dec(right)).unwrap().text(), zero, "{left}");
        assert_eq!(exact_sub(dec(right), dec(left)).unwrap().text(), zero, "{left}");
    }
}

#[test]
fn rounding_and_rendering_agree_with_whole_number_arithmetic() {
    let mut state = 11;
    for _ in 0..20_000 {
        let count = units(&mut state);
        let scale = (scramble(&mut state) % 29) as u32;
        let given = amount(count, scale);
        let rounded = to_engine_scale(given);
        let wanted = if scale <= 4 {
            (count, scale)
        } else {
            let unit = 10i128.pow(scale - 4);
            let (whole, rest) = (count.abs() / unit, count.abs() % unit);
            let up = 2 * rest > unit || (2 * rest == unit && whole % 2 == 1);
            let magnitude = if up { whole + 1 } else { whole };
            (if count < 0 { -magnitude } else { magnitude }, 4)
        };
        assert_eq!(rounded.text(), amount(wanted.0, wanted.1).text(), "{given:?}");
        assert_eq!(rounded.scale(), wanted.1);

        let (mut magnitude, mut places) = (wanted.0, wanted.1);
        while places > 0 && magnitude % 10 == 0 {
            magnitude /= 10;
            places -= 1;
        }
        assert_eq!(render(given), amount(magnitude, places).text(), "{given:?}");
    }
}

#[test]
fn amounts_read_and_print_as_decimals_do() {
    for text in [
        "0",
        "-0",
        "0.00",
        "-0.00",
        "1",
        "+1",
        "-1",
        ".5",
        "5.",
        "007.50",
        "1_000.5",
        "0.0000000000000000000000000001",
        "-0.0000000000000000000000000001",
        "0.00000000000000000000000000004",
        "-0.00000000000000000000000000004",
        "79228162514264337593543950335",
        "7.9228162514264337593543950335",
        "1234567890.12345678901234567890123456789",
    ] {
        let (ours, theirs) = (dec(text), decimal(text));
        assert_eq!(ours.text(), theirs.to_string(), "{text}");
        assert_eq!(ours.scale(), theirs.scale(), "{text}");
        assert_eq!(ours.is_zero(), theirs.is_zero(), "{text}");
        assert_eq!(
            to_engine_scale(ours).text(),
            theirs.round_dp(4).to_string(),
            "{text}"
        );
        assert_eq!(
            render(ours),
            theirs.round_dp(4).normalize().to_string(),
            "{text}"
        );
    }
}

#[test]
fn a_decimal_written_out_is_read_as_exactly_that() {
    let mut state = 13;
    for _ in 0..20_000 {
        let count = units(&mut state);
        let scale = (scramble(&mut state) % 29) as u32;
        let wanted = Amount::from_i128_with_scale(count, scale).unwrap();
        // The digits are placed by hand, with nothing of `Decimal` in the way.
        let digits = format!("{:0>width$}", count.abs(), width = scale as usize + 1);
        let (whole, places) = digits.split_at(digits.len() - scale as usize);
        let sign = if count < 0 { "-" } else { "" };
        let point = if scale > 0 { "." } else { "" };
        let text = format!("{sign}{whole}{point}{places}");
        let read = dec(&text);
        assert_eq!(read, wanted, "{text}");
        assert_eq!(read.scale(), scale, "{text}");
        assert_eq!(read.text(), text);
        assert_eq!(wanted.text(), text);
    }
    assert_eq!(dec("1.0001"), Amount::from_i128_with_scale(10001, 4).unwrap());
    assert_eq!(dec("0.00").text(), "0.00");
    assert_eq!(
        dec("7.9228162514264337593543950335"),
        Amount::from_i128_with_scale(LIMIT - 1, 28).unwrap()
    );
}

#[test]
fn signs_leading_zeros_and_bare_points_are_read_exactly() {
    for (text, number, scale) in [
        ("007.5", 75, 1),
        ("+007.50", 750, 2),
        (".5", 5, 1),
        ("-.25", -25, 2),
        ("+.0", 0, 1),
        ("5.", 5, 0),
        ("-5.", -5, 0),
        ("-0", 0, 0),
        ("-0.00", 0, 2),
        ("00", 0, 0),
        ("+1", 1, 0),
        ("0000000000000000000000000000000000000000.5", 5, 1),
        (".0000000000000000000000000001", 1, 28),
        ("+079228162514264337593543950335.", LIMIT - 1, 0),
        ("-0007.9228162514264337593543950335", 1 - LIMIT, 28),
    ] {
        let wanted = Amount::from_i128_with_scale(number, scale).unwrap();
        assert_eq!(dec(text).text(), wanted.text(), "{text}");
    }
    let mut state = 29;
    for _ in 0..20_000 {
        let count = units(&mut state);
        let scale = (scramble(&mut state) % 29) as usize;
        let zeros = (scramble(&mut state) % 30) as usize;
        let mut digits = count.abs().to_string();
        if digits.len() < scale {
            digits = format!("{digits:0>scale$}");
        }
        let (whole, places) = digits.split_at(digits.len() - scale);
        let sign = if count < 0 {
            "-"
        } else {
            ["", "+"][(scramble(&mut state) % 2) as usize]
        };
        let text = format!("{sign}{}{whole}.{places}", "0".repeat(zeros));
        if whole.is_empty() && places.is_empty() && zeros == 0 {
            continue;
        }
        let wanted = Amount::from_i128_with_scale(count, scale as u32).unwrap();
        assert_eq!(dec(&text).text(), wanted.text(), "{text}");
    }
}

#[test]
fn what_is_rendered_reads_back_as_the_rounded_amount() {
    let mut state = 17;
    for _ in 0..5_000 {
        let count = units(&mut state);
        let given = amount(count, (scramble(&mut state) % 29) as u32);
        let shown = render(given);
        assert_eq!(dec(&shown), to_engine_scale(given), "{given:?}");
        assert_eq!(render(dec(&shown)), shown);
        if let Some((_, places)) = shown.split_once('.') {
            assert!((1..=4).contains(&places.len()), "{shown}");
            assert!(!places.ends_with('0'), "{shown}");
        }
    }
}

#[test]
fn texts_that_are_no_amounts_are_refused_as_decimals_refuse_them() {
    for text in ["", "abc", "1,5", "--1", "1.2.3", "79228162514264337593543950336"] {
        assert_eq!(
            Amount::from_str(text).unwrap_err(),
            text.parse::<Decimal>().unwrap_err().to_string(),
            "{text}"
        );
    }
}

#[test]
fn a_zero_operand_never_costs_the_other_its_places() {
    assert_eq!(exact_add(dec("0.0000"), dec("1.5")).unwrap().text(), "1.5");
    assert_eq!(exact_add(dec("1.5"), dec("0.0000")).unwrap().text(), "1.5");
    assert_eq!(exact_sub(dec("0.0000"), dec("1.5")).unwrap().text(), "-1.5");
    assert_eq!(exact_sub(dec("1.5"), dec("0.0000")).unwrap().text(), "1.5");
}

#[test]
fn a_sum_keeps_every_place_of_its_wider_operand_or_is_refused() {
    assert_eq!(exact_add(dec("1"), dec("1.0000")).unwrap().text(), "2.0000");
    assert_eq!(exact_add(dec("10000000000000000000000000"), dec("1.0000")), None);
}

#[test]
fn equal_amounts_print_alike() {
    for (left, right) in [("2", "2.0000"), ("-0.10", "-0.1"), ("0", "-0.00"), ("1.00005", "1")] {
        assert_eq!(render(dec(left)), render(dec(right)), "{left} and {right}");
    }
}

#[test]
fn half_a_unit_rounds_to_nothing_and_more_does_not() {
    for (text, rounded) in [
        ("0.00005", "0"),
        ("0.0000500000000000000000000001", "0.0001"),
        ("0.0000499999999999999999999999", "0"),
        ("-0.00005", "0"),
        ("-0.00006", "-0.0001"),
        ("0.00015", "0.0002"),
    ] {
        assert_eq!(render(dec(text)), rounded, "{text}");
    }
}

#[test]
fn rounding_twice_is_rounding_once() {
    for text in ["1.00005", "1.00015", "-2.99995", "0.00004"] {
        let once = to_engine_scale(dec(text));
        assert_eq!(to_engine_scale(once).text(), once.text());
    }
}

#[test]
fn amounts_can_be_made_from_their_digits() {
    for (number, scale, text) in [(15, 1, "1.5"), (-1, 4, "-0.0001"), (0, 2, "0.00"), (7, 0, "7")] {
        let amount = Amount::from_i128_with_scale(number, scale).unwrap();
        assert_eq!(amount.text(), text);
        assert_eq!(amount.scale(), scale);
    }
    assert!(Amount::from_i128_with_scale(LIMIT - 1, 28).is_some());
    assert!(Amount::from_i128_with_scale(1 - LIMIT, 0).is_some());
    assert!(Amount::from_i128_with_scale(LIMIT, 0).is_none());
    assert!(Amount::from_i128_with_scale(-LIMIT, 0).is_none());
    assert!(Amount::from_i128_with_scale(1, 29).is_none());
}

#[test]
fn the_amount_zero_is_zero() {
    assert!(Amount::zero().is_zero());
    assert_eq!(Amount::zero().text(), "0");
    assert_eq!(Amount::zero().scale(), 0);
    assert!(!dec("0.0001").is_zero());
}
