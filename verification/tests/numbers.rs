use staking_rewards::decimal::{Decimal, BASE_UNIT_SCALE};
use staking_rewards::digits::{parse_unsigned, text_chars, text_of, unsigned_digits};
use staking_rewards::json::{de_decimal, de_int, JsonValue};

fn dec(units: u128, scale: u8) -> Decimal {
    Decimal { units, scale }
}

#[test]
fn unsigned_numbers_are_read_from_digits() {
    assert_eq!(parse_unsigned("0"), Some(0));
    assert_eq!(parse_unsigned("1700000000"), Some(1_700_000_000));
    assert_eq!(parse_unsigned("007"), Some(7));
    assert_eq!(parse_unsigned("+5"), Some(5));
    assert_eq!(parse_unsigned("18446744073709551615"), Some(u64::MAX as u128));
    assert_eq!(parse_unsigned("18446744073709551616"), Some(1 << 64));
    assert_eq!(parse_unsigned("20000000000000000000"), Some(20_000_000_000_000_000_000));
    assert_eq!(parse_unsigned("340282366920938463463374607431768211455"), Some(u128::MAX));
}

#[test]
fn unsigned_numbers_reject_everything_else() {
    assert_eq!(parse_unsigned(""), None);
    assert_eq!(parse_unsigned("+"), None);
    assert_eq!(parse_unsigned("-1"), None);
    assert_eq!(parse_unsigned("++1"), None);
    assert_eq!(parse_unsigned("12a"), None);
    assert_eq!(parse_unsigned(" 12"), None);
    assert_eq!(parse_unsigned("1_000"), None);
    assert_eq!(parse_unsigned("1.0"), None);
    assert_eq!(parse_unsigned("１２"), None);
    assert_eq!(parse_unsigned("340282366920938463463374607431768211456"), None);
    assert_eq!(parse_unsigned("99999999999999999999999999999999999999999999"), None);
}

#[test]
fn unsigned_numbers_agree_with_the_standard_library() {
    let samples = [
        "0", "1", "42", "+42", "0042", "", "+", "-", "-0", "4 2", "42 ", "0x10", "1e3",
        "18446744073709551615", "18446744073709551616", "٣", "9223372036854775808",
        "340282366920938463463374607431768211455", "340282366920938463463374607431768211456",
    ];
    for sample in samples {
        assert_eq!(parse_unsigned(sample), sample.parse::<u128>().ok(), "{}", sample);
    }
}

#[test]
fn digits_of_a_number_are_written_without_leading_zeros() {
    assert_eq!(unsigned_digits(0), vec!['0']);
    assert_eq!(unsigned_digits(7), vec!['7']);
    assert_eq!(unsigned_digits(1203), vec!['1', '2', '0', '3']);
    assert_eq!(text_of(&unsigned_digits(u128::MAX)), u128::MAX.to_string());
}

#[test]
fn strings_and_characters_convert_both_ways() {
    assert_eq!(text_chars("a-ß-つ"), vec!['a', '-', 'ß', '-', 'つ']);
    assert_eq!(text_of(&vec!['a', '-', 'ß', '-', 'つ']), "a-ß-つ");
    assert_eq!(text_of(&Vec::new()), "");
}

#[test]
fn canonical_form_drops_trailing_zeros_of_the_fraction_only() {
    assert_eq!(Decimal::new(150, 2), dec(15, 1));
    assert_eq!(Decimal::new(1500, 0), dec(1500, 0));
    assert_eq!(Decimal::new(1000, 3), dec(1, 0));
    assert_eq!(Decimal::new(1000, 5), dec(1, 2));
    assert_eq!(Decimal::new(0, 7), dec(0, 0));
    assert_eq!(Decimal::new(123, 2), dec(123, 2));
}

#[test]
fn base_units_are_eighteen_places_below_one() {
    assert_eq!(BASE_UNIT_SCALE, 18);
    assert_eq!(Decimal::from_base_units(1_000_000_000_000_000_000), dec(1, 0));
    assert_eq!(Decimal::from_base_units(2_500_000_000_000_000_000), dec(25, 1));
    assert_eq!(Decimal::from_base_units(1), dec(1, 18));
    assert_eq!(Decimal::from_base_units(0), dec(0, 0));
    assert_eq!(Decimal::from_base_units(u64::MAX as u128), dec(18446744073709551615, 18));
    assert_eq!(Decimal::from_base_units(20_000_000_000_000_000_000), dec(20, 0));
    assert_eq!(Decimal::from_base_units(u128::MAX), dec(u128::MAX, 18));
}

#[test]
fn decimals_are_read_from_their_notation() {
    assert_eq!(Decimal::parse("1500.25"), Some(dec(150025, 2)));
    assert_eq!(Decimal::parse("1500"), Some(dec(1500, 0)));
    assert_eq!(Decimal::parse("1.50"), Some(dec(15, 1)));
    assert_eq!(Decimal::parse("1.0"), Some(dec(1, 0)));
    assert_eq!(Decimal::parse("5."), Some(dec(5, 0)));
    assert_eq!(Decimal::parse(".5"), Some(dec(5, 1)));
    assert_eq!(Decimal::parse("+3.25"), Some(dec(325, 2)));
    assert_eq!(Decimal::parse("0.000001234"), Some(dec(1234, 9)));
    assert_eq!(Decimal::parse("000.100"), Some(dec(1, 1)));
    assert_eq!(Decimal::parse("0"), Some(dec(0, 0)));
    assert_eq!(Decimal::parse("0.000"), Some(dec(0, 0)));
    assert_eq!(Decimal::parse(".0"), Some(dec(0, 0)));
}

#[test]
fn decimals_reject_other_notations() {
    assert_eq!(Decimal::parse(""), None);
    assert_eq!(Decimal::parse("."), None);
    assert_eq!(Decimal::parse("+"), None);
    assert_eq!(Decimal::parse("+."), None);
    assert_eq!(Decimal::parse("-3"), None);
    assert_eq!(Decimal::parse("1.2.3"), None);
    assert_eq!(Decimal::parse("1,5"), None);
    assert_eq!(Decimal::parse("1e3"), None);
    assert_eq!(Decimal::parse(" 1"), None);
    assert_eq!(Decimal::parse("1 "), None);
    assert_eq!(Decimal::parse("1.0x"), None);
    assert_eq!(Decimal::parse("NaN"), None);
}

#[test]
fn decimals_are_bounded_by_their_fields() {
    let most = "340282366920938463463374607431768211455";
    assert_eq!(Decimal::parse(most), Some(dec(u128::MAX, 0)));
    assert_eq!(Decimal::parse("340282366920938463463374607431768211456"), None);
    assert_eq!(
        Decimal::parse("3402823669209384634633746074317682114.55"),
        Some(dec(u128::MAX, 2))
    );
    assert_eq!(
        Decimal::parse(&format!("{}.000000", most)),
        Some(dec(u128::MAX, 0))
    );
    let deep = format!("0.{}1", "0".repeat(254));
    assert_eq!(Decimal::parse(&deep), Some(dec(1, 255)));
    let deeper = format!("0.{}1", "0".repeat(255));
    assert_eq!(Decimal::parse(&deeper), None);
    let padded = format!("0.5{}", "0".repeat(400));
    assert_eq!(Decimal::parse(&padded), Some(dec(5, 1)));
}

#[test]
fn decimals_are_written_with_a_point() {
    assert_eq!(dec(30005, 1).to_text(), "3000.5");
    assert_eq!(dec(1, 0).to_text(), "1.0");
    assert_eq!(dec(0, 0).to_text(), "0.0");
    assert_eq!(dec(5, 3).to_text(), "0.005");
    assert_eq!(dec(5, 1).to_text(), "0.5");
    assert_eq!(dec(150025, 2).to_text(), "1500.25");
    assert_eq!(dec(150, 2).to_text(), "1.50");
    assert_eq!(dec(1, 18).to_text(), "0.000000000000000001");
    assert_eq!(
        dec(u128::MAX, 0).to_text(),
        "340282366920938463463374607431768211455.0"
    );
    assert_eq!(dec(1, 255).to_text(), format!("0.{}1", "0".repeat(254)));
}

#[test]
fn what_is_written_is_read_back() {
    let samples = [
        dec(0, 0),
        dec(1, 0),
        dec(30005, 1),
        dec(1, 18),
        dec(1, 255),
        dec(u128::MAX, 0),
        dec(u128::MAX, 255),
        dec(18446744073709551615, 18),
        dec(340282366920938463463374607431768211450, 0),
    ];
    for sample in samples {
        assert_eq!(Decimal::parse(&sample.to_text()), Some(sample));
    }
}

#[test]
fn value_computation() {
    let amount = Decimal::parse("2.0").unwrap();
    let quote = Decimal::parse("1500.25").unwrap();
    assert_eq!(amount.times(&quote), Some(dec(30005, 1)));
    assert_eq!(amount.times(&quote), Decimal::parse("3000.5"));
    assert_eq!(amount.times(&quote).unwrap().to_text(), "3000.5");
}

#[test]
fn products_are_exact_and_canonical() {
    assert_eq!(dec(2, 1).times(&dec(5, 1)), Some(dec(1, 1)));
    assert_eq!(dec(0, 0).times(&dec(150025, 2)), Some(dec(0, 0)));
    assert_eq!(dec(3, 0).times(&dec(1, 1)), Some(dec(3, 1)));
    assert_eq!(
        dec(1234567890123456789, 18).times(&dec(15002534, 4)),
        Some(dec(18521646746885424674503326, 22))
    );
    assert_eq!(
        dec(u64::MAX as u128, 18).times(&dec(u64::MAX as u128, 6)),
        Some(dec(340282366920938463426481119284349108225, 24))
    );
}

#[test]
fn products_that_cannot_be_held_are_refused() {
    assert_eq!(dec(u128::MAX, 0).times(&dec(2, 0)), None);
    assert_eq!(dec(1 << 64, 0).times(&dec(1 << 64, 0)), None);
    assert_eq!(dec(1, 200).times(&dec(1, 56)), None);
    assert_eq!(dec(1, 200).times(&dec(1, 55)), Some(dec(1, 255)));
    assert_eq!(dec(2, 200).times(&dec(5, 56)), Some(dec(1, 255)));
}

#[test]
fn numeric_normalization() {
    let as_string = JsonValue::Text("1000000000000000000".to_string());
    let as_number = JsonValue::Number("1000000000000000000".to_string());
    assert_eq!(de_int(&as_string), Some(1_000_000_000_000_000_000));
    assert_eq!(de_int(&as_number), Some(1_000_000_000_000_000_000));
    let from_string = Decimal::from_base_units(de_int(&as_string).unwrap());
    let from_number = Decimal::from_base_units(de_int(&as_number).unwrap());
    assert_eq!(from_string, dec(1, 0));
    assert_eq!(from_number, dec(1, 0));
    assert_eq!(from_string.to_text(), "1.0");
}

#[test]
fn fields_of_another_kind_hold_no_number() {
    assert_eq!(de_int(&JsonValue::Other), None);
    assert_eq!(de_decimal(&JsonValue::Other), None);
    assert_eq!(de_int(&JsonValue::Text("abc".to_string())), None);
    assert_eq!(de_int(&JsonValue::Number("1.5".to_string())), None);
    assert_eq!(de_int(&JsonValue::Number("-1".to_string())), None);
    assert_eq!(de_decimal(&JsonValue::Text("".to_string())), None);
}

#[test]
fn prices_are_read_from_strings_and_numbers_alike() {
    let as_string = JsonValue::Text("1500.25".to_string());
    let as_number = JsonValue::Number("1500.25".to_string());
    assert_eq!(de_decimal(&as_string), Some(dec(150025, 2)));
    assert_eq!(de_decimal(&as_number), Some(dec(150025, 2)));
    assert_eq!(de_decimal(&JsonValue::Number("1500".to_string())), Some(dec(1500, 0)));
}
