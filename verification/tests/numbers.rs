use rinha_leaderboard::double::{equal_optional, Double};
use rinha_leaderboard::entry::{
    deserialize_number, deserialize_optional_number, parse_ms, round_to_i64, NumericField,
};
use rinha_leaderboard::figures::{format_number, format_optional_number, format_p99};
use rinha_leaderboard::number::parse_number;

fn double(value: f64) -> Double {
    Double { bits: value.to_bits() }
}

fn next(state: &mut u64) -> u64 {
    *state = state
        .wrapping_mul(6364136223846793005)
        .wrapping_add(1442695040888963407);
    let mixed = *state ^ (*state >> 29);
    mixed.wrapping_mul(0xbf58476d1ce4e5b9) ^ (mixed >> 32)
}

fn samples() -> Vec<f64> {
    let mut list = vec![
        0.0,
        -0.0,
        0.5,
        -0.5,
        1.5,
        2.5,
        0.005,
        0.015,
        0.125,
        0.375,
        0.994999,
        0.995,
        1.005,
        2.675,
        99.995,
        99.999,
        1234.5678,
        -1234.5678,
        1e15,
        1e16,
        1e22,
        1e23,
        -1e300,
        9007199254740991.0,
        9007199254740993.0,
        9223372036854775807.0,
        -9223372036854775808.0,
        9223372036854774784.0,
        f64::MAX,
        f64::MIN,
        f64::MIN_POSITIVE,
        5e-324,
        f64::EPSILON,
        f64::INFINITY,
        f64::NEG_INFINITY,
        f64::NAN,
        0.49999999999999994,
        4503599627370495.5,
        4503599627370496.5,
    ];
    let mut state: u64 = 7;
    for _ in 0..400 {
        list.push(f64::from_bits(next(&mut state)));
    }
    for _ in 0..1500 {
        let cents = (next(&mut state) % 10_000_000) as f64;
        list.push(cents / 1000.0);
        list.push(-cents / 64.0);
    }
    list
}

#[test]
fn two_places_agree_with_the_standard_library() {
    for value in samples() {
        assert_eq!(
            format_p99(Some(double(value))),
            format!("{value:.2}ms"),
            "{value:e}"
        );
    }
    assert_eq!(format_p99(None), "-");
}

#[test]
fn numbers_are_shown_without_places_where_they_are_whole() {
    for value in samples() {
        let expected = if value.fract() == 0.0 {
            format!("{value:.0}")
        } else {
            format!("{value:.2}")
        };
        assert_eq!(format_number(double(value)), expected, "{value:e}");
        assert_eq!(format_optional_number(Some(double(value))), expected);
    }
    assert_eq!(format_optional_number(None), "-");
    assert_eq!(format_number(double(350.0)), "350");
    assert_eq!(format_number(double(1.75)), "1.75");
    assert_eq!(format_number(double(-0.0)), "-0");
}

#[test]
fn rounding_agrees_with_the_standard_library() {
    for value in samples() {
        assert_eq!(
            round_to_i64(Some(double(value))),
            Some(value.round() as i64),
            "{value:e}"
        );
    }
    assert_eq!(round_to_i64(None), None);
    assert_eq!(round_to_i64(Some(double(2.5))), Some(3));
    assert_eq!(round_to_i64(Some(double(-2.5))), Some(-3));
    assert_eq!(round_to_i64(Some(double(1e300))), Some(i64::MAX));
    assert_eq!(round_to_i64(Some(double(f64::NAN))), Some(0));
}

#[test]
fn order_agrees_with_the_standard_library() {
    let list = [
        f64::NEG_INFINITY,
        -1e300,
        -1.0,
        -5e-324,
        -0.0,
        0.0,
        5e-324,
        1.0,
        1.0000000000000002,
        1e300,
        f64::INFINITY,
        f64::NAN,
    ];
    for left in list {
        for right in list {
            assert_eq!(
                double(left).partial_order(double(right)),
                left.partial_cmp(&right)
            );
            assert_eq!(
                equal_optional(Some(double(left)), Some(double(right))),
                Some(left) == Some(right)
            );
        }
        assert!(!equal_optional(Some(double(left)), None));
        assert!(!equal_optional(None, Some(double(left))));
    }
    assert!(equal_optional(None, None));
}

fn assert_reads_alike(text: &str) {
    let expected = text.parse::<f64>().ok();
    let found = parse_number(text);
    match (expected, found) {
        (Some(expected), Some(found)) if expected.is_nan() => {
            let found = f64::from_bits(found.bits);
            assert!(found.is_nan(), "{text}");
            assert_eq!(expected.is_sign_negative(), found.is_sign_negative(), "{text}");
        }
        (expected, found) => {
            assert_eq!(
                expected.map(f64::to_bits),
                found.map(|number| number.bits),
                "{text}"
            );
        }
    }
}

#[test]
fn reading_agrees_with_the_standard_library() {
    let texts = [
        "", "+", "-", ".", "e", "e5", ".e5", "1", "1.", ".1", "-.1", "+.1", "1e", "1e+", "1e-",
        "1e5", "1E5", "1e+5", "1e-5", "1.5e3", "1.5.5", "1e5.5", " 1", "1 ", "1_000", "0x10", "٣",
        "inf", "Inf", "INF", "-inf", "+inf", "infinity", "InFiNiTy", "-infinity", "infinit", "nan",
        "NaN", "-nan", "+NAN", "nann", "in", "00", "-0", "0.0", "-0.0", "0e999999999999999999999",
        "1e999999999999999999999", "1e-999999999999999999999", "1e308", "1.7976931348623157e308",
        "1.7976931348623158e308", "1.7976931348623159e308", "1e309", "-1e309", "5e-324", "2e-324",
        "2.4703282292062327e-324", "2.4703282292062328e-324", "2.2250738585072011e-308",
        "2.2250738585072014e-308", "9007199254740993", "9007199254740992.9999999999999999999",
        "9007199254740993.0000000000000000001", "0.1", "0.2", "0.3", "123456789012345678901234567890",
        "0.000000000000000000000000000000000000000000000000000000000001", "12.5ms", "--1", "+-1",
        "1e--5", "8.5070591730234615847396907784232501249e37", "179.99999999999997", "3.14159e0",
        "0000000000000000000000000000000000000000000000000001e-50", "1e23", "8.41e21", "2.2250738585072012e-308",
    ];
    for text in texts {
        assert_reads_alike(text);
    }
    let mut state: u64 = 99;
    for _ in 0..600 {
        let value = f64::from_bits(next(&mut state));
        if value.is_finite() {
            assert_reads_alike(&format!("{value:e}"));
            assert_reads_alike(&format!("{value:.20e}"));
        }
        let whole = next(&mut state);
        let fraction = next(&mut state) % 1_000_000_000;
        let exponent = (next(&mut state) % 700) as i64 - 350;
        assert_reads_alike(&format!("{whole}.{fraction}"));
        assert_reads_alike(&format!("{whole}.{fraction}e{exponent}"));
        assert_reads_alike(&format!("-{}.{fraction:09}", whole % 100_000));
    }
}

#[test]
fn reading_takes_long_numerals() {
    let long = format!("{}.{}", "9".repeat(400), "1".repeat(400));
    assert_reads_alike(&long);
    assert_reads_alike(&format!("0.{}1", "0".repeat(330)));
    assert_reads_alike(&format!("1{}e-320", "0".repeat(320)));
}

fn milliseconds(text: &str) -> Option<f64> {
    parse_ms(Some(text)).map(|number| f64::from_bits(number.bits))
}

#[test]
fn milliseconds_need_their_unit() {
    assert_eq!(milliseconds("12.5ms"), Some(12.5));
    assert_eq!(milliseconds("0.1ms"), Some(0.1));
    assert_eq!(milliseconds("-3ms"), Some(-3.0));
    assert_eq!(milliseconds("infms"), Some(f64::INFINITY));
    assert_eq!(milliseconds("12.5"), None);
    assert_eq!(milliseconds("12.5 ms"), None);
    assert_eq!(milliseconds("12.5msms"), None);
    assert_eq!(milliseconds("ms"), None);
    assert_eq!(milliseconds("s"), None);
    assert_eq!(milliseconds(""), None);
    assert!(parse_ms(None).is_none());
}

fn number(field: NumericField) -> Result<f64, &'static str> {
    deserialize_number(&field).map(|number| f64::from_bits(number.bits))
}

fn optional_number(field: NumericField) -> Result<Option<f64>, &'static str> {
    deserialize_optional_number(&field)
        .map(|number| number.map(|number| f64::from_bits(number.bits)))
}

fn text(raw: &str) -> NumericField {
    NumericField::Text(raw.to_string())
}

#[test]
fn numeric_fields_are_numbers_or_numerals() {
    let one = NumericField::Number(Some(double(1.0)));
    assert_eq!(number(one.clone()), Ok(1.0));
    assert_eq!(number(text("2.5")), Ok(2.5));
    assert_eq!(number(NumericField::Number(None)), Err("invalid numeric value"));
    assert_eq!(number(text("2,5")), Err("invalid numeric string"));
    assert_eq!(number(NumericField::Null), Err("expected numeric value"));
    assert_eq!(number(NumericField::Other), Err("expected numeric value"));
    assert_eq!(optional_number(NumericField::Null), Ok(None));
    assert_eq!(optional_number(one), Ok(Some(1.0)));
    assert_eq!(optional_number(text("1e2")), Ok(Some(100.0)));
    assert_eq!(optional_number(text("nan!")), Err("invalid numeric string"));
    assert_eq!(
        optional_number(NumericField::Number(None)),
        Err("invalid numeric value")
    );
    assert_eq!(
        optional_number(NumericField::Other),
        Err("expected numeric value")
    );
}
