use rlox::number::{number_eq, number_lt, number_neg, number_of_decimal, number_text};
use rlox::value::{value_text, values_equal, Value};

fn num(x: f64) -> Value {
    Value::number(x.to_bits())
}

#[test]
fn constructors_and_accessors() {
    assert!(Value::bool(true).is_bool());
    assert!(Value::nil().is_nil());
    assert!(num(3.5).is_number());
    assert!(Value::string(b"s".to_vec()).is_string());
    assert!(Value::bool(false).as_bool() == false);
    assert_eq!(f64::from_bits(num(3.5).as_number()), 3.5);
    assert_eq!(Value::string(b"s".to_vec()).as_string().as_slice(), b"s");
}

#[test]
fn only_nil_and_false_are_falsey() {
    assert!(Value::nil().is_falsey());
    assert!(Value::bool(false).is_falsey());
    assert!(!Value::bool(true).is_falsey());
    assert!(!num(0.0).is_falsey());
    assert!(!Value::string(Vec::new()).is_falsey());
}

#[test]
fn equality_is_structural_within_a_variant() {
    assert!(values_equal(&Value::nil(), &Value::nil()));
    assert!(values_equal(&Value::bool(true), &Value::bool(true)));
    assert!(!values_equal(&Value::bool(true), &Value::bool(false)));
    assert!(values_equal(&num(2.0), &num(2.0)));
    assert!(!values_equal(&num(2.0), &num(3.0)));
    assert!(values_equal(
        &Value::string(b"ab".to_vec()),
        &Value::string(b"ab".to_vec())
    ));
    assert!(!values_equal(
        &Value::string(b"ab".to_vec()),
        &Value::string(b"ac".to_vec())
    ));
    // Values of different variants never compare equal.
    assert!(!values_equal(&num(1.0), &Value::string(b"1".to_vec())));
    assert!(!values_equal(&Value::nil(), &Value::bool(false)));
}

#[test]
fn ieee_equality_on_encodings() {
    let nan = f64::NAN.to_bits();
    assert!(!number_eq(nan, nan));
    assert!(number_eq(0.0f64.to_bits(), (-0.0f64).to_bits()));
    assert!(number_eq(2.5f64.to_bits(), 2.5f64.to_bits()));
    assert!(!number_eq(2.5f64.to_bits(), 2.6f64.to_bits()));
}

#[test]
fn ieee_ordering_on_encodings() {
    let b = |x: f64| x.to_bits();
    assert!(number_lt(b(1.0), b(2.0)));
    assert!(number_lt(b(-2.0), b(-1.0)));
    assert!(number_lt(b(-1.0), b(1.0)));
    assert!(!number_lt(b(1.0), b(1.0)));
    assert!(!number_lt(b(0.0), b(-0.0)));
    assert!(!number_lt(b(-0.0), b(0.0)));
    assert!(!number_lt(b(f64::NAN), b(1.0)));
    assert!(!number_lt(b(1.0), b(f64::NAN)));
    assert!(number_lt(b(f64::NEG_INFINITY), b(f64::INFINITY)));
}

#[test]
fn negation_flips_the_sign_bit() {
    assert_eq!(f64::from_bits(number_neg(1.0f64.to_bits())), -1.0);
    assert_eq!(f64::from_bits(number_neg((-2.5f64).to_bits())), 2.5);
}

#[test]
fn decimal_parsing_matches_binary64() {
    assert_eq!(number_of_decimal(b"1"), Some(1.0f64.to_bits()));
    assert_eq!(number_of_decimal(b"2.5"), Some(2.5f64.to_bits()));
    assert_eq!(number_of_decimal(b"0.1"), Some(0.1f64.to_bits()));
    assert_eq!(number_of_decimal(b""), None);
    assert_eq!(number_of_decimal(b"x"), None);
}

#[test]
fn value_texts() {
    assert_eq!(String::from_utf8(value_text(&Value::nil())).unwrap(), "nil");
    assert_eq!(
        String::from_utf8(value_text(&Value::bool(true))).unwrap(),
        "true"
    );
    assert_eq!(
        String::from_utf8(value_text(&Value::bool(false))).unwrap(),
        "false"
    );
    assert_eq!(String::from_utf8(value_text(&num(7.0))).unwrap(), "7");
    assert_eq!(String::from_utf8(value_text(&num(-1.0))).unwrap(), "-1");
    assert_eq!(
        String::from_utf8(value_text(&Value::string(b"abc".to_vec()))).unwrap(),
        "abc"
    );
}

#[test]
fn number_text_renders_decimals() {
    assert_eq!(String::from_utf8(number_text(0.5f64.to_bits())).unwrap(), "0.5");
    assert_eq!(String::from_utf8(number_text(3.75f64.to_bits())).unwrap(), "3.75");
}

#[test]
fn rendered_numbers_match_the_default_formatter() {
    // The rendered text keeps plain notation and drops the digits the
    // encoding does not need, like the default double formatter.
    for x in [
        0.0f64, -0.0, 7.0, -1.0, 0.5, 1.1, 0.1, 2.675, 3.75, 10000.0, 100000.0, 0.0001,
        123.456, 1e15, -2.5, 0.3, 1e17, 1.5e18, -2.5e20, 1e22, 1.2345678901234567e25,
    ] {
        assert_eq!(
            String::from_utf8(value_text(&num(x))).unwrap(),
            x.to_string(),
            "for {}",
            x
        );
    }
}

#[test]
fn rendered_special_numbers() {
    assert_eq!(
        String::from_utf8(value_text(&num(f64::INFINITY))).unwrap(),
        "inf"
    );
    assert_eq!(
        String::from_utf8(value_text(&num(f64::NEG_INFINITY))).unwrap(),
        "-inf"
    );
    assert_eq!(String::from_utf8(value_text(&num(f64::NAN))).unwrap(), "NaN");
}
