use pratt::number::{number_value, NumberError, EXP_LIMIT, INT_LIMIT};

fn value_of(literal: &str) -> String {
    let outcome = number_value(literal);
    assert!(outcome.errors.is_empty(), "unexpected errors for {}", literal);
    outcome.value.unwrap()
}

#[test]
fn test_numeric_round_trip() {
    assert_eq!(value_of("42"), "42");
    assert_eq!(value_of("012"), "10");
    assert_eq!(value_of("0"), "0");
    assert_eq!(value_of("042"), "34");
    assert_eq!(value_of("0xff"), "255");
    assert_eq!(value_of("0Xfd"), "253");
    assert_eq!(value_of("12.2"), "12.2");
    assert_eq!(value_of("2.4e8"), "240000000");
}

#[test]
fn test_decimal_normalization() {
    assert_eq!(value_of("1.50"), "1.5");
    assert_eq!(value_of("5."), "5");
    assert_eq!(value_of("24e3"), "24000");
    assert_eq!(value_of("1e0"), "1");
    assert_eq!(value_of("100.25"), "100.25");
}

#[test]
fn test_leading_zero_decimal_falls_through_octal() {
    // a leading zero sends the literal through the octal stage first; the
    // dot fails there, and the decimal stage then supplies the value
    let outcome = number_value("0.5");
    assert_eq!(outcome.errors, vec![NumberError::InvalidDigit]);
    assert_eq!(outcome.value.unwrap(), "0.5");

    let outcome = number_value("0.000");
    assert_eq!(outcome.errors, vec![NumberError::InvalidDigit]);
    assert_eq!(outcome.value.unwrap(), "0");
}

#[test]
fn test_invalid_float_literal() {
    let outcome = number_value("1.2.9");
    assert!(outcome.value.is_none());
    assert_eq!(outcome.errors, vec![NumberError::InvalidFloat]);
}

#[test]
fn test_bad_hex_falls_through_to_every_stage() {
    // hex parse, octal parse and decimal parse all fail, in that order
    let outcome = number_value("0xzz");
    assert!(outcome.value.is_none());
    assert_eq!(
        outcome.errors,
        vec![
            NumberError::InvalidDigit,
            NumberError::InvalidDigit,
            NumberError::InvalidFloat,
        ]
    );
}

#[test]
fn test_empty_hex_digits() {
    let outcome = number_value("0x");
    assert!(outcome.value.is_none());
    assert_eq!(outcome.errors[0], NumberError::EmptyDigits);
}

#[test]
fn test_bad_octal_falls_through_to_decimal() {
    // `8` is no octal digit, but the decimal stage accepts the literal
    let outcome = number_value("08");
    assert_eq!(outcome.errors, vec![NumberError::InvalidDigit]);
    assert_eq!(outcome.value.unwrap(), "8");
}

#[test]
fn test_hex_too_large() {
    // one digit past the i64 range
    let outcome = number_value("0x8000000000000000");
    assert_eq!(outcome.errors[0], NumberError::TooLarge);
    // the largest accepted value survives exactly
    assert_eq!(value_of("0x7fffffffffffffff"), INT_LIMIT.to_string());
}

#[test]
fn test_huge_exponent() {
    let outcome = number_value("1e100001");
    assert!(outcome.value.is_none());
    assert_eq!(outcome.errors, vec![NumberError::HugeExponent]);
    let _ = EXP_LIMIT;
}

#[test]
fn test_error_messages() {
    assert_eq!(
        NumberError::EmptyDigits.message(),
        "cannot parse integer from empty string"
    );
    assert_eq!(
        NumberError::InvalidDigit.message(),
        "invalid digit found in string"
    );
    assert_eq!(
        NumberError::TooLarge.message(),
        "number too large to fit in target type"
    );
    assert_eq!(NumberError::InvalidFloat.message(), "invalid float literal");
    assert_eq!(
        NumberError::HugeExponent.message(),
        "exponent out of supported range"
    );
}
