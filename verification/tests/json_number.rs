use picojson::json_number::{is_integer, parse_float_with, FloatHandling, JsonNumber, NumberResult};
use picojson::parse_error::ParseError;

#[test]
fn test_json_number_from_slice_basic() {
    // Test number parsing from byte slices
    let json_number = JsonNumber::from_slice(b"56").unwrap();
    assert_eq!(json_number.as_str(), "56");
    assert_eq!(json_number.as_int(), Some(56));

    let json_number = JsonNumber::from_slice(b"89").unwrap();
    assert_eq!(json_number.as_str(), "89");
    assert_eq!(json_number.as_int(), Some(89));

    // Test with invalid UTF-8 to trigger an error
    let invalid_utf8 = &[0xFF, 0xFE, 0xFD]; // Invalid UTF-8 sequence
    let result = JsonNumber::from_slice(invalid_utf8);
    assert!(result.is_err());
}

#[test]
fn test_json_number_integer() {
    let number = JsonNumber::Borrowed {
        raw: "42",
        parsed: NumberResult::Integer(42),
    };
    assert_eq!(number.as_str(), "42");
    assert_eq!(number.as_int(), Some(42));
    assert!(number.is_integer());
    assert!(!number.is_float());
}

#[test]
fn test_json_number_negative_integer() {
    let number = JsonNumber::Borrowed {
        raw: "-123",
        parsed: NumberResult::Integer(-123),
    };
    assert_eq!(number.as_str(), "-123");
    assert_eq!(number.as_int(), Some(-123));
    assert!(number.is_integer());
}

#[test]
fn test_json_number_large_integer() {
    let large_int_str = "12345678901234567890"; // Larger than configured integer max
    let number = JsonNumber::Borrowed {
        raw: large_int_str,
        parsed: NumberResult::IntegerOverflow,
    };
    assert_eq!(number.as_str(), large_int_str);
    assert_eq!(number.as_int(), None); // Should be None due to overflow
    match number {
        JsonNumber::Borrowed {
            parsed: NumberResult::IntegerOverflow,
            ..
        } => {}
        _ => panic!("Expected IntegerOverflow"),
    }
    assert!(number.is_integer());
}

#[test]
fn test_is_integer_detection() {
    assert!(is_integer("42".as_bytes()));
    assert!(is_integer("-123".as_bytes()));
    assert!(is_integer("0".as_bytes()));
    assert!(!is_integer("3.14".as_bytes()));
    assert!(!is_integer("1e10".as_bytes()));
    assert!(!is_integer("2.5E-3".as_bytes()));
}

#[test]
fn test_from_slice_with_container() {
    // Test parsing number followed by container end delimiter
    let data = b"56}"; // Number followed by container end
    let number_bytes = &data[0..2]; // Extract just "56"

    let json_number = JsonNumber::from_slice(number_bytes).unwrap();
    assert_eq!(json_number.as_str(), "56"); // Should exclude the '}'
    assert_eq!(json_number.as_int(), Some(56));
}

#[test]
fn test_from_slice_at_eof() {
    // Test parsing number at end of data
    let data = b"89";
    let number_bytes = &data[0..2]; // Full data

    let json_number = JsonNumber::from_slice(number_bytes).unwrap();
    assert_eq!(json_number.as_str(), "89"); // Should include full number
    assert_eq!(json_number.as_int(), Some(89));
}

#[test]
fn test_json_number_float_disabled() {
    let number = JsonNumber::Borrowed {
        raw: "3.14159",
        parsed: NumberResult::FloatDisabled,
    };
    assert_eq!(number.as_str(), "3.14159");
    assert_eq!(number.as_int(), None);
    match number {
        JsonNumber::Borrowed {
            parsed: NumberResult::FloatDisabled,
            ..
        } => {}
        _ => panic!("Expected FloatDisabled"),
    }
    assert!(number.is_float());
}

#[test]
fn json_number_float_text_is_disabled() {
    let n = JsonNumber::from_slice(b"2.5e3").unwrap();
    assert_eq!(n.as_str(), "2.5e3");
    assert_eq!(*n.parsed(), NumberResult::FloatDisabled);
    assert!(n.is_float());
}

#[test]
fn json_number_overflow_is_reported() {
    let n = JsonNumber::from_slice(b"99999999999999999999").unwrap();
    assert_eq!(*n.parsed(), NumberResult::IntegerOverflow);
    assert_eq!(n.as_int(), None);
    assert!(n.is_integer());
}

#[test]
fn json_number_to_string_shows_integer_in_decimal() {
    let n = JsonNumber::from_slice(b"-0042").unwrap();
    assert_eq!(n.to_string(), "-42");
    let n = JsonNumber::from_slice(b"9223372036854775807").unwrap();
    assert_eq!(n.to_string(), "9223372036854775807");
}

#[test]
fn json_number_to_string_keeps_text_otherwise() {
    let n = JsonNumber::from_slice(b"1.50e3").unwrap();
    assert_eq!(n.to_string(), "1.50e3");
    let n = JsonNumber::from_slice(b"99999999999999999999").unwrap();
    assert_eq!(n.to_string(), "99999999999999999999");
}

#[test]
fn json_number_to_string_writes_integers_in_decimal() {
    let cases: [(&[u8], &str); 6] = [
        (b"0", "0"),
        (b"7", "7"),
        (b"10", "10"),
        (b"-42", "-42"),
        (b"9223372036854775807", "9223372036854775807"),
        (b"-9223372036854775808", "-9223372036854775808"),
    ];
    for (text, expected) in cases {
        let n = JsonNumber::from_slice(text).unwrap();
        assert_eq!(n.to_string(), expected);
    }
}

#[test]
fn push_decimal_appends_digits() {
    let mut s = String::from("n=");
    picojson::json_number::push_decimal(&mut s, 18446744073709551615);
    assert_eq!(s, "n=18446744073709551615");
}

#[test]
fn parse_float_with_each_handling() {
    assert_eq!(parse_float_with(b"3.7", FloatHandling::Disabled), Ok(NumberResult::FloatDisabled));
    assert_eq!(parse_float_with(b"3.7", FloatHandling::Error), Err(ParseError::FloatNotAllowed));
    assert_eq!(parse_float_with(b"3.7", FloatHandling::Skip), Ok(NumberResult::FloatSkipped));
    assert_eq!(parse_float_with(b"3.7", FloatHandling::Truncate), Ok(NumberResult::FloatTruncated(3)));
    assert_eq!(parse_float_with(b"-1.5", FloatHandling::Truncate), Ok(NumberResult::FloatTruncated(-1)));
    assert_eq!(parse_float_with(b"1e3", FloatHandling::Truncate), Err(ParseError::InvalidNumber));
    assert_eq!(parse_float_with(b"2.5E1", FloatHandling::Truncate), Err(ParseError::InvalidNumber));
    assert_eq!(
        parse_float_with(b"99999999999999999999.5", FloatHandling::Truncate),
        Ok(NumberResult::IntegerOverflow)
    );
    assert_eq!(parse_float_with(&[0xff, 0x2e, 0x31], FloatHandling::Skip), Err(ParseError::InvalidNumber));
}
