use picojson::int_parser::{from_ascii_i32, from_ascii_i64, from_ascii_i8, ConstParseIntegerError};

#[test]
fn test_from_ascii_i8_simple() {
    assert_eq!(from_ascii_i8(b"0"), Ok(0));
    assert_eq!(from_ascii_i8(b"42"), Ok(42));
    assert_eq!(from_ascii_i8(b"-42"), Ok(-42));
    assert_eq!(from_ascii_i8(b"+42"), Ok(42));
}

#[test]
fn test_from_ascii_i8_limits() {
    assert_eq!(from_ascii_i8(b"127"), Ok(i8::MAX));
    assert_eq!(from_ascii_i8(b"-128"), Ok(i8::MIN));
}

#[test]
fn test_from_ascii_i8_overflow() {
    assert_eq!(from_ascii_i8(b"128"), Err(ConstParseIntegerError::Overflow));
    assert_eq!(
        from_ascii_i8(b"-129"),
        Err(ConstParseIntegerError::Overflow)
    );
}

#[test]
fn test_from_ascii_i8_errors() {
    assert_eq!(from_ascii_i8(b""), Err(ConstParseIntegerError::Empty));
    assert_eq!(from_ascii_i8(b"-"), Err(ConstParseIntegerError::SignOnly));
    assert_eq!(from_ascii_i8(b"+"), Err(ConstParseIntegerError::SignOnly));
    assert_eq!(
        from_ascii_i8(b"12a"),
        Err(ConstParseIntegerError::InvalidDigit)
    );
    assert_eq!(
        from_ascii_i8(b"a12"),
        Err(ConstParseIntegerError::InvalidDigit)
    );
    assert_eq!(
        from_ascii_i8(b"1-2"),
        Err(ConstParseIntegerError::InvalidDigit)
    );
}

#[test]
fn test_from_ascii_i32_simple() {
    assert_eq!(from_ascii_i32(b"0"), Ok(0));
    assert_eq!(from_ascii_i32(b"12345"), Ok(12345));
    assert_eq!(from_ascii_i32(b"-12345"), Ok(-12345));
    assert_eq!(from_ascii_i32(b"+12345"), Ok(12345));
}

#[test]
fn test_from_ascii_i32_limits() {
    assert_eq!(
        from_ascii_i32(i32::MAX.to_string().as_bytes()),
        Ok(i32::MAX)
    );
    assert_eq!(
        from_ascii_i32(i32::MIN.to_string().as_bytes()),
        Ok(i32::MIN)
    );
}

#[test]
fn test_from_ascii_i32_overflow() {
    assert_eq!(
        from_ascii_i32(b"2147483648"),
        Err(ConstParseIntegerError::Overflow)
    );
    assert_eq!(
        from_ascii_i32(b"-2147483649"),
        Err(ConstParseIntegerError::Overflow)
    );
}

#[test]
fn test_from_ascii_i32_errors() {
    assert_eq!(from_ascii_i32(b""), Err(ConstParseIntegerError::Empty));
    assert_eq!(from_ascii_i32(b"-"), Err(ConstParseIntegerError::SignOnly));
    assert_eq!(from_ascii_i32(b"+"), Err(ConstParseIntegerError::SignOnly));
    assert_eq!(
        from_ascii_i32(b"123a45"),
        Err(ConstParseIntegerError::InvalidDigit)
    );
}

#[test]
fn test_from_ascii_i64_simple() {
    assert_eq!(from_ascii_i64(b"0"), Ok(0));
    assert_eq!(from_ascii_i64(b"1234567890"), Ok(1234567890));
    assert_eq!(from_ascii_i64(b"-1234567890"), Ok(-1234567890));
    assert_eq!(from_ascii_i64(b"+1234567890"), Ok(1234567890));
}

#[test]
fn test_from_ascii_i64_limits() {
    assert_eq!(
        from_ascii_i64(i64::MAX.to_string().as_bytes()),
        Ok(i64::MAX)
    );
    assert_eq!(
        from_ascii_i64(i64::MIN.to_string().as_bytes()),
        Ok(i64::MIN)
    );
}

#[test]
fn test_from_ascii_i64_overflow() {
    assert_eq!(
        from_ascii_i64(b"9223372036854775808"),
        Err(ConstParseIntegerError::Overflow)
    );
    assert_eq!(
        from_ascii_i64(b"-9223372036854775809"),
        Err(ConstParseIntegerError::Overflow)
    );
}

#[test]
fn test_from_ascii_i64_errors() {
    assert_eq!(from_ascii_i64(b""), Err(ConstParseIntegerError::Empty));
    assert_eq!(from_ascii_i64(b"-"), Err(ConstParseIntegerError::SignOnly));
    assert_eq!(from_ascii_i64(b"+"), Err(ConstParseIntegerError::SignOnly));
    assert_eq!(
        from_ascii_i64(b"123a4567890"),
        Err(ConstParseIntegerError::InvalidDigit)
    );
}
