use core::str;
use picojson::parse_error::{ParseError, UnexpectedState};

#[test]
fn test_error_constructors() {
    // Test state_mismatch error constructor
    let error: ParseError = UnexpectedState::StateMismatch.into();
    match error {
        ParseError::Unexpected(info) => {
            assert_eq!(info, UnexpectedState::StateMismatch);
        }
        _ => panic!("Expected UnexpectedState error"),
    }

    // Test invalid_unicode_length error constructor
    let error: ParseError = UnexpectedState::InvalidUnicodeEscape.into();
    match error {
        ParseError::Unexpected(info) => {
            assert_eq!(info, UnexpectedState::InvalidUnicodeEscape);
        }
        _ => panic!("Expected UnexpectedState error"),
    }

    // Test incomplete_unicode_escape error constructor
    let error: ParseError = UnexpectedState::InvalidUnicodeEscape.into();
    match error {
        ParseError::Unexpected(info) => {
            assert_eq!(info, UnexpectedState::InvalidUnicodeEscape);
        }
        _ => panic!("Expected UnexpectedState error"),
    }
}

#[test]
fn test_utf8_error_conversion() {
    // Test From<Utf8Error> trait implementation

    // Create a proper invalid UTF-8 sequence (lone continuation byte) dynamically
    // to avoid compile-time warning about static invalid UTF-8 literals
    let mut invalid_utf8_array = [0u8; 1];
    invalid_utf8_array[0] = 0b10000000u8; // Invalid UTF-8 - continuation byte without start
    let invalid_utf8 = &invalid_utf8_array;

    match str::from_utf8(invalid_utf8) {
        Err(utf8_error) => {
            let parse_error: ParseError = utf8_error.into();
            match parse_error {
                ParseError::InvalidUtf8(_) => {
                    // Expected - conversion works correctly
                }
                _ => panic!("Expected InvalidUtf8 error"),
            }
        }
        Ok(_) => panic!("Expected UTF-8 validation to fail"),
    }
}

#[test]
fn parse_error_to_string_messages() {
    assert_eq!(ParseError::ScratchBufferFull.to_string(), "ScratchBufferFull");
    assert_eq!(
        ParseError::Unexpected(UnexpectedState::StateMismatch).to_string(),
        "Unexpected(StateMismatch)"
    );
    let bad = [0xffu8];
    let e = core::str::from_utf8(&bad).unwrap_err();
    assert!(ParseError::InvalidUtf8(e).to_string().starts_with("Invalid UTF-8: "));
}

#[test]
fn parse_error_tokenizer_message_is_the_tokenizers() {
    let e = picojson::tokenizer::Error {
        kind: picojson::tokenizer::ErrKind::InvalidNumber,
        character: b'x',
        position: 12,
        line: Some(2),
        column: Some(7),
    };
    assert_eq!(
        e.to_string(),
        "Tokenizer error: InvalidNumber at line 2 column 7 (position 12) near 'x'"
    );
    assert_eq!(ParseError::TokenizerError(e).to_string(), e.to_string());
    let u = picojson::tokenizer::Error { line: None, column: None, ..e };
    assert_eq!(u.to_string(), "Tokenizer error: InvalidNumber at position 12 near 'x'");
}

#[test]
fn tokenizer_error_debug_string() {
    let e = picojson::tokenizer::Error {
        kind: picojson::tokenizer::ErrKind::InvalidNumber,
        character: b'x',
        position: 12,
        line: Some(2),
        column: Some(7),
    };
    assert_eq!(e.debug_string(), "InvalidNumber(x) at line 2 col 7 (pos 12)");
    let u = picojson::tokenizer::Error { line: None, column: None, ..e };
    assert_eq!(u.debug_string(), "InvalidNumber(x) at 12");
}
