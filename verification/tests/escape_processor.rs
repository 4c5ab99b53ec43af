use picojson::escape_processor::{process_unicode_escape_sequence, EscapeProcessor, UnicodeEscapeCollector};
use picojson::tokenizer::EventToken;

#[test]
fn test_simple_escapes() {
    assert_eq!(EscapeProcessor::process_simple_escape(b'n').unwrap(), b'\n');
    assert_eq!(EscapeProcessor::process_simple_escape(b't').unwrap(), b'\t');
    assert_eq!(EscapeProcessor::process_simple_escape(b'r').unwrap(), b'\r');
    assert_eq!(
        EscapeProcessor::process_simple_escape(b'\\').unwrap(),
        b'\\'
    );
    assert_eq!(EscapeProcessor::process_simple_escape(b'"').unwrap(), b'"');
    assert_eq!(EscapeProcessor::process_simple_escape(b'/').unwrap(), b'/');
    assert_eq!(EscapeProcessor::process_simple_escape(b'b').unwrap(), 0x08);
    assert_eq!(EscapeProcessor::process_simple_escape(b'f').unwrap(), 0x0C);
}

#[test]
fn test_invalid_simple_escape() {
    assert!(EscapeProcessor::process_simple_escape(b'x').is_err());
    assert!(EscapeProcessor::process_simple_escape(b'z').is_err());
    assert!(EscapeProcessor::process_simple_escape(b'1').is_err());
}

#[test]
fn test_hex_digit_validation() {
    // Valid digits
    assert_eq!(EscapeProcessor::validate_hex_digit(b'0').unwrap(), 0);
    assert_eq!(EscapeProcessor::validate_hex_digit(b'9').unwrap(), 9);
    assert_eq!(EscapeProcessor::validate_hex_digit(b'a').unwrap(), 10);
    assert_eq!(EscapeProcessor::validate_hex_digit(b'f').unwrap(), 15);
    assert_eq!(EscapeProcessor::validate_hex_digit(b'A').unwrap(), 10);
    assert_eq!(EscapeProcessor::validate_hex_digit(b'F').unwrap(), 15);

    // Invalid digits
    assert!(EscapeProcessor::validate_hex_digit(b'g').is_err());
    assert!(EscapeProcessor::validate_hex_digit(b'G').is_err());
    assert!(EscapeProcessor::validate_hex_digit(b'z').is_err());
    assert!(EscapeProcessor::validate_hex_digit(b' ').is_err());
}

#[test]
fn test_unicode_escape_basic() {
    let mut buffer = [0u8; 4];

    // Test basic ASCII character \u0041 -> 'A'
    let (result, pending) =
        EscapeProcessor::process_unicode_escape(b"0041", &mut buffer, None).unwrap();
    assert_eq!(result.unwrap(), b"A");
    assert_eq!(pending, None);

    // Test another ASCII character \u0048 -> 'H'
    let (result, pending) =
        EscapeProcessor::process_unicode_escape(b"0048", &mut buffer, None).unwrap();
    assert_eq!(result.unwrap(), b"H");
    assert_eq!(pending, None);
}

#[test]
fn test_unicode_escape_multibyte() {
    let mut buffer = [0u8; 4];

    // Test Greek alpha \u03B1 -> 'α' (2 bytes in UTF-8: 0xCE, 0xB1)
    let (result, pending) =
        EscapeProcessor::process_unicode_escape(b"03B1", &mut buffer, None).unwrap();
    assert_eq!(result.unwrap(), "α".as_bytes());
    assert_eq!(pending, None);

    // Test emoji \u1F60A -> '😊' (4 bytes in UTF-8)
    let (result, pending) =
        EscapeProcessor::process_unicode_escape(b"1F60", &mut buffer, None).unwrap();
    // Note: This is actually incomplete - \u1F60A requires surrogate pairs
    // But for basic testing this verifies the hex parsing works
    assert!(result.is_some());
    assert_eq!(pending, None);
}

#[test]
fn test_unicode_escape_invalid_hex() {
    let mut buffer = [0u8; 4];

    // Invalid hex characters
    assert!(EscapeProcessor::process_unicode_escape(b"00GG", &mut buffer, None).is_err());
    assert!(EscapeProcessor::process_unicode_escape(b"ZZZZ", &mut buffer, None).is_err());

    // Wrong length
    assert!(EscapeProcessor::process_unicode_escape(b"123", &mut buffer, None).is_err());
    assert!(EscapeProcessor::process_unicode_escape(b"12345", &mut buffer, None).is_err());
}

#[test]
fn test_unicode_escape_invalid_codepoint() {
    let mut buffer = [0u8; 4];

    // Note: Most values in the BMP are valid Unicode codepoints
    // Invalid surrogate codepoints would be D800-DFFF but they're complex to test
    // For now, test basic valid cases to ensure the function works
    let (result, pending) =
        EscapeProcessor::process_unicode_escape(b"0000", &mut buffer, None).unwrap();
    assert_eq!(result.unwrap(), "\0".as_bytes());
    assert_eq!(pending, None);
}

#[test]
fn test_token_to_escape_char() {
    // Test all valid escape tokens
    assert_eq!(
        EscapeProcessor::token_to_escape_char(&EventToken::EscapeQuote).unwrap(),
        b'"'
    );
    assert_eq!(
        EscapeProcessor::token_to_escape_char(&EventToken::EscapeBackslash).unwrap(),
        b'\\'
    );
    assert_eq!(
        EscapeProcessor::token_to_escape_char(&EventToken::EscapeSlash).unwrap(),
        b'/'
    );
    assert_eq!(
        EscapeProcessor::token_to_escape_char(&EventToken::EscapeBackspace).unwrap(),
        b'b'
    );
    assert_eq!(
        EscapeProcessor::token_to_escape_char(&EventToken::EscapeFormFeed).unwrap(),
        b'f'
    );
    assert_eq!(
        EscapeProcessor::token_to_escape_char(&EventToken::EscapeNewline).unwrap(),
        b'n'
    );
    assert_eq!(
        EscapeProcessor::token_to_escape_char(&EventToken::EscapeCarriageReturn).unwrap(),
        b'r'
    );
    assert_eq!(
        EscapeProcessor::token_to_escape_char(&EventToken::EscapeTab).unwrap(),
        b't'
    );

    // Test invalid token
    assert_eq!(
        EscapeProcessor::token_to_escape_char(&EventToken::String),
        None
    );
}

#[test]
fn test_process_escape_token() {
    // Test valid escape tokens that produce correct unescaped bytes
    assert_eq!(
        EscapeProcessor::process_escape_token(&EventToken::EscapeQuote).unwrap(),
        b'"'
    );
    assert_eq!(
        EscapeProcessor::process_escape_token(&EventToken::EscapeBackslash).unwrap(),
        b'\\'
    );
    assert_eq!(
        EscapeProcessor::process_escape_token(&EventToken::EscapeSlash).unwrap(),
        b'/'
    );
    assert_eq!(
        EscapeProcessor::process_escape_token(&EventToken::EscapeBackspace).unwrap(),
        0x08
    );
    assert_eq!(
        EscapeProcessor::process_escape_token(&EventToken::EscapeFormFeed).unwrap(),
        0x0C
    );
    assert_eq!(
        EscapeProcessor::process_escape_token(&EventToken::EscapeNewline).unwrap(),
        b'\n'
    );
    assert_eq!(
        EscapeProcessor::process_escape_token(&EventToken::EscapeCarriageReturn).unwrap(),
        b'\r'
    );
    assert_eq!(
        EscapeProcessor::process_escape_token(&EventToken::EscapeTab).unwrap(),
        b'\t'
    );

    // Test invalid token
    assert!(EscapeProcessor::process_escape_token(&EventToken::String).is_err());
}

#[test]
fn test_unicode_escape_collector_basic() {
    let mut collector = UnicodeEscapeCollector::new();
    let mut utf8_buffer = [0u8; 4];

    // Add hex digits for \u0041 -> 'A'
    assert!(!collector.add_hex_digit(b'0').unwrap()); // Not complete yet
    assert!(!collector.add_hex_digit(b'0').unwrap()); // Not complete yet
    assert!(!collector.add_hex_digit(b'4').unwrap()); // Not complete yet
    assert!(collector.add_hex_digit(b'1').unwrap()); // Complete!

    // Process to UTF-8
    let (result, _surrogate_state_changed) =
        collector.process_to_utf8(&mut utf8_buffer).unwrap();
    assert_eq!(result.unwrap(), b"A");
}

#[test]
fn test_unicode_escape_collector_invalid_hex() {
    let mut collector = UnicodeEscapeCollector::new();

    // Valid digits first
    assert!(!collector.add_hex_digit(b'0').unwrap());
    assert!(!collector.add_hex_digit(b'0').unwrap());

    // Invalid hex digit should fail
    assert!(collector.add_hex_digit(b'G').is_err());
}

#[test]
fn test_unicode_escape_collector_reset() {
    let mut collector = UnicodeEscapeCollector::new();

    // Add some digits
    assert!(!collector.add_hex_digit(b'0').unwrap());
    assert!(!collector.add_hex_digit(b'1').unwrap());

    // Reset should clear hex position but not surrogate state
    collector.reset();

    // Should be able to start fresh
    assert!(!collector.add_hex_digit(b'A').unwrap());
}

#[test]
fn test_unicode_escape_collector_surrogate_support() {
    let mut collector = UnicodeEscapeCollector::new();
    let mut utf8_buffer = [0u8; 4];

    // Process high surrogate \uD801
    assert!(!collector.add_hex_digit(b'D').unwrap());
    assert!(!collector.add_hex_digit(b'8').unwrap());
    assert!(!collector.add_hex_digit(b'0').unwrap());
    assert!(collector.add_hex_digit(b'1').unwrap());

    let (result, state_changed) = collector.process_to_utf8(&mut utf8_buffer).unwrap();
    assert_eq!(result, None); // No UTF-8 output yet
    assert!(state_changed); // Surrogate state changed
    assert!(collector.has_pending_high_surrogate());

    // Reset for next escape sequence
    collector.reset();

    // Process low surrogate \uDC37
    assert!(!collector.add_hex_digit(b'D').unwrap());
    assert!(!collector.add_hex_digit(b'C').unwrap());
    assert!(!collector.add_hex_digit(b'3').unwrap());
    assert!(collector.add_hex_digit(b'7').unwrap());

    let (result, state_changed) = collector.process_to_utf8(&mut utf8_buffer).unwrap();
    assert!(result.is_some()); // Should have UTF-8 output
    assert!(state_changed); // Surrogate state changed (cleared)
    assert!(!collector.has_pending_high_surrogate());

    // Verify it's the correct UTF-8 encoding for U+10437
    assert_eq!(result.unwrap(), [0xF0, 0x90, 0x90, 0xB7]);
}

#[test]
fn test_unicode_escape_collector_multibyte() {
    let mut collector = UnicodeEscapeCollector::new();
    let mut utf8_buffer = [0u8; 4];

    // Add hex digits for \u03B1 -> 'α' (Greek alpha)
    assert!(!collector.add_hex_digit(b'0').unwrap());
    assert!(!collector.add_hex_digit(b'3').unwrap());
    assert!(!collector.add_hex_digit(b'B').unwrap());
    assert!(collector.add_hex_digit(b'1').unwrap());

    let (result, _surrogate_state_changed) =
        collector.process_to_utf8(&mut utf8_buffer).unwrap();
    assert_eq!(result.unwrap(), "α".as_bytes());
}

#[test]
fn test_unicode_escape_collector_incomplete_processing() {
    let mut collector = UnicodeEscapeCollector::new();
    let mut utf8_buffer = [0u8; 4];

    // Add only 2 digits
    assert!(!collector.add_hex_digit(b'0').unwrap());
    assert!(!collector.add_hex_digit(b'0').unwrap());

    // Should fail to process incomplete sequence
    assert!(collector.process_to_utf8(&mut utf8_buffer).is_err());
}

#[test]
fn test_surrogate_pair_detection() {
    // Test high surrogate detection
    assert!(EscapeProcessor::is_high_surrogate(0xD800));
    assert!(EscapeProcessor::is_high_surrogate(0xD801));
    assert!(EscapeProcessor::is_high_surrogate(0xDBFF));
    assert!(!EscapeProcessor::is_high_surrogate(0xD7FF));
    assert!(!EscapeProcessor::is_high_surrogate(0xDC00));

    // Test low surrogate detection
    assert!(EscapeProcessor::is_low_surrogate(0xDC00));
    assert!(EscapeProcessor::is_low_surrogate(0xDC37));
    assert!(EscapeProcessor::is_low_surrogate(0xDFFF));
    assert!(!EscapeProcessor::is_low_surrogate(0xDBFF));
    assert!(!EscapeProcessor::is_low_surrogate(0xE000));
}

#[test]
fn test_surrogate_pair_combination() {
    // Test valid surrogate pair: \uD801\uDC37 -> U+10437
    let combined = EscapeProcessor::combine_surrogate_pair(0xD801, 0xDC37).unwrap();
    assert_eq!(combined, 0x10437);

    // Test another valid pair: \uD834\uDD1E -> U+1D11E (musical symbol)
    let combined = EscapeProcessor::combine_surrogate_pair(0xD834, 0xDD1E).unwrap();
    assert_eq!(combined, 0x1D11E);

    // Test invalid combinations
    assert!(EscapeProcessor::combine_surrogate_pair(0x0041, 0xDC37).is_err()); // Not high surrogate
    assert!(EscapeProcessor::combine_surrogate_pair(0xD801, 0x0041).is_err());
    // Not low surrogate
}

#[test]
fn test_unicode_escape_with_surrogate_support() {
    let mut buffer = [0u8; 4];

    // Test regular Unicode character (not surrogate)
    let (result, pending) =
        EscapeProcessor::process_unicode_escape(b"0041", &mut buffer, None).unwrap();
    assert_eq!(result, Some(b"A".as_slice()));
    assert_eq!(pending, None);

    // Test high surrogate - should return None and save the high surrogate
    let (result, pending) =
        EscapeProcessor::process_unicode_escape(b"D801", &mut buffer, None).unwrap();
    assert_eq!(result, None);
    assert_eq!(pending, Some(0xD801));

    // Test low surrogate following high surrogate - should combine
    let (result, pending) =
        EscapeProcessor::process_unicode_escape(b"DC37", &mut buffer, Some(0xD801)).unwrap();
    assert!(result.is_some());
    assert_eq!(pending, None);
    // The result should be the UTF-8 encoding of U+10437
    assert_eq!(result.unwrap(), [0xF0, 0x90, 0x90, 0xB7]);
}

#[test]
fn test_unicode_escape_surrogate_error_cases() {
    let mut buffer = [0u8; 4];

    // Test low surrogate without preceding high surrogate - should error
    let result = EscapeProcessor::process_unicode_escape(b"DC37", &mut buffer, None);
    assert!(result.is_err());

    // Test high surrogate followed by non-low-surrogate - should error
    let result = EscapeProcessor::process_unicode_escape(b"0041", &mut buffer, Some(0xD801));
    assert!(result.is_err());
}

#[test]
fn unicode_escape_sequence_single_escape() {
    let mut collector = UnicodeEscapeCollector::new();
    // "\u0041" ends at position 8 of `ab\u0041`
    let (bytes, start) = process_unicode_escape_sequence(8, &mut collector, b"0041").unwrap();
    let (buf, len) = bytes.unwrap();
    assert_eq!(&buf[..len], b"A");
    assert_eq!(start, 2);
}

#[test]
fn unicode_escape_sequence_surrogate_pair() {
    let mut collector = UnicodeEscapeCollector::new();
    // high surrogate: no bytes yet, start of its own escape
    let (bytes, start) = process_unicode_escape_sequence(6, &mut collector, b"D801").unwrap();
    assert!(bytes.is_none());
    assert_eq!(start, 0);
    assert!(collector.has_pending_high_surrogate());
    collector.reset();
    // low surrogate: the pair's bytes, and the start of the high surrogate
    let (bytes, start) = process_unicode_escape_sequence(12, &mut collector, b"DC37").unwrap();
    let (buf, len) = bytes.unwrap();
    assert_eq!(&buf[..len], &[0xF0, 0x90, 0x90, 0xB7]);
    assert_eq!(start, 0);
    assert!(!collector.has_pending_high_surrogate());
}

#[test]
fn unicode_escape_sequence_errors() {
    let mut collector = UnicodeEscapeCollector::new();
    assert!(process_unicode_escape_sequence(6, &mut collector, b"004").is_err());
    let mut collector = UnicodeEscapeCollector::new();
    assert!(process_unicode_escape_sequence(6, &mut collector, b"00G1").is_err());
    let mut collector = UnicodeEscapeCollector::new();
    assert!(process_unicode_escape_sequence(6, &mut collector, b"DC37").is_err());
}
