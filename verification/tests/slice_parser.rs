use picojson::bitstack::{ArrayBitStack, BitStackStruct};
use picojson::json_string::String;
use picojson::parse_error::ParseError;
use picojson::shared::Event;
use picojson::slice_parser::SliceParser;

#[test]
fn slice_parser_make_parser() {
    let input = r#"{"key": "value"}"#;
    let mut scratch = [0u8; 1024];
    let mut parser = SliceParser::with_buffer(input, &mut scratch);
    assert_eq!(parser.next_event(), Ok(Event::StartObject));
    assert_eq!(parser.next_event(), Ok(Event::Key(String::Borrowed("key"))));
    assert_eq!(
        parser.next_event(),
        Ok(Event::String(String::Borrowed("value")))
    );
    assert_eq!(parser.next_event(), Ok(Event::EndObject));
    assert_eq!(parser.next_event(), Ok(Event::EndDocument));
    assert_eq!(parser.next_event(), Ok(Event::EndDocument));
}

#[test]
fn slice_parser_parse_number() {
    let input = r#"{"key": 124}"#;
    let mut scratch = [0u8; 1024];
    let mut parser = SliceParser::with_buffer(input, &mut scratch);
    assert_eq!(parser.next_event(), Ok(Event::StartObject));
    assert_eq!(parser.next_event(), Ok(Event::Key(String::Borrowed("key"))));
    // Check number value using new JsonNumber API
    match parser.next_event() {
        Ok(Event::Number(num)) => {
            assert_eq!(num.as_str(), "124");
            assert_eq!(num.as_int(), Some(124));
        }
        other => panic!("Expected Number, got: {:?}", other),
    }
    assert_eq!(parser.next_event(), Ok(Event::EndObject));
    assert_eq!(parser.next_event(), Ok(Event::EndDocument));
}

#[test]
fn slice_parser_parse_bool_and_null() {
    let input = r#"{"key": true, "key2": false, "key3": null}"#;
    let mut scratch = [0u8; 1024];
    let mut parser = SliceParser::with_buffer(input, &mut scratch);
    assert_eq!(parser.next_event(), Ok(Event::StartObject));
    assert_eq!(parser.next_event(), Ok(Event::Key(String::Borrowed("key"))));
    assert_eq!(parser.next_event(), Ok(Event::Bool(true)));
    assert_eq!(
        parser.next_event(),
        Ok(Event::Key(String::Borrowed("key2")))
    );
    assert_eq!(parser.next_event(), Ok(Event::Bool(false)));
    assert_eq!(
        parser.next_event(),
        Ok(Event::Key(String::Borrowed("key3")))
    );
    assert_eq!(parser.next_event(), Ok(Event::Null));
    assert_eq!(parser.next_event(), Ok(Event::EndObject));
    assert_eq!(parser.next_event(), Ok(Event::EndDocument));
}

#[test]
fn slice_parser_parse_array() {
// No floats for float-error config
    let input = r#"{"key": [1, 2.2, 3]}"#; // Include float for other configs

    let mut scratch = [0u8; 1024];
    let mut parser = SliceParser::with_buffer(input, &mut scratch);
    assert_eq!(parser.next_event(), Ok(Event::StartObject));
    assert_eq!(parser.next_event(), Ok(Event::Key(String::Borrowed("key"))));
    assert_eq!(parser.next_event(), Ok(Event::StartArray));

    // First number: 1 (integer)
    match parser.next_event() {
        Ok(Event::Number(num)) => {
            assert_eq!(num.as_str(), "1");
            assert_eq!(num.as_int(), Some(1));
        }
        other => panic!("Expected Number(1), got: {:?}", other),
    }

    // Second number: depends on configuration
    match parser.next_event() {
        Ok(Event::Number(num)) => {
            {
                assert_eq!(num.as_str(), "2.2");
                assert!(num.is_float());
            }
        }
        other => panic!("Expected Number, got: {:?}", other),
    }

    // Third number: 3 (integer)
    match parser.next_event() {
        Ok(Event::Number(num)) => {
            assert_eq!(num.as_str(), "3");
            assert_eq!(num.as_int(), Some(3));
        }
        other => panic!("Expected Number(3), got: {:?}", other),
    }

    assert_eq!(parser.next_event(), Ok(Event::EndArray));
    assert_eq!(parser.next_event(), Ok(Event::EndObject));
    assert_eq!(parser.next_event(), Ok(Event::EndDocument));
}

#[test]
fn slice_parser_test_simple_parser_api() {
    let input = r#"{"name": "test"}"#;
    let mut scratch = [0u8; 1024];
    let mut parser = SliceParser::with_buffer(input, &mut scratch);

    assert_eq!(parser.next_event(), Ok(Event::StartObject));
    assert_eq!(
        parser.next_event(),
        Ok(Event::Key(String::Borrowed("name")))
    );
    assert_eq!(
        parser.next_event(),
        Ok(Event::String(String::Borrowed("test")))
    );
    assert_eq!(parser.next_event(), Ok(Event::EndObject));
    assert_eq!(parser.next_event(), Ok(Event::EndDocument));
}

#[test]
fn slice_parser_test_parser_with_escaped_strings() {
    // Use regular string literal to properly include escape sequences
    let input = "{\"name\": \"John\\nDoe\", \"message\": \"Hello\\tWorld!\"}";
    let mut scratch = [0u8; 1024];
    let mut parser = SliceParser::with_buffer(input, &mut scratch);

    // Test that the parser correctly handles escaped strings
    assert_eq!(parser.next_event(), Ok(Event::StartObject));

    // Key should be simple (no escapes) -> Borrowed
    if let Ok(Event::Key(key)) = parser.next_event() {
        assert_eq!(key.as_str(), "name");
        // This should be the fast path (borrowed)
        assert!(matches!(key, String::Borrowed(_)));
    } else {
        panic!("Expected Key event");
    }

    // Value should have escapes -> Unescaped
    if let Ok(Event::String(value)) = parser.next_event() {
        assert_eq!(value.as_str(), "John\nDoe");
        // This should be the slow path (unescaped)
        assert!(matches!(value, String::Unescaped(_)));
    } else {
        panic!("Expected String event");
    }

    // Second key should be simple -> Borrowed
    if let Ok(Event::Key(key)) = parser.next_event() {
        assert_eq!(key.as_str(), "message");
        assert!(matches!(key, String::Borrowed(_)));
    } else {
        panic!("Expected Key event");
    }

    // Second value should have escapes -> Unescaped
    if let Ok(Event::String(value)) = parser.next_event() {
        assert_eq!(value.as_str(), "Hello\tWorld!");
        assert!(matches!(value, String::Unescaped(_)));
    } else {
        panic!("Expected String event");
    }

    assert_eq!(parser.next_event(), Ok(Event::EndObject));
}

#[test]
fn slice_parser_test_copy_on_escape_optimization() {
    // Use regular string literal to include proper escape sequences
    let input = "{\"simple\": \"no escapes\", \"complex\": \"has\\nescapes\"}";
    let mut scratch = [0u8; 1024];
    let mut parser = SliceParser::with_buffer(input, &mut scratch);

    assert_eq!(parser.next_event(), Ok(Event::StartObject));

    // "simple" key should be borrowed (fast path)
    if let Ok(Event::Key(key)) = parser.next_event() {
        assert_eq!(key.as_str(), "simple");
        assert!(matches!(key, String::Borrowed(_)));
    } else {
        panic!("Expected Key event");
    }

    // "no escapes" value should be borrowed (fast path)
    if let Ok(Event::String(value)) = parser.next_event() {
        assert_eq!(value.as_str(), "no escapes");
        assert!(matches!(value, String::Borrowed(_)));
    } else {
        panic!("Expected String event");
    }

    // "complex" key should be borrowed (fast path)
    if let Ok(Event::Key(key)) = parser.next_event() {
        assert_eq!(key.as_str(), "complex");
        assert!(matches!(key, String::Borrowed(_)));
    } else {
        panic!("Expected Key event");
    }

    // "has\\nescapes" value should be unescaped (slow path)
    if let Ok(Event::String(value)) = parser.next_event() {
        assert_eq!(value.as_str(), "has\nescapes");
        assert!(matches!(value, String::Unescaped(_)));
    } else {
        panic!("Expected String event");
    }

    assert_eq!(parser.next_event(), Ok(Event::EndObject));
    assert_eq!(parser.next_event(), Ok(Event::EndDocument));
}

#[test]
fn slice_parser_test_coe2_integration_multiple_escapes() {
    let input = r#"{"key": "a\nb\tc\rd"}"#;
    let mut scratch = [0u8; 1024];
    let mut parser = SliceParser::with_buffer(input, &mut scratch);

    assert_eq!(parser.next_event(), Ok(Event::StartObject));
    assert_eq!(parser.next_event(), Ok(Event::Key(String::Borrowed("key"))));

    let string_event = parser.next_event().unwrap();
    match string_event {
        Event::String(String::Unescaped(s)) => {
            assert_eq!(s, "a\nb\tc\rd");
        }
        _ => panic!("Expected unescaped string value, got: {:?}", string_event),
    }
    assert_eq!(parser.next_event(), Ok(Event::EndObject));
    assert_eq!(parser.next_event(), Ok(Event::EndDocument));
}

#[test]
fn slice_parser_test_coe2_integration_zero_copy_path() {
    let input = r#"{"simple": "no_escapes_here"}"#;
    let mut scratch = [0u8; 1024];
    let mut parser = SliceParser::with_buffer(input, &mut scratch);

    assert_eq!(parser.next_event(), Ok(Event::StartObject));
    assert_eq!(
        parser.next_event(),
        Ok(Event::Key(String::Borrowed("simple")))
    );

    // This should be borrowed (zero-copy) since no escapes
    let string_event = parser.next_event().unwrap();
    match string_event {
        Event::String(String::Borrowed(s)) => {
            assert_eq!(s, "no_escapes_here");
        }
        _ => panic!(
            "Expected borrowed string value for zero-copy, got: {:?}",
            string_event
        ),
    }
    assert_eq!(parser.next_event(), Ok(Event::EndObject));
    assert_eq!(parser.next_event(), Ok(Event::EndDocument));
}

#[test]
fn slice_parser_test_coe2_integration_mixed_strings() {
    let input = r#"["plain", "with\nescapes", "plain2", "more\tescapes"]"#;
    let mut scratch = [0u8; 1024];
    let mut parser = SliceParser::with_buffer(input, &mut scratch);

    assert_eq!(parser.next_event(), Ok(Event::StartArray));

    // First string: no escapes -> borrowed
    match parser.next_event().unwrap() {
        Event::String(String::Borrowed(s)) => assert_eq!(s, "plain"),
        other => panic!("Expected borrowed string, got: {:?}", other),
    }

    // Second string: has escapes -> unescaped
    match parser.next_event().unwrap() {
        Event::String(String::Unescaped(s)) => assert_eq!(s, "with\nescapes"),
        other => panic!("Expected unescaped string, got: {:?}", other),
    }

    // Third string: no escapes -> borrowed
    match parser.next_event().unwrap() {
        Event::String(String::Borrowed(s)) => assert_eq!(s, "plain2"),
        other => panic!("Expected borrowed string, got: {:?}", other),
    }

    // Fourth string: has escapes -> unescaped
    match parser.next_event().unwrap() {
        Event::String(String::Unescaped(s)) => assert_eq!(s, "more\tescapes"),
        other => panic!("Expected unescaped string, got: {:?}", other),
    }

    assert_eq!(parser.next_event(), Ok(Event::EndArray));
    assert_eq!(parser.next_event(), Ok(Event::EndDocument));
}

#[test]
fn slice_parser_test_unicode_escape_integration() {
    let input = r#"{"key": "Hello\u0041World"}"#; // \u0041 = 'A'
    let mut scratch = [0u8; 1024];
    let mut parser = SliceParser::with_buffer(input, &mut scratch);

    assert_eq!(parser.next_event(), Ok(Event::StartObject));
    assert_eq!(parser.next_event(), Ok(Event::Key(String::Borrowed("key"))));

    // The string with Unicode escape should be unescaped
    match parser.next_event().unwrap() {
        Event::String(String::Unescaped(s)) => {
            assert_eq!(s, "HelloAWorld");
        }
        other => panic!("Expected unescaped string value, got: {:?}", other),
    }

    assert_eq!(parser.next_event(), Ok(Event::EndObject));
    assert_eq!(parser.next_event(), Ok(Event::EndDocument));
}

#[test]
fn slice_parser_test_original_parser_escape_trace() {
    // Test escape sequence processing with logging
    let input = r#""a\nb""#;
    let mut scratch = [0u8; 1024];
    let mut parser = SliceParser::with_buffer(input, &mut scratch);

    // Should get String with unescaped content
    let event = parser.next_event().unwrap();
    if let Event::String(s) = event {
        assert_eq!(s.as_str(), "a\nb");
    } else {
        panic!("Expected String event, got {:?}", event);
    }

    // Should get EndDocument
    let event = parser.next_event().unwrap();
    assert_eq!(event, Event::EndDocument);
}

#[test]
fn make_parser_from_slice() {
    let input = br#"{"key": "value"}"#;
    let mut scratch = [0u8; 1024];
    let mut parser = SliceParser::with_buffer_from_slice(input, &mut scratch);
    assert_eq!(parser.next_event(), Ok(Event::StartObject));
    assert_eq!(parser.next_event(), Ok(Event::Key(String::Borrowed("key"))));
    assert_eq!(
        parser.next_event(),
        Ok(Event::String(String::Borrowed("value")))
    );
    assert_eq!(parser.next_event(), Ok(Event::EndObject));
    assert_eq!(parser.next_event(), Ok(Event::EndDocument));
    assert_eq!(parser.next_event(), Ok(Event::EndDocument));
}

#[test]
fn test_with_config_constructors() {
    // Test with_config constructor (no escapes)
    let json = r#"{"simple": "no_escapes"}"#;
    let mut parser = SliceParser::<BitStackStruct<u64, u16>>::with_config(json);

    assert_eq!(parser.next_event(), Ok(Event::StartObject));
    assert_eq!(
        parser.next_event(),
        Ok(Event::Key(String::Borrowed("simple")))
    );
    assert_eq!(
        parser.next_event(),
        Ok(Event::String(String::Borrowed("no_escapes")))
    );
    assert_eq!(parser.next_event(), Ok(Event::EndObject));
    assert_eq!(parser.next_event(), Ok(Event::EndDocument));
}

#[test]
fn test_with_config_and_buffer_constructors() {
    // Test with_config_and_buffer constructor (with escapes)
    let json = r#"{"escaped": "hello\nworld"}"#;
    let mut scratch = [0u8; 64];
    let mut parser =
        SliceParser::<BitStackStruct<u64, u16>>::with_config_and_buffer(json, &mut scratch);

    assert_eq!(parser.next_event(), Ok(Event::StartObject));
    assert_eq!(
        parser.next_event(),
        Ok(Event::Key(String::Borrowed("escaped")))
    );

    if let Ok(Event::String(s)) = parser.next_event() {
        assert_eq!(s.as_str(), "hello\nworld"); // Escape should be processed
    } else {
        panic!("Expected String event");
    }

    assert_eq!(parser.next_event(), Ok(Event::EndObject));
    assert_eq!(parser.next_event(), Ok(Event::EndDocument));
}

#[test]
fn test_alternative_config_deep_nesting() {
    // Test that custom BitStack configs can handle deeper nesting
    let json = r#"{"a":{"b":{"c":{"d":{"e":"deep"}}}}}"#;
    let mut scratch = [0u8; 64];
    let mut parser =
        SliceParser::<ArrayBitStack<8, u32, u16>>::with_config_and_buffer(json, &mut scratch);

    // Parse the deep structure
    let mut depth = 0;
    while let Ok(event) = parser.next_event() {
        match event {
            Event::StartObject => depth += 1,
            Event::EndObject => depth -= 1,
            Event::EndDocument => break,
            _ => {}
        }
    }

    // Should have successfully parsed a 5-level deep structure
    assert_eq!(depth, 0); // All objects should be closed
}

#[test]
fn slice_parser_without_scratch_fails_on_escape() {
    let mut parser = SliceParser::new(r#"["a\nb"]"#);
    assert_eq!(parser.next_event(), Ok(Event::StartArray));
    assert_eq!(parser.next_event(), Err(ParseError::ScratchBufferFull));
}

#[test]
fn slice_parser_escape_fits_scratch_exactly_or_not() {
    // "a\nb" unescapes to three bytes.
    let mut roomy = [0u8; 3];
    let mut parser = SliceParser::with_buffer(r#"["a\nb"]"#, &mut roomy);
    assert_eq!(parser.next_event(), Ok(Event::StartArray));
    assert_eq!(parser.next_event(), Ok(Event::String(String::Unescaped("a\nb"))));
    let mut tight = [0u8; 2];
    let mut parser = SliceParser::with_buffer(r#"["a\nb"]"#, &mut tight);
    assert_eq!(parser.next_event(), Ok(Event::StartArray));
    assert_eq!(parser.next_event(), Err(ParseError::ScratchBufferFull));
}

#[test]
fn slice_parser_key_borrowed_and_escaped_string_unescaped() {
    let mut scratch = [0u8; 32];
    let mut parser = SliceParser::with_buffer(r#"{"message": "Hello\nWorld"}"#, &mut scratch);
    assert_eq!(parser.next_event(), Ok(Event::StartObject));
    assert_eq!(parser.next_event(), Ok(Event::Key(String::Borrowed("message"))));
    assert_eq!(parser.next_event(), Ok(Event::String(String::Unescaped("Hello\nWorld"))));
    assert_eq!(parser.next_event(), Ok(Event::EndObject));
    assert_eq!(parser.next_event(), Ok(Event::EndDocument));
    assert_eq!(parser.next_event(), Ok(Event::EndDocument));
}
