use picojson::copy_on_escape::CopyOnEscape;
use picojson::json_string::String;
use picojson::parse_error::ParseError;

#[test]
fn test_coe2_no_escapes() {
    let input = b"hello world";
    let mut scratch = [0u8; 100];
    let mut processor = CopyOnEscape::new(input, &mut scratch);

    processor.begin_string(0);
    let result = processor.end_string(input.len()).unwrap();

    assert!(matches!(result, String::Borrowed("hello world")));
}

#[test]
fn test_coe2_with_escapes() {
    let input = b"hello\\nworld";
    let mut scratch = [0u8; 100];
    let mut processor = CopyOnEscape::new(input, &mut scratch);

    processor.begin_string(0);
    processor.handle_escape(7, b'\n').unwrap();
    let result = processor.end_string(input.len()).unwrap();

    assert!(matches!(result, String::Unescaped(s) if s == "hello\nworld"));
}

#[test]
fn test_coe2_multiple_strings() {
    let mut scratch = [0u8; 100];
    let mut processor = CopyOnEscape::new(b"dummy", &mut scratch);

    let input1 = b"first\\tstring";
    processor.input = input1;
    processor.begin_string(0);
    processor.handle_escape(7, b'\t').unwrap();
    let result1 = processor.end_string(input1.len()).unwrap();

    assert!(matches!(result1, String::Unescaped(s) if s == "first\tstring"));

    let input2 = b"second string";
    processor.input = input2;
    processor.begin_string(0);
    let result2 = processor.end_string(input2.len()).unwrap();

    assert!(matches!(result2, String::Borrowed("second string")));

    let input3 = b"third\\nstring";
    processor.input = input3;
    processor.begin_string(0);
    processor.handle_escape(7, b'\n').unwrap();
    let result3 = processor.end_string(input3.len()).unwrap();

    assert!(matches!(result3, String::Unescaped(s) if s == "third\nstring"));
}

#[test]
fn test_coe2_multiple_escapes() {
    let input = b"a\\nb\\tc";
    let mut scratch = [0u8; 100];
    let mut processor = CopyOnEscape::new(input, &mut scratch);

    processor.begin_string(0);
    processor.handle_escape(3, b'\n').unwrap();
    processor.handle_escape(6, b'\t').unwrap();
    let result = processor.end_string(input.len()).unwrap();

    assert!(matches!(result, String::Unescaped(s) if s == "a\nb\tc"));
}

#[test]
fn test_coe2_buffer_reuse() {
    let mut scratch = [0u8; 50];
    let mut processor = CopyOnEscape::new(b"dummy", &mut scratch);

    let input1 = b"long\\tstring\\nwith\\rescapes";
    processor.input = input1;
    processor.begin_string(0);
    processor.handle_escape(6, b'\t').unwrap();
    processor.handle_escape(14, b'\n').unwrap();
    processor.handle_escape(20, b'\r').unwrap();
    let result1 = processor.end_string(input1.len()).unwrap();

    assert!(matches!(result1, String::Unescaped(_)));

    let input2 = b"new\\tstring";
    processor.input = input2;
    processor.begin_string(0);
    processor.handle_escape(5, b'\t').unwrap();
    let result2 = processor.end_string(input2.len()).unwrap();

    assert!(matches!(result2, String::Unescaped(s) if s == "new\tstring"));
}

#[test]
fn test_coe2_buffer_full() {
    let input = b"very long string with escape\\n";
    let mut scratch = [0u8; 5];
    let mut processor = CopyOnEscape::new(input, &mut scratch);

    processor.begin_string(0);
    let result = processor.handle_escape(30, b'\n');

    assert!(matches!(result, Err(ParseError::ScratchBufferFull)));
}

#[test]
fn test_coe2_unicode_escape() {
    let input = b"hello\\u0041world";
    let mut scratch = [0u8; 100];
    let mut processor = CopyOnEscape::new(input, &mut scratch);

    processor.begin_string(0);
    let utf8_a = b"A";
    processor.handle_unicode_escape(5, utf8_a).unwrap();
    let result = processor.end_string(input.len()).unwrap();

    assert!(matches!(result, String::Unescaped(s) if s == "helloAworld"));
}

#[test]
fn test_coe2_unicode_escape_multibyte() {
    let input = b"test\\u03B1end";
    let mut scratch = [0u8; 100];
    let mut processor = CopyOnEscape::new(input, &mut scratch);

    processor.begin_string(0);
    let utf8_alpha = "α".as_bytes();
    processor.handle_unicode_escape(4, utf8_alpha).unwrap();
    let result = processor.end_string(input.len()).unwrap();

    assert!(matches!(result, String::Unescaped(s) if s == "testαend"));
}

#[test]
fn test_coe2_unicode_escape_no_prior_escapes() {
    let input = b"plain\\u0041";
    let mut scratch = [0u8; 100];
    let mut processor = CopyOnEscape::new(input, &mut scratch);

    processor.begin_string(0);
    let utf8_a = b"A";
    processor.handle_unicode_escape(5, utf8_a).unwrap();
    let result = processor.end_string(input.len()).unwrap();

    assert!(matches!(result, String::Unescaped(s) if s == "plainA"));
}

#[test]
fn coe_end_string_out_of_bounds_is_error() {
    let input = b"abc";
    let mut scratch = [0u8; 8];
    let mut processor = CopyOnEscape::new(input, &mut scratch);
    processor.begin_string(2);
    assert!(processor.end_string(10).is_err());
}

#[test]
fn coe_invalid_utf8_is_error() {
    let input = [0xffu8, 0xfe];
    let mut scratch = [0u8; 8];
    let mut processor = CopyOnEscape::new(&input, &mut scratch);
    processor.begin_string(0);
    assert!(matches!(processor.end_string(2), Err(ParseError::InvalidUtf8(_))));
}
