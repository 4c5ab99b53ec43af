use picojson::chunk_reader::ChunkReader;
use picojson::json_number::NumberResult;
use picojson::json_string::String;
use picojson::parse_error::{ParseError, UnexpectedState};
use picojson::shared::{Event, State};
use picojson::stream_content_builder::StreamContentBuilder;
use picojson::tokenizer::{Event as TokEvent, EventToken};

fn read_all<R: picojson::chunk_reader::Reader>(b: &mut StreamContentBuilder<'_, R>, n: usize) -> Vec<u8> {
    let mut out = Vec::new();
    for _ in 0..n {
        match b.next_byte() {
            Ok(Some(byte)) => out.push(byte),
            _ => break,
        }
    }
    out
}

#[test]
fn stream_content_builder_reads_bytes_then_finishes() {
    let data = b"[1]";
    let mut buf = [0u8; 8];
    let mut b = StreamContentBuilder::new(&mut buf, ChunkReader::new(data, 2));
    assert!(!b.is_finished());
    assert_eq!(read_all(&mut b, 10), b"[1]".to_vec());
    assert_eq!(b.next_byte(), Ok(None));
    assert!(b.is_finished());
}

#[test]
fn stream_content_builder_borrowed_string() {
    let data = br#""abc" "#;
    let mut buf = [0u8; 16];
    let mut b = StreamContentBuilder::new(&mut buf, ChunkReader::full_slice(data));
    assert_eq!(b.next_byte(), Ok(Some(b'"')));
    b.process_begin_events(&TokEvent::Begin(EventToken::String));
    assert_eq!(*b.parser_state(), State::String(1));
    assert_eq!(read_all(&mut b, 4), b"abc\"".to_vec());
    let ev = b.validate_and_extract_content(false);
    assert_eq!(ev, Ok(Event::String(String::Borrowed("abc"))));
}

#[test]
fn stream_content_builder_escaped_string_is_unescaped() {
    let data = br#""ab\ncd""#;
    let mut buf = [0u8; 16];
    let mut b = StreamContentBuilder::new(&mut buf, ChunkReader::full_slice(data));
    assert_eq!(b.next_byte(), Ok(Some(b'"')));
    b.process_begin_events(&TokEvent::Begin(EventToken::String));
    assert_eq!(read_all(&mut b, 3), b"ab\\".to_vec());
    b.begin_escape_sequence().unwrap();
    assert_eq!(b.next_byte(), Ok(Some(b'n')));
    b.handle_simple_escape_char(b'\n').unwrap();
    for _ in 0..2 {
        let byte = b.next_byte().unwrap().unwrap();
        b.handle_byte_accumulation(byte).unwrap();
    }
    assert_eq!(b.next_byte(), Ok(Some(b'"')));
    let ev = b.validate_and_extract_content(false);
    assert_eq!(ev, Ok(Event::String(String::Unescaped("ab\ncd"))));
}

#[test]
fn stream_content_builder_key_in_string_state_is_mismatch() {
    let data = br#""k""#;
    let mut buf = [0u8; 16];
    let mut b = StreamContentBuilder::new(&mut buf, ChunkReader::full_slice(data));
    b.next_byte().unwrap();
    b.process_begin_events(&TokEvent::Begin(EventToken::String));
    let ev = b.validate_and_extract_content(true);
    assert_eq!(ev, Err(ParseError::Unexpected(UnexpectedState::StateMismatch)));
}

#[test]
fn stream_content_builder_number_before_delimiter() {
    let data = b"-12.5,";
    let mut buf = [0u8; 16];
    let mut b = StreamContentBuilder::new(&mut buf, ChunkReader::full_slice(data));
    assert_eq!(b.next_byte(), Ok(Some(b'-')));
    b.process_begin_events(&TokEvent::Begin(EventToken::Number));
    assert_eq!(*b.parser_state(), State::Number(0));
    assert_eq!(read_all(&mut b, 5), b"12.5,".to_vec());
    match b.validate_and_extract_number(false) {
        Ok(Event::Number(n)) => assert_eq!(n.as_str(), "-12.5"),
        other => panic!("unexpected {:?}", other),
    }
    assert_eq!(*b.parser_state(), State::Empty);
}

#[test]
fn stream_content_builder_number_at_document_end_uses_full_span() {
    let data = b"42";
    let mut buf = [0u8; 16];
    let mut b = StreamContentBuilder::new(&mut buf, ChunkReader::full_slice(data));
    assert_eq!(b.next_byte(), Ok(Some(b'4')));
    b.process_begin_events(&TokEvent::Begin(EventToken::Number));
    assert_eq!(b.next_byte(), Ok(Some(b'2')));
    assert_eq!(b.next_byte(), Ok(None));
    assert!(b.is_finished());
    match b.validate_and_extract_number(false) {
        Ok(Event::Number(n)) => {
            assert_eq!(n.as_str(), "42");
            assert_eq!(*n.parsed(), NumberResult::Integer(42));
        }
        other => panic!("unexpected {:?}", other),
    }
}

#[test]
fn stream_content_builder_number_without_state_is_mismatch() {
    let data = b"1";
    let mut buf = [0u8; 4];
    let mut b = StreamContentBuilder::new(&mut buf, ChunkReader::full_slice(data));
    assert_eq!(
        b.validate_and_extract_number(true),
        Err(ParseError::Unexpected(UnexpectedState::StateMismatch))
    );
}

#[test]
fn stream_content_builder_compacts_to_keep_the_token() {
    // A 4-byte buffer: the string's start is kept by compaction.
    let data = br#"[ "ab"]"#;
    let mut buf = [0u8; 4];
    let mut b = StreamContentBuilder::new(&mut buf, ChunkReader::new(data, 4));
    assert_eq!(read_all(&mut b, 3), b"[ \"".to_vec());
    b.process_begin_events(&TokEvent::Begin(EventToken::String));
    assert_eq!(read_all(&mut b, 3), b"ab\"".to_vec());
    let ev = b.validate_and_extract_content(false);
    assert_eq!(ev, Ok(Event::String(String::Borrowed("ab"))));
}

#[test]
fn stream_content_builder_token_larger_than_buffer_fails() {
    let data = br#""abcdef""#;
    let mut buf = [0u8; 4];
    let mut b = StreamContentBuilder::new(&mut buf, ChunkReader::full_slice(data));
    assert_eq!(b.next_byte(), Ok(Some(b'"')));
    b.process_begin_events(&TokEvent::Begin(EventToken::String));
    assert_eq!(read_all(&mut b, 4), b"abcd".to_vec());
    assert_eq!(b.next_byte(), Err(ParseError::ScratchBufferFull));
}

#[test]
fn stream_content_builder_reset_after_unescaped_string() {
    let data = br#""\t""#;
    let mut buf = [0u8; 8];
    let mut b = StreamContentBuilder::new(&mut buf, ChunkReader::full_slice(data));
    b.next_byte().unwrap();
    b.process_begin_events(&TokEvent::Begin(EventToken::String));
    b.next_byte().unwrap();
    b.begin_escape_sequence().unwrap();
    b.next_byte().unwrap();
    b.handle_simple_escape_char(b'\t').unwrap();
    b.next_byte().unwrap();
    assert_eq!(
        b.validate_and_extract_content(false),
        Ok(Event::String(String::Unescaped("\t")))
    );
    b.apply_unescaped_reset_if_queued();
    assert_eq!(b.current_position(), 4);
}

#[test]
fn stream_content_builder_unicode_escape_is_encoded() {
    let data = br#""\u00e9""#;
    let mut buf = [0u8; 16];
    let mut b = StreamContentBuilder::new(&mut buf, ChunkReader::full_slice(data));
    assert_eq!(b.next_byte(), Ok(Some(b'"')));
    b.process_begin_events(&TokEvent::Begin(EventToken::String));
    assert_eq!(b.next_byte(), Ok(Some(b'\\')));
    b.begin_escape_sequence().unwrap();
    assert_eq!(read_all(&mut b, 5), b"u00e9".to_vec());
    b.process_unicode_escape_with_collector().unwrap();
    assert_eq!(b.next_byte(), Ok(Some(b'"')));
    assert_eq!(
        b.validate_and_extract_content(false),
        Ok(Event::String(String::Unescaped("\u{e9}")))
    );
}

#[test]
fn stream_content_builder_bad_unicode_escape_is_rejected() {
    let data = br#""\u00zz""#;
    let mut buf = [0u8; 16];
    let mut b = StreamContentBuilder::new(&mut buf, ChunkReader::full_slice(data));
    b.next_byte().unwrap();
    b.process_begin_events(&TokEvent::Begin(EventToken::String));
    b.next_byte().unwrap();
    b.begin_escape_sequence().unwrap();
    read_all(&mut b, 5);
    assert_eq!(
        b.process_unicode_escape_with_collector(),
        Err(ParseError::InvalidUnicodeHex)
    );
}
