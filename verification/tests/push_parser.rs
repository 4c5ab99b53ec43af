use picojson::bitstack::DefaultConfig;
use picojson::json_string::String as JsonString;
use picojson::parse_error::ParseError;
use picojson::push_content_builder::PushParserHandler;
use picojson::push_parser::{handler_result, PushParseError, PushParser};
use picojson::shared::{Event, EventTag};

#[derive(Debug, PartialEq)]
struct HandlerError(&'static str);

impl From<ParseError> for HandlerError {
    fn from(_e: ParseError) -> Self {
        HandlerError("parse")
    }
}

/// Records each event as text; fails on the event numbered `fail_at`.
struct Recorder {
    seen: Vec<String>,
    fail_at: Option<usize>,
    last: Option<EventTag>,
}

impl Recorder {
    fn new() -> Self {
        Recorder { seen: Vec::new(), fail_at: None, last: None }
    }
}

fn describe(s: &JsonString) -> String {
    match s {
        JsonString::Borrowed(t) => format!("b:{}", t),
        JsonString::Unescaped(t) => format!("u:{}", t),
    }
}

impl<'a, 'b> PushParserHandler<'a, 'b, HandlerError> for Recorder {
    fn last_event_kind(&self) -> Option<EventTag> {
        self.last
    }

    fn handle_event(&mut self, event: Event<'a, 'b>) -> Result<(), HandlerError> {
        self.last = Some(event.tag());
        if self.fail_at == Some(self.seen.len()) {
            return Err(HandlerError("stop"));
        }
        let text = match &event {
            Event::StartObject => "{".to_string(),
            Event::EndObject => "}".to_string(),
            Event::StartArray => "[".to_string(),
            Event::EndArray => "]".to_string(),
            Event::Key(s) => format!("key {}", describe(s)),
            Event::String(s) => format!("str {}", describe(s)),
            Event::Number(n) => format!("num {}", n.as_str()),
            Event::Bool(b) => format!("bool {}", b),
            Event::Null => "null".to_string(),
            Event::EndDocument => "end".to_string(),
            _ => "other".to_string(),
        };
        self.seen.push(text);
        Ok(())
    }
}

fn run_chunks(chunks: &[&[u8]]) -> Result<Vec<String>, PushParseError<HandlerError>> {
    let mut scratch = [0u8; 64];
    let mut parser = PushParser::<_, DefaultConfig>::new(Recorder::new(), &mut scratch);
    for chunk in chunks {
        parser.write(chunk)?;
    }
    let handler = parser.finish()?;
    Ok(handler.seen)
}

fn run_bytewise(input: &[u8]) -> Result<Vec<String>, PushParseError<HandlerError>> {
    let chunks: Vec<&[u8]> = input.chunks(1).collect();
    run_chunks(&chunks)
}

#[test]
fn push_parser_whole_document() {
    let events = run_chunks(&[br#"{"key": "value", "n": [1, true, null]}"#]).unwrap();
    assert_eq!(
        events,
        vec![
            "{", "key b:key", "str b:value", "key b:n", "[", "num 1", "bool true", "null", "]", "}", "end"
        ]
    );
}

#[test]
fn push_parser_split_string_is_copied() {
    let events = run_chunks(&[br#"["hel"#, br#"lo", "x"]"#]).unwrap();
    assert_eq!(events, vec!["[", "str u:hello", "str b:x", "]", "end"]);
}

#[test]
fn push_parser_bytewise_matches_whole() {
    let input = br#"{"a": [10, -2.5e3, "s\"t", false], "b\n": {}}"#;
    let whole = run_chunks(&[input]).unwrap();
    let bytewise = run_bytewise(input).unwrap();
    let strip = |v: &Vec<String>| -> Vec<String> {
        v.iter().map(|s| s.replace("b:", "").replace("u:", "")).collect()
    };
    assert_eq!(strip(&whole), strip(&bytewise));
    assert_eq!(
        strip(&whole),
        vec![
            "{", "key a", "[", "num 10", "num -2.5e3", "str s\"t", "bool false", "]", "key b\n", "{", "}", "}", "end"
        ]
    );
}

#[test]
fn push_parser_escapes_are_unescaped() {
    let events = run_chunks(&[br#"["a\tb", "\u0041\u00e9"]"#]).unwrap();
    assert_eq!(events, vec!["[", "str u:a\tb", "str u:A\u{e9}", "]", "end"]);
}

#[test]
fn push_parser_surrogate_pair_across_chunks() {
    let events = run_bytewise(br#"["\ud83d\ude00"]"#).unwrap();
    assert_eq!(events, vec!["[", "str u:\u{1F600}", "]", "end"]);
}

#[test]
fn push_parser_lone_high_surrogate_is_rejected() {
    let r = run_chunks(&[br#"["\ud83d"]"#]);
    assert_eq!(r, Err(PushParseError::Parse(ParseError::InvalidUnicodeCodepoint)));
}

#[test]
fn push_parser_number_split_across_chunks() {
    let events = run_chunks(&[b"[12", b"34, 5]"]).unwrap();
    assert_eq!(events, vec!["[", "num 1234", "num 5", "]", "end"]);
}

#[test]
fn push_parser_tokenizer_error() {
    let r = run_chunks(&[b"[1,,2]"]);
    assert!(matches!(r, Err(PushParseError::Parse(ParseError::TokenizerError(_)))));
}

#[test]
fn push_parser_unfinished_document() {
    let r = run_chunks(&[b"[1, 2"]);
    assert!(matches!(r, Err(PushParseError::Parse(ParseError::TokenizerError(_)))));
}

#[test]
fn push_parser_open_number_at_end_is_end_of_data() {
    let r = run_chunks(&[b"42"]);
    assert_eq!(r, Err(PushParseError::Parse(ParseError::EndOfData)));
}

#[test]
fn push_parser_handler_error_stops_delivery() {
    let mut scratch = [0u8; 64];
    let mut recorder = Recorder::new();
    recorder.fail_at = Some(2);
    let mut parser = PushParser::<_, DefaultConfig>::new(recorder, &mut scratch);
    let r = parser.write(br#"["a", "b", "c"]"#);
    assert_eq!(r, Err(PushParseError::Handler(HandlerError("stop"))));
}

#[test]
fn push_parser_scratch_too_small() {
    let mut scratch = [0u8; 2];
    let mut parser = PushParser::<_, DefaultConfig>::new(Recorder::new(), &mut scratch);
    let r = parser.write(br#"["abc\n"]"#);
    assert_eq!(r, Err(PushParseError::Parse(ParseError::ScratchBufferFull)));
}

#[test]
fn push_parser_error_conversions() {
    let e: PushParseError<HandlerError> = ParseError::EndOfData.into();
    assert_eq!(e, PushParseError::Parse(ParseError::EndOfData));
}

#[test]
fn push_parser_handler_result_maps_errors() {
    assert_eq!(handler_result::<HandlerError>(Ok(())), Ok(()));
    assert_eq!(
        handler_result(Err(HandlerError("x"))),
        Err(PushParseError::Handler(HandlerError("x")))
    );
}

#[test]
fn push_parser_whitespace_chunks_are_accepted() {
    let events = run_chunks(&[b"  ", b"\n[", b"]", b" \t"]).unwrap();
    assert_eq!(events, vec!["[", "]", "end"]);
}

#[test]
fn push_parser_two_writes_give_same_kinds_as_one() {
    fn kind(e: &str) -> &str {
        e.split(' ').next().unwrap_or("")
    }
    let doc: &[u8] = br#"{"a": [1, true, "x\ny"], "b": null, "c": -25}"#;
    let whole: Vec<String> = run_chunks(&[doc]).unwrap();
    for split in 0..=doc.len() {
        let (a, b) = doc.split_at(split);
        let parts = run_chunks(&[a, b]).unwrap();
        let k1: Vec<&str> = parts.iter().map(|e| kind(e)).collect();
        let k2: Vec<&str> = whole.iter().map(|e| kind(e)).collect();
        assert_eq!(k1, k2, "split at {}", split);
    }
}

#[test]
fn push_parser_chunks_inside_a_string_succeed() {
    let mut scratch = [0u8; 64];
    let mut parser = PushParser::<_, DefaultConfig>::new(Recorder::new(), &mut scratch);
    assert_eq!(parser.write::<HandlerError>(br#"["ab"#), Ok(()));
    assert_eq!(parser.write::<HandlerError>(b"cd"), Ok(()));
    assert_eq!(parser.write::<HandlerError>(b"ef"), Ok(()));
    assert_eq!(parser.write::<HandlerError>(br#"gh"]"#), Ok(()));
    let handler = parser.finish::<HandlerError>().unwrap();
    assert_eq!(handler.seen, vec!["[", "str u:abcdefgh", "]", "end"]);
}

#[test]
fn push_parser_two_writes_give_same_texts_as_one() {
    // Texts as delivered, without telling borrowed from copied.
    fn plain(e: &str) -> String {
        e.replace("b:", "").replace("u:", "")
    }
    let doc: &[u8] = br#"{"key": "va\"lue", "n": [12.5e3, -7], "s": "x\u0041y"}"#;
    let whole: Vec<String> = run_chunks(&[doc]).unwrap();
    assert_eq!(
        whole.iter().map(|e| plain(e)).collect::<Vec<_>>(),
        vec!["{", "key key", "str va\"lue", "key n", "[", "num 12.5e3", "num -7", "]", "key s", "str xAy", "}", "end"]
    );
    for split in 0..=doc.len() {
        let (a, b) = doc.split_at(split);
        let parts = run_chunks(&[a, b]).unwrap();
        let t1: Vec<String> = parts.iter().map(|e| plain(e)).collect();
        let t2: Vec<String> = whole.iter().map(|e| plain(e)).collect();
        assert_eq!(t1, t2, "split at {}", split);
    }
}

#[test]
fn push_parser_finish_hands_end_document_last() {
    let mut scratch = [0u8; 16];
    let mut parser = PushParser::<_, DefaultConfig>::new(Recorder::new(), &mut scratch);
    assert_eq!(parser.write::<HandlerError>(b"[1]"), Ok(()));
    let handler = parser.finish::<HandlerError>().unwrap();
    assert_eq!(handler.last, Some(EventTag::EndDocument));
    assert_eq!(handler.seen, vec!["[", "num 1", "]", "end"]);
}
