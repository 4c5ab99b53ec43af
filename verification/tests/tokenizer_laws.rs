use picojson::tokenizer::{Event, Tokenizer};

fn kinds(data: &[&[u8]]) -> (Vec<Event>, Result<(), picojson::tokenizer::ErrKind>) {
    let mut t = Tokenizer::<u32, u8>::new();
    let mut events = Vec::new();
    let mut result = Ok(());
    for chunk in data {
        if let Err(e) = t.parse_chunk(chunk, &mut events) {
            result = Err(e.kind);
            break;
        }
    }
    (events.into_iter().map(|(e, _)| e).collect(), result)
}

#[test]
fn chunked_input_gives_same_events() {
    let doc: &[u8] = br#"{"a": [1, true, "x\ny"], "b": null, "c": -2.5e3}"#;
    let whole = kinds(&[doc]);
    for split in 0..=doc.len() {
        let (a, b) = doc.split_at(split);
        assert_eq!(kinds(&[a, b]), whole, "split at {}", split);
    }
}

#[test]
fn chunked_input_gives_same_error() {
    let doc: &[u8] = b"[1, 2,]";
    let whole = kinds(&[doc]);
    assert!(whole.1.is_err());
    for split in 0..=doc.len() {
        let (a, b) = doc.split_at(split);
        assert_eq!(kinds(&[a, b]), whole, "split at {}", split);
    }
}

#[test]
fn depth_follows_container_events() {
    let (events, result) = kinds(&[b"[[{\"k\": [1]}], []]"]);
    assert!(result.is_ok());
    let mut depth: i64 = 0;
    for e in events {
        match e {
            Event::ObjectStart | Event::ArrayStart => depth += 1,
            Event::ObjectEnd | Event::ArrayEnd => depth -= 1,
            _ => {}
        }
        assert!(depth >= 0);
    }
    assert_eq!(depth, 0);
}

#[test]
fn chunked_input_positions_shift_by_first_chunk() {
    let doc: &[u8] = br#"{"a": [1, true, "x\ny"], "b": null}"#;
    let mut t = Tokenizer::<u32, u8>::new();
    let mut whole = Vec::new();
    assert!(t.parse_chunk(doc, &mut whole).is_ok());
    for split in 0..=doc.len() {
        let (a, b) = doc.split_at(split);
        let mut t2 = Tokenizer::<u32, u8>::new();
        let mut first = Vec::new();
        let mut second = Vec::new();
        assert!(t2.parse_chunk(a, &mut first).is_ok());
        assert!(t2.parse_chunk(b, &mut second).is_ok());
        let mut joined = first.clone();
        for (e, p) in second {
            joined.push((e, p + a.len()));
        }
        assert_eq!(joined, whole, "split at {}", split);
    }
}
