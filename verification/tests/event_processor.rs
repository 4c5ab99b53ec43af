use picojson::event_processor::{
    create_tokenizer_callback, have_events, process_simple_events, take_first_event, EventResult,
};
use picojson::shared::Event;
use picojson::tokenizer::{Event as TokEvent, EventToken};

#[test]
fn test_container_events() {
    assert!(matches!(
        process_simple_events(&TokEvent::ObjectStart),
        Some(EventResult::Complete(Event::StartObject))
    ));

    assert!(matches!(
        process_simple_events(&TokEvent::ArrayEnd),
        Some(EventResult::Complete(Event::EndArray))
    ));
}

#[test]
fn test_primitive_events() {
    assert!(matches!(
        process_simple_events(&TokEvent::End(EventToken::True)),
        Some(EventResult::Complete(Event::Bool(true)))
    ));

    assert!(matches!(
        process_simple_events(&TokEvent::End(EventToken::Null)),
        Some(EventResult::Complete(Event::Null))
    ));
}

#[test]
fn test_extraction_triggers() {
    assert!(matches!(
        process_simple_events(&TokEvent::End(EventToken::String)),
        Some(EventResult::ExtractString)
    ));

    assert!(matches!(
        process_simple_events(&TokEvent::End(EventToken::Number)),
        Some(EventResult::ExtractNumber(false))
    ));

    assert!(matches!(
        process_simple_events(&TokEvent::End(EventToken::NumberAndArray)),
        Some(EventResult::ExtractNumber(true))
    ));
}

#[test]
fn test_complex_events_not_handled() {
    assert!(process_simple_events(&TokEvent::Begin(EventToken::String)).is_none());
    assert!(process_simple_events(&TokEvent::Begin(EventToken::EscapeQuote)).is_none());
}

#[test]
fn test_tokenizer_callback() {
    let mut event_storage = [None, None];

    // Initially no events
    assert!(!have_events(&event_storage));

    create_tokenizer_callback(&mut event_storage, &vec![(TokEvent::ObjectStart, 1)]);
    assert!(have_events(&event_storage));
    assert!(event_storage[0].is_some());
    assert!(event_storage[1].is_none());

    create_tokenizer_callback(&mut event_storage, &vec![(TokEvent::ArrayStart, 1)]);
    assert!(event_storage[0].is_some());
    assert!(event_storage[1].is_some());

    create_tokenizer_callback(&mut event_storage, &vec![(TokEvent::ObjectEnd, 1)]);
    assert!(event_storage[0].is_some());
    assert!(event_storage[1].is_some());
}

#[test]
fn test_event_extraction() {
    let mut event_storage = [
        Some(TokEvent::ObjectStart),
        Some(TokEvent::ArrayStart),
    ];

    // Extract first event
    let first = take_first_event(&mut event_storage);
    assert!(matches!(first, Some(TokEvent::ObjectStart)));
    assert!(event_storage[0].is_none());
    assert!(event_storage[1].is_some());

    // Extract second event
    let second = take_first_event(&mut event_storage);
    assert!(matches!(second, Some(TokEvent::ArrayStart)));
    assert!(event_storage[0].is_none());
    assert!(event_storage[1].is_none());

    // No more events
    let none = take_first_event(&mut event_storage);
    assert!(none.is_none());
    assert!(!have_events(&event_storage));
}
