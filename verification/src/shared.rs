//! Shared components for the JSON parsers.

use core::str::Utf8Error;
use vstd::prelude::*;
use vstd::string::StringSliceAdditionalSpecFns;
use vstd::utf8::valid_utf8;

use crate::json_number::JsonNumber;
use crate::json_string::String;
use crate::parse_error::ParseError;
use crate::tokenizer;

verus! {

/// Content type identification for ContentSpan events
#[derive(Debug, PartialEq, Eq, Clone, Copy, Structural)]
pub enum ContentKind {
    String,
    Key,
    Number,
}

/// Events produced by JSON parsers
#[derive(Debug, PartialEq)]
pub enum Event<'a, 'b> {
    /// The start of an object (e.g., `{`).
    StartObject,
    /// The end of an object (e.g., `}`).
    EndObject,
    /// The start of an array (e.g., `[`).
    StartArray,
    /// The end of an array (e.g., `]`).
    EndArray,
    /// An object key (e.g., `"key":`).
    Key(String<'a, 'b>),
    /// A string value (e.g., `"value"`).
    String(String<'a, 'b>),
    /// A number value (e.g., `42` or `3.14`).
    Number(JsonNumber<'a, 'b>),
    /// A boolean value (e.g., `true` or `false`).
    Bool(bool),
    /// A null value (e.g., `null`).
    Null,
    /// Describes a complete token found within the current input chunk.
    ContentSpan {
        /// The type of content (string, key, or number)
        kind: ContentKind,
        /// Absolute start position in the overall stream
        start: usize,
        /// Absolute end position in the overall stream
        end: usize,
        /// Whether the content contains escape sequences
        has_escapes: bool,
    },
    /// Describes the beginning of a token that is cut off by a chunk boundary.
    PartialContentSpanStart {
        /// The type of content (string, key, or number)
        kind: ContentKind,
        /// Absolute start position in the overall stream
        start: usize,
        /// Whether escapes were seen before the chunk ended
        has_escapes_in_this_chunk: bool,
    },
    /// Describes the end of a token that began in a previous chunk.
    PartialContentSpanEnd {
        /// The type of content (string, key, or number)
        kind: ContentKind,
        /// Absolute end position in the overall stream
        end: usize,
        /// Whether escapes were seen in this final chunk
        has_escapes_in_this_chunk: bool,
    },
    /// End of the document.
    EndDocument,
}

/// The kinds of parser events, without their content.
#[derive(Debug, PartialEq, Eq, Clone, Copy, Structural)]
pub enum EventTag {
    StartObject,
    EndObject,
    StartArray,
    EndArray,
    Key,
    String,
    Number,
    True,
    False,
    Null,
    EndDocument,
    Other,
}

/// A parser event as a value: its kind, the bytes of its text (for a key,
/// string or number) and whether that text was unescaped into the scratch
/// buffer.
pub open spec fn event_record(ev: Event) -> (EventTag, Seq<u8>, bool) {
    match ev {
        Event::StartObject => (EventTag::StartObject, Seq::empty(), false),
        Event::EndObject => (EventTag::EndObject, Seq::empty(), false),
        Event::StartArray => (EventTag::StartArray, Seq::empty(), false),
        Event::EndArray => (EventTag::EndArray, Seq::empty(), false),
        Event::Key(s) => (EventTag::Key, s.text_bytes(), s is Unescaped),
        Event::String(s) => (EventTag::String, s.text_bytes(), s is Unescaped),
        Event::Number(n) => (EventTag::Number, n.raw_bytes(), n is Copied),
        Event::Bool(b) => (if b {
            EventTag::True
        } else {
            EventTag::False
        }, Seq::empty(), false),
        Event::Null => (EventTag::Null, Seq::empty(), false),
        Event::EndDocument => (EventTag::EndDocument, Seq::empty(), false),
        _ => (EventTag::Other, Seq::empty(), false),
    }
}

impl<'a, 'b> Event<'a, 'b> {
    /// The event's kind.
    pub fn tag(&self) -> (r: EventTag)
        ensures
            r == event_record(*self).0,
    {
        match self {
            Event::StartObject => EventTag::StartObject,
            Event::EndObject => EventTag::EndObject,
            Event::StartArray => EventTag::StartArray,
            Event::EndArray => EventTag::EndArray,
            Event::Key(_) => EventTag::Key,
            Event::String(_) => EventTag::String,
            Event::Number(_) => EventTag::Number,
            Event::Bool(b) => if *b {
                EventTag::True
            } else {
                EventTag::False
            },
            Event::Null => EventTag::Null,
            Event::EndDocument => EventTag::EndDocument,
            _ => EventTag::Other,
        }
    }
}

/// Internal parser state tracking: what is being read, and where it started.
#[derive(Debug, PartialEq, Eq, Clone, Copy, Structural)]
pub enum State {
    /// Nothing is being read.
    Empty,
    Key(usize),
    String(usize),
    Number(usize),
}

/// Parser state and event storage
pub struct ParserState {
    pub evts: [Option<tokenizer::Event>; 2],
}

impl ParserState {
    pub fn new() -> (r: Self)
        ensures
            r.evts@ == seq![None::<tokenizer::Event>, None::<tokenizer::Event>],
    {
        let r = Self { evts: [None, None] };
        proof {
            assert(r.evts@ =~= seq![None::<tokenizer::Event>, None::<tokenizer::Event>]);
        }
        r
    }
}

/// `x - y`, or 0 when `y` is larger.
pub open spec fn sat_sub(x: usize, y: usize) -> usize {
    if x >= y {
        (x - y) as usize
    } else {
        0
    }
}

/// The content of a string from its first byte `content_start` to just
/// before the closing quote, which lies before `current_pos` (empty when the
/// quote is at the start).
pub open spec fn content_bounds(content_start: usize, current_pos: usize) -> (usize, usize) {
    if content_start > sat_sub(current_pos, 1) {
        (content_start, content_start)
    } else {
        (content_start, sat_sub(current_pos, 1))
    }
}

/// Utility for calculating common content range boundaries in JSON parsing.
/// Provides consistent position arithmetic for string/number content extraction.
pub struct ContentRange;

impl ContentRange {
    /// Number content start from the current position (just after the first
    /// digit was processed): backs up to include the first digit.
    pub fn number_start_from_current(current_pos: usize) -> (r: usize)
        ensures
            r == sat_sub(current_pos, 1),
    {
        current_pos.saturating_sub(1)
    }

    /// String content boundaries from the content start (after the opening
    /// quote) and the current position (after the closing quote).
    pub fn string_content_bounds_from_content_start(content_start: usize, current_pos: usize) -> (r: (usize, usize))
        ensures
            r == content_bounds(content_start, current_pos),
    {
        let content_end = current_pos.saturating_sub(1);
        if content_start > content_end {
            (content_start, content_start)
        } else {
            (content_start, content_end)
        }
    }

    /// Unicode escape sequence boundaries from the current position (after
    /// the 4 hex digits): (hex_start, hex_end, escape_start), where
    /// escape_start is the position of the backslash in \uXXXX.
    pub fn unicode_escape_bounds(current_pos: usize) -> (r: (usize, usize, usize))
        ensures
            r == (sat_sub(current_pos, 4), current_pos, sat_sub(current_pos, 6)),
    {
        let hex_start = current_pos.saturating_sub(4);
        let hex_end = current_pos;
        let escape_start = current_pos.saturating_sub(6);
        (hex_start, hex_end, escape_start)
    }

    /// End position excluding the final delimiter.
    pub fn end_position_excluding_delimiter(current_pos: usize) -> (r: usize)
        ensures
            r == sat_sub(current_pos, 1),
    {
        current_pos.saturating_sub(1)
    }

    /// Number end position: the full span at the end of a standalone
    /// document, else excluding the delimiter.
    pub fn number_end_position(current_pos: usize, use_full_span: bool) -> (r: usize)
        ensures
            r == if use_full_span {
                current_pos
            } else {
                sat_sub(current_pos, 1)
            },
    {
        if use_full_span {
            current_pos
        } else {
            current_pos.saturating_sub(1)
        }
    }
}

/// `core::str::from_utf8`: the bytes as a string slice when they are valid
/// UTF-8 (then the slice holds exactly those bytes), an error otherwise.
#[verifier::external_body]
fn str_from_utf8(v: &[u8]) -> (r: Result<&str, Utf8Error>)
    ensures
        r is Ok <==> valid_utf8(v@),
        r matches Ok(s) ==> s.spec_bytes() == v@,
{
    core::str::from_utf8(v)
}

/// The bytes as a string slice, when they are valid UTF-8.
pub fn from_utf8(v: &[u8]) -> (r: Result<&str, ParseError>)
    ensures
        r is Ok <==> valid_utf8(v@),
        r matches Ok(s) ==> s.spec_bytes() == v@,
        r matches Err(e) ==> e is InvalidUtf8,
{
    match str_from_utf8(v) {
        Ok(s) => Ok(s),
        Err(e) => Err(ParseError::InvalidUtf8(e)),
    }
}

/// Raw content piece from either input buffer or scratch buffer.
#[derive(Debug, PartialEq)]
pub enum ContentPiece<'input, 'scratch> {
    /// Content borrowed directly from the input buffer (zero-copy)
    Input(&'input [u8]),
    /// Content processed and stored in the scratch buffer (unescaped)
    Scratch(&'scratch [u8]),
}

impl<'input, 'scratch> ContentPiece<'input, 'scratch> where 'input: 'scratch {
    /// The bytes, wherever they are held.
    pub open spec fn bytes(&self) -> Seq<u8> {
        match self {
            ContentPiece::Input(b) => b@,
            ContentPiece::Scratch(b) => b@,
        }
    }

    /// Convert the content piece to a String: borrowed for input, unescaped
    /// for scratch; an error when the bytes are not valid UTF-8.
    pub fn into_string(self) -> (r: Result<String<'input, 'scratch>, ParseError>)
        ensures
            r is Ok <==> valid_utf8(self.bytes()),
            r matches Ok(s) ==> match self {
                ContentPiece::Input(b) => s matches String::Borrowed(t) && t.spec_bytes() == b@,
                ContentPiece::Scratch(b) => s matches String::Unescaped(t) && t.spec_bytes() == b@,
            },
            r matches Err(e) ==> e is InvalidUtf8,
    {
        match self {
            ContentPiece::Input(bytes) => {
                let content_str = from_utf8(bytes)?;
                Ok(String::Borrowed(content_str))
            },
            ContentPiece::Scratch(bytes) => {
                let content_str = from_utf8(bytes)?;
                Ok(String::Unescaped(content_str))
            },
        }
    }

    /// Returns the underlying byte slice, whether from input or scratch.
    pub fn as_bytes(&self) -> (r: &'scratch [u8])
        ensures
            r@ == self.bytes(),
    {
        match self {
            ContentPiece::Input(bytes) => bytes,
            ContentPiece::Scratch(bytes) => bytes,
        }
    }
}

/// A source of content: the input's bytes, by position, and the unescaped
/// bytes that the scratch buffer holds.
pub trait DataSource<'input, 'scratch> {
    /// The input's bytes from `start` to `end`, or the error for a range
    /// that is not held.
    spec fn borrowed(&self, start: usize, end: usize) -> Result<Seq<u8>, ParseError>;

    /// The unescaped content, or the error when there is none to give.
    spec fn unescaped_content(&self) -> Result<Seq<u8>, ParseError>;

    /// Whether the current content lies in the scratch buffer.
    spec fn holds_unescaped(&self) -> bool;

    /// The input's bytes from `start` to `end`, borrowed.
    fn get_borrowed_slice(&'input self, start: usize, end: usize) -> (r: Result<&'input [u8], ParseError>)
        ensures
            match self.borrowed(start, end) {
                Ok(b) => r matches Ok(s) && s@ == b,
                Err(e) => r == Err::<&[u8], ParseError>(e),
            },
            r matches Err(e) ==> e is Unexpected,
    ;

    /// The unescaped content of the scratch buffer.
    fn get_unescaped_slice(&'scratch self) -> (r: Result<&'scratch [u8], ParseError>)
        ensures
            match self.unescaped_content() {
                Ok(b) => r matches Ok(s) && s@ == b,
                Err(e) => r == Err::<&[u8], ParseError>(e),
            },
            r matches Err(e) ==> e is Unexpected,
    ;

    /// Whether the current content lies in the scratch buffer.
    fn has_unescaped_content(&self) -> (r: bool)
        ensures
            r == self.holds_unescaped(),
    ;
}

/// The content of a string or number: the scratch buffer's unescaped bytes
/// when the content lies there, else the input's bytes from `start_pos` to
/// just before `current_pos`; the source's own error when it cannot give
/// them.
pub fn get_content_piece<'input, 'scratch, D>(source: &'input D, start_pos: usize, current_pos: usize) -> (r: Result<
    ContentPiece<'input, 'scratch>,
    ParseError,
>) where 'input: 'scratch, D: DataSource<'input, 'scratch>
    ensures
        source.holds_unescaped() ==> match source.unescaped_content() {
            Ok(b) => r matches Ok(ContentPiece::Scratch(s)) && s@ == b,
            Err(e) => r == Err::<ContentPiece, ParseError>(e),
        },
        !source.holds_unescaped() ==> match source.borrowed(
            content_bounds(start_pos, current_pos).0,
            content_bounds(start_pos, current_pos).1,
        ) {
            Ok(b) => r matches Ok(ContentPiece::Input(s)) && s@ == b,
            Err(e) => r == Err::<ContentPiece, ParseError>(e),
        },
        r matches Err(e) ==> e is Unexpected,
{
    if source.has_unescaped_content() {
        match source.get_unescaped_slice() {
            Ok(s) => Ok(ContentPiece::Scratch(s)),
            Err(e) => Err(e),
        }
    } else {
        let (content_start, content_end) = ContentRange::string_content_bounds_from_content_start(start_pos, current_pos);
        match source.get_borrowed_slice(content_start, content_end) {
            Ok(s) => Ok(ContentPiece::Input(s)),
            Err(e) => Err(e),
        }
    }
}

} // verus!
