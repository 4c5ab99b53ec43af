//! Errors of the JSON parsers.

use core::str::Utf8Error;
use vstd::prelude::*;
use vstd::string::StringExecFns;

use crate::tokenizer;

verus! {

#[verifier::external_type_specification]
#[verifier::external_body]
pub struct ExUtf8Error(Utf8Error);

/// Specific unexpected states that can occur during parsing.
#[derive(Debug, Clone, Copy, PartialEq, Eq, Structural)]
pub enum UnexpectedState {
    /// A generic state mismatch occurred.
    StateMismatch,
    /// An invalid escape token was encountered.
    InvalidEscapeToken,
    /// A Unicode escape sequence was invalid.
    InvalidUnicodeEscape,
    /// An operation exceeded the buffer's capacity.
    BufferCapacityExceeded,
    /// Invalid slice bounds were provided for an operation.
    InvalidSliceBounds,
}

/// Errors that can occur during JSON parsing
#[derive(Debug, PartialEq)]
pub enum ParseError {
    /// An error bubbled up from the underlying tokenizer.
    TokenizerError(tokenizer::Error),
    /// The provided scratch buffer was not large enough for an operation.
    ScratchBufferFull,
    /// A string slice was not valid UTF-8.
    InvalidUtf8(Utf8Error),
    /// A number string could not be parsed.
    InvalidNumber,
    /// The parser entered an unexpected internal state.
    Unexpected(UnexpectedState),
    /// End of input data.
    EndOfData,
    /// Invalid hex digits in Unicode escape sequence.
    InvalidUnicodeHex,
    /// Valid hex but invalid Unicode codepoint.
    InvalidUnicodeCodepoint,
    /// Invalid escape sequence character.
    InvalidEscapeSequence,
    /// Float encountered but float support is disabled and float-error is configured
    FloatNotAllowed,
    /// Error from the underlying reader (I/O error, not end-of-stream)
    ReaderError,
    /// Numeric overflow
    NumericOverflow,
}

impl From<UnexpectedState> for ParseError {
    fn from(info: UnexpectedState) -> (r: Self) {
        ParseError::Unexpected(info)
    }
}

impl vstd::std_specs::convert::FromSpecImpl<UnexpectedState> for ParseError {
    open spec fn obeys_from_spec() -> bool {
        true
    }

    open spec fn from_spec(info: UnexpectedState) -> Self {
        ParseError::Unexpected(info)
    }
}

impl From<Utf8Error> for ParseError {
    fn from(err: Utf8Error) -> (r: Self) {
        ParseError::InvalidUtf8(err)
    }
}

impl vstd::std_specs::convert::FromSpecImpl<Utf8Error> for ParseError {
    open spec fn obeys_from_spec() -> bool {
        true
    }

    open spec fn from_spec(err: Utf8Error) -> Self {
        ParseError::InvalidUtf8(err)
    }
}

impl From<tokenizer::Error> for ParseError {
    fn from(err: tokenizer::Error) -> (r: Self) {
        ParseError::TokenizerError(err)
    }
}

impl vstd::std_specs::convert::FromSpecImpl<tokenizer::Error> for ParseError {
    open spec fn obeys_from_spec() -> bool {
        true
    }

    open spec fn from_spec(err: tokenizer::Error) -> Self {
        ParseError::TokenizerError(err)
    }
}

impl ParseError {
    /// The error's message: the tokenizer's message for its errors (see
    /// [`tokenizer::Error::message`]); `Invalid UTF-8: ` followed by the
    /// UTF-8 error's own text; otherwise the error's debug text (see
    /// [`parse_error_debug_text`]), which for the other errors is their
    /// name (see [`plain_debug_text`]).
    pub fn to_string(&self) -> (r: std::string::String)
        ensures
            match *self {
                ParseError::TokenizerError(e) => r@ == e.message(),
                ParseError::InvalidUtf8(_) => r@.len() >= "Invalid UTF-8: "@.len() && r@.take(
                    "Invalid UTF-8: "@.len() as int,
                ) == "Invalid UTF-8: "@,
                _ => r@ == parse_error_debug_text(*self),
            },
            plain_debug_text(*self) matches Some(t) ==> r@ == t,
    {
        match self {
            ParseError::TokenizerError(e) => e.to_string(),
            ParseError::InvalidUtf8(e) => {
                let mut s = std::string::String::new();
                s.append("Invalid UTF-8: ");
                let t = display_utf8_error(e);
                s.append(t.as_str());
                proof {
                    assert(s@.take("Invalid UTF-8: "@.len() as int) =~= "Invalid UTF-8: "@);
                }
                s
            },
            _ => format_debug(self),
        }
    }
}

/// The derived `Debug` text of an error: what `format!("{:?}", e)` writes
/// (the variant's name, and its field in brackets).
pub uninterp spec fn parse_error_debug_text(e: ParseError) -> Seq<char>;

/// The name of an unexpected state, as written in its declaration.
pub open spec fn unexpected_state_name(s: UnexpectedState) -> Seq<char> {
    match s {
        UnexpectedState::StateMismatch => "StateMismatch"@,
        UnexpectedState::InvalidEscapeToken => "InvalidEscapeToken"@,
        UnexpectedState::InvalidUnicodeEscape => "InvalidUnicodeEscape"@,
        UnexpectedState::BufferCapacityExceeded => "BufferCapacityExceeded"@,
        UnexpectedState::InvalidSliceBounds => "InvalidSliceBounds"@,
    }
}

/// The derived `Debug` text of an error whose fields hold no outside value:
/// the variant's name, followed for `Unexpected` by the state's name in
/// brackets. `None` for the tokenizer and UTF-8 errors.
pub open spec fn plain_debug_text(e: ParseError) -> Option<Seq<char>> {
    match e {
        ParseError::TokenizerError(_) | ParseError::InvalidUtf8(_) => None,
        ParseError::ScratchBufferFull => Some("ScratchBufferFull"@),
        ParseError::InvalidNumber => Some("InvalidNumber"@),
        ParseError::Unexpected(s) => Some("Unexpected("@ + unexpected_state_name(s) + ")"@),
        ParseError::EndOfData => Some("EndOfData"@),
        ParseError::InvalidUnicodeHex => Some("InvalidUnicodeHex"@),
        ParseError::InvalidUnicodeCodepoint => Some("InvalidUnicodeCodepoint"@),
        ParseError::InvalidEscapeSequence => Some("InvalidEscapeSequence"@),
        ParseError::FloatNotAllowed => Some("FloatNotAllowed"@),
        ParseError::ReaderError => Some("ReaderError"@),
        ParseError::NumericOverflow => Some("NumericOverflow"@),
    }
}

/// `format!("{}", e)`: the `Display` of a UTF-8 error. What it writes is
/// left unsaid.
#[verifier::external_body]
fn display_utf8_error(e: &Utf8Error) -> std::string::String {
    format!("{}", e)
}

/// `format!("{:?}", e)`: the derived `Debug` of an error, named by
/// [`parse_error_debug_text`]; a derived `Debug` writes a unit variant as
/// its name and a tuple variant as its name with its field's `Debug` in
/// brackets, which fixes the text of the errors without an outside field
/// (see [`plain_debug_text`]).
#[verifier::external_body]
fn format_debug(e: &ParseError) -> (r: std::string::String)
    ensures
        r@ == parse_error_debug_text(*e),
        plain_debug_text(*e) matches Some(t) ==> r@ == t,
{
    format!("{:?}", e)
}

} // verus!
