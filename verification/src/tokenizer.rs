//! Low-level JSON tokenizer: a byte-at-a-time state machine that emits
//! structural events and tracks nesting depth, line and column.
//!
//! The tokenizer's behaviour is given by [`spec_step`], the effect of one
//! byte, and [`spec_run`], its effect over a chunk. Every executable entry
//! point is proved against these.

use vstd::prelude::*;
use vstd::string::StringExecFns;

use crate::bitstack::{clear_bits, pop_bits, push_bits, top_bit, BitBucket, DepthCounter};
use crate::json_number::{decimal, push_decimal};

verus! {

/// Token types that can be emitted during parsing.
#[derive(Debug, Clone, Copy, PartialEq, Eq, Structural)]
pub enum EventToken {
    True,
    False,
    Null,
    String,
    Key,
    Number,
    /// used for closing arrays after numbers
    NumberAndArray,
    /// used for closing objects after numbers
    NumberAndObject,
    UnicodeEscape,
    /// emitted when \ is encountered (start of any escape)
    EscapeSequence,
    /// \"
    EscapeQuote,
    /// \\
    EscapeBackslash,
    /// \/
    EscapeSlash,
    /// \b
    EscapeBackspace,
    /// \f
    EscapeFormFeed,
    /// \n
    EscapeNewline,
    /// \r
    EscapeCarriageReturn,
    /// \t
    EscapeTab,
}

/// Events emitted by the tokenizer during JSON parsing.
#[derive(Debug, Clone, Copy, PartialEq, Eq, Structural)]
pub enum Event {
    Begin(EventToken),
    End(EventToken),
    ObjectStart,
    ObjectEnd,
    ArrayStart,
    ArrayEnd,
    /// A placeholder that the tokenizer never emits (for pre-filled event stores).
    Uninitialized,
}

/// Kinds of errors that can occur during tokenization.
#[derive(Debug, Clone, Copy, PartialEq, Eq, Structural)]
pub enum ErrKind {
    EmptyStream,
    UnfinishedStream,
    InvalidRoot,
    InvalidToken,
    UnescapedControlCharacter,
    TrailingComma,
    ContentEnded,
    UnopenedArray,
    UnopenedObject,
    MaxDepthReached,
    InvalidNumber,
    InvalidUnicodeEscape,
    InvalidStringEscape,
    ExpectedObjectKey,
    ExpectedObjectValue,
    ExpectedColon,
    ExpectedArrayItem,
}

/// Error type returned by the tokenizer with line/column information.
#[derive(Debug, Clone, Copy)]
pub struct Error {
    pub kind: ErrKind,
    pub character: u8,
    pub position: usize,
    pub line: Option<usize>,
    pub column: Option<usize>,
}

/// Two errors are equal when their kind, character and position are; the
/// line and column are informative only.
pub open spec fn error_eq(a: Error, b: Error) -> bool {
    a.kind == b.kind && a.character == b.character && a.position == b.position
}

impl PartialEq for Error {
    fn eq(&self, other: &Self) -> (r: bool) {
        self.kind == other.kind && self.character == other.character && self.position
            == other.position
    }
}

impl vstd::std_specs::cmp::PartialEqSpecImpl for Error {
    open spec fn obeys_eq_spec() -> bool {
        true
    }

    open spec fn eq_spec(&self, other: &Self) -> bool {
        error_eq(*self, *other)
    }
}

/// The error value that [`Error::new`] builds.
pub open spec fn mk_error(
    kind: ErrKind,
    character: u8,
    position: usize,
    line: Option<usize>,
    column: Option<usize>,
) -> Error {
    Error { kind, character, position, line, column }
}

impl Error {
    /// Creates a new error result with the given details.
    pub fn new<T>(
        kind: ErrKind,
        character: u8,
        position: usize,
        line: Option<usize>,
        column: Option<usize>,
    ) -> (r: Result<T, Self>)
        ensures
            r == Err::<T, Error>(mk_error(kind, character, position, line, column)),
    {
        Err(Error { kind, character, position, line, column })
    }

    /// The error's message: its kind, where it happened (with line and
    /// column when they are known) and the byte it happened at.
    pub open spec fn message(&self) -> Seq<char> {
        match (self.line, self.column) {
            (Some(line), Some(column)) => "Tokenizer error: "@ + kind_debug_text(self.kind) + " at line "@ + decimal(
                line as int,
            ) + " column "@ + decimal(column as int) + " (position "@ + decimal(self.position as int) + ") near "@
                + char_debug_text(self.character),
            _ => "Tokenizer error: "@ + kind_debug_text(self.kind) + " at position "@ + decimal(self.position as int)
                + " near "@ + char_debug_text(self.character),
        }
    }

    /// The error's short description: its kind, the byte it happened at and
    /// where (with line and column when they are known).
    pub open spec fn debug_message(&self) -> Seq<char> {
        match (self.line, self.column) {
            (Some(line), Some(column)) => kind_debug_text(self.kind) + "("@ + seq![self.character as char] + ") at line "@
                + decimal(line as int) + " col "@ + decimal(column as int) + " (pos "@ + decimal(self.position as int)
                + ")"@,
            _ => kind_debug_text(self.kind) + "("@ + seq![self.character as char] + ") at "@ + decimal(
                self.position as int,
            ),
        }
    }

    /// The error's short description (see [`Error::debug_message`]).
    pub fn debug_string(&self) -> (r: std::string::String)
        ensures
            r@ == self.debug_message(),
    {
        let mut s = std::string::String::new();
        s.append(kind_name(self.kind));
        s.append("(");
        let c = display_char(self.character);
        s.append(c.as_str());
        match (self.line, self.column) {
            (Some(line), Some(column)) => {
                s.append(") at line ");
                let t = format_usize(line);
                s.append(t.as_str());
                s.append(" col ");
                let t = format_usize(column);
                s.append(t.as_str());
                s.append(" (pos ");
                let t = format_usize(self.position);
                s.append(t.as_str());
                s.append(")");
            },
            _ => {
                s.append(") at ");
                let t = format_usize(self.position);
                s.append(t.as_str());
            },
        }
        proof {
            assert(s@ =~= self.debug_message());
        }
        s
    }

    /// The error's message (see [`Error::message`]).
    pub fn to_string(&self) -> (r: std::string::String)
        ensures
            r@ == self.message(),
    {
        let mut s = std::string::String::new();
        s.append("Tokenizer error: ");
        s.append(kind_name(self.kind));
        match (self.line, self.column) {
            (Some(line), Some(column)) => {
                s.append(" at line ");
                let t = format_usize(line);
                s.append(t.as_str());
                s.append(" column ");
                let t = format_usize(column);
                s.append(t.as_str());
                s.append(" (position ");
                let t = format_usize(self.position);
                s.append(t.as_str());
                s.append(") near ");
            },
            _ => {
                s.append(" at position ");
                let t = format_usize(self.position);
                s.append(t.as_str());
                s.append(" near ");
            },
        }
        let c = debug_char(self.character);
        s.append(c.as_str());
        proof {
            assert(s@ =~= self.message());
        }
        s
    }
}

/// The name of an error kind, as its `Debug` writes it.
pub open spec fn kind_debug_text(kind: ErrKind) -> Seq<char> {
    match kind {
        ErrKind::EmptyStream => "EmptyStream"@,
        ErrKind::UnfinishedStream => "UnfinishedStream"@,
        ErrKind::InvalidRoot => "InvalidRoot"@,
        ErrKind::InvalidToken => "InvalidToken"@,
        ErrKind::UnescapedControlCharacter => "UnescapedControlCharacter"@,
        ErrKind::TrailingComma => "TrailingComma"@,
        ErrKind::ContentEnded => "ContentEnded"@,
        ErrKind::UnopenedArray => "UnopenedArray"@,
        ErrKind::UnopenedObject => "UnopenedObject"@,
        ErrKind::MaxDepthReached => "MaxDepthReached"@,
        ErrKind::InvalidNumber => "InvalidNumber"@,
        ErrKind::InvalidUnicodeEscape => "InvalidUnicodeEscape"@,
        ErrKind::InvalidStringEscape => "InvalidStringEscape"@,
        ErrKind::ExpectedObjectKey => "ExpectedObjectKey"@,
        ErrKind::ExpectedObjectValue => "ExpectedObjectValue"@,
        ErrKind::ExpectedColon => "ExpectedColon"@,
        ErrKind::ExpectedArrayItem => "ExpectedArrayItem"@,
    }
}

/// The `Debug` text of the byte `c` taken as a character: what
/// `format!("{:?}", c as char)` writes.
pub uninterp spec fn char_debug_text(c: u8) -> Seq<char>;

/// The name of an error kind (see [`kind_debug_text`]).
fn kind_name(kind: ErrKind) -> (r: &'static str)
    ensures
        r@ == kind_debug_text(kind),
{
    match kind {
        ErrKind::EmptyStream => "EmptyStream",
        ErrKind::UnfinishedStream => "UnfinishedStream",
        ErrKind::InvalidRoot => "InvalidRoot",
        ErrKind::InvalidToken => "InvalidToken",
        ErrKind::UnescapedControlCharacter => "UnescapedControlCharacter",
        ErrKind::TrailingComma => "TrailingComma",
        ErrKind::ContentEnded => "ContentEnded",
        ErrKind::UnopenedArray => "UnopenedArray",
        ErrKind::UnopenedObject => "UnopenedObject",
        ErrKind::MaxDepthReached => "MaxDepthReached",
        ErrKind::InvalidNumber => "InvalidNumber",
        ErrKind::InvalidUnicodeEscape => "InvalidUnicodeEscape",
        ErrKind::InvalidStringEscape => "InvalidStringEscape",
        ErrKind::ExpectedObjectKey => "ExpectedObjectKey",
        ErrKind::ExpectedObjectValue => "ExpectedObjectValue",
        ErrKind::ExpectedColon => "ExpectedColon",
        ErrKind::ExpectedArrayItem => "ExpectedArrayItem",
    }
}

/// `format!("{:?}", c as char)`: the `Debug` of a character, named by
/// [`char_debug_text`].
#[verifier::external_body]
fn debug_char(c: u8) -> (r: std::string::String)
    ensures
        r@ == char_debug_text(c),
{
    format!("{:?}", c as char)
}

/// `format!("{}", c as char)`: the `Display` of a character writes that
/// character.
#[verifier::external_body]
fn display_char(c: u8) -> (r: std::string::String)
    ensures
        r@ == seq![c as char],
{
    format!("{}", c as char)
}

/// `v` written in decimal.
fn format_usize(v: usize) -> (r: std::string::String)
    ensures
        r@ == decimal(v as int),
{
    let mut s = std::string::String::new();
    push_decimal(&mut s, v as u64);
    proof {
        assert(s@ =~= decimal(v as int));
    }
    s
}

/// String sub-states.
#[derive(Debug, Clone, Copy, PartialEq, Eq, Structural)]
pub enum StrState {
    Normal,
    Escaping,
    /// Tracks the number of hex digits seen (0-3)
    Unicode0,
    Unicode1,
    Unicode2,
    Unicode3,
}

/// Number sub-states.
#[derive(Debug, Clone, Copy, PartialEq, Eq, Structural)]
pub enum Num {
    Sign,
    LeadingZero,
    BeforeDecimalPoint,
    Decimal,
    AfterDecimalPoint,
    Exponent,
    ExponentSign,
    AfterExponent,
}

/// The three literal tokens.
#[derive(Debug, Clone, Copy, PartialEq, Eq, Structural)]
pub enum TokenType {
    True,
    False,
    Null,
}

/// Progress through a literal token.
#[derive(Debug, Clone, Copy, PartialEq, Eq, Structural)]
pub struct TokenProgress {
    pub token_type: TokenType,
    /// Current position in the token string
    pub position: usize,
}

/// What an object expects next.
#[derive(Debug, Clone, Copy, PartialEq, Eq, Structural)]
pub enum ObjectExpect {
    Key,
    Colon,
    Value,
    CommaOrEnd,
}

/// What an array expects next.
#[derive(Debug, Clone, Copy, PartialEq, Eq, Structural)]
pub enum ArrayExpect {
    ItemOrEnd,
    CommaOrEnd,
}

/// The tokenizer's state.
#[derive(Debug, Clone, Copy, PartialEq, Eq, Structural)]
pub enum State {
    Idle,
    String { state: StrState, key: bool },
    Number { state: Num },
    Token { token: TokenProgress },
    Object { expect: ObjectExpect },
    Array { expect: ArrayExpect },
    Finished,
}

// ---------------------------------------------------------------------------
// Character classes
// ---------------------------------------------------------------------------

pub open spec fn is_ws(b: u8) -> bool {
    b == 0x20 || b == 0x09 || b == 0x0a || b == 0x0d
}

pub open spec fn is_digit(b: u8) -> bool {
    0x30 <= b <= 0x39
}

pub open spec fn is_nonzero_digit(b: u8) -> bool {
    0x31 <= b <= 0x39
}

pub open spec fn is_hex(b: u8) -> bool {
    is_digit(b) || (0x61 <= b <= 0x66) || (0x41 <= b <= 0x46)
}

/// The escape token for the character after a backslash, for the simple escapes.
pub open spec fn escape_token_of(b: u8) -> Option<EventToken> {
    if b == 0x22 {
        Some(EventToken::EscapeQuote)
    } else if b == 0x5c {
        Some(EventToken::EscapeBackslash)
    } else if b == 0x2f {
        Some(EventToken::EscapeSlash)
    } else if b == 0x62 {
        Some(EventToken::EscapeBackspace)
    } else if b == 0x66 {
        Some(EventToken::EscapeFormFeed)
    } else if b == 0x6e {
        Some(EventToken::EscapeNewline)
    } else if b == 0x72 {
        Some(EventToken::EscapeCarriageReturn)
    } else if b == 0x74 {
        Some(EventToken::EscapeTab)
    } else {
        None
    }
}

/// The number grammar: the state after reading `ch` in state `ns`, if any.
pub open spec fn num_next(ns: Num, ch: u8) -> Option<Num> {
    match ns {
        Num::Sign => if ch == 0x30 {
            Some(Num::LeadingZero)
        } else if is_nonzero_digit(ch) {
            Some(Num::BeforeDecimalPoint)
        } else {
            None
        },
        Num::LeadingZero => if ch == 0x2e {
            Some(Num::Decimal)
        } else if ch == 0x65 || ch == 0x45 {
            Some(Num::Exponent)
        } else {
            None
        },
        Num::BeforeDecimalPoint => if is_digit(ch) {
            Some(Num::BeforeDecimalPoint)
        } else if ch == 0x2e {
            Some(Num::Decimal)
        } else if ch == 0x65 || ch == 0x45 {
            Some(Num::Exponent)
        } else {
            None
        },
        Num::Decimal => if is_digit(ch) {
            Some(Num::AfterDecimalPoint)
        } else {
            None
        },
        Num::AfterDecimalPoint => if is_digit(ch) {
            Some(Num::AfterDecimalPoint)
        } else if ch == 0x65 || ch == 0x45 {
            Some(Num::Exponent)
        } else {
            None
        },
        Num::Exponent => if is_digit(ch) {
            Some(Num::AfterExponent)
        } else if ch == 0x2b || ch == 0x2d {
            Some(Num::ExponentSign)
        } else {
            None
        },
        Num::ExponentSign => if is_digit(ch) {
            Some(Num::AfterExponent)
        } else {
            None
        },
        Num::AfterExponent => if is_digit(ch) {
            Some(Num::AfterExponent)
        } else {
            None
        },
    }
}

/// The row of a number state in the number grammar's table.
pub open spec fn num_index(ns: Num) -> usize {
    match ns {
        Num::Sign => 0,
        Num::LeadingZero => 1,
        Num::BeforeDecimalPoint => 2,
        Num::Decimal => 3,
        Num::AfterDecimalPoint => 4,
        Num::Exponent => 5,
        Num::ExponentSign => 6,
        Num::AfterExponent => 7,
    }
}

/// Number states in which a number may end.
pub open spec fn num_terminal(ns: Num) -> bool {
    ns == Num::LeadingZero || ns == Num::BeforeDecimalPoint || ns == Num::AfterDecimalPoint
        || ns == Num::AfterExponent
}

/// The bytes of a literal token.
pub open spec fn token_bytes(t: TokenType) -> Seq<u8> {
    match t {
        TokenType::True => seq![0x74u8, 0x72u8, 0x75u8, 0x65u8],
        TokenType::False => seq![0x66u8, 0x61u8, 0x6cu8, 0x73u8, 0x65u8],
        TokenType::Null => seq![0x6eu8, 0x75u8, 0x6cu8, 0x6cu8],
    }
}

pub open spec fn token_event(t: TokenType) -> EventToken {
    match t {
        TokenType::True => EventToken::True,
        TokenType::False => EventToken::False,
        TokenType::Null => EventToken::Null,
    }
}

/// Result of feeding one character to a literal token in progress: `Err` with
/// the completed token's event, `Ok(Some(..))` to go on, `Ok(None)` on a mismatch.
pub open spec fn spec_token_char(p: TokenProgress, ch: u8) -> Result<Option<TokenProgress>, EventToken> {
    let s = token_bytes(p.token_type);
    if p.position < s.len() && ch == s[p.position as int] {
        if p.position + 1 == s.len() {
            Err(token_event(p.token_type))
        } else {
            Ok(Some(TokenProgress { token_type: p.token_type, position: (p.position + 1) as usize }))
        }
    } else {
        Ok(None)
    }
}

// ---------------------------------------------------------------------------
// The nesting context
// ---------------------------------------------------------------------------

/// The mathematical view of the nesting context.
pub struct CtxView {
    /// Number of open containers, as the depth counter holds it.
    pub depth: nat,
    /// The bit stack (true: object, false: array), top first.
    pub bits: Seq<bool>,
    /// The last comma not yet followed by a value: (char, pos, line, column).
    pub after_comma: Option<(u8, usize, usize, usize)>,
}

pub open spec fn ctx_with_comma(c: CtxView, a: Option<(u8, usize, usize, usize)>) -> CtxView {
    CtxView { depth: c.depth, bits: c.bits, after_comma: a }
}

/// Entering a container of kind `kind` (true: object), with `dmax` the
/// largest depth the counter holds: `None` when the counter would overflow.
pub open spec fn ctx_enter(c: CtxView, kind: bool, dmax: nat) -> Option<CtxView> {
    if c.depth >= dmax {
        None
    } else {
        Some(CtxView { depth: c.depth + 1, bits: push_bits(c.bits, kind), after_comma: c.after_comma })
    }
}

/// Leaving a container: `None` when none is open.
pub open spec fn ctx_exit(c: CtxView) -> Option<CtxView> {
    if c.depth == 0 {
        None
    } else {
        Some(CtxView { depth: (c.depth - 1) as nat, bits: pop_bits(c.bits), after_comma: c.after_comma })
    }
}

pub open spec fn ctx_is_object(c: CtxView) -> bool {
    c.depth != 0 && top_bit(c.bits)
}

pub open spec fn ctx_is_array(c: CtxView) -> bool {
    c.depth != 0 && !top_bit(c.bits)
}

/// The state after a value ends.
pub open spec fn exit_level_state(c: CtxView) -> State {
    if ctx_is_object(c) {
        State::Object { expect: ObjectExpect::CommaOrEnd }
    } else if ctx_is_array(c) {
        State::Array { expect: ArrayExpect::CommaOrEnd }
    } else if c.depth == 0 {
        State::Finished
    } else {
        State::Idle
    }
}

/// The state after a comma.
pub open spec fn after_comma_state(c: CtxView) -> State {
    if ctx_is_object(c) {
        State::Object { expect: ObjectExpect::Key }
    } else if ctx_is_array(c) {
        State::Array { expect: ArrayExpect::ItemOrEnd }
    } else {
        State::Idle
    }
}

// ---------------------------------------------------------------------------
// One step of the state machine
// ---------------------------------------------------------------------------

/// The outcome of one byte: events emitted (in order) and either the next
/// state and context, or an error.
pub struct Trans {
    pub events: Seq<Event>,
    pub result: Result<(State, CtxView), Error>,
}

pub open spec fn ok_trans(events: Seq<Event>, st: State, c: CtxView) -> Trans {
    Trans { events, result: Ok((st, c)) }
}

pub open spec fn err_trans(events: Seq<Event>, kind: ErrKind, ch: u8, pos: usize, line: usize, col: usize) -> Trans {
    Trans { events, result: Err(mk_error(kind, ch, pos, Some(line), Some(col))) }
}

/// Closing an array: `events` are emitted first.
pub open spec fn close_array(events: Seq<Event>, c: CtxView, pos: usize, line: usize, col: usize) -> Trans {
    match ctx_exit(c) {
        None => err_trans(events, ErrKind::UnopenedArray, 0x5d, pos, line, col),
        Some(c2) => ok_trans(events, exit_level_state(c2), c2),
    }
}

/// Closing an object after a number: `events` are emitted first.
pub open spec fn close_object_after(events: Seq<Event>, c: CtxView, pos: usize, line: usize, col: usize) -> Trans {
    match ctx_exit(c) {
        None => err_trans(events, ErrKind::UnopenedObject, 0x7d, pos, line, col),
        Some(c2) => ok_trans(events, exit_level_state(c2), c2),
    }
}

/// Closing an object after a value or on an empty object: the end event
/// comes after the depth check.
pub open spec fn close_object(c: CtxView, pos: usize, line: usize, col: usize) -> Trans {
    match ctx_exit(c) {
        None => err_trans(Seq::empty(), ErrKind::UnopenedObject, 0x7d, pos, line, col),
        Some(c2) => ok_trans(seq![Event::ObjectEnd], exit_level_state(c2), c2),
    }
}

/// A byte while reading a number.
pub open spec fn spec_number(ns: Num, c: CtxView, ch: u8, pos: usize, line: usize, col: usize) -> Trans {
    match num_next(ns, ch) {
        Some(n) => ok_trans(Seq::empty(), State::Number { state: n }, c),
        None => if num_terminal(ns) {
            if ch == 0x2c {
                ok_trans(
                    seq![Event::End(EventToken::Number)],
                    after_comma_state(c),
                    ctx_with_comma(c, Some((ch, pos, line, col))),
                )
            } else if is_ws(ch) {
                ok_trans(seq![Event::End(EventToken::Number)], exit_level_state(c), c)
            } else if ch == 0x5d {
                close_array(seq![Event::End(EventToken::NumberAndArray), Event::ArrayEnd], c, pos, line, col)
            } else if ch == 0x7d {
                close_object_after(
                    seq![Event::End(EventToken::NumberAndObject), Event::ObjectEnd],
                    c,
                    pos,
                    line,
                    col,
                )
            } else {
                err_trans(Seq::empty(), ErrKind::InvalidNumber, ch, pos, line, col)
            }
        } else {
            err_trans(Seq::empty(), ErrKind::InvalidNumber, ch, pos, line, col)
        },
    }
}

/// A byte inside a string or key.
pub open spec fn spec_string(s: StrState, key: bool, c: CtxView, ch: u8, pos: usize, line: usize, col: usize) -> Trans {
    match s {
        StrState::Normal => if ch == 0x22 {
            if key {
                ok_trans(seq![Event::End(EventToken::Key)], State::Object { expect: ObjectExpect::Colon }, c)
            } else {
                ok_trans(seq![Event::End(EventToken::String)], exit_level_state(c), c)
            }
        } else if ch == 0x5c {
            ok_trans(
                seq![Event::Begin(EventToken::EscapeSequence)],
                State::String { state: StrState::Escaping, key },
                c,
            )
        } else if ch <= 0x1f {
            err_trans(Seq::empty(), ErrKind::UnescapedControlCharacter, ch, pos, line, col)
        } else {
            ok_trans(Seq::empty(), State::String { state: StrState::Normal, key }, c)
        },
        StrState::Escaping => match escape_token_of(ch) {
            Some(t) => ok_trans(
                seq![Event::Begin(t), Event::End(t)],
                State::String { state: StrState::Normal, key },
                c,
            ),
            None => if ch == 0x75 {
                ok_trans(Seq::empty(), State::String { state: StrState::Unicode0, key }, c)
            } else {
                err_trans(Seq::empty(), ErrKind::InvalidStringEscape, ch, pos, line, col)
            },
        },
        StrState::Unicode0 => if is_hex(ch) {
            ok_trans(
                seq![Event::Begin(EventToken::UnicodeEscape)],
                State::String { state: StrState::Unicode1, key },
                c,
            )
        } else {
            err_trans(Seq::empty(), ErrKind::InvalidUnicodeEscape, ch, pos, line, col)
        },
        StrState::Unicode1 => if is_hex(ch) {
            ok_trans(Seq::empty(), State::String { state: StrState::Unicode2, key }, c)
        } else {
            err_trans(Seq::empty(), ErrKind::InvalidUnicodeEscape, ch, pos, line, col)
        },
        StrState::Unicode2 => if is_hex(ch) {
            ok_trans(Seq::empty(), State::String { state: StrState::Unicode3, key }, c)
        } else {
            err_trans(Seq::empty(), ErrKind::InvalidUnicodeEscape, ch, pos, line, col)
        },
        StrState::Unicode3 => if is_hex(ch) {
            ok_trans(
                seq![Event::End(EventToken::UnicodeEscape)],
                State::String { state: StrState::Normal, key },
                c,
            )
        } else {
            err_trans(Seq::empty(), ErrKind::InvalidUnicodeEscape, ch, pos, line, col)
        },
    }
}

/// A byte inside a literal token.
pub open spec fn spec_token(p: TokenProgress, c: CtxView, ch: u8, pos: usize, line: usize, col: usize) -> Trans {
    match spec_token_char(p, ch) {
        Ok(Some(np)) => ok_trans(Seq::empty(), State::Token { token: np }, c),
        Ok(None) => err_trans(Seq::empty(), ErrKind::InvalidToken, ch, pos, line, col),
        Err(t) => ok_trans(seq![Event::End(t)], exit_level_state(c), c),
    }
}

/// States in which a value may start.
pub open spec fn value_start(st: State) -> bool {
    st == State::Idle || st == (State::Object { expect: ObjectExpect::Value }) || st
        == (State::Array { expect: ArrayExpect::ItemOrEnd })
}

/// Bytes that start a value.
pub open spec fn starts_value(ch: u8) -> bool {
    ch == 0x5b || ch == 0x7b || ch == 0x22 || ch == 0x74 || ch == 0x66 || ch == 0x6e || ch == 0x2d
        || is_digit(ch)
}

/// The first byte of a value.
pub open spec fn spec_value(c: CtxView, dmax: nat, ch: u8, pos: usize, line: usize, col: usize) -> Trans {
    if ch == 0x5b {
        match ctx_enter(c, false, dmax) {
            None => err_trans(Seq::empty(), ErrKind::MaxDepthReached, ch, pos, line, col),
            Some(c2) => ok_trans(seq![Event::ArrayStart], State::Array { expect: ArrayExpect::ItemOrEnd }, c2),
        }
    } else if ch == 0x7b {
        match ctx_enter(c, true, dmax) {
            None => err_trans(Seq::empty(), ErrKind::MaxDepthReached, ch, pos, line, col),
            Some(c2) => ok_trans(seq![Event::ObjectStart], State::Object { expect: ObjectExpect::Key }, c2),
        }
    } else if ch == 0x22 {
        ok_trans(
            seq![Event::Begin(EventToken::String)],
            State::String { state: StrState::Normal, key: false },
            c,
        )
    } else if ch == 0x74 {
        ok_trans(
            seq![Event::Begin(EventToken::True)],
            State::Token { token: TokenProgress { token_type: TokenType::True, position: 1 } },
            c,
        )
    } else if ch == 0x66 {
        ok_trans(
            seq![Event::Begin(EventToken::False)],
            State::Token { token: TokenProgress { token_type: TokenType::False, position: 1 } },
            c,
        )
    } else if ch == 0x6e {
        ok_trans(
            seq![Event::Begin(EventToken::Null)],
            State::Token { token: TokenProgress { token_type: TokenType::Null, position: 1 } },
            c,
        )
    } else if ch == 0x2d {
        ok_trans(seq![Event::Begin(EventToken::Number)], State::Number { state: Num::Sign }, c)
    } else if ch == 0x30 {
        ok_trans(seq![Event::Begin(EventToken::Number)], State::Number { state: Num::LeadingZero }, c)
    } else {
        ok_trans(
            seq![Event::Begin(EventToken::Number)],
            State::Number { state: Num::BeforeDecimalPoint },
            c,
        )
    }
}

/// A non-whitespace byte that does not start a value, outside strings,
/// numbers and literal tokens.
pub open spec fn spec_structural(st: State, c: CtxView, ch: u8, pos: usize, line: usize, col: usize) -> Trans {
    match st {
        State::Object { expect: ObjectExpect::Value } => err_trans(
            Seq::empty(),
            ErrKind::ExpectedObjectValue,
            ch,
            pos,
            line,
            col,
        ),
        State::Array { expect: ArrayExpect::ItemOrEnd } => if ch == 0x5d {
            close_array(seq![Event::ArrayEnd], c, pos, line, col)
        } else {
            err_trans(Seq::empty(), ErrKind::ExpectedArrayItem, ch, pos, line, col)
        },
        State::Object { expect: ObjectExpect::Key } => if ch == 0x22 {
            ok_trans(
                seq![Event::Begin(EventToken::Key)],
                State::String { state: StrState::Normal, key: true },
                c,
            )
        } else if ch == 0x7d {
            match c.after_comma {
                Some((cc, cp, cl, ccol)) => Trans {
                    events: Seq::empty(),
                    result: Err(mk_error(ErrKind::TrailingComma, cc, cp, Some(cl), Some(ccol))),
                },
                None => close_object(c, pos, line, col),
            }
        } else {
            err_trans(Seq::empty(), ErrKind::ExpectedObjectKey, ch, pos, line, col)
        },
        State::Object { expect: ObjectExpect::Colon } => if ch == 0x3a {
            ok_trans(Seq::empty(), State::Object { expect: ObjectExpect::Value }, ctx_with_comma(c, None))
        } else {
            err_trans(Seq::empty(), ErrKind::ExpectedColon, ch, pos, line, col)
        },
        State::Object { expect: ObjectExpect::CommaOrEnd } => if ch == 0x2c {
            ok_trans(
                Seq::empty(),
                State::Object { expect: ObjectExpect::Key },
                ctx_with_comma(c, Some((ch, pos, line, col))),
            )
        } else if ch == 0x7d {
            close_object(c, pos, line, col)
        } else {
            err_trans(Seq::empty(), ErrKind::ExpectedObjectValue, ch, pos, line, col)
        },
        State::Array { expect: ArrayExpect::CommaOrEnd } => if ch == 0x2c {
            ok_trans(
                Seq::empty(),
                State::Array { expect: ArrayExpect::ItemOrEnd },
                ctx_with_comma(c, Some((ch, pos, line, col))),
            )
        } else if ch == 0x5d {
            close_array(seq![Event::ArrayEnd], c, pos, line, col)
        } else {
            err_trans(Seq::empty(), ErrKind::ExpectedArrayItem, ch, pos, line, col)
        },
        State::Idle => err_trans(Seq::empty(), ErrKind::InvalidRoot, ch, pos, line, col),
        _ => err_trans(Seq::empty(), ErrKind::ContentEnded, ch, pos, line, col),
    }
}

/// The transition for one byte, once the trailing-comma check is passed.
pub open spec fn spec_core(st: State, c: CtxView, dmax: nat, ch: u8, pos: usize, line: usize, col: usize) -> Trans {
    match st {
        State::Number { state: ns } => spec_number(ns, c, ch, pos, line, col),
        State::String { state: s, key } => spec_string(s, key, c, ch, pos, line, col),
        State::Token { token: p } => spec_token(p, c, ch, pos, line, col),
        _ => if is_ws(ch) {
            ok_trans(Seq::empty(), st, c)
        } else if value_start(st) && starts_value(ch) {
            spec_value(c, dmax, ch, pos, line, col)
        } else {
            spec_structural(st, c, ch, pos, line, col)
        },
    }
}

/// The mathematical view of a tokenizer.
pub struct TokView {
    pub state: State,
    pub ctx: CtxView,
    pub line: usize,
    pub column: usize,
    pub total: usize,
}

/// The outcome of one or more bytes: the events (with their positions), the
/// tokenizer afterwards, and the error that stopped it, if any.
pub struct StepOut {
    pub events: Seq<(Event, usize)>,
    pub next: TokView,
    pub err: Option<Error>,
}

pub open spec fn pair_events(evs: Seq<Event>, pos: usize) -> Seq<(Event, usize)> {
    evs.map_values(|e: Event| (e, pos))
}

pub open spec fn sat_inc(x: usize) -> usize {
    if x == usize::MAX {
        x
    } else {
        (x + 1) as usize
    }
}

/// Line and column after reading `ch`.
pub open spec fn advance_line(line: usize, ch: u8) -> usize {
    if ch == 0x0a {
        sat_inc(line)
    } else {
        line
    }
}

pub open spec fn advance_column(column: usize, ch: u8) -> usize {
    if ch == 0x0a {
        1
    } else {
        sat_inc(column)
    }
}

/// The trailing-comma check made before each byte in an array that expects
/// an item: a `]` or `}` right after a comma is an error; any other
/// non-whitespace byte forgets the comma.
pub open spec fn spec_precheck(c: CtxView, ch: u8) -> Result<CtxView, Error> {
    match c.after_comma {
        Some((cc, cp, cl, ccol)) if ch == 0x5d || ch == 0x7d => Err(
            mk_error(ErrKind::TrailingComma, cc, cp, Some(cl), Some(ccol)),
        ),
        _ => Ok(
            if is_ws(ch) {
                c
            } else {
                ctx_with_comma(c, None)
            },
        ),
    }
}

/// The effect of the byte `ch` at position `pos` of the current chunk.
#[verifier::opaque]
pub open spec fn spec_step(v: TokView, dmax: nat, ch: u8, pos: usize) -> StepOut {
    let pre = if v.state == (State::Array { expect: ArrayExpect::ItemOrEnd }) {
        spec_precheck(v.ctx, ch)
    } else {
        Ok(v.ctx)
    };
    match pre {
        Err(e) => StepOut { events: Seq::empty(), next: v, err: Some(e) },
        Ok(c) => {
            let t = spec_core(v.state, c, dmax, ch, pos, v.line, v.column);
            match t.result {
                Err(e) => StepOut {
                    events: pair_events(t.events, pos),
                    next: TokView { state: v.state, ctx: c, line: v.line, column: v.column, total: v.total },
                    err: Some(e),
                },
                Ok((st, c2)) => StepOut {
                    events: pair_events(t.events, pos),
                    next: TokView {
                        state: st,
                        ctx: c2,
                        line: advance_line(v.line, ch),
                        column: advance_column(v.column, ch),
                        total: v.total,
                    },
                    err: None,
                },
            }
        },
    }
}

/// The effect of a chunk: each byte in turn, stopping at the first error.
pub open spec fn spec_run(v: TokView, dmax: nat, data: Seq<u8>) -> StepOut
    decreases data.len(),
{
    if data.len() == 0 {
        StepOut { events: Seq::empty(), next: v, err: None }
    } else {
        let prev = spec_run(v, dmax, data.drop_last());
        if prev.err is Some {
            prev
        } else {
            let o = spec_step(prev.next, dmax, data.last(), (data.len() - 1) as usize);
            StepOut { events: prev.events + o.events, next: o.next, err: o.err }
        }
    }
}

/// A chunk leaves the count of consumed bytes alone (the caller adds to it).
pub proof fn lemma_run_total(v: TokView, dmax: nat, data: Seq<u8>)
    ensures
        spec_run(v, dmax, data).next.total == v.total,
    decreases data.len(),
{
    if data.len() > 0 {
        lemma_run_total(v, dmax, data.drop_last());
        reveal(spec_step);
    }
}

/// Once a chunk's prefix has failed, the rest of the chunk changes nothing.
pub proof fn lemma_run_error_stable(v: TokView, dmax: nat, data: Seq<u8>, k: int)
    requires
        0 <= k <= data.len(),
        spec_run(v, dmax, data.take(k)).err is Some,
    ensures
        spec_run(v, dmax, data) == spec_run(v, dmax, data.take(k)),
    decreases data.len() - k,
{
    if k < data.len() {
        assert(data.take(k + 1).drop_last() =~= data.take(k));
        lemma_run_error_stable(v, dmax, data, k + 1);
    } else {
        assert(data.take(k) =~= data);
    }
}

// ---------------------------------------------------------------------------
// Executable code
// ---------------------------------------------------------------------------

struct ParseContext<T: BitBucket, D: DepthCounter> {
    /// Keeps track of the depth of the object/array
    depth: D,
    /// Keeps track of the stack of objects/arrays
    stack: T,
    /// Keeps track of the last comma and its position (char, pos, line, col)
    after_comma: Option<(u8, usize, usize, usize)>,
}

impl<T: BitBucket, D: DepthCounter> ParseContext<T, D> {
    spec fn view(&self) -> CtxView {
        CtxView { depth: self.depth.count(), bits: self.stack.bits(), after_comma: self.after_comma }
    }

    fn new() -> (r: Self)
        ensures
            r.view() == (CtxView { depth: 0, bits: clear_bits(T::capacity()), after_comma: None }),
    {
        ParseContext { depth: D::zero(), stack: T::default(), after_comma: None }
    }

    fn enter(&mut self, kind: bool, data: u8, pos: usize, line: usize, column: usize) -> (r: Result<(), Error>)
        ensures
            match ctx_enter(old(self).view(), kind, D::max_count()) {
                None => r == Err::<(), Error>(mk_error(ErrKind::MaxDepthReached, data, pos, Some(line), Some(column)))
                    && final(self).view() == old(self).view(),
                Some(c2) => r is Ok && final(self).view() == c2,
            },
    {
        proof {
            D::lemma_count_bound(self.depth);
        }
        let (new_depth, overflow) = self.depth.increment();
        if overflow {
            return Error::new(ErrKind::MaxDepthReached, data, pos, Some(line), Some(column));
        }
        self.stack.push(kind);
        self.depth = new_depth;
        Ok(())
    }

    fn enter_object(&mut self, data: u8, pos: usize, line: usize, column: usize) -> (r: Result<(), Error>)
        ensures
            match ctx_enter(old(self).view(), true, D::max_count()) {
                None => r == Err::<(), Error>(mk_error(ErrKind::MaxDepthReached, data, pos, Some(line), Some(column)))
                    && final(self).view() == old(self).view(),
                Some(c2) => r is Ok && final(self).view() == c2,
            },
    {
        self.enter(true, data, pos, line, column)
    }

    fn enter_array(&mut self, data: u8, pos: usize, line: usize, column: usize) -> (r: Result<(), Error>)
        ensures
            match ctx_enter(old(self).view(), false, D::max_count()) {
                None => r == Err::<(), Error>(mk_error(ErrKind::MaxDepthReached, data, pos, Some(line), Some(column)))
                    && final(self).view() == old(self).view(),
                Some(c2) => r is Ok && final(self).view() == c2,
            },
    {
        self.enter(false, data, pos, line, column)
    }

    fn exit(&mut self) -> (r: bool)
        ensures
            match ctx_exit(old(self).view()) {
                None => !r && final(self).view() == old(self).view(),
                Some(c2) => r && final(self).view() == c2,
            },
    {
        if self.depth.is_zero() {
            return false;
        }
        self.stack.pop();
        let (new_depth, _underflow) = self.depth.decrement();
        self.depth = new_depth;
        true
    }

    fn exit_object(&mut self, pos: usize, line: usize, column: usize) -> (r: Result<(), Error>)
        ensures
            match ctx_exit(old(self).view()) {
                None => r == Err::<(), Error>(mk_error(ErrKind::UnopenedObject, 0x7d, pos, Some(line), Some(column)))
                    && final(self).view() == old(self).view(),
                Some(c2) => r is Ok && final(self).view() == c2,
            },
    {
        if self.exit() {
            Ok(())
        } else {
            Error::new(ErrKind::UnopenedObject, 0x7d, pos, Some(line), Some(column))
        }
    }

    fn exit_array(&mut self, pos: usize, line: usize, column: usize) -> (r: Result<(), Error>)
        ensures
            match ctx_exit(old(self).view()) {
                None => r == Err::<(), Error>(mk_error(ErrKind::UnopenedArray, 0x5d, pos, Some(line), Some(column)))
                    && final(self).view() == old(self).view(),
                Some(c2) => r is Ok && final(self).view() == c2,
            },
    {
        if self.exit() {
            Ok(())
        } else {
            Error::new(ErrKind::UnopenedArray, 0x5d, pos, Some(line), Some(column))
        }
    }

    fn is_object(&self) -> (r: bool)
        ensures
            r == ctx_is_object(self.view()),
    {
        if self.depth.is_zero() {
            return false;
        }
        self.stack.top()
    }

    fn is_array(&self) -> (r: bool)
        ensures
            r == ctx_is_array(self.view()),
    {
        if self.depth.is_zero() {
            return false;
        }
        !self.stack.top()
    }
}

impl TokenType {
    /// Number of bytes in the token.
    fn token_len(&self) -> (r: usize)
        ensures
            r == token_bytes(*self).len(),
    {
        match self {
            TokenType::True => 4,
            TokenType::False => 5,
            TokenType::Null => 4,
        }
    }

    /// The token's byte at index `i`.
    fn token_byte(&self, i: usize) -> (r: u8)
        requires
            i < token_bytes(*self).len(),
        ensures
            r == token_bytes(*self)[i as int],
    {
        match self {
            TokenType::True => if i == 0 {
                0x74
            } else if i == 1 {
                0x72
            } else if i == 2 {
                0x75
            } else {
                0x65
            },
            TokenType::False => if i == 0 {
                0x66
            } else if i == 1 {
                0x61
            } else if i == 2 {
                0x6c
            } else if i == 3 {
                0x73
            } else {
                0x65
            },
            TokenType::Null => if i == 0 {
                0x6e
            } else if i == 1 {
                0x75
            } else {
                0x6c
            },
        }
    }

    fn as_event_token(&self) -> (r: EventToken)
        ensures
            r == token_event(*self),
    {
        match self {
            TokenType::True => EventToken::True,
            TokenType::False => EventToken::False,
            TokenType::Null => EventToken::Null,
        }
    }
}

/// Process a token character: `Err` with the event token when the token is
/// complete, `Ok(Some(..))` to continue, `Ok(None)` on a mismatch.
fn process_token_char(progress: &TokenProgress, ch: u8) -> (r: Result<Option<TokenProgress>, EventToken>)
    ensures
        r == spec_token_char(*progress, ch),
{
    let len = progress.token_type.token_len();
    if progress.position < len && ch == progress.token_type.token_byte(progress.position) {
        let new_position = progress.position + 1;
        if new_position == len {
            Err(progress.token_type.as_event_token())
        } else {
            Ok(Some(TokenProgress { token_type: progress.token_type, position: new_position }))
        }
    } else {
        Ok(None)
    }
}

fn is_whitespace(b: u8) -> (r: bool)
    ensures
        r == is_ws(b),
{
    b == 0x20 || b == 0x09 || b == 0x0a || b == 0x0d
}

fn is_hex_digit(b: u8) -> (r: bool)
    ensures
        r == is_hex(b),
{
    (0x30 <= b && b <= 0x39) || (0x61 <= b && b <= 0x66) || (0x41 <= b && b <= 0x46)
}

fn escape_token(b: u8) -> (r: Option<EventToken>)
    ensures
        r == escape_token_of(b),
{
    match b {
        0x22 => Some(EventToken::EscapeQuote),
        0x5c => Some(EventToken::EscapeBackslash),
        0x2f => Some(EventToken::EscapeSlash),
        0x62 => Some(EventToken::EscapeBackspace),
        0x66 => Some(EventToken::EscapeFormFeed),
        0x6e => Some(EventToken::EscapeNewline),
        0x72 => Some(EventToken::EscapeCarriageReturn),
        0x74 => Some(EventToken::EscapeTab),
        _ => None,
    }
}

fn emit(events: &mut Vec<(Event, usize)>, e: Event, pos: usize)
    ensures
        final(events)@ == old(events)@.push((e, pos)),
{
    events.push((e, pos));
}

/// Low-level JSON tokenizer that tracks parsing state and line/column positions.
///
/// Events are appended, with their position in the current chunk, to the
/// vector that each call takes.
pub struct Tokenizer<T: BitBucket = u32, D: DepthCounter = u8> {
    state: State,
    total_consumed: usize,
    context: ParseContext<T, D>,
    line: usize,
    column: usize,
}

/// The tokenizer a fresh [`Tokenizer::new`] gives.
pub open spec fn initial_view(cap: nat) -> TokView {
    TokView {
        state: State::Idle,
        ctx: CtxView { depth: 0, bits: clear_bits(cap), after_comma: None },
        line: 1,
        column: 1,
        total: 0,
    }
}

/// What [`Tokenizer::finish`] gives for a tokenizer in view `v`: the events
/// emitted and the result.
pub open spec fn spec_finish(v: TokView) -> (Seq<(Event, usize)>, Result<usize, Error>) {
    let unfinished = Err(mk_error(ErrKind::UnfinishedStream, 0x20, v.total, Some(v.line), Some(v.column)));
    if v.ctx.depth != 0 {
        (Seq::empty(), unfinished)
    } else if v.total == 0 {
        (Seq::empty(), Err(mk_error(ErrKind::EmptyStream, 0x20, v.total, Some(v.line), Some(v.column))))
    } else {
        match v.state {
            State::Finished => (Seq::empty(), Ok(v.total)),
            State::Number { state: ns } => if num_terminal(ns) {
                (seq![(Event::End(EventToken::Number), v.total)], Ok(v.total))
            } else {
                (Seq::empty(), unfinished)
            },
            _ => (Seq::empty(), unfinished),
        }
    }
}

impl<T: BitBucket, D: DepthCounter> Tokenizer<T, D> {
    /// The tokenizer's mathematical view.
    pub closed spec fn view(&self) -> TokView {
        TokView {
            state: self.state,
            ctx: self.context.view(),
            line: self.line,
            column: self.column,
            total: self.total_consumed,
        }
    }

    /// Creates a new tokenizer initialized at line 1, column 1.
    pub fn new() -> (r: Self)
        ensures
            r.view() == initial_view(T::capacity()),
    {
        Tokenizer { state: State::Idle, total_consumed: 0, context: ParseContext::new(), line: 1, column: 1 }
    }

    /// The number grammar's transition table.
    fn num_to_index(num: Num) -> (r: usize)
        ensures
            r == num_index(num),
    {
        match num {
            Num::Sign => 0,
            Num::LeadingZero => 1,
            Num::BeforeDecimalPoint => 2,
            Num::Decimal => 3,
            Num::AfterDecimalPoint => 4,
            Num::Exponent => 5,
            Num::ExponentSign => 6,
            Num::AfterExponent => 7,
        }
    }

    /// Number state transition.
    fn process_number_transition(&self, current_num: &Num, ch: u8) -> (r: Option<Num>)
        ensures
            r == num_next(*current_num, ch),
    {
        let digit = 0x30 <= ch && ch <= 0x39;
        let exp = ch == 0x65 || ch == 0x45;
        match Self::num_to_index(*current_num) {
            0 => if ch == 0x30 {
                Some(Num::LeadingZero)
            } else if 0x31 <= ch && ch <= 0x39 {
                Some(Num::BeforeDecimalPoint)
            } else {
                None
            },
            1 => if ch == 0x2e {
                Some(Num::Decimal)
            } else if exp {
                Some(Num::Exponent)
            } else {
                None
            },
            2 => if digit {
                Some(Num::BeforeDecimalPoint)
            } else if ch == 0x2e {
                Some(Num::Decimal)
            } else if exp {
                Some(Num::Exponent)
            } else {
                None
            },
            3 => if digit {
                Some(Num::AfterDecimalPoint)
            } else {
                None
            },
            4 => if digit {
                Some(Num::AfterDecimalPoint)
            } else if exp {
                Some(Num::Exponent)
            } else {
                None
            },
            5 => if digit {
                Some(Num::AfterExponent)
            } else if ch == 0x2b || ch == 0x2d {
                Some(Num::ExponentSign)
            } else {
                None
            },
            _ => if digit {
                Some(Num::AfterExponent)
            } else {
                None
            },
        }
    }

    /// Whether a number may end in this state.
    fn is_valid_number_terminal_state(num_state: Num) -> (r: bool)
        ensures
            r == num_terminal(num_state),
    {
        match num_state {
            Num::LeadingZero | Num::BeforeDecimalPoint | Num::AfterDecimalPoint | Num::AfterExponent => true,
            Num::Sign | Num::Decimal | Num::Exponent | Num::ExponentSign => false,
        }
    }

    /// The trailing-comma check made in an array that expects an item.
    fn check_trailing_comma(&mut self, data: u8, _line: usize, _column: usize) -> (r: Result<(), Error>)
        ensures
            match spec_precheck(old(self).view().ctx, data) {
                Err(e) => r == Err::<(), Error>(e) && final(self).view() == old(self).view(),
                Ok(c) => r is Ok && final(self).view() == (TokView { ctx: c, ..old(self).view() }),
            },
    {
        if let Some((c, pos, comma_line, comma_column)) = self.context.after_comma {
            if data == 0x5d || data == 0x7d {
                return Error::new(ErrKind::TrailingComma, c, pos, Some(comma_line), Some(comma_column));
            }
        }
        if !is_whitespace(data) {
            self.context.after_comma = None;
        }
        Ok(())
    }

    /// The state after a value ends.
    fn maybe_exit_level(&self) -> (r: State)
        ensures
            r == exit_level_state(self.view().ctx),
    {
        if self.context.is_object() {
            State::Object { expect: ObjectExpect::CommaOrEnd }
        } else if self.context.is_array() {
            State::Array { expect: ArrayExpect::CommaOrEnd }
        } else if self.context.depth.is_zero() {
            State::Finished
        } else {
            State::Idle
        }
    }

    /// The state after a comma.
    fn saw_a_comma_now_what(&mut self) -> (r: State)
        ensures
            r == after_comma_state(old(self).view().ctx),
            *final(self) == *old(self),
    {
        if self.context.is_object() {
            State::Object { expect: ObjectExpect::Key }
        } else if self.context.is_array() {
            State::Array { expect: ArrayExpect::ItemOrEnd }
        } else {
            State::Idle
        }
    }

    /// Runs the transition `t` computed for this byte: `events` got its events
    /// and the context its new value.
    spec fn applied(&self, old_self: Self, t: Trans, old_events: Seq<(Event, usize)>, events: Seq<(Event, usize)>, pos: usize, r: Result<State, Error>) -> bool {
        &&& events == old_events + pair_events(t.events, pos)
        &&& self.state == old_self.state
        &&& self.line == old_self.line
        &&& self.column == old_self.column
        &&& self.total_consumed == old_self.total_consumed
        &&& match t.result {
            Ok((st, c)) => r == Ok::<State, Error>(st) && self.context.view() == c,
            Err(e) => r == Err::<State, Error>(e) && self.context.view() == old_self.context.view(),
        }
    }

    fn number_byte(&mut self, ns: Num, ch: u8, pos: usize, line: usize, col: usize, events: &mut Vec<(Event, usize)>) -> (r: Result<State, Error>)
        ensures
            final(self).applied(*old(self), spec_number(ns, old(self).context.view(), ch, pos, line, col), old(events)@, final(events)@, pos, r),
    {
        let ghost evs0 = events@;
        if let Some(next_state) = self.process_number_transition(&ns, ch) {
            proof {
                assert(pair_events(Seq::<Event>::empty(), pos) =~= Seq::<(Event, usize)>::empty());
                assert(events@ =~= evs0 + pair_events(Seq::<Event>::empty(), pos));
            }
            return Ok(State::Number { state: next_state });
        }
        if !Self::is_valid_number_terminal_state(ns) {
            proof {
                assert(events@ =~= evs0 + pair_events(Seq::<Event>::empty(), pos));
            }
            return Error::new(ErrKind::InvalidNumber, ch, pos, Some(line), Some(col));
        }
        if ch == 0x2c {
            emit(events, Event::End(EventToken::Number), pos);
            self.context.after_comma = Some((ch, pos, line, col));
            let st = self.saw_a_comma_now_what();
            proof {
                assert(events@ =~= evs0 + pair_events(seq![Event::End(EventToken::Number)], pos));
            }
            Ok(st)
        } else if is_whitespace(ch) {
            emit(events, Event::End(EventToken::Number), pos);
            proof {
                assert(events@ =~= evs0 + pair_events(seq![Event::End(EventToken::Number)], pos));
            }
            Ok(self.maybe_exit_level())
        } else if ch == 0x5d {
            emit(events, Event::End(EventToken::NumberAndArray), pos);
            emit(events, Event::ArrayEnd, pos);
            proof {
                assert(events@ =~= evs0 + pair_events(seq![Event::End(EventToken::NumberAndArray), Event::ArrayEnd], pos));
            }
            match self.context.exit_array(pos, line, col) {
                Err(e) => Err(e),
                Ok(()) => Ok(self.maybe_exit_level()),
            }
        } else if ch == 0x7d {
            emit(events, Event::End(EventToken::NumberAndObject), pos);
            emit(events, Event::ObjectEnd, pos);
            proof {
                assert(events@ =~= evs0 + pair_events(seq![Event::End(EventToken::NumberAndObject), Event::ObjectEnd], pos));
            }
            match self.context.exit_object(pos, line, col) {
                Err(e) => Err(e),
                Ok(()) => Ok(self.maybe_exit_level()),
            }
        } else {
            proof {
                assert(events@ =~= evs0 + pair_events(Seq::<Event>::empty(), pos));
            }
            Error::new(ErrKind::InvalidNumber, ch, pos, Some(line), Some(col))
        }
    }

    fn string_byte(&mut self, s: StrState, key: bool, ch: u8, pos: usize, line: usize, col: usize, events: &mut Vec<(Event, usize)>) -> (r: Result<State, Error>)
        ensures
            final(self).applied(*old(self), spec_string(s, key, old(self).context.view(), ch, pos, line, col), old(events)@, final(events)@, pos, r),
    {
        let ghost evs0 = events@;
        proof {
            assert(pair_events(Seq::<Event>::empty(), pos) =~= Seq::<(Event, usize)>::empty());
            assert(evs0 =~= evs0 + pair_events(Seq::<Event>::empty(), pos));
        }
        match s {
            StrState::Normal => {
                if ch == 0x22 {
                    if key {
                        emit(events, Event::End(EventToken::Key), pos);
                        proof {
                            assert(events@ =~= evs0 + pair_events(seq![Event::End(EventToken::Key)], pos));
                        }
                        Ok(State::Object { expect: ObjectExpect::Colon })
                    } else {
                        emit(events, Event::End(EventToken::String), pos);
                        proof {
                            assert(events@ =~= evs0 + pair_events(seq![Event::End(EventToken::String)], pos));
                        }
                        Ok(self.maybe_exit_level())
                    }
                } else if ch == 0x5c {
                    emit(events, Event::Begin(EventToken::EscapeSequence), pos);
                    proof {
                        assert(events@ =~= evs0 + pair_events(seq![Event::Begin(EventToken::EscapeSequence)], pos));
                    }
                    Ok(State::String { state: StrState::Escaping, key })
                } else if ch <= 0x1f {
                    Error::new(ErrKind::UnescapedControlCharacter, ch, pos, Some(line), Some(col))
                } else {
                    Ok(State::String { state: StrState::Normal, key })
                }
            },
            StrState::Escaping => {
                if let Some(escape_tok) = escape_token(ch) {
                    emit(events, Event::Begin(escape_tok), pos);
                    emit(events, Event::End(escape_tok), pos);
                    proof {
                        assert(events@ =~= evs0 + pair_events(seq![Event::Begin(escape_tok), Event::End(escape_tok)], pos));
                    }
                    Ok(State::String { state: StrState::Normal, key })
                } else if ch == 0x75 {
                    Ok(State::String { state: StrState::Unicode0, key })
                } else {
                    Error::new(ErrKind::InvalidStringEscape, ch, pos, Some(line), Some(col))
                }
            },
            StrState::Unicode0 => {
                if is_hex_digit(ch) {
                    emit(events, Event::Begin(EventToken::UnicodeEscape), pos);
                    proof {
                        assert(events@ =~= evs0 + pair_events(seq![Event::Begin(EventToken::UnicodeEscape)], pos));
                    }
                    Ok(State::String { state: StrState::Unicode1, key })
                } else {
                    Error::new(ErrKind::InvalidUnicodeEscape, ch, pos, Some(line), Some(col))
                }
            },
            StrState::Unicode1 => {
                if is_hex_digit(ch) {
                    Ok(State::String { state: StrState::Unicode2, key })
                } else {
                    Error::new(ErrKind::InvalidUnicodeEscape, ch, pos, Some(line), Some(col))
                }
            },
            StrState::Unicode2 => {
                if is_hex_digit(ch) {
                    Ok(State::String { state: StrState::Unicode3, key })
                } else {
                    Error::new(ErrKind::InvalidUnicodeEscape, ch, pos, Some(line), Some(col))
                }
            },
            StrState::Unicode3 => {
                if is_hex_digit(ch) {
                    emit(events, Event::End(EventToken::UnicodeEscape), pos);
                    proof {
                        assert(events@ =~= evs0 + pair_events(seq![Event::End(EventToken::UnicodeEscape)], pos));
                    }
                    Ok(State::String { state: StrState::Normal, key })
                } else {
                    Error::new(ErrKind::InvalidUnicodeEscape, ch, pos, Some(line), Some(col))
                }
            },
        }
    }

    fn token_byte(&mut self, p: TokenProgress, ch: u8, pos: usize, line: usize, col: usize, events: &mut Vec<(Event, usize)>) -> (r: Result<State, Error>)
        ensures
            final(self).applied(*old(self), spec_token(p, old(self).context.view(), ch, pos, line, col), old(events)@, final(events)@, pos, r),
    {
        let ghost evs0 = events@;
        proof {
            assert(evs0 =~= evs0 + pair_events(Seq::<Event>::empty(), pos));
        }
        match process_token_char(&p, ch) {
            Ok(Some(new_progress)) => Ok(State::Token { token: new_progress }),
            Ok(None) => Error::new(ErrKind::InvalidToken, ch, pos, Some(line), Some(col)),
            Err(event_token) => {
                emit(events, Event::End(event_token), pos);
                proof {
                    assert(events@ =~= evs0 + pair_events(seq![Event::End(event_token)], pos));
                }
                Ok(self.maybe_exit_level())
            },
        }
    }

    /// Starts a literal token.
    fn start_token(&mut self, token: u8, pos: usize, line: usize, column: usize, events: &mut Vec<(Event, usize)>) -> (r: Result<State, Error>)
        requires
            token == 0x74 || token == 0x66 || token == 0x6e,
        ensures
            final(self).applied(*old(self), spec_value(old(self).context.view(), D::max_count(), token, pos, line, column), old(events)@, final(events)@, pos, r),
    {
        let ghost evs0 = events@;
        let token_type = if token == 0x74 {
            emit(events, Event::Begin(EventToken::True), pos);
            TokenType::True
        } else if token == 0x66 {
            emit(events, Event::Begin(EventToken::False), pos);
            TokenType::False
        } else {
            emit(events, Event::Begin(EventToken::Null), pos);
            TokenType::Null
        };
        proof {
            assert(events@ =~= evs0 + pair_events(seq![Event::Begin(token_event(token_type))], pos));
        }
        Ok(State::Token { token: TokenProgress { token_type, position: 1 } })
    }

    fn value_byte(&mut self, ch: u8, pos: usize, line: usize, col: usize, events: &mut Vec<(Event, usize)>) -> (r: Result<State, Error>)
        requires
            starts_value(ch),
        ensures
            final(self).applied(*old(self), spec_value(old(self).context.view(), D::max_count(), ch, pos, line, col), old(events)@, final(events)@, pos, r),
    {
        let ghost evs0 = events@;
        proof {
            assert(evs0 =~= evs0 + pair_events(Seq::<Event>::empty(), pos));
        }
        if ch == 0x5b {
            match self.context.enter_array(ch, pos, line, col) {
                Err(e) => Err(e),
                Ok(()) => {
                    emit(events, Event::ArrayStart, pos);
                    proof {
                        assert(events@ =~= evs0 + pair_events(seq![Event::ArrayStart], pos));
                    }
                    Ok(State::Array { expect: ArrayExpect::ItemOrEnd })
                },
            }
        } else if ch == 0x7b {
            match self.context.enter_object(ch, pos, line, col) {
                Err(e) => Err(e),
                Ok(()) => {
                    emit(events, Event::ObjectStart, pos);
                    proof {
                        assert(events@ =~= evs0 + pair_events(seq![Event::ObjectStart], pos));
                    }
                    Ok(State::Object { expect: ObjectExpect::Key })
                },
            }
        } else if ch == 0x22 {
            emit(events, Event::Begin(EventToken::String), pos);
            proof {
                assert(events@ =~= evs0 + pair_events(seq![Event::Begin(EventToken::String)], pos));
            }
            Ok(State::String { state: StrState::Normal, key: false })
        } else if ch == 0x74 || ch == 0x66 || ch == 0x6e {
            self.start_token(ch, pos, line, col, events)
        } else {
            emit(events, Event::Begin(EventToken::Number), pos);
            proof {
                assert(events@ =~= evs0 + pair_events(seq![Event::Begin(EventToken::Number)], pos));
            }
            if ch == 0x2d {
                Ok(State::Number { state: Num::Sign })
            } else if ch == 0x30 {
                Ok(State::Number { state: Num::LeadingZero })
            } else {
                Ok(State::Number { state: Num::BeforeDecimalPoint })
            }
        }
    }

    fn structural_byte(&mut self, ch: u8, pos: usize, line: usize, col: usize, events: &mut Vec<(Event, usize)>) -> (r: Result<State, Error>)
        ensures
            final(self).applied(*old(self), spec_structural(old(self).state, old(self).context.view(), ch, pos, line, col), old(events)@, final(events)@, pos, r),
    {
        let ghost evs0 = events@;
        proof {
            assert(evs0 =~= evs0 + pair_events(Seq::<Event>::empty(), pos));
        }
        match self.state {
            State::Object { expect: ObjectExpect::Value } => {
                Error::new(ErrKind::ExpectedObjectValue, ch, pos, Some(line), Some(col))
            },
            State::Array { expect: ArrayExpect::ItemOrEnd } => {
                if ch == 0x5d {
                    emit(events, Event::ArrayEnd, pos);
                    proof {
                        assert(events@ =~= evs0 + pair_events(seq![Event::ArrayEnd], pos));
                    }
                    match self.context.exit_array(pos, line, col) {
                        Err(e) => Err(e),
                        Ok(()) => Ok(self.maybe_exit_level()),
                    }
                } else {
                    Error::new(ErrKind::ExpectedArrayItem, ch, pos, Some(line), Some(col))
                }
            },
            State::Object { expect: ObjectExpect::Key } => {
                if ch == 0x22 {
                    emit(events, Event::Begin(EventToken::Key), pos);
                    proof {
                        assert(events@ =~= evs0 + pair_events(seq![Event::Begin(EventToken::Key)], pos));
                    }
                    Ok(State::String { state: StrState::Normal, key: true })
                } else if ch == 0x7d {
                    if let Some((comma_char, comma_pos, comma_line, comma_column)) = self.context.after_comma {
                        return Error::new(ErrKind::TrailingComma, comma_char, comma_pos, Some(comma_line), Some(comma_column));
                    }
                    match self.context.exit_object(pos, line, col) {
                        Err(e) => Err(e),
                        Ok(()) => {
                            emit(events, Event::ObjectEnd, pos);
                            proof {
                                assert(events@ =~= evs0 + pair_events(seq![Event::ObjectEnd], pos));
                            }
                            Ok(self.maybe_exit_level())
                        },
                    }
                } else {
                    Error::new(ErrKind::ExpectedObjectKey, ch, pos, Some(line), Some(col))
                }
            },
            State::Object { expect: ObjectExpect::Colon } => {
                if ch == 0x3a {
                    // Reset the comma so nested containers do not see a false trailing comma
                    self.context.after_comma = None;
                    Ok(State::Object { expect: ObjectExpect::Value })
                } else {
                    Error::new(ErrKind::ExpectedColon, ch, pos, Some(line), Some(col))
                }
            },
            State::Object { expect: ObjectExpect::CommaOrEnd } => {
                if ch == 0x2c {
                    self.context.after_comma = Some((ch, pos, line, col));
                    Ok(State::Object { expect: ObjectExpect::Key })
                } else if ch == 0x7d {
                    match self.context.exit_object(pos, line, col) {
                        Err(e) => Err(e),
                        Ok(()) => {
                            emit(events, Event::ObjectEnd, pos);
                            proof {
                                assert(events@ =~= evs0 + pair_events(seq![Event::ObjectEnd], pos));
                            }
                            Ok(self.maybe_exit_level())
                        },
                    }
                } else {
                    Error::new(ErrKind::ExpectedObjectValue, ch, pos, Some(line), Some(col))
                }
            },
            State::Array { expect: ArrayExpect::CommaOrEnd } => {
                if ch == 0x2c {
                    self.context.after_comma = Some((ch, pos, line, col));
                    Ok(State::Array { expect: ArrayExpect::ItemOrEnd })
                } else if ch == 0x5d {
                    emit(events, Event::ArrayEnd, pos);
                    proof {
                        assert(events@ =~= evs0 + pair_events(seq![Event::ArrayEnd], pos));
                    }
                    match self.context.exit_array(pos, line, col) {
                        Err(e) => Err(e),
                        Ok(()) => Ok(self.maybe_exit_level()),
                    }
                } else {
                    Error::new(ErrKind::ExpectedArrayItem, ch, pos, Some(line), Some(col))
                }
            },
            State::Idle => Error::new(ErrKind::InvalidRoot, ch, pos, Some(line), Some(col)),
            _ => Error::new(ErrKind::ContentEnded, ch, pos, Some(line), Some(col)),
        }
    }

    /// Processes one byte at position `pos` of the current chunk.
    fn step(&mut self, ch: u8, pos: usize, events: &mut Vec<(Event, usize)>) -> (r: Result<(), Error>)
        ensures
            ({
                let o = spec_step(old(self).view(), D::max_count(), ch, pos);
                &&& final(events)@ == old(events)@ + o.events
                &&& final(self).view() == o.next
                &&& match o.err {
                    None => r is Ok,
                    Some(e) => r == Err::<(), Error>(e),
                }
            }),
    {
        // Capture current line and column for error reporting
        let current_line = self.line;
        let current_column = self.column;
        let ghost v0 = self.view();
        let ghost evs0 = events@;
        proof {
            reveal(spec_step);
        }

        if let State::Array { expect: ArrayExpect::ItemOrEnd } = self.state {
            match self.check_trailing_comma(ch, current_line, current_column) {
                Err(e) => {
                    proof {
                        assert(events@ =~= evs0 + Seq::<(Event, usize)>::empty());
                    }
                    return Err(e);
                },
                Ok(()) => {},
            }
        }
        let ghost v1 = self.view();
        let ghost c = v1.ctx;
        let ghost t = spec_core(v0.state, c, D::max_count(), ch, pos, current_line, current_column);

        let res = match self.state {
            State::Number { state: ns } => self.number_byte(ns, ch, pos, current_line, current_column, events),
            State::String { state: s, key } => self.string_byte(s, key, ch, pos, current_line, current_column, events),
            State::Token { token: p } => self.token_byte(p, ch, pos, current_line, current_column, events),
            _ => {
                if is_whitespace(ch) {
                    proof {
                        assert(events@ =~= evs0 + pair_events(Seq::<Event>::empty(), pos));
                    }
                    Ok(self.state)
                } else if (matches!(self.state, State::Idle) || matches!(self.state, State::Object { expect: ObjectExpect::Value })
                    || matches!(self.state, State::Array { expect: ArrayExpect::ItemOrEnd }))
                    && (ch == 0x5b || ch == 0x7b || ch == 0x22 || ch == 0x74 || ch == 0x66 || ch == 0x6e || ch == 0x2d
                    || (0x30 <= ch && ch <= 0x39)) {
                    self.value_byte(ch, pos, current_line, current_column, events)
                } else {
                    self.structural_byte(ch, pos, current_line, current_column, events)
                }
            },
        };
        match res {
            Err(e) => Err(e),
            Ok(st) => {
                self.state = st;
                // Update line and column tracking with panic-free math
                if ch == 0x0a {
                    self.line = self.line.saturating_add(1);
                    self.column = 1;
                } else {
                    self.column = self.column.saturating_add(1);
                }
                Ok(())
            },
        }
    }

    fn parse_chunk_inner(&mut self, data: &[u8], events: &mut Vec<(Event, usize)>) -> (r: Result<usize, Error>)
        ensures
            ({
                let o = spec_run(old(self).view(), D::max_count(), data@);
                &&& final(events)@ == old(events)@ + o.events
                &&& final(self).view() == o.next
                &&& match o.err {
                    None => r == Ok::<usize, Error>(data.len()),
                    Some(e) => r == Err::<usize, Error>(e),
                }
            }),
    {
        let ghost v0 = self.view();
        let ghost evs0 = events@;
        let mut pos: usize = 0;
        let mut failure: Option<Error> = None;
        proof {
            assert(data@.take(data@.len() as int) =~= data@);
            assert(data@.take(0) =~= Seq::<u8>::empty());
            assert(events@ =~= evs0 + Seq::<(Event, usize)>::empty());
        }
        while pos < data.len()
            invariant_except_break
                pos <= data@.len(),
                failure is None,
                data@.take(data@.len() as int) == data@,
                ({
                    let o = spec_run(v0, D::max_count(), data@.take(pos as int));
                    &&& o.err is None
                    &&& self.view() == o.next
                    &&& events@ == evs0 + o.events
                }),
            ensures
                ({
                    let o = spec_run(v0, D::max_count(), data@);
                    &&& self.view() == o.next
                    &&& events@ == evs0 + o.events
                    &&& o.err == failure
                    &&& (failure is None ==> pos == data@.len())
                }),
            decreases data@.len() - pos,
        {
            let current_byte = data[pos];
            let ghost prev = spec_run(v0, D::max_count(), data@.take(pos as int));
            let res = self.step(current_byte, pos, events);
            let ghost o = spec_step(prev.next, D::max_count(), current_byte, pos);
            let ghost next_run = spec_run(v0, D::max_count(), data@.take(pos + 1));
            proof {
                assert(data@.take(pos + 1).drop_last() =~= data@.take(pos as int));
                assert(data@.take(pos + 1).last() == current_byte);
                assert(next_run == StepOut { events: prev.events + o.events, next: o.next, err: o.err });
                assert(events@ =~= evs0 + (prev.events + o.events));
            }
            match res {
                Err(e) => {
                    proof {
                        assert(o.err == Some(e));
                        lemma_run_error_stable(v0, D::max_count(), data@, pos + 1);
                    }
                    failure = Some(e);
                    break;
                },
                Ok(()) => {},
            }
            pos = pos + 1;
            proof {
                if pos == data.len() {
                    assert(data@.take(pos as int) =~= data@);
                }
            }
        }
        match failure {
            Some(e) => Err(e),
            None => Ok(pos),
        }
    }

    /// Parses a chunk and adds its length to the bytes consumed; returns the
    /// chunk's length.
    pub fn consume_chunk(&mut self, data: &[u8], events: &mut Vec<(Event, usize)>) -> (r: Result<usize, Error>)
        ensures
            ({
                let o = spec_run(old(self).view(), D::max_count(), data@);
                &&& final(events)@ == old(events)@ + o.events
                &&& match o.err {
                    None => r == Ok::<usize, Error>(data.len())
                        && final(self).view() == (TokView { total: wrap_add(old(self).view().total, data.len() as nat), ..o.next }),
                    Some(e) => r == Err::<usize, Error>(e) && final(self).view() == o.next,
                }
            }),
    {
        proof {
            lemma_run_total(self.view(), D::max_count(), data@);
        }
        match self.parse_chunk_inner(data, events) {
            Err(e) => Err(e),
            Ok(consumed) => {
                let ghost mid = self.view();
                self.total_consumed = self.total_consumed.wrapping_add(consumed);
                proof {
                    assert(self.view().total == wrap_add(mid.total, data.len() as nat));
                    assert(self.view() == (TokView { total: wrap_add(mid.total, data.len() as nat), ..mid }));
                }
                Ok(consumed)
            },
        }
    }

    /// Parses a chunk of JSON data, appending each event with its position in
    /// the chunk to `events`; returns the total number of bytes consumed.
    pub fn parse_chunk(&mut self, data: &[u8], events: &mut Vec<(Event, usize)>) -> (r: Result<usize, Error>)
        ensures
            ({
                let o = spec_run(old(self).view(), D::max_count(), data@);
                &&& final(events)@ == old(events)@ + o.events
                &&& match o.err {
                    None => final(self).view() == (TokView { total: wrap_add(old(self).view().total, data.len() as nat), ..o.next })
                        && r == Ok::<usize, Error>(final(self).view().total),
                    Some(e) => r == Err::<usize, Error>(e) && final(self).view() == o.next,
                }
            }),
    {
        match self.consume_chunk(data, events) {
            Err(e) => Err(e),
            Ok(_) => Ok(self.total_consumed),
        }
    }

    /// Parses a chunk, discarding the events; returns the chunk's length.
    pub fn check_chunk(&mut self, data: &[u8]) -> (r: Result<usize, Error>)
        ensures
            ({
                let o = spec_run(old(self).view(), D::max_count(), data@);
                match o.err {
                    None => r == Ok::<usize, Error>(data.len())
                        && final(self).view() == (TokView { total: wrap_add(old(self).view().total, data.len() as nat), ..o.next }),
                    Some(e) => r == Err::<usize, Error>(e) && final(self).view() == o.next,
                }
            }),
    {
        let mut events: Vec<(Event, usize)> = Vec::new();
        self.consume_chunk(data, &mut events)
    }

    /// Finishes parsing and validates that the document is complete.
    pub fn finish(&mut self, events: &mut Vec<(Event, usize)>) -> (r: Result<usize, Error>)
        ensures
            final(events)@ == old(events)@ + spec_finish(old(self).view()).0,
            r == spec_finish(old(self).view()).1,
            final(self).view() == old(self).view(),
    {
        // we check that parser was idle, at zero nesting depth
        if !self.context.depth.is_zero() {
            proof {
                assert(events@ =~= old(events)@ + Seq::<(Event, usize)>::empty());
            }
            return Error::new(ErrKind::UnfinishedStream, 0x20, self.total_consumed, Some(self.line), Some(self.column));
        }
        if self.total_consumed == 0 {
            proof {
                assert(events@ =~= old(events)@ + Seq::<(Event, usize)>::empty());
            }
            return Error::new(ErrKind::EmptyStream, 0x20, self.total_consumed, Some(self.line), Some(self.column));
        }
        match self.state {
            State::Finished => {
                proof {
                    assert(events@ =~= old(events)@ + Seq::<(Event, usize)>::empty());
                }
                Ok(self.total_consumed)
            },
            State::Number { state: ns } => {
                if Self::is_valid_number_terminal_state(ns) {
                    emit(events, Event::End(EventToken::Number), self.total_consumed);
                    proof {
                        assert(events@ =~= old(events)@ + seq![(Event::End(EventToken::Number), self.total_consumed)]);
                    }
                    Ok(self.total_consumed)
                } else {
                    proof {
                        assert(events@ =~= old(events)@ + Seq::<(Event, usize)>::empty());
                    }
                    Error::new(ErrKind::UnfinishedStream, 0x20, self.total_consumed, Some(self.line), Some(self.column))
                }
            },
            _ => {
                proof {
                    assert(events@ =~= old(events)@ + Seq::<(Event, usize)>::empty());
                }
                Error::new(ErrKind::UnfinishedStream, 0x20, self.total_consumed, Some(self.line), Some(self.column))
            },
        }
    }

    /// Parses a whole document: one chunk, then [`Tokenizer::finish`].
    pub fn parse_full(&mut self, data: &[u8], events: &mut Vec<(Event, usize)>) -> (r: Result<usize, Error>)
        ensures
            ({
                let o = spec_run(old(self).view(), D::max_count(), data@);
                match o.err {
                    Some(e) => r == Err::<usize, Error>(e) && final(events)@ == old(events)@ + o.events,
                    None => {
                        let v = TokView { total: wrap_add(old(self).view().total, data.len() as nat), ..o.next };
                        &&& r == spec_finish(v).1
                        &&& final(events)@ == old(events)@ + o.events + spec_finish(v).0
                    },
                }
            }),
    {
        match self.parse_chunk(data, events) {
            Err(e) => Err(e),
            Ok(_) => self.finish(events),
        }
    }
}

/// `a + b` modulo the size of `usize`.
pub open spec fn wrap_add(a: usize, b: nat) -> usize {
    if a + b > usize::MAX {
        (a + b - (usize::MAX + 1)) as usize
    } else {
        (a + b) as usize
    }
}

} // verus!
