//! Shared utilities for processing JSON escape sequences: simple escapes,
//! `\uXXXX` escapes with surrogate pairs, and their UTF-8 encoding.

use vstd::prelude::*;
use vstd::utf8::{encode_scalar, is_scalar};

use crate::parse_error::{ParseError, UnexpectedState};
use crate::shared::{sat_sub, ContentRange};
use crate::tokenizer::EventToken;

verus! {

/// The character after the backslash for a simple escape token.
pub open spec fn spec_escape_char(t: EventToken) -> Option<u8> {
    match t {
        EventToken::EscapeQuote => Some(0x22u8),
        EventToken::EscapeBackslash => Some(0x5cu8),
        EventToken::EscapeSlash => Some(0x2fu8),
        EventToken::EscapeBackspace => Some(0x62u8),
        EventToken::EscapeFormFeed => Some(0x66u8),
        EventToken::EscapeNewline => Some(0x6eu8),
        EventToken::EscapeCarriageReturn => Some(0x72u8),
        EventToken::EscapeTab => Some(0x74u8),
        _ => None,
    }
}

/// The byte a simple escape `\c` stands for.
pub open spec fn spec_simple_escape(c: u8) -> Option<u8> {
    if c == 0x6e {
        Some(0x0au8)
    } else if c == 0x74 {
        Some(0x09u8)
    } else if c == 0x72 {
        Some(0x0du8)
    } else if c == 0x5c {
        Some(0x5cu8)
    } else if c == 0x22 {
        Some(0x22u8)
    } else if c == 0x2f {
        Some(0x2fu8)
    } else if c == 0x62 {
        Some(0x08u8)
    } else if c == 0x66 {
        Some(0x0cu8)
    } else {
        None
    }
}

/// The value of a hexadecimal digit.
pub open spec fn hex_value(b: u8) -> Option<u32> {
    if 0x30 <= b <= 0x39 {
        Some((b - 0x30) as u32)
    } else if 0x61 <= b <= 0x66 {
        Some((b - 0x61 + 10) as u32)
    } else if 0x41 <= b <= 0x46 {
        Some((b - 0x41 + 10) as u32)
    } else {
        None
    }
}

/// The value of a sequence of hexadecimal digits, most significant first;
/// `None` if one is not a hex digit.
pub open spec fn hex_seq_value(s: Seq<u8>) -> Option<nat>
    decreases s.len(),
{
    if s.len() == 0 {
        Some(0)
    } else {
        match (hex_seq_value(s.drop_last()), hex_value(s.last())) {
            (Some(v), Some(d)) => Some(v * 16 + d as nat),
            _ => None,
        }
    }
}

pub open spec fn spec_is_high_surrogate(cp: u32) -> bool {
    0xD800 <= cp <= 0xDBFF
}

pub open spec fn spec_is_low_surrogate(cp: u32) -> bool {
    0xDC00 <= cp <= 0xDFFF
}

/// The codepoint a UTF-16 surrogate pair stands for.
pub open spec fn spec_combine(high: u32, low: u32) -> u32 {
    (0x10000 + (high - 0xD800) * 0x400 + (low - 0xDC00)) as u32
}

/// What a `\uXXXX` escape with hex digits `hex` gives, with `pending` the high
/// surrogate left by the escape before: the UTF-8 bytes (none for a high
/// surrogate that waits for its pair) and the high surrogate now pending.
pub open spec fn spec_unicode_escape(hex: Seq<u8>, pending: Option<u32>) -> Result<(Option<Seq<u8>>, Option<u32>), ParseError> {
    if hex.len() != 4 {
        Err(ParseError::InvalidUnicodeHex)
    } else {
        match hex_seq_value(hex) {
            None => Err(ParseError::InvalidUnicodeHex),
            Some(v) => {
                let cp = v as u32;
                match pending {
                    Some(high) => if spec_is_low_surrogate(cp) && spec_is_high_surrogate(high) {
                        Ok((Some(encode_scalar(spec_combine(high, cp))), None))
                    } else {
                        Err(ParseError::InvalidUnicodeCodepoint)
                    },
                    None => if spec_is_high_surrogate(cp) {
                        Ok((None, Some(cp)))
                    } else if spec_is_low_surrogate(cp) {
                        Err(ParseError::InvalidUnicodeCodepoint)
                    } else {
                        Ok((Some(encode_scalar(cp)), None))
                    },
                }
            },
        }
    }
}

/// Pending-surrogate law: a `\\uXXXX` escape that is processed without
/// error leaves a surrogate waiting exactly when it gives no bytes, and what
/// waits is always a high surrogate; a surrogate that was waiting is used
/// up by a successful escape.
pub proof fn law_pending_surrogate(hex: Seq<u8>, pending: Option<u32>)
    ensures
        spec_unicode_escape(hex, pending) matches Ok((bytes, next)) ==> {
            &&& (next is Some <==> bytes is None)
            &&& next matches Some(h) ==> spec_is_high_surrogate(h)
            &&& pending is Some ==> next is None
        },
{
}

pub open spec fn opt_slice_view(o: Option<&[u8]>) -> Option<Seq<u8>> {
    match o {
        Some(s) => Some(s@),
        None => None,
    }
}

/// 16 to the power `n`.
pub open spec fn p16(n: nat) -> nat
    decreases n,
{
    if n == 0 {
        1
    } else {
        16 * p16((n - 1) as nat)
    }
}

/// Writes the UTF-8 encoding of a Unicode scalar value at the start of
/// `buf`; returns its length.
fn encode_utf8_into(cp: u32, buf: &mut [u8]) -> (n: usize)
    requires
        is_scalar(cp),
        old(buf)@.len() >= 4,
    ensures
        n == encode_scalar(cp).len(),
        final(buf)@.len() == old(buf)@.len(),
        final(buf)@.take(n as int) == encode_scalar(cp),
{
    if cp <= 0x7F {
        buf[0] = (cp & 0x7F) as u8;
        proof {
            assert(buf@.take(1) =~= encode_scalar(cp));
        }
        1
    } else if cp <= 0x7FF {
        buf[0] = 0xC0u8 | ((cp >> 6u32) & 0x1F) as u8;
        buf[1] = 0x80u8 | (cp & 0x3F) as u8;
        proof {
            assert(buf@.take(2) =~= encode_scalar(cp));
        }
        2
    } else if cp <= 0xFFFF {
        buf[0] = 0xE0u8 | ((cp >> 12u32) & 0x0F) as u8;
        buf[1] = 0x80u8 | ((cp >> 6u32) & 0x3F) as u8;
        buf[2] = 0x80u8 | (cp & 0x3F) as u8;
        proof {
            assert(buf@.take(3) =~= encode_scalar(cp));
        }
        3
    } else {
        buf[0] = 0xF0u8 | ((cp >> 18u32) & 0x7) as u8;
        buf[1] = 0x80u8 | ((cp >> 12u32) & 0x3F) as u8;
        buf[2] = 0x80u8 | ((cp >> 6u32) & 0x3F) as u8;
        buf[3] = 0x80u8 | (cp & 0x3F) as u8;
        proof {
            assert(buf@.take(4) =~= encode_scalar(cp));
        }
        4
    }
}

/// Shared utilities for processing JSON escape sequences.
/// These are pure functions usable by all the parsers' buffers.
pub struct EscapeProcessor;

impl EscapeProcessor {
    /// Convert an escape token from the tokenizer to the character that
    /// follows the backslash; `None` if the token is not a simple escape.
    pub fn token_to_escape_char(escape_token: &EventToken) -> (r: Option<u8>)
        ensures
            r == spec_escape_char(*escape_token),
    {
        match escape_token {
            EventToken::EscapeQuote => Some(0x22),
            EventToken::EscapeBackslash => Some(0x5c),
            EventToken::EscapeSlash => Some(0x2f),
            EventToken::EscapeBackspace => Some(0x62),
            EventToken::EscapeFormFeed => Some(0x66),
            EventToken::EscapeNewline => Some(0x6e),
            EventToken::EscapeCarriageReturn => Some(0x72),
            EventToken::EscapeTab => Some(0x74),
            _ => None,
        }
    }

    /// Process an escape token directly to the unescaped byte value.
    pub fn process_escape_token(escape_token: &EventToken) -> (r: Result<u8, ParseError>)
        ensures
            match spec_escape_char(*escape_token) {
                None => r == Err::<u8, ParseError>(ParseError::Unexpected(UnexpectedState::InvalidEscapeToken)),
                Some(c) => match spec_simple_escape(c) {
                    Some(b) => r == Ok::<u8, ParseError>(b),
                    None => r == Err::<u8, ParseError>(ParseError::InvalidEscapeSequence),
                },
            },
    {
        match Self::token_to_escape_char(escape_token) {
            None => Err(ParseError::Unexpected(UnexpectedState::InvalidEscapeToken)),
            Some(escape_char) => Self::process_simple_escape(escape_char),
        }
    }

    /// Process a simple escape sequence character and return the unescaped byte.
    pub fn process_simple_escape(escape_char: u8) -> (r: Result<u8, ParseError>)
        ensures
            match spec_simple_escape(escape_char) {
                Some(b) => r == Ok::<u8, ParseError>(b),
                None => r == Err::<u8, ParseError>(ParseError::InvalidEscapeSequence),
            },
    {
        match escape_char {
            0x6e => Ok(0x0a),
            0x74 => Ok(0x09),
            0x72 => Ok(0x0d),
            0x5c => Ok(0x5c),
            0x22 => Ok(0x22),
            0x2f => Ok(0x2f),
            0x62 => Ok(0x08),
            0x66 => Ok(0x0c),
            _ => Err(ParseError::InvalidEscapeSequence),
        }
    }

    /// Validate that a byte represents a valid hexadecimal digit; returns its
    /// numeric value (0-15).
    pub fn validate_hex_digit(byte: u8) -> (r: Result<u32, ParseError>)
        ensures
            match hex_value(byte) {
                Some(v) => r == Ok::<u32, ParseError>(v),
                None => r == Err::<u32, ParseError>(ParseError::InvalidUnicodeHex),
            },
    {
        if 0x30 <= byte && byte <= 0x39 {
            Ok((byte - 0x30) as u32)
        } else if 0x61 <= byte && byte <= 0x66 {
            Ok((byte - 0x61 + 10) as u32)
        } else if 0x41 <= byte && byte <= 0x46 {
            Ok((byte - 0x41 + 10) as u32)
        } else {
            Err(ParseError::InvalidUnicodeHex)
        }
    }

    /// Check if a Unicode codepoint is a high surrogate (0xD800-0xDBFF)
    pub fn is_high_surrogate(codepoint: u32) -> (r: bool)
        ensures
            r == spec_is_high_surrogate(codepoint),
    {
        0xD800 <= codepoint && codepoint <= 0xDBFF
    }

    /// Check if a Unicode codepoint is a low surrogate (0xDC00-0xDFFF)
    pub fn is_low_surrogate(codepoint: u32) -> (r: bool)
        ensures
            r == spec_is_low_surrogate(codepoint),
    {
        0xDC00 <= codepoint && codepoint <= 0xDFFF
    }

    /// Combine a high and low surrogate pair into a single Unicode codepoint
    pub fn combine_surrogate_pair(high: u32, low: u32) -> (r: Result<u32, ParseError>)
        ensures
            if spec_is_high_surrogate(high) && spec_is_low_surrogate(low) {
                r == Ok::<u32, ParseError>(spec_combine(high, low))
            } else {
                r == Err::<u32, ParseError>(ParseError::InvalidUnicodeCodepoint)
            },
    {
        if !Self::is_high_surrogate(high) || !Self::is_low_surrogate(low) {
            return Err(ParseError::InvalidUnicodeCodepoint);
        }
        // Combine surrogates according to UTF-16 specification
        proof {
            assert((high & 0x3FF) << 10u32 == (high - 0xD800) * 0x400 && low & 0x3FF == low - 0xDC00) by (bit_vector)
                requires
                    0xD800 <= high <= 0xDBFF,
                    0xDC00 <= low <= 0xDFFF,
            ;
            assert((high - 0xD800) * 0x400 <= 0x3FF * 0x400) by (nonlinear_arith)
                requires
                    0xD800 <= high <= 0xDBFF,
            ;
        }
        let codepoint = 0x10000 + ((high & 0x3FF) << 10u32) + (low & 0x3FF);
        Ok(codepoint)
    }

    /// Process a Unicode escape sequence with surrogate pair support.
    ///
    /// `hex_slice` holds the 4 hexadecimal digits, `utf8_buffer` receives the
    /// UTF-8 encoded result (it must be at least 4 bytes), `pending_high_surrogate`
    /// is the high surrogate left by the escape before, if any.
    ///
    /// Returns the UTF-8 bytes (None if this is a high surrogate waiting for
    /// its low half) and the high surrogate to save for the next escape.
    pub fn process_unicode_escape<'a>(
        hex_slice: &[u8],
        utf8_buffer: &'a mut [u8],
        pending_high_surrogate: Option<u32>,
    ) -> (r: Result<(Option<&'a [u8]>, Option<u32>), ParseError>)
        requires
            old(utf8_buffer)@.len() >= 4,
        ensures
            match spec_unicode_escape(hex_slice@, pending_high_surrogate) {
                Err(e) => r == Err::<(Option<&'a [u8]>, Option<u32>), ParseError>(e),
                Ok((bytes, pending)) => r matches Ok((o, p)) && opt_slice_view(o) == bytes && p == pending,
            },
            final(utf8_buffer)@.len() == old(utf8_buffer)@.len(),
    {
        if hex_slice.len() != 4 {
            return Err(ParseError::InvalidUnicodeHex);
        }
        // Convert hex bytes to Unicode codepoint
        let mut codepoint = 0u32;
        let mut i: usize = 0;
        proof {
            assert(hex_slice@.take(0) =~= Seq::<u8>::empty());
        }
        while i < 4
            invariant
                i <= 4,
                hex_slice@.len() == 4,
                hex_seq_value(hex_slice@.take(i as int)) == Some(codepoint as nat),
                codepoint < p16(i as nat),
            decreases 4 - i,
        {
            let byte = hex_slice[i];
            proof {
                assert(hex_slice@.take(i + 1).drop_last() =~= hex_slice@.take(i as int));
            }
            let digit = match Self::validate_hex_digit(byte) {
                Ok(d) => d,
                Err(e) => {
                    proof {
                        assert(hex_seq_value(hex_slice@.take(i + 1)) is None);
                        lemma_hex_prefix_none(hex_slice@, i + 1);
                    }
                    return Err(e);
                },
            };
            proof {
                reveal_with_fuel(p16, 5);
                assert(p16(i as nat) <= 4096);
                let p = p16(i as nat);
                assert(codepoint * 16 + digit < p * 16) by (nonlinear_arith)
                    requires
                        codepoint < p,
                        digit < 16,
                ;
                assert((codepoint << 4u32) | digit == codepoint * 16 + digit) by (bit_vector)
                    requires
                        codepoint < 65536,
                        digit < 16,
                ;
            }
            codepoint = (codepoint << 4u32) | digit;
            i = i + 1;
        }
        proof {
            assert(hex_slice@.take(4) =~= hex_slice@);
            reveal_with_fuel(p16, 5);
        }

        if let Some(high) = pending_high_surrogate {
            // We should have a low surrogate now
            if Self::is_low_surrogate(codepoint) {
                let combined = Self::combine_surrogate_pair(high, codepoint)?;
                let n = encode_utf8_into(combined, utf8_buffer);
                let out: &'a [u8] = &*utf8_buffer;
                Ok((Some(vstd::slice::slice_subrange(out, 0, n)), None))
            } else {
                // Error: high surrogate not followed by low surrogate
                Err(ParseError::InvalidUnicodeCodepoint)
            }
        } else {
            if Self::is_high_surrogate(codepoint) {
                // Save this high surrogate for the next escape
                Ok((None, Some(codepoint)))
            } else if Self::is_low_surrogate(codepoint) {
                // Error: low surrogate without preceding high surrogate
                Err(ParseError::InvalidUnicodeCodepoint)
            } else {
                let n = encode_utf8_into(codepoint, utf8_buffer);
                let out: &'a [u8] = &*utf8_buffer;
                Ok((Some(vstd::slice::slice_subrange(out, 0, n)), None))
            }
        }
    }
}

/// A failed hex digit makes every longer sequence fail too.
proof fn lemma_hex_prefix_none(s: Seq<u8>, k: int)
    requires
        0 <= k <= s.len(),
        hex_seq_value(s.take(k)) is None,
    ensures
        hex_seq_value(s) is None,
    decreases s.len() - k,
{
    if k < s.len() {
        assert(s.take(k + 1).drop_last() =~= s.take(k));
        lemma_hex_prefix_none(s, k + 1);
    } else {
        assert(s.take(k) =~= s);
    }
}

/// Shared Unicode escape hex digit collector for both parsers.
/// Collects the 4 hex digits in \uXXXX sequences and tracks a pending high
/// surrogate across escapes.
#[derive(Debug)]
pub struct UnicodeEscapeCollector {
    /// Buffer to collect the 4 hex digits
    hex_buffer: [u8; 4],
    /// Current position in the hex buffer (0-4)
    hex_pos: usize,
    /// Pending high surrogate waiting for low surrogate
    pending_high_surrogate: Option<u32>,
}

impl UnicodeEscapeCollector {
    #[verifier::type_invariant]
    spec fn inv(&self) -> bool {
        self.hex_pos <= 4
    }

    /// The hex digits collected for the current escape.
    pub closed spec fn digits(&self) -> Seq<u8> {
        self.hex_buffer@.take(self.hex_pos as int)
    }

    /// The high surrogate waiting for its low half, if any.
    pub closed spec fn pending(&self) -> Option<u32> {
        self.pending_high_surrogate
    }

    /// Create a new Unicode escape collector
    pub fn new() -> (r: Self)
        ensures
            r.digits() == Seq::<u8>::empty(),
            r.pending() is None,
    {
        let r = Self { hex_buffer: [0u8; 4], hex_pos: 0, pending_high_surrogate: None };
        proof {
            assert(r.digits() =~= Seq::<u8>::empty());
        }
        r
    }

    /// Reset the collector for a new Unicode escape sequence; a pending high
    /// surrogate is kept, as it pairs with the next escape.
    pub fn reset(&mut self)
        ensures
            final(self).digits() == Seq::<u8>::empty(),
            final(self).pending() == old(self).pending(),
    {
        self.hex_pos = 0;
        proof {
            assert(self.digits() =~= Seq::<u8>::empty());
        }
    }

    /// Reset the collector completely, including any pending surrogate state
    pub fn reset_all(&mut self)
        ensures
            final(self).digits() == Seq::<u8>::empty(),
            final(self).pending() is None,
    {
        self.hex_pos = 0;
        self.pending_high_surrogate = None;
        proof {
            assert(self.digits() =~= Seq::<u8>::empty());
        }
    }

    /// Add a hex digit to the collector.
    /// Returns true if this completes the 4-digit sequence.
    pub fn add_hex_digit(&mut self, digit: u8) -> (r: Result<bool, ParseError>)
        ensures
            hex_value(digit) is None ==> r == Err::<bool, ParseError>(ParseError::InvalidUnicodeHex)
                && final(self).digits() == old(self).digits() && final(self).pending() == old(self).pending(),
            hex_value(digit) is Some && old(self).digits().len() >= 4 ==> r == Err::<bool, ParseError>(
                ParseError::Unexpected(UnexpectedState::InvalidUnicodeEscape),
            ) && final(self).digits() == old(self).digits() && final(self).pending() == old(self).pending(),
            hex_value(digit) is Some && old(self).digits().len() < 4 ==> final(self).digits() == old(self).digits().push(digit)
                && r == Ok::<bool, ParseError>(final(self).digits().len() == 4)
                && final(self).pending() == old(self).pending(),
    {
        proof {
            use_type_invariant(&*self);
        }
        // Validate the hex digit first
        EscapeProcessor::validate_hex_digit(digit)?;

        if self.hex_pos >= 4 {
            return Err(ParseError::Unexpected(UnexpectedState::InvalidUnicodeEscape));
        }
        let ghost d0 = self.digits();
        let pos = self.hex_pos;
        self.hex_buffer[pos] = digit;
        self.hex_pos = pos + 1;
        proof {
            assert(self.digits() =~= d0.push(digit));
        }
        Ok(self.hex_pos == 4)
    }

    /// Process the collected hex digits with surrogate pair support.
    /// Should only be called once 4 digits are collected.
    /// Returns (optional UTF-8 bytes, whether surrogate state changed).
    pub fn process_to_utf8<'a>(&mut self, utf8_buffer: &'a mut [u8]) -> (r: Result<(Option<&'a [u8]>, bool), ParseError>)
        requires
            old(utf8_buffer)@.len() >= 4,
        ensures
            final(self).digits() == old(self).digits(),
            final(utf8_buffer)@.len() == old(utf8_buffer)@.len(),
            old(self).digits().len() != 4 ==> r == Err::<(Option<&'a [u8]>, bool), ParseError>(
                ParseError::Unexpected(UnexpectedState::InvalidUnicodeEscape),
            ) && final(self).pending() == old(self).pending(),
            old(self).digits().len() == 4 ==> match spec_unicode_escape(old(self).digits(), old(self).pending()) {
                Err(e) => r == Err::<(Option<&'a [u8]>, bool), ParseError>(e) && final(self).pending() == old(self).pending(),
                Ok((bytes, pending)) => r matches Ok((o, changed)) && opt_slice_view(o) == bytes
                    && changed == (old(self).pending() != pending) && final(self).pending() == pending,
            },
    {
        proof {
            use_type_invariant(&*self);
        }
        if self.hex_pos != 4 {
            return Err(ParseError::Unexpected(UnexpectedState::InvalidUnicodeEscape));
        }
        proof {
            assert(self.hex_buffer@.take(4) =~= self.hex_buffer@);
        }
        let hex = self.hex_buffer;
        let (result, new_pending) = EscapeProcessor::process_unicode_escape(
            hex.as_slice(),
            utf8_buffer,
            self.pending_high_surrogate,
        )?;
        let surrogate_state_changed = !opt_u32_eq(self.pending_high_surrogate, new_pending);
        self.pending_high_surrogate = new_pending;
        Ok((result, surrogate_state_changed))
    }

    /// Check if there's a pending high surrogate waiting for a low surrogate
    pub fn has_pending_high_surrogate(&self) -> (r: bool)
        ensures
            r == self.pending() is Some,
    {
        self.pending_high_surrogate.is_some()
    }
}

fn opt_u32_eq(a: Option<u32>, b: Option<u32>) -> (r: bool)
    ensures
        r == (a == b),
{
    match (a, b) {
        (Some(x), Some(y)) => x == y,
        (None, None) => true,
        _ => false,
    }
}


/// Feeding the hex digits `hex` one by one to a collector that holds
/// `digits`: the digits it then holds, and the error that stopped it, if any.
pub open spec fn spec_feed_hex(digits: Seq<u8>, hex: Seq<u8>) -> (Seq<u8>, Option<ParseError>)
    decreases hex.len(),
{
    if hex.len() == 0 {
        (digits, None)
    } else if hex_value(hex[0]) is None {
        (digits, Some(ParseError::InvalidUnicodeHex))
    } else if digits.len() >= 4 {
        (digits, Some(ParseError::Unexpected(UnexpectedState::InvalidUnicodeEscape)))
    } else {
        spec_feed_hex(digits.push(hex[0]), hex.drop_first())
    }
}

/// What a complete `\\uXXXX` escape with the four digits `hex` does to a
/// collector holding `digits` and the waiting high surrogate `pending`: the
/// UTF-8 bytes it adds to the text (none while a high surrogate waits) and
/// the high surrogate that then waits; `None` when the escape is not valid.
pub open spec fn unicode_escape_effect(hex: Seq<u8>, digits: Seq<u8>, pending: Option<u32>) -> Option<
    (Seq<u8>, Option<u32>),
> {
    if hex.len() != 4 {
        None
    } else {
        let fed = spec_feed_hex(digits, hex);
        if fed.1 is Some {
            None
        } else {
            match spec_unicode_escape(fed.0, pending) {
                Ok((Some(b), p)) => Some((b, p)),
                Ok((None, p)) => Some((Seq::<u8>::empty(), p)),
                Err(_) => None,
            }
        }
    }
}

/// The outcome of a complete `\\uXXXX` escape with the four digits `hex`,
/// for a collector holding `digits` and the waiting high surrogate
/// `pending`: the UTF-8 bytes it yields (`None` while a high surrogate
/// waits) and the high surrogate that then waits; `None` when the escape is
/// not valid.
pub open spec fn unicode_escape_result(hex: Seq<u8>, digits: Seq<u8>, pending: Option<u32>) -> Option<
    (Option<Seq<u8>>, Option<u32>),
> {
    if hex.len() != 4 {
        None
    } else {
        let fed = spec_feed_hex(digits, hex);
        if fed.1 is Some {
            None
        } else {
            match spec_unicode_escape(fed.0, pending) {
                Ok(v) => Some(v),
                Err(_) => None,
            }
        }
    }
}

/// What a simple escape token gives: the character it stands for, or the
/// error for a token that is not a simple escape.
pub open spec fn spec_escape_token_result(t: EventToken) -> Result<u8, ParseError> {
    match spec_escape_char(t) {
        None => Err(ParseError::Unexpected(UnexpectedState::InvalidEscapeToken)),
        Some(c) => match spec_simple_escape(c) {
            Some(b) => Ok(b),
            None => Err(ParseError::InvalidEscapeSequence),
        },
    }
}

/// A complete feed appends all the digits.
proof fn lemma_feed_hex_ok(digits: Seq<u8>, hex: Seq<u8>)
    ensures
        spec_feed_hex(digits, hex).1 is None ==> spec_feed_hex(digits, hex).0 == digits + hex
            && digits.len() + hex.len() <= 4 || hex.len() == 0,
    decreases hex.len(),
{
    if hex.len() > 0 && hex_value(hex[0]) is Some && digits.len() < 4 {
        lemma_feed_hex_ok(digits.push(hex[0]), hex.drop_first());
        assert(digits.push(hex[0]) + hex.drop_first() =~= digits + hex);
        if hex.drop_first().len() == 0 {
            assert(hex.len() == 1);
        }
    }
}

/// Processes a complete `\uXXXX` escape whose four hex digits, ending at
/// `current_pos`, are `hex_slice`: feeds them to the collector and converts
/// them, with surrogate pair support. Returns the UTF-8 bytes (none while a
/// high surrogate waits for its pair) and the position where the escape
/// starts, which for a completed pair is that of the high surrogate.
pub fn process_unicode_escape_sequence(
    current_pos: usize,
    unicode_escape_collector: &mut UnicodeEscapeCollector,
    hex_slice: &[u8],
) -> (r: Result<(Option<([u8; 4], usize)>, usize), ParseError>)
    ensures
        hex_slice@.len() != 4 ==> r == Err::<(Option<([u8; 4], usize)>, usize), ParseError>(
            ParseError::Unexpected(UnexpectedState::InvalidUnicodeEscape),
        ) && *final(unicode_escape_collector) == *old(unicode_escape_collector),
        r matches Err(e) ==> e is InvalidUnicodeHex || e is InvalidUnicodeCodepoint || e is Unexpected,
        hex_slice@.len() == 4 ==> ({
            let fed = spec_feed_hex(old(unicode_escape_collector).digits(), hex_slice@);
            let pending = old(unicode_escape_collector).pending();
            let escape_start = sat_sub(current_pos, 6);
            &&& final(unicode_escape_collector).digits() == fed.0
            &&& match fed.1 {
                Some(e) => r == Err::<(Option<([u8; 4], usize)>, usize), ParseError>(e)
                    && final(unicode_escape_collector).pending() == pending,
                None => match spec_unicode_escape(fed.0, pending) {
                    Err(e) => r == Err::<(Option<([u8; 4], usize)>, usize), ParseError>(e)
                        && final(unicode_escape_collector).pending() == pending,
                    Ok((bytes, new_pending)) => {
                        &&& final(unicode_escape_collector).pending() == new_pending
                        &&& r matches Ok((out, start))
                        &&& (out is Some <==> bytes is Some)
                        &&& (out matches Some((buf, len)) ==> bytes matches Some(b) && len == b.len() && len <= 4
                            && buf@.take(len as int) == b)
                        &&& start == if pending is Some && bytes is Some {
                            sat_sub(escape_start, 6)
                        } else {
                            escape_start
                        }
                    },
                },
            }
        }),
{
    let (_hex_start, _hex_end, escape_start_pos) = ContentRange::unicode_escape_bounds(current_pos);
    if hex_slice.len() != 4 {
        return Err(ParseError::Unexpected(UnexpectedState::InvalidUnicodeEscape));
    }
    let ghost d0 = unicode_escape_collector.digits();
    let ghost p0 = unicode_escape_collector.pending();
    proof {
        assert(hex_slice@.skip(0) =~= hex_slice@);
    }
    let mut i: usize = 0;
    let mut failure: Option<ParseError> = None;
    while i < 4
        invariant_except_break
            i <= 4,
            failure is None,
            spec_feed_hex(d0, hex_slice@) == spec_feed_hex(unicode_escape_collector.digits(), hex_slice@.skip(i as int)),
        invariant
            hex_slice@.len() == 4,
            unicode_escape_collector.pending() == p0,
        ensures
            failure matches Some(e) ==> spec_feed_hex(d0, hex_slice@) == (unicode_escape_collector.digits(), Some(e)),
            failure matches Some(e) ==> e is InvalidUnicodeHex || e is Unexpected,
            failure is None ==> i == 4 && spec_feed_hex(d0, hex_slice@) == spec_feed_hex(
                unicode_escape_collector.digits(),
                hex_slice@.skip(4),
            ),
        decreases 4 - i,
    {
        let ghost d = unicode_escape_collector.digits();
        proof {
            assert(hex_slice@.skip(i as int)[0] == hex_slice@[i as int]);
            assert(hex_slice@.skip(i as int).drop_first() =~= hex_slice@.skip(i + 1));
        }
        match unicode_escape_collector.add_hex_digit(hex_slice[i]) {
            Ok(_) => {},
            Err(e) => {
                proof {
                    let rest = hex_slice@.skip(i as int);
                    assert(spec_feed_hex(d, rest) == (d, Some(e)));
                }
                failure = Some(e);
                break;
            },
        }
        i = i + 1;
    }
    if let Some(e) = failure {
        return Err(e);
    }
    proof {
        assert(hex_slice@.skip(4) =~= Seq::<u8>::empty());
        lemma_feed_hex_ok(d0, hex_slice@);
    }
    let had_pending_high_surrogate = unicode_escape_collector.has_pending_high_surrogate();
    let mut utf8_buf = [0u8; 4];
    let (utf8_bytes_opt, _surrogate_state_changed) = match unicode_escape_collector.process_to_utf8(&mut utf8_buf) {
        Ok(v) => v,
        Err(e) => return Err(e),
    };
    let result_by_value = match utf8_bytes_opt {
        Some(bytes) => {
            let mut value_buf = [0u8; 4];
            let len = bytes.len();
            let mut k: usize = 0;
            while k < len
                invariant
                    k <= len,
                    len == bytes@.len(),
                    len <= 4,
                    forall|j: int| 0 <= j < k ==> #[trigger] value_buf@[j] == bytes@[j],
                decreases len - k,
            {
                value_buf[k] = bytes[k];
                k = k + 1;
            }
            proof {
                assert(value_buf@.take(len as int) =~= bytes@);
            }
            Some((value_buf, len))
        },
        None => None,
    };
    let final_escape_start_pos = if had_pending_high_surrogate && result_by_value.is_some() {
        escape_start_pos.saturating_sub(6)
    } else {
        escape_start_pos
    };
    Ok((result_by_value, final_escape_start_pos))
}

} // verus!
