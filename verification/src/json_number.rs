//! JSON numbers: the exact text and its parsed value.
//!
//! The integer type is `i64`, and numbers with a fraction or an exponent are
//! kept as text only (`FloatDisabled`).

use vstd::prelude::*;
use vstd::string::StringExecFns;
use vstd::string::StringSliceAdditionalSpecFns;
use vstd::utf8::valid_utf8;

use crate::int_parser::{from_ascii_i64, spec_parse_int};
use crate::parse_error::ParseError;

verus! {

/// The integer type numbers are parsed to.
pub type ConfiguredInt = i64;

/// Represents the parsed result of a JSON number.
#[derive(Debug, PartialEq, Eq, Clone, Copy, Structural)]
pub enum NumberResult {
    /// Integer that fits in the configured integer type
    Integer(ConfiguredInt),
    /// Integer too large for configured type (use raw string for exact representation)
    IntegerOverflow,
    /// Float parsing disabled: the raw string is the value
    FloatDisabled,
    /// Float encountered but skipped
    FloatSkipped,
    /// Float truncated to integer
    FloatTruncated(ConfiguredInt),
}

/// Represents a JSON number with both exact string representation and parsed value.
///
/// Lifetimes: 'a is the input slice lifetime, 'b is the scratch/copy buffer lifetime
#[derive(Debug, PartialEq)]
pub enum JsonNumber<'a, 'b> {
    /// A raw slice from the original input, used when no copying is needed.
    Borrowed { raw: &'a str, parsed: NumberResult },
    /// A slice from the scratch/copy buffer, used when number had to be copied.
    Copied { raw: &'b str, parsed: NumberResult },
}

/// No decimal point and no exponent.
pub open spec fn spec_is_integer(bytes: Seq<u8>) -> bool {
    forall|i: int| 0 <= i < bytes.len() ==> #[trigger] bytes[i] != 0x2e && bytes[i] != 0x65 && bytes[i] != 0x45
}

/// What [`parse_integer`] gives.
pub open spec fn spec_parse_integer(bytes: Seq<u8>) -> NumberResult {
    match spec_parse_int(bytes, i64::MIN as int, i64::MAX as int) {
        Ok(v) => NumberResult::Integer(v as i64),
        Err(_) => NumberResult::IntegerOverflow,
    }
}

/// The parsed value of a number's bytes.
pub open spec fn spec_number_result(bytes: Seq<u8>) -> NumberResult {
    if spec_is_integer(bytes) {
        spec_parse_integer(bytes)
    } else {
        NumberResult::FloatDisabled
    }
}

impl<'a, 'b> JsonNumber<'a, 'b> {
    /// The parsed value.
    pub open spec fn spec_parsed(&self) -> NumberResult {
        match self {
            JsonNumber::Borrowed { parsed, .. } => *parsed,
            JsonNumber::Copied { parsed, .. } => *parsed,
        }
    }

    /// The UTF-8 bytes of the exact text.
    pub open spec fn raw_bytes(&self) -> Seq<u8> {
        match self {
            JsonNumber::Borrowed { raw, .. } => raw.spec_bytes(),
            JsonNumber::Copied { raw, .. } => raw.spec_bytes(),
        }
    }

    /// The exact text.
    pub open spec fn raw_text(&self) -> Seq<char> {
        match self {
            JsonNumber::Borrowed { raw, .. } => raw@,
            JsonNumber::Copied { raw, .. } => raw@,
        }
    }
}

impl<'a> JsonNumber<'a, 'a> {
    /// Create a JsonNumber::Borrowed from a byte slice: parses the number
    /// with the configured behaviour and keeps its exact text.
    pub fn from_slice(bytes: &'a [u8]) -> (r: Result<JsonNumber<'a, 'a>, ParseError>)
        ensures
            r is Ok <==> valid_utf8(bytes@),
            r matches Ok(n) ==> n matches JsonNumber::Borrowed { raw, parsed } && raw.spec_bytes() == bytes@
                && parsed == spec_number_result(bytes@),
            r matches Err(e) ==> e is InvalidNumber || e is InvalidUtf8,
    {
        let parsed_result = if is_integer(bytes) {
            parse_integer(bytes)
        } else {
            parse_float(bytes)?
        };
        let number_str = crate::shared::from_utf8(bytes)?;
        Ok(JsonNumber::Borrowed { raw: number_str, parsed: parsed_result })
    }
}

impl<'a, 'b> JsonNumber<'a, 'b> {
    /// Get the parsed NumberResult.
    pub fn parsed(&self) -> (r: &NumberResult)
        ensures
            *r == self.spec_parsed(),
    {
        match self {
            JsonNumber::Borrowed { parsed, .. } => parsed,
            JsonNumber::Copied { parsed, .. } => parsed,
        }
    }

    /// Get the number as the configured integer type if it's an integer that fits.
    pub fn as_int(&self) -> (r: Option<ConfiguredInt>)
        ensures
            r == match self.spec_parsed() {
                NumberResult::Integer(v) => Some(v),
                _ => None::<i64>,
            },
    {
        match self.parsed() {
            NumberResult::Integer(val) => Some(*val),
            _ => None,
        }
    }

    /// Always available: get the exact string representation.
    pub fn as_str(&self) -> (r: &str)
        ensures
            r@ == self.raw_text(),
    {
        match self {
            JsonNumber::Borrowed { raw, .. } => raw,
            JsonNumber::Copied { raw, .. } => raw,
        }
    }

    /// Check if this number represents an integer (no decimal point or exponent).
    pub fn is_integer(&self) -> (r: bool)
        ensures
            r == (self.spec_parsed() is Integer || self.spec_parsed() is IntegerOverflow),
    {
        match self.parsed() {
            NumberResult::Integer(_) | NumberResult::IntegerOverflow => true,
            _ => false,
        }
    }

    /// Returns true if this number is not an integer (has a decimal point or exponent).
    pub fn is_float(&self) -> (r: bool)
        ensures
            r == !(self.spec_parsed() is Integer || self.spec_parsed() is IntegerOverflow),
    {
        !self.is_integer()
    }

    /// The number as text: the parsed integer in decimal when it fits the
    /// integer type, else the exact text of the input.
    pub fn to_string(&self) -> (r: std::string::String)
        ensures
            r@ == match self.spec_parsed() {
                NumberResult::Integer(v) => decimal(v as int),
                _ => self.raw_text(),
            },
    {
        match self.parsed() {
            NumberResult::Integer(val) => format_int(*val),
            _ => self.as_str().to_string(),
        }
    }
}

/// The decimal digit `d` (below ten) as a character.
pub open spec fn digit_char(d: nat) -> char {
    (d + 48) as char
}

/// The decimal digits of `n`, most significant first, with no leading zero.
pub open spec fn decimal_digits(n: nat) -> Seq<char>
    decreases n,
{
    if n < 10 {
        seq![digit_char(n)]
    } else {
        decimal_digits(n / 10).push(digit_char(n % 10))
    }
}

/// `v` written in decimal, with a minus sign before a negative number.
pub open spec fn decimal(v: int) -> Seq<char> {
    if v < 0 {
        seq!['-'] + decimal_digits((-v) as nat)
    } else {
        decimal_digits(v as nat)
    }
}

/// The digits `ds` (least significant first) as characters, most
/// significant first.
pub open spec fn digits_text(ds: Seq<u8>) -> Seq<char>
    decreases ds.len(),
{
    if ds.len() == 0 {
        Seq::empty()
    } else {
        seq![digit_char(ds.last() as nat)] + digits_text(ds.drop_last())
    }
}

proof fn lemma_digits_text_index(ds: Seq<u8>)
    ensures
        digits_text(ds).len() == ds.len(),
        forall|k: int| 0 <= k < ds.len() ==> #[trigger] digits_text(ds)[k] == digit_char(ds[ds.len() - 1 - k] as nat),
    decreases ds.len(),
{
    if ds.len() > 0 {
        lemma_digits_text_index(ds.drop_last());
    }
}

/// The decimal digit `d` as a one-character string.
fn digit_str(d: u64) -> (r: &'static str)
    requires
        d < 10,
    ensures
        r@ == seq![digit_char(d as nat)],
{
    if d == 0 {
        proof {
            reveal_strlit("0");
        }
        "0"
    } else if d == 1 {
        proof {
            reveal_strlit("1");
        }
        "1"
    } else if d == 2 {
        proof {
            reveal_strlit("2");
        }
        "2"
    } else if d == 3 {
        proof {
            reveal_strlit("3");
        }
        "3"
    } else if d == 4 {
        proof {
            reveal_strlit("4");
        }
        "4"
    } else if d == 5 {
        proof {
            reveal_strlit("5");
        }
        "5"
    } else if d == 6 {
        proof {
            reveal_strlit("6");
        }
        "6"
    } else if d == 7 {
        proof {
            reveal_strlit("7");
        }
        "7"
    } else if d == 8 {
        proof {
            reveal_strlit("8");
        }
        "8"
    } else {
        proof {
            reveal_strlit("9");
        }
        "9"
    }
}

/// Appends `n`, written in decimal, to `s`.
pub fn push_decimal(s: &mut std::string::String, n: u64)
    ensures
        final(s)@ == old(s)@ + decimal_digits(n as nat),
{
    let mut digits: Vec<u8> = Vec::new();
    let mut m = n;
    proof {
        assert(decimal_digits(n as nat) + digits_text(digits@) =~= decimal_digits(n as nat));
    }
    while m >= 10
        invariant
            decimal_digits(n as nat) == decimal_digits(m as nat) + digits_text(digits@),
            forall|k: int| 0 <= k < digits@.len() ==> digits@[k] < 10,
        decreases m,
    {
        let d = m % 10;
        let ghost before = digits@;
        digits.push(d as u8);
        proof {
            assert(digits@.drop_last() =~= before);
            assert(decimal_digits(m as nat) == decimal_digits((m / 10) as nat).push(digit_char((m % 10) as nat)));
            assert(decimal_digits((m / 10) as nat).push(digit_char((m % 10) as nat)) + digits_text(before)
                =~= decimal_digits((m / 10) as nat) + digits_text(digits@));
        }
        m = m / 10;
    }
    let ghost start = s@;
    s.append(digit_str(m));
    proof {
        lemma_digits_text_index(digits@);
        assert(decimal_digits(m as nat) == seq![digit_char(m as nat)]);
        assert(digits_text(digits@).take(0) =~= Seq::<char>::empty());
        assert(s@ =~= start + seq![digit_char(m as nat)] + digits_text(digits@).take(0));
    }
    let len = digits.len();
    let mut i = len;
    while i > 0
        invariant
            i <= len,
            len == digits.len(),
            digits_text(digits@).len() == len,
            forall|k: int| 0 <= k < len ==> #[trigger] digits_text(digits@)[k] == digit_char(digits@[len - 1 - k] as nat),
            forall|k: int| 0 <= k < len ==> digits@[k] < 10,
            s@ == start + seq![digit_char(m as nat)] + digits_text(digits@).take(len - i),
        decreases i,
    {
        i = i - 1;
        let d = digits[i];
        s.append(digit_str(d as u64));
        proof {
            assert(digits_text(digits@).take(len - i) =~= digits_text(digits@).take(len - i - 1).push(
                digit_char(d as nat),
            ));
        }
    }
    proof {
        assert(digits_text(digits@).take(len as int) =~= digits_text(digits@));
    }
}

/// `v` written in decimal, with a minus sign before a negative number.
fn format_int(v: i64) -> (r: std::string::String)
    ensures
        r@ == decimal(v as int),
{
    let mut s = std::string::String::new();
    if v < 0 {
        s.append("-");
        let a = (-(v as i128)) as u64;
        push_decimal(&mut s, a);
        proof {
            reveal_strlit("-");
        }
    } else {
        push_decimal(&mut s, v as u64);
    }
    proof {
        assert(s@ =~= decimal(v as int));
    }
    s
}

/// Detects if a number byte slice represents an integer (no decimal point or exponent).
pub fn is_integer(bytes: &[u8]) -> (r: bool)
    ensures
        r == spec_is_integer(bytes@),
{
    let mut i: usize = 0;
    while i < bytes.len()
        invariant
            i <= bytes@.len(),
            forall|j: int| 0 <= j < i ==> #[trigger] bytes@[j] != 0x2e && bytes@[j] != 0x65 && bytes@[j] != 0x45,
        decreases bytes@.len() - i,
    {
        let b = bytes[i];
        if b == 0x2e || b == 0x65 || b == 0x45 {
            return false;
        }
        i = i + 1;
    }
    true
}

/// Parses an integer byte slice into NumberResult using the configured integer type.
pub fn parse_integer(bytes: &[u8]) -> (r: NumberResult)
    ensures
        r == spec_parse_integer(bytes@),
{
    match from_ascii_i64(bytes) {
        Ok(val) => NumberResult::Integer(val),
        Err(_) => NumberResult::IntegerOverflow,
    }
}

/// Parses a float byte slice with float support disabled: the value stays
/// text (`FloatDisabled`); bytes that are not UTF-8 are an invalid number.
pub fn parse_float(bytes: &[u8]) -> (r: Result<NumberResult, ParseError>)
    ensures
        valid_utf8(bytes@) ==> r == Ok::<NumberResult, ParseError>(NumberResult::FloatDisabled),
        !valid_utf8(bytes@) ==> r == Err::<NumberResult, ParseError>(ParseError::InvalidNumber),
{
    match crate::shared::from_utf8(bytes) {
        Ok(_) => Ok(NumberResult::FloatDisabled),
        Err(_) => Err(ParseError::InvalidNumber),
    }
}

/// How a number with a fraction or an exponent is handled without float
/// support: kept as text (the default), refused, skipped, or truncated to
/// its integer part.
#[derive(Debug, Clone, Copy, PartialEq, Eq, Structural)]
pub enum FloatHandling {
    /// The value stays text (`FloatDisabled`).
    Disabled,
    /// Such a number is an error (`FloatNotAllowed`).
    Error,
    /// The number is skipped (`FloatSkipped`).
    Skip,
    /// The digits before the decimal point are the value (`FloatTruncated`);
    /// a number with an exponent is invalid.
    Truncate,
}

/// Whether the bytes hold an exponent mark (`e` or `E`).
pub open spec fn has_exponent(bytes: Seq<u8>) -> bool {
    exists|k: int| 0 <= k < bytes.len() && (bytes[k] == 0x65u8 || bytes[k] == 0x45u8)
}

/// What truncating a number whose integer part is `int_part` gives.
pub open spec fn truncated(int_part: Seq<u8>) -> NumberResult {
    match spec_parse_integer(int_part) {
        NumberResult::Integer(v) => NumberResult::FloatTruncated(v),
        _ => NumberResult::IntegerOverflow,
    }
}

/// Parses a float byte slice without float support, as `handling` says;
/// bytes that are not UTF-8 are an invalid number.
pub fn parse_float_with(bytes: &[u8], handling: FloatHandling) -> (r: Result<NumberResult, ParseError>)
    ensures
        !valid_utf8(bytes@) ==> r == Err::<NumberResult, ParseError>(ParseError::InvalidNumber),
        valid_utf8(bytes@) ==> match handling {
            FloatHandling::Disabled => r == Ok::<NumberResult, ParseError>(NumberResult::FloatDisabled),
            FloatHandling::Error => r == Err::<NumberResult, ParseError>(ParseError::FloatNotAllowed),
            FloatHandling::Skip => r == Ok::<NumberResult, ParseError>(NumberResult::FloatSkipped),
            FloatHandling::Truncate => if has_exponent(bytes@) {
                r == Err::<NumberResult, ParseError>(ParseError::InvalidNumber)
            } else {
                exists|i: int|
                    #![trigger bytes@.take(i)]
                    0 <= i <= bytes@.len() && (forall|k: int| 0 <= k < i ==> bytes@[k] != 0x2eu8) && (i
                        == bytes@.len() || bytes@[i] == 0x2eu8) && r == Ok::<NumberResult, ParseError>(
                        truncated(bytes@.take(i)),
                    )
            },
        },
{
    if crate::shared::from_utf8(bytes).is_err() {
        return Err(ParseError::InvalidNumber);
    }
    match handling {
        FloatHandling::Disabled => Ok(NumberResult::FloatDisabled),
        FloatHandling::Error => Err(ParseError::FloatNotAllowed),
        FloatHandling::Skip => Ok(NumberResult::FloatSkipped),
        FloatHandling::Truncate => {
            let mut j: usize = 0;
            while j < bytes.len()
                invariant
                    j <= bytes.len(),
                    handling == FloatHandling::Truncate,
                    forall|k: int| 0 <= k < j ==> bytes@[k] != 0x65u8 && bytes@[k] != 0x45u8,
                decreases bytes.len() - j,
            {
                if bytes[j] == 0x65u8 || bytes[j] == 0x45u8 {
                    proof {
                        assert(0 <= j < bytes@.len() && (bytes@[j as int] == 0x65u8 || bytes@[j as int] == 0x45u8));
                    }
                    return Err(ParseError::InvalidNumber);
                }
                j = j + 1;
            }
            let mut i: usize = 0;
            while i < bytes.len() && bytes[i] != 0x2eu8
                invariant
                    i <= bytes.len(),
                    forall|k: int| 0 <= k < i ==> bytes@[k] != 0x2eu8,
                decreases bytes.len() - i,
            {
                i = i + 1;
            }
            let int_part = vstd::slice::slice_subrange(bytes, 0, i);
            proof {
                assert(int_part@ =~= bytes@.take(i as int));
            }
            let r = match parse_integer(int_part) {
                NumberResult::Integer(v) => NumberResult::FloatTruncated(v),
                _ => NumberResult::IntegerOverflow,
            };
            Ok(r)
        },
    }
}

} // verus!
