//! String values handed out by the parsers.

use vstd::prelude::*;
use vstd::string::StringSliceAdditionalSpecFns;

verus! {

/// A JSON string or key, either borrowed from the input or unescaped into the
/// scratch buffer.
///
/// Lifetimes: 'a is the input slice lifetime, 'b is the scratch buffer lifetime
#[derive(Debug, PartialEq, Eq)]
pub enum String<'a, 'b> {
    /// A raw slice from the original input, used when no unescaping is needed.
    Borrowed(&'a str),
    /// A slice from the scratch buffer, used when the string had escapes.
    Unescaped(&'b str),
}

impl<'a, 'b> String<'a, 'b> {
    /// The text, wherever it is held.
    pub open spec fn text(&self) -> Seq<char> {
        match self {
            String::Borrowed(s) => s@,
            String::Unescaped(s) => s@,
        }
    }

    /// The UTF-8 bytes of the text, wherever it is held.
    pub open spec fn text_bytes(&self) -> Seq<u8> {
        match self {
            String::Borrowed(s) => s.spec_bytes(),
            String::Unescaped(s) => s.spec_bytes(),
        }
    }

    /// The string's text.
    pub fn as_str(&self) -> (r: &str)
        ensures
            r@ == self.text(),
    {
        match self {
            String::Borrowed(s) => s,
            String::Unescaped(s) => s,
        }
    }
}

} // verus!
