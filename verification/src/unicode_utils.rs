//! UTF-16 surrogates: telling them apart and joining a pair.

use crate::text::{lower_hex, push_lower_hex};
use vstd::prelude::*;

verus! {

/// What can go wrong in decoding Unicode escapes.
#[derive(Debug, PartialEq)]
pub enum UnicodeError {
    InvalidUnicode(String),
    InvalidSurrogatePair(String),
    Weirdness(String),
    Unknown,
}

/// A `UnicodeError` with its texts as sequences.
pub enum UnicodeErrorView {
    InvalidUnicode(Seq<char>),
    InvalidSurrogatePair(Seq<char>),
    Weirdness(Seq<char>),
    Unknown,
}

impl View for UnicodeError {
    type V = UnicodeErrorView;

    open spec fn view(&self) -> UnicodeErrorView {
        match self {
            UnicodeError::InvalidUnicode(m) => UnicodeErrorView::InvalidUnicode(m@),
            UnicodeError::InvalidSurrogatePair(m) => UnicodeErrorView::InvalidSurrogatePair(m@),
            UnicodeError::Weirdness(m) => UnicodeErrorView::Weirdness(m@),
            UnicodeError::Unknown => UnicodeErrorView::Unknown,
        }
    }
}

impl UnicodeErrorView {
    /// The text of the error as it is shown to a reader.
    pub open spec fn message(self) -> Seq<char> {
        match self {
            UnicodeErrorView::InvalidUnicode(m) => m,
            UnicodeErrorView::InvalidSurrogatePair(m) => "Error parsing surrogate pair: "@ + m,
            UnicodeErrorView::Weirdness(m) => "Weirdness that should never happen: "@ + m,
            UnicodeErrorView::Unknown => "Unknown error"@,
        }
    }
}

impl UnicodeError {
    /// The text of the error as it is shown to a reader.
    pub fn message(&self) -> (s: String)
        ensures
            s@ == self@.message(),
    {
        match self {
            UnicodeError::InvalidUnicode(m) => m.clone(),
            UnicodeError::InvalidSurrogatePair(m) => String::from_str(
                "Error parsing surrogate pair: ",
            ).concat(m.as_str()),
            UnicodeError::Weirdness(m) => String::from_str(
                "Weirdness that should never happen: ",
            ).concat(m.as_str()),
            UnicodeError::Unknown => String::from_str("Unknown error"),
        }
    }
}

/// A UTF-16 code unit in the surrogate range, high or low.
pub open spec fn surrogate(codepoint: u16) -> bool {
    0xD800 <= codepoint <= 0xDFFF
}

/// A high surrogate: the first unit of a pair.
pub open spec fn high_surrogate(codepoint: u16) -> bool {
    0xD800 <= codepoint <= 0xDBFF
}

/// A low surrogate: the second unit of a pair.
pub open spec fn low_surrogate(codepoint: u16) -> bool {
    0xDC00 <= codepoint <= 0xDFFF
}

/// Whether UTF-16 decoding of the two units yields a character from the
/// first unit on: the first is no surrogate (and is the character by itself),
/// or the two are a high and a low surrogate in that order.
pub open spec fn pair_decodes(first_half: u16, second_half: u16) -> bool {
    !surrogate(first_half) || (high_surrogate(first_half) && low_surrogate(second_half))
}

/// The character that UTF-16 decoding finds at the front of the two units.
pub open spec fn pair_char(first_half: u16, second_half: u16) -> char
    recommends
        pair_decodes(first_half, second_half),
{
    if !surrogate(first_half) {
        first_half as char
    } else {
        (0x10000 + (first_half - 0xD800) * 0x400 + (second_half - 0xDC00)) as char
    }
}

/// The text of the error for a first unit that has no partner.
pub open spec fn unpaired_text(first_half: u16) -> Seq<char> {
    "couldn't parse surrogate pair: unpaired surrogate found: "@ + lower_hex(first_half as nat)
}

#[inline]
pub fn is_surrogate(codepoint: u16) -> (r: bool)
    ensures
        r == surrogate(codepoint),
{
    0xD800 <= codepoint && codepoint <= 0xDFFF
}

/// Decodes the first character of the UTF-16 sequence `first_half`,
/// `second_half`.
///
/// A surrogate pair gives the character above the basic plane that it encodes.
/// A first unit that is no surrogate is a character by itself, whatever
/// follows. A first unit that is a surrogate without a fitting partner is an
/// error that names it.
pub fn decode_surrogate_pair(first_half: u16, second_half: u16) -> (r: Result<char, UnicodeError>)
    ensures
        match r {
            Ok(c) => pair_decodes(first_half, second_half) && c == pair_char(
                first_half,
                second_half,
            ),
            Err(e) => !pair_decodes(first_half, second_half) && e@
                == UnicodeErrorView::InvalidSurrogatePair(unpaired_text(first_half)),
        },
{
    let code: u32 = if !is_surrogate(first_half) {
        first_half as u32
    } else if first_half <= 0xDBFF && 0xDC00 <= second_half && second_half <= 0xDFFF {
        0x10000 + (first_half as u32 - 0xD800) * 0x400 + (second_half as u32 - 0xDC00)
    } else {
        0xD800
    };
    match char::from_u32(code) {
        Some(c) => Ok(c),
        None => {
            let mut message = String::from_str(
                "couldn't parse surrogate pair: unpaired surrogate found: ",
            );
            push_lower_hex(&mut message, first_half);
            Err(UnicodeError::InvalidSurrogatePair(message))
        },
    }
}

} // verus!
