//! A character, or the end of input.

use crate::text::{char_debug_text, debug_char};
use vstd::prelude::*;

verus! {

/// Either a single character or the end of input.
///
/// It holds what an `Option<char>` holds, but says outright that the absent
/// case is the end of input, so that a message can name it.
#[derive(Clone, Copy, Debug, PartialEq, Eq, Structural)]
pub enum CharOrEof {
    Char(char),
    Eof,
}

impl From<Option<char>> for CharOrEof {
    fn from(value: Option<char>) -> (r: CharOrEof) {
        match value {
            Some(c) => CharOrEof::Char(c),
            None => CharOrEof::Eof,
        }
    }
}

impl vstd::std_specs::convert::FromSpecImpl<Option<char>> for CharOrEof {
    open spec fn obeys_from_spec() -> bool {
        true
    }

    open spec fn from_spec(value: Option<char>) -> CharOrEof {
        match value {
            Some(c) => CharOrEof::Char(c),
            None => CharOrEof::Eof,
        }
    }
}

impl From<char> for CharOrEof {
    fn from(value: char) -> (r: CharOrEof) {
        CharOrEof::Char(value)
    }
}

impl vstd::std_specs::convert::FromSpecImpl<char> for CharOrEof {
    open spec fn obeys_from_spec() -> bool {
        true
    }

    open spec fn from_spec(value: char) -> CharOrEof {
        CharOrEof::Char(value)
    }
}

impl CharOrEof {
    /// How a message quotes this value: a character as `{:?}` shows it, the end
    /// of input as `EOF`.
    pub open spec fn debug_view(self) -> Seq<char> {
        match self {
            CharOrEof::Char(c) => char_debug_text(c),
            CharOrEof::Eof => "EOF"@,
        }
    }

    /// How a message prints this value plainly: a character as itself, the end
    /// of input as nothing.
    pub open spec fn display_view(self) -> Seq<char> {
        match self {
            CharOrEof::Char(c) => seq![c],
            CharOrEof::Eof => Seq::empty(),
        }
    }

    /// The quoted form, for messages.
    pub fn debug_text(&self) -> (s: String)
        ensures
            s@ == self.debug_view(),
    {
        match self {
            CharOrEof::Char(c) => debug_char(*c),
            CharOrEof::Eof => String::from_str("EOF"),
        }
    }

    /// The plain form, for messages.
    pub fn display_text(&self) -> (s: String)
        ensures
            s@ == self.display_view(),
    {
        let mut s = String::new();
        match self {
            CharOrEof::Char(c) => {
                s.push(*c);
            },
            CharOrEof::Eof => {},
        }
        s
    }
}

} // verus!
