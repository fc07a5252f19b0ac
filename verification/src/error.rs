//! The errors that tokenizing reports.

use crate::unicode_utils::UnicodeError;
use vstd::prelude::*;

verus! {

/// `std::io::Error`, carried through as the host stream gave it.
#[verifier::external_type_specification]
#[verifier::external_body]
pub struct ExIoError(std::io::Error);

/// Makes an I/O error of kind `Other` that carries `message`, by
/// `std::io::Error::new`.
#[verifier::external_body]
pub(crate) fn io_error_other(message: &str) -> std::io::Error {
    std::io::Error::new(std::io::ErrorKind::Other, message)
}

/// Why a piece of input could not be tokenized.
#[derive(Debug, PartialEq)]
pub enum ParsingError {
    /// The input is not well-formed JSON; the text says how.
    InvalidJson(String),
    /// The input is well-formed, but this build cannot represent a value in it.
    Limitation(String),
    Unknown,
}

/// A `ParsingError` with its texts as sequences.
pub enum ParsingErrorView {
    InvalidJson(Seq<char>),
    Limitation(Seq<char>),
    Unknown,
}

impl View for ParsingError {
    type V = ParsingErrorView;

    open spec fn view(&self) -> ParsingErrorView {
        match self {
            ParsingError::InvalidJson(m) => ParsingErrorView::InvalidJson(m@),
            ParsingError::Limitation(m) => ParsingErrorView::Limitation(m@),
            ParsingError::Unknown => ParsingErrorView::Unknown,
        }
    }
}

impl ParsingErrorView {
    /// The text of the error as it is shown to a reader.
    pub open spec fn message(self) -> Seq<char> {
        match self {
            ParsingErrorView::InvalidJson(m) => m,
            ParsingErrorView::Limitation(m) => "Error due to limitation: "@ + m,
            ParsingErrorView::Unknown => "Unknown error"@,
        }
    }
}

impl ParsingError {
    /// The text of the error as it is shown to a reader.
    pub fn message(&self) -> (s: String)
        ensures
            s@ == self@.message(),
    {
        match self {
            ParsingError::InvalidJson(m) => m.clone(),
            ParsingError::Limitation(m) => String::from_str("Error due to limitation: ").concat(
                m.as_str(),
            ),
            ParsingError::Unknown => String::from_str("Unknown error"),
        }
    }

    /// An `InvalidJson` error whose text is `prefix` followed by `detail`.
    pub(crate) fn invalid(prefix: &str, detail: &str) -> (e: ParsingError)
        ensures
            e@ == ParsingErrorView::InvalidJson(prefix@ + detail@),
    {
        ParsingError::InvalidJson(String::from_str(prefix).concat(detail))
    }
}

impl From<UnicodeError> for ParsingError {
    fn from(e: UnicodeError) -> (r: ParsingError)
        ensures
            r@ == ParsingErrorView::InvalidJson("error parsing unicode: "@ + e@.message()),
    {
        ParsingError::InvalidJson(String::from_str("error parsing unicode: ").concat(
            e.message().as_str(),
        ))
    }
}

impl vstd::std_specs::convert::FromSpecImpl<UnicodeError> for ParsingError {
    open spec fn obeys_from_spec() -> bool {
        false
    }

    open spec fn from_spec(e: UnicodeError) -> ParsingError {
        ParsingError::Unknown
    }
}

/// Why the token stream stopped: the input was at fault, or the host stream.
#[derive(Debug)]
pub enum JsonStreamingError {
    ParsingError(ParsingError),
    IOError(std::io::Error),
}

impl From<ParsingError> for JsonStreamingError {
    fn from(e: ParsingError) -> (r: JsonStreamingError) {
        JsonStreamingError::ParsingError(e)
    }
}

impl vstd::std_specs::convert::FromSpecImpl<ParsingError> for JsonStreamingError {
    open spec fn obeys_from_spec() -> bool {
        true
    }

    open spec fn from_spec(e: ParsingError) -> JsonStreamingError {
        JsonStreamingError::ParsingError(e)
    }
}

impl From<std::io::Error> for JsonStreamingError {
    fn from(e: std::io::Error) -> (r: JsonStreamingError) {
        JsonStreamingError::IOError(e)
    }
}

impl vstd::std_specs::convert::FromSpecImpl<std::io::Error> for JsonStreamingError {
    open spec fn obeys_from_spec() -> bool {
        true
    }

    open spec fn from_spec(e: std::io::Error) -> JsonStreamingError {
        JsonStreamingError::IOError(e)
    }
}

} // verus!
