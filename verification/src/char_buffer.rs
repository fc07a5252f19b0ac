//! The buffer of a text source: a string that is consumed one character at a
//! time, kept in an `OwnedChars`.

use owned_chars::OwnedChars;
use vstd::prelude::*;

verus! {

/// `owned_chars::OwnedChars`, an iterator over the characters of a string
/// that it owns.
#[verifier::external_type_specification]
#[verifier::external_body]
pub struct ExOwnedChars(OwnedChars);

/// The characters that the iterator has yet to yield, in order.
pub uninterp spec fn owned_rest(chars: OwnedChars) -> Seq<char>;

/// `OwnedChars::from_string` takes the string over; all of its characters
/// are yet to come.
pub assume_specification[ OwnedChars::from_string ](s: String) -> (chars: OwnedChars)
    ensures
        owned_rest(chars) == s@,
;

/// `OwnedChars::as_str` lends the part of the string that is yet to come.
pub assume_specification<'a>[ OwnedChars::as_str ](chars: &'a OwnedChars) -> (s: &'a str)
    ensures
        s@ == owned_rest(*chars),
;

/// Calls `Iterator::next` of `OwnedChars`, which yields the first character
/// that is yet to come, and `None` once there is none.
#[verifier::external_body]
pub(crate) fn next_owned_char(chars: &mut OwnedChars) -> (r: Option<char>)
    ensures
        match r {
            Some(c) => {
                &&& owned_rest(*old(chars)).len() > 0
                &&& c == owned_rest(*old(chars))[0]
                &&& owned_rest(*final(chars)) == owned_rest(*old(chars)).skip(1)
            },
            None => owned_rest(*old(chars)).len() == 0 && owned_rest(*final(chars)).len() == 0,
        },
{
    chars.next()
}

} // verus!
