//! Undoing read-ahead: leaving the stream's cursor where the reader stands.

use crate::utf8_char_source::Utf8CharSource;
use vstd::prelude::*;

verus! {

/// A character source that can park the cursor of the stream below it.
///
/// To park is to place that cursor right after the last character handed out,
/// whatever was read ahead into a buffer. Where the stream cannot seek this
/// is a no-op, and `parks` says so.
pub trait ParkCursorChars: Utf8CharSource {
    /// The characters that the stream below would deliver from where its own
    /// cursor stands now.
    open spec fn underlying(&self) -> Seq<char> {
        arbitrary()
    }

    /// Whether `park_cursor` undoes read-ahead on this source.
    open spec fn parks(&self) -> bool {
        arbitrary()
    }

    /// Parks the cursor. What the source has yet to hand out stays the same;
    /// where the source parks, the stream below then stands exactly there. A
    /// source that is reliable succeeds.
    fn park_cursor(&mut self) -> (r: Result<(), std::io::Error>)
        requires
            old(self).wf(),
        ensures
            r is Ok ==> {
                &&& final(self).wf()
                &&& final(self).pending() == old(self).pending()
                &&& final(self).parks() == old(self).parks()
                &&& old(self).parks() ==> final(self).underlying() == final(self).pending()
                &&& !old(self).parks() ==> final(self).underlying() == old(self).underlying()
            },
            old(self).reliable() ==> r is Ok && final(self).reliable(),
    ;
}

} // verus!
