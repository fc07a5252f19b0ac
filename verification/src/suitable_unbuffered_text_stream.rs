//! A character source that reads a text stream one character at a time.

use crate::error::io_error_other;
use crate::host_stream::unread;
use crate::park_cursor::ParkCursorChars;
use crate::read_string::ReadString;
use crate::remainder::{Remainder, StreamData, StreamDataView};
use crate::text::chars_of;
use crate::utf8_char_source::Utf8CharSource;
use vstd::prelude::*;

verus! {

/// A text stream of the host, read one character per call.
///
/// Nothing is read ahead, so the stream's cursor is always right behind the
/// last character handed out. The price is one call into the host for every
/// character.
pub struct SuitableUnbufferedTextStream<T: ReadString> {
    inner: T,
}

/// What a read of one character amounts to: the character, the end of the
/// stream, or, where more than one character came, nothing that can be used.
pub open spec fn single_char(s: Seq<char>) -> Option<Option<char>> {
    if s.len() == 0 {
        Some(None)
    } else if s.len() == 1 {
        Some(Some(s[0]))
    } else {
        None
    }
}

/// Takes the one character out of what a read of one character returned.
pub fn char_of_single_read(s: &str) -> (r: Result<Option<char>, std::io::Error>)
    ensures
        match single_char(s@) {
            Some(c) => r == Ok::<Option<char>, std::io::Error>(c),
            None => r is Err,
        },
{
    let chars = chars_of(s);
    if chars.len() == 0 {
        Ok(None)
    } else if chars.len() == 1 {
        Ok(Some(chars[0]))
    } else {
        Err(
            io_error_other(
                "got more than 1 char from read_string(1), which should never happen...",
            ),
        )
    }
}

impl<T: ReadString> SuitableUnbufferedTextStream<T> {
    /// The stream below.
    pub closed spec fn inner(&self) -> T {
        self.inner
    }

    pub fn new(inner: T) -> (r: Self)
        ensures
            r.wf(),
            r.inner() == inner,
            r.pending() == unread(&inner),
            r.reliable() == inner.reliable(),
    {
        SuitableUnbufferedTextStream { inner }
    }

    /// Gives the stream below back.
    pub fn into_inner(self) -> (r: T)
        ensures
            r == self.inner(),
    {
        self.inner
    }
}

impl<T: ReadString> Utf8CharSource for SuitableUnbufferedTextStream<T> {
    open spec fn wf(&self) -> bool {
        true
    }

    closed spec fn pending(&self) -> Seq<char> {
        unread(&self.inner)
    }

    closed spec fn reliable(&self) -> bool {
        self.inner.reliable()
    }

    fn read_char(&mut self) -> (r: Result<Option<char>, std::io::Error>) {
        let s = match self.inner.read_string(1) {
            Ok(s) => s,
            Err(e) => {
                return Err(e);
            },
        };
        proof {
            let before = unread(&old(self).inner);
            if s@.len() == 1 {
                assert(before.skip(1) == unread(&self.inner));
            }
        }
        char_of_single_read(s.as_str())
    }
}

impl<T: ReadString> ParkCursorChars for SuitableUnbufferedTextStream<T> {
    closed spec fn underlying(&self) -> Seq<char> {
        unread(&self.inner)
    }

    open spec fn parks(&self) -> bool {
        true
    }

    fn park_cursor(&mut self) -> (r: Result<(), std::io::Error>)
        ensures
            r is Ok,
            *final(self) == *old(self),
    {
        Ok(())
    }
}

impl<T: ReadString> Remainder for SuitableUnbufferedTextStream<T> {
    open spec fn buffered(&self) -> StreamDataView {
        StreamDataView::Text(Seq::empty())
    }

    fn remainder(&self) -> (r: StreamData) {
        StreamData::Text(String::new())
    }
}

impl<T: ReadString> SuitableUnbufferedTextStream<T> {
    /// The stream's cursor always stands where the reader stands.
    pub proof fn lemma_nothing_read_ahead(&self)
        ensures
            self.underlying() == self.pending(),
            self.pending() == unread(&self.inner()),
    {
    }
}

} // verus!
