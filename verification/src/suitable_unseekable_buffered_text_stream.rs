//! A character source that reads a text stream in chunks and cannot give
//! back what it read ahead.

use crate::char_buffer::{next_owned_char, owned_rest};
use crate::host_stream::unread;
use crate::park_cursor::ParkCursorChars;
use crate::read_string::ReadString;
use crate::remainder::{Remainder, StreamData, StreamDataView};
use crate::utf8_char_source::Utf8CharSource;
use owned_chars::OwnedChars;
use vstd::prelude::*;

verus! {

/// A text stream of the host, read in chunks of up to `buffer_size`
/// characters, for a stream that cannot seek.
///
/// The stream's cursor stands behind the chunk read last, not behind the last
/// character handed out, and parking cannot mend that. In its place
/// `remainder` returns what was read ahead, for the caller to account for.
pub struct SuitableUnseekableBufferedTextStream<T: ReadString> {
    inner: T,
    buffer_size: usize,
    chars_iter: OwnedChars,
    chars_read_from_buf: usize,
}

impl<T: ReadString> SuitableUnseekableBufferedTextStream<T> {
    /// The stream below.
    pub closed spec fn inner(&self) -> T {
        self.inner
    }

    /// How many characters a chunk holds at most.
    pub closed spec fn chunk_size(&self) -> usize {
        self.buffer_size
    }

    /// The characters read ahead: those of the chunk that are not handed out
    /// yet.
    pub closed spec fn read_ahead(&self) -> Seq<char> {
        owned_rest(self.chars_iter)
    }

    /// How many characters of the chunk are handed out.
    pub closed spec fn handed_out(&self) -> usize {
        self.chars_read_from_buf
    }

    /// A source on `inner` that reads `buffer_size` characters at a time.
    pub fn new(inner: T, buffer_size: usize) -> (r: Self)
        requires
            buffer_size > 0,
        ensures
            r.wf(),
            r.inner() == inner,
            r.chunk_size() == buffer_size,
            r.read_ahead() == Seq::<char>::empty(),
            r.pending() == unread(&inner),
            r.reliable() == inner.reliable(),
    {
        SuitableUnseekableBufferedTextStream {
            inner,
            buffer_size,
            chars_iter: OwnedChars::from_string(String::new()),
            chars_read_from_buf: 0,
        }
    }

    /// Gives the stream below back. What was read ahead is lost.
    pub fn into_inner(self) -> (r: T)
        ensures
            r == self.inner(),
    {
        self.inner
    }

    /// What the source has yet to hand out is what it read ahead, then what
    /// the stream has yet to deliver.
    pub proof fn lemma_pending(&self)
        ensures
            self.pending() == self.read_ahead() + unread(&self.inner()),
            self.underlying() == unread(&self.inner()),
            self.buffered() == StreamDataView::Text(self.read_ahead()),
    {
    }
}

impl<T: ReadString> Utf8CharSource for SuitableUnseekableBufferedTextStream<T> {
    closed spec fn wf(&self) -> bool {
        &&& self.buffer_size > 0
        &&& self.chars_read_from_buf + owned_rest(self.chars_iter).len() <= self.buffer_size
    }

    closed spec fn pending(&self) -> Seq<char> {
        owned_rest(self.chars_iter) + unread(&self.inner)
    }

    closed spec fn reliable(&self) -> bool {
        self.inner.reliable()
    }

    fn read_char(&mut self) -> (r: Result<Option<char>, std::io::Error>) {
        let ghost rest = owned_rest(self.chars_iter);
        let ghost ahead = unread(&self.inner);
        if let Some(c) = next_owned_char(&mut self.chars_iter) {
            proof {
                assert((rest + ahead).skip(1) == rest.skip(1) + ahead);
            }
            self.chars_read_from_buf += 1;
            Ok(Some(c))
        } else {
            let buf = match self.inner.read_string(self.buffer_size) {
                Ok(buf) => buf,
                Err(e) => {
                    return Err(e);
                },
            };
            let ghost chunk = buf@;
            proof {
                assert(rest + ahead == ahead);
                assert(ahead == chunk + unread(&self.inner));
            }
            self.chars_iter = OwnedChars::from_string(buf);
            self.chars_read_from_buf = 0;
            let oc = next_owned_char(&mut self.chars_iter);
            if oc.is_some() {
                proof {
                    assert((chunk + unread(&self.inner)).skip(1) == chunk.skip(1) + unread(
                        &self.inner,
                    ));
                }
                self.chars_read_from_buf += 1;
            }
            Ok(oc)
        }
    }
}

impl<T: ReadString> ParkCursorChars for SuitableUnseekableBufferedTextStream<T> {
    closed spec fn underlying(&self) -> Seq<char> {
        unread(&self.inner)
    }

    open spec fn parks(&self) -> bool {
        false
    }

    fn park_cursor(&mut self) -> (r: Result<(), std::io::Error>)
        ensures
            r is Ok,
            *final(self) == *old(self),
    {
        Ok(())
    }
}

impl<T: ReadString> Remainder for SuitableUnseekableBufferedTextStream<T> {
    closed spec fn buffered(&self) -> StreamDataView {
        StreamDataView::Text(owned_rest(self.chars_iter))
    }

    /// Returns exactly the characters that were read from the stream below
    /// and are not handed out yet.
    fn remainder(&self) -> (r: StreamData)
        ensures
            r@ == StreamDataView::Text(self.read_ahead()),
            self.read_ahead() + self.underlying() == self.pending(),
    {
        StreamData::Text(String::from_str(self.chars_iter.as_str()))
    }
}

} // verus!
