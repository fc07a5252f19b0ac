//! A character source that reads a byte stream in chunks and cannot give
//! back what it read ahead.

use crate::host_stream::unread;
use crate::park_cursor::ParkCursorChars;
use crate::read_bytes::ReadBytes;
use crate::remainder::{Remainder, StreamData, StreamDataView};
use crate::utf8_char_source::Utf8CharSource;
use crate::utf8_decode::{
    leading_chars, lemma_first_char_of_joined, lemma_valid_front, ByteBuffer, Decoded,
};
use vstd::prelude::*;

verus! {

/// A byte stream of the host, read in chunks of up to `buffer_size` bytes
/// and decoded as UTF-8, for a stream that cannot seek.
///
/// The stream's cursor stands behind the chunk read last, not behind the last
/// character handed out, and parking cannot mend that. In its place
/// `remainder` returns what was read ahead, for the caller to account for.
pub struct SuitableUnseekableBufferedBytesStream<B: ReadBytes> {
    inner: B,
    buffer_size: usize,
    buffer: ByteBuffer,
}

impl<B: ReadBytes> SuitableUnseekableBufferedBytesStream<B> {
    /// The stream below.
    pub closed spec fn inner(&self) -> B {
        self.inner
    }

    /// How many bytes a chunk holds at most.
    pub closed spec fn chunk_size(&self) -> usize {
        self.buffer_size
    }

    /// The bytes read ahead: those that are read from the stream and not
    /// decoded yet.
    pub closed spec fn read_ahead(&self) -> Seq<u8> {
        self.buffer.rest()
    }

    /// A source on `inner` that reads `bufsize` bytes at a time.
    pub fn new(inner: B, bufsize: usize) -> (r: Self)
        requires
            bufsize > 0,
        ensures
            r.wf(),
            r.inner() == inner,
            r.chunk_size() == bufsize,
            r.read_ahead() == Seq::<u8>::empty(),
            r.pending() == leading_chars(unread(&inner)),
            r.reliable() == (inner.reliable() && vstd::utf8::valid_utf8(unread(&inner))),
    {
        let r = SuitableUnseekableBufferedBytesStream {
            inner,
            buffer_size: bufsize,
            buffer: ByteBuffer::new(),
        };
        proof {
            assert(r.buffer.rest() == Seq::<u8>::empty());
            assert(r.buffer.rest() + unread(&r.inner) == unread(&r.inner));
        }
        r
    }

    /// Gives the stream below back. What was read ahead is lost.
    pub fn into_inner(self) -> (r: B)
        ensures
            r == self.inner(),
    {
        self.inner
    }

    /// What the source has yet to hand out are the characters of what it read
    /// ahead, then of what the stream has yet to deliver.
    pub proof fn lemma_pending(&self)
        ensures
            self.pending() == leading_chars(self.read_ahead() + unread(&self.inner())),
            self.underlying() == leading_chars(unread(&self.inner())),
            self.buffered() == StreamDataView::Bytes(self.read_ahead()),
    {
    }
}

impl<B: ReadBytes> Utf8CharSource for SuitableUnseekableBufferedBytesStream<B> {
    closed spec fn wf(&self) -> bool {
        self.buffer_size > 0 && self.buffer.wf()
    }

    closed spec fn pending(&self) -> Seq<char> {
        leading_chars(self.buffer.rest() + unread(&self.inner))
    }

    closed spec fn reliable(&self) -> bool {
        self.inner.reliable() && vstd::utf8::valid_utf8(
            self.buffer.rest() + unread(&self.inner),
        )
    }

    /// Decodes the next character from the bytes read ahead, after reading
    /// another chunk where they do not hold a whole character. Bytes that are
    /// no UTF-8, and a stream that ends within a character, are errors: the
    /// end is reported only where nothing is read ahead and the stream has
    /// nothing left.
    fn read_char(&mut self) -> (r: Result<Option<char>, std::io::Error>)
        ensures
            r matches Ok(None) ==> old(self).read_ahead().len() == 0 && unread(
                &old(self).inner(),
            ).len() == 0,
    {
        let ghost all = self.buffer.rest() + unread(&self.inner);
        loop
            invariant
                self.buffer_size > 0,
                self.buffer.wf(),
                all == old(self).buffer.rest() + unread(&old(self).inner),
                self.buffer.rest() + unread(&self.inner) == all,
                old(self).reliable() ==> self.reliable(),
            decreases
                    (if self.buffer.rest().len() < 4 {
                        4 - self.buffer.rest().len()
                    } else {
                        0
                    }),
        {
            let ghost rest = self.buffer.rest();
            let ghost ahead = unread(&self.inner);
            proof {
                if self.reliable() && all.len() > 0 {
                    lemma_valid_front(all);
                    if rest.len() > 0 {
                        assert(all[0] == rest[0]);
                        let width = crate::utf8_decode::first_byte_width(rest[0]);
                        if width <= rest.len() {
                            assert(all.take(width as int) == rest.take(width as int));
                            assert(all.skip(width as int) == rest.skip(width as int) + ahead);
                        }
                    }
                }
            }
            match self.buffer.decode_front() {
                Err(e) => {
                    return Err(e);
                },
                Ok(Decoded::Char(c)) => {
                    proof {
                        lemma_first_char_of_joined(
                            rest,
                            ahead,
                            crate::utf8_decode::first_byte_width(rest[0]) as nat,
                        );
                        assert(leading_chars(all).skip(1) == leading_chars(
                            self.buffer.rest() + ahead,
                        ));
                    }
                    return Ok(Some(c));
                },
                Ok(Decoded::Empty) => {
                    let more = match self.inner.read_bytes(self.buffer_size) {
                        Ok(more) => more,
                        Err(e) => {
                            return Err(e);
                        },
                    };
                    if more.len() == 0 {
                        proof {
                            assert(all == Seq::<u8>::empty());
                        }
                        return Ok(None);
                    }
                    proof {
                        assert(rest + more@ + unread(&self.inner) == all);
                    }
                    self.buffer.extend(more);
                },
                Ok(Decoded::Incomplete(_)) => {
                    let more = match self.inner.read_bytes(self.buffer_size) {
                        Ok(more) => more,
                        Err(e) => {
                            return Err(e);
                        },
                    };
                    if more.len() == 0 {
                        return Err(self.buffer.incomplete());
                    }
                    proof {
                        assert(rest + more@ + unread(&self.inner) == all);
                    }
                    self.buffer.extend(more);
                },
            }
        }
    }
}

impl<B: ReadBytes> ParkCursorChars for SuitableUnseekableBufferedBytesStream<B> {
    closed spec fn underlying(&self) -> Seq<char> {
        leading_chars(unread(&self.inner))
    }

    open spec fn parks(&self) -> bool {
        false
    }

    fn park_cursor(&mut self) -> (r: Result<(), std::io::Error>)
        ensures
            r is Ok,
            *final(self) == *old(self),
    {
        // no-op
        Ok(())
    }
}

impl<B: ReadBytes> Remainder for SuitableUnseekableBufferedBytesStream<B> {
    closed spec fn buffered(&self) -> StreamDataView {
        StreamDataView::Bytes(self.buffer.rest())
    }

    /// Returns exactly the bytes that were read from the stream below and are
    /// not decoded yet.
    fn remainder(&self) -> (r: StreamData)
        ensures
            r@ == StreamDataView::Bytes(self.read_ahead()),
    {
        StreamData::Bytes(self.buffer.remaining())
    }
}

} // verus!
