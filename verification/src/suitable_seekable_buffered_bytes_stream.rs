//! A character source that reads a byte stream in chunks and can rewind it
//! to where the reader stands.

use crate::error::io_error_other;
use crate::host_stream::{unread, HostStream};
use crate::opaque_seek::{OpaqueSeek, OpaqueSeekFrom};
use crate::park_cursor::ParkCursorChars;
use crate::read_bytes::ReadBytes;
use crate::remainder::{Remainder, StreamData, StreamDataView};
use crate::utf8_char_source::Utf8CharSource;
use crate::utf8_decode::{
    leading_chars, lemma_first_char_of_joined, lemma_valid_front, ByteBuffer, Decoded,
};
use vstd::prelude::*;

verus! {

/// A byte stream of the host, read in chunks of up to `buffer_size` bytes
/// and decoded as UTF-8, for a stream that can seek.
///
/// Before a chunk is read into the empty buffer the source asks the stream
/// where it stands. To park, it seeks back there and reads again as many
/// bytes as it has decoded since. Positions are never computed with.
pub struct SuitableSeekableBufferedBytesStream<B: ReadBytes + OpaqueSeek> {
    inner: B,
    buffer_size: usize,
    buffer: ByteBuffer,
    buf_start_seek_pos: Option<B::OpaqueSeekPos>,
}

impl<B: ReadBytes + OpaqueSeek> SuitableSeekableBufferedBytesStream<B> {
    /// The stream below.
    pub closed spec fn inner(&self) -> B {
        self.inner
    }

    /// How many bytes a chunk holds at most.
    pub closed spec fn chunk_size(&self) -> usize {
        self.buffer_size
    }

    /// The bytes read ahead: those that are read from the stream and not
    /// decoded yet.
    pub closed spec fn read_ahead(&self) -> Seq<u8> {
        self.buffer.rest()
    }

    /// A source on `inner` that reads `bufsize` bytes at a time.
    pub fn new(inner: B, bufsize: usize) -> (r: Self)
        requires
            bufsize > 0,
        ensures
            r.wf(),
            r.inner() == inner,
            r.chunk_size() == bufsize,
            r.read_ahead() == Seq::<u8>::empty(),
            r.pending() == leading_chars(unread(&inner)),
            r.reliable() == (inner.reliable() && vstd::utf8::valid_utf8(unread(&inner))
                && inner.cursor() <= inner.content().len()),
    {
        let r = SuitableSeekableBufferedBytesStream {
            inner,
            buffer_size: bufsize,
            buffer: ByteBuffer::new(),
            buf_start_seek_pos: None,
        };
        proof {
            assert(r.buffer.rest() == Seq::<u8>::empty());
            assert(r.buffer.rest() + unread(&r.inner) == unread(&r.inner));
        }
        r
    }

    /// Gives the stream below back. What was read ahead is lost.
    pub fn into_inner(self) -> (r: B)
        ensures
            r == self.inner(),
    {
        self.inner
    }

    /// What the source has yet to hand out are the characters of what it read
    /// ahead, then of what the stream has yet to deliver.
    pub proof fn lemma_pending(&self)
        ensures
            self.pending() == leading_chars(self.read_ahead() + unread(&self.inner())),
            self.underlying() == leading_chars(unread(&self.inner())),
            self.buffered() == StreamDataView::Bytes(self.read_ahead()),
    {
    }

    /// The buffer holds what the stream delivered since the position noted.
    spec fn anchored(&self) -> bool {
        let held = self.buffer.held();
        match self.buf_start_seek_pos {
            Some(p) => {
                &&& B::place(p) + held.len() == self.inner.cursor()
                &&& held.len() > 0 ==> {
                    &&& self.inner.cursor() <= self.inner.content().len()
                    &&& held == self.inner.content().subrange(
                        B::place(p) as int,
                        self.inner.cursor() as int,
                    )
                }
            },
            None => held.len() == 0 && self.buffer.used() == 0,
        }
    }

    /// Reads `count` bytes from the stream below and drops them.
    fn skip_bytes(&mut self, count: usize) -> (r: Result<(), std::io::Error>)
        ensures
            final(self).buffer_size == old(self).buffer_size,
            final(self).buffer == old(self).buffer,
            final(self).buf_start_seek_pos == old(self).buf_start_seek_pos,
            r is Ok ==> {
                &&& final(self).inner.content() == old(self).inner.content()
                &&& final(self).inner.cursor() == old(self).inner.cursor() + count
            },
            old(self).inner.reliable() && old(self).inner.cursor() + count <= old(
                self,
            ).inner.content().len() ==> r is Ok && final(self).inner.reliable(),
    {
        let mut left = count;
        while left > 0
            invariant
                left <= count,
                old(self).inner.reliable() ==> self.inner.reliable(),
                self.buffer_size == old(self).buffer_size,
                self.buffer == old(self).buffer,
                self.buf_start_seek_pos == old(self).buf_start_seek_pos,
                self.inner.content() == old(self).inner.content(),
                self.inner.cursor() == old(self).inner.cursor() + (count - left),
            decreases left,
        {
            let b = match self.inner.read_bytes(left) {
                Ok(b) => b,
                Err(e) => {
                    return Err(e);
                },
            };
            let n = b.len();
            if n == 0 {
                return Err(io_error_other("stream ended short of the position to park at"));
            }
            if n > left {
                return Err(io_error_other("broken stream: returns more bytes than requested"));
            }
            left = left - n;
        }
        Ok(())
    }
}

impl<B: ReadBytes + OpaqueSeek> Utf8CharSource for SuitableSeekableBufferedBytesStream<B> {
    closed spec fn wf(&self) -> bool {
        self.buffer_size > 0 && self.buffer.wf() && self.anchored()
    }

    closed spec fn pending(&self) -> Seq<char> {
        leading_chars(self.buffer.rest() + unread(&self.inner))
    }

    closed spec fn reliable(&self) -> bool {
        self.inner.reliable() && vstd::utf8::valid_utf8(
            self.buffer.rest() + unread(&self.inner),
        ) && self.inner.cursor() <= self.inner.content().len()
    }

    /// Decodes the next character from the bytes read ahead, after reading
    /// another chunk where they do not hold a whole character. Bytes that are
    /// no UTF-8, and a stream that ends within a character, are errors: the
    /// end is reported only where nothing is read ahead and the stream has
    /// nothing left.
    fn read_char(&mut self) -> (r: Result<Option<char>, std::io::Error>)
        ensures
            r matches Ok(None) ==> old(self).read_ahead().len() == 0 && unread(
                &old(self).inner(),
            ).len() == 0,
    {
        let ghost all = self.buffer.rest() + unread(&self.inner);
        loop
            invariant
                self.buffer_size > 0,
                self.buffer.wf(),
                self.anchored(),
                all == old(self).buffer.rest() + unread(&old(self).inner),
                self.buffer.rest() + unread(&self.inner) == all,
                old(self).reliable() ==> self.reliable(),
            decreases
                    (if self.buffer.rest().len() < 4 {
                        4 - self.buffer.rest().len()
                    } else {
                        0
                    }),
        {
            let ghost rest = self.buffer.rest();
            let ghost held = self.buffer.held();
            let ghost ahead = unread(&self.inner);
            proof {
                if self.reliable() && all.len() > 0 {
                    lemma_valid_front(all);
                    if rest.len() > 0 {
                        assert(all[0] == rest[0]);
                        let width = crate::utf8_decode::first_byte_width(rest[0]);
                        if width <= rest.len() {
                            assert(all.take(width as int) == rest.take(width as int));
                            assert(all.skip(width as int) == rest.skip(width as int) + ahead);
                        }
                    }
                }
            }
            match self.buffer.decode_front() {
                Err(e) => {
                    return Err(e);
                },
                Ok(Decoded::Char(c)) => {
                    proof {
                        lemma_first_char_of_joined(
                            rest,
                            ahead,
                            crate::utf8_decode::first_byte_width(rest[0]) as nat,
                        );
                        assert(leading_chars(all).skip(1) == leading_chars(
                            self.buffer.rest() + ahead,
                        ));
                    }
                    return Ok(Some(c));
                },
                Ok(Decoded::Empty) => {
                    let pos = match self.inner.seek(OpaqueSeekFrom::Current) {
                        Ok(pos) => pos,
                        Err(e) => {
                            return Err(e);
                        },
                    };
                    self.buf_start_seek_pos = Some(pos);
                    self.buffer.clear();
                    let ghost before = self.inner.cursor() as int;
                    let more = match self.inner.read_bytes(self.buffer_size) {
                        Ok(more) => more,
                        Err(e) => {
                            return Err(e);
                        },
                    };
                    if more.len() == 0 {
                        proof {
                            assert(all == Seq::<u8>::empty());
                            assert(self.buffer.rest() == Seq::<u8>::empty());
                        }
                        return Ok(None);
                    }
                    proof {
                        assert(Seq::<u8>::empty() + more@ == more@);
                        assert(more@ + unread(&self.inner) == all);
                        assert(more@ == self.inner.content().subrange(
                            before,
                            self.inner.cursor() as int,
                        ));
                    }
                    self.buffer.extend(more);
                },
                Ok(Decoded::Incomplete(_)) => {
                    let ghost before = self.inner.cursor() as int;
                    let more = match self.inner.read_bytes(self.buffer_size) {
                        Ok(more) => more,
                        Err(e) => {
                            return Err(e);
                        },
                    };
                    if more.len() == 0 {
                        return Err(self.buffer.incomplete());
                    }
                    proof {
                        assert(rest + more@ + unread(&self.inner) == all);
                        assert(more@ == self.inner.content().subrange(
                            before,
                            self.inner.cursor() as int,
                        ));
                        let p = self.buf_start_seek_pos->0;
                        assert(held + more@ == self.inner.content().subrange(
                            B::place(p) as int,
                            self.inner.cursor() as int,
                        ));
                    }
                    self.buffer.extend(more);
                },
            }
        }
    }
}

impl<B: ReadBytes + OpaqueSeek> ParkCursorChars for SuitableSeekableBufferedBytesStream<B> {
    closed spec fn underlying(&self) -> Seq<char> {
        leading_chars(unread(&self.inner))
    }

    open spec fn parks(&self) -> bool {
        true
    }

    /// Puts the cursor of the stream below right behind the last character
    /// handed out, whatever the size of the chunks, and drops what was read
    /// ahead: the stream then delivers, byte for byte, what was read ahead and
    /// what it had yet to deliver.
    fn park_cursor(&mut self) -> (r: Result<(), std::io::Error>)
        ensures
            r is Ok ==> {
                &&& final(self).read_ahead() == Seq::<u8>::empty()
                &&& unread(&final(self).inner()) == old(self).read_ahead() + unread(
                    &old(self).inner(),
                )
                &&& final(self).inner().content() == old(self).inner().content()
            },
    {
        let ghost rest = self.buffer.rest();
        let ghost held = self.buffer.held();
        let ghost content = self.inner.content();
        let ghost cursor = self.inner.cursor() as int;
        let consumed = self.buffer.consumed();
        match self.buf_start_seek_pos.take() {
            Some(buf_start_seek_pos) => {
                let ghost start = B::place(buf_start_seek_pos) as int;
                match self.inner.seek(OpaqueSeekFrom::Start(buf_start_seek_pos)) {
                    Ok(_) => {},
                    Err(e) => {
                        return Err(e);
                    },
                }
                match self.skip_bytes(consumed) {
                    Ok(()) => {},
                    Err(e) => {
                        return Err(e);
                    },
                }
                self.buffer.clear();
                proof {
                    if held.len() > 0 {
                        assert(consumed <= held.len());
                        assert(rest == content.subrange(start + consumed, cursor));
                        assert(content.skip(start + consumed) == content.subrange(
                            start + consumed,
                            cursor,
                        ) + content.skip(cursor));
                    } else {
                        assert(rest + unread(&old(self).inner) == unread(&old(self).inner));
                    }
                    assert(self.buffer.rest() == Seq::<u8>::empty());
                    assert(Seq::<u8>::empty() + unread(&self.inner) == unread(&self.inner));
                }
                Ok(())
            },
            None => {
                proof {
                    assert(rest == Seq::<u8>::empty());
                    assert(rest + unread(&self.inner) == unread(&self.inner));
                }
                Ok(())
            },
        }
    }
}

impl<B: ReadBytes + OpaqueSeek> Remainder for SuitableSeekableBufferedBytesStream<B> {
    closed spec fn buffered(&self) -> StreamDataView {
        StreamDataView::Bytes(self.buffer.rest())
    }

    /// Returns exactly the bytes that were read from the stream below and are
    /// not decoded yet.
    fn remainder(&self) -> (r: StreamData)
        ensures
            r@ == StreamDataView::Bytes(self.read_ahead()),
    {
        StreamData::Bytes(self.buffer.remaining())
    }
}

} // verus!
