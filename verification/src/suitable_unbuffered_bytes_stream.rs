//! A character source that reads a byte stream one character at a time.

use crate::error::io_error_other;
use crate::host_stream::{unread, HostStream};
use crate::park_cursor::ParkCursorChars;
use crate::read_bytes::ReadBytes;
use crate::remainder::{Remainder, StreamData, StreamDataView};
use crate::text::push_lower_hex;
use crate::utf8_char_source::Utf8CharSource;
use crate::utf8_decode::{
    first_byte_width, leading_chars, lemma_first_char, lemma_valid_front,
    lemma_valid_is_whole, utf8_error_text,
};
use utf8_width::get_width;
use vstd::prelude::*;

verus! {

/// A byte stream of the host, read one character per call.
///
/// Nothing is read ahead beyond the bytes of the character in hand, so the
/// stream's cursor is always right behind the last character handed out. The
/// price is at least one call into the host for every character.
pub struct SuitableUnbufferedBytesStream<B: ReadBytes> {
    inner: B,
}

impl<B: ReadBytes> SuitableUnbufferedBytesStream<B> {
    /// The stream below.
    pub closed spec fn inner(&self) -> B {
        self.inner
    }

    pub fn new(inner: B) -> (r: Self)
        ensures
            r.wf(),
            r.inner() == inner,
            r.pending() == leading_chars(unread(&inner)),
            r.reliable() == (inner.reliable() && vstd::utf8::valid_utf8(unread(&inner))),
    {
        SuitableUnbufferedBytesStream { inner }
    }

    /// Gives the stream below back.
    pub fn into_inner(self) -> (r: B)
        ensures
            r == self.inner(),
    {
        self.inner
    }

    /// The stream's cursor always stands where the reader stands.
    pub proof fn lemma_nothing_read_ahead(&self)
        ensures
            self.underlying() == self.pending(),
            self.pending() == leading_chars(unread(&self.inner())),
    {
    }
}

impl<B: ReadBytes> Utf8CharSource for SuitableUnbufferedBytesStream<B> {
    open spec fn wf(&self) -> bool {
        true
    }

    closed spec fn pending(&self) -> Seq<char> {
        leading_chars(unread(&self.inner))
    }

    closed spec fn reliable(&self) -> bool {
        self.inner.reliable() && vstd::utf8::valid_utf8(unread(&self.inner))
    }

    /// Reads the first byte of a character, then as many more as that byte
    /// announces, and decodes them. Bytes that are no UTF-8, and a stream that
    /// ends within a character, are errors: the end is reported only where
    /// the stream has nothing left.
    fn read_char(&mut self) -> (r: Result<Option<char>, std::io::Error>)
        ensures
            r matches Ok(None) ==> unread(&old(self).inner()).len() == 0,
    {
        let ghost before = unread(&self.inner);
        proof {
            if self.reliable() && before.len() > 0 {
                lemma_valid_front(before);
            }
        }
        let mut buf = match self.inner.read_bytes(1) {
            Ok(buf) => buf,
            Err(e) => {
                return Err(e);
            },
        };
        if buf.len() < 1 {
            // EOF
            return Ok(None);
        }
        if buf.len() > 1 {
            return Err(io_error_other("broken stream: returns more bytes than requested"));
        }
        // try to see if we're at the start of a unicode char:
        let n_bytes_in_char = get_width(buf[0]);
        if n_bytes_in_char == 0 {
            let mut message = String::from_str("invalid UTF-8 start byte: ");
            push_lower_hex(&mut message, buf[0] as u16);
            return Err(io_error_other(message.as_str()));
        }
        proof {
            assert(before.skip(1) == unread(&self.inner));
        }
        // if we're inside a unicode char, we try and read its remaining bytes;
        // where the stream ends first, what we have is no UTF-8
        let mut ended = false;
        while !ended && buf.len() < n_bytes_in_char
            invariant
                0 < buf.len() <= n_bytes_in_char <= 4,
                n_bytes_in_char == first_byte_width(before[0]),
                buf.len() <= before.len(),
                buf@ == before.take(buf.len() as int),
                unread(&self.inner) == before.skip(buf.len() as int),
                before == unread(&old(self).inner),
                old(self).reliable() ==> self.inner.reliable() && !ended && n_bytes_in_char
                    <= before.len(),
            decreases
                    (if ended {
                        0int
                    } else {
                        1int
                    }),
                    n_bytes_in_char - buf.len(),
        {
            let ghost had = buf@;
            let ghost rest = unread(&self.inner);
            let mut more = match self.inner.read_bytes(n_bytes_in_char - buf.len()) {
                Ok(more) => more,
                Err(e) => {
                    return Err(e);
                },
            };
            if more.len() > n_bytes_in_char - buf.len() {
                return Err(io_error_other("broken stream: returns more bytes than requested"));
            }
            if more.len() == 0 {
                ended = true;
            } else {
                proof {
                    assert(had + more@ == before.take((had.len() + more@.len()) as int));
                    assert(rest.skip(more@.len() as int) == before.skip(
                        (had.len() + more@.len()) as int,
                    ));
                }
                buf.append(&mut more);
            }
        }
        match core::str::from_utf8(buf.as_slice()) {
            Err(e) => Err(io_error_other(utf8_error_text(&e).as_str())),
            Ok(s) => {
                proof {
                    lemma_valid_is_whole(buf@);
                    lemma_first_char(before, n_bytes_in_char as nat);
                    vstd::utf8::encode_utf8_decode_utf8(s@);
                }
                Ok(Some(s.get_char(0)))
            },
        }
    }
}

impl<B: ReadBytes> ParkCursorChars for SuitableUnbufferedBytesStream<B> {
    closed spec fn underlying(&self) -> Seq<char> {
        leading_chars(unread(&self.inner))
    }

    open spec fn parks(&self) -> bool {
        true
    }

    fn park_cursor(&mut self) -> (r: Result<(), std::io::Error>)
        ensures
            r is Ok,
            *final(self) == *old(self),
    {
        // no-op
        Ok(())
    }
}

impl<B: ReadBytes> Remainder for SuitableUnbufferedBytesStream<B> {
    open spec fn buffered(&self) -> StreamDataView {
        StreamDataView::Bytes(Seq::empty())
    }

    fn remainder(&self) -> (r: StreamData) {
        StreamData::Bytes(Vec::new())
    }
}

} // verus!
