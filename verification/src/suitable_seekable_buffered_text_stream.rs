//! A character source that reads a text stream in chunks and can rewind it
//! to where the reader stands.

use crate::char_buffer::{next_owned_char, owned_rest};
use crate::error::io_error_other;
use crate::host_stream::{unread, HostStream};
use crate::opaque_seek::{OpaqueSeek, OpaqueSeekFrom};
use crate::park_cursor::ParkCursorChars;
use crate::read_string::ReadString;
use crate::remainder::{Remainder, StreamData, StreamDataView};
use crate::utf8_char_source::Utf8CharSource;
use owned_chars::OwnedChars;
use vstd::prelude::*;

verus! {

/// A text stream of the host, read in chunks of up to `buffer_size`
/// characters, for a stream that can seek.
///
/// Before each chunk the source asks the stream where it stands. To park, it
/// seeks back there and reads again as many characters as it has handed out
/// of the chunk. Positions are never computed with: how far the cursor moves
/// for a character is the stream's own business.
pub struct SuitableSeekableBufferedTextStream<T: ReadString + OpaqueSeek> {
    inner: T,
    buffer_size: usize,
    chars_iter: OwnedChars,
    chars_read_from_buf: usize,
    buf_start_seek_pos: Option<T::OpaqueSeekPos>,
}

impl<T: ReadString + OpaqueSeek> SuitableSeekableBufferedTextStream<T> {
    /// The stream below.
    pub closed spec fn inner(&self) -> T {
        self.inner
    }

    /// How many characters a chunk holds at most.
    pub closed spec fn chunk_size(&self) -> usize {
        self.buffer_size
    }

    /// The characters read ahead: those of the chunk that are not handed out
    /// yet.
    pub closed spec fn read_ahead(&self) -> Seq<char> {
        owned_rest(self.chars_iter)
    }

    /// A source on `inner` that reads `buffer_size` characters at a time.
    pub fn new(inner: T, buffer_size: usize) -> (r: Self)
        requires
            buffer_size > 0,
        ensures
            r.wf(),
            r.inner() == inner,
            r.chunk_size() == buffer_size,
            r.read_ahead() == Seq::<char>::empty(),
            r.pending() == unread(&inner),
            r.reliable() == (inner.reliable() && inner.cursor() <= inner.content().len()),
    {
        SuitableSeekableBufferedTextStream {
            inner,
            buffer_size,
            chars_iter: OwnedChars::from_string(String::new()),
            chars_read_from_buf: 0,
            buf_start_seek_pos: None,
        }
    }

    /// Gives the stream below back. What was read ahead is lost.
    pub fn into_inner(self) -> (r: T)
        ensures
            r == self.inner(),
    {
        self.inner
    }

    /// What the source has yet to hand out is what it read ahead, then what
    /// the stream has yet to deliver.
    pub proof fn lemma_pending(&self)
        ensures
            self.pending() == self.read_ahead() + unread(&self.inner()),
            self.underlying() == unread(&self.inner()),
            self.buffered() == StreamDataView::Text(self.read_ahead()),
    {
    }

    /// Reads `count` characters from the stream below and drops them.
    fn skip_chars(&mut self, count: usize) -> (r: Result<(), std::io::Error>)
        ensures
            final(self).buffer_size == old(self).buffer_size,
            final(self).chars_iter == old(self).chars_iter,
            final(self).chars_read_from_buf == old(self).chars_read_from_buf,
            final(self).buf_start_seek_pos == old(self).buf_start_seek_pos,
            r is Ok ==> {
                &&& final(self).inner.content() == old(self).inner.content()
                &&& final(self).inner.cursor() == old(self).inner.cursor() + count
            },
            old(self).inner.reliable() && old(self).inner.cursor() + count <= old(
                self,
            ).inner.content().len() ==> r is Ok && final(self).inner.reliable(),
    {
        let mut left = count;
        while left > 0
            invariant
                left <= count,
                old(self).inner.reliable() ==> self.inner.reliable(),
                self.buffer_size == old(self).buffer_size,
                self.chars_iter == old(self).chars_iter,
                self.chars_read_from_buf == old(self).chars_read_from_buf,
                self.buf_start_seek_pos == old(self).buf_start_seek_pos,
                self.inner.content() == old(self).inner.content(),
                self.inner.cursor() == old(self).inner.cursor() + (count - left),
            decreases left,
        {
            let s = match self.inner.read_string(left) {
                Ok(s) => s,
                Err(e) => {
                    return Err(e);
                },
            };
            let n = s.as_str().unicode_len();
            if n == 0 {
                return Err(io_error_other("stream ended short of the position to park at"));
            }
            if n > left {
                return Err(io_error_other("broken stream: returns more than requested"));
            }
            left = left - n;
        }
        Ok(())
    }
}

impl<T: ReadString + OpaqueSeek> Utf8CharSource for SuitableSeekableBufferedTextStream<T> {
    closed spec fn wf(&self) -> bool {
        let rest = owned_rest(self.chars_iter);
        &&& self.buffer_size > 0
        &&& self.chars_read_from_buf + rest.len() <= self.buffer_size
        &&& match self.buf_start_seek_pos {
            Some(p) => {
                &&& T::place(p) + self.chars_read_from_buf + rest.len() == self.inner.cursor()
                &&& rest.len() > 0 ==> {
                    &&& self.inner.cursor() <= self.inner.content().len()
                    &&& rest == self.inner.content().subrange(
                        self.inner.cursor() - rest.len(),
                        self.inner.cursor() as int,
                    )
                }
            },
            None => rest.len() == 0 && self.chars_read_from_buf == 0,
        }
    }

    closed spec fn pending(&self) -> Seq<char> {
        owned_rest(self.chars_iter) + unread(&self.inner)
    }

    closed spec fn reliable(&self) -> bool {
        self.inner.reliable() && self.inner.cursor() <= self.inner.content().len()
    }

    fn read_char(&mut self) -> (r: Result<Option<char>, std::io::Error>) {
        let ghost rest = owned_rest(self.chars_iter);
        let ghost ahead = unread(&self.inner);
        if let Some(c) = next_owned_char(&mut self.chars_iter) {
            proof {
                assert((rest + ahead).skip(1) == rest.skip(1) + ahead);
                let content = self.inner.content();
                let cursor = self.inner.cursor() as int;
                assert(rest.skip(1) == content.subrange(cursor - (rest.len() - 1), cursor));
            }
            self.chars_read_from_buf += 1;
            Ok(Some(c))
        } else {
            let pos = match self.inner.seek(OpaqueSeekFrom::Current) {
                Ok(pos) => pos,
                Err(e) => {
                    return Err(e);
                },
            };
            self.buf_start_seek_pos = Some(pos);
            self.chars_read_from_buf = 0;
            let buf = match self.inner.read_string(self.buffer_size) {
                Ok(buf) => buf,
                Err(e) => {
                    return Err(e);
                },
            };
            let ghost chunk = buf@;
            proof {
                assert(rest + ahead == ahead);
                assert(ahead == chunk + unread(&self.inner));
                if chunk.len() > 0 {
                    let content = self.inner.content();
                    let cursor = self.inner.cursor() as int;
                    assert(chunk == content.subrange(cursor - chunk.len(), cursor));
                }
            }
            self.chars_iter = OwnedChars::from_string(buf);
            let oc = next_owned_char(&mut self.chars_iter);
            if let Some(_) = oc {
                proof {
                    assert((chunk + unread(&self.inner)).skip(1) == chunk.skip(1) + unread(
                        &self.inner,
                    ));
                    let content = self.inner.content();
                    let cursor = self.inner.cursor() as int;
                    assert(chunk.skip(1) == content.subrange(cursor - (chunk.len() - 1), cursor));
                }
                self.chars_read_from_buf += 1;
            }
            Ok(oc)
        }
    }
}

impl<T: ReadString + OpaqueSeek> ParkCursorChars for SuitableSeekableBufferedTextStream<T> {
    closed spec fn underlying(&self) -> Seq<char> {
        unread(&self.inner)
    }

    open spec fn parks(&self) -> bool {
        true
    }

    /// Puts the cursor of the stream below right behind the last character
    /// handed out, whatever the size of the chunks, and drops what was read
    /// ahead: the stream then delivers exactly what the source has yet to hand
    /// out.
    fn park_cursor(&mut self) -> (r: Result<(), std::io::Error>)
        ensures
            r is Ok ==> {
                &&& final(self).read_ahead() == Seq::<char>::empty()
                &&& unread(&final(self).inner()) == old(self).pending()
                &&& final(self).inner().content() == old(self).inner().content()
            },
    {
        let ghost rest = owned_rest(self.chars_iter);
        let ghost content = self.inner.content();
        let ghost cursor = self.inner.cursor() as int;
        let chars_read_from_buf = self.chars_read_from_buf;
        match self.buf_start_seek_pos.take() {
            Some(buf_start_seek_pos) => {
                match self.inner.seek(OpaqueSeekFrom::Start(buf_start_seek_pos)) {
                    Ok(_) => {},
                    Err(e) => {
                        return Err(e);
                    },
                }
                match self.skip_chars(chars_read_from_buf) {
                    Ok(()) => {},
                    Err(e) => {
                        return Err(e);
                    },
                }
                self.chars_iter = OwnedChars::from_string(String::new());
                self.chars_read_from_buf = 0;
                proof {
                    if rest.len() > 0 {
                        assert(content.skip(cursor - rest.len()) == rest + content.skip(cursor));
                    } else {
                        assert(rest + unread(&old(self).inner) == unread(&old(self).inner));
                    }
                    assert(Seq::<char>::empty() + unread(&self.inner) == unread(&self.inner));
                }
                Ok(())
            },
            None => {
                proof {
                    assert(rest == Seq::<char>::empty());
                }
                Ok(())
            },
        }
    }
}

impl<T: ReadString + OpaqueSeek> Remainder for SuitableSeekableBufferedTextStream<T> {
    closed spec fn buffered(&self) -> StreamDataView {
        StreamDataView::Text(owned_rest(self.chars_iter))
    }

    /// Returns exactly the characters that were read from the stream below
    /// and are not handed out yet.
    fn remainder(&self) -> (r: StreamData)
        ensures
            r@ == StreamDataView::Text(self.read_ahead()),
            self.read_ahead() + self.underlying() == self.pending(),
    {
        StreamData::Text(String::from_str(self.chars_iter.as_str()))
    }
}

} // verus!
