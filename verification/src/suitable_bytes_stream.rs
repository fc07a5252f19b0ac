//! A bytes stream of the host, made suitable for the tokenizer in the way
//! that the settings ask for.

use crate::host_stream::unread;
use crate::opaque_seek::OpaqueSeek;
use crate::park_cursor::ParkCursorChars;
use crate::read_bytes::ReadBytes;
use crate::remainder::{Remainder, StreamData, StreamDataView};
use crate::suitable_seekable_buffered_bytes_stream::SuitableSeekableBufferedBytesStream;
use crate::suitable_stream::{
    decide_stream_settings, settings_for, BufferingMode, IncompatibleRequirements,
    StreamSettings,
};
use crate::suitable_unbuffered_bytes_stream::SuitableUnbufferedBytesStream;
use crate::suitable_unseekable_buffered_bytes_stream::SuitableUnseekableBufferedBytesStream;
use crate::utf8_char_source::Utf8CharSource;
use crate::utf8_decode::leading_chars;
use vstd::prelude::*;

verus! {

/// A bytes stream of the host behind one of the three ways of reading it.
pub enum SuitableBytesStream<T: ReadBytes + OpaqueSeek> {
    Unbuffered(SuitableUnbufferedBytesStream<T>),
    UnseekableBuffered(SuitableUnseekableBufferedBytesStream<T>),
    SeekableBuffered(SuitableSeekableBufferedBytesStream<T>),
}

impl<T: ReadBytes + OpaqueSeek> SuitableBytesStream<T> {
    /// The stream below.
    pub open spec fn inner(&self) -> T {
        match self {
            SuitableBytesStream::Unbuffered(s) => s.inner(),
            SuitableBytesStream::UnseekableBuffered(s) => s.inner(),
            SuitableBytesStream::SeekableBuffered(s) => s.inner(),
        }
    }

    /// The way in which the stream is read.
    pub open spec fn settings(&self) -> StreamSettings {
        match self {
            SuitableBytesStream::Unbuffered(_) => StreamSettings::Unbuffered,
            SuitableBytesStream::UnseekableBuffered(s) => StreamSettings::UnseekableBuffered(
                s.chunk_size(),
            ),
            SuitableBytesStream::SeekableBuffered(s) => StreamSettings::SeekableBuffered(
                s.chunk_size(),
            ),
        }
    }

    /// Wraps `inner` in the way that `settings` name.
    pub fn new(inner: T, settings: StreamSettings) -> (r: Self)
        requires
            settings.wf(),
        ensures
            r.wf(),
            r.inner() == inner,
            r.settings() == settings,
            r.pending() == leading_chars(unread(&inner)),
            inner.reliable() && vstd::utf8::valid_utf8(unread(&inner)) && inner.cursor()
                <= inner.content().len() ==> r.reliable(),
    {
        match settings {
            StreamSettings::Unbuffered => SuitableBytesStream::Unbuffered(
                SuitableUnbufferedBytesStream::new(inner),
            ),
            StreamSettings::UnseekableBuffered(bufsize) => SuitableBytesStream::UnseekableBuffered(
                SuitableUnseekableBufferedBytesStream::new(inner, bufsize),
            ),
            StreamSettings::SeekableBuffered(bufsize) => SuitableBytesStream::SeekableBuffered(
                SuitableSeekableBufferedBytesStream::new(inner, bufsize),
            ),
        }
    }

    /// Gives the stream below back. What was read ahead is lost.
    pub fn into_inner(self) -> (r: T)
        ensures
            r == self.inner(),
    {
        match self {
            SuitableBytesStream::Unbuffered(s) => s.into_inner(),
            SuitableBytesStream::UnseekableBuffered(s) => s.into_inner(),
            SuitableBytesStream::SeekableBuffered(s) => s.into_inner(),
        }
    }
}

/// Makes a bytes stream suitable for the tokenizer.
///
/// `seekable` is what the stream says of itself. The way of reading is the one
/// that `decide_stream_settings` arrives at; where the requirements cannot be
/// met together, the stream is given back untouched within the error.
pub fn make_suitable_bytes_stream<T: ReadBytes + OpaqueSeek>(
    stream: T,
    buffering: BufferingMode,
    correct_cursor: bool,
    seekable: bool,
) -> (r: Result<SuitableBytesStream<T>, (IncompatibleRequirements, T)>)
    requires
        buffering.wf(),
    ensures
        match settings_for(correct_cursor, buffering, seekable) {
            Some(settings) => {
                &&& r matches Ok(s)
                &&& s.wf()
                &&& s.inner() == stream
                &&& s.settings() == settings
                &&& s.pending() == leading_chars(unread(&stream))
                &&& s.parks() == !(settings is UnseekableBuffered)
                &&& stream.reliable() && vstd::utf8::valid_utf8(unread(&stream))
                    && stream.cursor() <= stream.content().len() ==> s.reliable()
            },
            None => r matches Err(e) && e.1 == stream,
        },
{
    match decide_stream_settings(correct_cursor, buffering, seekable) {
        Ok(stream_settings) => Ok(SuitableBytesStream::new(stream, stream_settings)),
        Err(e) => Err((e, stream)),
    }
}

impl<T: ReadBytes + OpaqueSeek> Utf8CharSource for SuitableBytesStream<T> {
    open spec fn wf(&self) -> bool {
        match self {
            SuitableBytesStream::Unbuffered(s) => s.wf(),
            SuitableBytesStream::UnseekableBuffered(s) => s.wf(),
            SuitableBytesStream::SeekableBuffered(s) => s.wf(),
        }
    }

    open spec fn pending(&self) -> Seq<char> {
        match self {
            SuitableBytesStream::Unbuffered(s) => s.pending(),
            SuitableBytesStream::UnseekableBuffered(s) => s.pending(),
            SuitableBytesStream::SeekableBuffered(s) => s.pending(),
        }
    }

    open spec fn reliable(&self) -> bool {
        match self {
            SuitableBytesStream::Unbuffered(s) => s.reliable(),
            SuitableBytesStream::UnseekableBuffered(s) => s.reliable(),
            SuitableBytesStream::SeekableBuffered(s) => s.reliable(),
        }
    }

    fn read_char(&mut self) -> (r: Result<Option<char>, std::io::Error>) {
        match self {
            SuitableBytesStream::Unbuffered(s) => s.read_char(),
            SuitableBytesStream::UnseekableBuffered(s) => s.read_char(),
            SuitableBytesStream::SeekableBuffered(s) => s.read_char(),
        }
    }
}

impl<T: ReadBytes + OpaqueSeek> ParkCursorChars for SuitableBytesStream<T> {
    open spec fn underlying(&self) -> Seq<char> {
        match self {
            SuitableBytesStream::Unbuffered(s) => s.underlying(),
            SuitableBytesStream::UnseekableBuffered(s) => s.underlying(),
            SuitableBytesStream::SeekableBuffered(s) => s.underlying(),
        }
    }

    open spec fn parks(&self) -> bool {
        match self {
            SuitableBytesStream::Unbuffered(s) => s.parks(),
            SuitableBytesStream::UnseekableBuffered(s) => s.parks(),
            SuitableBytesStream::SeekableBuffered(s) => s.parks(),
        }
    }

    fn park_cursor(&mut self) -> (r: Result<(), std::io::Error>) {
        match self {
            SuitableBytesStream::Unbuffered(s) => s.park_cursor(),
            SuitableBytesStream::UnseekableBuffered(s) => s.park_cursor(),
            SuitableBytesStream::SeekableBuffered(s) => s.park_cursor(),
        }
    }
}

impl<T: ReadBytes + OpaqueSeek> Remainder for SuitableBytesStream<T> {
    open spec fn buffered(&self) -> StreamDataView {
        match self {
            SuitableBytesStream::Unbuffered(s) => s.buffered(),
            SuitableBytesStream::UnseekableBuffered(s) => s.buffered(),
            SuitableBytesStream::SeekableBuffered(s) => s.buffered(),
        }
    }

    fn remainder(&self) -> (r: StreamData) {
        match self {
            SuitableBytesStream::Unbuffered(s) => s.remainder(),
            SuitableBytesStream::UnseekableBuffered(s) => s.remainder(),
            SuitableBytesStream::SeekableBuffered(s) => s.remainder(),
        }
    }
}

} // verus!
