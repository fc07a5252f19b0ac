//! A text stream of the host, made suitable for the tokenizer in the way
//! that the settings ask for.

use crate::host_stream::unread;
use crate::opaque_seek::OpaqueSeek;
use crate::park_cursor::ParkCursorChars;
use crate::read_string::ReadString;
use crate::remainder::{Remainder, StreamData, StreamDataView};
use crate::suitable_seekable_buffered_text_stream::SuitableSeekableBufferedTextStream;
use crate::suitable_stream::{
    decide_stream_settings, settings_for, BufferingMode, IncompatibleRequirements,
    StreamSettings,
};
use crate::suitable_unbuffered_text_stream::SuitableUnbufferedTextStream;
use crate::suitable_unseekable_buffered_text_stream::SuitableUnseekableBufferedTextStream;
use crate::utf8_char_source::Utf8CharSource;
use vstd::prelude::*;

verus! {

/// A text stream of the host behind one of the three ways of reading it.
pub enum SuitableTextStream<T: ReadString + OpaqueSeek> {
    Unbuffered(SuitableUnbufferedTextStream<T>),
    UnseekableBuffered(SuitableUnseekableBufferedTextStream<T>),
    SeekableBuffered(SuitableSeekableBufferedTextStream<T>),
}

impl<T: ReadString + OpaqueSeek> SuitableTextStream<T> {
    /// The stream below.
    pub open spec fn inner(&self) -> T {
        match self {
            SuitableTextStream::Unbuffered(s) => s.inner(),
            SuitableTextStream::UnseekableBuffered(s) => s.inner(),
            SuitableTextStream::SeekableBuffered(s) => s.inner(),
        }
    }

    /// The way in which the stream is read.
    pub open spec fn settings(&self) -> StreamSettings {
        match self {
            SuitableTextStream::Unbuffered(_) => StreamSettings::Unbuffered,
            SuitableTextStream::UnseekableBuffered(s) => StreamSettings::UnseekableBuffered(
                s.chunk_size(),
            ),
            SuitableTextStream::SeekableBuffered(s) => StreamSettings::SeekableBuffered(
                s.chunk_size(),
            ),
        }
    }

    /// Wraps `inner` in the way that `settings` name.
    pub fn new(inner: T, settings: StreamSettings) -> (r: Self)
        requires
            settings.wf(),
        ensures
            r.wf(),
            r.inner() == inner,
            r.settings() == settings,
            r.pending() == unread(&inner),
            inner.reliable() && inner.cursor() <= inner.content().len() ==> r.reliable(),
    {
        match settings {
            StreamSettings::Unbuffered => SuitableTextStream::Unbuffered(
                SuitableUnbufferedTextStream::new(inner),
            ),
            StreamSettings::UnseekableBuffered(bufsize) => SuitableTextStream::UnseekableBuffered(
                SuitableUnseekableBufferedTextStream::new(inner, bufsize),
            ),
            StreamSettings::SeekableBuffered(bufsize) => SuitableTextStream::SeekableBuffered(
                SuitableSeekableBufferedTextStream::new(inner, bufsize),
            ),
        }
    }

    /// Gives the stream below back. What was read ahead is lost.
    pub fn into_inner(self) -> (r: T)
        ensures
            r == self.inner(),
    {
        match self {
            SuitableTextStream::Unbuffered(s) => s.into_inner(),
            SuitableTextStream::UnseekableBuffered(s) => s.into_inner(),
            SuitableTextStream::SeekableBuffered(s) => s.into_inner(),
        }
    }
}

/// Makes a text stream suitable for the tokenizer.
///
/// `seekable` is what the stream says of itself. The way of reading is the one
/// that `decide_stream_settings` arrives at; where the requirements cannot be
/// met together, the stream is given back untouched within the error.
pub fn make_suitable_text_stream<T: ReadString + OpaqueSeek>(
    stream: T,
    buffering: BufferingMode,
    correct_cursor: bool,
    seekable: bool,
) -> (r: Result<SuitableTextStream<T>, (IncompatibleRequirements, T)>)
    requires
        buffering.wf(),
    ensures
        match settings_for(correct_cursor, buffering, seekable) {
            Some(settings) => {
                &&& r matches Ok(s)
                &&& s.wf()
                &&& s.inner() == stream
                &&& s.settings() == settings
                &&& s.pending() == unread(&stream)
                &&& s.parks() == !(settings is UnseekableBuffered)
                &&& stream.reliable() && stream.cursor() <= stream.content().len()
                    ==> s.reliable()
            },
            None => r matches Err(e) && e.1 == stream,
        },
{
    match decide_stream_settings(correct_cursor, buffering, seekable) {
        Ok(stream_settings) => Ok(SuitableTextStream::new(stream, stream_settings)),
        Err(e) => Err((e, stream)),
    }
}

impl<T: ReadString + OpaqueSeek> Utf8CharSource for SuitableTextStream<T> {
    open spec fn wf(&self) -> bool {
        match self {
            SuitableTextStream::Unbuffered(s) => s.wf(),
            SuitableTextStream::UnseekableBuffered(s) => s.wf(),
            SuitableTextStream::SeekableBuffered(s) => s.wf(),
        }
    }

    open spec fn pending(&self) -> Seq<char> {
        match self {
            SuitableTextStream::Unbuffered(s) => s.pending(),
            SuitableTextStream::UnseekableBuffered(s) => s.pending(),
            SuitableTextStream::SeekableBuffered(s) => s.pending(),
        }
    }

    open spec fn reliable(&self) -> bool {
        match self {
            SuitableTextStream::Unbuffered(s) => s.reliable(),
            SuitableTextStream::UnseekableBuffered(s) => s.reliable(),
            SuitableTextStream::SeekableBuffered(s) => s.reliable(),
        }
    }

    fn read_char(&mut self) -> (r: Result<Option<char>, std::io::Error>) {
        match self {
            SuitableTextStream::Unbuffered(s) => s.read_char(),
            SuitableTextStream::UnseekableBuffered(s) => s.read_char(),
            SuitableTextStream::SeekableBuffered(s) => s.read_char(),
        }
    }
}

impl<T: ReadString + OpaqueSeek> ParkCursorChars for SuitableTextStream<T> {
    open spec fn underlying(&self) -> Seq<char> {
        match self {
            SuitableTextStream::Unbuffered(s) => s.underlying(),
            SuitableTextStream::UnseekableBuffered(s) => s.underlying(),
            SuitableTextStream::SeekableBuffered(s) => s.underlying(),
        }
    }

    open spec fn parks(&self) -> bool {
        match self {
            SuitableTextStream::Unbuffered(s) => s.parks(),
            SuitableTextStream::UnseekableBuffered(s) => s.parks(),
            SuitableTextStream::SeekableBuffered(s) => s.parks(),
        }
    }

    fn park_cursor(&mut self) -> (r: Result<(), std::io::Error>) {
        match self {
            SuitableTextStream::Unbuffered(s) => s.park_cursor(),
            SuitableTextStream::UnseekableBuffered(s) => s.park_cursor(),
            SuitableTextStream::SeekableBuffered(s) => s.park_cursor(),
        }
    }
}

impl<T: ReadString + OpaqueSeek> Remainder for SuitableTextStream<T> {
    open spec fn buffered(&self) -> StreamDataView {
        match self {
            SuitableTextStream::Unbuffered(s) => s.buffered(),
            SuitableTextStream::UnseekableBuffered(s) => s.buffered(),
            SuitableTextStream::SeekableBuffered(s) => s.buffered(),
        }
    }

    fn remainder(&self) -> (r: StreamData) {
        match self {
            SuitableTextStream::Unbuffered(s) => s.remainder(),
            SuitableTextStream::UnseekableBuffered(s) => s.remainder(),
            SuitableTextStream::SeekableBuffered(s) => s.remainder(),
        }
    }
}

} // verus!
