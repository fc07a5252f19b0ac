//! Choosing how a host stream is read, and what every choice has to offer.

use crate::park_cursor::ParkCursorChars;
use crate::remainder::Remainder;
use vstd::prelude::*;

verus! {

/// What a tokenizer needs of its input: characters, a way to park the cursor,
/// and the remainder of what was read ahead.
pub trait SuitableStream: ParkCursorChars + Remainder {

}

impl<T: ParkCursorChars + Remainder> SuitableStream for T {

}

/// How much the caller wants read ahead.
#[derive(Clone, Copy, Debug, PartialEq, Eq, Structural)]
pub enum BufferingMode {
    Unbuffered,
    DontCare,
    BufferedWithSize(usize),
}

/// How the stream is read in the end.
#[derive(Clone, Copy, Debug, PartialEq, Eq, Structural)]
pub enum StreamSettings {
    Unbuffered,
    UnseekableBuffered(usize),
    SeekableBuffered(usize),
}

impl BufferingMode {
    /// A buffer has room for something.
    pub open spec fn wf(&self) -> bool {
        self matches BufferingMode::BufferedWithSize(size) ==> size > 0
    }
}

impl StreamSettings {
    /// A chunk holds something.
    pub open spec fn wf(&self) -> bool {
        match self {
            StreamSettings::Unbuffered => true,
            StreamSettings::UnseekableBuffered(size) => *size > 0,
            StreamSettings::SeekableBuffered(size) => *size > 0,
        }
    }
}

/// The chunk size used where the caller names none.
pub const DEFAULT_BUFSIZE: usize = 8000;

/// The settings that `decide_stream_settings` arrives at, or `None` where the
/// requirements cannot be met together.
pub open spec fn settings_for(correct_cursor: bool, buffering: BufferingMode, seekable: bool) -> Option<
    StreamSettings,
> {
    match buffering {
        BufferingMode::Unbuffered => Some(StreamSettings::Unbuffered),
        BufferingMode::DontCare => if !correct_cursor {
            Some(StreamSettings::UnseekableBuffered(DEFAULT_BUFSIZE))
        } else if seekable {
            Some(StreamSettings::SeekableBuffered(DEFAULT_BUFSIZE))
        } else {
            Some(StreamSettings::Unbuffered)
        },
        BufferingMode::BufferedWithSize(bufsize) => if !correct_cursor {
            Some(StreamSettings::UnseekableBuffered(bufsize))
        } else if seekable {
            Some(StreamSettings::SeekableBuffered(bufsize))
        } else {
            None
        },
    }
}

/// The caller asked for an exact cursor and for a buffer of a given size on a
/// stream that cannot seek.
#[derive(Clone, Copy, Debug, PartialEq, Eq, Structural)]
pub struct IncompatibleRequirements;

impl IncompatibleRequirements {
    /// The text of the error as it is shown to a reader.
    pub fn message(&self) -> (s: String)
        ensures
            s@
                == "Incompatible stream requirements: correct_cursor and a buffer size > 1 are only possible if the given stream is seekable, which this one is not"@,
    {
        String::from_str(
            "Incompatible stream requirements: correct_cursor and a buffer size > 1 are only possible if the given stream is seekable, which this one is not",
        )
    }
}

/// Settles how a stream is read, from what the caller asked for and from
/// whether the stream can seek.
///
/// Without buffering nothing is read ahead. With it, a stream that can seek
/// is read in chunks and rewound on parking; one that cannot is read in
/// chunks only where the caller gave up the exact cursor. A caller who leaves
/// the buffering open gets chunks where that is safe and none where it is
/// not; one who names a size and insists on the cursor, on a stream that
/// cannot seek, is refused.
pub fn decide_stream_settings(correct_cursor: bool, buffering: BufferingMode, seekable: bool) -> (r:
    Result<StreamSettings, IncompatibleRequirements>)
    ensures
        match r {
            Ok(s) => settings_for(correct_cursor, buffering, seekable) == Some(s),
            Err(_) => settings_for(correct_cursor, buffering, seekable) is None,
        },
        r matches Ok(StreamSettings::SeekableBuffered(_)) ==> seekable,
        buffering.wf() ==> (r matches Ok(s) ==> s.wf()),
{
    Ok(
        match buffering {
            BufferingMode::Unbuffered => StreamSettings::Unbuffered,
            BufferingMode::DontCare => {
                if !correct_cursor {
                    StreamSettings::UnseekableBuffered(DEFAULT_BUFSIZE)
                } else {
                    if seekable {
                        StreamSettings::SeekableBuffered(DEFAULT_BUFSIZE)
                    } else {
                        StreamSettings::Unbuffered
                    }
                }
            },
            BufferingMode::BufferedWithSize(bufsize) => {
                if !correct_cursor {
                    StreamSettings::UnseekableBuffered(bufsize)
                } else {
                    if seekable {
                        StreamSettings::SeekableBuffered(bufsize)
                    } else {
                        return Err(IncompatibleRequirements);
                    }
                }
            },
        },
    )
}

/// The buffering that a caller's number stands for: a negative number leaves
/// the choice open, 0 and 1 ask for no buffer, anything else is a chunk size.
pub open spec fn buffering_mode_for(buffering: i64) -> BufferingMode {
    if buffering < 0 {
        BufferingMode::DontCare
    } else if buffering == 0 || buffering == 1 {
        BufferingMode::Unbuffered
    } else {
        BufferingMode::BufferedWithSize(buffering as usize)
    }
}

impl BufferingMode {
    /// Reads the caller's buffering number.
    pub fn from_buffering(buffering: i64) -> (r: BufferingMode)
        requires
            buffering <= usize::MAX,
        ensures
            r == buffering_mode_for(buffering),
            r.wf(),
    {
        if buffering < 0 {
            BufferingMode::DontCare
        } else if buffering == 0 || buffering == 1 {
            BufferingMode::Unbuffered
        } else {
            BufferingMode::BufferedWithSize(buffering as usize)
        }
    }
}

} // verus!
