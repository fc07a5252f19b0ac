//! Taking back the last read.

use crate::host_stream::HostStream;
use crate::opaque_seek::{OpaqueSeek, OpaqueSeekFrom};
use crate::read_bytes::ReadBytes;
use vstd::prelude::*;

verus! {

/// A stream that can be rewound to where it stood before the last read.
pub trait ReadRewind: ReadBytes {
    /// Where the cursor stood before the last read, as long as that read has
    /// not been taken back.
    open spec fn before_last_read(&self) -> Option<nat> {
        arbitrary()
    }

    /// Puts the cursor back where it stood before the last read. Without a
    /// read to take back, the cursor stays.
    fn rewind_read(&mut self) -> (r: Result<(), std::io::Error>)
        ensures
            r is Ok ==> {
                &&& final(self).content() == old(self).content()
                &&& final(self).cursor() == match old(self).before_last_read() {
                    Some(c) => c,
                    None => old(self).cursor(),
                }
                &&& final(self).before_last_read() is None
            },
            old(self).reliable() ==> r is Ok && final(self).reliable(),
    ;
}

/// A reader that notes where the stream stands before every read, so that the
/// read can be taken back.
pub struct RewindReader<R: ReadBytes + OpaqueSeek> {
    inner: R,
    last_pos: Option<R::OpaqueSeekPos>,
}

impl<R: ReadBytes + OpaqueSeek> RewindReader<R> {
    /// The stream below.
    pub closed spec fn inner(&self) -> R {
        self.inner
    }

    pub fn new(inner: R) -> (r: Self)
        ensures
            r.inner() == inner,
            r.before_last_read() is None,
    {
        Self { inner, last_pos: None }
    }

    /// Gives the stream below back.
    pub fn into_inner(self) -> (r: R)
        ensures
            r == self.inner(),
    {
        self.inner
    }
}

impl<R: ReadBytes + OpaqueSeek> HostStream for RewindReader<R> {
    type Unit = u8;

    closed spec fn content(&self) -> Seq<u8> {
        self.inner.content()
    }

    closed spec fn cursor(&self) -> nat {
        self.inner.cursor()
    }

    closed spec fn reliable(&self) -> bool {
        self.inner.reliable()
    }
}

impl<R: ReadBytes + OpaqueSeek> ReadBytes for RewindReader<R> {
    /// Reads from the stream below, after noting where it stands.
    fn read_bytes(&mut self, size: usize) -> (r: Result<Vec<u8>, std::io::Error>)
        ensures
            r is Ok ==> final(self).before_last_read() == Some(old(self).cursor()),
    {
        let pos = match self.inner.seek(OpaqueSeekFrom::Current) {
            Ok(pos) => pos,
            Err(e) => {
                return Err(e);
            },
        };
        self.last_pos = Some(pos);
        self.inner.read_bytes(size)
    }
}

impl<R: ReadBytes + OpaqueSeek> ReadRewind for RewindReader<R> {
    closed spec fn before_last_read(&self) -> Option<nat> {
        match self.last_pos {
            Some(pos) => Some(R::place(pos)),
            None => None,
        }
    }

    fn rewind_read(&mut self) -> (r: Result<(), std::io::Error>) {
        match self.last_pos.take() {
            None => {},
            Some(x) => {
                match self.inner.seek(OpaqueSeekFrom::Start(x)) {
                    Ok(_) => {},
                    Err(e) => {
                        return Err(e);
                    },
                }
            },
        };
        Ok(())
    }
}

} // verus!
