//! Host streams held in memory, for input that is at hand already.

use crate::host_stream::{unread, HostStream};
use crate::opaque_seek::{OpaqueSeek, OpaqueSeekFrom};
use crate::read_bytes::ReadBytes;
use crate::read_string::ReadString;
use crate::text::chars_of;
use vstd::prelude::*;

verus! {

/// A position in a stream held in memory.
#[derive(Clone, Copy, Debug, PartialEq, Eq, Structural)]
pub struct MemoryPos {
    offset: usize,
}

impl MemoryPos {
    /// How many units lie before the position.
    pub closed spec fn offset(self) -> nat {
        self.offset as nat
    }
}

/// A text stream over characters held in memory.
///
/// It can seek. It can be told to deliver no more than a few characters at a
/// time, as a stream over a slow connection would.
pub struct MemoryTextStream {
    text: Vec<char>,
    cursor: usize,
    read_limit: Option<usize>,
}

impl MemoryTextStream {
    /// The most that one read delivers, if there is a limit.
    pub closed spec fn read_limit(&self) -> Option<usize> {
        self.read_limit
    }

    /// A stream over `text`, with the cursor at its start.
    pub fn new(text: &str) -> (r: Self)
        ensures
            r.content() == text@,
            r.cursor() == 0,
            r.read_limit() is None,
    {
        MemoryTextStream { text: chars_of(text), cursor: 0, read_limit: None }
    }

    /// A stream over `text` that delivers at most `limit` characters per
    /// read.
    pub fn with_read_limit(text: &str, limit: usize) -> (r: Self)
        requires
            limit > 0,
        ensures
            r.content() == text@,
            r.cursor() == 0,
            r.read_limit() == Some(limit),
    {
        MemoryTextStream { text: chars_of(text), cursor: 0, read_limit: Some(limit) }
    }

    /// How many characters lie before the cursor.
    pub fn position(&self) -> (r: usize)
        ensures
            r == self.cursor(),
    {
        self.cursor
    }

    /// The text from the cursor on, which the next reads would deliver.
    pub fn rest(&self) -> (r: String)
        ensures
            r@ == unread(self),
    {
        let mut s = String::new();
        if self.cursor >= self.text.len() {
            proof {
                assert(unread(self).len() == 0);
            }
            return s;
        }
        let mut i = self.cursor;
        while i < self.text.len()
            invariant
                self.cursor <= i <= self.text.len(),
                s@ == self.text@.subrange(self.cursor as int, i as int),
            decreases self.text.len() - i,
        {
            s.push(self.text[i]);
            i += 1;
        }
        proof {
            assert(self.text@.subrange(self.cursor as int, self.text.len() as int)
                == self.text@.skip(self.cursor as int));
        }
        s
    }
}

impl HostStream for MemoryTextStream {
    type Unit = char;

    closed spec fn content(&self) -> Seq<char> {
        self.text@
    }

    closed spec fn cursor(&self) -> nat {
        self.cursor as nat
    }

    open spec fn reliable(&self) -> bool {
        true
    }
}

impl ReadString for MemoryTextStream {
    /// Delivers as many characters as were asked for, as the limit allows and
    /// as are left. It never fails.
    fn read_string(&mut self, size: usize) -> (r: Result<String, std::io::Error>)
        ensures
            r is Ok,
            final(self).read_limit() == old(self).read_limit(),
    {
        let len = self.text.len();
        if self.cursor >= len {
            proof {
                assert(unread(old(self)).len() == 0);
                assert(unread(old(self)).take(0) == Seq::<char>::empty());
            }
            return Ok(String::new());
        }
        let available = len - self.cursor;
        let wanted = match self.read_limit {
            Some(limit) if 0 < limit && limit < size => limit,
            _ => size,
        };
        let count = if wanted < available {
            wanted
        } else {
            available
        };
        let mut s = String::new();
        let start = self.cursor;
        let mut i: usize = 0;
        while i < count
            invariant
                i <= count,
                count <= available,
                start < len,
                available == len - start,
                len == self.text.len(),
                s@ == self.text@.subrange(start as int, start + i),
            decreases count - i,
        {
            s.push(self.text[start + i]);
            i += 1;
        }
        self.cursor = start + count;
        proof {
            assert(self.text@.subrange(start as int, start + count) == self.text@.skip(
                start as int,
            ).take(count as int));
        }
        Ok(s)
    }
}

impl OpaqueSeek for MemoryTextStream {
    type OpaqueSeekPos = MemoryPos;

    open spec fn place(pos: MemoryPos) -> nat {
        pos.offset()
    }

    /// Moves the cursor. It never fails.
    fn seek(&mut self, pos: OpaqueSeekFrom<MemoryPos>) -> (r: Result<MemoryPos, std::io::Error>)
        ensures
            r is Ok,
            final(self).read_limit() == old(self).read_limit(),
    {
        match pos {
            OpaqueSeekFrom::Start(q) => {
                self.cursor = q.offset;
            },
            OpaqueSeekFrom::End => {
                self.cursor = self.text.len();
            },
            OpaqueSeekFrom::Current => {},
        }
        Ok(MemoryPos { offset: self.cursor })
    }
}

/// A stream over bytes held in memory.
///
/// It can seek. It can be told to deliver no more than a few bytes at a time,
/// as a stream over a slow connection would.
pub struct MemoryBytesStream {
    bytes: Vec<u8>,
    cursor: usize,
    read_limit: Option<usize>,
}

impl MemoryBytesStream {
    /// The most that one read delivers, if there is a limit.
    pub closed spec fn read_limit(&self) -> Option<usize> {
        self.read_limit
    }

    /// A stream over `bytes`, with the cursor at its start.
    pub fn new(bytes: Vec<u8>) -> (r: Self)
        ensures
            r.content() == bytes@,
            r.cursor() == 0,
            r.read_limit() is None,
    {
        MemoryBytesStream { bytes, cursor: 0, read_limit: None }
    }

    /// A stream over `bytes` that delivers at most `limit` bytes per read.
    pub fn with_read_limit(bytes: Vec<u8>, limit: usize) -> (r: Self)
        requires
            limit > 0,
        ensures
            r.content() == bytes@,
            r.cursor() == 0,
            r.read_limit() == Some(limit),
    {
        MemoryBytesStream { bytes, cursor: 0, read_limit: Some(limit) }
    }

    /// How many bytes lie before the cursor.
    pub fn position(&self) -> (r: usize)
        ensures
            r == self.cursor(),
    {
        self.cursor
    }

    /// The bytes from the cursor on, which the next reads would deliver.
    pub fn rest(&self) -> (r: Vec<u8>)
        ensures
            r@ == unread(self),
    {
        let mut v: Vec<u8> = Vec::new();
        if self.cursor >= self.bytes.len() {
            proof {
                assert(unread(self).len() == 0);
            }
            return v;
        }
        let mut i = self.cursor;
        while i < self.bytes.len()
            invariant
                self.cursor <= i <= self.bytes.len(),
                v@ == self.bytes@.subrange(self.cursor as int, i as int),
            decreases self.bytes.len() - i,
        {
            v.push(self.bytes[i]);
            i += 1;
        }
        proof {
            assert(self.bytes@.subrange(self.cursor as int, self.bytes.len() as int)
                == self.bytes@.skip(self.cursor as int));
        }
        v
    }
}

impl HostStream for MemoryBytesStream {
    type Unit = u8;

    closed spec fn content(&self) -> Seq<u8> {
        self.bytes@
    }

    closed spec fn cursor(&self) -> nat {
        self.cursor as nat
    }

    open spec fn reliable(&self) -> bool {
        true
    }
}

impl ReadBytes for MemoryBytesStream {
    /// Delivers as many bytes as were asked for, as the limit allows and as
    /// are left. It never fails.
    fn read_bytes(&mut self, size: usize) -> (r: Result<Vec<u8>, std::io::Error>)
        ensures
            r is Ok,
            final(self).read_limit() == old(self).read_limit(),
    {
        let len = self.bytes.len();
        if self.cursor >= len {
            proof {
                assert(unread(old(self)).len() == 0);
                assert(unread(old(self)).take(0) == Seq::<u8>::empty());
            }
            return Ok(Vec::new());
        }
        let available = len - self.cursor;
        let wanted = match self.read_limit {
            Some(limit) if 0 < limit && limit < size => limit,
            _ => size,
        };
        let count = if wanted < available {
            wanted
        } else {
            available
        };
        let mut v: Vec<u8> = Vec::new();
        let start = self.cursor;
        let mut i: usize = 0;
        while i < count
            invariant
                i <= count,
                count <= available,
                start < len,
                available == len - start,
                len == self.bytes.len(),
                v@ == self.bytes@.subrange(start as int, start + i),
            decreases count - i,
        {
            v.push(self.bytes[start + i]);
            i += 1;
        }
        self.cursor = start + count;
        proof {
            assert(self.bytes@.subrange(start as int, start + count) == self.bytes@.skip(
                start as int,
            ).take(count as int));
        }
        Ok(v)
    }
}

impl OpaqueSeek for MemoryBytesStream {
    type OpaqueSeekPos = MemoryPos;

    open spec fn place(pos: MemoryPos) -> nat {
        pos.offset()
    }

    /// Moves the cursor. It never fails.
    fn seek(&mut self, pos: OpaqueSeekFrom<MemoryPos>) -> (r: Result<MemoryPos, std::io::Error>)
        ensures
            r is Ok,
            final(self).read_limit() == old(self).read_limit(),
    {
        match pos {
            OpaqueSeekFrom::Start(q) => {
                self.cursor = q.offset;
            },
            OpaqueSeekFrom::End => {
                self.cursor = self.bytes.len();
            },
            OpaqueSeekFrom::Current => {},
        }
        Ok(MemoryPos { offset: self.cursor })
    }
}

} // verus!
