//! Reading bytes from a host stream.

use crate::host_stream::{unread, HostStream};
use vstd::prelude::*;

verus! {

/// A host stream that delivers bytes.
pub trait ReadBytes: HostStream<Unit = u8> {
    /// Reads up to `size` bytes from the cursor on.
    ///
    /// What comes back is the start of what the stream has yet to deliver,
    /// and the cursor moves behind it. Fewer bytes than asked for may come,
    /// but none at all only at the end of the stream. A stream that is
    /// reliable succeeds. Nothing is promised of the stream after an error.
    fn read_bytes(&mut self, size: usize) -> (r: Result<Vec<u8>, std::io::Error>)
        ensures
            r matches Ok(b) ==> {
                &&& b@.len() <= size
                &&& b@.len() <= unread(old(self)).len()
                &&& b@ == unread(old(self)).take(b@.len() as int)
                &&& final(self).content() == old(self).content()
                &&& final(self).cursor() == old(self).cursor() + b@.len()
                &&& b@.len() == 0 && size > 0 ==> unread(old(self)).len() == 0
            },
            old(self).reliable() ==> r is Ok && final(self).reliable(),
    ;
}

} // verus!
