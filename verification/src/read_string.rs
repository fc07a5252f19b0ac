//! Reading text from a host stream.

use crate::host_stream::{unread, HostStream};
use vstd::prelude::*;

verus! {

/// A host stream that delivers text.
pub trait ReadString: HostStream<Unit = char> {
    /// Reads up to `size` characters from the cursor on.
    ///
    /// What comes back is the start of what the stream has yet to deliver,
    /// and the cursor moves behind it. Fewer characters than asked for may
    /// come, but none at all only at the end of the stream. A stream that is
    /// reliable succeeds. Nothing is promised of the stream after an error.
    fn read_string(&mut self, size: usize) -> (r: Result<String, std::io::Error>)
        ensures
            r matches Ok(s) ==> {
                &&& s@.len() <= size
                &&& s@.len() <= unread(old(self)).len()
                &&& s@ == unread(old(self)).take(s@.len() as int)
                &&& final(self).content() == old(self).content()
                &&& final(self).cursor() == old(self).cursor() + s@.len()
                &&& s@.len() == 0 && size > 0 ==> unread(old(self)).len() == 0
            },
            old(self).reliable() ==> r is Ok && final(self).reliable(),
    ;
}

} // verus!
