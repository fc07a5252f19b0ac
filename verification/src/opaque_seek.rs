//! Seeking in a stream whose positions are tokens, not numbers.

use crate::host_stream::HostStream;
use vstd::prelude::*;

verus! {

/// Where to seek to.
#[derive(Debug)]
pub enum OpaqueSeekFrom<P> {
    /// To a position that an earlier seek returned.
    Start(P),
    /// To the end of the stream.
    End,
    /// Nowhere: the stream only tells where it stands.
    Current,
}

/// A stream that can seek, in the way of a text stream of the host.
///
/// The positions that `seek` takes and returns are opaque. The only position
/// to seek to is one that an earlier call returned; a position, or the
/// difference of two, says nothing of bytes or characters to the code that
/// holds it. What a position means is known to the contract alone: `place`
/// gives the cursor that it denotes.
pub trait OpaqueSeek: HostStream {
    type OpaqueSeekPos;

    /// How many units lie before the position.
    open spec fn place(pos: Self::OpaqueSeekPos) -> nat {
        arbitrary()
    }

    /// Moves the cursor and returns the position where it then stands. The
    /// content of the stream stays as it is. A stream that is reliable
    /// succeeds. Nothing is promised of the stream after an error.
    fn seek(&mut self, pos: OpaqueSeekFrom<Self::OpaqueSeekPos>) -> (r: Result<
        Self::OpaqueSeekPos,
        std::io::Error,
    >)
        ensures
            r matches Ok(p) ==> {
                &&& final(self).content() == old(self).content()
                &&& Self::place(p) == final(self).cursor()
                &&& match pos {
                    OpaqueSeekFrom::Start(q) => final(self).cursor() == Self::place(q),
                    OpaqueSeekFrom::End => final(self).cursor() == old(self).content().len(),
                    OpaqueSeekFrom::Current => final(self).cursor() == old(self).cursor(),
                }
            },
            old(self).reliable() ==> r is Ok && final(self).reliable(),
    ;
}

} // verus!
