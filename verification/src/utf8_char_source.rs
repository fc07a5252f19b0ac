//! The one thing a lexer asks of its input: the next character.

use vstd::prelude::*;

verus! {

/// A source that hands out decoded characters one at a time.
///
/// It is an interface in its own right, so that buffering strategies can be
/// swapped under a lexer without the lexer knowing. A source that is
/// implemented outside verified code leaves `wf` and `pending` as they are
/// given here, with nothing known of them.
pub trait Utf8CharSource {
    /// The source's parts agree with each other and with the stream below.
    open spec fn wf(&self) -> bool {
        arbitrary()
    }

    /// The characters that the source has yet to hand out, in order, as far as
    /// the stream below holds valid text.
    open spec fn pending(&self) -> Seq<char> {
        arbitrary()
    }

    /// The source never fails: the stream below is reliable and holds valid
    /// text to its end.
    open spec fn reliable(&self) -> bool {
        arbitrary()
    }

    /// Hands out the next character, or `None` at the end of input.
    ///
    /// It fails only where the stream below fails or holds no valid text: a
    /// source that is reliable succeeds. Nothing is promised of the source
    /// after a failure.
    fn read_char(&mut self) -> (r: Result<Option<char>, std::io::Error>)
        requires
            old(self).wf(),
        ensures
            r is Ok ==> final(self).wf(),
            match r {
                Ok(Some(c)) => {
                    &&& old(self).pending().len() > 0
                    &&& c == old(self).pending()[0]
                    &&& final(self).pending() == old(self).pending().skip(1)
                },
                Ok(None) => old(self).pending().len() == 0 && final(self).pending().len() == 0,
                Err(_) => true,
            },
            old(self).reliable() ==> r is Ok && final(self).reliable(),
    ;
}

} // verus!
