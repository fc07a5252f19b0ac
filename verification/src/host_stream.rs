//! What is known of a host stream: a run of units, and a cursor in it.

use vstd::prelude::*;

verus! {

/// The model of a stream that the host provides.
///
/// A stream holds a run of units, characters or bytes, and a cursor that
/// stands before one of them or behind the last. Reading hands out units from
/// the cursor on and moves it along; seeking moves it without reading. None
/// of this is code: it is what the contracts of reading and seeking speak of.
/// A stream that is implemented outside verified code leaves the model as
/// it is given here, with nothing known of it.
pub trait HostStream {
    /// What the stream is made of: `char` for text, `u8` for bytes.
    type Unit;

    /// All that the stream holds, from its start.
    open spec fn content(&self) -> Seq<Self::Unit> {
        arbitrary()
    }

    /// How many units lie before the cursor.
    open spec fn cursor(&self) -> nat {
        arbitrary()
    }

    /// The stream never fails: every read and every seek succeeds.
    open spec fn reliable(&self) -> bool {
        arbitrary()
    }
}

/// What a stream has yet to deliver: its content from the cursor on.
pub open spec fn unread<T: HostStream + ?Sized>(stream: &T) -> Seq<T::Unit> {
    if stream.cursor() <= stream.content().len() {
        stream.content().skip(stream.cursor() as int)
    } else {
        Seq::empty()
    }
}

} // verus!
