//! What a buffering source has read ahead and not yet handed out.

use vstd::prelude::*;

verus! {

/// Data of the kind that the host stream delivers: text or raw bytes.
#[derive(Debug, PartialEq)]
pub enum StreamData {
    Text(String),
    Bytes(Vec<u8>),
}

/// `StreamData` with its contents as sequences.
pub enum StreamDataView {
    Text(Seq<char>),
    Bytes(Seq<u8>),
}

impl View for StreamData {
    type V = StreamDataView;

    open spec fn view(&self) -> StreamDataView {
        match self {
            StreamData::Text(s) => StreamDataView::Text(s@),
            StreamData::Bytes(b) => StreamDataView::Bytes(b@),
        }
    }
}

impl StreamDataView {
    /// No data at all.
    pub open spec fn is_empty(self) -> bool {
        match self {
            StreamDataView::Text(s) => s.len() == 0,
            StreamDataView::Bytes(b) => b.len() == 0,
        }
    }
}

/// A character source that can return what it has buffered but not handed
/// out.
///
/// This stands in for parking the cursor where the stream below cannot seek:
/// the caller gets the read-ahead data and accounts for it.
pub trait Remainder {
    /// The data read ahead and not yet handed out.
    open spec fn buffered(&self) -> StreamDataView {
        arbitrary()
    }

    /// Returns the current remainder, as text or bytes after the kind of the
    /// stream below. It is empty where nothing is read ahead.
    fn remainder(&self) -> (r: StreamData)
        ensures
            r@ == self.buffered(),
    ;
}

} // verus!
