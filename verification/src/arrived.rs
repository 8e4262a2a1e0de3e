//! A Stream as it arrives: its bytes, and the URI of where it came from.

use vstd::prelude::*;

verus! {

/// A Stream that arrived, and where from.
#[derive(Clone, Debug, PartialEq, Eq)]
pub struct Arrived {
    pub origin_uri: String,
    pub bytes: Vec<u8>,
}

/// An [`Arrived`] as contracts speak of it.
pub struct ArrivedView {
    pub origin_uri: Seq<char>,
    pub bytes: Seq<u8>,
}

impl View for Arrived {
    type V = ArrivedView;

    open spec fn view(&self) -> ArrivedView {
        ArrivedView { origin_uri: self.origin_uri@, bytes: self.bytes@ }
    }
}

impl Arrived {
    /// `bytes` that came from `origin_uri`.
    pub fn new(origin_uri: String, bytes: Vec<u8>) -> (arrived: Self)
        ensures
            arrived@ == (ArrivedView { origin_uri: origin_uri@, bytes: bytes@ }),
    {
        Arrived { origin_uri, bytes }
    }
}

} // verus!
