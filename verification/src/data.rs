//! The data blob that the data messages carry.

use vstd::prelude::*;
use vstd::slice::slice_to_vec;

verus! {

/// A data blob in its encoded form. The blob's own codec is not part of this
/// library: a message frames these bytes and gives them back unchanged.
#[derive(Clone, Debug, PartialEq, Eq, Default)]
pub struct YData {
    pub bytes: Vec<u8>,
}

impl View for YData {
    type V = Seq<u8>;

    open spec fn view(&self) -> Seq<u8> {
        self.bytes@
    }
}

impl YData {
    /// The blob's bytes.
    pub fn to_bytes(&self) -> (out: Vec<u8>)
        ensures
            out@ == self@,
    {
        slice_to_vec(self.bytes.as_slice())
    }

    /// The blob that `buf` encodes.
    pub fn from_bytes(buf: &[u8]) -> (data: YData)
        ensures
            data@ == buf@,
    {
        YData { bytes: slice_to_vec(buf) }
    }
}

/// The encoded forms of a list of blobs.
pub open spec fn blobs_view(blobs: Seq<YData>) -> Seq<Seq<u8>> {
    Seq::new(blobs.len(), |i: int| blobs[i]@)
}

} // verus!
