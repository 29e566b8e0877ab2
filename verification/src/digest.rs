//! The 64-byte digest that names a transaction or a data blob.

use crate::errors::YHErrorKind;
use crate::errors::YHResult;
use vstd::prelude::*;
use vstd::slice::slice_to_vec;

verus! {

/// A digest of exactly 64 bytes. How it is computed is not this library's
/// concern: messages carry it and give it back unchanged.
#[derive(Clone, Copy, Debug, PartialEq, Eq)]
pub struct YDigest64(pub [u8; 64]);

impl View for YDigest64 {
    type V = Seq<u8>;

    open spec fn view(&self) -> Seq<u8> {
        self.0@
    }
}

impl YDigest64 {
    /// The digest's 64 bytes.
    pub fn to_bytes(&self) -> (out: Vec<u8>)
        ensures
            out@ == self@,
            out@.len() == 64,
    {
        slice_to_vec(self.0.as_slice())
    }

    /// Reads a digest from exactly 64 bytes.
    pub fn from_bytes(buf: &[u8]) -> (r: YHResult<YDigest64>)
        ensures
            match r {
                Ok(digest) => buf@.len() == 64 && digest@ == buf@,
                Err(e) => buf@.len() != 64 && e == YHErrorKind::InvalidLength,
            },
    {
        if buf.len() != 64 {
            return Err(YHErrorKind::InvalidLength);
        }
        let mut bytes: [u8; 64] = [0u8; 64];
        let mut i: usize = 0;
        while i < 64
            invariant
                i <= 64,
                buf@.len() == 64,
                forall|k: int| 0 <= k < i ==> bytes@[k] == buf@[k],
            decreases 64 - i,
        {
            bytes[i] = buf[i];
            i += 1;
        }
        assert(bytes@ =~= buf@);
        Ok(YDigest64(bytes))
    }
}

impl Default for YDigest64 {
    fn default() -> (digest: YDigest64)
        ensures
            forall|k: int| 0 <= k < 64 ==> digest@[k] == 0,
    {
        YDigest64([0u8; 64])
    }
}

} // verus!
