//! The timestamp of a peer's last sighting.

use crate::encoding::be_u64;
use crate::encoding::read_u64_be;
use crate::encoding::u64_be;
use crate::encoding::write_u64_be;
use crate::errors::YHErrorKind;
use crate::errors::YHResult;
use vstd::prelude::*;
use vstd::slice::slice_to_vec;

verus! {

/// A point in time, in seconds since the Unix epoch. The clock is not read
/// here: whoever validates a record passes the current time in.
#[derive(Clone, Copy, Debug, PartialEq, Eq, Structural, Default)]
pub struct YTime {
    pub secs: u64,
}

impl YTime {
    /// The timestamp's eight bytes on the wire.
    pub open spec fn encoding(self) -> Seq<u8> {
        u64_be(self.secs)
    }

    /// The timestamp of `secs` seconds since the epoch.
    pub fn new(secs: u64) -> (time: YTime)
        ensures
            time.secs == secs,
    {
        YTime { secs }
    }

    /// Whether this time lies strictly after `other`.
    pub fn is_after(&self, other: &YTime) -> (b: bool)
        ensures
            b == (self.secs > other.secs),
    {
        self.secs > other.secs
    }

    /// The timestamp as eight big-endian bytes.
    pub fn to_bytes(&self) -> (out: Vec<u8>)
        ensures
            out@ == self.encoding(),
    {
        let word: [u8; 8] = write_u64_be(self.secs);
        slice_to_vec(word.as_slice())
    }

    /// Reads a timestamp from exactly eight bytes.
    pub fn from_bytes(buf: &[u8]) -> (r: YHResult<YTime>)
        ensures
            r == (if buf@.len() == 8 {
                Ok(YTime { secs: be_u64(buf@) })
            } else {
                Err(YHErrorKind::InvalidLength)
            }),
    {
        if buf.len() != 8 {
            return Err(YHErrorKind::InvalidLength);
        }
        Ok(YTime { secs: read_u64_be(buf) })
    }
}

} // verus!
