//! The method discriminants that tell the operations of the protocol apart.

use crate::encoding::be_u32;
use crate::encoding::read_u32_be;
use crate::encoding::u32_be;
use crate::encoding::write_u32_be;
use crate::errors::YHErrorKind;
use crate::errors::YHResult;
use vstd::prelude::*;
use vstd::slice::slice_to_vec;

verus! {

/// The operation that a data message belongs to.
#[derive(Clone, Copy, Debug, PartialEq, Eq, Structural)]
pub enum YMethod {
    /// No operation of this protocol: what every unassigned code decodes to.
    Unknown,
    /// Listing the data blobs of a transaction.
    ListData,
    /// Fetching one data blob.
    GetData,
}

impl YMethod {
    /// The discriminant that stands for the method on the wire.
    pub open spec fn code(self) -> u32 {
        match self {
            YMethod::Unknown => 0,
            YMethod::ListData => 1,
            YMethod::GetData => 2,
        }
    }

    /// The method that a discriminant stands for.
    pub open spec fn of_code(n: u32) -> YMethod {
        if n == 1 {
            YMethod::ListData
        } else if n == 2 {
            YMethod::GetData
        } else {
            YMethod::Unknown
        }
    }

    /// The four bytes of the method on the wire.
    pub open spec fn encoding(self) -> Seq<u8> {
        u32_be(self.code())
    }

    /// The method's discriminant.
    pub fn to_u32(&self) -> (n: u32)
        ensures
            n == self.code(),
    {
        match self {
            YMethod::Unknown => 0,
            YMethod::ListData => 1,
            YMethod::GetData => 2,
        }
    }

    /// The method of a discriminant; an unassigned one gives `Unknown`.
    pub fn from_u32(n: u32) -> (method: YMethod)
        ensures
            method == YMethod::of_code(n),
    {
        if n == 1 {
            YMethod::ListData
        } else if n == 2 {
            YMethod::GetData
        } else {
            YMethod::Unknown
        }
    }

    /// The discriminant as four big-endian bytes.
    pub fn to_bytes(&self) -> (out: Vec<u8>)
        ensures
            out@ == self.encoding(),
    {
        let word: [u8; 4] = write_u32_be(self.to_u32());
        slice_to_vec(word.as_slice())
    }

    /// Reads a method from exactly four bytes.
    pub fn from_bytes(buf: &[u8]) -> (r: YHResult<YMethod>)
        ensures
            r == (if buf@.len() == 4 {
                Ok(YMethod::of_code(be_u32(buf@)))
            } else {
                Err(YHErrorKind::InvalidLength)
            }),
    {
        if buf.len() != 4 {
            return Err(YHErrorKind::InvalidLength);
        }
        Ok(YMethod::from_u32(read_u32_be(buf)))
    }
}

impl Default for YMethod {
    fn default() -> (method: YMethod)
        ensures
            method == YMethod::Unknown,
    {
        YMethod::Unknown
    }
}

/// Every method is the one that its own discriminant stands for.
pub proof fn lemma_method_code_roundtrip(method: YMethod)
    ensures
        YMethod::of_code(method.code()) == method,
{
}

/// The operation of a remote call that an error response answers.
#[derive(Clone, Copy, Debug, PartialEq, Eq, Structural)]
pub enum YRPCMethod {
    /// No call of this protocol: what every unassigned code decodes to.
    Unknown,
    /// Listing the peers that a node knows.
    ListPeers,
    /// Listing the data blobs of a transaction.
    ListData,
    /// Fetching one data blob.
    GetData,
}

impl YRPCMethod {
    /// The discriminant that stands for the call on the wire.
    pub open spec fn code(self) -> u32 {
        match self {
            YRPCMethod::Unknown => 0,
            YRPCMethod::ListPeers => 1,
            YRPCMethod::ListData => 2,
            YRPCMethod::GetData => 3,
        }
    }

    /// The call that a discriminant stands for.
    pub open spec fn of_code(n: u32) -> YRPCMethod {
        if n == 1 {
            YRPCMethod::ListPeers
        } else if n == 2 {
            YRPCMethod::ListData
        } else if n == 3 {
            YRPCMethod::GetData
        } else {
            YRPCMethod::Unknown
        }
    }

    /// The four bytes of the call on the wire.
    pub open spec fn encoding(self) -> Seq<u8> {
        u32_be(self.code())
    }

    /// The call's discriminant.
    pub fn to_u32(&self) -> (n: u32)
        ensures
            n == self.code(),
    {
        match self {
            YRPCMethod::Unknown => 0,
            YRPCMethod::ListPeers => 1,
            YRPCMethod::ListData => 2,
            YRPCMethod::GetData => 3,
        }
    }

    /// The call of a discriminant; an unassigned one gives `Unknown`.
    pub fn from_u32(n: u32) -> (method: YRPCMethod)
        ensures
            method == YRPCMethod::of_code(n),
    {
        if n == 1 {
            YRPCMethod::ListPeers
        } else if n == 2 {
            YRPCMethod::ListData
        } else if n == 3 {
            YRPCMethod::GetData
        } else {
            YRPCMethod::Unknown
        }
    }

    /// The discriminant as four big-endian bytes.
    pub fn to_bytes(&self) -> (out: Vec<u8>)
        ensures
            out@ == self.encoding(),
    {
        let word: [u8; 4] = write_u32_be(self.to_u32());
        slice_to_vec(word.as_slice())
    }
}

impl Default for YRPCMethod {
    fn default() -> (method: YRPCMethod)
        ensures
            method == YRPCMethod::Unknown,
    {
        YRPCMethod::Unknown
    }
}

/// Every call is the one that its own discriminant stands for.
pub proof fn lemma_rpc_method_code_roundtrip(method: YRPCMethod)
    ensures
        YRPCMethod::of_code(method.code()) == method,
{
}

} // verus!
