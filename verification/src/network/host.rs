//! The address of a peer: an IPv4 address and a port.

use crate::encoding::be_u16;
use crate::encoding::read_u16_be;
use crate::encoding::u16_be;
use crate::encoding::write_u16_be;
use crate::errors::YHErrorKind;
use crate::errors::YHResult;
use vstd::prelude::*;
use vstd::slice::slice_subrange;

verus! {

/// Where a peer is reached.
#[derive(Clone, Copy, Debug, PartialEq, Eq, Default)]
pub struct YHost {
    /// The four octets of the IPv4 address.
    pub address: [u8; 4],
    pub port: u16,
}

/// A host as contracts speak of it.
pub struct YHostView {
    pub address: Seq<u8>,
    pub port: u16,
}

impl View for YHost {
    type V = YHostView;

    open spec fn view(&self) -> YHostView {
        YHostView { address: self.address@, port: self.port }
    }
}

impl YHostView {
    /// The six bytes of the host on the wire: the octets, then the port.
    pub open spec fn encoding(self) -> Seq<u8> {
        self.address + u16_be(self.port)
    }

    /// The host that six bytes spell.
    pub open spec fn parse(buf: Seq<u8>) -> YHostView {
        YHostView { address: buf.subrange(0, 4), port: be_u16(buf.subrange(4, 6)) }
    }
}

impl YHost {
    pub fn new(address: [u8; 4], port: u16) -> (host: YHost)
        ensures
            host@ == (YHostView { address: address@, port }),
    {
        YHost { address, port }
    }

    /// The four octets of the address.
    pub fn ip(&self) -> (octets: [u8; 4])
        ensures
            octets@ == self@.address,
    {
        self.address
    }

    /// The host as six bytes: the four octets, then the big-endian port.
    pub fn to_bytes(&self) -> (out: Vec<u8>)
        ensures
            out@ == self@.encoding(),
            out@.len() == 6,
    {
        let port: [u8; 2] = write_u16_be(self.port);
        let mut out: Vec<u8> = Vec::new();
        out.push(self.address[0]);
        out.push(self.address[1]);
        out.push(self.address[2]);
        out.push(self.address[3]);
        out.push(port[0]);
        out.push(port[1]);
        proof {
            crate::encoding::lemma_u16_value_roundtrip(self.port);
            assert(out@ =~= self@.encoding());
        }
        out
    }

    /// Reads a host from exactly six bytes.
    pub fn from_bytes(buf: &[u8]) -> (r: YHResult<YHost>)
        ensures
            match r {
                Ok(host) => buf@.len() == 6 && host@ == YHostView::parse(buf@),
                Err(e) => buf@.len() != 6 && e == YHErrorKind::InvalidLength,
            },
    {
        if buf.len() != 6 {
            return Err(YHErrorKind::InvalidLength);
        }
        let address: [u8; 4] = [buf[0], buf[1], buf[2], buf[3]];
        let port: u16 = read_u16_be(slice_subrange(buf, 4, 6));
        assert(address@ =~= buf@.subrange(0, 4));
        Ok(YHost { address, port })
    }
}

/// Reading a host back from its six bytes gives the same host.
pub proof fn lemma_host_roundtrip(host: YHostView)
    requires
        host.address.len() == 4,
    ensures
        host.encoding().len() == 6,
        YHostView::parse(host.encoding()) == host,
{
    crate::encoding::lemma_u16_value_roundtrip(host.port);
    let e = host.encoding();
    assert(e.subrange(0, 4) =~= host.address);
    assert(e.subrange(4, 6) =~= u16_be(host.port));
}

} // verus!
