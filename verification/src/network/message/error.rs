//! The response that reports a failure to the peer that caused it.
//!
//! Layout, offsets in bytes: the method of the failed call at 0..4, a
//! reserved word at 4..8 (written as zero, not read), and the text from 8 on.
//! An encoded text has at most 20 bytes; a frame of more than 44 bytes is
//! not decoded.

use crate::encoding::be_u32;
use crate::encoding::buf_extend;
use crate::encoding::buf_new;
use crate::encoding::buf_put_u32;
use crate::encoding::buf_to_vec;
use crate::encoding::lemma_u32_value_roundtrip;
use crate::encoding::lossy_text;
use crate::encoding::read_u32_be;
use crate::encoding::string_from_utf8_lossy;
use crate::encoding::u32_be;
use crate::errors::YHErrorKind;
use crate::errors::YHResult;
use crate::network::method::YRPCMethod;
use bytes::BytesMut;
use vstd::prelude::*;
use vstd::slice::slice_subrange;
use vstd::utf8::encode_utf8;

verus! {

/// The response to a call that failed.
#[derive(Clone, Debug, PartialEq, Eq, Default)]
pub struct YHErrorRes {
    /// The call that failed.
    pub method: YRPCMethod,
    pub message: String,
}

/// An error response as contracts speak of it.
pub struct YHErrorResView {
    pub method: YRPCMethod,
    pub message: Seq<char>,
}

impl View for YHErrorRes {
    type V = YHErrorResView;

    open spec fn view(&self) -> YHErrorResView {
        YHErrorResView { method: self.method, message: self.message@ }
    }
}

impl YHErrorResView {
    /// What `check` answers.
    pub open spec fn checked(self) -> YHResult<()> {
        if encode_utf8(self.message).len() > 20 {
            Err(YHErrorKind::InvalidLength)
        } else {
            Ok(())
        }
    }

    /// The response on the wire.
    pub open spec fn encoding(self) -> Seq<u8> {
        self.method.encoding() + u32_be(0) + encode_utf8(self.message)
    }

    /// What a buffer decodes to.
    pub open spec fn parse(buf: Seq<u8>) -> YHResult<YHErrorResView> {
        if buf.len() > 44 || buf.len() < 8 {
            Err(YHErrorKind::InvalidLength)
        } else {
            Ok(
                YHErrorResView {
                    method: YRPCMethod::of_code(be_u32(buf.subrange(0, 4))),
                    message: lossy_text(buf.subrange(8, buf.len() as int)),
                },
            )
        }
    }
}

impl YHErrorRes {
    pub fn new(method: YRPCMethod, message: String) -> (res: YHErrorRes)
        ensures
            res@ == (YHErrorResView { method, message: message@ }),
    {
        YHErrorRes { method, message }
    }

    /// Accepts the response if and only if its text has at most 20 bytes.
    pub fn check(&self) -> (r: YHResult<()>)
        ensures
            r == self@.checked(),
    {
        if self.message.as_str().as_bytes().len() > 20 {
            return Err(YHErrorKind::InvalidLength);
        }
        Ok(())
    }

    /// The response on the wire, if it passes `check`; the error of `check`
    /// otherwise.
    pub fn to_bytes(&self) -> (r: YHResult<Vec<u8>>)
        ensures
            match r {
                Ok(out) => self@.checked() is Ok && out@ == self@.encoding(),
                Err(e) => self@.checked() == Err::<(), YHErrorKind>(e),
            },
    {
        match self.check() {
            Err(e) => {
                return Err(e);
            },
            Ok(()) => {},
        }
        let mut buf: BytesMut = buf_new();
        let method: Vec<u8> = self.method.to_bytes();
        proof {
            lemma_u32_value_roundtrip(self.method.code());
            lemma_u32_value_roundtrip(0);
        }
        buf_extend(&mut buf, method.as_slice());
        buf_put_u32(&mut buf, 0);
        buf_extend(&mut buf, self.message.as_str().as_bytes());
        let out: Vec<u8> = buf_to_vec(&buf);
        assert(out@ =~= self@.encoding());
        Ok(out)
    }

    /// Reads a response from 8 to 44 bytes. Bytes of the text that are not
    /// valid UTF-8 are replaced as lossy decoding replaces them.
    pub fn from_bytes(buf: &[u8]) -> (r: YHResult<YHErrorRes>)
        ensures
            match r {
                Ok(res) => YHErrorResView::parse(buf@) == Ok::<YHErrorResView, YHErrorKind>(res@),
                Err(e) => YHErrorResView::parse(buf@) == Err::<YHErrorResView, YHErrorKind>(e),
            },
    {
        if buf.len() > 44 || buf.len() < 8 {
            return Err(YHErrorKind::InvalidLength);
        }
        let method: YRPCMethod = YRPCMethod::from_u32(read_u32_be(slice_subrange(buf, 0, 4)));
        let message: String = string_from_utf8_lossy(slice_subrange(buf, 8, buf.len()));
        Ok(YHErrorRes { method, message })
    }
}

/// A response that passes `check` is read back from its encoding.
pub proof fn lemma_error_res_roundtrip(res: YHErrorResView)
    requires
        res.checked() is Ok,
    ensures
        res.encoding().len() <= 28,
        YHErrorResView::parse(res.encoding()) == Ok::<YHErrorResView, YHErrorKind>(res),
{
    lemma_u32_value_roundtrip(res.method.code());
    lemma_u32_value_roundtrip(0);
    vstd::utf8::encode_utf8_valid_utf8(res.message);
    vstd::utf8::encode_utf8_decode_utf8(res.message);
    let frame = res.encoding();
    let method = res.method.encoding();
    assert(frame.subrange(0, 4) =~= method);
    assert(frame.subrange(8, frame.len() as int) =~= encode_utf8(res.message));
}

/// A text of more than 20 bytes passes no check, and a buffer of more than
/// 44 bytes, or of fewer than 8, is not read.
pub proof fn lemma_error_res_bounds(res: YHErrorResView, buf: Seq<u8>)
    ensures
        encode_utf8(res.message).len() > 20 ==> res.checked() == Err::<(), YHErrorKind>(
            YHErrorKind::InvalidLength,
        ),
        buf.len() > 44 || buf.len() < 8 ==> YHErrorResView::parse(buf) == Err::<
            YHErrorResView,
            YHErrorKind,
        >(YHErrorKind::InvalidLength),
        8 <= buf.len() <= 44 ==> YHErrorResView::parse(buf) is Ok,
{
}

} // verus!
