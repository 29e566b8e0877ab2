//! The requests and responses that list and fetch data blobs.
//!
//! Layouts, offsets in bytes:
//!
//! | message        | written by `to_bytes`         | read by `from_bytes`                 |
//! |----------------|-------------------------------|--------------------------------------|
//! | `YListDataReq` | method 0..4, id 4..68         | 108 bytes: method 28..32, id 44..108 |
//! | `YListDataRes` | method 0..4, count 4..8, items| the same, 8 bytes or more            |
//! | `YGetDataReq`  | method 0..4, checksum 4..68   | the same, 68 bytes                   |
//! | `YGetDataRes`  | method 0..4, blob 4..         | the same, 104 bytes or more          |
//!
//! A list request is read from the frame that the transport hands over, in
//! which an envelope of 40 bytes surrounds the two fields; `to_bytes` writes
//! the two fields alone.

use crate::data::blobs_view;
use crate::data::YData;
use crate::digest::YDigest64;
use crate::encoding::be_u32;
use crate::encoding::buf_bytes;
use crate::encoding::buf_extend;
use crate::encoding::buf_new;
use crate::encoding::buf_put_u32;
use crate::encoding::buf_to_vec;
use crate::encoding::lemma_u32_value_roundtrip;
use crate::encoding::read_u32_be;
use crate::encoding::u32_be;
use crate::errors::YHErrorKind;
use crate::errors::YHResult;
use crate::network::method::YMethod;
use bytes::BytesMut;
use vstd::prelude::*;
use vstd::slice::slice_subrange;

verus! {

/// One item of a list response on the wire: its size, then its bytes.
pub open spec fn item_encoding(item: Seq<u8>) -> Seq<u8> {
    u32_be(item.len() as u32) + item
}

/// The items of a list response on the wire, one after the other.
pub open spec fn items_encoding(items: Seq<Seq<u8>>) -> Seq<u8>
    decreases items.len(),
{
    if items.len() == 0 {
        Seq::empty()
    } else {
        item_encoding(items[0]) + items_encoding(items.skip(1))
    }
}

/// The `count` items that `buf` holds, if it holds exactly that many: each a
/// size of four bytes followed by as many bytes, with nothing left over.
pub open spec fn parse_items(buf: Seq<u8>, count: nat) -> Option<Seq<Seq<u8>>>
    decreases count,
{
    if count == 0 {
        if buf.len() == 0 {
            Some(Seq::empty())
        } else {
            None
        }
    } else if buf.len() < 4 {
        None
    } else {
        let size = be_u32(buf) as int;
        if buf.len() - 4 < size {
            None
        } else {
            match parse_items(buf.skip(4 + size), (count - 1) as nat) {
                Some(rest) => Some(seq![buf.subrange(4, 4 + size)] + rest),
                None => None,
            }
        }
    }
}

/// Whether every item is short enough for its size to fit in four bytes.
pub open spec fn items_fit(items: Seq<Seq<u8>>) -> bool {
    forall|i: int| 0 <= i < items.len() ==> (#[trigger] items[i]).len() <= u32::MAX
}

/// The items of two lists, one list after the other, encode to the two
/// encodings, one after the other.
pub proof fn lemma_items_encoding_concat(a: Seq<Seq<u8>>, b: Seq<Seq<u8>>)
    ensures
        items_encoding(a + b) == items_encoding(a) + items_encoding(b),
    decreases a.len(),
{
    if a.len() == 0 {
        assert(a + b =~= b);
        assert(items_encoding(a) + items_encoding(b) =~= items_encoding(b));
    } else {
        lemma_items_encoding_concat(a.skip(1), b);
        assert((a + b).skip(1) =~= a.skip(1) + b);
        assert((a + b)[0] == a[0]);
        assert(items_encoding(a + b) =~= items_encoding(a) + items_encoding(b));
    }
}

/// The first `n + 1` items encode to the encoding of the first `n` followed
/// by the item at `n`.
pub proof fn lemma_items_encoding_step(items: Seq<Seq<u8>>, n: int)
    requires
        0 <= n < items.len(),
    ensures
        items_encoding(items.take(n + 1)) == items_encoding(items.take(n)) + item_encoding(
            items[n],
        ),
{
    let one = seq![items[n]];
    assert(items.take(n + 1) =~= items.take(n) + one);
    lemma_items_encoding_concat(items.take(n), one);
    assert(one.skip(1) =~= Seq::<Seq<u8>>::empty());
    assert(items_encoding(one) =~= item_encoding(items[n])) by {
        reveal_with_fuel(items_encoding, 2);
    }
}

/// No prefix of the items encodes to more bytes than all of them.
pub proof fn lemma_items_encoding_prefix(items: Seq<Seq<u8>>, n: int)
    requires
        0 <= n <= items.len(),
    ensures
        items_encoding(items.take(n)).len() <= items_encoding(items).len(),
{
    assert(items.take(n) + items.skip(n) =~= items);
    lemma_items_encoding_concat(items.take(n), items.skip(n));
}

/// Items that fit are read back from their encoding, byte for byte and in
/// their order.
pub proof fn lemma_items_roundtrip(items: Seq<Seq<u8>>)
    requires
        items_fit(items),
    ensures
        parse_items(items_encoding(items), items.len()) == Some(items),
    decreases items.len(),
{
    if items.len() > 0 {
        let head = items[0];
        let tail = items.skip(1);
        let all = items_encoding(items);
        assert(items_fit(tail)) by {
            assert forall|i: int| 0 <= i < tail.len() implies (#[trigger] tail[i]).len()
                <= u32::MAX by {
                assert(tail[i] == items[i + 1]);
            }
        }
        lemma_items_roundtrip(tail);
        lemma_u32_value_roundtrip(head.len() as u32);
        let size = u32_be(head.len() as u32);
        assert(all.subrange(0, 4) =~= size);
        assert(size.subrange(0, 4) =~= size);
        assert(be_u32(all) == head.len());
        assert(all.skip(4 + head.len() as int) =~= items_encoding(tail));
        assert(all.subrange(4, 4 + head.len() as int) =~= head);
        assert(seq![head] + tail =~= items);
    } else {
        assert(items =~= Seq::<Seq<u8>>::empty());
    }
}

/// A request for the list of the data blobs of a transaction.
#[derive(Clone, Debug, PartialEq, Eq, Default)]
pub struct YListDataReq {
    pub method: YMethod,
    pub tx_id: YDigest64,
}

/// A list request as contracts speak of it.
pub struct YListDataReqView {
    pub method: YMethod,
    pub tx_id: Seq<u8>,
}

impl View for YListDataReq {
    type V = YListDataReqView;

    open spec fn view(&self) -> YListDataReqView {
        YListDataReqView { method: self.method, tx_id: self.tx_id@ }
    }
}

impl YListDataReqView {
    /// What `check` answers.
    pub open spec fn checked(self) -> YHResult<()> {
        if self.method != YMethod::ListData {
            Err(YHErrorKind::InvalidMethod)
        } else {
            Ok(())
        }
    }

    /// The two fields on the wire.
    pub open spec fn encoding(self) -> Seq<u8> {
        self.method.encoding() + self.tx_id
    }

    /// What a frame decodes to.
    pub open spec fn parse(buf: Seq<u8>) -> YHResult<YListDataReqView> {
        if buf.len() != 108 {
            Err(YHErrorKind::InvalidLength)
        } else {
            let method = YMethod::of_code(be_u32(buf.subrange(28, 32)));
            if method != YMethod::ListData {
                Err(YHErrorKind::InvalidMethod)
            } else {
                Ok(YListDataReqView { method, tx_id: buf.subrange(44, 108) })
            }
        }
    }
}

impl YListDataReq {
    pub fn new(tx_id: YDigest64) -> (req: YListDataReq)
        ensures
            req@ == (YListDataReqView { method: YMethod::ListData, tx_id: tx_id@ }),
            req@.checked() is Ok,
    {
        YListDataReq { method: YMethod::ListData, tx_id }
    }

    /// Accepts the request if and only if its method is `ListData`.
    pub fn check(&self) -> (r: YHResult<()>)
        ensures
            r == self@.checked(),
    {
        if self.method != YMethod::ListData {
            return Err(YHErrorKind::InvalidMethod);
        }
        Ok(())
    }

    /// The method and the transaction id, 68 bytes, of a request that passes
    /// `check`; the error of `check` otherwise.
    pub fn to_bytes(&self) -> (r: YHResult<Vec<u8>>)
        ensures
            match r {
                Ok(out) => self@.checked() is Ok && out@ == self@.encoding(),
                Err(e) => self@.checked() == Err::<(), YHErrorKind>(e),
            },
    {
        match self.check() {
            Err(e) => {
                return Err(e);
            },
            Ok(()) => {},
        }
        let mut buf: BytesMut = buf_new();
        let method: Vec<u8> = self.method.to_bytes();
        let tx_id: Vec<u8> = self.tx_id.to_bytes();
        proof {
            lemma_u32_value_roundtrip(self.method.code());
        }
        buf_extend(&mut buf, method.as_slice());
        buf_extend(&mut buf, tx_id.as_slice());
        let out: Vec<u8> = buf_to_vec(&buf);
        assert(out@ =~= self@.encoding());
        Ok(out)
    }

    /// Reads a request from a frame of exactly 108 bytes, with the method at
    /// offset 28 and the transaction id at offset 44.
    pub fn from_bytes(buf: &[u8]) -> (r: YHResult<YListDataReq>)
        ensures
            match r {
                Ok(req) => YListDataReqView::parse(buf@) == Ok::<YListDataReqView, YHErrorKind>(
                    req@,
                ),
                Err(e) => YListDataReqView::parse(buf@) == Err::<YListDataReqView, YHErrorKind>(e),
            },
    {
        if buf.len() != 108 {
            return Err(YHErrorKind::InvalidLength);
        }
        let method: YMethod = YMethod::from_u32(read_u32_be(slice_subrange(buf, 28, 32)));
        let tx_id: YDigest64 = match YDigest64::from_bytes(slice_subrange(buf, 44, 108)) {
            Ok(digest) => digest,
            Err(e) => {
                return Err(e);
            },
        };
        let req = YListDataReq { method, tx_id };
        match req.check() {
            Err(e) => Err(e),
            Ok(()) => Ok(req),
        }
    }
}

/// A frame that holds a checked request's two fields at their offsets is read
/// back as that request, whatever the envelope around them holds.
pub proof fn lemma_list_data_req_roundtrip(
    req: YListDataReqView,
    head: Seq<u8>,
    middle: Seq<u8>,
)
    requires
        req.checked() is Ok,
        req.tx_id.len() == 64,
        head.len() == 28,
        middle.len() == 12,
    ensures
        req.encoding().len() == 68,
        YListDataReqView::parse(head + req.method.encoding() + middle + req.tx_id) == Ok::<
            YListDataReqView,
            YHErrorKind,
        >(req),
{
    lemma_u32_value_roundtrip(req.method.code());
    let frame = head + req.method.encoding() + middle + req.tx_id;
    assert(frame.subrange(28, 32) =~= req.method.encoding());
    assert(frame.subrange(44, 108) =~= req.tx_id);
}

/// The items `done`, followed by the items that are still to be read, if
/// those can be read.
pub open spec fn items_after(done: Seq<Seq<u8>>, rest: Option<Seq<Seq<u8>>>) -> Option<
    Seq<Seq<u8>>,
> {
    match rest {
        Some(items) => Some(done + items),
        None => None,
    }
}

/// The response to a list request: the data blobs of the transaction.
#[derive(Clone, Debug, PartialEq, Eq, Default)]
pub struct YListDataRes {
    pub method: YMethod,
    /// The number of blobs that the response declares.
    pub count: u32,
    pub data: Vec<YData>,
}

/// A list response as contracts speak of it.
pub struct YListDataResView {
    pub method: YMethod,
    pub count: u32,
    pub data: Seq<Seq<u8>>,
}

impl View for YListDataRes {
    type V = YListDataResView;

    open spec fn view(&self) -> YListDataResView {
        YListDataResView { method: self.method, count: self.count, data: blobs_view(self.data@) }
    }
}

impl YListDataResView {
    /// What `check` answers.
    pub open spec fn checked(self) -> YHResult<()> {
        if self.method != YMethod::ListData {
            Err(YHErrorKind::InvalidMethod)
        } else if self.data.len() != self.count {
            Err(YHErrorKind::InvalidLength)
        } else {
            Ok(())
        }
    }

    /// The response on the wire: method, count, and each item behind its size.
    pub open spec fn encoding(self) -> Seq<u8> {
        self.method.encoding() + u32_be(self.count) + items_encoding(self.data)
    }

    /// What `to_bytes` answers: the encoding of a response that passes `check`,
    /// whose items' sizes fit in four bytes and whose encoding fits in memory.
    pub open spec fn encoded(self) -> YHResult<Seq<u8>> {
        match self.checked() {
            Err(e) => Err(e),
            Ok(()) => if items_fit(self.data) && self.encoding().len() <= usize::MAX {
                Ok(self.encoding())
            } else {
                Err(YHErrorKind::InvalidLength)
            },
        }
    }

    /// What a buffer decodes to.
    pub open spec fn parse(buf: Seq<u8>) -> YHResult<YListDataResView> {
        if buf.len() < 8 {
            Err(YHErrorKind::InvalidLength)
        } else {
            let method = YMethod::of_code(be_u32(buf.subrange(0, 4)));
            let count = be_u32(buf.subrange(4, 8));
            match parse_items(buf.subrange(8, buf.len() as int), count as nat) {
                None => Err(YHErrorKind::InvalidLength),
                Some(data) => if method != YMethod::ListData {
                    Err(YHErrorKind::InvalidMethod)
                } else {
                    Ok(YListDataResView { method, count, data })
                },
            }
        }
    }
}

impl YListDataRes {
    /// A response that carries copies of the blobs, with their number as its
    /// count (cut to 32 bits, so a longer list does not pass `check`).
    pub fn new(data: &Vec<YData>) -> (res: YListDataRes)
        ensures
            res@ == (YListDataResView {
                method: YMethod::ListData,
                count: data@.len() as u32,
                data: blobs_view(data@),
            }),
    {
        let mut copy: Vec<YData> = Vec::new();
        let mut i: usize = 0;
        while i < data.len()
            invariant
                i <= data.len(),
                copy@.len() == i,
                forall|k: int| 0 <= k < i ==> copy@[k]@ == data@[k]@,
            decreases data.len() - i,
        {
            copy.push(YData::from_bytes(data[i].bytes.as_slice()));
            i += 1;
        }
        assert(blobs_view(copy@) =~= blobs_view(data@));
        YListDataRes { method: YMethod::ListData, count: data.len() as u32, data: copy }
    }

    /// Accepts the response if and only if its method is `ListData` and it
    /// holds as many blobs as it declares.
    pub fn check(&self) -> (r: YHResult<()>)
        ensures
            r == self@.checked(),
    {
        if self.method != YMethod::ListData {
            return Err(YHErrorKind::InvalidMethod);
        }
        if self.data.len() != self.count as usize {
            return Err(YHErrorKind::InvalidLength);
        }
        Ok(())
    }

    /// The response on the wire, or the reason why it has no encoding.
    pub fn to_bytes(&self) -> (r: YHResult<Vec<u8>>)
        ensures
            match r {
                Ok(out) => self@.encoded() == Ok::<Seq<u8>, YHErrorKind>(out@),
                Err(e) => self@.encoded() == Err::<Seq<u8>, YHErrorKind>(e),
            },
    {
        match self.check() {
            Err(e) => {
                return Err(e);
            },
            Ok(()) => {},
        }
        let ghost items = self@.data;
        let mut buf: BytesMut = buf_new();
        let method: Vec<u8> = self.method.to_bytes();
        proof {
            lemma_u32_value_roundtrip(self.method.code());
            lemma_u32_value_roundtrip(self.count);
        }
        buf_extend(&mut buf, method.as_slice());
        buf_put_u32(&mut buf, self.count);
        let mut len: usize = 8;
        let mut i: usize = 0;
        assert(items.take(0) =~= Seq::<Seq<u8>>::empty());
        assert(buf_bytes(buf) =~= self.method.encoding() + u32_be(self.count) + items_encoding(
            items.take(0),
        ));
        while i < self.data.len()
            invariant
                i <= self.data.len(),
                items == self@.data,
                self@.checked() is Ok,
                len == buf_bytes(buf).len(),
                buf_bytes(buf) == self.method.encoding() + u32_be(self.count) + items_encoding(
                    items.take(i as int),
                ),
                forall|k: int| 0 <= k < i ==> (#[trigger] items[k]).len() <= u32::MAX,
            decreases self.data.len() - i,
        {
            let item: Vec<u8> = self.data[i].to_bytes();
            let size: usize = item.len();
            proof {
                assert(items[i as int] == item@);
                lemma_items_encoding_step(items, i as int);
                lemma_items_encoding_prefix(items, i + 1);
                lemma_u32_value_roundtrip(size as u32);
            }
            if size > 0xffff_ffff {
                return Err(YHErrorKind::InvalidLength);
            }
            let grown: usize = match len.checked_add(4) {
                None => {
                    return Err(YHErrorKind::InvalidLength);
                },
                Some(with_size) => match with_size.checked_add(size) {
                    None => {
                        return Err(YHErrorKind::InvalidLength);
                    },
                    Some(with_item) => with_item,
                },
            };
            buf_put_u32(&mut buf, size as u32);
            buf_extend(&mut buf, item.as_slice());
            assert(buf_bytes(buf) =~= self.method.encoding() + u32_be(self.count) + items_encoding(
                items.take(i + 1),
            ));
            len = grown;
            i += 1;
        }
        assert(items.take(i as int) =~= items);
        let out: Vec<u8> = buf_to_vec(&buf);
        Ok(out)
    }

    /// Reads a response: the method and the count, and after them as many
    /// items as the count declares, each behind its size. A buffer that ends
    /// within an item, or goes on after the last one, is refused.
    pub fn from_bytes(buf: &[u8]) -> (r: YHResult<YListDataRes>)
        ensures
            match r {
                Ok(res) => YListDataResView::parse(buf@) == Ok::<YListDataResView, YHErrorKind>(
                    res@,
                ),
                Err(e) => YListDataResView::parse(buf@) == Err::<YListDataResView, YHErrorKind>(e),
            },
    {
        if buf.len() < 8 {
            return Err(YHErrorKind::InvalidLength);
        }
        let method: YMethod = YMethod::from_u32(read_u32_be(slice_subrange(buf, 0, 4)));
        let count: u32 = read_u32_be(slice_subrange(buf, 4, 8));
        let ghost body = buf@.subrange(8, buf@.len() as int);
        let mut data: Vec<YData> = Vec::new();
        let mut off: usize = 8;
        let mut i: u32 = 0;
        assert(items_after(blobs_view(data@), parse_items(body, count as nat)) == parse_items(
            body,
            count as nat,
        )) by {
            assert(blobs_view(data@) =~= Seq::<Seq<u8>>::empty());
            match parse_items(body, count as nat) {
                Some(all) => {
                    assert(blobs_view(data@) + all =~= all);
                },
                None => {},
            }
        }
        while i < count
            invariant
                8 <= off <= buf@.len(),
                i <= count,
                data@.len() == i,
                count == be_u32(buf@.subrange(4, 8)),
                body == buf@.subrange(8, buf@.len() as int),
                parse_items(body, count as nat) == items_after(
                    blobs_view(data@),
                    parse_items(buf@.subrange(off as int, buf@.len() as int), (count - i) as nat),
                ),
            decreases count - i,
        {
            let ghost cur = buf@.subrange(off as int, buf@.len() as int);
            if buf.len() - off < 4 {
                return Err(YHErrorKind::InvalidLength);
            }
            let size: usize = read_u32_be(slice_subrange(buf, off, off + 4)) as usize;
            proof {
                assert(cur.subrange(0, 4) =~= buf@.subrange(off as int, off + 4).subrange(0, 4));
                assert(size == be_u32(cur));
            }
            if buf.len() - off - 4 < size {
                return Err(YHErrorKind::InvalidLength);
            }
            let item: YData = YData::from_bytes(slice_subrange(buf, off + 4, off + 4 + size));
            let ghost before = blobs_view(data@);
            data.push(item);
            proof {
                let next = buf@.subrange(off + 4 + size, buf@.len() as int);
                assert(cur.skip(4 + size) =~= next);
                assert(cur.subrange(4, 4 + size) =~= item@);
                assert(blobs_view(data@) =~= before + seq![item@]);
                match parse_items(next, (count - i - 1) as nat) {
                    Some(rest) => {
                        assert(before + (seq![item@] + rest) =~= blobs_view(data@) + rest);
                    },
                    None => {},
                }
            }
            off = off + 4 + size;
            i += 1;
        }
        if off != buf.len() {
            return Err(YHErrorKind::InvalidLength);
        }
        proof {
            let cur = buf@.subrange(off as int, buf@.len() as int);
            assert(cur.len() == 0);
            assert(blobs_view(data@) + Seq::<Seq<u8>>::empty() =~= blobs_view(data@));
        }
        let res = YListDataRes { method, count, data };
        match res.check() {
            Err(e) => Err(e),
            Ok(()) => Ok(res),
        }
    }
}

/// A response that passes `check` and whose items fit is read back from its
/// encoding with the same method and count and with exactly its items, byte
/// for byte and in their order.
pub proof fn lemma_list_data_res_roundtrip(res: YListDataResView)
    requires
        res.checked() is Ok,
        items_fit(res.data),
    ensures
        YListDataResView::parse(res.encoding()) == Ok::<YListDataResView, YHErrorKind>(res),
{
    lemma_u32_value_roundtrip(res.method.code());
    lemma_u32_value_roundtrip(res.count);
    lemma_items_roundtrip(res.data);
    let frame = res.encoding();
    let method = res.method.encoding();
    let count = u32_be(res.count);
    assert(frame.subrange(0, 4) =~= method);
    assert(method.subrange(0, 4) =~= method);
    assert(frame.subrange(4, 8) =~= count);
    assert(count.subrange(0, 4) =~= count);
    assert(frame.subrange(8, frame.len() as int) =~= items_encoding(res.data));
}

/// A request for one data blob, named by its checksum.
#[derive(Clone, Debug, PartialEq, Eq, Default)]
pub struct YGetDataReq {
    pub method: YMethod,
    pub checksum: YDigest64,
}

/// A get request as contracts speak of it.
pub struct YGetDataReqView {
    pub method: YMethod,
    pub checksum: Seq<u8>,
}

impl View for YGetDataReq {
    type V = YGetDataReqView;

    open spec fn view(&self) -> YGetDataReqView {
        YGetDataReqView { method: self.method, checksum: self.checksum@ }
    }
}

impl YGetDataReqView {
    /// What `check` answers.
    pub open spec fn checked(self) -> YHResult<()> {
        if self.method != YMethod::GetData {
            Err(YHErrorKind::InvalidMethod)
        } else {
            Ok(())
        }
    }

    /// The request on the wire: method, then checksum.
    pub open spec fn encoding(self) -> Seq<u8> {
        self.method.encoding() + self.checksum
    }

    /// What a buffer decodes to.
    pub open spec fn parse(buf: Seq<u8>) -> YHResult<YGetDataReqView> {
        if buf.len() != 68 {
            Err(YHErrorKind::InvalidLength)
        } else {
            let method = YMethod::of_code(be_u32(buf.subrange(0, 4)));
            if method != YMethod::GetData {
                Err(YHErrorKind::InvalidMethod)
            } else {
                Ok(YGetDataReqView { method, checksum: buf.subrange(4, 68) })
            }
        }
    }
}

impl YGetDataReq {
    pub fn new(checksum: YDigest64) -> (req: YGetDataReq)
        ensures
            req@ == (YGetDataReqView { method: YMethod::GetData, checksum: checksum@ }),
            req@.checked() is Ok,
    {
        YGetDataReq { method: YMethod::GetData, checksum }
    }

    /// Accepts the request if and only if its method is `GetData`.
    pub fn check(&self) -> (r: YHResult<()>)
        ensures
            r == self@.checked(),
    {
        if self.method != YMethod::GetData {
            return Err(YHErrorKind::InvalidMethod);
        }
        Ok(())
    }

    /// The method and the checksum, 68 bytes, of a request that passes
    /// `check`; the error of `check` otherwise.
    pub fn to_bytes(&self) -> (r: YHResult<Vec<u8>>)
        ensures
            match r {
                Ok(out) => self@.checked() is Ok && out@ == self@.encoding(),
                Err(e) => self@.checked() == Err::<(), YHErrorKind>(e),
            },
    {
        match self.check() {
            Err(e) => {
                return Err(e);
            },
            Ok(()) => {},
        }
        let mut buf: BytesMut = buf_new();
        let method: Vec<u8> = self.method.to_bytes();
        let checksum: Vec<u8> = self.checksum.to_bytes();
        proof {
            lemma_u32_value_roundtrip(self.method.code());
        }
        buf_extend(&mut buf, method.as_slice());
        buf_extend(&mut buf, checksum.as_slice());
        let out: Vec<u8> = buf_to_vec(&buf);
        assert(out@ =~= self@.encoding());
        Ok(out)
    }

    /// Reads a request from exactly 68 bytes.
    pub fn from_bytes(buf: &[u8]) -> (r: YHResult<YGetDataReq>)
        ensures
            match r {
                Ok(req) => YGetDataReqView::parse(buf@) == Ok::<YGetDataReqView, YHErrorKind>(
                    req@,
                ),
                Err(e) => YGetDataReqView::parse(buf@) == Err::<YGetDataReqView, YHErrorKind>(e),
            },
    {
        if buf.len() != 68 {
            return Err(YHErrorKind::InvalidLength);
        }
        let method: YMethod = YMethod::from_u32(read_u32_be(slice_subrange(buf, 0, 4)));
        let checksum: YDigest64 = match YDigest64::from_bytes(slice_subrange(buf, 4, 68)) {
            Ok(digest) => digest,
            Err(e) => {
                return Err(e);
            },
        };
        let req = YGetDataReq { method, checksum };
        match req.check() {
            Err(e) => Err(e),
            Ok(()) => Ok(req),
        }
    }
}

/// A get request that passes `check` is read back from its encoding.
pub proof fn lemma_get_data_req_roundtrip(req: YGetDataReqView)
    requires
        req.checked() is Ok,
        req.checksum.len() == 64,
    ensures
        YGetDataReqView::parse(req.encoding()) == Ok::<YGetDataReqView, YHErrorKind>(req),
{
    lemma_u32_value_roundtrip(req.method.code());
    let frame = req.encoding();
    let method = req.method.encoding();
    assert(frame.subrange(0, 4) =~= method);
    assert(frame.subrange(4, 68) =~= req.checksum);
}

/// The response to a get request: the data blob.
#[derive(Clone, Debug, PartialEq, Eq, Default)]
pub struct YGetDataRes {
    pub method: YMethod,
    pub data: YData,
}

/// A get response as contracts speak of it.
pub struct YGetDataResView {
    pub method: YMethod,
    pub data: Seq<u8>,
}

impl View for YGetDataRes {
    type V = YGetDataResView;

    open spec fn view(&self) -> YGetDataResView {
        YGetDataResView { method: self.method, data: self.data@ }
    }
}

impl YGetDataResView {
    /// What `check` answers.
    pub open spec fn checked(self) -> YHResult<()> {
        if self.method != YMethod::GetData {
            Err(YHErrorKind::InvalidMethod)
        } else {
            Ok(())
        }
    }

    /// The response on the wire: method, then the blob.
    pub open spec fn encoding(self) -> Seq<u8> {
        self.method.encoding() + self.data
    }

    /// What `to_bytes` answers: the encoding of a response that passes `check`
    /// and whose encoding fits in memory.
    pub open spec fn encoded(self) -> YHResult<Seq<u8>> {
        match self.checked() {
            Err(e) => Err(e),
            Ok(()) => if self.encoding().len() <= usize::MAX {
                Ok(self.encoding())
            } else {
                Err(YHErrorKind::InvalidLength)
            },
        }
    }

    /// What a buffer decodes to.
    pub open spec fn parse(buf: Seq<u8>) -> YHResult<YGetDataResView> {
        if buf.len() < 104 {
            Err(YHErrorKind::InvalidLength)
        } else {
            let method = YMethod::of_code(be_u32(buf.subrange(0, 4)));
            if method != YMethod::GetData {
                Err(YHErrorKind::InvalidMethod)
            } else {
                Ok(YGetDataResView { method, data: buf.subrange(4, buf.len() as int) })
            }
        }
    }
}

impl YGetDataRes {
    /// A response that carries a copy of the blob.
    pub fn new(data: &YData) -> (res: YGetDataRes)
        ensures
            res@ == (YGetDataResView { method: YMethod::GetData, data: data@ }),
            res@.checked() is Ok,
    {
        YGetDataRes { method: YMethod::GetData, data: YData::from_bytes(data.bytes.as_slice()) }
    }

    /// Accepts the response if and only if its method is `GetData`.
    pub fn check(&self) -> (r: YHResult<()>)
        ensures
            r == self@.checked(),
    {
        if self.method != YMethod::GetData {
            return Err(YHErrorKind::InvalidMethod);
        }
        Ok(())
    }

    /// The response on the wire, or the reason why it has no encoding.
    pub fn to_bytes(&self) -> (r: YHResult<Vec<u8>>)
        ensures
            match r {
                Ok(out) => self@.encoded() == Ok::<Seq<u8>, YHErrorKind>(out@),
                Err(e) => self@.encoded() == Err::<Seq<u8>, YHErrorKind>(e),
            },
    {
        match self.check() {
            Err(e) => {
                return Err(e);
            },
            Ok(()) => {},
        }
        let method: Vec<u8> = self.method.to_bytes();
        let data: Vec<u8> = self.data.to_bytes();
        proof {
            lemma_u32_value_roundtrip(self.method.code());
        }
        if data.len() > usize::MAX - 4 {
            return Err(YHErrorKind::InvalidLength);
        }
        let mut buf: BytesMut = buf_new();
        buf_extend(&mut buf, method.as_slice());
        buf_extend(&mut buf, data.as_slice());
        let out: Vec<u8> = buf_to_vec(&buf);
        assert(out@ =~= self@.encoding());
        Ok(out)
    }

    /// Reads a response from at least 104 bytes: the method, and the blob in
    /// all the bytes behind it.
    pub fn from_bytes(buf: &[u8]) -> (r: YHResult<YGetDataRes>)
        ensures
            match r {
                Ok(res) => YGetDataResView::parse(buf@) == Ok::<YGetDataResView, YHErrorKind>(
                    res@,
                ),
                Err(e) => YGetDataResView::parse(buf@) == Err::<YGetDataResView, YHErrorKind>(e),
            },
    {
        if buf.len() < 104 {
            return Err(YHErrorKind::InvalidLength);
        }
        let method: YMethod = YMethod::from_u32(read_u32_be(slice_subrange(buf, 0, 4)));
        let data: YData = YData::from_bytes(slice_subrange(buf, 4, buf.len()));
        let res = YGetDataRes { method, data };
        match res.check() {
            Err(e) => Err(e),
            Ok(()) => Ok(res),
        }
    }
}

/// A get response that passes `check` and carries a blob of at least 100
/// bytes is read back from its encoding.
pub proof fn lemma_get_data_res_roundtrip(res: YGetDataResView)
    requires
        res.checked() is Ok,
        res.data.len() >= 100,
    ensures
        YGetDataResView::parse(res.encoding()) == Ok::<YGetDataResView, YHErrorKind>(res),
{
    lemma_u32_value_roundtrip(res.method.code());
    let frame = res.encoding();
    let method = res.method.encoding();
    assert(frame.subrange(0, 4) =~= method);
    assert(frame.subrange(4, frame.len() as int) =~= res.data);
}

/// A list request is read from 108 bytes and from no other number, and a get
/// request from 68.
pub proof fn lemma_request_lengths(buf: Seq<u8>)
    ensures
        buf.len() != 108 ==> YListDataReqView::parse(buf) == Err::<YListDataReqView, YHErrorKind>(
            YHErrorKind::InvalidLength,
        ),
        buf.len() != 68 ==> YGetDataReqView::parse(buf) == Err::<YGetDataReqView, YHErrorKind>(
            YHErrorKind::InvalidLength,
        ),
        YListDataReqView::parse(buf) is Ok ==> buf.len() == 108,
        YGetDataReqView::parse(buf) is Ok ==> buf.len() == 68,
{
}

/// A response is read from no fewer bytes than its fixed fields take: 8 for
/// a list response, 104 for a get response.
pub proof fn lemma_response_lengths(buf: Seq<u8>)
    ensures
        buf.len() < 8 ==> YListDataResView::parse(buf) == Err::<YListDataResView, YHErrorKind>(
            YHErrorKind::InvalidLength,
        ),
        buf.len() < 104 ==> YGetDataResView::parse(buf) == Err::<YGetDataResView, YHErrorKind>(
            YHErrorKind::InvalidLength,
        ),
{
}

/// A message whose method is not the one of its operation passes no check
/// and has no encoding.
pub proof fn lemma_foreign_method(
    list_req: YListDataReqView,
    list_res: YListDataResView,
    get_req: YGetDataReqView,
    get_res: YGetDataResView,
)
    ensures
        list_req.method != YMethod::ListData ==> list_req.checked() == Err::<(), YHErrorKind>(
            YHErrorKind::InvalidMethod,
        ),
        list_res.method != YMethod::ListData ==> list_res.checked() == Err::<(), YHErrorKind>(
            YHErrorKind::InvalidMethod,
        ) && list_res.encoded() == Err::<Seq<u8>, YHErrorKind>(YHErrorKind::InvalidMethod),
        get_req.method != YMethod::GetData ==> get_req.checked() == Err::<(), YHErrorKind>(
            YHErrorKind::InvalidMethod,
        ),
        get_res.method != YMethod::GetData ==> get_res.checked() == Err::<(), YHErrorKind>(
            YHErrorKind::InvalidMethod,
        ) && get_res.encoded() == Err::<Seq<u8>, YHErrorKind>(YHErrorKind::InvalidMethod),
{
}

} // verus!
