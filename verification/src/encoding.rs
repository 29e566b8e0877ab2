//! Big-endian integers and the growable byte buffer that frames are built in.

use bytes::BigEndian;
use bytes::ByteOrder;
use bytes::BytesMut;
use vstd::prelude::*;
use vstd::utf8::decode_utf8;
use vstd::utf8::valid_utf8;

verus! {

/// The number that the bytes of `s` spell in base 256, first byte weightiest.
#[verifier::opaque]
pub open spec fn be_value(s: Seq<u8>) -> nat
    decreases s.len(),
{
    if s.len() == 0 {
        0
    } else {
        be_value(s.drop_last()) * 256 + s.last() as nat
    }
}

/// The `width` lowest base-256 digits of `n`, weightiest first.
#[verifier::opaque]
pub open spec fn be_bytes(n: nat, width: nat) -> Seq<u8>
    decreases width,
{
    if width == 0 {
        Seq::empty()
    } else {
        be_bytes(n / 256, (width - 1) as nat).push((n % 256) as u8)
    }
}

/// 256 to the power `width`: the numbers below it fit in `width` bytes.
pub open spec fn be_limit(width: nat) -> nat
    decreases width,
{
    if width == 0 {
        1
    } else {
        256 * be_limit((width - 1) as nat)
    }
}

/// The two big-endian bytes of `n`.
pub open spec fn u16_be(n: u16) -> Seq<u8> {
    be_bytes(n as nat, 2)
}

/// The number spelled by the first two bytes of `s`.
pub open spec fn be_u16(s: Seq<u8>) -> u16 {
    be_value(s.subrange(0, 2)) as u16
}

/// The four big-endian bytes of `n`.
pub open spec fn u32_be(n: u32) -> Seq<u8> {
    be_bytes(n as nat, 4)
}

/// The number spelled by the first four bytes of `s`.
pub open spec fn be_u32(s: Seq<u8>) -> u32 {
    be_value(s.subrange(0, 4)) as u32
}

/// The eight big-endian bytes of `n`.
pub open spec fn u64_be(n: u64) -> Seq<u8> {
    be_bytes(n as nat, 8)
}

/// The number spelled by the first eight bytes of `s`.
pub open spec fn be_u64(s: Seq<u8>) -> u64 {
    be_value(s.subrange(0, 8)) as u64
}

/// `be_bytes` yields exactly `width` bytes.
pub proof fn lemma_be_bytes_len(n: nat, width: nat)
    ensures
        be_bytes(n, width).len() == width,
    decreases width,
{
    reveal_with_fuel(be_bytes, 2);
    if width > 0 {
        lemma_be_bytes_len(n / 256, (width - 1) as nat);
    }
}

/// A byte string spells a number below the limit of its length.
pub proof fn lemma_be_value_bound(s: Seq<u8>)
    ensures
        be_value(s) < be_limit(s.len()),
    decreases s.len(),
{
    reveal_with_fuel(be_value, 2);
    if s.len() > 0 {
        lemma_be_value_bound(s.drop_last());
    }
}

/// Decoding the bytes of a number that fits gives the number back.
pub proof fn lemma_be_value_of_bytes(n: nat, width: nat)
    requires
        n < be_limit(width),
    ensures
        be_value(be_bytes(n, width)) == n,
    decreases width,
{
    reveal_with_fuel(be_value, 2);
    reveal_with_fuel(be_bytes, 2);
    if width > 0 {
        let rest = be_bytes(n / 256, (width - 1) as nat);
        lemma_be_value_of_bytes(n / 256, (width - 1) as nat);
        lemma_be_bytes_len(n / 256, (width - 1) as nat);
        assert(rest.push((n % 256) as u8).drop_last() =~= rest);
    }
}

/// Encoding the number that a byte string spells gives the bytes back.
pub proof fn lemma_be_bytes_of_value(s: Seq<u8>)
    ensures
        be_bytes(be_value(s), s.len()) == s,
    decreases s.len(),
{
    reveal_with_fuel(be_value, 2);
    reveal_with_fuel(be_bytes, 2);
    if s.len() > 0 {
        lemma_be_bytes_of_value(s.drop_last());
        assert(s.drop_last().push(s.last()) =~= s);
    } else {
        assert(be_bytes(be_value(s), 0) =~= s);
    }
}

/// A byte string followed by another spells the number of the first, moved
/// up by the length of the second, plus the number of the second.
pub proof fn lemma_be_value_concat(a: Seq<u8>, b: Seq<u8>)
    ensures
        be_value(a + b) == be_value(a) * be_limit(b.len()) + be_value(b),
    decreases b.len(),
{
    reveal_with_fuel(be_value, 2);
    if b.len() == 0 {
        assert(a + b =~= a);
        assert(be_limit(b.len()) == 1);
        assert(be_value(b) == 0);
    } else {
        let front = b.drop_last();
        lemma_be_value_concat(a, front);
        assert((a + b).drop_last() =~= a + front);
        assert((a + b).last() == b.last());
        let x = be_value(a) as int;
        let l = be_limit(front.len()) as int;
        let vf = be_value(front) as int;
        assert(be_limit(b.len()) == 256 * l);
        assert(be_value(b) == vf * 256 + b.last() as int);
        assert(be_value(a + b) == (x * l + vf) * 256 + b.last() as int);
        assert((x * l) * 256 == x * (256 * l)) by (nonlinear_arith);
    }
}

/// The limits of the three widths in use.
pub proof fn lemma_be_limits()
    ensures
        be_limit(2) == 0x1_0000,
        be_limit(4) == 0x1_0000_0000,
        be_limit(8) == 0x1_0000_0000_0000_0000,
{
    reveal_with_fuel(be_limit, 9);
}

/// Decoding the big-endian bytes of a `u16` gives the number back.
pub proof fn lemma_u16_value_roundtrip(n: u16)
    ensures
        u16_be(n).len() == 2,
        be_u16(u16_be(n)) == n,
{
    lemma_be_limits();
    lemma_be_bytes_len(n as nat, 2);
    lemma_be_value_of_bytes(n as nat, 2);
    assert(u16_be(n).subrange(0, 2) =~= u16_be(n));
}

/// Encoding the number read from two bytes gives the bytes back.
pub proof fn lemma_u16_bytes_roundtrip(s: Seq<u8>)
    requires
        s.len() == 2,
    ensures
        u16_be(be_u16(s)) == s,
{
    lemma_be_limits();
    assert(s.subrange(0, 2) =~= s);
    lemma_be_value_bound(s);
    lemma_be_bytes_of_value(s);
}

/// Decoding the big-endian bytes of a `u32` gives the number back.
pub proof fn lemma_u32_value_roundtrip(n: u32)
    ensures
        u32_be(n).len() == 4,
        be_u32(u32_be(n)) == n,
{
    lemma_be_limits();
    lemma_be_bytes_len(n as nat, 4);
    lemma_be_value_of_bytes(n as nat, 4);
    assert(u32_be(n).subrange(0, 4) =~= u32_be(n));
}

/// Encoding the number read from four bytes gives the bytes back.
pub proof fn lemma_u32_bytes_roundtrip(s: Seq<u8>)
    requires
        s.len() == 4,
    ensures
        u32_be(be_u32(s)) == s,
{
    lemma_be_limits();
    assert(s.subrange(0, 4) =~= s);
    lemma_be_value_bound(s);
    lemma_be_bytes_of_value(s);
}

/// Decoding the big-endian bytes of a `u64` gives the number back.
pub proof fn lemma_u64_value_roundtrip(n: u64)
    ensures
        u64_be(n).len() == 8,
        be_u64(u64_be(n)) == n,
{
    lemma_be_limits();
    lemma_be_bytes_len(n as nat, 8);
    lemma_be_value_of_bytes(n as nat, 8);
    assert(u64_be(n).subrange(0, 8) =~= u64_be(n));
}

/// Encoding the number read from eight bytes gives the bytes back.
pub proof fn lemma_u64_bytes_roundtrip(s: Seq<u8>)
    requires
        s.len() == 8,
    ensures
        u64_be(be_u64(s)) == s,
{
    lemma_be_limits();
    assert(s.subrange(0, 8) =~= s);
    lemma_be_value_bound(s);
    lemma_be_bytes_of_value(s);
}

/// The buffer type of the `bytes` crate, carried through as an opaque value.
#[verifier::external_type_specification]
#[verifier::external_body]
pub struct ExBytesMut(BytesMut);

/// The bytes that a buffer holds, in order.
pub uninterp spec fn buf_bytes(buf: BytesMut) -> Seq<u8>;

/// `BytesMut::new`: a buffer that holds no bytes.
#[verifier::external_body]
pub(crate) fn buf_new() -> (buf: BytesMut)
    ensures
        buf_bytes(buf) == Seq::<u8>::empty(),
{
    BytesMut::new()
}

/// `BytesMut::extend_from_slice`: the buffer grows as needed and `src` is
/// appended to what it held; nothing else changes.
#[verifier::external_body]
pub(crate) fn buf_extend(buf: &mut BytesMut, src: &[u8])
    requires
        buf_bytes(*old(buf)).len() + src@.len() <= usize::MAX,
    ensures
        buf_bytes(*final(buf)) == buf_bytes(*old(buf)) + src@,
{
    buf.extend_from_slice(src)
}

/// `to_vec` on the buffer's bytes: a vector with a copy of what it holds.
#[verifier::external_body]
pub(crate) fn buf_to_vec(buf: &BytesMut) -> (out: Vec<u8>)
    ensures
        out@ == buf_bytes(*buf),
{
    buf.to_vec()
}

/// `BigEndian::read_u16`: the number spelled by the first two bytes.
#[verifier::external_body]
pub(crate) fn read_u16_be(buf: &[u8]) -> (n: u16)
    requires
        buf@.len() >= 2,
    ensures
        n == be_u16(buf@),
{
    BigEndian::read_u16(buf)
}

/// `BigEndian::read_u32`: the number spelled by the first four bytes.
#[verifier::external_body]
pub(crate) fn read_u32_be(buf: &[u8]) -> (n: u32)
    requires
        buf@.len() >= 4,
    ensures
        n == be_u32(buf@),
{
    BigEndian::read_u32(buf)
}

/// `BigEndian::read_u64`: the number spelled by the first eight bytes.
#[verifier::external_body]
pub(crate) fn read_u64_be(buf: &[u8]) -> (n: u64)
    requires
        buf@.len() >= 8,
    ensures
        n == be_u64(buf@),
{
    BigEndian::read_u64(buf)
}

/// `BigEndian::write_u16` into a fresh array: the two big-endian bytes of `n`.
#[verifier::external_body]
pub(crate) fn write_u16_be(n: u16) -> (out: [u8; 2])
    ensures
        out@ == u16_be(n),
{
    let mut out = [0u8; 2];
    BigEndian::write_u16(&mut out, n);
    out
}

/// `BigEndian::write_u32` into a fresh array: the four big-endian bytes of `n`.
#[verifier::external_body]
pub(crate) fn write_u32_be(n: u32) -> (out: [u8; 4])
    ensures
        out@ == u32_be(n),
{
    let mut out = [0u8; 4];
    BigEndian::write_u32(&mut out, n);
    out
}

/// `BigEndian::write_u64` into a fresh array: the eight big-endian bytes of `n`.
#[verifier::external_body]
pub(crate) fn write_u64_be(n: u64) -> (out: [u8; 8])
    ensures
        out@ == u64_be(n),
{
    let mut out = [0u8; 8];
    BigEndian::write_u64(&mut out, n);
    out
}

/// Appends the four big-endian bytes of `n` to the buffer.
pub(crate) fn buf_put_u32(buf: &mut BytesMut, n: u32)
    requires
        buf_bytes(*old(buf)).len() + 4 <= usize::MAX,
    ensures
        buf_bytes(*final(buf)) == buf_bytes(*old(buf)) + u32_be(n),
{
    let word: [u8; 4] = write_u32_be(n);
    proof {
        lemma_u32_value_roundtrip(n);
    }
    buf_extend(buf, word.as_slice());
}

/// What lossy decoding makes of bytes that are not valid UTF-8.
pub uninterp spec fn utf8_lossy(bytes: Seq<u8>) -> Seq<char>;

/// The text that lossy decoding reads from `bytes`: the text that they
/// encode where they are valid UTF-8.
pub open spec fn lossy_text(bytes: Seq<u8>) -> Seq<char> {
    if valid_utf8(bytes) {
        decode_utf8(bytes)
    } else {
        utf8_lossy(bytes)
    }
}

/// `String::from_utf8_lossy`, as an owned string: valid UTF-8 is decoded as
/// it stands; of other input the result is only named.
#[verifier::external_body]
pub(crate) fn string_from_utf8_lossy(bytes: &[u8]) -> (text: String)
    ensures
        text@ == (if valid_utf8(bytes@) {
            decode_utf8(bytes@)
        } else {
            utf8_lossy(bytes@)
        }),
{
    String::from_utf8_lossy(bytes).into_owned()
}

} // verus!
