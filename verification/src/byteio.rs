//! Fixed-width integer encodings through `byteorder`.

use byteorder::{BigEndian, ByteOrder, LittleEndian};
use vstd::prelude::*;

verus! {

/// The 2 bytes of `v`, least significant first.
pub open spec fn le_bytes_u16(v: u16) -> Seq<u8> {
    seq![(v & 0xffu16) as u8, ((v >> 8u16) & 0xffu16) as u8]
}

/// The 4 bytes of `v`, least significant first.
pub open spec fn le_bytes_u32(v: u32) -> Seq<u8> {
    seq![
        (v & 0xffu32) as u8,
        ((v >> 8u32) & 0xffu32) as u8,
        ((v >> 16u32) & 0xffu32) as u8,
        ((v >> 24u32) & 0xffu32) as u8,
    ]
}

/// The 2 bytes of `v`, most significant first.
pub open spec fn be_bytes_u16(v: u16) -> Seq<u8> {
    seq![((v >> 8u16) & 0xffu16) as u8, (v & 0xffu16) as u8]
}

/// The 4 bytes of `v`, most significant first.
pub open spec fn be_bytes_u32(v: u32) -> Seq<u8> {
    seq![
        ((v >> 24u32) & 0xffu32) as u8,
        ((v >> 16u32) & 0xffu32) as u8,
        ((v >> 8u32) & 0xffu32) as u8,
        (v & 0xffu32) as u8,
    ]
}

/// The 8 bytes of `v`, least significant first.
pub open spec fn le_bytes_u64(v: u64) -> Seq<u8> {
    Seq::new(8, |k: int| ((v >> ((8 * k) as u64)) & 0xffu64) as u8)
}

/// The big-endian 16-bit value in `b[at]`, `b[at + 1]`.
pub open spec fn be_u16_of(b: Seq<u8>, at: int) -> u16 {
    ((b[at] as u16) << 8u16) | (b[at + 1] as u16)
}

/// The big-endian 32-bit value in `b[at..at + 4]`.
pub open spec fn be_u32_of(b: Seq<u8>, at: int) -> u32 {
    ((b[at] as u32) << 24u32) | ((b[at + 1] as u32) << 16u32) | ((b[at + 2] as u32) << 8u32) | (b[at
        + 3] as u32)
}

/// The little-endian 32-bit value in `b[at..at + 4]`.
pub open spec fn le_u32_of(b: Seq<u8>, at: int) -> u32 {
    (b[at] as u32) | ((b[at + 1] as u32) << 8u32) | ((b[at + 2] as u32) << 16u32) | ((b[at + 3] as u32)
        << 24u32)
}

/// `LittleEndian::write_u16` into a 2-byte buffer: the bytes of `v`, least significant first.
#[verifier::external_body]
pub(crate) fn le_u16_bytes(v: u16) -> (r: [u8; 2])
    ensures
        r@ == le_bytes_u16(v),
{
    let mut buf = [0u8; 2];
    LittleEndian::write_u16(&mut buf, v);
    buf
}

/// `LittleEndian::write_u32` into a 4-byte buffer: the bytes of `v`, least significant first.
#[verifier::external_body]
pub(crate) fn le_u32_bytes(v: u32) -> (r: [u8; 4])
    ensures
        r@ == le_bytes_u32(v),
{
    let mut buf = [0u8; 4];
    LittleEndian::write_u32(&mut buf, v);
    buf
}

/// `LittleEndian::write_u64` into an 8-byte buffer: the bytes of `v`, least significant first.
#[verifier::external_body]
pub(crate) fn le_u64_bytes(v: u64) -> (r: [u8; 8])
    ensures
        r@ == le_bytes_u64(v),
{
    let mut buf = [0u8; 8];
    LittleEndian::write_u64(&mut buf, v);
    buf
}

/// `BigEndian::write_u16` into a 2-byte buffer: the bytes of `v`, most significant first.
#[verifier::external_body]
fn be_u16_bytes(v: u16) -> (r: [u8; 2])
    ensures
        r@ == be_bytes_u16(v),
{
    let mut buf = [0u8; 2];
    BigEndian::write_u16(&mut buf, v);
    buf
}

/// `BigEndian::write_u32` into a 4-byte buffer: the bytes of `v`, most significant first.
#[verifier::external_body]
fn be_u32_bytes(v: u32) -> (r: [u8; 4])
    ensures
        r@ == be_bytes_u32(v),
{
    let mut buf = [0u8; 4];
    BigEndian::write_u32(&mut buf, v);
    buf
}

/// `BigEndian::read_u16` of `buf[at..]`: its first two bytes, most significant first.
#[verifier::external_body]
pub(crate) fn read_be_u16(buf: &[u8], at: usize) -> (r: u16)
    requires
        at + 2 <= buf@.len(),
    ensures
        r == be_u16_of(buf@, at as int),
{
    BigEndian::read_u16(&buf[at..])
}

/// `BigEndian::read_u32` of `buf[at..]`: its first four bytes, most significant first.
#[verifier::external_body]
pub(crate) fn read_be_u32(buf: &[u8], at: usize) -> (r: u32)
    requires
        at + 4 <= buf@.len(),
    ensures
        r == be_u32_of(buf@, at as int),
{
    BigEndian::read_u32(&buf[at..])
}

/// `LittleEndian::read_u32` of `buf[at..]`: its first four bytes, least significant first.
#[verifier::external_body]
pub(crate) fn read_le_u32(buf: &[u8], at: usize) -> (r: u32)
    requires
        at + 4 <= buf@.len(),
    ensures
        r == le_u32_of(buf@, at as int),
{
    LittleEndian::read_u32(&buf[at..])
}

/// Appends `bytes` to `out`.
pub fn push_all(out: &mut Vec<u8>, bytes: &[u8])
    ensures
        final(out)@ == old(out)@ + bytes@,
{
    let mut i: usize = 0;
    while i < bytes.len()
        invariant
            i <= bytes@.len(),
            out@ == old(out)@ + bytes@.subrange(0, i as int),
        decreases bytes@.len() - i,
    {
        out.push(bytes[i]);
        i += 1;
        assert(out@ =~= old(out)@ + bytes@.subrange(0, i as int));
    }
    assert(bytes@.subrange(0, bytes@.len() as int) =~= bytes@);
}

/// Appends the little-endian bytes of `v`.
pub fn push_u16_le(out: &mut Vec<u8>, v: u16)
    ensures
        final(out)@ == old(out)@ + le_bytes_u16(v),
{
    let b = le_u16_bytes(v);
    push_all(out, &b);
}

/// Appends the little-endian bytes of `v`.
pub fn push_u32_le(out: &mut Vec<u8>, v: u32)
    ensures
        final(out)@ == old(out)@ + le_bytes_u32(v),
{
    let b = le_u32_bytes(v);
    push_all(out, &b);
}

/// Appends the big-endian bytes of `v`.
pub fn push_u16_be(out: &mut Vec<u8>, v: u16)
    ensures
        final(out)@ == old(out)@ + be_bytes_u16(v),
{
    let b = be_u16_bytes(v);
    push_all(out, &b);
}

/// Appends the big-endian bytes of `v`.
pub fn push_u32_be(out: &mut Vec<u8>, v: u32)
    ensures
        final(out)@ == old(out)@ + be_bytes_u32(v),
{
    let b = be_u32_bytes(v);
    push_all(out, &b);
}

/// Reading back the little-endian bytes of a 32-bit value gives the value.
pub proof fn lemma_le_u32_round_trip(v: u32, b: Seq<u8>, at: int)
    requires
        0 <= at,
        at + 4 <= b.len(),
        b.subrange(at, at + 4) == le_bytes_u32(v),
    ensures
        le_u32_of(b, at) == v,
{
    let e = le_bytes_u32(v);
    assert(b[at] == e[0] && b[at + 1] == e[1] && b[at + 2] == e[2] && b[at + 3] == e[3]);
    let b0 = b[at];
    let b1 = b[at + 1];
    let b2 = b[at + 2];
    let b3 = b[at + 3];
    assert((b0 as u32) | ((b1 as u32) << 8u32) | ((b2 as u32) << 16u32) | ((b3 as u32) << 24u32)
        == v) by (bit_vector)
        requires
            b0 == (v & 0xffu32) as u8,
            b1 == ((v >> 8u32) & 0xffu32) as u8,
            b2 == ((v >> 16u32) & 0xffu32) as u8,
            b3 == ((v >> 24u32) & 0xffu32) as u8,
    ;
}

/// The bytes of word `k` of a word sequence sit at `4 k` in its
/// little-endian bytes.
pub proof fn lemma_words_le_index(ws: Seq<u32>, k: int)
    requires
        0 <= k < ws.len(),
    ensures
        words_le(ws).len() == 4 * ws.len(),
        words_le(ws).subrange(4 * k, 4 * k + 4) == le_bytes_u32(ws[k]),
    decreases ws.len(),
{
    lemma_words_le_len(ws);
    let w1 = ws.drop_last();
    lemma_words_le_len(w1);
    if k < ws.len() - 1 {
        lemma_words_le_index(w1, k);
        assert(words_le(ws).subrange(4 * k, 4 * k + 4) =~= words_le(w1).subrange(4 * k, 4 * k + 4));
    } else {
        assert(words_le(ws).subrange(4 * k, 4 * k + 4) =~= le_bytes_u32(ws.last()));
    }
}

/// The little-endian bytes of `n` words are `4 n` bytes.
pub proof fn lemma_words_le_len(ws: Seq<u32>)
    ensures
        words_le(ws).len() == 4 * ws.len(),
    decreases ws.len(),
{
    if ws.len() > 0 {
        lemma_words_le_len(ws.drop_last());
    }
}

/// Reading back the big-endian bytes of a 16-bit value gives the value.
pub proof fn lemma_be_u16_round_trip(v: u16, b: Seq<u8>, at: int)
    requires
        0 <= at,
        at + 2 <= b.len(),
        b.subrange(at, at + 2) == be_bytes_u16(v),
    ensures
        be_u16_of(b, at) == v,
{
    assert(b[at] == be_bytes_u16(v)[0] && b[at + 1] == be_bytes_u16(v)[1]);
    let hi = b[at];
    let lo = b[at + 1];
    assert(hi == ((v >> 8u16) & 0xffu16) as u8 && lo == (v & 0xffu16) as u8);
    assert(((hi as u16) << 8u16) | (lo as u16) == v) by (bit_vector)
        requires
            hi == ((v >> 8u16) & 0xffu16) as u8,
            lo == (v & 0xffu16) as u8,
    ;
}

/// Reading back the big-endian bytes of a 32-bit value gives the value.
pub proof fn lemma_be_u32_round_trip(v: u32, b: Seq<u8>, at: int)
    requires
        0 <= at,
        at + 4 <= b.len(),
        b.subrange(at, at + 4) == be_bytes_u32(v),
    ensures
        be_u32_of(b, at) == v,
{
    let e = be_bytes_u32(v);
    assert(b[at] == e[0] && b[at + 1] == e[1] && b[at + 2] == e[2] && b[at + 3] == e[3]);
    let b0 = b[at];
    let b1 = b[at + 1];
    let b2 = b[at + 2];
    let b3 = b[at + 3];
    assert(((b0 as u32) << 24u32) | ((b1 as u32) << 16u32) | ((b2 as u32) << 8u32) | (b3 as u32)
        == v) by (bit_vector)
        requires
            b0 == ((v >> 24u32) & 0xffu32) as u8,
            b1 == ((v >> 16u32) & 0xffu32) as u8,
            b2 == ((v >> 8u32) & 0xffu32) as u8,
            b3 == (v & 0xffu32) as u8,
    ;
}

/// The little-endian bytes of a sequence of 32-bit words, in order.
pub open spec fn words_le(ws: Seq<u32>) -> Seq<u8>
    decreases ws.len(),
{
    if ws.len() == 0 {
        Seq::empty()
    } else {
        words_le(ws.drop_last()) + le_bytes_u32(ws.last())
    }
}

/// Appends the little-endian bytes of each word.
pub fn push_words_le(out: &mut Vec<u8>, ws: &[u32])
    ensures
        final(out)@ == old(out)@ + words_le(ws@),
{
    let mut i: usize = 0;
    while i < ws.len()
        invariant
            i <= ws@.len(),
            out@ == old(out)@ + words_le(ws@.subrange(0, i as int)),
        decreases ws@.len() - i,
    {
        push_u32_le(out, ws[i]);
        assert(ws@.subrange(0, i + 1).drop_last() =~= ws@.subrange(0, i as int));
        i += 1;
        assert(out@ =~= old(out)@ + words_le(ws@.subrange(0, i as int)));
    }
    assert(ws@.subrange(0, ws@.len() as int) =~= ws@);
}

} // verus!
