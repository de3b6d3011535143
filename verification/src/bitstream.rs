//! A 128-bit little-endian bit container used to pack BC6H/BC7 blocks.

use vstd::prelude::*;

verus! {

/// Mask of the low `n` bits of a 128-bit word (all ones for `n >= 128`).
pub open spec fn low_mask_128(n: u32) -> u128 {
    if n >= 128 {
        u128::MAX
    } else {
        ((1u128 << (n as u128)) - 1) as u128
    }
}

/// Number of bits that a field of `count` bits at `offset` really covers
/// inside a 128-bit word.
pub open spec fn covered_count(offset: u32, count: u32) -> u32 {
    if count <= 128 - offset {
        count
    } else {
        (128 - offset) as u32
    }
}

/// The value of the field of `count` bits starting at bit `offset` of `v`,
/// truncated to 32 bits; fields that start past the end read as 0.
pub open spec fn spec_read_bits(v: u128, offset: u32, count: u32) -> u32 {
    if count == 0 || offset >= 128 {
        0
    } else {
        ((v >> offset) & low_mask_128(covered_count(offset, count))) as u32
    }
}

/// `v` with the field of `count` bits at `offset` replaced by the low bits of `value`.
pub open spec fn spec_write_bits(v: u128, offset: u32, count: u32, value: u32) -> u128 {
    if count == 0 || offset >= 128 {
        v
    } else {
        let m = low_mask_128(covered_count(offset, count));
        (v & !(m << offset)) | (((value as u128) & m) << offset)
    }
}

/// Byte `i` of the little-endian encoding of `v`.
pub open spec fn le_byte_128(v: u128, i: int) -> u8 {
    ((v >> ((8 * i) as u128)) & 0xff) as u8
}

/// The 16-byte little-endian encoding of `v`.
pub open spec fn le_bytes_128(v: u128) -> Seq<u8> {
    Seq::new(16, |i: int| le_byte_128(v, i))
}

/// The 128-bit value whose little-endian encoding is `b`.
pub open spec fn from_le_bytes_128(b: Seq<u8>) -> u128 {
    (b[0] as u128) | ((b[1] as u128) << 8u128) | ((b[2] as u128) << 16u128) | ((b[3] as u128)
        << 24u128) | ((b[4] as u128) << 32u128) | ((b[5] as u128) << 40u128) | ((b[6] as u128)
        << 48u128) | ((b[7] as u128) << 56u128) | ((b[8] as u128) << 64u128) | ((b[9] as u128)
        << 72u128) | ((b[10] as u128) << 80u128) | ((b[11] as u128) << 88u128) | ((b[12] as u128)
        << 96u128) | ((b[13] as u128) << 104u128) | ((b[14] as u128) << 112u128) | ((b[15] as u128)
        << 120u128)
}

/// A 128-bit block viewed as a little-endian stream of bits.
#[derive(Clone, Copy, Debug, PartialEq, Eq, Default)]
pub struct BitStream128(pub u128);

impl BitStream128 {
    /// Wraps a raw 128-bit value.
    pub fn new(value: u128) -> (r: Self)
        ensures
            r.0 == value,
    {
        BitStream128(value)
    }

    /// Reads `count` bits starting at bit `offset` (clipped to the block end).
    pub fn read_bits(&self, offset: u32, count: u32) -> (r: u32)
        ensures
            r == spec_read_bits(self.0, offset, count),
    {
        if count == 0 || offset >= 128 {
            return 0;
        }
        let actual_count = if count <= 128 - offset {
            count
        } else {
            128 - offset
        };
        let mask = if actual_count >= 128 {
            u128::MAX
        } else {
            let k = actual_count as u128;
            assert(1u128 << k >= 1) by (bit_vector)
                requires
                    k < 128,
            ;
            (1u128 << k) - 1
        };
        ((self.0 >> offset) & mask) as u32
    }

    /// Overwrites `count` bits starting at bit `offset` (clipped to the block
    /// end) with the low bits of `value`.
    pub fn write_bits(&mut self, offset: u32, count: u32, value: u32)
        ensures
            final(self).0 == spec_write_bits(old(self).0, offset, count, value),
    {
        if count == 0 || offset >= 128 {
            return;
        }
        let actual_count = if count <= 128 - offset {
            count
        } else {
            128 - offset
        };
        let val_mask = if actual_count >= 128 {
            u128::MAX
        } else {
            let k = actual_count as u128;
            assert(1u128 << k >= 1) by (bit_vector)
                requires
                    k < 128,
            ;
            (1u128 << k) - 1
        };
        let mask = val_mask << offset;
        self.0 = (self.0 & !mask) | ((value as u128 & val_mask) << offset);
    }

    /// The 16 bytes of the block in little-endian order.
    pub fn to_bytes(&self) -> (r: [u8; 16])
        ensures
            r@ == le_bytes_128(self.0),
    {
        let v = self.0;
        let mut out = [0u8; 16];
        let mut i: usize = 0;
        while i < 16
            invariant
                i <= 16,
                out@.len() == 16,
                forall|j: int| 0 <= j < i ==> out@[j] == le_byte_128(v, j),
            decreases 16 - i,
        {
            let b = ((v >> ((8 * i) as u128)) & 0xff) as u8;
            out[i] = b;
            i += 1;
        }
        assert(out@ =~= le_bytes_128(v));
        out
    }

    /// The block whose little-endian encoding is `bytes`.
    pub fn from_bytes(bytes: &[u8; 16]) -> (r: Self)
        ensures
            r.0 == from_le_bytes_128(bytes@),
    {
        let b = bytes;
        BitStream128(
            (b[0] as u128) | ((b[1] as u128) << 8u128) | ((b[2] as u128) << 16u128) | ((
            b[3] as u128) << 24u128) | ((b[4] as u128) << 32u128) | ((b[5] as u128) << 40u128)
                | ((b[6] as u128) << 48u128) | ((b[7] as u128) << 56u128) | ((b[8] as u128)
                << 64u128) | ((b[9] as u128) << 72u128) | ((b[10] as u128) << 80u128) | ((
            b[11] as u128) << 88u128) | ((b[12] as u128) << 96u128) | ((b[13] as u128)
                << 104u128) | ((b[14] as u128) << 112u128) | ((b[15] as u128) << 120u128),
        )
    }
}

/// Reading back a field that was just written gives the written value, cut to
/// the bits that the field covers.
#[verifier::rlimit(100)]
pub proof fn lemma_read_after_write(v: u128, offset: u32, count: u32, value: u32)
    requires
        count > 0,
        offset < 128,
    ensures
        spec_read_bits(spec_write_bits(v, offset, count, value), offset, count) == (((
        value as u128) & low_mask_128(covered_count(offset, count))) as u32),
{
    let cc = covered_count(offset, count);
    let m = low_mask_128(cc);
    let w = spec_write_bits(v, offset, count, value);
    let x = value as u128;
    let o = offset as u128;
    if cc >= 128 {
        assert(offset == 0);
        assert(((v & !(m << o)) | ((x & m) << o)) >> o & m == x & m) by (bit_vector)
            requires
                m == u128::MAX,
                o == 0,
        ;
    } else {
        let c = cc as u128;
        assert(((v & !(m << o)) | ((x & m) << o)) >> o & m == x & m) by (bit_vector)
            requires
                c < 128,
                o < 128,
                c + o <= 128,
                m == ((1u128 << c) - 1) as u128,
        ;
    }
}

/// Writing a field leaves every bit outside it unchanged: reading any field
/// that does not overlap it gives the same value as before.
#[verifier::rlimit(100)]
pub proof fn lemma_write_preserves_disjoint(
    v: u128,
    offset: u32,
    count: u32,
    value: u32,
    other_offset: u32,
    other_count: u32,
)
    requires
        offset < 128,
        other_offset < 128,
        other_offset + other_count <= offset || offset + count <= other_offset,
    ensures
        spec_read_bits(spec_write_bits(v, offset, count, value), other_offset, other_count)
            == spec_read_bits(v, other_offset, other_count),
{
    if count == 0 || other_count == 0 {
        return;
    }
    let cc = covered_count(offset, count);
    let m = low_mask_128(cc);
    let c2 = covered_count(other_offset, other_count);
    let m2 = low_mask_128(c2);
    let x = value as u128;
    let o = offset as u128;
    let o2 = other_offset as u128;
    let w = (v & !(m << o)) | ((x & m) << o);
    if other_offset + other_count <= offset {
        assert(c2 == other_count);
        assert(c2 < 128);
        let k2 = c2 as u128;
        assert((w >> o2) & m2 == (v >> o2) & m2) by (bit_vector)
            requires
                w == (v & !(m << o)) | ((x & m) << o),
                o < 128,
                o2 + k2 <= o,
                k2 < 128,
                m2 == ((1u128 << k2) - 1) as u128,
        ;
    } else {
        assert(cc == count);
        assert(cc < 128);
        let k = cc as u128;
        assert((w >> o2) & m2 == (v >> o2) & m2) by (bit_vector)
            requires
                w == (v & !(m << o)) | ((x & m) << o),
                o + k <= o2,
                o2 < 128,
                k < 128,
                m == ((1u128 << k) - 1) as u128,
        ;
    }
}

/// Decoding the little-endian bytes of a block gives the block back.
pub proof fn lemma_bytes_roundtrip(v: u128)
    ensures
        from_le_bytes_128(le_bytes_128(v)) == v,
{
    let b = le_bytes_128(v);
    let (b0, b1, b2, b3, b4, b5, b6, b7) = (b[0], b[1], b[2], b[3], b[4], b[5], b[6], b[7]);
    let (b8, b9, b10, b11, b12, b13, b14, b15) = (
        b[8],
        b[9],
        b[10],
        b[11],
        b[12],
        b[13],
        b[14],
        b[15],
    );
    assert(from_le_bytes_128(b) == (b0 as u128) | ((b1 as u128) << 8u128) | ((b2 as u128)
        << 16u128) | ((b3 as u128) << 24u128) | ((b4 as u128) << 32u128) | ((b5 as u128)
        << 40u128) | ((b6 as u128) << 48u128) | ((b7 as u128) << 56u128) | ((b8 as u128)
        << 64u128) | ((b9 as u128) << 72u128) | ((b10 as u128) << 80u128) | ((b11 as u128)
        << 88u128) | ((b12 as u128) << 96u128) | ((b13 as u128) << 104u128) | ((b14 as u128)
        << 112u128) | ((b15 as u128) << 120u128));
    assert((b0 as u128) | ((b1 as u128) << 8u128) | ((b2 as u128) << 16u128) | ((b3 as u128)
        << 24u128) | ((b4 as u128) << 32u128) | ((b5 as u128) << 40u128) | ((b6 as u128)
        << 48u128) | ((b7 as u128) << 56u128) | ((b8 as u128) << 64u128) | ((b9 as u128)
        << 72u128) | ((b10 as u128) << 80u128) | ((b11 as u128) << 88u128) | ((b12 as u128)
        << 96u128) | ((b13 as u128) << 104u128) | ((b14 as u128) << 112u128) | ((b15 as u128)
        << 120u128) == v) by (bit_vector)
        requires
            b0 == ((v >> 0u128) & 0xff) as u8,
            b1 == ((v >> 8u128) & 0xff) as u8,
            b2 == ((v >> 16u128) & 0xff) as u8,
            b3 == ((v >> 24u128) & 0xff) as u8,
            b4 == ((v >> 32u128) & 0xff) as u8,
            b5 == ((v >> 40u128) & 0xff) as u8,
            b6 == ((v >> 48u128) & 0xff) as u8,
            b7 == ((v >> 56u128) & 0xff) as u8,
            b8 == ((v >> 64u128) & 0xff) as u8,
            b9 == ((v >> 72u128) & 0xff) as u8,
            b10 == ((v >> 80u128) & 0xff) as u8,
            b11 == ((v >> 88u128) & 0xff) as u8,
            b12 == ((v >> 96u128) & 0xff) as u8,
            b13 == ((v >> 104u128) & 0xff) as u8,
            b14 == ((v >> 112u128) & 0xff) as u8,
            b15 == ((v >> 120u128) & 0xff) as u8,
    ;
}

} // verus!
