//! CTX1 two-channel (RG 8:8) blocks for normal maps.

use vstd::prelude::*;
use crate::bc1::{bc1_index, encode_bc1, le16, lemma_bc1_raw_roundtrip, write_block_raw};

verus! {

/// The (first, second) channels of an RG 8:8 value: high byte, then low byte.
pub open spec fn rg_of_88(v: u16) -> Seq<u8> {
    seq![((v >> 8u16) & 0xFFu16) as u8, (v & 0xFFu16) as u8]
}

/// Splits an RG 8:8 value into its two channels.
pub fn unpack_88(val: u16) -> (r: [u8; 2])
    ensures
        r@ == rg_of_88(val),
{
    let r = [((val >> 8) & 0xFF) as u8, (val & 0xFF) as u8];
    assert(r@ =~= rg_of_88(val));
    r
}

/// `(2 * x + y) / 3` rounded to the nearest integer.
pub open spec fn third_round(x: int, y: int) -> int {
    (2 * x + y + 1) / 3
}

/// The 4-entry RGBA palette of a CTX1 block with endpoints `a`, `b`
/// (blue 0, alpha 255; the two middle entries at one and two thirds, rounded).
pub open spec fn ctx1_palette(a: u16, b: u16) -> Seq<Seq<u8>> {
    let c0 = rg_of_88(a);
    let c1 = rg_of_88(b);
    seq![
        seq![c0[0], c0[1], 0u8, 255u8],
        seq![c1[0], c1[1], 0u8, 255u8],
        seq![third_round(c0[0] as int, c1[0] as int) as u8, third_round(c0[1] as int, c1[1] as int) as u8, 0u8, 255u8],
        seq![third_round(c1[0] as int, c0[0] as int) as u8, third_round(c1[1] as int, c0[1] as int) as u8, 0u8, 255u8],
    ]
}

/// The RGBA colour of pixel `p` of a CTX1 block.
pub open spec fn decode_ctx1_pixel(b: Seq<u8>, p: int) -> Seq<u8> {
    ctx1_palette(le16(b, 0), le16(b, 2))[bc1_index(b, p) as int]
}

/// Decodes a CTX1 block into 16 RGBA pixels (R, G from the block, B = 0, A = 255).
pub fn decompress_bitones_ctx1(block: &[u8; 8], out_rgba: &mut [[u8; 4]; 16])
    ensures
        forall|p: int|
            0 <= p < 16 ==> (#[trigger] final(out_rgba)@[p])@ == decode_ctx1_pixel(block@, p),
{
    let a_val = (block[0] as u16) | ((block[1] as u16) << 8);
    let b_val = (block[2] as u16) | ((block[3] as u16) << 8);
    let c0 = unpack_88(a_val);
    let c1 = unpack_88(b_val);
    let (r0, g0) = (c0[0] as u32, c0[1] as u32);
    let (r1, g1) = (c1[0] as u32, c1[1] as u32);

    let mut palette = [[0u8; 4]; 4];
    palette[0] = [c0[0], c0[1], 0, 255];
    palette[1] = [c1[0], c1[1], 0, 255];
    palette[2] = [((2 * r0 + r1 + 1) / 3) as u8, ((2 * g0 + g1 + 1) / 3) as u8, 0, 255];
    palette[3] = [((r0 + 2 * r1 + 1) / 3) as u8, ((g0 + 2 * g1 + 1) / 3) as u8, 0, 255];
    let ghost pal = ctx1_palette(a_val, b_val);
    assert(forall|k: int| 0 <= k < 4 ==> (#[trigger] palette@[k])@ =~= pal[k]);
    assert(a_val == le16(block@, 0) && b_val == le16(block@, 2));

    let mut i: usize = 0;
    while i < 4
        invariant
            i <= 4,
            pal == ctx1_palette(le16(block@, 0), le16(block@, 2)),
            forall|k: int| 0 <= k < 4 ==> (#[trigger] palette@[k])@ == pal[k],
            forall|p: int|
                0 <= p < 4 * i ==> (#[trigger] out_rgba@[p])@ == decode_ctx1_pixel(block@, p),
        decreases 4 - i,
    {
        let byte = block[4 + i];
        let mut j: usize = 0;
        while j < 4
            invariant
                i < 4,
                j <= 4,
                byte == block@[4 + i as int],
                pal == ctx1_palette(le16(block@, 0), le16(block@, 2)),
                forall|k: int| 0 <= k < 4 ==> (#[trigger] palette@[k])@ == pal[k],
                forall|p: int|
                    0 <= p < 4 * i + j ==> (#[trigger] out_rgba@[p])@ == decode_ctx1_pixel(block@, p),
            decreases 4 - j,
        {
            let sh = (j * 2) as u8;
            let idx = (byte >> sh) & 0x03;
            assert(idx < 4) by (bit_vector)
                requires
                    idx == (byte >> sh) & 0x03u8,
            ;
            let p = i * 4 + j;
            assert(bc1_index(block@, p as int) == idx) by {
                assert((p as int) / 4 == i as int && (p as int) % 4 == j as int);
            }
            out_rgba[p] = palette[idx as usize];
            j += 1;
        }
        i += 1;
    }
}

/// Decodes a CTX1 block into 16 RGBA pixels.
pub fn decompress_ctx1_block(block: &[u8; 8], out_rgba: &mut [[u8; 4]; 16])
    ensures
        forall|p: int|
            0 <= p < 16 ==> (#[trigger] final(out_rgba)@[p])@ == decode_ctx1_pixel(block@, p),
{
    decompress_bitones_ctx1(block, out_rgba);
}

/// The block `write_bitone_block_4` produces: endpoints ordered so that
/// `a >= b`, each index's low bit flipped when they were exchanged, all
/// indices 0 when they are equal.
pub open spec fn encode_bitone_block_4(a: u16, b: u16, ix: Seq<u8>) -> Seq<u8> {
    if a < b {
        encode_bc1(b, a, ix.map_values(|x: u8| x ^ 1u8))
    } else if a == b {
        encode_bc1(a, b, Seq::new(16, |i: int| 0u8))
    } else {
        encode_bc1(a, b, ix)
    }
}

/// Writes a CTX1 block from quantized RG 8:8 endpoints and 2-bit indices.
pub fn write_bitone_block_4(a: u16, b: u16, indices: &[u8; 16], block: &mut [u8; 8])
    ensures
        final(block)@ == encode_bitone_block_4(a, b, indices@),
{
    let mut a = a;
    let mut b = b;
    let mut remapped = *indices;
    if a < b {
        std::mem::swap(&mut a, &mut b);
        let mut i: usize = 0;
        while i < 16
            invariant
                i <= 16,
                remapped@.len() == 16,
                forall|k: int| 0 <= k < i ==> remapped@[k] == indices@[k] ^ 1u8,
                forall|k: int| i <= k < 16 ==> remapped@[k] == indices@[k],
            decreases 16 - i,
        {
            remapped[i] = remapped[i] ^ 1;
            i += 1;
        }
        assert(remapped@ =~= indices@.map_values(|x: u8| x ^ 1u8));
    } else if a == b {
        remapped = [0u8; 16];
        assert(remapped@ =~= Seq::new(16, |i: int| 0u8));
    } else {
        assert(remapped@ =~= indices@);
    }
    write_block_raw(a, b, &remapped, block);
}

/// A written CTX1 block decodes every pixel to the entry of the palette
/// from `a` to `b` that its index names, whatever the order of the
/// endpoints.
pub proof fn lemma_bitone_block_4_decodes(a: u16, b: u16, ix: Seq<u8>, p: int)
    requires
        ix.len() == 16,
        0 <= p < 16,
        ix[p] < 4,
    ensures
        decode_ctx1_pixel(encode_bitone_block_4(a, b, ix), p) == ctx1_palette(a, b)[ix[p] as int],
{
    let x = ix[p];
    assert(forall|v: u8|
        v < 4 ==> (#[trigger] (v & 3u8)) == v && (v ^ 1u8) & 3u8 == (if v == 0 {
            1u8
        } else if v == 1 {
            0u8
        } else if v == 2 {
            3u8
        } else {
            2u8
        })) by (bit_vector);
    assert(x & 3u8 == x);
    let pa = ctx1_palette(a, b);
    if a < b {
        let r = ix.map_values(|v: u8| v ^ 1u8);
        lemma_bc1_raw_roundtrip(b, a, r, p);
        assert(r[p] == x ^ 1u8);
        let pb = ctx1_palette(b, a);
        assert(pb[0] =~= pa[1]);
        assert(pb[1] =~= pa[0]);
        assert(pb[2] =~= pa[3]);
        assert(pb[3] =~= pa[2]);
        assert(decode_ctx1_pixel(encode_bitone_block_4(a, b, ix), p) == pb[((x ^ 1u8) & 3u8) as int]);
    } else if a == b {
        let z = Seq::new(16, |i: int| 0u8);
        lemma_bc1_raw_roundtrip(a, b, z, p);
        assert(z[p] & 3u8 == 0u8);
        let c = rg_of_88(a);
        assert forall|k: int| 0 <= k < 4 implies #[trigger] pa[k] =~= pa[0] by {
            assert(third_round(c[0] as int, c[0] as int) == c[0] as int);
            assert(third_round(c[1] as int, c[1] as int) == c[1] as int);
        }
    } else {
        lemma_bc1_raw_roundtrip(a, b, ix, p);
        assert(x & 3u8 == x);
    }
}

} // verus!
