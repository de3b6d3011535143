//! BC2 / DXT3 explicit 4-bit alpha blocks.

use vstd::prelude::*;
use crate::bc3::{mask_bit, pixel_selected};

verus! {

/// The 4-bit level that an alpha value is rounded to.
pub open spec fn quantize_4bit(a: u8) -> u8 {
    ((a as int * 15 + 128) / 255) as u8
}

/// The alpha of pixel `p` as the encoder sees it: 0 when the pixel is not selected.
pub open spec fn selected_alpha(alphas: Seq<u8>, mask: u16, p: int) -> u8 {
    if mask_bit(mask, p) {
        alphas[p]
    } else {
        0
    }
}

/// The 8 bytes of a BC2 alpha block: two 4-bit levels per byte, low nibble first.
pub open spec fn encode_alpha_bc2(alphas: Seq<u8>, mask: u16) -> Seq<u8> {
    Seq::new(
        8,
        |i: int|
            (quantize_4bit(selected_alpha(alphas, mask, 2 * i)) | (quantize_4bit(
                selected_alpha(alphas, mask, 2 * i + 1),
            ) << 4u8)) as u8,
    )
}

/// The 16 alpha values of a BC2 alpha block: each nibble scaled by 17.
pub open spec fn decode_alpha_bc2(block: Seq<u8>) -> Seq<u8> {
    Seq::new(
        16,
        |p: int|
            if p % 2 == 0 {
                ((block[p / 2] & 0x0Fu8) * 0x11u8) as u8
            } else {
                ((block[p / 2] >> 4u8) * 0x11u8) as u8
            },
    )
}

/// Quantizes the selected alphas to 4 bits and packs them into a BC2 alpha block.
pub fn write_alpha_block_bc2(alphas: &[u8; 16], mask: u16, block: &mut [u8; 8])
    ensures
        final(block)@ == encode_alpha_bc2(alphas@, mask),
{
    let mut i: usize = 0;
    while i < 8
        invariant
            i <= 8,
            block@.len() == 8,
            forall|k: int| 0 <= k < i ==> block@[k] == encode_alpha_bc2(alphas@, mask)[k],
        decreases 8 - i,
    {
        let p0 = 2 * i;
        let p1 = 2 * i + 1;
        let a0 = if pixel_selected(mask, p0) {
            alphas[p0]
        } else {
            0
        };
        let a1 = if pixel_selected(mask, p1) {
            alphas[p1]
        } else {
            0
        };
        let q0 = ((a0 as u32 * 15 + 128) / 255) as u8;
        let q1 = ((a1 as u32 * 15 + 128) / 255) as u8;
        assert(q0 <= 15 && q1 <= 15);
        assert((q0 & 0x0Fu8) == q0 && (q1 & 0x0Fu8) == q1) by (bit_vector)
            requires
                q0 <= 15 && q1 <= 15,
        ;
        block[i] = (q0 & 0x0F) | ((q1 & 0x0F) << 4);
        i += 1;
    }
    assert(block@ =~= encode_alpha_bc2(alphas@, mask));
}

/// Expands a BC2 alpha block into 16 alpha values.
pub fn read_alpha_block_bc2(block: &[u8; 8], out: &mut [u8; 16])
    ensures
        final(out)@ == decode_alpha_bc2(block@),
{
    let mut i: usize = 0;
    while i < 8
        invariant
            i <= 8,
            out@.len() == 16,
            forall|p: int| 0 <= p < 2 * i ==> out@[p] == decode_alpha_bc2(block@)[p],
        decreases 8 - i,
    {
        let byte = block[i];
        let q0 = byte & 0x0F;
        let q1 = byte >> 4;
        assert(q0 <= 15 && q1 <= 15) by (bit_vector)
            requires
                q0 == byte & 0x0Fu8,
                q1 == byte >> 4u8,
        ;
        out[2 * i] = q0 * 0x11;
        out[2 * i + 1] = q1 * 0x11;
        assert(((2 * i) as int) / 2 == i && ((2 * i + 1) as int) / 2 == i);
        i += 1;
    }
    assert(out@ =~= decode_alpha_bc2(block@));
}

/// Compresses the alpha of a 4x4 block as BC2.
pub fn compress_alpha_bc2(alphas: &[u8; 16], mask: u16, block: &mut [u8; 8])
    ensures
        final(block)@ == encode_alpha_bc2(alphas@, mask),
{
    write_alpha_block_bc2(alphas, mask, block);
}

/// Decompresses a BC2 alpha block.
pub fn decompress_alpha_bc2(block: &[u8; 8], out: &mut [u8; 16])
    ensures
        final(out)@ == decode_alpha_bc2(block@),
{
    read_alpha_block_bc2(block, out);
}

/// Round trip: every selected alpha decodes to within 8 of its value, and
/// to a multiple of 17; unselected pixels decode to 0.
pub proof fn lemma_bc2_roundtrip(alphas: Seq<u8>, mask: u16, p: int)
    requires
        alphas.len() == 16,
        0 <= p < 16,
    ensures
        decode_alpha_bc2(encode_alpha_bc2(alphas, mask))[p] as int == 17 * quantize_4bit(
            selected_alpha(alphas, mask, p),
        ),
        mask_bit(mask, p) ==> -8 <= decode_alpha_bc2(encode_alpha_bc2(alphas, mask))[p]
            - alphas[p] <= 8,
        !mask_bit(mask, p) ==> decode_alpha_bc2(encode_alpha_bc2(alphas, mask))[p] == 0,
{
    let i = p / 2;
    let a0 = selected_alpha(alphas, mask, 2 * i);
    let a1 = selected_alpha(alphas, mask, 2 * i + 1);
    let q0 = quantize_4bit(a0);
    let q1 = quantize_4bit(a1);
    assert(q0 <= 15 && q1 <= 15);
    let b = (q0 | (q1 << 4u8)) as u8;
    assert(encode_alpha_bc2(alphas, mask)[i] == b);
    assert((b & 0x0Fu8) == q0 && (b >> 4u8) == q1) by (bit_vector)
        requires
            q0 <= 15 && q1 <= 15,
            b == (q0 | (q1 << 4u8)) as u8,
    ;
    let a = selected_alpha(alphas, mask, p) as int;
    let q = quantize_4bit(selected_alpha(alphas, mask, p)) as int;
    assert(255 * q <= a * 15 + 128 < 255 * q + 255);
    assert(-8 <= 17 * q - a <= 8) by (nonlinear_arith)
        requires
            255 * q <= a * 15 + 128 < 255 * q + 255,
    ;
}

} // verus!
