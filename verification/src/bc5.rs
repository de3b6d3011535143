//! BC5 two-channel blocks: two BC4 halves (red then green).

use vstd::prelude::*;
use crate::bc3::decode_alpha_bc3;
use crate::bc4::{
    compress_bc4, compress_bc4_i16, compress_bc4_signed, compress_bc4_u16, decode_bc4_i16,
    decode_bc4_signed, decode_bc4_u16, decompress_bc4, decompress_bc4_i16, decompress_bc4_signed,
    decompress_bc4_u16, is_bc4_i16_encoding, is_bc4_signed_encoding, is_bc4_u16_encoding,
};
use crate::bc3::is_alpha_bc3_encoding;

verus! {

/// Joins two 8-byte halves into a 16-byte block.
fn join_halves(lo: &[u8; 8], hi: &[u8; 8], block: &mut [u8; 16])
    ensures
        final(block)@.subrange(0, 8) == lo@,
        final(block)@.subrange(8, 16) == hi@,
{
    let mut i: usize = 0;
    while i < 8
        invariant
            i <= 8,
            block@.len() == 16,
            forall|k: int| 0 <= k < i ==> block@[k] == lo@[k] && block@[8 + k] == hi@[k],
        decreases 8 - i,
    {
        block[i] = lo[i];
        block[8 + i] = hi[i];
        i += 1;
    }
    assert(block@.subrange(0, 8) =~= lo@);
    assert(block@.subrange(8, 16) =~= hi@);
}

/// Splits a 16-byte block into its two 8-byte halves.
fn split_halves(block: &[u8; 16]) -> (r: ([u8; 8], [u8; 8]))
    ensures
        r.0@ == block@.subrange(0, 8),
        r.1@ == block@.subrange(8, 16),
{
    let mut lo = [0u8; 8];
    let mut hi = [0u8; 8];
    let mut i: usize = 0;
    while i < 8
        invariant
            i <= 8,
            forall|k: int| 0 <= k < i ==> lo@[k] == block@[k] && hi@[k] == block@[8 + k],
        decreases 8 - i,
    {
        lo[i] = block[i];
        hi[i] = block[8 + i];
        i += 1;
    }
    assert(lo@ =~= block@.subrange(0, 8));
    assert(hi@ =~= block@.subrange(8, 16));
    (lo, hi)
}

/// Compresses two unsigned channels into a BC5 block (red half first).
pub fn compress_bc5(red: &[u8; 16], green: &[u8; 16], mask: u16, flags: u32, block: &mut [u8; 16])
    ensures
        is_alpha_bc3_encoding(red@, mask, final(block)@.subrange(0, 8)),
        is_alpha_bc3_encoding(green@, mask, final(block)@.subrange(8, 16)),
{
    let mut block_r = [0u8; 8];
    let mut block_g = [0u8; 8];
    compress_bc4(red, mask, flags, &mut block_r);
    compress_bc4(green, mask, flags, &mut block_g);
    join_halves(&block_r, &block_g, block);
}

/// Compresses two signed channels into a signed BC5 block.
pub fn compress_bc5_signed(
    red: &[i8; 16],
    green: &[i8; 16],
    mask: u16,
    flags: u32,
    block: &mut [u8; 16],
)
    ensures
        is_bc4_signed_encoding(red@, mask, final(block)@.subrange(0, 8)),
        is_bc4_signed_encoding(green@, mask, final(block)@.subrange(8, 16)),
{
    let mut block_r = [0u8; 8];
    let mut block_g = [0u8; 8];
    compress_bc4_signed(red, mask, flags, &mut block_r);
    compress_bc4_signed(green, mask, flags, &mut block_g);
    join_halves(&block_r, &block_g, block);
}

/// Compresses two 16-bit channels into a BC5 block.
pub fn compress_bc5_u16(red: &[u16; 16], green: &[u16; 16], mask: u16, block: &mut [u8; 16])
    ensures
        is_bc4_u16_encoding(red@, mask, final(block)@.subrange(0, 8)),
        is_bc4_u16_encoding(green@, mask, final(block)@.subrange(8, 16)),
{
    let mut block_r = [0u8; 8];
    let mut block_g = [0u8; 8];
    compress_bc4_u16(red, mask, &mut block_r);
    compress_bc4_u16(green, mask, &mut block_g);
    join_halves(&block_r, &block_g, block);
}

/// Compresses two signed 16-bit channels into a signed BC5 block.
pub fn compress_bc5_i16(red: &[i16; 16], green: &[i16; 16], mask: u16, block: &mut [u8; 16])
    ensures
        is_bc4_i16_encoding(red@, mask, final(block)@.subrange(0, 8)),
        is_bc4_i16_encoding(green@, mask, final(block)@.subrange(8, 16)),
{
    let mut block_r = [0u8; 8];
    let mut block_g = [0u8; 8];
    compress_bc4_i16(red, mask, &mut block_r);
    compress_bc4_i16(green, mask, &mut block_g);
    join_halves(&block_r, &block_g, block);
}

/// Compresses the X and Y channels of signed normals into two signed BC4 blocks.
pub fn compress_bc5_normals_signed(
    red: &[i8; 16],
    green: &[i8; 16],
    mask: u16,
    flags: u32,
    block_x: &mut [u8; 8],
    block_y: &mut [u8; 8],
)
    ensures
        is_bc4_signed_encoding(red@, mask, final(block_x)@),
        is_bc4_signed_encoding(green@, mask, final(block_y)@),
{
    compress_bc4_signed(red, mask, flags, block_x);
    compress_bc4_signed(green, mask, flags, block_y);
}

/// Decodes an unsigned BC5 block into its red and green channels.
pub fn decompress_bc5(block: &[u8; 16], out_red: &mut [u8; 16], out_green: &mut [u8; 16])
    ensures
        final(out_red)@ == decode_alpha_bc3(block@.subrange(0, 8)),
        final(out_green)@ == decode_alpha_bc3(block@.subrange(8, 16)),
{
    let (block_r, block_g) = split_halves(block);
    decompress_bc4(&block_r, out_red);
    decompress_bc4(&block_g, out_green);
}

/// Decodes a signed BC5 block into its red and green channels.
pub fn decompress_bc5_signed(block: &[u8; 16], out_red: &mut [i8; 16], out_green: &mut [i8; 16])
    ensures
        final(out_red)@ == decode_bc4_signed(block@.subrange(0, 8)),
        final(out_green)@ == decode_bc4_signed(block@.subrange(8, 16)),
{
    let (block_r, block_g) = split_halves(block);
    decompress_bc4_signed(&block_r, out_red);
    decompress_bc4_signed(&block_g, out_green);
}

/// Decodes a 16-bit BC5 block into its red and green channels.
pub fn decompress_bc5_u16(block: &[u8; 16], out_red: &mut [u16; 16], out_green: &mut [u16; 16])
    ensures
        final(out_red)@ == decode_bc4_u16(block@.subrange(0, 8)),
        final(out_green)@ == decode_bc4_u16(block@.subrange(8, 16)),
{
    let (block_r, block_g) = split_halves(block);
    decompress_bc4_u16(&block_r, out_red);
    decompress_bc4_u16(&block_g, out_green);
}

/// Decodes a signed 16-bit BC5 block into its red and green channels.
pub fn decompress_bc5_i16(block: &[u8; 16], out_red: &mut [i16; 16], out_green: &mut [i16; 16])
    ensures
        final(out_red)@ == decode_bc4_i16(block@.subrange(0, 8)),
        final(out_green)@ == decode_bc4_i16(block@.subrange(8, 16)),
{
    let (block_r, block_g) = split_halves(block);
    decompress_bc4_i16(&block_r, out_red);
    decompress_bc4_i16(&block_g, out_green);
}

} // verus!
