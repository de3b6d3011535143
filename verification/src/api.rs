//! Whole-texture decoding (the 4x4 blocks of a BC1–BC5 or CTX1 texture
//! decoded to 8-bit RGBA and laid out row by row) and the per-format
//! assembly of one compressed block.

use vstd::prelude::*;
use vstd::arithmetic::div_mod::lemma_fundamental_div_mod_converse;
use crate::bc1::{decode_bc1_pixel, read_color_block_bc1_rgba};
use crate::bc2::{compress_alpha_bc2, decode_alpha_bc2, decompress_alpha_bc2, encode_alpha_bc2};
use crate::bc3::{compress_alpha_bc3, decode_alpha_bc3, decompress_alpha_bc3, is_alpha_bc3_encoding};
use crate::bc4::{compress_bc4, compress_bc4_signed, decompress_bc4, is_bc4_signed_encoding};
use crate::bc5::{compress_bc5, compress_bc5_signed, decompress_bc5};
use crate::ctx1::{decode_ctx1_pixel, decompress_ctx1_block};
use crate::flags::{spec_bytes_per_block, Format};

verus! {

/// The formats whose blocks decode to 8-bit RGBA here: all but the
/// floating-point BC6H and the BC7 format.
pub open spec fn decodes_to_rgba8(f: Format) -> bool {
    !(f is Bc6h) && !(f is Bc7)
}

/// The RGBA colour of pixel `p` (row-major, 0..16) of block `b` of format
/// `f`. BC2 and BC3 take their colour from the BC1 block in bytes 8..16
/// (always opaque palette entries but for the three-colour black) and their
/// alpha from bytes 0..8; BC4 is grey; BC5 is red and green with blue 0.
/// The value for BC6H and BC7 is not used.
pub open spec fn block_pixel_rgba(f: Format, b: Seq<u8>, p: int) -> Seq<u8> {
    match f {
        Format::Bc1 => decode_bc1_pixel(b, p),
        Format::Bc2 => {
            let c = decode_bc1_pixel(b.subrange(8, 16), p);
            seq![c[0], c[1], c[2], decode_alpha_bc2(b.subrange(0, 8))[p]]
        },
        Format::Bc3 => {
            let c = decode_bc1_pixel(b.subrange(8, 16), p);
            seq![c[0], c[1], c[2], decode_alpha_bc3(b.subrange(0, 8))[p]]
        },
        Format::Bc4 => {
            let v = decode_alpha_bc3(b)[p];
            seq![v, v, v, 255u8]
        },
        Format::Bc5 => seq![
            decode_alpha_bc3(b.subrange(0, 8))[p],
            decode_alpha_bc3(b.subrange(8, 16))[p],
            0u8,
            255u8,
        ],
        Format::Ctx1 => decode_ctx1_pixel(b, p),
        _ => seq![0u8, 0u8, 0u8, 0u8],
    }
}

/// Copies `data[at..at + 8]` into an array.
fn array8(data: &[u8], at: usize) -> (r: [u8; 8])
    requires
        at + 8 <= data@.len(),
    ensures
        r@ == data@.subrange(at as int, at + 8),
{
    let len = data.len();
    let mut r = [0u8; 8];
    let mut i: usize = 0;
    while i < 8
        invariant
            i <= 8,
            len == data@.len(),
            at + 8 <= data@.len(),
            forall|k: int| 0 <= k < i ==> r@[k] == data@[at + k],
        decreases 8 - i,
    {
        r[i] = data[at + i];
        i += 1;
    }
    assert(r@ =~= data@.subrange(at as int, at + 8));
    r
}

/// Copies `data[at..at + 16]` into an array.
fn array16(data: &[u8], at: usize) -> (r: [u8; 16])
    requires
        at + 16 <= data@.len(),
    ensures
        r@ == data@.subrange(at as int, at + 16),
{
    let len = data.len();
    let mut r = [0u8; 16];
    let mut i: usize = 0;
    while i < 16
        invariant
            i <= 16,
            len == data@.len(),
            at + 16 <= data@.len(),
            forall|k: int| 0 <= k < i ==> r@[k] == data@[at + k],
        decreases 16 - i,
    {
        r[i] = data[at + i];
        i += 1;
    }
    assert(r@ =~= data@.subrange(at as int, at + 16));
    r
}

/// Decodes the block of format `format` that starts at `data[at]` into 16
/// RGBA pixels.
pub fn decode_block_rgba8(format: Format, data: &[u8], at: usize) -> (r: [[u8; 4]; 16])
    requires
        decodes_to_rgba8(format),
        at + spec_bytes_per_block(format) <= data@.len(),
    ensures
        forall|p: int|
            0 <= p < 16 ==> (#[trigger] r@[p])@ == block_pixel_rgba(
                format,
                data@.subrange(at as int, at + spec_bytes_per_block(format)),
                p,
            ),
{
    let ghost b = data@.subrange(at as int, at + spec_bytes_per_block(format));
    let _len = data.len();
    let mut px = [[0u8; 4]; 16];
    match format {
        Format::Bc1 => {
            let blk = array8(data, at);
            read_color_block_bc1_rgba(&blk, &mut px);
        },
        Format::Bc2 | Format::Bc3 => {
            let a_blk = array8(data, at);
            let c_blk = array8(data, at + 8);
            assert(b.subrange(0, 8) =~= a_blk@);
            assert(b.subrange(8, 16) =~= c_blk@);
            let mut rgb = [[0u8; 4]; 16];
            let mut alpha = [0u8; 16];
            let is_bc2 = match format {
                Format::Bc2 => true,
                _ => false,
            };
            if is_bc2 {
                decompress_alpha_bc2(&a_blk, &mut alpha);
            } else {
                decompress_alpha_bc3(&a_blk, &mut alpha);
            }
            read_color_block_bc1_rgba(&c_blk, &mut rgb);
            let mut i: usize = 0;
            while i < 16
                invariant
                    i <= 16,
                    format is Bc2 || format is Bc3,
                    is_bc2 == (format is Bc2),
                    b.subrange(0, 8) == a_blk@,
                    b.subrange(8, 16) == c_blk@,
                    is_bc2 ==> alpha@ == decode_alpha_bc2(a_blk@),
                    !is_bc2 ==> alpha@ == decode_alpha_bc3(a_blk@),
                    forall|p: int|
                        0 <= p < 16 ==> (#[trigger] rgb@[p])@ == decode_bc1_pixel(c_blk@, p),
                    forall|p: int|
                        0 <= p < i ==> (#[trigger] px@[p])@ == block_pixel_rgba(format, b, p),
                decreases 16 - i,
            {
                let c = rgb[i];
                px[i] = [c[0], c[1], c[2], alpha[i]];
                assert(px@[i as int]@ =~= block_pixel_rgba(format, b, i as int));
                i += 1;
            }
        },
        Format::Bc4 => {
            let blk = array8(data, at);
            let mut v = [0u8; 16];
            decompress_bc4(&blk, &mut v);
            let mut i: usize = 0;
            while i < 16
                invariant
                    i <= 16,
                    format is Bc4,
                    b == blk@,
                    v@ == decode_alpha_bc3(blk@),
                    forall|p: int|
                        0 <= p < i ==> (#[trigger] px@[p])@ == block_pixel_rgba(format, b, p),
                decreases 16 - i,
            {
                px[i] = [v[i], v[i], v[i], 255];
                assert(px@[i as int]@ =~= block_pixel_rgba(format, b, i as int));
                i += 1;
            }
        },
        Format::Bc5 => {
            let blk = array16(data, at);
            let mut red = [0u8; 16];
            let mut green = [0u8; 16];
            decompress_bc5(&blk, &mut red, &mut green);
            let mut i: usize = 0;
            while i < 16
                invariant
                    i <= 16,
                    format is Bc5,
                    b == blk@,
                    red@ == decode_alpha_bc3(blk@.subrange(0, 8)),
                    green@ == decode_alpha_bc3(blk@.subrange(8, 16)),
                    forall|p: int|
                        0 <= p < i ==> (#[trigger] px@[p])@ == block_pixel_rgba(format, b, p),
                decreases 16 - i,
            {
                px[i] = [red[i], green[i], 0, 255];
                assert(px@[i as int]@ =~= block_pixel_rgba(format, b, i as int));
                i += 1;
            }
        },
        Format::Ctx1 => {
            let blk = array8(data, at);
            decompress_ctx1_block(&blk, &mut px);
        },
        Format::Bc6h | Format::Bc7 => {},
    }
    px
}

/// Bytes needed for a `width` x `height` texture compressed as `format`
/// (4x4 blocks, partial blocks rounded up).
pub fn get_storage_requirements(width: usize, height: usize, format: Format) -> (r: usize)
    requires
        blocks_for(width as int) * blocks_for(height as int) * spec_bytes_per_block(format)
            <= usize::MAX,
    ensures
        r == blocks_for(width as int) * blocks_for(height as int) * spec_bytes_per_block(format),
{
    let bx = width / 4 + if width % 4 != 0 { 1 } else { 0 };
    let by = height / 4 + if height % 4 != 0 { 1 } else { 0 };
    assert(bx == blocks_for(width as int) && by == blocks_for(height as int));
    let bpb = format.bytes_per_block();
    assert(bx * by <= bx * by * bpb) by (nonlinear_arith)
        requires
            bpb >= 1,
            bx >= 0,
            by >= 0,
    ;
    bx * by * bpb
}

/// Blocks in a row or column of `n` pixels: `ceil(n / 4)`.
pub open spec fn blocks_for(n: int) -> int {
    (n + 3) / 4
}

/// The bytes of block `k` (blocks stored row by row) of a texture of
/// format `f` held in `data`.
pub open spec fn block_at(f: Format, data: Seq<u8>, k: int) -> Seq<u8> {
    let bs = spec_bytes_per_block(f) as int;
    data.subrange(k * bs, k * bs + bs)
}

/// The RGBA bytes of a `width` x `height` texture of format `f`, row by
/// row: byte `c` of pixel `(x, y)` is channel `c` of pixel
/// `(x % 4, y % 4)` of block `(x / 4, y / 4)`.
pub open spec fn decoded_image(f: Format, data: Seq<u8>, width: int, height: int) -> Seq<u8> {
    Seq::new(
        (width * height * 4) as nat,
        |i: int|
            {
                let x = (i / 4) % width;
                let y = (i / 4) / width;
                let k = (y / 4) * blocks_for(width) + x / 4;
                block_pixel_rgba(f, block_at(f, data, k), (y % 4) * 4 + x % 4)[i % 4]
            },
    )
}

/// Byte `c` of pixel `(x, y)` sits at `(y * w + x) * 4 + c`, and that
/// index gives the pixel and channel back.
proof fn lemma_pixel_index(w: int, x: int, y: int, c: int)
    requires
        0 <= x < w,
        0 <= y,
        0 <= c < 4,
    ensures
        ((y * w + x) * 4 + c) / 4 == y * w + x,
        ((y * w + x) * 4 + c) % 4 == c,
        (y * w + x) / w == y,
        (y * w + x) % w == x,
{
    lemma_fundamental_div_mod_converse((y * w + x) * 4 + c, 4, y * w + x, c);
    lemma_fundamental_div_mod_converse(y * w + x, w, y, x);
}

/// A pixel of the image lies inside its byte range.
proof fn lemma_pixel_in_image(w: int, h: int, x: int, y: int)
    requires
        0 <= x < w,
        0 <= y < h,
    ensures
        (y * w + x) * 4 + 4 <= w * h * 4,
{
    assert(y * w + x + 1 <= (y + 1) * w) by (nonlinear_arith)
        requires
            x < w,
    ;
    assert((y + 1) * w <= h * w) by (nonlinear_arith)
        requires
            y + 1 <= h,
            0 <= w,
    ;
    assert(h * w == w * h) by (nonlinear_arith);
}

/// The block holding pixel `(x, y)` is one of the image's blocks.
proof fn lemma_block_in_range(w: int, h: int, x: int, y: int)
    requires
        0 <= x < w,
        0 <= y < h,
    ensures
        0 <= (y / 4) * blocks_for(w) + x / 4 < blocks_for(w) * blocks_for(h),
{
    let bw = blocks_for(w);
    let bh = blocks_for(h);
    assert(x / 4 < bw && y / 4 < bh && 0 <= x / 4 && 0 <= y / 4);
    assert((y / 4) * bw + x / 4 < (y / 4 + 1) * bw) by (nonlinear_arith)
        requires
            x / 4 < bw,
    ;
    assert((y / 4 + 1) * bw <= bh * bw) by (nonlinear_arith)
        requires
            y / 4 + 1 <= bh,
            0 <= bw,
    ;
    assert(0 <= (y / 4) * bw) by (nonlinear_arith)
        requires
            0 <= y / 4,
            0 <= bw,
    ;
    assert(bh * bw == bw * bh) by (nonlinear_arith);
}

/// Block `k` of `n` blocks of `bs` bytes ends within the first `n * bs` bytes.
proof fn lemma_block_end(k: int, n: int, bs: int)
    requires
        0 <= k < n,
        0 <= bs,
    ensures
        0 <= k * bs,
        k * bs + bs <= n * bs,
{
    assert(0 <= k * bs && k * bs + bs <= n * bs) by (nonlinear_arith)
        requires
            0 <= k < n,
            0 <= bs,
    ;
}

/// Decodes a `width` x `height` texture of one of the formats decoded here
/// into RGBA bytes, row by row.
pub fn decompress_image(compressed: &[u8], width: usize, height: usize, format: Format) -> (r: Vec<
    u8,
>)
    requires
        decodes_to_rgba8(format),
        width * height * 4 <= usize::MAX,
        blocks_for(width as int) * blocks_for(height as int) * spec_bytes_per_block(format)
            <= compressed@.len(),
    ensures
        r@ == decoded_image(format, compressed@, width as int, height as int),
{
    let bw = width / 4 + if width % 4 != 0 { 1 } else { 0 };
    let bh = height / 4 + if height % 4 != 0 { 1 } else { 0 };
    assert(bw == blocks_for(width as int) && bh == blocks_for(height as int));
    let bsize = format.bytes_per_block();
    let len = compressed.len();
    assert(bw * bh <= bw * bh * bsize) by (nonlinear_arith)
        requires
            bsize >= 1,
            bw >= 0,
            bh >= 0,
    ;
    let nblocks = bw * bh;

    // Decode every block once.
    let mut blocks: Vec<[[u8; 4]; 16]> = Vec::new();
    let mut k: usize = 0;
    while k < nblocks
        invariant
            k <= nblocks,
            nblocks == bw * bh,
            bsize == spec_bytes_per_block(format),
            len == compressed@.len(),
            nblocks * bsize <= compressed@.len(),
            decodes_to_rgba8(format),
            blocks@.len() == k,
            forall|j: int, p: int|
                0 <= j < k && 0 <= p < 16 ==> (#[trigger] blocks@[j]@[p])@ == block_pixel_rgba(
                    format,
                    block_at(format, compressed@, j),
                    p,
                ),
        decreases nblocks - k,
    {
        proof {
            lemma_block_end(k as int, nblocks as int, bsize as int);
        }
        let off = k * bsize;
        let px = decode_block_rgba8(format, compressed, off);
        blocks.push(px);
        k += 1;
    }

    // Lay the pixels out row by row.
    let ghost img = decoded_image(format, compressed@, width as int, height as int);
    let mut out: Vec<u8> = Vec::new();
    let mut y: usize = 0;
    while y < height
        invariant
            y <= height,
            bw == blocks_for(width as int),
            bh == blocks_for(height as int),
            width * height * 4 <= usize::MAX,
            img == decoded_image(format, compressed@, width as int, height as int),
            blocks@.len() == bw * bh,
            nblocks == bw * bh,
            forall|j: int, p: int|
                0 <= j < bw * bh && 0 <= p < 16 ==> (#[trigger] blocks@[j]@[p])@
                    == block_pixel_rgba(format, block_at(format, compressed@, j), p),
            out@ == img.subrange(0, (y * width) * 4),
        decreases height - y,
    {
        let mut x: usize = 0;
        while x < width
            invariant
                y < height,
                x <= width,
                bw == blocks_for(width as int),
                bh == blocks_for(height as int),
                width * height * 4 <= usize::MAX,
                img == decoded_image(format, compressed@, width as int, height as int),
                blocks@.len() == bw * bh,
                nblocks == bw * bh,
            nblocks == bw * bh,
                forall|j: int, p: int|
                    0 <= j < bw * bh && 0 <= p < 16 ==> (#[trigger] blocks@[j]@[p])@
                        == block_pixel_rgba(format, block_at(format, compressed@, j), p),
                out@ == img.subrange(0, (y * width + x) * 4),
            decreases width - x,
        {
            proof {
                lemma_block_in_range(width as int, height as int, x as int, y as int);
                lemma_pixel_in_image(width as int, height as int, x as int, y as int);
            }
            let k = (y / 4) * bw + x / 4;
            let p = (y % 4) * 4 + x % 4;
            let px = blocks[k][p];
            let ghost n = (y * width + x) * 4;
            proof {
                assert forall|c: int| 0 <= c < 4 implies img[n + c] == px@[c] by {
                    lemma_pixel_index(width as int, x as int, y as int, c);
                }
            }
            out.push(px[0]);
            out.push(px[1]);
            out.push(px[2]);
            out.push(px[3]);
            assert(out@ =~= img.subrange(0, n + 4));
            x += 1;
        }
        assert((y * width + width) * 4 == ((y + 1) * width) * 4) by (nonlinear_arith);
        y += 1;
    }
    assert(out@ =~= img) by {
        assert((height * width) * 4 == width * height * 4) by (nonlinear_arith);
    }
    out
}

/// Channel `c` of 16 pixels.
pub open spec fn channel(pixels: Seq<[u8; 4]>, c: int) -> Seq<u8> {
    Seq::new(16, |i: int| pixels[i][c])
}

/// Channel `c` of 16 pixels moved to the signed range: `v - 128`, with 0
/// raised to -127.
pub open spec fn signed_channel(pixels: Seq<[u8; 4]>, c: int) -> Seq<i8> {
    Seq::new(
        16,
        |i: int|
            if pixels[i][c] == 0 {
                -127i8
            } else {
                (pixels[i][c] - 128) as i8
            },
    )
}

/// How many bytes of a block of format `f` come from a colour fit made by
/// the caller: the BC1 colour block (8) for BC1, BC2 and BC3, the whole
/// block for CTX1, BC6H, BC7 and unsigned BC5 normal maps, none otherwise.
pub open spec fn fitted_len(f: Format, is_signed: bool, is_normal_map: bool) -> int {
    match f {
        Format::Bc1 | Format::Bc2 | Format::Bc3 | Format::Ctx1 => 8,
        Format::Bc6h | Format::Bc7 => 16,
        Format::Bc5 => if !is_signed && is_normal_map {
            16
        } else {
            0
        },
        Format::Bc4 => 0,
    }
}

/// `block` is the compressed block of format `f` for `pixels` (the ones
/// selected by `mask`), with the colour fit `fitted`: BC2 and BC3 put their
/// alpha block (of channel 3) before the fitted colour block; BC4 encodes
/// channel 0 and BC5 channels 0 and 1, signed (`signed_channel`) or
/// unsigned; the other formats, and unsigned BC5 normal maps, are the fit
/// itself.
pub open spec fn is_block_encoding(
    f: Format,
    pixels: Seq<[u8; 4]>,
    mask: u16,
    is_signed: bool,
    is_normal_map: bool,
    fitted: Seq<u8>,
    block: Seq<u8>,
) -> bool {
    &&& block.len() == spec_bytes_per_block(f)
    &&& match f {
        Format::Bc2 => block.subrange(0, 8) == encode_alpha_bc2(channel(pixels, 3), mask)
            && block.subrange(8, 16) == fitted,
        Format::Bc3 => is_alpha_bc3_encoding(channel(pixels, 3), mask, block.subrange(0, 8))
            && block.subrange(8, 16) == fitted,
        Format::Bc4 => if is_signed {
            is_bc4_signed_encoding(signed_channel(pixels, 0), mask, block)
        } else {
            is_alpha_bc3_encoding(channel(pixels, 0), mask, block)
        },
        Format::Bc5 => if is_signed {
            is_bc4_signed_encoding(signed_channel(pixels, 0), mask, block.subrange(0, 8))
                && is_bc4_signed_encoding(signed_channel(pixels, 1), mask, block.subrange(8, 16))
        } else if is_normal_map {
            block == fitted
        } else {
            is_alpha_bc3_encoding(channel(pixels, 0), mask, block.subrange(0, 8))
                && is_alpha_bc3_encoding(channel(pixels, 1), mask, block.subrange(8, 16))
        },
        _ => block == fitted,
    }
}

/// Channel `c` of 16 pixels, unsigned.
fn take_channel(pixels: &[[u8; 4]; 16], c: usize) -> (r: [u8; 16])
    requires
        c < 4,
    ensures
        r@ == channel(pixels@, c as int),
{
    let mut r = [0u8; 16];
    let mut i: usize = 0;
    while i < 16
        invariant
            i <= 16,
            c < 4,
            forall|k: int| 0 <= k < i ==> r@[k] == pixels@[k][c as int],
        decreases 16 - i,
    {
        r[i] = pixels[i][c];
        i += 1;
    }
    assert(r@ =~= channel(pixels@, c as int));
    r
}

/// Channel `c` of 16 pixels, moved to the signed range.
fn take_signed_channel(pixels: &[[u8; 4]; 16], c: usize) -> (r: [i8; 16])
    requires
        c < 4,
    ensures
        r@ == signed_channel(pixels@, c as int),
{
    let mut r = [0i8; 16];
    let mut i: usize = 0;
    while i < 16
        invariant
            i <= 16,
            c < 4,
            forall|k: int| 0 <= k < i ==> r@[k] == signed_channel(pixels@, c as int)[k],
        decreases 16 - i,
    {
        let v = pixels[i][c] as i32 - 128;
        let cl = if v < -127 {
            -127
        } else if v > 127 {
            127
        } else {
            v
        };
        r[i] = cl as i8;
        i += 1;
    }
    assert(r@ =~= signed_channel(pixels@, c as int));
    r
}

/// Appends the bytes of `b` to `out`.
fn push_bytes(out: &mut Vec<u8>, b: &[u8])
    ensures
        final(out)@ == old(out)@ + b@,
{
    let mut i: usize = 0;
    while i < b.len()
        invariant
            i <= b@.len(),
            out@ == old(out)@ + b@.subrange(0, i as int),
        decreases b@.len() - i,
    {
        out.push(b[i]);
        i += 1;
        assert(out@ =~= old(out)@ + b@.subrange(0, i as int));
    }
    assert(b@.subrange(0, b@.len() as int) =~= b@);
}

/// Compresses the 4x4 block `pixels` (those selected by `mask`) into a
/// block of `format`, given the colour fit `fitted` that the floating-point
/// fitters make for it (see `fitted_len`): encodes the alpha of BC2 and
/// BC3, the red channel of BC4 and the red and green channels of BC5
/// itself, signed or unsigned, and places the fit where the format keeps it.
pub fn compress_block(
    pixels: &[[u8; 4]; 16],
    mask: u16,
    format: Format,
    is_signed: bool,
    is_normal_map: bool,
    fitted: &[u8],
) -> (r: Vec<u8>)
    requires
        fitted@.len() == fitted_len(format, is_signed, is_normal_map),
    ensures
        is_block_encoding(format, pixels@, mask, is_signed, is_normal_map, fitted@, r@),
{
    let mut out: Vec<u8> = Vec::new();
    match format {
        Format::Bc2 => {
            let alphas = take_channel(pixels, 3);
            let mut a = [0u8; 8];
            compress_alpha_bc2(&alphas, mask, &mut a);
            push_bytes(&mut out, &a);
            push_bytes(&mut out, fitted);
            assert(out@.subrange(0, 8) =~= a@);
            assert(out@.subrange(8, 16) =~= fitted@);
        },
        Format::Bc3 => {
            let alphas = take_channel(pixels, 3);
            let mut a = [0u8; 8];
            compress_alpha_bc3(&alphas, mask, 1 << 15, &mut a);
            push_bytes(&mut out, &a);
            push_bytes(&mut out, fitted);
            assert(out@.subrange(0, 8) =~= a@);
            assert(out@.subrange(8, 16) =~= fitted@);
        },
        Format::Bc4 => {
            let mut blk = [0u8; 8];
            if is_signed {
                let r = take_signed_channel(pixels, 0);
                compress_bc4_signed(&r, mask, 0, &mut blk);
            } else {
                let r = take_channel(pixels, 0);
                compress_bc4(&r, mask, 1 << 15, &mut blk);
            }
            push_bytes(&mut out, &blk);
            assert(out@ =~= blk@);
        },
        Format::Bc5 => {
            if !is_signed && is_normal_map {
                push_bytes(&mut out, fitted);
                assert(out@ =~= fitted@);
            } else {
                let mut blk = [0u8; 16];
                if is_signed {
                    let r = take_signed_channel(pixels, 0);
                    let g = take_signed_channel(pixels, 1);
                    compress_bc5_signed(&r, &g, mask, 0, &mut blk);
                } else {
                    let r = take_channel(pixels, 0);
                    let g = take_channel(pixels, 1);
                    compress_bc5(&r, &g, mask, 1 << 15, &mut blk);
                }
                push_bytes(&mut out, &blk);
                assert(out@ =~= blk@);
            }
        },
        _ => {
            push_bytes(&mut out, fitted);
            assert(out@ =~= fitted@);
        },
    }
    out
}

} // verus!
