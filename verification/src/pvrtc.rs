//! Fast PVRTC, ETC2 and EAC block encoders: Morton block order, the
//! per-block colour bounds and modulation words of PVRTC, and the one-sample
//! ETC2/EAC blocks.

use vstd::prelude::*;
use crate::byteio::{le_bytes_u16, le_bytes_u32, le_u16_bytes, le_u32_bytes};
use crate::astc::{clamp_coord, max_u8, min_u8};

verus! {

/// The texture formats of the PowerVR/ETC family.
#[derive(Debug, Clone, Copy, PartialEq, Eq, Structural)]
pub enum PvrPixelFormat {
    PVRTC2,
    PVRTC4,
    ETC2,
    ETC2a,
    EacR11,
    EacRg11,
}

/// Encoder effort levels.
#[derive(Debug, Clone, Copy, PartialEq, Eq, Structural)]
pub enum PvrQuality {
    Fastest,
    Fast,
    Normal,
    High,
}

/// PVRTC/ETC compression.
pub struct PvrtcCompressor;

/// The bits of the low 16 bits of `v` spread to the even positions.
pub open spec fn spread_bits(v: usize) -> usize {
    let a = (v | (v << 8usize)) & 0x00FF00FFusize;
    let b = (a | (a << 4usize)) & 0x0F0F0F0Fusize;
    let c = (b | (b << 2usize)) & 0x33333333usize;
    (c | (c << 1usize)) & 0x55555555usize
}

/// The bits at the even positions of `v` gathered into the low 16 bits.
pub open spec fn gather_bits(v: usize) -> usize {
    let a = v & 0x55555555usize;
    let b = (a | (a >> 1usize)) & 0x33333333usize;
    let c = (b | (b >> 2usize)) & 0x0F0F0F0Fusize;
    let d = (c | (c >> 4usize)) & 0x00FF00FFusize;
    (d | (d >> 8usize)) & 0x0000FFFFusize
}

/// The Morton (Z-order) index of block (`x`, `y`): the bits of `x` at the
/// even positions, those of `y` at the odd ones.
pub open spec fn morton(x: usize, y: usize) -> usize {
    spread_bits(x) | (spread_bits(y) << 1usize)
}

/// The block (`x`, `y`) of a Morton index.
pub open spec fn unmorton(code: usize) -> (usize, usize) {
    (gather_bits(code), gather_bits(code >> 1usize))
}

proof fn lemma_morton_bits(x: usize, y: usize)
    by (bit_vector)
    requires
        x < 0x10000,
        y < 0x10000,
    ensures
        gather_bits(spread_bits(x) | (spread_bits(y) << 1usize)) == x,
        gather_bits((spread_bits(x) | (spread_bits(y) << 1usize)) >> 1usize) == y,
        spread_bits(x) | (spread_bits(y) << 1usize) <= 0xFFFF_FFFF,
{
}

/// Interleaving two block coordinates below 65536 into a Morton index and
/// splitting the index again gives the coordinates back; the index stays
/// below 2^32.
pub proof fn lemma_morton_round_trip(x: usize, y: usize)
    requires
        x < 0x10000,
        y < 0x10000,
    ensures
        unmorton(morton(x, y)) == (x, y),
        morton(x, y) <= 0xFFFF_FFFF,
{
    lemma_morton_bits(x, y);
}

/// The byte offset of pixel (`x`, `y`) of the `bw`-pixel-wide, 4-row
/// footprint of block (`bx`, `by`), coordinates clamped to the image.
pub open spec fn fp_offset(w: int, h: int, bw: int, bx: int, by: int, x: int, y: int) -> int {
    (clamp_coord(by * 4 + y, h) * w + clamp_coord(bx * bw + x, w)) * 4
}

/// The minimum of channel `c` over the first `n` footprint pixels, row by
/// row (255 for none).
pub open spec fn fp_min(src: Seq<u8>, w: int, h: int, bw: int, bx: int, by: int, c: int, n: int) -> u8
    decreases n,
{
    if n <= 0 {
        255
    } else {
        min_u8(
            fp_min(src, w, h, bw, bx, by, c, n - 1),
            src[fp_offset(w, h, bw, bx, by, (n - 1) % bw, (n - 1) / bw) + c],
        )
    }
}

/// The maximum of channel `c` over the first `n` footprint pixels (0 for
/// none).
pub open spec fn fp_max(src: Seq<u8>, w: int, h: int, bw: int, bx: int, by: int, c: int, n: int) -> u8
    decreases n,
{
    if n <= 0 {
        0
    } else {
        max_u8(
            fp_max(src, w, h, bw, bx, by, c, n - 1),
            src[fp_offset(w, h, bw, bx, by, (n - 1) % bw, (n - 1) / bw) + c],
        )
    }
}

/// The per-channel minima of a footprint.
pub open spec fn fp_mins(src: Seq<u8>, w: int, h: int, bw: int, bx: int, by: int) -> Seq<u8> {
    Seq::new(4, |c: int| fp_min(src, w, h, bw, bx, by, c, 4 * bw))
}

/// The per-channel maxima of a footprint.
pub open spec fn fp_maxs(src: Seq<u8>, w: int, h: int, bw: int, bx: int, by: int) -> Seq<u8> {
    Seq::new(4, |c: int| fp_max(src, w, h, bw, bx, by, c, 4 * bw))
}

/// The 5:5:5 colour of a BGRA colour (blue in the low bits).
pub open spec fn rgb555(col: Seq<u8>) -> u16 {
    (((col[2] as u16) >> 3u16) << 10u16) | (((col[1] as u16) >> 3u16) << 5u16) | ((col[0] as u16)
        >> 3u16)
}

/// The weighted luminance `(b + 2g + r) / 4` of the pixel at `off`.
pub open spec fn lum_at(src: Seq<u8>, off: int) -> int {
    (src[off] + src[off + 1] * 2 + src[off + 2]) / 4
}

/// The weighted luminance of a colour.
pub open spec fn lum_of(col: Seq<u8>) -> int {
    (col[0] + col[1] * 2 + col[2]) / 4
}

/// The absolute value.
pub open spec fn abs_int(v: int) -> int {
    if v < 0 {
        -v
    } else {
        v
    }
}

/// The 2-bit modulation of the pixel at `off` between colours `a` and `b`.
pub open spec fn mod4(src: Seq<u8>, off: int, a: Seq<u8>, b: Seq<u8>) -> u32 {
    let la = lum_of(a);
    let lb = lum_of(b);
    let span = if abs_int(lb - la) > 1 {
        abs_int(lb - la)
    } else {
        1
    };
    let v = abs_int(lum_at(src, off) - la) * 3 / span;
    (if v > 3 {
        3
    } else {
        v
    }) as u32
}

/// The modulation bits of the first `n` pixels of a 4x4 block, two bits each.
pub open spec fn modulation4(
    src: Seq<u8>,
    w: int,
    h: int,
    bx: int,
    by: int,
    a: Seq<u8>,
    b: Seq<u8>,
    n: int,
) -> u32
    decreases n,
{
    if n <= 0 {
        0
    } else {
        modulation4(src, w, h, bx, by, a, b, n - 1) | ((mod4(
            src,
            fp_offset(w, h, 4, bx, by, (n - 1) % 4, (n - 1) / 4),
            a,
            b,
        ) & 3u32) << ((n - 1) * 2) as u32)
    }
}

/// The 8 bytes of a 4-bit-per-pixel PVRTC block: modulation word, then the
/// two colours (alpha flag in the top bit), little-endian.
pub open spec fn pvrtc4_word(
    src: Seq<u8>,
    w: int,
    h: int,
    bx: int,
    by: int,
    a: Seq<u8>,
    b: Seq<u8>,
) -> Seq<u8> {
    let av = rgb555(a) | (if a[3] > 127 {
        0x8000u16
    } else {
        0u16
    });
    let bv = rgb555(b) | (if b[3] > 127 {
        0x8000u16
    } else {
        0u16
    });
    le_bytes_u32(modulation4(src, w, h, bx, by, a, b, 16)) + le_bytes_u16(av) + le_bytes_u16(bv)
}

/// The modulation bits of the first `n` pixels of an 8x4 block: one bit per
/// pixel, set where its luminance reaches `mid`.
pub open spec fn modulation2(src: Seq<u8>, w: int, h: int, bx: int, by: int, mid: int, n: int) -> u32
    decreases n,
{
    if n <= 0 {
        0
    } else {
        let m = modulation2(src, w, h, bx, by, mid, n - 1);
        if lum_at(src, fp_offset(w, h, 8, bx, by, (n - 1) % 8, (n - 1) / 8)) >= mid {
            m | (1u32 << (n - 1) as u32)
        } else {
            m
        }
    }
}

/// The 8 bytes of a 2-bit-per-pixel PVRTC block of the 8x4 footprint of
/// block (`bx`, `by`): threshold modulation, then the footprint's minimum
/// and maximum colours, both opaque.
pub open spec fn pvrtc2_word(src: Seq<u8>, w: int, h: int, bx: int, by: int) -> Seq<u8> {
    let mn = fp_mins(src, w, h, 8, bx, by);
    let mx = fp_maxs(src, w, h, 8, bx, by);
    let mid = (lum_of(mn) + lum_of(mx)) / 2;
    le_bytes_u32(modulation2(src, w, h, bx, by, mid, 32)) + le_bytes_u16(rgb555(mn) | 0x8000u16)
        + le_bytes_u16(rgb555(mx) | 0x8000u16)
}

/// Whether the image and block coordinates allow reading a footprint.
pub open spec fn footprint_ok(src: Seq<u8>, w: int, h: int, bw: int, bx: int, by: int) -> bool {
    &&& 1 <= w
    &&& 1 <= h
    &&& w * h * 4 <= src.len()
    &&& by * 4 + 4 <= usize::MAX
    &&& bx * bw + bw <= usize::MAX
}

/// The number of PVRTC blocks along a side of `v` pixels with blocks of `d`
/// (at least 2).
pub open spec fn pvr_blocks(v: int, d: int) -> int {
    if v / d > 2 {
        v / d
    } else {
        2
    }
}

/// The colour table after storing the footprint bounds of the first `n`
/// blocks (row by row) at their Morton index, where that index is inside the
/// table; `mins` selects minima or maxima.
pub open spec fn color_table(
    src: Seq<u8>,
    w: int,
    h: int,
    bxs: int,
    total: int,
    mins: bool,
    n: int,
) -> Seq<Seq<u8>>
    decreases n,
{
    if n <= 0 {
        Seq::new(
            total as nat,
            |i: int|
                if mins {
                    seq![255u8, 255u8, 255u8, 255u8]
                } else {
                    seq![0u8, 0u8, 0u8, 0u8]
                },
        )
    } else {
        let t = color_table(src, w, h, bxs, total, mins, n - 1);
        let bx = (n - 1) % bxs;
        let by = (n - 1) / bxs;
        let idx = morton(bx as usize, by as usize);
        if idx < total {
            t.update(
                idx as int,
                if mins {
                    fp_mins(src, w, h, 4, bx, by)
                } else {
                    fp_maxs(src, w, h, 4, bx, by)
                },
            )
        } else {
            t
        }
    }
}

/// The bytes of the one-sample ETC2/EAC block (`bx`, `by`) of a BGRA image:
/// the sample is the block's top-left pixel (clamped to the image).
pub open spec fn etc_block(src: Seq<u8>, w: int, h: int, format: PvrPixelFormat, bx: int, by: int) -> Seq<
    u8,
> {
    let off = fp_offset(w, h, 4, bx, by, 0, 0);
    let b = src[off];
    let g = src[off + 1];
    let r = src[off + 2];
    let a = src[off + 3];
    match format {
        PvrPixelFormat::ETC2a => seq![a, 0, 0, 0, 0, 0, 0, 0, r, g, b, 0, 0, 0, 0, 0],
        PvrPixelFormat::EacR11 => seq![r, 0, 0, 0, 0, 0, 0, 0],
        PvrPixelFormat::EacRg11 => seq![r, 0, 0, 0, 0, 0, 0, 0, g, 0, 0, 0, 0, 0, 0, 0],
        _ => seq![r, g, b, 0x00, 0x20, 0, 0, 0],
    }
}

/// The bytes of ETC2/EAC blocks 0..`count` of block row `by`, in order.
pub open spec fn etc_row(
    src: Seq<u8>,
    w: int,
    h: int,
    format: PvrPixelFormat,
    by: int,
    count: int,
) -> Seq<u8>
    decreases count,
{
    if count <= 0 {
        Seq::empty()
    } else {
        etc_row(src, w, h, format, by, count - 1) + etc_block(src, w, h, format, count - 1, by)
    }
}

/// The block size of an ETC2/EAC format: 16 bytes for ETC2 with alpha and
/// two-channel EAC, 8 for the others.
pub open spec fn etc_block_size(format: PvrPixelFormat) -> int {
    if format == PvrPixelFormat::ETC2a || format == PvrPixelFormat::EacRg11 {
        16
    } else {
        8
    }
}

/// Which source channels each ETC2/EAC block stores: the sample is the
/// block's top-left pixel (BGRA bytes at `off`); single-channel EAC keeps
/// red, two-channel EAC red then green 8 bytes later, ETC2 with alpha
/// alpha then red, green, blue in its colour half, plain ETC2 red, green,
/// blue.
pub open spec fn etc_block_holds(row: Seq<u8>, src: Seq<u8>, format: PvrPixelFormat, at: int, off: int) -> bool {
    let b = src[off];
    let g = src[off + 1];
    let r = src[off + 2];
    let a = src[off + 3];
    match format {
        PvrPixelFormat::EacR11 => row[at] == r && row[at + 1] == 0 && row[at + 2] == 0 && row[at
            + 3] == 0,
        PvrPixelFormat::EacRg11 => row[at] == r && row[at + 8] == g,
        PvrPixelFormat::ETC2a => row[at] == a && row[at + 8] == r && row[at + 9] == g && row[at
            + 10] == b,
        _ => row[at] == r && row[at + 1] == g && row[at + 2] == b,
    }
}

/// A row of ETC2/EAC blocks has one block per column, each of the
/// format's size, and block `bx` stores the channels of its own top-left
/// pixel where the format keeps them.
pub proof fn lemma_etc_row_channels(
    src: Seq<u8>,
    w: int,
    h: int,
    format: PvrPixelFormat,
    by: int,
    count: int,
    bx: int,
)
    requires
        0 <= bx < count,
    ensures
        etc_row(src, w, h, format, by, count).len() == count * etc_block_size(format),
        etc_block_holds(
            etc_row(src, w, h, format, by, count),
            src,
            format,
            bx * etc_block_size(format),
            fp_offset(w, h, 4, bx, by, 0, 0),
        ),
    decreases count,
{
    lemma_etc_row_len(src, w, h, format, by, count);
    let row = etc_row(src, w, h, format, by, count);
    let prev = etc_row(src, w, h, format, by, count - 1);
    let sz = etc_block_size(format);
    lemma_etc_row_len(src, w, h, format, by, count - 1);
    if bx < count - 1 {
        lemma_etc_row_channels(src, w, h, format, by, count - 1, bx);
        assert(bx * sz + sz <= (count - 1) * sz) by (nonlinear_arith)
            requires
                bx < count - 1,
                sz > 0,
        ;
        assert forall|t: int| bx * sz <= t < bx * sz + sz implies #[trigger] row[t] == prev[t] by {}
    } else {
        assert(prev.len() == bx * sz);
        let blk = etc_block(src, w, h, format, bx, by);
        assert forall|t: int| bx * sz <= t < bx * sz + sz implies #[trigger] row[t] == blk[t - bx * sz]
            by {}
    }
}

/// A row of `count` ETC2/EAC blocks takes `count` times the block size.
proof fn lemma_etc_row_len(src: Seq<u8>, w: int, h: int, format: PvrPixelFormat, by: int, count: int)
    ensures
        count >= 0 ==> etc_row(src, w, h, format, by, count).len() == count * etc_block_size(format),
    decreases count,
{
    if count > 0 {
        lemma_etc_row_len(src, w, h, format, by, count - 1);
        assert(count * etc_block_size(format) == (count - 1) * etc_block_size(format)
            + etc_block_size(format)) by (nonlinear_arith);
    }
}

fn offset_exec(len: usize, w: usize, h: usize, bw: usize, bx: usize, by: usize, x: usize, y: usize) -> (r: usize)
    requires
        1 <= w,
        1 <= h,
        1 <= bw,
        w * h * 4 <= len,
        x < bw,
        y < 4,
        by * 4 + 4 <= usize::MAX,
        bx * bw + bw <= usize::MAX,
    ensures
        r == fp_offset(w as int, h as int, bw as int, bx as int, by as int, x as int, y as int),
        r + 4 <= w * h * 4,
{
    proof {
        lemma_fp_offset(w as int, h as int, bw as int, bx as int, by as int, x as int, y as int);
        assert(bx * bw + x <= usize::MAX) by (nonlinear_arith)
            requires
                bx * bw + bw <= usize::MAX,
                x < bw,
        ;
    }
    let cy = if by * 4 + y < h - 1 {
        by * 4 + y
    } else {
        h - 1
    };
    let cx = if bx * bw + x < w - 1 {
        bx * bw + x
    } else {
        w - 1
    };
    assert((cy * w + cx) * 4 + 4 <= w * h * 4) by (nonlinear_arith)
        requires
            cy < h,
            cx < w,
    ;
    (cy * w + cx) * 4
}

proof fn lemma_fp_offset(w: int, h: int, bw: int, bx: int, by: int, x: int, y: int)
    requires
        1 <= w,
        1 <= h,
        0 <= bx,
        0 <= by,
        0 <= x,
        0 <= y,
        1 <= bw,
    ensures
        0 <= fp_offset(w, h, bw, bx, by, x, y),
        fp_offset(w, h, bw, bx, by, x, y) + 4 <= w * h * 4,
{
    let cy = clamp_coord(by * 4 + y, h);
    let cx = clamp_coord(bx * bw + x, w);
    assert(0 <= bx * bw) by (nonlinear_arith)
        requires
            0 <= bx,
            1 <= bw,
    ;
    assert(0 <= cy < h && 0 <= cx < w);
    assert(0 <= (cy * w + cx) * 4 && (cy * w + cx) * 4 + 4 <= w * h * 4) by (nonlinear_arith)
        requires
            0 <= cy < h,
            0 <= cx < w,
    ;
}

impl PvrtcCompressor {
    /// The Morton index of block (`x`, `y`).
    pub fn morton_2d(x: usize, y: usize) -> (r: usize)
        ensures
            r == morton(x, y),
    {
        let mut x = x;
        let mut y = y;
        x = (x | (x << 8)) & 0x00FF00FF;
        x = (x | (x << 4)) & 0x0F0F0F0F;
        x = (x | (x << 2)) & 0x33333333;
        x = (x | (x << 1)) & 0x55555555;
        y = (y | (y << 8)) & 0x00FF00FF;
        y = (y | (y << 4)) & 0x0F0F0F0F;
        y = (y | (y << 2)) & 0x33333333;
        y = (y | (y << 1)) & 0x55555555;
        x | (y << 1)
    }

    /// The block of a Morton index.
    pub fn unmorton_2d(code: usize) -> (r: (usize, usize))
        ensures
            r == unmorton(code),
    {
        let mut x = code & 0x55555555;
        let mut y = (code >> 1) & 0x55555555;
        x = (x | (x >> 1)) & 0x33333333;
        x = (x | (x >> 2)) & 0x0F0F0F0F;
        x = (x | (x >> 4)) & 0x00FF00FF;
        x = (x | (x >> 8)) & 0x0000FFFF;
        y = (y | (y >> 1)) & 0x33333333;
        y = (y | (y >> 2)) & 0x0F0F0F0F;
        y = (y | (y >> 4)) & 0x00FF00FF;
        y = (y | (y >> 8)) & 0x0000FFFF;
        (x, y)
    }

    /// The per-channel minima and maxima of the `bw`-pixel-wide, 4-row
    /// footprint of block (`bx`, `by`), coordinates clamped to the image.
    pub fn footprint_bounds(
        src_bgra: &[u8],
        width: usize,
        height: usize,
        bw: usize,
        bx: usize,
        by: usize,
    ) -> (r: ([u8; 4], [u8; 4]))
        requires
            1 <= bw <= 8,
            footprint_ok(src_bgra@, width as int, height as int, bw as int, bx as int, by as int),
        ensures
            r.0@ == fp_mins(src_bgra@, width as int, height as int, bw as int, bx as int, by as int),
            r.1@ == fp_maxs(src_bgra@, width as int, height as int, bw as int, bx as int, by as int),
    {
        let len = src_bgra.len();
        let ghost (w, h, bwi, bxi, byi) = (
            width as int,
            height as int,
            bw as int,
            bx as int,
            by as int,
        );
        let mut mn: [u8; 4] = [255, 255, 255, 255];
        let mut mx: [u8; 4] = [0, 0, 0, 0];
        let n = 4 * bw;
        let mut k: usize = 0;
        while k < n
            invariant
                k <= n,
                n == 4 * bw,
                1 <= bw <= 8,
                len == src_bgra@.len(),
                footprint_ok(src_bgra@, w, h, bwi, bxi, byi),
                w == width && h == height && bwi == bw && bxi == bx && byi == by,
                forall|c: int| 0 <= c < 4 ==> #[trigger] mn@[c] == fp_min(src_bgra@, w, h, bwi, bxi, byi, c, k as int),
                forall|c: int| 0 <= c < 4 ==> #[trigger] mx@[c] == fp_max(src_bgra@, w, h, bwi, bxi, byi, c, k as int),
            decreases n - k,
        {
            assert(k / bw < 4) by (nonlinear_arith)
                requires
                    k < 4 * bw,
                    1 <= bw,
            ;
            let off = offset_exec(len, width, height, bw, bx, by, k % bw, k / bw);
            let mut c: usize = 0;
            while c < 4
                invariant
                    c <= 4,
                    k < n,
                    off + 4 <= len,
                    len == src_bgra@.len(),
                    w == width && h == height && bwi == bw && bxi == bx && byi == by,
                    off == fp_offset(w, h, bwi, bxi, byi, (k % bw) as int, (k / bw) as int),
                    forall|j: int| 0 <= j < c ==> #[trigger] mn@[j] == fp_min(src_bgra@, w, h, bwi, bxi, byi, j, k + 1),
                    forall|j: int| c <= j < 4 ==> #[trigger] mn@[j] == fp_min(src_bgra@, w, h, bwi, bxi, byi, j, k as int),
                    forall|j: int| 0 <= j < c ==> #[trigger] mx@[j] == fp_max(src_bgra@, w, h, bwi, bxi, byi, j, k + 1),
                    forall|j: int| c <= j < 4 ==> #[trigger] mx@[j] == fp_max(src_bgra@, w, h, bwi, bxi, byi, j, k as int),
                decreases 4 - c,
            {
                let v = src_bgra[off + c];
                proof {
                    let kk = k as int + 1;
                    assert(fp_min(src_bgra@, w, h, bwi, bxi, byi, c as int, kk) == min_u8(
                        fp_min(src_bgra@, w, h, bwi, bxi, byi, c as int, kk - 1),
                        src_bgra@[fp_offset(w, h, bwi, bxi, byi, (kk - 1) % bwi, (kk - 1) / bwi) + c],
                    ));
                    assert(fp_max(src_bgra@, w, h, bwi, bxi, byi, c as int, kk) == max_u8(
                        fp_max(src_bgra@, w, h, bwi, bxi, byi, c as int, kk - 1),
                        src_bgra@[fp_offset(w, h, bwi, bxi, byi, (kk - 1) % bwi, (kk - 1) / bwi) + c],
                    ));
                }
                let ghost old_mn = mn@;
                let ghost old_mx = mx@;
                if v < mn[c] {
                    mn[c] = v;
                }
                if v > mx[c] {
                    mx[c] = v;
                }
                proof {
                    let kk = k as int + 1;
                    assert(src_bgra@[off + c] == v);
                    assert(mn@[c as int] == fp_min(src_bgra@, w, h, bwi, bxi, byi, c as int, kk));
                    assert(mx@[c as int] == fp_max(src_bgra@, w, h, bwi, bxi, byi, c as int, kk));
                    assert forall|j: int| 0 <= j < 4 && j != c implies mn@[j] == old_mn[j] && mx@[j]
                        == old_mx[j] by {}
                }
                c = c + 1;
            }
            k = k + 1;
        }
        proof {
            assert(mn@ =~= fp_mins(src_bgra@, w, h, bwi, bxi, byi));
            assert(mx@ =~= fp_maxs(src_bgra@, w, h, bwi, bxi, byi));
        }
        (mn, mx)
    }

    /// The 8 bytes of the 4-bit-per-pixel PVRTC block (`bx`, `by`) with
    /// colours `col_a` and `col_b`: each pixel's modulation is its luminance
    /// distance from `col_a` in thirds of the span between the colours.
    pub fn pvrtc4_block_word(
        src_bgra: &[u8],
        width: usize,
        height: usize,
        bx: usize,
        by: usize,
        col_a: &[u8; 4],
        col_b: &[u8; 4],
    ) -> (r: [u8; 8])
        requires
            footprint_ok(src_bgra@, width as int, height as int, 4, bx as int, by as int),
        ensures
            r@ == pvrtc4_word(
                src_bgra@,
                width as int,
                height as int,
                bx as int,
                by as int,
                col_a@,
                col_b@,
            ),
    {
        let len = src_bgra.len();
        let a_val: u16 = ((col_a[2] as u16 >> 3) << 10) | ((col_a[1] as u16 >> 3) << 5) | (
        col_a[0] as u16 >> 3) | if col_a[3] > 127 {
            0x8000
        } else {
            0
        };
        let b_val: u16 = ((col_b[2] as u16 >> 3) << 10) | ((col_b[1] as u16 >> 3) << 5) | (
        col_b[0] as u16 >> 3) | if col_b[3] > 127 {
            0x8000
        } else {
            0
        };
        let lum_a = (col_a[0] as u32 + col_a[1] as u32 * 2 + col_a[2] as u32) / 4;
        let lum_b = (col_b[0] as u32 + col_b[1] as u32 * 2 + col_b[2] as u32) / 4;
        let diff = lum_b as i32 - lum_a as i32;
        let adiff = if diff < 0 {
            -diff
        } else {
            diff
        };
        let span: i32 = if adiff > 1 {
            adiff
        } else {
            1
        };
        let mut modulation: u32 = 0;
        let mut k: usize = 0;
        while k < 16
            invariant
                k <= 16,
                len == src_bgra@.len(),
                footprint_ok(src_bgra@, width as int, height as int, 4, bx as int, by as int),
                lum_a == lum_of(col_a@),
                lum_b == lum_of(col_b@),
                span == (if abs_int(lum_b - lum_a) > 1 {
                    abs_int(lum_b - lum_a)
                } else {
                    1
                }),
                modulation == modulation4(
                    src_bgra@,
                    width as int,
                    height as int,
                    bx as int,
                    by as int,
                    col_a@,
                    col_b@,
                    k as int,
                ),
            decreases 16 - k,
        {
            let off = offset_exec(len, width, height, 4, bx, by, k % 4, k / 4);
            let lum = (src_bgra[off] as u32 + src_bgra[off + 1] as u32 * 2 + src_bgra[off + 2] as u32)
                / 4;
            let d = lum as i32 - lum_a as i32;
            let ad = if d < 0 {
                -d
            } else {
                d
            };
            let q = (ad * 3) / span;
            let mod_val: u32 = if q > 3 {
                3
            } else {
                q as u32
            };
            proof {
                let num = (ad * 3) as int;
                let sp = span as int;
                assert(num / sp >= 0) by (nonlinear_arith)
                    requires
                        num >= 0,
                        sp >= 1,
                ;
                assert(mod_val == mod4(src_bgra@, off as int, col_a@, col_b@));
            }
            modulation = modulation | ((mod_val & 3) << (k * 2) as u32);
            k = k + 1;
        }
        let m = le_u32_bytes(modulation);
        let a = le_u16_bytes(a_val);
        let b = le_u16_bytes(b_val);
        let r: [u8; 8] = [m[0], m[1], m[2], m[3], a[0], a[1], b[0], b[1]];
        assert(r@ =~= pvrtc4_word(
            src_bgra@,
            width as int,
            height as int,
            bx as int,
            by as int,
            col_a@,
            col_b@,
        ));
        r
    }

    /// The 8 bytes of the 2-bit-per-pixel PVRTC block (`bx`, `by`) over its
    /// 8x4 footprint.
    pub fn pvrtc2_block_word(
        src_bgra: &[u8],
        width: usize,
        height: usize,
        bx: usize,
        by: usize,
    ) -> (r: [u8; 8])
        requires
            footprint_ok(src_bgra@, width as int, height as int, 8, bx as int, by as int),
        ensures
            r@ == pvrtc2_word(src_bgra@, width as int, height as int, bx as int, by as int),
    {
        let len = src_bgra.len();
        let (min_c, max_c) = Self::footprint_bounds(src_bgra, width, height, 8, bx, by);
        let a_val: u16 = ((min_c[2] as u16 >> 3) << 10) | ((min_c[1] as u16 >> 3) << 5) | (
        min_c[0] as u16 >> 3) | 0x8000;
        let b_val: u16 = ((max_c[2] as u16 >> 3) << 10) | ((max_c[1] as u16 >> 3) << 5) | (
        max_c[0] as u16 >> 3) | 0x8000;
        let lum_a = (min_c[0] as u32 + min_c[1] as u32 * 2 + min_c[2] as u32) / 4;
        let lum_b = (max_c[0] as u32 + max_c[1] as u32 * 2 + max_c[2] as u32) / 4;
        let mid = (lum_a + lum_b) / 2;
        let mut modulation: u32 = 0;
        let mut k: usize = 0;
        while k < 32
            invariant
                k <= 32,
                len == src_bgra@.len(),
                footprint_ok(src_bgra@, width as int, height as int, 8, bx as int, by as int),
                modulation == modulation2(
                    src_bgra@,
                    width as int,
                    height as int,
                    bx as int,
                    by as int,
                    mid as int,
                    k as int,
                ),
            decreases 32 - k,
        {
            let off = offset_exec(len, width, height, 8, bx, by, k % 8, k / 8);
            let lum = (src_bgra[off] as u32 + src_bgra[off + 1] as u32 * 2 + src_bgra[off + 2] as u32)
                / 4;
            if lum >= mid {
                modulation = modulation | (1u32 << k as u32);
            }
            k = k + 1;
        }
        let m = le_u32_bytes(modulation);
        let a = le_u16_bytes(a_val);
        let b = le_u16_bytes(b_val);
        let r: [u8; 8] = [m[0], m[1], m[2], m[3], a[0], a[1], b[0], b[1]];
        assert(r@ =~= pvrtc2_word(src_bgra@, width as int, height as int, bx as int, by as int));
        r
    }

    /// The per-block colour bounds of a 4-bit-per-pixel PVRTC image
    /// (`max(width / 4, 2)` by `max(height / 4, 2)` blocks): the minima and
    /// the maxima of each block's footprint, stored at its Morton index when
    /// that index falls inside the table (255s and 0s elsewhere).
    pub fn pvrtc4_color_tables(src_bgra: &[u8], width: usize, height: usize) -> (r: (
        Vec<[u8; 4]>,
        Vec<[u8; 4]>,
    ))
        requires
            1 <= width,
            1 <= height,
            width * height * 4 <= src_bgra@.len(),
            pvr_blocks(width as int, 4) * pvr_blocks(height as int, 4) * 8 <= usize::MAX,
        ensures
            ({
                let bxs = pvr_blocks(width as int, 4);
                let total = bxs * pvr_blocks(height as int, 4);
                &&& r.0@.map_values(|c: [u8; 4]| c@) == color_table(
                    src_bgra@,
                    width as int,
                    height as int,
                    bxs,
                    total,
                    true,
                    total,
                )
                &&& r.1@.map_values(|c: [u8; 4]| c@) == color_table(
                    src_bgra@,
                    width as int,
                    height as int,
                    bxs,
                    total,
                    false,
                    total,
                )
            }),
    {
        let bxs = if width / 4 > 2 {
            width / 4
        } else {
            2
        };
        let bys = if height / 4 > 2 {
            height / 4
        } else {
            2
        };
        assert(bxs * bys <= usize::MAX) by (nonlinear_arith)
            requires
                bxs * bys * 8 <= usize::MAX,
        ;
        let total = bxs * bys;
        let ghost (w, h) = (width as int, height as int);
        let mut mins: Vec<[u8; 4]> = Vec::new();
        let mut maxs: Vec<[u8; 4]> = Vec::new();
        let mut i: usize = 0;
        while i < total
            invariant
                i <= total,
                mins@.len() == i,
                maxs@.len() == i,
                forall|j: int| 0 <= j < i ==> (#[trigger] mins@[j])@ == seq![255u8, 255u8, 255u8, 255u8],
                forall|j: int| 0 <= j < i ==> (#[trigger] maxs@[j])@ == seq![0u8, 0u8, 0u8, 0u8],
            decreases total - i,
        {
            mins.push([255, 255, 255, 255]);
            maxs.push([0, 0, 0, 0]);
            i = i + 1;
        }
        assert(mins@.map_values(|c: [u8; 4]| c@) =~= color_table(src_bgra@, w, h, bxs as int, total as int, true, 0));
        assert(maxs@.map_values(|c: [u8; 4]| c@) =~= color_table(src_bgra@, w, h, bxs as int, total as int, false, 0));
        let mut n: usize = 0;
        while n < total
            invariant
                n <= total,
                total == bxs * bys,
                bxs == pvr_blocks(w, 4),
                bys == pvr_blocks(h, 4),
                2 <= bxs,
                2 <= bys,
                bxs <= width / 4 + 2,
                bys <= height / 4 + 2,
                w == width && h == height,
                1 <= width,
                1 <= height,
                width * height * 4 <= src_bgra@.len(),
                mins@.len() == total,
                maxs@.len() == total,
                mins@.map_values(|c: [u8; 4]| c@) == color_table(src_bgra@, w, h, bxs as int, total as int, true, n as int),
                maxs@.map_values(|c: [u8; 4]| c@) == color_table(src_bgra@, w, h, bxs as int, total as int, false, n as int),
            decreases total - n,
        {
            let bx = n % bxs;
            let by = n / bxs;
            assert(by < bys) by (nonlinear_arith)
                requires
                    n < bxs * bys,
                    by == n / bxs,
                    bxs >= 1,
            ;
            let idx = Self::morton_2d(bx, by);
            if idx < total {
                let (mn, mx) = Self::footprint_bounds(src_bgra, width, height, 4, bx, by);
                let ghost before_min = mins@.map_values(|c: [u8; 4]| c@);
                let ghost before_max = maxs@.map_values(|c: [u8; 4]| c@);
                mins.set(idx, mn);
                maxs.set(idx, mx);
                assert(mins@.map_values(|c: [u8; 4]| c@) =~= before_min.update(idx as int, mn@));
                assert(maxs@.map_values(|c: [u8; 4]| c@) =~= before_max.update(idx as int, mx@));
            }
            n = n + 1;
        }
        (mins, maxs)
    }

    /// The bytes of ETC2/EAC blocks of block row `by` (`ceil(width / 4)`
    /// blocks), left to right; each block keeps the channels of its top-left
    /// pixel.
    pub fn etc_block_row(
        src_bgra: &[u8],
        width: usize,
        height: usize,
        format: PvrPixelFormat,
        by: usize,
    ) -> (r: Vec<u8>)
        requires
            1 <= width,
            1 <= height,
            width * height * 4 <= src_bgra@.len(),
            width + 4 <= usize::MAX,
            by * 4 + 4 <= usize::MAX,
        ensures
            r@ == etc_row(
                src_bgra@,
                width as int,
                height as int,
                format,
                by as int,
                (width as int + 3) / 4,
            ),
    {
        let len = src_bgra.len();
        let bw = (width + 3) / 4;
        let mut out: Vec<u8> = Vec::new();
        let mut bx: usize = 0;
        while bx < bw
            invariant
                bx <= bw,
                bw == (width + 3) / 4,
                1 <= width,
                1 <= height,
                len == src_bgra@.len(),
                width * height * 4 <= len,
                width + 4 <= usize::MAX,
                by * 4 + 4 <= usize::MAX,
                out@ == etc_row(src_bgra@, width as int, height as int, format, by as int, bx as int),
            decreases bw - bx,
        {
            assert(bx * 4 + 4 <= width + 4) by (nonlinear_arith)
                requires
                    bx < bw,
                    bw == (width + 3) / 4,
            ;
            let off = offset_exec(len, width, height, 4, bx, by, 0, 0);
            let b = src_bgra[off];
            let g = src_bgra[off + 1];
            let r = src_bgra[off + 2];
            let a = src_bgra[off + 3];
            let ghost before = out@;
            match format {
                PvrPixelFormat::ETC2a => {
                    let blk: [u8; 16] = [a, 0, 0, 0, 0, 0, 0, 0, r, g, b, 0, 0, 0, 0, 0];
                    crate::byteio::push_all(&mut out, &blk);
                },
                PvrPixelFormat::EacR11 => {
                    let blk: [u8; 8] = [r, 0, 0, 0, 0, 0, 0, 0];
                    crate::byteio::push_all(&mut out, &blk);
                },
                PvrPixelFormat::EacRg11 => {
                    let blk: [u8; 16] = [r, 0, 0, 0, 0, 0, 0, 0, g, 0, 0, 0, 0, 0, 0, 0];
                    crate::byteio::push_all(&mut out, &blk);
                },
                _ => {
                    let blk: [u8; 8] = [r, g, b, 0x00, 0x20, 0, 0, 0];
                    crate::byteio::push_all(&mut out, &blk);
                },
            }
            assert(out@ =~= before + etc_block(src_bgra@, width as int, height as int, format, bx as int, by as int));
            bx = bx + 1;
        }
        out
    }
}

} // verus!
