//! A fast ASTC encoder: every block is coded with a 4x4 weight grid, one
//! endpoint pair (the per-channel minimum and maximum of the block) and
//! 4-bit weights.

use vstd::prelude::*;
use crate::byteio::{le_bytes_u64, le_u64_bytes};
use crate::text::{chars_of, decimal_usize, parse_usize, split, split_chars};

verus! {

/// The footprint of an ASTC block in pixels.
#[derive(Debug, Clone, Copy, PartialEq, Eq, Structural)]
pub struct AstcBlockDim {
    pub x: usize,
    pub y: usize,
}

/// The channel layouts an ASTC texture can hold.
#[derive(Debug, Clone, Copy, PartialEq, Eq, Structural)]
pub enum AstcPixelFormat {
    LdrL,
    LdrA,
    LdrLA,
    LdrRG,
    LdrNormal,
    LdrRGB,
    LdrRGBA,
    HdrL,
    HdrRGB,
    HdrRGBA,
}

/// Encoder effort levels.
#[derive(Debug, Clone, Copy, PartialEq, Eq, Structural)]
pub enum AstcQuality {
    VeryFast,
    Fast,
    Medium,
    Thorough,
    Exhaustive,
}

/// ASTC compression.
pub struct AstcCompressor;

/// A block dimension clamped to 4..=12.
pub open spec fn clamp_dim(v: usize) -> usize {
    if v < 4 {
        4
    } else if v > 12 {
        12
    } else {
        v
    }
}

/// The dimension a text stands for: its decimal value clamped to 4..=12, 4
/// when it is not a number.
pub open spec fn parse_dim(s: Seq<char>) -> usize {
    clamp_dim(
        match decimal_usize(s) {
            Some(v) => v,
            None => 4,
        },
    )
}

/// The block footprint a text such as "6x6" stands for; 4x4 unless the text
/// holds exactly one `x`.
pub open spec fn block_dim_of(s: Seq<char>) -> AstcBlockDim {
    let parts = split_chars(s, 'x');
    if parts.len() == 2 {
        AstcBlockDim { x: parse_dim(parts[0]), y: parse_dim(parts[1]) }
    } else {
        AstcBlockDim { x: 4, y: 4 }
    }
}

fn parse_dim_exec(s: &Vec<char>) -> (r: usize)
    ensures
        r == parse_dim(s@),
{
    let v = match parse_usize(s) {
        Some(v) => v,
        None => 4,
    };
    if v < 4 {
        4
    } else if v > 12 {
        12
    } else {
        v
    }
}

impl AstcBlockDim {
    /// The footprint named by `s` ("WxH"), each side clamped to 4..=12 and 4
    /// where it is not a number; 4x4 unless `s` holds exactly one `x`.
    pub fn parse(s: &str) -> (r: Self)
        ensures
            r == block_dim_of(s@),
    {
        let chars = chars_of(s);
        let parts = split(&chars, 'x');
        proof {
            assert(parts@.map_values(|p: Vec<char>| p@).len() == parts@.len());
        }
        if parts.len() == 2 {
            proof {
                let pv = parts@.map_values(|p: Vec<char>| p@);
                assert(pv[0] == parts@[0]@ && pv[1] == parts@[1]@);
            }
            AstcBlockDim { x: parse_dim_exec(&parts[0]), y: parse_dim_exec(&parts[1]) }
        } else {
            AstcBlockDim { x: 4, y: 4 }
        }
    }
}

/// The smaller of two bytes.
pub open spec fn min_u8(a: u8, b: u8) -> u8 {
    if b < a {
        b
    } else {
        a
    }
}

/// The larger of two bytes.
pub open spec fn max_u8(a: u8, b: u8) -> u8 {
    if b > a {
        b
    } else {
        a
    }
}

/// The minimum of channel `c` over the first `n` pixels (255 for none).
pub open spec fn chan_min(px: Seq<u8>, c: int, n: int) -> u8
    decreases n,
{
    if n <= 0 {
        255
    } else {
        min_u8(chan_min(px, c, n - 1), px[4 * (n - 1) + c])
    }
}

/// The maximum of channel `c` over the first `n` pixels (0 for none).
pub open spec fn chan_max(px: Seq<u8>, c: int, n: int) -> u8
    decreases n,
{
    if n <= 0 {
        0
    } else {
        max_u8(chan_max(px, c, n - 1), px[4 * (n - 1) + c])
    }
}

/// The colour endpoint mode, the two endpoints and the number of endpoint
/// bytes for a format, from the per-channel minima and maxima.
pub open spec fn astc_endpoints(format: AstcPixelFormat, mn: Seq<u8>, mx: Seq<u8>) -> (
    u64,
    Seq<u8>,
    Seq<u8>,
    int,
) {
    match format {
        AstcPixelFormat::LdrL => (0u64, seq![mn[0], 0u8, 0u8, 0u8], seq![mx[0], 0u8, 0u8, 0u8], 2),
        AstcPixelFormat::LdrA => (0u64, seq![mn[3], 0u8, 0u8, 0u8], seq![mx[3], 0u8, 0u8, 0u8], 2),
        AstcPixelFormat::LdrLA => (4u64, seq![mn[0], mn[3], 0u8, 0u8], seq![mx[0], mx[3], 0u8, 0u8], 4),
        AstcPixelFormat::LdrRGB => (
            8u64,
            seq![mn[0], mn[1], mn[2], 0u8],
            seq![mx[0], mx[1], mx[2], 0u8],
            6,
        ),
        _ => (12u64, mn, mx, 8),
    }
}

/// The span of channel `c` (at least 1).
pub open spec fn chan_span(mn: Seq<u8>, mx: Seq<u8>, c: int) -> int {
    if mx[c] - mn[c] > 1 {
        mx[c] - mn[c]
    } else {
        1
    }
}

/// The 0..=15 position of a sample's channel `c` between its endpoints
/// (before clamping).
pub open spec fn chan_weight(px: Seq<u8>, off: int, mn: Seq<u8>, mx: Seq<u8>, c: int) -> int {
    (px[off + c] - mn[c]) * 15 / chan_span(mn, mx, c)
}

/// A weight clamped to 0..=15.
pub open spec fn clamp15(v: int) -> u8 {
    if v < 0 {
        0
    } else if v > 15 {
        15
    } else {
        v as u8
    }
}

/// The source coordinate that weight-grid column (or row) `w` of 4 samples
/// in a block side of `d` pixels.
pub open spec fn grid_sample(w: int, d: int) -> int {
    if w * d / 4 < d - 1 {
        w * d / 4
    } else {
        d - 1
    }
}

/// The weight of grid point (`wx`, `wy`).
pub open spec fn astc_weight(
    px: Seq<u8>,
    dim: AstcBlockDim,
    format: AstcPixelFormat,
    mn: Seq<u8>,
    mx: Seq<u8>,
    wy: int,
    wx: int,
) -> u8 {
    let off = (grid_sample(wy, dim.y as int) * dim.x + grid_sample(wx, dim.x as int)) * 4;
    let wr = chan_weight(px, off, mn, mx, 0);
    let wg = chan_weight(px, off, mn, mx, 1);
    let wb = chan_weight(px, off, mn, mx, 2);
    let wa = chan_weight(px, off, mn, mx, 3);
    match format {
        AstcPixelFormat::LdrL => clamp15(wr),
        AstcPixelFormat::LdrA => clamp15(wa),
        AstcPixelFormat::LdrLA => clamp15((wr + wa) / 2),
        _ => clamp15((wr + wg + wb + wa + 2) / 4),
    }
}

/// The endpoint bits: byte `i` of the first endpoint at byte `i`, byte `i`
/// of the second at byte `half + i`, for the first `i` bytes of each.
pub open spec fn ep_bits(ep0: Seq<u8>, ep1: Seq<u8>, half: int, i: int) -> u64
    decreases i,
{
    if i <= 0 {
        0
    } else {
        ep_bits(ep0, ep1, half, i - 1) | ((ep0[i - 1] as u64) << ((i - 1) * 8) as u64) | ((ep1[i
            - 1] as u64) << ((half + i - 1) * 8) as u64)
    }
}

/// The first `i` weights packed 4 bits each, weight 0 lowest.
pub open spec fn weight_bits(ws: Seq<u8>, i: int) -> u64
    decreases i,
{
    if i <= 0 {
        0
    } else {
        weight_bits(ws, i - 1) | (((ws[i - 1] as u64) & 0x0Fu64) << ((i - 1) * 4) as u64)
    }
}

/// The per-channel minima of a block.
pub open spec fn block_mins(px: Seq<u8>, n: int) -> Seq<u8> {
    seq![chan_min(px, 0, n), chan_min(px, 1, n), chan_min(px, 2, n), chan_min(px, 3, n)]
}

/// The per-channel maxima of a block.
pub open spec fn block_maxs(px: Seq<u8>, n: int) -> Seq<u8> {
    seq![chan_max(px, 0, n), chan_max(px, 1, n), chan_max(px, 2, n), chan_max(px, 3, n)]
}

/// The 16 weights of a block, row by row.
pub open spec fn block_weights(px: Seq<u8>, dim: AstcBlockDim, format: AstcPixelFormat) -> Seq<u8> {
    let n = (dim.x * dim.y) as int;
    Seq::new(
        16,
        |i: int| astc_weight(px, dim, format, block_mins(px, n), block_maxs(px, n), i / 4, i % 4),
    )
}

/// The 16 bytes of a block: the low and high 64-bit halves, little-endian.
/// The low half holds the 4x4 grid mode, the colour endpoint mode at bit 13
/// and the endpoints from bit 17; the high half the endpoint bits past the
/// low half and the weights from bit 16.
pub open spec fn astc_block(px: Seq<u8>, dim: AstcBlockDim, format: AstcPixelFormat) -> Seq<u8> {
    let n = (dim.x * dim.y) as int;
    let e = astc_endpoints(format, block_mins(px, n), block_maxs(px, n));
    let eb = ep_bits(e.1, e.2, e.3 / 2, e.3 / 2);
    let wb = weight_bits(block_weights(px, dim, format), 16);
    let low = ((0u64 | (0x01u64 & 0x7FFu64)) | ((e.0 & 0x0Fu64) << 13u64)) | (eb << 17u64);
    let high = (0u64 | (eb >> 47u64)) | (wb << 16u64);
    le_bytes_u64(low) + le_bytes_u64(high)
}

/// `v` limited to the last index below `limit`.
pub open spec fn clamp_coord(v: int, limit: int) -> int {
    if v < limit - 1 {
        v
    } else {
        limit - 1
    }
}

/// The pixels of block (`bx`, `by`) of a row-major RGBA8 image, row by row,
/// with coordinates past the right or bottom edge replaced by the last
/// column or row.
pub open spec fn gather_block(
    src: Seq<u8>,
    width: int,
    height: int,
    dim: AstcBlockDim,
    bx: int,
    by: int,
) -> Seq<u8> {
    Seq::new(
        (dim.x * dim.y * 4) as nat,
        |k: int|
            {
                let p = k / 4;
                let cy = clamp_coord(by * dim.y + p / (dim.x as int), height);
                let cx = clamp_coord(bx * dim.x + p % (dim.x as int), width);
                src[(cy * width + cx) * 4 + k % 4]
            },
    )
}

/// The coded blocks 0..`count` of block row `by`, in order.
pub open spec fn block_row(
    src: Seq<u8>,
    width: int,
    height: int,
    dim: AstcBlockDim,
    format: AstcPixelFormat,
    by: int,
    count: int,
) -> Seq<u8>
    decreases count,
{
    if count <= 0 {
        Seq::empty()
    } else {
        block_row(src, width, height, dim, format, by, count - 1) + astc_block(
            gather_block(src, width, height, dim, count - 1, by),
            dim,
            format,
        )
    }
}

/// The number of blocks needed to cover `v` pixels with blocks of `d`.
pub open spec fn blocks_for(v: int, d: int) -> int {
    (v + d - 1) / d
}

fn block_stats(px: &[u8], n: usize) -> (r: ([u8; 4], [u8; 4]))
    requires
        4 * n <= px@.len(),
    ensures
        r.0@ == block_mins(px@, n as int),
        r.1@ == block_maxs(px@, n as int),
{
    let len = px.len();
    let mut mn: [u8; 4] = [255, 255, 255, 255];
    let mut mx: [u8; 4] = [0, 0, 0, 0];
    let mut p: usize = 0;
    while p < n
        invariant
            p <= n,
            4 * n <= px@.len(),
            len == px@.len(),
            mn@ == block_mins(px@, p as int),
            mx@ == block_maxs(px@, p as int),
        decreases n - p,
    {
        let mut c: usize = 0;
        while c < 4
            invariant
                c <= 4,
                p < n,
                4 * n <= px@.len(),
                len == px@.len(),
                forall|k: int| 0 <= k < c ==> mn@[k] == chan_min(px@, k, p + 1),
                forall|k: int| c <= k < 4 ==> mn@[k] == chan_min(px@, k, p as int),
                forall|k: int| 0 <= k < c ==> mx@[k] == chan_max(px@, k, p + 1),
                forall|k: int| c <= k < 4 ==> mx@[k] == chan_max(px@, k, p as int),
            decreases 4 - c,
        {
            let v = px[4 * p + c];
            if v < mn[c] {
                mn[c] = v;
            }
            if v > mx[c] {
                mx[c] = v;
            }
            c = c + 1;
        }
        p = p + 1;
        assert(mn@ =~= block_mins(px@, p as int));
        assert(mx@ =~= block_maxs(px@, p as int));
    }
    (mn, mx)
}

fn channel_weight(px: &[u8], off: usize, mn: &[u8; 4], mx: &[u8; 4], c: usize) -> (r: i32)
    requires
        c < 4,
        off + 4 <= px@.len(),
        mn@[c as int] <= px@[off + c],
    ensures
        r == chan_weight(px@, off as int, mn@, mx@, c as int),
        0 <= r <= 15 * 255,
{
    let len = px.len();
    let d = mx[c] as i32 - mn[c] as i32;
    let span: i32 = if d > 1 {
        d
    } else {
        1
    };
    let num = (px[off + c] as i32 - mn[c] as i32) * 15;
    assert(num / span <= num) by (nonlinear_arith)
        requires
            num >= 0,
            span >= 1,
    ;
    num / span
}

fn clamp15_exec(v: i32) -> (r: u8)
    ensures
        r == clamp15(v as int),
{
    if v < 0 {
        0
    } else if v > 15 {
        15
    } else {
        v as u8
    }
}

/// Byte `k` of the endpoint bits of an encoded block, read from its bytes:
/// the endpoints start at bit 17 of the block.
pub open spec fn astc_endpoint_byte(r: Seq<u8>, k: int) -> u8 {
    (r[2 + k] >> 1u8) | ((r[3 + k] & 1u8) << 7u8)
}

/// Reading endpoint bytes back from the two little-endian halves of a
/// block whose low half holds the grid mode, the colour endpoint mode at
/// bit 13 and the endpoint bits from bit 17, and whose high half holds the
/// rest of the endpoint bits and the weights from bit 16: byte `k` (up to
/// 6) is byte `k` of the endpoint bits, which hold the `h` bytes of the
/// first endpoint and then the `h` bytes of the second.
proof fn lemma_endpoint_bytes(
    low: u64,
    high: u64,
    eb: u64,
    cem: u64,
    wb: u64,
    h: u64,
    e0: u8,
    e1: u8,
    e2: u8,
    e3: u8,
    f0: u8,
    f1: u8,
    f2: u8,
    f3: u8,
)
    by (bit_vector)
    requires
        1 <= h <= 4,
        h == 1 ==> eb == ((0u64 | ((e0 as u64) << 0u64)) | ((f0 as u64) << 8u64)),
        h == 2 ==> eb == ((((0u64 | ((e0 as u64) << 0u64)) | ((f0 as u64) << 16u64)) | ((e1
            as u64) << 8u64)) | ((f1 as u64) << 24u64)),
        h == 3 ==> eb == ((((((0u64 | ((e0 as u64) << 0u64)) | ((f0 as u64) << 24u64)) | ((e1
            as u64) << 8u64)) | ((f1 as u64) << 32u64)) | ((e2 as u64) << 16u64)) | ((f2 as u64)
            << 40u64)),
        h == 4 ==> eb == ((((((((0u64 | ((e0 as u64) << 0u64)) | ((f0 as u64) << 32u64)) | ((e1
            as u64) << 8u64)) | ((f1 as u64) << 40u64)) | ((e2 as u64) << 16u64)) | ((f2 as u64)
            << 48u64)) | ((e3 as u64) << 24u64)) | ((f3 as u64) << 56u64)),
        low == ((0u64 | (0x01u64 & 0x7FFu64)) | ((cem & 0x0Fu64) << 13u64)) | (eb << 17u64),
        high == (0u64 | (eb >> 47u64)) | (wb << 16u64),
    ensures
        ((((low >> 16u64) & 0xffu64) as u8) >> 1u8) | (((((low >> 24u64) & 0xffu64) as u8)
            & 1u8) << 7u8) == e0,
        ((((low >> 24u64) & 0xffu64) as u8) >> 1u8) | (((((low >> 32u64) & 0xffu64) as u8)
            & 1u8) << 7u8) == (if h >= 2 {
            e1
        } else {
            f0
        }),
        h >= 2 ==> ((((low >> 32u64) & 0xffu64) as u8) >> 1u8) | (((((low >> 40u64) & 0xffu64)
            as u8) & 1u8) << 7u8) == (if h >= 3 {
            e2
        } else {
            f0
        }),
        h >= 2 ==> ((((low >> 40u64) & 0xffu64) as u8) >> 1u8) | (((((low >> 48u64) & 0xffu64)
            as u8) & 1u8) << 7u8) == (if h == 4 {
            e3
        } else if h == 3 {
            f0
        } else {
            f1
        }),
        h >= 3 ==> ((((low >> 48u64) & 0xffu64) as u8) >> 1u8) | (((((low >> 56u64) & 0xffu64)
            as u8) & 1u8) << 7u8) == (if h == 4 {
            f0
        } else {
            f1
        }),
        h >= 3 ==> ((((low >> 56u64) & 0xffu64) as u8) >> 1u8) | (((((high >> 0u64) & 0xffu64)
            as u8) & 1u8) << 7u8) == (if h == 4 {
            f1
        } else {
            f2
        }),
        h == 4 ==> ((((high >> 0u64) & 0xffu64) as u8) >> 1u8) | (((((high >> 8u64) & 0xffu64)
            as u8) & 1u8) << 7u8) == f2,
{
}

/// The endpoints an encoded block carries, read back from its bytes: the
/// first endpoint holds the per-channel minima of the block's pixels and
/// the second the maxima, in the channels of the format (luminance from
/// red, alpha, luminance and alpha, red green blue, or all four for the
/// other formats; there the last byte of the second endpoint shares a bit
/// with the weights and is left out).
pub proof fn lemma_astc_endpoints_are_min_max(px: Seq<u8>, dim: AstcBlockDim, format: AstcPixelFormat)
    ensures
        ({
            let n = (dim.x * dim.y) as int;
            let r = astc_block(px, dim, format);
            let mn = block_mins(px, n);
            let mx = block_maxs(px, n);
            match format {
                AstcPixelFormat::LdrL => astc_endpoint_byte(r, 0) == mn[0] && astc_endpoint_byte(r, 1)
                    == mx[0],
                AstcPixelFormat::LdrA => astc_endpoint_byte(r, 0) == mn[3] && astc_endpoint_byte(r, 1)
                    == mx[3],
                AstcPixelFormat::LdrLA => astc_endpoint_byte(r, 0) == mn[0] && astc_endpoint_byte(
                    r,
                    1,
                ) == mn[3] && astc_endpoint_byte(r, 2) == mx[0] && astc_endpoint_byte(r, 3) == mx[3],
                AstcPixelFormat::LdrRGB => astc_endpoint_byte(r, 0) == mn[0] && astc_endpoint_byte(
                    r,
                    1,
                ) == mn[1] && astc_endpoint_byte(r, 2) == mn[2] && astc_endpoint_byte(r, 3) == mx[0]
                    && astc_endpoint_byte(r, 4) == mx[1] && astc_endpoint_byte(r, 5) == mx[2],
                _ => astc_endpoint_byte(r, 0) == mn[0] && astc_endpoint_byte(r, 1) == mn[1]
                    && astc_endpoint_byte(r, 2) == mn[2] && astc_endpoint_byte(r, 3) == mn[3]
                    && astc_endpoint_byte(r, 4) == mx[0] && astc_endpoint_byte(r, 5) == mx[1]
                    && astc_endpoint_byte(r, 6) == mx[2],
            }
        }),
{
    let n = (dim.x * dim.y) as int;
    let mn = block_mins(px, n);
    let mx = block_maxs(px, n);
    let e = astc_endpoints(format, mn, mx);
    let h = e.3 / 2;
    let ep0 = e.1;
    let ep1 = e.2;
    let eb = ep_bits(ep0, ep1, h, h);
    let wb = weight_bits(block_weights(px, dim, format), 16);
    let low = ((0u64 | (0x01u64 & 0x7FFu64)) | ((e.0 & 0x0Fu64) << 13u64)) | (eb << 17u64);
    let high = (0u64 | (eb >> 47u64)) | (wb << 16u64);
    let r = astc_block(px, dim, format);
    assert(r == le_bytes_u64(low) + le_bytes_u64(high));
    assert(r[2] == ((low >> 16u64) & 0xffu64) as u8);
    assert(r[3] == ((low >> 24u64) & 0xffu64) as u8);
    assert(r[4] == ((low >> 32u64) & 0xffu64) as u8);
    assert(r[5] == ((low >> 40u64) & 0xffu64) as u8);
    assert(r[6] == ((low >> 48u64) & 0xffu64) as u8);
    assert(r[7] == ((low >> 56u64) & 0xffu64) as u8);
    assert(r[8] == ((high >> 0u64) & 0xffu64) as u8);
    assert(r[9] == ((high >> 8u64) & 0xffu64) as u8);
    reveal_with_fuel(ep_bits, 5);
    assert(ep_bits(ep0, ep1, h, 0) == 0u64);
    let hh = h as u64;
    assert(1 <= h <= 4);
    let (e0, e1, e2, e3) = (ep0[0], ep0[1], ep0[2], ep0[3]);
    let (f0, f1, f2, f3) = (ep1[0], ep1[1], ep1[2], ep1[3]);
    if h == 1 {
        assert(eb == ((0u64 | ((e0 as u64) << 0u64)) | ((f0 as u64) << 8u64)));
    } else if h == 2 {
        assert(eb == ((((0u64 | ((e0 as u64) << 0u64)) | ((f0 as u64) << 16u64)) | ((e1 as u64)
            << 8u64)) | ((f1 as u64) << 24u64)));
    } else if h == 3 {
        assert(eb == ((((((0u64 | ((e0 as u64) << 0u64)) | ((f0 as u64) << 24u64)) | ((e1 as u64)
            << 8u64)) | ((f1 as u64) << 32u64)) | ((e2 as u64) << 16u64)) | ((f2 as u64) << 40u64)));
    } else {
        assert(eb == ((((((((0u64 | ((e0 as u64) << 0u64)) | ((f0 as u64) << 32u64)) | ((e1
            as u64) << 8u64)) | ((f1 as u64) << 40u64)) | ((e2 as u64) << 16u64)) | ((f2 as u64)
            << 48u64)) | ((e3 as u64) << 24u64)) | ((f3 as u64) << 56u64)));
    }
    lemma_endpoint_bytes(low, high, eb, e.0, wb, hh, e0, e1, e2, e3, f0, f1, f2, f3);
}

/// The per-channel minima and maxima of a block bound every pixel of it.
pub proof fn lemma_block_min_max_bound(px: Seq<u8>, n: int, p: int, c: int)
    requires
        0 <= p < n,
        0 <= c < 4,
    ensures
        block_mins(px, n)[c] <= px[4 * p + c] <= block_maxs(px, n)[c],
{
    lemma_min_le_all(px, c, n, p);
    lemma_max_ge_all(px, c, n, p);
}

proof fn lemma_max_ge_all(px: Seq<u8>, c: int, n: int, p: int)
    requires
        0 <= p < n,
    ensures
        chan_max(px, c, n) >= px[4 * p + c],
    decreases n,
{
    if p < n - 1 {
        lemma_max_ge_all(px, c, n - 1, p);
    }
}

proof fn lemma_min_le_all(px: Seq<u8>, c: int, n: int, p: int)
    requires
        0 <= p < n,
    ensures
        chan_min(px, c, n) <= px[4 * p + c],
    decreases n,
{
    if p < n - 1 {
        lemma_min_le_all(px, c, n - 1, p);
    }
}

proof fn lemma_grid_sample(w: int, d: int)
    requires
        0 <= w < 4,
        1 <= d,
    ensures
        0 <= grid_sample(w, d) < d,
{
    assert(0 <= w * d / 4) by (nonlinear_arith)
        requires
            0 <= w,
            1 <= d,
    ;
}

fn weight_at(
    px: &[u8],
    dim: AstcBlockDim,
    format: AstcPixelFormat,
    mn: &[u8; 4],
    mx: &[u8; 4],
    wy: usize,
    wx: usize,
) -> (r: u8)
    requires
        1 <= dim.x,
        1 <= dim.y,
        px@.len() == dim.x * dim.y * 4,
        wy < 4,
        wx < 4,
        mn@ == block_mins(px@, (dim.x * dim.y) as int),
        mx@ == block_maxs(px@, (dim.x * dim.y) as int),
    ensures
        r == astc_weight(px@, dim, format, mn@, mx@, wy as int, wx as int),
{
    let len = px.len();
    assert(wy * dim.y <= len && wx * dim.x <= len && dim.x * dim.y <= len) by (nonlinear_arith)
        requires
            wy < 4,
            wx < 4,
            1 <= dim.x,
            1 <= dim.y,
            len == dim.x * dim.y * 4,
    ;
    let sy0 = wy * dim.y / 4;
    let sy = if sy0 < dim.y - 1 {
        sy0
    } else {
        dim.y - 1
    };
    let sx0 = wx * dim.x / 4;
    let sx = if sx0 < dim.x - 1 {
        sx0
    } else {
        dim.x - 1
    };
    proof {
        lemma_grid_sample(wy as int, dim.y as int);
        lemma_grid_sample(wx as int, dim.x as int);
        assert(sy * dim.x + sx < dim.x * dim.y) by (nonlinear_arith)
            requires
                sy < dim.y,
                sx < dim.x,
        ;
    }
    let p = sy * dim.x + sx;
    let off = p * 4;
    proof {
        let n = (dim.x * dim.y) as int;
        lemma_min_le_all(px@, 0, n, p as int);
        lemma_min_le_all(px@, 1, n, p as int);
        lemma_min_le_all(px@, 2, n, p as int);
        lemma_min_le_all(px@, 3, n, p as int);
    }
    let wr = channel_weight(px, off, mn, mx, 0);
    let wg = channel_weight(px, off, mn, mx, 1);
    let wb = channel_weight(px, off, mn, mx, 2);
    let wa = channel_weight(px, off, mn, mx, 3);
    match format {
        AstcPixelFormat::LdrL => clamp15_exec(wr),
        AstcPixelFormat::LdrA => clamp15_exec(wa),
        AstcPixelFormat::LdrLA => clamp15_exec((wr + wa) / 2),
        _ => clamp15_exec((wr + wg + wb + wa + 2) / 4),
    }
}

impl AstcCompressor {
    fn gather_block_pixels(
        src_rgba: &[u8],
        width: usize,
        height: usize,
        dim: AstcBlockDim,
        bx: usize,
        by: usize,
    ) -> (r: Vec<u8>)
        requires
            1 <= width,
            1 <= height,
            1 <= dim.x,
            1 <= dim.y,
            width * height * 4 <= src_rgba@.len(),
            dim.x * dim.y * 4 <= usize::MAX,
            bx * dim.x + dim.x <= usize::MAX,
            by * dim.y + dim.y <= usize::MAX,
        ensures
            r@ == gather_block(src_rgba@, width as int, height as int, dim, bx as int, by as int),
    {
        let ghost target = gather_block(
            src_rgba@,
            width as int,
            height as int,
            dim,
            bx as int,
            by as int,
        );
        let len = src_rgba.len();
        let mut out: Vec<u8> = Vec::new();
        let y_start = by * dim.y;
        let x_start = bx * dim.x;
        let mut y: usize = 0;
        while y < dim.y
            invariant
                y <= dim.y,
                1 <= width,
                1 <= height,
                1 <= dim.x,
                1 <= dim.y,
                len == src_rgba@.len(),
                width * height * 4 <= len,
                dim.x * dim.y * 4 <= usize::MAX,
                y_start == by * dim.y,
                x_start == bx * dim.x,
                bx * dim.x + dim.x <= usize::MAX,
                by * dim.y + dim.y <= usize::MAX,
                target == gather_block(src_rgba@, width as int, height as int, dim, bx as int, by as int),
                out@ == target.subrange(0, (y * dim.x * 4) as int),
            decreases dim.y - y,
        {
            let cy = if y_start + y < height - 1 {
                y_start + y
            } else {
                height - 1
            };
            let mut x: usize = 0;
            while x < dim.x
                invariant
                    x <= dim.x,
                    y < dim.y,
                    1 <= width,
                    1 <= height,
                    1 <= dim.x,
                    len == src_rgba@.len(),
                    width * height * 4 <= len,
                    dim.x * dim.y * 4 <= usize::MAX,
                    cy < height,
                    cy == clamp_coord(by * dim.y + y, height as int),
                    y_start == by * dim.y,
                    x_start == bx * dim.x,
                    bx * dim.x + dim.x <= usize::MAX,
                    target == gather_block(src_rgba@, width as int, height as int, dim, bx as int, by as int),
                    out@ == target.subrange(0, ((y * dim.x + x) * 4) as int),
                decreases dim.x - x,
            {
                let cx = if x_start + x < width - 1 {
                    x_start + x
                } else {
                    width - 1
                };
                proof {
                    assert((cy * width + cx) * 4 + 4 <= width * height * 4) by (nonlinear_arith)
                        requires
                            cy < height,
                            cx < width,
                    ;
                    assert((y * dim.x + x) * 4 + 4 <= dim.x * dim.y * 4) by (nonlinear_arith)
                        requires
                            y < dim.y,
                            x < dim.x,
                    ;
                }
                let off = (cy * width + cx) * 4;
                let ghost base = ((y * dim.x + x) * 4) as int;
                proof {
                    assert(0 <= y * dim.x) by (nonlinear_arith);
                    let p = y * dim.x + x;
                    let d = dim.x as int;
                    assert(p / d == y && p % d == x) by (nonlinear_arith)
                        requires
                            p == y * d + x,
                            0 <= x < d,
                            0 <= y,
                    ;
                    assert(cx == clamp_coord(bx * dim.x + x, width as int));
                    assert forall|k: int| base <= k < base + 4 implies #[trigger] target[k]
                        == src_rgba@[off as int + k - base] by {
                        assert(k / 4 == p && k % 4 == k - base);
                    }
                }
                let mut c: usize = 0;
                while c < 4
                    invariant
                        c <= 4,
                        off + 4 <= len,
                        len == src_rgba@.len(),
                        0 <= base,
                        base + 4 <= dim.x * dim.y * 4,
                        forall|k: int|
                            base <= k < base + 4 ==> #[trigger] target[k] == src_rgba@[off as int + k
                                - base],
                        target.len() == dim.x * dim.y * 4,
                        out@ == target.subrange(0, base + c),
                    decreases 4 - c,
                {
                    let ghost old_out = out@;
                    let v = src_rgba[off + c];
                    out.push(v);
                    assert(target[base + c] == v);
                    assert(old_out == target.subrange(0, base + c));
                    assert(out@ == old_out.push(v));
                    c = c + 1;
                }
                x = x + 1;
            }
            assert((y * dim.x + dim.x) * 4 == (y + 1) * dim.x * 4) by (nonlinear_arith);
            y = y + 1;
        }
        assert(dim.y * dim.x * 4 == dim.x * dim.y * 4) by (nonlinear_arith);
        assert(out@ =~= target);
        out
    }

    /// The 16 bytes of one block of `dim.x` x `dim.y` RGBA8 pixels (row by
    /// row): endpoints from the per-channel minima and maxima, and 4x4 grid
    /// weights sampled from the block.
    pub fn encode_astc_block(
        block_pixels: &[u8],
        dim: AstcBlockDim,
        format: AstcPixelFormat,
    ) -> (r: [u8; 16])
        requires
            1 <= dim.x,
            1 <= dim.y,
            block_pixels@.len() == dim.x * dim.y * 4,
        ensures
            r@ == astc_block(block_pixels@, dim, format),
    {
        let len = block_pixels.len();
        assert(dim.x * dim.y <= len) by (nonlinear_arith)
            requires
                len == dim.x * dim.y * 4,
        ;
        let n = dim.x * dim.y;
        let (mn, mx) = block_stats(block_pixels, n);
        let (cem, ep0, ep1, ep_bytes): (u64, [u8; 4], [u8; 4], usize) = match format {
            AstcPixelFormat::LdrL => (0, [mn[0], 0, 0, 0], [mx[0], 0, 0, 0], 2),
            AstcPixelFormat::LdrA => (0, [mn[3], 0, 0, 0], [mx[3], 0, 0, 0], 2),
            AstcPixelFormat::LdrLA => (4, [mn[0], mn[3], 0, 0], [mx[0], mx[3], 0, 0], 4),
            AstcPixelFormat::LdrRGB => (8, [mn[0], mn[1], mn[2], 0], [mx[0], mx[1], mx[2], 0], 6),
            _ => (12, mn, mx, 8),
        };
        let ghost e = astc_endpoints(format, mn@, mx@);
        assert(cem == e.0 && ep0@ =~= e.1 && ep1@ =~= e.2 && ep_bytes == e.3);
        let mut weights: Vec<u8> = Vec::new();
        let ghost target = block_weights(block_pixels@, dim, format);
        let mut i: usize = 0;
        while i < 16
            invariant
                i <= 16,
                1 <= dim.x,
                1 <= dim.y,
                block_pixels@.len() == dim.x * dim.y * 4,
                mn@ == block_mins(block_pixels@, (dim.x * dim.y) as int),
                mx@ == block_maxs(block_pixels@, (dim.x * dim.y) as int),
                target == block_weights(block_pixels@, dim, format),
                weights@ == target.subrange(0, i as int),
            decreases 16 - i,
        {
            let w = weight_at(block_pixels, dim, format, &mn, &mx, i / 4, i % 4);
            weights.push(w);
            i = i + 1;
            assert(weights@ =~= target.subrange(0, i as int));
        }
        assert(weights@ =~= target);
        let half = ep_bytes / 2;
        let mut eb: u64 = 0;
        let mut k: usize = 0;
        while k < half
            invariant
                k <= half,
                half <= 4,
                eb == ep_bits(ep0@, ep1@, half as int, k as int),
            decreases half - k,
        {
            eb = eb | ((ep0[k] as u64) << (k * 8) as u64);
            eb = eb | ((ep1[k] as u64) << ((half + k) * 8) as u64);
            k = k + 1;
        }
        let mut wb: u64 = 0;
        let mut j: usize = 0;
        while j < 16
            invariant
                j <= 16,
                weights@.len() == 16,
                wb == weight_bits(weights@, j as int),
            decreases 16 - j,
        {
            wb = wb | (((weights[j] as u64) & 0x0F) << (j * 4) as u64);
            j = j + 1;
        }
        let mut low: u64 = 0;
        let mut high: u64 = 0;
        low = low | (0x01 & 0x7FF);
        low = low | ((cem & 0x0F) << 13);
        low = low | (eb << 17);
        high = high | (eb >> 47);
        high = high | (wb << 16);
        let lo = le_u64_bytes(low);
        let hi = le_u64_bytes(high);
        let r: [u8; 16] = [
            lo[0],
            lo[1],
            lo[2],
            lo[3],
            lo[4],
            lo[5],
            lo[6],
            lo[7],
            hi[0],
            hi[1],
            hi[2],
            hi[3],
            hi[4],
            hi[5],
            hi[6],
            hi[7],
        ];
        assert(r@ =~= astc_block(block_pixels@, dim, format));
        r
    }

    /// The coded blocks of block row `by` of a row-major RGBA8 image, left to
    /// right (one row of the output of a whole-image compression).
    pub fn encode_block_row(
        src_rgba: &[u8],
        width: usize,
        height: usize,
        block_dim: AstcBlockDim,
        format: AstcPixelFormat,
        by: usize,
    ) -> (r: Vec<u8>)
        requires
            1 <= width,
            1 <= height,
            1 <= block_dim.x,
            1 <= block_dim.y,
            width * height * 4 <= src_rgba@.len(),
            block_dim.x * block_dim.y * 4 <= usize::MAX,
            width + block_dim.x <= usize::MAX,
            by * block_dim.y + block_dim.y <= usize::MAX,
        ensures
            r@ == block_row(
                src_rgba@,
                width as int,
                height as int,
                block_dim,
                format,
                by as int,
                blocks_for(width as int, block_dim.x as int),
            ),
    {
        let x_blocks = (width + block_dim.x - 1) / block_dim.x;
        let ghost d = block_dim.x as int;
        assert(x_blocks * d <= width + d - 1) by (nonlinear_arith)
            requires
                x_blocks == (width + d - 1) / d,
                d >= 1,
        ;
        let mut out: Vec<u8> = Vec::new();
        let mut bx: usize = 0;
        while bx < x_blocks
            invariant
                bx <= x_blocks,
                x_blocks == blocks_for(width as int, block_dim.x as int),
                x_blocks * block_dim.x <= width + block_dim.x - 1,
                1 <= width,
                1 <= height,
                1 <= block_dim.x,
                1 <= block_dim.y,
                width * height * 4 <= src_rgba@.len(),
                block_dim.x * block_dim.y * 4 <= usize::MAX,
                width + block_dim.x <= usize::MAX,
                by * block_dim.y + block_dim.y <= usize::MAX,
                out@ == block_row(
                    src_rgba@,
                    width as int,
                    height as int,
                    block_dim,
                    format,
                    by as int,
                    bx as int,
                ),
            decreases x_blocks - bx,
        {
            assert(bx * block_dim.x + block_dim.x <= x_blocks * block_dim.x) by (nonlinear_arith)
                requires
                    bx < x_blocks,
            ;
            let pixels = Self::gather_block_pixels(src_rgba, width, height, block_dim, bx, by);
            let block = Self::encode_astc_block(pixels.as_slice(), block_dim, format);
            crate::byteio::push_all(&mut out, &block);
            bx = bx + 1;
        }
        out
    }
}

} // verus!
