//! BC3 / DXT5 interpolated alpha blocks: codebooks, index fitting, packing.

use vstd::prelude::*;

verus! {

/// Whether pixel `i` of a 4x4 block is selected by `mask`.
pub open spec fn mask_bit(mask: u16, i: int) -> bool {
    (mask >> (i as u16)) & 1u16 == 1u16
}

/// Exec form of [`mask_bit`].
pub fn pixel_selected(mask: u16, i: usize) -> (r: bool)
    requires
        i < 16,
    ensures
        r == mask_bit(mask, i as int),
{
    let b = i as u16;
    assert((mask & (1u16 << b) != 0u16) == ((mask >> b) & 1u16 == 1u16)) by (bit_vector)
        requires
            b < 16,
    ;
    (mask & (1u16 << b)) != 0
}

/// Squared distance between two integers.
pub open spec fn sq_dist(a: int, b: int) -> int {
    (a - b) * (a - b)
}

/// Smallest squared distance from `v` to the first `n` codes (n >= 1).
pub open spec fn min_dist(v: int, codes: Seq<int>, n: int) -> int
    decreases n,
{
    if n <= 1 {
        sq_dist(v, codes[0])
    } else {
        let prev = min_dist(v, codes, n - 1);
        let d = sq_dist(v, codes[n - 1]);
        if d < prev {
            d
        } else {
            prev
        }
    }
}

/// `j` is the first of the first `n` codes that is nearest to `v`.
pub open spec fn is_first_nearest(v: int, codes: Seq<int>, n: int, j: int) -> bool {
    &&& 0 <= j < n
    &&& sq_dist(v, codes[j]) == min_dist(v, codes, n)
    &&& forall|k: int| 0 <= k < j ==> sq_dist(v, codes[k]) > min_dist(v, codes, n)
}

/// Sum, over the selected pixels among the first `n`, of the squared distance
/// to the nearest code.
pub open spec fn masked_fit_error(vals: Seq<int>, mask: u16, codes: Seq<int>, n: int) -> int
    decreases n,
{
    if n <= 0 {
        0
    } else {
        masked_fit_error(vals, mask, codes, n - 1) + if mask_bit(mask, n - 1) {
            min_dist(vals[n - 1], codes, 8)
        } else {
            0
        }
    }
}

/// The codes of a block index assignment fitted to `vals`: unselected
/// pixels get index 0, selected ones the first nearest of the 8 codes.
pub open spec fn fits_codes(vals: Seq<int>, mask: u16, codes: Seq<int>, indices: Seq<u8>) -> bool {
    forall|i: int|
        0 <= i < 16 ==> if mask_bit(mask, i) {
            is_first_nearest(vals[i], codes, 8, indices[i] as int)
        } else {
            indices[i] == 0
        }
}

/// Widening of a byte sequence to integers.
pub open spec fn ints_u8(s: Seq<u8>) -> Seq<int> {
    s.map_values(|x: u8| x as int)
}

/// The 8-entry interpolated alpha palette (used when `a0 > a1`).
pub open spec fn codebook_8(a0: u8, a1: u8) -> Seq<u8> {
    let x = a0 as int;
    let y = a1 as int;
    seq![
        a0,
        a1,
        ((6 * x + y) / 7) as u8,
        ((5 * x + 2 * y) / 7) as u8,
        ((4 * x + 3 * y) / 7) as u8,
        ((3 * x + 4 * y) / 7) as u8,
        ((2 * x + 5 * y) / 7) as u8,
        ((x + 6 * y) / 7) as u8,
    ]
}

/// The 6-entry interpolated alpha palette plus the constants 0 and 255
/// (used when `a0 <= a1`).
pub open spec fn codebook_6(a0: u8, a1: u8) -> Seq<u8> {
    let x = a0 as int;
    let y = a1 as int;
    seq![
        a0,
        a1,
        ((4 * x + y) / 5) as u8,
        ((3 * x + 2 * y) / 5) as u8,
        ((2 * x + 3 * y) / 5) as u8,
        ((x + 4 * y) / 5) as u8,
        0u8,
        255u8,
    ]
}

/// Builds the 8-entry interpolated palette between `a0` and `a1`.
pub fn build_codebook_8(a0: u8, a1: u8) -> (r: [u8; 8])
    ensures
        r@ == codebook_8(a0, a1),
{
    let a0 = a0 as i32;
    let a1 = a1 as i32;
    let r = [
        a0 as u8,
        a1 as u8,
        ((6 * a0 + a1) / 7) as u8,
        ((5 * a0 + 2 * a1) / 7) as u8,
        ((4 * a0 + 3 * a1) / 7) as u8,
        ((3 * a0 + 4 * a1) / 7) as u8,
        ((2 * a0 + 5 * a1) / 7) as u8,
        ((a0 + 6 * a1) / 7) as u8,
    ];
    assert(r@ =~= codebook_8(a0 as u8, a1 as u8));
    r
}

/// Builds the 6-entry interpolated palette between `a0` and `a1`, followed
/// by the constants 0 and 255.
pub fn build_codebook_6(a0: u8, a1: u8) -> (r: [u8; 8])
    ensures
        r@ == codebook_6(a0, a1),
{
    let a0 = a0 as i32;
    let a1 = a1 as i32;
    let r = [
        a0 as u8,
        a1 as u8,
        ((4 * a0 + a1) / 5) as u8,
        ((3 * a0 + 2 * a1) / 5) as u8,
        ((2 * a0 + 3 * a1) / 5) as u8,
        ((a0 + 4 * a1) / 5) as u8,
        0,
        255,
    ];
    assert(r@ =~= codebook_6(a0 as u8, a1 as u8));
    r
}

/// Index of the first code nearest to `val`, with its squared distance.
fn nearest_code_u8(val: u8, codes: &[u8; 8]) -> (r: (u8, u32))
    ensures
        is_first_nearest(val as int, ints_u8(codes@), 8, r.0 as int),
        r.1 as int == min_dist(val as int, ints_u8(codes@), 8),
{
    let ghost c = ints_u8(codes@);
    let v = val as i32;
    let mut min_d = i32::MAX;
    let mut best_idx = 0u8;
    let mut j: usize = 0;
    while j < 8
        invariant
            j <= 8,
            c == ints_u8(codes@),
            v == val,
            j == 0 ==> min_d == i32::MAX && best_idx == 0,
            j > 0 ==> is_first_nearest(v as int, c, j as int, best_idx as int),
            j > 0 ==> min_d as int == min_dist(v as int, c, j as int),
            j > 0 ==> 0 <= min_d <= 65025,
        decreases 8 - j,
    {
        let diff = v - (codes[j] as i32);
        assert(-255 <= diff <= 255);
        assert(0 <= diff * diff <= 65025) by (nonlinear_arith)
            requires
                -255 <= diff <= 255,
        ;
        let dist = diff * diff;
        assert(c[j as int] == codes@[j as int] as int);
        assert forall|k: int| 0 <= k < j implies sq_dist(v as int, c[k]) >= min_dist(
            v as int,
            c,
            j as int,
        ) by {
            lemma_min_dist_le(v as int, c, j as int, k);
        }
        if dist < min_d {
            min_d = dist;
            best_idx = j as u8;
        }
        assert(min_dist(v as int, c, j + 1) == if j == 0 {
            sq_dist(v as int, c[0])
        } else {
            let p = min_dist(v as int, c, j as int);
            if sq_dist(v as int, c[j as int]) < p {
                sq_dist(v as int, c[j as int])
            } else {
                p
            }
        });
        j += 1;
    }
    (best_idx, min_d as u32)
}

/// Fits every selected pixel to its nearest code; returns the total squared error.
pub fn fit_codes(alphas: &[u8; 16], mask: u16, codes: &[u8; 8], indices: &mut [u8; 16]) -> (r:
    u32)
    ensures
        fits_codes(ints_u8(alphas@), mask, ints_u8(codes@), final(indices)@),
        r as int == masked_fit_error(ints_u8(alphas@), mask, ints_u8(codes@), 16),
{
    let ghost vals = ints_u8(alphas@);
    let ghost c = ints_u8(codes@);
    let mut total_error = 0u32;
    let mut i: usize = 0;
    while i < 16
        invariant
            i <= 16,
            indices@.len() == 16,
            vals == ints_u8(alphas@),
            c == ints_u8(codes@),
            total_error as int == masked_fit_error(vals, mask, c, i as int),
            0 <= total_error <= 65025 * i,
            forall|k: int|
                0 <= k < i ==> if mask_bit(mask, k) {
                    is_first_nearest(vals[k], c, 8, indices@[k] as int)
                } else {
                    indices@[k] == 0
                },
        decreases 16 - i,
    {
        if !pixel_selected(mask, i) {
            indices[i] = 0;
        } else {
            let (best_idx, min_dist_v) = nearest_code_u8(alphas[i], codes);
            assert(vals[i as int] == alphas@[i as int] as int);
            indices[i] = best_idx;
            assert(min_dist_v <= 65025) by {
                assert(min_dist(vals[i as int], c, 8) <= sq_dist(vals[i as int], c[0]));
                lemma_min_dist_le(vals[i as int], c, 8, 0);
                assert(-255 <= vals[i as int] - c[0] <= 255);
                assert(sq_dist(vals[i as int], c[0]) <= 65025) by (nonlinear_arith)
                    requires
                        -255 <= vals[i as int] - c[0] <= 255,
                ;
            }
            total_error += min_dist_v;
        }
        i += 1;
    }
    total_error
}

/// The minimum over the first `n` codes is at most the distance to any of them.
pub proof fn lemma_min_dist_le(v: int, codes: Seq<int>, n: int, k: int)
    requires
        0 <= k < n,
    ensures
        min_dist(v, codes, n) <= sq_dist(v, codes[k]),
    decreases n,
{
    if n > 1 && k < n - 1 {
        lemma_min_dist_le(v, codes, n - 1, k);
    }
}

/// If `j` and `k` are both the first nearest code, they are the same index.
pub proof fn lemma_first_nearest_unique(v: int, codes: Seq<int>, n: int, j: int, k: int)
    requires
        is_first_nearest(v, codes, n, j),
        is_first_nearest(v, codes, n, k),
    ensures
        j == k,
{
}

/// The 3-bit fields `ix[base]`, ..., `ix[base + n - 1]` packed from bit 0 upwards.
pub open spec fn pack3(ix: Seq<u8>, base: int, n: int) -> u32
    decreases n,
{
    if n <= 0 {
        0
    } else {
        pack3(ix, base, n - 1) | (((ix[base + n - 1] & 7u8) as u32) << ((3 * (n - 1)) as u32))
    }
}

/// Byte 0 (little-endian) of `v`.
pub open spec fn byte0(v: u32) -> u8 {
    (v & 0xffu32) as u8
}

/// Byte 1 (little-endian) of `v`.
pub open spec fn byte1(v: u32) -> u8 {
    ((v >> 8u32) & 0xffu32) as u8
}

/// Byte 2 (little-endian) of `v`.
pub open spec fn byte2(v: u32) -> u8 {
    ((v >> 16u32) & 0xffu32) as u8
}

/// The 8 bytes of a BC3 alpha block with endpoints `a0`, `a1` and 3-bit indices `ix`.
pub open spec fn encode_alpha_bc3(a0: u8, a1: u8, ix: Seq<u8>) -> Seq<u8> {
    let v0 = pack3(ix, 0, 8);
    let v1 = pack3(ix, 8, 8);
    seq![
        a0,
        a1,
        byte0(v0),
        byte1(v0),
        byte2(v0),
        byte0(v1),
        byte1(v1),
        byte2(v1),
    ]
}

/// The 24-bit little-endian value stored in bytes `k`, `k + 1`, `k + 2` of `b`.
pub open spec fn le24(b: Seq<u8>, k: int) -> u32 {
    (b[k] as u32) | ((b[k + 1] as u32) << 8u32) | ((b[k + 2] as u32) << 16u32)
}

/// The 16 3-bit indices stored in bytes 2..8 of a BC3 alpha block.
pub open spec fn decode_indices_bc3(b: Seq<u8>) -> Seq<u8> {
    Seq::new(
        16,
        |i: int|
            if i < 8 {
                ((le24(b, 2) >> ((3 * i) as u32)) & 7u32) as u8
            } else {
                ((le24(b, 5) >> ((3 * (i - 8)) as u32)) & 7u32) as u8
            },
    )
}

/// Writes a BC3 alpha block: the two endpoints, then the 16 indices packed
/// 3 bits each (only the low 3 bits of each index are kept).
pub fn write_alpha_block_bc3(alpha0: u8, alpha1: u8, indices: &[u8; 16], block: &mut [u8; 8])
    ensures
        final(block)@ == encode_alpha_bc3(alpha0, alpha1, indices@),
{
    block[0] = alpha0;
    block[1] = alpha1;

    let mut val0: u32 = 0;
    let mut j: usize = 0;
    assert((1u32 << 0u32) == 1u32) by (bit_vector);
    while j < 8
        invariant
            j <= 8,
            val0 == pack3(indices@, 0, j as int),
            val0 < (1u32 << (3 * j) as u32),
        decreases 8 - j,
    {
        let idx = indices[j];
        let sh = (3 * j) as u32;
        let v = val0;
        assert(v | (((idx & 7u8) as u32) << sh) < (1u32 << (sh + 3))) by (bit_vector)
            requires
                sh <= 21,
                v < (1u32 << sh),
        ;
        val0 |= ((idx & 0x07) as u32) << sh;
        j += 1;
    }
    block[2] = (val0 & 0xFF) as u8;
    block[3] = ((val0 >> 8) & 0xFF) as u8;
    block[4] = ((val0 >> 16) & 0xFF) as u8;

    let mut val1: u32 = 0;
    let mut j: usize = 0;
    assert((1u32 << 0u32) == 1u32) by (bit_vector);
    while j < 8
        invariant
            j <= 8,
            val1 == pack3(indices@, 8, j as int),
            val1 < (1u32 << (3 * j) as u32),
            block@[0] == alpha0,
            block@[1] == alpha1,
            block@[2] == byte0(val0),
            block@[3] == byte1(val0),
            block@[4] == byte2(val0),
            val0 == pack3(indices@, 0, 8),
        decreases 8 - j,
    {
        let idx = indices[8 + j];
        let sh = (3 * j) as u32;
        let v = val1;
        assert(v | (((idx & 7u8) as u32) << sh) < (1u32 << (sh + 3))) by (bit_vector)
            requires
                sh <= 21,
                v < (1u32 << sh),
        ;
        val1 |= ((idx & 0x07) as u32) << sh;
        j += 1;
    }
    block[5] = (val1 & 0xFF) as u8;
    block[6] = ((val1 >> 8) & 0xFF) as u8;
    block[7] = ((val1 >> 16) & 0xFF) as u8;
    assert(block@ =~= encode_alpha_bc3(alpha0, alpha1, indices@));
}

/// Reads a BC3 alpha block: the two endpoints and the 16 3-bit indices.
pub fn read_alpha_block_bc3(block: &[u8; 8]) -> (r: (u8, u8, [u8; 16]))
    ensures
        r.0 == block@[0],
        r.1 == block@[1],
        r.2@ == decode_indices_bc3(block@),
{
    let alpha0 = block[0];
    let alpha1 = block[1];
    let mut indices = [0u8; 16];

    let val0 = (block[2] as u32) | ((block[3] as u32) << 8) | ((block[4] as u32) << 16);
    let val1 = (block[5] as u32) | ((block[6] as u32) << 8) | ((block[7] as u32) << 16);
    assert(val0 == le24(block@, 2));
    assert(val1 == le24(block@, 5));

    let mut j: usize = 0;
    while j < 8
        invariant
            j <= 8,
            val0 == le24(block@, 2),
            val1 == le24(block@, 5),
            forall|k: int|
                #![trigger indices@[k]]
                0 <= k < j ==> indices@[k] == decode_indices_bc3(block@)[k],
            forall|k: int|
                #![trigger indices@[k]]
                8 <= k < 8 + j ==> indices@[k] == decode_indices_bc3(block@)[k],
        decreases 8 - j,
    {
        indices[j] = ((val0 >> (3 * j) as u32) & 0x07) as u8;
        indices[8 + j] = ((val1 >> (3 * j) as u32) & 0x07) as u8;
        j += 1;
    }
    assert(indices@ =~= decode_indices_bc3(block@)) by {
        assert forall|i: int| 0 <= i < 16 implies indices@[i] == decode_indices_bc3(block@)[i] by {
        }
    }
    (alpha0, alpha1, indices)
}

/// The closed form of the 8-field packing.
proof fn lemma_pack3_closed(ix: Seq<u8>, base: int)
    ensures
        pack3(ix, base, 8) == ((ix[base] & 7u8) as u32) | (((ix[base + 1] & 7u8) as u32) << 3u32)
            | (((ix[base + 2] & 7u8) as u32) << 6u32) | (((ix[base + 3] & 7u8) as u32) << 9u32)
            | (((ix[base + 4] & 7u8) as u32) << 12u32) | (((ix[base + 5] & 7u8) as u32) << 15u32)
            | (((ix[base + 6] & 7u8) as u32) << 18u32) | (((ix[base + 7] & 7u8) as u32) << 21u32),
{
    reveal_with_fuel(pack3, 9);
    assert forall|t: u32| (0u32 | (t << 0u32)) == t by {
        assert((0u32 | (t << 0u32)) == t) by (bit_vector);
    }
}

/// Unpacking the bytes of packed 3-bit fields gives back each field.
proof fn lemma_unpack3(ix: Seq<u8>, base: int, j: int)
    requires
        0 <= j < 8,
    ensures
        ((le24(
            seq![byte0(pack3(ix, base, 8)), byte1(pack3(ix, base, 8)), byte2(pack3(ix, base, 8))],
            0,
        ) >> ((3 * j) as u32)) & 7u32) as u8 == ix[base + j] & 7u8,
{
    lemma_pack3_closed(ix, base);
    let v = pack3(ix, base, 8);
    let s = seq![byte0(v), byte1(v), byte2(v)];
    let (t0, t1, t2, t3) = (ix[base] & 7u8, ix[base + 1] & 7u8, ix[base + 2] & 7u8, ix[base + 3] & 7u8);
    let (t4, t5, t6, t7) = (
        ix[base + 4] & 7u8,
        ix[base + 5] & 7u8,
        ix[base + 6] & 7u8,
        ix[base + 7] & 7u8,
    );
    let (b0, b1, b2) = (byte0(v), byte1(v), byte2(v));
    let w = (b0 as u32) | ((b1 as u32) << 8u32) | ((b2 as u32) << 16u32);
    assert(le24(s, 0) == w);
    assert(v == (t0 as u32) | ((t1 as u32) << 3u32) | ((t2 as u32) << 6u32) | ((t3 as u32) << 9u32)
        | ((t4 as u32) << 12u32) | ((t5 as u32) << 15u32) | ((t6 as u32) << 18u32) | ((t7 as u32)
        << 21u32));
    assert forall|x: u8| #![trigger x & 7u8] (x & 7u8) < 8 by {
        assert((x & 7u8) < 8) by (bit_vector);
    }
    let ju = j as u32;
    let jj = (3 * j) as u32;
    assert(((w >> jj) & 7u32) as u8 == if ju == 0 {
        t0
    } else if ju == 1 {
        t1
    } else if ju == 2 {
        t2
    } else if ju == 3 {
        t3
    } else if ju == 4 {
        t4
    } else if ju == 5 {
        t5
    } else if ju == 6 {
        t6
    } else {
        t7
    }) by (bit_vector)
        requires
            t0 < 8 && t1 < 8 && t2 < 8 && t3 < 8 && t4 < 8 && t5 < 8 && t6 < 8 && t7 < 8,
            v == (t0 as u32) | ((t1 as u32) << 3u32) | ((t2 as u32) << 6u32) | ((t3 as u32) << 9u32)
                | ((t4 as u32) << 12u32) | ((t5 as u32) << 15u32) | ((t6 as u32) << 18u32) | ((
            t7 as u32) << 21u32),
            b0 == (v & 0xffu32) as u8,
            b1 == ((v >> 8u32) & 0xffu32) as u8,
            b2 == ((v >> 16u32) & 0xffu32) as u8,
            w == (b0 as u32) | ((b1 as u32) << 8u32) | ((b2 as u32) << 16u32),
            jj == 3 * ju,
            ju < 8,
    ;
}

/// Reading back a written BC3 alpha block gives the endpoints and the low
/// 3 bits of every index.
pub proof fn lemma_bc3_alpha_roundtrip(a0: u8, a1: u8, ix: Seq<u8>)
    requires
        ix.len() == 16,
    ensures
        encode_alpha_bc3(a0, a1, ix)[0] == a0,
        encode_alpha_bc3(a0, a1, ix)[1] == a1,
        decode_indices_bc3(encode_alpha_bc3(a0, a1, ix)) == ix.map_values(|x: u8| x & 7u8),
{
    let b = encode_alpha_bc3(a0, a1, ix);
    assert forall|i: int| 0 <= i < 16 implies decode_indices_bc3(b)[i] == ix[i] & 7u8 by {
        let v0 = pack3(ix, 0, 8);
        let v1 = pack3(ix, 8, 8);
        if i < 8 {
            lemma_unpack3(ix, 0, i);
            assert(le24(b, 2) == le24(seq![byte0(v0), byte1(v0), byte2(v0)], 0));
        } else {
            lemma_unpack3(ix, 8, i - 8);
            assert(le24(b, 5) == le24(seq![byte0(v1), byte1(v1), byte2(v1)], 0));
        }
    }
    assert(decode_indices_bc3(b) =~= ix.map_values(|x: u8| x & 7u8));
}

/// The palette that a BC3 alpha block with endpoints `a0`, `a1` decodes with.
pub open spec fn alpha_palette(a0: u8, a1: u8) -> Seq<u8> {
    if a0 > a1 {
        codebook_8(a0, a1)
    } else {
        codebook_6(a0, a1)
    }
}

/// The 16 alpha values a BC3 alpha block decodes to.
pub open spec fn decode_alpha_bc3(b: Seq<u8>) -> Seq<u8> {
    Seq::new(16, |i: int| alpha_palette(b[0], b[1])[decode_indices_bc3(b)[i] as int])
}

/// Decodes a BC3 alpha block into 16 alpha values.
pub fn decompress_alpha_bc3(block: &[u8; 8], out: &mut [u8; 16])
    ensures
        final(out)@ == decode_alpha_bc3(block@),
{
    let (alpha0, alpha1, indices) = read_alpha_block_bc3(block);
    let codes = if alpha0 > alpha1 {
        build_codebook_8(alpha0, alpha1)
    } else {
        build_codebook_6(alpha0, alpha1)
    };
    let mut i: usize = 0;
    while i < 16
        invariant
            i <= 16,
            out@.len() == 16,
            indices@ == decode_indices_bc3(block@),
            codes@ == alpha_palette(block@[0], block@[1]),
            forall|k: int| 0 <= k < i ==> out@[k] == decode_alpha_bc3(block@)[k],
        decreases 16 - i,
    {
        let ix = indices[i];
        assert(ix < 8) by {
            let w = if i < 8 { le24(block@, 2) } else { le24(block@, 5) };
            let sh = if i < 8 { (3 * i) as u32 } else { (3 * (i - 8)) as u32 };
            assert((((w >> sh) & 7u32) as u8) < 8) by (bit_vector);
        }
        out[i] = codes[ix as usize];
        i += 1;
    }
    assert(out@ =~= decode_alpha_bc3(block@));
}

/// Endpoint statistics over the selected pixels among the first `n`:
/// (min, max, min ignoring 0, max ignoring 255), starting from (255, 0, 255, 0).
pub open spec fn alpha_stats(a: Seq<u8>, mask: u16, n: int) -> (u8, u8, u8, u8)
    decreases n,
{
    if n <= 0 {
        (255u8, 0u8, 255u8, 0u8)
    } else {
        let (mn7, mx7, mn5, mx5) = alpha_stats(a, mask, n - 1);
        let v = a[n - 1];
        if !mask_bit(mask, n - 1) {
            (mn7, mx7, mn5, mx5)
        } else {
            (
                if v < mn7 {
                    v
                } else {
                    mn7
                },
                if v > mx7 {
                    v
                } else {
                    mx7
                },
                if v != 0 && v < mn5 {
                    v
                } else {
                    mn5
                },
                if v != 255 && v > mx5 {
                    v
                } else {
                    mx5
                },
            )
        }
    }
}

/// `block` is the BC3 alpha encoding of the selected pixels of `a`: of the
/// 8-step palette between the extreme values and the 6-step palette between
/// the extreme values other than 0 and 255, it uses the one with the smaller
/// total squared error (the 8-step one on ties), and stores for each selected
/// pixel the first nearest code of that palette (index 0 for the others).
pub open spec fn is_alpha_bc3_encoding(a: Seq<u8>, mask: u16, block: Seq<u8>) -> bool {
    let (mn7, mx7, mn5_raw, mx5) = alpha_stats(a, mask, 16);
    let mn5 = if mn5_raw > mx5 {
        mx5
    } else {
        mn5_raw
    };
    let c7 = ints_u8(codebook_8(mx7, mn7));
    let c5 = ints_u8(codebook_6(mn5, mx5));
    let err7 = masked_fit_error(ints_u8(a), mask, c7, 16);
    let err5 = masked_fit_error(ints_u8(a), mask, c5, 16);
    &&& block.len() == 8
    &&& if err7 <= err5 {
        &&& block[0] == mx7
        &&& block[1] == mn7
        &&& fits_codes(ints_u8(a), mask, c7, decode_indices_bc3(block))
    } else {
        &&& block[0] == mn5
        &&& block[1] == mx5
        &&& fits_codes(ints_u8(a), mask, c5, decode_indices_bc3(block))
    }
}

/// Compresses 16 alpha values (the pixels selected by `mask`) into a BC3 alpha block.
pub fn compress_alpha_bc3(alphas: &[u8; 16], mask: u16, _flags: u32, block: &mut [u8; 8])
    ensures
        is_alpha_bc3_encoding(alphas@, mask, final(block)@),
{
    let mut min7 = 255u8;
    let mut max7 = 0u8;
    let mut min5 = 255u8;
    let mut max5 = 0u8;
    let mut i: usize = 0;
    while i < 16
        invariant
            i <= 16,
            alpha_stats(alphas@, mask, i as int).0 == min7,
            alpha_stats(alphas@, mask, i as int).1 == max7,
            alpha_stats(alphas@, mask, i as int).2 == min5,
            alpha_stats(alphas@, mask, i as int).3 == max5,
        decreases 16 - i,
    {
        let val = alphas[i];
        if pixel_selected(mask, i) {
            if val < min7 {
                min7 = val;
            }
            if val > max7 {
                max7 = val;
            }
            if val != 0 && val < min5 {
                min5 = val;
            }
            if val != 255 && val > max5 {
                max5 = val;
            }
        }
        i += 1;
    }
    if min5 > max5 {
        min5 = max5;
    }
    let codes7 = build_codebook_8(max7, min7);
    let mut indices7 = [0u8; 16];
    let err7 = fit_codes(alphas, mask, &codes7, &mut indices7);

    let codes5 = build_codebook_6(min5, max5);
    let mut indices5 = [0u8; 16];
    let err5 = fit_codes(alphas, mask, &codes5, &mut indices5);

    if err7 <= err5 {
        write_alpha_block_bc3(max7, min7, &indices7, block);
        proof {
            lemma_bc3_alpha_roundtrip(max7, min7, indices7@);
            lemma_fitted_indices_below_8(ints_u8(alphas@), mask, ints_u8(codes7@), indices7@);
            assert(decode_indices_bc3(block@) =~= indices7@);
        }
    } else {
        write_alpha_block_bc3(min5, max5, &indices5, block);
        proof {
            lemma_bc3_alpha_roundtrip(min5, max5, indices5@);
            lemma_fitted_indices_below_8(ints_u8(alphas@), mask, ints_u8(codes5@), indices5@);
            assert(decode_indices_bc3(block@) =~= indices5@);
        }
    }
}

/// Fitted indices are below 8, so keeping their low 3 bits leaves them unchanged.
pub proof fn lemma_fitted_indices_below_8(vals: Seq<int>, mask: u16, codes: Seq<int>, ix: Seq<u8>)
    requires
        fits_codes(vals, mask, codes, ix),
        ix.len() == 16,
    ensures
        ix.map_values(|x: u8| x & 7u8) == ix,
{
    assert forall|i: int| 0 <= i < 16 implies ix[i] & 7u8 == ix[i] by {
        let x = ix[i];
        assert(x < 8);
        assert(x < 8 ==> x & 7u8 == x) by (bit_vector);
    }
    assert(ix.map_values(|x: u8| x & 7u8) =~= ix);
}

/// Sum of the squared differences between `a` and `d` over the selected pixels
/// among the first `n`.
pub open spec fn masked_sq_error(a: Seq<int>, mask: u16, d: Seq<int>, n: int) -> int
    decreases n,
{
    if n <= 0 {
        0
    } else {
        masked_sq_error(a, mask, d, n - 1) + if mask_bit(mask, n - 1) {
            sq_dist(a[n - 1], d[n - 1])
        } else {
            0
        }
    }
}

/// Every selected pixel lies between the minimum and maximum statistics.
pub proof fn lemma_alpha_stats_bounds(a: Seq<u8>, mask: u16, n: int, k: int)
    requires
        0 <= k < n,
        mask_bit(mask, k),
    ensures
        alpha_stats(a, mask, n).0 <= a[k] <= alpha_stats(a, mask, n).1,
    decreases n,
{
    if k < n - 1 {
        lemma_alpha_stats_bounds(a, mask, n - 1, k);
    }
}

/// When the palette's codes are all the same value the first nearest code is index 0.
proof fn lemma_flat_palette_index(v: int, x: u8, j: int)
    requires
        is_first_nearest(v, ints_u8(codebook_8(x, x)), 8, j),
    ensures
        j == 0,
{
    let c = ints_u8(codebook_8(x, x));
    assert(c[0] == x as int);
    assert(c[j] == x as int) by {
        assert((6 * (x as int) + x as int) / 7 == x as int);
        assert((5 * (x as int) + 2 * x as int) / 7 == x as int);
        assert((4 * (x as int) + 3 * x as int) / 7 == x as int);
        assert((3 * (x as int) + 4 * x as int) / 7 == x as int);
        assert((2 * (x as int) + 5 * x as int) / 7 == x as int);
        assert((x as int + 6 * x as int) / 7 == x as int);
    }
    if j > 0 {
        assert(sq_dist(v, c[0]) > min_dist(v, c, 8));
    }
}

/// Decoding a compressed BC3 alpha block reproduces, for every selected pixel,
/// exactly the code that the encoder's error estimate used: the decoded error
/// equals the smaller of the two palette errors.
pub proof fn lemma_bc3_alpha_decode_error(a: Seq<u8>, mask: u16, block: Seq<u8>)
    requires
        a.len() == 16,
        is_alpha_bc3_encoding(a, mask, block),
    ensures
        ({
            let (mn7, mx7, mn5_raw, mx5) = alpha_stats(a, mask, 16);
            let mn5 = if mn5_raw > mx5 {
                mx5
            } else {
                mn5_raw
            };
            let err7 = masked_fit_error(ints_u8(a), mask, ints_u8(codebook_8(mx7, mn7)), 16);
            let err5 = masked_fit_error(ints_u8(a), mask, ints_u8(codebook_6(mn5, mx5)), 16);
            masked_sq_error(ints_u8(a), mask, ints_u8(decode_alpha_bc3(block)), 16) == if err7
                <= err5 {
                err7
            } else {
                err5
            }
        }),
{
    let (mn7, mx7, mn5_raw, mx5) = alpha_stats(a, mask, 16);
    let mn5 = if mn5_raw > mx5 {
        mx5
    } else {
        mn5_raw
    };
    let c7 = ints_u8(codebook_8(mx7, mn7));
    let c5 = ints_u8(codebook_6(mn5, mx5));
    let err7 = masked_fit_error(ints_u8(a), mask, c7, 16);
    let err5 = masked_fit_error(ints_u8(a), mask, c5, 16);
    let c = if err7 <= err5 {
        c7
    } else {
        c5
    };
    let d = ints_u8(decode_alpha_bc3(block));
    let ix = decode_indices_bc3(block);
    assert forall|i: int| 0 <= i < 16 && mask_bit(mask, i) implies sq_dist(
        ints_u8(a)[i],
        d[i],
    ) == min_dist(ints_u8(a)[i], c, 8) by {
        let v = ints_u8(a)[i];
        assert(is_first_nearest(v, c, 8, ix[i] as int));
        if err7 <= err5 {
            lemma_alpha_stats_bounds(a, mask, 16, i);
            if !(mx7 > mn7) {
                lemma_flat_palette_index(v, mx7, ix[i] as int);
            }
        }
    }
    lemma_masked_sum_eq(ints_u8(a), mask, d, c, 16);
}

/// Per-pixel equality of the errors gives equality of the sums.
proof fn lemma_masked_sum_eq(a: Seq<int>, mask: u16, d: Seq<int>, c: Seq<int>, n: int)
    requires
        0 <= n <= 16,
        forall|i: int|
            0 <= i < 16 && mask_bit(mask, i) ==> sq_dist(a[i], d[i]) == min_dist(a[i], c, 8),
    ensures
        masked_sq_error(a, mask, d, n) == masked_fit_error(a, mask, c, n),
    decreases n,
{
    if n > 0 {
        lemma_masked_sum_eq(a, mask, d, c, n - 1);
    }
}


/// Three bytes read as a 24-bit value, cut into eight 3-bit fields and
/// packed again, give back the same bytes.
proof fn lemma_repack24(b0: u8, b1: u8, b2: u8)
    by (bit_vector)
    ensures
        ({
            let w = (b0 as u32) | ((b1 as u32) << 8u32) | ((b2 as u32) << 16u32);
            let v = (((((w >> 0u32) & 7u32) as u8 & 7u8) as u32) | (((((w >> 3u32) & 7u32) as u8
                & 7u8) as u32) << 3u32) | (((((w >> 6u32) & 7u32) as u8 & 7u8) as u32) << 6u32)
                | (((((w >> 9u32) & 7u32) as u8 & 7u8) as u32) << 9u32) | (((((w >> 12u32) & 7u32)
                as u8 & 7u8) as u32) << 12u32) | (((((w >> 15u32) & 7u32) as u8 & 7u8) as u32)
                << 15u32) | (((((w >> 18u32) & 7u32) as u8 & 7u8) as u32) << 18u32) | (((((w
                >> 21u32) & 7u32) as u8 & 7u8) as u32) << 21u32));
            &&& byte0(v) == b0
            &&& byte1(v) == b1
            &&& byte2(v) == b2
        }),
{
}

/// Writing back what is read from any BC3 alpha block (its two endpoints and
/// its 16 indices) reproduces the block exactly.
pub proof fn lemma_bc3_alpha_rewrite(b: Seq<u8>)
    requires
        b.len() == 8,
    ensures
        encode_alpha_bc3(b[0], b[1], decode_indices_bc3(b)) == b,
{
    let ix = decode_indices_bc3(b);
    lemma_pack3_closed(ix, 0);
    lemma_pack3_closed(ix, 8);
    lemma_repack24(b[2], b[3], b[4]);
    lemma_repack24(b[5], b[6], b[7]);
    assert(encode_alpha_bc3(b[0], b[1], ix) =~= b);
}

/// Squared distances to the nearest code are never negative.
proof fn lemma_min_dist_nonneg(v: int, codes: Seq<int>, n: int)
    ensures
        min_dist(v, codes, n) >= 0,
    decreases n,
{
    assert(forall|x: int, y: int| #[trigger] sq_dist(x, y) >= 0) by {
        assert forall|x: int, y: int| #[trigger] sq_dist(x, y) >= 0 by {
            assert((x - y) * (x - y) >= 0) by (nonlinear_arith);
        }
    }
    if n > 1 {
        lemma_min_dist_nonneg(v, codes, n - 1);
    }
}

/// A fit error is never negative.
proof fn lemma_fit_error_nonneg(vals: Seq<int>, mask: u16, codes: Seq<int>, n: int)
    ensures
        masked_fit_error(vals, mask, codes, n) >= 0,
    decreases n,
{
    if n > 0 {
        lemma_fit_error_nonneg(vals, mask, codes, n - 1);
        lemma_min_dist_nonneg(vals[n - 1], codes, 8);
    }
}

/// The fit error is 0 when every selected value is one of the first two codes.
proof fn lemma_fit_error_zero(vals: Seq<int>, mask: u16, codes: Seq<int>, n: int)
    requires
        forall|i: int|
            0 <= i < n && mask_bit(mask, i) ==> vals[i] == codes[0] || vals[i] == codes[1],
    ensures
        masked_fit_error(vals, mask, codes, n) == 0,
    decreases n,
{
    if n > 0 {
        lemma_fit_error_zero(vals, mask, codes, n - 1);
        if mask_bit(mask, n - 1) {
            let v = vals[n - 1];
            lemma_min_dist_nonneg(v, codes, 8);
            if v == codes[0] {
                lemma_min_dist_le(v, codes, 8, 0);
            } else {
                lemma_min_dist_le(v, codes, 8, 1);
            }
        }
    }
}

/// A squared error sum of 0 means every selected value is matched exactly.
proof fn lemma_sq_error_zero(a: Seq<int>, mask: u16, d: Seq<int>, n: int)
    requires
        masked_sq_error(a, mask, d, n) == 0,
    ensures
        forall|i: int| 0 <= i < n && mask_bit(mask, i) ==> a[i] == d[i],
    decreases n,
{
    if n > 0 {
        lemma_sq_error_nonneg(a, mask, d, n - 1);
        let x = a[n - 1] - d[n - 1];
        assert(x * x >= 0) by (nonlinear_arith);
        if mask_bit(mask, n - 1) {
            assert(x * x == 0);
            assert(x == 0) by (nonlinear_arith)
                requires
                    x * x == 0,
            ;
        }
        lemma_sq_error_zero(a, mask, d, n - 1);
    }
}

/// Squared error sums are never negative.
proof fn lemma_sq_error_nonneg(a: Seq<int>, mask: u16, d: Seq<int>, n: int)
    ensures
        masked_sq_error(a, mask, d, n) >= 0,
    decreases n,
{
    if n > 0 {
        lemma_sq_error_nonneg(a, mask, d, n - 1);
        let x = a[n - 1] - d[n - 1];
        assert(x * x >= 0) by (nonlinear_arith);
    }
}

/// When some pixel among the first `n` is selected, the minimum and maximum
/// statistics are values of selected pixels.
proof fn lemma_alpha_stats_attained(a: Seq<u8>, mask: u16, n: int, k: int)
    requires
        0 <= k < n,
        mask_bit(mask, k),
    ensures
        exists|j: int| 0 <= j < n && mask_bit(mask, j) && a[j] == alpha_stats(a, mask, n).0,
        exists|j: int| 0 <= j < n && mask_bit(mask, j) && a[j] == alpha_stats(a, mask, n).1,
    decreases n,
{
    let s = alpha_stats(a, mask, n);
    if k < n - 1 {
        lemma_alpha_stats_attained(a, mask, n - 1, k);
        let p = alpha_stats(a, mask, n - 1);
        let j0 = choose|j: int| 0 <= j < n - 1 && mask_bit(mask, j) && a[j] == p.0;
        let j1 = choose|j: int| 0 <= j < n - 1 && mask_bit(mask, j) && a[j] == p.1;
        if mask_bit(mask, n - 1) && a[n - 1] < p.0 {
            assert(a[n - 1] == s.0);
        } else {
            assert(a[j0] == s.0);
        }
        if mask_bit(mask, n - 1) && a[n - 1] > p.1 {
            assert(a[n - 1] == s.1);
        } else {
            assert(a[j1] == s.1);
        }
    } else {
        if exists|j: int| 0 <= j < n - 1 && mask_bit(mask, j) {
            let k2 = choose|j: int| 0 <= j < n - 1 && mask_bit(mask, j);
            lemma_alpha_stats_attained(a, mask, n - 1, k2);
            let p = alpha_stats(a, mask, n - 1);
            let j0 = choose|j: int| 0 <= j < n - 1 && mask_bit(mask, j) && a[j] == p.0;
            let j1 = choose|j: int| 0 <= j < n - 1 && mask_bit(mask, j) && a[j] == p.1;
            if a[n - 1] < p.0 {
                assert(a[n - 1] == s.0);
            } else {
                assert(a[j0] == s.0);
            }
            if a[n - 1] > p.1 {
                assert(a[n - 1] == s.1);
            } else {
                assert(a[j1] == s.1);
            }
        } else {
            lemma_stats_unselected(a, mask, n - 1);
            assert(a[n - 1] == s.0);
            assert(a[n - 1] == s.1);
        }
    }
}

/// With no selected pixel among the first `n` the statistics keep their
/// starting values.
proof fn lemma_stats_unselected(a: Seq<u8>, mask: u16, n: int)
    requires
        forall|j: int| 0 <= j < n ==> !mask_bit(mask, j),
    ensures
        alpha_stats(a, mask, n) == (255u8, 0u8, 255u8, 0u8),
    decreases n,
{
    if n > 0 {
        lemma_stats_unselected(a, mask, n - 1);
    }
}

/// A BC3 alpha block compressed from selected pixels that take at most two
/// distinct values `x` and `y` decodes every selected pixel exactly.
pub proof fn lemma_bc3_two_values_exact(a: Seq<u8>, mask: u16, x: u8, y: u8, block: Seq<u8>)
    requires
        a.len() == 16,
        forall|i: int| 0 <= i < 16 && mask_bit(mask, i) ==> a[i] == x || a[i] == y,
        is_alpha_bc3_encoding(a, mask, block),
    ensures
        forall|i: int| 0 <= i < 16 && mask_bit(mask, i) ==> decode_alpha_bc3(block)[i] == a[i],
{
    if exists|k: int| 0 <= k < 16 && mask_bit(mask, k) {
        let k = choose|k: int| 0 <= k < 16 && mask_bit(mask, k);
        lemma_alpha_stats_attained(a, mask, 16, k);
        let (mn7, mx7, mn5_raw, mx5) = alpha_stats(a, mask, 16);
        let mn5 = if mn5_raw > mx5 {
            mx5
        } else {
            mn5_raw
        };
        let va = ints_u8(a);
        let c7 = ints_u8(codebook_8(mx7, mn7));
        let c5 = ints_u8(codebook_6(mn5, mx5));
        assert forall|i: int| 0 <= i < 16 && mask_bit(mask, i) implies va[i] == c7[0] || va[i]
            == c7[1] by {
            lemma_alpha_stats_bounds(a, mask, 16, i);
        }
        lemma_fit_error_zero(va, mask, c7, 16);
        lemma_fit_error_nonneg(va, mask, c5, 16);
        lemma_bc3_alpha_decode_error(a, mask, block);
        let d = ints_u8(decode_alpha_bc3(block));
        lemma_sq_error_zero(va, mask, d, 16);
        assert forall|i: int| 0 <= i < 16 && mask_bit(mask, i) implies decode_alpha_bc3(block)[i]
            == a[i] by {
            assert(va[i] == d[i]);
        }
    }
}

} // verus!
