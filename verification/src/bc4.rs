//! BC4 single-channel blocks: unsigned, signed (SNORM) and 16-bit variants.

use vstd::prelude::*;
use crate::bc3::{
    compress_alpha_bc3, decompress_alpha_bc3, decode_alpha_bc3, decode_indices_bc3,
    encode_alpha_bc3, fits_codes, is_alpha_bc3_encoding, is_first_nearest, lemma_bc3_alpha_roundtrip,
    lemma_fitted_indices_below_8, lemma_min_dist_le, mask_bit, masked_fit_error, min_dist,
    pixel_selected, read_alpha_block_bc3, sq_dist, write_alpha_block_bc3,
};

verus! {

/// Integer division rounding toward zero (as the CPU does), for `b > 0`.
pub open spec fn trunc_div(a: int, b: int) -> int {
    if a >= 0 {
        a / b
    } else {
        -((-a) / b)
    }
}

/// Widening of signed bytes to integers.
pub open spec fn ints_i8(s: Seq<i8>) -> Seq<int> {
    s.map_values(|x: i8| x as int)
}

/// Widening of 16-bit values to integers.
pub open spec fn ints_u16(s: Seq<u16>) -> Seq<int> {
    s.map_values(|x: u16| x as int)
}

/// Widening of signed 16-bit values to integers.
pub open spec fn ints_i16(s: Seq<i16>) -> Seq<int> {
    s.map_values(|x: i16| x as int)
}

/// The 8-entry signed palette between `a0` and `a1`.
pub open spec fn codebook_8_signed(a0: i8, a1: i8) -> Seq<i8> {
    let x = a0 as int;
    let y = a1 as int;
    seq![
        a0,
        a1,
        trunc_div(6 * x + y, 7) as i8,
        trunc_div(5 * x + 2 * y, 7) as i8,
        trunc_div(4 * x + 3 * y, 7) as i8,
        trunc_div(3 * x + 4 * y, 7) as i8,
        trunc_div(2 * x + 5 * y, 7) as i8,
        trunc_div(x + 6 * y, 7) as i8,
    ]
}

/// The 6-entry signed palette between `a0` and `a1`, then -127 and 127.
pub open spec fn codebook_6_signed(a0: i8, a1: i8) -> Seq<i8> {
    let x = a0 as int;
    let y = a1 as int;
    seq![
        a0,
        a1,
        trunc_div(4 * x + y, 5) as i8,
        trunc_div(3 * x + 2 * y, 5) as i8,
        trunc_div(2 * x + 3 * y, 5) as i8,
        trunc_div(x + 4 * y, 5) as i8,
        -127i8,
        127i8,
    ]
}

/// The 8-entry 16-bit palette between `a0` and `a1`.
pub open spec fn codebook_8_u16(a0: u16, a1: u16) -> Seq<u16> {
    let x = a0 as int;
    let y = a1 as int;
    seq![
        a0,
        a1,
        ((6 * x + y) / 7) as u16,
        ((5 * x + 2 * y) / 7) as u16,
        ((4 * x + 3 * y) / 7) as u16,
        ((3 * x + 4 * y) / 7) as u16,
        ((2 * x + 5 * y) / 7) as u16,
        ((x + 6 * y) / 7) as u16,
    ]
}

/// The 8-entry signed 16-bit palette between `a0` and `a1`.
pub open spec fn codebook_8_i16(a0: i16, a1: i16) -> Seq<i16> {
    let x = a0 as int;
    let y = a1 as int;
    seq![
        a0,
        a1,
        trunc_div(6 * x + y, 7) as i16,
        trunc_div(5 * x + 2 * y, 7) as i16,
        trunc_div(4 * x + 3 * y, 7) as i16,
        trunc_div(3 * x + 4 * y, 7) as i16,
        trunc_div(2 * x + 5 * y, 7) as i16,
        trunc_div(x + 6 * y, 7) as i16,
    ]
}

/// Builds the 8-entry signed palette between `a0` and `a1`.
pub fn build_codebook_8_signed(a0: i8, a1: i8) -> (r: [i8; 8])
    ensures
        r@ == codebook_8_signed(a0, a1),
{
    let x = a0 as i32;
    let y = a1 as i32;
    let r = [
        x as i8,
        y as i8,
        ((6 * x + y) / 7) as i8,
        ((5 * x + 2 * y) / 7) as i8,
        ((4 * x + 3 * y) / 7) as i8,
        ((3 * x + 4 * y) / 7) as i8,
        ((2 * x + 5 * y) / 7) as i8,
        ((x + 6 * y) / 7) as i8,
    ];
    assert(r@ =~= codebook_8_signed(a0, a1));
    r
}

/// Builds the 6-entry signed palette between `a0` and `a1`, then -127 and 127.
pub fn build_codebook_6_signed(a0: i8, a1: i8) -> (r: [i8; 8])
    ensures
        r@ == codebook_6_signed(a0, a1),
{
    let x = a0 as i32;
    let y = a1 as i32;
    let r = [
        x as i8,
        y as i8,
        ((4 * x + y) / 5) as i8,
        ((3 * x + 2 * y) / 5) as i8,
        ((2 * x + 3 * y) / 5) as i8,
        ((x + 4 * y) / 5) as i8,
        -127,
        127,
    ];
    assert(r@ =~= codebook_6_signed(a0, a1));
    r
}

/// Builds the 8-entry 16-bit palette between `a0` and `a1`.
pub fn build_codebook_8_u16(a0: u16, a1: u16) -> (r: [u16; 8])
    ensures
        r@ == codebook_8_u16(a0, a1),
{
    let x = a0 as u32;
    let y = a1 as u32;
    let r = [
        x as u16,
        y as u16,
        ((6 * x + y) / 7) as u16,
        ((5 * x + 2 * y) / 7) as u16,
        ((4 * x + 3 * y) / 7) as u16,
        ((3 * x + 4 * y) / 7) as u16,
        ((2 * x + 5 * y) / 7) as u16,
        ((x + 6 * y) / 7) as u16,
    ];
    assert(r@ =~= codebook_8_u16(a0, a1));
    r
}

/// Builds the 8-entry signed 16-bit palette between `a0` and `a1`.
pub fn build_codebook_8_i16(a0: i16, a1: i16) -> (r: [i16; 8])
    ensures
        r@ == codebook_8_i16(a0, a1),
{
    let x = a0 as i32;
    let y = a1 as i32;
    let r = [
        x as i16,
        y as i16,
        ((6 * x + y) / 7) as i16,
        ((5 * x + 2 * y) / 7) as i16,
        ((4 * x + 3 * y) / 7) as i16,
        ((3 * x + 4 * y) / 7) as i16,
        ((2 * x + 5 * y) / 7) as i16,
        ((x + 6 * y) / 7) as i16,
    ];
    assert(r@ =~= codebook_8_i16(a0, a1));
    r
}

/// Index of the first of 8 codes nearest to `v`, with its squared distance.
fn nearest_code_i64(v: i64, codes: &[i64; 8]) -> (r: (u8, i64))
    requires
        -65536 <= v <= 65536,
        forall|k: int| 0 <= k < 8 ==> -65536 <= #[trigger] codes@[k] <= 65536,
    ensures
        is_first_nearest(v as int, codes@.map_values(|x: i64| x as int), 8, r.0 as int),
        r.1 as int == min_dist(v as int, codes@.map_values(|x: i64| x as int), 8),
        0 <= r.1 <= 0x4_0000_0000,
{
    let ghost c = codes@.map_values(|x: i64| x as int);
    let mut min_d = i64::MAX;
    let mut best_idx = 0u8;
    let mut j: usize = 0;
    while j < 8
        invariant
            j <= 8,
            c == codes@.map_values(|x: i64| x as int),
            -65536 <= v <= 65536,
            forall|k: int| 0 <= k < 8 ==> -65536 <= #[trigger] codes@[k] <= 65536,
            j == 0 ==> min_d == i64::MAX && best_idx == 0,
            j > 0 ==> is_first_nearest(v as int, c, j as int, best_idx as int),
            j > 0 ==> min_d as int == min_dist(v as int, c, j as int),
            j > 0 ==> 0 <= min_d <= 0x4_0000_0000,
        decreases 8 - j,
    {
        let code = codes[j];
        let diff = v - code;
        assert(0 <= diff * diff <= 0x4_0000_0000) by (nonlinear_arith)
            requires
                -131072 <= diff <= 131072,
        ;
        let dist = diff * diff;
        assert forall|k: int| 0 <= k < j implies sq_dist(v as int, c[k]) >= min_dist(
            v as int,
            c,
            j as int,
        ) by {
            lemma_min_dist_le(v as int, c, j as int, k);
        }
        if dist < min_d {
            min_d = dist;
            best_idx = j as u8;
        }
        j += 1;
    }
    (best_idx, min_d)
}

/// Fits every selected signed value to its nearest code; returns the total squared error.
pub fn fit_codes_signed(values: &[i8; 16], mask: u16, codes: &[i8; 8], indices: &mut [u8; 16]) -> (r:
    u32)
    ensures
        fits_codes(ints_i8(values@), mask, ints_i8(codes@), final(indices)@),
        r as int == masked_fit_error(ints_i8(values@), mask, ints_i8(codes@), 16),
{
    let ghost vals = ints_i8(values@);
    let ghost c = ints_i8(codes@);
    let wide = [
        codes[0] as i64,
        codes[1] as i64,
        codes[2] as i64,
        codes[3] as i64,
        codes[4] as i64,
        codes[5] as i64,
        codes[6] as i64,
        codes[7] as i64,
    ];
    assert(wide@.map_values(|x: i64| x as int) =~= c);
    let mut total_error = 0u32;
    let mut i: usize = 0;
    while i < 16
        invariant
            i <= 16,
            indices@.len() == 16,
            vals == ints_i8(values@),
            c == ints_i8(codes@),
            wide@.map_values(|x: i64| x as int) == c,
            forall|k: int| 0 <= k < 8 ==> -128 <= #[trigger] wide@[k] <= 127,
            total_error as int == masked_fit_error(vals, mask, c, i as int),
            0 <= total_error <= 65025 * i,
            forall|k: int|
                0 <= k < i ==> if mask_bit(mask, k) {
                    is_first_nearest(vals[k], c, 8, indices@[k] as int)
                } else {
                    indices@[k] == 0
                },
        decreases 16 - i,
    {
        if !pixel_selected(mask, i) {
            indices[i] = 0;
        } else {
            let (best_idx, d) = nearest_code_i64(values[i] as i64, &wide);
            assert(vals[i as int] == values@[i as int] as int);
            indices[i] = best_idx;
            assert(d <= 65025) by {
                lemma_min_dist_le(vals[i as int], c, 8, 0);
                assert(-255 <= vals[i as int] - c[0] <= 255);
                assert(sq_dist(vals[i as int], c[0]) <= 65025) by (nonlinear_arith)
                    requires
                        -255 <= vals[i as int] - c[0] <= 255,
                ;
            }
            total_error += d as u32;
        }
        i += 1;
    }
    total_error
}

/// Compresses 16 unsigned values into a BC4 block (same encoding as BC3 alpha).
pub fn compress_bc4(data: &[u8; 16], mask: u16, flags: u32, block: &mut [u8; 8])
    ensures
        is_alpha_bc3_encoding(data@, mask, final(block)@),
{
    compress_alpha_bc3(data, mask, flags, block);
}

/// Decompresses an unsigned BC4 block.
pub fn decompress_bc4(block: &[u8; 8], out: &mut [u8; 16])
    ensures
        final(out)@ == decode_alpha_bc3(block@),
{
    decompress_alpha_bc3(block, out);
}

/// Assigns to every selected pixel the first of the 8 codes nearest to it
/// (index 0 for the other pixels).
fn fit_nearest_i64(vals: &[i64; 16], mask: u16, codes: &[i64; 8]) -> (r: [u8; 16])
    requires
        forall|k: int| 0 <= k < 16 ==> -65536 <= #[trigger] vals@[k] <= 65536,
        forall|k: int| 0 <= k < 8 ==> -65536 <= #[trigger] codes@[k] <= 65536,
    ensures
        fits_codes(
            vals@.map_values(|x: i64| x as int),
            mask,
            codes@.map_values(|x: i64| x as int),
            r@,
        ),
{
    let ghost v = vals@.map_values(|x: i64| x as int);
    let ghost c = codes@.map_values(|x: i64| x as int);
    let mut indices = [0u8; 16];
    let mut i: usize = 0;
    while i < 16
        invariant
            i <= 16,
            v == vals@.map_values(|x: i64| x as int),
            c == codes@.map_values(|x: i64| x as int),
            forall|k: int| 0 <= k < 16 ==> -65536 <= #[trigger] vals@[k] <= 65536,
            forall|k: int| 0 <= k < 8 ==> -65536 <= #[trigger] codes@[k] <= 65536,
            forall|k: int| i <= k < 16 ==> indices@[k] == 0,
            forall|k: int|
                0 <= k < i ==> if mask_bit(mask, k) {
                    is_first_nearest(v[k], c, 8, indices@[k] as int)
                } else {
                    indices@[k] == 0
                },
        decreases 16 - i,
    {
        if pixel_selected(mask, i) {
            let (best_idx, _d) = nearest_code_i64(vals[i], codes);
            indices[i] = best_idx;
        }
        i += 1;
    }
    indices
}

/// Clamps a signed byte to the symmetric SNORM range [-127, 127].
pub open spec fn clamp_snorm8(v: i8) -> i8 {
    if v < -127 {
        -127i8
    } else {
        v
    }
}

/// Signed endpoint statistics over the selected pixels among the first `n`
/// (values clamped to [-127, 127]): (min, max, min and max ignoring -127
/// and 127), starting from (127, -127, 127, -127).
pub open spec fn signed_stats(d: Seq<i8>, mask: u16, n: int) -> (i8, i8, i8, i8)
    decreases n,
{
    if n <= 0 {
        (127i8, -127i8, 127i8, -127i8)
    } else {
        let (mn7, mx7, mn5, mx5) = signed_stats(d, mask, n - 1);
        let v = clamp_snorm8(d[n - 1]);
        if !mask_bit(mask, n - 1) {
            (mn7, mx7, mn5, mx5)
        } else {
            let inner = v != -127 && v != 127;
            (
                if v < mn7 {
                    v
                } else {
                    mn7
                },
                if v > mx7 {
                    v
                } else {
                    mx7
                },
                if inner && v < mn5 {
                    v
                } else {
                    mn5
                },
                if inner && v > mx5 {
                    v
                } else {
                    mx5
                },
            )
        }
    }
}

/// `block` is the signed BC4 encoding of the selected pixels of `d`: all
/// zero bytes when no pixel is selected; a flat block when all selected
/// (clamped) values are equal; otherwise, of the 8-step palette between the
/// extremes and the 6-step palette between the extremes other than -127 and
/// 127 (the extremes themselves when there are none), the one with the smaller
/// total squared error (8-step on ties), with every selected pixel mapped to
/// its first nearest code.
pub open spec fn is_bc4_signed_encoding(d: Seq<i8>, mask: u16, block: Seq<u8>) -> bool {
    let (mn7, mx7, mn5_raw, mx5_raw) = signed_stats(d, mask, 16);
    let no5 = mn5_raw > mx5_raw;
    let mn5 = if no5 {
        mn7
    } else {
        mn5_raw
    };
    let mx5 = if no5 {
        mx7
    } else {
        mx5_raw
    };
    let c7 = ints_i8(codebook_8_signed(mx7, mn7));
    let c5 = ints_i8(codebook_6_signed(mn5, mx5));
    let err7 = masked_fit_error(ints_i8(d), mask, c7, 16);
    let err5 = masked_fit_error(ints_i8(d), mask, c5, 16);
    &&& block.len() == 8
    &&& if mn7 > mx7 {
        block == Seq::new(8, |i: int| 0u8)
    } else if mx7 == mn7 {
        block == encode_alpha_bc3(mx7 as u8, mx7 as u8, Seq::new(16, |i: int| 0u8))
    } else if err7 <= err5 {
        &&& block[0] == mx7 as u8
        &&& block[1] == mn7 as u8
        &&& fits_codes(ints_i8(d), mask, c7, decode_indices_bc3(block))
    } else {
        &&& block[0] == mn5 as u8
        &&& block[1] == mx5 as u8
        &&& fits_codes(ints_i8(d), mask, c5, decode_indices_bc3(block))
    }
}

/// Compresses 16 signed values (the pixels selected by `mask`) into a signed BC4 block.
pub fn compress_bc4_signed(data: &[i8; 16], mask: u16, _flags: u32, block: &mut [u8; 8])
    ensures
        is_bc4_signed_encoding(data@, mask, final(block)@),
{
    let mut min7 = 127i8;
    let mut max7 = -127i8;
    let mut min5 = 127i8;
    let mut max5 = -127i8;
    let mut i: usize = 0;
    while i < 16
        invariant
            i <= 16,
            signed_stats(data@, mask, i as int).0 == min7,
            signed_stats(data@, mask, i as int).1 == max7,
            signed_stats(data@, mask, i as int).2 == min5,
            signed_stats(data@, mask, i as int).3 == max5,
        decreases 16 - i,
    {
        if pixel_selected(mask, i) {
            let raw_val = data[i];
            let val = if raw_val < -127 {
                -127
            } else {
                raw_val
            };
            if val < min7 {
                min7 = val;
            }
            if val > max7 {
                max7 = val;
            }
            if val != -127 && val != 127 {
                if val < min5 {
                    min5 = val;
                }
                if val > max5 {
                    max5 = val;
                }
            }
        }
        i += 1;
    }

    if min7 > max7 {
        *block = [0u8; 8];
        assert(block@ =~= Seq::new(8, |i: int| 0u8));
        return;
    }
    if min5 > max5 {
        min5 = min7;
        max5 = max7;
    }
    if max7 == min7 {
        let indices = [0u8; 16];
        write_alpha_block_bc3(max7 as u8, max7 as u8, &indices, block);
        assert(indices@ =~= Seq::new(16, |i: int| 0u8));
        return;
    }
    let codes7 = build_codebook_8_signed(max7, min7);
    let mut indices7 = [0u8; 16];
    let err7 = fit_codes_signed(data, mask, &codes7, &mut indices7);

    let codes5 = build_codebook_6_signed(min5, max5);
    let mut indices5 = [0u8; 16];
    let err5 = fit_codes_signed(data, mask, &codes5, &mut indices5);

    if err7 <= err5 {
        write_alpha_block_bc3(max7 as u8, min7 as u8, &indices7, block);
        proof {
            lemma_bc3_alpha_roundtrip(max7 as u8, min7 as u8, indices7@);
            lemma_fitted_indices_below_8(ints_i8(data@), mask, ints_i8(codes7@), indices7@);
            assert(decode_indices_bc3(block@) =~= indices7@);
        }
    } else {
        write_alpha_block_bc3(min5 as u8, max5 as u8, &indices5, block);
        proof {
            lemma_bc3_alpha_roundtrip(min5 as u8, max5 as u8, indices5@);
            lemma_fitted_indices_below_8(ints_i8(data@), mask, ints_i8(codes5@), indices5@);
            assert(decode_indices_bc3(block@) =~= indices5@);
        }
    }
}

/// 16-bit statistics over the selected pixels among the first `n`: (min, max),
/// starting from (65535, 0).
pub open spec fn u16_stats(d: Seq<u16>, mask: u16, n: int) -> (u16, u16)
    decreases n,
{
    if n <= 0 {
        (65535u16, 0u16)
    } else {
        let (mn, mx) = u16_stats(d, mask, n - 1);
        let v = d[n - 1];
        if !mask_bit(mask, n - 1) {
            (mn, mx)
        } else {
            (
                if v < mn {
                    v
                } else {
                    mn
                },
                if v > mx {
                    v
                } else {
                    mx
                },
            )
        }
    }
}

/// The palette a 16-bit BC4 block with endpoint bytes `e0`, `e1` decodes with.
pub open spec fn palette_u16(e0: u8, e1: u8) -> Seq<u16> {
    codebook_8_u16((e0 as u16 * 257) as u16, (e1 as u16 * 257) as u16)
}

/// `block` is the 16-bit BC4 encoding of the selected pixels of `d`: the high
/// bytes of the maximum and minimum as endpoints, and every selected pixel
/// mapped to its first nearest code of the 8-step palette they span.
pub open spec fn is_bc4_u16_encoding(d: Seq<u16>, mask: u16, block: Seq<u8>) -> bool {
    let (mn, mx) = u16_stats(d, mask, 16);
    let e0 = (mx >> 8u16) as u8;
    let e1 = (mn >> 8u16) as u8;
    &&& block.len() == 8
    &&& block[0] == e0
    &&& block[1] == e1
    &&& fits_codes(ints_u16(d), mask, ints_u16(palette_u16(e0, e1)), decode_indices_bc3(block))
}

/// Compresses 16 16-bit values into a BC4 block with 8-bit endpoints.
pub fn compress_bc4_u16(data: &[u16; 16], mask: u16, block: &mut [u8; 8])
    ensures
        is_bc4_u16_encoding(data@, mask, final(block)@),
{
    let mut min16 = 65535u16;
    let mut max16 = 0u16;
    let mut i: usize = 0;
    while i < 16
        invariant
            i <= 16,
            u16_stats(data@, mask, i as int).0 == min16,
            u16_stats(data@, mask, i as int).1 == max16,
        decreases 16 - i,
    {
        if pixel_selected(mask, i) {
            let val = data[i];
            if val < min16 {
                min16 = val;
            }
            if val > max16 {
                max16 = val;
            }
        }
        i += 1;
    }
    let e0_8 = (max16 >> 8) as u8;
    let e1_8 = (min16 >> 8) as u8;
    let e0_16 = (e0_8 as u16) * 257;
    let e1_16 = (e1_8 as u16) * 257;

    let codes = build_codebook_8_u16(e0_16, e1_16);
    let wide_codes = [
        codes[0] as i64,
        codes[1] as i64,
        codes[2] as i64,
        codes[3] as i64,
        codes[4] as i64,
        codes[5] as i64,
        codes[6] as i64,
        codes[7] as i64,
    ];
    let mut wide_vals = [0i64; 16];
    let mut k: usize = 0;
    while k < 16
        invariant
            k <= 16,
            forall|j: int| 0 <= j < k ==> wide_vals@[j] == data@[j] as i64,
            forall|j: int| 0 <= j < 16 ==> 0 <= #[trigger] wide_vals@[j] <= 65535,
        decreases 16 - k,
    {
        wide_vals[k] = data[k] as i64;
        k += 1;
    }
    assert(wide_vals@.map_values(|x: i64| x as int) =~= ints_u16(data@));
    assert(wide_codes@.map_values(|x: i64| x as int) =~= ints_u16(codes@));
    let indices = fit_nearest_i64(&wide_vals, mask, &wide_codes);
    write_alpha_block_bc3(e0_8, e1_8, &indices, block);
    proof {
        lemma_bc3_alpha_roundtrip(e0_8, e1_8, indices@);
        lemma_fitted_indices_below_8(ints_u16(data@), mask, ints_u16(codes@), indices@);
        assert(decode_indices_bc3(block@) =~= indices@);
    }
}

/// Signed 16-bit statistics over the selected pixels among the first `n`
/// (values clamped to [-32767, 32767]): (min, max), starting from (32767, -32767).
pub open spec fn i16_stats(d: Seq<i16>, mask: u16, n: int) -> (i16, i16)
    decreases n,
{
    if n <= 0 {
        (32767i16, -32767i16)
    } else {
        let (mn, mx) = i16_stats(d, mask, n - 1);
        let v = if d[n - 1] < -32767 {
            -32767i16
        } else {
            d[n - 1]
        };
        if !mask_bit(mask, n - 1) {
            (mn, mx)
        } else {
            (
                if v < mn {
                    v
                } else {
                    mn
                },
                if v > mx {
                    v
                } else {
                    mx
                },
            )
        }
    }
}

/// The 8-bit SNORM endpoint that a 16-bit SNORM value is reduced to.
pub open spec fn snorm16_to_8(v: i16) -> i8 {
    let q = trunc_div(v as int * 127, 32767);
    (if q < -127 {
        -127
    } else if q > 127 {
        127
    } else {
        q
    }) as i8
}

/// The 16-bit SNORM value an 8-bit SNORM endpoint is expanded to.
pub open spec fn snorm8_to_16(e: i8) -> i16 {
    trunc_div(e as int * 32767, 127) as i16
}

/// The palette a signed 16-bit BC4 block with endpoint bytes `e0`, `e1` decodes with.
pub open spec fn palette_i16(e0: u8, e1: u8) -> Seq<i16> {
    codebook_8_i16(snorm8_to_16(e0 as i8), snorm8_to_16(e1 as i8))
}

/// `block` is the signed 16-bit BC4 encoding of the selected pixels of `d`:
/// the 8-bit SNORM reductions of the maximum and minimum as endpoints, and
/// every selected pixel mapped to its first nearest code of the palette
/// spanned by their 16-bit expansions.
pub open spec fn is_bc4_i16_encoding(d: Seq<i16>, mask: u16, block: Seq<u8>) -> bool {
    let (mn, mx) = i16_stats(d, mask, 16);
    let e0 = snorm16_to_8(mx);
    let e1 = snorm16_to_8(mn);
    &&& block.len() == 8
    &&& block[0] == e0 as u8
    &&& block[1] == e1 as u8
    &&& fits_codes(
        ints_i16(d),
        mask,
        ints_i16(codebook_8_i16(snorm8_to_16(e0), snorm8_to_16(e1))),
        decode_indices_bc3(block),
    )
}

/// Compresses 16 signed 16-bit values into a signed BC4 block with 8-bit endpoints.
pub fn compress_bc4_i16(data: &[i16; 16], mask: u16, block: &mut [u8; 8])
    ensures
        is_bc4_i16_encoding(data@, mask, final(block)@),
{
    let mut min16 = 32767i16;
    let mut max16 = -32767i16;
    let mut i: usize = 0;
    while i < 16
        invariant
            i <= 16,
            i16_stats(data@, mask, i as int).0 == min16,
            i16_stats(data@, mask, i as int).1 == max16,
            -32767 <= min16,
            -32767 <= max16,
        decreases 16 - i,
    {
        if pixel_selected(mask, i) {
            let raw_val = data[i];
            let val = if raw_val < -32767 {
                -32767
            } else {
                raw_val
            };
            if val < min16 {
                min16 = val;
            }
            if val > max16 {
                max16 = val;
            }
        }
        i += 1;
    }
    let q0 = (max16 as i32 * 127) / 32767;
    let q1 = (min16 as i32 * 127) / 32767;
    let e0_8 = (if q0 < -127 {
        -127
    } else if q0 > 127 {
        127
    } else {
        q0
    }) as i8;
    let e1_8 = (if q1 < -127 {
        -127
    } else if q1 > 127 {
        127
    } else {
        q1
    }) as i8;
    let e0_16 = ((e0_8 as i32 * 32767) / 127) as i16;
    let e1_16 = ((e1_8 as i32 * 32767) / 127) as i16;

    let codes = build_codebook_8_i16(e0_16, e1_16);
    let wide_codes = [
        codes[0] as i64,
        codes[1] as i64,
        codes[2] as i64,
        codes[3] as i64,
        codes[4] as i64,
        codes[5] as i64,
        codes[6] as i64,
        codes[7] as i64,
    ];
    let mut wide_vals = [0i64; 16];
    let mut k: usize = 0;
    while k < 16
        invariant
            k <= 16,
            forall|j: int| 0 <= j < k ==> wide_vals@[j] == data@[j] as i64,
            forall|j: int| 0 <= j < 16 ==> -32768 <= #[trigger] wide_vals@[j] <= 32767,
        decreases 16 - k,
    {
        wide_vals[k] = data[k] as i64;
        k += 1;
    }
    assert(wide_vals@.map_values(|x: i64| x as int) =~= ints_i16(data@));
    assert(wide_codes@.map_values(|x: i64| x as int) =~= ints_i16(codes@));
    let indices = fit_nearest_i64(&wide_vals, mask, &wide_codes);
    write_alpha_block_bc3(e0_8 as u8, e1_8 as u8, &indices, block);
    proof {
        lemma_bc3_alpha_roundtrip(e0_8 as u8, e1_8 as u8, indices@);
        lemma_fitted_indices_below_8(ints_i16(data@), mask, ints_i16(codes@), indices@);
        assert(decode_indices_bc3(block@) =~= indices@);
    }
}

/// The palette a signed BC4 block with endpoint bytes `e0`, `e1` decodes with.
pub open spec fn palette_signed(e0: u8, e1: u8) -> Seq<i8> {
    if (e0 as i8) > (e1 as i8) {
        codebook_8_signed(e0 as i8, e1 as i8)
    } else {
        codebook_6_signed(e0 as i8, e1 as i8)
    }
}

/// The 16 signed values a signed BC4 block decodes to.
pub open spec fn decode_bc4_signed(b: Seq<u8>) -> Seq<i8> {
    Seq::new(16, |i: int| palette_signed(b[0], b[1])[decode_indices_bc3(b)[i] as int])
}

/// The 16 16-bit values a 16-bit BC4 block decodes to.
pub open spec fn decode_bc4_u16(b: Seq<u8>) -> Seq<u16> {
    Seq::new(16, |i: int| palette_u16(b[0], b[1])[decode_indices_bc3(b)[i] as int])
}

/// The 16 signed 16-bit values a signed 16-bit BC4 block decodes to.
pub open spec fn decode_bc4_i16(b: Seq<u8>) -> Seq<i16> {
    Seq::new(16, |i: int| palette_i16(b[0], b[1])[decode_indices_bc3(b)[i] as int])
}

/// Decoded BC3-style indices are below 8.
proof fn lemma_decoded_index_below_8(b: Seq<u8>, i: int)
    requires
        b.len() == 8,
        0 <= i < 16,
    ensures
        decode_indices_bc3(b)[i] < 8,
{
    let w = if i < 8 {
        crate::bc3::le24(b, 2)
    } else {
        crate::bc3::le24(b, 5)
    };
    let sh = if i < 8 {
        (3 * i) as u32
    } else {
        (3 * (i - 8)) as u32
    };
    assert((((w >> sh) & 7u32) as u8) < 8) by (bit_vector);
}

/// Decodes a signed BC4 block.
pub fn decompress_bc4_signed(block: &[u8; 8], out: &mut [i8; 16])
    ensures
        final(out)@ == decode_bc4_signed(block@),
{
    let (alpha0, alpha1, indices) = read_alpha_block_bc3(block);
    let a0 = alpha0 as i8;
    let a1 = alpha1 as i8;
    let codes = if a0 > a1 {
        build_codebook_8_signed(a0, a1)
    } else {
        build_codebook_6_signed(a0, a1)
    };
    let mut i: usize = 0;
    while i < 16
        invariant
            i <= 16,
            out@.len() == 16,
            indices@ == decode_indices_bc3(block@),
            codes@ == palette_signed(block@[0], block@[1]),
            forall|k: int| 0 <= k < i ==> out@[k] == decode_bc4_signed(block@)[k],
        decreases 16 - i,
    {
        proof {
            lemma_decoded_index_below_8(block@, i as int);
        }
        out[i] = codes[indices[i] as usize];
        i += 1;
    }
    assert(out@ =~= decode_bc4_signed(block@));
}

/// Decodes a 16-bit BC4 block.
pub fn decompress_bc4_u16(block: &[u8; 8], out: &mut [u16; 16])
    ensures
        final(out)@ == decode_bc4_u16(block@),
{
    let (alpha0, alpha1, indices) = read_alpha_block_bc3(block);
    let a0 = (alpha0 as u16) * 257;
    let a1 = (alpha1 as u16) * 257;
    let codes = build_codebook_8_u16(a0, a1);
    let mut i: usize = 0;
    while i < 16
        invariant
            i <= 16,
            out@.len() == 16,
            indices@ == decode_indices_bc3(block@),
            codes@ == palette_u16(block@[0], block@[1]),
            forall|k: int| 0 <= k < i ==> out@[k] == decode_bc4_u16(block@)[k],
        decreases 16 - i,
    {
        proof {
            lemma_decoded_index_below_8(block@, i as int);
        }
        out[i] = codes[indices[i] as usize];
        i += 1;
    }
    assert(out@ =~= decode_bc4_u16(block@));
}

/// Decodes a signed 16-bit BC4 block.
pub fn decompress_bc4_i16(block: &[u8; 8], out: &mut [i16; 16])
    ensures
        final(out)@ == decode_bc4_i16(block@),
{
    let (alpha0, alpha1, indices) = read_alpha_block_bc3(block);
    let a0 = ((alpha0 as i8 as i32 * 32767) / 127) as i16;
    let a1 = ((alpha1 as i8 as i32 * 32767) / 127) as i16;
    let codes = build_codebook_8_i16(a0, a1);
    let mut i: usize = 0;
    while i < 16
        invariant
            i <= 16,
            out@.len() == 16,
            indices@ == decode_indices_bc3(block@),
            codes@ == palette_i16(block@[0], block@[1]),
            forall|k: int| 0 <= k < i ==> out@[k] == decode_bc4_i16(block@)[k],
        decreases 16 - i,
    {
        proof {
            lemma_decoded_index_below_8(block@, i as int);
        }
        out[i] = codes[indices[i] as usize];
        i += 1;
    }
    assert(out@ =~= decode_bc4_i16(block@));
}

} // verus!
