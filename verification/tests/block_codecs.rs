use cry_image::bc1::{
    read_color_block_bc1, read_color_block_bc1_rgba, unpack_565, write_block_raw,
    write_color_block_3, write_color_block_4,
};
use cry_image::bc2::{compress_alpha_bc2, decompress_alpha_bc2, read_alpha_block_bc2, write_alpha_block_bc2};
use cry_image::bc3::{
    build_codebook_6, build_codebook_8, compress_alpha_bc3, decompress_alpha_bc3, fit_codes,
    read_alpha_block_bc3, write_alpha_block_bc3,
};
use cry_image::bc4::{
    build_codebook_6_signed, build_codebook_8_i16, build_codebook_8_signed, build_codebook_8_u16,
    compress_bc4, compress_bc4_i16, compress_bc4_signed, compress_bc4_u16, decompress_bc4,
    decompress_bc4_i16, decompress_bc4_signed, decompress_bc4_u16, fit_codes_signed,
};
use cry_image::bc5::{
    compress_bc5, compress_bc5_i16, compress_bc5_signed, compress_bc5_u16, decompress_bc5,
    decompress_bc5_i16, decompress_bc5_signed, decompress_bc5_u16,
};
use cry_image::bc6h::{get_mode_precisions_1subset, get_mode_precisions_2subsets, sign_extend, HDRClusterFit};
use cry_image::bc7::{apply_rotation, expand_quantized, PaletteClusterFit};
use cry_image::bitstream::BitStream128;
use cry_image::ctx1::{decompress_bitones_ctx1, decompress_ctx1_block, unpack_88, write_bitone_block_4};

#[test]
fn unpack_565_expands_each_channel() {
    assert_eq!(unpack_565(0xFFFF), [255, 255, 255]);
    assert_eq!(unpack_565(0x0000), [0, 0, 0]);
    assert_eq!(unpack_565(0xF800), [255, 0, 0]);
    assert_eq!(unpack_565(0x07E0), [0, 255, 0]);
    assert_eq!(unpack_565(0x001F), [0, 0, 255]);
    assert_eq!(unpack_565(0x8410), [132, 130, 132]);
}

#[test]
fn raw_bc1_block_layout() {
    let mut indices = [0u8; 16];
    for i in 0..16 {
        indices[i] = (i % 4) as u8;
    }
    let mut block = [0u8; 8];
    write_block_raw(0xF800, 0x001F, &indices, &mut block);
    assert_eq!(block, [0x00, 0xF8, 0x1F, 0x00, 0xE4, 0xE4, 0xE4, 0xE4]);
}

#[test]
fn bc1_four_colour_decode() {
    let mut indices = [0u8; 16];
    for i in 0..16 {
        indices[i] = (i % 4) as u8;
    }
    let mut block = [0u8; 8];
    write_block_raw(0xF800, 0x001F, &indices, &mut block);
    let mut out = [[0u8; 4]; 16];
    read_color_block_bc1_rgba(&block, &mut out);
    assert_eq!(out[0], [255, 0, 0, 255]);
    assert_eq!(out[1], [0, 0, 255, 255]);
    assert_eq!(out[2], [170, 0, 85, 255]);
    assert_eq!(out[3], [85, 0, 170, 255]);
    let mut rgb = [[0u8; 3]; 16];
    read_color_block_bc1(&block, &mut rgb);
    assert_eq!(rgb[2], [170, 0, 85]);
}

#[test]
fn bc1_three_colour_decode_has_transparent_index() {
    let mut indices = [0u8; 16];
    for i in 0..16 {
        indices[i] = (i % 4) as u8;
    }
    let mut block = [0u8; 8];
    write_block_raw(0x001F, 0xF800, &indices, &mut block);
    let mut out = [[0u8; 4]; 16];
    read_color_block_bc1_rgba(&block, &mut out);
    assert_eq!(out[2], [127, 0, 127, 255]);
    assert_eq!(out[3], [0, 0, 0, 0]);
}

#[test]
fn color_block_4_orders_endpoints_and_flips_indices() {
    let indices = [0u8; 16];
    let mut block = [0u8; 8];
    // a < b: endpoints exchanged, index 0 becomes 1.
    write_color_block_4(0x001F, 0xF800, &indices, &mut block);
    assert_eq!(&block[0..4], &[0x00, 0xF8, 0x1F, 0x00]);
    assert_eq!(&block[4..8], &[0x55, 0x55, 0x55, 0x55]);
    let mut out = [[0u8; 4]; 16];
    read_color_block_bc1_rgba(&block, &mut out);
    assert_eq!(out[0], [0, 0, 255, 255]);
}

#[test]
fn color_block_4_with_equal_endpoints_zeroes_indices() {
    let indices = [3u8; 16];
    let mut block = [0u8; 8];
    write_color_block_4(0x1234, 0x1234, &indices, &mut block);
    assert_eq!(block, [0x34, 0x12, 0x34, 0x12, 0, 0, 0, 0]);
}

#[test]
fn color_block_3_swaps_indices_zero_and_one() {
    let mut indices = [0u8; 16];
    indices[1] = 1;
    indices[2] = 2;
    indices[3] = 3;
    let mut block = [0u8; 8];
    write_color_block_3(0xF800, 0x001F, &indices, &mut block);
    assert_eq!(&block[0..4], &[0x1F, 0x00, 0x00, 0xF8]);
    let mut out = [[0u8; 4]; 16];
    read_color_block_bc1_rgba(&block, &mut out);
    assert_eq!(out[0], [255, 0, 0, 255]);
    assert_eq!(out[1], [0, 0, 255, 255]);
    assert_eq!(out[3], [0, 0, 0, 0]);
}

#[test]
fn bc2_quantizes_to_four_bits() {
    let mut alphas = [0u8; 16];
    alphas[0] = 255;
    alphas[1] = 128;
    alphas[2] = 17;
    let mut block = [0u8; 8];
    write_alpha_block_bc2(&alphas, 0xFFFF, &mut block);
    assert_eq!(block[0], 0x8F);
    assert_eq!(block[1], 0x01);
    let mut out = [0u8; 16];
    read_alpha_block_bc2(&block, &mut out);
    assert_eq!(out[0], 255);
    assert_eq!(out[1], 136);
    assert_eq!(out[2], 17);
}

#[test]
fn bc2_masked_pixels_are_zero_and_round_trip_is_close() {
    let mut alphas = [0u8; 16];
    for i in 0..16 {
        alphas[i] = (i * 16) as u8;
    }
    let mut block = [0u8; 8];
    compress_alpha_bc2(&alphas, 0x00FF, &mut block);
    let mut out = [0u8; 16];
    decompress_alpha_bc2(&block, &mut out);
    for i in 0..8 {
        assert!((out[i] as i32 - alphas[i] as i32).abs() <= 8);
    }
    for i in 8..16 {
        assert_eq!(out[i], 0);
    }
}

#[test]
fn bc3_codebooks() {
    assert_eq!(build_codebook_8(255, 0), [255, 0, 218, 182, 145, 109, 72, 36]);
    assert_eq!(build_codebook_6(0, 255), [0, 255, 51, 102, 153, 204, 0, 255]);
}

#[test]
fn bc3_fit_codes_picks_nearest_and_sums_error() {
    let codes = build_codebook_8(255, 0);
    let mut alphas = [0u8; 16];
    alphas[0] = 255;
    alphas[1] = 0;
    alphas[2] = 210;
    let mut indices = [9u8; 16];
    let err = fit_codes(&alphas, 0b111, &codes, &mut indices);
    assert_eq!(indices[0], 0);
    assert_eq!(indices[1], 1);
    assert_eq!(indices[2], 2);
    assert_eq!(indices[3], 0);
    assert_eq!(err, 64);
}

#[test]
fn bc3_block_write_and_read() {
    let mut indices = [0u8; 16];
    for i in 0..8 {
        indices[i] = 1;
    }
    let mut block = [0u8; 8];
    write_alpha_block_bc3(255, 0, &indices, &mut block);
    assert_eq!(block, [255, 0, 0x49, 0x92, 0x24, 0, 0, 0]);
    let (a0, a1, back) = read_alpha_block_bc3(&block);
    assert_eq!((a0, a1), (255, 0));
    assert_eq!(back, indices);
}

#[test]
fn bc3_compress_two_levels_exactly() {
    let mut alphas = [0u8; 16];
    for i in 8..16 {
        alphas[i] = 255;
    }
    let mut block = [0u8; 8];
    compress_alpha_bc3(&alphas, 0xFFFF, 0, &mut block);
    assert_eq!(block, [255, 0, 0x49, 0x92, 0x24, 0, 0, 0]);
    let mut out = [0u8; 16];
    decompress_alpha_bc3(&block, &mut out);
    assert_eq!(out, alphas);
}

#[test]
fn bc3_constant_alpha_round_trips() {
    let alphas = [100u8; 16];
    let mut block = [0u8; 8];
    compress_alpha_bc3(&alphas, 0xFFFF, 0, &mut block);
    assert_eq!(block, [100, 100, 0, 0, 0, 0, 0, 0]);
    let mut out = [0u8; 16];
    decompress_alpha_bc3(&block, &mut out);
    assert_eq!(out, alphas);
}

#[test]
fn bc3_decode_error_is_at_most_palette_spacing() {
    let mut alphas = [0u8; 16];
    for i in 0..16 {
        alphas[i] = (i * 17) as u8;
    }
    let mut block = [0u8; 8];
    compress_alpha_bc3(&alphas, 0xFFFF, 0, &mut block);
    let mut out = [0u8; 16];
    decompress_alpha_bc3(&block, &mut out);
    for i in 0..16 {
        assert!((out[i] as i32 - alphas[i] as i32).abs() <= 19);
    }
}

#[test]
fn bc4_unsigned_matches_bc3_alpha() {
    let mut data = [0u8; 16];
    for i in 0..16 {
        data[i] = (i * 10) as u8;
    }
    let mut b4 = [0u8; 8];
    compress_bc4(&data, 0xFFFF, 0, &mut b4);
    let mut b3 = [0u8; 8];
    compress_alpha_bc3(&data, 0xFFFF, 0, &mut b3);
    assert_eq!(b4, b3);
    let mut out = [0u8; 16];
    decompress_bc4(&b4, &mut out);
    assert_eq!(out[0], 0);
    assert_eq!(out[15], 150);
}

#[test]
fn bc4_signed_codebooks_and_fit() {
    assert_eq!(build_codebook_8_signed(127, -127), [127, -127, 90, 54, 18, -18, -54, -90]);
    assert_eq!(build_codebook_6_signed(-100, 100), [-100, 100, -60, -20, 20, 60, -127, 127]);
    let codes = build_codebook_8_signed(127, -127);
    let mut values = [0i8; 16];
    values[0] = 127;
    values[1] = -127;
    values[2] = 1;
    let mut idx = [0u8; 16];
    let err = fit_codes_signed(&values, 0b111, &codes, &mut idx);
    assert_eq!(&idx[0..3], &[0, 1, 4]);
    assert_eq!(err, 289);
}

#[test]
fn bc4_signed_constant_round_trips() {
    let data = [-50i8; 16];
    let mut block = [0u8; 8];
    compress_bc4_signed(&data, 0xFFFF, 0, &mut block);
    let mut out = [0i8; 16];
    decompress_bc4_signed(&block, &mut out);
    assert_eq!(out, data);
}

#[test]
fn bc4_sixteen_bit_codebooks() {
    assert_eq!(build_codebook_8_u16(0xFFFF, 0)[2], 56172);
    assert_eq!(build_codebook_8_i16(32767, -32767)[4], 4681);
}

#[test]
fn bc4_u16_and_i16_extremes_round_trip() {
    let mut data = [0u16; 16];
    for i in 8..16 {
        data[i] = 65535;
    }
    let mut block = [0u8; 8];
    compress_bc4_u16(&data, 0xFFFF, &mut block);
    let mut out = [0u16; 16];
    decompress_bc4_u16(&block, &mut out);
    assert_eq!(out, data);

    let mut sdata = [0i16; 16];
    for i in 0..16 {
        sdata[i] = if i % 2 == 0 { -32767 } else { 32767 };
    }
    let mut sblock = [0u8; 8];
    compress_bc4_i16(&sdata, 0xFFFF, &mut sblock);
    let mut sout = [0i16; 16];
    decompress_bc4_i16(&sblock, &mut sout);
    assert_eq!(sout, sdata);
}

#[test]
fn bc5_channels_are_two_bc4_blocks() {
    let mut red = [0u8; 16];
    let mut green = [0u8; 16];
    for i in 0..16 {
        red[i] = if i < 8 { 0 } else { 255 };
        green[i] = 77;
    }
    let mut block = [0u8; 16];
    compress_bc5(&red, &green, 0xFFFF, 0, &mut block);
    let mut r4 = [0u8; 8];
    compress_bc4(&red, 0xFFFF, 0, &mut r4);
    assert_eq!(&block[0..8], &r4);
    let mut out_r = [0u8; 16];
    let mut out_g = [0u8; 16];
    decompress_bc5(&block, &mut out_r, &mut out_g);
    assert_eq!(out_r, red);
    assert_eq!(out_g, green);
}

#[test]
fn bc5_other_kinds_round_trip_constants() {
    let red = [12i8; 16];
    let green = [-12i8; 16];
    let mut block = [0u8; 16];
    compress_bc5_signed(&red, &green, 0xFFFF, 0, &mut block);
    let mut or = [0i8; 16];
    let mut og = [0i8; 16];
    decompress_bc5_signed(&block, &mut or, &mut og);
    assert_eq!((or, og), (red, green));

    let r16 = [1000u16; 16];
    let g16 = [0u16; 16];
    let mut b16 = [0u8; 16];
    compress_bc5_u16(&r16, &g16, 0xFFFF, &mut b16);
    let mut o1 = [0u16; 16];
    let mut o2 = [0u16; 16];
    decompress_bc5_u16(&b16, &mut o1, &mut o2);
    assert_eq!(o2, g16);

    let ri = [0i16; 16];
    let gi = [0i16; 16];
    let mut bi = [0u8; 16];
    compress_bc5_i16(&ri, &gi, 0xFFFF, &mut bi);
    let mut p1 = [5i16; 16];
    let mut p2 = [5i16; 16];
    decompress_bc5_i16(&bi, &mut p1, &mut p2);
    assert_eq!((p1, p2), (ri, gi));
}

#[test]
fn bc6h_helpers() {
    assert_eq!(sign_extend(0b111, 3), -1);
    assert_eq!(sign_extend(0b011, 3), 3);
    assert_eq!(sign_extend(0b100, 3), -4);
    assert_eq!(sign_extend(0x3FF, 10), -1);
    assert_eq!(get_mode_precisions_2subsets(1), ([10, 10, 10], [5, 5, 5]));
    assert_eq!(get_mode_precisions_2subsets(10), ([6, 6, 6], [6, 6, 6]));
    assert_eq!(get_mode_precisions_1subset(14), (16, 4));
    assert_eq!(HDRClusterFit::new(0).max_iterations, 1);
    assert_eq!(HDRClusterFit::new(99).max_iterations, 15);
}

#[test]
fn bc7_helpers() {
    assert_eq!(expand_quantized(0x7F, 7, Some(1)), 255);
    assert_eq!(expand_quantized(31, 5, None), 255);
    assert_eq!(expand_quantized(16, 5, None), 132);
    assert_eq!(expand_quantized(0, 6, Some(1)), 2);
    let mut px = [1u8, 2, 3, 4];
    apply_rotation(&mut px, 1);
    assert_eq!(px, [4, 2, 3, 1]);
    apply_rotation(&mut px, 1);
    assert_eq!(px, [1, 2, 3, 4]);
    apply_rotation(&mut px, 0);
    assert_eq!(px, [1, 2, 3, 4]);
    assert_eq!(PaletteClusterFit::new(0).max_iterations, 1);
    assert_eq!(PaletteClusterFit::new(100).max_iterations, 8);
}

#[test]
fn bitstream_write_then_read() {
    let mut bs = BitStream128::new(0);
    bs.write_bits(3, 5, 0b10110);
    bs.write_bits(100, 20, 0xABCDE);
    assert_eq!(bs.read_bits(3, 5), 0b10110);
    assert_eq!(bs.read_bits(100, 20), 0xABCDE);
    assert_eq!(bs.read_bits(0, 3), 0);
    let bytes = bs.to_bytes();
    let back = BitStream128::from_bytes(&bytes);
    assert_eq!(back.read_bits(100, 20), 0xABCDE);
    assert_eq!(bytes[0], 0b1011_0000);
}

#[test]
fn ctx1_decode_and_write() {
    assert_eq!(unpack_88(0x12FF), [0x12, 0xFF]);
    let mut indices = [0u8; 16];
    for i in 0..16 {
        indices[i] = (i % 4) as u8;
    }
    let mut block = [0u8; 8];
    write_bitone_block_4(0xFF00, 0x00FF, &indices, &mut block);
    let mut out = [[0u8; 4]; 16];
    decompress_bitones_ctx1(&block, &mut out);
    let mut out2 = [[0u8; 4]; 16];
    decompress_ctx1_block(&block, &mut out2);
    assert_eq!(out, out2);
    assert_eq!(out[0][3], 255);
}

#[test]
fn ctx1_written_block_decodes_to_named_palette_entries() {
    let mut indices = [0u8; 16];
    for i in 0..16 {
        indices[i] = (i % 4) as u8;
    }
    // Endpoints given low first: the writer swaps them and flips the indices.
    let mut block = [0u8; 8];
    write_bitone_block_4(0x00FF, 0xFF00, &indices, &mut block);
    assert_eq!(&block[0..4], &[0x00, 0xFF, 0xFF, 0x00]);
    let mut out = [[0u8; 4]; 16];
    decompress_ctx1_block(&block, &mut out);
    assert_eq!(out[0], [0, 255, 0, 255]);
    assert_eq!(out[1], [255, 0, 0, 255]);
    assert_eq!(out[2], [85, 170, 0, 255]);
    assert_eq!(out[3], [170, 85, 0, 255]);
    assert_eq!(out[14], [85, 170, 0, 255]);
}

#[test]
fn bc3_block_read_then_written_back_is_unchanged() {
    for block in [[7u8, 200, 0xFF, 0x12, 0x34, 0xAB, 0xCD, 0xEF], [0u8; 8], [255u8; 8]] {
        let (a0, a1, ix) = read_alpha_block_bc3(&block);
        let mut again = [0u8; 8];
        write_alpha_block_bc3(a0, a1, &ix, &mut again);
        assert_eq!(again, block);
    }
}

#[test]
fn bc3_two_alpha_levels_decode_exactly() {
    let mut alphas = [0u8; 16];
    for i in 0..16 {
        alphas[i] = if i % 3 == 0 { 37 } else { 201 };
    }
    alphas[5] = 99; // not selected below
    let mask: u16 = !(1 << 5);
    let mut block = [0u8; 8];
    compress_alpha_bc3(&alphas, mask, 0, &mut block);
    let mut out = [0u8; 16];
    decompress_alpha_bc3(&block, &mut out);
    for i in 0..16 {
        if i != 5 {
            assert_eq!(out[i], alphas[i]);
        }
    }
}
