use cry_image::api::{compress_block, decode_block_rgba8, decompress_image, get_storage_requirements};
use cry_image::bc2::compress_alpha_bc2;
use cry_image::bc4::{compress_bc4, compress_bc4_signed};
use cry_image::bc1::write_block_raw;
use cry_image::bc3::write_alpha_block_bc3;
use cry_image::ctx1::write_bitone_block_4;
use cry_image::flags::Format;

fn ramp_indices() -> [u8; 16] {
    let mut indices = [0u8; 16];
    for i in 0..16 {
        indices[i] = (i % 4) as u8;
    }
    indices
}

fn red_blue_bc1() -> [u8; 8] {
    let mut block = [0u8; 8];
    write_block_raw(0xF800, 0x001F, &ramp_indices(), &mut block);
    block
}

fn pixel(img: &[u8], width: usize, x: usize, y: usize) -> [u8; 4] {
    let o = (y * width + x) * 4;
    [img[o], img[o + 1], img[o + 2], img[o + 3]]
}

#[test]
fn single_bc1_block_lays_out_row_by_row() {
    let block = red_blue_bc1();
    let img = decompress_image(&block, 4, 4, Format::Bc1);
    assert_eq!(img.len(), 64);
    for y in 0..4 {
        assert_eq!(pixel(&img, 4, 0, y), [255, 0, 0, 255]);
        assert_eq!(pixel(&img, 4, 1, y), [0, 0, 255, 255]);
        assert_eq!(pixel(&img, 4, 2, y), [170, 0, 85, 255]);
        assert_eq!(pixel(&img, 4, 3, y), [85, 0, 170, 255]);
    }
}

#[test]
fn partial_blocks_are_cropped() {
    // A 5 x 6 BC4 texture: 2 x 2 blocks, the right and bottom ones cut.
    let mut data = Vec::new();
    for v in [10u8, 60, 110, 160] {
        let mut b = [0u8; 8];
        write_alpha_block_bc3(v, v, &[0u8; 16], &mut b);
        data.extend_from_slice(&b);
    }
    assert_eq!(data.len(), get_storage_requirements(5, 6, Format::Bc4));
    let img = decompress_image(&data, 5, 6, Format::Bc4);
    assert_eq!(img.len(), 5 * 6 * 4);
    assert_eq!(pixel(&img, 5, 0, 0), [10, 10, 10, 255]);
    assert_eq!(pixel(&img, 5, 3, 3), [10, 10, 10, 255]);
    assert_eq!(pixel(&img, 5, 4, 0), [60, 60, 60, 255]);
    assert_eq!(pixel(&img, 5, 0, 4), [110, 110, 110, 255]);
    assert_eq!(pixel(&img, 5, 4, 5), [160, 160, 160, 255]);
}

#[test]
fn bc2_and_bc3_take_alpha_from_the_first_half() {
    let colour = red_blue_bc1();
    let mut bc2 = vec![0x21u8; 8];
    bc2.extend_from_slice(&colour);
    let img = decompress_image(&bc2, 4, 4, Format::Bc2);
    assert_eq!(pixel(&img, 4, 0, 0), [255, 0, 0, 0x11]);
    assert_eq!(pixel(&img, 4, 1, 0), [0, 0, 255, 0x22]);

    let mut a = [0u8; 8];
    write_alpha_block_bc3(200, 200, &[0u8; 16], &mut a);
    let mut bc3 = a.to_vec();
    bc3.extend_from_slice(&colour);
    let img = decompress_image(&bc3, 4, 4, Format::Bc3);
    assert_eq!(pixel(&img, 4, 2, 3), [170, 0, 85, 200]);
}

#[test]
fn bc5_and_ctx1_blocks() {
    let mut r = [0u8; 8];
    let mut g = [0u8; 8];
    write_alpha_block_bc3(40, 40, &[0u8; 16], &mut r);
    write_alpha_block_bc3(90, 90, &[0u8; 16], &mut g);
    let mut bc5 = r.to_vec();
    bc5.extend_from_slice(&g);
    let px = decode_block_rgba8(Format::Bc5, &bc5, 0);
    assert_eq!(px[7], [40, 90, 0, 255]);

    let mut c = [0u8; 8];
    write_bitone_block_4(0x1234, 0x1234, &[0u8; 16], &mut c);
    let img = decompress_image(&c, 2, 2, Format::Ctx1);
    assert_eq!(img, vec![0x12, 0x34, 0, 255, 0x12, 0x34, 0, 255, 0x12, 0x34, 0, 255, 0x12, 0x34, 0, 255]);
}

#[test]
fn empty_texture_decodes_to_nothing() {
    assert!(decompress_image(&[], 0, 7, Format::Bc1).is_empty());
}

#[test]
fn block_assembly_per_format() {
    let mut px = [[0u8; 4]; 16];
    for i in 0..16 {
        px[i] = [(i * 16) as u8, 255 - (i * 16) as u8, 7, (i * 17) as u8];
    }
    let colour = red_blue_bc1();
    // BC1: the fit is the block.
    assert_eq!(compress_block(&px, 0xFFFF, Format::Bc1, false, false, &colour), colour.to_vec());
    // BC2: alpha block of channel 3, then the colour fit.
    let bc2 = compress_block(&px, 0xFFFF, Format::Bc2, false, false, &colour);
    let alphas: [u8; 16] = core::array::from_fn(|i| px[i][3]);
    let mut a = [0u8; 8];
    compress_alpha_bc2(&alphas, 0xFFFF, &mut a);
    assert_eq!(&bc2[0..8], &a);
    assert_eq!(&bc2[8..16], &colour);
    // BC4: channel 0, unsigned and signed (0 maps to -127).
    let reds: [u8; 16] = core::array::from_fn(|i| px[i][0]);
    let mut b4 = [0u8; 8];
    compress_bc4(&reds, 0xFFFF, 0, &mut b4);
    assert_eq!(compress_block(&px, 0xFFFF, Format::Bc4, false, false, &[]), b4.to_vec());
    let sreds: [i8; 16] = core::array::from_fn(|i| if px[i][0] == 0 { -127 } else { (px[i][0] as i32 - 128) as i8 });
    let mut s4 = [0u8; 8];
    compress_bc4_signed(&sreds, 0xFFFF, 0, &mut s4);
    assert_eq!(compress_block(&px, 0xFFFF, Format::Bc4, true, false, &[]), s4.to_vec());
    // BC5 normal maps take the whole block from the fit.
    let fit16 = [3u8; 16];
    assert_eq!(compress_block(&px, 0xFFFF, Format::Bc5, false, true, &fit16), fit16.to_vec());
    assert_eq!(compress_block(&px, 0xFFFF, Format::Bc5, false, false, &[]).len(), 16);
}
