use cry_image::astc::{AstcBlockDim, AstcCompressor, AstcPixelFormat};
use cry_image::channel_conversion::{ChannelConverter, ColorRGBA8};
use cry_image::colorspaces::Rgb9E5;
use cry_image::filtering::Scalers;
use cry_image::api::get_storage_requirements;
use cry_image::flags::{Format, MipmapFilter, QualityLevel};
use cry_image::image_object::{initial_image_flags, mip_extent, ECubemap, MipLevel, EIF_CUBEMAP};
use cry_image::image_properties::ImageProperties;
use cry_image::lut_3d_color_chart::{ColorChart, Lut3DColorChart};
use cry_image::operations::Histogram;
use cry_image::pixel_format::{map_engine_format_to_tf, EPixelFormat};
use cry_image::pvrtc::{PvrPixelFormat, PvrtcCompressor};
use cry_image::text::{join_strings, parse_i32, parse_usize, split, to_ascii_lower, trim};
use cry_image::vector::{Col3, Col4};

fn chars(s: &str) -> Vec<char> {
    s.chars().collect()
}

#[test]
fn text_trim_split_lower() {
    assert_eq!(trim(&chars("  a b \t")), chars("a b"));
    assert_eq!(trim(&chars("   ")), Vec::<char>::new());
    assert_eq!(to_ascii_lower(&chars("PC-Ä")), chars("pc-Ä"));
    let parts = split(&chars("a,,b,"), ',');
    assert_eq!(parts, vec![chars("a"), vec![], chars("b"), vec![]]);
    assert_eq!(split(&chars(""), ','), vec![Vec::<char>::new()]);
    let joined = join_strings(&vec!["x".to_string(), "y".to_string(), "z".to_string()], "--");
    assert_eq!(joined, "x--y--z");
}

#[test]
fn decimal_parsing_matches_std() {
    for s in ["0", "42", "-7", "+7", "2147483647", "-2147483648", "2147483648", "", "-", "+", "1a", " 1"] {
        assert_eq!(parse_i32(&chars(s)), s.parse::<i32>().ok(), "input {:?}", s);
        assert_eq!(parse_usize(&chars(s)), s.parse::<usize>().ok(), "input {:?}", s);
    }
}

#[test]
fn reduce_string_with_platforms() {
    let mut p = ImageProperties::default();
    p.parse_reduce_string("PC:1, ps4 : 9 ,xbox:-5,bad,pc:2");
    assert_eq!(p.get_resolution_reduce_for_platform("pc"), 2);
    assert_eq!(p.get_resolution_reduce_for_platform("PS4"), 5);
    assert_eq!(p.get_resolution_reduce_for_platform("xbox"), 0);
    assert_eq!(p.get_resolution_reduce_for_platform("ios"), 0);
    assert_eq!(p.reduce_map.len(), 3);
    assert_eq!(p.reduce_map[0].platform_name, "pc");
    assert_eq!(p.reduce_map[0].value, 2);
    assert_eq!(p.reduce_map[1].value, 5);
    assert_eq!(p.reduce_map[2].value, -2);
    assert_eq!(p.reduce_map[2].platform_index, -1);
}

#[test]
fn reduce_string_single_value_is_pc() {
    let mut p = ImageProperties::default();
    p.parse_reduce_string(" 3 ");
    assert_eq!(p.reduce_map.len(), 1);
    assert_eq!(p.reduce_map[0].platform_name, "pc");
    assert_eq!(p.reduce_map[0].platform_index, 0);
    assert_eq!(p.get_resolution_reduce_for_platform("PC"), 3);
    p.parse_reduce_string("nonsense");
    assert_eq!(p.get_resolution_reduce_for_platform("pc"), 0);
    assert_eq!(p.preset, "Albedo");
    assert!(p.generate_mips);
}

#[test]
fn astc_block_dimension_parsing() {
    assert_eq!(AstcBlockDim::parse("6x6"), AstcBlockDim { x: 6, y: 6 });
    assert_eq!(AstcBlockDim::parse("2x40"), AstcBlockDim { x: 4, y: 12 });
    assert_eq!(AstcBlockDim::parse("8xq"), AstcBlockDim { x: 8, y: 4 });
    assert_eq!(AstcBlockDim::parse("8"), AstcBlockDim { x: 4, y: 4 });
    assert_eq!(AstcBlockDim::parse("+5x10"), AstcBlockDim { x: 5, y: 10 });
}

#[test]
fn astc_constant_block() {
    let px = [50u8; 4 * 16];
    let dim = AstcBlockDim { x: 4, y: 4 };
    let block = AstcCompressor::encode_astc_block(&px, dim, AstcPixelFormat::LdrL);
    // grid mode 1, colour endpoint mode 0, endpoints 50 and 50 from bit 17
    let low = u64::from_le_bytes(block[0..8].try_into().unwrap());
    let high = u64::from_le_bytes(block[8..16].try_into().unwrap());
    assert_eq!(low, 1 | ((50u64 | (50u64 << 8)) << 17));
    assert_eq!(high, 0);
}

#[test]
fn astc_rgba_block_fields() {
    let mut px = [0u8; 4 * 16];
    for i in 0..16 {
        px[4 * i] = if i % 2 == 0 { 0 } else { 255 };
        px[4 * i + 3] = 255;
    }
    let dim = AstcBlockDim { x: 4, y: 4 };
    let block = AstcCompressor::encode_astc_block(&px, dim, AstcPixelFormat::LdrRGBA);
    let low = u64::from_le_bytes(block[0..8].try_into().unwrap());
    assert_eq!(low & 0x7FF, 1);
    assert_eq!((low >> 13) & 0xF, 12);
    let row = AstcCompressor::encode_block_row(&px, 4, 4, dim, AstcPixelFormat::LdrRGBA, 0);
    assert_eq!(row, block.to_vec());
}

#[test]
fn morton_order_round_trips() {
    assert_eq!(PvrtcCompressor::morton_2d(0, 0), 0);
    assert_eq!(PvrtcCompressor::morton_2d(1, 0), 1);
    assert_eq!(PvrtcCompressor::morton_2d(0, 1), 2);
    assert_eq!(PvrtcCompressor::morton_2d(3, 3), 15);
    for (x, y) in [(5usize, 9usize), (65535, 0), (1234, 4321)] {
        let m = PvrtcCompressor::morton_2d(x, y);
        assert_eq!(PvrtcCompressor::unmorton_2d(m), (x, y));
    }
}

#[test]
fn pvrtc_blocks() {
    let mut img = vec![0u8; 8 * 8 * 4];
    for p in 0..64 {
        img[4 * p] = (p * 4) as u8;
        img[4 * p + 3] = 255;
    }
    let (mins, maxs) = PvrtcCompressor::pvrtc4_color_tables(&img, 8, 8);
    assert_eq!(mins.len(), 4);
    let (mn, mx) = PvrtcCompressor::footprint_bounds(&img, 8, 8, 4, 1, 0);
    assert_eq!(mins[1], mn);
    assert_eq!(maxs[1], mx);
    assert_eq!(mn[0], 16);
    assert_eq!(mx[0], 16 + 4 * 27);
    let word = PvrtcCompressor::pvrtc4_block_word(&img, 8, 8, 1, 0, &mn, &mx);
    assert_eq!(word[5] & 0x80, 0x80);
    let w2 = PvrtcCompressor::pvrtc2_block_word(&img, 8, 8, 0, 0);
    assert_eq!(w2[5] & 0x80, 0x80);
    assert_eq!(w2[7] & 0x80, 0x80);
}

#[test]
fn etc_rows_sample_top_left_pixel() {
    let mut img = vec![0u8; 8 * 4 * 4];
    img[0..4].copy_from_slice(&[1, 2, 3, 4]);
    img[16..20].copy_from_slice(&[5, 6, 7, 8]);
    let row = PvrtcCompressor::etc_block_row(&img, 8, 4, PvrPixelFormat::ETC2, 0);
    assert_eq!(row, vec![3, 2, 1, 0, 0x20, 0, 0, 0, 7, 6, 5, 0, 0x20, 0, 0, 0]);
    let rg = PvrtcCompressor::etc_block_row(&img, 8, 4, PvrPixelFormat::EacRg11, 0);
    assert_eq!(rg.len(), 32);
    assert_eq!((rg[0], rg[8]), (3, 2));
    let a = PvrtcCompressor::etc_block_row(&img, 8, 4, PvrPixelFormat::ETC2a, 0);
    assert_eq!((a[0], a[8], a[9], a[10]), (4, 3, 2, 1));
}

#[test]
fn horizontal_upscale_repeats_pixels() {
    let src = [1u32, 2, 3, 4, 5, 6];
    let (dst, w, h) = Scalers::upscale_pow2_twice_horizontally(&src, 3, 2);
    assert_eq!((w, h), (6, 2));
    assert_eq!(dst, vec![1, 1, 2, 2, 3, 3, 4, 4, 5, 5, 6, 6]);
}

#[test]
fn histogram_counts_bins() {
    let h = Histogram::from_bin_indices(&[0, 3, 3, 255, 900]);
    assert_eq!(h.bins[0], 1);
    assert_eq!(h.bins[3], 2);
    assert_eq!(h.bins[255], 2);
    assert_eq!(h.bins.iter().sum::<u64>(), 5);
}

#[test]
fn formats_and_flags() {
    assert_eq!(Format::Bc1.bytes_per_block(), 8);
    assert_eq!(Format::Bc7.bytes_per_block(), 16);
    assert_eq!(Format::Bc3.dxgi_format(false, true), 78);
    assert_eq!(Format::Bc5.dxgi_format(true, false), 84);
    assert_eq!(get_storage_requirements(5, 5, Format::Bc1), 4 * 8);
    assert_eq!(get_storage_requirements(4, 4, Format::Bc7), 16);
    assert_eq!(QualityLevel::default(), QualityLevel::Normal);
    assert_eq!(MipmapFilter::default(), MipmapFilter::Box);
    assert_eq!(map_engine_format_to_tf(EPixelFormat::BC5s), (Format::Bc5, true));
    assert_eq!(map_engine_format_to_tf(EPixelFormat::A8R8G8B8), (Format::Bc7, false));
    assert_eq!(initial_image_flags(ECubemap::Yes), EIF_CUBEMAP);
    assert_eq!(initial_image_flags(ECubemap::No), 0);
    let mips = vec![MipLevel { width: 8, height: 4, row_count: 1, pitch: 32, data: vec![] }];
    assert_eq!(mip_extent(&mips), (8, 4, 1));
    assert_eq!(mip_extent(&vec![]), (0, 0, 0));
    assert_eq!(Rgb9E5::new(0x1234).raw, 0x1234);
    assert_eq!(Col3::default(), Col3 { r: 0, g: 0, b: 0 });
    assert_eq!(Col4::default().a, 0);
}

#[test]
fn channel_conversions() {
    let px = ChannelConverter::convert_l8_to_rgba8(&[7, 9]);
    assert_eq!(px, vec![ColorRGBA8::new(7, 7, 7, 255), ColorRGBA8::new(9, 9, 9, 255)]);
    let la = ChannelConverter::convert_a8l8_to_rgba8(&[10, 200]);
    assert_eq!(la.len(), 1);
    let mut pixels = vec![ColorRGBA8::new(1, 2, 3, 4)];
    ChannelConverter::swizzle_pixels(&mut pixels, "ABGR");
    assert_eq!(pixels[0], ColorRGBA8::new(4, 3, 2, 1));
    let mut same = vec![ColorRGBA8::new(1, 2, 3, 4)];
    ChannelConverter::swizzle_pixels(&mut same, "rgba");
    assert_eq!(same[0], ColorRGBA8::new(1, 2, 3, 4));
}

#[test]
fn lut_chart_identity_and_round_trip() {
    let mut chart = Lut3DColorChart::default();
    chart.generate_default();
    assert_eq!(chart.mapping.len(), 4096);
    let (w, h, img) = chart.generate_chart_image().expect("chart is ready");
    let mut other = Lut3DColorChart::default();
    assert!(other.generate_from_input(w, h, &img, w * 4).is_ok());
    assert_eq!(other.mapping, chart.mapping);
}

#[test]
fn rgb9e5_packs_and_unpacks_parts() {
    let t = Rgb9E5::from_parts(3, 600, 511, 17);
    assert_eq!(t.raw, 3 + 511 * 512 + 511 * 262144 + 17 * 134217728);
    assert_eq!(t.parts(), (3, 511, 511, 17));
    let u = Rgb9E5::new(0xFFFF_FFFF);
    assert_eq!(u.parts(), (511, 511, 511, 31));
    assert_eq!(Rgb9E5::from_parts(0, 0, 0, 0), Rgb9E5::new(0));
}

#[test]
fn unicode_white_space_is_trimmed_and_punctuation_kept() {
    assert_eq!(trim(&chars("\u{3000}\u{85}-7\u{A0}\n")), chars("-7"));
    assert_eq!(trim(&chars(" /preset=A ")), chars("/preset=A"));
    assert_eq!(trim(&chars("\u{200B}x")), chars("\u{200B}x"));
}
