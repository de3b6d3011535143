use std::collections::HashMap;

use cry_image::crytif_io::CryTifIO;
use cry_image::dds_io::{block_compressed, DdsIO};
use cry_image::image_details::{decimal_u32, AssetDetail, ImageDetails};
use cry_image::iptc_header::{IptcHeader, FIELD_SPECIAL_INSTRUCTIONS};
use cry_image::tga_io::TgaIO;

fn le32(bytes: &[u8], at: usize) -> u32 {
    u32::from_le_bytes([bytes[at], bytes[at + 1], bytes[at + 2], bytes[at + 3]])
}

fn details(d: &[AssetDetail]) -> Vec<(String, String)> {
    d.iter().map(|a| (a.name.clone(), a.value.clone())).collect()
}

#[test]
fn dds_bc1_file_layout() {
    let payload = [7u8; 8];
    let file = DdsIO::build_dds_file(4, 4, 1, 71, false, false, false, false, false, &payload, None);
    assert_eq!(file.len(), 164);
    assert_eq!(&file[0..4], b"DDS ");
    assert_eq!(le32(&file, 4), 124);
    assert_eq!(le32(&file, 8), 0xA1007);
    assert_eq!(le32(&file, 12), 4);
    assert_eq!(le32(&file, 16), 4);
    assert_eq!(le32(&file, 20), 8);
    assert_eq!(le32(&file, 28), 1);
    assert_eq!(&file[32..36], b"FYRC");
    assert_eq!(le32(&file, 36), 0);
    assert_eq!(le32(&file, 40), 0x040401);
    assert_eq!(le32(&file, 60), 0x3F80_0000);
    assert_eq!(le32(&file, 76), 32);
    assert_eq!(le32(&file, 80), 4);
    assert_eq!(&file[84..88], b"DX10");
    assert_eq!(le32(&file, 108), 0x1000);
    assert_eq!(le32(&file, 128), 71);
    assert_eq!(le32(&file, 132), 3);
    assert_eq!(le32(&file, 140), 1);
    assert_eq!(&file[148..156], &payload);
    assert_eq!(&file[156..160], b"CExt");
    assert_eq!(&file[160..164], b"CEnd");
}

#[test]
fn dds_uncompressed_has_pitch_and_masks() {
    let payload = [0u8; 16];
    let file = DdsIO::build_dds_file(2, 2, 3, 87, true, false, false, false, true, &payload, None);
    assert_eq!(le32(&file, 8), 0x2100F);
    assert_eq!(le32(&file, 20), 8);
    assert_eq!(le32(&file, 36), 0x8 | 0x10);
    assert_eq!(le32(&file, 40), 3 | (1 << 8) | (1 << 16));
    assert_eq!(le32(&file, 80), 0x41);
    assert_eq!(le32(&file, 88), 32);
    assert_eq!(le32(&file, 92), 0x00FF_0000);
    assert_eq!(le32(&file, 104), 0xFF00_0000);
    assert_eq!(le32(&file, 108), 0x40_1008);
    assert_eq!(file.len(), 128 + 16 + 8);
}

#[test]
fn dds_attached_alpha_chunk() {
    let payload = [1u8; 8];
    let alpha = [2u8; 8];
    let file = DdsIO::build_dds_file(4, 4, 1, 71, false, true, true, false, false, &payload, Some(&alpha));
    assert_eq!(le32(&file, 36), 0x1 | 0x20);
    assert_eq!(le32(&file, 112), 0xFE00);
    assert_eq!(&file[156..160], b"CExt");
    assert_eq!(&file[160..164], b"AttC");
    assert_eq!(le32(&file, 164), 156);
    assert_eq!(&file[168..172], b"DDS ");
    // nested stream: BC4, cube-map flag inherited, DX10 header like the main one
    assert_eq!(le32(&file, 168 + 36), 0x1);
    assert_eq!(le32(&file, 168 + 128), 80);
    assert_eq!(&file[file.len() - 4..], b"CEnd");
    assert_eq!(file.len(), 156 + 12 + 156 + 4);
}

#[test]
fn dds_attached_alpha_ignored_without_flag() {
    let payload = [1u8; 8];
    let alpha = [2u8; 8];
    let file = DdsIO::build_dds_file(4, 4, 1, 71, false, false, false, false, false, &payload, Some(&alpha));
    assert_eq!(file.len(), 164);
    assert!(block_compressed(98));
    assert!(!block_compressed(87));
}

#[test]
fn dds_details_read_back() {
    let payload = [0u8; 16];
    let file = DdsIO::build_dds_file(640, 480, 0, 77, false, false, false, false, false, &payload, None);
    let mut d = Vec::new();
    assert!(ImageDetails::collect_dds_details_from_bytes(&file, &mut d).is_ok());
    assert_eq!(
        details(&d),
        vec![
            ("width".to_string(), "640".to_string()),
            ("height".to_string(), "480".to_string()),
            ("mipCount".to_string(), "1".to_string()),
        ]
    );
}

#[test]
fn dds_details_reject_bad_input() {
    let mut d = Vec::new();
    assert!(ImageDetails::collect_dds_details_from_bytes(&[0u8; 64], &mut d).is_err());
    let mut bad = vec![0u8; 200];
    bad[0..4].copy_from_slice(b"DDX ");
    assert!(ImageDetails::collect_dds_details_from_bytes(&bad, &mut d).is_err());
    assert!(d.is_empty());
}

#[test]
fn decimal_digits() {
    assert_eq!(decimal_u32(0), vec!['0']);
    assert_eq!(decimal_u32(4_294_967_295).iter().collect::<String>(), "4294967295");
}

#[test]
fn tif_asset_details_from_instructions() {
    let mut d = Vec::new();
    ImageDetails::collect_tif_details_from_instructions("/preset=X /cryasset=a,1;b,2;bad /cryasset=c,3", &mut d);
    assert_eq!(
        details(&d),
        vec![
            ("a".to_string(), "1".to_string()),
            ("b".to_string(), "2".to_string()),
            ("c".to_string(), "3".to_string()),
        ]
    );
}

#[test]
fn tga_header_and_pixels() {
    let px = [1u8, 2, 3, 4, 5, 6, 7, 8];
    let file = TgaIO::build_tga_32bpp(2, 1, &px);
    assert_eq!(
        file,
        vec![0, 0, 2, 0, 0, 0, 0, 0, 0, 0, 0, 0, 2, 0, 1, 0, 32, 40, 1, 2, 3, 4, 5, 6, 7, 8]
    );
}

#[test]
fn iptc_build_then_parse_round_trips() {
    let mut h = IptcHeader::new();
    h.fields.insert(0x28, vec![b"first".to_vec(), b"second".to_vec()]);
    h.fields.insert(0x05, vec![b"title".to_vec()]);
    let bytes = h.build_bytes();
    assert_eq!(bytes.len(), (5 + 5) + (5 + 6) + (5 + 5));
    let mut back = IptcHeader::new();
    back.parse(&bytes);
    assert_eq!(back.fields, h.fields);
}

#[test]
fn iptc_record_layout() {
    let mut h = IptcHeader::new();
    h.fields.insert(FIELD_SPECIAL_INSTRUCTIONS, vec![b"ab".to_vec()]);
    assert_eq!(h.build_bytes(), vec![0x1C, 0x02, 0x28, 0x00, 0x02, b'a', b'b']);
}

#[test]
fn iptc_parse_skips_other_records_and_stops_at_garbage() {
    let buf = [
        0x1C, 0x01, 0x05, 0x00, 0x01, b'x', // record type 1: skipped
        0x1C, 0x02, 0x28, 0x00, 0x02, b'o', b'k', // kept
        0x00, 0x1C, 0x02, 0x28, 0x00, 0x01, b'z', // not a marker: stop
    ];
    let mut h = IptcHeader::new();
    h.parse(&buf);
    let mut expected: HashMap<u8, Vec<Vec<u8>>> = HashMap::new();
    expected.insert(0x28, vec![b"ok".to_vec()]);
    assert_eq!(h.fields, expected);
}

#[test]
fn iptc_parse_stops_at_overlong_record() {
    let buf = [0x1C, 0x02, 0x28, 0x00, 0x09, b'a', b'b'];
    let mut h = IptcHeader::new();
    h.parse(&buf);
    assert!(h.fields.is_empty());
}

#[test]
fn iptc_combined_fields_are_trimmed_and_joined() {
    let mut h = IptcHeader::new();
    h.fields.insert(0x28, vec![b"  one ".to_vec(), b"two\t".to_vec()]);
    assert_eq!(h.get_combined_fields(0x28, ", "), "one, two");
    assert_eq!(h.get_combined_fields(0x29, ", "), "");
}

#[test]
fn crytif_assembled_file_reads_back_instructions() {
    let file = CryTifIO::assemble_crytif(3, 2, &[9, 9, 9], "  /preset=Albedo  ");
    assert_eq!(&file[0..4], b"II\x2A\x00");
    assert_eq!(le32(&file, 4), 8);
    assert!(CryTifIO::instructions_readable_exec(&file));
    assert_eq!(CryTifIO::read_special_instructions_from_bytes(&file), Ok("/preset=Albedo".to_string()));
}

#[test]
fn crytif_compressed_file_reads_back_instructions() {
    let pixels = [10u8; 64];
    let file = CryTifIO::build_crytif_rgba8(4, 4, &pixels, "/mipmaps=0").expect("compression succeeds");
    assert_eq!(CryTifIO::read_special_instructions_from_bytes(&file), Ok("/mipmaps=0".to_string()));
    // The strip offset (tag 273) points at a zlib stream of the pixels.
    assert_eq!(u16::from_le_bytes([file[70], file[71]]), 273);
    let strip_off = le32(&file, 78) as usize;
    let strip = &file[strip_off..];
    assert!(strip.len() < pixels.len());
    let mut unpacked = Vec::new();
    std::io::Read::read_to_end(&mut flate2::read::ZlibDecoder::new(strip), &mut unpacked).unwrap();
    assert_eq!(unpacked, pixels.to_vec());
}

#[test]
fn crytif_reader_errors_and_empty_cases() {
    assert!(CryTifIO::read_special_instructions_from_bytes(&[1, 2, 3]).is_err());
    assert_eq!(CryTifIO::read_special_instructions_from_bytes(&[0u8; 32]), Ok(String::new()));
}

#[test]
fn dds_header_fields_for_large_images() {
    // A BC1 texture 2^30 texels wide: the linear size is 2^28 blocks * 8 bytes.
    let file = DdsIO::build_dds_file(1 << 30, 4, 1, 71, false, false, false, false, false, &[1, 2], None);
    assert_eq!(le32(&file, 16), 1 << 30);
    assert_eq!(le32(&file, 20), 1 << 31);
    // An uncompressed image 1000 x 2^30: the pitch is 4000.
    let file = DdsIO::build_dds_file(1000, 1 << 30, 1, 87, false, false, false, false, false, &[], None);
    assert_eq!(le32(&file, 20), 4000);
}
