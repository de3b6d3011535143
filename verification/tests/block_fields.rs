use cry_image::bc6h::EndpointsRaw;
use cry_image::bc6h_fields::{decode_bc6h_block_fields, decode_bc6h_mode};
use cry_image::bc7::encode_bc7_block_mode6;
use cry_image::bc7_fields::{decode_bc7_block_fields, decode_bc7_header, decode_bc7_indices};
use cry_image::half::unquantize_bc6h_half;

#[test]
fn bc7_block_without_mode_decodes_to_zero() {
    let block = [0u8; 16];
    let h = decode_bc7_header(&block);
    assert_eq!(h.mode, 8);
    assert_eq!(h.partition, 0);
    assert_eq!(h.endpoints, [[[0u8; 4]; 2]; 3]);
    let f = decode_bc7_block_fields(&block, &[1u8; 16], &[15, 3]);
    assert_eq!(f.header.mode, 8);
    assert_eq!(f.subsets, [0u8; 16]);
    assert_eq!(f.color_indices, [0u8; 16]);
    assert_eq!(f.alpha_indices, [0u8; 16]);
}

#[test]
fn bc7_mode6_block_reads_back_its_endpoints_and_selectors() {
    let mut selectors = [0u8; 16];
    for (i, s) in selectors.iter_mut().enumerate() {
        *s = (i as u8 * 5) % 8;
    }
    let mut block = [0u8; 16];
    encode_bc7_block_mode6([10, 20, 30, 40], [100, 110, 120, 127], [1, 0], &selectors, &mut block);
    let f = decode_bc7_block_fields(&block, &[0u8; 16], &[15, 3]);
    assert_eq!(f.header.mode, 6);
    assert_eq!(f.header.rotation, 0);
    assert_eq!(f.header.endpoints[0][0], [21, 41, 61, 81]);
    assert_eq!(f.header.endpoints[0][1], [200, 220, 240, 254]);
    assert_eq!(f.color_indices, selectors);
    assert_eq!(f.alpha_indices, [0u8; 16]);
    assert_eq!(f.subsets, [0u8; 16]);
}

#[test]
fn bc7_mode6_block_with_high_first_selector_is_stored_inverted() {
    let mut selectors = [3u8; 16];
    selectors[0] = 12;
    let mut block = [0u8; 16];
    encode_bc7_block_mode6([10, 20, 30, 40], [100, 110, 120, 127], [1, 0], &selectors, &mut block);
    let f = decode_bc7_block_fields(&block, &[0u8; 16], &[15, 3]);
    assert_eq!(f.header.endpoints[0][0], [200, 220, 240, 254]);
    assert_eq!(f.header.endpoints[0][1], [21, 41, 61, 81]);
    assert_eq!(f.color_indices[0], 3);
    assert_eq!(f.color_indices[1], 12);
}

#[test]
fn bc7_two_subset_block_takes_the_partition_shape() {
    // Mode 1 (bit 1 set), partition 5 in bits 2..8.
    let mut block = [0u8; 16];
    block[0] = 0b0001_0110;
    let h = decode_bc7_header(&block);
    assert_eq!(h.mode, 1);
    assert_eq!(h.partition, 5);
    let mut shape = [0u8; 16];
    for (i, s) in shape.iter_mut().enumerate() {
        *s = (i % 2) as u8;
    }
    let f = decode_bc7_block_fields(&block, &shape, &[15, 0]);
    assert_eq!(f.subsets, shape);
    // Mode 1 endpoints: 6-bit codes with a shared p-bit, all zero here.
    assert_eq!(f.header.endpoints[0][0], [0, 0, 0, 255]);
    assert_eq!(f.header.endpoints[2][0], [0, 0, 0, 0]);
}

#[test]
fn bc7_indices_skip_a_bit_at_each_anchor() {
    // Mode 6 block whose index bits (from bit 65) are all ones.
    let mut block = [0xFFu8; 16];
    block[0] = 0b0100_0000;
    let (colors, alphas) = decode_bc7_indices(&block, &[0, 0]);
    assert_eq!(colors[0], 7);
    for c in colors.iter().skip(1) {
        assert_eq!(*c, 15);
    }
    assert_eq!(alphas, [0u8; 16]);
}

#[test]
fn bc6h_mode_codes() {
    let mut block = [0u8; 16];
    assert_eq!(decode_bc6h_mode(&block), Some(1));
    block[0] = 0b01;
    assert_eq!(decode_bc6h_mode(&block), Some(2));
    block[0] = 0b00010;
    assert_eq!(decode_bc6h_mode(&block), Some(3));
    block[0] = 0b11110;
    assert_eq!(decode_bc6h_mode(&block), Some(10));
    block[0] = 0b00011;
    assert_eq!(decode_bc6h_mode(&block), Some(11));
    block[0] = 0b01111;
    assert_eq!(decode_bc6h_mode(&block), Some(14));
    block[0] = 0b10011;
    assert_eq!(decode_bc6h_mode(&block), None);
}

#[test]
fn bc6h_reserved_mode_gives_zero_fields() {
    let mut block = [0xFFu8; 16];
    block[0] = 0b10011;
    let raw = EndpointsRaw { rs1: 7, ..EndpointsRaw::default() };
    let f = decode_bc6h_block_fields(&block, false, &raw, 15);
    assert_eq!(f.mode, 0);
    assert_eq!(f.endpoints_q, [[[0; 3]; 2]; 2]);
    assert_eq!(f.endpoints_half, [[[0; 3]; 2]; 2]);
    assert_eq!(f.indices, [0u8; 16]);
}

#[test]
fn bc6h_mode1_endpoints_are_base_plus_deltas() {
    let mut block = [0u8; 16];
    // Pixel 0 index (2 bits at bit 82) = 3; pixel 1 index (3 bits at 84) = 5.
    block[10] = 0b0101_1100;
    let raw = EndpointsRaw {
        rs1: 5,
        gs1: 100,
        bs1: 1023,
        re1: 3,
        ge1: 0x1F,
        be1: 0x10,
        rs2: 0x1F,
        gs2: 1,
        bs2: 0,
        re2: 2,
        ge2: 0,
        be2: 0,
        partition: 40,
    };
    let f = decode_bc6h_block_fields(&block, false, &raw, 15);
    assert_eq!(f.mode, 1);
    assert_eq!(f.partition, 31);
    assert_eq!(f.endpoints_q[0][0], [5, 100, 1023]);
    assert_eq!(f.endpoints_q[0][1], [8, 99, 1007]);
    assert_eq!(f.endpoints_q[1][0], [4, 101, 1023]);
    assert_eq!(f.endpoints_q[1][1], [7, 100, 1023]);
    assert_eq!(f.endpoints_half[0][1][0], unquantize_bc6h_half(8, 10, false));
    assert_eq!(f.indices[0], 3);
    assert_eq!(f.indices[1], 5);

    let g = decode_bc6h_block_fields(&block, true, &raw, 15);
    // Signed: the 10-bit base 1023 reads as -1.
    assert_eq!(g.endpoints_q[0][0], [5, 100, -1]);
    assert_eq!(g.endpoints_q[0][1], [8, 99, -17]);
}

#[test]
fn bc6h_mode11_stores_whole_endpoints_in_one_subset() {
    let mut block = [0u8; 16];
    block[0] = 0b00011;
    let raw = EndpointsRaw { rs1: 700, re1: 3, gs2: 9, ..EndpointsRaw::default() };
    let f = decode_bc6h_block_fields(&block, false, &raw, 15);
    assert_eq!(f.mode, 11);
    assert_eq!(f.partition, 0);
    assert_eq!(f.endpoints_q[0][0], [700, 0, 0]);
    assert_eq!(f.endpoints_q[0][1], [3, 0, 0]);
    assert_eq!(f.endpoints_q[1], [[0; 3]; 2]);
    assert_eq!(f.endpoints_half[1], [[0; 3]; 2]);
}

use cry_image::bc7_write::{fix_bc7_anchor_indices, write_bc7_block};

#[test]
fn bc7_writer_matches_the_mode6_packer() {
    let lo = [10u8, 20, 30, 40];
    let hi = [100u8, 110, 120, 127];
    let mut selectors = [0u8; 16];
    for (i, s) in selectors.iter_mut().enumerate() {
        *s = (i as u8 * 3) % 8;
    }
    let mut packed = [0u8; 16];
    encode_bc7_block_mode6(lo, hi, [1, 0], &selectors, &mut packed);
    let start = [lo.map(|v| v << 1); 3];
    let end = [hi.map(|v| v << 1); 3];
    let mut written = [0u8; 16];
    write_bc7_block(6, 0, 0, 0, &start, &end, &[1, 0, 0, 0, 0, 0], &selectors, &[0; 16], &[0, 0], &mut written);
    assert_eq!(written, packed);
}

#[test]
fn bc7_written_two_subset_block_reads_back() {
    let start = [[0x40u8, 0x80, 0xC0, 255], [0x04, 0x08, 0x0C, 255], [0; 4]];
    let end = [[0xFCu8, 0x00, 0x7C, 255], [0x10, 0x20, 0x30, 255], [0; 4]];
    let mut indices = [0u8; 16];
    for (i, x) in indices.iter_mut().enumerate() {
        *x = (i % 8) as u8;
    }
    indices[0] = 1;
    indices[15] = 2;
    let mut block = [0u8; 16];
    // Mode 1: two subsets, 6-bit endpoints, shared p-bits, 3-bit indices.
    write_bc7_block(1, 13, 0, 0, &start, &end, &[1, 0, 0, 0, 0, 0], &indices, &[0; 16], &[15, 0], &mut block);
    let mut shape = [0u8; 16];
    shape[15] = 1;
    let f = decode_bc7_block_fields(&block, &shape, &[15, 0]);
    assert_eq!(f.header.mode, 1);
    assert_eq!(f.header.partition, 13);
    assert_eq!(f.color_indices, indices);
    assert_eq!(f.subsets, shape);
    // 6-bit codes with the shared p-bit: 0x40 >> 2 = 16 -> (16 << 1 | 1) = 33 -> 8 bits.
    assert_eq!(f.header.endpoints[0][0][0], ((33u32 << 1) | (33u32 >> 6)) as u8);
}

#[test]
fn bc7_anchor_fix_mirrors_a_subset() {
    let mut start = [[1u8, 2, 3, 4], [5, 6, 7, 8], [0; 4]];
    let mut end = [[11u8, 12, 13, 14], [15, 16, 17, 18], [0; 4]];
    let mut p_bits = [1u8, 0, 0, 1, 0, 0];
    let mut indices = [0u8; 16];
    indices[0] = 9;
    indices[1] = 3;
    indices[15] = 2;
    let mut alpha = [0u8; 16];
    let mut shape = [0u8; 16];
    shape[15] = 1;
    // Mode 6: one subset, 4-bit indices, a p-bit per endpoint.
    fix_bc7_anchor_indices(6, &shape, &[15, 0], &mut start, &mut end, &mut p_bits, &mut indices, &mut alpha);
    assert_eq!(start[0], [11, 12, 13, 14]);
    assert_eq!(end[0], [1, 2, 3, 4]);
    assert_eq!(p_bits, [0, 1, 0, 1, 0, 0]);
    assert_eq!(indices[0], 6);
    assert_eq!(indices[1], 12);
    assert_eq!(indices[15], 13);
    assert_eq!(start[1], [5, 6, 7, 8]);

    // Mode 3: two subsets, 2-bit indices; only subset 1 (anchor 15) flips.
    let mut start = [[1u8, 2, 3, 4], [5, 6, 7, 8], [0; 4]];
    let mut end = [[11u8, 12, 13, 14], [15, 16, 17, 18], [0; 4]];
    let mut p_bits = [1u8, 0, 0, 1, 0, 0];
    let mut indices = [1u8; 16];
    indices[15] = 3;
    fix_bc7_anchor_indices(3, &shape, &[15, 0], &mut start, &mut end, &mut p_bits, &mut indices, &mut alpha);
    assert_eq!(start[0], [1, 2, 3, 4]);
    assert_eq!(start[1], [15, 16, 17, 18]);
    assert_eq!(end[1], [5, 6, 7, 8]);
    assert_eq!(p_bits, [1, 0, 1, 0, 0, 0]);
    assert_eq!(indices[0], 1);
    assert_eq!(indices[15], 0);

    // Mode 5: the alpha indices flip on their own.
    let mut start = [[1u8, 2, 3, 4], [0; 4], [0; 4]];
    let mut end = [[11u8, 12, 13, 14], [0; 4], [0; 4]];
    let mut p_bits = [0u8; 6];
    let mut indices = [0u8; 16];
    let mut alpha = [1u8; 16];
    alpha[0] = 2;
    fix_bc7_anchor_indices(5, &[0; 16], &[0, 0], &mut start, &mut end, &mut p_bits, &mut indices, &mut alpha);
    assert_eq!(start[0], [1, 2, 3, 14]);
    assert_eq!(end[0], [11, 12, 13, 4]);
    assert_eq!(alpha[0], 1);
    assert_eq!(alpha[1], 2);
}

use cry_image::bc7_partitions::insert_partition_solution;

#[test]
fn partition_candidates_stay_ordered_and_bounded() {
    let mut out = [(0usize, 0u64); 3];
    let mut n = 0;
    let errs = [(0usize, 50u64), (1, 20), (2, 70), (3, 10), (4, 20), (5, 5)];
    let mut positions = Vec::new();
    for &(p, e) in errs.iter() {
        let (m, pos) = insert_partition_solution(&mut out, n, 3, p, e);
        n = m;
        positions.push(pos);
    }
    assert_eq!(n, 3);
    assert_eq!(out, [(5, 5), (3, 10), (1, 20)]);
    assert_eq!(positions, vec![0, 0, 2, 0, 2, 0]);
}

#[test]
fn partition_candidate_past_the_limit_is_dropped() {
    let mut out = [(7usize, 1u64), (8, 2)];
    let (n, pos) = insert_partition_solution(&mut out, 2, 2, 9, 3);
    assert_eq!((n, pos), (2, 2));
    assert_eq!(out, [(7, 1), (8, 2)]);
}

use cry_image::bc6h_write::{bc6h_raw_fields, write_bc6h_block, Bc6hField};
use cry_image::bitstream::BitStream128;

fn mode11_layout() -> Vec<Bc6hField> {
    let mut l = Vec::new();
    for b in 0..5 {
        l.push(Bc6hField::M(b));
    }
    for f in [Bc6hField::RS1, Bc6hField::GS1, Bc6hField::BS1, Bc6hField::RE1, Bc6hField::GE1, Bc6hField::BE1] {
        for b in 0..10 {
            l.push(f(b));
        }
    }
    l
}

#[test]
fn bc6h_raw_fields_store_deltas_from_the_base() {
    let q = [[[5, 100, 1023], [8, 99, 1007]], [[4, 101, 1023], [7, 100, 1023]]];
    let raw = bc6h_raw_fields(1, 40, &q, false);
    assert_eq!((raw.rs1, raw.gs1, raw.bs1), (5, 100, 1023));
    assert_eq!((raw.re1, raw.ge1, raw.be1), (3, 31, 16));
    assert_eq!((raw.rs2, raw.gs2, raw.bs2), (31, 1, 0));
    assert_eq!((raw.re2, raw.ge2, raw.be2), (2, 0, 0));
    assert_eq!(raw.partition, 40);
    // Decoding those fields gives the endpoints back.
    let f = decode_bc6h_block_fields(&[0u8; 16], false, &raw, 15);
    assert_eq!(f.endpoints_q, q);
}

#[test]
fn bc6h_written_mode11_block_reads_back() {
    let q = [[[700, 5, 1023], [3, 0, 512]], [[0; 3]; 2]];
    let mut indices = [0u8; 16];
    for (i, x) in indices.iter_mut().enumerate() {
        *x = (i as u8 * 7) % 16;
    }
    indices[0] = 5;
    let layout = mode11_layout();
    let mut block = [0u8; 16];
    write_bc6h_block(11, 0, &q, &indices, false, &layout, 0, &mut block);
    assert_eq!(decode_bc6h_mode(&block), Some(11));
    let bs = BitStream128::from_bytes(&block);
    assert_eq!(bs.read_bits(5, 10), 700);
    let raw = bc6h_raw_fields(11, 0, &q, false);
    let f = decode_bc6h_block_fields(&block, false, &raw, 0);
    assert_eq!(f.mode, 11);
    assert_eq!(f.endpoints_q[0], q[0]);
    assert_eq!(f.indices, indices);
}

#[test]
fn bc7_written_mode4_block_reads_back_both_index_runs() {
    let start = [[0x80u8, 0x40, 0x20, 0xC0], [0; 4], [0; 4]];
    let end = [[0x08u8, 0x10, 0xF8, 0x04], [0; 4], [0; 4]];
    let mut colors = [0u8; 16];
    let mut alphas = [0u8; 16];
    for i in 0..16 {
        colors[i] = (i % 8) as u8;
        alphas[i] = (i % 4) as u8;
    }
    colors[0] = 3;
    alphas[0] = 1;
    let mut block = [0u8; 16];
    // Index mode 1: 3-bit colour indices, 2-bit alpha indices.
    write_bc7_block(4, 0, 2, 1, &start, &end, &[0; 6], &colors, &alphas, &[0, 0], &mut block);
    let f = decode_bc7_block_fields(&block, &[0; 16], &[0, 0]);
    assert_eq!(f.header.mode, 4);
    assert_eq!(f.header.rotation, 2);
    assert_eq!(f.header.index_mode, 1);
    assert_eq!(f.color_indices, colors);
    assert_eq!(f.alpha_indices, alphas);
}
