//! Writing a BC6H block: the raw endpoint fields are derived from the
//! quantized endpoints (base values cut to their precision, the others
//! stored whole in modes 10 and 11 or as deltas from the base), scattered
//! bit by bit over the block by the mode's layout, and followed by the
//! indices. The caller passes the mode's layout and, for two-subset modes,
//! the anchor pixel of subset 1 of the partition.

use vstd::prelude::*;
use crate::bc6h::{
    get_mode_precisions_1subset, get_mode_precisions_2subsets, precisions_1subset,
    precisions_2subsets, sign_extend, sign_extended, EndpointsRaw,
};
use crate::bc7_write::{
    index_fields, lemma_pack_read, lemma_pack_total, lemma_pack_uniform, pack_fields,
};
use crate::bc6h_fields::{base_bits, bc6h_mode, bc6h_quantized};
use crate::bitstream::{from_le_bytes_128, lemma_bytes_roundtrip, spec_read_bits};
use crate::bitstream::le_bytes_128;

verus! {

/// Where one bit of a BC6H block comes from: bit `b` of the mode code, of
/// the partition, or of one of the raw endpoint fields (start or end of
/// subset 1 or 2, red, green or blue).
#[derive(Debug, Clone, Copy, PartialEq, Eq, Structural)]
pub enum Bc6hField {
    M(u32),
    D(u32),
    RS1(u32),
    GS1(u32),
    BS1(u32),
    RE1(u32),
    GE1(u32),
    BE1(u32),
    RS2(u32),
    GS2(u32),
    BS2(u32),
    RE2(u32),
    GE2(u32),
    BE2(u32),
}

/// The mode code of BC6H mode `mode` (two bits for modes 1 and 2, five
/// for the others).
pub open spec fn mode_code(mode: usize) -> u32 {
    if mode == 1 {
        0b00
    } else if mode == 2 {
        0b01
    } else if mode == 3 {
        0b00010
    } else if mode == 4 {
        0b00110
    } else if mode == 5 {
        0b01010
    } else if mode == 6 {
        0b01110
    } else if mode == 7 {
        0b10010
    } else if mode == 8 {
        0b10110
    } else if mode == 9 {
        0b11010
    } else if mode == 10 {
        0b11110
    } else if mode == 11 {
        0b00011
    } else if mode == 12 {
        0b00111
    } else if mode == 13 {
        0b01011
    } else {
        0b01111
    }
}

/// The low `b` bits of `x`.
pub open spec fn cut(x: u32, b: u32) -> u32 {
    x & (((1u32 << b) - 1) as u32)
}

/// A stored endpoint channel: `q` itself (cut to `whole_bits`) in modes 10
/// and 11, else its difference from the base `base`, cut to `delta_bits`.
pub open spec fn stored_channel(q: i32, base: int, whole: bool, whole_bits: u32, delta_bits: u32) -> u32 {
    if whole {
        cut(q as u32, whole_bits)
    } else {
        cut((q - base) as u32, delta_bits)
    }
}

/// The raw fields that BC6H mode `mode` stores for the quantized endpoints
/// `q` (subset, endpoint, channel) and the partition `partition`.
pub open spec fn raw_from_endpoints(
    mode: usize,
    partition: usize,
    q: [[[i32; 3]; 2]; 2],
    is_signed: bool,
) -> EndpointsRaw {
    let two = mode <= 10;
    let b = |c: int|
        if two {
            precisions_2subsets(mode).0[c]
        } else {
            precisions_1subset(mode).0
        };
    let d = |c: int|
        if two {
            precisions_2subsets(mode).1[c]
        } else {
            precisions_1subset(mode).1
        };
    let whole = mode == 10 || mode == 11;
    let wb: u32 = if mode == 10 {
        6
    } else {
        10
    };
    let s = |c: int| cut(q[0][0][c] as u32, b(c));
    let base = |c: int|
        if is_signed {
            sign_extended(s(c), b(c))
        } else {
            s(c) as int
        };
    EndpointsRaw {
        rs1: s(0),
        gs1: s(1),
        bs1: s(2),
        re1: stored_channel(q[0][1][0], base(0), whole, wb, d(0)),
        ge1: stored_channel(q[0][1][1], base(1), whole, wb, d(1)),
        be1: stored_channel(q[0][1][2], base(2), whole, wb, d(2)),
        rs2: if two { stored_channel(q[1][0][0], base(0), whole, wb, d(0)) } else { 0 },
        gs2: if two { stored_channel(q[1][0][1], base(1), whole, wb, d(1)) } else { 0 },
        bs2: if two { stored_channel(q[1][0][2], base(2), whole, wb, d(2)) } else { 0 },
        re2: if two { stored_channel(q[1][1][0], base(0), whole, wb, d(0)) } else { 0 },
        ge2: if two { stored_channel(q[1][1][1], base(1), whole, wb, d(1)) } else { 0 },
        be2: if two { stored_channel(q[1][1][2], base(2), whole, wb, d(2)) } else { 0 },
        partition: partition as u32,
    }
}

/// The bit index that layout entry `f` names.
pub open spec fn field_index(f: Bc6hField) -> u32 {
    match f {
        Bc6hField::M(b) | Bc6hField::D(b) | Bc6hField::RS1(b) | Bc6hField::GS1(b)
        | Bc6hField::BS1(b) | Bc6hField::RE1(b) | Bc6hField::GE1(b) | Bc6hField::BE1(b)
        | Bc6hField::RS2(b) | Bc6hField::GS2(b) | Bc6hField::BS2(b) | Bc6hField::RE2(b)
        | Bc6hField::GE2(b) | Bc6hField::BE2(b) => b,
    }
}

/// The bit that field `f` of a layout stands for.
pub open spec fn field_bit(f: Bc6hField, raw: EndpointsRaw, code: u32) -> u32 {
    match f {
        Bc6hField::M(b) => (code >> b) & 1,
        Bc6hField::D(b) => (raw.partition >> b) & 1,
        Bc6hField::RS1(b) => (raw.rs1 >> b) & 1,
        Bc6hField::GS1(b) => (raw.gs1 >> b) & 1,
        Bc6hField::BS1(b) => (raw.bs1 >> b) & 1,
        Bc6hField::RE1(b) => (raw.re1 >> b) & 1,
        Bc6hField::GE1(b) => (raw.ge1 >> b) & 1,
        Bc6hField::BE1(b) => (raw.be1 >> b) & 1,
        Bc6hField::RS2(b) => (raw.rs2 >> b) & 1,
        Bc6hField::GS2(b) => (raw.gs2 >> b) & 1,
        Bc6hField::BS2(b) => (raw.bs2 >> b) & 1,
        Bc6hField::RE2(b) => (raw.re2 >> b) & 1,
        Bc6hField::GE2(b) => (raw.ge2 >> b) & 1,
        Bc6hField::BE2(b) => (raw.be2 >> b) & 1,
    }
}

/// The fields of a BC6H block in storage order: one bit per layout entry,
/// then the 16 indices (3 bits, or 4 in one-subset modes; one bit fewer at
/// pixel 0 and at the anchor of subset 1).
pub open spec fn bc6h_layout(
    mode: usize,
    layout: Seq<Bc6hField>,
    raw: EndpointsRaw,
    indices: Seq<u8>,
    anchor1: usize,
) -> Seq<(u32, u32)> {
    let two = mode <= 10;
    Seq::new(layout.len(), |i: int| (1u32, field_bit(layout[i], raw, mode_code(mode))))
        + index_fields(
        if two {
            3
        } else {
            4
        },
        if two {
            2
        } else {
            1
        },
        anchor1,
        0,
        indices,
    )
}

/// The mask of the low `b` bits (`b` at most 16).
fn low_mask(b: u32) -> (r: u32)
    requires
        b <= 16,
    ensures
        r == ((1u32 << b) - 1) as u32,
        r <= 0xFFFF,
{
    proof {
        vstd::arithmetic::power2::lemma2_to64();
        if b < 16 {
            vstd::arithmetic::power2::lemma_pow2_strictly_increases(b as nat, 16);
        }
        vstd::bits::lemma_u32_shl_is_mul(1, b);
    }
    (1u32 << b) - 1
}

/// The low `b` bits of `x` (`b` at most 16), below `2^b`.
fn cut_bits(x: u32, b: u32) -> (r: u32)
    requires
        b <= 16,
    ensures
        r == cut(x, b),
        r <= 0xFFFF,
{
    let m = low_mask(b);
    proof {
        vstd::arithmetic::power2::lemma2_to64();
        if b < 16 {
            vstd::arithmetic::power2::lemma_pow2_strictly_increases(b as nat, 16);
        }
        vstd::bits::lemma_u32_shl_is_mul(1, b);
        vstd::bits::lemma_u32_low_bits_mask_is_mod(x, b as nat);
        assert(m == vstd::bits::low_bits_mask(b as nat) as u32);
    }
    x & m
}

/// A stored endpoint channel (see `stored_channel`).
fn store_channel(q: i32, base: i32, whole: bool, whole_bits: u32, delta_bits: u32) -> (r: u32)
    requires
        whole_bits <= 16,
        delta_bits <= 16,
        -0x10000 <= q <= 0x10000,
        -0x10000 <= base <= 0x10000,
    ensures
        r == stored_channel(q, base as int, whole, whole_bits, delta_bits),
{
    if whole {
        cut_bits(q as u32, whole_bits)
    } else {
        cut_bits((q - base) as u32, delta_bits)
    }
}

/// The raw fields for the quantized endpoints `q` (see
/// `raw_from_endpoints`).
pub fn bc6h_raw_fields(mode: usize, partition: usize, q: &[[[i32; 3]; 2]; 2], is_signed: bool) -> (r:
    EndpointsRaw)
    requires
        1 <= mode <= 14,
        forall|s: int, e: int, c: int|
            0 <= s < 2 && 0 <= e < 2 && 0 <= c < 3 ==> -0x10000 <= #[trigger] q[s][e][c] <= 0x10000,
    ensures
        r == raw_from_endpoints(mode, partition, *q, is_signed),
{
    let two = mode <= 10;
    let (b, d): ([u32; 3], [u32; 3]) = if two {
        get_mode_precisions_2subsets(mode)
    } else {
        let (bb, dd) = get_mode_precisions_1subset(mode);
        ([bb, bb, bb], [dd, dd, dd])
    };
    assert(forall|c: int| 0 <= c < 3 ==> 6 <= #[trigger] b[c] <= 16 && 4 <= d[c] <= 10);
    let whole = mode == 10 || mode == 11;
    let wb: u32 = if mode == 10 {
        6
    } else {
        10
    };
    let s0 = cut_bits(q[0][0][0] as u32, b[0]);
    let s1 = cut_bits(q[0][0][1] as u32, b[1]);
    let s2 = cut_bits(q[0][0][2] as u32, b[2]);
    proof {
        crate::bc6h_fields::lemma_sign_range(b[0]);
        crate::bc6h_fields::lemma_sign_range(b[1]);
        crate::bc6h_fields::lemma_sign_range(b[2]);
    }
    let base0 = if is_signed {
        sign_extend(s0, b[0])
    } else {
        s0 as i32
    };
    let base1 = if is_signed {
        sign_extend(s1, b[1])
    } else {
        s1 as i32
    };
    let base2 = if is_signed {
        sign_extend(s2, b[2])
    } else {
        s2 as i32
    };
    let re1 = store_channel(q[0][1][0], base0, whole, wb, d[0]);
    let ge1 = store_channel(q[0][1][1], base1, whole, wb, d[1]);
    let be1 = store_channel(q[0][1][2], base2, whole, wb, d[2]);
    let (rs2, gs2, bs2, re2, ge2, be2) = if two {
        (
            store_channel(q[1][0][0], base0, whole, wb, d[0]),
            store_channel(q[1][0][1], base1, whole, wb, d[1]),
            store_channel(q[1][0][2], base2, whole, wb, d[2]),
            store_channel(q[1][1][0], base0, whole, wb, d[0]),
            store_channel(q[1][1][1], base1, whole, wb, d[1]),
            store_channel(q[1][1][2], base2, whole, wb, d[2]),
        )
    } else {
        (0, 0, 0, 0, 0, 0)
    };
    let r = EndpointsRaw {
        rs1: s0,
        gs1: s1,
        bs1: s2,
        re1,
        ge1,
        be1,
        rs2,
        gs2,
        bs2,
        re2,
        ge2,
        be2,
        partition: partition as u32,
    };
    assert(r == raw_from_endpoints(mode, partition, *q, is_signed));
    r
}

/// The mode code of mode `mode` (see `mode_code`).
fn bc6h_mode_code(mode: usize) -> (r: u32)
    ensures
        r == mode_code(mode),
{
    if mode == 1 {
        0b00
    } else if mode == 2 {
        0b01
    } else if mode == 3 {
        0b00010
    } else if mode == 4 {
        0b00110
    } else if mode == 5 {
        0b01010
    } else if mode == 6 {
        0b01110
    } else if mode == 7 {
        0b10010
    } else if mode == 8 {
        0b10110
    } else if mode == 9 {
        0b11010
    } else if mode == 10 {
        0b11110
    } else if mode == 11 {
        0b00011
    } else if mode == 12 {
        0b00111
    } else if mode == 13 {
        0b01011
    } else {
        0b01111
    }
}

/// The bit that field `f` stands for (see `field_bit`).
fn bit_of(f: Bc6hField, raw: &EndpointsRaw, code: u32) -> (r: u32)
    requires
        field_index(f) < 32,
    ensures
        r == field_bit(f, *raw, code),
{
    match f {
        Bc6hField::M(b) => (code >> b) & 1,
        Bc6hField::D(b) => (raw.partition >> b) & 1,
        Bc6hField::RS1(b) => (raw.rs1 >> b) & 1,
        Bc6hField::GS1(b) => (raw.gs1 >> b) & 1,
        Bc6hField::BS1(b) => (raw.bs1 >> b) & 1,
        Bc6hField::RE1(b) => (raw.re1 >> b) & 1,
        Bc6hField::GE1(b) => (raw.ge1 >> b) & 1,
        Bc6hField::BE1(b) => (raw.be1 >> b) & 1,
        Bc6hField::RS2(b) => (raw.rs2 >> b) & 1,
        Bc6hField::GS2(b) => (raw.gs2 >> b) & 1,
        Bc6hField::BS2(b) => (raw.bs2 >> b) & 1,
        Bc6hField::RE2(b) => (raw.re2 >> b) & 1,
        Bc6hField::GE2(b) => (raw.ge2 >> b) & 1,
        Bc6hField::BE2(b) => (raw.be2 >> b) & 1,
    }
}

/// Writes a BC6H block of mode `mode` (1 to 14) into `out_block`: the raw
/// fields of the quantized endpoints `endpoints_q` and of `partition` (see
/// `raw_from_endpoints`), placed bit by bit by the mode's `layout` (82
/// entries for two-subset modes, 65 for the others), then the indices
/// (see `bc6h_layout`); `anchor1` is the anchor pixel of subset 1 of the
/// partition.
pub fn write_bc6h_block(
    mode: usize,
    partition: usize,
    endpoints_q: &[[[i32; 3]; 2]; 2],
    indices: &[u8; 16],
    is_signed: bool,
    layout: &[Bc6hField],
    anchor1: usize,
    out_block: &mut [u8; 16],
)
    requires
        1 <= mode <= 14,
        layout@.len() == (if mode <= 10 {
            82int
        } else {
            65
        }),
        forall|i: int| 0 <= i < layout@.len() ==> field_index(#[trigger] layout@[i]) < 32,
        forall|s: int, e: int, c: int|
            0 <= s < 2 && 0 <= e < 2 && 0 <= c < 3 ==> -0x10000 <= #[trigger] endpoints_q[s][e][c]
                <= 0x10000,
    ensures
        final(out_block)@ == le_bytes_128(
            pack_fields(
                bc6h_layout(
                    mode,
                    layout@,
                    raw_from_endpoints(mode, partition, *endpoints_q, is_signed),
                    indices@,
                    anchor1,
                ),
            ).0,
        ),
{
    let raw = bc6h_raw_fields(mode, partition, endpoints_q, is_signed);
    let code = bc6h_mode_code(mode);
    let two = mode <= 10;
    let mut fields: Vec<(u32, u32)> = Vec::new();
    let mut i: usize = 0;
    while i < layout.len()
        invariant
            i <= layout@.len(),
            forall|k: int| 0 <= k < layout@.len() ==> field_index(#[trigger] layout@[k]) < 32,
            fields@ == Seq::new(layout@.len(), |k: int| (1u32, field_bit(layout@[k], raw, code))).take(
                i as int,
            ),
        decreases layout.len() - i,
    {
        fields.push((1, bit_of(layout[i], &raw, code)));
        i += 1;
        assert(fields@ =~= Seq::new(
            layout@.len(),
            |k: int| (1u32, field_bit(layout@[k], raw, code)),
        ).take(i as int));
    }
    let ghost bits = Seq::new(layout@.len(), |k: int| (1u32, field_bit(layout@[k], raw, code)));
    assert(bits.take(i as int) =~= bits);
    let (ib, ns): (u32, usize) = if two {
        (3, 2)
    } else {
        (4, 1)
    };
    let piece = crate::bc7_write::index_piece(ib, ns, anchor1, 0, indices);
    crate::bc7_write::push_piece(&mut fields, &piece);
    assert(fields@ =~= bc6h_layout(mode, layout@, raw, indices@, anchor1));
    assert forall|t: int| 0 <= t < fields@.len() implies #[trigger] fields@[t].0 <= 8 by {
        if t >= bits.len() {
            assert(fields@[t] == piece@[t - bits.len()]);
        }
    }
    let v = crate::bc7_write::pack(&fields);
    *out_block = crate::bitstream::BitStream128::new(v).to_bytes();
}

/// The layout of mode `mode` starts with its mode bits, lowest first (two
/// for modes 1 and 2, five for the others), as every BC6H layout does.
pub open spec fn starts_with_mode_bits(mode: usize, layout: Seq<Bc6hField>) -> bool {
    &&& layout.len() >= 5
    &&& layout[0] == Bc6hField::M(0)
    &&& layout[1] == Bc6hField::M(1)
    &&& mode > 2 ==> layout[2] == Bc6hField::M(2) && layout[3] == Bc6hField::M(3) && layout[4]
        == Bc6hField::M(4)
}

/// Mode bits read back from their one-bit fields: the two lowest make the
/// low two bits of `code`, and with the next three, all of `code` (below
/// 32).
proof fn lemma_mode_bits(v: u128, code: u32)
    by (bit_vector)
    requires
        spec_read_bits(v, 0, 1) == ((((code >> 0u32) & 1u32) as u128) & low_mask_1()) as u32,
        spec_read_bits(v, 1, 1) == ((((code >> 1u32) & 1u32) as u128) & low_mask_1()) as u32,
    ensures
        spec_read_bits(v, 0, 2) == code % 4,
        code < 32 && spec_read_bits(v, 2, 1) == ((((code >> 2u32) & 1u32) as u128) & low_mask_1())
            as u32 && spec_read_bits(v, 3, 1) == ((((code >> 3u32) & 1u32) as u128) & low_mask_1())
            as u32 && spec_read_bits(v, 4, 1) == ((((code >> 4u32) & 1u32) as u128) & low_mask_1())
            as u32 ==> spec_read_bits(v, 0, 5) == code,
{
}

/// The one-bit mask.
pub open spec fn low_mask_1() -> u128 {
    crate::bitstream::low_mask_128(1)
}

/// A block written by `write_bc6h_block` decodes with the mode it was
/// written in: its mode code is the one the decoder maps back to that
/// mode.
pub proof fn lemma_bc6h_written_mode(
    mode: usize,
    partition: usize,
    q: [[[i32; 3]; 2]; 2],
    indices: Seq<u8>,
    is_signed: bool,
    layout: Seq<Bc6hField>,
    anchor1: usize,
)
    requires
        1 <= mode <= 14,
        layout.len() == (if mode <= 10 {
            82int
        } else {
            65
        }),
        starts_with_mode_bits(mode, layout),
    ensures
        bc6h_mode(
            from_le_bytes_128(
                le_bytes_128(
                    pack_fields(
                        bc6h_layout(
                            mode,
                            layout,
                            raw_from_endpoints(mode, partition, q, is_signed),
                            indices,
                            anchor1,
                        ),
                    ).0,
                ),
            ),
        ) == Some(mode),
{
    let raw = raw_from_endpoints(mode, partition, q, is_signed);
    let code = mode_code(mode);
    let l = bc6h_layout(mode, layout, raw, indices, anchor1);
    let v = pack_fields(l).0;
    lemma_bytes_roundtrip(v);
    let bits = Seq::new(layout.len(), |i: int| (1u32, field_bit(layout[i], raw, code)));
    let two = mode <= 10;
    let ix = index_fields(
        if two {
            3
        } else {
            4
        },
        if two {
            2
        } else {
            1
        },
        anchor1,
        0,
        indices,
    );
    assert(l == bits + ix);
    assert forall|t: int| 0 <= t < l.len() implies #[trigger] l[t].0 <= 8 by {
        if t >= bits.len() {
            assert(l[t] == ix[t - bits.len()]);
        }
    }
    lemma_pack_total(l);
    assert forall|k: int| 0 <= k < 5 implies #[trigger] spec_read_bits(v, k as u32, 1) == ((l[k].1
        as u128) & crate::bitstream::low_mask_128(1)) as u32 by {
        assert(l.take(k) =~= bits.take(k));
        lemma_pack_uniform(bits, 1, k);
        lemma_pack_read(l, k);
    }
    assert(l[0].1 == (code >> 0u32) & 1u32);
    assert(l[1].1 == (code >> 1u32) & 1u32);
    assert(spec_read_bits(v, (0int) as u32, 1) == ((l[0].1 as u128) & low_mask_1()) as u32);
    assert(spec_read_bits(v, 0, 1) == ((l[0].1 as u128) & low_mask_1()) as u32);
    assert(spec_read_bits(v, (1int) as u32, 1) == ((l[1].1 as u128) & low_mask_1()) as u32);
    assert(spec_read_bits(v, 1, 1) == ((l[1].1 as u128) & low_mask_1()) as u32);
    if mode <= 2 {
        lemma_mode_bits(v, code);
    } else {
        assert(l[2].1 == (code >> 2u32) & 1u32);
        assert(l[3].1 == (code >> 3u32) & 1u32);
        assert(l[4].1 == (code >> 4u32) & 1u32);
        assert(spec_read_bits(v, (2int) as u32, 1) == ((l[2].1 as u128) & low_mask_1()) as u32);
    assert(spec_read_bits(v, 2, 1) == ((l[2].1 as u128) & low_mask_1()) as u32);
        assert(spec_read_bits(v, (3int) as u32, 1) == ((l[3].1 as u128) & low_mask_1()) as u32);
    assert(spec_read_bits(v, 3, 1) == ((l[3].1 as u128) & low_mask_1()) as u32);
        assert(spec_read_bits(v, (4int) as u32, 1) == ((l[4].1 as u128) & low_mask_1()) as u32);
    assert(spec_read_bits(v, 4, 1) == ((l[4].1 as u128) & low_mask_1()) as u32);
        lemma_mode_bits(v, code);
    }
}

/// A value cut to `b` bits and read back (sign-extended, or as it is)
/// gives the value when it fits in `b` bits.
proof fn lemma_cut_read_back(x: i32, y: i32, b: u32)
    by (bit_vector)
    requires
        1 <= b <= 16,
    ensures
        -((1u32 << ((b - 1) as u32)) as int) <= x - y < ((1u32 << ((b - 1) as u32)) as int)
            ==> sign_extended(cut((x - y) as u32, b), b) == x - y,
        0 <= x - y < ((1u32 << b) as int) ==> cut((x - y) as u32, b) == x - y,
{
}

/// `x` fits in `b` bits: as a two's-complement number for signed blocks,
/// unsigned otherwise.
pub open spec fn fits_bits(x: int, b: u32, is_signed: bool) -> bool {
    if is_signed {
        -((1u32 << ((b - 1) as u32)) as int) <= x < ((1u32 << ((b - 1) as u32)) as int)
    } else {
        0 <= x < ((1u32 << b) as int)
    }
}

/// The delta bits of channel `c` in mode `mode`.
pub open spec fn delta_bits(mode: usize, c: int) -> u32 {
    if mode <= 10 {
        precisions_2subsets(mode).1[c]
    } else {
        precisions_1subset(mode).1
    }
}

/// The quantized endpoints fit mode `mode`: every base value fits the
/// mode's precision, the whole values of modes 10 and 11 too, and every
/// other endpoint lies within the delta range of its base.
pub open spec fn endpoints_fit(mode: usize, q: [[[i32; 3]; 2]; 2], is_signed: bool) -> bool {
    forall|s: int, e: int, c: int|
        0 <= s < 2 && 0 <= e < 2 && 0 <= c < 3 && (s == 0 || mode <= 10) ==> {
            let b = base_bits(mode, c);
            let d = delta_bits(mode, c);
            if s == 0 && e == 0 || mode == 10 || mode == 11 {
                fits_bits(#[trigger] q[s][e][c] as int, b, is_signed)
            } else {
                -((1u32 << ((d - 1) as u32)) as int) <= q[s][e][c] - q[0][0][c] < ((1u32 << ((d
                    - 1) as u32)) as int)
            }
        }
}

/// One channel of one endpoint of the raw round trip.
#[verifier::rlimit(50)]
proof fn lemma_bc6h_raw_channel(
    mode: usize,
    partition: usize,
    q: [[[i32; 3]; 2]; 2],
    is_signed: bool,
    s: int,
    e: int,
    c: int,
)
    requires
        1 <= mode <= 14,
        endpoints_fit(mode, q, is_signed),
        0 <= s < 2 && 0 <= e < 2 && 0 <= c < 3 && (s == 0 || mode <= 10),
    ensures
        bc6h_quantized(mode, raw_from_endpoints(mode, partition, q, is_signed), is_signed, s, e, c)
            == q[s][e][c],
{
    let raw = raw_from_endpoints(mode, partition, q, is_signed);
    assert(fits_bits(q[0][0][c] as int, base_bits(mode, c), is_signed));
    let b = base_bits(mode, c);
    let d = delta_bits(mode, c);
    assert(6 <= b <= 16 && 4 <= d <= 10) by {
        if mode <= 10 {
            assert(c == 0 || c == 1 || c == 2);
        }
    }
    let q0 = q[0][0][c];
    let x = q[s][e][c];
    assert(fits_bits(q0 as int, b, is_signed));
    lemma_cut_read_back(q0, 0i32, b);
    assert(q0 - 0i32 == q0);
    let s0 = crate::bc6h_fields::base_value(crate::bc6h_fields::raw_field(raw, 0, 0, c), b, is_signed);
    assert(crate::bc6h_fields::raw_field(raw, 0, 0, c) == cut(q0 as u32, b));
    assert(s0 == q0);
    if s == 0 && e == 0 {
    } else if mode == 10 || mode == 11 {
        lemma_cut_read_back(x, 0i32, b);
        assert(x - 0i32 == x);
        assert(crate::bc6h_fields::raw_field(raw, s, e, c) == cut(x as u32, b));
    } else {
        lemma_cut_read_back(x, q0, d);
        assert(crate::bc6h_fields::raw_field(raw, s, e, c) == cut((x - q0) as u32, d));
    }
}

/// Decoding the raw fields that `write_bc6h_block` stores gives back the
/// quantized endpoints it was given, when they fit the mode.
pub proof fn lemma_bc6h_raw_round_trip(
    mode: usize,
    partition: usize,
    q: [[[i32; 3]; 2]; 2],
    is_signed: bool,
)
    requires
        1 <= mode <= 14,
        endpoints_fit(mode, q, is_signed),
    ensures
        forall|s: int, e: int, c: int|
            0 <= s < 2 && 0 <= e < 2 && 0 <= c < 3 && (s == 0 || mode <= 10) ==> bc6h_quantized(
                mode,
                raw_from_endpoints(mode, partition, q, is_signed),
                is_signed,
                s,
                e,
                c,
            ) == #[trigger] q[s][e][c],
{
    assert forall|s: int, e: int, c: int|
        0 <= s < 2 && 0 <= e < 2 && 0 <= c < 3 && (s == 0 || mode <= 10) implies bc6h_quantized(
        mode,
        raw_from_endpoints(mode, partition, q, is_signed),
        is_signed,
        s,
        e,
        c,
    ) == #[trigger] q[s][e][c] by {
        lemma_bc6h_raw_channel(mode, partition, q, is_signed, s, e, c);
    }
}

} // verus!
