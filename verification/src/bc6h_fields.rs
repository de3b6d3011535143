//! Reading a BC6H block: its mode, its endpoints rebuilt from the raw
//! endpoint fields (base values, sign extension and deltas), the half-float
//! values they stand for, and the per-pixel indices. Where each raw field
//! sits in the block depends on the mode's bit layout; the caller reads the
//! raw fields and, for two-subset blocks, the anchor pixel of subset 1 of
//! the partition.

use vstd::prelude::*;
use crate::bc6h::{
    get_mode_precisions_1subset, get_mode_precisions_2subsets, precisions_1subset,
    precisions_2subsets, sign_extend, sign_extended, EndpointsRaw,
};
use crate::bc7_fields::{read_index_run, run_index};
use crate::bitstream::{from_le_bytes_128, spec_read_bits, BitStream128};
use crate::half::{unquantize_bc6h_half, unquantized_half};

verus! {

/// The BC6H mode (1 to 14) of the block with bits `v`, from its two or five
/// mode bits; `None` for the reserved mode codes.
pub open spec fn bc6h_mode(v: u128) -> Option<usize> {
    let m2 = spec_read_bits(v, 0, 2);
    let m5 = spec_read_bits(v, 0, 5);
    if m2 == 0 {
        Some(1)
    } else if m2 == 1 {
        Some(2)
    } else if m5 == 0b00010 {
        Some(3)
    } else if m5 == 0b00110 {
        Some(4)
    } else if m5 == 0b01010 {
        Some(5)
    } else if m5 == 0b01110 {
        Some(6)
    } else if m5 == 0b10010 {
        Some(7)
    } else if m5 == 0b10110 {
        Some(8)
    } else if m5 == 0b11010 {
        Some(9)
    } else if m5 == 0b11110 {
        Some(10)
    } else if m5 == 0b00011 {
        Some(11)
    } else if m5 == 0b00111 {
        Some(12)
    } else if m5 == 0b01011 {
        Some(13)
    } else if m5 == 0b01111 {
        Some(14)
    } else {
        None
    }
}

/// The mode of the BC6H block `block` (see `bc6h_mode`).
pub fn decode_bc6h_mode(block: &[u8; 16]) -> (r: Option<usize>)
    ensures
        r == bc6h_mode(from_le_bytes_128(block@)),
{
    let bs = BitStream128::from_bytes(block);
    let m2 = bs.read_bits(0, 2);
    let m5 = bs.read_bits(0, 5);
    if m2 == 0 {
        Some(1)
    } else if m2 == 1 {
        Some(2)
    } else if m5 == 0b00010 {
        Some(3)
    } else if m5 == 0b00110 {
        Some(4)
    } else if m5 == 0b01010 {
        Some(5)
    } else if m5 == 0b01110 {
        Some(6)
    } else if m5 == 0b10010 {
        Some(7)
    } else if m5 == 0b10110 {
        Some(8)
    } else if m5 == 0b11010 {
        Some(9)
    } else if m5 == 0b11110 {
        Some(10)
    } else if m5 == 0b00011 {
        Some(11)
    } else if m5 == 0b00111 {
        Some(12)
    } else if m5 == 0b01011 {
        Some(13)
    } else if m5 == 0b01111 {
        Some(14)
    } else {
        None
    }
}

/// The raw field of channel `c` of endpoint `e` of subset `s`.
pub open spec fn raw_field(raw: EndpointsRaw, s: int, e: int, c: int) -> u32 {
    if s == 0 && e == 0 {
        if c == 0 { raw.rs1 } else if c == 1 { raw.gs1 } else { raw.bs1 }
    } else if s == 0 {
        if c == 0 { raw.re1 } else if c == 1 { raw.ge1 } else { raw.be1 }
    } else if e == 0 {
        if c == 0 { raw.rs2 } else if c == 1 { raw.gs2 } else { raw.bs2 }
    } else {
        if c == 0 { raw.re2 } else if c == 1 { raw.ge2 } else { raw.be2 }
    }
}

/// A base value of `bits` bits: sign-extended for signed blocks.
pub open spec fn base_value(raw: u32, bits: u32, is_signed: bool) -> int {
    if is_signed {
        sign_extended(raw, bits)
    } else {
        raw as int
    }
}

/// The precision (base bits) of channel `c` in mode `mode`.
pub open spec fn base_bits(mode: usize, c: int) -> u32 {
    if mode <= 10 {
        precisions_2subsets(mode).0[c]
    } else {
        precisions_1subset(mode).0
    }
}

/// Quantized channel `c` of endpoint `e` of subset `s` of a BC6H block of
/// mode `mode` with raw fields `raw`: the first endpoint is the base value;
/// the others are stored whole in modes 10 and 11 and as sign-extended
/// deltas from the base otherwise; subset 1 of a one-subset mode is 0.
pub open spec fn bc6h_quantized(mode: usize, raw: EndpointsRaw, is_signed: bool, s: int, e: int, c: int) -> int {
    let b = base_bits(mode, c);
    let s0 = base_value(raw_field(raw, 0, 0, c), b, is_signed);
    let delta = if mode <= 10 {
        precisions_2subsets(mode).1[c]
    } else {
        precisions_1subset(mode).1
    };
    if s == 0 && e == 0 {
        s0
    } else if mode > 10 && s > 0 {
        0
    } else if mode == 10 || mode == 11 {
        base_value(raw_field(raw, s, e, c), b, is_signed)
    } else {
        s0 + sign_extended(raw_field(raw, s, e, c), delta)
    }
}

/// The half-float bits of channel `c` of endpoint `e` of subset `s` (0 for
/// subset 1 of a one-subset mode).
pub open spec fn endpoint_half(mode: usize, raw: EndpointsRaw, is_signed: bool, s: int, e: int, c: int) -> u16 {
    if mode > 10 && s > 0 {
        0
    } else {
        unquantized_half(bc6h_quantized(mode, raw, is_signed, s, e, c) as i32, base_bits(mode, c), is_signed)
    }
}

/// What a BC6H block holds, decoded up to the half-float endpoints.
#[derive(Debug, Clone, Copy)]
pub struct Bc6hFields {
    /// The mode, 1 to 14; 0 for a reserved mode code.
    pub mode: usize,
    /// The partition of a two-subset block (at most 31), else 0.
    pub partition: usize,
    /// Quantized endpoints: subset, endpoint, channel.
    pub endpoints_q: [[[i32; 3]; 2]; 2],
    /// The endpoints as half-float bits.
    pub endpoints_half: [[[u16; 3]; 2]; 2],
    /// The index of each pixel.
    pub indices: [u8; 16],
}

/// Every raw field fits in 16 bits, as the mode layouts make them.
pub open spec fn raw_fits(raw: EndpointsRaw) -> bool {
    &&& raw.rs1 <= 0xFFFF && raw.gs1 <= 0xFFFF && raw.bs1 <= 0xFFFF
    &&& raw.re1 <= 0xFFFF && raw.ge1 <= 0xFFFF && raw.be1 <= 0xFFFF
    &&& raw.rs2 <= 0xFFFF && raw.gs2 <= 0xFFFF && raw.bs2 <= 0xFFFF
    &&& raw.re2 <= 0xFFFF && raw.ge2 <= 0xFFFF && raw.be2 <= 0xFFFF
}

/// `f` holds the fields of the BC6H block with bits `v` and raw endpoint
/// fields `raw`, whose partition has anchor pixel `anchor1` for subset 1.
pub open spec fn is_bc6h_fields(v: u128, is_signed: bool, raw: EndpointsRaw, anchor1: usize, f: Bc6hFields) -> bool {
    match bc6h_mode(v) {
        None => {
            &&& f.mode == 0
            &&& f.partition == 0
            &&& forall|s: int, e: int, c: int|
                0 <= s < 2 && 0 <= e < 2 && 0 <= c < 3 ==> #[trigger] f.endpoints_q[s][e][c] == 0
                    && f.endpoints_half[s][e][c] == 0
            &&& forall|i: int| 0 <= i < 16 ==> #[trigger] f.indices@[i] == 0
        },
        Some(m) => {
            &&& f.mode == m
            &&& f.partition == (if m <= 10 {
                if raw.partition < 31 {
                    raw.partition as int
                } else {
                    31
                }
            } else {
                0
            })
            &&& forall|s: int, e: int, c: int|
                0 <= s < 2 && 0 <= e < 2 && 0 <= c < 3 ==> #[trigger] f.endpoints_q[s][e][c]
                    == bc6h_quantized(m, raw, is_signed, s, e, c) && f.endpoints_half[s][e][c]
                    == endpoint_half(m, raw, is_signed, s, e, c)
            &&& forall|i: int|
                0 <= i < 16 ==> #[trigger] f.indices@[i] == (if m <= 10 {
                    run_index(v, 82, 3, 2, anchor1, 0, i)
                } else {
                    run_index(v, 65, 4, 1, 0, 0, i)
                })
        },
    }
}

/// The sign bit of a field of `b` bits (1 to 16) is at most `0x8000`.
pub(crate) proof fn lemma_sign_range(b: u32)
    requires
        1 <= b <= 16,
    ensures
        1 <= (1u32 << ((b - 1) as u32)) <= 0x8000,
{
    vstd::arithmetic::power2::lemma2_to64();
    if b < 16 {
        vstd::arithmetic::power2::lemma_pow2_strictly_increases((b - 1) as nat, 15);
    }
    vstd::bits::lemma_u32_shl_is_mul(1, (b - 1) as u32);
}

/// One rebuilt channel: the base value for the first endpoint, the whole
/// stored value (`whole`) or base plus sign-extended delta otherwise.
fn rebuild_channel(s0: i32, field: u32, bits: u32, delta: u32, whole: bool, is_signed: bool) -> (r: i32)
    requires
        field <= 0xFFFF,
        1 <= bits <= 16,
        1 <= delta <= 10,
        -0x8000 <= s0 <= 0xFFFF,
    ensures
        r == (if whole {
            base_value(field, bits, is_signed)
        } else {
            s0 + sign_extended(field, delta)
        }),
        -0x20000 <= r <= 0x20000,
{
    if whole {
        let r = if is_signed {
            sign_extend(field, bits)
        } else {
            field as i32
        };
        proof {
            lemma_sign_range(bits);
        }
        r
    } else {
        let d = sign_extend(field, delta);
        proof {
            lemma_sign_range(delta);
        }
        s0 + d
    }
}

/// Channel `c` of the four endpoints of a block of mode `mode`, quantized
/// and as half-float bits: subset 0 start and end, subset 1 start and end.
fn rebuild_endpoints(mode: usize, raw: &EndpointsRaw, is_signed: bool, c: usize) -> (r: (
    i32,
    i32,
    i32,
    i32,
    u16,
    u16,
    u16,
    u16,
))
    requires
        1 <= mode <= 14,
        c < 3,
        raw_fits(*raw),
    ensures
        r.0 == bc6h_quantized(mode, *raw, is_signed, 0, 0, c as int),
        r.1 == bc6h_quantized(mode, *raw, is_signed, 0, 1, c as int),
        r.2 == bc6h_quantized(mode, *raw, is_signed, 1, 0, c as int),
        r.3 == bc6h_quantized(mode, *raw, is_signed, 1, 1, c as int),
        r.4 == endpoint_half(mode, *raw, is_signed, 0, 0, c as int),
        r.5 == endpoint_half(mode, *raw, is_signed, 0, 1, c as int),
        r.6 == endpoint_half(mode, *raw, is_signed, 1, 0, c as int),
        r.7 == endpoint_half(mode, *raw, is_signed, 1, 1, c as int),
{
    let starts = [raw.rs1, raw.gs1, raw.bs1];
    let ends1 = [raw.re1, raw.ge1, raw.be1];
    let starts2 = [raw.rs2, raw.gs2, raw.bs2];
    let ends2 = [raw.re2, raw.ge2, raw.be2];
    let two = mode <= 10;
    let (bits, delta) = if two {
        let (b, d) = get_mode_precisions_2subsets(mode);
        (b[c], d[c])
    } else {
        get_mode_precisions_1subset(mode)
    };
    let whole = mode == 10 || mode == 11;
    assert(raw_field(*raw, 0, 0, c as int) == starts@[c as int]);
    assert(raw_field(*raw, 0, 1, c as int) == ends1@[c as int]);
    assert(raw_field(*raw, 1, 0, c as int) == starts2@[c as int]);
    assert(raw_field(*raw, 1, 1, c as int) == ends2@[c as int]);
    assert(bits == base_bits(mode, c as int));
    assert(1 <= bits <= 16 && 4 <= delta <= 10);
    let s0 = if is_signed {
        sign_extend(starts[c], bits)
    } else {
        starts[c] as i32
    };
    proof {
        lemma_sign_range(bits);
    }
    let e0 = rebuild_channel(s0, ends1[c], bits, delta, whole, is_signed);
    let h0 = unquantize_bc6h_half(s0, bits, is_signed);
    let h1 = unquantize_bc6h_half(e0, bits, is_signed);
    if two {
        let s1 = rebuild_channel(s0, starts2[c], bits, delta, whole, is_signed);
        let e1 = rebuild_channel(s0, ends2[c], bits, delta, whole, is_signed);
        let h2 = unquantize_bc6h_half(s1, bits, is_signed);
        let h3 = unquantize_bc6h_half(e1, bits, is_signed);
        (s0, e0, s1, e1, h0, h1, h2, h3)
    } else {
        (s0, e0, 0, 0, h0, h1, 0, 0)
    }
}

/// The fields of the BC6H block `block`, whose raw endpoint fields (read by
/// the caller with the layout of the block's mode) are `raw`; `anchor1` is
/// the anchor pixel of subset 1 of the block's partition, used by
/// two-subset modes. A reserved mode gives mode 0 and all other fields 0.
pub fn decode_bc6h_block_fields(block: &[u8; 16], is_signed: bool, raw: &EndpointsRaw, anchor1: usize) -> (r: Bc6hFields)
    requires
        raw_fits(*raw),
    ensures
        is_bc6h_fields(from_le_bytes_128(block@), is_signed, *raw, anchor1, r),
{
    let mode_opt = decode_bc6h_mode(block);
    let mode = match mode_opt {
        None => {
            return Bc6hFields {
                mode: 0,
                partition: 0,
                endpoints_q: [[[0i32; 3]; 2]; 2],
                endpoints_half: [[[0u16; 3]; 2]; 2],
                indices: [0u8; 16],
            };
        },
        Some(m) => m,
    };
    let ghost v = from_le_bytes_128(block@);
    let two = mode <= 10;
    let x = rebuild_endpoints(mode, raw, is_signed, 0);
    let y = rebuild_endpoints(mode, raw, is_signed, 1);
    let z = rebuild_endpoints(mode, raw, is_signed, 2);
    let q = [[[x.0, y.0, z.0], [x.1, y.1, z.1]], [[x.2, y.2, z.2], [x.3, y.3, z.3]]];
    let h = [[[x.4, y.4, z.4], [x.5, y.5, z.5]], [[x.6, y.6, z.6], [x.7, y.7, z.7]]];
    assert forall|s: int, e: int, k: int| 0 <= s < 2 && 0 <= e < 2 && 0 <= k < 3 implies {
        &&& #[trigger] q[s][e][k] == bc6h_quantized(mode, *raw, is_signed, s, e, k)
        &&& h[s][e][k] == endpoint_half(mode, *raw, is_signed, s, e, k)
    } by {
        if k == 0 {
        } else if k == 1 {
        } else {
        }
    }
    let bs = BitStream128::from_bytes(block);
    let (partition, indices) = if two {
        let p: usize = if raw.partition < 31 {
            raw.partition as usize
        } else {
            31
        };
        let mut pos: u32 = 82;
        (p, read_index_run(&bs, &mut pos, 3, 2, anchor1, 0))
    } else {
        let mut pos: u32 = 65;
        (0, read_index_run(&bs, &mut pos, 4, 1, 0, 0))
    };
    Bc6hFields { mode, partition, endpoints_q: q, endpoints_half: h, indices }
}

} // verus!
