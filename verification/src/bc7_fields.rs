//! Reading the fields of a BC7 block: its mode, partition, rotation, index
//! mode and expanded endpoints, and, given the subset map and anchor pixels
//! of its partition, the subset, colour index and alpha index of each
//! pixel. Turning indices into colours (the interpolation weights) is left
//! to the caller.

use vstd::prelude::*;
use crate::bitstream::{from_le_bytes_128, spec_read_bits, BitStream128};
use crate::bc7::{bc7_mode_info, endpoint_code, expand_code, expand_quantized, spec_mode_info};

verus! {

/// The first mode bit at or after `m` that is set in `v` (8 when none of
/// bits `m..8` is).
pub open spec fn first_mode_from(v: u128, m: nat) -> nat
    decreases 8 - m,
{
    if m >= 8 {
        8
    } else if spec_read_bits(v, m as u32, 1) != 0 {
        m
    } else {
        first_mode_from(v, m + 1)
    }
}

/// The mode of the BC7 block with bits `v`: the position of its lowest set
/// bit among bits 0 to 7, or 8 (no valid mode) when they are all clear.
pub open spec fn bc7_mode(v: u128) -> nat {
    first_mode_from(v, 0)
}

/// Bits before the endpoints: the mode bits, then partition, rotation and
/// index-mode fields.
pub open spec fn header_len(m: usize) -> int {
    let i = spec_mode_info(m);
    m + 1 + i.partition_bits + i.rotation_bits + i.index_selection_bits
}

/// The stored value of channel `c` (red, green, blue, alpha) of endpoint
/// `j` (subset `j / 2`, first or second end): the colour channels of all
/// endpoints come first, red then green then blue, then the alpha ones.
pub open spec fn raw_endpoint(v: u128, m: usize, c: int, j: int) -> u32 {
    let i = spec_mode_info(m);
    let n2 = 2 * i.num_subsets;
    let h = header_len(m);
    if c < 3 {
        spec_read_bits(v, (h + (c * n2 + j) * i.color_bits) as u32, i.color_bits)
    } else {
        spec_read_bits(v, (h + 3 * n2 * i.color_bits + j * i.alpha_bits) as u32, i.alpha_bits)
    }
}

/// Where the p-bits start.
pub open spec fn pbit_start(m: usize) -> int {
    let i = spec_mode_info(m);
    header_len(m) + 2 * i.num_subsets * (3 * i.color_bits + i.alpha_bits)
}

/// The p-bit of endpoint `e` of subset `s`: its own when the mode has one
/// per endpoint, the subset's shared one, or none.
pub open spec fn endpoint_pbit(v: u128, m: usize, s: int, e: int) -> Option<u32> {
    let i = spec_mode_info(m);
    if i.endpoint_pbits > 0 {
        Some(spec_read_bits(v, (pbit_start(m) + 2 * s + e) as u32, 1))
    } else if i.shared_pbits > 0 {
        Some(spec_read_bits(v, (pbit_start(m) + s) as u32, 1))
    } else {
        None
    }
}

/// Where the indices start.
pub open spec fn index_start(m: usize) -> int {
    let i = spec_mode_info(m);
    pbit_start(m) + i.num_subsets * (2 * i.endpoint_pbits + i.shared_pbits)
}

/// Channel `c` of endpoint `e` of subset `s`, expanded to 8 bits with its
/// p-bit; an alpha channel the mode does not store is 255, and subsets the
/// mode does not have are 0.
pub open spec fn expanded_endpoint(v: u128, m: usize, s: int, e: int, c: int) -> u8 {
    let i = spec_mode_info(m);
    let p = endpoint_pbit(v, m, s, e);
    if s >= i.num_subsets {
        0
    } else if c < 3 {
        let code = endpoint_code(raw_endpoint(v, m, c, 2 * s + e), i.color_bits, p);
        expand_code(code.0, code.1)
    } else if i.alpha_bits > 0 {
        let code = endpoint_code(raw_endpoint(v, m, 3, 2 * s + e), i.alpha_bits, p);
        expand_code(code.0, code.1)
    } else {
        255
    }
}

/// The header fields and expanded endpoints of a BC7 block. For a block
/// with no valid mode, `mode` is 8 and every other field is 0.
#[derive(Debug, Clone, Copy)]
pub struct Bc7Header {
    pub mode: usize,
    pub partition: usize,
    pub rotation: usize,
    pub index_mode: usize,
    pub endpoints: [[[u8; 4]; 2]; 3],
    pub index_start: u32,
}

/// `h` is the header of the BC7 block with bits `v`.
pub open spec fn is_bc7_header(v: u128, h: Bc7Header) -> bool {
    let m = bc7_mode(v) as usize;
    let i = spec_mode_info(m);
    if bc7_mode(v) >= 8 {
        &&& h.mode == 8
        &&& h.partition == 0
        &&& h.rotation == 0
        &&& h.index_mode == 0
        &&& h.index_start == 0
        &&& forall|s: int, e: int, c: int|
            0 <= s < 3 && 0 <= e < 2 && 0 <= c < 4 ==> #[trigger] h.endpoints[s][e][c] == 0
    } else {
        &&& h.mode == m
        &&& h.partition == spec_read_bits(v, (m + 1) as u32, i.partition_bits)
        &&& h.rotation == spec_read_bits(v, (m + 1 + i.partition_bits) as u32, i.rotation_bits)
        &&& h.index_mode == spec_read_bits(
            v,
            (m + 1 + i.partition_bits + i.rotation_bits) as u32,
            i.index_selection_bits,
        )
        &&& h.index_start == index_start(m)
        &&& forall|s: int, e: int, c: int|
            0 <= s < 3 && 0 <= e < 2 && 0 <= c < 4 ==> #[trigger] h.endpoints[s][e][c]
                == expanded_endpoint(v, m, s, e, c)
    }
}

/// Field widths of the modes stay small: everything before the indices
/// fits in the block, and the endpoint codes have 4 to 8 bits.
pub(crate) proof fn lemma_mode_sizes(m: usize)
    requires
        m < 8,
    ensures
        1 <= spec_mode_info(m).num_subsets <= 3,
        spec_mode_info(m).color_bits <= 7,
        spec_mode_info(m).alpha_bits <= 8,
        spec_mode_info(m).partition_bits <= 6,
        spec_mode_info(m).rotation_bits <= 2,
        spec_mode_info(m).index_selection_bits <= 1,
        spec_mode_info(m).endpoint_pbits <= 1,
        spec_mode_info(m).shared_pbits <= 1,
        !(spec_mode_info(m).endpoint_pbits > 0 && spec_mode_info(m).shared_pbits > 0),
        4 <= spec_mode_info(m).color_bits + (if spec_mode_info(m).endpoint_pbits > 0
            || spec_mode_info(m).shared_pbits > 0 {
            1int
        } else {
            0
        }) <= 8,
        spec_mode_info(m).alpha_bits > 0 ==> 4 <= spec_mode_info(m).alpha_bits + (if spec_mode_info(
            m,
        ).endpoint_pbits > 0 || spec_mode_info(m).shared_pbits > 0 {
            1int
        } else {
            0
        }) <= 8,
        spec_mode_info(m).index_bits <= 4,
        header_len(m) <= 14,
        index_start(m) <= 100,
{
    if m == 0 {
    } else if m == 1 {
    } else if m == 2 {
    } else if m == 3 {
    } else if m == 4 {
    } else if m == 5 {
    } else if m == 6 {
    } else {
    }
    lemma_index_start(m);
}

/// Where the indices start, mode by mode.
pub(crate) proof fn lemma_index_start(m: usize)
    requires
        m < 8,
    ensures
        index_start(m) == (if m == 0 {
            83int
        } else if m == 1 {
            82
        } else if m == 2 {
            99
        } else if m == 3 {
            98
        } else if m == 4 {
            50
        } else if m == 5 {
            66
        } else if m == 6 {
            65
        } else {
            98
        }),
{
    let i = spec_mode_info(m);
    let ns = i.num_subsets as int;
    let cb = i.color_bits as int;
    let ab = i.alpha_bits as int;
    let epb = i.endpoint_pbits as int;
    let spb = i.shared_pbits as int;
    let h = header_len(m);
    assert(index_start(m) == h + 2 * ns * (3 * cb + ab) + ns * (2 * epb + spb));
    if m == 0 {
        assert(h + 2 * ns * (3 * cb + ab) + ns * (2 * epb + spb) == 83) by (nonlinear_arith)
            requires
                h == 5,
                ns == 3,
                cb == 4,
                ab == 0,
                epb == 1,
                spb == 0,
        ;
    } else if m == 1 {
        assert(h + 2 * ns * (3 * cb + ab) + ns * (2 * epb + spb) == 82) by (nonlinear_arith)
            requires
                h == 8,
                ns == 2,
                cb == 6,
                ab == 0,
                epb == 0,
                spb == 1,
        ;
    } else if m == 2 {
        assert(h + 2 * ns * (3 * cb + ab) + ns * (2 * epb + spb) == 99) by (nonlinear_arith)
            requires
                h == 9,
                ns == 3,
                cb == 5,
                ab == 0,
                epb == 0,
                spb == 0,
        ;
    } else if m == 3 {
        assert(h + 2 * ns * (3 * cb + ab) + ns * (2 * epb + spb) == 98) by (nonlinear_arith)
            requires
                h == 10,
                ns == 2,
                cb == 7,
                ab == 0,
                epb == 1,
                spb == 0,
        ;
    } else if m == 4 {
        assert(h + 2 * ns * (3 * cb + ab) + ns * (2 * epb + spb) == 50) by (nonlinear_arith)
            requires
                h == 8,
                ns == 1,
                cb == 5,
                ab == 6,
                epb == 0,
                spb == 0,
        ;
    } else if m == 5 {
        assert(h + 2 * ns * (3 * cb + ab) + ns * (2 * epb + spb) == 66) by (nonlinear_arith)
            requires
                h == 8,
                ns == 1,
                cb == 7,
                ab == 8,
                epb == 0,
                spb == 0,
        ;
    } else if m == 6 {
        assert(h + 2 * ns * (3 * cb + ab) + ns * (2 * epb + spb) == 65) by (nonlinear_arith)
            requires
                h == 7,
                ns == 1,
                cb == 7,
                ab == 7,
                epb == 1,
                spb == 0,
        ;
    } else {
        assert(h + 2 * ns * (3 * cb + ab) + ns * (2 * epb + spb) == 98) by (nonlinear_arith)
            requires
                h == 14,
                ns == 2,
                cb == 5,
                ab == 5,
                epb == 1,
                spb == 0,
        ;
    }
}

/// Reads `count` bits at `*pos` and moves `*pos` past them.
fn read_field(bs: &BitStream128, pos: &mut u32, count: u32) -> (r: u32)
    requires
        *old(pos) + count <= u32::MAX,
    ensures
        r == spec_read_bits(bs.0, *old(pos), count),
        *final(pos) == *old(pos) + count,
{
    let r = bs.read_bits(*pos, count);
    *pos = *pos + count;
    r
}

/// The header fields and expanded endpoints of the BC7 block `block`.
pub fn decode_bc7_header(block: &[u8; 16]) -> (r: Bc7Header)
    ensures
        is_bc7_header(from_le_bytes_128(block@), r),
{
    let bs = BitStream128::from_bytes(block);
    let ghost v = bs.0;
    let mut mode: usize = 0;
    while mode < 8 && bs.read_bits(mode as u32, 1) == 0
        invariant
            mode <= 8,
            v == bs.0,
            first_mode_from(v, mode as nat) == bc7_mode(v),
        decreases 8 - mode,
    {
        mode += 1;
    }
    if mode >= 8 {
        let r = Bc7Header {
            mode: 8,
            partition: 0,
            rotation: 0,
            index_mode: 0,
            endpoints: [[[0u8; 4]; 2]; 3],
            index_start: 0,
        };
        assert(bc7_mode(v) == 8);
        return r;
    }
    let ghost m = mode;
    assert(bc7_mode(v) == m);
    proof {
        lemma_mode_sizes(mode);
    }
    let info = bc7_mode_info(mode);
    let m1 = (mode + 1) as u32;
    let part = if info.partition_bits > 0 {
        bs.read_bits(m1, info.partition_bits) as usize
    } else {
        0
    };
    let rot = if info.rotation_bits > 0 {
        bs.read_bits(m1 + info.partition_bits, info.rotation_bits) as usize
    } else {
        0
    };
    let idx_mode = if info.index_selection_bits > 0 {
        bs.read_bits(m1 + info.partition_bits + info.rotation_bits, info.index_selection_bits)
            as usize
    } else {
        0
    };
    let mut pos = m1 + info.partition_bits + info.rotation_bits + info.index_selection_bits;
    let n2 = info.num_subsets * 2;
    let cb = info.color_bits;
    let ab = info.alpha_bits;

    // Stored endpoint values: red, green, blue of every endpoint, then alpha.
    let mut raw = [[0u32; 6]; 4];
    let mut c: usize = 0;
    assert(pos == header_len(m));
    assert(pos == header_len(m) + 0 * (n2 as int) * (cb as int)) by (nonlinear_arith)
        requires
            pos == header_len(m),
    ;
    while c < 4
        invariant
            c <= 4,
            m < 8,
            mode == m,
            v == bs.0,
            info == spec_mode_info(mode),
            n2 == 2 * info.num_subsets,
            1 <= info.num_subsets <= 3,
            cb == info.color_bits,
            ab == info.alpha_bits,
            cb <= 7,
            ab <= 8,
            header_len(m) <= 14,
            c <= 3 ==> pos == header_len(m) + c * n2 * cb,
            c == 4 ==> pos == header_len(m) + 3 * n2 * cb + (if ab > 0 {
                n2 * ab
            } else {
                0
            }),
            forall|cc: int, j: int|
                0 <= cc < c && 0 <= j < n2 && (cc < 3 || ab > 0) ==> #[trigger] raw[cc][j]
                    == raw_endpoint(v, m, cc, j),
        decreases 4 - c,
    {
        if c < 3 || ab > 0 {
            let width = if c < 3 {
                cb
            } else {
                ab
            };
            let ghost start = pos;
            let mut j: usize = 0;
            while j < n2
                invariant
                    c < 4,
                    c < 3 || ab > 0,
                    j <= n2,
                    m < 8,
                    v == bs.0,
                    info == spec_mode_info(mode),
                    mode == m,
                    n2 == 2 * info.num_subsets,
                    1 <= info.num_subsets <= 3,
                    cb == info.color_bits,
                    ab == info.alpha_bits,
                    cb <= 7,
                    ab <= 8,
                    width == (if c < 3 {
                        cb
                    } else {
                        ab
                    }),
                    header_len(m) <= 14,
                    start == (if c < 3 {
                        header_len(m) + c * n2 * cb
                    } else {
                        header_len(m) + 3 * n2 * cb
                    }),
                    pos == start + j * width,
                    forall|cc: int, jj: int|
                        0 <= cc < c && 0 <= jj < n2 && (cc < 3 || ab > 0) ==> #[trigger] raw[cc][jj]
                            == raw_endpoint(v, m, cc, jj),
                    forall|jj: int| 0 <= jj < j ==> #[trigger] raw[c as int][jj] == raw_endpoint(
                        v,
                        m,
                        c as int,
                        jj,
                    ),
                decreases n2 - j,
            {
                proof {
                    assert(c * n2 * cb <= 3 * 6 * 7) by (nonlinear_arith)
                        requires
                            c < 4,
                            n2 <= 6,
                            cb <= 7,
                    ;
                    assert(j * width <= 6 * 8) by (nonlinear_arith)
                        requires
                            j < n2,
                            n2 <= 6,
                            width <= 8,
                    ;
                    if c < 3 {
                        assert(start + j * width == header_len(m) + (c * n2 + j) * cb)
                            by (nonlinear_arith)
                            requires
                                start == header_len(m) + c * n2 * cb,
                                width == cb,
                        ;
                    }
                }
                let val = read_field(&bs, &mut pos, width);
                raw[c][j] = val;
                proof {
                    assert(pos == start + (j + 1) * width) by (nonlinear_arith)
                        requires
                            pos == start + j * width + width,
                    ;
                }
                j += 1;
            }
            proof {
                if c < 3 {
                    assert(pos == header_len(m) + (c + 1) * n2 * cb) by (nonlinear_arith)
                        requires
                            pos == header_len(m) + c * n2 * cb + n2 * cb,
                    ;
                }
            }
        }
        c += 1;
    }
    assert(pos == pbit_start(m)) by {
        assert(header_len(m) + 3 * n2 * cb + (if ab > 0 {
            n2 * ab
        } else {
            0
        }) == header_len(m) + 2 * info.num_subsets * (3 * cb + ab)) by (nonlinear_arith)
            requires
                n2 == 2 * info.num_subsets,
        ;
    }

    let total_pbits = info.num_subsets * (info.endpoint_pbits as usize * 2
        + info.shared_pbits as usize);
    assert(total_pbits <= 6) by (nonlinear_arith)
        requires
            total_pbits == info.num_subsets * (info.endpoint_pbits * 2 + info.shared_pbits),
            info.num_subsets <= 3,
            info.endpoint_pbits <= 1,
            info.shared_pbits <= 1,
            !(info.endpoint_pbits > 0 && info.shared_pbits > 0),
    ;
    let mut p_bits = [0u32; 6];
    let mut k: usize = 0;
    while k < total_pbits
        invariant
            k <= total_pbits,
            total_pbits <= 6,
            pos == pbit_start(m) + k,
            pbit_start(m) <= 100,
            v == bs.0,
            forall|kk: int| 0 <= kk < k ==> #[trigger] p_bits[kk] == spec_read_bits(
                v,
                (pbit_start(m) + kk) as u32,
                1,
            ),
        decreases total_pbits - k,
    {
        p_bits[k] = read_field(&bs, &mut pos, 1);
        k += 1;
    }
    assert(pos == index_start(m));

    let mut ep = [[[0u8; 4]; 2]; 3];
    let mut s: usize = 0;
    while s < info.num_subsets
        invariant
            s <= info.num_subsets,
            m < 8,
            mode == m,
            v == bs.0,
            info == spec_mode_info(mode),
            n2 == 2 * info.num_subsets,
            1 <= info.num_subsets <= 3,
            cb == info.color_bits,
            ab == info.alpha_bits,
            total_pbits == info.num_subsets * (info.endpoint_pbits * 2 + info.shared_pbits),
            info.endpoint_pbits <= 1,
            info.shared_pbits <= 1,
            !(info.endpoint_pbits > 0 && info.shared_pbits > 0),
            4 <= cb + (if info.endpoint_pbits > 0 || info.shared_pbits > 0 {
                1int
            } else {
                0
            }) <= 8,
            ab > 0 ==> 4 <= ab + (if info.endpoint_pbits > 0 || info.shared_pbits > 0 {
                1int
            } else {
                0
            }) <= 8,
            forall|cc: int, j: int|
                0 <= cc < 4 && 0 <= j < n2 && (cc < 3 || ab > 0) ==> #[trigger] raw[cc][j]
                    == raw_endpoint(v, m, cc, j),
            forall|kk: int| 0 <= kk < total_pbits ==> #[trigger] p_bits[kk] == spec_read_bits(
                v,
                (pbit_start(m) + kk) as u32,
                1,
            ),
            forall|ss: int, e: int, cc: int|
                0 <= ss < 3 && 0 <= e < 2 && 0 <= cc < 4 ==> #[trigger] ep[ss][e][cc] == (if ss
                    < s {
                    expanded_endpoint(v, m, ss, e, cc)
                } else {
                    0
                }),
        decreases info.num_subsets - s,
    {
        let (p0, p1) = if info.endpoint_pbits > 0 {
            (Some(p_bits[s * 2]), Some(p_bits[s * 2 + 1]))
        } else if info.shared_pbits > 0 {
            (Some(p_bits[s]), Some(p_bits[s]))
        } else {
            (None, None)
        };
        proof {
            let ns = info.num_subsets;
            let epb = info.endpoint_pbits;
            let spb = info.shared_pbits;
            if epb > 0 {
                assert(total_pbits == ns * 2) by (nonlinear_arith)
                    requires
                        total_pbits == ns * (epb * 2 + spb),
                        epb == 1,
                        spb == 0,
                ;
                assert(p_bits[(s * 2) as int] == spec_read_bits(v, (pbit_start(m) + s * 2) as u32, 1));
                assert(p_bits[(s * 2 + 1) as int] == spec_read_bits(
                    v,
                    (pbit_start(m) + s * 2 + 1) as u32,
                    1,
                ));
            } else if spb > 0 {
                assert(total_pbits == ns) by (nonlinear_arith)
                    requires
                        total_pbits == ns * (epb * 2 + spb),
                        epb == 0,
                        spb == 1,
                ;
                assert(p_bits[s as int] == spec_read_bits(v, (pbit_start(m) + s) as u32, 1));
            }
        }
        assert(p0 == endpoint_pbit(v, m, s as int, 0));
        assert(p1 == endpoint_pbit(v, m, s as int, 1));
        let e0 = [
            expand_quantized(raw[0][2 * s], cb, p0),
            expand_quantized(raw[1][2 * s], cb, p0),
            expand_quantized(raw[2][2 * s], cb, p0),
            if ab > 0 {
                expand_quantized(raw[3][2 * s], ab, p0)
            } else {
                255
            },
        ];
        let e1 = [
            expand_quantized(raw[0][2 * s + 1], cb, p1),
            expand_quantized(raw[1][2 * s + 1], cb, p1),
            expand_quantized(raw[2][2 * s + 1], cb, p1),
            if ab > 0 {
                expand_quantized(raw[3][2 * s + 1], ab, p1)
            } else {
                255
            },
        ];
        ep[s][0] = e0;
        ep[s][1] = e1;
        s += 1;
    }

    let r = Bc7Header {
        mode,
        partition: part,
        rotation: rot,
        index_mode: idx_mode,
        endpoints: ep,
        index_start: pos,
    };
    r
}

/// Whether pixel `i` is the anchor of a subset (the first pixel of subset
/// 0, or the anchor pixel `a1` of subset 1 or `a2` of subset 2 when the mode
/// has that many subsets); an anchor's index is stored with one bit fewer.
pub open spec fn is_anchor(ns: usize, a1: usize, a2: usize, i: int) -> bool {
    i == 0 || (ns >= 2 && i == a1) || (ns == 3 && i == a2)
}

/// The stored width of the index of pixel `i`.
pub open spec fn index_width(ib: int, ns: usize, a1: usize, a2: usize, i: int) -> int {
    if is_anchor(ns, a1, a2, i) {
        ib - 1
    } else {
        ib
    }
}

/// Where the index of pixel `i` starts: the indices of pixels `0..i` are
/// stored one after another from `start`.
pub open spec fn index_offset(start: int, ib: int, ns: usize, a1: usize, a2: usize, i: int) -> int
    decreases i,
{
    if i <= 0 {
        start
    } else {
        index_offset(start, ib, ns, a1, a2, i - 1) + index_width(ib, ns, a1, a2, i - 1)
    }
}

/// The index of pixel `i` in a run of indices of `ib` bits from `start`.
pub open spec fn run_index(v: u128, start: int, ib: int, ns: usize, a1: usize, a2: usize, i: int) -> u8 {
    spec_read_bits(
        v,
        index_offset(start, ib, ns, a1, a2, i) as u32,
        index_width(ib, ns, a1, a2, i) as u32,
    ) as u8
}

/// The index mode bit of the BC7 block `v` of mode `m`.
pub open spec fn index_mode_of(v: u128, m: usize) -> u32 {
    let i = spec_mode_info(m);
    spec_read_bits(v, (m + 1 + i.partition_bits + i.rotation_bits) as u32, i.index_selection_bits)
}

/// Colour and alpha index widths of modes 4 and 5: mode 4 swaps its 2- and
/// 3-bit indices when the index mode is 1.
pub open spec fn split_widths(m: usize, index_mode: u32) -> (int, int) {
    if m == 4 {
        if index_mode == 0 {
            (2, 3)
        } else {
            (3, 2)
        }
    } else {
        (2, 2)
    }
}

/// The colour index of pixel `i` of the BC7 block `v`, whose partition has
/// anchor pixels `a1` and `a2` for subsets 1 and 2 (0 for a block without a
/// valid mode).
pub open spec fn bc7_color_index(v: u128, a1: usize, a2: usize, i: int) -> u8 {
    let m = bc7_mode(v) as usize;
    let info = spec_mode_info(m);
    if bc7_mode(v) >= 8 {
        0
    } else if m == 4 || m == 5 {
        run_index(v, index_start(m), split_widths(m, index_mode_of(v, m)).0, 1, 0, 0, i)
    } else {
        run_index(v, index_start(m), info.index_bits as int, info.num_subsets, a1, a2, i)
    }
}

/// The alpha index of pixel `i` of the BC7 block `v`: stored after the
/// colour indices in modes 4 and 5, 0 in the other modes.
pub open spec fn bc7_alpha_index(v: u128, i: int) -> u8 {
    let m = bc7_mode(v) as usize;
    if bc7_mode(v) < 8 && (m == 4 || m == 5) {
        let (cw, aw) = split_widths(m, index_mode_of(v, m));
        run_index(v, index_start(m) + 16 * cw - 1, aw, 1, 0, 0, i)
    } else {
        0
    }
}

/// Reads 16 indices of `ib` bits (one bit fewer for the anchors) from
/// `*pos` on, and moves `*pos` past them.
pub(crate) fn read_index_run(
    bs: &BitStream128,
    pos: &mut u32,
    ib: u32,
    ns: usize,
    a1: usize,
    a2: usize,
) -> (r: [u8; 16])
    requires
        2 <= ib <= 4,
        *old(pos) <= 200,
    ensures
        forall|i: int|
            0 <= i < 16 ==> #[trigger] r@[i] == run_index(
                bs.0,
                *old(pos) as int,
                ib as int,
                ns,
                a1,
                a2,
                i,
            ),
        *final(pos) == index_offset(*old(pos) as int, ib as int, ns, a1, a2, 16),
{
    let ghost start = *pos as int;
    let mut r = [0u8; 16];
    let mut i: usize = 0;
    while i < 16
        invariant
            i <= 16,
            2 <= ib <= 4,
            start <= 200,
            *pos == index_offset(start, ib as int, ns, a1, a2, i as int),
            *pos <= start + 4 * i,
            forall|k: int|
                0 <= k < i ==> #[trigger] r@[k] == run_index(bs.0, start, ib as int, ns, a1, a2, k),
        decreases 16 - i,
    {
        let anchor = i == 0 || (ns >= 2 && i == a1) || (ns == 3 && i == a2);
        let width = if anchor {
            ib - 1
        } else {
            ib
        };
        let idx = read_field(bs, pos, width);
        r[i] = idx as u8;
        i += 1;
    }
    *pos = *pos;
    r
}

/// The colour and alpha indices of the BC7 block `block`, given the anchor
/// pixels `anchors[0]` and `anchors[1]` of subsets 1 and 2 of its
/// partition (unused by modes with fewer subsets). All indices are 0 for a
/// block without a valid mode, and the alpha indices are 0 outside modes 4
/// and 5.
pub fn decode_bc7_indices(block: &[u8; 16], anchors: &[usize; 2]) -> (r: ([u8; 16], [u8; 16]))
    ensures
        forall|i: int|
            0 <= i < 16 ==> #[trigger] r.0@[i] == bc7_color_index(
                from_le_bytes_128(block@),
                anchors[0],
                anchors[1],
                i,
            ),
        forall|i: int|
            0 <= i < 16 ==> #[trigger] r.1@[i] == bc7_alpha_index(from_le_bytes_128(block@), i),
{
    let h = decode_bc7_header(block);
    let bs = BitStream128::from_bytes(block);
    let ghost v = bs.0;
    if h.mode >= 8 {
        return ([0u8; 16], [0u8; 16]);
    }
    let mode = h.mode;
    proof {
        lemma_mode_sizes(mode);
    }
    let info = bc7_mode_info(mode);
    let mut pos = h.index_start;
    if mode == 4 || mode == 5 {
        let (cw, aw): (u32, u32) = if mode == 4 {
            if h.index_mode == 0 {
                (2, 3)
            } else {
                (3, 2)
            }
        } else {
            (2, 2)
        };
        assert(h.index_mode == index_mode_of(v, mode));
        let colors = read_index_run(&bs, &mut pos, cw, 1, 0, 0);
        proof {
            lemma_single_anchor_run(h.index_start as int, cw as int);
        }
        let alphas = read_index_run(&bs, &mut pos, aw, 1, 0, 0);
        (colors, alphas)
    } else {
        let colors = read_index_run(&bs, &mut pos, info.index_bits, info.num_subsets, anchors[0], anchors[1]);
        (colors, [0u8; 16])
    }
}

/// With only pixel 0 as anchor, 16 indices of `w` bits take `16 * w - 1`
/// bits.
pub(crate) proof fn lemma_single_anchor_run(start: int, w: int)
    ensures
        index_offset(start, w, 1, 0, 0, 16) == start + 16 * w - 1,
{
    assert forall|i: int| 1 <= i <= 16 implies #[trigger] index_offset(start, w, 1, 0, 0, i)
        == start + i * w - 1 by {
        lemma_single_anchor_prefix(start, w, i);
    }
}

proof fn lemma_single_anchor_prefix(start: int, w: int, i: int)
    requires
        1 <= i,
    ensures
        index_offset(start, w, 1, 0, 0, i) == start + i * w - 1,
    decreases i,
{
    if i > 1 {
        lemma_single_anchor_prefix(start, w, i - 1);
        assert(start + (i - 1) * w - 1 + w == start + i * w - 1) by (nonlinear_arith);
    } else {
        assert(index_offset(start, w, 1, 0, 0, 0) == start);
    }
}


/// The subset of pixel `i` of the BC7 block `v`, whose partition puts pixel
/// `i` in subset `shape[i]`: 0 in a one-subset mode and in a block without
/// a valid mode.
pub open spec fn bc7_pixel_subset(v: u128, shape: Seq<u8>, i: int) -> u8 {
    let m = bc7_mode(v) as usize;
    if bc7_mode(v) >= 8 || spec_mode_info(m).num_subsets == 1 {
        0
    } else {
        shape[i]
    }
}

/// Everything a BC7 block stores: its header and expanded endpoints, and
/// for each pixel its subset, colour index and alpha index.
#[derive(Debug, Clone, Copy)]
pub struct Bc7Fields {
    pub header: Bc7Header,
    pub subsets: [u8; 16],
    pub color_indices: [u8; 16],
    pub alpha_indices: [u8; 16],
}

/// `f` holds the fields of the BC7 block with bits `v`, whose partition has
/// the subset map `shape` and the anchor pixels `a1` and `a2`.
pub open spec fn is_bc7_fields(v: u128, shape: Seq<u8>, a1: usize, a2: usize, f: Bc7Fields) -> bool {
    &&& is_bc7_header(v, f.header)
    &&& forall|i: int| 0 <= i < 16 ==> #[trigger] f.subsets@[i] == bc7_pixel_subset(v, shape, i)
    &&& forall|i: int|
        0 <= i < 16 ==> #[trigger] f.color_indices@[i] == bc7_color_index(v, a1, a2, i)
    &&& forall|i: int| 0 <= i < 16 ==> #[trigger] f.alpha_indices@[i] == bc7_alpha_index(v, i)
}

/// The fields of the BC7 block `block`. The caller passes, for the
/// partition named in the block's header, the subset of each pixel
/// (`shape`) and the anchor pixels of subsets 1 and 2 (`anchors`); they are
/// used only by modes with more than one subset. A block without a valid
/// mode gives mode 8 and all other fields 0.
pub fn decode_bc7_block_fields(block: &[u8; 16], shape: &[u8; 16], anchors: &[usize; 2]) -> (r:
    Bc7Fields)
    ensures
        is_bc7_fields(from_le_bytes_128(block@), shape@, anchors[0], anchors[1], r),
{
    let header = decode_bc7_header(block);
    let (color_indices, alpha_indices) = decode_bc7_indices(block, anchors);
    let ghost v = from_le_bytes_128(block@);
    let mut subsets = [0u8; 16];
    if header.mode < 8 {
        proof {
            lemma_mode_sizes(header.mode);
        }
        let info = bc7_mode_info(header.mode);
        if info.num_subsets != 1 {
            let mut i: usize = 0;
            while i < 16
                invariant
                    i <= 16,
                    forall|k: int| 0 <= k < i ==> #[trigger] subsets@[k] == shape@[k],
                decreases 16 - i,
            {
                subsets[i] = shape[i];
                i += 1;
            }
        }
    }
    Bc7Fields { header, subsets, color_indices, alpha_indices }
}

} // verus!
