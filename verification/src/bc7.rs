//! BC7 building blocks that need no partition tables: mode descriptions,
//! endpoint expansion, channel rotation, the mode-6 packer and the mode-6
//! single-colour endpoint table.

use vstd::prelude::*;

verus! {

/// Partition index of the 2-subset checkerboard pattern.
pub const BC7E_2SUBSET_CHECKERBOARD_PARTITION_INDEX: usize = 34;

/// Interpolation weights (out of 64) for 2-bit indices.
pub const G_BC7_WEIGHTS2: [u32; 4] = [0, 21, 43, 64];

/// Interpolation weights (out of 64) for 3-bit indices.
pub const G_BC7_WEIGHTS3: [u32; 8] = [0, 9, 18, 27, 37, 46, 55, 64];

/// Interpolation weights (out of 64) for 4-bit indices.
pub const G_BC7_WEIGHTS4: [u32; 16] = [0, 4, 9, 13, 17, 21, 26, 30, 34, 38, 43, 47, 51, 55, 60, 64];

/// Field widths of one BC7 mode.
#[derive(Debug, Clone, Copy)]
pub struct BC7ModeInfo {
    pub num_subsets: usize,
    pub partition_bits: u32,
    pub rotation_bits: u32,
    pub index_selection_bits: u32,
    pub color_bits: u32,
    pub alpha_bits: u32,
    pub endpoint_pbits: u32,
    pub shared_pbits: u32,
    pub index_bits: u32,
    pub secondary_index_bits: u32,
}

/// The field widths of BC7 mode `mode` (0 to 7).
pub open spec fn spec_mode_info(mode: usize) -> BC7ModeInfo {
    if mode == 0 {
        BC7ModeInfo {
            num_subsets: 3,
            partition_bits: 4,
            rotation_bits: 0,
            index_selection_bits: 0,
            color_bits: 4,
            alpha_bits: 0,
            endpoint_pbits: 1,
            shared_pbits: 0,
            index_bits: 3,
            secondary_index_bits: 0,
        }
    } else if mode == 1 {
        BC7ModeInfo {
            num_subsets: 2,
            partition_bits: 6,
            rotation_bits: 0,
            index_selection_bits: 0,
            color_bits: 6,
            alpha_bits: 0,
            endpoint_pbits: 0,
            shared_pbits: 1,
            index_bits: 3,
            secondary_index_bits: 0,
        }
    } else if mode == 2 {
        BC7ModeInfo {
            num_subsets: 3,
            partition_bits: 6,
            rotation_bits: 0,
            index_selection_bits: 0,
            color_bits: 5,
            alpha_bits: 0,
            endpoint_pbits: 0,
            shared_pbits: 0,
            index_bits: 2,
            secondary_index_bits: 0,
        }
    } else if mode == 3 {
        BC7ModeInfo {
            num_subsets: 2,
            partition_bits: 6,
            rotation_bits: 0,
            index_selection_bits: 0,
            color_bits: 7,
            alpha_bits: 0,
            endpoint_pbits: 1,
            shared_pbits: 0,
            index_bits: 2,
            secondary_index_bits: 0,
        }
    } else if mode == 4 {
        BC7ModeInfo {
            num_subsets: 1,
            partition_bits: 0,
            rotation_bits: 2,
            index_selection_bits: 1,
            color_bits: 5,
            alpha_bits: 6,
            endpoint_pbits: 0,
            shared_pbits: 0,
            index_bits: 2,
            secondary_index_bits: 3,
        }
    } else if mode == 5 {
        BC7ModeInfo {
            num_subsets: 1,
            partition_bits: 0,
            rotation_bits: 2,
            index_selection_bits: 0,
            color_bits: 7,
            alpha_bits: 8,
            endpoint_pbits: 0,
            shared_pbits: 0,
            index_bits: 2,
            secondary_index_bits: 2,
        }
    } else if mode == 6 {
        BC7ModeInfo {
            num_subsets: 1,
            partition_bits: 0,
            rotation_bits: 0,
            index_selection_bits: 0,
            color_bits: 7,
            alpha_bits: 7,
            endpoint_pbits: 1,
            shared_pbits: 0,
            index_bits: 4,
            secondary_index_bits: 0,
        }
    } else {
        BC7ModeInfo {
            num_subsets: 2,
            partition_bits: 6,
            rotation_bits: 0,
            index_selection_bits: 0,
            color_bits: 5,
            alpha_bits: 5,
            endpoint_pbits: 1,
            shared_pbits: 0,
            index_bits: 2,
            secondary_index_bits: 0,
        }
    }
}

/// The field widths of BC7 mode `mode`.
pub fn bc7_mode_info(mode: usize) -> (r: BC7ModeInfo)
    requires
        mode < 8,
    ensures
        r == spec_mode_info(mode),
{
    if mode == 0 {
        BC7ModeInfo {
            num_subsets: 3,
            partition_bits: 4,
            rotation_bits: 0,
            index_selection_bits: 0,
            color_bits: 4,
            alpha_bits: 0,
            endpoint_pbits: 1,
            shared_pbits: 0,
            index_bits: 3,
            secondary_index_bits: 0,
        }
    } else if mode == 1 {
        BC7ModeInfo {
            num_subsets: 2,
            partition_bits: 6,
            rotation_bits: 0,
            index_selection_bits: 0,
            color_bits: 6,
            alpha_bits: 0,
            endpoint_pbits: 0,
            shared_pbits: 1,
            index_bits: 3,
            secondary_index_bits: 0,
        }
    } else if mode == 2 {
        BC7ModeInfo {
            num_subsets: 3,
            partition_bits: 6,
            rotation_bits: 0,
            index_selection_bits: 0,
            color_bits: 5,
            alpha_bits: 0,
            endpoint_pbits: 0,
            shared_pbits: 0,
            index_bits: 2,
            secondary_index_bits: 0,
        }
    } else if mode == 3 {
        BC7ModeInfo {
            num_subsets: 2,
            partition_bits: 6,
            rotation_bits: 0,
            index_selection_bits: 0,
            color_bits: 7,
            alpha_bits: 0,
            endpoint_pbits: 1,
            shared_pbits: 0,
            index_bits: 2,
            secondary_index_bits: 0,
        }
    } else if mode == 4 {
        BC7ModeInfo {
            num_subsets: 1,
            partition_bits: 0,
            rotation_bits: 2,
            index_selection_bits: 1,
            color_bits: 5,
            alpha_bits: 6,
            endpoint_pbits: 0,
            shared_pbits: 0,
            index_bits: 2,
            secondary_index_bits: 3,
        }
    } else if mode == 5 {
        BC7ModeInfo {
            num_subsets: 1,
            partition_bits: 0,
            rotation_bits: 2,
            index_selection_bits: 0,
            color_bits: 7,
            alpha_bits: 8,
            endpoint_pbits: 0,
            shared_pbits: 0,
            index_bits: 2,
            secondary_index_bits: 2,
        }
    } else if mode == 6 {
        BC7ModeInfo {
            num_subsets: 1,
            partition_bits: 0,
            rotation_bits: 0,
            index_selection_bits: 0,
            color_bits: 7,
            alpha_bits: 7,
            endpoint_pbits: 1,
            shared_pbits: 0,
            index_bits: 4,
            secondary_index_bits: 0,
        }
    } else {
        BC7ModeInfo {
            num_subsets: 2,
            partition_bits: 6,
            rotation_bits: 0,
            index_selection_bits: 0,
            color_bits: 5,
            alpha_bits: 5,
            endpoint_pbits: 1,
            shared_pbits: 0,
            index_bits: 2,
            secondary_index_bits: 0,
        }
    }
}

/// The endpoint value `val` of `bits` bits, extended by the p-bit when there is
/// one, as a code `c` of `t` bits.
pub open spec fn endpoint_code(val: u32, bits: u32, p_bit: Option<u32>) -> (u32, u32) {
    match p_bit {
        Some(p) => ((val << 1u32) | (p & 1u32), (bits + 1) as u32),
        None => (val, bits),
    }
}

/// The 8-bit value of a `t`-bit endpoint code: the code in the top bits,
/// its own top bits repeated below.
pub open spec fn expand_code(c: u32, t: u32) -> u8 {
    ((c << ((8 - t) as u32)) | (c >> ((2 * t - 8) as u32))) as u8
}

/// Expands a quantized endpoint (with its optional p-bit) to 8 bits.
pub fn expand_quantized(val: u32, bits: u32, p_bit: Option<u32>) -> (r: u8)
    requires
        bits <= 8,
        4 <= endpoint_code(val, bits, p_bit).1 <= 8,
    ensures
        r == expand_code(endpoint_code(val, bits, p_bit).0, endpoint_code(val, bits, p_bit).1),
{
    let (c, total_bits) = match p_bit {
        Some(p) => ((val << 1) | (p & 1), bits + 1),
        None => (val, bits),
    };
    let shift = 8 - total_bits;
    ((c << shift) | (c >> (2 * total_bits - 8))) as u8
}

/// The pixel after a BC7 channel rotation: rotation 1, 2, 3 exchanges the
/// alpha channel with red, green, blue; any other value leaves it unchanged.
pub open spec fn rotated(px: Seq<u8>, rotation: usize) -> Seq<u8> {
    if rotation == 1 {
        seq![px[3], px[1], px[2], px[0]]
    } else if rotation == 2 {
        seq![px[0], px[3], px[2], px[1]]
    } else if rotation == 3 {
        seq![px[0], px[1], px[3], px[2]]
    } else {
        px
    }
}

/// Applies a BC7 channel rotation to a pixel.
pub fn apply_rotation(pixel: &mut [u8; 4], rotation: usize)
    ensures
        final(pixel)@ == rotated(old(pixel)@, rotation),
{
    let p = *pixel;
    if rotation == 1 {
        *pixel = [p[3], p[1], p[2], p[0]];
    } else if rotation == 2 {
        *pixel = [p[0], p[3], p[2], p[1]];
    } else if rotation == 3 {
        *pixel = [p[0], p[1], p[3], p[2]];
    }
    assert(pixel@ =~= rotated(p@, rotation));
}

/// Applying the same rotation twice gives the pixel back.
pub proof fn lemma_rotation_involutive(px: Seq<u8>, rotation: usize)
    requires
        px.len() == 4,
    ensures
        rotated(rotated(px, rotation), rotation) == px,
{
    assert(rotated(rotated(px, rotation), rotation) =~= px);
}

/// Byte `k` of the little-endian encoding of a 64-bit value.
pub open spec fn le_byte_64(v: u64, k: int) -> u8 {
    ((v >> ((8 * k) as u64)) & 0xffu64) as u8
}

/// The first 64 bits of a mode-6 block (mode bit, endpoints, first p-bit).
pub open spec fn mode6_low(lo: Seq<u8>, hi: Seq<u8>, pb: Seq<u8>) -> u64 {
    (1u64 << 6u64) | ((lo[0] as u64) << 7u64) | ((hi[0] as u64) << 14u64) | ((lo[1] as u64)
        << 21u64) | ((hi[1] as u64) << 28u64) | ((lo[2] as u64) << 35u64) | ((hi[2] as u64)
        << 42u64) | ((lo[3] as u64) << 49u64) | ((hi[3] as u64) << 56u64) | ((pb[0] as u64)
        << 63u64)
}

/// The last 64 bits of a mode-6 block: the second p-bit, the 3-bit anchor
/// selector, then 15 4-bit selectors (each exclusive-or'ed with `inv`).
pub open spec fn mode6_high(p1: u8, s: Seq<u8>, inv: u8) -> u64 {
    (p1 as u64) | (((inv ^ s[0]) as u64) << 1u64) | (((inv ^ s[1]) as u64) << 4u64) | (((inv
        ^ s[2]) as u64) << 8u64) | (((inv ^ s[3]) as u64) << 12u64) | (((inv ^ s[4]) as u64)
        << 16u64) | (((inv ^ s[5]) as u64) << 20u64) | (((inv ^ s[6]) as u64) << 24u64) | (((inv
        ^ s[7]) as u64) << 28u64) | (((inv ^ s[8]) as u64) << 32u64) | (((inv ^ s[9]) as u64)
        << 36u64) | (((inv ^ s[10]) as u64) << 40u64) | (((inv ^ s[11]) as u64) << 44u64) | (((
    inv ^ s[12]) as u64) << 48u64) | (((inv ^ s[13]) as u64) << 52u64) | (((inv ^ s[14]) as u64)
        << 56u64) | (((inv ^ s[15]) as u64) << 60u64)
}

/// The 16 bytes of a mode-6 BC7 block: when the anchor selector has its top
/// bit set, the endpoints and p-bits are exchanged and every selector
/// inverted, so that the anchor's top bit is implied zero.
pub open spec fn encode_mode6(lo: Seq<u8>, hi: Seq<u8>, pb: Seq<u8>, s: Seq<u8>) -> Seq<u8> {
    let flip = (s[0] & 8u8) != 0;
    let (l_ep, h_ep, p) = if flip {
        (hi, lo, seq![pb[1], pb[0]])
    } else {
        (lo, hi, pb)
    };
    let inv = if flip {
        15u8
    } else {
        0u8
    };
    let l = mode6_low(l_ep, h_ep, p);
    let h = mode6_high(p[1], s, inv);
    Seq::new(16, |k: int| if k < 8 { le_byte_64(l, k) } else { le_byte_64(h, k - 8) })
}

/// Writes the 8 little-endian bytes of `v` at `out[at..at + 8]`.
fn put_le_u64(v: u64, out: &mut [u8; 16], at: usize)
    requires
        at == 0 || at == 8,
    ensures
        forall|k: int| at <= k < at + 8 ==> final(out)@[k] == le_byte_64(v, k - at),
        forall|k: int| 0 <= k < 16 && !(at <= k < at + 8) ==> final(out)@[k] == old(out)@[k],
{
    let mut k: usize = 0;
    while k < 8
        invariant
            k <= 8,
            at == 0 || at == 8,
            out@.len() == 16,
            forall|j: int| at <= j < at + k ==> out@[j] == le_byte_64(v, j - at),
            forall|j: int| 0 <= j < 16 && !(at <= j < at + k) ==> out@[j] == old(out)@[j],
        decreases 8 - k,
    {
        out[at + k] = ((v >> ((8 * k) as u64)) & 0xff) as u8;
        k += 1;
    }
}

/// Packs a mode-6 BC7 block from 7-bit endpoints, p-bits and 4-bit selectors.
pub fn encode_bc7_block_mode6(
    low: [u8; 4],
    high: [u8; 4],
    pbits: [u8; 2],
    selectors: &[u8; 16],
    out_block: &mut [u8; 16],
)
    ensures
        final(out_block)@ == encode_mode6(low@, high@, pbits@, selectors@),
{
    let mut low_ep = low;
    let mut high_ep = high;
    let mut pb = pbits;
    let mut inv = 0u8;
    if (selectors[0] & 8) != 0 {
        inv = 15;
        std::mem::swap(&mut low_ep, &mut high_ep);
        pb = [pbits[1], pbits[0]];
    }
    let mut l: u64 = 1 << 6;
    l |= (low_ep[0] as u64) << 7;
    l |= (high_ep[0] as u64) << 14;
    l |= (low_ep[1] as u64) << 21;
    l |= (high_ep[1] as u64) << 28;
    l |= (low_ep[2] as u64) << 35;
    l |= (high_ep[2] as u64) << 42;
    l |= (low_ep[3] as u64) << 49;
    l |= (high_ep[3] as u64) << 56;
    l |= (pb[0] as u64) << 63;

    let mut h: u64 = pb[1] as u64;
    h |= ((inv ^ selectors[0]) as u64) << 1;
    h |= ((inv ^ selectors[1]) as u64) << 4;
    h |= ((inv ^ selectors[2]) as u64) << 8;
    h |= ((inv ^ selectors[3]) as u64) << 12;
    h |= ((inv ^ selectors[4]) as u64) << 16;
    h |= ((inv ^ selectors[5]) as u64) << 20;
    h |= ((inv ^ selectors[6]) as u64) << 24;
    h |= ((inv ^ selectors[7]) as u64) << 28;
    h |= ((inv ^ selectors[8]) as u64) << 32;
    h |= ((inv ^ selectors[9]) as u64) << 36;
    h |= ((inv ^ selectors[10]) as u64) << 40;
    h |= ((inv ^ selectors[11]) as u64) << 44;
    h |= ((inv ^ selectors[12]) as u64) << 48;
    h |= ((inv ^ selectors[13]) as u64) << 52;
    h |= ((inv ^ selectors[14]) as u64) << 56;
    h |= ((inv ^ selectors[15]) as u64) << 60;

    let ghost flip = (selectors@[0] & 8u8) != 0;
    proof {
        let (l_ep, h_ep, p) = if flip {
            (high@, low@, seq![pbits@[1], pbits@[0]])
        } else {
            (low@, high@, pbits@)
        };
        assert(low_ep@ =~= l_ep && high_ep@ =~= h_ep && pb@ =~= p);
        assert(l == mode6_low(l_ep, h_ep, p));
        assert(h == mode6_high(p[1], selectors@, inv));
    }
    put_le_u64(l, out_block, 0);
    put_le_u64(h, out_block, 8);
    assert(out_block@ =~= encode_mode6(low@, high@, pbits@, selectors@));
}

/// One entry of the mode-6 single-colour table: the best 7-bit endpoint
/// pair and its squared error.
#[derive(Clone, Copy, Debug, Default)]
pub struct EndpointErr {
    pub error: u16,
    pub lo: u8,
    pub hi: u8,
}

/// Squared error of reproducing colour `c` with mode-6 endpoints `l`, `h`
/// (7 bits each, p-bits `lp`, `hp`) at selector weight 21/64 (index 5).
pub open spec fn mode6_err(c: int, hp: int, lp: int, l: int, h: int) -> int {
    let low = 2 * l + lp;
    let high = 2 * h + hp;
    let k = (low * 43 + high * 21 + 32) / 64;
    (k - c) * (k - c)
}

/// `e` holds the first (in order of `lo`, then `hi`) endpoint pair among the
/// first `n` pairs (numbered `128 * lo + hi`) with the smallest error for `c`.
pub open spec fn is_first_best(c: int, hp: int, lp: int, n: int, e: EndpointErr) -> bool {
    let at = 128 * e.lo + e.hi;
    &&& e.lo < 128
    &&& e.hi < 128
    &&& at < n
    &&& e.error as int == mode6_err(c, hp, lp, e.lo as int, e.hi as int)
    &&& forall|i: int| 0 <= i < n ==> #[trigger] mode6_err(c, hp, lp, i / 128, i % 128) >= e.error
    &&& forall|i: int|
        0 <= i < at ==> #[trigger] mode6_err(c, hp, lp, i / 128, i % 128) > e.error
}

/// Searches all 128 x 128 endpoint pairs for colour `c` and p-bits `hp`, `lp`.
fn best_mode6_endpoints(c: usize, hp: usize, lp: usize) -> (r: EndpointErr)
    requires
        c < 256,
        hp < 2,
        lp < 2,
    ensures
        is_first_best(c as int, hp as int, lp as int, 16384, r),
{
    let mut best = EndpointErr { error: u16::MAX, lo: 0, hi: 0 };
    let mut l: usize = 0;
    while l < 128
        invariant
            l <= 128,
            c < 256,
            hp < 2,
            lp < 2,
            l == 0 ==> best.error == u16::MAX && best.lo == 0 && best.hi == 0,
            l > 0 ==> is_first_best(c as int, hp as int, lp as int, 128 * l, best),
        decreases 128 - l,
    {
        let low = (l << 1) | lp;
        assert(low == 2 * l + lp) by (bit_vector)
            requires
                l < 128,
                lp < 2,
                low == (l << 1usize) | lp,
        ;
        let mut h: usize = 0;
        while h < 128
            invariant
                l < 128,
                h <= 128,
                c < 256,
                hp < 2,
                lp < 2,
                low == 2 * l + lp,
                l == 0 && h == 0 ==> best.error == u16::MAX && best.lo == 0 && best.hi == 0,
                l > 0 || h > 0 ==> is_first_best(c as int, hp as int, lp as int, 128 * l + h, best),
            decreases 128 - h,
        {
            let high = (h << 1) | hp;
            assert(high == 2 * h + hp) by (bit_vector)
                requires
                    h < 128,
                    hp < 2,
                    high == (h << 1usize) | hp,
            ;
            let w = G_BC7_WEIGHTS4[5] as usize;
            assert(G_BC7_WEIGHTS4@[5] == 21);
            assert(w == 21);
            assert(low * 43 <= 255 * 43 && high * 21 <= 255 * 21) by (nonlinear_arith)
                requires
                    low <= 255,
                    high <= 255,
            ;
            let sum = low * (64 - w) + high * w + 32;
            let k = sum >> 6;
            assert(k == sum / 64) by (bit_vector)
                requires
                    k == sum >> 6usize,
            ;
            assert(k <= 255);
            let dk = k as i32 - c as i32;
            assert(0 <= dk * dk <= 65025) by (nonlinear_arith)
                requires
                    -255 <= dk <= 255,
            ;
            let err = dk * dk;
            let ghost n = 128 * l + h;
            assert(n / 128 == l && n % 128 == h);
            assert(err == mode6_err(c as int, hp as int, lp as int, l as int, h as int));
            if err < best.error as i32 {
                best = EndpointErr { error: err as u16, lo: l as u8, hi: h as u8 };
            }
            proof {
                assert(128 * best.lo + best.hi < n + 1);
                assert forall|i: int| 0 <= i < n + 1 implies #[trigger] mode6_err(
                    c as int,
                    hp as int,
                    lp as int,
                    i / 128,
                    i % 128,
                ) >= best.error by {
                    if i < n {
                    } else {
                        assert(i / 128 == l && i % 128 == h);
                    }
                }
                assert forall|i: int| 0 <= i < 128 * best.lo + best.hi implies #[trigger] mode6_err(
                    c as int,
                    hp as int,
                    lp as int,
                    i / 128,
                    i % 128,
                ) > best.error by {
                }
            }
            h += 1;
        }
        l += 1;
    }
    best
}

/// The precomputed BC7 mode-6 table: for each 8-bit colour and p-bit pair,
/// the best 7-bit endpoint pair.
pub struct Bc7Tables {
    pub mode_6: [[[EndpointErr; 2]; 2]; 256],
}

impl Bc7Tables {
    /// Builds the table by exhaustive search.
    pub fn init() -> (r: Self)
        ensures
            forall|c: int, hp: int, lp: int|
                0 <= c < 256 && 0 <= hp < 2 && 0 <= lp < 2 ==> is_first_best(
                    c,
                    hp,
                    lp,
                    16384,
                    #[trigger] r.mode_6@[c]@[hp]@[lp],
                ),
    {
        let zero = EndpointErr { error: 0, lo: 0, hi: 0 };
        let mut mode_6 = [[[zero; 2]; 2]; 256];
        let mut c: usize = 0;
        while c < 256
            invariant
                c <= 256,
                forall|cc: int, hp: int, lp: int|
                    0 <= cc < c && 0 <= hp < 2 && 0 <= lp < 2 ==> is_first_best(
                        cc,
                        hp,
                        lp,
                        16384,
                        #[trigger] mode_6@[cc]@[hp]@[lp],
                    ),
            decreases 256 - c,
        {
            let e00 = best_mode6_endpoints(c, 0, 0);
            let e01 = best_mode6_endpoints(c, 0, 1);
            let e10 = best_mode6_endpoints(c, 1, 0);
            let e11 = best_mode6_endpoints(c, 1, 1);
            mode_6[c] = [[e00, e01], [e10, e11]];
            c += 1;
        }
        Bc7Tables { mode_6 }
    }
}

/// Settings of the iterative BC7 palette cluster fit.
pub struct PaletteClusterFit {
    pub max_iterations: usize,
}

impl PaletteClusterFit {
    /// A cluster fit with the iteration count clamped to 1..=8.
    pub fn new(max_iterations: usize) -> (r: Self)
        ensures
            r.max_iterations == if max_iterations < 1 {
                1
            } else if max_iterations > 8 {
                8
            } else {
                max_iterations
            },
    {
        let m = if max_iterations < 1 {
            1
        } else if max_iterations > 8 {
            8
        } else {
            max_iterations
        };
        PaletteClusterFit { max_iterations: m }
    }
}

} // verus!
