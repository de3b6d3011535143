//! Packed colour encodings: the shared-exponent R9G9B9E5 word, and the homes
//! of the RGBK and RGBL encoders (whose arithmetic is floating point and is
//! done outside this library).

use vstd::prelude::*;
use vstd::arithmetic::div_mod::lemma_fundamental_div_mod_converse;
use vstd::arithmetic::power2::{lemma2_to64, pow2};
use vstd::bits::{
    lemma_low_bits_mask_values, lemma_u32_low_bits_mask_is_mod, lemma_u32_shl_is_mul,
    lemma_u32_shr_is_div,
};

verus! {

/// A DXGI R9G9B9E5_SHAREDEXP texel: 9-bit red, green and blue mantissas and
/// a 5-bit shared exponent in one 32-bit word.
#[derive(Debug, Clone, Copy, PartialEq, Eq, Structural)]
pub struct Rgb9E5 {
    pub raw: u32,
}

/// A mantissa capped at the largest 9-bit value.
pub open spec fn cap9(m: u32) -> int {
    if m < 511 {
        m as int
    } else {
        511
    }
}

/// The word holding 9-bit mantissas `r`, `g`, `b` (red lowest) and the
/// 5-bit exponent `e` on top.
pub open spec fn rgb9e5_word(r: int, g: int, b: int, e: int) -> int {
    r + 512 * g + 262144 * b + 134217728 * e
}

impl Rgb9E5 {
    /// The texel with the packed word `raw`.
    pub fn new(raw: u32) -> (r: Self)
        ensures
            r.raw == raw,
    {
        Rgb9E5 { raw }
    }

    /// The texel with the mantissas `rm`, `gm`, `bm` (each capped at 511)
    /// and the shared exponent `exp`.
    pub fn from_parts(rm: u32, gm: u32, bm: u32, exp: u32) -> (r: Self)
        requires
            exp < 32,
        ensures
            r.raw == rgb9e5_word(cap9(rm), cap9(gm), cap9(bm), exp as int),
    {
        let rm = if rm < 511 {
            rm
        } else {
            511
        };
        let gm = if gm < 511 {
            gm
        } else {
            511
        };
        let bm = if bm < 511 {
            bm
        } else {
            511
        };
        proof {
            lemma2_to64();
            lemma_u32_shl_is_mul(gm, 9);
            lemma_u32_shl_is_mul(bm, 18);
            lemma_u32_shl_is_mul(exp, 27);
        }
        let raw = rm + (gm << 9u32) + (bm << 18u32) + (exp << 27u32);
        Rgb9E5 { raw }
    }

    /// The red, green and blue mantissas and the shared exponent.
    pub fn parts(&self) -> (r: (u32, u32, u32, u32))
        ensures
            r.0 == self.raw % 512,
            r.1 == self.raw / 512 % 512,
            r.2 == self.raw / 262144 % 512,
            r.3 == self.raw / 134217728,
    {
        let raw = self.raw;
        proof {
            lemma2_to64();
            lemma_low_bits_mask_values();
            lemma_u32_low_bits_mask_is_mod(raw, 9);
            lemma_u32_shr_is_div(raw, 9);
            lemma_u32_low_bits_mask_is_mod(raw >> 9u32, 9);
            lemma_u32_shr_is_div(raw, 18);
            lemma_u32_low_bits_mask_is_mod(raw >> 18u32, 9);
            lemma_u32_shr_is_div(raw, 27);
            lemma_u32_low_bits_mask_is_mod(raw >> 27u32, 5);
            let top = raw as int / 134217728;
            assert(top < 32);
            lemma_fundamental_div_mod_converse(top, 32, 0, top);
        }
        let rm = raw & 0x1FF;
        let gm = (raw >> 9u32) & 0x1FF;
        let bm = (raw >> 18u32) & 0x1FF;
        let exp = (raw >> 27u32) & 0x1F;
        (rm, gm, bm, exp)
    }
}

/// Reading the parts of a texel packed from parts gives the capped
/// mantissas and the exponent back.
pub proof fn lemma_rgb9e5_parts_round_trip(rm: u32, gm: u32, bm: u32, exp: u32)
    requires
        exp < 32,
    ensures
        ({
            let w = rgb9e5_word(cap9(rm), cap9(gm), cap9(bm), exp as int);
            &&& w % 512 == cap9(rm)
            &&& w / 512 % 512 == cap9(gm)
            &&& w / 262144 % 512 == cap9(bm)
            &&& w / 134217728 == exp
        }),
{
    let (r, g, b, e) = (cap9(rm), cap9(gm), cap9(bm), exp as int);
    let w = rgb9e5_word(r, g, b, e);
    lemma_fundamental_div_mod_converse(w, 512, g + 512 * b + 262144 * e, r);
    lemma_fundamental_div_mod_converse(g + 512 * b + 262144 * e, 512, b + 512 * e, g);
    lemma_fundamental_div_mod_converse(w, 262144, b + 512 * e, r + 512 * g);
    lemma_fundamental_div_mod_converse(b + 512 * e, 512, e, b);
    lemma_fundamental_div_mod_converse(w, 134217728, e, r + 512 * g + 262144 * b);
}

impl Default for Rgb9E5 {
    fn default() -> (r: Self)
        ensures
            r.raw == 0,
    {
        Rgb9E5 { raw: 0 }
    }
}

/// RGBK encoding (colour scaled by a squared multiplier kept in alpha).
pub struct Rgbk;

/// RGBL encoding (luminance kept in alpha).
pub struct Rgbl;

} // verus!
