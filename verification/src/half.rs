//! Half-float (IEEE binary16) bit patterns: conversion to and from the
//! binary32 layout, and the BC6H endpoint (un)quantization that works on
//! them. Only bit patterns are handled here; turning them into `f32` values
//! is left to the caller.

use vstd::prelude::*;
use vstd::bits::{
    lemma_low_bits_mask_values, lemma_u16_low_bits_mask_is_mod, lemma_u32_low_bits_mask_is_mod,
    lemma_u32_shl_is_mul, lemma_u32_shr_is_div, lemma_u16_shr_is_div, low_bits_mask,
};
use vstd::arithmetic::power2::{
    lemma2_to64, lemma_pow2_adds, lemma_pow2_strictly_increases, lemma_pow2_unfold, pow2,
};

verus! {

/// The sign bit of a half-float.
pub open spec fn half_sign(h: u16) -> u32 {
    ((h >> 15u16) & 1u16) as u32
}

/// The 5-bit biased exponent of a half-float.
pub open spec fn half_exponent(h: u16) -> u32 {
    ((h >> 10u16) & 0x1Fu16) as u32
}

/// The 10-bit mantissa of a half-float.
pub open spec fn half_mantissa(h: u16) -> u32 {
    (h & 0x3FFu16) as u32
}

/// The binary32 bit pattern with sign bit `s`, biased exponent `e` and
/// 23-bit mantissa field `m`.
pub open spec fn f32_pattern(s: u32, e: u32, m: u32) -> u32 {
    (s << 31u32) | (e << 23u32) | m
}

/// The index of the highest set bit of `m` (0 for 0 and 1).
pub open spec fn high_bit(m: nat) -> nat
    decreases m,
{
    if m <= 1 {
        0
    } else {
        1 + high_bit(m / 2)
    }
}

/// The binary32 pattern of the value of the half-float `h`: zeros keep
/// their sign; a subnormal half `m * 2^-24` with highest mantissa bit `k`
/// becomes the normal binary32 with exponent `k - 24` (biased `103 + k`)
/// and the bits below `k` as its mantissa; infinities and NaNs keep their
/// mantissa bits; normal halves are rebiased from 15 to 127.
pub open spec fn f32_bits_of_half(h: u16) -> u32 {
    let s = half_sign(h);
    let e = half_exponent(h);
    let m = half_mantissa(h);
    if e == 0 {
        if m == 0 {
            f32_pattern(s, 0, 0)
        } else {
            let k = high_bit(m as nat);
            f32_pattern(s, (103 + k) as u32, ((m - pow2(k)) * pow2((23 - k) as nat)) as u32)
        }
    } else if e == 31 {
        f32_pattern(s, 255, m << 13u32)
    } else {
        f32_pattern(s, (e + 112) as u32, m << 13u32)
    }
}

/// `2^high_bit(m) <= m < 2^(high_bit(m) + 1)` for positive `m`.
proof fn lemma_high_bit(m: nat)
    requires
        1 <= m,
    ensures
        pow2(high_bit(m)) <= m < pow2(high_bit(m) + 1),
    decreases m,
{
    lemma2_to64();
    if m > 1 {
        lemma_high_bit(m / 2);
        let k = high_bit(m / 2);
        lemma_pow2_unfold(k + 1);
        lemma_pow2_unfold(k + 2);
    }
}

/// Powers of two compare as their exponents do.
proof fn lemma_pow2_lt(a: nat, b: nat)
    ensures
        pow2(a) < pow2(b) <==> a < b,
{
    if a < b {
        lemma_pow2_strictly_increases(a, b);
    } else if b < a {
        lemma_pow2_strictly_increases(b, a);
    }
}

/// Bit facts on values below 2048 used by the half-float conversions.
proof fn lemma_small_bits(x: u32)
    by (bit_vector)
    requires
        x < 2048,
    ensures
        ((x & 0x400u32) == 0) == (x < 1024),
        1024 <= x ==> (x & 0x3FFu32) == x - 1024,
        x < 1024 ==> (x << 1u32) == 2 * x,
        (x << 13u32) == x * 8192,
{
}

/// The binary32 bit pattern of the value of the half-float `h`.
pub fn half_to_float_bits(h: u16) -> (r: u32)
    ensures
        r == f32_bits_of_half(h),
{
    let sign = ((h >> 15) & 0x0001) as u32;
    let exp = ((h >> 10) & 0x001F) as u32;
    let mant = (h & 0x03FF) as u32;

    if exp == 0 {
        if mant == 0 {
            (sign << 31) | (0u32 << 23) | 0
        } else {
            let ghost k = high_bit(mant as nat);
            proof {
                lemma2_to64();
                lemma_u16_low_bits_mask_is_mod(h, 10);
                lemma_low_bits_mask_values();
                assert(mant < 1024);
                lemma_high_bit(mant as nat);
                lemma_pow2_lt(k, 10);
                lemma_small_bits(mant);
            }
            let mut m = mant << 1u32;
            let mut e: u32 = 0;
            proof {
                lemma2_to64();
                assert(m == 2 * mant);
                assert(pow2(1) == 2);
                assert((e + 1) as nat == 1);
                assert(m == mant * pow2(1));
            }
            while (m & 0x0400) == 0
                invariant
                    1 <= mant < 1024,
                    k == high_bit(mant as nat),
                    pow2(k) <= mant < pow2(k + 1),
                    k + e + 1 <= 10,
                    m == mant * pow2((e + 1) as nat),
                    m < 2048,
                decreases 10 - e,
            {
                proof {
                    lemma_small_bits(m);
                    assert(m < 1024);
                    lemma2_to64();
                    lemma_pow2_adds(k, (e + 1) as nat);
                    assert(pow2(k) * pow2((e + 1) as nat) <= mant * pow2((e + 1) as nat)) by (nonlinear_arith)
                        requires
                            pow2(k) <= mant,
                    ;
                    lemma_pow2_lt((k + e + 1) as nat, 10);
                    lemma_pow2_unfold((e + 2) as nat);
                    assert(mant < pow2(k + 1));
                }
                m = m << 1u32;
                e = e + 1;
                proof {
                    assert(m == mant * pow2((e + 1) as nat)) by (nonlinear_arith)
                        requires
                            m == 2 * (mant * pow2(e as nat)),
                            pow2((e + 1) as nat) == 2 * pow2(e as nat),
                    ;
                }
            }
            proof {
                // The loop stops at the shift that brings the top bit to bit 10.
                lemma_small_bits(m);
                assert(m >= 1024);
                lemma_small_bits(m & 0x3FFu32);
                lemma_pow2_adds(k + 1, (e + 1) as nat);
                assert(mant * pow2((e + 1) as nat) < pow2(k + 1) * pow2((e + 1) as nat)) by (nonlinear_arith)
                    requires
                        mant < pow2(k + 1),
                        pow2((e + 1) as nat) > 0,
                ;
                lemma_pow2_lt(10, (k + e + 2) as nat);
                assert(k + e + 1 == 10);
                let p = pow2((10 - k) as nat);
                lemma_pow2_adds(k, (10 - k) as nat);
                lemma_pow2_adds((10 - k) as nat, 13);
                assert((m - 1024) * 8192 == (mant - pow2(k)) * pow2((23 - k) as nat))
                    by (nonlinear_arith)
                    requires
                        m == mant * p,
                        1024 == pow2(k) * p,
                        pow2((23 - k) as nat) == p * 8192,
                ;
            }
            let exp_f = (127 - 15 - e) << 23;
            let mant_f = (m & 0x03FF) << 13;
            (sign << 31) | exp_f | mant_f
        }
    } else if exp == 31 {
        let exp_f = 0xFFu32 << 23;
        let mant_f = mant << 13;
        (sign << 31) | exp_f | mant_f
    } else {
        let exp_f = (exp + 127 - 15) << 23;
        let mant_f = mant << 13;
        (sign << 31) | exp_f | mant_f
    }
}

/// The sign bit of a binary32 pattern.
pub open spec fn f32_sign(b: u32) -> u32 {
    (b >> 31u32) & 1u32
}

/// The 8-bit biased exponent of a binary32 pattern.
pub open spec fn f32_exponent(b: u32) -> u32 {
    (b >> 23u32) & 0xFFu32
}

/// The 23-bit mantissa of a binary32 pattern.
pub open spec fn f32_mantissa(b: u32) -> u32 {
    b & 0x7F_FFFFu32
}

/// The half-float made of the binary32 pattern `b`: the signed infinity for
/// biased exponents of 143 and up (values of 2^16 and more, infinities and
/// NaNs), +0 for biased exponents up to 112 (values below 2^-14, whatever
/// their sign), and otherwise the exponent rebiased from 127 to 15 and the
/// mantissa cut to its top 10 bits.
pub open spec fn half_of_f32_bits(b: u32) -> u16 {
    let e = f32_exponent(b);
    if e >= 143 {
        ((f32_sign(b) << 15u32) | 0x7C00u32) as u16
    } else if e <= 112 {
        0
    } else {
        ((f32_sign(b) << 15u32) | (((e - 112) as u32) << 10u32) | (f32_mantissa(b) >> 13u32)) as u16
    }
}

/// The half-float made of the binary32 pattern `bits` (see
/// `half_of_f32_bits`).
pub fn float_bits_to_half(bits: u32) -> (r: u16)
    ensures
        r == half_of_f32_bits(bits),
{
    let sign = (bits >> 31u32) & 1;
    proof {
        lemma_u32_low_bits_mask_is_mod(bits >> 23u32, 8);
        lemma_low_bits_mask_values();
        lemma2_to64();
    }
    let exp = ((bits >> 23u32) & 0xFF) as i32;
    let mant = bits & 0x007F_FFFF;

    if exp >= 143 {
        ((sign << 15u32) | 0x7C00) as u16
    } else if exp <= 112 {
        0
    } else {
        let new_exp = (exp - 127 + 15) as u32;
        let new_mant = mant >> 13u32;
        ((sign << 15u32) | (new_exp << 10u32) | new_mant) as u16
    }
}

/// Setting the top bit of a 16-bit value below 0x8000 adds 0x8000.
proof fn lemma_set_top_bit(y: u16)
    by (bit_vector)
    requires
        y < 0x8000,
    ensures
        (0x8000u16 | y) == 0x8000 + y,
{
}

/// The value BC6H endpoint decoding gives the `bits`-bit endpoint `val`, as
/// half-float bits: 0 for 0 bits; for 15 or 16 bits the low `bits` bits of
/// the endpoint moved to the top of the half; otherwise an unsigned
/// endpoint scaled to 0..=0xFFFF (its top code to 0xFFFF exactly), or the
/// magnitude of a signed one scaled to 0..=0x7FFF (magnitudes at or past
/// its top code to 0x7FFF), then multiplied by 31/64, with the sign bit set
/// for a negative endpoint.
pub open spec fn unquantized_half(val: i32, bits: u32, is_signed: bool) -> u16 {
    let b = bits as nat;
    let step = pow2((b - 1) as nat) as int;
    if bits == 0 {
        0
    } else if bits >= 15 {
        (((val as u32) as int % pow2(b) as int) * pow2((16 - b) as nat)) as u16
    } else if !is_signed {
        let u = (val as u32) as int % pow2(b) as int;
        let unq = if u == 0 {
            0
        } else if u == pow2(b) - 1 {
            0xFFFF
        } else {
            (u * 32768 + 0x4000) / step
        };
        (unq * 31 / 64) as u16
    } else {
        let a = if val < 0 {
            -(val as int)
        } else {
            val as int
        };
        let unq = if a == 0 {
            0
        } else if a >= step - 1 {
            0x7FFF
        } else {
            (a * 32768 + 0x4000) / step
        };
        let mag = unq * 31 / 64;
        if val < 0 {
            (0x8000 + mag) as u16
        } else {
            mag as u16
        }
    }
}

/// `2^bits` for `bits <= 16` is at most 65536, and `(1 << bits) - 1` is the
/// mask of the low `bits` bits.
proof fn lemma_small_pow2(bits: u32)
    requires
        bits <= 16,
    ensures
        1 <= pow2(bits as nat) <= 65536,
        (1u32 << bits) == pow2(bits as nat),
        ((1u32 << bits) - 1) as u32 == low_bits_mask(bits as nat) as u32,
{
    lemma2_to64();
    lemma_pow2_lt(bits as nat, 17);
    if bits == 0 {
    } else {
        lemma_pow2_lt(0, bits as nat);
    }
    lemma_u32_shl_is_mul(1, bits);
}

/// The half-float bits of the BC6H endpoint `val` of `bits` bits (see
/// `unquantized_half`).
pub fn unquantize_bc6h_half(val: i32, bits: u32, is_signed: bool) -> (r: u16)
    requires
        bits <= 16,
    ensures
        r == unquantized_half(val, bits, is_signed),
{
    proof {
        lemma2_to64();
        lemma_small_pow2(bits);
    }
    if !is_signed || bits >= 15 || bits == 0 {
        let mask = (1u32 << bits) - 1;
        let uval = (val as u32) & mask;
        proof {
            lemma_u32_low_bits_mask_is_mod(val as u32, bits as nat);
        }
        if bits == 0 {
            return 0;
        }
        if bits >= 15 {
            let sh = 16 - bits;
            proof {
                assert(pow2(sh as nat) <= 2);
                assert(uval * pow2(sh as nat) <= 2 * 65536) by (nonlinear_arith)
                    requires
                        uval < 65536,
                        pow2(sh as nat) <= 2,
                ;
                lemma_u32_shl_is_mul(uval, sh);
            }
            return (uval << sh) as u16;
        }
        let unq: u32 = if uval == 0 {
            0
        } else if uval == mask {
            0xFFFF
        } else {
            proof {
                lemma_pow2_lt(bits as nat, 15);
                assert(uval * pow2(15) <= 0x2000_0000) by (nonlinear_arith)
                    requires
                        uval < 16384,
                        pow2(15) == 32768,
                ;
                lemma_u32_shl_is_mul(uval, 15);
            }
            let sum = (uval << 15u32) + 0x4000;
            let sh = bits - 1;
            proof {
                lemma_u32_shr_is_div(sum, sh);
                lemma_pow2_unfold(bits as nat);
                let step = pow2(sh as nat);
                assert(sum < 65536 * step) by (nonlinear_arith)
                    requires
                        sum == uval * 32768 + 16384,
                        uval + 2 <= 2 * step,
                        step >= 1,
                ;
                assert(sum as nat / step < 65536) by (nonlinear_arith)
                    requires
                        sum < 65536 * step,
                        step >= 1,
                ;
            }
            sum >> sh
        };
        assert(unq <= 0xFFFF);
        let prod = unq * 31;
        proof {
            lemma_u32_shr_is_div(prod, 6);
        }
        (prod >> 6u32) as u16
    } else {
        let sign = val < 0;
        let abs_val: u32 = if val < 0 {
            (0 - (val as i64)) as u32
        } else {
            val as u32
        };
        proof {
            lemma_small_pow2((bits - 1) as u32);
        }
        let max_val = (1u32 << (bits - 1)) - 1;
        let unq: u32 = if abs_val == 0 {
            0
        } else if abs_val >= max_val {
            0x7FFF
        } else {
            proof {
                lemma_pow2_lt((bits - 1) as nat, 14);
                assert(abs_val * pow2(15) <= 0x2000_0000) by (nonlinear_arith)
                    requires
                        abs_val < 16384,
                        pow2(15) == 32768,
                ;
                lemma_u32_shl_is_mul(abs_val, 15);
            }
            let sum = (abs_val << 15u32) + 0x4000;
            let sh = bits - 1;
            proof {
                lemma_u32_shr_is_div(sum, sh);
                let step = pow2(sh as nat);
                assert(sum < 32768 * step) by (nonlinear_arith)
                    requires
                        sum == abs_val * 32768 + 16384,
                        abs_val + 1 < step,
                        step >= 1,
                ;
                assert(sum as nat / step < 32768) by (nonlinear_arith)
                    requires
                        sum < 32768 * step,
                        step >= 1,
                ;
            }
            sum >> sh
        };
        assert(unq <= 0x7FFF);
        let prod = unq * 31;
        proof {
            lemma_u32_shr_is_div(prod, 6);
        }
        let half_mag = (prod >> 6u32) as u16;
        proof {
            lemma_u16_low_bits_mask_is_mod(half_mag, 15);
            lemma_low_bits_mask_values();
            lemma_set_top_bit(half_mag & 0x7FFF);
        }
        if sign {
            0x8000u16 | (half_mag & 0x7FFF)
        } else {
            half_mag & 0x7FFF
        }
    }
}

/// The `bits`-bit BC6H endpoint a channel quantizes to, from the half-float
/// bits `h` of the channel (of its magnitude when signed) and whether it is
/// negative: 0 for 0 bits; for 15 or 16 bits the top `bits` bits of the
/// half (for a signed channel, of its magnitude with the sign bit set when
/// negative); otherwise the magnitude `m` of the half scaled to
/// `(64 * m + 15) / 31` and then to the endpoint range, rounded to nearest
/// and capped at the top code, negated for a negative signed channel.
pub open spec fn quantized_endpoint(h: u16, negative: bool, bits: u32, is_signed: bool) -> i32 {
    let b = bits as nat;
    let mag = h as int % 32768;
    let unq = (mag * 64 + 15) / 31;
    if bits == 0 {
        0
    } else if !is_signed {
        if bits >= 15 {
            (h as int / pow2((16 - b) as nat) as int) as i32
        } else {
            let top = pow2(b) - 1;
            let q = (unq * top + 0x7FFF) / 0xFFFF;
            (if q < top {
                q
            } else {
                top
            }) as i32
        }
    } else {
        if bits >= 15 {
            let hs = if negative {
                32768 + mag
            } else {
                mag
            };
            (hs / pow2((16 - b) as nat) as int) as i32
        } else {
            let top = pow2((b - 1) as nat) - 1;
            let q0 = (unq * top + 0x3FFF) / 0x7FFF;
            let q = if q0 < top {
                q0
            } else {
                top
            };
            (if negative {
                -q
            } else {
                q
            }) as i32
        }
    }
}

/// The `bits`-bit BC6H endpoint of a channel with half-float bits `h`
/// (see `quantized_endpoint`).
pub fn quantize_bc6h_half(h: u16, negative: bool, bits: u32, is_signed: bool) -> (r: i32)
    requires
        bits <= 16,
    ensures
        r == quantized_endpoint(h, negative, bits, is_signed),
{
    if bits == 0 {
        return 0;
    }
    proof {
        lemma2_to64();
        lemma_small_pow2(bits);
        lemma_u16_low_bits_mask_is_mod(h, 15);
        lemma_low_bits_mask_values();
    }
    if bits >= 15 {
        let sh = (16 - bits) as u16;
        let hs = if !is_signed {
            h
        } else if negative {
            proof {
                lemma_set_top_bit(h & 0x7FFF);
            }
            0x8000u16 | (h & 0x7FFF)
        } else {
            h & 0x7FFF
        };
        proof {
            lemma_u16_shr_is_div(hs, sh);
        }
        return (hs >> sh) as i32;
    }
    let mag = (h & 0x7FFF) as u32;
    proof {
        lemma_u32_shl_is_mul(mag, 6);
    }
    let unq = ((mag << 6u32) + 15) / 31;
    assert(unq <= 67649);
    let cbits = if is_signed {
        bits - 1
    } else {
        bits
    };
    proof {
        lemma_small_pow2(cbits);
        lemma_pow2_lt(cbits as nat, 15);
    }
    let max_val = (1u32 << cbits) - 1;
    assert(unq * max_val <= 67649 * 16383) by (nonlinear_arith)
        requires
            unq <= 67649,
            max_val <= 16383,
    ;
    let q0 = if is_signed {
        (unq * max_val + 0x3FFF) / 0x7FFF
    } else {
        (unq * max_val + 0x7FFF) / 0xFFFF
    };
    let q = if q0 < max_val {
        q0
    } else {
        max_val
    };
    if is_signed && negative {
        -(q as i32)
    } else {
        q as i32
    }
}

/// The binary32 fields of a widened half, for the halves that narrow back
/// unchanged.
proof fn lemma_widened_fields(h: u16)
    by (bit_vector)
    ensures
        1 <= half_exponent(h) <= 30 ==> {
            let b = f32_pattern(half_sign(h), (half_exponent(h) + 112) as u32, half_mantissa(h) << 13u32);
            &&& f32_exponent(b) == half_exponent(h) + 112
            &&& f32_sign(b) == half_sign(h)
            &&& f32_mantissa(b) >> 13u32 == half_mantissa(h)
            &&& ((half_sign(h) << 15u32) | (half_exponent(h) << 10u32) | half_mantissa(h)) as u16 == h
        },
        half_exponent(h) == 31 && half_mantissa(h) == 0 ==> {
            let b = f32_pattern(half_sign(h), 255, half_mantissa(h) << 13u32);
            &&& f32_exponent(b) == 255
            &&& ((f32_sign(b) << 15u32) | 0x7C00u32) as u16 == h
        },
        h == 0 ==> half_exponent(h) == 0 && half_mantissa(h) == 0 && f32_exponent(
            f32_pattern(half_sign(h), 0, 0),
        ) == 0,
{
}

/// Widening a half to binary32 and narrowing it back gives the same half,
/// for +0, the infinities and every normal half (not for -0, subnormal
/// halves or NaNs, which narrowing turns into +0 and infinity).
pub proof fn lemma_half_round_trip(h: u16)
    requires
        h == 0 || 1 <= half_exponent(h) <= 30 || (half_exponent(h) == 31 && half_mantissa(h)
            == 0),
    ensures
        half_of_f32_bits(f32_bits_of_half(h)) == h,
{
    lemma_widened_fields(h);
}

} // verus!
