//! 8-bit RGBA pixels and channel conversions (swizzles, luminance).

use vstd::prelude::*;

verus! {

/// The opaque grey pixel of luminance `l`.
pub open spec fn grey8(l: u8) -> ColorRGBA8 {
    ColorRGBA8 { r: l, g: l, b: l, a: 255 }
}

/// The rounded 8-bit luminance of a pixel: (39 R + 50 G + 11 B + 50) / 100.
pub open spec fn luminance8(p: ColorRGBA8) -> int {
    (p.r as int * 39 + p.g as int * 50 + p.b as int * 11 + 50) / 100
}

/// Expanding luminance to grey pixels and reducing them back to luminance
/// gives every luminance back unchanged.
pub proof fn lemma_grey_round_trip(l: u8)
    ensures
        luminance8(grey8(l)) == l,
{
    assert((l as int * 39 + l as int * 50 + l as int * 11 + 50) / 100 == l as int) by (nonlinear_arith);
}

/// An 8-bit-per-channel RGBA colour.
#[derive(Debug, Clone, Copy, PartialEq, Eq)]
pub struct ColorRGBA8 {
    pub r: u8,
    pub g: u8,
    pub b: u8,
    pub a: u8,
}

impl ColorRGBA8 {
    /// A colour from its four channels.
    pub fn new(r: u8, g: u8, b: u8, a: u8) -> (c: Self)
        ensures
            c == (ColorRGBA8 { r, g, b, a }),
    {
        ColorRGBA8 { r, g, b, a }
    }
}

/// ASCII lower-casing of one character (other characters unchanged).
pub open spec fn ascii_lower(c: char) -> char {
    if 'A' <= c <= 'Z' {
        ((c as u32) + 32) as char
    } else {
        c
    }
}

/// The channel a swizzle character selects from `p`: 'r', 'g', 'b', 'a'
/// pick a channel, '0' is 0, '1' is 255, anything else 0.
pub open spec fn swizzle_channel(c: char, p: ColorRGBA8) -> u8 {
    if c == 'r' {
        p.r
    } else if c == 'g' {
        p.g
    } else if c == 'b' {
        p.b
    } else if c == 'a' {
        p.a
    } else if c == '1' {
        255
    } else {
        0
    }
}

/// Whether the swizzle pattern `pat` leaves pixels unchanged: it is empty,
/// is "rgba" in any ASCII case, or has fewer than 4 characters.
pub open spec fn swizzle_is_identity(pat: Seq<char>) -> bool {
    let lc = pat.map_values(|c: char| ascii_lower(c));
    pat.len() < 4 || lc == seq!['r', 'g', 'b', 'a']
}

/// The pixel `p` after the swizzle `pat`.
pub open spec fn swizzled(pat: Seq<char>, p: ColorRGBA8) -> ColorRGBA8 {
    let lc = pat.map_values(|c: char| ascii_lower(c));
    if swizzle_is_identity(pat) {
        p
    } else {
        ColorRGBA8 {
            r: swizzle_channel(lc[0], p),
            g: swizzle_channel(lc[1], p),
            b: swizzle_channel(lc[2], p),
            a: swizzle_channel(lc[3], p),
        }
    }
}

pub(crate) fn lower_char(c: char) -> (r: char)
    ensures
        r == ascii_lower(c),
{
    if 'A' <= c && c <= 'Z' {
        let u = c as u32 + 32;
        assert(u < 0xD800);
        let b = u as u8;
        b as char
    } else {
        c
    }
}

fn channel_for(c: char, p: ColorRGBA8) -> (r: u8)
    ensures
        r == swizzle_channel(c, p),
{
    match c {
        'r' => p.r,
        'g' => p.g,
        'b' => p.b,
        'a' => p.a,
        '0' => 0,
        '1' => 255,
        _ => 0,
    }
}

/// Channel swizzling and format conversions for 8-bit pixels.
pub struct ChannelConverter;

impl ChannelConverter {
    /// Rearranges the channels of every pixel according to `pattern`
    /// (case-insensitive; e.g. "bgra", "rrr1").
    pub fn swizzle_pixels(pixels: &mut [ColorRGBA8], pattern: &str)
        ensures
            final(pixels)@.len() == old(pixels)@.len(),
            forall|i: int|
                0 <= i < old(pixels)@.len() ==> #[trigger] final(pixels)@[i] == swizzled(
                    pattern@,
                    old(pixels)@[i],
                ),
    {
        let n = pattern.unicode_len();
        let mut chars: Vec<char> = Vec::new();
        let mut i: usize = 0;
        while i < n
            invariant
                n == pattern@.len(),
                i <= n,
                chars@ == pattern@.subrange(0, i as int).map_values(|c: char| ascii_lower(c)),
            decreases n - i,
        {
            let c = lower_char(pattern.get_char(i));
            chars.push(c);
            i += 1;
            assert(chars@ =~= pattern@.subrange(0, i as int).map_values(|c: char| ascii_lower(c)));
        }
        assert(pattern@.subrange(0, n as int) =~= pattern@);
        if n < 4 {
            return;
        }
        if n == 4 && chars[0] == 'r' && chars[1] == 'g' && chars[2] == 'b' && chars[3] == 'a' {
            assert(chars@ =~= seq!['r', 'g', 'b', 'a']);
            return;
        }
        assert(!swizzle_is_identity(pattern@)) by {
            if chars@ == seq!['r', 'g', 'b', 'a'] {
                assert(chars@[0] == 'r');
            }
        }
        let (c0, c1, c2, c3) = (chars[0], chars[1], chars[2], chars[3]);
        let mut k: usize = 0;
        while k < pixels.len()
            invariant
                k <= pixels@.len(),
                pixels@.len() == old(pixels)@.len(),
                !swizzle_is_identity(pattern@),
                chars@ == pattern@.map_values(|c: char| ascii_lower(c)),
                c0 == chars@[0] && c1 == chars@[1] && c2 == chars@[2] && c3 == chars@[3],
                forall|j: int| k <= j < pixels@.len() ==> pixels@[j] == old(pixels)@[j],
                forall|j: int|
                    0 <= j < k ==> #[trigger] pixels@[j] == swizzled(pattern@, old(pixels)@[j]),
            decreases pixels@.len() - k,
        {
            let orig = pixels[k];
            let np = ColorRGBA8 {
                r: channel_for(c0, orig),
                g: channel_for(c1, orig),
                b: channel_for(c2, orig),
                a: channel_for(c3, orig),
            };
            pixels[k] = np;
            k += 1;
        }
    }

    /// Expands 8-bit luminance to opaque grey RGBA pixels.
    pub fn convert_l8_to_rgba8(l8_bytes: &[u8]) -> (r: Vec<ColorRGBA8>)
        ensures
            r@.len() == l8_bytes@.len(),
            forall|i: int| 0 <= i < r@.len() ==> #[trigger] r@[i] == grey8(l8_bytes@[i]),
    {
        let mut out: Vec<ColorRGBA8> = Vec::new();
        let mut i: usize = 0;
        while i < l8_bytes.len()
            invariant
                i <= l8_bytes@.len(),
                out@.len() == i,
                forall|j: int| 0 <= j < i ==> #[trigger] out@[j] == grey8(l8_bytes@[j]),
            decreases l8_bytes@.len() - i,
        {
            let l = l8_bytes[i];
            out.push(ColorRGBA8::new(l, l, l, 255));
            i += 1;
        }
        out
    }

    /// Reduces pixels to 8-bit luminance, rounded: (39 R + 50 G + 11 B) / 100.
    pub fn convert_rgba8_to_l8(pixels: &[ColorRGBA8]) -> (r: Vec<u8>)
        ensures
            r@.len() == pixels@.len(),
            forall|i: int| 0 <= i < r@.len() ==> #[trigger] r@[i] as int == luminance8(pixels@[i]),
    {
        let mut out: Vec<u8> = Vec::new();
        let mut i: usize = 0;
        while i < pixels.len()
            invariant
                i <= pixels@.len(),
                out@.len() == i,
                forall|j: int| 0 <= j < i ==> #[trigger] out@[j] as int == luminance8(pixels@[j]),
            decreases pixels@.len() - i,
        {
            let p = pixels[i];
            let l = (p.r as u32 * 39 + p.g as u32 * 50 + p.b as u32 * 11 + 50) / 100;
            out.push(l as u8);
            i += 1;
        }
        out
    }

    /// Expands (luminance, alpha) byte pairs to grey RGBA pixels; a trailing
    /// odd byte is ignored.
    pub fn convert_a8l8_to_rgba8(a8l8_bytes: &[u8]) -> (r: Vec<ColorRGBA8>)
        ensures
            r@.len() == a8l8_bytes@.len() / 2,
            forall|i: int|
                0 <= i < r@.len() ==> #[trigger] r@[i] == (ColorRGBA8 {
                    r: a8l8_bytes@[2 * i],
                    g: a8l8_bytes@[2 * i],
                    b: a8l8_bytes@[2 * i],
                    a: a8l8_bytes@[2 * i + 1],
                }),
    {
        let mut out: Vec<ColorRGBA8> = Vec::new();
        let len = a8l8_bytes.len();
        let n = len / 2;
        let mut i: usize = 0;
        while i < n
            invariant
                len == a8l8_bytes@.len(),
                n == a8l8_bytes@.len() / 2,
                i <= n,
                out@.len() == i,
                forall|j: int|
                    0 <= j < i ==> #[trigger] out@[j] == (ColorRGBA8 {
                        r: a8l8_bytes@[2 * j],
                        g: a8l8_bytes@[2 * j],
                        b: a8l8_bytes@[2 * j],
                        a: a8l8_bytes@[2 * j + 1],
                    }),
            decreases n - i,
        {
            assert(2 * i + 1 < a8l8_bytes@.len());
            let at: usize = i + i;
            let l = a8l8_bytes[at];
            let a = a8l8_bytes[at + 1];
            out.push(ColorRGBA8::new(l, l, l, a));
            i += 1;
        }
        out
    }
}

} // verus!
