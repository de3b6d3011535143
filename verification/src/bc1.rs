//! BC1 / DXT1 colour blocks: RGB565 endpoints and 2-bit indices.

use vstd::prelude::*;

verus! {

/// Expands a 5-bit channel to 8 bits by replicating its top bits.
pub open spec fn expand5(x: u16) -> u8 {
    ((x << 3u16) | (x >> 2u16)) as u8
}

/// Expands a 6-bit channel to 8 bits by replicating its top bits.
pub open spec fn expand6(x: u16) -> u8 {
    ((x << 2u16) | (x >> 4u16)) as u8
}

/// The RGB888 colour of an RGB565 value.
pub open spec fn rgb_of_565(v: u16) -> Seq<u8> {
    seq![expand5((v >> 11u16) & 0x1Fu16), expand6((v >> 5u16) & 0x3Fu16), expand5(v & 0x1Fu16)]
}

/// Unpacks an RGB565 value to 8-bit RGB.
pub fn unpack_565(value: u16) -> (r: [u8; 3])
    ensures
        r@ == rgb_of_565(value),
{
    let r = ((value >> 11) & 0x1F) as u8;
    let g = ((value >> 5) & 0x3F) as u8;
    let b = (value & 0x1F) as u8;
    let rr = (value >> 11) & 0x1F;
    let gg = (value >> 5) & 0x3F;
    let bb = value & 0x1F;
    assert(((r << 3u8) | (r >> 2u8)) == expand5(rr) && ((g << 2u8) | (g >> 4u8)) == expand6(gg)
        && ((b << 3u8) | (b >> 2u8)) == expand5(bb)) by (bit_vector)
        requires
            rr == (value >> 11u16) & 0x1Fu16,
            gg == (value >> 5u16) & 0x3Fu16,
            bb == value & 0x1Fu16,
            r == rr as u8,
            g == gg as u8,
            b == bb as u8,
    ;
    let out = [(r << 3) | (r >> 2), (g << 2) | (g >> 4), (b << 3) | (b >> 2)];
    assert(out@ =~= rgb_of_565(value));
    out
}

/// The little-endian 16-bit value in bytes `k`, `k + 1` of `b`.
pub open spec fn le16(b: Seq<u8>, k: int) -> u16 {
    (b[k] as u16) | ((b[k + 1] as u16) << 8u16)
}

/// The 2-bit index of pixel `p` (row-major) in a BC1 block.
pub open spec fn bc1_index(b: Seq<u8>, p: int) -> u8 {
    (b[4 + p / 4] >> ((2 * (p % 4)) as u8)) & 3u8
}

/// The 4-entry RGBA palette of a BC1 block with endpoints `a`, `b`: four
/// opaque colours when `a > b`, otherwise three opaque colours and
/// transparent black.
pub open spec fn bc1_palette(a: u16, b: u16) -> Seq<Seq<u8>> {
    let c0 = rgb_of_565(a);
    let c1 = rgb_of_565(b);
    if a > b {
        seq![
            seq![c0[0], c0[1], c0[2], 255u8],
            seq![c1[0], c1[1], c1[2], 255u8],
            Seq::new(4, |i: int| if i < 3 { ((2 * c0[i] + c1[i]) / 3) as u8 } else { 255u8 }),
            Seq::new(4, |i: int| if i < 3 { ((c0[i] + 2 * c1[i]) / 3) as u8 } else { 255u8 }),
        ]
    } else {
        seq![
            seq![c0[0], c0[1], c0[2], 255u8],
            seq![c1[0], c1[1], c1[2], 255u8],
            Seq::new(4, |i: int| if i < 3 { ((c0[i] + c1[i]) / 2) as u8 } else { 255u8 }),
            seq![0u8, 0u8, 0u8, 0u8],
        ]
    }
}

/// The RGBA colour of pixel `p` of a BC1 block.
pub open spec fn decode_bc1_pixel(b: Seq<u8>, p: int) -> Seq<u8> {
    bc1_palette(le16(b, 0), le16(b, 2))[bc1_index(b, p) as int]
}

/// Decodes a BC1 block into 16 RGBA pixels.
pub fn read_color_block_bc1_rgba(block: &[u8; 8], out_rgba: &mut [[u8; 4]; 16])
    ensures
        forall|p: int| 0 <= p < 16 ==> (#[trigger] final(out_rgba)@[p])@ == decode_bc1_pixel(block@, p),
{
    let a = (block[0] as u16) | ((block[1] as u16) << 8);
    let b = (block[2] as u16) | ((block[3] as u16) << 8);
    let c0 = unpack_565(a);
    let c1 = unpack_565(b);
    let ghost pal = bc1_palette(a, b);

    let mut palette = [[0u8; 4]; 4];
    palette[0] = [c0[0], c0[1], c0[2], 255];
    palette[1] = [c1[0], c1[1], c1[2], 255];
    if a > b {
        let mut p2 = [0u8; 4];
        let mut p3 = [0u8; 4];
        let mut i: usize = 0;
        while i < 3
            invariant
                i <= 3,
                a > b,
                c0@ == rgb_of_565(a),
                c1@ == rgb_of_565(b),
                pal == bc1_palette(a, b),
                forall|k: int| 0 <= k < i ==> p2@[k] == pal[2][k] && p3@[k] == pal[3][k],
            decreases 3 - i,
        {
            p2[i] = ((2 * c0[i] as u16 + c1[i] as u16) / 3) as u8;
            p3[i] = ((c0[i] as u16 + 2 * c1[i] as u16) / 3) as u8;
            i += 1;
        }
        p2[3] = 255;
        p3[3] = 255;
        palette[2] = p2;
        palette[3] = p3;
    } else {
        let mut p2 = [0u8; 4];
        let mut i: usize = 0;
        while i < 3
            invariant
                i <= 3,
                !(a > b),
                c0@ == rgb_of_565(a),
                c1@ == rgb_of_565(b),
                pal == bc1_palette(a, b),
                forall|k: int| 0 <= k < i ==> p2@[k] == pal[2][k],
            decreases 3 - i,
        {
            p2[i] = ((c0[i] as u16 + c1[i] as u16) / 2) as u8;
            i += 1;
        }
        p2[3] = 255;
        palette[2] = p2;
        palette[3] = [0, 0, 0, 0];
    }
    assert(forall|k: int| 0 <= k < 4 ==> (#[trigger] palette@[k])@ =~= pal[k]);

    assert(a == le16(block@, 0) && b == le16(block@, 2));
    let mut i: usize = 0;
    while i < 4
        invariant
            i <= 4,
            pal == bc1_palette(le16(block@, 0), le16(block@, 2)),
            forall|k: int| 0 <= k < 4 ==> (#[trigger] palette@[k])@ == pal[k],
            forall|p: int| 0 <= p < 4 * i ==> (#[trigger] out_rgba@[p])@ == decode_bc1_pixel(block@, p),
        decreases 4 - i,
    {
        let byte = block[4 + i];
        let mut j: usize = 0;
        while j < 4
            invariant
                i < 4,
                j <= 4,
                byte == block@[4 + i as int],
                pal == bc1_palette(le16(block@, 0), le16(block@, 2)),
                forall|k: int| 0 <= k < 4 ==> (#[trigger] palette@[k])@ == pal[k],
                forall|p: int|
                    0 <= p < 4 * i + j ==> (#[trigger] out_rgba@[p])@ == decode_bc1_pixel(block@, p),
            decreases 4 - j,
        {
            let sh = (j * 2) as u8;
            let idx = (byte >> sh) & 0x03;
            assert(idx < 4) by (bit_vector)
                requires
                    idx == (byte >> sh) & 0x03u8,
            ;
            let p = i * 4 + j;
            assert(bc1_index(block@, p as int) == idx) by {
                assert((p as int) / 4 == i as int && (p as int) % 4 == j as int);
            }
            out_rgba[p] = palette[idx as usize];
            j += 1;
        }
        i += 1;
    }
}

/// Decodes a BC1 block into 16 RGB pixels (alpha dropped).
pub fn read_color_block_bc1(block: &[u8; 8], out_rgb: &mut [[u8; 3]; 16])
    ensures
        forall|p: int|
            0 <= p < 16 ==> (#[trigger] final(out_rgb)@[p])@ == decode_bc1_pixel(block@, p).subrange(
                0,
                3,
            ),
{
    let mut rgba = [[0u8; 4]; 16];
    read_color_block_bc1_rgba(block, &mut rgba);
    let mut i: usize = 0;
    while i < 16
        invariant
            i <= 16,
            out_rgb@.len() == 16,
            forall|p: int| 0 <= p < 16 ==> (#[trigger] rgba@[p])@ == decode_bc1_pixel(block@, p),
            forall|p: int|
                0 <= p < i ==> (#[trigger] out_rgb@[p])@ == decode_bc1_pixel(block@, p).subrange(
                    0,
                    3,
                ),
        decreases 16 - i,
    {
        let px = rgba[i];
        out_rgb[i] = [px[0], px[1], px[2]];
        assert(out_rgb@[i as int]@ =~= decode_bc1_pixel(block@, i as int).subrange(0, 3));
        i += 1;
    }
}

/// Four 2-bit indices packed into one byte, first index in the low bits.
pub open spec fn pack2(ix: Seq<u8>, o: int) -> u8 {
    (ix[o] & 3u8) | ((ix[o + 1] & 3u8) << 2u8) | ((ix[o + 2] & 3u8) << 4u8) | ((ix[o + 3] & 3u8)
        << 6u8)
}

/// The 8 bytes of a BC1 block with endpoints `a`, `b` (little-endian) and 2-bit indices `ix`.
pub open spec fn encode_bc1(a: u16, b: u16, ix: Seq<u8>) -> Seq<u8> {
    seq![
        (a & 0xFFu16) as u8,
        (a >> 8u16) as u8,
        (b & 0xFFu16) as u8,
        (b >> 8u16) as u8,
        pack2(ix, 0),
        pack2(ix, 4),
        pack2(ix, 8),
        pack2(ix, 12),
    ]
}

/// Writes a BC1 block with endpoints `a`, `b` and the low 2 bits of each index.
pub fn write_block_raw(a: u16, b: u16, indices: &[u8; 16], block: &mut [u8; 8])
    ensures
        final(block)@ == encode_bc1(a, b, indices@),
{
    block[0] = (a & 0xFF) as u8;
    block[1] = (a >> 8) as u8;
    block[2] = (b & 0xFF) as u8;
    block[3] = (b >> 8) as u8;
    let mut i: usize = 0;
    while i < 4
        invariant
            i <= 4,
            block@[0] == (a & 0xFFu16) as u8,
            block@[1] == (a >> 8u16) as u8,
            block@[2] == (b & 0xFFu16) as u8,
            block@[3] == (b >> 8u16) as u8,
            forall|k: int| 4 <= k < 4 + i ==> #[trigger] block@[k] == pack2(indices@, 4 * (k - 4)),
        decreases 4 - i,
    {
        let offset = i * 4;
        block[4 + i] = (indices[offset] & 0x03) | ((indices[offset + 1] & 0x03) << 2) | ((
        indices[offset + 2] & 0x03) << 4) | ((indices[offset + 3] & 0x03) << 6);
        i += 1;
    }
    assert(block@ =~= encode_bc1(a, b, indices@));
}

/// Reading back a raw BC1 block gives its endpoints and the low 2 bits of every index.
pub proof fn lemma_bc1_raw_roundtrip(a: u16, b: u16, ix: Seq<u8>, p: int)
    requires
        ix.len() == 16,
        0 <= p < 16,
    ensures
        le16(encode_bc1(a, b, ix), 0) == a,
        le16(encode_bc1(a, b, ix), 2) == b,
        bc1_index(encode_bc1(a, b, ix), p) == ix[p] & 3u8,
{
    let e = encode_bc1(a, b, ix);
    let (lo_a, hi_a, lo_b, hi_b) = (e[0], e[1], e[2], e[3]);
    assert(((lo_a as u16) | ((hi_a as u16) << 8u16)) == a) by (bit_vector)
        requires
            lo_a == (a & 0xFFu16) as u8,
            hi_a == (a >> 8u16) as u8,
    ;
    assert(((lo_b as u16) | ((hi_b as u16) << 8u16)) == b) by (bit_vector)
        requires
            lo_b == (b & 0xFFu16) as u8,
            hi_b == (b >> 8u16) as u8,
    ;
    let o = 4 * (p / 4);
    let j = p % 4;
    let (t0, t1, t2, t3) = (ix[o], ix[o + 1], ix[o + 2], ix[o + 3]);
    let byte = e[4 + p / 4];
    assert(byte == pack2(ix, o));
    let js = (2 * j) as u8;
    let jj = j as u8;
    assert((byte >> js) & 3u8 == if jj == 0 {
        t0 & 3u8
    } else if jj == 1 {
        t1 & 3u8
    } else if jj == 2 {
        t2 & 3u8
    } else {
        t3 & 3u8
    }) by (bit_vector)
        requires
            byte == (t0 & 3u8) | ((t1 & 3u8) << 2u8) | ((t2 & 3u8) << 4u8) | ((t3 & 3u8) << 6u8),
            jj < 4,
            js == 2 * jj,
    ;
}

/// The opaque 4-colour palette interpolated from `a` to `b`, in that order.
pub open spec fn four_color_palette(a: u16, b: u16) -> Seq<Seq<u8>> {
    let c0 = rgb_of_565(a);
    let c1 = rgb_of_565(b);
    seq![
        seq![c0[0], c0[1], c0[2], 255u8],
        seq![c1[0], c1[1], c1[2], 255u8],
        Seq::new(4, |i: int| if i < 3 { ((2 * c0[i] + c1[i]) / 3) as u8 } else { 255u8 }),
        Seq::new(4, |i: int| if i < 3 { ((c0[i] + 2 * c1[i]) / 3) as u8 } else { 255u8 }),
    ]
}

/// The 3-colour palette from `a` to `b`, then transparent black.
pub open spec fn three_color_palette(a: u16, b: u16) -> Seq<Seq<u8>> {
    let c0 = rgb_of_565(a);
    let c1 = rgb_of_565(b);
    seq![
        seq![c0[0], c0[1], c0[2], 255u8],
        seq![c1[0], c1[1], c1[2], 255u8],
        Seq::new(4, |i: int| if i < 3 { ((c0[i] + c1[i]) / 2) as u8 } else { 255u8 }),
        seq![0u8, 0u8, 0u8, 0u8],
    ]
}

/// The block `write_color_block_3` produces: endpoints ordered so that the
/// decoder picks 3-colour mode (`a <= b`), indices 0 and 1 exchanged when the
/// endpoints were exchanged.
pub open spec fn encode_color_block_3(a: u16, b: u16, ix: Seq<u8>) -> Seq<u8> {
    if a > b {
        encode_bc1(
            b,
            a,
            ix.map_values(
                |x: u8|
                    if x == 0 {
                        1u8
                    } else if x == 1 {
                        0u8
                    } else {
                        x
                    },
            ),
        )
    } else {
        encode_bc1(a, b, ix)
    }
}

/// The block `write_color_block_4` produces: endpoints ordered so that the
/// decoder picks 4-colour mode (`a > b`), each index's low bit flipped when
/// the endpoints were exchanged, all indices 0 when the endpoints are equal.
pub open spec fn encode_color_block_4(a: u16, b: u16, ix: Seq<u8>) -> Seq<u8> {
    if a < b {
        encode_bc1(b, a, ix.map_values(|x: u8| x ^ 1u8))
    } else if a == b {
        encode_bc1(a, b, Seq::new(16, |i: int| 0u8))
    } else {
        encode_bc1(a, b, ix)
    }
}

/// Writes a 3-colour (1-bit alpha) BC1 block from quantized RGB565 endpoints.
pub fn write_color_block_3(a: u16, b: u16, indices: &[u8; 16], block: &mut [u8; 8])
    ensures
        final(block)@ == encode_color_block_3(a, b, indices@),
{
    let mut a = a;
    let mut b = b;
    let ghost a0 = a;
    let ghost b0 = b;
    let mut remapped = *indices;
    if a > b {
        std::mem::swap(&mut a, &mut b);
        let mut i: usize = 0;
        while i < 16
            invariant
                i <= 16,
                remapped@.len() == 16,
                forall|k: int|
                    0 <= k < i ==> remapped@[k] == (if indices@[k] == 0 {
                        1u8
                    } else if indices@[k] == 1 {
                        0u8
                    } else {
                        indices@[k]
                    }),
                forall|k: int| i <= k < 16 ==> remapped@[k] == indices@[k],
            decreases 16 - i,
        {
            if remapped[i] == 0 {
                remapped[i] = 1;
            } else if remapped[i] == 1 {
                remapped[i] = 0;
            }
            i += 1;
        }
        assert(remapped@ =~= indices@.map_values(
            |x: u8|
                if x == 0 {
                    1u8
                } else if x == 1 {
                    0u8
                } else {
                    x
                },
        ));
    } else {
        assert(remapped@ =~= indices@);
    }
    write_block_raw(a, b, &remapped, block);
}

/// Writes a 4-colour opaque BC1 block from quantized RGB565 endpoints.
pub fn write_color_block_4(a: u16, b: u16, indices: &[u8; 16], block: &mut [u8; 8])
    ensures
        final(block)@ == encode_color_block_4(a, b, indices@),
{
    let mut a = a;
    let mut b = b;
    let mut remapped = *indices;
    if a < b {
        std::mem::swap(&mut a, &mut b);
        let mut i: usize = 0;
        while i < 16
            invariant
                i <= 16,
                remapped@.len() == 16,
                forall|k: int| 0 <= k < i ==> remapped@[k] == indices@[k] ^ 1u8,
                forall|k: int| i <= k < 16 ==> remapped@[k] == indices@[k],
            decreases 16 - i,
        {
            remapped[i] = remapped[i] ^ 1;
            i += 1;
        }
        assert(remapped@ =~= indices@.map_values(|x: u8| x ^ 1u8));
    } else if a == b {
        remapped = [0u8; 16];
        assert(remapped@ =~= Seq::new(16, |i: int| 0u8));
    } else {
        assert(remapped@ =~= indices@);
    }
    write_block_raw(a, b, &remapped, block);
}

/// A 4-colour block decodes every pixel to the entry of the 4-colour palette
/// from `a` to `b` that its index names, whatever the order of the endpoints.
pub proof fn lemma_color_block_4_decodes(a: u16, b: u16, ix: Seq<u8>, p: int)
    requires
        ix.len() == 16,
        0 <= p < 16,
        ix[p] < 4,
    ensures
        decode_bc1_pixel(encode_color_block_4(a, b, ix), p) == four_color_palette(a, b)[ix[p] as int],
{
    let x = ix[p];
    if a < b {
        let r = ix.map_values(|x: u8| x ^ 1u8);
        lemma_bc1_raw_roundtrip(b, a, r, p);
        assert((x ^ 1u8) & 3u8 == if x == 0 {
            1u8
        } else if x == 1 {
            0u8
        } else if x == 2 {
            3u8
        } else {
            2u8
        }) by (bit_vector)
            requires
                x < 4,
        ;
        assert(bc1_palette(b, a)[0] =~= four_color_palette(a, b)[1]);
        assert(bc1_palette(b, a)[1] =~= four_color_palette(a, b)[0]);
        assert(bc1_palette(b, a)[2] =~= four_color_palette(a, b)[3]);
        assert(bc1_palette(b, a)[3] =~= four_color_palette(a, b)[2]);
    } else if a == b {
        let z = Seq::new(16, |i: int| 0u8);
        lemma_bc1_raw_roundtrip(a, b, z, p);
        lemma_small_and3(0u8);
        let c = rgb_of_565(a);
        assert forall|k: int| 0 <= k < 4 implies four_color_palette(a, b)[k] =~= bc1_palette(
            a,
            b,
        )[0] by {
            assert((2 * c[0] + c[0]) / 3 == c[0] && (c[0] + 2 * c[0]) / 3 == c[0]);
            assert((2 * c[1] + c[1]) / 3 == c[1] && (c[1] + 2 * c[1]) / 3 == c[1]);
            assert((2 * c[2] + c[2]) / 3 == c[2] && (c[2] + 2 * c[2]) / 3 == c[2]);
        }
    } else {
        lemma_bc1_raw_roundtrip(a, b, ix, p);
        lemma_small_and3(x);
        assert(bc1_palette(a, b) =~= four_color_palette(a, b));
    }
}

/// A 3-colour block decodes every pixel to the entry of the 3-colour palette
/// from `a` to `b` (index 3: transparent black) that its index names,
/// whatever the order of the endpoints.
pub proof fn lemma_color_block_3_decodes(a: u16, b: u16, ix: Seq<u8>, p: int)
    requires
        ix.len() == 16,
        0 <= p < 16,
        ix[p] < 4,
    ensures
        decode_bc1_pixel(encode_color_block_3(a, b, ix), p) == three_color_palette(a, b)[ix[p] as int],
{
    let x = ix[p];
    if a > b {
        let r = ix.map_values(
            |x: u8|
                if x == 0 {
                    1u8
                } else if x == 1 {
                    0u8
                } else {
                    x
                },
        );
        lemma_bc1_raw_roundtrip(b, a, r, p);
        let y = r[p];
        lemma_small_and3(y);
        let c0 = rgb_of_565(a);
        let c1 = rgb_of_565(b);
        assert(bc1_palette(b, a)[0] =~= three_color_palette(a, b)[1]);
        assert(bc1_palette(b, a)[1] =~= three_color_palette(a, b)[0]);
        assert(bc1_palette(b, a)[2] =~= three_color_palette(a, b)[2]) by {
            assert((c1[0] + c0[0]) / 2 == (c0[0] + c1[0]) / 2);
            assert((c1[1] + c0[1]) / 2 == (c0[1] + c1[1]) / 2);
            assert((c1[2] + c0[2]) / 2 == (c0[2] + c1[2]) / 2);
        }
        assert(bc1_palette(b, a)[3] =~= three_color_palette(a, b)[3]);
    } else {
        lemma_bc1_raw_roundtrip(a, b, ix, p);
        lemma_small_and3(x);
        assert(bc1_palette(a, b) =~= three_color_palette(a, b));
    }
}

/// An index below 4 keeps its value under the 2-bit mask.
proof fn lemma_small_and3(x: u8)
    by (bit_vector)
    requires
        x < 4,
    ensures
        x & 3u8 == x,
{
}

} // verus!
