//! 3D colour-grading LUT (16x16x16) and its 256x16 BGRA chart texture.

use vstd::prelude::*;

verus! {

/// LUT resolution along red.
pub const PS_RED: usize = 16;

/// LUT resolution along green.
pub const PS_GREEN: usize = 16;

/// LUT resolution along blue.
pub const PS_BLUE: usize = 16;

/// Number of LUT entries.
pub const NUM_COLORS: usize = 4096;

/// One LUT entry.
#[derive(Debug, Clone, Copy, PartialEq, Eq, Default)]
pub struct LutColor {
    pub r: u8,
    pub g: u8,
    pub b: u8,
}

/// Operations of a colour chart.
pub trait ColorChart {
    /// Whether the chart holds a complete mapping.
    spec fn chart_ready(&self) -> bool;

    /// Resets the chart to the identity mapping.
    fn generate_default(&mut self);

    /// Reads the mapping from a BGRA chart texture.
    fn generate_from_input(&mut self, width: usize, height: usize, bgra: &[u8], pitch: usize) -> Result<(), String>
        requires
            16 * pitch + 1024 <= usize::MAX,
    ;

    /// Renders the mapping as a BGRA chart texture (width, height, pixels).
    fn generate_chart_image(&self) -> Option<(usize, usize, Vec<u8>)>
        requires
            self.chart_ready(),
    ;
}

/// The identity LUT value of grid coordinate `i` (0..15): `255 * i / 15`.
pub open spec fn grid_level(i: int) -> u8 {
    (255 * i / 15) as u8
}

/// The identity entry at grid coordinates (`r`, `g`, `b`).
pub open spec fn identity_entry(r: int, g: int, b: int) -> LutColor {
    LutColor { r: grid_level(r), g: grid_level(g), b: grid_level(b) }
}

/// Entry `i` of the identity LUT (red fastest, then green, then blue).
pub open spec fn identity_lut_entry(i: int) -> LutColor {
    identity_entry(i % 16, (i / 16) % 16, i / 256)
}

/// Byte offset in a chart texture of the texel for LUT entry `i`.
pub open spec fn chart_offset(i: int, pitch: int) -> int {
    ((i / 16) % 16) * pitch + ((i / 256) * 16 + i % 16) * 4
}

/// Entry `i` of the LUT read from a chart texture `bgra` with row pitch
/// `pitch`: the texel's colour when all its 4 bytes are present, else the
/// identity entry.
pub open spec fn chart_entry(bgra: Seq<u8>, pitch: int, i: int) -> LutColor {
    let off = chart_offset(i, pitch);
    if off + 3 < bgra.len() {
        LutColor { b: bgra[off], g: bgra[off + 1], r: bgra[off + 2] }
    } else {
        identity_lut_entry(i)
    }
}

/// A 16x16x16 colour-grading LUT.
#[derive(Debug, Clone)]
pub struct Lut3DColorChart {
    pub mapping: Vec<LutColor>,
}

/// Fills `mapping` with the identity LUT.
fn fill_identity(mapping: &mut Vec<LutColor>)
    ensures
        final(mapping)@.len() == 4096,
        forall|i: int| 0 <= i < 4096 ==> #[trigger] final(mapping)@[i] == identity_lut_entry(i),
{
    mapping.clear();
    let mut b: usize = 0;
    while b < 16
        invariant
            b <= 16,
            mapping@.len() == 256 * b,
            forall|i: int| 0 <= i < mapping@.len() ==> #[trigger] mapping@[i] == identity_lut_entry(i),
        decreases 16 - b,
    {
        let mut g: usize = 0;
        while g < 16
            invariant
                b < 16,
                g <= 16,
                mapping@.len() == 256 * b + 16 * g,
                forall|i: int|
                    0 <= i < mapping@.len() ==> #[trigger] mapping@[i] == identity_lut_entry(i),
            decreases 16 - g,
        {
            let mut r: usize = 0;
            while r < 16
                invariant
                    b < 16,
                    g < 16,
                    r <= 16,
                    mapping@.len() == 256 * b + 16 * g + r,
                    forall|i: int|
                        0 <= i < mapping@.len() ==> #[trigger] mapping@[i] == identity_lut_entry(i),
                decreases 16 - r,
            {
                let cr = ((255 * r) / 15) as u8;
                let cg = ((255 * g) / 15) as u8;
                let cb = ((255 * b) / 15) as u8;
                let ghost i = 256 * b + 16 * g + r;
                assert(i % 16 == r && (i / 16) % 16 == g && i / 256 == b);
                mapping.push(LutColor { r: cr, g: cg, b: cb });
                r += 1;
            }
            g += 1;
        }
        b += 1;
    }
}

impl ColorChart for Lut3DColorChart {
    open spec fn chart_ready(&self) -> bool {
        self.mapping@.len() >= 4096
    }

    /// Generates the identity mapping.
    fn generate_default(&mut self)
        ensures
            final(self).mapping@.len() == 4096,
            forall|i: int|
                0 <= i < 4096 ==> #[trigger] final(self).mapping@[i] == identity_lut_entry(i),
    {
        fill_identity(&mut self.mapping);
    }

    /// Reads the mapping from a 256x16 BGRA texture (texel `16 * b + r` of
    /// row `g` holds entry (r, g, b)); a texture smaller than 256x16 gives the
    /// identity mapping, and missing texels give identity entries.
    fn generate_from_input(&mut self, width: usize, height: usize, bgra: &[u8], pitch: usize) -> (res: Result<(), String>)
        ensures
            res is Ok,
            final(self).mapping@.len() == 4096,
            forall|i: int|
                0 <= i < 4096 ==> #[trigger] final(self).mapping@[i] == if width < 256 || height
                    < 16 {
                    identity_lut_entry(i)
                } else {
                    chart_entry(bgra@, pitch as int, i)
                },
    {
        if width < 256 || height < 16 {
            fill_identity(&mut self.mapping);
            return Ok(());
        }
        self.mapping.clear();
        let mut b: usize = 0;
        while b < 16
            invariant
                b <= 16,
                16 * pitch + 1024 <= usize::MAX,
                self.mapping@.len() == 256 * b,
                forall|i: int|
                    0 <= i < self.mapping@.len() ==> #[trigger] self.mapping@[i] == chart_entry(
                        bgra@,
                        pitch as int,
                        i,
                    ),
            decreases 16 - b,
        {
            let mut g: usize = 0;
            while g < 16
                invariant
                    b < 16,
                    g <= 16,
                    16 * pitch + 1024 <= usize::MAX,
                    self.mapping@.len() == 256 * b + 16 * g,
                    forall|i: int|
                        0 <= i < self.mapping@.len() ==> #[trigger] self.mapping@[i] == chart_entry(
                            bgra@,
                            pitch as int,
                            i,
                        ),
                decreases 16 - g,
            {
                let mut r: usize = 0;
                while r < 16
                    invariant
                        b < 16,
                        g < 16,
                        r <= 16,
                        16 * pitch + 1024 <= usize::MAX,
                        self.mapping@.len() == 256 * b + 16 * g + r,
                        forall|i: int|
                            0 <= i < self.mapping@.len() ==> #[trigger] self.mapping@[i]
                                == chart_entry(bgra@, pitch as int, i),
                    decreases 16 - r,
                {
                    let src_x = b * 16 + r;
                    let src_y = g;
                    assert(src_y * pitch <= 15 * pitch) by (nonlinear_arith)
                        requires
                            src_y <= 15,
                    ;
                    let off = src_y * pitch + src_x * 4;
                    let ghost i = 256 * b + 16 * g + r;
                    assert(i % 16 == r && (i / 16) % 16 == g && i / 256 == b);
                    assert(off == chart_offset(i, pitch as int));
                    if off + 3 < bgra.len() {
                        self.mapping.push(LutColor { b: bgra[off], g: bgra[off + 1], r: bgra[off + 2] });
                    } else {
                        let cr = ((255 * r) / 15) as u8;
                        let cg = ((255 * g) / 15) as u8;
                        let cb = ((255 * b) / 15) as u8;
                        self.mapping.push(LutColor { r: cr, g: cg, b: cb });
                    }
                    r += 1;
                }
                g += 1;
            }
            b += 1;
        }
        Ok(())
    }

    /// Renders the first 4096 entries as a 256x16 BGRA texture with opaque alpha.
    fn generate_chart_image(&self) -> (res: Option<(usize, usize, Vec<u8>)>)
        ensures
            res is Some,
            res.unwrap().0 == 256,
            res.unwrap().1 == 16,
            res.unwrap().2@.len() == 16384,
            forall|i: int|
                0 <= i < 4096 ==> {
                    let off = #[trigger] chart_offset(i, 1024);
                    &&& res.unwrap().2@[off] == self.mapping@[i].b
                    &&& res.unwrap().2@[off + 1] == self.mapping@[i].g
                    &&& res.unwrap().2@[off + 2] == self.mapping@[i].r
                    &&& res.unwrap().2@[off + 3] == 0xFF
                },
    {
        let lut_w: usize = 256;
        let lut_h: usize = 16;
        let mut pixels = vec![0u8; 16384];
        let mut src_idx: usize = 0;
        let mut b: usize = 0;
        while b < 16
            invariant
                b <= 16,
                self.mapping@.len() >= 4096,
                lut_w == 256,
                src_idx == 256 * b,
                pixels@.len() == 16384,
                forall|i: int|
                    0 <= i < src_idx ==> {
                        let off = #[trigger] chart_offset(i, 1024);
                        &&& pixels@[off] == self.mapping@[i].b
                        &&& pixels@[off + 1] == self.mapping@[i].g
                        &&& pixels@[off + 2] == self.mapping@[i].r
                        &&& pixels@[off + 3] == 0xFF
                    },
            decreases 16 - b,
        {
            let mut g: usize = 0;
            while g < 16
                invariant
                    b < 16,
                    g <= 16,
                    self.mapping@.len() >= 4096,
                    lut_w == 256,
                    src_idx == 256 * b + 16 * g,
                    pixels@.len() == 16384,
                    forall|i: int|
                        0 <= i < src_idx ==> {
                            let off = #[trigger] chart_offset(i, 1024);
                            &&& pixels@[off] == self.mapping@[i].b
                            &&& pixels@[off + 1] == self.mapping@[i].g
                            &&& pixels@[off + 2] == self.mapping@[i].r
                            &&& pixels@[off + 3] == 0xFF
                        },
                decreases 16 - g,
            {
                let mut r: usize = 0;
                while r < 16
                    invariant
                        b < 16,
                        g < 16,
                        r <= 16,
                        self.mapping@.len() >= 4096,
                        lut_w == 256,
                        src_idx == 256 * b + 16 * g + r,
                        pixels@.len() == 16384,
                        forall|i: int|
                            0 <= i < src_idx ==> {
                                let off = #[trigger] chart_offset(i, 1024);
                                &&& pixels@[off] == self.mapping@[i].b
                                &&& pixels@[off + 1] == self.mapping@[i].g
                                &&& pixels@[off + 2] == self.mapping@[i].r
                                &&& pixels@[off + 3] == 0xFF
                            },
                    decreases 16 - r,
                {
                    let c = self.mapping[src_idx];
                    let dst_x = b * 16 + r;
                    let dst_y = g;
                    let dst_off = (dst_y * lut_w + dst_x) * 4;
                    let ghost i = src_idx as int;
                    assert(i % 16 == r && (i / 16) % 16 == g && i / 256 == b);
                    assert(dst_off == chart_offset(i, 1024));
                    proof {
                        lemma_chart_offsets_distinct(i);
                    }
                    pixels.set(dst_off, c.b);
                    pixels.set(dst_off + 1, c.g);
                    pixels.set(dst_off + 2, c.r);
                    pixels.set(dst_off + 3, 0xFF);
                    src_idx += 1;
                    r += 1;
                }
                g += 1;
            }
            b += 1;
        }
        Some((lut_w, lut_h, pixels))
    }
}

/// Texels of different LUT entries in a 1024-byte-pitch chart do not overlap.
proof fn lemma_chart_offsets_distinct(i: int)
    requires
        0 <= i < 4096,
    ensures
        chart_offset(i, 1024) % 4 == 0,
        0 <= chart_offset(i, 1024) <= 16380,
        forall|j: int| 0 <= j < i ==> #[trigger] chart_offset(j, 1024) != chart_offset(i, 1024),
{
    assert forall|j: int| 0 <= j < i implies #[trigger] chart_offset(j, 1024) != chart_offset(
        i,
        1024,
    ) by {
        let (ri, gi, bi) = (i % 16, (i / 16) % 16, i / 256);
        let (rj, gj, bj) = (j % 16, (j / 16) % 16, j / 256);
        assert(i == 256 * bi + 16 * gi + ri);
        assert(j == 256 * bj + 16 * gj + rj);
    }
}

impl Default for Lut3DColorChart {
    /// A chart holding the identity mapping.
    fn default() -> (r: Self)
        ensures
            r.mapping@.len() == 4096,
            forall|i: int| 0 <= i < 4096 ==> #[trigger] r.mapping@[i] == identity_lut_entry(i),
    {
        let mut chart = Lut3DColorChart { mapping: Vec::new() };
        chart.generate_default();
        chart
    }
}

/// Reading back the chart texture of a LUT gives the LUT.
pub proof fn lemma_chart_roundtrip(mapping: Seq<LutColor>, image: Seq<u8>)
    requires
        mapping.len() >= 4096,
        image.len() == 16384,
        forall|i: int|
            0 <= i < 4096 ==> {
                let off = #[trigger] chart_offset(i, 1024);
                &&& image[off] == mapping[i].b
                &&& image[off + 1] == mapping[i].g
                &&& image[off + 2] == mapping[i].r
            },
    ensures
        forall|i: int| 0 <= i < 4096 ==> #[trigger] chart_entry(image, 1024, i) == mapping[i],
{
    assert forall|i: int| 0 <= i < 4096 implies #[trigger] chart_entry(image, 1024, i) == mapping[i] by {
        lemma_chart_offsets_distinct(i);
    }
}

} // verus!
