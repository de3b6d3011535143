//! Image-object flags and mip levels.

use vstd::prelude::*;

verus! {

/// Whether an image is a cube map.
#[derive(Debug, Clone, Copy, PartialEq, Eq, Structural)]
pub enum ECubemap {
    No,
    Yes,
    UnknownYet,
}

/// What the alpha channel of an image holds.
#[derive(Debug, Clone, Copy, PartialEq, Eq, Structural)]
pub enum EAlphaContent {
    Absent,
    OnlyWhite,
    OnlyBlack,
    OnlyBlackAndWhite,
    Greyscale,
}

pub const EIF_CUBEMAP: u32 = 0x1;

pub const EIF_VOLUMETEXTURE: u32 = 0x2;

pub const EIF_DECAL: u32 = 0x4;

pub const EIF_SRGBREAD: u32 = 0x8;

pub const EIF_FILESINGLE: u32 = 0x10;

pub const EIF_ATTACHEDALPHA: u32 = 0x20;

pub const EIF_SPLITTED: u32 = 0x1_0000;

pub const EIF_RENORMALIZEDTEXTURE: u32 = 0x4_0000;

/// One mip level: its size, row layout and bytes.
#[derive(Debug, Clone)]
pub struct MipLevel {
    pub width: usize,
    pub height: usize,
    pub row_count: usize,
    pub pitch: usize,
    pub data: Vec<u8>,
}

/// The image flags a new image starts with: the cube-map flag for a cube map.
pub fn initial_image_flags(cubemap: ECubemap) -> (r: u32)
    ensures
        r == (if cubemap == ECubemap::Yes {
            EIF_CUBEMAP
        } else {
            0
        }),
{
    if cubemap == ECubemap::Yes {
        EIF_CUBEMAP
    } else {
        0
    }
}

/// Width and height of the top mip and the number of mips; all 0 when there
/// is no mip.
pub fn mip_extent(mips: &Vec<MipLevel>) -> (r: (usize, usize, usize))
    ensures
        mips@.len() == 0 ==> r == (0usize, 0usize, 0usize),
        mips@.len() > 0 ==> r == (mips@[0].width, mips@[0].height, mips@.len() as usize),
{
    if mips.len() == 0 {
        (0, 0, 0)
    } else {
        (mips[0].width, mips[0].height, mips.len())
    }
}

} // verus!
