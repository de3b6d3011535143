//! Texture compression formats and pipeline option enums.

use vstd::prelude::*;

verus! {

/// Block-compressed texture formats.
#[derive(Debug, Clone, Copy, PartialEq, Eq, Hash)]
pub enum Format {
    Bc1,
    Bc2,
    Bc3,
    Bc4,
    Bc5,
    Bc6h,
    Bc7,
    Ctx1,
}

/// Bytes per 4x4 block of `f`.
pub open spec fn spec_bytes_per_block(f: Format) -> usize {
    match f {
        Format::Bc1 | Format::Bc4 | Format::Ctx1 => 8,
        _ => 16,
    }
}

/// The DXGI format code of `f` (0 for CTX1, which DXGI lacks).
pub open spec fn spec_dxgi_format(f: Format, is_signed: bool, is_srgb: bool) -> u32 {
    match f {
        Format::Bc1 => if is_srgb { 72 } else { 71 },
        Format::Bc2 => if is_srgb { 75 } else { 74 },
        Format::Bc3 => if is_srgb { 78 } else { 77 },
        Format::Bc4 => if is_signed { 81 } else { 80 },
        Format::Bc5 => if is_signed { 84 } else { 83 },
        Format::Bc6h => if is_signed { 96 } else { 95 },
        Format::Bc7 => if is_srgb { 99 } else { 98 },
        Format::Ctx1 => 0,
    }
}

impl Format {
    /// Bytes per 4x4 block: 8 for BC1, BC4 and CTX1, 16 for the others.
    pub fn bytes_per_block(&self) -> (r: usize)
        ensures
            r == spec_bytes_per_block(*self),
    {
        match self {
            Format::Bc1 | Format::Bc4 | Format::Ctx1 => 8,
            Format::Bc2 | Format::Bc3 | Format::Bc5 | Format::Bc6h | Format::Bc7 => 16,
        }
    }

    /// The DXGI format code of this format.
    pub fn dxgi_format(&self, is_signed: bool, is_srgb: bool) -> (r: u32)
        ensures
            r == spec_dxgi_format(*self, is_signed, is_srgb),
    {
        match self {
            Format::Bc1 => if is_srgb { 72 } else { 71 },
            Format::Bc2 => if is_srgb { 75 } else { 74 },
            Format::Bc3 => if is_srgb { 78 } else { 77 },
            Format::Bc4 => if is_signed { 81 } else { 80 },
            Format::Bc5 => if is_signed { 84 } else { 83 },
            Format::Bc6h => if is_signed { 96 } else { 95 },
            Format::Bc7 => if is_srgb { 99 } else { 98 },
            Format::Ctx1 => 0,
        }
    }
}

/// Compression effort presets.
#[derive(Debug, Clone, Copy, PartialEq, Eq, Structural)]
pub enum QualityLevel {
    Ultrafast,
    Fast,
    Normal,
    Slow,
    Slowest,
}

/// Error metrics for colour fitting.
#[derive(Debug, Clone, Copy, PartialEq, Eq)]
pub enum ColorMetric {
    Perceptual,
    Uniform,
    Unit,
}

/// Endpoint fitting strategies.
#[derive(Debug, Clone, Copy, PartialEq, Eq)]
pub enum FitStrategy {
    FastRange,
    Cluster(usize),
}

/// Resampling and MIP generation filter kernels.
#[derive(Debug, Clone, Copy, PartialEq, Eq, Structural)]
pub enum MipmapFilter {
    Box,
    MitchellNetravali,
    CatmullRom,
    Lanczos3,
    KaiserSinc,
    Point,
}

impl Default for QualityLevel {
    fn default() -> (r: Self)
        ensures
            r == QualityLevel::Normal,
    {
        QualityLevel::Normal
    }
}

impl Default for MipmapFilter {
    fn default() -> (r: Self)
        ensures
            r == MipmapFilter::Box,
    {
        MipmapFilter::Box
    }
}

} // verus!
