//! Floating-point HDR images (Radiance RGBE, EXR, float TIFF). Decoding is
//! done by the image decoder outside this library; the type is the anchor of
//! that loader.

use vstd::prelude::*;

verus! {

/// Loading of floating-point HDR images.
pub struct HdrRgbeIO;

} // verus!
