//! Resampling and cube-map filtering. The filters themselves are floating
//! point and are done outside this library; what is here is the pixel
//! layout work that moves values without computing on them.

use vstd::prelude::*;

verus! {

/// The filter a cube map's mip chain is convolved with.
#[derive(Debug, Clone, Copy, PartialEq, Eq, Structural)]
pub enum CubemapFilterType {
    Cosine,
    GGX,
}

/// Texel/direction mapping of cube faces.
pub struct CubeMapTopology;

/// Blending of texels along cube-face seams.
pub struct EdgeFixup;

/// Sample generation for GGX importance sampling.
pub struct ImportanceSampling;

/// Conversion of panoramas to cube maps.
pub struct CubemapPipeline;

/// Conversion of light probes to cube-map strips.
pub struct Probes;

/// Image rescaling.
pub struct Scalers;

impl Scalers {
    /// Doubles the width of a row-major `width` x `height` image by repeating
    /// each pixel; returns the pixels and the new width and height. In the
    /// result, row `y` holds each pixel of source row `y` twice over, so
    /// pixel `i` of the result is source pixel `i / 2`.
    pub fn upscale_pow2_twice_horizontally<T: Copy>(src: &[T], width: usize, height: usize) -> (r: (
        Vec<T>,
        usize,
        usize,
    ))
        requires
            width * height <= src@.len(),
            2 * width <= usize::MAX,
            2 * width * height <= usize::MAX,
        ensures
            r.1 == 2 * width,
            r.2 == height,
            r.0@.len() == 2 * width * height,
            forall|i: int| 0 <= i < 2 * width * height ==> #[trigger] r.0@[i] == src@[i / 2],
    {
        let new_w = width * 2;
        let len = src.len();
        assert(width * height <= len);
        let n = width * height;
        let mut dst: Vec<T> = Vec::new();
        let mut k: usize = 0;
        while k < n
            invariant
                k <= n,
                n <= src@.len(),
                dst@.len() == 2 * k,
                forall|i: int| 0 <= i < 2 * k ==> #[trigger] dst@[i] == src@[i / 2],
            decreases n - k,
        {
            let p = src[k];
            dst.push(p);
            dst.push(p);
            k = k + 1;
        }
        assert(2 * width * height == 2 * n) by (nonlinear_arith)
            requires
                n == width * height,
        ;
        (dst, new_w, height)
    }
}

} // verus!
