//! The decisions the texture compiler takes for one source image, before
//! any pixel is touched: which kind of texture the file name and preset
//! make it, the target format, the colour space of the mip chain, the
//! gloss, alpha and resolution settings, and the path the pixels take.

use vstd::prelude::*;
use crate::channel_conversion::ascii_lower;
use crate::image_properties::{
    lower_chars, platform_reduce, reduce_view, EInputColorSpace, EOutputColorSpace,
    ImageProperties,
};
use crate::pixel_format::EPixelFormat;
use crate::text::chars_of;

verus! {

/// Whether `pat` occurs in `s` at position `k`.
pub open spec fn occurs_at(s: Seq<char>, pat: Seq<char>, k: int) -> bool {
    0 <= k && k + pat.len() <= s.len() && s.subrange(k, k + pat.len()) == pat
}

/// Whether `pat` occurs anywhere in `s`.
pub open spec fn has_infix(s: Seq<char>, pat: Seq<char>) -> bool {
    exists|k: int| #[trigger] occurs_at(s, pat, k)
}

/// Whether `s` begins with `pat`.
pub open spec fn has_prefix(s: Seq<char>, pat: Seq<char>) -> bool {
    occurs_at(s, pat, 0)
}

/// What the compiler decides for one source image.
#[derive(Debug, Clone, Copy, PartialEq, Eq, Structural)]
pub struct CompilePlan {
    /// The alpha channel carries smoothness (a `_ddna` file or the
    /// normals-with-smoothness preset).
    pub has_attached_alpha: bool,
    /// The image is a normal map (`_ddn` in its name or a normals preset).
    pub is_normal_map: bool,
    /// The image is a height map to turn into normals.
    pub is_bump: bool,
    /// The format the texture is written in.
    pub dest_format: EPixelFormat,
    /// The image goes through the HDR path instead of the 8-bit one.
    pub hdr_pipeline: bool,
    /// Alpha is forced to 255 before mipmapping.
    pub discard_alpha: bool,
    /// Mipmaps are filtered in sRGB space.
    pub use_srgb: bool,
    /// Mipmapping keeps the alpha-test coverage.
    pub alpha_coverage: bool,
    /// Smoothness is derived from the normals.
    pub gloss_from_normals: bool,
    /// Mip levels to drop for the target platform.
    pub reduce: usize,
    /// The target is a mobile platform, compressed with the mobile codecs.
    pub mobile: bool,
    /// The format is written as uncompressed BGRA/BGRX.
    pub uncompressed: bool,
}

/// The plan for an image named `name` (HDR when `is_hdr`) compiled with
/// the properties `props` for `platform`.
pub open spec fn compile_plan(
    props: ImageProperties,
    name: Seq<char>,
    is_hdr: bool,
    platform: Seq<char>,
) -> CompilePlan {
    let preset = props.preset@;
    let has_attached_alpha = has_infix(name, "_ddna"@) || preset == "NormalsWithSmoothness"@;
    let is_normal_map = has_infix(name, "_ddn"@) || has_prefix(preset, "Normals"@);
    let is_bump = has_infix(name, "_bump"@) || preset == "NormalsFromDisplacement"@;
    let dest_format = match props.pixel_format {
        Some(f) => f,
        None => if is_normal_map {
            EPixelFormat::BC5s
        } else if is_hdr {
            EPixelFormat::BC6UH
        } else {
            EPixelFormat::BC1
        },
    };
    let use_srgb = match props.output_color_space {
        EOutputColorSpace::Srgb => true,
        EOutputColorSpace::Linear => false,
        EOutputColorSpace::Auto => !(is_normal_map || is_bump || has_prefix(preset, "Normals"@))
            && props.input_color_space == EInputColorSpace::Srgb,
    };
    let low = lower_chars(platform);
    CompilePlan {
        has_attached_alpha,
        is_normal_map,
        is_bump,
        dest_format,
        hdr_pipeline: is_hdr || dest_format == EPixelFormat::BC6UH,
        discard_alpha: props.discard_alpha && !has_attached_alpha,
        use_srgb,
        alpha_coverage: props.maintain_alpha_coverage || has_infix(preset, "Coverage"@),
        gloss_from_normals: props.gloss_from_normals || has_attached_alpha,
        reduce: platform_reduce(reduce_view(props.reduce_map@), platform),
        mobile: low == lower_chars("es3"@) || low == lower_chars("android"@),
        uncompressed: dest_format == EPixelFormat::A8R8G8B8 || dest_format == EPixelFormat::X8R8G8B8
            || dest_format == EPixelFormat::R8G8B8,
    }
}

/// Whether `pat` occurs in `s` at position `k`.
fn matches_at(s: &Vec<char>, pat: &Vec<char>, k: usize) -> (r: bool)
    ensures
        r == occurs_at(s@, pat@, k as int),
{
    if k > s.len() || pat.len() > s.len() - k {
        return false;
    }
    let mut j: usize = 0;
    while j < pat.len()
        invariant
            j <= pat.len(),
            k + pat.len() <= s.len(),
            forall|t: int| 0 <= t < j ==> #[trigger] pat@[t] == s@[k + t],
        decreases pat.len() - j,
    {
        if s[k + j] != pat[j] {
            proof {
                assert(s@.subrange(k as int, k + pat.len())[j as int] != pat@[j as int]);
            }
            return false;
        }
        j += 1;
    }
    assert(s@.subrange(k as int, k + pat.len()) =~= pat@);
    true
}

/// Whether `pat` occurs anywhere in `s`.
pub fn contains_chars(s: &Vec<char>, pat: &Vec<char>) -> (r: bool)
    ensures
        r == has_infix(s@, pat@),
{
    if pat.len() > s.len() {
        assert forall|k: int| !occurs_at(s@, pat@, k) by {}
        return false;
    }
    let limit = s.len() - pat.len();
    let mut k: usize = 0;
    while k < limit
        invariant
            pat.len() <= s.len(),
            limit == s.len() - pat.len(),
            k <= limit,
            forall|t: int| 0 <= t < k ==> !#[trigger] occurs_at(s@, pat@, t),
        decreases limit - k,
    {
        if matches_at(s, pat, k) {
            return true;
        }
        k += 1;
    }
    if matches_at(s, pat, limit) {
        return true;
    }
    assert forall|t: int| !occurs_at(s@, pat@, t) by {
        if 0 <= t < k {
        }
    }
    false
}

/// Whether `s` begins with `pat`.
pub fn starts_with_chars(s: &Vec<char>, pat: &Vec<char>) -> (r: bool)
    ensures
        r == has_prefix(s@, pat@),
{
    matches_at(s, pat, 0)
}

/// Whether `a` and `b` hold the same characters.
fn same_chars(a: &Vec<char>, b: &Vec<char>) -> (r: bool)
    ensures
        r == (a@ == b@),
{
    if a.len() != b.len() {
        return false;
    }
    let mut i: usize = 0;
    while i < a.len()
        invariant
            i <= a.len(),
            a.len() == b.len(),
            forall|t: int| 0 <= t < i ==> #[trigger] a@[t] == b@[t],
        decreases a.len() - i,
    {
        if a[i] != b[i] {
            return false;
        }
        i += 1;
    }
    assert(a@ =~= b@);
    true
}

/// ASCII lower-casing of every character of `s`.
fn lower_vec(s: &Vec<char>) -> (r: Vec<char>)
    ensures
        r@ == lower_chars(s@),
{
    let r = crate::text::to_ascii_lower(s);
    assert(r@ =~= lower_chars(s@));
    r
}

/// Decides how the image named `name` (HDR when `is_hdr`) is compiled with
/// the properties `props` for `platform`.
pub fn plan_compilation(props: &ImageProperties, name: &str, is_hdr: bool, platform: &str) -> (r:
    CompilePlan)
    ensures
        r == compile_plan(*props, name@, is_hdr, platform@),
{
    let name_c = chars_of(name);
    let preset = chars_of(props.preset.as_str());
    let has_attached_alpha = contains_chars(&name_c, &chars_of("_ddna")) || same_chars(
        &preset,
        &chars_of("NormalsWithSmoothness"),
    );
    let normals_preset = starts_with_chars(&preset, &chars_of("Normals"));
    let is_normal_map = contains_chars(&name_c, &chars_of("_ddn")) || normals_preset;
    let is_bump = contains_chars(&name_c, &chars_of("_bump")) || same_chars(
        &preset,
        &chars_of("NormalsFromDisplacement"),
    );
    let dest_format = match props.pixel_format {
        Some(f) => f,
        None => if is_normal_map {
            EPixelFormat::BC5s
        } else if is_hdr {
            EPixelFormat::BC6UH
        } else {
            EPixelFormat::BC1
        },
    };
    let use_srgb = match props.output_color_space {
        EOutputColorSpace::Srgb => true,
        EOutputColorSpace::Linear => false,
        EOutputColorSpace::Auto => !(is_normal_map || is_bump || normals_preset) && matches!(
            props.input_color_space,
            EInputColorSpace::Srgb
        ),
    };
    let low = lower_vec(&chars_of(platform));
    let mobile = same_chars(&low, &lower_vec(&chars_of("es3"))) || same_chars(
        &low,
        &lower_vec(&chars_of("android")),
    );
    let uncompressed = matches!(
        dest_format,
        EPixelFormat::A8R8G8B8 | EPixelFormat::X8R8G8B8 | EPixelFormat::R8G8B8
    );
    CompilePlan {
        has_attached_alpha,
        is_normal_map,
        is_bump,
        dest_format,
        hdr_pipeline: is_hdr || matches!(dest_format, EPixelFormat::BC6UH),
        discard_alpha: props.discard_alpha && !has_attached_alpha,
        use_srgb,
        alpha_coverage: props.maintain_alpha_coverage || contains_chars(
            &preset,
            &chars_of("Coverage"),
        ),
        gloss_from_normals: props.gloss_from_normals || has_attached_alpha,
        reduce: props.get_resolution_reduce_for_platform(platform),
        mobile,
        uncompressed,
    }
}

/// How many leading mip levels a chain of `levels` loses to a platform
/// reduction of `reduce`: all of `reduce` when the chain is longer than
/// that, none otherwise.
pub fn mip_levels_dropped(reduce: usize, levels: usize) -> (r: usize)
    ensures
        r == (if reduce > 0 && levels > reduce {
            reduce
        } else {
            0
        }),
{
    if reduce > 0 && levels > reduce {
        reduce
    } else {
        0
    }
}

/// The compiler honours the explicit settings: an sRGB or linear output
/// colour space is used as given (normal maps and height maps are linear
/// under the automatic one), an explicit pixel format is the target
/// format, HDR images (and the BC6H format) take the HDR path, an image
/// with smoothness in its alpha keeps its alpha and derives gloss, a
/// normal map without an explicit format becomes BC5 signed, and
/// discarding alpha is honoured for every other image.
pub proof fn lemma_plan_honours_settings(
    props: ImageProperties,
    name: Seq<char>,
    is_hdr: bool,
    platform: Seq<char>,
)
    ensures
        ({
            let p = compile_plan(props, name, is_hdr, platform);
            &&& props.output_color_space == EOutputColorSpace::Srgb ==> p.use_srgb
            &&& props.output_color_space == EOutputColorSpace::Linear ==> !p.use_srgb
            &&& props.output_color_space == EOutputColorSpace::Auto && (has_infix(name, "_ddn"@)
                || has_infix(name, "_bump"@)) ==> !p.use_srgb
            &&& props.pixel_format matches Some(f) ==> p.dest_format == f
            &&& is_hdr ==> p.hdr_pipeline
            &&& props.pixel_format == Some(EPixelFormat::BC6UH) ==> p.hdr_pipeline
            &&& has_infix(name, "_ddna"@) ==> !p.discard_alpha && p.gloss_from_normals
                && p.is_normal_map
            &&& props.gloss_from_normals ==> p.gloss_from_normals
            &&& props.pixel_format is None && has_infix(name, "_ddn"@) ==> p.dest_format
                == EPixelFormat::BC5s
            &&& props.pixel_format is None && !is_hdr && !has_infix(name, "_ddn"@) && !has_prefix(
                props.preset@,
                "Normals"@,
            ) ==> p.dest_format == EPixelFormat::BC1
            &&& props.discard_alpha && !has_infix(name, "_ddna"@) && props.preset@
                != "NormalsWithSmoothness"@ ==> p.discard_alpha
            &&& p.uncompressed <==> (p.dest_format == EPixelFormat::A8R8G8B8 || p.dest_format
                == EPixelFormat::X8R8G8B8 || p.dest_format == EPixelFormat::R8G8B8)
            &&& props.maintain_alpha_coverage ==> p.alpha_coverage
            &&& has_infix(props.preset@, "Coverage"@) ==> p.alpha_coverage
            &&& has_infix(name, "_bump"@) ==> p.is_bump
            &&& p.mobile <==> (lower_chars(platform) == "es3"@ || lower_chars(platform)
                == "android"@)
        }),
{
    reveal_strlit("es3");
    reveal_strlit("android");
    assert(lower_chars("es3"@) =~= "es3"@);
    assert(lower_chars("android"@) =~= "android"@);
    if has_infix(name, "_ddna"@) {
        let k = choose|k: int| #[trigger] occurs_at(name, "_ddna"@, k);
        assert(name.subrange(k, k + 4) =~= "_ddn"@) by {
            reveal_strlit("_ddna");
            reveal_strlit("_ddn");
            assert(name.subrange(k, k + 5)[0] == '_');
            assert(name.subrange(k, k + 4) =~= name.subrange(k, k + 5).subrange(0, 4));
        }
        assert(occurs_at(name, "_ddn"@, k)) by {
            reveal_strlit("_ddn");
            reveal_strlit("_ddna");
        }
    }
}

} // verus!
