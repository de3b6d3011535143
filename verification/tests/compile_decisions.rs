use cry_image::compile_plan::{contains_chars, mip_levels_dropped, plan_compilation, starts_with_chars};
use cry_image::image_properties::{EInputColorSpace, EOutputColorSpace, ImageProperties};
use cry_image::pixel_format::EPixelFormat;

fn chars(s: &str) -> Vec<char> {
    s.chars().collect()
}

#[test]
fn substring_and_prefix_search() {
    assert!(contains_chars(&chars("rock_ddna.tif"), &chars("_ddn")));
    assert!(contains_chars(&chars("abc"), &chars("")));
    assert!(!contains_chars(&chars("rock_dd.tif"), &chars("_ddn")));
    assert!(!contains_chars(&chars("ab"), &chars("abc")));
    assert!(starts_with_chars(&chars("NormalsWithSmoothness"), &chars("Normals")));
    assert!(!starts_with_chars(&chars("Albedo"), &chars("Normals")));
}

#[test]
fn albedo_texture_plan() {
    let props = ImageProperties::default();
    let p = plan_compilation(&props, "wall_diff.tif", false, "PC");
    assert!(!p.is_normal_map && !p.is_bump && !p.has_attached_alpha);
    assert_eq!(p.dest_format, EPixelFormat::BC1);
    assert!(!p.hdr_pipeline);
    assert!(!p.use_srgb);
    assert!(!p.mobile);
    assert!(!p.uncompressed);
    assert_eq!(p.reduce, 0);
}

#[test]
fn normal_map_with_smoothness_plan() {
    let mut props = ImageProperties::default();
    props.discard_alpha = true;
    props.output_color_space = EOutputColorSpace::Auto;
    props.input_color_space = EInputColorSpace::Srgb;
    let p = plan_compilation(&props, "rock_ddna.tif", false, "Android");
    assert!(p.is_normal_map && p.has_attached_alpha);
    assert_eq!(p.dest_format, EPixelFormat::BC5s);
    assert!(!p.discard_alpha);
    assert!(p.gloss_from_normals);
    assert!(!p.use_srgb);
    assert!(p.mobile);
}

#[test]
fn hdr_and_explicit_format_plans() {
    let mut props = ImageProperties::default();
    props.output_color_space = EOutputColorSpace::Auto;
    props.input_color_space = EInputColorSpace::Srgb;
    let p = plan_compilation(&props, "sky.hdr", true, "es3");
    assert_eq!(p.dest_format, EPixelFormat::BC6UH);
    assert!(p.hdr_pipeline);
    assert!(p.use_srgb);
    assert!(p.mobile);

    props.pixel_format = Some(EPixelFormat::X8R8G8B8);
    props.preset = String::from("GradientCoverage");
    props.parse_reduce_string("pc:2");
    let q = plan_compilation(&props, "ui_bump.tif", false, "pc");
    assert_eq!(q.dest_format, EPixelFormat::X8R8G8B8);
    assert!(q.uncompressed && q.is_bump && q.alpha_coverage);
    assert!(!q.use_srgb);
    assert_eq!(q.reduce, 2);
}

#[test]
fn platform_reduction_drops_leading_mips() {
    assert_eq!(mip_levels_dropped(2, 5), 2);
    assert_eq!(mip_levels_dropped(2, 2), 0);
    assert_eq!(mip_levels_dropped(0, 5), 0);
}
