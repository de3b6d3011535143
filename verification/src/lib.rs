//! Block-compression and texture-container logic for CryEngine textures,
//! with machine-checked contracts.

pub mod bc1;
pub mod bc2;
pub mod bc3;
pub mod bc4;
pub mod bc5;
pub mod bc6h;
pub mod bc7;
pub mod bc7_fields;
pub mod bc7_write;
pub mod bc7_partitions;
pub mod bc6h_fields;
pub mod bc6h_write;
pub mod channel_conversion;
pub mod ctx1;
pub mod dds_io;
pub mod flags;
pub mod lut_3d_color_chart;
pub mod bitstream;
pub mod text;
pub mod iptc_header;
pub mod crytif_io;
pub mod pixel_format;
pub mod image_properties;
pub mod compile_plan;
pub mod image_details;
pub mod tga_io;
pub mod hdr_rgbe_io;
pub mod image_object;
pub mod colorspaces;
pub mod vector;
pub mod operations;
pub mod filtering;
pub mod astc;
pub mod pvrtc;
pub mod byteio;
pub mod api;
pub mod half;
