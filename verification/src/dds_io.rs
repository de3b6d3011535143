//! DirectDraw Surface (DDS) containers with the CryEngine header overlay and
//! the CExt/AttC/CEnd chunk for an attached alpha stream.

use vstd::prelude::*;
use crate::byteio::{le_bytes_u32, push_all, push_u32_le, push_words_le, words_le};
use crate::api::blocks_for;
use crate::flags::{spec_bytes_per_block, spec_dxgi_format, Format};

verus! {

pub const DXGI_FORMAT_R8G8B8A8_UNORM: u32 = 28;
pub const DXGI_FORMAT_R8G8B8A8_UNORM_SRGB: u32 = 29;
pub const DXGI_FORMAT_R8G8_UNORM: u32 = 49;
pub const DXGI_FORMAT_R8_UNORM: u32 = 61;
pub const DXGI_FORMAT_A8_UNORM: u32 = 65;
pub const DXGI_FORMAT_BC1_UNORM: u32 = 71;
pub const DXGI_FORMAT_BC1_UNORM_SRGB: u32 = 72;
pub const DXGI_FORMAT_BC2_UNORM: u32 = 74;
pub const DXGI_FORMAT_BC2_UNORM_SRGB: u32 = 75;
pub const DXGI_FORMAT_BC3_UNORM: u32 = 77;
pub const DXGI_FORMAT_BC3_UNORM_SRGB: u32 = 78;
pub const DXGI_FORMAT_BC4_UNORM: u32 = 80;
pub const DXGI_FORMAT_BC4_SNORM: u32 = 81;
pub const DXGI_FORMAT_BC5_UNORM: u32 = 83;
pub const DXGI_FORMAT_BC5_SNORM: u32 = 84;
pub const DXGI_FORMAT_B8G8R8A8_UNORM: u32 = 87;
pub const DXGI_FORMAT_B8G8R8X8_UNORM: u32 = 88;
pub const DXGI_FORMAT_B8G8R8A8_UNORM_SRGB: u32 = 91;
pub const DXGI_FORMAT_B8G8R8X8_UNORM_SRGB: u32 = 93;
pub const DXGI_FORMAT_BC6H_UF16: u32 = 95;
pub const DXGI_FORMAT_BC6H_SF16: u32 = 96;
pub const DXGI_FORMAT_BC7_UNORM: u32 = 98;
pub const DXGI_FORMAT_BC7_UNORM_SRGB: u32 = 99;

/// Uncompressed 8-bit formats (written with a pitch and an RGB pixel format).
pub open spec fn is_uncompressed(fmt: u32) -> bool {
    fmt == 87 || fmt == 91 || fmt == 88 || fmt == 93 || fmt == 28 || fmt == 29 || fmt == 49 || fmt
        == 61 || fmt == 65
}

/// Block-compressed formats (BC1 to BC7), which get a DX10 header.
pub open spec fn is_block_compressed(fmt: u32) -> bool {
    fmt == 71 || fmt == 72 || fmt == 74 || fmt == 75 || fmt == 77 || fmt == 78 || fmt == 80 || fmt
        == 81 || fmt == 83 || fmt == 84 || fmt == 95 || fmt == 96 || fmt == 98 || fmt == 99
}

fn uncompressed(fmt: u32) -> (r: bool)
    ensures
        r == is_uncompressed(fmt),
{
    fmt == DXGI_FORMAT_B8G8R8A8_UNORM || fmt == DXGI_FORMAT_B8G8R8A8_UNORM_SRGB || fmt
        == DXGI_FORMAT_B8G8R8X8_UNORM || fmt == DXGI_FORMAT_B8G8R8X8_UNORM_SRGB || fmt
        == DXGI_FORMAT_R8G8B8A8_UNORM || fmt == DXGI_FORMAT_R8G8B8A8_UNORM_SRGB || fmt
        == DXGI_FORMAT_R8G8_UNORM || fmt == DXGI_FORMAT_R8_UNORM || fmt == DXGI_FORMAT_A8_UNORM
}

/// Whether `fmt` is one of the BC formats (so the primary stream needs a DX10 header).
pub fn block_compressed(fmt: u32) -> (r: bool)
    ensures
        r == is_block_compressed(fmt),
{
    fmt == DXGI_FORMAT_BC1_UNORM || fmt == DXGI_FORMAT_BC1_UNORM_SRGB || fmt
        == DXGI_FORMAT_BC2_UNORM || fmt == DXGI_FORMAT_BC2_UNORM_SRGB || fmt
        == DXGI_FORMAT_BC3_UNORM || fmt == DXGI_FORMAT_BC3_UNORM_SRGB || fmt
        == DXGI_FORMAT_BC4_UNORM || fmt == DXGI_FORMAT_BC4_SNORM || fmt == DXGI_FORMAT_BC5_UNORM
        || fmt == DXGI_FORMAT_BC5_SNORM || fmt == DXGI_FORMAT_BC6H_UF16 || fmt
        == DXGI_FORMAT_BC6H_SF16 || fmt == DXGI_FORMAT_BC7_UNORM || fmt == DXGI_FORMAT_BC7_UNORM_SRGB
}

/// `ceil(v / 4)`, at least 1.
pub open spec fn blocks_of(v: u32) -> int {
    let b = (v as int + 3) / 4;
    if b < 1 {
        1
    } else {
        b
    }
}

/// Bytes per 4x4 block counted in the linear size: 8 for BC1 and BC4, 16
/// for the other formats.
pub open spec fn dds_bytes_per_block(fmt: u32) -> int {
    if fmt == 71 || fmt == 72 || fmt == 80 || fmt == 81 {
        8
    } else {
        16
    }
}

/// The pitch (uncompressed) or linear size (compressed) header field.
pub open spec fn pitch_or_linear_size(width: u32, height: u32, fmt: u32) -> u32 {
    if is_uncompressed(fmt) {
        (width * 4) as u32
    } else {
        (blocks_of(width) * blocks_of(height) * dds_bytes_per_block(fmt)) as u32
    }
}

/// The legacy FourCC word (bytes in file order) for a compressed format without a DX10 header.
pub open spec fn legacy_fourcc(fmt: u32) -> u32 {
    if fmt == 71 || fmt == 72 {
        0x31545844
    } else if fmt == 74 || fmt == 75 {
        0x33545844
    } else if fmt == 77 || fmt == 78 {
        0x35545844
    } else if fmt == 80 {
        0x31495441
    } else if fmt == 83 {
        0x32495441
    } else {
        0x31545844
    }
}

/// The 32-byte DDS_PIXELFORMAT as words.
pub open spec fn pixel_format_words(fmt: u32, force_dx10: bool) -> Seq<u32> {
    if force_dx10 {
        seq![32u32, 0x4, 0x30315844, 0, 0, 0, 0, 0]
    } else if is_uncompressed(fmt) {
        let has_alpha = !(fmt == 88 || fmt == 93);
        seq![
            32u32,
            if has_alpha { 0x41u32 } else { 0x40u32 },
            0,
            32,
            0x00FF_0000,
            0x0000_FF00,
            0x0000_00FF,
            if has_alpha { 0xFF00_0000u32 } else { 0u32 },
        ]
    } else {
        seq![32u32, 0x4, legacy_fourcc(fmt), 0, 0, 0, 0, 0]
    }
}

/// The first 19 words: magic, then the DDS_HEADER up to its pixel format,
/// with the CryEngine overlay (marker, flags, packed metadata, unit colour
/// scales) in the reserved words.
pub open spec fn header_main_words(
    width: u32,
    height: u32,
    mip_count: u32,
    fmt: u32,
    cry_flags: u32,
) -> Seq<u32> {
    let unc = is_uncompressed(fmt);
    // CAPS | HEIGHT | WIDTH | PIXELFORMAT | MIPMAPCOUNT, then LINEARSIZE
    // for block formats or PITCH for uncompressed ones.
    let flags: u32 = if !unc {
        0xA_1007u32
    } else {
        0x2_100Fu32
    };
    let block_dim: u32 = if unc {
        1
    } else {
        4
    };
    let persistent = if mip_count < 255 {
        mip_count
    } else {
        255u32
    };
    let packed_meta = persistent | (block_dim << 8u32) | (block_dim << 16u32);
    seq![
        0x20534444u32,
        124,
        flags,
        height,
        width,
        pitch_or_linear_size(width, height, fmt),
        0,
        mip_count,
        0x43525946,
        cry_flags,
        packed_meta,
        0,
        0,
        0,
        0,
        0x3F80_0000,
        0x3F80_0000,
        0x3F80_0000,
        0x3F80_0000,
    ]
}

/// The caps words that follow the pixel format.
pub open spec fn header_caps_words(mip_count: u32, is_cubemap: bool) -> Seq<u32> {
    // TEXTURE, plus MIPMAP | COMPLEX when there is more than one level.
    let caps: u32 = if mip_count > 1 {
        0x40_1008u32
    } else {
        0x1000u32
    };
    seq![caps, if is_cubemap { 0xFE00u32 } else { 0u32 }, 0, 0, 0]
}

/// The DX10 extension header.
pub open spec fn dx10_words(fmt: u32, is_cubemap: bool) -> Seq<u32> {
    seq![fmt, 3u32, if is_cubemap { 4u32 } else { 0u32 }, if is_cubemap { 6u32 } else { 1u32 }, 0]
}

/// All header words of one DDS stream: magic, the 124-byte DDS_HEADER (with
/// the CryEngine overlay in its reserved words), then the DX10 header when
/// forced.
pub open spec fn dds_header_words(
    width: u32,
    height: u32,
    mip_count: u32,
    fmt: u32,
    is_cubemap: bool,
    cry_flags: u32,
    force_dx10: bool,
) -> Seq<u32> {
    let base = header_main_words(width, height, mip_count, fmt, cry_flags) + pixel_format_words(
        fmt,
        force_dx10,
    ) + header_caps_words(mip_count, is_cubemap);
    if force_dx10 {
        base + dx10_words(fmt, is_cubemap)
    } else {
        base
    }
}

/// The bytes of one DDS stream: its header words, little-endian, then the payload.
pub open spec fn dds_stream(
    width: u32,
    height: u32,
    mip_count: u32,
    fmt: u32,
    is_cubemap: bool,
    cry_flags: u32,
    force_dx10: bool,
    payload: Seq<u8>,
) -> Seq<u8> {
    words_le(dds_header_words(width, height, mip_count, fmt, is_cubemap, cry_flags, force_dx10))
        + payload
}

/// Size limits under which the header field of format `fmt` is computed
/// without overflow: the pitch `width * 4` of an uncompressed format, the
/// linear size (blocks times block bytes) of any other.
pub open spec fn dds_dims_fit(width: u32, height: u32, fmt: u32) -> bool {
    &&& is_uncompressed(fmt) ==> width as int * 4 <= u32::MAX
    &&& !is_uncompressed(fmt) ==> blocks_of(width) * blocks_of(height) * dds_bytes_per_block(fmt)
        <= u32::MAX
}

/// The CryEngine image flags of a DDS file.
pub open spec fn cry_image_flags(
    is_srgb: bool,
    is_cubemap: bool,
    has_attached_alpha: bool,
    is_renormalized: bool,
    is_file_single: bool,
) -> u32 {
    (if is_cubemap { 0x1u32 } else { 0u32 }) | (if is_srgb { 0x8u32 } else { 0u32 }) | (
    if is_file_single { 0x10u32 } else { 0u32 }) | (if has_attached_alpha { 0x20u32 } else { 0u32 })
        | (if is_renormalized { 0x40000u32 } else { 0u32 })
}

/// Word of the chunk marker "CExt".
pub open spec fn cext_word() -> u32 {
    0x74784543
}

/// Word of the chunk marker "AttC".
pub open spec fn attc_word() -> u32 {
    0x43747441
}

/// Word of the chunk marker "CEnd".
pub open spec fn cend_word() -> u32 {
    0x646E4543
}

/// The bytes of a complete DDS file: the primary stream, then a CExt chunk
/// that holds, when an attached alpha stream is requested and given, an AttC
/// record with its length and a nested BC4 stream.
pub open spec fn dds_file(
    width: u32,
    height: u32,
    mip_count: u32,
    fmt: u32,
    is_srgb: bool,
    is_cubemap: bool,
    has_attached_alpha: bool,
    is_renormalized: bool,
    is_file_single: bool,
    main_payload: Seq<u8>,
    attached_alpha_payload: Option<Seq<u8>>,
) -> Seq<u8> {
    let cry_flags = cry_image_flags(
        is_srgb,
        is_cubemap,
        has_attached_alpha,
        is_renormalized,
        is_file_single,
    );
    let dx10 = is_block_compressed(fmt);
    let main = dds_stream(width, height, mip_count, fmt, is_cubemap, cry_flags, dx10, main_payload);
    let plain = main + le_bytes_u32(cext_word()) + le_bytes_u32(cend_word());
    if has_attached_alpha {
        match attached_alpha_payload {
            Some(alpha) => {
                let alpha_stream = dds_stream(
                    width,
                    height,
                    mip_count,
                    80,
                    is_cubemap,
                    cry_flags & 0x5u32,
                    dx10,
                    alpha,
                );
                main + le_bytes_u32(cext_word()) + le_bytes_u32(attc_word()) + le_bytes_u32(
                    alpha_stream.len() as u32,
                ) + alpha_stream + le_bytes_u32(cend_word())
            },
            None => plain,
        }
    } else {
        plain
    }
}

fn main_words(width: u32, height: u32, mip_count: u32, fmt: u32, cry_flags: u32) -> (r: [u32; 19])
    requires
        dds_dims_fit(width, height, fmt),
    ensures
        r@ == header_main_words(width, height, mip_count, fmt, cry_flags),
{
    let is_unc = uncompressed(fmt);
    let flags: u32 = if !is_unc {
        0xA_1007
    } else {
        0x2_100F
    };
    let pitch_or_linear_size = if !is_unc {
        let bw0 = width / 4 + if width % 4 != 0 { 1 } else { 0 };
        let bh0 = height / 4 + if height % 4 != 0 { 1 } else { 0 };
        let block_w = if bw0 < 1 { 1 } else { bw0 };
        let block_h = if bh0 < 1 { 1 } else { bh0 };
        let bytes_per_block: u32 = if fmt == DXGI_FORMAT_BC1_UNORM || fmt
            == DXGI_FORMAT_BC1_UNORM_SRGB || fmt == DXGI_FORMAT_BC4_UNORM || fmt
            == DXGI_FORMAT_BC4_SNORM {
            8
        } else {
            16
        };
        assert(block_w == blocks_of(width) && block_h == blocks_of(height));
        assert(block_w * block_h <= block_w * block_h * bytes_per_block) by (nonlinear_arith)
            requires
                bytes_per_block >= 1,
                block_w >= 1,
                block_h >= 1,
        ;
        block_w * block_h * bytes_per_block
    } else {
        width * 4
    };
    let block_dim: u32 = if is_unc {
        1
    } else {
        4
    };
    let persistent_mips = if mip_count < 255 {
        mip_count
    } else {
        255
    };
    let packed_meta: u32 = persistent_mips | (block_dim << 8) | (block_dim << 16);
    let r: [u32; 19] = [
        0x20534444,
        124,
        flags,
        height,
        width,
        pitch_or_linear_size,
        0,
        mip_count,
        0x43525946,
        cry_flags,
        packed_meta,
        0,
        0,
        0,
        0,
        0x3F80_0000,
        0x3F80_0000,
        0x3F80_0000,
        0x3F80_0000,
    ];
    assert(r@ =~= header_main_words(width, height, mip_count, fmt, cry_flags));
    r
}

fn pixel_format(fmt: u32, force_dx10: bool) -> (r: [u32; 8])
    ensures
        r@ == pixel_format_words(fmt, force_dx10),
{
    let r: [u32; 8] = if force_dx10 {
        [32, 0x4, 0x30315844, 0, 0, 0, 0, 0]
    } else if uncompressed(fmt) {
        let has_alpha = !(fmt == DXGI_FORMAT_B8G8R8X8_UNORM || fmt
            == DXGI_FORMAT_B8G8R8X8_UNORM_SRGB);
        [
            32,
            if has_alpha { 0x41 } else { 0x40 },
            0,
            32,
            0x00FF_0000,
            0x0000_FF00,
            0x0000_00FF,
            if has_alpha { 0xFF00_0000 } else { 0 },
        ]
    } else {
        let fourcc: u32 = if fmt == DXGI_FORMAT_BC1_UNORM || fmt == DXGI_FORMAT_BC1_UNORM_SRGB {
            0x31545844
        } else if fmt == DXGI_FORMAT_BC2_UNORM || fmt == DXGI_FORMAT_BC2_UNORM_SRGB {
            0x33545844
        } else if fmt == DXGI_FORMAT_BC3_UNORM || fmt == DXGI_FORMAT_BC3_UNORM_SRGB {
            0x35545844
        } else if fmt == DXGI_FORMAT_BC4_UNORM {
            0x31495441
        } else if fmt == DXGI_FORMAT_BC5_UNORM {
            0x32495441
        } else {
            0x31545844
        };
        [32, 0x4, fourcc, 0, 0, 0, 0, 0]
    };
    assert(r@ =~= pixel_format_words(fmt, force_dx10));
    r
}

fn caps_words(mip_count: u32, is_cubemap: bool) -> (r: [u32; 5])
    ensures
        r@ == header_caps_words(mip_count, is_cubemap),
{
    let mut caps: u32 = 0x1000;
    if mip_count > 1 {
        caps = 0x40_1008;
    }
    let r: [u32; 5] = [caps, if is_cubemap { 0xFE00 } else { 0 }, 0, 0, 0];
    assert(r@ =~= header_caps_words(mip_count, is_cubemap));
    r
}

fn dx10_header(fmt: u32, is_cubemap: bool) -> (r: [u32; 5])
    ensures
        r@ == dx10_words(fmt, is_cubemap),
{
    let r: [u32; 5] = [fmt, 3, if is_cubemap { 0x4 } else { 0 }, if is_cubemap { 6 } else { 1 }, 0];
    assert(r@ =~= dx10_words(fmt, is_cubemap));
    r
}

/// DDS container writer.
pub struct DdsIO;

impl DdsIO {
    /// Appends one DDS stream (magic, headers, payload) to `out`.
    pub fn write_single_dds_stream(
        out: &mut Vec<u8>,
        width: u32,
        height: u32,
        mip_count: u32,
        dxgi_format: u32,
        is_cubemap: bool,
        cry_flags: u32,
        force_dx10: bool,
        payload: &[u8],
    )
        requires
            dds_dims_fit(width, height, dxgi_format),
        ensures
            final(out)@ == old(out)@ + dds_stream(
                width,
                height,
                mip_count,
                dxgi_format,
                is_cubemap,
                cry_flags,
                force_dx10,
                payload@,
            ),
    {
        let head = main_words(width, height, mip_count, dxgi_format, cry_flags);
        let pf = pixel_format(dxgi_format, force_dx10);
        let tail = caps_words(mip_count, is_cubemap);
        push_words_le(out, &head);
        push_words_le(out, &pf);
        push_words_le(out, &tail);
        proof {
            lemma_words_le_append(head@, pf@);
            lemma_words_le_append(head@ + pf@, tail@);
        }
        if force_dx10 {
            let dx10 = dx10_header(dxgi_format, is_cubemap);
            push_words_le(out, &dx10);
            proof {
                lemma_words_le_append(head@ + pf@ + tail@, dx10@);
            }
        }
        push_all(out, payload);
        proof {
            let hw = dds_header_words(
                width,
                height,
                mip_count,
                dxgi_format,
                is_cubemap,
                cry_flags,
                force_dx10,
            );
            assert(out@ =~= old(out)@ + words_le(hw) + payload@);
        }
    }

    /// The bytes of a DDS file with the CryEngine header and the optional
    /// attached alpha stream.
    pub fn build_dds_file(
        width: u32,
        height: u32,
        mip_count: u32,
        dxgi_format: u32,
        is_srgb: bool,
        is_cubemap: bool,
        has_attached_alpha: bool,
        is_renormalized: bool,
        is_file_single: bool,
        main_payload: &[u8],
        attached_alpha_payload: Option<&[u8]>,
    ) -> (r: Vec<u8>)
        requires
            dds_dims_fit(width, height, dxgi_format),
            has_attached_alpha && attached_alpha_payload is Some ==> dds_dims_fit(
                width,
                height,
                DXGI_FORMAT_BC4_UNORM,
            ),
        ensures
            r@ == dds_file(
                width,
                height,
                mip_count,
                dxgi_format,
                is_srgb,
                is_cubemap,
                has_attached_alpha,
                is_renormalized,
                is_file_single,
                main_payload@,
                match attached_alpha_payload {
                    Some(a) => Some(a@),
                    None => None,
                },
            ),
    {
        let mut w: Vec<u8> = Vec::new();
        let f_cube: u32 = if is_cubemap { 0x1 } else { 0 };
        let f_srgb: u32 = if is_srgb { 0x8 } else { 0 };
        let f_single: u32 = if is_file_single { 0x10 } else { 0 };
        let f_alpha: u32 = if has_attached_alpha { 0x20 } else { 0 };
        let f_renorm: u32 = if is_renormalized { 0x40000 } else { 0 };
        let cry_flags: u32 = f_cube | f_srgb | f_single | f_alpha | f_renorm;
        let main_needs_dx10 = block_compressed(dxgi_format);
        Self::write_single_dds_stream(
            &mut w,
            width,
            height,
            mip_count,
            dxgi_format,
            is_cubemap,
            cry_flags,
            main_needs_dx10,
            main_payload,
        );
        let ghost main = w@;
        let mut attached = false;
        if has_attached_alpha {
            if let Some(alpha_bytes) = attached_alpha_payload {
                push_u32_le(&mut w, 0x74784543);
                push_u32_le(&mut w, 0x43747441);
                let mut alpha_stream: Vec<u8> = Vec::new();
                let alpha_flags = cry_flags & 0x5;
                Self::write_single_dds_stream(
                    &mut alpha_stream,
                    width,
                    height,
                    mip_count,
                    DXGI_FORMAT_BC4_UNORM,
                    is_cubemap,
                    alpha_flags,
                    main_needs_dx10,
                    alpha_bytes,
                );
                push_u32_le(&mut w, #[verifier::truncate] (alpha_stream.len() as u32));
                push_all(&mut w, alpha_stream.as_slice());
                push_u32_le(&mut w, 0x646E4543);
                attached = true;
                proof {
                    assert(alpha_stream@ == dds_stream(
                        width,
                        height,
                        mip_count,
                        80,
                        is_cubemap,
                        cry_flags & 0x5u32,
                        main_needs_dx10,
                        alpha_bytes@,
                    ));
                    assert(w@ =~= main + le_bytes_u32(cext_word()) + le_bytes_u32(attc_word())
                        + le_bytes_u32(alpha_stream@.len() as u32) + alpha_stream@ + le_bytes_u32(
                        cend_word(),
                    ));
                }
            }
        }
        if !attached {
            push_u32_le(&mut w, 0x74784543);
            push_u32_le(&mut w, 0x646E4543);
            assert(w@ =~= main + le_bytes_u32(cext_word()) + le_bytes_u32(cend_word()));
        }
        w
    }
}

/// The bytes of concatenated word sequences are the concatenated bytes.
pub proof fn lemma_words_le_append(a: Seq<u32>, b: Seq<u32>)
    ensures
        words_le(a + b) == words_le(a) + words_le(b),
    decreases b.len(),
{
    if b.len() == 0 {
        assert(a + b =~= a);
        assert(words_le(b) =~= Seq::<u8>::empty());
        assert(words_le(a) + words_le(b) =~= words_le(a));
    } else {
        lemma_words_le_append(a, b.drop_last());
        assert((a + b).drop_last() =~= a + b.drop_last());
        assert((a + b).last() == b.last());
    }
}

/// The linear size in the header of a block-compressed texture is the
/// size its blocks take in storage: the number of 4x4 blocks across times
/// the number down times the bytes per block of its format (8 for BC1 and
/// BC4, 16 for BC2, BC3, BC5, BC6H and BC7), whatever its signedness or
/// colour space.
pub proof fn lemma_linear_size_is_storage_size(
    width: u32,
    height: u32,
    mip_count: u32,
    f: Format,
    is_signed: bool,
    is_srgb: bool,
    cry_flags: u32,
)
    requires
        f != Format::Ctx1,
        1 <= width,
        1 <= height,
        blocks_for(width as int) * blocks_for(height as int) * spec_bytes_per_block(f) <= u32::MAX,
    ensures
        header_main_words(width, height, mip_count, spec_dxgi_format(f, is_signed, is_srgb), cry_flags)[5]
            == blocks_for(width as int) * blocks_for(height as int) * spec_bytes_per_block(f),
{
    let fmt = spec_dxgi_format(f, is_signed, is_srgb);
    assert(!is_uncompressed(fmt));
    assert(dds_bytes_per_block(fmt) == spec_bytes_per_block(f));
    assert(blocks_of(width) == blocks_for(width as int));
    assert(blocks_of(height) == blocks_for(height as int));
}

} // verus!
