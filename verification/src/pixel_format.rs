//! The engine's texture pixel formats, as far as the compiler selects them,
//! and their block-compression counterparts.

use vstd::prelude::*;
use crate::flags::Format;

verus! {

/// Engine pixel formats.
#[derive(Debug, Clone, Copy, PartialEq, Eq, Structural)]
pub enum EPixelFormat {
    A8R8G8B8,
    X8R8G8B8,
    R8G8B8,
    BC1,
    BC1a,
    BC2,
    BC2t,
    BC3,
    BC3t,
    BC4,
    BC4s,
    BC5,
    BC5s,
    BC6UH,
    BC7,
    BC7t,
    CTX1,
}

/// The block format an engine format is compressed to, and whether that
/// format's data is signed; uncompressed formats fall back to BC7.
pub open spec fn engine_format_to_tf(fmt: EPixelFormat) -> (Format, bool) {
    match fmt {
        EPixelFormat::BC1 | EPixelFormat::BC1a => (Format::Bc1, false),
        EPixelFormat::BC2 | EPixelFormat::BC2t => (Format::Bc2, false),
        EPixelFormat::BC3 | EPixelFormat::BC3t => (Format::Bc3, false),
        EPixelFormat::BC4 => (Format::Bc4, false),
        EPixelFormat::BC4s => (Format::Bc4, true),
        EPixelFormat::BC5 => (Format::Bc5, false),
        EPixelFormat::BC5s => (Format::Bc5, true),
        EPixelFormat::BC6UH => (Format::Bc6h, false),
        EPixelFormat::BC7 | EPixelFormat::BC7t => (Format::Bc7, false),
        EPixelFormat::CTX1 => (Format::Ctx1, false),
        _ => (Format::Bc7, false),
    }
}

/// The block format and signedness for an engine format.
pub fn map_engine_format_to_tf(fmt: EPixelFormat) -> (r: (Format, bool))
    ensures
        r == engine_format_to_tf(fmt),
{
    match fmt {
        EPixelFormat::BC1 | EPixelFormat::BC1a => (Format::Bc1, false),
        EPixelFormat::BC2 | EPixelFormat::BC2t => (Format::Bc2, false),
        EPixelFormat::BC3 | EPixelFormat::BC3t => (Format::Bc3, false),
        EPixelFormat::BC4 => (Format::Bc4, false),
        EPixelFormat::BC4s => (Format::Bc4, true),
        EPixelFormat::BC5 => (Format::Bc5, false),
        EPixelFormat::BC5s => (Format::Bc5, true),
        EPixelFormat::BC6UH => (Format::Bc6h, false),
        EPixelFormat::BC7 | EPixelFormat::BC7t => (Format::Bc7, false),
        EPixelFormat::CTX1 => (Format::Ctx1, false),
        _ => (Format::Bc7, false),
    }
}

} // verus!
