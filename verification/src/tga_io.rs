//! Uncompressed 32-bit TGA images.

use vstd::prelude::*;
use crate::byteio::{le_bytes_u16, push_all, push_u16_le};

verus! {

/// The bytes of a 32-bit, top-to-bottom, uncompressed true-colour TGA with
/// BGRA pixels `bgra`: an 18-byte header, then the pixels.
pub open spec fn tga_bytes(width: u16, height: u16, bgra: Seq<u8>) -> Seq<u8> {
    seq![0u8, 0u8, 2u8, 0u8, 0u8, 0u8, 0u8, 0u8] + le_bytes_u16(0) + le_bytes_u16(0) + le_bytes_u16(
        width,
    ) + le_bytes_u16(height) + seq![32u8, 40u8] + bgra
}

/// TGA writing.
pub struct TgaIO;

impl TgaIO {
    /// The bytes of a 32-bit TGA file with 8 alpha bits, rows top to bottom.
    pub fn build_tga_32bpp(width: u16, height: u16, bgra_pixels: &[u8]) -> (r: Vec<u8>)
        ensures
            r@ == tga_bytes(width, height, bgra_pixels@),
    {
        let mut w: Vec<u8> = Vec::new();
        w.push(0);
        w.push(0);
        w.push(2);
        w.push(0);
        w.push(0);
        w.push(0);
        w.push(0);
        w.push(0);
        push_u16_le(&mut w, 0);
        push_u16_le(&mut w, 0);
        push_u16_le(&mut w, width);
        push_u16_le(&mut w, height);
        w.push(32);
        // 8 alpha bits, rows top to bottom (bit 5).
        w.push(40);
        push_all(&mut w, bgra_pixels);
        assert(w@ =~= tga_bytes(width, height, bgra_pixels@));
        w
    }
}

} // verus!
