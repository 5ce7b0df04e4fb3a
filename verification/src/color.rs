//! RGB colors and their packed 32-bit pixel representation.

use vstd::prelude::*;

verus! {

/// An RGB color with one 8-bit value per channel.
#[derive(Clone, Copy, PartialEq, Eq, Structural, Debug)]
pub struct Color {
    pub r: u8,
    pub g: u8,
    pub b: u8,
}

/// The packed 32-bit pixel value of a color: red in bits 16..=23, green in
/// bits 8..=15, blue in bits 0..=7, and the high byte zero.
pub open spec fn packed(c: Color) -> u32 {
    ((c.r as u32) << 16) | ((c.g as u32) << 8) | (c.b as u32)
}

/// The color whose channels are the three low bytes of `p`; the high byte
/// of `p` is ignored.
pub open spec fn unpacked(p: u32) -> Color {
    Color { r: ((p >> 16) & 0xff) as u8, g: ((p >> 8) & 0xff) as u8, b: (p & 0xff) as u8 }
}

/// The color of a live cell when drawn.
pub open spec fn white() -> Color {
    Color { r: 255, g: 255, b: 255 }
}

/// The color of a dead cell when drawn, and the default background.
pub open spec fn black() -> Color {
    Color { r: 0, g: 0, b: 0 }
}

impl Color {
    pub fn new(r: u8, g: u8, b: u8) -> (c: Color)
        ensures
            c == (Color { r, g, b }),
    {
        Color { r, g, b }
    }

    /// The packed 32-bit representation of this color.
    pub fn to_packed(&self) -> (p: u32)
        ensures
            p == packed(*self),
    {
        ((self.r as u32) << 16) | ((self.g as u32) << 8) | (self.b as u32)
    }

    /// The color encoded in the three low bytes of a packed pixel value.
    pub fn from_packed(p: u32) -> (c: Color)
        ensures
            c == unpacked(p),
    {
        assert((p >> 16) & 0xff < 256 && (p >> 8) & 0xff < 256 && p & 0xff < 256) by (bit_vector);
        Color { r: ((p >> 16) & 0xff) as u8, g: ((p >> 8) & 0xff) as u8, b: (p & 0xff) as u8 }
    }
}

/// Packing a color and unpacking the result recovers every channel exactly.
pub proof fn lemma_pack_unpack(c: Color)
    ensures
        unpacked(packed(c)) == c,
{
    let r = c.r;
    let g = c.g;
    let b = c.b;
    let p = packed(c);
    assert((((r as u32) << 16 | (g as u32) << 8 | (b as u32)) >> 16) & 0xff == r as u32)
        by (bit_vector);
    assert((((r as u32) << 16 | (g as u32) << 8 | (b as u32)) >> 8) & 0xff == g as u32)
        by (bit_vector);
    assert(((r as u32) << 16 | (g as u32) << 8 | (b as u32)) & 0xff == b as u32) by (bit_vector);
    assert(unpacked(p).r == r && unpacked(p).g == g && unpacked(p).b == b);
}

} // verus!
