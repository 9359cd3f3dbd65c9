use vstd::prelude::*;
use crate::fixed::FX_ONE;

verus! {

/// Packs three 8-bit channels into one `0x00RRGGBB` word.
pub open spec fn pack_spec(r: int, g: int, b: int) -> int {
    r * 0x10000 + g * 0x100 + b
}

/// An RGB color with 8-bit channels.
#[derive(Clone, Copy, PartialEq, Eq, Structural, Debug)]
pub struct Color {
    pub r: u8,
    pub g: u8,
    pub b: u8,
}

impl Color {
    pub fn new(r: u8, g: u8, b: u8) -> (c: Color)
        ensures
            c == (Color { r, g, b }),
    {
        Color { r, g, b }
    }

    /// The packed `0x00RRGGBB` representation of this color.
    pub fn to_packed(&self) -> (p: u32)
        ensures
            p == pack_spec(self.r as int, self.g as int, self.b as int),
    {
        (self.r as u32) * 0x10000 + (self.g as u32) * 0x100 + (self.b as u32)
    }

    /// Channel-wise scaling by a light intensity in `[0, FX_ONE]`:
    /// each channel becomes `channel * intensity / FX_ONE`.
    pub fn scaled(&self, intensity: i64) -> (c: Color)
        requires
            0 <= intensity <= FX_ONE,
        ensures
            c.r == self.r * intensity / (FX_ONE as int),
            c.g == self.g * intensity / (FX_ONE as int),
            c.b == self.b * intensity / (FX_ONE as int),
    {
        proof {
            assert(0 <= self.r * intensity <= 261120 && 0 <= self.g * intensity <= 261120 && 0
                <= self.b * intensity <= 261120) by (nonlinear_arith)
                requires
                    0 <= intensity <= 1024,
                    0 <= self.r <= 255,
                    0 <= self.g <= 255,
                    0 <= self.b <= 255,
            ;
        }
        let r: i64 = crate::fixed::div_floor((self.r as i64) * intensity, FX_ONE);
        let g: i64 = crate::fixed::div_floor((self.g as i64) * intensity, FX_ONE);
        let b: i64 = crate::fixed::div_floor((self.b as i64) * intensity, FX_ONE);
        Color { r: r as u8, g: g as u8, b: b as u8 }
    }
}

} // verus!
