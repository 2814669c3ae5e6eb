//! Sticker colors.
use vstd::prelude::*;

verus! {

/// An RGB color.
#[derive(Debug, Clone, Copy, PartialEq, Eq, Structural)]
pub struct Color {
    pub r: u8,
    pub g: u8,
    pub b: u8,
}

impl Color {
    /// The color written as `0xRRGGBB`; bits above the lowest 24 are ignored.
    pub fn hex(color: u32) -> (r: Color)
        ensures
            r.r == (color / 0x10000) % 0x100,
            r.g == (color / 0x100) % 0x100,
            r.b == color % 0x100,
    {
        let r = (color >> 16u32) & 0xffu32;
        let g = (color >> 8u32) & 0xffu32;
        let b = color & 0xffu32;
        assert(r == (color / 0x10000) % 0x100 && r < 0x100) by (bit_vector)
            requires
                r == (color >> 16u32) & 0xffu32,
        ;
        assert(g == (color / 0x100) % 0x100 && g < 0x100) by (bit_vector)
            requires
                g == (color >> 8u32) & 0xffu32,
        ;
        assert(b == color % 0x100 && b < 0x100) by (bit_vector)
            requires
                b == color & 0xffu32,
        ;
        Color { r: r as u8, g: g as u8, b: b as u8 }
    }

    /// The three channels, red first.
    pub fn as_array(&self) -> (r: [u8; 3])
        ensures
            r@ == seq![self.r, self.g, self.b],
    {
        let r = [self.r, self.g, self.b];
        assert(r@ =~= seq![self.r, self.g, self.b]);
        r
    }

    /// Mutable access to the three channels, red first.
    pub fn as_mut_array(&mut self) -> (r: [&mut u8; 3])
        ensures
            *r[0] == old(self).r,
            *r[1] == old(self).g,
            *r[2] == old(self).b,
            final(self).r == *final(r[0]),
            final(self).g == *final(r[1]),
            final(self).b == *final(r[2]),
    {
        [&mut self.r, &mut self.g, &mut self.b]
    }

    /// The color with the channels of `val`, red first.
    pub fn from_array(val: [u8; 3]) -> (r: Color)
        ensures
            r.r == val@[0],
            r.g == val@[1],
            r.b == val@[2],
    {
        Color { r: val[0], g: val[1], b: val[2] }
    }
}

} // verus!
