//! A 24-bit RGB color with an alpha channel, as carried by the wire protocol.

use vstd::prelude::*;

verus! {

/// A color in the sRGB color space, one byte per channel.
#[derive(Debug, Clone, Copy, PartialEq, Eq, Structural)]
pub struct Color {
    /// The red color component.
    pub r: u8,
    /// The green color component.
    pub g: u8,
    /// The blue color component.
    pub b: u8,
    /// The alpha color component.
    pub a: u8,
}

impl Color {
    /// Builds a [`Color`] from its four raw channels.
    pub fn from_rgba(r: u8, g: u8, b: u8, a: u8) -> (c: Color)
        ensures
            c == (Color { r, g, b, a }),
    {
        Color { r, g, b, a }
    }

    /// Builds a [`Color`] from a packed RGBA representation (`0xRRGGBBAA`).
    pub fn from_rgba_u64(color: u64) -> (c: Color)
        ensures
            c.r == ((color >> 24) & 0xFF) as u8,
            c.g == ((color >> 16) & 0xFF) as u8,
            c.b == ((color >> 8) & 0xFF) as u8,
            c.a == (color & 0xFF) as u8,
    {
        let r = ((color >> 24) & 0xFF) as u8;
        let g = ((color >> 16) & 0xFF) as u8;
        let b = ((color >> 8) & 0xFF) as u8;
        let a = (color & 0xFF) as u8;

        Color { r, g, b, a }
    }

    /// Builds a [`Color`] from a packed 24-bit RGB representation
    /// (`0xRRGGBB`), with an opaque alpha channel.
    pub fn from_rgb_u64(color: u64) -> (c: Color)
        ensures
            c.r == ((color >> 16) & 0xFF) as u8,
            c.g == ((color >> 8) & 0xFF) as u8,
            c.b == (color & 0xFF) as u8,
            c.a == 0xFF,
    {
        let r = ((color >> 16) & 0xFF) as u8;
        let g = ((color >> 8) & 0xFF) as u8;
        let b = (color & 0xFF) as u8;

        Color { r, g, b, a: 0xFF }
    }

    /// Builds a [`Color`] from its three raw RGB channels, opaque.
    pub fn from_rgb(r: u8, g: u8, b: u8) -> (c: Color)
        ensures
            c == (Color { r, g, b, a: 0xFF }),
    {
        Color { r, g, b, a: 0xFF }
    }

    /// The color's four channels as `[red, green, blue, alpha]`.
    pub fn to_rgba(self) -> (raw: [u8; 4])
        ensures
            raw@ == seq![self.r, self.g, self.b, self.a],
    {
        let raw = [self.r, self.g, self.b, self.a];
        proof {
            assert(raw@ =~= seq![self.r, self.g, self.b, self.a]);
        }
        raw
    }
}

} // verus!
