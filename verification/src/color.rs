//! Colours and theme references.
//!
//! A colour is held either as a literal or as a theme token plus a transform, so that
//! changing a theme palette propagates to every slide that references it.
//!
//! The transform's factors are `f32` values in the document; this library never computes
//! with them and carries each one as its IEEE-754 bit pattern (`f32::to_bits`).

use vstd::prelude::*;

verus! {

#[derive(Clone, Copy, Debug, PartialEq, Eq, Structural)]
pub struct Rgba {
    pub r: u8,
    pub g: u8,
    pub b: u8,
    pub a: u8,
}

impl Rgba {
    /// An opaque colour.
    pub fn rgb(r: u8, g: u8, b: u8) -> (c: Self)
        ensures
            c == (Rgba { r, g, b, a: 255 }),
    {
        Rgba { r, g, b, a: 255 }
    }

    pub fn rgba(r: u8, g: u8, b: u8, a: u8) -> (c: Self)
        ensures
            c == (Rgba { r, g, b, a }),
    {
        Rgba { r, g, b, a }
    }

    pub fn black() -> (c: Self)
        ensures
            c == (Rgba { r: 0, g: 0, b: 0, a: 255 }),
    {
        Rgba::rgb(0, 0, 0)
    }

    pub fn white() -> (c: Self)
        ensures
            c == (Rgba { r: 255, g: 255, b: 255, a: 255 }),
    {
        Rgba::rgb(255, 255, 255)
    }

    pub fn transparent() -> (c: Self)
        ensures
            c == (Rgba { r: 0, g: 0, b: 0, a: 0 }),
    {
        Rgba::rgba(0, 0, 0, 0)
    }
}

/// The twelve tokens of an OOXML colour scheme.
#[derive(Clone, Copy, Debug, PartialEq, Eq, Structural)]
pub enum ThemeColorToken {
    Dk1,
    Lt1,
    Dk2,
    Lt2,
    Accent1,
    Accent2,
    Accent3,
    Accent4,
    Accent5,
    Accent6,
    Hlink,
    FolHlink,
}

/// Transform applied to a theme colour (luminance modulation/offset, tint, shade, alpha).
/// `None` is the identity; each present factor is the bit pattern of an `f32` in `0..=1`.
#[derive(Clone, Copy, Debug, Default, PartialEq, Eq, Structural)]
pub struct ColorXf {
    pub lum_mod: Option<u32>,
    pub lum_off: Option<u32>,
    pub tint: Option<u32>,
    pub shade: Option<u32>,
    pub alpha: Option<u32>,
}

impl ColorXf {
    pub open spec fn is_identity(self) -> bool {
        &&& self.lum_mod is None
        &&& self.lum_off is None
        &&& self.tint is None
        &&& self.shade is None
        &&& self.alpha is None
    }

    /// The identity transform.
    pub fn identity() -> (x: Self)
        ensures
            x.is_identity(),
    {
        ColorXf { lum_mod: None, lum_off: None, tint: None, shade: None, alpha: None }
    }
}

/// A colour held by shapes and runs. `Theme` is resolved through the master's theme.
#[derive(Clone, Copy, Debug, PartialEq, Eq, Structural)]
pub enum Color {
    Literal(Rgba),
    Theme { token: ThemeColorToken, xf: ColorXf },
}

impl Color {
    pub fn literal(c: Rgba) -> (r: Self)
        ensures
            r == Color::Literal(c),
    {
        Color::Literal(c)
    }

    /// A reference to a theme token with the identity transform.
    pub fn theme(token: ThemeColorToken) -> (r: Self)
        ensures
            r matches Color::Theme { token: t, xf } && t == token && xf.is_identity(),
    {
        Color::Theme { token, xf: ColorXf::identity() }
    }
}

/// The colour packed as `0xRRGGBB` (alpha dropped).
pub fn rgb_u32(c: Rgba) -> (v: u32)
    ensures
        v == c.r * 65536 + c.g * 256 + c.b,
{
    let r = c.r as u32;
    let g = c.g as u32;
    let b = c.b as u32;
    assert((r << 16) | (g << 8) | b == r * 65536 + g * 256 + b) by (bit_vector)
        requires
            r < 256,
            g < 256,
            b < 256,
    ;
    (r << 16) | (g << 8) | b
}

} // verus!
