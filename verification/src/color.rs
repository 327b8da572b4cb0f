//! Packed RGBA colors.

use vstd::prelude::*;

verus! {

/// Text color, packed as `0xAARRGGBB`.
#[derive(Clone, Copy, Debug, PartialEq, Eq, Structural, Hash)]
pub struct Color(pub u32);

/// The packed value that holds the four given components.
pub open spec fn pack(r: u8, g: u8, b: u8, a: u8) -> u32 {
    ((a as u32) << 24) | ((r as u32) << 16) | ((g as u32) << 8) | (b as u32)
}

impl Color {
    /// The red component of the packed value.
    pub open spec fn red(self) -> u8 {
        ((self.0 & 0x00FF0000) >> 16) as u8
    }

    /// The green component of the packed value.
    pub open spec fn green(self) -> u8 {
        ((self.0 & 0x0000FF00) >> 8) as u8
    }

    /// The blue component of the packed value.
    pub open spec fn blue(self) -> u8 {
        (self.0 & 0x000000FF) as u8
    }

    /// The alpha component of the packed value.
    pub open spec fn alpha(self) -> u8 {
        ((self.0 & 0xFF000000) >> 24) as u8
    }

    /// Create new color with red, green, and blue components; it is opaque.
    #[inline]
    pub fn rgb(r: u8, g: u8, b: u8) -> (color: Self)
        ensures
            color.0 == pack(r, g, b, 0xFF),
            color.red() == r,
            color.green() == g,
            color.blue() == b,
            color.alpha() == 0xFF,
    {
        Self::rgba(r, g, b, 0xFF)
    }

    /// Create new color with red, green, blue, and alpha components.
    #[inline]
    pub fn rgba(r: u8, g: u8, b: u8, a: u8) -> (color: Self)
        ensures
            color.0 == pack(r, g, b, a),
            color.red() == r,
            color.green() == g,
            color.blue() == b,
            color.alpha() == a,
    {
        proof {
            lemma_components_of_pack(r, g, b, a);
        }
        Self(((a as u32) << 24) | ((r as u32) << 16) | ((g as u32) << 8) | (b as u32))
    }

    /// Get the red component.
    #[inline]
    pub fn r(&self) -> (v: u8)
        ensures
            v == self.red(),
    {
        ((self.0 & 0x00FF0000) >> 16) as u8
    }

    /// Get the green component.
    #[inline]
    pub fn g(&self) -> (v: u8)
        ensures
            v == self.green(),
    {
        ((self.0 & 0x0000FF00) >> 8) as u8
    }

    /// Get the blue component.
    #[inline]
    pub fn b(&self) -> (v: u8)
        ensures
            v == self.blue(),
    {
        (self.0 & 0x000000FF) as u8
    }

    /// Get the alpha component.
    #[inline]
    pub fn a(&self) -> (v: u8)
        ensures
            v == self.alpha(),
    {
        ((self.0 & 0xFF000000) >> 24) as u8
    }
}

/// Extracting the components of a packed value gives back what was packed.
pub proof fn lemma_components_of_pack(r: u8, g: u8, b: u8, a: u8)
    ensures
        Color(pack(r, g, b, a)).red() == r,
        Color(pack(r, g, b, a)).green() == g,
        Color(pack(r, g, b, a)).blue() == b,
        Color(pack(r, g, b, a)).alpha() == a,
{
    let p = ((a as u32) << 24) | ((r as u32) << 16) | ((g as u32) << 8) | (b as u32);
    assert(((p & 0x00FF0000) >> 16) as u8 == r) by (bit_vector)
        requires
            p == ((a as u32) << 24) | ((r as u32) << 16) | ((g as u32) << 8) | (b as u32),
    ;
    assert(((p & 0x0000FF00) >> 8) as u8 == g) by (bit_vector)
        requires
            p == ((a as u32) << 24) | ((r as u32) << 16) | ((g as u32) << 8) | (b as u32),
    ;
    assert((p & 0x000000FF) as u8 == b) by (bit_vector)
        requires
            p == ((a as u32) << 24) | ((r as u32) << 16) | ((g as u32) << 8) | (b as u32),
    ;
    assert(((p & 0xFF000000) >> 24) as u8 == a) by (bit_vector)
        requires
            p == ((a as u32) << 24) | ((r as u32) << 16) | ((g as u32) << 8) | (b as u32),
    ;
}

/// Packing the components of any color gives that color back.
pub proof fn lemma_pack_of_components(c: Color)
    ensures
        pack(c.red(), c.green(), c.blue(), c.alpha()) == c.0,
{
    let p = c.0;
    assert(((((p & 0xFF000000) >> 24) as u8 as u32) << 24) | ((((p & 0x00FF0000) >> 16) as u8
        as u32) << 16) | ((((p & 0x0000FF00) >> 8) as u8 as u32) << 8) | ((p & 0x000000FF) as u8
        as u32) == p) by (bit_vector);
}

} // verus!
