//! What shaping and layout produce, and the interface of the shaper that
//! produces it.

use crate::attrs_list::AttrsList;
use crate::color::Color;
use vstd::prelude::*;

verus! {

/// Key for finding the image or outline of a glyph in a rasterization cache.
/// The layout engine hands it on and never looks inside.
#[derive(Clone, Copy, Debug, PartialEq, Eq, Structural, Hash)]
pub struct CacheKey {
    /// The font that the glyph comes from.
    pub font_id: u64,
    /// The glyph within the font.
    pub glyph_id: u16,
    /// The font size in pixels.
    pub font_size: i32,
    /// The horizontal subpixel offset, in quarters of a pixel.
    pub x_bin: u8,
    /// The vertical subpixel offset, in quarters of a pixel.
    pub y_bin: u8,
}

/// A positioned glyph of a visual row.
#[derive(Clone, Copy, Debug, PartialEq, Eq)]
pub struct LayoutGlyph {
    /// Byte offset into the line's text at which the glyph's cluster starts.
    pub start: usize,
    /// Byte offset into the line's text at which the glyph's cluster ends.
    pub end: usize,
    /// Left edge of the advance box, in pixels.
    pub x: i32,
    /// Width of the advance box, in pixels.
    pub w: i32,
    /// True if the glyph belongs to a right-to-left run.
    pub rtl: bool,
    /// Key for the rasterization cache.
    pub cache_key: CacheKey,
    /// Horizontal pixel offset at which the glyph's image is placed.
    pub x_int: i32,
    /// Vertical pixel offset at which the glyph's image is placed, from the baseline.
    pub y_int: i32,
    /// The color of the glyph, where it is not the default color.
    pub color_opt: Option<Color>,
}

/// A visual row: the glyphs of one wrapped line, from left to right.
#[derive(Debug)]
pub struct LayoutLine {
    /// The glyphs of the row.
    pub glyphs: Vec<LayoutGlyph>,
}

/// What shaping a line tells the layout engine.
#[derive(Clone, Copy, Debug, PartialEq, Eq, Structural)]
pub struct ShapeLine {
    /// True if the paragraph direction is right-to-left.
    pub rtl: bool,
}

/// Shapes lines and breaks them into visual rows.
///
/// The engine assumes nothing of what a shaper returns: rows may be missing,
/// and glyphs may name any byte offsets.
pub trait Shaper {
    /// Shapes a line of text with its attributes.
    fn shape(&self, text: &str, attrs_list: &AttrsList<'_>) -> ShapeLine;

    /// Breaks a shaped line into visual rows for a font size and a width in pixels.
    fn layout(
        &self,
        text: &str,
        attrs_list: &AttrsList<'_>,
        shape: &ShapeLine,
        font_size: i32,
        width: i32,
    ) -> Vec<LayoutLine>;
}

} // verus!
