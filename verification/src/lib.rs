//! Incremental text layout and cursor addressing for multi-line text.
//!
//! A [`TextBuffer`] owns the paragraphs of a document, shapes and lays out
//! only what the viewport needs, and keeps a byte-accurate cursor on grapheme
//! cluster boundaries while the text is edited, scrolled and hit-tested.

pub mod action;
pub mod attrs;
pub mod attrs_list;
pub mod buffer;
pub mod color;
pub mod cursor;
pub mod draw;
pub mod hit;
pub mod layout;
pub mod line;
pub mod runs;
pub mod text;

pub use action::TextAction;
pub use attrs::{Attrs, FaceInfo, Family, Stretch, Style, Weight};
pub use attrs_list::AttrsList;
pub use buffer::{TextBuffer, TextCursor, TextError, TextMetrics};
pub use color::Color;
pub use cursor::TextLayoutCursor;
pub use draw::{FillRect, GlyphCache, Pixel};
pub use layout::{CacheKey, LayoutGlyph, LayoutLine, ShapeLine, Shaper};
pub use line::TextBufferLine;
pub use runs::{TextLayoutRun, TextLayoutRunIter};
