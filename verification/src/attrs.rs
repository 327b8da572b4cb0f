//! Text attributes: the style that a run of text is shaped and drawn with.

use crate::color::Color;
use vstd::prelude::*;
use vstd::std_specs::cmp::PartialEqSpecImpl;
use vstd::string::StringSliceAdditionalSpecFns;
use vstd::utf8::*;

verus! {

/// A font family: a named one or one of the generic families.
#[derive(Clone, Copy, Debug, Hash)]
pub enum Family<'a> {
    /// The name of a font family of choice.
    Name(&'a str),
    /// The formal text style for a script.
    Serif,
    /// Low contrast, with plain stroke endings.
    SansSerif,
    /// An informal style, like handwriting.
    Cursive,
    /// Decorative or expressive.
    Fantasy,
    /// All glyphs have the same fixed width.
    Monospace,
}

/// What a [`Family`] stands for: a named family is known by the characters of its name.
pub ghost enum FamilyView {
    Name(Seq<char>),
    Serif,
    SansSerif,
    Cursive,
    Fantasy,
    Monospace,
}

impl<'a> View for Family<'a> {
    type V = FamilyView;

    open spec fn view(&self) -> FamilyView {
        match *self {
            Family::Name(name) => FamilyView::Name(name@),
            Family::Serif => FamilyView::Serif,
            Family::SansSerif => FamilyView::SansSerif,
            Family::Cursive => FamilyView::Cursive,
            Family::Fantasy => FamilyView::Fantasy,
            Family::Monospace => FamilyView::Monospace,
        }
    }
}

/// Tells whether two strings hold the same characters.
pub fn str_eq(a: &str, b: &str) -> (same: bool)
    ensures
        same == (a@ == b@),
{
    let x = a.as_bytes();
    let y = b.as_bytes();
    proof {
        encode_utf8_decode_utf8(a@);
        encode_utf8_decode_utf8(b@);
    }
    if x.len() != y.len() {
        return false;
    }
    let n = x.len();
    let mut i: usize = 0;
    while i < n
        invariant
            i <= n,
            n == x@.len(),
            n == y@.len(),
            x@ == a.spec_bytes(),
            y@ == b.spec_bytes(),
            decode_utf8(encode_utf8(a@)) == a@,
            decode_utf8(encode_utf8(b@)) == b@,
            forall|k: int| 0 <= k < i ==> x@[k] == y@[k],
        decreases n - i,
    {
        if x[i] != y[i] {
            return false;
        }
        i += 1;
    }
    assert(x@ =~= y@);
    true
}

impl<'a> PartialEq for Family<'a> {
    fn eq(&self, other: &Self) -> (same: bool) {
        match (*self, *other) {
            (Family::Name(a), Family::Name(b)) => str_eq(a, b),
            (Family::Serif, Family::Serif) => true,
            (Family::SansSerif, Family::SansSerif) => true,
            (Family::Cursive, Family::Cursive) => true,
            (Family::Fantasy, Family::Fantasy) => true,
            (Family::Monospace, Family::Monospace) => true,
            _ => false,
        }
    }
}

impl<'a> PartialEqSpecImpl for Family<'a> {
    open spec fn obeys_eq_spec() -> bool {
        true
    }

    open spec fn eq_spec(&self, other: &Self) -> bool {
        self@ == other@
    }
}

impl<'a> Eq for Family<'a> {

}

/// A face width, from the most condensed to the most expanded.
#[derive(Clone, Copy, Debug, PartialEq, Eq, Structural, Hash)]
pub enum Stretch {
    UltraCondensed,
    ExtraCondensed,
    Condensed,
    SemiCondensed,
    Normal,
    SemiExpanded,
    Expanded,
    ExtraExpanded,
    UltraExpanded,
}

/// Allows italic or oblique faces to be selected.
#[derive(Clone, Copy, Debug, PartialEq, Eq, Structural, Hash)]
pub enum Style {
    /// A face that is neither italic nor obliqued.
    Normal,
    /// A form that is generally cursive in nature.
    Italic,
    /// A typically sloped version of the regular face.
    Oblique,
}

/// The degree of blackness or stroke thickness of a font, from 100 to 900.
#[derive(Clone, Copy, Debug, PartialEq, Eq, Structural, Hash)]
pub struct Weight(pub u16);

impl Weight {
    /// Normal weight (400).
    pub fn normal() -> (weight: Weight)
        ensures
            weight == Weight(400),
    {
        Weight(400)
    }

    /// Bold weight (700).
    pub fn bold() -> (weight: Weight)
        ensures
            weight == Weight(700),
    {
        Weight(700)
    }
}

/// What attribute matching reads of a font face.
#[derive(Clone, Debug)]
pub struct FaceInfo {
    /// The PostScript name of the face.
    pub post_script_name: String,
    /// The style of the face.
    pub style: Style,
    /// The weight of the face.
    pub weight: Weight,
    /// The stretch of the face.
    pub stretch: Stretch,
    /// True for a monospaced face.
    pub monospaced: bool,
}

/// True when `needle` occurs in `hay`: the bytes that encode `needle` stand
/// somewhere in a row among the bytes that encode `hay`.
pub open spec fn has_substring(hay: Seq<char>, needle: Seq<char>) -> bool {
    exists|i: int|
        0 <= i && i + byte_count(needle) <= byte_count(hay) && #[trigger] encode_utf8(
            hay,
        ).subrange(i, i + byte_count(needle)) == encode_utf8(needle)
}

/// The number of bytes that encode `text`.
pub open spec fn byte_count(text: Seq<char>) -> int {
    encode_utf8(text).len() as int
}

/// Tells whether `needle` occurs in `hay`.
pub fn contains_text(hay: &str, needle: &str) -> (found: bool)
    ensures
        found == has_substring(hay@, needle@),
{
    let h = hay.as_bytes();
    let n = needle.as_bytes();
    let len = n.len();
    if len > h.len() {
        return false;
    }
    let size = h.len();
    let last = size - len;
    let mut i: usize = 0;
    while i <= last
        invariant
            i <= last + 1,
            size == h@.len(),
            len == n@.len(),
            last == h@.len() - len,
            h@ == encode_utf8(hay@),
            n@ == encode_utf8(needle@),
            forall|j: int| 0 <= j < i ==> #[trigger] h@.subrange(j, j + len) != n@,
        decreases last + 1 - i,
    {
        let mut k: usize = 0;
        while k < len && h[i + k] == n[k]
            invariant
                k <= len,
                len == n@.len(),
                size == h@.len(),
                i + len <= size,
                forall|m: int| 0 <= m < k ==> h@[i + m] == n@[m],
            decreases len - k,
        {
            k += 1;
        }
        if k == len {
            assert(h@.subrange(i as int, i + len) =~= n@);
            assert(encode_utf8(hay@).subrange(i as int, i + byte_count(needle@)) == encode_utf8(
                needle@,
            ));
            return true;
        }
        assert(h@.subrange(i as int, i + len)[k as int] != n@[k as int]);
        i += 1;
    }
    false
}

/// Text attributes.
#[derive(Clone, Copy, Debug, Hash)]
pub struct Attrs<'a> {
    /// The color to draw with, where the default color is not wanted.
    pub color_opt: Option<Color>,
    /// The font family.
    pub family: Family<'a>,
    /// True to ask for a monospaced face.
    pub monospaced: bool,
    /// The face width.
    pub stretch: Stretch,
    /// The face style.
    pub style: Style,
    /// The face weight.
    pub weight: Weight,
}

/// What an [`Attrs`] stands for; two attribute sets are equal when these are.
pub ghost struct AttrsView {
    pub color_opt: Option<Color>,
    pub family: FamilyView,
    pub monospaced: bool,
    pub stretch: Stretch,
    pub style: Style,
    pub weight: Weight,
}

impl<'a> View for Attrs<'a> {
    type V = AttrsView;

    open spec fn view(&self) -> AttrsView {
        AttrsView {
            color_opt: self.color_opt,
            family: self.family@,
            monospaced: self.monospaced,
            stretch: self.stretch,
            style: self.style,
            weight: self.weight,
        }
    }
}

impl<'a> PartialEq for Attrs<'a> {
    fn eq(&self, other: &Self) -> (same: bool) {
        let same_color = match (self.color_opt, other.color_opt) {
            (Some(a), Some(b)) => a == b,
            (None, None) => true,
            _ => false,
        };
        same_color && self.family == other.family && self.monospaced == other.monospaced
            && self.stretch == other.stretch && self.style == other.style && self.weight
            == other.weight
    }
}

impl<'a> PartialEqSpecImpl for Attrs<'a> {
    open spec fn obeys_eq_spec() -> bool {
        true
    }

    open spec fn eq_spec(&self, other: &Self) -> bool {
        self@ == other@
    }
}

impl<'a> Eq for Attrs<'a> {

}

impl<'a> Attrs<'a> {
    /// The attributes of a regular sans-serif font in the default color.
    pub open spec fn initial() -> AttrsView {
        AttrsView {
            color_opt: None,
            family: FamilyView::SansSerif,
            monospaced: false,
            stretch: Stretch::Normal,
            style: Style::Normal,
            weight: Weight(400),
        }
    }

    /// True when the given face answers these attributes:
    /// any face whose PostScript name holds "Emoji", and otherwise a face of
    /// the same style, weight, stretch and spacing.
    pub open spec fn matches_face(self, face: FaceInfo) -> bool {
        has_substring(face.post_script_name@, "Emoji"@) || (face.style == self.style
            && face.weight == self.weight && face.stretch == self.stretch && face.monospaced
            == self.monospaced)
    }

    /// True when text with these attributes can be shaped together with text
    /// with the other ones: all but the color are the same.
    pub open spec fn compatible_with(self, other: Self) -> bool {
        self.family@ == other.family@ && self.monospaced == other.monospaced && self.stretch
            == other.stretch && self.style == other.style && self.weight == other.weight
    }

    /// Create a new set of attributes with sane defaults
    ///
    /// This defaults to a regular Sans-Serif font.
    pub fn new() -> (attrs: Self)
        ensures
            attrs@ == Self::initial(),
    {
        Self {
            color_opt: None,
            family: Family::SansSerif,
            monospaced: false,
            stretch: Stretch::Normal,
            style: Style::Normal,
            weight: Weight::normal(),
        }
    }

    /// Set [Color]
    pub fn color(self, color: Color) -> (attrs: Self)
        ensures
            attrs == (Attrs { color_opt: Some(color), ..self }),
    {
        let mut attrs = self;
        attrs.color_opt = Some(color);
        attrs
    }

    /// Set [Family]
    pub fn family(self, family: Family<'a>) -> (attrs: Self)
        ensures
            attrs == (Attrs { family, ..self }),
    {
        let mut attrs = self;
        attrs.family = family;
        attrs
    }

    /// Set monospaced
    pub fn monospaced(self, monospaced: bool) -> (attrs: Self)
        ensures
            attrs == (Attrs { monospaced, ..self }),
    {
        let mut attrs = self;
        attrs.monospaced = monospaced;
        attrs
    }

    /// Set [Stretch]
    pub fn stretch(self, stretch: Stretch) -> (attrs: Self)
        ensures
            attrs == (Attrs { stretch, ..self }),
    {
        let mut attrs = self;
        attrs.stretch = stretch;
        attrs
    }

    /// Set [Style]
    pub fn style(self, style: Style) -> (attrs: Self)
        ensures
            attrs == (Attrs { style, ..self }),
    {
        let mut attrs = self;
        attrs.style = style;
        attrs
    }

    /// Set [Weight]
    pub fn weight(self, weight: Weight) -> (attrs: Self)
        ensures
            attrs == (Attrs { weight, ..self }),
    {
        let mut attrs = self;
        attrs.weight = weight;
        attrs
    }

    /// Check if font matches
    pub fn matches(&self, face: &FaceInfo) -> (found: bool)
        ensures
            found == self.matches_face(*face),
    {
        contains_text(face.post_script_name.as_str(), "Emoji") || (face.style == self.style
            && face.weight == self.weight && face.stretch == self.stretch && face.monospaced
            == self.monospaced)
    }

    /// Check if this set of attributes can be shaped with another
    pub fn compatible(&self, other: &Self) -> (found: bool)
        ensures
            found == self.compatible_with(*other),
    {
        self.family == other.family && self.monospaced == other.monospaced && self.stretch
            == other.stretch && self.style == other.style && self.weight == other.weight
    }
}

} // verus!
