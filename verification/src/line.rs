//! One line (paragraph) of a buffer: its text, its attributes, and the cached
//! results of shaping and layout.

use crate::attrs_list::{span_of, span_views, AttrsList, AttrsListView, Span};
use crate::layout::{LayoutLine, ShapeLine, Shaper};
use crate::text::{
    byte_len, join_text, lemma_split_join, on_char_boundary, split_text, text_before, text_from,
    text_len,
};
use std::ops::Range;
use vstd::prelude::*;

verus! {

/// What a [`TextBufferLine`] stands for.
pub ghost struct LineView {
    /// The characters of the line.
    pub text: Seq<char>,
    /// The attributes of the line.
    pub attrs: AttrsListView,
    /// The result of shaping, once the line is shaped.
    pub shape: Option<ShapeLine>,
    /// The visual rows, once the line is laid out.
    pub layout: Option<Seq<LayoutLine>>,
}

/// The list `list` after each of `spans` was added to it in order, moved
/// `shift` bytes to the right.
pub open spec fn add_shifted(list: AttrsListView, spans: Seq<Span>, shift: int) -> AttrsListView
    decreases spans.len(),
{
    if spans.len() == 0 {
        list
    } else {
        add_shifted(list, spans.drop_last(), shift).add(
            spans.last().start + shift,
            spans.last().end + shift,
            spans.last().attrs,
        )
    }
}

/// The attributes of a line of `len` bytes after a line of `other_len` bytes
/// was appended to it: where the defaults differ, the appended bytes get a span
/// with the appended line's defaults; then the appended line's spans follow.
pub open spec fn appended_attrs(
    list: AttrsListView,
    len: int,
    other: AttrsListView,
    other_len: int,
) -> AttrsListView {
    let base = if other.defaults != list.defaults {
        list.add(len, len + other_len, other.defaults)
    } else {
        list
    };
    add_shifted(base, other.spans, len)
}

impl LineView {
    /// True when the text fits in memory and all attribute spans lie within it.
    pub open spec fn wf(self) -> bool {
        byte_len(self.text) <= usize::MAX && self.attrs.within(byte_len(self.text) as int)
    }

    /// The visual rows of the line; none before it is laid out.
    pub open spec fn visual_rows(self) -> Seq<LayoutLine> {
        match self.layout {
            Some(layout) => layout,
            None => Seq::empty(),
        }
    }

    /// True when this is the line `old` after it was laid out anew, if it
    /// was shaped: text, attributes and shape are the same; a shaped line is
    /// laid out, and a line without shape is unchanged.
    pub open spec fn relaid_from(self, old: LineView) -> bool {
        &&& self.text == old.text
        &&& self.attrs == old.attrs
        &&& self.shape == old.shape
        &&& old.shape is Some ==> self.layout is Some
        &&& old.shape is None ==> self == old
    }

    /// The number of visual rows, once the line is laid out.
    pub open spec fn rows(self) -> int {
        match self.layout {
            Some(layout) => layout.len() as int,
            None => 0,
        }
    }

    /// True when the line is shaped and laid out.
    pub open spec fn ready(self) -> bool {
        self.shape is Some && self.layout is Some
    }

    /// True when this is the line `old` after it was shaped or laid out: text
    /// and attributes are the same, a shape that was there is kept, and a line
    /// that was shaped and laid out is unchanged.
    pub open spec fn shaped_from(self, old: LineView) -> bool {
        &&& self.text == old.text
        &&& self.attrs == old.attrs
        &&& old.shape is Some ==> self.shape == old.shape
        &&& old.ready() ==> self == old
    }

    /// The line with neither shape nor layout.
    pub open spec fn unshaped(self) -> LineView {
        LineView { shape: None, layout: None, ..self }
    }

    /// The line that is left when this one is cut at byte offset `index`.
    pub open spec fn head(self, index: int) -> LineView {
        LineView {
            text: text_before(self.text, index),
            attrs: self.attrs.kept(index),
            shape: None,
            layout: None,
        }
    }

    /// The line that is split off when this one is cut at byte offset `index`.
    pub open spec fn tail(self, index: int) -> LineView {
        LineView {
            text: text_from(self.text, index),
            attrs: self.attrs.moved(index),
            shape: None,
            layout: None,
        }
    }

    /// This line with `other` appended to it.
    pub open spec fn joined(self, other: LineView) -> LineView {
        LineView {
            text: self.text + other.text,
            attrs: appended_attrs(
                self.attrs,
                byte_len(self.text) as int,
                other.attrs,
                byte_len(other.text) as int,
            ),
            shape: None,
            layout: None,
        }
    }
}

/// A line (or paragraph) of text that is shaped and laid out
pub struct TextBufferLine<'a> {
    text: String,
    attrs_list: AttrsList<'a>,
    shape_opt: Option<ShapeLine>,
    layout_opt: Option<Vec<LayoutLine>>,
}

impl<'a> View for TextBufferLine<'a> {
    type V = LineView;

    closed spec fn view(&self) -> LineView {
        LineView {
            text: self.text@,
            attrs: self.attrs_list@,
            shape: self.shape_opt,
            layout: match self.layout_opt {
                Some(layout) => Some(layout@),
                None => None,
            },
        }
    }
}

impl<'a> TextBufferLine<'a> {
    /// Create a new line with the given text and attributes list
    ///
    /// The spans of the attributes list must lie within the text.
    pub fn new(text: &str, attrs_list: AttrsList<'a>) -> (line: Self)
        requires
            attrs_list@.within(byte_len(text@) as int),
        ensures
            line@ == (LineView { text: text@, attrs: attrs_list@, shape: None, layout: None }),
            line@.wf(),
    {
        // The text is in memory, so its length fits in `usize`.
        let _ = text_len(text);
        Self { text: text.to_owned(), attrs_list, shape_opt: None, layout_opt: None }
    }

    /// Get current text
    pub fn text(&self) -> (text: &str)
        ensures
            text@ == self@.text,
    {
        self.text.as_str()
    }

    /// Get the length of the text in bytes
    pub fn len(&self) -> (n: usize)
        ensures
            n == byte_len(self@.text),
    {
        text_len(self.text.as_str())
    }

    /// Get attributes list
    pub fn attrs_list(&self) -> (list: &AttrsList<'a>)
        ensures
            list@ == self@.attrs,
    {
        &self.attrs_list
    }

    /// Get line shaping cache
    pub fn shape_opt(&self) -> (shape: &Option<ShapeLine>)
        ensures
            *shape == self@.shape,
    {
        &self.shape_opt
    }

    /// Get line layout cache
    pub fn layout_opt(&self) -> (layout: &Option<Vec<LayoutLine>>)
        ensures
            layout is Some == self@.layout is Some,
            layout is Some ==> layout->0@ == self@.layout->0,
    {
        &self.layout_opt
    }

    /// Append line at end of this line
    ///
    /// The text of the other line follows the text of this line. Where the
    /// default attributes of the other line differ, its text gets a span with
    /// them. The spans of the other line follow. The line is not shaped after that.
    pub fn append(&mut self, other: Self)
        requires
            old(self)@.wf(),
            other@.wf(),
        ensures
            final(self)@ == old(self)@.joined(other@),
            final(self)@.wf(),
    {
        let len = self.len();
        let other_len = other.len();
        join_text(&mut self.text, other.text.as_str());
        let new_len = text_len(self.text.as_str());
        let ghost before = old(self)@.attrs;
        assert(before.within(new_len as int));

        if other.attrs_list.defaults() != self.attrs_list.defaults() {
            // If default formatting does not match, make a new span for it
            self.attrs_list.add_span(
                Range { start: len, end: len + other_len },
                other.attrs_list.defaults(),
            );
        }
        let ghost base = self.attrs_list@;

        let spans = other.attrs_list.spans();
        let mut i: usize = 0;
        assert(span_views(spans@).take(0) =~= Seq::<Span>::empty());
        while i < spans.len()
            invariant
                i <= spans@.len(),
                span_views(spans@) == other@.attrs.spans,
                other@.attrs.within(other_len as int),
                len + other_len == new_len,
                self.attrs_list@ == add_shifted(base, span_views(spans@).take(i as int), len as int),
                self.attrs_list@.within(new_len as int),
                self.text@ == old(self).text@ + other.text@,
            decreases spans@.len() - i,
        {
            // Add previous attrs spans
            let ghost span = span_views(spans@)[i as int];
            assert(span == span_of(spans@[i as int]));
            assert(0 <= span.start <= span.end <= other_len);
            assert(span_views(spans@).take(i + 1).drop_last() =~= span_views(spans@).take(
                i as int,
            ));
            assert(span_views(spans@).take(i + 1).last() == span);
            let range = Range { start: spans[i].0.start + len, end: spans[i].0.end + len };
            let ghost seen = self.attrs_list@;
            self.attrs_list.add_span(range, spans[i].1);
            assert(seen.within(new_len as int));
            i += 1;
        }
        assert(span_views(spans@).take(i as int) =~= span_views(spans@));

        self.reset();
    }

    /// Split off new line at index
    ///
    /// This line keeps what lies before the index; the line returned holds the
    /// rest. Neither is shaped.
    pub fn split_off(&mut self, index: usize) -> (new: Self)
        requires
            old(self)@.wf(),
            on_char_boundary(old(self)@.text, index as int),
        ensures
            final(self)@ == old(self)@.head(index as int),
            new@ == old(self)@.tail(index as int),
            final(self)@.wf(),
            new@.wf(),
    {
        proof {
            lemma_split_join(self@.text, index as int);
        }
        let text = split_text(&mut self.text, index);
        let attrs_list = self.attrs_list.split_off(index);
        self.reset();

        Self { text, attrs_list, shape_opt: None, layout_opt: None }
    }

    /// Reset shaping and layout information
    pub fn reset(&mut self)
        ensures
            final(self)@ == old(self)@.unshaped(),
    {
        self.shape_opt = None;
        self.layout_opt = None;
    }

    /// Reset only layout information
    pub fn reset_layout(&mut self)
        ensures
            final(self)@ == (LineView { layout: None, ..old(self)@ }),
    {
        self.layout_opt = None;
    }

    /// Keep the result of shaping the line; the line is not laid out after that
    pub fn set_shape(&mut self, shape: ShapeLine)
        ensures
            final(self)@ == (LineView { shape: Some(shape), layout: None, ..old(self)@ }),
    {
        self.shape_opt = Some(shape);
        self.layout_opt = None;
    }

    /// Keep the visual rows of the line
    pub fn set_layout(&mut self, layout: Vec<LayoutLine>)
        ensures
            final(self)@ == (LineView { layout: Some(layout@), ..old(self)@ }),
    {
        self.layout_opt = Some(layout);
    }

    /// Shape line, will cache results
    ///
    /// A line that is shaped already is left as it is. Else the line is
    /// shaped, and the line is not laid out after that.
    pub fn shape<S: Shaper>(&mut self, shaper: &S) -> (shape: ShapeLine)
        ensures
            old(self)@.shape is Some ==> final(self)@ == old(self)@,
            old(self)@.shape is None ==> final(self)@ == (LineView {
                shape: Some(shape),
                layout: None,
                ..old(self)@
            }),
            final(self)@.shape == Some(shape),
    {
        match self.shape_opt {
            Some(shape) => shape,
            None => {
                let shape = shaper.shape(self.text.as_str(), &self.attrs_list);
                self.set_shape(shape);
                shape
            },
        }
    }

    /// Layout line, will cache results
    ///
    /// A line that is laid out already is left as it is. Else the line is
    /// shaped, if it is not, and laid out. Returns the number of visual rows.
    pub fn layout<S: Shaper>(&mut self, shaper: &S, font_size: i32, width: i32) -> (rows: usize)
        ensures
            final(self)@.shaped_from(old(self)@),
            final(self)@.ready(),
            rows == final(self)@.rows(),
    {
        let shape = self.shape(shaper);
        match &self.layout_opt {
            Some(layout) => layout.len(),
            None => {
                let layout = shaper.layout(
                    self.text.as_str(),
                    &self.attrs_list,
                    &shape,
                    font_size,
                    width,
                );
                let rows = layout.len();
                self.set_layout(layout);
                rows
            },
        }
    }
}

} // verus!
