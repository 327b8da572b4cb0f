//! The visible visual rows of a buffer, from top to bottom.

use crate::buffer::{capped, clamped, rows_before, BufferView, TextBuffer};
use crate::layout::{LayoutGlyph, Shaper};
use vstd::prelude::*;

verus! {

/// A line of visible text for rendering
#[derive(Clone, Copy, Debug)]
pub struct TextLayoutRun<'a> {
    /// The index of the text line that the row belongs to
    pub line_i: usize,
    /// The text of that line
    pub text: &'a str,
    /// True if the paragraph direction is RTL
    pub rtl: bool,
    /// The array of layout glyphs to draw
    pub glyphs: &'a [LayoutGlyph],
    /// Y offset of line
    pub line_y: i32,
}

/// Which visual row a [`TextLayoutRun`] shows, and where.
pub ghost struct RunView {
    /// The index of the text line.
    pub line_i: int,
    /// The index of the visual row in the line.
    pub layout_i: int,
    /// The vertical offset of the row's baseline.
    pub line_y: i32,
}

impl<'a> TextLayoutRun<'a> {
    /// True when the run is the visual row that `run` names, of the buffer `buffer`.
    pub open spec fn shows(self, buffer: BufferView, run: RunView) -> bool {
        &&& self.line_i == run.line_i
        &&& self.line_y == run.line_y
        &&& 0 <= run.line_i < buffer.lines.len()
        &&& 0 <= run.layout_i < buffer.lines[run.line_i].visual_rows().len()
        &&& self.text@ == buffer.lines[run.line_i].text
        &&& buffer.lines[run.line_i].shape == Some(crate::layout::ShapeLine { rtl: self.rtl })
        &&& self.glyphs@ == buffer.lines[run.line_i].visual_rows()[run.layout_i].glyphs@
    }
}

/// A position among the visual rows of a buffer, from which the visible rows
/// are handed out one by one; see [TextLayoutRun]
#[derive(Clone, Copy, Debug, PartialEq, Eq, Structural)]
pub struct TextLayoutRunIter {
    /// The text line of the next row
    pub line_i: usize,
    /// The next row within its line
    pub layout_i: usize,
    /// The vertical offset of the row handed out last
    pub line_y: i32,
    /// The number of rows passed so far, capped at the largest `i32`
    pub total_layout: i32,
}

/// What a [`TextLayoutRunIter`] stands for: a position among the visual rows.
pub ghost struct RunPos {
    /// The text line of the next row.
    pub line_i: int,
    /// The next row within its line.
    pub layout_i: int,
    /// The vertical offset of the row handed out last.
    pub line_y: int,
    /// The number of rows passed so far, capped at the largest `i32`.
    pub total_layout: int,
}

impl View for TextLayoutRunIter {
    type V = RunPos;

    open spec fn view(&self) -> RunPos {
        RunPos {
            line_i: self.line_i as int,
            layout_i: self.layout_i as int,
            line_y: self.line_y as int,
            total_layout: self.total_layout as int,
        }
    }
}

impl RunPos {
    /// The position before the first row of a buffer.
    pub open spec fn start(buffer: BufferView) -> RunPos {
        RunPos {
            line_i: 0,
            layout_i: 0,
            line_y: clamped(buffer.metrics.font_size - buffer.metrics.line_height),
            total_layout: 0,
        }
    }

    /// The position one row further on in the same line.
    pub open spec fn past_row(self) -> RunPos {
        RunPos {
            layout_i: self.layout_i + 1,
            total_layout: capped(self.total_layout + 1),
            ..self
        }
    }

    /// The position after a row was handed out: one line height further down.
    pub open spec fn lowered(self, buffer: BufferView) -> RunPos {
        RunPos { line_y: clamped(self.line_y + buffer.metrics.line_height), ..self }
    }

    /// The position at the first row of the next line.
    pub open spec fn past_line(self) -> RunPos {
        RunPos { line_i: self.line_i + 1, layout_i: 0, ..self }
    }

    /// The row at this position, with its baseline at the vertical offset of
    /// the position `after` it.
    pub open spec fn run(self, after: RunPos) -> RunView {
        RunView { line_i: self.line_i, layout_i: self.layout_i, line_y: after.line_y as i32 }
    }

    /// What the next call of [`TextLayoutRunIter::next`] hands out, and the
    /// position after it. Rows above the scroll position are passed over. No
    /// row is handed out where the line is not shaped and laid out, where the
    /// next row would lie below the viewport, or after the last row.
    pub open spec fn step(self, buffer: BufferView) -> (Option<RunView>, RunPos)
        decreases buffer.lines.len() - self.line_i, buffer.lines[self.line_i].rows()
            - self.layout_i,
    {
        if self.line_i < 0 || self.line_i >= buffer.lines.len() {
            (None, self)
        } else if !buffer.lines[self.line_i].ready() {
            (None, self)
        } else if self.layout_i < buffer.lines[self.line_i].rows() {
            if self.total_layout < buffer.scroll {
                self.past_row().step(buffer)
            } else {
                let after = self.past_row().lowered(buffer);
                if after.line_y > buffer.height {
                    (None, after)
                } else {
                    (Some(self.run(after)), after)
                }
            }
        } else {
            self.past_line().step(buffer)
        }
    }

    /// The rows that are handed out from this position on, until none is.
    pub open spec fn rest(self, buffer: BufferView) -> Seq<RunView>
        decreases buffer.lines.len() - self.line_i, buffer.lines[self.line_i].rows()
            - self.layout_i,
    {
        if self.line_i < 0 || self.line_i >= buffer.lines.len() {
            Seq::empty()
        } else if !buffer.lines[self.line_i].ready() {
            Seq::empty()
        } else if self.layout_i < buffer.lines[self.line_i].rows() {
            if self.total_layout < buffer.scroll {
                self.past_row().rest(buffer)
            } else {
                let after = self.past_row().lowered(buffer);
                if after.line_y > buffer.height {
                    Seq::empty()
                } else {
                    seq![self.run(after)] + after.rest(buffer)
                }
            }
        } else {
            self.past_line().rest(buffer)
        }
    }

    /// The rows handed out from a position on are the row handed out next,
    /// followed by those handed out from the position after it.
    pub proof fn lemma_rest(self, buffer: BufferView)
        ensures
            self.rest(buffer) == match self.step(buffer) {
                (Some(run), after) => seq![run] + after.rest(buffer),
                (None, _) => Seq::empty(),
            },
        decreases buffer.lines.len() - self.line_i, buffer.lines[self.line_i].rows()
            - self.layout_i,
    {
        if self.line_i < 0 || self.line_i >= buffer.lines.len() {
        } else if !buffer.lines[self.line_i].ready() {
        } else if self.layout_i < buffer.lines[self.line_i].rows() {
            if self.total_layout < buffer.scroll {
                self.past_row().lemma_rest(buffer);
            }
        } else {
            self.past_line().lemma_rest(buffer);
        }
    }
}

impl RunPos {
    /// Where the rows `seen`, followed by those handed out from this position
    /// on, are the visible rows: the row handed out next joins the rows seen,
    /// and fewer rows are left; where none is handed out, all were seen.
    pub proof fn lemma_step(self, buffer: BufferView, seen: Seq<RunView>)
        requires
            visible_runs(buffer) == seen + self.rest(buffer),
        ensures
            match self.step(buffer) {
                (Some(run), after) => visible_runs(buffer) == seen.push(run) + after.rest(buffer)
                    && after.rest(buffer).len() < self.rest(buffer).len(),
                (None, _) => visible_runs(buffer) == seen,
            },
    {
        self.lemma_rest(buffer);
        match self.step(buffer) {
            (Some(run), after) => {
                assert(seen + (seq![run] + after.rest(buffer)) =~= seen.push(run) + after.rest(
                    buffer,
                ));
            },
            (None, _) => {
                assert(seen + self.rest(buffer) =~= seen);
            },
        }
    }
}

impl RunView {
    /// The number of the row among all visual rows of the buffer, counted
    /// from the first row of the first line.
    pub open spec fn row(self, buffer: BufferView) -> int {
        rows_before(buffer.lines, self.line_i) + self.layout_i
    }

    /// True when the row is a visual row of a line of the buffer that is
    /// shaped and laid out.
    pub open spec fn exists_in(self, buffer: BufferView) -> bool {
        &&& 0 <= self.line_i < buffer.lines.len()
        &&& buffer.lines[self.line_i].ready()
        &&& 0 <= self.layout_i < buffer.lines[self.line_i].rows()
    }
}

impl RunPos {
    /// The number of the next row among all visual rows of the buffer.
    pub open spec fn row(self, buffer: BufferView) -> int {
        rows_before(buffer.lines, self.line_i) + self.layout_i
    }

    /// The number of rows that were handed out before this position.
    pub open spec fn shown(self, buffer: BufferView) -> int {
        if self.row(buffer) > buffer.scroll {
            self.row(buffer) - buffer.scroll
        } else {
            0
        }
    }

    /// True for a position that the walk over the rows of a buffer reaches:
    /// it has counted the rows before it, and its vertical offset is that of
    /// the row handed out last.
    pub open spec fn reached(self, buffer: BufferView) -> bool {
        &&& 0 <= self.line_i
        &&& 0 <= self.layout_i
        &&& self.line_i < buffer.lines.len() ==> self.layout_i <= buffer.lines[self.line_i].rows()
        &&& self.total_layout == capped(self.row(buffer))
        &&& self.line_y == clamped(
            buffer.metrics.font_size + (self.shown(buffer) - 1) * buffer.metrics.line_height,
        )
    }

    proof fn lemma_rest_rows(self, buffer: BufferView, k: int)
        requires
            buffer.scroll >= 0,
            buffer.metrics.line_height >= 0,
            buffer.metrics.font_size - buffer.metrics.line_height >= i32::MIN,
            self.reached(buffer),
            0 <= k < self.rest(buffer).len(),
        ensures
            self.rest(buffer)[k].exists_in(buffer),
            self.rest(buffer)[k].row(buffer) == buffer.scroll + self.shown(buffer) + k,
            self.rest(buffer)[k].line_y == clamped(
                buffer.metrics.font_size + (self.shown(buffer) + k) * buffer.metrics.line_height,
            ),
        decreases buffer.lines.len() - self.line_i, buffer.lines[self.line_i].rows()
            - self.layout_i,
    {
        let lines = buffer.lines;
        let size = buffer.metrics.font_size as int;
        let height = buffer.metrics.line_height as int;
        let shown = self.shown(buffer);
        crate::buffer::lemma_rows_before_grows(lines, 0, self.line_i);
        assert(0 <= shown * height && (shown + 1) * height == shown * height + height && (shown - 1)
            * height == shown * height - height) by (nonlinear_arith)
            requires
                0 <= shown,
                0 <= height,
        ;
        if self.layout_i < lines[self.line_i].rows() {
            let next = self.past_row();
            assert(next.row(buffer) == self.row(buffer) + 1);
            if self.total_layout < buffer.scroll {
                assert(next.shown(buffer) == 0);
                next.lemma_rest_rows(buffer, k);
            } else {
                let after = next.lowered(buffer);
                assert(after.shown(buffer) == shown + 1);
                assert(after.reached(buffer));
                if k > 0 {
                    assert(self.rest(buffer)[k] == after.rest(buffer)[k - 1]);
                    after.lemma_rest_rows(buffer, k - 1);
                    assert((shown + 1 + (k - 1)) * height == (shown + k) * height);
                } else {
                    assert((shown + 0) * height == shown * height);
                }
            }
        } else {
            let next = self.past_line();
            assert(rows_before(lines, self.line_i + 1) == rows_before(lines, self.line_i)
                + lines[self.line_i].rows());
            assert(next.row(buffer) == self.row(buffer));
            next.lemma_rest_rows(buffer, k);
        }
    }
}

/// The visible rows are rows of the buffer, one after the other from the
/// scroll position on, one line height apart: where the scroll position and
/// the line height are not negative, the row `k` of the visible rows is the
/// row `scroll + k` of a line that is shaped and laid out, and its baseline
/// is `font_size + k * line_height`, or the nearest `i32`.
pub proof fn lemma_visible_runs(buffer: BufferView, k: int)
    requires
        buffer.scroll >= 0,
        buffer.metrics.line_height >= 0,
        buffer.metrics.font_size - buffer.metrics.line_height >= i32::MIN,
        0 <= k < visible_runs(buffer).len(),
    ensures
        visible_runs(buffer)[k].exists_in(buffer),
        visible_runs(buffer)[k].row(buffer) == buffer.scroll + k,
        visible_runs(buffer)[k].line_y == clamped(
            buffer.metrics.font_size + k * buffer.metrics.line_height,
        ),
{
    let start = RunPos::start(buffer);
    assert(rows_before(buffer.lines, 0) == 0);
    assert(start.shown(buffer) == 0);
    assert((0 - 1) * buffer.metrics.line_height == -buffer.metrics.line_height);
    start.lemma_rest_rows(buffer, k);
}

/// The visible visual rows of a buffer, from top to bottom.
pub open spec fn visible_runs(buffer: BufferView) -> Seq<RunView> {
    RunPos::start(buffer).rest(buffer)
}

impl TextLayoutRunIter {
    /// Start before the first row of a buffer
    pub fn new<'a, S: Shaper>(buffer: &TextBuffer<'a, S>) -> (iter: Self)
        ensures
            iter@ == RunPos::start(buffer@),
    {
        let metrics = buffer.metrics();
        Self {
            line_i: 0,
            layout_i: 0,
            line_y: clamp_i32(metrics.font_size as i64 - metrics.line_height as i64),
            total_layout: 0,
        }
    }

    /// Hand out the next visible row, if there is one
    ///
    /// Rows above the scroll position are passed over. No row is handed out
    /// where the line is not shaped and laid out, where the next row would lie
    /// below the viewport, or after the last row.
    pub fn next<'a, 'b, S: Shaper>(&mut self, buffer: &'b TextBuffer<'a, S>) -> (run: Option<
        TextLayoutRun<'b>,
    >)
        ensures
            final(self)@ == old(self)@.step(buffer@).1,
            run is Some == old(self)@.step(buffer@).0 is Some,
            run is Some ==> run->0.shows(buffer@, old(self)@.step(buffer@).0->0),
    {
        let lines = buffer.text_lines();
        let scroll = buffer.scroll();
        let line_height = buffer.metrics().line_height;
        let height = buffer.size().1;
        let n = lines.len();
        while self.line_i < n
            invariant
                n == lines@.len(),
                n == buffer@.lines.len(),
                crate::buffer::line_views(lines@) == buffer@.lines,
                scroll == buffer@.scroll,
                line_height == buffer@.metrics.line_height,
                height == buffer@.height,
                self@.step(buffer@) == old(self)@.step(buffer@),
            decreases n - self.line_i,
        {
            let line = &lines[self.line_i];
            let ghost at_line = self.line_i;
            assert(line@ == buffer@.lines[self.line_i as int]);
            let rtl = match line.shape_opt() {
                Some(shape) => shape.rtl,
                None => {
                    return None;
                },
            };
            let layout = match line.layout_opt() {
                Some(layout) => layout,
                None => {
                    return None;
                },
            };
            let rows = layout.len();
            while self.layout_i < rows
                invariant
                    self.line_i < n,
                    self.line_i == at_line,
                    n == lines@.len(),
                    n == buffer@.lines.len(),
                    rows == layout@.len(),
                    line@ == buffer@.lines[self.line_i as int],
                    line@.layout == Some(layout@),
                    line@.shape == Some(crate::layout::ShapeLine { rtl }),
                    self@.step(buffer@) == old(self)@.step(buffer@),
                    scroll == buffer@.scroll,
                    line_height == buffer@.metrics.line_height,
                    height == buffer@.height,
                decreases rows - self.layout_i,
            {
                let ghost pos = self@;
                assert(pos.step(buffer@) == if pos.total_layout < buffer@.scroll {
                    pos.past_row().step(buffer@)
                } else if pos.past_row().lowered(buffer@).line_y > buffer@.height {
                    (None::<RunView>, pos.past_row().lowered(buffer@))
                } else {
                    (
                        Some(pos.run(pos.past_row().lowered(buffer@))),
                        pos.past_row().lowered(buffer@),
                    )
                });
                let layout_i = self.layout_i;
                self.layout_i += 1;

                let scrolled = self.total_layout < scroll;
                if self.total_layout < i32::MAX {
                    self.total_layout += 1;
                }
                assert(self@ == pos.past_row());
                if scrolled {
                    continue ;
                }
                self.line_y = clamp_i32(self.line_y as i64 + line_height as i64);
                assert(self@ == pos.past_row().lowered(buffer@));
                if self.line_y > height {
                    return None;
                }
                return Some(
                    TextLayoutRun {
                        line_i: self.line_i,
                        text: line.text(),
                        rtl,
                        glyphs: layout[layout_i].glyphs.as_slice(),
                        line_y: self.line_y,
                    },
                );
            }
            let ghost pos = self@;
            assert(pos.step(buffer@) == pos.past_line().step(buffer@));
            self.line_i += 1;
            self.layout_i = 0;
        }
        None
    }
}

/// The `i32` nearest to `n`.
pub fn clamp_i32(n: i64) -> (r: i32)
    ensures
        r == clamped(n as int),
{
    if n > i32::MAX as i64 {
        i32::MAX
    } else if n < i32::MIN as i64 {
        i32::MIN
    } else {
        n as i32
    }
}

} // verus!

verus! {

impl<'a, S: Shaper> TextBuffer<'a, S> {
    /// Get the visible layout runs for rendering and other tasks
    pub fn layout_runs(&self) -> (iter: TextLayoutRunIter)
        ensures
            iter@ == RunPos::start(self@),
            iter@.rest(self@) == visible_runs(self@),
    {
        TextLayoutRunIter::new(self)
    }
}

} // verus!
