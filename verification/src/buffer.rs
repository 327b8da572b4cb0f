//! The text buffer: lines of text, a viewport that scrolls over their visual
//! rows, and a cursor.

use crate::action::{accepts_char, TextAction};
use crate::attrs::{Attrs, AttrsView};
use crate::attrs_list::{AttrsList, AttrsListView};
use crate::cursor::{find_position, index_at, layout_index, layout_position, TextLayoutCursor};
use crate::layout::Shaper;
use crate::line::{LineView, TextBufferLine};
use crate::text::{
    boundary_after, boundary_before, byte_len, char_text, floor_boundary, is_boundary,
    is_boundary_of, lemma_boundaries, lemma_boundary_in_text, lemma_encode_concat,
    lemma_split_join, lemma_split_twice, segmented, snap_to_boundary, split_lines, text_lines,
};
use vstd::prelude::*;

verus! {

/// Current cursor location
#[derive(Clone, Copy, Debug, PartialEq, Eq, Structural)]
pub struct TextCursor {
    /// Text line the cursor is on
    pub line: usize,
    /// Byte offset into the line's text; text is inserted at this offset
    pub index: usize,
}

impl TextCursor {
    /// Create a new cursor
    pub fn new(line: usize, index: usize) -> (cursor: Self)
        ensures
            cursor == (TextCursor { line, index }),
    {
        Self { line, index }
    }
}

impl Default for TextCursor {
    fn default() -> (cursor: Self)
        ensures
            cursor == (TextCursor { line: 0, index: 0 }),
    {
        Self { line: 0, index: 0 }
    }
}

/// Why a cursor does not address a place in a buffer
#[derive(Clone, Copy, Debug, PartialEq, Eq, Structural)]
pub enum TextError {
    /// The cursor names a line that the buffer does not have
    LineOutOfRange,
    /// The cursor names a byte offset past the end of its line
    IndexOutOfRange,
    /// The cursor names a byte offset inside a grapheme cluster
    NotOnBoundary,
}

/// Metrics of text
#[derive(Clone, Copy, Debug, PartialEq, Eq, Structural)]
pub struct TextMetrics {
    /// Font size in pixels
    pub font_size: i32,
    /// Line height in pixels
    pub line_height: i32,
}

impl TextMetrics {
    /// Create metrics from a font size and a line height in pixels
    pub fn new(font_size: i32, line_height: i32) -> (metrics: Self)
        ensures
            metrics == (TextMetrics { font_size, line_height }),
    {
        Self { font_size, line_height }
    }

    /// Multiply both sizes by `scale`
    pub fn scale(self, scale: i32) -> (metrics: Self)
        requires
            i32::MIN <= self.font_size * scale <= i32::MAX,
            i32::MIN <= self.line_height * scale <= i32::MAX,
        ensures
            metrics.font_size == self.font_size * scale,
            metrics.line_height == self.line_height * scale,
    {
        Self { font_size: self.font_size * scale, line_height: self.line_height * scale }
    }
}

impl Default for TextMetrics {
    fn default() -> (metrics: Self)
        ensures
            metrics == (TextMetrics { font_size: 0, line_height: 0 }),
    {
        Self { font_size: 0, line_height: 0 }
    }
}

/// The least of a number and the largest `i32`.
pub open spec fn capped(n: int) -> int {
    if n > i32::MAX {
        i32::MAX as int
    } else {
        n
    }
}

/// The number nearest to `n` that an `i32` can hold.
pub open spec fn clamped(n: int) -> int {
    if n > i32::MAX {
        i32::MAX as int
    } else if n < i32::MIN {
        i32::MIN as int
    } else {
        n
    }
}

/// The number of visual rows of the first `k` of `lines`.
pub open spec fn rows_before(lines: Seq<LineView>, k: int) -> int
    decreases k,
{
    if k <= 0 {
        0
    } else {
        rows_before(lines, k - 1) + lines[k - 1].rows()
    }
}

/// The number of lines, counted from `k` on, that are walked until the rows
/// before them reach `target`.
pub open spec fn walked_from(lines: Seq<LineView>, k: int, target: int) -> int
    decreases lines.len() - k,
{
    if k >= lines.len() || rows_before(lines, k) >= target {
        k
    } else {
        walked_from(lines, k + 1, target)
    }
}

/// The length of the shortest prefix of `lines` that has `target` visual rows,
/// and the number of lines where no prefix has that many.
pub open spec fn walked(lines: Seq<LineView>, target: int) -> int {
    walked_from(lines, 0, target)
}

/// True when `new` is `old` with some lines shaped or laid out: texts and
/// attributes are the same, and what was shaped or laid out still is, with the
/// same result.
pub open spec fn shaped_from(new: Seq<LineView>, old: Seq<LineView>) -> bool {
    &&& new.len() == old.len()
    &&& forall|j: int| 0 <= j < new.len() ==> (#[trigger] new[j]).shaped_from(old[j])
}

/// An unshaped line with the given text and default attributes, without spans.
pub open spec fn fresh_line(text: Seq<char>, attrs: AttrsView) -> LineView {
    LineView {
        text,
        attrs: AttrsListView { defaults: attrs, spans: Seq::empty() },
        shape: None,
        layout: None,
    }
}

/// Unshaped lines with the given texts, all with the same default
/// attributes; one empty line where no text is given.
pub open spec fn fresh_lines(texts: Seq<Seq<char>>, attrs: AttrsView) -> Seq<LineView> {
    if texts.len() == 0 {
        seq![fresh_line(Seq::empty(), attrs)]
    } else {
        Seq::new(texts.len(), |k: int| fresh_line(texts[k], attrs))
    }
}

/// What a [`TextBuffer`] stands for.
pub ghost struct BufferView {
    /// The lines (paragraphs) of the buffer.
    pub lines: Seq<LineView>,
    /// Font size and line height.
    pub metrics: TextMetrics,
    /// Width of the viewport in pixels.
    pub width: i32,
    /// Height of the viewport in pixels.
    pub height: i32,
    /// The number of visual rows above the viewport.
    pub scroll: i32,
    /// Where the cursor is.
    pub cursor: TextCursor,
    /// The glyph index that vertical movement tries to keep.
    pub cursor_x: Option<usize>,
    /// Where a selection was started, while there is one.
    pub select: Option<TextCursor>,
    /// True once the cursor has moved.
    pub cursor_moved: bool,
    /// True once a redraw is needed.
    pub redraw: bool,
    /// The control characters that can be inserted.
    pub allowed: Seq<char>,
}

impl BufferView {
    /// True when there is a line, every line is well formed, and the cursor
    /// is on a grapheme cluster boundary of an existing line.
    pub open spec fn wf(self) -> bool {
        &&& self.lines.len() > 0
        &&& forall|j: int| 0 <= j < self.lines.len() ==> (#[trigger] self.lines[j]).wf()
        &&& self.holds(self.cursor)
        &&& self.scroll >= 0
    }

    /// True when `cursor` is on a grapheme cluster boundary of an existing
    /// line, and that line was segmented.
    pub open spec fn holds(self, cursor: TextCursor) -> bool {
        &&& cursor.line < self.lines.len()
        &&& is_boundary(self.lines[cursor.line as int].text, cursor.index as int)
        &&& segmented(self.lines[cursor.line as int].text)
    }

    /// The number of visual rows that fit in the viewport; none where the
    /// height or the line height is not positive.
    pub open spec fn visible_rows(self) -> int {
        if self.height > 0 && self.metrics.line_height > 0 {
            self.height as int / self.metrics.line_height as int
        } else {
            0
        }
    }

    /// The buffer with `lines` in place of its lines, and one empty line
    /// where there is none, scrolled to the top, with the cursor at the start
    /// and without a selection.
    pub open spec fn with_lines(self, lines: Seq<LineView>) -> BufferView {
        BufferView {
            lines: if lines.len() == 0 {
                seq![fresh_line(Seq::empty(), Attrs::initial())]
            } else {
                lines
            },
            scroll: 0,
            cursor: TextCursor { line: 0, index: 0 },
            select: None,
            ..self
        }
    }

    /// The buffer with the lines of `text` in place of its lines, all with
    /// the default attributes `attrs`, scrolled to the top, with the cursor at
    /// the start and without a selection.
    pub open spec fn with_text(self, text: Seq<char>, attrs: AttrsView) -> BufferView {
        self.with_lines(fresh_lines(text_lines(text), attrs))
    }

    /// Why `cursor` does not address a place in the buffer, if it does not.
    pub open spec fn check(self, cursor: TextCursor) -> Option<TextError> {
        if cursor.line >= self.lines.len() {
            Some(TextError::LineOutOfRange)
        } else if cursor.index > byte_len(self.lines[cursor.line as int].text) {
            Some(TextError::IndexOutOfRange)
        } else if !is_boundary(self.lines[cursor.line as int].text, cursor.index as int) {
            Some(TextError::NotOnBoundary)
        } else {
            None
        }
    }

    /// Where `cursor` lies among the visual rows of its line. A cursor that
    /// lies in none of them, as in a line that is not laid out, is put at the
    /// start of the first row.
    pub open spec fn layout_cursor(self, cursor: TextCursor) -> Result<
        TextLayoutCursor,
        TextError,
    > {
        if cursor.line >= self.lines.len() {
            Err(TextError::LineOutOfRange)
        } else if cursor.index > byte_len(self.lines[cursor.line as int].text) {
            Err(TextError::IndexOutOfRange)
        } else {
            let p = layout_position(
                self.lines[cursor.line as int].visual_rows(),
                cursor.index as int,
            );
            Ok(TextLayoutCursor { line: cursor.line, layout: p.0 as usize, glyph: p.1 as usize })
        }
    }

    /// The byte cursor that `target` stands for: the offset of its glyph in
    /// its row, moved back to the nearest grapheme cluster boundary.
    pub open spec fn cursor_at(self, target: TextLayoutCursor) -> TextCursor {
        let line = self.lines[target.line as int];
        TextCursor {
            line: target.line,
            index: floor_boundary(
                line.text,
                layout_index(line.visual_rows(), target.layout as int, target.glyph as int),
            ) as usize,
        }
    }

    /// True when this is the buffer `old` after the cursor was put at
    /// `target`: the line of `target` is shaped and laid out, the cursor is
    /// where `target` stands, and a redraw is due also if that moved it.
    /// Nothing else has changed.
    pub open spec fn moved_to(self, old: BufferView, target: TextLayoutCursor) -> bool {
        &&& self == (BufferView {
            lines: self.lines,
            cursor: self.cursor,
            redraw: self.redraw,
            ..old
        })
        &&& shaped_from(self.lines, old.lines)
        &&& forall|j: int|
            0 <= j < self.lines.len() && j != target.line ==> (#[trigger] self.lines[j])
                == old.lines[j]
        &&& self.lines[target.line as int].ready()
        &&& self.cursor == self.cursor_at(target)
        &&& self.redraw == (old.redraw || self.cursor != old.cursor)
    }

    /// True when this is the buffer `old` after every shaped line was laid
    /// out anew. A redraw is due. Nothing else has changed.
    pub open spec fn relaid_from(self, old: BufferView) -> bool {
        &&& self == (BufferView { lines: self.lines, redraw: true, ..old })
        &&& self.lines.len() == old.lines.len()
        &&& forall|j: int|
            0 <= j < self.lines.len() ==> (#[trigger] self.lines[j]).relaid_from(old.lines[j])
    }

    /// True when this is the buffer `old`, whose metrics or width have just
    /// changed, after every shaped line was laid out anew and the viewport
    /// was shaped again.
    pub open spec fn resized_from(self, old: BufferView) -> bool {
        exists|mid: BufferView| #[trigger]
            mid.relaid_from(old) && self.scrolled_from(mid, old.scroll as int)
    }

    /// The visual row of the cursor, counted from the first row of the first
    /// line and capped at the largest `i32`.
    pub open spec fn cursor_row(self) -> int {
        capped(
            rows_before(self.lines, self.cursor.line as int) + layout_position(
                self.lines[self.cursor.line as int].visual_rows(),
                self.cursor.index as int,
            ).0,
        )
    }

    /// The scroll position nearest to the current one that shows visual row `row`.
    pub open spec fn scroll_for(self, row: int) -> int {
        if row < self.scroll {
            row
        } else if row >= self.scroll + self.visible_rows() {
            row - (self.visible_rows() - 1)
        } else {
            self.scroll as int
        }
    }

    /// True when this is the buffer `old` after all lines up to the
    /// cursor's were shaped and laid out. A redraw is due also where one of
    /// them had no shape. Nothing else has changed.
    pub open spec fn shaped_to_cursor_from(self, old: BufferView) -> bool {
        &&& self == (BufferView { lines: self.lines, redraw: self.redraw, ..old })
        &&& shaped_from(self.lines, old.lines)
        &&& forall|j: int| 0 <= j <= old.cursor.line ==> (#[trigger] self.lines[j]).ready()
        &&& forall|j: int|
            old.cursor.line < j < self.lines.len() ==> (#[trigger] self.lines[j]) == old.lines[j]
        &&& self.redraw == (old.redraw || exists|j: int|
            0 <= j <= old.cursor.line && (#[trigger] old.lines[j]).shape is None)
    }

    /// True when this is the buffer `old` after the lines up to the cursor's
    /// were shaped and the viewport was scrolled to show the cursor's row.
    pub open spec fn shown_cursor_from(self, old: BufferView) -> bool {
        exists|mid: BufferView| #[trigger]
            mid.shaped_to_cursor_from(old) && self.scrolled_from(
                mid,
                mid.scroll_for(mid.cursor_row()),
            )
    }

    /// True when this is the buffer `old` after the height of its viewport
    /// was set: for a new height, it was shaped again for the viewport.
    pub open spec fn heightened_from(self, old: BufferView, height: i32) -> bool {
        if height != old.height {
            self.scrolled_from(BufferView { height, ..old }, old.scroll as int)
        } else {
            self == old
        }
    }

    /// True when this is the buffer `old` after the width and the height of
    /// its viewport were set: for a new width, as after a resize; then, for a
    /// new height, shaped again for the viewport.
    pub open spec fn sized_from(self, old: BufferView, width: i32, height: i32) -> bool {
        if width != old.width {
            exists|mid: BufferView| #[trigger]
                mid.resized_from(BufferView { width, ..old }) && self.heightened_from(mid, height)
        } else {
            self.heightened_from(old, height)
        }
    }

    /// True when this is the buffer `old` after it was shaped for a viewport
    /// with `target` rows above it: lines were shaped or laid out, those walked
    /// to cover the viewport are all shaped and laid out, the scroll position
    /// is the one in range nearest to `target`, and a redraw is due also where
    /// a line that was walked had no shape. Nothing else has changed.
    pub open spec fn scrolled_from(self, old: BufferView, target: int) -> bool {
        let end = walked(self.lines, old.scroll_end(target));
        &&& self == (BufferView {
            lines: self.lines,
            redraw: self.redraw,
            scroll: self.scroll,
            ..old
        })
        &&& shaped_from(self.lines, old.lines)
        &&& forall|j: int| 0 <= j < end ==> (#[trigger] self.lines[j]).ready()
        &&& forall|j: int| end <= j < self.lines.len() ==> (#[trigger] self.lines[j]) == old.lines[j]
        &&& self.redraw == (old.redraw || exists|j: int|
            0 <= j < end && (#[trigger] old.lines[j]).shape is None)
        &&& self.scroll == self.scroll_within(target, self.shaped_rows(target))
    }

    /// The number of visual rows that are asked for so that the viewport is
    /// covered once `scroll` rows are above it.
    pub open spec fn scroll_end(self, scroll: int) -> int {
        clamped(scroll + self.visible_rows())
    }

    /// The number of visual rows of the lines that are walked to cover the
    /// viewport once `scroll` rows are above it, capped at the largest `i32`.
    pub open spec fn shaped_rows(self, scroll: int) -> int {
        capped(rows_before(self.lines, walked(self.lines, self.scroll_end(scroll))))
    }

    /// The scroll position nearest to `scroll` that is not negative and leaves
    /// no more than one empty row at the end of a viewport over `total` visual rows.
    pub open spec fn scroll_within(self, scroll: int, total: int) -> int {
        let most = total - (self.visible_rows() - 1);
        let least = if most < scroll {
            most
        } else {
            scroll
        };
        if least < 0 {
            0
        } else {
            capped(least)
        }
    }
}

/// A buffer of text that is shaped and laid out
pub struct TextBuffer<'a, S: Shaper> {
    shaper: &'a S,
    lines: Vec<TextBufferLine<'a>>,
    metrics: TextMetrics,
    width: i32,
    height: i32,
    scroll: i32,
    cursor: TextCursor,
    cursor_x_opt: Option<usize>,
    select_opt: Option<TextCursor>,
    cursor_moved: bool,
    redraw: bool,
    allowed_controls: Vec<char>,
}

/// What the lines of a buffer stand for, in the same order.
pub open spec fn line_views<'a>(lines: Seq<TextBufferLine<'a>>) -> Seq<LineView> {
    Seq::new(lines.len(), |j: int| lines[j]@)
}

impl<'a, S: Shaper> View for TextBuffer<'a, S> {
    type V = BufferView;

    closed spec fn view(&self) -> BufferView {
        BufferView {
            lines: line_views(self.lines@),
            metrics: self.metrics,
            width: self.width,
            height: self.height,
            scroll: self.scroll,
            cursor: self.cursor,
            cursor_x: self.cursor_x_opt,
            select: self.select_opt,
            cursor_moved: self.cursor_moved,
            redraw: self.redraw,
            allowed: self.allowed_controls@,
        }
    }
}

/// The cursor of a well formed buffer addresses a place in its text: its line
/// is a line of the buffer, and its byte offset lies within the text of that
/// line, between two characters, on a grapheme cluster boundary.
pub proof fn lemma_cursor_in_text(buffer: BufferView)
    requires
        buffer.wf(),
    ensures
        buffer.cursor.line < buffer.lines.len(),
        buffer.cursor.index <= byte_len(buffer.lines[buffer.cursor.line as int].text),
        is_boundary(buffer.lines[buffer.cursor.line as int].text, buffer.cursor.index as int),
        crate::text::on_char_boundary(
            buffer.lines[buffer.cursor.line as int].text,
            buffer.cursor.index as int,
        ),
{
    lemma_boundary_in_text(buffer.lines[buffer.cursor.line as int].text, buffer.cursor.index as int);
}

/// After a buffer is shaped for its viewport, the scroll position is in
/// range: it is not negative, and not more than the rows of the lines that
/// were walked, less the rows that the viewport shows, plus one.
pub proof fn lemma_scroll_in_range(buffer: BufferView, old: BufferView, target: int)
    requires
        buffer.scrolled_from(old, target),
    ensures
        0 <= buffer.scroll,
        buffer.scroll <= vstd::math::max(
            0,
            buffer.shaped_rows(target) - buffer.visible_rows() + 1,
        ),
        target >= 0 ==> buffer.scroll <= target,
{
}

/// The rows before a line depend on the lines before it alone.
pub proof fn lemma_rows_before_prefix(a: Seq<LineView>, b: Seq<LineView>, k: int)
    requires
        0 <= k <= a.len(),
        k <= b.len(),
        forall|j: int| 0 <= j < k ==> (#[trigger] a[j]).rows() == b[j].rows(),
    ensures
        rows_before(a, k) == rows_before(b, k),
    decreases k,
{
    if k > 0 {
        lemma_rows_before_prefix(a, b, k - 1);
    }
}

/// The rows before a line are not fewer than those before an earlier line.
pub proof fn lemma_rows_before_grows(lines: Seq<LineView>, j: int, k: int)
    requires
        0 <= j <= k <= lines.len(),
    ensures
        0 <= rows_before(lines, j) <= rows_before(lines, k),
    decreases k,
{
    if k > 0 {
        if j < k {
            lemma_rows_before_grows(lines, j, k - 1);
        } else {
            lemma_rows_before_grows(lines, j - 1, k - 1);
        }
    }
}

/// Once the line at `i` is laid out, after the lines before it and before the
/// lines behind it, the lines up to it are shaped and laid out, the lines
/// behind it are as they were at first, and the rows before it are the same.
proof fn lemma_line_laid_out(
    now: Seq<LineView>,
    before: Seq<LineView>,
    first: Seq<LineView>,
    i: int,
)
    requires
        0 <= i < now.len(),
        now.len() == before.len(),
        shaped_from(before, first),
        forall|j: int| 0 <= j < i ==> (#[trigger] before[j]).ready(),
        forall|j: int| i <= j < before.len() ==> (#[trigger] before[j]) == first[j],
        now[i].shaped_from(before[i]),
        now[i].ready(),
        forall|j: int| 0 <= j < now.len() && j != i ==> (#[trigger] now[j]) == before[j],
    ensures
        shaped_from(now, first),
        forall|j: int| 0 <= j <= i ==> rows_before(now, j) == rows_before(before, j),
        forall|j: int| 0 <= j < i + 1 ==> (#[trigger] now[j]).ready(),
        forall|j: int| i + 1 <= j < now.len() ==> (#[trigger] now[j]) == first[j],
        rows_before(now, i + 1) == rows_before(now, i) + now[i].rows(),
        0 <= rows_before(now, i),
        first[i] == before[i],
{
    assert forall|j: int| 0 <= j < now.len() implies (#[trigger] now[j]).shaped_from(
        first[j],
    ) by {
        assert(before[j].shaped_from(first[j]));
        if j != i {
            assert(now[j] == before[j]);
        }
    }
    assert forall|j: int| 0 <= j <= i implies rows_before(now, j) == rows_before(before, j) by {
        assert forall|m: int| 0 <= m < j implies (#[trigger] now[m]).rows() == before[m].rows() by {
            assert(now[m] == before[m]);
        }
        lemma_rows_before_prefix(now, before, j);
    }
    assert forall|j: int| 0 <= j < i + 1 implies (#[trigger] now[j]).ready() by {
        if j != i {
            assert(now[j] == before[j]);
        }
    }
    assert forall|j: int| i + 1 <= j < now.len() implies (#[trigger] now[j]) == first[j] by {
        assert(now[j] == before[j]);
    }
    lemma_rows_before_grows(now, 0, i);
    assert(before[i] == first[i]);
}

/// The walk ends at `k` when the rows before `k` reach the target, or `k` is
/// the number of lines, and the rows before every earlier line do not.
pub proof fn lemma_walked(lines: Seq<LineView>, target: int, k: int)
    requires
        0 <= k <= lines.len(),
        k == lines.len() || rows_before(lines, k) >= target,
        forall|j: int| 0 <= j < k ==> rows_before(lines, j) < target,
    ensures
        walked(lines, target) == k,
{
    lemma_walked_from(lines, target, k, 0);
}

proof fn lemma_walked_from(lines: Seq<LineView>, target: int, k: int, from: int)
    requires
        0 <= from <= k <= lines.len(),
        k == lines.len() || rows_before(lines, k) >= target,
        forall|j: int| 0 <= j < k ==> rows_before(lines, j) < target,
    ensures
        walked_from(lines, from, target) == k,
    decreases k - from,
{
    if from < k {
        lemma_walked_from(lines, target, k, from + 1);
    }
}

/// Shaping up to a number of rows walks no line more than is needed: the walk
/// ends at the first line before which the rows reach the target, and goes
/// through all lines only where the rows before the last line do not.
pub proof fn lemma_walked_ends(lines: Seq<LineView>, target: int)
    ensures
        0 <= walked(lines, target) <= lines.len(),
        walked(lines, target) == lines.len() || rows_before(lines, walked(lines, target))
            >= target,
        forall|j: int| 0 <= j < walked(lines, target) ==> rows_before(lines, j) < target,
{
    lemma_walked_from_ends(lines, target, 0);
}

proof fn lemma_walked_from_ends(lines: Seq<LineView>, target: int, from: int)
    requires
        0 <= from <= lines.len(),
    ensures
        from <= walked_from(lines, from, target) <= lines.len(),
        walked_from(lines, from, target) == lines.len() || rows_before(
            lines,
            walked_from(lines, from, target),
        ) >= target,
        forall|j: int| from <= j < walked_from(lines, from, target) ==> rows_before(lines, j) < target,
    decreases lines.len() - from,
{
    if !(from >= lines.len() || rows_before(lines, from) >= target) {
        lemma_walked_from_ends(lines, target, from + 1);
    }
}

/// The number of rows after `rows` more were counted, capped at the largest `i32`.
fn add_rows(total: i32, rows: usize) -> (sum: i32)
    requires
        total >= 0,
    ensures
        sum == capped(total + rows),
{
    if rows > (i32::MAX - total) as usize {
        i32::MAX
    } else {
        total + rows as i32
    }
}

impl<'a, S: Shaper> TextBuffer<'a, S> {
    /// Create a buffer that holds one empty line, with no size yet
    ///
    /// Of the control characters, the tab can be inserted.
    pub fn new(shaper: &'a S, metrics: TextMetrics) -> (buffer: Self)
        ensures
            buffer@.wf(),
            buffer@ == (BufferView {
                lines: seq![fresh_line(Seq::empty(), Attrs::initial())],
                metrics,
                width: 0,
                height: 0,
                scroll: 0,
                cursor: TextCursor { line: 0, index: 0 },
                cursor_x: None,
                select: None,
                cursor_moved: false,
                redraw: false,
                allowed: seq!['\t'],
            }),
    {
        let mut lines: Vec<TextBufferLine<'a>> = Vec::new();
        let line = TextBufferLine::new("", AttrsList::new(Attrs::new()));
        proof {
            reveal_strlit("");
            assert(line@.text =~= Seq::<char>::empty());
            lemma_boundaries(line@.text);
        }
        let index = snap_to_boundary(line.text(), 0);
        lines.push(line);
        let mut allowed_controls: Vec<char> = Vec::new();
        allowed_controls.push('\t');
        let mut buffer = Self {
            shaper,
            lines,
            metrics,
            width: 0,
            height: 0,
            scroll: 0,
            cursor: TextCursor { line: 0, index },
            cursor_x_opt: None,
            select_opt: None,
            cursor_moved: false,
            redraw: false,
            allowed_controls,
        };
        let ghost made = buffer@;
        assert(made.lines =~= seq![fresh_line(Seq::empty(), Attrs::initial())]);
        assert(made.allowed =~= seq!['\t']);
        buffer.shape_until_scroll();
        proof {
            assert(made.visible_rows() == 0);
            assert(walked(buffer@.lines, 0) == 0);
            assert(buffer@.lines[0] == made.lines[0]);
            assert(buffer@.lines =~= made.lines);
        }
        buffer
    }

    /// Pre-shape lines in the buffer, up to `lines`, return actual number of layout lines
    ///
    /// Lines are shaped and laid out from the first on, until `lines` visual
    /// rows are there or no line is left. The number returned is that of the
    /// visual rows of the lines walked, capped at the largest `i32`.
    pub fn shape_until(&mut self, lines: i32) -> (total: i32)
        requires
            old(self)@.wf(),
        ensures
            final(self)@.wf(),
            final(self)@ == (BufferView {
                lines: final(self)@.lines,
                redraw: final(self)@.redraw,
                ..old(self)@
            }),
            shaped_from(final(self)@.lines, old(self)@.lines),
            total == capped(
                rows_before(final(self)@.lines, walked(final(self)@.lines, lines as int)),
            ),
            forall|j: int|
                0 <= j < walked(final(self)@.lines, lines as int) ==> (
                #[trigger] final(self)@.lines[j]).ready(),
            forall|j: int|
                walked(final(self)@.lines, lines as int) <= j < final(self)@.lines.len() ==> (
                #[trigger] final(self)@.lines[j]) == old(self)@.lines[j],
            final(self)@.redraw == (old(self)@.redraw || exists|j: int|
                0 <= j < walked(final(self)@.lines, lines as int) && (
                #[trigger] old(self)@.lines[j]).shape is None),
    {
        let mut reshaped = false;
        let mut total_layout: i32 = 0;
        let n = self.lines.len();
        let mut i: usize = 0;
        while i < n && total_layout < lines
            invariant
                i <= n,
                n == self.lines@.len(),
                n == old(self).lines@.len(),
                self@ == (BufferView { lines: self@.lines, ..old(self)@ }),
                shaped_from(self@.lines, old(self)@.lines),
                0 <= total_layout,
                total_layout == capped(rows_before(self@.lines, i as int)),
                forall|j: int| 0 <= j < i ==> rows_before(self@.lines, j) < lines,
                forall|j: int| 0 <= j < i ==> (#[trigger] self@.lines[j]).ready(),
                forall|j: int| i <= j < n ==> (#[trigger] self@.lines[j]) == old(self)@.lines[j],
                reshaped == (exists|j: int|
                    0 <= j < i && (#[trigger] old(self)@.lines[j]).shape is None),
            decreases n - i,
        {
            let ghost before = self@.lines;
            if self.lines[i].shape_opt().is_none() {
                reshaped = true;
            }
            let rows = self.lines[i].layout(self.shaper, self.metrics.font_size, self.width);
            proof {
                let now = self@.lines;
                assert forall|j: int| 0 <= j < n && j != i implies (#[trigger] now[j])
                    == before[j] by {}
                lemma_line_laid_out(now, before, old(self)@.lines, i as int);
            }
            total_layout = add_rows(total_layout, rows);
            i += 1;
        }
        proof {
            lemma_walked(self@.lines, lines as int, i as int);
        }
        if reshaped {
            self.redraw = true;
        }
        total_layout
    }

    /// Shape lines until scroll
    ///
    /// Shapes and lays out what the viewport shows, then moves the scroll
    /// position back into range: it is not negative, and at most one row at
    /// the end of the viewport is left empty.
    pub fn shape_until_scroll(&mut self)
        requires
            old(self)@.wf(),
        ensures
            final(self)@.wf(),
            final(self)@.scrolled_from(old(self)@, old(self)@.scroll as int),
            0 <= final(self)@.scroll <= old(self)@.scroll,
            final(self)@.scroll <= vstd::math::max(
                0,
                final(self)@.shaped_rows(old(self)@.scroll as int) - final(self)@.visible_rows() + 1,
            ),
    {
        self.scroll_to(self.scroll as i64);
    }

    /// Shapes and lays out what the viewport would show with `target` rows
    /// above it, then sets the scroll position to the nearest one in range.
    fn scroll_to(&mut self, target: i64)
        requires
            old(self)@.wf(),
            -0x1_0000_0000 <= target <= 0x1_0000_0000,
        ensures
            final(self)@.wf(),
            final(self)@.scrolled_from(old(self)@, target as int),
    {
        let lines = self.lines();
        let wanted: i64 = target + lines as i64;
        let scroll_end: i32 = if wanted > i32::MAX as i64 {
            i32::MAX
        } else if wanted < i32::MIN as i64 {
            i32::MIN
        } else {
            wanted as i32
        };
        let total_layout = self.shape_until(scroll_end);
        let most: i64 = total_layout as i64 - (lines as i64 - 1);
        let least: i64 = if most < target {
            most
        } else {
            target
        };
        self.scroll = if least < 0 {
            0
        } else if least > i32::MAX as i64 {
            i32::MAX
        } else {
            least as i32
        };
    }

    /// Lay out anew every line that is shaped
    fn relayout(&mut self)
        requires
            old(self)@.wf(),
        ensures
            final(self)@.wf(),
            final(self)@.relaid_from(old(self)@),
    {
        let n = self.lines.len();
        let mut i: usize = 0;
        while i < n
            invariant
                i <= n,
                n == self.lines@.len(),
                n == old(self).lines@.len(),
                self@ == (BufferView { lines: self@.lines, ..old(self)@ }),
                forall|j: int| 0 <= j < i ==> (#[trigger] self@.lines[j]).relaid_from(old(self)@.lines[j]),
                forall|j: int| i <= j < n ==> (#[trigger] self@.lines[j]) == old(self)@.lines[j],
            decreases n - i,
        {
            let ghost before = self@.lines;
            assert(before[i as int] == old(self)@.lines[i as int]);
            if self.lines[i].shape_opt().is_some() {
                self.lines[i].reset_layout();
                let ghost reset = self@.lines[i as int];
                self.lines[i].layout(self.shaper, self.metrics.font_size, self.width);
                assert(self@.lines[i as int].shaped_from(reset));
            }
            proof {
                let now = self@.lines;
                assert(now[i as int].relaid_from(before[i as int]));
                assert forall|j: int| 0 <= j < i + 1 implies (#[trigger] now[j]).relaid_from(
                    old(self)@.lines[j],
                ) by {
                    if j != i {
                        assert(now[j] == before[j]);
                    }
                }
                assert forall|j: int| i + 1 <= j < n implies (#[trigger] now[j]) == old(
                    self,
                )@.lines[j] by {
                    assert(now[j] == before[j]);
                }
            }
            i += 1;
        }
        self.redraw = true;
        proof {
            assert forall|j: int| 0 <= j < n implies (#[trigger] self@.lines[j]).wf() by {
                assert(self@.lines[j].relaid_from(old(self)@.lines[j]));
                assert(old(self)@.lines[j].wf());
            }
            assert(self@.lines[self.cursor.line as int].relaid_from(
                old(self)@.lines[self.cursor.line as int],
            ));
        }
    }

    /// Shape lines until cursor, also scrolling to include cursor in view
    pub fn shape_until_cursor(&mut self)
        requires
            old(self)@.wf(),
        ensures
            final(self)@.wf(),
            final(self)@.shown_cursor_from(old(self)@),
    {
        let mut reshaped = false;
        let mut layout_i: i32 = 0;
        let n = self.lines.len();
        let last = self.cursor.line;
        let mut i: usize = 0;
        while i <= last
            invariant
                i <= last + 1,
                last < n,
                last == old(self)@.cursor.line,
                n == self.lines@.len(),
                n == old(self).lines@.len(),
                self@ == (BufferView { lines: self@.lines, ..old(self)@ }),
                shaped_from(self@.lines, old(self)@.lines),
                0 <= layout_i,
                i <= last ==> layout_i == capped(rows_before(self@.lines, i as int)),
                i > last ==> layout_i == capped(rows_before(self@.lines, last as int)),
                forall|j: int| 0 <= j < i ==> (#[trigger] self@.lines[j]).ready(),
                forall|j: int| i <= j < n ==> (#[trigger] self@.lines[j]) == old(self)@.lines[j],
                reshaped == (exists|j: int|
                    0 <= j < i && (#[trigger] old(self)@.lines[j]).shape is None),
            decreases last + 1 - i,
        {
            let ghost before = self@.lines;
            if self.lines[i].shape_opt().is_none() {
                reshaped = true;
            }
            let rows = self.lines[i].layout(self.shaper, self.metrics.font_size, self.width);
            proof {
                let now = self@.lines;
                assert forall|j: int| 0 <= j < n && j != i implies (#[trigger] now[j])
                    == before[j] by {}
                lemma_line_laid_out(now, before, old(self)@.lines, i as int);
            }
            if i < last {
                layout_i = add_rows(layout_i, rows);
            }
            i += 1;
        }
        if reshaped {
            self.redraw = true;
        }
        let ghost mid = self@;
        proof {
            assert(mid.lines[last as int].shaped_from(old(self)@.lines[last as int]));
            lemma_boundary_in_text(mid.lines[last as int].text, self.cursor.index as int);
            lemma_rows_before_grows(mid.lines, 0, last as int);
        }
        let row = match self.lines[last].layout_opt() {
            Some(layout) => add_rows(layout_i, find_position(layout, self.cursor.index).0),
            None => layout_i,
        };
        assert(row == mid.cursor_row());
        let lines = self.lines();
        let target: i64 = if row < self.scroll {
            row as i64
        } else if row as i64 >= self.scroll as i64 + lines as i64 {
            row as i64 - (lines as i64 - 1)
        } else {
            self.scroll as i64
        };
        self.scroll_to(target);
        assert(mid.shaped_to_cursor_from(old(self)@) && self@.scrolled_from(
            mid,
            mid.scroll_for(mid.cursor_row()),
        ));
    }

    /// Shape and lay out one line, if it is not, and return the number of its
    /// visual rows
    fn lay_out_line(&mut self, line: usize) -> (rows: usize)
        requires
            old(self)@.wf(),
            line < old(self)@.lines.len(),
        ensures
            final(self)@.wf(),
            final(self)@.laid_out_from(old(self)@, line as int),
            rows == final(self)@.lines[line as int].rows(),
    {
        let ghost before = self@.lines;
        let rows = self.lines[line].layout(self.shaper, self.metrics.font_size, self.width);
        proof {
            let now = self@.lines;
            assert forall|j: int| 0 <= j < now.len() implies (#[trigger] now[j]).shaped_from(
                before[j],
            ) by {
                if j != line {
                    assert(now[j] == before[j]);
                }
            }
            assert forall|j: int| 0 <= j < now.len() implies (#[trigger] now[j]).wf() by {
                assert(now[j].shaped_from(before[j]));
                assert(before[j].wf());
            }
            assert(now[self.cursor.line as int].shaped_from(before[self.cursor.line as int]));
        }
        rows
    }

    /// Find where a cursor lies among the visual rows of its line
    ///
    /// A cursor that lies in no row of its line, as in a line that is not laid
    /// out, is put at the start of the line's first row. A cursor whose line
    /// or byte offset the buffer does not have is an error.
    pub fn layout_cursor(&self, cursor: &TextCursor) -> (result: Result<
        TextLayoutCursor,
        TextError,
    >)
        ensures
            result == self@.layout_cursor(*cursor),
            result matches Ok(at) ==> ({
                let rows = self@.lines[cursor.line as int].visual_rows();
                &&& at.line == cursor.line
                &&& (at.layout as int, at.glyph as int) == layout_position(
                    rows,
                    cursor.index as int,
                )
                &&& at.layout < rows.len() || (at.layout == 0 && at.glyph == 0)
                &&& at.layout < rows.len() ==> at.glyph <= rows[at.layout as int].glyphs@.len()
            }),
    {
        if cursor.line >= self.lines.len() {
            return Err(TextError::LineOutOfRange);
        }
        let line = &self.lines[cursor.line];
        if cursor.index > line.len() {
            return Err(TextError::IndexOutOfRange);
        }
        let (layout, glyph) = match line.layout_opt() {
            Some(layout) => find_position(layout, cursor.index),
            None => (0, 0),
        };
        Ok(TextLayoutCursor::new(cursor.line, layout, glyph))
    }

    /// Put the cursor where a layout cursor stands
    ///
    /// The line is laid out if it is not. A row past the last row of the line
    /// stands for the last row, and a glyph past the last glyph of the row for
    /// the end of the row. The cursor is put at the nearest grapheme cluster
    /// boundary at or before the byte offset found. A redraw is due if the
    /// cursor has moved. A line that the buffer does not have is an error, and
    /// nothing changes.
    pub fn set_layout_cursor(&mut self, cursor: TextLayoutCursor) -> (result: Result<
        (),
        TextError,
    >)
        requires
            old(self)@.wf(),
        ensures
            final(self)@.wf(),
            cursor.line >= old(self)@.lines.len() ==> result == Err::<(), TextError>(
                TextError::LineOutOfRange,
            ) && final(self)@ == old(self)@,
            cursor.line < old(self)@.lines.len() ==> result is Ok && final(self)@.moved_to(
                old(self)@,
                cursor,
            ),
            cursor.line < old(self)@.lines.len() ==> ({
                let line = final(self)@.lines[cursor.line as int];
                &&& final(self)@.cursor.line == cursor.line
                &&& final(self)@.cursor.index == floor_boundary(
                    line.text,
                    layout_index(line.visual_rows(), cursor.layout as int, cursor.glyph as int),
                )
                &&& final(self)@.cursor.index <= byte_len(line.text)
            }),
    {
        if cursor.line >= self.lines.len() {
            return Err(TextError::LineOutOfRange);
        }
        let _ = self.lay_out_line(cursor.line);
        let line = &self.lines[cursor.line];
        let raw = match line.layout_opt() {
            Some(layout) => index_at(layout, cursor.layout, cursor.glyph),
            None => 0,
        };
        let new_index = snap_to_boundary(line.text(), raw);

        if self.cursor.line != cursor.line || self.cursor.index != new_index {
            self.cursor.line = cursor.line;
            self.cursor.index = new_index;
            self.redraw = true;
        }
        Ok(())
    }

    /// Get the current cursor position
    pub fn cursor(&self) -> (cursor: TextCursor)
        ensures
            cursor == self@.cursor,
    {
        self.cursor
    }

    /// Put the cursor at a line and a byte offset
    ///
    /// The place must exist and lie on a grapheme cluster boundary; else the
    /// error says what is wrong, and nothing changes.
    pub fn set_cursor(&mut self, cursor: TextCursor) -> (result: Result<(), TextError>)
        requires
            old(self)@.wf(),
        ensures
            final(self)@.wf(),
            match old(self)@.check(cursor) {
                Some(error) => result == Err::<(), TextError>(error) && final(self)@ == old(self)@,
                None => result is Ok && final(self)@ == (BufferView {
                    cursor,
                    cursor_x: None,
                    cursor_moved: old(self)@.cursor_moved || cursor != old(self)@.cursor,
                    redraw: old(self)@.redraw || cursor != old(self)@.cursor,
                    ..old(self)@
                }),
            },
    {
        if cursor.line >= self.lines.len() {
            return Err(TextError::LineOutOfRange);
        }
        let line = &self.lines[cursor.line];
        if cursor.index > line.len() {
            return Err(TextError::IndexOutOfRange);
        }
        if !is_boundary_of(line.text(), cursor.index) {
            return Err(TextError::NotOnBoundary);
        }
        if cursor != self.cursor {
            self.cursor = cursor;
            self.cursor_moved = true;
            self.redraw = true;
        }
        self.cursor_x_opt = None;
        Ok(())
    }

    /// Get the current [TextMetrics]
    pub fn metrics(&self) -> (metrics: TextMetrics)
        ensures
            metrics == self@.metrics,
    {
        self.metrics
    }

    /// Set the current [TextMetrics]
    ///
    /// New metrics lay out every shaped line anew and shape the viewport again.
    pub fn set_metrics(&mut self, metrics: TextMetrics)
        requires
            old(self)@.wf(),
        ensures
            final(self)@.wf(),
            metrics == old(self)@.metrics ==> final(self)@ == old(self)@,
            metrics != old(self)@.metrics ==> final(self)@.resized_from(
                BufferView { metrics, ..old(self)@ },
            ),
    {
        if metrics != self.metrics {
            self.metrics = metrics;
            self.relayout();
            let ghost mid = self@;
            self.shape_until_scroll();
            assert(mid.relaid_from(BufferView { metrics, ..old(self)@ }) && self@.scrolled_from(
                mid,
                old(self)@.scroll as int,
            ));
        }
    }

    /// Get the current buffer dimensions (width, height)
    pub fn size(&self) -> (size: (i32, i32))
        ensures
            size == (self@.width, self@.height),
    {
        (self.width, self.height)
    }

    /// Set the current buffer dimensions
    ///
    /// A new width lays out every shaped line anew and shapes the viewport
    /// again; after that, a new height shapes the viewport again.
    pub fn set_size(&mut self, width: i32, height: i32)
        requires
            old(self)@.wf(),
        ensures
            final(self)@.wf(),
            final(self)@.sized_from(old(self)@, width, height),
    {
        if width != self.width {
            self.width = width;
            self.relayout();
            let ghost mid = self@;
            self.shape_until_scroll();
            assert(mid.relaid_from(BufferView { width, ..old(self)@ }) && self@.scrolled_from(
                mid,
                old(self)@.scroll as int,
            ));
        }
        let ghost mid = self@;

        if height != self.height {
            self.height = height;
            self.shape_until_scroll();
        }
        assert(mid.height == old(self)@.height);
        assert(self@.heightened_from(mid, height));
        assert(width != old(self)@.width ==> mid.resized_from(
            BufferView { width, ..old(self)@ },
        ) && self@.heightened_from(mid, height));
    }

    /// Get the current scroll location
    pub fn scroll(&self) -> (scroll: i32)
        ensures
            scroll == self@.scroll,
    {
        self.scroll
    }

    /// True if the cursor has moved since the flag was last cleared
    ///
    /// Usually, if this is true, you should run [Self::shape_until_cursor] before redrawing.
    /// Otherwise, you should run [Self::shape_until_scroll]
    pub fn cursor_moved(&self) -> (moved: bool)
        ensures
            moved == self@.cursor_moved,
    {
        self.cursor_moved
    }

    /// Set or clear the flag that says that the cursor has moved
    pub fn set_cursor_moved(&mut self, moved: bool)
        ensures
            final(self)@ == (BufferView { cursor_moved: moved, ..old(self)@ }),
    {
        self.cursor_moved = moved;
    }

    /// True if a redraw is due since the flag was last cleared
    pub fn redraw(&self) -> (redraw: bool)
        ensures
            redraw == self@.redraw,
    {
        self.redraw
    }

    /// Set or clear the flag that says that a redraw is due
    pub fn set_redraw(&mut self, redraw: bool)
        ensures
            final(self)@ == (BufferView { redraw, ..old(self)@ }),
    {
        self.redraw = redraw;
    }

    /// Get the lines (paragraphs) of the buffer
    pub fn text_lines(&self) -> (lines: &Vec<TextBufferLine<'a>>)
        ensures
            line_views(lines@) == self@.lines,
    {
        &self.lines
    }

    /// Get the control characters that can be inserted
    pub fn allowed_controls(&self) -> (allowed: &Vec<char>)
        ensures
            allowed@ == self@.allowed,
    {
        &self.allowed_controls
    }

    /// Set the control characters that can be inserted
    pub fn set_allowed_controls(&mut self, allowed: Vec<char>)
        ensures
            final(self)@ == (BufferView { allowed: allowed@, ..old(self)@ }),
    {
        self.allowed_controls = allowed;
    }

    /// Get where the selection was started, while there is one
    pub fn select(&self) -> (select: Option<TextCursor>)
        ensures
            select == self@.select,
    {
        self.select_opt
    }

    /// Set the lines of the buffer
    ///
    /// The buffer holds the lines given, with what is cached of their shape
    /// and layout, and one empty line if none is given. It is scrolled to the
    /// top, the cursor is at the start, there is no selection, and the
    /// viewport is shaped.
    pub fn set_lines(&mut self, lines: Vec<TextBufferLine<'a>>)
        requires
            forall|j: int| 0 <= j < lines@.len() ==> (#[trigger] lines@[j])@.wf(),
        ensures
            final(self)@.wf(),
            final(self)@.scrolled_from(old(self)@.with_lines(line_views(lines@)), 0),
    {
        let ghost given = line_views(lines@);
        let mut held = lines;
        // Make sure there is always one line
        if held.len() == 0 {
            proof {
                reveal_strlit("");
                assert(""@ =~= Seq::<char>::empty());
            }
            held.push(TextBufferLine::new("", AttrsList::new(Attrs::new())));
        }
        proof {
            lemma_boundaries(held@[0]@.text);
            assert(line_views(held@) =~= old(self)@.with_lines(given).lines);
        }
        let index = snap_to_boundary(held[0].text(), 0);
        self.lines = held;

        self.scroll = 0;
        self.cursor = TextCursor { line: 0, index };
        self.select_opt = None;
        assert(self@ == old(self)@.with_lines(given));

        self.shape_until_scroll();
    }

    /// Set text of buffer, using provided attributes for each line by default
    ///
    /// The buffer holds the lines of the text, and one empty line for a text
    /// without lines. It is scrolled to the top, the cursor is at the start,
    /// there is no selection, and the viewport is shaped.
    pub fn set_text(&mut self, text: &str, attrs: Attrs<'a>)
        ensures
            final(self)@.wf(),
            final(self)@.scrolled_from(old(self)@.with_text(text@, attrs@), 0),
    {
        let texts = split_lines(text);
        let mut lines: Vec<TextBufferLine<'a>> = Vec::new();
        let n = texts.len();
        let mut k: usize = 0;
        while k < n
            invariant
                k <= n,
                n == texts@.len(),
                n == text_lines(text@).len(),
                forall|j: int| 0 <= j < n ==> (#[trigger] texts@[j])@ == text_lines(text@)[j],
                lines@.len() == k,
                forall|j: int|
                    0 <= j < k ==> (#[trigger] lines@[j])@ == fresh_line(
                        text_lines(text@)[j],
                        attrs@,
                    ) && lines@[j]@.wf(),
            decreases n - k,
        {
            let ghost seen = lines@;
            lines.push(TextBufferLine::new(texts[k].as_str(), AttrsList::new(attrs)));
            assert forall|j: int| 0 <= j < k + 1 implies (#[trigger] lines@[j])@ == fresh_line(
                text_lines(text@)[j],
                attrs@,
            ) && lines@[j]@.wf() by {
                if j < k {
                    assert(lines@[j] == seen[j]);
                }
            }
            k += 1;
        }
        // Make sure there is always one line
        if n == 0 {
            proof {
                reveal_strlit("");
                assert(""@ =~= Seq::<char>::empty());
            }
            lines.push(TextBufferLine::new("", AttrsList::new(attrs)));
        }
        assert(line_views(lines@) =~= fresh_lines(text_lines(text@), attrs@));
        self.set_lines(lines);
    }

    /// Move the cursor one grapheme cluster back
    fn move_previous(&mut self)
        requires
            old(self)@.wf(),
        ensures
            final(self)@.wf(),
            final(self)@ == old(self)@.previous(),
    {
        let at = self.cursor.line;
        if self.cursor.index > 0 {
            // Find previous character index
            let index = boundary_before(self.lines[at].text(), self.cursor.index);
            self.cursor.index = index;
            self.redraw = true;
        } else if at > 0 {
            let end = self.lines[at - 1].len();
            proof {
                lemma_boundaries(self@.lines[at - 1].text);
            }
            let index = snap_to_boundary(self.lines[at - 1].text(), end);
            self.cursor.line = at - 1;
            self.cursor.index = index;
            self.redraw = true;
        }
        self.cursor_x_opt = None;
    }

    /// Move the cursor one grapheme cluster on
    fn move_next(&mut self)
        requires
            old(self)@.wf(),
        ensures
            final(self)@.wf(),
            final(self)@ == old(self)@.next(),
    {
        let at = self.cursor.line;
        let n = self.lines.len();
        if self.cursor.index < self.lines[at].len() {
            let index = boundary_after(self.lines[at].text(), self.cursor.index);
            self.cursor.index = index;
            self.redraw = true;
        } else if at + 1 < n {
            proof {
                lemma_boundaries(self@.lines[at + 1].text);
            }
            let index = snap_to_boundary(self.lines[at + 1].text(), 0);
            self.cursor.line = at + 1;
            self.cursor.index = index;
            self.redraw = true;
        }
        self.cursor_x_opt = None;
    }

    /// Move the cursor one row up
    fn move_up(&mut self)
        requires
            old(self)@.wf(),
        ensures
            final(self)@.wf(),
            final(self)@.up_from(old(self)@),
    {
        proof {
            lemma_boundary_in_text(self@.line().text, self.cursor.index as int);
        }
        let at = match self.layout_cursor(&self.cursor) {
            Ok(at) => at,
            Err(_) => {
                return ;
            },
        };
        let glyph = match self.cursor_x_opt {
            Some(glyph) => glyph,
            None => at.glyph,
        };
        self.cursor_x_opt = Some(glyph);
        let target = if at.layout > 0 {
            TextLayoutCursor::new(at.line, at.layout - 1, glyph)
        } else if at.line > 0 {
            TextLayoutCursor::new(at.line - 1, usize::MAX, glyph)
        } else {
            TextLayoutCursor::new(at.line, at.layout, glyph)
        };
        let _ = self.set_layout_cursor(target);
    }

    /// Move the cursor one row down
    fn move_down(&mut self)
        requires
            old(self)@.wf(),
        ensures
            final(self)@.wf(),
            final(self)@.down_from(old(self)@),
    {
        proof {
            lemma_boundary_in_text(self@.line().text, self.cursor.index as int);
        }
        let at = match self.layout_cursor(&self.cursor) {
            Ok(at) => at,
            Err(_) => {
                return ;
            },
        };
        let rows = self.lay_out_line(at.line);
        let ghost mid = self@;
        let glyph = match self.cursor_x_opt {
            Some(glyph) => glyph,
            None => at.glyph,
        };
        self.cursor_x_opt = Some(glyph);
        let n = self.lines.len();
        let target = if rows > 0 && at.layout < rows - 1 {
            TextLayoutCursor::new(at.line, at.layout + 1, glyph)
        } else if at.line + 1 < n {
            TextLayoutCursor::new(at.line + 1, 0, glyph)
        } else {
            TextLayoutCursor::new(at.line, at.layout, glyph)
        };
        assert(target == mid.below(at, mid.line().rows(), glyph));
        let _ = self.set_layout_cursor(target);
    }

    /// Move the cursor to position `glyph` of its row
    fn move_in_row(&mut self, glyph: usize)
        requires
            old(self)@.wf(),
        ensures
            final(self)@.wf(),
            final(self)@.row_end_from(old(self)@, glyph),
    {
        proof {
            lemma_boundary_in_text(self@.line().text, self.cursor.index as int);
        }
        let at = match self.layout_cursor(&self.cursor) {
            Ok(at) => at,
            Err(_) => {
                return ;
            },
        };
        self.cursor_x_opt = None;
        let _ = self.set_layout_cursor(TextLayoutCursor::new(at.line, at.layout, glyph));
    }

    /// Insert a character at the cursor
    fn insert(&mut self, character: char)
        requires
            old(self)@.wf(),
        ensures
            final(self)@.wf(),
            final(self)@ == old(self)@.inserted(character),
    {
        if !accepts_char(character, &self.allowed_controls) {
            // Filter out special chars (except for tab), use TextAction instead
            return ;
        }
        let at = self.cursor.line;
        let index = self.cursor.index;
        let ghost line = self@.line();
        proof {
            lemma_boundary_in_text(line.text, index as int);
            lemma_split_join(line.text, index as int);
        }

        // Collect text after insertion as a line
        let after = self.lines[at].split_off(index);

        // Append the inserted text
        let defaults = self.lines[at].attrs_list().defaults();
        let text = char_text(character);
        let inserted = TextBufferLine::new(text.as_str(), AttrsList::new(defaults));
        proof {
            lemma_encode_concat(line.head(index as int).text, seq![character]);
        }
        self.lines[at].append(inserted);
        let behind = self.lines[at].len();

        // Append the text after insertion
        self.lines[at].append(after);

        let new_index = snap_to_boundary(self.lines[at].text(), behind);
        self.cursor.index = new_index;
        proof {
            assert(self@.lines[at as int] == line.with_char(index as int, character));
            assert(self@.lines =~= old(self)@.lines.update(at as int, self@.lines[at as int]));
        }
    }

    /// Cut the cursor's line in two at the cursor
    fn enter(&mut self)
        requires
            old(self)@.wf(),
        ensures
            final(self)@.wf(),
            final(self)@ == old(self)@.entered(),
    {
        let at = self.cursor.line;
        let ghost line = self@.line();
        proof {
            lemma_boundary_in_text(line.text, self.cursor.index as int);
        }
        let n = self.lines.len();
        let new_line = self.lines[at].split_off(self.cursor.index);
        proof {
            lemma_boundaries(new_line@.text);
        }
        let index = snap_to_boundary(new_line.text(), 0);

        self.cursor.line = at + 1;
        self.cursor.index = index;

        self.lines.insert(at + 1, new_line);
        proof {
            assert(self@.lines =~= old(self)@.lines.update(
                at as int,
                line.head(old(self)@.cursor.index as int),
            ).insert(at + 1, line.tail(old(self)@.cursor.index as int)));
        }
    }

    /// Append the line at `at` to the line before it, and return the byte
    /// offset at which the two were joined
    fn merge_lines(&mut self, at: usize) -> (joint: usize)
        requires
            0 < at < old(self).lines@.len(),
            forall|j: int|
                0 <= j < old(self)@.lines.len() ==> (#[trigger] old(self)@.lines[j]).wf(),
        ensures
            final(self)@ == (BufferView { lines: old(self)@.merged(at as int), ..old(self)@ }),
            forall|j: int|
                0 <= j < final(self)@.lines.len() ==> (#[trigger] final(self)@.lines[j]).wf(),
            joint == byte_len(old(self)@.lines[at - 1].text),
            final(self)@.lines.len() == old(self)@.lines.len() - 1,
    {
        let ghost before = self@.lines;
        assert(before[at as int].wf() && before[at - 1].wf());
        let old_line = self.lines.remove(at);
        let joint = self.lines[at - 1].len();
        self.lines[at - 1].append(old_line);
        proof {
            let now = self@.lines;
            assert(now =~= old(self)@.merged(at as int));
            assert forall|j: int| 0 <= j < now.len() implies (#[trigger] now[j]).wf() by {
                if j < at - 1 {
                    assert(now[j] == before[j]);
                } else if j >= at {
                    assert(now[j] == before[j + 1]);
                }
            }
        }
        joint
    }

    /// Delete the grapheme cluster before the cursor, or join the cursor's
    /// line to the line before
    fn backspace(&mut self)
        requires
            old(self)@.wf(),
        ensures
            final(self)@.wf(),
            final(self)@ == old(self)@.backspaced(),
    {
        let at = self.cursor.line;
        let index = self.cursor.index;
        let ghost line = self@.line();
        if index > 0 {
            // Find previous character index
            let from = boundary_before(self.lines[at].text(), index);
            proof {
                lemma_boundary_in_text(line.text, index as int);
                lemma_boundary_in_text(line.text, from as int);
                lemma_split_twice(line.text, from as int, index as int);
            }

            // Get text line after cursor
            let after = self.lines[at].split_off(index);

            // Remove character
            let _ = self.lines[at].split_off(from);

            // Add text after cursor
            self.lines[at].append(after);

            let new_index = snap_to_boundary(self.lines[at].text(), from);
            self.cursor.index = new_index;
            proof {
                assert(self@.lines[at as int] == line.without(from as int, index as int));
                assert(self@.lines =~= old(self)@.lines.update(at as int, self@.lines[at as int]));
            }
        } else if at > 0 {
            let joint = self.merge_lines(at);
            let new_index = snap_to_boundary(self.lines[at - 1].text(), joint);
            self.cursor.line = at - 1;
            self.cursor.index = new_index;
        }
    }

    /// Delete the grapheme cluster at the cursor, or join the next line to
    /// the cursor's line
    fn delete(&mut self)
        requires
            old(self)@.wf(),
        ensures
            final(self)@.wf(),
            final(self)@ == old(self)@.deleted(),
    {
        let at = self.cursor.line;
        let index = self.cursor.index;
        let n = self.lines.len();
        let ghost line = self@.line();
        if index < self.lines[at].len() {
            let to = boundary_after(self.lines[at].text(), index);
            proof {
                lemma_boundary_in_text(line.text, index as int);
                lemma_boundary_in_text(line.text, to as int);
                lemma_split_twice(line.text, index as int, to as int);
            }

            // Get text after deleted EGC
            let after = self.lines[at].split_off(to);

            // Delete EGC
            let _ = self.lines[at].split_off(index);

            // Add text after deleted EGC
            self.lines[at].append(after);

            let new_index = snap_to_boundary(self.lines[at].text(), index);
            self.cursor.index = new_index;
            proof {
                assert(self@.lines[at as int] == line.without(index as int, to as int));
                assert(self@.lines =~= old(self)@.lines.update(at as int, self@.lines[at as int]));
            }
        } else if at + 1 < n {
            let _ = self.merge_lines(at + 1);
            let new_index = snap_to_boundary(self.lines[at].text(), index);
            self.cursor.index = new_index;
        }
    }

    /// Put the cursor where a hit test found a place for it
    fn point(&mut self, hit: Option<TextCursor>)
        requires
            old(self)@.lines.len() > 0,
            forall|j: int|
                0 <= j < old(self)@.lines.len() ==> (#[trigger] old(self)@.lines[j]).wf(),
            old(self)@.holds(old(self)@.cursor),
            old(self)@.scroll >= 0,
            hit is Some ==> old(self)@.holds(hit->0),
        ensures
            final(self)@.wf(),
            final(self)@ == old(self)@.pointed(hit),
    {
        if let Some(new_cursor) = hit {
            if new_cursor != self.cursor {
                self.cursor = new_cursor;
                self.redraw = true;
            }
        }
    }

    /// Perform a [TextAction] on the buffer
    ///
    /// The cursor is on a grapheme cluster boundary of a line of the buffer
    /// after every action. An action that moves the cursor leaves the note
    /// that it has moved.
    pub fn action(&mut self, action: TextAction)
        requires
            old(self)@.wf(),
        ensures
            final(self)@.wf(),
            final(self)@.acted_from(old(self)@, action),
    {
        let old_cursor = self.cursor;

        match action {
            TextAction::Previous => {
                self.move_previous();
            },
            TextAction::Next => {
                self.move_next();
            },
            TextAction::Left => {
                let rtl_opt = match self.lines[self.cursor.line].shape_opt() {
                    Some(shape) => Some(shape.rtl),
                    None => None,
                };
                if let Some(rtl) = rtl_opt {
                    if rtl {
                        self.move_next();
                    } else {
                        self.move_previous();
                    }
                }
            },
            TextAction::Right => {
                let rtl_opt = match self.lines[self.cursor.line].shape_opt() {
                    Some(shape) => Some(shape.rtl),
                    None => None,
                };
                if let Some(rtl) = rtl_opt {
                    if rtl {
                        self.move_previous();
                    } else {
                        self.move_next();
                    }
                }
            },
            TextAction::Up => {
                self.move_up();
            },
            TextAction::Down => {
                self.move_down();
            },
            TextAction::Home => {
                self.move_in_row(0);
            },
            TextAction::End => {
                self.move_in_row(usize::MAX);
            },
            TextAction::PageUp => {
                let lines = self.lines();
                self.redraw = true;
                self.scroll_to(self.scroll as i64 - lines as i64);
            },
            TextAction::PageDown => {
                let lines = self.lines();
                self.redraw = true;
                self.scroll_to(self.scroll as i64 + lines as i64);
            },
            TextAction::Insert(character) => {
                self.insert(character);
            },
            TextAction::Enter => {
                self.enter();
            },
            TextAction::Backspace => {
                self.backspace();
            },
            TextAction::Delete => {
                self.delete();
            },
            TextAction::Click { x, y } => {
                let hit = self.hit(x, y);
                self.select_opt = None;
                self.point(hit);
            },
            TextAction::Drag { x, y } => {
                let hit = self.hit(x, y);
                if self.select_opt.is_none() {
                    self.select_opt = Some(self.cursor);
                    self.redraw = true;
                }
                self.point(hit);
            },
            TextAction::Scroll { lines } => {
                self.redraw = true;
                self.scroll_to(self.scroll as i64 + lines as i64);
            },
        }
        let ghost step = self@;
        assert(step.stepped_from(old(self)@, action));

        if old_cursor != self.cursor {
            self.cursor_moved = true;
        }
        assert(self@ == step.noted(old(self)@));
    }

    /// Get the number of lines that can be viewed in the buffer
    pub fn lines(&self) -> (rows: i32)
        ensures
            rows == self@.visible_rows(),
            rows >= 0,
    {
        if self.height > 0 && self.metrics.line_height > 0 {
            self.height / self.metrics.line_height
        } else {
            0
        }
    }
}

} // verus!
