//! The actions that move the cursor and edit the text, and what each of them
//! makes of a buffer.

use crate::attrs_list::{
    coalesce, lemma_lookup, lemma_split_within, AttrsListView, Span,
};
use crate::buffer::{BufferView, TextCursor};
use crate::cursor::TextLayoutCursor;
use crate::line::{add_shifted, LineView};
use crate::text::{
    byte_len, floor_boundary, is_boundary, is_plain, lemma_boundary_in_concat,
    lemma_boundary_in_text, lemma_encode_concat, lemma_floor_boundary, lemma_join_split,
    lemma_plain_boundaries, lemma_prev_boundary, lemma_split_join, next_boundary,
    on_char_boundary, prev_boundary,
};
use vstd::prelude::*;
use vstd::utf8::{encode_utf8, encode_utf8_first_scalar, is_char_boundary};

verus! {

/// An action to perform on a [`crate::buffer::TextBuffer`]
#[derive(Clone, Copy, Debug, PartialEq, Eq)]
pub enum TextAction {
    /// Move cursor to previous character ([Self::Left] in LTR, [Self::Right] in RTL)
    Previous,
    /// Move cursor to next character ([Self::Right] in LTR, [Self::Left] in RTL)
    Next,
    /// Move cursor left
    Left,
    /// Move cursor right
    Right,
    /// Move cursor up
    Up,
    /// Move cursor down
    Down,
    /// Move cursor to start of line
    Home,
    /// Move cursor to end of line
    End,
    /// Scroll up one page
    PageUp,
    /// Scroll down one page
    PageDown,
    /// Insert character at cursor
    Insert(char),
    /// Create new line
    Enter,
    /// Delete text behind cursor
    Backspace,
    /// Delete text in front of cursor
    Delete,
    /// Mouse click at specified position
    Click { x: i32, y: i32 },
    /// Mouse drag to specified position
    Drag { x: i32, y: i32 },
    /// Scroll specified number of lines
    Scroll { lines: i32 },
}

/// True for the control characters: U+0000 to U+001F and U+007F to U+009F.
pub open spec fn is_control(c: char) -> bool {
    c as u32 <= 0x1F || 0x7F <= c as u32 <= 0x9F
}

/// True for the characters that can be inserted where `allowed` lists the
/// control characters that can: all characters but the other control characters.
pub open spec fn accepts(c: char, allowed: Seq<char>) -> bool {
    !is_control(c) || allowed.contains(c)
}

/// Tells whether a character can be inserted where `allowed` lists the
/// control characters that can.
pub fn accepts_char(c: char, allowed: &Vec<char>) -> (accepted: bool)
    ensures
        accepted == accepts(c, allowed@),
{
    let code = c as u32;
    if !(code <= 0x1F || (0x7F <= code && code <= 0x9F)) {
        return true;
    }
    let n = allowed.len();
    let mut k: usize = 0;
    while k < n
        invariant
            k <= n,
            n == allowed@.len(),
            forall|j: int| 0 <= j < k ==> allowed@[j] != c,
        decreases n - k,
    {
        if allowed[k] == c {
            return true;
        }
        k += 1;
    }
    false
}

impl LineView {
    /// An unshaped line that holds the one character `c`, with the given
    /// default attributes and no spans.
    pub open spec fn of_char(c: char, list: AttrsListView) -> LineView {
        LineView {
            text: seq![c],
            attrs: AttrsListView { defaults: list.defaults, spans: Seq::empty() },
            shape: None,
            layout: None,
        }
    }

    /// The line after the character `c` was inserted at byte offset `index`:
    /// cut there, with `c` and then the rest appended.
    pub open spec fn with_char(self, index: int, c: char) -> LineView {
        self.head(index).joined(LineView::of_char(c, self.attrs)).joined(self.tail(index))
    }

    /// The line without its bytes `[from, to)`: cut at `to`, cut again at
    /// `from`, with what lay from `to` on appended.
    pub open spec fn without(self, from: int, to: int) -> LineView {
        self.head(to).head(from).joined(self.tail(to))
    }
}

impl BufferView {
    /// The line that the cursor is on.
    pub open spec fn line(self) -> LineView {
        self.lines[self.cursor.line as int]
    }

    /// The buffer after [`TextAction::Previous`]: the cursor is one grapheme
    /// cluster further back, at the end of the line before at the start of a
    /// line, and stays at the start of the first line.
    pub open spec fn previous(self) -> BufferView {
        if self.cursor.index > 0 {
            BufferView {
                cursor: TextCursor {
                    index: prev_boundary(self.line().text, self.cursor.index as int) as usize,
                    ..self.cursor
                },
                redraw: true,
                cursor_x: None,
                ..self
            }
        } else if self.cursor.line > 0 {
            BufferView {
                cursor: TextCursor {
                    line: (self.cursor.line - 1) as usize,
                    index: byte_len(self.lines[self.cursor.line - 1].text) as usize,
                },
                redraw: true,
                cursor_x: None,
                ..self
            }
        } else {
            BufferView { cursor_x: None, ..self }
        }
    }

    /// The buffer after [`TextAction::Next`]: the cursor is one grapheme
    /// cluster further on, at the start of the next line at the end of a line,
    /// and stays at the end of the last line.
    pub open spec fn next(self) -> BufferView {
        if self.cursor.index < byte_len(self.line().text) {
            BufferView {
                cursor: TextCursor {
                    index: next_boundary(self.line().text, self.cursor.index as int) as usize,
                    ..self.cursor
                },
                redraw: true,
                cursor_x: None,
                ..self
            }
        } else if self.cursor.line + 1 < self.lines.len() {
            BufferView {
                cursor: TextCursor { line: (self.cursor.line + 1) as usize, index: 0 },
                redraw: true,
                cursor_x: None,
                ..self
            }
        } else {
            BufferView { cursor_x: None, ..self }
        }
    }

    /// The buffer after [`TextAction::Left`]: as after `Previous` in a
    /// left-to-right line and as after `Next` in a right-to-left line;
    /// unchanged while the cursor's line is not shaped.
    pub open spec fn left(self) -> BufferView {
        match self.line().shape {
            Some(shape) => if shape.rtl {
                self.next()
            } else {
                self.previous()
            },
            None => self,
        }
    }

    /// The buffer after [`TextAction::Right`]: as after `Next` in a
    /// left-to-right line and as after `Previous` in a right-to-left line;
    /// unchanged while the cursor's line is not shaped.
    pub open spec fn right(self) -> BufferView {
        match self.line().shape {
            Some(shape) => if shape.rtl {
                self.previous()
            } else {
                self.next()
            },
            None => self,
        }
    }

    /// The buffer after [`TextAction::Insert`]: a character that can be
    /// inserted stands at the cursor, with the default attributes of the line.
    /// The cursor is behind it, or at the nearest grapheme cluster boundary
    /// before that. A character that cannot be inserted changes nothing.
    pub open spec fn inserted(self, c: char) -> BufferView {
        if accepts(c, self.allowed) {
            let line = self.line().with_char(self.cursor.index as int, c);
            BufferView {
                lines: self.lines.update(self.cursor.line as int, line),
                cursor: TextCursor {
                    index: floor_boundary(line.text, self.cursor.index + byte_len(seq![c]))
                        as usize,
                    ..self.cursor
                },
                ..self
            }
        } else {
            self
        }
    }

    /// The buffer after [`TextAction::Enter`]: the cursor's line is cut at the
    /// cursor into two lines, and the cursor is at the start of the second.
    pub open spec fn entered(self) -> BufferView {
        let at = self.cursor.line as int;
        BufferView {
            lines: self.lines.update(at, self.line().head(self.cursor.index as int)).insert(
                at + 1,
                self.line().tail(self.cursor.index as int),
            ),
            cursor: TextCursor { line: (at + 1) as usize, index: 0 },
            ..self
        }
    }

    /// The buffer after the line at `at` was appended to the line before it.
    pub open spec fn merged(self, at: int) -> Seq<LineView> {
        self.lines.update(at - 1, self.lines[at - 1].joined(self.lines[at])).remove(at)
    }

    /// The buffer after [`TextAction::Backspace`]: the grapheme cluster before
    /// the cursor is gone; at the start of a line, the line is appended to the
    /// line before it. The cursor is where the text was joined, or at the
    /// nearest grapheme cluster boundary before that. At the start of the
    /// first line nothing changes.
    pub open spec fn backspaced(self) -> BufferView {
        let at = self.cursor.line as int;
        if self.cursor.index > 0 {
            let from = prev_boundary(self.line().text, self.cursor.index as int);
            let line = self.line().without(from, self.cursor.index as int);
            BufferView {
                lines: self.lines.update(at, line),
                cursor: TextCursor {
                    index: floor_boundary(line.text, from) as usize,
                    ..self.cursor
                },
                ..self
            }
        } else if self.cursor.line > 0 {
            let lines = self.merged(at);
            BufferView {
                lines,
                cursor: TextCursor {
                    line: (at - 1) as usize,
                    index: floor_boundary(
                        lines[at - 1].text,
                        byte_len(self.lines[at - 1].text) as int,
                    ) as usize,
                },
                ..self
            }
        } else {
            self
        }
    }

    /// The buffer after [`TextAction::Delete`]: the grapheme cluster at the
    /// cursor is gone; at the end of a line, the next line is appended to it.
    /// The cursor stays, or is at the nearest grapheme cluster boundary before
    /// its place. At the end of the last line nothing changes.
    pub open spec fn deleted(self) -> BufferView {
        let at = self.cursor.line as int;
        if self.cursor.index < byte_len(self.line().text) {
            let to = next_boundary(self.line().text, self.cursor.index as int);
            let line = self.line().without(self.cursor.index as int, to);
            BufferView {
                lines: self.lines.update(at, line),
                cursor: TextCursor {
                    index: floor_boundary(line.text, self.cursor.index as int) as usize,
                    ..self.cursor
                },
                ..self
            }
        } else if at + 1 < self.lines.len() {
            let lines = self.merged(at + 1);
            BufferView {
                lines,
                cursor: TextCursor {
                    index: floor_boundary(lines[at].text, self.cursor.index as int) as usize,
                    ..self.cursor
                },
                ..self
            }
        } else {
            self
        }
    }

    /// The glyph index that vertical movement tries to keep: the one noted
    /// before, and else that of the cursor.
    pub open spec fn anchor(self, at: TextLayoutCursor) -> usize {
        match self.cursor_x {
            Some(glyph) => glyph,
            None => at.glyph,
        }
    }

    /// Where [`TextAction::Up`] takes a cursor that is at `at`: one row up;
    /// from the first row of a line, to the last row of the line before. The
    /// glyph is `glyph`.
    pub open spec fn above(at: TextLayoutCursor, glyph: usize) -> TextLayoutCursor {
        if at.layout > 0 {
            TextLayoutCursor { layout: (at.layout - 1) as usize, glyph, ..at }
        } else if at.line > 0 {
            TextLayoutCursor { line: (at.line - 1) as usize, layout: usize::MAX, glyph }
        } else {
            TextLayoutCursor { glyph, ..at }
        }
    }

    /// Where [`TextAction::Down`] takes a cursor that is at `at` in a line
    /// of `rows` visual rows: one row down; from the last row of a line, to
    /// the first row of the next line. The glyph is `glyph`.
    pub open spec fn below(self, at: TextLayoutCursor, rows: int, glyph: usize) -> TextLayoutCursor {
        if at.layout + 1 < rows {
            TextLayoutCursor { layout: (at.layout + 1) as usize, glyph, ..at }
        } else if at.line + 1 < self.lines.len() {
            TextLayoutCursor { line: (at.line + 1) as usize, layout: 0, glyph }
        } else {
            TextLayoutCursor { glyph, ..at }
        }
    }

    /// True when this is the buffer `old` after [`TextAction::Up`]: the glyph
    /// to keep is noted, and the cursor is put one row up.
    pub open spec fn up_from(self, old: BufferView) -> bool {
        let at = old.layout_cursor(old.cursor)->Ok_0;
        let glyph = old.anchor(at);
        self.moved_to(BufferView { cursor_x: Some(glyph), ..old }, Self::above(at, glyph))
    }

    /// True when this is the buffer `old` after the line at `line` was shaped
    /// and laid out, if it was not. Nothing else has changed.
    pub open spec fn laid_out_from(self, old: BufferView, line: int) -> bool {
        &&& self == (BufferView { lines: self.lines, ..old })
        &&& crate::buffer::shaped_from(self.lines, old.lines)
        &&& forall|j: int|
            0 <= j < self.lines.len() && j != line ==> (#[trigger] self.lines[j]) == old.lines[j]
        &&& self.lines[line].ready()
    }

    /// True when this is the buffer `old` after [`TextAction::Down`]: the
    /// cursor's line is laid out, the glyph to keep is noted, and the cursor
    /// is put one row down from where it was before the line was laid out.
    pub open spec fn down_from(self, old: BufferView) -> bool {
        let at = old.layout_cursor(old.cursor)->Ok_0;
        let glyph = old.anchor(at);
        exists|mid: BufferView| #[trigger]
            mid.laid_out_from(old, old.cursor.line as int) && self.moved_to(
                BufferView { cursor_x: Some(glyph), ..mid },
                mid.below(at, mid.line().rows(), glyph),
            )
    }

    /// True when this is the buffer `old` after [`TextAction::Home`] or
    /// [`TextAction::End`]: the cursor is put at position `glyph` of its row,
    /// and no glyph is kept for vertical movement.
    pub open spec fn row_end_from(self, old: BufferView, glyph: usize) -> bool {
        let at = old.layout_cursor(old.cursor)->Ok_0;
        self.moved_to(BufferView { cursor_x: None, ..old }, TextLayoutCursor { glyph, ..at })
    }

    /// The buffer after a hit test gave `hit`: the cursor is where the hit
    /// was, and a redraw is due if that moved it; no hit changes nothing.
    pub open spec fn pointed(self, hit: Option<TextCursor>) -> BufferView {
        match hit {
            Some(cursor) => BufferView {
                cursor,
                redraw: self.redraw || cursor != self.cursor,
                ..self
            },
            None => self,
        }
    }

    /// The buffer after [`TextAction::Click`]: there is no selection, and the
    /// cursor is where the hit test puts it.
    pub open spec fn clicked(self, x: int, y: int) -> BufferView {
        (BufferView { select: None, ..self }).pointed(self.hit(x, y))
    }

    /// The buffer after [`TextAction::Drag`]: a selection starts at the
    /// cursor if there was none, which makes a redraw due, and the cursor is
    /// where the hit test puts it.
    pub open spec fn dragged(self, x: int, y: int) -> BufferView {
        let held = if self.select is None {
            BufferView { select: Some(self.cursor), redraw: true, ..self }
        } else {
            self
        };
        held.pointed(self.hit(x, y))
    }

    /// True when this is the buffer `old` after an action that scrolls by
    /// `rows` visual rows: a redraw is due, and the buffer is shaped for the
    /// viewport at the new place.
    pub open spec fn scrolled_by(self, old: BufferView, rows: int) -> bool {
        self.scrolled_from(BufferView { redraw: true, ..old }, old.scroll + rows)
    }

    /// True when this is the buffer `old` after `action`, before it is noted
    /// whether the cursor has moved.
    pub open spec fn stepped_from(self, old: BufferView, action: TextAction) -> bool {
        match action {
            TextAction::Previous => self == old.previous(),
            TextAction::Next => self == old.next(),
            TextAction::Left => self == old.left(),
            TextAction::Right => self == old.right(),
            TextAction::Up => self.up_from(old),
            TextAction::Down => self.down_from(old),
            TextAction::Home => self.row_end_from(old, 0),
            TextAction::End => self.row_end_from(old, usize::MAX),
            TextAction::PageUp => self.scrolled_by(old, -old.visible_rows()),
            TextAction::PageDown => self.scrolled_by(old, old.visible_rows()),
            TextAction::Insert(c) => self == old.inserted(c),
            TextAction::Enter => self == old.entered(),
            TextAction::Backspace => self == old.backspaced(),
            TextAction::Delete => self == old.deleted(),
            TextAction::Click { x, y } => self == old.clicked(x as int, y as int),
            TextAction::Drag { x, y } => self == old.dragged(x as int, y as int),
            TextAction::Scroll { lines } => self.scrolled_by(old, lines as int),
        }
    }

    /// The buffer with the note that the cursor has moved, if it is not where
    /// it is in `old`.
    pub open spec fn noted(self, old: BufferView) -> BufferView {
        BufferView { cursor_moved: self.cursor_moved || self.cursor != old.cursor, ..self }
    }

    /// True when this is the buffer `old` after `action`.
    pub open spec fn acted_from(self, old: BufferView, action: TextAction) -> bool {
        exists|step: BufferView| #[trigger]
            step.stepped_from(old, action) && self == step.noted(old)
    }
}

/// No character boundary lies inside the encoding of one character.
proof fn lemma_inside_char(c: char, i: int)
    requires
        0 < i < byte_len(seq![c]),
    ensures
        !on_char_boundary(seq![c], i),
        byte_len(seq![c]) >= 1,
{
    let bytes = encode_utf8(seq![c]);
    encode_utf8_first_scalar(seq![c]);
    vstd::utf8::encode_utf8_valid_utf8(seq![c]);
    assert(seq![c].drop_first() =~= Seq::<char>::empty());
    assert(encode_utf8(Seq::<char>::empty()) =~= Seq::<u8>::empty());
    assert(seq![c][0] == c);
    assert(bytes =~= vstd::utf8::encode_scalar(c as u32) + encode_utf8(seq![c].drop_first()));
    assert(bytes =~= vstd::utf8::encode_scalar(c as u32));
    reveal_with_fuel(is_char_boundary, 2);
}

/// Inserting a character and then deleting backwards restores the text of
/// every line and the cursor, where the buffers before and after the
/// insertion are well formed, the character can be inserted, and it stands as a grapheme
/// cluster of its own: the offsets before and behind it are grapheme cluster
/// boundaries of the line that holds it.
pub proof fn lemma_insert_then_backspace(buffer: BufferView, c: char)
    requires
        buffer.wf(),
        buffer.inserted(c).wf(),
        accepts(c, buffer.allowed),
        is_boundary(
            buffer.line().with_char(buffer.cursor.index as int, c).text,
            buffer.cursor.index as int,
        ),
        is_boundary(
            buffer.line().with_char(buffer.cursor.index as int, c).text,
            buffer.cursor.index + byte_len(seq![c]),
        ),
    ensures
        buffer.inserted(c).noted(buffer).backspaced().cursor == buffer.cursor,
        buffer.inserted(c).noted(buffer).backspaced().lines.len() == buffer.lines.len(),
        forall|j: int|
            0 <= j < buffer.lines.len() ==> (#[trigger] buffer.inserted(c).noted(
                buffer,
            ).backspaced().lines[j]).text == buffer.lines[j].text,
{
    let at = buffer.cursor.line as int;
    let i = buffer.cursor.index as int;
    let text = buffer.line().text;
    let before = crate::text::text_before(text, i);
    let behind = crate::text::text_from(text, i);
    let one = seq![c];
    let len = byte_len(one) as int;
    let line = buffer.line().with_char(i, c);
    let first = buffer.inserted(c).noted(buffer);
    let second = first.backspaced();

    lemma_boundary_in_text(text, i);
    lemma_split_join(text, i);
    lemma_encode_concat(before, one);
    lemma_encode_concat(before + one, behind);
    assert(line.text == (before + one) + behind);
    assert(first.lines[at] == line);
    assert(line.wf());

    // The cursor is behind the character.
    assert(len >= 1) by {
        encode_utf8_first_scalar(one);
    }
    lemma_floor_boundary(line.text, i + len);
    assert(first.cursor.index == i + len);

    // The boundary before the cursor is the one in front of the character.
    lemma_prev_boundary(line.text, i + len);
    let from = prev_boundary(line.text, i + len);
    assert(from == i) by {
        if from < i {
            assert(!is_boundary(line.text, i));
        }
        if from > i {
            lemma_boundary_in_text(line.text, from);
            lemma_boundary_in_concat(before + one, behind, from);
            lemma_boundary_in_concat(before, one, from);
            lemma_inside_char(c, from - i);
        }
    }

    // What is left is the text as it was.
    lemma_join_split(before + one, behind);
    lemma_join_split(before, one);
    let left = line.without(i, i + len);
    assert(left.text == before + behind);
    assert(left.text == text);
    lemma_floor_boundary(text, i);
    assert(second.lines == first.lines.update(at, left));
    assert(second.cursor == buffer.cursor);
    assert forall|j: int| 0 <= j < buffer.lines.len() implies (#[trigger] second.lines[j]).text
        == buffer.lines[j].text by {
        if j != at {
            assert(second.lines[j] == buffer.lines[j]);
        }
    }
}

/// In a line of printable ASCII characters, inserting a printable ASCII
/// character and then deleting backwards restores the text of every line and
/// the cursor, where the buffers before and after the insertion are well formed.
pub proof fn lemma_insert_then_backspace_plain(buffer: BufferView, c: char)
    requires
        buffer.wf(),
        buffer.inserted(c).wf(),
        is_plain(buffer.line().text),
        ' ' <= c <= '~',
    ensures
        accepts(c, buffer.allowed),
        buffer.inserted(c).noted(buffer).backspaced().cursor == buffer.cursor,
        buffer.inserted(c).noted(buffer).backspaced().lines.len() == buffer.lines.len(),
        forall|j: int|
            0 <= j < buffer.lines.len() ==> (#[trigger] buffer.inserted(c).noted(
                buffer,
            ).backspaced().lines[j]).text == buffer.lines[j].text,
{
    let at = buffer.cursor.line as int;
    let i = buffer.cursor.index as int;
    let text = buffer.line().text;
    let before = crate::text::text_before(text, i);
    let behind = crate::text::text_from(text, i);
    let one = seq![c];
    let made = buffer.line().with_char(i, c);
    lemma_boundary_in_text(text, i);
    lemma_split_join(text, i);
    lemma_encode_concat(before, one);
    lemma_encode_concat(before + one, behind);
    assert(made.text == (before + one) + behind);
    assert(buffer.inserted(c).lines[at] == made);
    assert(made.wf());
    assert(is_plain(made.text)) by {
        assert forall|k: int| 0 <= k < made.text.len() implies ' ' <= #[trigger] made.text[k]
            <= '~' by {
            if k < before.len() {
                assert(made.text[k] == text[k]);
            } else if k > before.len() {
                assert(made.text[k] == text[k - 1]);
            }
        }
    }
    lemma_plain_boundaries(made.text);
    assert(is_plain(one));
    assert(0 <= i && i + byte_len(one) <= made.text.len());
    lemma_insert_then_backspace(buffer, c);
}

/// True when every span ends by `lo` or starts from `hi` on, none with its
/// end before its start.
pub open spec fn spans_apart(spans: Seq<Span>, lo: int, hi: int) -> bool {
    forall|k: int|
        0 <= k < spans.len() ==> (#[trigger] spans[k]).start <= spans[k].end && (spans[k].end <= lo
            || spans[k].start >= hi)
}

/// Joining spans that leave a gap leaves the gap.
proof fn lemma_coalesce_apart(spans: Seq<Span>, lo: int, hi: int)
    requires
        spans_apart(spans, lo, hi),
        lo < hi,
    ensures
        spans_apart(coalesce(spans), lo, hi),
    decreases spans.len(),
{
    if spans.len() >= 2 {
        if spans[0].joins(spans[1]) {
            let merged = seq![Span { end: spans[1].end, ..spans[0] }] + spans.skip(2);
            assert forall|k: int| 0 <= k < merged.len() implies (#[trigger] merged[k]).start
                <= merged[k].end && (merged[k].end <= lo || merged[k].start >= hi) by {
                if k > 0 {
                    assert(merged[k] == spans[k + 1]);
                } else {
                    assert(spans[0].start <= spans[0].end);
                    assert(spans[1].start <= spans[1].end);
                }
            }
            lemma_coalesce_apart(merged, lo, hi);
        } else {
            let rest = spans.skip(1);
            assert forall|k: int| 0 <= k < rest.len() implies (#[trigger] rest[k]).start
                <= rest[k].end && (rest[k].end <= lo || rest[k].start >= hi) by {
                assert(rest[k] == spans[k + 1]);
            }
            lemma_coalesce_apart(rest, lo, hi);
            let joined = seq![spans[0]] + coalesce(rest);
            assert forall|k: int| 0 <= k < joined.len() implies (#[trigger] joined[k]).start
                <= joined[k].end && (joined[k].end <= lo || joined[k].start >= hi) by {
                if k > 0 {
                    assert(joined[k] == coalesce(rest)[k - 1]);
                }
            }
        }
    }
}

/// Adding spans behind a gap to spans that leave the gap leaves the gap.
proof fn lemma_add_shifted_apart(
    list: AttrsListView,
    spans: Seq<Span>,
    shift: int,
    lo: int,
    hi: int,
)
    requires
        spans_apart(list.spans, lo, hi),
        lo < hi <= shift,
        forall|k: int| 0 <= k < spans.len() ==> 0 <= (#[trigger] spans[k]).start <= spans[k].end,
    ensures
        spans_apart(add_shifted(list, spans, shift).spans, lo, hi),
        add_shifted(list, spans, shift).defaults == list.defaults,
    decreases spans.len(),
{
    if spans.len() > 0 {
        let front = spans.drop_last();
        assert forall|k: int| 0 <= k < front.len() implies 0 <= (#[trigger] front[k]).start
            <= front[k].end by {
            assert(front[k] == spans[k]);
        }
        lemma_add_shifted_apart(list, front, shift, lo, hi);
        let before = add_shifted(list, front, shift).spans;
        let last = spans.last();
        assert(0 <= last.start <= last.end);
        let pushed = before.push(
            Span { start: last.start + shift, end: last.end + shift, attrs: last.attrs },
        );
        assert forall|k: int| 0 <= k < pushed.len() implies (#[trigger] pushed[k]).start
            <= pushed[k].end && (pushed[k].end <= lo || pushed[k].start >= hi) by {
            if k < before.len() {
                assert(pushed[k] == before[k]);
            }
        }
        lemma_coalesce_apart(pushed, lo, hi);
    }
}

/// A character that is inserted has the default attributes of its line: no
/// span of the line holds the bytes that encode it.
pub proof fn lemma_inserted_char_has_default_style(line: LineView, index: int, c: char)
    requires
        line.wf(),
        on_char_boundary(line.text, index),
    ensures
        line.with_char(index, c).attrs.lookup(index, index + byte_len(seq![c]))
            == line.attrs.defaults,
{
    let len = byte_len(seq![c]) as int;
    let made = line.with_char(index, c);
    encode_utf8_first_scalar(seq![c]);
    lemma_split_join(line.text, index);
    lemma_encode_concat(line.head(index).text, seq![c]);
    lemma_split_within(line.attrs.spans, index, byte_len(line.text) as int);
    let kept = line.attrs.kept(index);
    let moved = line.attrs.moved(index);
    assert(spans_apart(kept.spans, index, index + len));
    // The character brings no span, and its defaults are those of the line.
    let first = line.head(index).joined(LineView::of_char(c, line.attrs));
    assert(first.attrs == kept);
    assert(byte_len(first.text) == index + len);
    // The rest of the line follows behind the character.
    assert(made.attrs == add_shifted(kept, moved.spans, index + len));
    lemma_add_shifted_apart(kept, moved.spans, index + len, index, index + len);
    assert forall|k: int| 0 <= k < made.attrs.spans.len() implies !(
    #[trigger] made.attrs.spans[k]).contains_range(index, index + len) by {}
    lemma_lookup(made.attrs, index, index + len);
}

} // verus!
