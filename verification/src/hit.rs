//! Hit-testing: from a pixel position to a cursor.

use crate::buffer::{BufferView, TextBuffer, TextCursor};
use crate::layout::{LayoutGlyph, Shaper};
use crate::runs::{visible_runs, RunView};
use crate::text::byte_len;
use crate::text::{
    boundaries, boundaries_of, first_above, floor_boundary, floor_index, lemma_first_above,
    snap_to_boundary,
};
use vstd::prelude::*;

verus! {

/// The end of the grapheme cluster that starts at or around byte offset `pos`,
/// within a glyph cluster that ends at `end`: the first of the offsets `b`
/// after `pos`, where it lies before `end`, and `end` otherwise.
pub open spec fn next_cut(b: Seq<usize>, pos: usize, end: usize) -> usize {
    let above = first_above(b, pos as int);
    if pos < above < end {
        above as usize
    } else {
        end
    }
}

/// The offsets at which the bytes `[pos, end)` of a glyph cluster are cut into
/// grapheme clusters, given the grapheme cluster boundaries `b` of the line:
/// `pos`, each boundary between `pos` and `end`, and `end`. A cluster of no
/// bytes has the one offset `pos`.
pub open spec fn cuts(b: Seq<usize>, pos: usize, end: usize) -> Seq<usize>
    decreases end - pos,
{
    if pos >= end {
        seq![pos]
    } else {
        seq![pos] + cuts(b, next_cut(b, pos, end), end)
    }
}

/// True when `x` lies in the box that starts at `left` and is `width` wide,
/// edges included.
pub open spec fn spans_x(left: int, width: int, x: int) -> bool {
    x >= left && x <= left + width
}

/// True when `x` lies in the right half of the box that starts at `left` and
/// is `width` wide, or right of it.
pub open spec fn past_half(left: int, width: int, x: int) -> bool {
    x >= left + width / 2
}

/// The width that each of the `total` grapheme clusters of a glyph is taken
/// to have: the same for all.
pub open spec fn egc_width(glyph: LayoutGlyph, total: int) -> int {
    if total > 0 && glyph.w >= 0 {
        glyph.w as int / total
    } else {
        0
    }
}

/// The first of the grapheme clusters `from..total` of a glyph whose box holds `x`.
pub open spec fn egc_at(glyph: LayoutGlyph, total: int, x: int, from: int) -> Option<int>
    decreases total - from,
{
    if from >= total {
        None
    } else if spans_x(glyph.x + from * egc_width(glyph, total), egc_width(glyph, total), x) {
        Some(from)
    } else {
        egc_at(glyph, total, x, from + 1)
    }
}

/// The byte offset that a hit at `x` on a glyph stands for, where `cuts` are
/// the offsets that cut the glyph's cluster into grapheme clusters. A hit on a
/// grapheme cluster gives the side of it that is nearer: its start for the
/// left half, its end for the right half, and the other way round in a
/// right-to-left glyph. A hit on none of them gives the nearer side of the glyph.
pub open spec fn glyph_hit(glyph: LayoutGlyph, cuts: Seq<usize>, x: int) -> int {
    let total = cuts.len() - 1;
    let w = egc_width(glyph, total);
    match egc_at(glyph, total, x, 0) {
        Some(k) => if past_half(glyph.x + k * w, w, x) != glyph.rtl {
            cuts[k + 1] as int
        } else {
            cuts[k] as int
        },
        None => if past_half(glyph.x as int, glyph.w as int, x) != glyph.rtl {
            cuts.last() as int
        } else {
            cuts[0] as int
        },
    }
}

/// The first of the glyphs `from..` whose advance box holds `x`.
pub open spec fn glyph_under(glyphs: Seq<LayoutGlyph>, x: int, from: int) -> Option<int>
    decreases glyphs.len() - from,
{
    if from >= glyphs.len() {
        None
    } else if spans_x(glyphs[from].x as int, glyphs[from].w as int, x) {
        Some(from)
    } else {
        glyph_under(glyphs, x, from + 1)
    }
}

/// The byte offset that a hit at `x` on a visual row stands for, given the
/// grapheme cluster boundaries `b` of the line: what the first glyph under `x`
/// gives, and the end of the row where no glyph is under `x`.
pub open spec fn row_hit(glyphs: Seq<LayoutGlyph>, b: Seq<usize>, x: int) -> int {
    match glyph_under(glyphs, x, 0) {
        Some(i) => glyph_hit(glyphs[i], cuts(b, glyphs[i].start, glyphs[i].end), x),
        None => if glyphs.len() > 0 {
            glyphs.last().end as int
        } else {
            0
        },
    }
}

/// True when `y` lies in the band of a visual row with its baseline at
/// `line_y`: from one font size above the baseline, one line height down.
pub open spec fn in_band(buffer: BufferView, line_y: int, y: int) -> bool {
    y >= line_y - buffer.metrics.font_size && y < line_y - buffer.metrics.font_size
        + buffer.metrics.line_height
}

/// The byte offset that a hit at `x` on the visual row `run` stands for: the
/// offset that the row gives, moved back to the nearest grapheme cluster boundary.
pub open spec fn run_index(buffer: BufferView, run: RunView, x: int) -> int {
    let line = buffer.lines[run.line_i];
    floor_boundary(
        line.text,
        row_hit(line.visual_rows()[run.layout_i].glyphs@, boundaries(line.text), x),
    )
}

/// The cursor that a hit at `x` on the visual row `run` stands for: in the
/// line of the row, at the byte offset that the row gives.
pub open spec fn run_cursor(buffer: BufferView, run: RunView, x: int) -> TextCursor {
    TextCursor { line: run.line_i as usize, index: run_index(buffer, run, x) as usize }
}

/// The first of the rows `runs` whose band holds `y`.
pub open spec fn run_under(buffer: BufferView, runs: Seq<RunView>, y: int) -> Option<RunView>
    decreases runs.len(),
{
    if runs.len() == 0 {
        None
    } else if in_band(buffer, runs[0].line_y as int, y) {
        Some(runs[0])
    } else {
        run_under(buffer, runs.drop_first(), y)
    }
}

/// The cursor that a hit at `(x, y)` stands for among the rows `runs`: that
/// of the first row whose band holds `y`.
pub open spec fn hit_among(buffer: BufferView, runs: Seq<RunView>, x: int, y: int) -> Option<
    TextCursor,
>
    decreases runs.len(),
{
    if runs.len() == 0 {
        None
    } else if in_band(buffer, runs[0].line_y as int, y) {
        Some(run_cursor(buffer, runs[0], x))
    } else {
        hit_among(buffer, runs.drop_first(), x, y)
    }
}

impl BufferView {
    /// The cursor that a hit at `(x, y)` stands for: that of the first visible
    /// row whose band holds `y`, and none where there is no such row.
    pub open spec fn hit(self, x: int, y: int) -> Option<TextCursor> {
        hit_among(self, visible_runs(self), x, y)
    }
}

/// No offset is found above one that none of the offsets exceeds.
proof fn lemma_none_above(b: Seq<usize>, i: int)
    requires
        forall|k: int| 0 <= k < b.len() ==> b[k] <= i,
    ensures
        first_above(b, i) == i,
    decreases b.len(),
{
    if b.len() > 0 {
        assert(b[0] <= i);
        let rest = b.drop_first();
        assert forall|k: int| 0 <= k < rest.len() implies rest[k] <= i by {
            assert(rest[k] == b[k + 1]);
        }
        lemma_none_above(rest, i);
    }
}

/// The offsets at which the bytes `[start, end)` of a glyph cluster are cut
/// into grapheme clusters, given the boundaries `b` of the line.
pub fn cluster_cuts(b: &Vec<usize>, start: usize, end: usize) -> (out: Vec<usize>)
    requires
        b@.len() > 0,
        b@[0] == 0,
        forall|p: int, q: int| 0 <= p < q < b@.len() ==> b@[p] < b@[q],
    ensures
        out@ == cuts(b@, start, end),
        out@.len() >= 1,
        out@[0] == start,
{
    let mut out: Vec<usize> = Vec::new();
    out.push(start);
    if start >= end {
        return out;
    }
    let n = b.len();
    let mut k = floor_index(b, start);
    let mut pos = start;
    assert(out@.drop_last() =~= Seq::<usize>::empty());
    assert(Seq::<usize>::empty() + cuts(b@, start, end) =~= cuts(b@, start, end));
    while pos < end
        invariant
            n == b@.len(),
            b@.len() > 0,
            forall|p: int, q: int| 0 <= p < q < b@.len() ==> b@[p] < b@[q],
            k < n,
            b@[k as int] <= pos,
            pos < end && k + 1 < n ==> b@[k + 1] > pos,
            start <= pos <= end,
            out@.len() >= 1,
            out@[0] == start,
            out@.last() == pos,
            cuts(b@, start, end) == out@.drop_last() + cuts(b@, pos, end),
        decreases end - pos,
    {
        proof {
            if k + 1 < n {
                lemma_first_above(b@, pos as int, k + 1);
            } else {
                assert forall|j: int| 0 <= j < b@.len() implies b@[j] <= pos by {
                    assert(j == k || b@[j] < b@[k as int]);
                }
                lemma_none_above(b@, pos as int);
            }
        }
        let ghost seen = out@;
        let next = if k + 1 < n && b[k + 1] < end {
            k += 1;
            assert(k + 1 < n ==> b@[k as int] < b@[k + 1]);
            b[k]
        } else {
            end
        };
        assert(next == next_cut(b@, pos, end));
        out.push(next);
        proof {
            assert(out@.drop_last() =~= seen);
            assert(seen =~= seen.drop_last() + seq![pos]);
            assert(seen.drop_last() + (seq![pos] + cuts(b@, next, end)) =~= seen + cuts(
                b@,
                next,
                end,
            ));
        }
        pos = next;
    }
    assert(cuts(b@, pos, end) =~= seq![pos]);
    assert(out@ =~= out@.drop_last() + seq![pos]);
    out
}

/// The width that each of the `total` grapheme clusters of a glyph is taken to have.
pub fn egc_width_of(glyph: &LayoutGlyph, total: usize) -> (w: i32)
    ensures
        w == egc_width(*glyph, total as int),
        0 <= w,
        glyph.w >= 0 ==> w <= glyph.w,
        forall|k: int| 0 <= k <= total && glyph.w >= 0 ==> 0 <= #[trigger] (k * w) <= glyph.w,
{
    if total == 0 || glyph.w < 0 {
        assert forall|k: int| 0 <= k <= total && glyph.w >= 0 implies 0 <= #[trigger] (k * 0)
            <= glyph.w by {
            assert(k * 0 == 0) by (nonlinear_arith);
        }
        0
    } else if total > glyph.w as usize {
        assert(glyph.w as int / total as int == 0) by (nonlinear_arith)
            requires
                0 <= glyph.w < total,
        ;
        assert forall|k: int| 0 <= k <= total && glyph.w >= 0 implies 0 <= #[trigger] (k * 0)
            <= glyph.w by {
            assert(k * 0 == 0) by (nonlinear_arith);
        }
        0
    } else {
        let w = glyph.w / (total as i32);
        assert forall|k: int| 0 <= k <= total && glyph.w >= 0 implies 0 <= #[trigger] (k * w)
            <= glyph.w by {
            lemma_share_bound(glyph.w as int, total as int, k);
        }
        assert(0 <= glyph.w as int / total as int <= glyph.w) by (nonlinear_arith)
            requires
                0 <= glyph.w,
                0 < total,
        ;
        w
    }
}

/// Some of the equal shares of a width are no wider than the width.
proof fn lemma_share_bound(w: int, total: int, k: int)
    by (nonlinear_arith)
    requires
        0 <= w,
        0 < total,
        0 <= k <= total,
    ensures
        0 <= k * (w / total) <= w,
{
    assert(0 <= w / total);
    assert((w / total) * total <= w);
    assert(k * (w / total) <= total * (w / total));
}

/// The byte offset that a hit at `x` on a glyph stands for.
pub fn hit_glyph(glyph: &LayoutGlyph, cuts: &Vec<usize>, x: i32) -> (index: usize)
    requires
        cuts@.len() >= 1,
        spans_x(glyph.x as int, glyph.w as int, x as int),
    ensures
        index == glyph_hit(*glyph, cuts@, x as int),
{
    let total = cuts.len() - 1;
    let egc_w = egc_width_of(glyph, total);
    let mut egc_x: i64 = glyph.x as i64;
    let mut k: usize = 0;
    while k < total
        invariant
            k <= total,
            total == cuts@.len() - 1,
            glyph.w >= 0,
            egc_w == egc_width(*glyph, total as int),
            0 <= egc_w <= glyph.w,
            forall|j: int| 0 <= j <= total ==> 0 <= #[trigger] (j * egc_w) <= glyph.w,
            egc_x == glyph.x + k * egc_w,
            egc_at(*glyph, total as int, x as int, 0) == egc_at(
                *glyph,
                total as int,
                x as int,
                k as int,
            ),
        decreases total - k,
    {
        assert(0 <= k * egc_w <= glyph.w);
        if x as i64 >= egc_x && x as i64 <= egc_x + egc_w as i64 {
            let right_half = x as i64 >= egc_x + (egc_w / 2) as i64;
            if right_half != glyph.rtl {
                // If clicking on last half of glyph, move cursor past glyph
                return cuts[k + 1];
            }
            return cuts[k];
        }
        assert((k + 1) * egc_w == k * egc_w + egc_w) by (nonlinear_arith);
        assert(0 <= (k + 1) * egc_w <= glyph.w);
        egc_x += egc_w as i64;
        k += 1;
    }
    let right_half = x as i64 >= glyph.x as i64 + (glyph.w / 2) as i64;
    if right_half != glyph.rtl {
        // If clicking on last half of glyph, move cursor past glyph
        cuts[total]
    } else {
        cuts[0]
    }
}

/// The byte offset that a hit at `x` on a visual row stands for, given the
/// grapheme cluster boundaries `b` of the line.
pub fn hit_row(glyphs: &[LayoutGlyph], b: &Vec<usize>, x: i32) -> (index: usize)
    requires
        b@.len() > 0,
        b@[0] == 0,
        forall|p: int, q: int| 0 <= p < q < b@.len() ==> b@[p] < b@[q],
    ensures
        index == row_hit(glyphs@, b@, x as int),
{
    let n = glyphs.len();
    let mut i: usize = 0;
    while i < n
        invariant
            i <= n,
            n == glyphs@.len(),
            b@.len() > 0,
            b@[0] == 0,
            forall|p: int, q: int| 0 <= p < q < b@.len() ==> b@[p] < b@[q],
            glyph_under(glyphs@, x as int, 0) == glyph_under(glyphs@, x as int, i as int),
        decreases n - i,
    {
        let glyph = &glyphs[i];
        if x as i64 >= glyph.x as i64 && x as i64 <= glyph.x as i64 + glyph.w as i64 {
            let cuts = cluster_cuts(b, glyph.start, glyph.end);
            return hit_glyph(glyph, &cuts, x);
        }
        i += 1;
    }
    if n > 0 {
        // Position at end of line
        glyphs[n - 1].end
    } else {
        0
    }
}

impl<'a, S: Shaper> TextBuffer<'a, S> {
    /// Convert x, y position to TextCursor (hit detection)
    ///
    /// The first visible row whose band holds `y` decides: the cursor is put
    /// at the grapheme cluster boundary that the glyph under `x` gives, and at
    /// the end of the row where no glyph is under `x`. Without such a row
    /// there is no cursor.
    pub fn hit(&self, x: i32, y: i32) -> (cursor: Option<TextCursor>)
        ensures
            cursor == self@.hit(x as int, y as int),
            cursor is Some ==> self@.holds(cursor->0),
            cursor is Some == run_under(self@, visible_runs(self@), y as int) is Some,
            cursor is Some ==> ({
                let run = run_under(self@, visible_runs(self@), y as int)->0;
                &&& run.exists_in(self@)
                &&& cursor->0.line == run.line_i
                &&& cursor->0.index == run_index(self@, run, x as int)
                &&& cursor->0.index <= byte_len(self@.lines[run.line_i].text)
            }),
    {
        let metrics = self.metrics();
        let font_size = metrics.font_size;
        let line_height = metrics.line_height;

        let mut iter = self.layout_runs();
        loop
            invariant
                font_size == self@.metrics.font_size,
                line_height == self@.metrics.line_height,
                self@.hit(x as int, y as int) == hit_among(
                    self@,
                    iter@.rest(self@),
                    x as int,
                    y as int,
                ),
                run_under(self@, visible_runs(self@), y as int) == run_under(
                    self@,
                    iter@.rest(self@),
                    y as int,
                ),
            decreases iter@.rest(self@).len(),
        {
            proof {
                iter@.lemma_rest(self@);
            }
            let ghost rest = iter@.rest(self@);
            let run = match iter.next(self) {
                Some(run) => run,
                None => {
                    return None;
                },
            };
            assert(rest.drop_first() =~= iter@.rest(self@));
            let line_y = run.line_y;
            let top: i64 = line_y as i64 - font_size as i64;
            if y as i64 >= top && (y as i64) < top + line_height as i64 {
                let b = boundaries_of(run.text);
                let raw = hit_row(run.glyphs, &b, x);
                let index = snap_to_boundary(run.text, raw);
                return Some(TextCursor::new(run.line_i, index));
            }
        }
    }
}

} // verus!
