//! Drawing: the rectangles to fill for the selection, the caret and the
//! glyphs of the visible rows, and the outlines of the visible glyphs.

use crate::buffer::{clamped, BufferView, TextBuffer, TextCursor, TextMetrics};
use crate::color::Color;
use crate::hit::{cluster_cuts, cuts, egc_width, egc_width_of};
use crate::layout::{CacheKey, LayoutGlyph, Shaper};
use crate::runs::{clamp_i32, visible_runs, RunView};
use crate::text::{boundaries, boundaries_of};
use swash::scale::outline::Outline;
use vstd::prelude::*;

verus! {

/// A rectangle to fill with a color.
#[derive(Clone, Copy, Debug, PartialEq, Eq, Structural)]
pub struct FillRect {
    /// Left edge in pixels
    pub x: i32,
    /// Top edge in pixels
    pub y: i32,
    /// Width in pixels
    pub w: u32,
    /// Height in pixels
    pub h: u32,
    /// The color to fill with
    pub color: Color,
}

/// A pixel of a glyph's image, placed from the glyph's origin.
#[derive(Clone, Copy, Debug, PartialEq, Eq, Structural)]
pub struct Pixel {
    /// Pixels to the right of the origin
    pub x: i32,
    /// Pixels below the origin
    pub y: i32,
    /// The color of the pixel, with its coverage as alpha
    pub color: Color,
}

/// The outline of a glyph, as the rasterization cache hands it out. The
/// layout engine moves it into place and never looks inside.
#[verifier::external_type_specification]
#[verifier::external_body]
pub struct ExOutline(Outline);

/// The outline `outline` after each of its points was moved `x` pixels to
/// the right and `y` pixels down.
pub uninterp spec fn moved_outline(outline: Outline, x: i32, y: i32) -> Outline;

/// Calls `Outline::transform` with the transform that `Transform::translation`
/// makes for the two offsets, which moves every point of the outline by them.
/// The outline that comes of it depends on the outline and the two offsets
/// alone; it is what [`moved_outline`] names.
#[verifier::external_body]
fn translate_outline(outline: &mut Outline, x: i32, y: i32)
    ensures
        *final(outline) == moved_outline(*old(outline), x, y),
{
    outline.transform(&swash::zeno::Transform::translation(x as _, y as _));
}

/// Finds the images and the outlines of glyphs.
///
/// The engine assumes nothing of what a cache returns.
pub trait GlyphCache {
    /// The pixels that the glyph covers when drawn in `color`, placed from
    /// the glyph's origin.
    fn pixels(&mut self, cache_key: CacheKey, color: Color) -> Vec<Pixel>;

    /// The outline of the glyph, if it has one.
    fn outline(&mut self, cache_key: CacheKey) -> Option<Outline>;
}

/// The two ends of a selection between `select` and `cursor`, the earlier first.
pub open spec fn selection_ends(select: TextCursor, cursor: TextCursor) -> (TextCursor, TextCursor) {
    if select.line > cursor.line {
        (cursor, select)
    } else if select.line < cursor.line {
        (select, cursor)
    } else if select.index < cursor.index {
        (select, cursor)
    } else {
        (cursor, select)
    }
}

/// The horizontal ranges of a row that are to be highlighted: the range that
/// is still growing, and those that are complete.
pub ghost struct Marking {
    pub open: Option<(i32, i32)>,
    pub done: Seq<(i32, i32)>,
}

/// True when the grapheme cluster of bytes `[from, to)`, in line `line_i`,
/// has a part in the selection between `start` and `end`.
pub open spec fn egc_selected(
    line_i: int,
    start: TextCursor,
    end: TextCursor,
    from: int,
    to: int,
) -> bool {
    (start.line != line_i || to > start.index) && (end.line != line_i || from < end.index)
}

/// The marking after one more grapheme cluster, whose box reaches from `left`
/// to `right`: a selected one makes the growing range hold its box, and
/// another one completes the growing range.
pub open spec fn mark_egc(m: Marking, selected: bool, left: i32, right: i32) -> Marking {
    if selected {
        Marking {
            open: Some(
                match m.open {
                    Some((min, max)) => (
                        if left < min {
                            left
                        } else {
                            min
                        },
                        if right > max {
                            right
                        } else {
                            max
                        },
                    ),
                    None => (left, right),
                },
            ),
            ..m
        }
    } else {
        match m.open {
            Some(range) => Marking { open: None, done: m.done.push(range) },
            None => m,
        }
    }
}

/// The marking after the grapheme clusters `k..` of a glyph, which `cuts`
/// cut its cluster into; each has the same share of the glyph's width.
pub open spec fn mark_glyph(
    m: Marking,
    glyph: LayoutGlyph,
    cuts: Seq<usize>,
    line_i: int,
    start: TextCursor,
    end: TextCursor,
    k: int,
) -> Marking
    decreases cuts.len() - 1 - k,
{
    let total = cuts.len() - 1;
    let w = egc_width(glyph, total);
    if k < 0 || k >= total {
        m
    } else {
        mark_glyph(
            mark_egc(
                m,
                egc_selected(line_i, start, end, cuts[k] as int, cuts[k + 1] as int),
                clamped(glyph.x + k * w) as i32,
                clamped(glyph.x + k * w + w) as i32,
            ),
            glyph,
            cuts,
            line_i,
            start,
            end,
            k + 1,
        )
    }
}

/// The marking after the glyphs `i..` of a row, given the grapheme cluster
/// boundaries `b` of the line.
pub open spec fn mark_row(
    m: Marking,
    glyphs: Seq<LayoutGlyph>,
    b: Seq<usize>,
    line_i: int,
    start: TextCursor,
    end: TextCursor,
    i: int,
) -> Marking
    decreases glyphs.len() - i,
{
    if i < 0 || i >= glyphs.len() {
        m
    } else {
        mark_row(
            mark_glyph(
                m,
                glyphs[i],
                cuts(b, glyphs[i].start, glyphs[i].end),
                line_i,
                start,
                end,
                0,
            ),
            glyphs,
            b,
            line_i,
            start,
            end,
            i + 1,
        )
    }
}

/// The horizontal ranges to highlight in a row of line `line_i` for the
/// selection between `start` and `end`: the boxes of the selected grapheme
/// clusters, joined while one follows the other; the last range extended to
/// the edge of the viewport where the selection goes on in a later line, and
/// the whole width for a row without glyphs in such a line.
pub open spec fn highlight_ranges(
    glyphs: Seq<LayoutGlyph>,
    b: Seq<usize>,
    rtl: bool,
    line_i: int,
    start: TextCursor,
    end: TextCursor,
    width: i32,
) -> Seq<(i32, i32)> {
    let m = mark_row(Marking { open: None, done: Seq::empty() }, glyphs, b, line_i, start, end, 0);
    let open = if glyphs.len() == 0 && end.line > line_i {
        Some((0i32, width))
    } else {
        m.open
    };
    match open {
        Some((min, max)) => m.done.push(
            if end.line > line_i {
                if rtl {
                    (0i32, max)
                } else {
                    (min, width)
                }
            } else {
                (min, max)
            },
        ),
        None => m.done,
    }
}

/// The number of the first `k` grapheme clusters of a glyph that start before
/// byte offset `index`, where `cuts` cut the glyph's cluster.
pub open spec fn egcs_before(cuts: Seq<usize>, index: int, k: int) -> int
    decreases k,
{
    if k <= 0 {
        0
    } else {
        egcs_before(cuts, index, k - 1) + if cuts[k - 1] < index {
            1int
        } else {
            0int
        }
    }
}

/// The glyph that the caret stands at, from glyph `i` on, and how far into
/// the glyph: at a glyph whose cluster starts at `index`; inside a glyph whose
/// cluster holds `index`, as many shares of its width in as grapheme clusters
/// start before `index`; behind the last glyph if its cluster ends at
/// `index`; at the start of a row without glyphs.
pub open spec fn caret_glyph(glyphs: Seq<LayoutGlyph>, b: Seq<usize>, index: int, i: int) -> Option<
    (int, int),
>
    decreases glyphs.len() - i,
{
    if i < 0 || i >= glyphs.len() {
        if glyphs.len() == 0 {
            Some((0, 0))
        } else if index == glyphs.last().end {
            Some((glyphs.len() as int, 0))
        } else {
            None
        }
    } else if index == glyphs[i].start {
        Some((i, 0))
    } else if glyphs[i].start < index < glyphs[i].end {
        let c = cuts(b, glyphs[i].start, glyphs[i].end);
        Some((i, egcs_before(c, index, c.len() - 1) * egc_width(glyphs[i], c.len() - 1)))
    } else {
        caret_glyph(glyphs, b, index, i + 1)
    }
}

/// Where the caret stands in a row, in pixels, if the row holds byte offset
/// `index`: at the near edge of its glyph, moved into the glyph by the
/// offset; at the far edge of the last glyph behind it. The near edge is the
/// right one in a right-to-left glyph.
pub open spec fn caret_x(glyphs: Seq<LayoutGlyph>, b: Seq<usize>, index: int) -> Option<i32> {
    match caret_glyph(glyphs, b, index, 0) {
        Some((at, offset)) => Some(
            clamped(
                if at < glyphs.len() {
                    if glyphs[at].rtl {
                        glyphs[at].x + glyphs[at].w - offset
                    } else {
                        glyphs[at].x + offset
                    }
                } else if glyphs.len() > 0 {
                    if glyphs.last().rtl {
                        glyphs.last().x as int
                    } else {
                        glyphs.last().x + glyphs.last().w
                    }
                } else {
                    0
                },
            ) as i32,
        ),
        None => None,
    }
}

/// What a row needs to be drawn, besides its glyphs.
pub struct RowStyle {
    /// The index of the text line of the row
    pub line_i: usize,
    /// True if the paragraph direction is right-to-left
    pub rtl: bool,
    /// The vertical offset of the baseline
    pub line_y: i32,
    /// Font size and line height
    pub metrics: TextMetrics,
    /// The width of the viewport
    pub width: i32,
    /// The color to draw with
    pub color: Color,
}

impl RowStyle {
    /// The rectangle of a row that covers the horizontal range `range`, in `color`.
    pub open spec fn band(self, range: (i32, i32), color: Color) -> FillRect {
        FillRect {
            x: range.0,
            y: clamped(self.line_y - self.metrics.font_size) as i32,
            w: if range.1 - range.0 > 0 {
                (range.1 - range.0) as u32
            } else {
                0
            },
            h: if self.metrics.line_height > 0 {
                self.metrics.line_height as u32
            } else {
                0
            },
            color,
        }
    }

    /// The rectangle of the caret at `x`: as high as the row, one pixel wide.
    pub open spec fn caret(self, x: i32) -> FillRect {
        FillRect { w: 1, ..self.band((x, x), self.color) }
    }

    /// The color of the highlight: the drawing color, mostly transparent.
    pub open spec fn highlight(self) -> Color {
        Color(crate::color::pack(self.color.red(), self.color.green(), self.color.blue(), 0x33))
    }
}

/// The rectangles to fill in a row for the selection and the caret: one for
/// each range to highlight, if there is a selection that reaches the row's
/// line, and then one of width one for the caret, if it stands in the row.
pub open spec fn marks(
    glyphs: Seq<LayoutGlyph>,
    b: Seq<usize>,
    style: RowStyle,
    cursor: TextCursor,
    select: Option<TextCursor>,
) -> Seq<FillRect> {
    let lit = match select {
        Some(select) => {
            let (start, end) = selection_ends(select, cursor);
            if start.line <= style.line_i <= end.line {
                let ranges = highlight_ranges(
                    glyphs,
                    b,
                    style.rtl,
                    style.line_i as int,
                    start,
                    end,
                    style.width,
                );
                Seq::new(ranges.len(), |k: int| style.band(ranges[k], style.highlight()))
            } else {
                Seq::empty()
            }
        },
        None => Seq::empty(),
    };
    if cursor.line == style.line_i {
        match caret_x(glyphs, b, cursor.index as int) {
            Some(x) => lit.push(style.caret(x)),
            None => lit,
        }
    } else {
        lit
    }
}

/// The rectangle of one pixel that stands for a pixel of a glyph in a row
/// with its baseline at `line_y`.
pub open spec fn dot(glyph: LayoutGlyph, line_y: i32, pixel: Pixel) -> FillRect {
    FillRect {
        x: clamped(glyph.x_int + pixel.x) as i32,
        y: clamped(line_y + glyph.y_int + pixel.y) as i32,
        w: 1,
        h: 1,
        color: pixel.color,
    }
}

/// The rectangles that stand for the pixels of a glyph.
pub open spec fn glyph_dots(glyph: LayoutGlyph, line_y: i32, pixels: Seq<Pixel>) -> Seq<FillRect> {
    Seq::new(pixels.len(), |k: int| dot(glyph, line_y, pixels[k]))
}

/// The rectangles that stand for the pixels of the glyphs of a row, where
/// `pixels` holds the pixels of each glyph.
pub open spec fn row_dots(glyphs: Seq<LayoutGlyph>, line_y: i32, pixels: Seq<Seq<Pixel>>) -> Seq<
    FillRect,
>
    decreases glyphs.len(),
{
    if glyphs.len() == 0 {
        Seq::empty()
    } else {
        row_dots(glyphs.drop_last(), line_y, pixels.drop_last()) + glyph_dots(
            glyphs.last(),
            line_y,
            pixels.last(),
        )
    }
}

/// The outline of a glyph for which the cache gave `found`, moved to the place
/// of the glyph; none where the cache gave none.
pub open spec fn placed(glyph: LayoutGlyph, found: Option<Outline>) -> Seq<Outline> {
    match found {
        Some(outline) => seq![moved_outline(outline, glyph.x_int, glyph.y_int)],
        None => Seq::empty(),
    }
}

/// The outlines of the glyphs of a row, where `found` holds what the cache
/// gave for each glyph: each outline that was found, moved to the place of
/// its glyph, in the order of the glyphs.
pub open spec fn row_outlines(glyphs: Seq<LayoutGlyph>, found: Seq<Option<Outline>>) -> Seq<Outline>
    decreases glyphs.len(),
{
    if glyphs.len() == 0 {
        Seq::empty()
    } else {
        row_outlines(glyphs.drop_last(), found.drop_last()) + placed(glyphs.last(), found.last())
    }
}

impl BufferView {
    /// The glyphs of a visual row.
    pub open spec fn glyphs_of(self, run: RunView) -> Seq<LayoutGlyph> {
        self.lines[run.line_i].visual_rows()[run.layout_i].glyphs@
    }

    /// What the visual row `run` is drawn with in `color`.
    pub open spec fn style_of(self, run: RunView, color: Color) -> RowStyle {
        RowStyle {
            line_i: run.line_i as usize,
            rtl: self.lines[run.line_i].shape->0.rtl,
            line_y: run.line_y,
            metrics: self.metrics,
            width: self.width,
            color,
        }
    }

    /// The rectangles to fill for the selection and the caret in a visual row.
    pub open spec fn run_marks(self, run: RunView, color: Color) -> Seq<FillRect> {
        marks(
            self.glyphs_of(run),
            boundaries(self.lines[run.line_i].text),
            self.style_of(run, color),
            self.cursor,
            self.select,
        )
    }

    /// The rectangles to fill for the rows `runs`, where `pixels` holds, for
    /// each row, the pixels of each of its glyphs: row by row, the selection,
    /// the caret, and the pixels of the glyphs.
    pub open spec fn drawn(
        self,
        runs: Seq<RunView>,
        color: Color,
        pixels: Seq<Seq<Seq<Pixel>>>,
    ) -> Seq<FillRect>
        decreases runs.len(),
    {
        if runs.len() == 0 {
            Seq::empty()
        } else {
            self.drawn(runs.drop_last(), color, pixels.drop_last()) + self.run_marks(
                runs.last(),
                color,
            ) + row_dots(self.glyphs_of(runs.last()), runs.last().line_y, pixels.last())
        }
    }

    /// True when `pixels` holds, for each of the rows `runs`, one list of
    /// pixels for each glyph of the row.
    pub open spec fn pixels_fit(self, runs: Seq<RunView>, pixels: Seq<Seq<Seq<Pixel>>>) -> bool {
        &&& pixels.len() == runs.len()
        &&& forall|r: int|
            0 <= r < runs.len() ==> (#[trigger] pixels[r]).len() == self.glyphs_of(runs[r]).len()
    }

    /// True when `found` holds, for each of the rows `runs`, what the cache
    /// gave for each glyph of the row: an outline or none.
    pub open spec fn found_fit(self, runs: Seq<RunView>, found: Seq<Seq<Option<Outline>>>) -> bool {
        &&& found.len() == runs.len()
        &&& forall|r: int|
            0 <= r < runs.len() ==> (#[trigger] found[r]).len() == self.glyphs_of(runs[r]).len()
    }

    /// The outlines of the rows `runs`, where `found` holds, for each row,
    /// what the cache gave for each of its glyphs: row by row and glyph by
    /// glyph, each outline that was found, moved to the place of its glyph.
    pub open spec fn outlined(self, runs: Seq<RunView>, found: Seq<Seq<Option<Outline>>>) -> Seq<
        Outline,
    >
        decreases runs.len(),
    {
        if runs.len() == 0 {
            Seq::empty()
        } else {
            self.outlined(runs.drop_last(), found.drop_last()) + row_outlines(
                self.glyphs_of(runs.last()),
                found.last(),
            )
        }
    }
}

impl BufferView {
    /// One more row, with the pixels of its glyphs, adds its selection, its
    /// caret and the pixels of its glyphs to what is drawn.
    pub proof fn lemma_row_drawn(
        self,
        runs: Seq<RunView>,
        pixels: Seq<Seq<Seq<Pixel>>>,
        run: RunView,
        row: Seq<Seq<Pixel>>,
        color: Color,
    )
        requires
            self.pixels_fit(runs, pixels),
            row.len() == self.glyphs_of(run).len(),
        ensures
            self.pixels_fit(runs.push(run), pixels.push(row)),
            self.drawn(runs.push(run), color, pixels.push(row)) == self.drawn(runs, color, pixels)
                + self.run_marks(run, color) + row_dots(self.glyphs_of(run), run.line_y, row),
    {
        let more = runs.push(run);
        let filled = pixels.push(row);
        assert(more.drop_last() =~= runs);
        assert(filled.drop_last() =~= pixels);
        assert forall|r: int| 0 <= r < more.len() implies (#[trigger] filled[r]).len()
            == self.glyphs_of(more[r]).len() by {
            if r < runs.len() {
                assert(filled[r] == pixels[r]);
                assert(more[r] == runs[r]);
            }
        }
    }

    /// One more row, with what the cache gave for its glyphs, adds the
    /// outlines of its glyphs to the outlines.
    pub proof fn lemma_row_found(
        self,
        runs: Seq<RunView>,
        found: Seq<Seq<Option<Outline>>>,
        run: RunView,
        row: Seq<Option<Outline>>,
    )
        requires
            self.found_fit(runs, found),
            row.len() == self.glyphs_of(run).len(),
        ensures
            self.found_fit(runs.push(run), found.push(row)),
            self.outlined(runs.push(run), found.push(row)) == self.outlined(runs, found)
                + row_outlines(self.glyphs_of(run), row),
    {
        let more = runs.push(run);
        let filled = found.push(row);
        assert(more.drop_last() =~= runs);
        assert(filled.drop_last() =~= found);
        assert forall|r: int| 0 <= r < more.len() implies (#[trigger] filled[r]).len()
            == self.glyphs_of(more[r]).len() by {
            if r < runs.len() {
                assert(filled[r] == found[r]);
                assert(more[r] == runs[r]);
            }
        }
    }
}

/// The color that a glyph is drawn in: its own, and `color` if it has none.
pub fn glyph_color(glyph: &LayoutGlyph, color: Color) -> (drawn: Color)
    ensures
        drawn == match glyph.color_opt {
            Some(own) => own,
            None => color,
        },
{
    match glyph.color_opt {
        Some(own) => own,
        None => color,
    }
}

/// The two ends of a selection between `select` and `cursor`, the earlier first.
pub fn order_selection(select: TextCursor, cursor: TextCursor) -> (ends: (TextCursor, TextCursor))
    ensures
        ends == selection_ends(select, cursor),
{
    if select.line > cursor.line {
        (cursor, select)
    } else if select.line < cursor.line {
        (select, cursor)
    } else if select.index < cursor.index {
        (select, cursor)
    } else {
        (cursor, select)
    }
}

/// The horizontal ranges to highlight in a row for the selection between
/// `start` and `end`.
pub fn highlight_row(
    glyphs: &[LayoutGlyph],
    b: &Vec<usize>,
    rtl: bool,
    line_i: usize,
    start: TextCursor,
    end: TextCursor,
    width: i32,
) -> (ranges: Vec<(i32, i32)>)
    requires
        b@.len() > 0,
        b@[0] == 0,
        forall|p: int, q: int| 0 <= p < q < b@.len() ==> b@[p] < b@[q],
    ensures
        ranges@ == highlight_ranges(glyphs@, b@, rtl, line_i as int, start, end, width),
{
    let mut ranges: Vec<(i32, i32)> = Vec::new();
    let mut range_opt: Option<(i32, i32)> = None;
    let ghost first = Marking { open: None, done: Seq::empty() };
    let n = glyphs.len();
    let mut i: usize = 0;
    while i < n
        invariant
            i <= n,
            n == glyphs@.len(),
            b@.len() > 0,
            b@[0] == 0,
            forall|p: int, q: int| 0 <= p < q < b@.len() ==> b@[p] < b@[q],
            mark_row(first, glyphs@, b@, line_i as int, start, end, 0) == mark_row(
                Marking { open: range_opt, done: ranges@ },
                glyphs@,
                b@,
                line_i as int,
                start,
                end,
                i as int,
            ),
        decreases n - i,
    {
        let glyph = &glyphs[i];
        // Guess x offset based on characters
        let cuts = cluster_cuts(b, glyph.start, glyph.end);
        let total = cuts.len() - 1;
        let c_w = egc_width_of(glyph, total);
        let mut c_x: i64 = glyph.x as i64;
        let ghost row_m = Marking { open: range_opt, done: ranges@ };
        let mut k: usize = 0;
        while k < total
            invariant
                k <= total,
                total == cuts@.len() - 1,
                c_w == egc_width(*glyph, total as int),
                0 <= c_w,
                forall|j: int| 0 <= j <= total && glyph.w >= 0 ==> 0 <= #[trigger] (j * c_w)
                    <= glyph.w,
                glyph.w < 0 ==> c_w == 0,
                c_x == glyph.x + k * c_w,
                mark_glyph(row_m, *glyph, cuts@, line_i as int, start, end, 0) == mark_glyph(
                    Marking { open: range_opt, done: ranges@ },
                    *glyph,
                    cuts@,
                    line_i as int,
                    start,
                    end,
                    k as int,
                ),
            decreases total - k,
        {
            proof {
                if glyph.w >= 0 {
                    assert(0 <= k * c_w <= glyph.w);
                    assert(0 <= (k + 1) * c_w <= glyph.w);
                } else {
                    assert(k * c_w == 0) by (nonlinear_arith)
                        requires
                            c_w == 0,
                    ;
                }
                assert((k + 1) * c_w == k * c_w + c_w) by (nonlinear_arith);
            }
            let c_start = cuts[k];
            let c_end = cuts[k + 1];
            let left = clamp_i32(c_x);
            let right = clamp_i32(c_x + c_w as i64);
            if (start.line != line_i || c_end > start.index) && (end.line != line_i || c_start
                < end.index) {
                range_opt = match range_opt {
                    Some((min, max)) => Some(
                        (
                            if left < min {
                                left
                            } else {
                                min
                            },
                            if right > max {
                                right
                            } else {
                                max
                            },
                        ),
                    ),
                    None => Some((left, right)),
                };
            } else if let Some(range) = range_opt {
                ranges.push(range);
                range_opt = None;
            }
            c_x += c_w as i64;
            k += 1;
        }
        i += 1;
    }

    if n == 0 && end.line > line_i {
        // Highlight all of internal empty lines
        range_opt = Some((0, width));
    }
    if let Some((min, max)) = range_opt {
        if end.line > line_i {
            // Draw to end of line
            if rtl {
                ranges.push((0, max));
            } else {
                ranges.push((min, width));
            }
        } else {
            ranges.push((min, max));
        }
    }
    ranges
}

/// Where the caret stands in a row, in pixels, if the row holds byte offset `index`.
pub fn caret_in_row(glyphs: &[LayoutGlyph], b: &Vec<usize>, index: usize) -> (x: Option<i32>)
    requires
        b@.len() > 0,
        b@[0] == 0,
        forall|p: int, q: int| 0 <= p < q < b@.len() ==> b@[p] < b@[q],
    ensures
        x == caret_x(glyphs@, b@, index as int),
{
    let n = glyphs.len();
    let mut i: usize = 0;
    while i < n
        invariant
            i <= n,
            n == glyphs@.len(),
            b@.len() > 0,
            b@[0] == 0,
            forall|p: int, q: int| 0 <= p < q < b@.len() ==> b@[p] < b@[q],
            caret_glyph(glyphs@, b@, index as int, 0) == caret_glyph(
                glyphs@,
                b@,
                index as int,
                i as int,
            ),
        decreases n - i,
    {
        let glyph = &glyphs[i];
        if index == glyph.start {
            // Start of detected glyph
            let x = if glyph.rtl {
                glyph.x as i64 + glyph.w as i64
            } else {
                glyph.x as i64
            };
            return Some(clamp_i32(x));
        } else if index > glyph.start && index < glyph.end {
            // Guess x offset based on characters
            let cuts = cluster_cuts(b, glyph.start, glyph.end);
            let total = cuts.len() - 1;
            let c_w = egc_width_of(glyph, total);
            let mut offset: i64 = 0;
            let mut before: usize = 0;
            let mut k: usize = 0;
            while k < total
                invariant
                    k <= total,
                    total == cuts@.len() - 1,
                    0 <= c_w,
                    forall|j: int| 0 <= j <= total && glyph.w >= 0 ==> 0 <= #[trigger] (j * c_w)
                        <= glyph.w,
                    glyph.w < 0 ==> c_w == 0,
                    before <= k,
                    before == egcs_before(cuts@, index as int, k as int),
                    offset == before * c_w,
                decreases total - k,
            {
                if cuts[k] < index {
                    proof {
                        if glyph.w >= 0 {
                            assert(0 <= (before + 1) * c_w <= glyph.w);
                        } else {
                            assert((before + 1) * c_w == 0) by (nonlinear_arith)
                                requires
                                    c_w == 0,
                            ;
                        }
                        assert((before + 1) * c_w == before * c_w + c_w) by (nonlinear_arith);
                    }
                    before += 1;
                    offset += c_w as i64;
                }
                k += 1;
            }
            proof {
                if glyph.w >= 0 {
                    assert(0 <= before * c_w <= glyph.w);
                } else {
                    assert(before * c_w == 0) by (nonlinear_arith)
                        requires
                            c_w == 0,
                    ;
                }
            }
            let x = if glyph.rtl {
                glyph.x as i64 + glyph.w as i64 - offset
            } else {
                glyph.x as i64 + offset
            };
            return Some(clamp_i32(x));
        }
        i += 1;
    }
    if n == 0 {
        // Start of empty line
        Some(0)
    } else if index == glyphs[n - 1].end {
        // End of last glyph
        let glyph = &glyphs[n - 1];
        let x = if glyph.rtl {
            glyph.x as i64
        } else {
            glyph.x as i64 + glyph.w as i64
        };
        Some(clamp_i32(x))
    } else {
        None
    }
}

/// The rectangle of a row that covers the horizontal range `range`, in `color`.
fn band_of(style: &RowStyle, range: (i32, i32), color: Color) -> (rect: FillRect)
    ensures
        rect == style.band(range, color),
{
    let w: i64 = range.1 as i64 - range.0 as i64;
    FillRect {
        x: range.0,
        y: clamp_i32(style.line_y as i64 - style.metrics.font_size as i64),
        w: if w > 0 {
            w as u32
        } else {
            0
        },
        h: if style.metrics.line_height > 0 {
            style.metrics.line_height as u32
        } else {
            0
        },
        color,
    }
}

/// The rectangles to fill in a row for the selection and the caret.
pub fn draw_marks(
    glyphs: &[LayoutGlyph],
    b: &Vec<usize>,
    style: &RowStyle,
    cursor: TextCursor,
    select: Option<TextCursor>,
) -> (rects: Vec<FillRect>)
    requires
        b@.len() > 0,
        b@[0] == 0,
        forall|p: int, q: int| 0 <= p < q < b@.len() ==> b@[p] < b@[q],
    ensures
        rects@ == marks(glyphs@, b@, *style, cursor, select),
{
    let mut rects: Vec<FillRect> = Vec::new();

    // Highlight selection
    if let Some(select) = select {
        let (start, end) = order_selection(select, cursor);
        if style.line_i >= start.line && style.line_i <= end.line {
            let ranges = highlight_row(
                glyphs,
                b,
                style.rtl,
                style.line_i,
                start,
                end,
                style.width,
            );
            let highlight = Color::rgba(style.color.r(), style.color.g(), style.color.b(), 0x33);
            let n = ranges.len();
            let mut k: usize = 0;
            while k < n
                invariant
                    k <= n,
                    n == ranges@.len(),
                    highlight == style.highlight(),
                    rects@.len() == k,
                    forall|j: int|
                        0 <= j < k ==> #[trigger] rects@[j] == style.band(ranges@[j], highlight),
                decreases n - k,
            {
                rects.push(band_of(style, ranges[k], highlight));
                k += 1;
            }
            assert(rects@ =~= Seq::new(
                ranges@.len(),
                |j: int| style.band(ranges@[j], style.highlight()),
            ));
        }
    }
    // Draw cursor

    if cursor.line == style.line_i {
        if let Some(x) = caret_in_row(glyphs, b, cursor.index) {
            let mut caret = band_of(style, (x, x), style.color);
            caret.w = 1;
            rects.push(caret);
        }
    }
    rects
}

/// Append the rectangles that stand for the pixels that the cache gave for a
/// glyph of a row with its baseline at `line_y`.
pub fn push_dots(rects: &mut Vec<FillRect>, glyph: &LayoutGlyph, line_y: i32, pixels: &Vec<Pixel>)
    ensures
        final(rects)@ == old(rects)@ + glyph_dots(*glyph, line_y, pixels@),
{
    let n = pixels.len();
    let mut k: usize = 0;
    while k < n
        invariant
            k <= n,
            n == pixels@.len(),
            rects@.len() == old(rects)@.len() + k,
            forall|j: int| 0 <= j < old(rects)@.len() ==> rects@[j] == old(rects)@[j],
            forall|j: int|
                0 <= j < k ==> #[trigger] rects@[old(rects)@.len() + j] == dot(
                    *glyph,
                    line_y,
                    pixels@[j],
                ),
        decreases n - k,
    {
        let pixel = &pixels[k];
        rects.push(
            FillRect {
                x: clamp_i32(glyph.x_int as i64 + pixel.x as i64),
                y: clamp_i32(line_y as i64 + glyph.y_int as i64 + pixel.y as i64),
                w: 1,
                h: 1,
                color: pixel.color,
            },
        );
        k += 1;
    }
    proof {
        let dots = glyph_dots(*glyph, line_y, pixels@);
        let base = old(rects)@.len() as int;
        assert forall|j: int| base <= j < rects@.len() implies rects@[j] == dots[j - base] by {
            assert(rects@[base + (j - base)] == dot(*glyph, line_y, pixels@[j - base]));
        }
        assert(rects@ =~= old(rects)@ + dots);
    }
}

/// Append the outline that the cache gave for a glyph, moved to the place of
/// the glyph; nothing is appended where the cache gave none.
pub fn place_outline(outlines: &mut Vec<Outline>, found: Option<Outline>, glyph: &LayoutGlyph)
    ensures
        final(outlines)@ == old(outlines)@ + placed(*glyph, found),
{
    match found {
        Some(outline) => {
            let mut outline = outline;
            translate_outline(&mut outline, glyph.x_int, glyph.y_int);
            outlines.push(outline);
            assert(outlines@ =~= old(outlines)@ + placed(*glyph, found));
        },
        None => {
            assert(outlines@ =~= old(outlines)@ + placed(*glyph, found));
        },
    }
}

impl<'a, S: Shaper> TextBuffer<'a, S> {
    /// Draw the buffer
    ///
    /// Returns the rectangles to fill, in order: for each visible row from
    /// the top, the highlight of the selection, the caret, and one rectangle
    /// for every pixel that the cache gives for each glyph of the row. The
    /// cache is asked for each glyph in turn, with the glyph's cache key and
    /// the color that the glyph is drawn in.
    pub fn draw<C: GlyphCache>(&self, cache: &mut C, color: Color) -> (rects: Vec<FillRect>)
        ensures
            exists|pixels: Seq<Seq<Seq<Pixel>>>|
                self@.pixels_fit(visible_runs(self@), pixels) && rects@ == #[trigger] self@.drawn(
                    visible_runs(self@),
                    color,
                    pixels,
                ),
    {
        let metrics = self.metrics();
        let width = self.size().0;
        let cursor = self.cursor();
        let select = self.select();
        let mut rects: Vec<FillRect> = Vec::new();
        let ghost mut seen: Seq<RunView> = Seq::empty();
        let ghost mut pixels: Seq<Seq<Seq<Pixel>>> = Seq::empty();

        let mut iter = self.layout_runs();
        assert(seen + iter@.rest(self@) =~= visible_runs(self@));
        loop
            invariant_except_break
                visible_runs(self@) == seen + iter@.rest(self@),
            invariant
                metrics == self@.metrics,
                width == self@.width,
                cursor == self@.cursor,
                select == self@.select,
                self@.pixels_fit(seen, pixels),
                rects@ == self@.drawn(seen, color, pixels),
            ensures
                self@.pixels_fit(visible_runs(self@), pixels),
                rects@ == self@.drawn(visible_runs(self@), color, pixels),
            decreases iter@.rest(self@).len(),
        {
            proof {
                iter@.lemma_step(self@, seen);
            }
            let ghost shown = iter@.step(self@).0->0;
            let run = match iter.next(self) {
                Some(run) => run,
                None => {
                    break ;
                },
            };
            let style = RowStyle {
                line_i: run.line_i,
                rtl: run.rtl,
                line_y: run.line_y,
                metrics,
                width,
                color,
            };
            assert(style == self@.style_of(shown, color));
            let b = boundaries_of(run.text);
            let ghost before = rects@;
            let mut marks = draw_marks(run.glyphs, &b, &style, cursor, select);
            rects.append(&mut marks);
            assert(rects@ == before + self@.run_marks(shown, color));

            let glyphs = run.glyphs;
            let n = glyphs.len();
            let ghost mut row: Seq<Seq<Pixel>> = Seq::empty();
            let mut g: usize = 0;
            assert(glyphs@.take(0) =~= Seq::<LayoutGlyph>::empty());
            assert(rects@ + row_dots(glyphs@.take(0), run.line_y, row) =~= rects@);
            while g < n
                invariant
                    g <= n,
                    n == glyphs@.len(),
                    row.len() == g,
                    rects@ == before + self@.run_marks(shown, color) + row_dots(
                        glyphs@.take(g as int),
                        run.line_y,
                        row,
                    ),
                decreases n - g,
            {
                let glyph = &glyphs[g];
                let found = cache.pixels(glyph.cache_key, glyph_color(glyph, color));
                let ghost was = rects@;
                push_dots(&mut rects, glyph, run.line_y, &found);
                proof {
                    let next = row.push(found@);
                    assert(glyphs@.take(g + 1).drop_last() =~= glyphs@.take(g as int));
                    assert(next.drop_last() =~= row);
                    assert(glyphs@.take(g + 1).last() == *glyph);
                    assert(before + self@.run_marks(shown, color) + row_dots(
                        glyphs@.take(g as int),
                        run.line_y,
                        row,
                    ) + glyph_dots(*glyph, run.line_y, found@) =~= before + self@.run_marks(
                        shown,
                        color,
                    ) + row_dots(glyphs@.take(g + 1), run.line_y, next));
                    row = next;
                }
                g += 1;
            }
            proof {
                assert(glyphs@.take(n as int) =~= glyphs@);
                self@.lemma_row_drawn(seen, pixels, shown, row, color);
                seen = seen.push(shown);
                pixels = pixels.push(row);
            }
        }
        rects
    }

    /// Get the outlines of the visible glyphs
    ///
    /// The cache is asked for each glyph of each visible row in turn, with
    /// the glyph's cache key. Returns the outlines that it gave, in that
    /// order, each moved to the place of its glyph. A glyph for which the
    /// cache has no outline is passed over.
    pub fn outlines<C: GlyphCache>(&self, cache: &mut C, color: Color) -> (outlines: Vec<Outline>)
        ensures
            exists|found: Seq<Seq<Option<Outline>>>|
                self@.found_fit(visible_runs(self@), found) && outlines@
                    == #[trigger] self@.outlined(visible_runs(self@), found),
    {
        let mut outlines: Vec<Outline> = Vec::new();
        let ghost mut seen: Seq<RunView> = Seq::empty();
        let ghost mut found: Seq<Seq<Option<Outline>>> = Seq::empty();

        let mut iter = self.layout_runs();
        assert(seen + iter@.rest(self@) =~= visible_runs(self@));
        loop
            invariant_except_break
                visible_runs(self@) == seen + iter@.rest(self@),
            invariant
                self@.found_fit(seen, found),
                outlines@ == self@.outlined(seen, found),
            ensures
                self@.found_fit(visible_runs(self@), found),
                outlines@ == self@.outlined(visible_runs(self@), found),
            decreases iter@.rest(self@).len(),
        {
            proof {
                iter@.lemma_step(self@, seen);
            }
            let ghost shown = iter@.step(self@).0->0;
            let run = match iter.next(self) {
                Some(run) => run,
                None => {
                    break ;
                },
            };
            let ghost before = outlines@;
            let glyphs = run.glyphs;
            let n = glyphs.len();
            let ghost mut row: Seq<Option<Outline>> = Seq::empty();
            let mut g: usize = 0;
            assert(glyphs@.take(0) =~= Seq::<LayoutGlyph>::empty());
            assert(outlines@ + row_outlines(glyphs@.take(0), row) =~= outlines@);
            while g < n
                invariant
                    g <= n,
                    n == glyphs@.len(),
                    row.len() == g,
                    outlines@ == before + row_outlines(glyphs@.take(g as int), row),
                decreases n - g,
            {
                let glyph = &glyphs[g];
                let given = cache.outline(glyph.cache_key);
                let ghost kept = given;
                place_outline(&mut outlines, given, glyph);
                proof {
                    let next = row.push(kept);
                    assert(glyphs@.take(g + 1).drop_last() =~= glyphs@.take(g as int));
                    assert(next.drop_last() =~= row);
                    assert(glyphs@.take(g + 1).last() == *glyph);
                    assert(before + row_outlines(glyphs@.take(g as int), row) + placed(
                        *glyph,
                        kept,
                    ) =~= before + row_outlines(glyphs@.take(g + 1), next));
                    row = next;
                }
                g += 1;
            }
            proof {
                assert(glyphs@.take(n as int) =~= glyphs@);
                self@.lemma_row_found(seen, found, shown, row);
                seen = seen.push(shown);
                found = found.push(row);
            }
        }
        outlines
    }
}

} // verus!
