//! Where a byte offset lies among the glyphs of a laid out line, and back.

use crate::layout::{LayoutGlyph, LayoutLine};
use vstd::prelude::*;

verus! {

/// A cursor location among the visual rows of a line
#[derive(Clone, Copy, Debug, PartialEq, Eq, Structural)]
pub struct TextLayoutCursor {
    /// Text line the cursor is on
    pub line: usize,
    /// Visual row of the line
    pub layout: usize,
    /// Glyph of the row that the cursor is before; the number of glyphs for
    /// the end of the row
    pub glyph: usize,
}

impl TextLayoutCursor {
    /// Create a new layout cursor
    pub fn new(line: usize, layout: usize, glyph: usize) -> (cursor: Self)
        ensures
            cursor == (TextLayoutCursor { line, layout, glyph }),
    {
        Self { line, layout, glyph }
    }
}

/// The first of `glyphs` whose cluster starts at byte offset `index`.
pub open spec fn glyph_at(glyphs: Seq<LayoutGlyph>, index: int) -> Option<int>
    decreases glyphs.len(),
{
    if glyphs.len() == 0 {
        None
    } else {
        match glyph_at(glyphs.drop_last(), index) {
            Some(g) => Some(g),
            None => if glyphs.last().start == index {
                Some(glyphs.len() - 1)
            } else {
                None
            },
        }
    }
}

/// Where byte offset `index` lies in a row: before the first glyph whose
/// cluster starts there; else, in a row without glyphs, at its start; else
/// behind the last glyph if its cluster ends there; else nowhere.
pub open spec fn position_in_row(glyphs: Seq<LayoutGlyph>, index: int) -> Option<int> {
    match glyph_at(glyphs, index) {
        Some(g) => Some(g),
        None => if glyphs.len() == 0 {
            Some(0)
        } else if glyphs.last().end == index {
            Some(glyphs.len() as int)
        } else {
            None
        },
    }
}

/// The first row in which byte offset `index` lies, and where in that row.
pub open spec fn position_in_rows(layout: Seq<LayoutLine>, index: int) -> Option<(int, int)>
    decreases layout.len(),
{
    if layout.len() == 0 {
        None
    } else {
        match position_in_rows(layout.drop_last(), index) {
            Some(p) => Some(p),
            None => match position_in_row(layout.last().glyphs@, index) {
                Some(g) => Some((layout.len() - 1, g)),
                None => None,
            },
        }
    }
}

/// The row and the glyph at which byte offset `index` lies in a laid out
/// line; the start of the first row where it lies in no row.
pub open spec fn layout_position(layout: Seq<LayoutLine>, index: int) -> (int, int) {
    match position_in_rows(layout, index) {
        Some(p) => p,
        None => (0, 0),
    }
}

/// The byte offset of position `glyph` in a row: the start of that glyph's
/// cluster; past the last glyph, the end of the last glyph's cluster; zero in
/// a row without glyphs.
pub open spec fn row_index(glyphs: Seq<LayoutGlyph>, glyph: int) -> int {
    if 0 <= glyph < glyphs.len() {
        glyphs[glyph].start as int
    } else if glyphs.len() > 0 {
        glyphs.last().end as int
    } else {
        0
    }
}

/// The row of a laid out line that `row` stands for: the last row for any
/// row past it.
pub open spec fn row_in(layout: Seq<LayoutLine>, row: int) -> int {
    if row < layout.len() {
        row
    } else {
        layout.len() - 1
    }
}

/// The byte offset of position `glyph` in row `row` of a laid out line,
/// where a row past the last stands for the last; zero in a line without rows.
pub open spec fn layout_index(layout: Seq<LayoutLine>, row: int, glyph: int) -> int {
    if layout.len() == 0 {
        0
    } else {
        row_index(layout[row_in(layout, row)].glyphs@, glyph)
    }
}

/// What is found in a part of a row from its start is found in the whole row.
proof fn lemma_glyph_at_prefix(glyphs: Seq<LayoutGlyph>, k: int, index: int)
    requires
        0 <= k <= glyphs.len(),
        glyph_at(glyphs.take(k), index) is Some,
    ensures
        glyph_at(glyphs, index) == glyph_at(glyphs.take(k), index),
    decreases glyphs.len() - k,
{
    if k < glyphs.len() {
        assert(glyphs.take(k + 1).drop_last() =~= glyphs.take(k));
        lemma_glyph_at_prefix(glyphs, k + 1, index);
    } else {
        assert(glyphs.take(k) =~= glyphs);
    }
}

/// What is found in the first rows of a line is found in the whole line.
proof fn lemma_position_in_rows_prefix(layout: Seq<LayoutLine>, k: int, index: int)
    requires
        0 <= k <= layout.len(),
        position_in_rows(layout.take(k), index) is Some,
    ensures
        position_in_rows(layout, index) == position_in_rows(layout.take(k), index),
    decreases layout.len() - k,
{
    if k < layout.len() {
        assert(layout.take(k + 1).drop_last() =~= layout.take(k));
        lemma_position_in_rows_prefix(layout, k + 1, index);
    } else {
        assert(layout.take(k) =~= layout);
    }
}

/// Find where byte offset `index` lies in a row.
pub fn find_in_row(glyphs: &Vec<LayoutGlyph>, index: usize) -> (found: Option<usize>)
    ensures
        found is Some == position_in_row(glyphs@, index as int) is Some,
        found is Some ==> found->0 == position_in_row(glyphs@, index as int)->0,
        found is Some ==> found->0 <= glyphs@.len(),
{
    let n = glyphs.len();
    let mut g: usize = 0;
    assert(glyphs@.take(0) =~= Seq::<LayoutGlyph>::empty());
    while g < n
        invariant
            g <= n,
            n == glyphs@.len(),
            glyph_at(glyphs@.take(g as int), index as int) is None,
        decreases n - g,
    {
        assert(glyphs@.take(g + 1).drop_last() =~= glyphs@.take(g as int));
        if glyphs[g].start == index {
            proof {
                lemma_glyph_at_prefix(glyphs@, g + 1, index as int);
            }
            return Some(g);
        }
        g += 1;
    }
    assert(glyphs@.take(g as int) =~= glyphs@);
    if n == 0 {
        Some(0)
    } else if glyphs[n - 1].end == index {
        Some(n)
    } else {
        None
    }
}

/// Find the row and the glyph at which byte offset `index` lies in a laid
/// out line. Falls back to the start of the first row.
pub fn find_position(layout: &Vec<LayoutLine>, index: usize) -> (pos: (usize, usize))
    ensures
        (pos.0 as int, pos.1 as int) == layout_position(layout@, index as int),
        pos.0 < layout@.len() || pos == (0usize, 0usize),
        pos.0 < layout@.len() ==> pos.1 <= layout@[pos.0 as int].glyphs@.len(),
{
    let n = layout.len();
    let mut i: usize = 0;
    assert(layout@.take(0) =~= Seq::<LayoutLine>::empty());
    while i < n
        invariant
            i <= n,
            n == layout@.len(),
            position_in_rows(layout@.take(i as int), index as int) is None,
        decreases n - i,
    {
        assert(layout@.take(i + 1).drop_last() =~= layout@.take(i as int));
        assert(layout@.take(i + 1).last() == layout@[i as int]);
        match find_in_row(&layout[i].glyphs, index) {
            Some(g) => {
                proof {
                    lemma_position_in_rows_prefix(layout@, i + 1, index as int);
                }
                return (i, g);
            },
            None => {},
        }
        i += 1;
    }
    assert(layout@.take(i as int) =~= layout@);
    // Fall back to start of line
    (0, 0)
}

/// The byte offset of position `glyph` in row `row` of a laid out line.
pub fn index_at(layout: &Vec<LayoutLine>, row: usize, glyph: usize) -> (index: usize)
    ensures
        index == layout_index(layout@, row as int, glyph as int),
{
    let n = layout.len();
    if n == 0 {
        return 0;
    }
    let r = if row < n {
        row
    } else {
        n - 1
    };
    let glyphs = &layout[r].glyphs;
    let m = glyphs.len();
    if glyph < m {
        glyphs[glyph].start
    } else if m > 0 {
        glyphs[m - 1].end
    } else {
        0
    }
}

} // verus!
