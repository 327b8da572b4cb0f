use cosmic_text::text::is_boundary_of;
use cosmic_text::{
    Attrs, AttrsList, CacheKey, Color, GlyphCache, LayoutGlyph, LayoutLine, Pixel, ShapeLine,
    Shaper, TextAction, TextBuffer, TextCursor, TextLayoutCursor, TextMetrics,
};
use swash::scale::outline::Outline;

/// Returns glyphs that have nothing to do with the text.
struct Wild {
    rows: usize,
}

fn wild_glyph(k: usize) -> LayoutGlyph {
    let offsets = [0usize, 1, 2, 5, 7, 1000, usize::MAX];
    let places = [0, -40, i32::MAX, i32::MIN, 17, 3];
    LayoutGlyph {
        start: offsets[k % offsets.len()],
        end: offsets[(k * 3 + 1) % offsets.len()],
        x: places[k % places.len()],
        w: places[(k + 2) % places.len()],
        rtl: k % 2 == 1,
        cache_key: CacheKey { font_id: 0, glyph_id: k as u16, font_size: 1, x_bin: 0, y_bin: 0 },
        x_int: places[(k + 1) % places.len()],
        y_int: places[(k + 3) % places.len()],
        color_opt: None,
    }
}

impl Shaper for Wild {
    fn shape(&self, text: &str, _attrs_list: &AttrsList<'_>) -> ShapeLine {
        ShapeLine { rtl: text.len() % 2 == 1 }
    }

    fn layout(
        &self,
        text: &str,
        _attrs_list: &AttrsList<'_>,
        _shape: &ShapeLine,
        _font_size: i32,
        _width: i32,
    ) -> Vec<LayoutLine> {
        (0..self.rows)
            .map(|row| LayoutLine {
                glyphs: (0..(row + text.len()) % 5).map(|k| wild_glyph(k + row)).collect(),
            })
            .collect()
    }
}

struct Far;

impl GlyphCache for Far {
    fn pixels(&mut self, _cache_key: CacheKey, color: Color) -> Vec<Pixel> {
        vec![
            Pixel { x: i32::MAX, y: i32::MAX, color },
            Pixel { x: i32::MIN, y: i32::MIN, color },
        ]
    }

    fn outline(&mut self, _cache_key: CacheKey) -> Option<Outline> {
        Some(Outline::new())
    }
}

fn cursor_is_valid(buffer: &TextBuffer<'_, Wild>) -> bool {
    let cursor = buffer.cursor();
    cursor.line < buffer.text_lines().len()
        && is_boundary_of(buffer.text_lines()[cursor.line].text(), cursor.index)
}

fn exercise(shaper: &Wild, metrics: TextMetrics, width: i32, height: i32) {
    let mut buffer = TextBuffer::new(shaper, metrics);
    buffer.set_size(width, height);
    buffer.set_text("e\u{301}x\n\u{1F1E9}\u{1F1EA}\n\nlast line", Attrs::new());
    let actions = [
        TextAction::Down,
        TextAction::End,
        TextAction::Insert('a'),
        TextAction::Up,
        TextAction::Home,
        TextAction::Click { x: 3, y: 4 },
        TextAction::Drag { x: i32::MAX, y: 1 },
        TextAction::Drag { x: i32::MIN, y: i32::MAX },
        TextAction::Right,
        TextAction::Delete,
        TextAction::Left,
        TextAction::Enter,
        TextAction::Scroll { lines: i32::MAX },
        TextAction::PageDown,
        TextAction::Scroll { lines: i32::MIN },
        TextAction::PageUp,
        TextAction::Backspace,
        TextAction::Next,
        TextAction::Previous,
        TextAction::Click { x: -40, y: 0 },
        TextAction::Down,
        TextAction::Down,
    ];
    for _ in 0..3 {
        for action in actions.iter() {
            buffer.action(*action);
            assert!(cursor_is_valid(&buffer));
            assert!(buffer.scroll() >= 0);
            buffer.shape_until_cursor();
            assert!(buffer.scroll() >= 0);
            let rects = buffer.draw(&mut Far, Color::rgb(1, 2, 3));
            let outlines = buffer.outlines(&mut Far, Color::rgb(1, 2, 3));
            assert!(outlines.len() <= rects.len());
            for (x, y) in [(0, 0), (i32::MAX, i32::MIN), (-40, 5), (17, i32::MAX)] {
                if let Some(cursor) = buffer.hit(x, y) {
                    assert!(buffer.set_cursor(cursor).is_ok());
                }
            }
            for line in 0..buffer.text_lines().len() {
                let target = TextLayoutCursor::new(line, usize::MAX, usize::MAX);
                assert_eq!(buffer.set_layout_cursor(target), Ok(()));
                assert!(cursor_is_valid(&buffer));
                assert_eq!(buffer.set_layout_cursor(TextLayoutCursor::new(line, 1, 2)), Ok(()));
                assert!(cursor_is_valid(&buffer));
            }
        }
    }
}

#[test]
fn engine_holds_its_invariants_whatever_the_shaper_returns() {
    for rows in 0..4 {
        let shaper = Wild { rows };
        exercise(&shaper, TextMetrics::new(16, 20), 100, 60);
    }
}

#[test]
fn engine_holds_its_invariants_with_extreme_metrics() {
    let shaper = Wild { rows: 2 };
    for metrics in [
        TextMetrics::new(0, 0),
        TextMetrics::new(i32::MAX, 1),
        TextMetrics::new(i32::MIN, i32::MAX),
        TextMetrics::new(5, -5),
        TextMetrics::new(-5, i32::MIN),
    ] {
        for (width, height) in [(0, 0), (i32::MAX, i32::MAX), (i32::MIN, i32::MIN), (-1, 7)] {
            exercise(&shaper, metrics, width, height);
        }
    }
}

#[test]
fn a_line_without_rows_puts_the_cursor_at_its_start() {
    let shaper = Wild { rows: 0 };
    let mut buffer = TextBuffer::new(&shaper, TextMetrics::new(16, 20));
    buffer.set_size(100, 60);
    buffer.set_text("Hello", Attrs::new());
    buffer.set_cursor(TextCursor::new(0, 3)).unwrap();
    assert_eq!(buffer.layout_cursor(&TextCursor::new(0, 3)), Ok(TextLayoutCursor::new(0, 0, 0)));
    buffer.action(TextAction::End);
    assert_eq!(buffer.cursor(), TextCursor::new(0, 0));
    assert!(buffer.draw(&mut Far, Color::rgb(0, 0, 0)).is_empty());
    assert_eq!(buffer.hit(1, 1), None);
}

#[test]
fn glyph_pixels_far_away_are_clamped() {
    let shaper = Wild { rows: 1 };
    let mut buffer = TextBuffer::new(&shaper, TextMetrics::new(16, 20));
    buffer.set_size(100, 60);
    buffer.set_text("a", Attrs::new());
    // One row with one glyph: the first of the wild glyphs
    let color = Color::rgb(1, 2, 3);
    let rects = buffer.draw(&mut Far, color);
    let dots: Vec<_> = rects.iter().filter(|rect| rect.w == 1 && rect.h == 1).collect();
    assert_eq!(dots.len(), 2);
    assert_eq!((dots[0].x, dots[0].y), (i32::MAX - 40, 15));
    assert_eq!((dots[1].x, dots[1].y), (i32::MIN, i32::MIN));
}
