use cosmic_text::text::is_boundary_of;
use cosmic_text::{
    Attrs, AttrsList, CacheKey, LayoutGlyph, LayoutLine, ShapeLine, Shaper, Style, TextAction,
    TextBuffer, TextBufferLine, TextCursor, TextError, TextLayoutCursor, TextLayoutRunIter,
    TextMetrics, Weight,
};

/// Every character is one glyph, ten pixels wide; rows wrap at the width.
struct Mono {
    rtl: bool,
}

impl Shaper for Mono {
    fn shape(&self, _text: &str, _attrs_list: &AttrsList<'_>) -> ShapeLine {
        ShapeLine { rtl: self.rtl }
    }

    fn layout(
        &self,
        text: &str,
        _attrs_list: &AttrsList<'_>,
        _shape: &ShapeLine,
        font_size: i32,
        width: i32,
    ) -> Vec<LayoutLine> {
        let mut rows = Vec::new();
        let mut glyphs = Vec::new();
        let mut x = 0;
        for (i, c) in text.char_indices() {
            if width > 0 && x + 10 > width && !glyphs.is_empty() {
                rows.push(LayoutLine { glyphs });
                glyphs = Vec::new();
                x = 0;
            }
            glyphs.push(LayoutGlyph {
                start: i,
                end: i + c.len_utf8(),
                x,
                w: 10,
                rtl: false,
                cache_key: CacheKey {
                    font_id: 1,
                    glyph_id: c as u16,
                    font_size,
                    x_bin: 0,
                    y_bin: 0,
                },
                x_int: x,
                y_int: 0,
                color_opt: None,
            });
            x += 10;
        }
        rows.push(LayoutLine { glyphs });
        rows
    }
}

const LTR: Mono = Mono { rtl: false };
const RTL: Mono = Mono { rtl: true };

fn buffer_with<'a>(shaper: &'a Mono, text: &str) -> TextBuffer<'a, Mono> {
    let mut buffer = TextBuffer::new(shaper, TextMetrics::new(16, 20));
    buffer.set_size(100, 60);
    buffer.set_text(text, Attrs::new());
    buffer
}

fn texts(buffer: &TextBuffer<'_, Mono>) -> Vec<String> {
    buffer.text_lines().iter().map(|line| line.text().to_string()).collect()
}

fn cursor_is_valid(buffer: &TextBuffer<'_, Mono>) -> bool {
    let cursor = buffer.cursor();
    cursor.line < buffer.text_lines().len()
        && cursor.index <= buffer.text_lines()[cursor.line].text().len()
        && is_boundary_of(buffer.text_lines()[cursor.line].text(), cursor.index)
}

#[test]
fn new_buffer_holds_one_empty_line() {
    let buffer = TextBuffer::new(&LTR, TextMetrics::new(16, 20));
    assert_eq!(texts(&buffer), vec![""]);
    assert_eq!(buffer.cursor(), TextCursor::new(0, 0));
    assert_eq!(buffer.scroll(), 0);
    assert_eq!(buffer.size(), (0, 0));
    assert_eq!(buffer.metrics(), TextMetrics::new(16, 20));
    assert_eq!(buffer.lines(), 0);
    assert_eq!(buffer.select(), None);
    assert!(!buffer.cursor_moved());
    assert!(!buffer.redraw());
    assert_eq!(buffer.allowed_controls(), &vec!['\t']);
    assert!(buffer.text_lines()[0].attrs_list().defaults() == Attrs::new());
    assert!(buffer.text_lines()[0].shape_opt().is_none());
}

#[test]
fn metrics_scale_multiplies() {
    let metrics = TextMetrics::new(14, 20).scale(2);
    assert_eq!(metrics.font_size, 28);
    assert_eq!(metrics.line_height, 40);
    assert_eq!(TextMetrics::default(), TextMetrics::new(0, 0));
    assert_eq!(TextCursor::default(), TextCursor::new(0, 0));
}

#[test]
fn lines_is_height_over_line_height() {
    let mut buffer = TextBuffer::new(&LTR, TextMetrics::new(16, 20));
    buffer.set_size(100, 60);
    assert_eq!(buffer.lines(), 3);
    buffer.set_size(100, 79);
    assert_eq!(buffer.lines(), 3);
    buffer.set_size(100, 19);
    assert_eq!(buffer.lines(), 0);
    buffer.set_size(100, -40);
    assert_eq!(buffer.lines(), 0);
    buffer.set_size(100, 60);
    buffer.set_metrics(TextMetrics::new(16, 0));
    assert_eq!(buffer.lines(), 0);
    buffer.set_metrics(TextMetrics::new(16, -5));
    assert_eq!(buffer.lines(), 0);
}

#[test]
fn set_text_splits_lines_and_resets_cursor() {
    let mut buffer = buffer_with(&LTR, "Hello\nWorld");
    buffer.set_cursor(TextCursor::new(1, 2)).unwrap();
    let italic = Attrs::new().style(Style::Italic);
    buffer.set_text("one\r\ntwo\nthree\n", italic);
    assert_eq!(texts(&buffer), vec!["one", "two", "three"]);
    assert_eq!(buffer.cursor(), TextCursor::new(0, 0));
    assert_eq!(buffer.scroll(), 0);
    assert_eq!(buffer.select(), None);
    assert!(buffer.text_lines().iter().all(|line| line.attrs_list().defaults() == italic));
}

#[test]
fn set_text_without_lines_keeps_one_empty_line() {
    let mut buffer = buffer_with(&LTR, "Hello\nWorld");
    buffer.set_text("", Attrs::new());
    assert_eq!(texts(&buffer), vec![""]);
}

#[test]
fn set_lines_keeps_lines_and_their_spans() {
    let bold = Attrs::new().weight(Weight::bold());
    let mut list = AttrsList::new(Attrs::new());
    list.add_span(0..5, bold);
    let mut buffer = buffer_with(&LTR, "x\ny");
    buffer.set_cursor(TextCursor::new(1, 1)).unwrap();
    buffer.action(TextAction::Scroll { lines: 1 });
    buffer.set_lines(vec![
        TextBufferLine::new("Hello World", list),
        TextBufferLine::new("again", AttrsList::new(bold)),
    ]);
    assert_eq!(texts(&buffer), vec!["Hello World", "again"]);
    assert_eq!(buffer.text_lines()[0].attrs_list().spans(), &vec![(0..5, bold)]);
    assert!(buffer.text_lines()[1].attrs_list().defaults() == bold);
    assert_eq!(buffer.cursor(), TextCursor::new(0, 0));
    assert_eq!(buffer.scroll(), 0);
    assert!(buffer.text_lines()[0].layout_opt().is_some());

    buffer.set_lines(Vec::new());
    assert_eq!(texts(&buffer), vec![""]);
    assert!(buffer.text_lines()[0].attrs_list().defaults() == Attrs::new());
}

#[test]
fn inserted_character_has_the_default_style() {
    let bold = Attrs::new().weight(Weight::bold());
    let mut list = AttrsList::new(Attrs::new());
    list.add_span(0..10, bold);
    let mut buffer = buffer_with(&LTR, "");
    buffer.set_lines(vec![TextBufferLine::new("HelloWorld", list)]);
    buffer.set_cursor(TextCursor::new(0, 5)).unwrap();
    buffer.action(TextAction::Insert('é'));
    assert_eq!(texts(&buffer), vec!["HelloéWorld"]);
    let list = buffer.text_lines()[0].attrs_list();
    assert_eq!(list.spans(), &vec![(0..5, bold), (7..12, bold)]);
    assert!(list.get_span(5..7) == Attrs::new());
    assert!(list.get_span(4..5) == bold);
    assert!(list.get_span(7..8) == bold);
}

#[test]
fn deleting_text_moves_the_spans_behind_it() {
    let bold = Attrs::new().weight(Weight::bold());
    let mut list = AttrsList::new(Attrs::new());
    list.add_span(3..8, bold);
    let mut buffer = buffer_with(&LTR, "");
    buffer.set_lines(vec![TextBufferLine::new("HelloWorld", list)]);
    buffer.set_cursor(TextCursor::new(0, 5)).unwrap();
    buffer.action(TextAction::Backspace);
    assert_eq!(texts(&buffer), vec!["HellWorld"]);
    assert_eq!(buffer.text_lines()[0].attrs_list().spans(), &vec![(3..7, bold)]);
    buffer.action(TextAction::Delete);
    assert_eq!(texts(&buffer), vec!["Hellorld"]);
    assert_eq!(buffer.text_lines()[0].attrs_list().spans(), &vec![(3..6, bold)]);
    buffer.action(TextAction::Enter);
    assert_eq!(texts(&buffer), vec!["Hell", "orld"]);
    assert_eq!(buffer.text_lines()[0].attrs_list().spans(), &vec![(3..4, bold)]);
    assert_eq!(buffer.text_lines()[1].attrs_list().spans(), &vec![(0..2, bold)]);
    buffer.action(TextAction::Backspace);
    assert_eq!(texts(&buffer), vec!["Hellorld"]);
    assert_eq!(buffer.text_lines()[0].attrs_list().spans(), &vec![(3..6, bold)]);
}

#[test]
fn insert_at_start_of_line() {
    let mut buffer = buffer_with(&LTR, "Hello\nWorld");
    assert_eq!(texts(&buffer), vec!["Hello", "World"]);
    assert_eq!(buffer.cursor(), TextCursor::new(0, 0));
    buffer.action(TextAction::Insert('X'));
    assert_eq!(buffer.text_lines()[0].text(), "XHello");
    assert_eq!(buffer.cursor(), TextCursor::new(0, 1));
    assert_eq!(texts(&buffer), vec!["XHello", "World"]);
    assert!(buffer.cursor_moved());
}

#[test]
fn backspace_at_start_of_line_joins_lines() {
    let mut buffer = buffer_with(&LTR, "Hello\nWorld");
    buffer.set_cursor(TextCursor::new(1, 0)).unwrap();
    buffer.action(TextAction::Backspace);
    assert_eq!(texts(&buffer), vec!["HelloWorld"]);
    assert_eq!(buffer.cursor(), TextCursor::new(0, 5));
}

#[test]
fn enter_at_end_of_line_adds_empty_line() {
    let mut buffer = buffer_with(&LTR, "Hello");
    buffer.set_cursor(TextCursor::new(0, 5)).unwrap();
    buffer.action(TextAction::Enter);
    assert_eq!(texts(&buffer), vec!["Hello", ""]);
    assert_eq!(buffer.cursor(), TextCursor::new(1, 0));
}

#[test]
fn enter_in_the_middle_splits_the_line() {
    let mut buffer = buffer_with(&LTR, "Hello\nWorld");
    buffer.set_cursor(TextCursor::new(0, 2)).unwrap();
    buffer.action(TextAction::Enter);
    assert_eq!(texts(&buffer), vec!["He", "llo", "World"]);
    assert_eq!(buffer.cursor(), TextCursor::new(1, 0));
}

#[test]
fn insert_then_backspace_restores_text_and_cursor() {
    for (line, index) in [(0, 0), (0, 2), (0, 5), (1, 0), (1, 3)] {
        for c in ['X', 'é', '日', '\t'] {
            let mut buffer = buffer_with(&LTR, "Hello\nWorld");
            buffer.set_cursor(TextCursor::new(line, index)).unwrap();
            buffer.action(TextAction::Insert(c));
            assert_eq!(buffer.cursor(), TextCursor::new(line, index + c.len_utf8()));
            buffer.action(TextAction::Backspace);
            assert_eq!(texts(&buffer), vec!["Hello", "World"]);
            assert_eq!(buffer.cursor(), TextCursor::new(line, index));
        }
    }
}

#[test]
fn insert_in_the_middle_of_a_line() {
    let mut buffer = buffer_with(&LTR, "Hello");
    buffer.set_cursor(TextCursor::new(0, 2)).unwrap();
    buffer.action(TextAction::Insert('é'));
    assert_eq!(texts(&buffer), vec!["Heéllo"]);
    assert_eq!(buffer.cursor(), TextCursor::new(0, 4));
}

#[test]
fn insert_keeps_cursor_on_a_boundary() {
    // A base letter put in front of a combining mark joins the mark.
    let mut buffer = buffer_with(&LTR, "\u{301}x");
    buffer.action(TextAction::Insert('e'));
    assert_eq!(texts(&buffer), vec!["e\u{301}x"]);
    assert_eq!(buffer.cursor(), TextCursor::new(0, 0));
    assert!(cursor_is_valid(&buffer));
}

#[test]
fn insert_rejects_control_characters() {
    let mut buffer = buffer_with(&LTR, "Hello");
    buffer.set_cursor_moved(false);
    for c in ['\n', '\r', '\0', '\u{7F}', '\u{92}'] {
        buffer.action(TextAction::Insert(c));
        assert_eq!(texts(&buffer), vec!["Hello"]);
        assert_eq!(buffer.cursor(), TextCursor::new(0, 0));
    }
    assert!(!buffer.cursor_moved());
    buffer.action(TextAction::Insert('\t'));
    assert_eq!(texts(&buffer), vec!["\tHello"]);
    assert_eq!(buffer.cursor(), TextCursor::new(0, 1));
}

#[test]
fn insert_accepts_the_control_characters_that_are_allowed() {
    let mut buffer = buffer_with(&LTR, "Hello");
    buffer.set_allowed_controls(vec!['\u{92}']);
    buffer.action(TextAction::Insert('\t'));
    assert_eq!(texts(&buffer), vec!["Hello"]);
    buffer.action(TextAction::Insert('\u{92}'));
    assert_eq!(texts(&buffer), vec!["\u{92}Hello"]);
    assert_eq!(buffer.cursor(), TextCursor::new(0, 2));
}

#[test]
fn insert_carries_the_default_attributes() {
    let italic = Attrs::new().style(Style::Italic);
    let mut buffer = buffer_with(&LTR, "");
    buffer.set_text("Hello", italic);
    buffer.set_cursor(TextCursor::new(0, 2)).unwrap();
    buffer.action(TextAction::Insert('X'));
    let list = buffer.text_lines()[0].attrs_list();
    assert!(list.defaults() == italic);
    assert!(list.spans().is_empty());
    assert!(buffer.text_lines()[0].shape_opt().is_none());
}

#[test]
fn backspace_deletes_the_cluster_before_the_cursor() {
    let mut buffer = buffer_with(&LTR, "ae\u{301}x");
    buffer.set_cursor(TextCursor::new(0, 4)).unwrap();
    buffer.action(TextAction::Backspace);
    assert_eq!(texts(&buffer), vec!["ax"]);
    assert_eq!(buffer.cursor(), TextCursor::new(0, 1));
    buffer.action(TextAction::Backspace);
    assert_eq!(texts(&buffer), vec!["x"]);
    assert_eq!(buffer.cursor(), TextCursor::new(0, 0));
    buffer.action(TextAction::Backspace);
    assert_eq!(texts(&buffer), vec!["x"]);
    assert_eq!(buffer.cursor(), TextCursor::new(0, 0));
}

#[test]
fn delete_deletes_the_cluster_at_the_cursor() {
    let mut buffer = buffer_with(&LTR, "e\u{301}x\nab");
    buffer.action(TextAction::Delete);
    assert_eq!(texts(&buffer), vec!["x", "ab"]);
    assert_eq!(buffer.cursor(), TextCursor::new(0, 0));
    buffer.set_cursor(TextCursor::new(0, 1)).unwrap();
    buffer.action(TextAction::Delete);
    assert_eq!(texts(&buffer), vec!["xab"]);
    assert_eq!(buffer.cursor(), TextCursor::new(0, 1));
    buffer.set_cursor(TextCursor::new(0, 3)).unwrap();
    buffer.action(TextAction::Delete);
    assert_eq!(texts(&buffer), vec!["xab"]);
    assert_eq!(buffer.cursor(), TextCursor::new(0, 3));
}

#[test]
fn joining_lines_keeps_cursor_on_a_boundary() {
    let mut buffer = buffer_with(&LTR, "e\n\u{301}x");
    buffer.set_cursor(TextCursor::new(1, 0)).unwrap();
    buffer.action(TextAction::Backspace);
    assert_eq!(texts(&buffer), vec!["e\u{301}x"]);
    assert_eq!(buffer.cursor(), TextCursor::new(0, 0));
    assert!(cursor_is_valid(&buffer));
}

#[test]
fn previous_and_next_step_over_clusters_and_lines() {
    let mut buffer = buffer_with(&LTR, "e\u{301}x\nab");
    let mut seen = Vec::new();
    for _ in 0..6 {
        buffer.action(TextAction::Next);
        seen.push(buffer.cursor());
    }
    assert_eq!(
        seen,
        vec![
            TextCursor::new(0, 3),
            TextCursor::new(0, 4),
            TextCursor::new(1, 0),
            TextCursor::new(1, 1),
            TextCursor::new(1, 2),
            TextCursor::new(1, 2),
        ]
    );
    let mut seen = Vec::new();
    for _ in 0..6 {
        buffer.action(TextAction::Previous);
        seen.push(buffer.cursor());
    }
    assert_eq!(
        seen,
        vec![
            TextCursor::new(1, 1),
            TextCursor::new(1, 0),
            TextCursor::new(0, 4),
            TextCursor::new(0, 3),
            TextCursor::new(0, 0),
            TextCursor::new(0, 0),
        ]
    );
}

#[test]
fn left_and_right_follow_the_direction_of_the_line() {
    let mut buffer = buffer_with(&LTR, "abc");
    buffer.set_cursor(TextCursor::new(0, 1)).unwrap();
    buffer.action(TextAction::Right);
    assert_eq!(buffer.cursor(), TextCursor::new(0, 2));
    buffer.action(TextAction::Left);
    assert_eq!(buffer.cursor(), TextCursor::new(0, 1));

    let mut buffer = buffer_with(&RTL, "abc");
    buffer.set_cursor(TextCursor::new(0, 1)).unwrap();
    buffer.action(TextAction::Right);
    assert_eq!(buffer.cursor(), TextCursor::new(0, 0));
    buffer.action(TextAction::Left);
    assert_eq!(buffer.cursor(), TextCursor::new(0, 1));
}

#[test]
fn left_and_right_wait_for_the_line_to_be_shaped() {
    let mut buffer = TextBuffer::new(&LTR, TextMetrics::new(16, 20));
    buffer.set_text("abc", Attrs::new());
    assert!(buffer.text_lines()[0].shape_opt().is_none());
    buffer.set_cursor(TextCursor::new(0, 1)).unwrap();
    buffer.action(TextAction::Left);
    assert_eq!(buffer.cursor(), TextCursor::new(0, 1));
    buffer.action(TextAction::Right);
    assert_eq!(buffer.cursor(), TextCursor::new(0, 1));
    buffer.set_size(100, 60);
    assert!(buffer.text_lines()[0].shape_opt().is_some());
    buffer.action(TextAction::Left);
    assert_eq!(buffer.cursor(), TextCursor::new(0, 0));
}

#[test]
fn up_and_down_move_between_rows() {
    let mut buffer = TextBuffer::new(&LTR, TextMetrics::new(16, 20));
    buffer.set_size(50, 100);
    buffer.set_text("abcdefghij\nxyz", Attrs::new());
    assert_eq!(buffer.text_lines()[0].layout_opt().as_ref().unwrap().len(), 2);
    buffer.set_cursor(TextCursor::new(0, 2)).unwrap();
    buffer.action(TextAction::Down);
    assert_eq!(buffer.cursor(), TextCursor::new(0, 7));
    buffer.action(TextAction::Down);
    assert_eq!(buffer.cursor(), TextCursor::new(1, 2));
    buffer.action(TextAction::Down);
    assert_eq!(buffer.cursor(), TextCursor::new(1, 2));
    buffer.action(TextAction::Up);
    assert_eq!(buffer.cursor(), TextCursor::new(0, 7));
    buffer.action(TextAction::Up);
    assert_eq!(buffer.cursor(), TextCursor::new(0, 2));
    buffer.action(TextAction::Up);
    assert_eq!(buffer.cursor(), TextCursor::new(0, 2));
}

#[test]
fn vertical_movement_keeps_the_glyph_index() {
    let mut buffer = buffer_with(&LTR, "abcde\nxy\nabcde");
    buffer.set_cursor(TextCursor::new(0, 4)).unwrap();
    buffer.action(TextAction::Down);
    assert_eq!(buffer.cursor(), TextCursor::new(1, 2));
    buffer.action(TextAction::Down);
    assert_eq!(buffer.cursor(), TextCursor::new(2, 4));
    // Horizontal movement forgets the glyph index
    buffer.action(TextAction::Previous);
    assert_eq!(buffer.cursor(), TextCursor::new(2, 3));
    buffer.action(TextAction::Up);
    buffer.action(TextAction::Up);
    assert_eq!(buffer.cursor(), TextCursor::new(0, 3));
}

#[test]
fn home_and_end_move_within_the_row() {
    let mut buffer = TextBuffer::new(&LTR, TextMetrics::new(16, 20));
    buffer.set_size(50, 100);
    buffer.set_text("abcdefghij", Attrs::new());
    buffer.set_cursor(TextCursor::new(0, 2)).unwrap();
    buffer.action(TextAction::End);
    assert_eq!(buffer.cursor(), TextCursor::new(0, 5));
    buffer.action(TextAction::Home);
    assert_eq!(buffer.cursor(), TextCursor::new(0, 0));
    buffer.set_cursor(TextCursor::new(0, 7)).unwrap();
    buffer.action(TextAction::End);
    assert_eq!(buffer.cursor(), TextCursor::new(0, 10));
    buffer.set_cursor(TextCursor::new(0, 7)).unwrap();
    buffer.action(TextAction::Home);
    assert_eq!(buffer.cursor(), TextCursor::new(0, 5));
}

#[test]
fn cursor_is_valid_after_every_action() {
    let mut buffer = buffer_with(&LTR, "e\u{301}x\n\u{1F1E9}\u{1F1EA}\n\nlast");
    let actions = [
        TextAction::Next,
        TextAction::Down,
        TextAction::Insert('\u{301}'),
        TextAction::End,
        TextAction::Enter,
        TextAction::Up,
        TextAction::Delete,
        TextAction::Right,
        TextAction::Backspace,
        TextAction::Click { x: 15, y: 25 },
        TextAction::Insert('\u{1F1EB}'),
        TextAction::Drag { x: 3, y: 45 },
        TextAction::Home,
        TextAction::Backspace,
        TextAction::PageDown,
        TextAction::Left,
        TextAction::Scroll { lines: -7 },
        TextAction::Previous,
        TextAction::Delete,
        TextAction::PageUp,
        TextAction::Down,
        TextAction::Down,
        TextAction::Delete,
    ];
    for round in 0..3 {
        for action in actions.iter() {
            buffer.action(*action);
            assert!(cursor_is_valid(&buffer), "after {:?} in round {}", action, round);
            assert!(!buffer.text_lines().is_empty());
            assert!(buffer.scroll() >= 0);
        }
    }
}

fn ten_lines<'a>() -> TextBuffer<'a, Mono> {
    buffer_with(&LTR, "0\n1\n2\n3\n4\n5\n6\n7\n8\n9")
}

#[test]
fn shape_until_counts_rows_of_walked_lines() {
    let mut buffer = ten_lines();
    assert_eq!(buffer.shape_until(0), 0);
    assert_eq!(buffer.shape_until(-3), 0);
    assert_eq!(buffer.shape_until(4), 4);
    assert_eq!(buffer.shape_until(100), 10);

    let mut buffer = TextBuffer::new(&LTR, TextMetrics::new(16, 20));
    buffer.set_size(30, 0);
    buffer.set_text("abcdefgh\nab\nabcd", Attrs::new());
    assert_eq!(buffer.shape_until(1), 3);
    assert_eq!(buffer.shape_until(3), 3);
    assert_eq!(buffer.shape_until(4), 4);
    assert_eq!(buffer.shape_until(5), 6);
}

#[test]
fn shape_until_shapes_only_what_is_asked_for() {
    let mut buffer = ten_lines();
    let shaped = |buffer: &TextBuffer<'_, Mono>| {
        buffer.text_lines().iter().filter(|line| line.layout_opt().is_some()).count()
    };
    // The viewport shows three rows
    assert_eq!(shaped(&buffer), 3);
    buffer.set_redraw(false);
    assert_eq!(buffer.shape_until(3), 3);
    assert_eq!(shaped(&buffer), 3);
    assert!(!buffer.redraw());
    assert_eq!(buffer.shape_until(5), 5);
    assert_eq!(shaped(&buffer), 5);
    assert!(buffer.redraw());
}

#[test]
fn scroll_stays_in_range() {
    let mut buffer = ten_lines();
    assert_eq!(buffer.lines(), 3);
    buffer.action(TextAction::Scroll { lines: 4 });
    assert_eq!(buffer.scroll(), 4);
    buffer.action(TextAction::Scroll { lines: 100 });
    assert_eq!(buffer.scroll(), 8);
    buffer.action(TextAction::Scroll { lines: i32::MAX });
    assert_eq!(buffer.scroll(), 8);
    buffer.action(TextAction::Scroll { lines: -3 });
    assert_eq!(buffer.scroll(), 5);
    buffer.action(TextAction::Scroll { lines: i32::MIN });
    assert_eq!(buffer.scroll(), 0);
    buffer.action(TextAction::PageDown);
    assert_eq!(buffer.scroll(), 3);
    buffer.action(TextAction::PageDown);
    buffer.action(TextAction::PageDown);
    assert_eq!(buffer.scroll(), 8);
    buffer.action(TextAction::PageUp);
    assert_eq!(buffer.scroll(), 5);
    buffer.action(TextAction::PageUp);
    buffer.action(TextAction::PageUp);
    assert_eq!(buffer.scroll(), 0);
    assert_eq!(buffer.cursor(), TextCursor::new(0, 0));
}

#[test]
fn shape_until_scroll_keeps_scroll_between_zero_and_last_rows() {
    for rows in 1..12 {
        for scroll in [-5, 0, 3, 9, 20] {
            let mut buffer = ten_lines();
            buffer.set_size(100, 20 * rows);
            buffer.action(TextAction::Scroll { lines: scroll });
            buffer.shape_until_scroll();
            let total = buffer.shape_until(buffer.scroll() + rows);
            assert!(buffer.scroll() >= 0);
            assert!(buffer.scroll() <= std::cmp::max(0, total - rows + 1));
        }
    }
}

#[test]
fn shape_until_cursor_scrolls_to_the_cursor() {
    let mut buffer = ten_lines();
    buffer.set_cursor(TextCursor::new(9, 0)).unwrap();
    buffer.shape_until_cursor();
    assert_eq!(buffer.scroll(), 7);
    assert!(buffer.text_lines().iter().all(|line| line.layout_opt().is_some()));
    buffer.set_cursor(TextCursor::new(8, 0)).unwrap();
    buffer.shape_until_cursor();
    assert_eq!(buffer.scroll(), 7);
    buffer.set_cursor(TextCursor::new(2, 1)).unwrap();
    buffer.shape_until_cursor();
    assert_eq!(buffer.scroll(), 2);
}

#[test]
fn layout_runs_are_the_visible_rows() {
    let mut buffer = ten_lines();
    buffer.action(TextAction::Scroll { lines: 2 });
    let mut iter = buffer.layout_runs();
    let mut seen = Vec::new();
    while let Some(run) = iter.next(&buffer) {
        seen.push((run.line_i, run.text.to_string(), run.rtl, run.glyphs.len(), run.line_y));
    }
    assert_eq!(
        seen,
        vec![
            (2, "2".to_string(), false, 1, 16),
            (3, "3".to_string(), false, 1, 36),
            (4, "4".to_string(), false, 1, 56),
        ]
    );
    assert!(iter.next(&buffer).is_none());
    assert_eq!(TextLayoutRunIter::new(&buffer), buffer.layout_runs());
}

#[test]
fn layout_runs_stop_at_a_line_without_layout() {
    let mut buffer = TextBuffer::new(&LTR, TextMetrics::new(16, 20));
    buffer.set_size(100, 20);
    buffer.set_text("a\nb\nc", Attrs::new());
    buffer.set_size(100, 200);
    // Growing the height shapes what it shows
    let mut iter = buffer.layout_runs();
    let mut count = 0;
    while iter.next(&buffer).is_some() {
        count += 1;
    }
    assert_eq!(count, 3);

    let mut buffer = TextBuffer::new(&LTR, TextMetrics::new(16, 20));
    buffer.set_text("a\nb\nc", Attrs::new());
    let mut iter = buffer.layout_runs();
    assert!(iter.next(&buffer).is_none());
}

#[test]
fn hit_finds_the_nearest_boundary() {
    let buffer = buffer_with(&LTR, "Hello\nWorld");
    assert_eq!(buffer.hit(12, 5), Some(TextCursor::new(0, 1)));
    assert_eq!(buffer.hit(17, 5), Some(TextCursor::new(0, 2)));
    assert_eq!(buffer.hit(10, 5), Some(TextCursor::new(0, 1)));
    assert_eq!(buffer.hit(0, 0), Some(TextCursor::new(0, 0)));
    assert_eq!(buffer.hit(500, 19), Some(TextCursor::new(0, 5)));
    assert_eq!(buffer.hit(-3, 19), Some(TextCursor::new(0, 5)));
    assert_eq!(buffer.hit(4, 20), Some(TextCursor::new(1, 0)));
    assert_eq!(buffer.hit(5, 39), Some(TextCursor::new(1, 1)));
    assert_eq!(buffer.hit(0, 40), None);
    assert_eq!(buffer.hit(0, -1), None);
}

#[test]
fn hit_never_splits_a_grapheme_cluster() {
    // Each character is a glyph of its own, so the mark has its own box.
    let buffer = buffer_with(&LTR, "ae\u{301}x");
    for x in -5..60 {
        let cursor = buffer.hit(x, 5).unwrap();
        assert_eq!(cursor.line, 0);
        assert!(is_boundary_of("ae\u{301}x", cursor.index), "x = {}", x);
    }
    assert_eq!(buffer.hit(22, 5), Some(TextCursor::new(0, 1)));
    assert_eq!(buffer.hit(28, 5), Some(TextCursor::new(0, 4)));
}

#[test]
fn click_moves_the_cursor_and_drops_the_selection() {
    let mut buffer = buffer_with(&LTR, "Hello\nWorld");
    buffer.action(TextAction::Drag { x: 27, y: 5 });
    assert_eq!(buffer.select(), Some(TextCursor::new(0, 0)));
    assert_eq!(buffer.cursor(), TextCursor::new(0, 3));
    buffer.action(TextAction::Drag { x: 12, y: 25 });
    assert_eq!(buffer.select(), Some(TextCursor::new(0, 0)));
    assert_eq!(buffer.cursor(), TextCursor::new(1, 1));
    buffer.set_redraw(false);
    buffer.set_cursor_moved(false);
    buffer.action(TextAction::Click { x: 12, y: 25 });
    assert_eq!(buffer.select(), None);
    assert_eq!(buffer.cursor(), TextCursor::new(1, 1));
    assert!(!buffer.redraw());
    assert!(!buffer.cursor_moved());
    buffer.action(TextAction::Click { x: 0, y: 500 });
    assert_eq!(buffer.cursor(), TextCursor::new(1, 1));
    buffer.action(TextAction::Click { x: 0, y: 0 });
    assert_eq!(buffer.cursor(), TextCursor::new(0, 0));
    assert!(buffer.redraw());
    assert!(buffer.cursor_moved());
}

#[test]
fn layout_cursor_finds_row_and_glyph() {
    let mut buffer = TextBuffer::new(&LTR, TextMetrics::new(16, 20));
    buffer.set_size(50, 100);
    buffer.set_text("abcdefghij\n", Attrs::new());
    assert_eq!(
        buffer.layout_cursor(&TextCursor::new(0, 2)),
        Ok(TextLayoutCursor::new(0, 0, 2))
    );
    assert_eq!(
        buffer.layout_cursor(&TextCursor::new(0, 5)),
        Ok(TextLayoutCursor::new(0, 0, 5))
    );
    assert_eq!(
        buffer.layout_cursor(&TextCursor::new(0, 7)),
        Ok(TextLayoutCursor::new(0, 1, 2))
    );
    assert_eq!(
        buffer.layout_cursor(&TextCursor::new(0, 10)),
        Ok(TextLayoutCursor::new(0, 1, 5))
    );
}

#[test]
fn layout_cursor_falls_back_to_the_start() {
    let mut buffer = TextBuffer::new(&LTR, TextMetrics::new(16, 20));
    buffer.set_text("abc", Attrs::new());
    assert!(buffer.text_lines()[0].layout_opt().is_none());
    assert_eq!(
        buffer.layout_cursor(&TextCursor::new(0, 2)),
        Ok(TextLayoutCursor::new(0, 0, 0))
    );
}

#[test]
fn layout_cursor_reports_places_out_of_range() {
    let buffer = buffer_with(&LTR, "Hello\nWorld");
    assert_eq!(buffer.layout_cursor(&TextCursor::new(2, 0)), Err(TextError::LineOutOfRange));
    assert_eq!(buffer.layout_cursor(&TextCursor::new(1, 6)), Err(TextError::IndexOutOfRange));
}

#[test]
fn set_layout_cursor_clamps_row_and_glyph() {
    let mut buffer = TextBuffer::new(&LTR, TextMetrics::new(16, 20));
    buffer.set_size(50, 100);
    buffer.set_text("abcdefghij\nxyz", Attrs::new());
    assert_eq!(buffer.set_layout_cursor(TextLayoutCursor::new(0, 1, 3)), Ok(()));
    assert_eq!(buffer.cursor(), TextCursor::new(0, 8));
    assert_eq!(buffer.set_layout_cursor(TextLayoutCursor::new(0, 7, 1)), Ok(()));
    assert_eq!(buffer.cursor(), TextCursor::new(0, 6));
    assert_eq!(buffer.set_layout_cursor(TextLayoutCursor::new(1, 0, 50)), Ok(()));
    assert_eq!(buffer.cursor(), TextCursor::new(1, 3));
    buffer.set_redraw(false);
    assert_eq!(buffer.set_layout_cursor(TextLayoutCursor::new(1, 0, 3)), Ok(()));
    assert!(!buffer.redraw());
    assert_eq!(buffer.set_layout_cursor(TextLayoutCursor::new(1, 0, 0)), Ok(()));
    assert!(buffer.redraw());
    assert_eq!(
        buffer.set_layout_cursor(TextLayoutCursor::new(2, 0, 0)),
        Err(TextError::LineOutOfRange)
    );
    assert_eq!(buffer.cursor(), TextCursor::new(1, 0));
}

#[test]
fn set_cursor_checks_the_place() {
    let mut buffer = buffer_with(&LTR, "e\u{301}x\nab");
    assert_eq!(buffer.set_cursor(TextCursor::new(2, 0)), Err(TextError::LineOutOfRange));
    assert_eq!(buffer.set_cursor(TextCursor::new(1, 3)), Err(TextError::IndexOutOfRange));
    assert_eq!(buffer.set_cursor(TextCursor::new(0, 1)), Err(TextError::NotOnBoundary));
    assert_eq!(buffer.cursor(), TextCursor::new(0, 0));
    assert_eq!(buffer.set_cursor(TextCursor::new(0, 3)), Ok(()));
    assert_eq!(buffer.cursor(), TextCursor::new(0, 3));
    assert!(buffer.cursor_moved());
}

#[test]
fn set_metrics_lays_out_shaped_lines_anew() {
    let mut buffer = ten_lines();
    let sizes = |buffer: &TextBuffer<'_, Mono>| -> Vec<Option<i32>> {
        buffer
            .text_lines()
            .iter()
            .map(|line| line.layout_opt().as_ref().map(|rows| rows[0].glyphs[0].cache_key.font_size))
            .collect()
    };
    assert_eq!(sizes(&buffer)[..4], [Some(16), Some(16), Some(16), None]);
    buffer.set_redraw(false);
    buffer.set_metrics(TextMetrics::new(16, 20));
    assert!(!buffer.redraw());
    buffer.set_metrics(TextMetrics::new(32, 30));
    assert!(buffer.redraw());
    assert_eq!(buffer.metrics(), TextMetrics::new(32, 30));
    assert_eq!(buffer.lines(), 2);
    assert_eq!(sizes(&buffer)[..4], [Some(32), Some(32), Some(32), None]);
}

#[test]
fn set_size_wraps_rows_at_the_new_width() {
    let mut buffer = buffer_with(&LTR, "abcdefghij");
    let rows = |buffer: &TextBuffer<'_, Mono>| {
        buffer.text_lines()[0].layout_opt().as_ref().unwrap().len()
    };
    assert_eq!(rows(&buffer), 1);
    buffer.set_size(30, 60);
    assert_eq!(buffer.size(), (30, 60));
    assert_eq!(rows(&buffer), 4);
    buffer.action(TextAction::Scroll { lines: 9 });
    assert_eq!(buffer.scroll(), 2);
    buffer.set_size(50, 60);
    assert_eq!(rows(&buffer), 2);
    assert_eq!(buffer.scroll(), 0);
}
