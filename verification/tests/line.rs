use cosmic_text::{
    Attrs, AttrsList, LayoutGlyph, LayoutLine, CacheKey, ShapeLine, Shaper, Style, TextBufferLine,
    Weight,
};

struct OneRow;

impl Shaper for OneRow {
    fn shape(&self, text: &str, _attrs_list: &AttrsList<'_>) -> ShapeLine {
        ShapeLine { rtl: text.starts_with('\u{5D0}') }
    }

    fn layout(
        &self,
        text: &str,
        _attrs_list: &AttrsList<'_>,
        _shape: &ShapeLine,
        font_size: i32,
        width: i32,
    ) -> Vec<LayoutLine> {
        let key = CacheKey { font_id: 0, glyph_id: 0, font_size, x_bin: 0, y_bin: 0 };
        let glyph = LayoutGlyph {
            start: 0,
            end: text.len(),
            x: 0,
            w: width,
            rtl: false,
            cache_key: key,
            x_int: 0,
            y_int: 0,
            color_opt: None,
        };
        vec![LayoutLine { glyphs: vec![glyph] }]
    }
}

#[test]
fn line_new_is_unshaped() {
    let line = TextBufferLine::new("Hello", AttrsList::new(Attrs::new()));
    assert_eq!(line.text(), "Hello");
    assert_eq!(line.len(), 5);
    assert!(line.attrs_list().spans().is_empty());
    assert!(line.shape_opt().is_none());
    assert!(line.layout_opt().is_none());
}

#[test]
fn line_layout_caches_shape_and_rows() {
    let mut line = TextBufferLine::new("Hello", AttrsList::new(Attrs::new()));
    assert_eq!(line.layout(&OneRow, 16, 70), 1);
    assert_eq!(line.shape_opt(), &Some(ShapeLine { rtl: false }));
    let layout = line.layout_opt().as_ref().unwrap();
    assert_eq!(layout.len(), 1);
    assert_eq!(layout[0].glyphs[0].w, 70);
    assert_eq!(layout[0].glyphs[0].end, 5);
    assert_eq!(layout[0].glyphs[0].cache_key.font_size, 16);

    // A line that is laid out is left as it is
    assert_eq!(line.layout(&OneRow, 32, 90), 1);
    assert_eq!(line.layout_opt().as_ref().unwrap()[0].glyphs[0].w, 70);
}

#[test]
fn line_reset_layout_keeps_shape() {
    let mut line = TextBufferLine::new("\u{5D0}", AttrsList::new(Attrs::new()));
    line.layout(&OneRow, 16, 70);
    assert_eq!(line.shape(&OneRow), ShapeLine { rtl: true });
    line.reset_layout();
    assert!(line.layout_opt().is_none());
    assert_eq!(line.shape_opt(), &Some(ShapeLine { rtl: true }));
    line.layout(&OneRow, 16, 90);
    assert_eq!(line.layout_opt().as_ref().unwrap()[0].glyphs[0].w, 90);
    line.reset();
    assert!(line.shape_opt().is_none());
    assert!(line.layout_opt().is_none());
}

#[test]
fn line_split_off_splits_text_and_spans() {
    let bold = Attrs::new().weight(Weight::bold());
    let mut list = AttrsList::new(Attrs::new());
    list.add_span(3..8, bold);
    let mut line = TextBufferLine::new("HelloWorld", list);
    line.layout(&OneRow, 16, 70);
    let tail = line.split_off(5);
    assert_eq!(line.text(), "Hello");
    assert_eq!(tail.text(), "World");
    assert_eq!(line.attrs_list().spans(), &vec![(3..5, bold)]);
    assert_eq!(tail.attrs_list().spans(), &vec![(0..3, bold)]);
    assert!(line.shape_opt().is_none());
    assert!(line.layout_opt().is_none());
    assert!(tail.shape_opt().is_none());
}

#[test]
fn line_append_joins_text_and_shifts_spans() {
    let bold = Attrs::new().weight(Weight::bold());
    let italic = Attrs::new().style(Style::Italic);
    let mut list = AttrsList::new(Attrs::new());
    list.add_span(3..5, bold);
    let mut line = TextBufferLine::new("Hello", list);
    let mut other_list = AttrsList::new(Attrs::new());
    other_list.add_span(0..3, bold);
    other_list.add_span(4..5, italic);
    let other = TextBufferLine::new("World", other_list);
    line.layout(&OneRow, 16, 70);
    line.append(other);
    assert_eq!(line.text(), "HelloWorld");
    assert_eq!(line.attrs_list().spans(), &vec![(3..8, bold), (9..10, italic)]);
    assert!(line.shape_opt().is_none());
    assert!(line.layout_opt().is_none());
}

#[test]
fn line_append_marks_text_with_other_defaults() {
    let italic = Attrs::new().style(Style::Italic);
    let mut line = TextBufferLine::new("Hello", AttrsList::new(Attrs::new()));
    line.append(TextBufferLine::new("World", AttrsList::new(italic)));
    assert_eq!(line.text(), "HelloWorld");
    assert_eq!(line.attrs_list().spans(), &vec![(5..10, italic)]);
    assert!(line.attrs_list().defaults() == Attrs::new());
}

#[test]
fn line_split_then_append_restores_text_and_spans() {
    let bold = Attrs::new().weight(Weight::bold());
    let mut list = AttrsList::new(Attrs::new());
    list.add_span(2..7, bold);
    let mut line = TextBufferLine::new("héllo wörld", list);
    let tail = line.split_off(3);
    assert_eq!(line.text(), "hé");
    assert_eq!(tail.text(), "llo wörld");
    line.append(tail);
    assert_eq!(line.text(), "héllo wörld");
    assert_eq!(line.attrs_list().spans(), &vec![(2..7, bold)]);
}
