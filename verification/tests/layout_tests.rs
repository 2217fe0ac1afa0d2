//! Layout engine behaviour on concrete fonts.

use typeset::config::{HorizontalAlign, TextLayoutConfig, VerticalAlign, WrapStyle};
use typeset::font_store::{FontStore, LineMetrics, SizedFont};
use typeset::glyph::GlyphMetrics;
use typeset::layout::{TextData, TextElement};

const SIZE16: u32 = 16 * 64;

fn metrics(width: i64, xmin: i64, advance: i64) -> GlyphMetrics {
    GlyphMetrics { width, height: 640, xmin, ymin: 0, advance }
}

/// One font: 'H' wide, 'i' narrow, a space, letters a..d, with one kerning
/// pair (H, i). All values in subunits of 1/64 pixel.
fn test_store() -> FontStore {
    let mut sf = SizedFont::new(0, SIZE16);
    assert!(sf.set_line_metrics(LineMetrics { ascent: 768, descent: -256, line_gap: 64 }));
    assert!(sf.push_glyph('H', 1, metrics(560, 16, 640)));
    assert!(sf.push_glyph('i', 2, metrics(120, 8, 240)));
    assert!(sf.push_glyph(' ', 3, metrics(0, 0, 320)));
    assert!(sf.push_glyph('a', 4, metrics(500, 10, 600)));
    assert!(sf.push_glyph('b', 5, metrics(500, 10, 600)));
    assert!(sf.push_glyph('c', 6, metrics(500, 10, 600)));
    assert!(sf.push_glyph('d', 7, metrics(500, 10, 600)));
    assert!(sf.push_glyph('A', 8, metrics(560, 12, 600)));
    assert!(sf.push_glyph('V', 9, metrics(560, 12, 600)));
    assert!(sf.push_glyph('X', 10, metrics(560, 12, 600)));
    assert!(sf.push_kern(1, 2, 32));
    assert!(sf.push_kern(8, 9, 64));
    assert!(sf.push_kern(9, 8, 64));
    let mut store = FontStore::new();
    store.add_font(sf);
    store
}

fn text_of(content: &str) -> TextData<u32> {
    let mut data = TextData::new();
    data.push(TextElement {
        font_id: 0,
        font_size: SIZE16,
        content: content.chars().collect(),
        user_data: 7,
    });
    data
}

fn left_top() -> TextLayoutConfig {
    TextLayoutConfig::default()
}

#[test]
fn single_run_positions() {
    let store = test_store();
    let layout = text_of("Hi").layout(&left_top(), &store);
    assert_eq!(layout.lines.len(), 1);
    let line = &layout.lines[0];
    assert_eq!(line.glyphs.len(), 2);
    // First glyph sits at its own xmin.
    assert_eq!(line.glyphs[0].x, 16);
    // Second: advance of 'H' plus kern(H, i) plus xmin of 'i'.
    assert_eq!(line.glyphs[1].x, 640 + 32 + 8);
    // Vertical: the baseline centers the body in the line box
    // (1088/2 - (768-256)/2 = 288), and the bitmap top sits one bitmap
    // height above the baseline: 288 - (0 + 640).
    assert_eq!(line.glyphs[0].y, 288 - 640);
    assert_eq!(line.glyphs[0].user_data, 7);
    assert_eq!(layout.len_glyphs(), 2);
    assert_eq!(layout.len_lines(), 1);
}

#[test]
fn measure_matches_layout_totals() {
    let store = test_store();
    let data = text_of("Hi");
    let layout = data.layout(&left_top(), &store);
    let size = data.measure(&left_top(), &store);
    assert_eq!(size[0], layout.total_width);
    assert_eq!(size[1], layout.total_height);
}

#[test]
fn line_metrics_and_totals() {
    let store = test_store();
    let layout = text_of("Hi").layout(&left_top(), &store);
    let line = &layout.lines[0];
    // Raw line height: ascent - descent + gap = 768 + 256 + 64 = 1088; scale 1.
    assert_eq!(line.line_height, 1088);
    assert_eq!(line.top, 0);
    assert_eq!(line.bottom, 1088);
    assert_eq!(layout.total_height, 1088);
    // Widest extent: cursor after 'H' (640) + kern (32) + xmin + width of 'i'.
    assert_eq!(layout.total_width, 640 + 32 + 8 + 120);
    assert_eq!(line.line_width, layout.total_width);
}

#[test]
fn word_wrap_breaks_at_limit() {
    let store = test_store();
    // "ab cd": each of a,b advances 600, extent ends at 10+500.
    // Keep "ab" (extent 600+10+500 = 1110) but not "ab cd".
    let mut config = left_top();
    config.max_width = Some(1700);
    let layout = text_of("ab cd").layout(&config, &store);
    assert_eq!(layout.lines.len(), 2);
    // First line: 'a', 'b' and the space; second line: 'c', 'd'.
    assert_eq!(layout.lines[0].glyphs.len(), 3);
    assert_eq!(layout.lines[1].glyphs.len(), 2);
    assert!(layout.lines[1].glyphs[0].x < layout.lines[1].glyphs[1].x);
}

#[test]
fn char_wrap_breaks_every_glyph() {
    let store = test_store();
    let mut config = left_top();
    config.wrap_style = WrapStyle::CharWrap;
    // Each glyph extent ends at 10+500 = 510; two glyphs end at 600+510.
    config.max_width = Some(700);
    let layout = text_of("abcd").layout(&config, &store);
    assert_eq!(layout.lines.len(), 4);
    for line in &layout.lines {
        assert!(line.line_width <= 700);
        assert_eq!(line.glyphs.len(), 1);
    }
}

#[test]
fn no_wrap_counts_hard_breaks() {
    let store = test_store();
    let mut config = left_top();
    config.wrap_style = WrapStyle::NoWrap;
    config.max_width = Some(10);
    let layout = text_of("ab\ncd\nab").layout(&config, &store);
    assert_eq!(layout.lines.len(), 3);
    let layout2 = text_of("ab\u{2028}cd\u{2029}ab").layout(&config, &store);
    assert_eq!(layout2.lines.len(), 3);
}

#[test]
fn lone_newline_preserves_blank_line() {
    let store = test_store();
    let layout = text_of("\n").layout(&left_top(), &store);
    // The break commits one empty line with zero metrics; nothing is open
    // after it.
    assert_eq!(layout.lines.len(), 1);
    assert_eq!(layout.lines[0].glyphs.len(), 0);
    assert_eq!(layout.lines[0].line_height, 0);
    assert_eq!(layout.total_height, 0);
}

#[test]
fn tab_advances_by_spaces() {
    let store = test_store();
    let layout = text_of("\tX").layout(&left_top(), &store);
    assert_eq!(layout.lines.len(), 1);
    let line = &layout.lines[0];
    assert_eq!(line.glyphs.len(), 1);
    // Four space advances (320 each) plus xmin of 'X'.
    assert_eq!(line.glyphs[0].x, 4 * 320 + 12);
    // The tab opened the line with the run's metrics: the descent is kept,
    // so the indented line has the full line height 768 + 256 + 64.
    assert_eq!(line.line_height, 1088);
}

#[test]
fn tab_only_line_keeps_run_metrics() {
    let store = test_store();
    let layout = text_of("\t\nX").layout(&left_top(), &store);
    assert_eq!(layout.lines.len(), 2);
    // The tab-only first line carries the run's full line height, not zero
    // metrics; its cursor advanced by four spaces.
    assert_eq!(layout.lines[0].line_height, 1088);
    assert_eq!(layout.lines[0].line_width, 4 * 320);
    assert_eq!(layout.lines[1].glyphs.len(), 1);
}

#[test]
fn right_alignment_shifts_by_container_minus_width() {
    let store = test_store();
    let mut left = left_top();
    left.max_width = Some(4000);
    let mut right = left.clone();
    right.horizontal_align = HorizontalAlign::Right;
    let l = text_of("Hi").layout(&left, &store);
    let r = text_of("Hi").layout(&right, &store);
    let shift = 4000 - l.lines[0].line_width;
    for (gl, gr) in l.lines[0].glyphs.iter().zip(r.lines[0].glyphs.iter()) {
        assert_eq!(gr.x, gl.x + shift);
        assert_eq!(gr.y, gl.y);
    }
}

#[test]
fn center_alignment_shifts_by_half() {
    let store = test_store();
    let mut left = left_top();
    left.max_width = Some(4000);
    let mut center = left.clone();
    center.horizontal_align = HorizontalAlign::Center;
    let l = text_of("Hi").layout(&left, &store);
    let c = text_of("Hi").layout(&center, &store);
    let shift = (4000 - l.lines[0].line_width) / 2;
    for (gl, gc) in l.lines[0].glyphs.iter().zip(c.lines[0].glyphs.iter()) {
        assert_eq!(gc.x, gl.x + shift);
    }
}

#[test]
fn middle_alignment_shifts_down_by_half_slack() {
    let store = test_store();
    let mut top = left_top();
    top.max_height = Some(10000);
    let mut middle = top.clone();
    middle.vertical_align = VerticalAlign::Middle;
    let t = text_of("Hi").layout(&top, &store);
    let m = text_of("Hi").layout(&middle, &store);
    let shift = (10000 - t.total_height) / 2;
    assert_eq!(m.lines[0].top, t.lines[0].top + shift);
    assert_eq!(m.lines[0].bottom, t.lines[0].bottom + shift);
    for (gt, gm) in t.lines[0].glyphs.iter().zip(m.lines[0].glyphs.iter()) {
        assert_eq!(gm.y, gt.y + shift);
        assert_eq!(gm.x, gt.x);
    }
}

#[test]
fn bottom_alignment_shifts_down_by_slack() {
    let store = test_store();
    let mut top = left_top();
    top.max_height = Some(10000);
    let mut bottom = top.clone();
    bottom.vertical_align = VerticalAlign::Bottom;
    let t = text_of("Hi").layout(&top, &store);
    let b = text_of("Hi").layout(&bottom, &store);
    let shift = 10000 - t.total_height;
    assert_eq!(b.lines[0].top, t.lines[0].top + shift);
}

#[test]
fn kerning_applies_across_runs() {
    let store = test_store();
    let one = text_of("AVA").layout(&left_top(), &store);
    let mut split = TextData::new();
    split.push(TextElement {
        font_id: 0,
        font_size: SIZE16,
        content: "A".chars().collect(),
        user_data: 7,
    });
    split.push(TextElement {
        font_id: 0,
        font_size: SIZE16,
        content: "VA".chars().collect(),
        user_data: 7,
    });
    let two = split.layout(&left_top(), &store);
    assert_eq!(one.lines.len(), two.lines.len());
    let a = &one.lines[0].glyphs;
    let b = &two.lines[0].glyphs;
    assert_eq!(a.len(), b.len());
    for (ga, gb) in a.iter().zip(b.iter()) {
        assert_eq!(ga.x, gb.x);
        assert_eq!(ga.y, gb.y);
    }
}

#[test]
fn missing_font_skips_run() {
    let store = test_store();
    let mut data = text_of("Hi");
    data.push(TextElement {
        font_id: 9,
        font_size: SIZE16,
        content: "zz".chars().collect(),
        user_data: 0,
    });
    let layout = data.layout(&left_top(), &store);
    assert_eq!(layout.len_glyphs(), 2);
}

#[test]
fn vertical_only_font_skips_run() {
    let mut sf = SizedFont::new(3, SIZE16);
    assert!(sf.push_glyph('H', 1, metrics(560, 16, 640)));
    let mut store = test_store();
    store.add_font(sf);
    let mut data = TextData::new();
    data.push(TextElement {
        font_id: 3,
        font_size: SIZE16,
        content: "H".chars().collect(),
        user_data: 0u32,
    });
    let layout = data.layout(&left_top(), &store);
    assert_eq!(layout.lines.len(), 0);
}

#[test]
fn missing_glyph_is_dropped() {
    let store = test_store();
    let layout = text_of("Hq").layout(&left_top(), &store);
    assert_eq!(layout.len_glyphs(), 1);
}

#[test]
fn empty_text_has_no_lines() {
    let store = test_store();
    let data: TextData<u32> = TextData::new();
    let layout = data.layout(&left_top(), &store);
    assert_eq!(layout.lines.len(), 0);
    assert_eq!(layout.total_height, 0);
    assert_eq!(layout.total_width, 0);
}

#[test]
fn reading_order_is_non_decreasing() {
    let store = test_store();
    let layout = text_of("Habcd iAVA").layout(&left_top(), &store);
    for line in &layout.lines {
        for pair in line.glyphs.windows(2) {
            assert!(pair[0].x <= pair[1].x);
        }
    }
}

#[test]
fn containment_and_totals() {
    let store = test_store();
    let layout = text_of("Hi\nabcd\nX").layout(&left_top(), &store);
    let mut sum = 0i64;
    let mut max_w = 0i64;
    for line in &layout.lines {
        assert_eq!(line.bottom - line.top, line.line_height);
        assert!(line.top < line.bottom);
        sum += line.line_height;
        if line.line_width > max_w {
            max_w = line.line_width;
        }
    }
    assert_eq!(layout.total_height, sum);
    assert_eq!(layout.total_width, max_w);
}

#[test]
fn line_height_scale_doubles_heights() {
    let store = test_store();
    let mut config = left_top();
    config.line_height_scale = 128;
    let layout = text_of("Hi").layout(&config, &store);
    assert_eq!(layout.lines[0].line_height, 2 * 1088);
}

#[test]
fn rejects_out_of_range_metrics() {
    let mut sf = SizedFont::new(0, SIZE16);
    assert!(!sf.push_glyph('H', 1, metrics(560, 16, -1)));
    assert!(!sf.set_line_metrics(LineMetrics { ascent: -1, descent: 0, line_gap: 0 }));
    assert!(!sf.push_kern(1, 2, i64::MAX));
    assert!(sf.glyphs.is_empty());
}

#[test]
fn within_char_limit_counts_all_runs() {
    let data = text_of("Hi");
    assert!(data.within_char_limit());
}

#[test]
fn default_config_values() {
    let config = TextLayoutConfig::default();
    assert!(config.max_width.is_none());
    assert!(config.max_height.is_none());
    assert_eq!(config.horizontal_align, HorizontalAlign::Left);
    assert_eq!(config.vertical_align, VerticalAlign::Top);
    assert_eq!(config.line_height_scale, 64);
    assert_eq!(config.wrap_style, WrapStyle::WordWrap);
    assert_eq!(config.tab_size_in_spaces, 4);
    assert!(config.is_wf());
}

#[test]
fn glyph_id_keeps_components() {
    let id = typeset::glyph::GlyphId::new(3, 9, SIZE16);
    assert_eq!(id.font_id, 3);
    assert_eq!(id.glyph_index, 9);
    assert_eq!(id.size, SIZE16);
    assert_eq!(id, typeset::glyph::GlyphId::new(3, 9, SIZE16));
}

#[test]
fn same_size_runs_share_a_table() {
    // Two runs of the same font and size concatenate without a separator.
    let store = test_store();
    let mut data = TextData::new();
    data.push(TextElement {
        font_id: 0,
        font_size: SIZE16,
        content: "H".chars().collect(),
        user_data: 1,
    });
    data.push(TextElement {
        font_id: 0,
        font_size: SIZE16,
        content: "i".chars().collect(),
        user_data: 2,
    });
    let layout = data.layout(&left_top(), &store);
    assert_eq!(layout.lines.len(), 1);
    let line = &layout.lines[0];
    assert_eq!(line.glyphs.len(), 2);
    // Kerning still applies across the run boundary.
    assert_eq!(line.glyphs[1].x, 640 + 32 + 8);
    // Each glyph keeps its own run's payload.
    assert_eq!(line.glyphs[0].user_data, 1);
    assert_eq!(line.glyphs[1].user_data, 2);
}
