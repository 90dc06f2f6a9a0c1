use parley_core::layout::{
    visual_glyphs,
    BreakReason, Glyph, LayoutData, LayoutItem, LayoutItemKind, LineData, LineItemData,
    LineMetrics, RunData,
};
use parley_core::line::{GlyphRunIter, PositionedLayoutItem};
use parley_core::style::{InlineBox, ShapeStyle};

fn style(size: i32) -> ShapeStyle {
    ShapeStyle {
        font_size: size,
        font_stack: 1,
        font_width: 100,
        font_weight: 400,
        font_style: 0,
        locale: None,
        font_variations: 0,
        font_features: 0,
        word_spacing: 0,
        letter_spacing: 0,
    }
}

fn glyph(id: u16, style_index: u16, advance: i32) -> Glyph {
    Glyph { id, style_index, x: 0, y: 0, advance }
}

fn run(glyphs: Vec<Glyph>) -> RunData {
    RunData {
        font_id: 1,
        font_index: 0,
        font_size: 16,
        bidi_level: 0,
        word_spacing: 0,
        letter_spacing: 0,
        glyphs,
    }
}

fn metrics() -> LineMetrics {
    LineMetrics {
        ascent: 12,
        descent: 4,
        leading: 2,
        line_height: 18,
        baseline: 14,
        offset: 5,
        advance: 100,
        trailing_whitespace: 3,
        min_coord: 0,
        max_coord: 18,
    }
}

/// A run of five glyphs in styles 0,0,1,1,0, then a box, then a run of one glyph.
fn sample() -> LayoutData {
    let mut layout = LayoutData::new(vec![style(16), style(16)]);
    layout.push_run(run(vec![
        glyph(1, 0, 10),
        glyph(2, 0, 11),
        glyph(3, 1, 12),
        glyph(4, 1, 13),
        glyph(5, 0, 14),
    ]));
    layout.inline_boxes.push(InlineBox { index: 5, width: 20, height: 30, id: 77 });
    layout.push_inline_box(0);
    layout.push_run(run(vec![glyph(6, 1, 7)]));
    layout.line_items = vec![
        LineItemData { kind: LayoutItemKind::TextRun, index: 0, advance: 60 },
        LineItemData { kind: LayoutItemKind::InlineBox, index: 0, advance: 20 },
        LineItemData { kind: LayoutItemKind::TextRun, index: 1, advance: 7 },
    ];
    layout.lines.push(LineData {
        text_range: 0..7,
        item_range: 0..3,
        break_reason: BreakReason::Regular,
        metrics: metrics(),
    });
    layout
}

#[test]
fn items_list_follows_pushes() {
    let layout = sample();
    assert_eq!(layout.item(0), Some(LayoutItem { kind: LayoutItemKind::TextRun, index: 0 }));
    assert_eq!(layout.item(1), Some(LayoutItem { kind: LayoutItemKind::InlineBox, index: 0 }));
    assert_eq!(layout.item(2), Some(LayoutItem { kind: LayoutItemKind::TextRun, index: 1 }));
    assert_eq!(layout.item(3), None);
}

#[test]
fn line_accessors() {
    let layout = sample();
    let line = layout.line(0).unwrap();
    assert!(layout.line(1).is_none());
    assert_eq!(line.len(), 3);
    assert!(!line.is_empty());
    assert_eq!(line.text_range(), 0..7);
    assert_eq!(line.break_reason(), BreakReason::Regular);
    assert_eq!(line.metrics().size(), 18);
    assert_eq!(line.item(1).unwrap().kind, LayoutItemKind::InlineBox);
    assert!(line.item(3).is_none());
    let r = line.run(2).unwrap();
    assert_eq!(r.index, 2);
    assert_eq!(r.data.glyphs.len(), 1);
    assert!(line.run(1).is_none());
    assert!(line.run(3).is_none());
}

#[test]
fn composes_glyph_runs_and_boxes() {
    let layout = sample();
    let line = layout.line(0).unwrap();
    let items = line.items();
    assert_eq!(items.len(), 5);
    let expect = [(0usize, 0u16, 0usize, 2usize, 5i64, 21i64), (0, 1, 2, 2, 26, 25), (0, 0, 4, 1, 51, 14)];
    for (k, (run, style, start, count, offset, advance)) in expect.iter().enumerate() {
        match items[k] {
            PositionedLayoutItem::GlyphRun(g) => {
                assert_eq!(g.run(), *run);
                assert_eq!(g.style(), *style);
                assert_eq!(g.glyph_start, *start);
                assert_eq!(g.glyph_count, *count);
                assert_eq!(g.offset(), *offset);
                assert_eq!(g.advance(), *advance);
                assert_eq!(g.baseline(), 14);
            }
            _ => panic!("expected a glyph run"),
        }
    }
    match items[3] {
        PositionedLayoutItem::InlineBox(b) => {
            assert_eq!(b.x, 65);
            assert_eq!(b.y, -16);
            assert_eq!((b.width, b.height, b.id), (20, 30, 77));
        }
        _ => panic!("expected the box"),
    }
    match items[4] {
        PositionedLayoutItem::GlyphRun(g) => {
            assert_eq!(g.run(), 1);
            assert_eq!(g.offset(), 85);
            assert_eq!(g.advance(), 7);
            assert_eq!(g.line_item, 2);
        }
        _ => panic!("expected a glyph run"),
    }
}

#[test]
fn boxes_rest_on_baseline() {
    let layout = sample();
    let line = layout.line(0).unwrap();
    for it in line.items() {
        if let PositionedLayoutItem::InlineBox(b) = it {
            assert_eq!(b.y + b.height as i64, line.metrics().baseline as i64);
        }
    }
}

#[test]
fn glyph_runs_cover_each_run() {
    let layout = sample();
    let line = layout.line(0).unwrap();
    let items = line.items();
    for k in [0usize, 2] {
        let total: usize = items
            .iter()
            .map(|it| match it {
                PositionedLayoutItem::GlyphRun(g) if g.line_item == k => g.glyph_count,
                _ => 0,
            })
            .sum();
        let run_index = line.item(k).unwrap().index;
        assert_eq!(total, layout.runs[run_index].glyphs.len());
    }
}

#[test]
fn glyph_run_advance_is_sum_of_glyphs() {
    let layout = sample();
    let line = layout.line(0).unwrap();
    for it in line.items() {
        if let PositionedLayoutItem::GlyphRun(g) = it {
            let glyphs = g.glyphs(&layout);
            assert_eq!(glyphs.len(), g.glyph_count);
            let sum: i64 = glyphs.iter().map(|x| x.advance as i64).sum();
            assert_eq!(sum, g.advance());
            let placed = g.positioned_glyphs(&layout);
            let placed_sum: i64 = placed.iter().map(|x| x.advance as i64).sum();
            assert_eq!(placed_sum, g.advance());
        }
    }
}

#[test]
fn positioned_glyphs_advance_the_pen() {
    let layout = sample();
    let line = layout.line(0).unwrap();
    let items = line.items();
    let g = match items[1] {
        PositionedLayoutItem::GlyphRun(g) => g,
        _ => panic!("expected a glyph run"),
    };
    let placed = g.positioned_glyphs(&layout);
    assert_eq!(placed.len(), 2);
    assert_eq!((placed[0].id, placed[0].x, placed[0].y), (3, 26, 14));
    assert_eq!((placed[1].id, placed[1].x, placed[1].y), (4, 38, 14));
}

#[test]
fn iterator_steps_and_ends() {
    let layout = sample();
    let line = layout.line(0).unwrap();
    let mut it = GlyphRunIter::new();
    let mut n = 0;
    while let Some(_) = it.next(&line) {
        n += 1;
    }
    assert_eq!(n, 5);
    assert!(it.next(&line).is_none());
}

#[test]
fn exhausted_and_empty_runs_are_skipped() {
    let mut layout = LayoutData::new(vec![style(16)]);
    layout.push_run(run(vec![]));
    layout.push_run(run(vec![glyph(9, 0, 4)]));
    layout.line_items = vec![
        LineItemData { kind: LayoutItemKind::TextRun, index: 0, advance: 0 },
        LineItemData { kind: LayoutItemKind::TextRun, index: 1, advance: 4 },
    ];
    layout.lines.push(LineData {
        text_range: 0..1,
        item_range: 0..2,
        break_reason: BreakReason::Unbroken,
        metrics: metrics(),
    });
    let line = layout.line(0).unwrap();
    let items = line.items();
    assert_eq!(items.len(), 1);
    match items[0] {
        PositionedLayoutItem::GlyphRun(g) => {
            assert_eq!(g.run(), 1);
            assert_eq!(g.offset(), 5);
        }
        _ => panic!("expected a glyph run"),
    }
}

#[test]
fn empty_line_has_no_items_but_metrics() {
    let mut layout = LayoutData::new(vec![style(16)]);
    layout.push_run(run(vec![glyph(3, 0, 8)]));
    layout.lines.push(LineData {
        text_range: 0..0,
        item_range: 0..0,
        break_reason: BreakReason::Unbroken,
        metrics: metrics(),
    });
    let line = layout.line(0).unwrap();
    assert!(line.is_empty());
    assert!(line.items().is_empty());
    assert!(line.metrics().line_height > 0);
}

#[test]
fn runs_lists_text_runs_in_order() {
    let layout = sample();
    let line = layout.line(0).unwrap();
    let runs = line.runs();
    assert_eq!(runs.len(), 2);
    assert_eq!(runs[0].index, 0);
    assert_eq!(runs[0].data.glyphs.len(), 5);
    assert_eq!(runs[1].index, 2);
    assert_eq!(runs[1].line_data.index, 1);
    assert_eq!(runs[1].line_index, 0);
    assert!(std::ptr::eq(runs[1].layout, &layout));
}

#[test]
fn dangling_box_reference_ends_the_line() {
    let mut layout = sample();
    layout.line_items[1].index = 9;
    let line = layout.line(0).unwrap();
    let items = line.items();
    assert_eq!(items.len(), 3);
    let mut it = GlyphRunIter::new();
    for _ in 0..3 {
        assert!(it.next(&line).is_some());
    }
    assert!(it.next(&line).is_none());
    assert!(it.next(&line).is_none());
}

#[test]
fn visual_glyphs_reverse_clusters_for_odd_levels() {
    let clusters = vec![vec![glyph(1, 0, 1), glyph(2, 0, 1)], vec![glyph(3, 0, 1)]];
    let ids = |v: Vec<Glyph>| v.iter().map(|g| g.id).collect::<Vec<u16>>();
    assert_eq!(ids(visual_glyphs(&clusters, 0)), vec![1, 2, 3]);
    assert_eq!(ids(visual_glyphs(&clusters, 1)), vec![3, 1, 2]);
    assert_eq!(ids(visual_glyphs(&clusters, 2)), vec![1, 2, 3]);
    assert!(visual_glyphs(&vec![], 1).is_empty());
}
