use vstd::prelude::*;

use crate::layout::{
    BreakReason, Glyph, LayoutData, LayoutItemKind, LineData, LineItemData, LineMetrics, RunData,
};

verus! {

/// The computed position of an inline box within a line.
#[derive(Clone, Copy, Debug, PartialEq, Eq, Structural)]
pub struct PositionedInlineBox {
    pub x: i64,
    pub y: i64,
    pub width: i32,
    pub height: i32,
    pub id: u64,
}

/// A sequence of glyphs of one run that share a style, with its position.
///
/// It covers glyphs `glyph_start .. glyph_start + glyph_count` of run
/// `run_index` (in visual order), which stands at `line_item` in its line.
#[derive(Clone, Copy, Debug, PartialEq, Eq, Structural)]
pub struct GlyphRun {
    pub run_index: usize,
    pub line_item: usize,
    pub style_index: u16,
    pub glyph_start: usize,
    pub glyph_count: usize,
    pub offset: i64,
    pub baseline: i32,
    pub advance: i64,
}

/// An element of a composed line: a glyph run or an inline box.
#[derive(Clone, Copy, Debug, PartialEq, Eq, Structural)]
pub enum PositionedLayoutItem {
    GlyphRun(GlyphRun),
    InlineBox(PositionedInlineBox),
}

/// A run as seen from a line: the run's data and its entry in the line.
#[derive(Clone, Copy, Debug)]
pub struct Run<'a> {
    pub layout: &'a LayoutData,
    pub line_index: usize,
    pub index: usize,
    pub data: &'a RunData,
    pub line_data: LineItemData,
}

/// One line of a layout.
#[derive(Clone, Copy, Debug)]
pub struct Line<'a> {
    pub layout: &'a LayoutData,
    pub index: usize,
    pub data: &'a LineData,
}

/// Where a traversal of a line stands: the item within the line, the glyphs
/// of that item already emitted, and the running horizontal offset.
#[derive(Clone, Copy, Debug, PartialEq, Eq, Structural)]
pub struct GlyphRunIter {
    pub item_index: usize,
    pub glyph_start: usize,
    pub offset: i64,
}

/// A traversal position in mathematical integers.
pub struct Cursor {
    pub ii: int,
    pub gs: int,
    pub off: int,
}

// ---------------------------------------------------------------------------
// Model
pub open spec fn in_i64(v: int) -> bool {
    i64::MIN <= v <= i64::MAX
}

/// Sum of the advances of glyphs `s .. e`.
pub open spec fn glyph_sum(gl: Seq<Glyph>, s: int, e: int) -> int
    decreases e - s,
{
    if e <= s {
        0
    } else {
        glyph_sum(gl, s, e - 1) + gl[e - 1].advance
    }
}

/// Number of consecutive glyphs from `s` on whose style is `st`.
pub open spec fn style_len(gl: Seq<Glyph>, s: int, st: u16) -> nat
    decreases gl.len() - s,
{
    if 0 <= s < gl.len() && gl[s].style_index == st {
        1 + style_len(gl, s + 1, st)
    } else {
        0
    }
}

pub open spec fn line_len(line: LineData) -> int {
    if line.item_range.end > line.item_range.start {
        line.item_range.end - line.item_range.start
    } else {
        0
    }
}

/// The entry at position `k` of a line.
pub open spec fn line_item_at(ld: LayoutData, line: LineData, k: int) -> Option<LineItemData> {
    if 0 <= k < line_len(line) && line.item_range.start + k < ld.line_items.len() {
        Some(ld.line_items@[line.item_range.start + k])
    } else {
        None
    }
}

pub open spec fn cursor_of(it: GlyphRunIter) -> Cursor {
    Cursor { ii: it.item_index as int, gs: it.glyph_start as int, off: it.offset as int }
}

/// One step of a traversal: the next element and the position after it.
///
/// A text run whose glyphs are used up is skipped; an inline box sits on the
/// baseline; a glyph run takes the longest stretch of glyphs with the style
/// of its first.
pub open spec fn next_spec(ld: LayoutData, line: LineData, c: Cursor) -> Option<
    (PositionedLayoutItem, Cursor),
>
    decreases line_len(line) - c.ii,
{
    let m = line.metrics;
    match line_item_at(ld, line, c.ii) {
        None => None,
        Some(item) => match item.kind {
            LayoutItemKind::InlineBox => {
                if item.index < ld.inline_boxes.len() {
                    let b = ld.inline_boxes@[item.index as int];
                    Some(
                        (
                            PositionedLayoutItem::InlineBox(
                                PositionedInlineBox {
                                    x: (c.off + m.offset) as i64,
                                    y: (m.baseline - b.height) as i64,
                                    width: b.width,
                                    height: b.height,
                                    id: b.id,
                                },
                            ),
                            Cursor { ii: c.ii + 1, gs: 0, off: c.off + item.advance },
                        ),
                    )
                } else {
                    None
                }
            },
            LayoutItemKind::TextRun => {
                if item.index < ld.runs.len() {
                    let gl = ld.runs@[item.index as int].glyphs@;
                    if 0 <= c.gs < gl.len() {
                        let st = gl[c.gs].style_index;
                        let n = style_len(gl, c.gs, st);
                        let adv = glyph_sum(gl, c.gs, c.gs + n);
                        if st < ld.styles.len() {
                            Some(
                                (
                                    PositionedLayoutItem::GlyphRun(
                                        GlyphRun {
                                            run_index: item.index,
                                            line_item: c.ii as usize,
                                            style_index: st,
                                            glyph_start: c.gs as usize,
                                            glyph_count: n as usize,
                                            offset: (c.off + m.offset) as i64,
                                            baseline: m.baseline,
                                            advance: adv as i64,
                                        },
                                    ),
                                    Cursor { ii: c.ii, gs: c.gs + n, off: c.off + adv },
                                ),
                            )
                        } else {
                            None
                        }
                    } else {
                        next_spec(ld, line, Cursor { ii: c.ii + 1, gs: 0, off: c.off })
                    }
                } else {
                    None
                }
            },
        },
    }
}

/// Glyphs left in the item a cursor stands on.
pub open spec fn glyph_rem(ld: LayoutData, line: LineData, c: Cursor) -> int {
    match line_item_at(ld, line, c.ii) {
        Some(item) => if item.kind == LayoutItemKind::TextRun && item.index < ld.runs.len() {
            ld.runs@[item.index as int].glyphs.len() - c.gs
        } else {
            0
        },
        None => 0,
    }
}

/// Whether `c2` is strictly further along the line than `c`.
pub open spec fn moves_on(ld: LayoutData, line: LineData, c: Cursor, c2: Cursor) -> bool {
    ||| (0 <= line_len(line) - c2.ii < line_len(line) - c.ii)
    ||| (line_len(line) - c2.ii == line_len(line) - c.ii && 0 <= glyph_rem(ld, line, c2)
        < glyph_rem(ld, line, c) && 0 <= line_len(line) - c.ii)
}

/// The elements that a traversal yields from `c` to the end of the line.
pub open spec fn compose_from(ld: LayoutData, line: LineData, c: Cursor) -> Seq<
    PositionedLayoutItem,
>
    decreases line_len(line) - c.ii, glyph_rem(ld, line, c),
{
    match next_spec(ld, line, c) {
        None => Seq::empty(),
        Some((it, c2)) => if moves_on(ld, line, c, c2) {
            seq![it] + compose_from(ld, line, c2)
        } else {
            Seq::empty()
        },
    }
}

/// The numbers of the step from `c` fit the output's integer types.
pub open spec fn step_fits(ld: LayoutData, line: LineData, c: Cursor) -> bool {
    match next_spec(ld, line, c) {
        None => true,
        Some((it, c2)) => in_i64(c.off + line.metrics.offset) && in_i64(c2.off) && in_i64(
            c2.off - c.off,
        ),
    }
}

/// Every position of a traversal from `c` fits the output's integer types.
pub open spec fn fits_from(ld: LayoutData, line: LineData, c: Cursor) -> bool
    decreases line_len(line) - c.ii, glyph_rem(ld, line, c),
{
    step_fits(ld, line, c) && match next_spec(ld, line, c) {
        None => true,
        Some((it, c2)) => if moves_on(ld, line, c, c2) {
            fits_from(ld, line, c2)
        } else {
            true
        },
    }
}

pub open spec fn start_cursor() -> Cursor {
    Cursor { ii: 0, gs: 0, off: 0 }
}

impl<'a> Line<'a> {
    /// The line's item range lies in the layout's item table.
    pub open spec fn wf(&self) -> bool {
        &&& self.data.item_range.start <= self.data.item_range.end
        &&& self.data.item_range.end <= self.layout.line_items.len()
    }

    /// The line's positions fit the output's integer types.
    pub open spec fn fits(&self) -> bool {
        fits_from(*self.layout, *self.data, start_cursor())
    }

    /// The elements of the composed line, in order.
    pub open spec fn composed(&self) -> Seq<PositionedLayoutItem> {
        compose_from(*self.layout, *self.data, start_cursor())
    }
}

// ---------------------------------------------------------------------------
// Lemmas
proof fn lemma_style_len_bound(gl: Seq<Glyph>, s: int, st: u16)
    requires
        0 <= s,
    ensures
        s + style_len(gl, s, st) <= gl.len() || style_len(gl, s, st) == 0,
        0 <= s < gl.len() && gl[s].style_index == st ==> style_len(gl, s, st) >= 1,
    decreases gl.len() - s,
{
    if 0 <= s < gl.len() && gl[s].style_index == st {
        lemma_style_len_bound(gl, s + 1, st);
    }
}

/// A step of a traversal always moves further along the line.
proof fn lemma_next_moves_on(ld: LayoutData, line: LineData, c: Cursor)
    requires
        c.gs >= 0,
    ensures
        next_spec(ld, line, c) matches Some((it, c2)) ==> moves_on(ld, line, c, c2) && c2.gs
            >= 0,
    decreases line_len(line) - c.ii,
{
    match line_item_at(ld, line, c.ii) {
        None => {},
        Some(item) => {
            if item.kind == LayoutItemKind::TextRun && item.index < ld.runs.len() {
                let gl = ld.runs@[item.index as int].glyphs@;
                if 0 <= c.gs < gl.len() {
                    lemma_style_len_bound(gl, c.gs, gl[c.gs].style_index);
                } else {
                    let c1 = Cursor { ii: c.ii + 1, gs: 0, off: c.off };
                    lemma_next_moves_on(ld, line, c1);
                    if let Some((it, c2)) = next_spec(ld, line, c1) {
                        if c2.ii == c1.ii {
                            assert(0 <= line_len(line) - c2.ii < line_len(line) - c.ii);
                        }
                    }
                }
            }
        },
    }
}

/// Glyphs that the glyph runs at line position `k` among `s` cover.
pub open spec fn count_for(s: Seq<PositionedLayoutItem>, k: int) -> int
    decreases s.len(),
{
    if s.len() == 0 {
        0
    } else {
        (match s[0] {
            PositionedLayoutItem::GlyphRun(g) => if g.line_item == k {
                g.glyph_count as int
            } else {
                0
            },
            PositionedLayoutItem::InlineBox(_) => 0,
        }) + count_for(s.subrange(1, s.len() as int), k)
    }
}

/// Glyph count of the run at line position `k`.
pub open spec fn run_len_at(ld: LayoutData, line: LineData, k: int) -> int {
    ld.runs@[line_item_at(ld, line, k).unwrap().index as int].glyphs.len() as int
}

/// Glyphs of the run at position `k` that a traversal from `c` still emits.
pub open spec fn still_to_cover(ld: LayoutData, line: LineData, c: Cursor, k: int) -> int {
    if c.ii > k {
        0
    } else if c.ii == k {
        if c.gs < run_len_at(ld, line, k) {
            run_len_at(ld, line, k) - c.gs
        } else {
            0
        }
    } else {
        run_len_at(ld, line, k)
    }
}

pub open spec fn line_wf(ld: LayoutData, line: LineData) -> bool {
    &&& ld.wf()
    &&& line.item_range.start <= line.item_range.end
    &&& line.item_range.end <= ld.line_items.len()
}

proof fn lemma_compose_unfold(ld: LayoutData, line: LineData, c: Cursor)
    requires
        c.gs >= 0,
    ensures
        next_spec(ld, line, c) matches Some((it, c2)) ==> compose_from(ld, line, c) == seq![it]
            + compose_from(ld, line, c2) && c2.gs >= 0,
        next_spec(ld, line, c).is_none() ==> compose_from(ld, line, c) == Seq::<
            PositionedLayoutItem,
        >::empty(),
{
    lemma_next_moves_on(ld, line, c);
}

proof fn lemma_count_cons(it: PositionedLayoutItem, rest: Seq<PositionedLayoutItem>, k: int)
    ensures
        count_for(seq![it] + rest, k) == (match it {
            PositionedLayoutItem::GlyphRun(g) => if g.line_item == k {
                g.glyph_count as int
            } else {
                0
            },
            PositionedLayoutItem::InlineBox(_) => 0,
        }) + count_for(rest, k),
{
    let s = seq![it] + rest;
    assert(s.subrange(1, s.len() as int) =~= rest);
}

proof fn lemma_cover_from(ld: LayoutData, line: LineData, c: Cursor, k: int)
    requires
        line_wf(ld, line),
        0 <= c.ii,
        0 <= c.gs,
        0 <= k < line_len(line),
        line_item_at(ld, line, k).unwrap().kind == LayoutItemKind::TextRun,
    ensures
        count_for(compose_from(ld, line, c), k) == still_to_cover(ld, line, c, k),
    decreases line_len(line) - c.ii, glyph_rem(ld, line, c),
{
    lemma_compose_unfold(ld, line, c);
    lemma_next_moves_on(ld, line, c);
    match line_item_at(ld, line, c.ii) {
        None => {},
        Some(item) => {
            assert(ld.line_items@[line.item_range.start + c.ii] == item);
            match item.kind {
                LayoutItemKind::InlineBox => {
                    let (it, c2) = next_spec(ld, line, c).unwrap();
                    lemma_cover_from(ld, line, c2, k);
                    lemma_count_cons(it, compose_from(ld, line, c2), k);
                },
                LayoutItemKind::TextRun => {
                    let gl = ld.runs@[item.index as int].glyphs@;
                    if c.gs < gl.len() {
                        assert(ld.runs@[item.index as int].glyphs@[c.gs] == gl[c.gs]);
                        let (it, c2) = next_spec(ld, line, c).unwrap();
                        lemma_style_len_bound(gl, c.gs, gl[c.gs].style_index);
                        lemma_cover_from(ld, line, c2, k);
                        lemma_count_cons(it, compose_from(ld, line, c2), k);
                    } else {
                        let c1 = Cursor { ii: c.ii + 1, gs: 0, off: c.off };
                        lemma_compose_unfold(ld, line, c1);
                        lemma_next_moves_on(ld, line, c1);
                        lemma_cover_from(ld, line, c1, k);
                    }
                },
            }
        },
    }
}

/// Glyph coverage: across the composed line, the glyph runs taken from the
/// run at line position `k` cover exactly that run's glyphs.
pub proof fn lemma_glyph_coverage(ld: LayoutData, line: LineData, k: int)
    requires
        line_wf(ld, line),
        0 <= k < line_len(line),
        line_item_at(ld, line, k).unwrap().kind == LayoutItemKind::TextRun,
    ensures
        count_for(compose_from(ld, line, start_cursor()), k) == ld.runs@[line_item_at(
            ld,
            line,
            k,
        ).unwrap().index as int].glyphs.len(),
{
    lemma_cover_from(ld, line, start_cursor(), k);
}

/// Every glyph run of `s` reports the sum of its glyphs' advances, and every
/// inline box of `s` rests on the baseline.
pub open spec fn placed_consistently(
    ld: LayoutData,
    line: LineData,
    s: Seq<PositionedLayoutItem>,
) -> bool {
    forall|i: int| 0 <= i < s.len() ==> item_consistent(ld, line, #[trigger] s[i])
}

/// A glyph run reports the sum of its glyphs' advances and the baseline; an
/// inline box rests on the baseline.
pub open spec fn item_consistent(ld: LayoutData, line: LineData, it: PositionedLayoutItem) -> bool {
    match it {
        PositionedLayoutItem::GlyphRun(g) => {
            &&& (g.run_index as int) < ld.runs.len()
            &&& g.glyph_start + g.glyph_count <= ld.runs@[g.run_index as int].glyphs.len()
            &&& g.advance as int == glyph_sum(
                ld.runs@[g.run_index as int].glyphs@,
                g.glyph_start as int,
                g.glyph_start + g.glyph_count,
            )
            &&& g.baseline == line.metrics.baseline
        },
        PositionedLayoutItem::InlineBox(b) => b.y + b.height == line.metrics.baseline,
    }
}

proof fn lemma_placed_from(ld: LayoutData, line: LineData, c: Cursor)
    requires
        line_wf(ld, line),
        0 <= c.gs,
        fits_from(ld, line, c),
    ensures
        placed_consistently(ld, line, compose_from(ld, line, c)),
    decreases line_len(line) - c.ii, glyph_rem(ld, line, c),
{
    lemma_compose_unfold(ld, line, c);
    lemma_next_moves_on(ld, line, c);
    if let Some((it, c2)) = next_spec(ld, line, c) {
        lemma_placed_from(ld, line, c2);
        let rest = compose_from(ld, line, c2);
        let all = seq![it] + rest;
        let item = line_item_at(ld, line, c.ii).unwrap();
        assert(step_fits(ld, line, c));
        if let PositionedLayoutItem::GlyphRun(g) = it {
            if item.kind == LayoutItemKind::TextRun && c.gs < ld.runs@[item.index as int].glyphs.len() {
                let gl = ld.runs@[item.index as int].glyphs@;
                lemma_style_len_bound(gl, c.gs, gl[c.gs].style_index);
                assert(ld.runs@[item.index as int].glyphs@.len() <= usize::MAX);
                assert(g.glyph_start as int == c.gs);
                assert(g.glyph_start + g.glyph_count == c2.gs);
            } else {
                let c1 = Cursor { ii: c.ii + 1, gs: 0, off: c.off };
                lemma_skip_glyph_run(ld, line, c1);
            }
            assert(in_i64(c2.off - c.off));
            assert(g.advance as int == c2.off - c.off);
        } else {
            lemma_box_on_baseline(ld, line, c);
        }
        assert(item_consistent(ld, line, it));
        assert forall|i: int| 0 <= i < all.len() implies item_consistent(ld, line, #[trigger] all[i]) by {
            if i > 0 {
                assert(all[i] == rest[i - 1]);
            } else {
                assert(all[0] == it);
            }
        }
    }
}

/// An inline box that a step yields rests on the baseline.
proof fn lemma_box_on_baseline(ld: LayoutData, line: LineData, c: Cursor)
    ensures
        next_spec(ld, line, c) matches Some((PositionedLayoutItem::InlineBox(b), _)) ==> b.y
            + b.height == line.metrics.baseline,
    decreases line_len(line) - c.ii,
{
    match line_item_at(ld, line, c.ii) {
        None => {},
        Some(item) => {
            if item.kind == LayoutItemKind::TextRun && item.index < ld.runs.len() {
                if !(0 <= c.gs < ld.runs@[item.index as int].glyphs.len()) {
                    lemma_box_on_baseline(ld, line, Cursor { ii: c.ii + 1, gs: 0, off: c.off });
                }
            }
        },
    }
}

/// What a step yields from a cursor that stands on the first glyph of an
/// item: a glyph run there has the shape the composer gives it.
proof fn lemma_skip_glyph_run(ld: LayoutData, line: LineData, c: Cursor)
    requires
        line_wf(ld, line),
        c.gs == 0,
    ensures
        next_spec(ld, line, c) matches Some((PositionedLayoutItem::GlyphRun(g), c2)) ==> {
            &&& (g.run_index as int) < ld.runs.len()
            &&& g.glyph_start + g.glyph_count <= ld.runs@[g.run_index as int].glyphs.len()
            &&& c2.off - c.off == glyph_sum(
                ld.runs@[g.run_index as int].glyphs@,
                g.glyph_start as int,
                g.glyph_start + g.glyph_count,
            )
            &&& g.advance == (c2.off - c.off) as i64
            &&& g.baseline == line.metrics.baseline
        },
    decreases line_len(line) - c.ii,
{
    match line_item_at(ld, line, c.ii) {
        None => {},
        Some(item) => {
            if item.kind == LayoutItemKind::TextRun && item.index < ld.runs.len() {
                let gl = ld.runs@[item.index as int].glyphs@;
                if 0 < gl.len() {
                    lemma_style_len_bound(gl, 0, gl[0].style_index);
                    assert(ld.runs@[item.index as int].glyphs@.len() <= usize::MAX);
                } else {
                    lemma_skip_glyph_run(ld, line, Cursor { ii: c.ii + 1, gs: 0, off: c.off });
                }
            }
        },
    }
}

/// Advance consistency and baseline alignment: in a composed line, each
/// glyph run's advance is the sum of the advances of its glyphs and it sits
/// on the line's baseline, and each inline box's bottom (`y + height`) is
/// the baseline exactly.
pub proof fn lemma_line_placement(ld: LayoutData, line: LineData)
    requires
        line_wf(ld, line),
        fits_from(ld, line, start_cursor()),
    ensures
        placed_consistently(ld, line, compose_from(ld, line, start_cursor())),
{
    lemma_placed_from(ld, line, start_cursor());
}

// ---------------------------------------------------------------------------
// Code
impl<'a> Line<'a> {
    /// The metrics of the line.
    pub fn metrics(&self) -> (r: &LineMetrics)
        ensures
            *r == self.data.metrics,
    {
        &self.data.metrics
    }

    /// Why the line ended.
    pub fn break_reason(&self) -> (r: BreakReason)
        ensures
            r == self.data.break_reason,
    {
        self.data.break_reason
    }

    /// The range of text that the line covers.
    pub fn text_range(&self) -> (r: core::ops::Range<usize>)
        ensures
            r == self.data.text_range,
    {
        core::ops::Range { start: self.data.text_range.start, end: self.data.text_range.end }
    }

    /// The number of items in the line.
    pub fn len(&self) -> (r: usize)
        ensures
            r == line_len(*self.data),
    {
        if self.data.item_range.end > self.data.item_range.start {
            self.data.item_range.end - self.data.item_range.start
        } else {
            0
        }
    }

    /// Whether the line holds no item.
    pub fn is_empty(&self) -> (r: bool)
        ensures
            r == (line_len(*self.data) == 0),
    {
        self.data.item_range.end <= self.data.item_range.start
    }

    /// The item at position `index` of the line, or `None` past its end.
    pub fn item(&self, index: usize) -> (r: Option<&'a LineItemData>)
        ensures
            r matches Some(it) ==> line_item_at(*self.layout, *self.data, index as int) == Some(
                *it,
            ),
            r.is_none() ==> line_item_at(*self.layout, *self.data, index as int).is_none(),
    {
        if index >= self.len() {
            return None;
        }
        let i = self.data.item_range.start + index;
        if i < self.layout.line_items.len() {
            Some(&self.layout.line_items[i])
        } else {
            None
        }
    }

    /// The run at position `index` of the line, or `None` where that item is
    /// missing or is not a text run.
    pub fn run(&self, index: usize) -> (r: Option<Run<'a>>)
        ensures
            r matches Some(run) ==> {
                &&& line_item_at(*self.layout, *self.data, index as int) == Some(run.line_data)
                &&& run.line_data.kind == LayoutItemKind::TextRun
                &&& run.line_data.index < self.layout.runs.len()
                &&& run.data == self.layout.runs@[run.line_data.index as int]
                &&& run.layout == self.layout
                &&& run.line_index == self.index
                &&& run.index == index
            },
            r.is_none() ==> match line_item_at(*self.layout, *self.data, index as int) {
                None => true,
                Some(it) => it.kind != LayoutItemKind::TextRun || it.index
                    >= self.layout.runs.len(),
            },
    {
        let item = match self.item(index) {
            Some(it) => it,
            None => return None,
        };
        if item.kind == LayoutItemKind::TextRun && item.index < self.layout.runs.len() {
            Some(
                Run {
                    layout: self.layout,
                    line_index: self.index,
                    index,
                    data: &self.layout.runs[item.index],
                    line_data: *item,
                },
            )
        } else {
            None
        }
    }
}

/// Positions, among the first `k` of a line, of the items that are text runs.
pub open spec fn text_run_positions(ld: LayoutData, line: LineData, k: int) -> Seq<int>
    decreases k,
{
    if k <= 0 {
        Seq::empty()
    } else {
        let prev = text_run_positions(ld, line, k - 1);
        match line_item_at(ld, line, k - 1) {
            Some(it) => if it.kind == LayoutItemKind::TextRun {
                prev.push(k - 1)
            } else {
                prev
            },
            None => prev,
        }
    }
}

impl<'a> Line<'a> {
    /// The text runs of the line, in line order.
    pub fn runs(&self) -> (r: Vec<Run<'a>>)
        requires
            self.wf(),
            self.layout.wf(),
        ensures
            r@.len() == text_run_positions(*self.layout, *self.data, line_len(*self.data)).len(),
            forall|i: int|
                0 <= i < r@.len() ==> {
                    let run = #[trigger] r@[i];
                    &&& run.index == text_run_positions(
                        *self.layout,
                        *self.data,
                        line_len(*self.data),
                    )[i]
                    &&& line_item_at(*self.layout, *self.data, run.index as int) == Some(
                        run.line_data,
                    )
                    &&& run.data == self.layout.runs@[run.line_data.index as int]
                    &&& run.line_index == self.index
                    &&& run.layout == self.layout
                },
    {
        let ghost ld = *self.layout;
        let ghost ln = *self.data;
        let n = self.len();
        let mut out: Vec<Run<'a>> = Vec::new();
        let mut k: usize = 0;
        while k < n
            invariant
                self.wf(),
                self.layout.wf(),
                ld == *self.layout,
                ln == *self.data,
                n == line_len(ln),
                0 <= k <= n,
                out@.len() == text_run_positions(ld, ln, k as int).len(),
                forall|i: int|
                    0 <= i < out@.len() ==> {
                        let run = #[trigger] out@[i];
                        &&& run.index == text_run_positions(ld, ln, k as int)[i]
                        &&& line_item_at(ld, ln, run.index as int) == Some(run.line_data)
                        &&& run.data == ld.runs@[run.line_data.index as int]
                        &&& run.line_index == self.index
                        &&& run.layout == self.layout
                    },
            decreases n - k,
        {
            let ghost prev = text_run_positions(ld, ln, k as int);
            if let Some(r) = self.run(k) {
                out.push(r);
            }
            k = k + 1;
            assert forall|i: int| 0 <= i < out@.len() implies {
                let run = #[trigger] out@[i];
                &&& run.index == text_run_positions(ld, ln, k as int)[i]
                &&& line_item_at(ld, ln, run.index as int) == Some(run.line_data)
                &&& run.data == ld.runs@[run.line_data.index as int]
                &&& run.line_index == self.index
                &&& run.layout == self.layout
            } by {
                if i < prev.len() {
                    assert(text_run_positions(ld, ln, k as int)[i] == prev[i]);
                }
            }
        }
        out
    }
}

impl GlyphRunIter {
    /// A traversal from the start of a line.
    pub fn new() -> (r: GlyphRunIter)
        ensures
            cursor_of(r) == start_cursor(),
    {
        GlyphRunIter { item_index: 0, glyph_start: 0, offset: 0 }
    }

    /// The next element of the line, or `None` at its end.
    pub fn next(&mut self, line: &Line) -> (r: Option<PositionedLayoutItem>)
        requires
            line.wf(),
            step_fits(*line.layout, *line.data, cursor_of(*old(self))),
        ensures
            match next_spec(*line.layout, *line.data, cursor_of(*old(self))) {
                None => r.is_none() && next_spec(*line.layout, *line.data, cursor_of(*final(self))).is_none(),
                Some((it, c2)) => r == Some(it) && cursor_of(*final(self)) == c2,
            },
            r matches Some(PositionedLayoutItem::InlineBox(b)) ==> b.y + b.height
                == line.data.metrics.baseline,
    {
        let ghost ld = *line.layout;
        let ghost ln = *line.data;
        let ghost c0 = cursor_of(*self);
        proof {
            lemma_box_on_baseline(ld, ln, c0);
        }
        loop
            invariant
                line.wf(),
                ld == *line.layout,
                ln == *line.data,
                self.offset == old(self).offset,
                next_spec(ld, ln, cursor_of(*self)) == next_spec(ld, ln, c0),
                c0 == cursor_of(*old(self)),
                step_fits(ld, ln, c0),
            decreases line_len(ln) - self.item_index,
        {
            let item = match line.item(self.item_index) {
                Some(it) => it,
                None => return None,
            };
            match item.kind {
                LayoutItemKind::InlineBox => {
                    if item.index >= line.layout.inline_boxes.len() {
                        return None;
                    }
                    let b = &line.layout.inline_boxes[item.index];
                    assert(next_spec(ld, ln, cursor_of(*self)).is_some());
                    let x = self.offset + line.data.metrics.offset as i64;
                    self.item_index = self.item_index + 1;
                    self.glyph_start = 0;
                    self.offset = self.offset + item.advance as i64;
                    return Some(
                        PositionedLayoutItem::InlineBox(
                            PositionedInlineBox {
                                x,
                                y: line.data.metrics.baseline as i64 - b.height as i64,
                                width: b.width,
                                height: b.height,
                                id: b.id,
                            },
                        ),
                    );
                },
                LayoutItemKind::TextRun => {
                    if item.index >= line.layout.runs.len() {
                        return None;
                    }
                    let glyphs = &line.layout.runs[item.index].glyphs;
                    let gs = self.glyph_start;
                    if gs < glyphs.len() {
                        let ghost gl = glyphs@;
                        let st = glyphs[gs].style_index;
                        if st as usize >= line.layout.styles.len() {
                            return None;
                        }
                        let mut adv: i128 = glyphs[gs].advance as i128;
                        let mut i: usize = gs + 1;
                        assert(glyph_sum(gl, gs as int, gs as int) == 0);
                        assert(glyph_sum(gl, gs as int, i as int) == gl[gs as int].advance);
                        while i < glyphs.len() && glyphs[i].style_index == st
                            invariant
                                gs < i <= glyphs.len(),
                                gl == glyphs@,
                                gl[gs as int].style_index == st,
                                adv == glyph_sum(gl, gs as int, i as int),
                                -(i - gs) * 0x8000_0000 <= adv <= (i - gs) * 0x8000_0000,
                                style_len(gl, gs as int, st) == (i - gs) + style_len(
                                    gl,
                                    i as int,
                                    st,
                                ),
                            decreases glyphs.len() - i,
                        {
                            adv = adv + glyphs[i].advance as i128;
                            i = i + 1;
                        }
                        let count = i - gs;
                        assert(style_len(gl, i as int, st) == 0);
                        assert(next_spec(ld, ln, cursor_of(*self)).is_some());
                        let offset = self.offset;
                        self.glyph_start = i;
                        self.offset = self.offset + adv as i64;
                        return Some(
                            PositionedLayoutItem::GlyphRun(
                                GlyphRun {
                                    run_index: item.index,
                                    line_item: self.item_index,
                                    style_index: st,
                                    glyph_start: gs,
                                    glyph_count: count,
                                    offset: offset + line.data.metrics.offset as i64,
                                    baseline: line.data.metrics.baseline,
                                    advance: adv as i64,
                                },
                            ),
                        );
                    }
                    self.item_index = self.item_index + 1;
                    self.glyph_start = 0;
                },
            }
        }
    }
}

impl<'a> Line<'a> {
    /// The composed line: its glyph runs and inline boxes, in visual order,
    /// placed from the line's alignment offset on its baseline.
    pub fn items(&self) -> (r: Vec<PositionedLayoutItem>)
        requires
            self.wf(),
            self.fits(),
        ensures
            r@ == self.composed(),
    {
        let ghost ld = *self.layout;
        let ghost ln = *self.data;
        let mut out: Vec<PositionedLayoutItem> = Vec::new();
        let mut iter = GlyphRunIter::new();
        loop
            invariant
                self.wf(),
                ld == *self.layout,
                ln == *self.data,
                fits_from(ld, ln, cursor_of(iter)),
                out@ + compose_from(ld, ln, cursor_of(iter)) == self.composed(),
            decreases line_len(ln) - iter.item_index, glyph_rem(ld, ln, cursor_of(iter)),
        {
            let ghost c = cursor_of(iter);
            proof {
                lemma_next_moves_on(ld, ln, c);
            }
            match iter.next(self) {
                None => {
                    assert(out@ =~= out@ + compose_from(ld, ln, c));
                    return out;
                },
                Some(it) => {
                    let ghost c2 = cursor_of(iter);
                    out.push(it);
                    assert(compose_from(ld, ln, c) == seq![it] + compose_from(ld, ln, c2));
                    assert(out@ + compose_from(ld, ln, c2) =~= self.composed());
                },
            }
        }
    }
}

/// A glyph placed on the line: its pen position plus its own offset.
#[derive(Clone, Copy, Debug, PartialEq, Eq, Structural)]
pub struct PositionedGlyph {
    pub id: u16,
    pub style_index: u16,
    pub x: i64,
    pub y: i64,
    pub advance: i32,
}

/// Sum of the advances of placed glyphs.
pub open spec fn placed_total(s: Seq<PositionedGlyph>) -> int
    decreases s.len(),
{
    if s.len() == 0 {
        0
    } else {
        placed_total(s.drop_last()) + s.last().advance
    }
}

proof fn lemma_placed_prefix(placed: Seq<PositionedGlyph>, gl: Seq<Glyph>, start: int, k: int)
    requires
        0 <= k <= placed.len(),
        forall|j: int| 0 <= j < placed.len() ==> (#[trigger] placed[j]).advance == gl[start + j].advance,
    ensures
        placed_total(placed.take(k)) == glyph_sum(gl, start, start + k),
    decreases k,
{
    if k > 0 {
        lemma_placed_prefix(placed, gl, start, k - 1);
        assert(placed.take(k).drop_last() =~= placed.take(k - 1));
    }
}

/// Advance consistency of placed glyphs: for a glyph run of a composed line,
/// glyphs placed with the run's advances sum to the run's reported advance.
pub proof fn lemma_positioned_advance(
    ld: LayoutData,
    line: LineData,
    i: int,
    placed: Seq<PositionedGlyph>,
)
    requires
        line_wf(ld, line),
        fits_from(ld, line, start_cursor()),
        0 <= i < compose_from(ld, line, start_cursor()).len(),
        compose_from(ld, line, start_cursor())[i] matches PositionedLayoutItem::GlyphRun(g) && placed.len()
            == g.glyph_count && (forall|j: int|
            0 <= j < placed.len() ==> (#[trigger] placed[j]).advance == ld.runs@[g.run_index as int].glyphs@[g.glyph_start + j].advance),
    ensures
        compose_from(ld, line, start_cursor())[i] matches PositionedLayoutItem::GlyphRun(g) && placed_total(placed) == g.advance,
{
    lemma_line_placement(ld, line);
    let s = compose_from(ld, line, start_cursor());
    assert(item_consistent(ld, line, s[i]));
    if let PositionedLayoutItem::GlyphRun(g) = s[i] {
        let gl = ld.runs@[g.run_index as int].glyphs@;
        lemma_placed_prefix(placed, gl, g.glyph_start as int, placed.len() as int);
        assert(placed.take(placed.len() as int) =~= placed);
    }
}

impl GlyphRun {
    /// Index of the underlying run in the layout's run table.
    pub fn run(&self) -> (r: usize)
        ensures
            r == self.run_index,
    {
        self.run_index
    }

    /// Index of the style the glyphs share.
    pub fn style(&self) -> (r: u16)
        ensures
            r == self.style_index,
    {
        self.style_index
    }

    /// Offset to the baseline.
    pub fn baseline(&self) -> (r: i32)
        ensures
            r == self.baseline,
    {
        self.baseline
    }

    /// Offset of the first glyph along the baseline.
    pub fn offset(&self) -> (r: i64)
        ensures
            r == self.offset,
    {
        self.offset
    }

    /// Total advance of the glyphs.
    pub fn advance(&self) -> (r: i64)
        ensures
            r == self.advance,
    {
        self.advance
    }

    /// The glyphs lie in their run.
    pub open spec fn in_layout(&self, layout: &LayoutData) -> bool {
        &&& (self.run_index as int) < layout.runs.len()
        &&& self.glyph_start + self.glyph_count <= layout.runs@[self.run_index as int].glyphs.len()
    }

    /// The glyphs of the run, in visual order.
    pub fn glyphs(&self, layout: &LayoutData) -> (r: Vec<Glyph>)
        requires
            self.in_layout(layout),
        ensures
            r@ == layout.runs@[self.run_index as int].glyphs@.subrange(
                self.glyph_start as int,
                self.glyph_start + self.glyph_count,
            ),
    {
        let gl = &layout.runs[self.run_index].glyphs;
        let mut out: Vec<Glyph> = Vec::new();
        let mut i: usize = self.glyph_start;
        let end = self.glyph_start + self.glyph_count;
        while i < end
            invariant
                self.glyph_start <= i <= end,
                end == self.glyph_start + self.glyph_count,
                end <= gl.len(),
                out@ == gl@.subrange(self.glyph_start as int, i as int),
            decreases end - i,
        {
            out.push(gl[i]);
            i = i + 1;
            assert(out@ =~= gl@.subrange(self.glyph_start as int, i as int));
        }
        out
    }

    /// Pen position of glyph `i` of the run: the offset plus the advances of
    /// the glyphs before it.
    pub open spec fn pen_at(&self, layout: &LayoutData, i: int) -> int {
        self.offset + glyph_sum(
            layout.runs@[self.run_index as int].glyphs@,
            self.glyph_start as int,
            self.glyph_start + i,
        )
    }

    /// Every position of the run fits the output's integer type.
    pub open spec fn positions_fit(&self, layout: &LayoutData) -> bool {
        forall|i: int|
            0 <= i <= self.glyph_count ==> in_i64(#[trigger] self.pen_at(layout, i))
                && in_i64(self.pen_at(layout, i) + i32::MIN) && in_i64(
                self.pen_at(layout, i) + i32::MAX,
            )
    }

    /// The glyphs placed on the line: each at the pen position, which moves
    /// on by each glyph's advance, and on the baseline.
    pub fn positioned_glyphs(&self, layout: &LayoutData) -> (r: Vec<PositionedGlyph>)
        requires
            self.in_layout(layout),
            self.positions_fit(layout),
        ensures
            r.len() == self.glyph_count,
            forall|i: int|
                0 <= i < r.len() ==> {
                    let g = layout.runs@[self.run_index as int].glyphs@[self.glyph_start + i];
                    &&& (#[trigger] r@[i]).id == g.id
                    &&& r@[i].style_index == g.style_index
                    &&& r@[i].x == self.pen_at(layout, i) + g.x
                    &&& r@[i].y == self.baseline + g.y
                    &&& r@[i].advance == g.advance
                },
            placed_total(r@) == glyph_sum(
                layout.runs@[self.run_index as int].glyphs@,
                self.glyph_start as int,
                self.glyph_start + self.glyph_count,
            ),
    {
        let gl = &layout.runs[self.run_index].glyphs;
        let ghost gs = gl@;
        let mut out: Vec<PositionedGlyph> = Vec::new();
        let mut pen: i64 = self.offset;
        let mut i: usize = 0;
        assert(self.pen_at(layout, 0) == self.offset);
        while i < self.glyph_count
            invariant
                0 <= i <= self.glyph_count,
                self.in_layout(layout),
                self.positions_fit(layout),
                gs == gl@,
                gs == layout.runs@[self.run_index as int].glyphs@,
                pen == self.pen_at(layout, i as int),
                out.len() == i,
                placed_total(out@) == glyph_sum(gs, self.glyph_start as int, self.glyph_start + i),
                forall|j: int|
                    0 <= j < i ==> {
                        let g = gs[self.glyph_start + j];
                        &&& (#[trigger] out@[j]).id == g.id
                        &&& out@[j].style_index == g.style_index
                        &&& out@[j].x == self.pen_at(layout, j) + g.x
                        &&& out@[j].y == self.baseline + g.y
                        &&& out@[j].advance == g.advance
                    },
            decreases self.glyph_count - i,
        {
            let g = gl[self.glyph_start + i];
            let ghost old_out = out@;
            assert(in_i64(self.pen_at(layout, i as int)));
            assert(in_i64(self.pen_at(layout, i as int + 1)));
            out.push(
                PositionedGlyph {
                    id: g.id,
                    style_index: g.style_index,
                    x: pen + g.x as i64,
                    y: self.baseline as i64 + g.y as i64,
                    advance: g.advance,
                },
            );
            pen = pen + g.advance as i64;
            i = i + 1;
            assert(out@.drop_last() =~= old_out);
        }
        out
    }
}

impl LayoutData {
    /// The line at `index` of the line table, or `None` past its end.
    pub fn line(&self, index: usize) -> (r: Option<Line>)
        ensures
            index < self.lines.len() ==> (r matches Some(l) && l.layout == self && l.index == index
                && *l.data == self.lines@[index as int]),
            index >= self.lines.len() ==> r.is_none(),
    {
        if index < self.lines.len() {
            Some(Line { layout: self, index, data: &self.lines[index] })
        } else {
            None
        }
    }
}

} // verus!
