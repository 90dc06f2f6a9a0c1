use vstd::prelude::*;

use crate::style::{InlineBox, ShapeStyle};

verus! {

/// One shaped glyph: its id, the style of the character it came from, its
/// offset from the pen position and its advance, in layout units.
#[derive(Clone, Copy, Debug, PartialEq, Eq, Structural)]
pub struct Glyph {
    pub id: u16,
    pub style_index: u16,
    pub x: i32,
    pub y: i32,
    pub advance: i32,
}

/// The stored result of shaping one item.
///
/// `glyphs` are in visual order.
#[derive(Clone, Debug)]
pub struct RunData {
    pub font_id: u64,
    pub font_index: u32,
    pub font_size: i32,
    pub bidi_level: u8,
    pub word_spacing: i32,
    pub letter_spacing: i32,
    pub glyphs: Vec<Glyph>,
}

#[derive(Clone, Copy, Debug, PartialEq, Eq, Structural)]
pub enum LayoutItemKind {
    TextRun,
    InlineBox,
}

/// An entry of the layout's item list, in itemization order.
#[derive(Clone, Copy, Debug, PartialEq, Eq, Structural)]
pub struct LayoutItem {
    pub kind: LayoutItemKind,
    pub index: usize,
}

/// An entry of a line: a run or an inline box, with its total advance.
#[derive(Clone, Copy, Debug, PartialEq, Eq, Structural)]
pub struct LineItemData {
    pub kind: LayoutItemKind,
    pub index: usize,
    pub advance: i32,
}

/// Why a line ended.
#[derive(Clone, Copy, Debug, PartialEq, Eq, Structural)]
pub enum BreakReason {
    Unbroken,
    Regular,
    Explicit,
    Emergency,
}

/// Metrics of a line, in layout units.
#[derive(Clone, Copy, Debug, PartialEq, Eq, Structural)]
pub struct LineMetrics {
    /// Typographic ascent.
    pub ascent: i32,
    /// Typographic descent.
    pub descent: i32,
    /// Typographic leading.
    pub leading: i32,
    /// The absolute line height, a multiple of the font size.
    pub line_height: i32,
    /// Offset to the baseline, from which glyphs and inline boxes are placed.
    pub baseline: i32,
    /// Offset for alignment.
    pub offset: i32,
    /// Full advance of the line, including trailing whitespace.
    pub advance: i32,
    /// Advance of trailing whitespace.
    pub trailing_whitespace: i32,
    /// Least coordinate across the line direction (the top, for horizontal text).
    pub min_coord: i32,
    /// Greatest coordinate across the line direction (the bottom, for horizontal text).
    pub max_coord: i32,
}

impl LineMetrics {
    /// The size of the line: its line height.
    pub fn size(&self) -> (r: i32)
        ensures
            r == self.line_height,
    {
        self.line_height
    }
}

/// What a line breaker records for one line.
#[derive(Debug)]
pub struct LineData {
    pub text_range: core::ops::Range<usize>,
    pub item_range: core::ops::Range<usize>,
    pub break_reason: BreakReason,
    pub metrics: LineMetrics,
}

/// The tables of a layout: styles, runs, inline boxes, the item list of
/// itemization, and the line items and lines that a line breaker made.
#[derive(Debug)]
pub struct LayoutData {
    pub styles: Vec<ShapeStyle>,
    pub runs: Vec<RunData>,
    pub inline_boxes: Vec<InlineBox>,
    pub items: Vec<LayoutItem>,
    pub line_items: Vec<LineItemData>,
    pub lines: Vec<LineData>,
}

impl LayoutData {
    /// Every reference between the tables lands in its table.
    pub open spec fn wf(&self) -> bool {
        &&& forall|i: int|
            0 <= i < self.line_items.len() ==> {
                let it = #[trigger] self.line_items@[i];
                match it.kind {
                    LayoutItemKind::TextRun => it.index < self.runs.len(),
                    LayoutItemKind::InlineBox => it.index < self.inline_boxes.len(),
                }
            }
        &&& forall|r: int, g: int|
            0 <= r < self.runs.len() && 0 <= g < self.runs@[r].glyphs.len() ==> (
            #[trigger] self.runs@[r].glyphs@[g]).style_index < self.styles.len()
        &&& forall|r: int|
            0 <= r < self.runs.len() ==> (#[trigger] self.runs@[r]).glyphs@.len() <= usize::MAX
    }

    /// An empty layout over a style table.
    pub fn new(styles: Vec<ShapeStyle>) -> (r: LayoutData)
        ensures
            r.styles@ == styles@,
            r.runs.len() == 0,
            r.inline_boxes.len() == 0,
            r.items.len() == 0,
            r.line_items.len() == 0,
            r.lines.len() == 0,
            r.wf(),
    {
        LayoutData {
            styles,
            runs: Vec::new(),
            inline_boxes: Vec::new(),
            items: Vec::new(),
            line_items: Vec::new(),
            lines: Vec::new(),
        }
    }

    /// Appends a shaped run and records it in the item list.
    pub fn push_run(&mut self, run: RunData)
        requires
            forall|g: int|
                0 <= g < run.glyphs.len() ==> (#[trigger] run.glyphs@[g]).style_index
                    < old(self).styles.len(),
        ensures
            old(self).wf() ==> final(self).wf(),
            final(self).runs@ == old(self).runs@.push(run),
            final(self).items@ == old(self).items@.push(
                LayoutItem { kind: LayoutItemKind::TextRun, index: old(self).runs.len() },
            ),
            final(self).styles@ == old(self).styles@,
            final(self).inline_boxes@ == old(self).inline_boxes@,
            final(self).line_items@ == old(self).line_items@,
            final(self).lines@ == old(self).lines@,
    {
        let index = self.runs.len();
        let count = run.glyphs.len();
        self.runs.push(run);
        assert(self.runs@[index as int].glyphs@.len() == count);
        self.items.push(LayoutItem { kind: LayoutItemKind::TextRun, index });
    }

    /// Records the inline box at `box_index` of the box table in the item list.
    pub fn push_inline_box(&mut self, box_index: usize)
        ensures
            final(self).items@ == old(self).items@.push(
                LayoutItem { kind: LayoutItemKind::InlineBox, index: box_index },
            ),
            final(self).styles@ == old(self).styles@,
            final(self).runs@ == old(self).runs@,
            final(self).inline_boxes@ == old(self).inline_boxes@,
            final(self).line_items@ == old(self).line_items@,
            final(self).lines@ == old(self).lines@,
    {
        self.items.push(LayoutItem { kind: LayoutItemKind::InlineBox, index: box_index });
    }

    /// The item at `index` of the item list, or `None` past its end.
    pub fn item(&self, index: usize) -> (r: Option<LayoutItem>)
        ensures
            index < self.items.len() ==> r == Some(self.items@[index as int]),
            index >= self.items.len() ==> r.is_none(),
    {
        if index < self.items.len() {
            Some(self.items[index])
        } else {
            None
        }
    }
}

/// The glyphs of a sequence of clusters, cluster after cluster.
pub open spec fn flatten(cs: Seq<Seq<Glyph>>) -> Seq<Glyph>
    decreases cs.len(),
{
    if cs.len() == 0 {
        Seq::empty()
    } else {
        flatten(cs.drop_last()) + cs.last()
    }
}

/// Clusters in visual order: as shaped for an even bidi level, last to first
/// for an odd one.
pub open spec fn visual_order(cs: Seq<Seq<Glyph>>, level: u8) -> Seq<Seq<Glyph>> {
    if level % 2 == 1 {
        Seq::new(cs.len(), |i: int| cs[cs.len() - 1 - i])
    } else {
        cs
    }
}

/// The glyphs of shaped clusters in visual order: right-to-left runs (odd
/// `level`) take their clusters last to first, each cluster's own glyphs
/// keeping their order.
pub fn visual_glyphs(clusters: &Vec<Vec<Glyph>>, level: u8) -> (r: Vec<Glyph>)
    ensures
        r@ == flatten(visual_order(clusters@.map_values(|c: Vec<Glyph>| c@), level)),
{
    let ghost cs = clusters@.map_values(|c: Vec<Glyph>| c@);
    let ghost ord = visual_order(cs, level);
    let rtl = level % 2 == 1;
    let n = clusters.len();
    let mut out: Vec<Glyph> = Vec::new();
    let mut k: usize = 0;
    while k < n
        invariant
            n == clusters.len(),
            cs == clusters@.map_values(|c: Vec<Glyph>| c@),
            ord == visual_order(cs, level),
            rtl == (level % 2 == 1),
            0 <= k <= n,
            out@ == flatten(ord.take(k as int)),
        decreases n - k,
    {
        let idx = if rtl { n - 1 - k } else { k };
        let c = &clusters[idx];
        assert(ord[k as int] == c@);
        let ghost before = out@;
        let mut j: usize = 0;
        while j < c.len()
            invariant
                0 <= j <= c.len(),
                out@ == before + c@.take(j as int),
            decreases c.len() - j,
        {
            out.push(c[j]);
            j = j + 1;
            assert(out@ =~= before + c@.take(j as int));
        }
        assert(ord.take(k as int + 1).drop_last() =~= ord.take(k as int));
        assert(c@.take(j as int) =~= c@);
        k = k + 1;
    }
    assert(ord.take(n as int) =~= ord);
    out
}

} // verus!
