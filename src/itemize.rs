use vstd::prelude::*;

use crate::style::{
    is_real_script, real_script, CharProps, InlineBox, Script, ShapeStyle, SCRIPT_LATIN,
};

verus! {

/// The shaping-relevant attributes shared by every character of an item.
#[derive(Clone, Copy, Debug, PartialEq, Eq, Structural)]
pub struct ItemAttrs {
    pub size: i32,
    pub script: Script,
    pub level: u8,
    pub locale: Option<u32>,
    pub variations: u32,
    pub features: u32,
    pub word_spacing: i32,
    pub letter_spacing: i32,
}

/// A maximal span of text with uniform shaping attributes, ready to be shaped.
///
/// `text_start..text_end` are byte offsets, `char_start..char_end` character
/// indices. A placeholder item covers no text: it asks for a single space to
/// be shaped so that an empty layout still has metrics.
#[derive(Clone, Copy, Debug, PartialEq, Eq, Structural)]
pub struct ShapingItem {
    pub attrs: ItemAttrs,
    pub first_style_index: u16,
    pub text_start: usize,
    pub text_end: usize,
    pub char_start: usize,
    pub char_end: usize,
    pub placeholder: bool,
}

impl ShapingItem {
    /// The byte range of text that the item covers.
    pub fn text_range(&self) -> (r: core::ops::Range<usize>)
        ensures
            r.start == self.text_start,
            r.end == self.text_end,
    {
        core::ops::Range { start: self.text_start, end: self.text_end }
    }

    /// Whether the item's text is shaped right to left (odd bidi level).
    pub fn is_rtl(&self) -> (r: bool)
        ensures
            r == (self.attrs.level % 2 == 1),
    {
        self.attrs.level % 2 == 1
    }
}

/// What the itemizer hands to the shaping sink, in order.
#[derive(Clone, Copy, Debug, PartialEq, Eq, Structural)]
pub enum ItemizeEvent {
    /// Shape this item and append the result as a new run.
    Text(ShapingItem),
    /// Append the inline box at this index of the box list.
    InlineBox(usize),
}

// ---------------------------------------------------------------------------
// Model
pub open spec fn utf8_len(c: char) -> nat {
    if (c as u32) < 0x80 {
        1
    } else if (c as u32) < 0x800 {
        2
    } else if (c as u32) < 0x10000 {
        3
    } else {
        4
    }
}

/// Byte offset of character `k` in UTF-8.
pub open spec fn byte_offset(text: Seq<char>, k: int) -> nat
    decreases k,
{
    if k <= 0 {
        0
    } else {
        byte_offset(text, k - 1) + utf8_len(text[k - 1])
    }
}

pub open spec fn level_at(levels: Seq<u8>, k: int) -> u8 {
    if 0 <= k < levels.len() {
        levels[k]
    } else {
        0
    }
}

/// The script of the first character that has a real one, else Latin.
pub open spec fn first_real_script(infos: Seq<CharProps>, k: int) -> Script
    decreases infos.len() - k,
{
    if k < 0 || k >= infos.len() {
        Script { code: SCRIPT_LATIN }
    } else if is_real_script(infos[k].script) {
        infos[k].script
    } else {
        first_real_script(infos, k + 1)
    }
}

pub open spec fn attrs_of(style: ShapeStyle, script: Script, level: u8) -> ItemAttrs {
    ItemAttrs {
        size: style.font_size,
        script,
        level,
        locale: style.locale,
        variations: style.font_variations,
        features: style.font_features,
        word_spacing: style.word_spacing,
        letter_spacing: style.letter_spacing,
    }
}

/// Whether `style` keeps the shaping attributes of the running item.
pub open spec fn same_shaping(style: ShapeStyle, a: ItemAttrs) -> bool {
    style.font_size == a.size && style.locale == a.locale && style.font_variations
        == a.variations && style.font_features == a.features && style.letter_spacing
        == a.letter_spacing && style.word_spacing == a.word_spacing
}

/// Number of consecutive boxes from `b` on that are anchored at `off`.
pub open spec fn boxes_at(boxes: Seq<InlineBox>, b: int, off: int) -> nat
    decreases boxes.len() - b,
{
    if 0 <= b < boxes.len() && boxes[b].index == off {
        1 + boxes_at(boxes, b + 1, off)
    } else {
        0
    }
}

pub open spec fn box_events(b: int, e: int) -> Seq<ItemizeEvent> {
    Seq::new((e - b) as nat, |i: int| ItemizeEvent::InlineBox((b + i) as usize))
}

/// The itemizer's state after the first characters of the text.
pub struct Scan {
    pub attrs: ItemAttrs,
    pub style_index: u16,
    pub text_start: int,
    pub text_end: int,
    pub char_start: int,
    pub char_end: int,
    pub next_box: int,
    pub events: Seq<ItemizeEvent>,
}

/// The itemizer's inputs as sequences: the characters, one classification
/// and bidi level per character, the style table and the inline boxes.
pub struct Input {
    pub text: Seq<char>,
    pub infos: Seq<CharProps>,
    pub levels: Seq<u8>,
    pub styles: Seq<ShapeStyle>,
    pub boxes: Seq<InlineBox>,
}

pub open spec fn item_of(inp: Input, s: Scan) -> ShapingItem {
    ShapingItem {
        attrs: s.attrs,
        first_style_index: inp.infos[s.char_start].style_index,
        text_start: s.text_start as usize,
        text_end: s.text_end as usize,
        char_start: s.char_start as usize,
        char_end: s.char_end as usize,
        placeholder: false,
    }
}

/// Whether character `k` starts a new item, the current one being `s`.
pub open spec fn breaks_at(inp: Input, s: Scan, k: int) -> bool {
    let info = inp.infos[k];
    let script = if is_real_script(info.script) {
        info.script
    } else {
        s.attrs.script
    };
    let level = level_at(inp.levels, k);
    (s.style_index != info.style_index && !same_shaping(
        inp.styles[info.style_index as int],
        s.attrs,
    )) || level != s.attrs.level || script != s.attrs.script || boxes_at(
        inp.boxes,
        s.next_box,
        s.text_end,
    ) > 0
}

pub open spec fn step(inp: Input, s: Scan, k: int) -> Scan {
    let info = inp.infos[k];
    let script = if is_real_script(info.script) {
        info.script
    } else {
        s.attrs.script
    };
    let level = level_at(inp.levels, k);
    let nb = boxes_at(inp.boxes, s.next_box, s.text_end);
    let brk = breaks_at(inp, s, k);
    let flushed = if brk && s.text_start < s.text_end {
        s.events.push(ItemizeEvent::Text(item_of(inp, s)))
    } else {
        s.events
    };
    Scan {
        attrs: if brk {
            attrs_of(inp.styles[info.style_index as int], script, level)
        } else {
            s.attrs
        },
        style_index: info.style_index,
        text_start: if brk {
            s.text_end
        } else {
            s.text_start
        },
        text_end: s.text_end + utf8_len(inp.text[k]),
        char_start: if brk {
            s.char_end
        } else {
            s.char_start
        },
        char_end: s.char_end + 1,
        next_box: s.next_box + nb,
        events: flushed + box_events(s.next_box, s.next_box + nb),
    }
}

pub open spec fn scan_start(inp: Input) -> Scan {
    Scan {
        attrs: attrs_of(inp.styles[0], first_real_script(inp.infos, 0), level_at(inp.levels, 0)),
        style_index: 0,
        text_start: 0,
        text_end: 0,
        char_start: 0,
        char_end: 0,
        next_box: 0,
        events: Seq::empty(),
    }
}

pub open spec fn scan(inp: Input, k: int) -> Scan
    decreases k,
{
    if k <= 0 {
        scan_start(inp)
    } else {
        step(inp, scan(inp, k - 1), k - 1)
    }
}

pub open spec fn finish(inp: Input, s: Scan) -> Seq<ItemizeEvent> {
    let flushed = if s.text_start < s.text_end {
        s.events.push(ItemizeEvent::Text(item_of(inp, s)))
    } else {
        s.events
    };
    flushed + box_events(s.next_box, inp.boxes.len() as int)
}

pub open spec fn placeholder_item(inp: Input) -> ShapingItem {
    ShapingItem {
        attrs: attrs_of(inp.styles[0], Script { code: SCRIPT_LATIN }, level_at(inp.levels, 0)),
        first_style_index: 0,
        text_start: 0,
        text_end: 0,
        char_start: 0,
        char_end: 0,
        placeholder: true,
    }
}

/// The events of one itemization pass over `inp`.
pub open spec fn itemized(inp: Input) -> Seq<ItemizeEvent> {
    if inp.text.len() == 0 && inp.boxes.len() == 0 && inp.styles.len() > 0 {
        seq![ItemizeEvent::Text(placeholder_item(inp))]
    } else if inp.text.len() == 0 || inp.styles.len() == 0 {
        box_events(0, inp.boxes.len() as int)
    } else {
        finish(inp, scan(inp, inp.text.len() as int))
    }
}

/// The inputs the itemizer accepts: one classification per character, each
/// naming a style of the table where the table is not empty.
pub open spec fn valid_input(inp: Input) -> bool {
    &&& inp.infos.len() == inp.text.len()
    &&& inp.styles.len() > 0 ==> forall|k: int|
        0 <= k < inp.infos.len() ==> (#[trigger] inp.infos[k]).style_index < inp.styles.len()
    &&& byte_offset(inp.text, inp.text.len() as int) <= usize::MAX
    &&& inp.boxes.len() <= usize::MAX
}

pub open spec fn input_of(
    text: &Vec<char>,
    infos: &Vec<CharProps>,
    levels: &Vec<u8>,
    styles: &Vec<ShapeStyle>,
    inline_boxes: &Vec<InlineBox>,
) -> Input {
    Input { text: text@, infos: infos@, levels: levels@, styles: styles@, boxes: inline_boxes@ }
}

// ---------------------------------------------------------------------------
// Lemmas
proof fn lemma_byte_offset_mono(text: Seq<char>, j: int, k: int)
    requires
        0 <= j <= k,
    ensures
        byte_offset(text, j) <= byte_offset(text, k),
        j < k ==> byte_offset(text, j) < byte_offset(text, k),
    decreases k,
{
    if j < k {
        lemma_byte_offset_mono(text, j, k - 1);
    }
}

proof fn lemma_boxes_at_bound(boxes: Seq<InlineBox>, b: int, off: int)
    requires
        0 <= b <= boxes.len(),
    ensures
        b + boxes_at(boxes, b, off) <= boxes.len(),
    decreases boxes.len() - b,
{
    if 0 <= b < boxes.len() && boxes[b].index == off {
        lemma_boxes_at_bound(boxes, b + 1, off);
    }
}

/// Shape facts of the scan state after `k` characters.
proof fn lemma_scan_shape(inp: Input, k: int)
    requires
        valid_input(inp),
        inp.styles.len() > 0,
        0 <= k <= inp.text.len(),
    ensures
        scan(inp, k).char_end == k,
        scan(inp, k).text_end == byte_offset(inp.text, k),
        0 <= scan(inp, k).char_start <= k,
        scan(inp, k).text_start == byte_offset(inp.text, scan(inp, k).char_start),
        0 <= scan(inp, k).next_box <= inp.boxes.len(),
    decreases k,
{
    if k > 0 {
        lemma_scan_shape(inp, k - 1);
        let s = scan(inp, k - 1);
        lemma_boxes_at_bound(inp.boxes, s.next_box, s.text_end);
    }
}

/// An item is flushed only when it holds at least one character.
proof fn lemma_nonempty_item(inp: Input, k: int)
    requires
        valid_input(inp),
        inp.styles.len() > 0,
        0 <= k <= inp.text.len(),
    ensures
        scan(inp, k).text_start < scan(inp, k).text_end <==> scan(inp, k).char_start < k,
{
    lemma_scan_shape(inp, k);
    let s = scan(inp, k);
    lemma_byte_offset_mono(inp.text, s.char_start, k);
}

// ---------------------------------------------------------------------------
// Partition of the text
/// Where the text emitted by `ev` ends: the end of its last text item.
pub open spec fn covered(ev: Seq<ItemizeEvent>) -> int
    decreases ev.len(),
{
    if ev.len() == 0 {
        0
    } else {
        match ev.last() {
            ItemizeEvent::Text(t) => t.text_end as int,
            ItemizeEvent::InlineBox(_) => covered(ev.drop_last()),
        }
    }
}

/// Number of inline boxes that `ev` emits.
pub open spec fn boxes_seen(ev: Seq<ItemizeEvent>) -> int
    decreases ev.len(),
{
    if ev.len() == 0 {
        0
    } else {
        match ev.last() {
            ItemizeEvent::Text(_) => boxes_seen(ev.drop_last()),
            ItemizeEvent::InlineBox(_) => boxes_seen(ev.drop_last()) + 1,
        }
    }
}

pub open spec fn total_bytes(inp: Input) -> int {
    byte_offset(inp.text, inp.text.len() as int) as int
}

/// Box anchors are in order and each starts a character or ends the text.
pub open spec fn anchors_ok(inp: Input) -> bool {
    &&& forall|a: int, b: int|
        0 <= a <= b < inp.boxes.len() ==> #[trigger] inp.boxes[a].index
            <= #[trigger] inp.boxes[b].index
    &&& forall|j: int|
        0 <= j < inp.boxes.len() ==> exists|m: int|
            0 <= m <= inp.text.len() && byte_offset(inp.text, m) == (#[trigger] inp.boxes[j]).index
}

/// A box sits where the text before it ends at the box's anchor; only where
/// the anchors are out of order or fall inside a character may it come after
/// all of the text instead.
pub open spec fn box_placed(inp: Input, j: int, at: int) -> bool {
    inp.boxes[j].index == at || (at == total_bytes(inp) && !anchors_ok(inp))
}

/// Each text item starts where the text before it ended and is not empty;
/// boxes come in the order of the box list, each at its anchor or after
/// all of the text.
pub open spec fn well_placed(inp: Input, ev: Seq<ItemizeEvent>) -> bool {
    forall|i: int|
        0 <= i < ev.len() ==> match #[trigger] ev[i] {
            ItemizeEvent::Text(t) => t.text_start == covered(ev.take(i)) && t.text_start
                < t.text_end,
            ItemizeEvent::InlineBox(j) => j == boxes_seen(ev.take(i)) && 0 <= j
                < inp.boxes.len() && box_placed(inp, j as int, covered(ev.take(i))),
        }
}

proof fn lemma_push_placed(inp: Input, ev: Seq<ItemizeEvent>, e: ItemizeEvent)
    requires
        well_placed(inp, ev),
        match e {
            ItemizeEvent::Text(t) => t.text_start == covered(ev) && t.text_start < t.text_end,
            ItemizeEvent::InlineBox(j) => j == boxes_seen(ev) && 0 <= j < inp.boxes.len()
                && box_placed(inp, j as int, covered(ev)),
        },
    ensures
        well_placed(inp, ev.push(e)),
        covered(ev.push(e)) == match e {
            ItemizeEvent::Text(t) => t.text_end as int,
            ItemizeEvent::InlineBox(_) => covered(ev),
        },
        boxes_seen(ev.push(e)) == match e {
            ItemizeEvent::Text(_) => boxes_seen(ev),
            ItemizeEvent::InlineBox(_) => boxes_seen(ev) + 1,
        },
{
    let ev2 = ev.push(e);
    assert(ev2.drop_last() =~= ev);
    assert forall|i: int| 0 <= i < ev2.len() implies match #[trigger] ev2[i] {
        ItemizeEvent::Text(t) => t.text_start == covered(ev2.take(i)) && t.text_start
            < t.text_end,
        ItemizeEvent::InlineBox(j) => j == boxes_seen(ev2.take(i)) && 0 <= j < inp.boxes.len()
            && box_placed(inp, j as int, covered(ev2.take(i))),
    } by {
        if i < ev.len() {
            assert(ev2.take(i) =~= ev.take(i));
            assert(ev2[i] == ev[i]);
        } else {
            assert(ev2.take(i) =~= ev);
        }
    }
}

#[verifier::rlimit(30)]
proof fn lemma_push_boxes_placed(inp: Input, ev: Seq<ItemizeEvent>, b: int, e: int)
    requires
        inp.boxes.len() <= usize::MAX,
        well_placed(inp, ev),
        boxes_seen(ev) == b,
        0 <= b <= e <= inp.boxes.len(),
        forall|j: int| b <= j < e ==> box_placed(inp, j, covered(ev)),
    ensures
        well_placed(inp, ev + box_events(b, e)),
        covered(ev + box_events(b, e)) == covered(ev),
        boxes_seen(ev + box_events(b, e)) == e,
    decreases e - b,
{
    if e > b {
        lemma_push_boxes_placed(inp, ev, b, e - 1);
        let pre = ev + box_events(b, e - 1);
        let j = (e - 1) as usize;
        assert(j as int == e - 1);
        assert(box_placed(inp, e - 1, covered(ev)));
        assert(ev + box_events(b, e) =~= pre.push(ItemizeEvent::InlineBox(j)));
        lemma_push_placed(inp, pre, ItemizeEvent::InlineBox(j));
    } else {
        assert(ev + box_events(b, e) =~= ev);
    }
}

proof fn lemma_boxes_at_index(boxes: Seq<InlineBox>, b: int, off: int, j: int)
    requires
        0 <= b <= j < b + boxes_at(boxes, b, off),
    ensures
        boxes[j].index == off,
        j < boxes.len(),
    decreases j - b,
{
    if j > b {
        lemma_boxes_at_index(boxes, b + 1, off, j);
    }
}

proof fn lemma_scan_placed(inp: Input, k: int)
    requires
        valid_input(inp),
        inp.styles.len() > 0,
        0 <= k <= inp.text.len(),
    ensures
        well_placed(inp, scan(inp, k).events),
        covered(scan(inp, k).events) == scan(inp, k).text_start,
        boxes_seen(scan(inp, k).events) == scan(inp, k).next_box,
    decreases k,
{
    if k > 0 {
        lemma_scan_placed(inp, k - 1);
        lemma_scan_shape(inp, k - 1);
        lemma_nonempty_item(inp, k - 1);
        let s = scan(inp, k - 1);
        lemma_byte_offset_mono(inp.text, s.char_start, inp.text.len() as int);
        lemma_byte_offset_mono(inp.text, k - 1, inp.text.len() as int);
        let brk = breaks_at(inp, s, k - 1);
        let nb = boxes_at(inp.boxes, s.next_box, s.text_end);
        lemma_boxes_at_bound(inp.boxes, s.next_box, s.text_end);
        let flushed = if brk && s.text_start < s.text_end {
            lemma_push_placed(inp, s.events, ItemizeEvent::Text(item_of(inp, s)));
            s.events.push(ItemizeEvent::Text(item_of(inp, s)))
        } else {
            s.events
        };
        assert forall|j: int| s.next_box <= j < s.next_box + nb implies box_placed(
            inp,
            j,
            covered(flushed),
        ) by {
            lemma_boxes_at_index(inp.boxes, s.next_box, s.text_end, j);
        }
        lemma_push_boxes_placed(inp, flushed, s.next_box, s.next_box + nb);
    }
}

proof fn lemma_covered_step(ev: Seq<ItemizeEvent>, i: int)
    requires
        0 <= i < ev.len(),
    ensures
        covered(ev.take(i + 1)) == match ev[i] {
            ItemizeEvent::Text(t) => t.text_end as int,
            ItemizeEvent::InlineBox(_) => covered(ev.take(i)),
        },
{
    assert(ev.take(i + 1).drop_last() =~= ev.take(i));
}

/// In a well placed sequence the emitted text only grows.
proof fn lemma_covered_mono(inp: Input, ev: Seq<ItemizeEvent>, i: int, j: int)
    requires
        well_placed(inp, ev),
        0 <= i <= j <= ev.len(),
    ensures
        covered(ev.take(i)) <= covered(ev.take(j)),
    decreases j - i,
{
    if i < j {
        lemma_covered_mono(inp, ev, i, j - 1);
        lemma_covered_step(ev, j - 1);
    }
}

/// No text item crosses the anchor of a box placed there: text before the
/// box ends at or before the anchor, text after it starts at or after it.
pub open spec fn no_crossing(inp: Input, ev: Seq<ItemizeEvent>) -> bool {
    forall|p: int, i: int|
        0 <= p < ev.len() && 0 <= i < ev.len() && p != i ==> match (#[trigger] ev[p], #[trigger] ev[i]) {
            (ItemizeEvent::Text(t), ItemizeEvent::InlineBox(j)) => inp.boxes[j as int].index
                == covered(ev.take(i)) ==> (p < i ==> t.text_end <= inp.boxes[j as int].index) && (p
                > i ==> t.text_start >= inp.boxes[j as int].index),
            _ => true,
        }
}

proof fn lemma_no_crossing(inp: Input, ev: Seq<ItemizeEvent>)
    requires
        well_placed(inp, ev),
    ensures
        no_crossing(inp, ev),
{
    assert forall|p: int, i: int|
        0 <= p < ev.len() && 0 <= i < ev.len() && p != i implies match (#[trigger] ev[p], #[trigger] ev[i]) {
            (ItemizeEvent::Text(t), ItemizeEvent::InlineBox(j)) => inp.boxes[j as int].index
                == covered(ev.take(i)) ==> (p < i ==> t.text_end <= inp.boxes[j as int].index) && (p
                > i ==> t.text_start >= inp.boxes[j as int].index),
            _ => true,
        } by {
        if let ItemizeEvent::Text(t) = ev[p] {
            if p < i {
                lemma_covered_step(ev, p);
                lemma_covered_mono(inp, ev, p + 1, i);
            } else {
                lemma_covered_mono(inp, ev, i, p);
            }
        }
    }
}

proof fn lemma_boxes_at_stop(boxes: Seq<InlineBox>, b: int, off: int)
    requires
        0 <= b <= boxes.len(),
    ensures
        b + boxes_at(boxes, b, off) < boxes.len() ==> boxes[b + boxes_at(boxes, b, off)].index
            != off,
    decreases boxes.len() - b,
{
    if 0 <= b < boxes.len() && boxes[b].index == off {
        lemma_boxes_at_stop(boxes, b + 1, off);
    }
}

/// With ordered anchors on character boundaries, no box still to come is
/// anchored before the current byte.
proof fn lemma_scan_anchors(inp: Input, k: int)
    requires
        valid_input(inp),
        inp.styles.len() > 0,
        anchors_ok(inp),
        0 <= k <= inp.text.len(),
    ensures
        forall|j: int|
            scan(inp, k).next_box <= j < inp.boxes.len() ==> (#[trigger] inp.boxes[j]).index
                >= scan(inp, k).text_end,
    decreases k,
{
    if k > 0 {
        lemma_scan_anchors(inp, k - 1);
        lemma_scan_shape(inp, k - 1);
        lemma_scan_shape(inp, k);
        let s = scan(inp, k - 1);
        let nb = boxes_at(inp.boxes, s.next_box, s.text_end);
        let b2 = s.next_box + nb;
        lemma_boxes_at_bound(inp.boxes, s.next_box, s.text_end);
        lemma_boxes_at_stop(inp.boxes, s.next_box, s.text_end);
        if b2 < inp.boxes.len() {
            let m = choose|m: int|
                0 <= m <= inp.text.len() && byte_offset(inp.text, m) == inp.boxes[b2].index;
            if m <= k - 1 {
                lemma_byte_offset_mono(inp.text, m, k - 1);
            } else {
                lemma_byte_offset_mono(inp.text, k, m);
            }
            assert forall|j: int| b2 <= j < inp.boxes.len() implies (#[trigger] inp.boxes[j]).index
                >= scan(inp, k).text_end by {
                assert(inp.boxes[b2].index <= inp.boxes[j].index);
            }
        }
    }
}

/// Partition law of itemization: over a non-empty text and style table,
/// the text items cover the text exactly once, each starting where the one
/// before it ended and none empty; the inline boxes all come, in the order
/// of the box list, each where the text before it ends at its anchor (or,
/// where anchors are out of order or inside a character, after all of the
/// text); and no text item crosses the anchor of a box placed at it.
pub proof fn lemma_itemize_partition(inp: Input)
    requires
        valid_input(inp),
        inp.text.len() > 0,
        inp.styles.len() > 0,
    ensures
        well_placed(inp, itemized(inp)),
        covered(itemized(inp)) == total_bytes(inp),
        boxes_seen(itemized(inp)) == inp.boxes.len(),
        no_crossing(inp, itemized(inp)),
{
    let n = inp.text.len() as int;
    lemma_scan_placed(inp, n);
    lemma_scan_shape(inp, n);
    lemma_nonempty_item(inp, n);
    let s = scan(inp, n);
    lemma_byte_offset_mono(inp.text, s.char_start, n);
    let flushed = if s.text_start < s.text_end {
        lemma_push_placed(inp, s.events, ItemizeEvent::Text(item_of(inp, s)));
        s.events.push(ItemizeEvent::Text(item_of(inp, s)))
    } else {
        s.events
    };
    if anchors_ok(inp) {
        lemma_scan_anchors(inp, n);
        assert forall|j: int| s.next_box <= j < inp.boxes.len() implies box_placed(
            inp,
            j,
            covered(flushed),
        ) by {
            let m = choose|m: int|
                0 <= m <= inp.text.len() && byte_offset(inp.text, m) == inp.boxes[j].index;
            lemma_byte_offset_mono(inp.text, m, n);
        }
    }
    lemma_push_boxes_placed(inp, flushed, s.next_box, inp.boxes.len() as int);
    lemma_no_crossing(inp, itemized(inp));
}

proof fn lemma_boxes_seen_step(ev: Seq<ItemizeEvent>, i: int)
    requires
        0 <= i < ev.len(),
    ensures
        boxes_seen(ev.take(i + 1)) == boxes_seen(ev.take(i)) + if ev[i] is InlineBox {
            1int
        } else {
            0int
        },
{
    assert(ev.take(i + 1).drop_last() =~= ev.take(i));
}

/// Box `j` is emitted among the first `n` events.
pub open spec fn box_emitted(ev: Seq<ItemizeEvent>, n: int, j: int) -> bool {
    exists|i: int| 0 <= i < n && #[trigger] ev[i] == ItemizeEvent::InlineBox(j as usize)
}

/// Every box counted among the first `n` events is emitted among them.
proof fn lemma_boxes_appear(inp: Input, ev: Seq<ItemizeEvent>, n: int)
    requires
        well_placed(inp, ev),
        0 <= n <= ev.len(),
    ensures
        forall|j: int| 0 <= j < boxes_seen(ev.take(n)) ==> #[trigger] box_emitted(ev, n, j),
    decreases n,
{
    if n > 0 {
        lemma_boxes_appear(inp, ev, n - 1);
        lemma_boxes_seen_step(ev, n - 1);
        assert forall|j: int| 0 <= j < boxes_seen(ev.take(n)) implies #[trigger] box_emitted(
            ev,
            n,
            j,
        ) by {
            if j < boxes_seen(ev.take(n - 1)) {
                assert(box_emitted(ev, n - 1, j));
                let i = choose|i: int|
                    0 <= i < n - 1 && #[trigger] ev[i] == ItemizeEvent::InlineBox(j as usize);
                assert(0 <= i < n && ev[i] == ItemizeEvent::InlineBox(j as usize));
            } else {
                assert(ev[n - 1] == ItemizeEvent::InlineBox(j as usize));
            }
        }
    } else {
        assert(ev.take(0) =~= Seq::<ItemizeEvent>::empty());
    }
}

/// No text item of an itemization holds a box anchor strictly inside it,
/// where the anchors are in order and each starts a character or ends the
/// text.
pub proof fn lemma_itemize_respects_anchors(inp: Input, p: int, j: int)
    requires
        valid_input(inp),
        inp.text.len() > 0,
        inp.styles.len() > 0,
        anchors_ok(inp),
        0 <= p < itemized(inp).len(),
        0 <= j < inp.boxes.len(),
    ensures
        itemized(inp)[p] matches ItemizeEvent::Text(t) ==> !(t.text_start < inp.boxes[j].index
            < t.text_end),
{
    let ev = itemized(inp);
    lemma_itemize_partition(inp);
    assert(ev.take(ev.len() as int) =~= ev);
    lemma_boxes_appear(inp, ev, ev.len() as int);
    assert(box_emitted(ev, ev.len() as int, j));
    let i = choose|i: int| 0 <= i < ev.len() && #[trigger] ev[i] == ItemizeEvent::InlineBox(j as usize);
    assert(box_placed(inp, j, covered(ev.take(i))));
    assert(no_crossing(inp, ev));
    if p != i {
        assert(ev[p] == ev[p] && ev[i] == ev[i]);
    }
}

/// Itemization is deterministic: the same inputs give the same events.
pub proof fn lemma_itemize_deterministic(a: Input, b: Input)
    requires
        a == b,
    ensures
        itemized(a) == itemized(b),
{
}

// ---------------------------------------------------------------------------
// Code
fn utf8_width(c: char) -> (r: usize)
    ensures
        r == utf8_len(c),
{
    let v = c as u32;
    if v < 0x80 {
        1
    } else if v < 0x800 {
        2
    } else if v < 0x10000 {
        3
    } else {
        4
    }
}

fn first_script(infos: &Vec<CharProps>) -> (r: Script)
    ensures
        r == first_real_script(infos@, 0),
{
    let mut i: usize = 0;
    while i < infos.len()
        invariant
            0 <= i <= infos.len(),
            first_real_script(infos@, i as int) == first_real_script(infos@, 0),
        decreases infos.len() - i,
    {
        if real_script(infos[i].script) {
            return infos[i].script;
        }
        i = i + 1;
    }
    Script { code: SCRIPT_LATIN }
}

fn level_of(levels: &Vec<u8>, k: usize) -> (r: u8)
    ensures
        r == level_at(levels@, k as int),
{
    if k < levels.len() {
        levels[k]
    } else {
        0
    }
}

fn locale_eq(a: Option<u32>, b: Option<u32>) -> (r: bool)
    ensures
        r == (a == b),
{
    match (a, b) {
        (None, None) => true,
        (Some(x), Some(y)) => x == y,
        _ => false,
    }
}

fn same_shaping_exec(style: &ShapeStyle, a: &ItemAttrs) -> (r: bool)
    ensures
        r == same_shaping(*style, *a),
{
    style.font_size == a.size && locale_eq(style.locale, a.locale) && style.font_variations
        == a.variations && style.font_features == a.features && style.letter_spacing
        == a.letter_spacing && style.word_spacing == a.word_spacing
}

fn attrs_from(style: &ShapeStyle, script: Script, level: u8) -> (r: ItemAttrs)
    ensures
        r == attrs_of(*style, script, level),
{
    ItemAttrs {
        size: style.font_size,
        script,
        level,
        locale: style.locale,
        variations: style.font_variations,
        features: style.font_features,
        word_spacing: style.word_spacing,
        letter_spacing: style.letter_spacing,
    }
}

fn push_boxes(events: &mut Vec<ItemizeEvent>, b: usize, e: usize)
    requires
        b <= e,
    ensures
        final(events)@ == old(events)@ + box_events(b as int, e as int),
{
    let ghost start = events@;
    let mut i: usize = b;
    while i < e
        invariant
            b <= i <= e,
            events@ == start + box_events(b as int, i as int),
        decreases e - i,
    {
        events.push(ItemizeEvent::InlineBox(i));
        i = i + 1;
        assert(events@ =~= start + box_events(b as int, i as int));
    }
}

/// Splits text and inline boxes into the ordered events of one itemization
/// pass.
///
/// Characters are walked in order; a new item starts where the style's
/// shaping attributes, the bidi level or the effective script change, and
/// where an inline box is anchored. Pseudo-scripts take the running item's
/// script. Boxes follow the text that precedes their anchor; boxes that no
/// character reaches come last, in their order. Empty text with no boxes
/// yields one placeholder item; empty text or an empty style table yields
/// the boxes alone.
pub fn itemize(
    text: &Vec<char>,
    infos: &Vec<CharProps>,
    levels: &Vec<u8>,
    styles: &Vec<ShapeStyle>,
    inline_boxes: &Vec<InlineBox>,
) -> (r: Vec<ItemizeEvent>)
    requires
        valid_input(input_of(text, infos, levels, styles, inline_boxes)),
    ensures
        r@ == itemized(input_of(text, infos, levels, styles, inline_boxes)),
{
    let ghost inp = input_of(text, infos, levels, styles, inline_boxes);
    let mut events: Vec<ItemizeEvent> = Vec::new();
    if text.len() == 0 && inline_boxes.len() == 0 && styles.len() > 0 {
        let item = ShapingItem {
            attrs: attrs_from(&styles[0], Script { code: SCRIPT_LATIN }, level_of(levels, 0)),
            first_style_index: 0,
            text_start: 0,
            text_end: 0,
            char_start: 0,
            char_end: 0,
            placeholder: true,
        };
        events.push(ItemizeEvent::Text(item));
        assert(events@ =~= itemized(inp));
        return events;
    }
    if text.len() == 0 || styles.len() == 0 {
        push_boxes(&mut events, 0, inline_boxes.len());
        assert(events@ =~= itemized(inp));
        return events;
    }
    let mut attrs = attrs_from(&styles[0], first_script(infos), level_of(levels, 0));
    let mut style_index: u16 = 0;
    let mut text_start: usize = 0;
    let mut text_end: usize = 0;
    let mut char_start: usize = 0;
    let mut next_box: usize = 0;
    let mut k: usize = 0;
    while k < text.len()
        invariant
            valid_input(inp),
            inp == input_of(text, infos, levels, styles, inline_boxes),
            styles.len() > 0,
            0 <= k <= text.len(),
            ({
                let s = scan(inp, k as int);
                &&& s.attrs == attrs
                &&& s.style_index == style_index
                &&& s.text_start == text_start
                &&& s.text_end == text_end
                &&& s.char_start == char_start
                &&& s.char_end == k
                &&& s.next_box == next_box
                &&& s.events == events@
            }),
        decreases text.len() - k,
    {
        proof {
            lemma_scan_shape(inp, k as int);
            lemma_scan_shape(inp, k as int + 1);
            lemma_byte_offset_mono(inp.text, k as int + 1, text.len() as int);
            lemma_nonempty_item(inp, k as int);
        }
        let ghost s = scan(inp, k as int);
        let info = infos[k];
        let mut script = info.script;
        if !real_script(script) {
            script = attrs.script;
        }
        let level = level_of(levels, k);
        let mut break_run = false;
        if style_index != info.style_index {
            if !same_shaping_exec(&styles[info.style_index as usize], &attrs) {
                break_run = true;
            }
        }
        style_index = info.style_index;
        if level != attrs.level || script != attrs.script {
            break_run = true;
        }
        let box_first = next_box;
        while next_box < inline_boxes.len() && inline_boxes[next_box].index == text_end
            invariant
                box_first <= next_box <= inline_boxes.len(),
                inp.boxes == inline_boxes@,
                boxes_at(inp.boxes, box_first as int, text_end as int) == (next_box - box_first)
                    + boxes_at(inp.boxes, next_box as int, text_end as int),
            decreases inline_boxes.len() - next_box,
        {
            next_box = next_box + 1;
        }
        assert(boxes_at(inp.boxes, next_box as int, text_end as int) == 0);
        if next_box > box_first {
            break_run = true;
        }
        assert(break_run == breaks_at(inp, s, k as int));
        if break_run && text_start < text_end {
            let item = ShapingItem {
                attrs,
                first_style_index: infos[char_start].style_index,
                text_start,
                text_end,
                char_start,
                char_end: k,
                placeholder: false,
            };
            events.push(ItemizeEvent::Text(item));
        }
        if break_run {
            attrs = attrs_from(&styles[info.style_index as usize], script, level);
            text_start = text_end;
            char_start = k;
        }
        push_boxes(&mut events, box_first, next_box);
        text_end = text_end + utf8_width(text[k]);
        k = k + 1;
    }
    proof {
        lemma_scan_shape(inp, k as int);
        lemma_nonempty_item(inp, k as int);
    }
    if text_start < text_end {
        let item = ShapingItem {
            attrs,
            first_style_index: infos[char_start].style_index,
            text_start,
            text_end,
            char_start,
            char_end: k,
            placeholder: false,
        };
        events.push(ItemizeEvent::Text(item));
    }
    push_boxes(&mut events, next_box, inline_boxes.len());
    events
}

} // verus!
