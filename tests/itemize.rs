use parley_core::itemize::{itemize, ItemizeEvent, ShapingItem};
use parley_core::style::{
    CharProps, InlineBox, Script, ShapeStyle, SCRIPT_COMMON, SCRIPT_INHERITED, SCRIPT_LATIN,
};

const ARABIC: u32 = 7;

fn style(size: i32) -> ShapeStyle {
    ShapeStyle {
        font_size: size,
        font_stack: 1,
        font_width: 100,
        font_weight: 400,
        font_style: 0,
        locale: None,
        font_variations: 0,
        font_features: 0,
        word_spacing: 0,
        letter_spacing: 0,
    }
}

fn props(text: &str, script: u32, style_index: u16) -> Vec<CharProps> {
    text.chars()
        .map(|_| CharProps { script: Script { code: script }, is_emoji: false, style_index })
        .collect()
}

fn boxed(index: usize, id: u64) -> InlineBox {
    InlineBox { index, width: 10, height: 12, id }
}

fn text_items(ev: &[ItemizeEvent]) -> Vec<ShapingItem> {
    ev.iter()
        .filter_map(|e| match e {
            ItemizeEvent::Text(t) => Some(*t),
            ItemizeEvent::InlineBox(_) => None,
        })
        .collect()
}

#[test]
fn hello_with_box_at_end() {
    let text: Vec<char> = "Hello".chars().collect();
    let infos = props("Hello", SCRIPT_LATIN, 0);
    let ev = itemize(&text, &infos, &vec![0; 5], &vec![style(16)], &vec![boxed(5, 9)]);
    assert_eq!(ev.len(), 2);
    match ev[0] {
        ItemizeEvent::Text(t) => {
            assert_eq!(t.text_range(), 0..5);
            assert_eq!((t.char_start, t.char_end), (0, 5));
            assert!(!t.placeholder);
        }
        _ => panic!("expected a text item"),
    }
    assert_eq!(ev[1], ItemizeEvent::InlineBox(0));
}

#[test]
fn bidi_level_change_splits() {
    let text: Vec<char> = "AB".chars().collect();
    let infos = props("AB", SCRIPT_LATIN, 0);
    let ev = itemize(&text, &infos, &vec![0, 1], &vec![style(16)], &vec![]);
    let items = text_items(&ev);
    assert_eq!(ev.len(), 2);
    assert_eq!(items[0].text_range(), 0..1);
    assert_eq!(items[0].attrs.level, 0);
    assert!(!items[0].is_rtl());
    assert_eq!(items[1].text_range(), 1..2);
    assert_eq!(items[1].attrs.level, 1);
    assert!(items[1].is_rtl());
}

#[test]
fn empty_text_yields_placeholder() {
    let ev = itemize(&vec![], &vec![], &vec![], &vec![style(16)], &vec![]);
    assert_eq!(ev.len(), 1);
    match ev[0] {
        ItemizeEvent::Text(t) => {
            assert!(t.placeholder);
            assert_eq!(t.text_range(), 0..0);
            assert_eq!(t.attrs.size, 16);
            assert_eq!(t.attrs.script.code, SCRIPT_LATIN);
        }
        _ => panic!("expected the placeholder item"),
    }
}

#[test]
fn empty_text_with_boxes_emits_boxes_only() {
    let ev = itemize(&vec![], &vec![], &vec![], &vec![style(16)], &vec![boxed(0, 1), boxed(0, 2)]);
    assert_eq!(ev, vec![ItemizeEvent::InlineBox(0), ItemizeEvent::InlineBox(1)]);
}

#[test]
fn no_styles_emits_boxes_only() {
    let text: Vec<char> = "ab".chars().collect();
    let infos = props("ab", SCRIPT_LATIN, 0);
    let ev = itemize(&text, &infos, &vec![], &vec![], &vec![boxed(1, 1)]);
    assert_eq!(ev, vec![ItemizeEvent::InlineBox(0)]);
}

#[test]
fn empty_everything_yields_nothing_without_styles() {
    let ev = itemize(&vec![], &vec![], &vec![], &vec![], &vec![]);
    assert!(ev.is_empty());
}

#[test]
fn boxes_interleave_at_offsets() {
    let text: Vec<char> = "abcd".chars().collect();
    let infos = props("abcd", SCRIPT_LATIN, 0);
    let boxes = vec![boxed(0, 1), boxed(2, 2), boxed(2, 3), boxed(4, 4)];
    let ev = itemize(&text, &infos, &vec![], &vec![style(16)], &boxes);
    assert_eq!(ev.len(), 6);
    assert_eq!(ev[0], ItemizeEvent::InlineBox(0));
    match ev[1] {
        ItemizeEvent::Text(t) => assert_eq!(t.text_range(), 0..2),
        _ => panic!("expected text"),
    }
    assert_eq!(ev[2], ItemizeEvent::InlineBox(1));
    assert_eq!(ev[3], ItemizeEvent::InlineBox(2));
    match ev[4] {
        ItemizeEvent::Text(t) => assert_eq!(t.text_range(), 2..4),
        _ => panic!("expected text"),
    }
    assert_eq!(ev[5], ItemizeEvent::InlineBox(3));
}

#[test]
fn unreached_box_comes_last() {
    let text: Vec<char> = "ab".chars().collect();
    let infos = props("ab", SCRIPT_LATIN, 0);
    let ev = itemize(&text, &infos, &vec![], &vec![style(16)], &vec![boxed(9, 1)]);
    assert_eq!(ev.len(), 2);
    assert_eq!(ev[1], ItemizeEvent::InlineBox(0));
}

#[test]
fn byte_ranges_follow_utf8() {
    // 'é' takes two bytes, '€' three, '😀' four.
    let s = "aé€😀";
    let text: Vec<char> = s.chars().collect();
    let mut infos = props(s, SCRIPT_LATIN, 0);
    infos[3].style_index = 1;
    let ev = itemize(&text, &infos, &vec![], &vec![style(16), style(20)], &vec![]);
    let items = text_items(&ev);
    assert_eq!(items.len(), 2);
    assert_eq!(items[0].text_range(), 0..6);
    assert_eq!(items[1].text_range(), 6..10);
    assert_eq!(items[1].attrs.size, 20);
    assert_eq!(items[1].first_style_index, 1);
    assert_eq!(s.len(), 10);
}

#[test]
fn same_shaping_style_does_not_split() {
    let text: Vec<char> = "abc".chars().collect();
    let mut infos = props("abc", SCRIPT_LATIN, 0);
    infos[1].style_index = 1;
    let mut other = style(16);
    other.font_stack = 5; // differs only in what shaping does not read
    let ev = itemize(&text, &infos, &vec![], &vec![style(16), other], &vec![]);
    let items = text_items(&ev);
    assert_eq!(items.len(), 1);
    assert_eq!(items[0].text_range(), 0..3);
    assert_eq!(items[0].first_style_index, 0);
}

#[test]
fn spacing_change_splits() {
    let text: Vec<char> = "abc".chars().collect();
    let mut infos = props("abc", SCRIPT_LATIN, 0);
    infos[2].style_index = 1;
    let mut spaced = style(16);
    spaced.letter_spacing = 3;
    let ev = itemize(&text, &infos, &vec![], &vec![style(16), spaced], &vec![]);
    let items = text_items(&ev);
    assert_eq!(items.len(), 2);
    assert_eq!(items[1].text_range(), 2..3);
    assert_eq!(items[1].attrs.letter_spacing, 3);
}

#[test]
fn pseudo_scripts_inherit_running_script() {
    let s = "a, b";
    let text: Vec<char> = s.chars().collect();
    let mut infos = props(s, SCRIPT_LATIN, 0);
    infos[1].script = Script { code: SCRIPT_COMMON };
    infos[2].script = Script { code: SCRIPT_INHERITED };
    let ev = itemize(&text, &infos, &vec![], &vec![style(16)], &vec![]);
    assert_eq!(text_items(&ev).len(), 1);
}

#[test]
fn script_change_splits_and_first_real_script_leads() {
    let s = " ab";
    let text: Vec<char> = s.chars().collect();
    let mut infos = props(s, ARABIC, 0);
    infos[0].script = Script { code: SCRIPT_COMMON };
    infos[2].script = Script { code: SCRIPT_LATIN };
    let ev = itemize(&text, &infos, &vec![], &vec![style(16)], &vec![]);
    let items = text_items(&ev);
    assert_eq!(items.len(), 2);
    assert_eq!(items[0].text_range(), 0..2);
    assert_eq!(items[0].attrs.script.code, ARABIC);
    assert_eq!(items[1].attrs.script.code, SCRIPT_LATIN);
}

#[test]
fn itemization_is_deterministic() {
    let s = "ab cd";
    let text: Vec<char> = s.chars().collect();
    let infos = props(s, SCRIPT_LATIN, 0);
    let levels = vec![0, 0, 1, 1, 0];
    let boxes = vec![boxed(2, 1)];
    let a = itemize(&text, &infos, &levels, &vec![style(16)], &boxes);
    let b = itemize(&text, &infos, &levels, &vec![style(16)], &boxes);
    assert_eq!(a, b);
}

#[test]
fn text_items_partition_the_text() {
    let s = "héllo wörld";
    let text: Vec<char> = s.chars().collect();
    let mut infos = props(s, SCRIPT_LATIN, 0);
    for i in 4..8 {
        infos[i].style_index = 1;
    }
    let levels = vec![0, 0, 0, 1, 1, 1, 0, 0, 0, 0, 0];
    let boxes = vec![boxed(3, 1), boxed(7, 2)];
    let ev = itemize(&text, &infos, &levels, &vec![style(16), style(18)], &boxes);
    let mut covered = 0;
    let mut next_box = 0;
    for e in &ev {
        match e {
            ItemizeEvent::Text(t) => {
                assert_eq!(t.text_start, covered);
                assert!(t.text_start < t.text_end);
                covered = t.text_end;
            }
            ItemizeEvent::InlineBox(j) => {
                assert_eq!(*j, next_box);
                assert_eq!(boxes[*j].index, covered);
                next_box += 1;
            }
        }
    }
    assert_eq!(covered, s.len());
    assert_eq!(next_box, boxes.len());
}

#[test]
fn no_text_item_holds_a_box_anchor() {
    let s = "ab€cd";
    let text: Vec<char> = s.chars().collect();
    let infos = props(s, SCRIPT_LATIN, 0);
    let boxes = vec![boxed(1, 1), boxed(5, 2), boxed(7, 3)];
    let ev = itemize(&text, &infos, &vec![], &vec![style(16)], &boxes);
    for t in text_items(&ev) {
        for b in &boxes {
            assert!(!(t.text_start < b.index && b.index < t.text_end));
        }
    }
}

#[test]
fn no_styles_with_any_style_indices_emits_boxes_only() {
    let text: Vec<char> = "abc".chars().collect();
    let infos = props("abc", SCRIPT_LATIN, 3);
    let ev = itemize(&text, &infos, &vec![], &vec![], &vec![boxed(1, 1), boxed(9, 2)]);
    assert_eq!(ev, vec![ItemizeEvent::InlineBox(0), ItemizeEvent::InlineBox(1)]);
}
