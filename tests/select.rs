use parley_core::select::{
    choose_font, glyph_for_char, glyph_id, stops_search, Attributes, FallbackKey, FamilyQuery,
    FontSelector, MapStatus,
};
use parley_core::style::{Script, ShapeStyle, SCRIPT_LATIN};

const LATIN: Script = Script { code: SCRIPT_LATIN };

fn style(stack: u32, weight: u16) -> ShapeStyle {
    ShapeStyle {
        font_size: 16,
        font_stack: stack,
        font_width: 100,
        font_weight: weight,
        font_style: 0,
        locale: None,
        font_variations: 0,
        font_features: 0,
        word_spacing: 0,
        letter_spacing: 0,
    }
}

use MapStatus::{Complete, Discard, Keep};

#[test]
fn complete_candidate_wins_immediately() {
    assert_eq!(choose_font(&vec![Some(Discard), Some(Keep), Some(Complete), Some(Complete)]), Some(2));
}

#[test]
fn last_keep_wins_without_complete() {
    assert_eq!(choose_font(&vec![Some(Discard), Some(Keep), Some(Discard), Some(Keep), Some(Discard)]), Some(3));
}

#[test]
fn first_discard_is_last_resort() {
    assert_eq!(choose_font(&vec![None, Some(Discard), Some(Discard)]), Some(1));
}

#[test]
fn no_candidates_no_font() {
    assert_eq!(choose_font(&vec![]), None);
}

#[test]
fn unreadable_candidates_still_give_a_font() {
    assert_eq!(choose_font(&vec![None]), Some(0));
    assert_eq!(choose_font(&vec![None, None]), Some(0));
}

#[test]
fn any_readable_candidate_gives_a_font() {
    for statuses in [vec![Some(Discard)], vec![None, Some(Keep)], vec![Some(Complete), None]] {
        assert!(choose_font(&statuses).is_some());
    }
}

#[test]
fn selector_starts_from_item_style() {
    let styles = vec![style(1, 400), style(2, 700)];
    let (sel, families, fallback, attrs) = FontSelector::new(&styles, 1, Script { code: 9 }, Some(4));
    assert_eq!(fallback, FallbackKey { script: Script { code: 9 }, locale: Some(4) });
    assert_eq!(sel.style_index, 1);
    assert_eq!(sel.fonts_id, Some(2));
    assert_eq!(families, FamilyQuery { stack: 2, with_emoji: false });
    assert_eq!(attrs, Attributes { width: 100, weight: 700, style: 0 });
}

#[test]
fn same_style_keeps_scope() {
    let styles = vec![style(1, 400)];
    let (mut sel, _, _, _) = FontSelector::new(&styles, 0, LATIN, None);
    let change = sel.rescope(&styles, 0, false);
    assert_eq!(change.families, None);
    assert_eq!(change.attributes, None);
}

#[test]
fn new_style_narrows_again() {
    let styles = vec![style(1, 400), style(2, 700), style(2, 700)];
    let (mut sel, _, _, _) = FontSelector::new(&styles, 0, LATIN, None);
    let change = sel.rescope(&styles, 1, false);
    assert_eq!(change.families, Some(FamilyQuery { stack: 2, with_emoji: false }));
    assert_eq!(change.attributes, Some(Attributes { width: 100, weight: 700, style: 0 }));
    // same stack and attributes under another style index: nothing to reissue
    let change = sel.rescope(&styles, 2, false);
    assert_eq!(change.families, None);
    assert_eq!(change.attributes, None);
    assert_eq!(sel.style_index, 2);
}

#[test]
fn emoji_cluster_appends_emoji_family() {
    let styles = vec![style(1, 400)];
    let (mut sel, _, _, _) = FontSelector::new(&styles, 0, LATIN, None);
    let change = sel.rescope(&styles, 0, true);
    assert_eq!(change.families, Some(FamilyQuery { stack: 1, with_emoji: true }));
    assert_eq!(sel.fonts_id, None);
    // the next plain cluster narrows back to the stack alone
    let change = sel.rescope(&styles, 0, false);
    assert_eq!(change.families, Some(FamilyQuery { stack: 1, with_emoji: false }));
    assert_eq!(sel.fonts_id, Some(1));
}

#[test]
fn unreadable_font_data_maps_nothing() {
    assert_eq!(glyph_for_char(&[], 0, 'a'), None);
    assert_eq!(glyph_for_char(&[0, 1, 0, 0], 3, 'a'), None);
}

#[test]
fn glyph_ids_fit_sixteen_bits() {
    assert_eq!(glyph_id(Some(42)), 42);
    assert_eq!(glyph_id(Some(65535)), 65535);
    assert_eq!(glyph_id(Some(65536)), 0);
    assert_eq!(glyph_id(None), 0);
}

#[test]
fn only_a_complete_mapping_stops_the_search() {
    assert!(stops_search(Some(Complete)));
    assert!(!stops_search(Some(Keep)));
    assert!(!stops_search(Some(Discard)));
    assert!(!stops_search(None));
}
