use vstd::prelude::*;

verus! {

/// A writing system, by its numeric code.
///
/// The codes of the three pseudo-scripts are the constants below; every other
/// code names a real script.
#[derive(Clone, Copy, Debug, PartialEq, Eq, Structural)]
pub struct Script {
    pub code: u32,
}

/// Code of the pseudo-script shared by many scripts (punctuation, digits).
pub const SCRIPT_COMMON: u32 = 0;

/// Code of the pseudo-script of combining marks, which take the script of
/// their base.
pub const SCRIPT_INHERITED: u32 = 1;

/// Code of the pseudo-script of unassigned characters.
pub const SCRIPT_UNKNOWN: u32 = 2;

/// Code of the Latin script, used where a text names no real script.
pub const SCRIPT_LATIN: u32 = 3;

pub open spec fn is_real_script(s: Script) -> bool {
    s.code != SCRIPT_COMMON && s.code != SCRIPT_UNKNOWN && s.code != SCRIPT_INHERITED
}

/// Whether `script` is a real script rather than a pseudo-script.
pub fn real_script(script: Script) -> (r: bool)
    ensures
        r == is_real_script(script),
{
    script.code != SCRIPT_COMMON && script.code != SCRIPT_UNKNOWN && script.code
        != SCRIPT_INHERITED
}

/// The resolved attributes of one style that shaping and font matching read.
///
/// Sizes and spacings are in fixed layout units; font stacks, locales and
/// variation or feature sets are interned ids.
#[derive(Clone, Copy, Debug, PartialEq, Eq, Structural)]
pub struct ShapeStyle {
    pub font_size: i32,
    pub font_stack: u32,
    pub font_width: u16,
    pub font_weight: u16,
    pub font_style: u16,
    pub locale: Option<u32>,
    pub font_variations: u32,
    pub font_features: u32,
    pub word_spacing: i32,
    pub letter_spacing: i32,
}

/// Per-character classification produced by text analysis.
#[derive(Clone, Copy, Debug, PartialEq, Eq, Structural)]
pub struct CharProps {
    pub script: Script,
    pub is_emoji: bool,
    pub style_index: u16,
}

/// Non-text content anchored at byte offset `index` of the text.
#[derive(Clone, Copy, Debug, PartialEq, Eq, Structural)]
pub struct InlineBox {
    pub index: usize,
    pub width: i32,
    pub height: i32,
    pub id: u64,
}

} // verus!
