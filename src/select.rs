use vstd::prelude::*;

use skrifa::MetadataProvider;

use crate::style::{Script, ShapeStyle};

verus! {

/// How well a candidate font maps the characters of a cluster.
#[derive(Clone, Copy, Debug, PartialEq, Eq, Structural)]
pub enum MapStatus {
    /// The font maps no better than what was seen before.
    Discard,
    /// The font maps part of the cluster, better than any font before it.
    Keep,
    /// The font maps the whole cluster.
    Complete,
}

/// Font matching attributes: width, weight and slant.
#[derive(Clone, Copy, Debug, PartialEq, Eq, Structural)]
pub struct Attributes {
    pub width: u16,
    pub weight: u16,
    pub style: u16,
}

/// A new family list for the font query: the style's font stack, followed by
/// the generic emoji family where `with_emoji` holds.
#[derive(Clone, Copy, Debug, PartialEq, Eq, Structural)]
pub struct FamilyQuery {
    pub stack: u32,
    pub with_emoji: bool,
}

/// The fallback key of the font query: the script and the locale (an
/// interned id) whose fallback fonts follow the named families.
#[derive(Clone, Copy, Debug, PartialEq, Eq, Structural)]
pub struct FallbackKey {
    pub script: Script,
    pub locale: Option<u32>,
}

/// Whether the query stops after a candidate with this status: only a
/// candidate that maps the whole cluster ends the search.
pub fn stops_search(status: Option<MapStatus>) -> (r: bool)
    ensures
        r == (status == Some(MapStatus::Complete)),
{
    match status {
        Some(MapStatus::Complete) => true,
        _ => false,
    }
}

/// What the font query must be told before the next search; `None` leaves
/// that part as it is.
#[derive(Clone, Copy, Debug, PartialEq, Eq, Structural)]
pub struct ScopeChange {
    pub families: Option<FamilyQuery>,
    pub attributes: Option<Attributes>,
}

/// Per-item state of font selection: the style of the last cluster, the
/// font stack the query is narrowed to (`None` after an emoji cluster), and
/// the attributes the query holds.
#[derive(Clone, Copy, Debug, PartialEq, Eq, Structural)]
pub struct FontSelector {
    pub style_index: u16,
    pub fonts_id: Option<u32>,
    pub attrs: Attributes,
}

pub open spec fn attrs_of_style(s: ShapeStyle) -> Attributes {
    Attributes { width: s.font_width, weight: s.font_weight, style: s.font_style }
}

/// Whether a cluster with `style_index` and `is_emoji` asks for a new scope.
pub open spec fn needs_rescope(sel: FontSelector, style_index: u16, is_emoji: bool) -> bool {
    style_index != sel.style_index || is_emoji || sel.fonts_id.is_none()
}

/// The selector and the query change after a cluster, by the scope rule.
pub open spec fn rescoped(
    sel: FontSelector,
    styles: Seq<ShapeStyle>,
    style_index: u16,
    is_emoji: bool,
) -> (FontSelector, ScopeChange) {
    if !needs_rescope(sel, style_index, is_emoji) {
        (sel, ScopeChange { families: None, attributes: None })
    } else {
        let style = styles[style_index as int];
        let attrs = attrs_of_style(style);
        let (fonts_id, families) = if is_emoji {
            (None, Some(FamilyQuery { stack: style.font_stack, with_emoji: true }))
        } else if sel.fonts_id != Some(style.font_stack) {
            (Some(style.font_stack), Some(FamilyQuery { stack: style.font_stack, with_emoji: false }))
        } else {
            (sel.fonts_id, None)
        };
        (
            FontSelector { style_index, fonts_id, attrs },
            ScopeChange {
                families,
                attributes: if sel.attrs != attrs {
                    Some(attrs)
                } else {
                    None
                },
            },
        )
    }
}

/// Index of the first of the first `n` candidates with status `st`.
pub open spec fn first_in(s: Seq<Option<MapStatus>>, n: int, st: MapStatus) -> Option<int>
    decreases n,
{
    if n <= 0 {
        None
    } else {
        match first_in(s, n - 1, st) {
            Some(i) => Some(i),
            None => if s[n - 1] == Some(st) {
                Some(n - 1)
            } else {
                None
            },
        }
    }
}

/// Index of the last of the first `n` candidates with status `st`.
pub open spec fn last_in(s: Seq<Option<MapStatus>>, n: int, st: MapStatus) -> Option<int>
    decreases n,
{
    if n <= 0 {
        None
    } else if s[n - 1] == Some(st) {
        Some(n - 1)
    } else {
        last_in(s, n - 1, st)
    }
}

/// The candidate that selection picks among the first `n`: the first that
/// maps the whole cluster; else the last that kept a better partial mapping;
/// else the first readable one; else, as a last resort, the first candidate.
/// Only an empty list selects nothing.
pub open spec fn chosen_in(s: Seq<Option<MapStatus>>, n: int) -> Option<int> {
    match first_in(s, n, MapStatus::Complete) {
        Some(i) => Some(i),
        None => match last_in(s, n, MapStatus::Keep) {
            Some(i) => Some(i),
            None => match first_in(s, n, MapStatus::Discard) {
                Some(i) => Some(i),
                None => if n > 0 {
                    Some(0)
                } else {
                    None
                },
            },
        },
    }
}

/// The glyph that a font's character map gives a character: `None` where the
/// font data does not parse, `Some(None)` where the character is unmapped.
pub uninterp spec fn font_cmap_lookup(data: Seq<u8>, index: u32, ch: char) -> Option<Option<u32>>;

/// The glyph id that selection uses for `ch` in a font: 0 for an unmapped
/// character or an id beyond 16 bits.
pub open spec fn glyph_id_of(lookup: Option<u32>) -> u16 {
    match lookup {
        Some(g) => if g <= u16::MAX {
            g as u16
        } else {
            0
        },
        None => 0,
    }
}

proof fn lemma_first_in_stays(s: Seq<Option<MapStatus>>, k: int, n: int, st: MapStatus)
    requires
        0 <= k < n <= s.len(),
        first_in(s, k, st).is_none(),
        s[k] == Some(st),
    ensures
        first_in(s, n, st) == Some(k),
    decreases n,
{
    if n > k + 1 {
        lemma_first_in_stays(s, k, n - 1, st);
    }
}

/// Liveness of selection: a non-empty candidate list always yields a font,
/// however well or badly the candidates map the cluster.
pub proof fn lemma_selection_live(s: Seq<Option<MapStatus>>)
    requires
        s.len() > 0,
    ensures
        chosen_in(s, s.len() as int).is_some(),
{
}

impl FontSelector {
    /// The selector for an item whose first character has `style_index`,
    /// with the family list, fallback key and attributes the query starts
    /// from; the fallback key is the item's script and locale.
    pub fn new(styles: &Vec<ShapeStyle>, style_index: u16, script: Script, locale: Option<u32>) -> (r: (
        FontSelector,
        FamilyQuery,
        FallbackKey,
        Attributes,
    ))
        requires
            (style_index as int) < styles.len(),
        ensures
            r.0.style_index == style_index,
            r.0.fonts_id == Some(styles@[style_index as int].font_stack),
            r.0.attrs == attrs_of_style(styles@[style_index as int]),
            r.1 == (FamilyQuery { stack: styles@[style_index as int].font_stack, with_emoji: false }),
            r.2 == (FallbackKey { script, locale }),
            r.3 == attrs_of_style(styles@[style_index as int]),
    {
        let style = &styles[style_index as usize];
        let attrs = Attributes {
            width: style.font_width,
            weight: style.font_weight,
            style: style.font_style,
        };
        (
            FontSelector { style_index, fonts_id: Some(style.font_stack), attrs },
            FamilyQuery { stack: style.font_stack, with_emoji: false },
            FallbackKey { script, locale },
            attrs,
        )
    }

    /// Brings the query scope up to date for a cluster of `style_index`.
    ///
    /// The scope is narrowed again where the style changes, the cluster is
    /// emoji, or the last cluster was; an emoji cluster appends the generic
    /// emoji family to the style's font stack. Unchanged parts of the query
    /// are not reissued.
    pub fn rescope(&mut self, styles: &Vec<ShapeStyle>, style_index: u16, is_emoji: bool) -> (r:
        ScopeChange)
        requires
            (style_index as int) < styles.len(),
        ensures
            (*final(self), r) == rescoped(*old(self), styles@, style_index, is_emoji),
    {
        if style_index != self.style_index || is_emoji || self.fonts_id.is_none() {
            self.style_index = style_index;
            let style = &styles[style_index as usize];
            let mut families: Option<FamilyQuery> = None;
            if is_emoji {
                families = Some(FamilyQuery { stack: style.font_stack, with_emoji: true });
                self.fonts_id = None;
            } else {
                let same = match self.fonts_id {
                    Some(id) => id == style.font_stack,
                    None => false,
                };
                if !same {
                    families = Some(FamilyQuery { stack: style.font_stack, with_emoji: false });
                    self.fonts_id = Some(style.font_stack);
                }
            }
            let attrs = Attributes {
                width: style.font_width,
                weight: style.font_weight,
                style: style.font_style,
            };
            let mut attributes: Option<Attributes> = None;
            if self.attrs != attrs {
                attributes = Some(attrs);
                self.attrs = attrs;
            }
            ScopeChange { families, attributes }
        } else {
            ScopeChange { families: None, attributes: None }
        }
    }
}

/// Picks the font for a cluster from the statuses of the candidates, in the
/// query's order; `None` marks a candidate whose data does not parse.
///
/// The first candidate that maps the whole cluster ends the search; failing
/// that, the last candidate that improved the mapping is taken; failing that,
/// the first readable one; and failing that, the first candidate. Only an
/// empty list gives no font.
pub fn choose_font(statuses: &Vec<Option<MapStatus>>) -> (r: Option<usize>)
    ensures
        statuses.len() > 0 ==> r.is_some(),
        r.is_some() == chosen_in(statuses@, statuses.len() as int).is_some(),
        r matches Some(i) ==> chosen_in(statuses@, statuses.len() as int) == Some(i as int),
{
    let ghost s = statuses@;
    let mut selected: Option<usize> = None;
    let mut k: usize = 0;
    while k < statuses.len()
        invariant
            0 <= k <= statuses.len(),
            s == statuses@,
            first_in(s, k as int, MapStatus::Complete).is_none(),
            selected.is_some() == (match last_in(s, k as int, MapStatus::Keep) {
                Some(i) => Some(i),
                None => first_in(s, k as int, MapStatus::Discard),
            }).is_some(),
            selected matches Some(i) ==> (match last_in(s, k as int, MapStatus::Keep) {
                Some(i) => Some(i),
                None => first_in(s, k as int, MapStatus::Discard),
            }) == Some(i as int),
        decreases statuses.len() - k,
    {
        match statuses[k] {
            Some(MapStatus::Complete) => {
                proof {
                    lemma_first_in_stays(s, k as int, s.len() as int, MapStatus::Complete);
                }
                return Some(k);
            },
            Some(MapStatus::Keep) => {
                selected = Some(k);
            },
            Some(MapStatus::Discard) => {
                if selected.is_none() {
                    selected = Some(k);
                }
            },
            None => {},
        }
        k = k + 1;
    }
    if selected.is_none() && statuses.len() > 0 {
        selected = Some(0);
    }
    selected
}

/// Relies on skrifa's `FontRef::from_index` to read the font at `index` of
/// `data`, and on its `Charmap::map` for the nominal glyph of `ch`.
#[verifier::external_body]
fn cmap_lookup(data: &[u8], index: u32, ch: char) -> (r: Option<Option<u32>>)
    ensures
        r == font_cmap_lookup(data@, index, ch),
{
    match skrifa::FontRef::from_index(data, index) {
        Ok(font) => Some(font.charmap().map(ch).map(|g| g.to_u32())),
        Err(_) => None,
    }
}

/// The glyph id of `ch` in the font at `index` of `data`, or `None` where
/// the font cannot be read. An unmapped character, or a glyph id that does
/// not fit 16 bits, gives 0.
pub fn glyph_for_char(data: &[u8], index: u32, ch: char) -> (r: Option<u16>)
    ensures
        r == (match font_cmap_lookup(data@, index, ch) {
            None => None,
            Some(g) => Some(glyph_id_of(g)),
        }),
{
    match cmap_lookup(data, index, ch) {
        None => None,
        Some(g) => Some(glyph_id(g)),
    }
}

/// The 16-bit glyph id for a character map lookup: the glyph where it is
/// mapped and fits 16 bits, else 0.
pub fn glyph_id(lookup: Option<u32>) -> (r: u16)
    ensures
        r == glyph_id_of(lookup),
{
    match lookup {
        Some(g) => if g <= 0xFFFF {
            g as u16
        } else {
            0
        },
        None => 0,
    }
}

} // verus!
