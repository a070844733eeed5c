//! The panel: its layout, what a point on it hits, and the fields that are
//! edited in it.
//!
//! Both phases share it. Where an element is selected, its properties are
//! listed below the list of elements.

use vstd::prelude::*;

use crate::config;
use crate::config::{save_editor_prefs, DisplayRect, Rect};
use crate::decimal;
use crate::decimal::{decimal, parse_i32, parse_u32};
use crate::editor::common;
use crate::editor::common::{
    EditingTarget, EditorPhase, ElemProp, FieldKind, SpinTarget, LIST_ITEM_H,
    LIST_TOP2, PANEL_W, SPIN_W,
};
use crate::editor::state;
use crate::editor::state::{
    copy_elements, same_elements, DocView, Ed, EditorState, El, ElemExtra, ElemKind, Element,
    EntryView, Ex, Prefs, UNDO_LIMIT,
};
use crate::num;
use crate::num::{clamp_i32, clamp_i64, divide, max_i32, max_i64, wrap_degrees};
use crate::opacity::Opacity;
use crate::text;
use crate::text::{chars_of, owned, string_of, strip_leading_chars, trim_chars, upper_char};

verus! {

/// Height of a row of properties
pub const PROP_ROW_H: i32 = 30;

/// Space above the properties
pub const PROP_TOP_PAD: i32 = 8;

/// Height of the heading of the properties
pub const PROP_SECTION_H: i32 = 22;

/// Height of the row of buttons that add elements
pub const ADD_BTN_H: i32 = 28;

/// Width of the lane of the scroll bar
pub const SB_LANE: i32 = 12;

/// Width of the scroll bar
pub const SB_W: i32 = 7;

/// Width of the label of a list item
pub const IDX_W: i32 = 72;

/// Where the fields of a list item begin
pub const FIELD_BASE_X: i32 = 8 + IDX_W + 10;

/// From one field to the next
pub const FIELD_STRIDE: i32 = 88;

/// Width of a field
pub const FIELD_W: i32 = 80;

/// Width of the label of a field
pub const FIELD_LABEL_W: i32 = 22;

/// Where the value of a field begins
pub const FIELD_VAL_X: i32 = FIELD_LABEL_W + 4;

/// Width of the value of a field, without the arrow buttons
pub const FIELD_VAL_W: i32 = FIELD_W - FIELD_VAL_X - SPIN_W;

/// Width of the label of a property
pub const PROP_LABEL_W: i32 = 64;

// ===== Layout =====

/// The properties of a kind, in the order in which they are listed.
pub open spec fn props_of(kind: ElemKind) -> Seq<ElemProp> {
    match kind {
        ElemKind::Capture => seq![ElemProp::Rotate],
        ElemKind::Frame => seq![
            ElemProp::Rotate,
            ElemProp::BorderColor,
            ElemProp::BorderWidth,
            ElemProp::CornerRadius,
            ElemProp::Opacity,
            ElemProp::ZOrder,
        ],
        ElemKind::Background => seq![
            ElemProp::Rotate,
            ElemProp::BgColor,
            ElemProp::CornerRadius,
            ElemProp::Opacity,
            ElemProp::ZOrder,
        ],
        ElemKind::Png => seq![
            ElemProp::Rotate,
            ElemProp::PngPath,
            ElemProp::Opacity,
            ElemProp::ZOrder,
        ],
        ElemKind::Text => seq![
            ElemProp::Rotate,
            ElemProp::Content,
            ElemProp::FontSize,
            ElemProp::TextColor,
            ElemProp::Opacity,
            ElemProp::ZOrder,
        ],
    }
}

/// The properties of a kind, in the order in which they are listed.
pub fn props_for_kind(kind: ElemKind) -> (r: Vec<ElemProp>)
    ensures
        r@ == props_of(kind),
        1 <= r@.len() <= 6,
{
    let r: Vec<ElemProp> = match kind {
        ElemKind::Capture => vec![ElemProp::Rotate],
        ElemKind::Frame => vec![
            ElemProp::Rotate,
            ElemProp::BorderColor,
            ElemProp::BorderWidth,
            ElemProp::CornerRadius,
            ElemProp::Opacity,
            ElemProp::ZOrder,
        ],
        ElemKind::Background => vec![
            ElemProp::Rotate,
            ElemProp::BgColor,
            ElemProp::CornerRadius,
            ElemProp::Opacity,
            ElemProp::ZOrder,
        ],
        ElemKind::Png => vec![
            ElemProp::Rotate,
            ElemProp::PngPath,
            ElemProp::Opacity,
            ElemProp::ZOrder,
        ],
        ElemKind::Text => vec![
            ElemProp::Rotate,
            ElemProp::Content,
            ElemProp::FontSize,
            ElemProp::TextColor,
            ElemProp::Opacity,
            ElemProp::ZOrder,
        ],
    };
    assert(r@ =~= props_of(kind));
    r
}

/// The element whose properties are listed: the one that was selected last. A
/// capture element has properties only while arranging.
pub open spec fn shown_element(e: Ed) -> Option<usize> {
    if e.doc.selected.len() == 0 {
        None
    } else {
        let idx = e.doc.selected.last();
        if idx < e.doc.elements.len() && (e.doc.elements[idx as int].extra.kind != ElemKind::Capture
            || e.phase == EditorPhase::Arranging) {
            Some(idx)
        } else {
            None
        }
    }
}

/// The height of the properties, heading and all; zero where none are listed.
pub open spec fn props_height(e: Ed) -> int {
    match shown_element(e) {
        Some(idx) => PROP_TOP_PAD + PROP_SECTION_H + props_of(
            e.doc.elements[idx as int].extra.kind,
        ).len() * PROP_ROW_H + 6,
        None => 0,
    }
}

/// The space below the list: the buttons that add elements, and a margin.
pub open spec fn add_row(e: Ed) -> int {
    if e.phase == EditorPhase::Arranging {
        ADD_BTN_H + 12
    } else {
        12
    }
}

/// The height of the panel: as high as its contents, but not beyond the screen,
/// and never without some space for the list.
pub open spec fn panel_height(e: Ed) -> int {
    num::int_max(
        num::int_min(
            LIST_TOP2 + e.doc.elements.len() * LIST_ITEM_H + add_row(e) + props_height(e),
            e.area.screen_h - e.panel.panel_y - 48,
        ),
        LIST_TOP2 + add_row(e) + 68,
    )
}

/// Where the buttons that add elements begin.
pub open spec fn add_top(e: Ed) -> int {
    e.panel.panel_y + panel_height(e) - ADD_BTN_H - 8
}

/// Where the list begins.
pub open spec fn list_top(e: Ed) -> int {
    e.panel.panel_y + LIST_TOP2
}

/// Where the list ends: at the properties, or at the buttons that add elements,
/// or near the end of the panel.
pub open spec fn list_bottom(e: Ed) -> int {
    if props_height(e) > 0 {
        add_top(e) - props_height(e)
    } else if e.phase == EditorPhase::Arranging {
        add_top(e)
    } else {
        add_top(e) + ADD_BTN_H + 4
    }
}

/// How many items of the list are shown at once; at least one.
pub open spec fn visible_count(e: Ed) -> int {
    num::int_max((list_bottom(e) - list_top(e)) / (LIST_ITEM_H as int), 1)
}

/// How far the list can be scrolled.
pub open spec fn max_scroll(e: Ed) -> int {
    num::int_max(e.doc.elements.len() - visible_count(e), 0)
}

/// How far the list is scrolled.
pub open spec fn scroll_of(e: Ed) -> int {
    num::int_clamp(e.panel.list_scroll as int, 0, max_scroll(e))
}

fn shown_index(st: &EditorState) -> (r: Option<usize>)
    ensures
        r == shown_element(st@),
{
    let n: usize = st.doc.selected_indices.len();
    if n == 0 {
        return None;
    }
    let idx: usize = st.doc.selected_indices[n - 1];
    if idx >= st.doc.elements.len() {
        return None;
    }
    let kind: ElemKind = st.doc.elements[idx].extra.kind;
    assert(kind == st@.doc.elements[idx as int].extra.kind);
    if kind == ElemKind::Capture && st.phase != EditorPhase::Arranging {
        return None;
    }
    Some(idx)
}

/// The height of the properties.
pub fn props_section_height(st: &EditorState) -> (r: i32)
    ensures
        r == props_height(st@),
        0 <= r <= 216,
{
    match shown_index(st) {
        Some(idx) => {
            let n: i32 = props_for_kind(st.doc.elements[idx].extra.kind).len() as i32;
            PROP_TOP_PAD + PROP_SECTION_H + n * PROP_ROW_H + 6
        },
        None => 0,
    }
}

/// The rectangle of the panel.
pub fn panel_rect(st: &EditorState) -> (r: (i32, i32, i32, i32))
    requires
        st@.in_range(),
    ensures
        r == (st.panel.panel_x, st.panel.panel_y, PANEL_W, panel_height(st@) as i32),
        r.3 == panel_height(st@),
        0 < r.3,
        st.panel.panel_y + r.3 <= i32::MAX - 0x4000,
{
    let n: i64 = st.doc.elements.len() as i64;
    let row: i32 = if st.phase == EditorPhase::Arranging {
        ADD_BTN_H + 12
    } else {
        12
    };
    let full: i64 = (LIST_TOP2 + row + props_section_height(st)) as i64 + n * LIST_ITEM_H as i64;
    let most: i32 = st.area.screen_h - st.panel.panel_y - 48;
    let shown: i32 = if full <= most as i64 {
        full as i32
    } else {
        most
    };
    let ph: i32 = max_i32(shown, LIST_TOP2 + row + 68);
    (st.panel.panel_x, st.panel.panel_y, PANEL_W, ph)
}

/// The rectangle of the list.
pub fn list_area_rect(st: &EditorState) -> (r: (i32, i32, i32, i32))
    requires
        st@.in_range(),
    ensures
        r.0 == st.panel.panel_x,
        r.1 == list_top(st@),
        r.2 == PANEL_W,
        r.3 == list_bottom(st@) - list_top(st@),
        -0x1000 <= r.3,
        r.1 + r.3 <= i32::MAX - 0x2000,
{
    let (px, py, pw, ph) = panel_rect(st);
    let props_h: i32 = props_section_height(st);
    let top: i32 = py + ph - ADD_BTN_H - 8;
    let bottom: i32 = if props_h > 0 {
        top - props_h
    } else if st.phase == EditorPhase::Arranging {
        top
    } else {
        top + ADD_BTN_H + 4
    };
    (px, py + LIST_TOP2, pw, bottom - (py + LIST_TOP2))
}

/// How many items of the list are shown at once.
pub fn list_visible_count(st: &EditorState) -> (r: i32)
    requires
        st@.in_range(),
    ensures
        r == visible_count(st@),
        1 <= r,
{
    let h: i32 = list_area_rect(st).3;
    if h < 0 {
        1
    } else {
        max_i32(h / LIST_ITEM_H, 1)
    }
}

/// How far the list can be scrolled.
pub fn list_max_scroll(st: &EditorState) -> (r: i32)
    requires
        st@.in_range(),
    ensures
        r == max_scroll(st@),
        0 <= r <= st@.doc.elements.len(),
{
    max_i32(st.doc.elements.len() as i32 - list_visible_count(st), 0)
}

/// How far the list is scrolled.
pub fn list_scroll_clamped(st: &EditorState) -> (r: i32)
    requires
        st@.in_range(),
    ensures
        r == scroll_of(st@),
        0 <= r <= st@.doc.elements.len(),
{
    clamp_i32(st.panel.list_scroll, 0, list_max_scroll(st))
}

/// The thumb of the scroll bar: where it begins below the top of the list, and
/// its length.
pub open spec fn thumb(e: Ed) -> (int, int) {
    let h = list_bottom(e) - list_top(e);
    let n = e.doc.elements.len() as int;
    let len = num::int_max(h * visible_count(e) / n, 24);
    (num::quotient((h - len) * scroll_of(e), max_scroll(e)), len)
}

/// The thumb of the scroll bar, where the list can be scrolled.
pub fn scroll_thumb(st: &EditorState) -> (r: Option<(i32, i32)>)
    requires
        st@.in_range(),
    ensures
        match r {
            Some(t) => max_scroll(st@) > 0 && (t.0 as int, t.1 as int) == thumb(st@)
                && -0x2000 <= t.0 <= num::int_max(list_bottom(st@) - list_top(st@), 0) && 24 <= t.1,
            None => max_scroll(st@) == 0,
        },
{
    let most: i32 = list_max_scroll(st);
    if most <= 0 {
        return None;
    }
    let h: i64 = list_area_rect(st).3 as i64;
    let vis: i64 = list_visible_count(st) as i64;
    let n: i64 = st.doc.elements.len() as i64;
    let scroll: i64 = list_scroll_clamped(st) as i64;
    let ghost hv = h * vis;
    assert(i64::MIN < hv <= i64::MAX) by (nonlinear_arith)
        requires
            hv == h * vis,
            -0x1000 <= h <= i32::MAX,
            1 <= vis <= i32::MAX,
    ;
    let shown: i64 = divide(h * vis, n);
    assert(h * vis / (n as int) <= i32::MAX && (h < 0 ==> h * vis / (n as int) < 0) && (h >= 0 ==> h
        * vis / (n as int) >= 0)) by (nonlinear_arith)
        requires
            1 <= vis < n,
            h <= i32::MAX,
    ;
    let len: i64 = if h < 0 || shown < 24 {
        24
    } else {
        shown
    };
    let track: i64 = h - len;
    assert(-0x2000 <= track) by (nonlinear_arith)
        requires
            1 <= vis < n,
            h >= -0x1000,
            track == h - len,
            len == 24 || (h >= 0 && len == h * vis / (n as int)),
    ;
    assert(i64::MIN < track * scroll <= i64::MAX) by (nonlinear_arith)
        requires
            -0x2000 <= track <= i32::MAX,
            0 <= scroll <= i32::MAX,
    ;
    let off: i64 = divide(track * scroll, most as i64);
    assert(-0x2000 <= off && (off <= 0 || off <= track)) by (nonlinear_arith)
        requires
            off == num::quotient(track * scroll, most as int),
            -0x2000 <= track <= i32::MAX,
            0 <= scroll <= most,
            most > 0,
    ;
    Some((off as i32, len as i32))
}

// ===== Fields =====

/// A coordinate of an element: of what it captures while selecting (zero where
/// it captures nothing), of its place in the overlay while arranging.
pub open spec fn el_coord(el: El, phase: EditorPhase, fk: FieldKind) -> i32 {
    if phase == EditorPhase::Selecting {
        match el.source {
            Some(s) => match fk {
                FieldKind::X => s.x as i32,
                FieldKind::Y => s.y as i32,
                FieldKind::Width => s.width as i32,
                FieldKind::Height => s.height as i32,
            },
            None => 0,
        }
    } else {
        match fk {
            FieldKind::X => el.display.x,
            FieldKind::Y => el.display.y,
            FieldKind::Width => el.display.width,
            FieldKind::Height => el.display.height,
        }
    }
}

/// A coordinate of the element with an index; zero where there is none.
pub open spec fn coord_of(e: Ed, idx: int, fk: FieldKind) -> i32 {
    if idx < e.doc.elements.len() {
        el_coord(e.doc.elements[idx], e.phase, fk)
    } else {
        0
    }
}

/// A coordinate of the element with an index.
pub fn get_field_coord(st: &EditorState, idx: usize, fk: FieldKind) -> (r: i32)
    ensures
        r == coord_of(st@, idx as int, fk),
{
    if idx >= st.doc.elements.len() {
        return 0;
    }
    let e: &Element = &st.doc.elements[idx];
    assert(e@ == st@.doc.elements[idx as int]);
    if st.phase == EditorPhase::Selecting {
        return match e.source {
            Some(s) => match fk {
                FieldKind::X => s.x as i32,
                FieldKind::Y => s.y as i32,
                FieldKind::Width => s.width as i32,
                FieldKind::Height => s.height as i32,
            },
            None => 0,
        };
    }
    match fk {
        FieldKind::X => e.display.x,
        FieldKind::Y => e.display.y,
        FieldKind::Width => e.display.width,
        FieldKind::Height => e.display.height,
    }
}

/// An element with a coordinate set: positions are at least zero, sizes at least
/// ten. What an element captures and where it is shown are set independently.
pub open spec fn el_coord_set(el: El, phase: EditorPhase, fk: FieldKind, val: int) -> El {
    let pos = num::int_max(val, 0);
    let size = num::int_max(val, 10);
    if phase == EditorPhase::Selecting {
        match el.source {
            Some(s) => El {
                source: Some(
                    match fk {
                        FieldKind::X => Rect { x: pos as u32, ..s },
                        FieldKind::Y => Rect { y: pos as u32, ..s },
                        FieldKind::Width => Rect { width: size as u32, ..s },
                        FieldKind::Height => Rect { height: size as u32, ..s },
                    },
                ),
                ..el
            },
            None => el,
        }
    } else {
        El {
            display: match fk {
                FieldKind::X => DisplayRect { x: pos as i32, ..el.display },
                FieldKind::Y => DisplayRect { y: pos as i32, ..el.display },
                FieldKind::Width => DisplayRect { width: size as i32, ..el.display },
                FieldKind::Height => DisplayRect { height: size as i32, ..el.display },
            },
            ..el
        }
    }
}

/// Elements with the one at an index changed; as they are where there is none.
pub open spec fn changed_at(s: Seq<El>, idx: int, el: El) -> Seq<El> {
    if 0 <= idx < s.len() {
        s.update(idx, el)
    } else {
        s
    }
}

pub proof fn lemma_els_update(v: Seq<Element>, i: int, e: Element)
    requires
        0 <= i < v.len(),
    ensures
        state::els(v.update(i, e)) == state::els(v).update(i, e@),
{
    assert(state::els(v.update(i, e)) =~= state::els(v).update(i, e@));
}

fn set_coord(e: &mut Element, phase: EditorPhase, fk: FieldKind, val: i64)
    ensures
        final(e)@ == el_coord_set(old(e)@, phase, fk, val as int),
{
    if phase == EditorPhase::Selecting {
        if let Some(s) = e.source {
            let mut s: Rect = s;
            match fk {
                FieldKind::X => {
                    s.x = max_i64(val, 0) as u32;
                },
                FieldKind::Y => {
                    s.y = max_i64(val, 0) as u32;
                },
                FieldKind::Width => {
                    s.width = max_i64(val, 10) as u32;
                },
                FieldKind::Height => {
                    s.height = max_i64(val, 10) as u32;
                },
            }
            e.source = Some(s);
        }
    } else {
        match fk {
            FieldKind::X => {
                e.display.x = max_i64(val, 0) as i32;
            },
            FieldKind::Y => {
                e.display.y = max_i64(val, 0) as i32;
            },
            FieldKind::Width => {
                e.display.width = max_i64(val, 10) as i32;
            },
            FieldKind::Height => {
                e.display.height = max_i64(val, 10) as i32;
            },
        }
    }
}

/// Sets a coordinate of the element with an index.
fn set_field_coord(elements: &mut Vec<Element>, phase: EditorPhase, idx: usize, fk: FieldKind, val: i64)
    ensures
        state::els(final(elements)@) == changed_at(
            state::els(old(elements)@),
            idx as int,
            el_coord_set(state::els(old(elements)@)[idx as int], phase, fk, val as int),
        ),
        final(elements)@.len() == old(elements)@.len(),
{
    if idx < elements.len() {
        let ghost before = elements@;
        set_coord(&mut elements[idx], phase, fk, val);
        proof {
            lemma_els_update(before, idx as int, elements@[idx as int]);
        }
    }
}

// ===== Hits in the list =====

/// Where a list item begins.
pub open spec fn row_top(e: Ed, i: int) -> int {
    list_top(e) + (i - scroll_of(e)) * LIST_ITEM_H
}

/// Whether the list has room for an item that it comes to.
pub open spec fn row_fits(e: Ed, i: int) -> bool {
    row_top(e, i) + LIST_ITEM_H <= list_bottom(e)
}

/// The part of a field that a point hits: from `from` to `to` behind where the
/// field begins. A text has no width and height.
pub open spec fn column_hit(x: int, px: int, is_text: bool, from: int, to: int) -> Option<FieldKind> {
    let d = x - px - FIELD_BASE_X;
    if from <= d <= to {
        Some(FieldKind::X)
    } else if from <= d - FIELD_STRIDE <= to {
        Some(FieldKind::Y)
    } else if is_text {
        None
    } else if from <= d - 2 * FIELD_STRIDE <= to {
        Some(FieldKind::Width)
    } else if from <= d - 3 * FIELD_STRIDE <= to {
        Some(FieldKind::Height)
    } else {
        None
    }
}

/// The value that a point hits in the list, from an item on.
pub open spec fn value_from(e: Ed, x: int, y: int, i: int) -> Option<(usize, FieldKind)>
    decreases e.doc.elements.len() - i,
{
    if i >= e.doc.elements.len() || !row_fits(e, i) {
        None
    } else {
        let hit = column_hit(
            x,
            e.panel.panel_x as int,
            e.doc.elements[i].extra.kind == ElemKind::Text,
            FIELD_VAL_X as int,
            FIELD_W - SPIN_W,
        );
        if row_top(e, i) <= y <= row_top(e, i) + LIST_ITEM_H && hit.is_some() {
            Some((i as usize, hit.unwrap()))
        } else {
            value_from(e, x, y, i + 1)
        }
    }
}

/// The value that a point hits in the list.
pub open spec fn value_hit(e: Ed, x: int, y: int) -> Option<(usize, FieldKind)> {
    if e.panel.panel_x <= x <= e.panel.panel_x + PANEL_W {
        value_from(e, x, y, scroll_of(e))
    } else {
        None
    }
}

/// Whether a point hits the arrow buttons of an item, and of these the upper one.
pub open spec fn spin_row(e: Ed, y: int, i: int) -> Option<bool> {
    let top = row_top(e, i) + 4;
    let h = LIST_ITEM_H - 8;
    if top <= y <= top + h {
        Some(y <= top + h / 2)
    } else {
        None
    }
}

/// The arrow button that a point hits in the list, from an item on: whose it is,
/// and whether it is the upper one.
pub open spec fn spin_from(e: Ed, x: int, y: int, i: int) -> Option<(usize, FieldKind, bool)>
    decreases e.doc.elements.len() - i,
{
    if i >= e.doc.elements.len() || !row_fits(e, i) {
        None
    } else {
        let hit = column_hit(
            x,
            e.panel.panel_x as int,
            e.doc.elements[i].extra.kind == ElemKind::Text,
            FIELD_W - SPIN_W,
            FIELD_W as int,
        );
        if spin_row(e, y, i).is_some() && hit.is_some() {
            Some((i as usize, hit.unwrap(), spin_row(e, y, i).unwrap()))
        } else {
            spin_from(e, x, y, i + 1)
        }
    }
}

/// The arrow button that a point hits in the list.
pub open spec fn spin_hit(e: Ed, x: int, y: int) -> Option<(usize, FieldKind, bool)> {
    if e.panel.panel_x <= x <= e.panel.panel_x + PANEL_W {
        spin_from(e, x, y, scroll_of(e))
    } else {
        None
    }
}

fn column_at(x: i32, px: i32, is_text: bool, from: i32, to: i32) -> (r: Option<FieldKind>)
    ensures
        r == column_hit(x as int, px as int, is_text, from as int, to as int),
{
    let d: i64 = x as i64 - px as i64 - FIELD_BASE_X as i64;
    let stride: i64 = FIELD_STRIDE as i64;
    let (from, to): (i64, i64) = (from as i64, to as i64);
    if from <= d && d <= to {
        Some(FieldKind::X)
    } else if from <= d - stride && d - stride <= to {
        Some(FieldKind::Y)
    } else if is_text {
        None
    } else if from <= d - 2 * stride && d - 2 * stride <= to {
        Some(FieldKind::Width)
    } else if from <= d - 3 * stride && d - 3 * stride <= to {
        Some(FieldKind::Height)
    } else {
        None
    }
}

/// The value that a point hits in the list.
pub fn hit_test_field(st: &EditorState, x: i32, y: i32) -> (r: Option<(usize, FieldKind)>)
    requires
        st@.in_range(),
    ensures
        r == value_hit(st@, x as int, y as int),
{
    let px: i32 = st.panel.panel_x;
    if x < px || x > px + PANEL_W {
        return None;
    }
    let (_lx, top, _lw, h) = list_area_rect(st);
    let bottom: i32 = top + h;
    let scroll: i32 = list_scroll_clamped(st);
    let mut i: usize = scroll as usize;
    while i < st.doc.elements.len()
        invariant
            st@.in_range(),
            px == st.panel.panel_x,
            top == list_top(st@),
            bottom == list_bottom(st@),
            scroll == scroll_of(st@),
            0 <= scroll <= i <= st@.doc.elements.len(),
            value_from(st@, x as int, y as int, scroll as int) == value_from(
                st@,
                x as int,
                y as int,
                i as int,
            ),
        decreases st.doc.elements.len() - i,
    {
        let far: i64 = top as i64 + (i as i64 - scroll as i64) * LIST_ITEM_H as i64;
        assert(far == row_top(st@, i as int));
        if far + LIST_ITEM_H as i64 > bottom as i64 {
            return None;
        }
        let iy: i32 = far as i32;
        let is_text: bool = st.doc.elements[i].extra.kind == ElemKind::Text;
        assert(is_text == (st@.doc.elements[i as int].extra.kind == ElemKind::Text));
        if iy <= y && y <= iy + LIST_ITEM_H {
            if let Some(fk) = column_at(x, px, is_text, FIELD_VAL_X, FIELD_W - SPIN_W) {
                return Some((i, fk));
            }
        }
        i += 1;
    }
    None
}

/// The arrow button that a point hits in the list: whose it is, and whether it
/// is the upper one.
pub fn hit_test_spin_field(st: &EditorState, x: i32, y: i32) -> (r: Option<(usize, FieldKind, bool)>)
    requires
        st@.in_range(),
    ensures
        r == spin_hit(st@, x as int, y as int),
{
    let px: i32 = st.panel.panel_x;
    if x < px || x > px + PANEL_W {
        return None;
    }
    let (_lx, top, _lw, h) = list_area_rect(st);
    let bottom: i32 = top + h;
    let scroll: i32 = list_scroll_clamped(st);
    let mut i: usize = scroll as usize;
    while i < st.doc.elements.len()
        invariant
            st@.in_range(),
            px == st.panel.panel_x,
            top == list_top(st@),
            bottom == list_bottom(st@),
            scroll == scroll_of(st@),
            0 <= scroll <= i <= st@.doc.elements.len(),
            spin_from(st@, x as int, y as int, scroll as int) == spin_from(
                st@,
                x as int,
                y as int,
                i as int,
            ),
        decreases st.doc.elements.len() - i,
    {
        let far: i64 = top as i64 + (i as i64 - scroll as i64) * LIST_ITEM_H as i64;
        assert(far == row_top(st@, i as int));
        if far + LIST_ITEM_H as i64 > bottom as i64 {
            return None;
        }
        let iy: i32 = far as i32;
        let is_text: bool = st.doc.elements[i].extra.kind == ElemKind::Text;
        assert(is_text == (st@.doc.elements[i as int].extra.kind == ElemKind::Text));
        let fy: i32 = iy + 4;
        let fh: i32 = LIST_ITEM_H - 8;
        if fy <= y && y <= fy + fh {
            if let Some(fk) = column_at(x, px, is_text, FIELD_W - SPIN_W, FIELD_W) {
                return Some((i, fk, y <= fy + fh / 2));
            }
        }
        i += 1;
    }
    None
}

// ===== Hits in the properties =====

/// Where the values of the properties begin and how wide they are.
pub open spec fn prop_value_x(e: Ed) -> int {
    e.panel.panel_x + 8 + PROP_LABEL_W
}

pub open spec fn prop_value_w() -> int {
    PANEL_W - 16 - PROP_LABEL_W - 4
}

/// Where a row of properties begins.
pub open spec fn prop_row_top(e: Ed, row: int) -> int {
    add_top(e) - props_height(e) + PROP_TOP_PAD + PROP_SECTION_H + row * PROP_ROW_H
}

/// Whether a point is in the properties.
pub open spec fn in_props(e: Ed, x: int, y: int) -> bool {
    &&& e.panel.panel_x <= x <= e.panel.panel_x + PANEL_W
    &&& add_top(e) - props_height(e) <= y <= add_top(e)
}

/// The property whose row a point hits, from a row on.
pub open spec fn prop_from(e: Ed, props: Seq<ElemProp>, y: int, row: int) -> Option<ElemProp>
    decreases props.len() - row,
{
    if row >= props.len() {
        None
    } else if prop_row_top(e, row) <= y <= prop_row_top(e, row) + PROP_ROW_H {
        Some(props[row])
    } else {
        prop_from(e, props, y, row + 1)
    }
}

/// The property that a point hits, and the element that it is of.
pub open spec fn prop_hit(e: Ed, x: int, y: int) -> Option<(usize, ElemProp)> {
    match shown_element(e) {
        Some(idx) => if in_props(e, x, y) && prop_value_x(e) <= x <= prop_value_x(e)
            + prop_value_w() {
            match prop_from(e, props_of(e.doc.elements[idx as int].extra.kind), y, 0) {
                Some(p) => Some((idx, p)),
                None => None,
            }
        } else {
            None
        },
        None => None,
    }
}

/// The number whose arrow buttons a point hits, from a row on.
pub open spec fn prop_spin_from(e: Ed, props: Seq<ElemProp>, y: int, row: int) -> Option<
    (ElemProp, bool),
>
    decreases props.len() - row,
{
    let top = prop_row_top(e, row) + 2;
    let h = PROP_ROW_H - 8;
    if row >= props.len() {
        None
    } else if common::numeric(props[row]) && top <= y <= top + h {
        Some((props[row], y <= top + h / 2))
    } else {
        prop_spin_from(e, props, y, row + 1)
    }
}

/// The arrow button that a point hits in the properties: of which element and
/// property, and whether it is the upper one.
pub open spec fn prop_spin_hit(e: Ed, x: int, y: int) -> Option<(usize, ElemProp, bool)> {
    match shown_element(e) {
        Some(idx) => if in_props(e, x, y) && prop_value_x(e) + prop_value_w() - SPIN_W <= x
            <= prop_value_x(e) + prop_value_w() {
            match prop_spin_from(e, props_of(e.doc.elements[idx as int].extra.kind), y, 0) {
                Some((p, up)) => Some((idx, p, up)),
                None => None,
            }
        } else {
            None
        },
        None => None,
    }
}

/// The property that a point hits, and the element that it is of.
pub fn hit_test_prop(st: &EditorState, x: i32, y: i32) -> (r: Option<(usize, ElemProp)>)
    requires
        st@.in_range(),
    ensures
        r == prop_hit(st@, x as int, y as int),
{
    let (px, py, pw, ph) = panel_rect(st);
    if x < px || x > px + pw {
        return None;
    }
    let idx: usize = match shown_index(st) {
        Some(i) => i,
        None => {
            return None;
        },
    };
    let end: i32 = py + ph - ADD_BTN_H - 8;
    let top: i32 = end - props_section_height(st);
    if y < top || y > end {
        return None;
    }
    let value_x: i32 = px + 8 + PROP_LABEL_W;
    let value_w: i32 = pw - 16 - PROP_LABEL_W - 4;
    if x < value_x || x > value_x + value_w {
        return None;
    }
    let props: Vec<ElemProp> = props_for_kind(st.doc.elements[idx].extra.kind);
    for row in 0..props.len()
        invariant
            st@.in_range(),
            props@.len() <= 6,
            top == add_top(st@) - props_height(st@),
            i32::MIN + 0x4000 <= top <= i32::MAX - 0x4000,
            shown_element(st@) == Some(idx),
            props@ == props_of(st@.doc.elements[idx as int].extra.kind),
            in_props(st@, x as int, y as int),
            prop_value_x(st@) <= x <= prop_value_x(st@) + prop_value_w(),
            prop_from(st@, props@, y as int, 0) == prop_from(st@, props@, y as int, row as int),
    {
        let ry: i32 = top + PROP_TOP_PAD + PROP_SECTION_H + row as i32 * PROP_ROW_H;
        assert(ry == prop_row_top(st@, row as int));
        if y >= ry && y <= ry + PROP_ROW_H {
            return Some((idx, props[row]));
        }
    }
    None
}

/// The arrow button that a point hits in the properties: of which element and
/// property, and whether it is the upper one.
pub fn hit_test_spin_prop(st: &EditorState, x: i32, y: i32) -> (r: Option<(usize, ElemProp, bool)>)
    requires
        st@.in_range(),
    ensures
        r == prop_spin_hit(st@, x as int, y as int),
{
    let (px, py, pw, ph) = panel_rect(st);
    if x < px || x > px + pw {
        return None;
    }
    let idx: usize = match shown_index(st) {
        Some(i) => i,
        None => {
            return None;
        },
    };
    let end: i32 = py + ph - ADD_BTN_H - 8;
    let top: i32 = end - props_section_height(st);
    if y < top || y > end {
        return None;
    }
    let value_x: i32 = px + 8 + PROP_LABEL_W;
    let value_w: i32 = pw - 16 - PROP_LABEL_W - 4;
    if x < value_x + value_w - SPIN_W || x > value_x + value_w {
        return None;
    }
    let props: Vec<ElemProp> = props_for_kind(st.doc.elements[idx].extra.kind);
    for row in 0..props.len()
        invariant
            st@.in_range(),
            props@.len() <= 6,
            top == add_top(st@) - props_height(st@),
            i32::MIN + 0x4000 <= top <= i32::MAX - 0x4000,
            shown_element(st@) == Some(idx),
            props@ == props_of(st@.doc.elements[idx as int].extra.kind),
            in_props(st@, x as int, y as int),
            prop_value_x(st@) + prop_value_w() - SPIN_W <= x <= prop_value_x(st@) + prop_value_w(),
            prop_spin_from(st@, props@, y as int, 0) == prop_spin_from(
                st@,
                props@,
                y as int,
                row as int,
            ),
    {
        let ry: i32 = top + PROP_TOP_PAD + PROP_SECTION_H + row as i32 * PROP_ROW_H;
        assert(ry == prop_row_top(st@, row as int));
        let box_y: i32 = ry + 2;
        let box_h: i32 = PROP_ROW_H - 8;
        if props[row].is_numeric() && y >= box_y && y <= box_y + box_h {
            return Some((idx, props[row], y <= box_y + box_h / 2));
        }
    }
    None
}

/// The number that the mouse wheel steps at a point.
pub open spec fn wheel_target(e: Ed, x: int, y: int) -> Option<SpinTarget> {
    match value_hit(e, x, y) {
        Some((i, fk)) => Some(SpinTarget::RegionField(i, fk)),
        None => match spin_hit(e, x, y) {
            Some((i, fk, up)) => Some(SpinTarget::RegionField(i, fk)),
            None => match prop_hit(e, x, y) {
                Some((i, p)) => if common::numeric(p) {
                    Some(SpinTarget::ElemProp(i, p))
                } else {
                    wheel_spin_target(e, x, y)
                },
                None => wheel_spin_target(e, x, y),
            },
        },
    }
}

/// The number whose arrow buttons are at a point in the properties.
pub open spec fn wheel_spin_target(e: Ed, x: int, y: int) -> Option<SpinTarget> {
    match prop_spin_hit(e, x, y) {
        Some((i, p, up)) => Some(SpinTarget::ElemProp(i, p)),
        None => None,
    }
}

/// The number that the mouse wheel steps at a point.
pub fn spin_target_at(st: &EditorState, x: i32, y: i32) -> (r: Option<SpinTarget>)
    requires
        st@.in_range(),
    ensures
        r == wheel_target(st@, x as int, y as int),
{
    if let Some((i, fk)) = hit_test_field(st, x, y) {
        return Some(SpinTarget::RegionField(i, fk));
    }
    if let Some((i, fk, _up)) = hit_test_spin_field(st, x, y) {
        return Some(SpinTarget::RegionField(i, fk));
    }
    if let Some((i, prop)) = hit_test_prop(st, x, y) {
        if prop.is_numeric() {
            return Some(SpinTarget::ElemProp(i, prop));
        }
    }
    if let Some((i, prop, _up)) = hit_test_spin_prop(st, x, y) {
        return Some(SpinTarget::ElemProp(i, prop));
    }
    None
}

// ===== Adding elements =====

/// Buttons that add elements.
#[derive(Debug, Clone, Copy, PartialEq, Eq, Structural)]
pub enum AddKind {
    Frame,
    Background,
    Png,
    Text,
}

/// The kind of element that a button adds.
pub open spec fn kind_added(k: AddKind) -> ElemKind {
    match k {
        AddKind::Frame => ElemKind::Frame,
        AddKind::Background => ElemKind::Background,
        AddKind::Png => ElemKind::Png,
        AddKind::Text => ElemKind::Text,
    }
}

/// The space between the buttons that add elements, and their width: four share
/// the width of the panel.
pub const ADD_GAP: i32 = 4;

pub const ADD_W: i32 = 108;

/// The button for adding an element that a point hits.
pub open spec fn add_hit(e: Ed, x: int, y: int) -> Option<AddKind> {
    let top = e.panel.panel_y + panel_height(e) - ADD_BTN_H - 4;
    let d = x - e.panel.panel_x - 8;
    if y < top || y > top + 22 {
        None
    } else if 0 <= d <= ADD_W {
        Some(AddKind::Frame)
    } else if 0 <= d - (ADD_W + ADD_GAP) <= ADD_W {
        Some(AddKind::Background)
    } else if 0 <= d - 2 * (ADD_W + ADD_GAP) <= ADD_W {
        Some(AddKind::Png)
    } else if 0 <= d - 3 * (ADD_W + ADD_GAP) <= ADD_W {
        Some(AddKind::Text)
    } else {
        None
    }
}

/// The button for adding an element that a point hits.
pub fn add_button_hit(st: &EditorState, x: i32, y: i32) -> (r: Option<AddKind>)
    requires
        st@.in_range(),
    ensures
        r == add_hit(st@, x as int, y as int),
{
    let (px, py, pw, ph) = panel_rect(st);
    let top: i32 = py + ph - ADD_BTN_H - 4;
    if y < top || y > top + 22 {
        return None;
    }
    let w: i32 = (pw - 16 - ADD_GAP * 3) / 4;
    let kinds: [AddKind; 4] = [AddKind::Frame, AddKind::Background, AddKind::Png, AddKind::Text];
    let step: i32 = w + ADD_GAP;
    let (w, step): (i64, i64) = (w as i64, step as i64);
    let d: i64 = x as i64 - px as i64 - 8;
    if 0 <= d && d <= w {
        Some(kinds[0])
    } else if 0 <= d - step && d - step <= w {
        Some(kinds[1])
    } else if 0 <= d - 2 * step && d - 2 * step <= w {
        Some(kinds[2])
    } else if 0 <= d - 3 * step && d - 3 * step <= w {
        Some(kinds[3])
    } else {
        None
    }
}

/// Where a new element is put: beside the panel, on the side where there is more
/// room, below the element before it, and inside the overlay.
pub open spec fn new_pos(e: Ed, w: int, h: int) -> (int, int) {
    let screen_x = if e.panel.panel_x + PANEL_W / 2 > (e.area.screen_w as int) / 2 {
        num::int_max(e.panel.panel_x - w - 10, 4)
    } else {
        e.panel.panel_x + PANEL_W + 10
    };
    let base = num::int_max(e.panel.panel_y + LIST_TOP2 - e.area.overlay_y, 0);
    let els = e.doc.elements;
    let below = if els.len() > 0 {
        els.last().display.y + els.last().display.height + 10
    } else {
        base
    };
    (
        num::int_clamp(screen_x - e.area.overlay_x, 0, num::int_max(e.area.overlay_w - w, 0)),
        num::int_clamp(num::int_max(below, base), 0, num::int_max(e.area.overlay_h - h, 0)),
    )
}

fn next_element_pos(st: &EditorState, w: i32, h: i32) -> (r: (i32, i32))
    requires
        st@.in_range(),
    ensures
        r.0 == new_pos(st@, w as int, h as int).0 as i32,
        r.1 == new_pos(st@, w as int, h as int).1 as i32,
{
    let (w, h): (i64, i64) = (w as i64, h as i64);
    let panel_x: i64 = st.panel.panel_x as i64;
    let screen_x: i64 = if panel_x + PANEL_W as i64 / 2 > st.area.screen_w as i64 / 2 {
        max_i64(panel_x - w - 10, 4)
    } else {
        panel_x + PANEL_W as i64 + 10
    };
    let x: i64 = clamp_i64(
        screen_x - st.area.overlay_x as i64,
        0,
        max_i64(st.area.overlay_w as i64 - w, 0),
    );
    let base: i64 = max_i64((st.panel.panel_y + LIST_TOP2) as i64 - st.area.overlay_y as i64, 0);
    let n: usize = st.doc.elements.len();
    let below: i64 = if n > 0 {
        let d = &st.doc.elements[n - 1].display;
        assert(st@.doc.elements[n - 1].display == *d);
        d.y as i64 + d.height as i64 + 10
    } else {
        base
    };
    let y: i64 = clamp_i64(max_i64(below, base), 0, max_i64(st.area.overlay_h as i64 - h, 0));
    (x as i32, y as i32)
}

/// A new element of a kind. Pictures and texts have no size of their own. It
/// shows the global opacity, which is not saved with it.
pub open spec fn new_element(e: Ed, kind: ElemKind) -> El {
    let (x, y) = new_pos(e, 40, 20);
    let sized = kind != ElemKind::Png && kind != ElemKind::Text;
    El {
        source: None,
        display: DisplayRect {
            x: x as i32,
            y: y as i32,
            width: if sized {
                40
            } else {
                0
            },
            height: if sized {
                20
            } else {
                0
            },
            z_order: 0,
            opacity: None,
            rotate: 0,
        },
        extra: Ex { opacity: e.area.global_opacity, ..state::new_ui_ex(kind) },
    }
}

/// The state with a new element; adding it is a step that can be undone.
pub open spec fn element_added(e: Ed, kind: ElemKind) -> Ed {
    Ed {
        doc: DocView {
            elements: e.doc.elements.push(new_element(e, kind)),
            ..state::undo_pushed(e.doc)
        },
        ..e
    }
}

/// Adds a new element of a kind.
pub fn add_ui_element(st: &mut EditorState, kind: ElemKind)
    requires
        old(st)@.in_range(),
        old(st)@.doc.undo.len() <= UNDO_LIMIT,
    ensures
        final(st)@ == element_added(old(st)@, kind),
        final(st).doc.elements@.len() == old(st).doc.elements@.len() + 1,
        forall|i: int|
            0 <= i < old(st).doc.elements@.len() ==> final(st).doc.elements@[i]
                == old(st).doc.elements@[i],
{
    let (x, y) = next_element_pos(st, 40, 20);
    st.doc.push_undo();
    let sized: bool = kind != ElemKind::Png && kind != ElemKind::Text;
    let width: i32 = if sized {
        40
    } else {
        0
    };
    let height: i32 = if sized {
        20
    } else {
        0
    };
    let mut extra: ElemExtra = ElemExtra::new_ui(kind);
    extra.opacity = st.area.global_opacity;
    let display: DisplayRect = DisplayRect {
        x,
        y,
        width,
        height,
        z_order: 0,
        opacity: None,
        rotate: 0,
    };
    let e: Element = Element::new_ui(display, extra);
    let ghost before = state::els(st.doc.elements@);
    st.doc.elements.push(e);
    assert(state::els(st.doc.elements@) =~= before.push(e@));
}

// ===== Properties =====

/// The text of a property. `opacity` is the text of the opacity.
pub open spec fn prop_text(el: El, prop: ElemProp, opacity: Seq<char>) -> Seq<char> {
    match prop {
        ElemProp::Opacity => opacity,
        ElemProp::ZOrder => decimal::dec_int(el.extra.z_order as int),
        ElemProp::Rotate => decimal::dec_int(el.display.rotate as int % 360),
        ElemProp::BorderColor => el.extra.border_color,
        ElemProp::BorderWidth => decimal::dec_int(el.extra.border_width as int),
        ElemProp::CornerRadius => decimal::dec_int(el.extra.corner_radius as int),
        ElemProp::BgColor => el.extra.color,
        ElemProp::Content => el.extra.content,
        ElemProp::FontSize => decimal::dec_int(el.extra.font_size as int),
        ElemProp::TextColor => el.extra.text_color,
        ElemProp::PngPath => el.extra.png_path,
    }
}

/// The text of a property. `opacity` is the text of the opacity.
pub fn read_prop(e: &Element, prop: ElemProp, opacity: &str) -> (r: String)
    ensures
        r@ == prop_text(e@, prop, opacity@),
{
    match prop {
        ElemProp::Opacity => owned(opacity),
        ElemProp::ZOrder => decimal(e.extra.z_order as i64),
        ElemProp::Rotate => decimal(wrap_degrees(e.display.rotate as i64) as i64),
        ElemProp::BorderColor => e.extra.border_color.clone(),
        ElemProp::BorderWidth => decimal(e.extra.border_width as i64),
        ElemProp::CornerRadius => decimal(e.extra.corner_radius as i64),
        ElemProp::BgColor => e.extra.color.clone(),
        ElemProp::Content => e.extra.content.clone(),
        ElemProp::FontSize => decimal(e.extra.font_size as i64),
        ElemProp::TextColor => e.extra.text_color.clone(),
        ElemProp::PngPath => e.extra.png_path.clone(),
    }
}

/// Whether a character is a hexadecimal digit.
pub open spec fn is_hex(c: char) -> bool {
    ('0' <= c && c <= '9') || ('a' <= c && c <= 'f') || ('A' <= c && c <= 'F')
}

/// Whether a text is six hexadecimal digits.
pub open spec fn six_hex(s: Seq<char>) -> bool {
    s.len() == 6 && forall|i: int| 0 <= i < s.len() ==> is_hex(#[trigger] s[i])
}

/// A text in upper case.
pub open spec fn uppered(s: Seq<char>) -> Seq<char> {
    s.map_values(|c: char| text::upper(c))
}

/// A color as it is kept: "#RRGGBB" in upper case where the text is six
/// hexadecimal digits behind any number of number signs, nothing where it is
/// blank, else the text itself.
pub open spec fn normalized(s: Seq<char>) -> Seq<char> {
    let t = text::trim(s);
    let d = text::strip_leading(t, '#');
    if t.len() == 0 {
        Seq::empty()
    } else if six_hex(d) {
        seq!['#'] + uppered(d)
    } else {
        s
    }
}

fn all_hex(v: &Vec<char>) -> (r: bool)
    ensures
        r == forall|i: int| 0 <= i < v@.len() ==> is_hex(#[trigger] v@[i]),
{
    for i in 0..v.len()
        invariant
            forall|j: int| 0 <= j < i ==> is_hex(#[trigger] v@[j]),
    {
        let c: char = v[i];
        if !(('0' <= c && c <= '9') || ('a' <= c && c <= 'f') || ('A' <= c && c <= 'F')) {
            assert(!is_hex(v@[i as int]));
            return false;
        }
    }
    true
}

/// A color as it is kept.
pub fn normalize_color(s: &str) -> (r: String)
    ensures
        r@ == normalized(s@),
{
    let all: Vec<char> = chars_of(s);
    let t: Vec<char> = trim_chars(&all);
    if t.len() == 0 {
        let r: String = owned("");
        proof {
            reveal_strlit("");
            assert(r@ =~= Seq::empty());
        }
        return r;
    }
    let d: Vec<char> = strip_leading_chars(&t, '#');
    if d.len() == 6 && all_hex(&d) {
        let mut r: Vec<char> = Vec::new();
        r.push('#');
        for i in 0..d.len()
            invariant
                r@ == seq!['#'] + uppered(d@.take(i as int)),
        {
            r.push(upper_char(d[i]));
            assert(r@ =~= seq!['#'] + uppered(d@.take(i + 1)));
        }
        assert(d@.take(6) =~= d@);
        string_of(&r)
    } else {
        owned(s)
    }
}

/// An element with a property set from a text. `parsed` is the opacity that the
/// text writes, if it writes one. A number that the text does not write leaves
/// the property as it is.
pub open spec fn prop_applied(el: El, prop: ElemProp, s: Seq<char>, parsed: Option<Opacity>) -> El {
    let x = el.extra;
    match prop {
        ElemProp::Opacity => {
            let y = match parsed {
                Some(v) => Ex { opacity: v.clamped(), opacity_explicit: true, ..x },
                None => x,
            };
            El {
                extra: y,
                display: DisplayRect { opacity: Some(y.opacity), ..el.display },
                ..el
            }
        },
        ElemProp::ZOrder => match decimal::read_i32(s) {
            Some(v) => El { extra: Ex { z_order: v, ..x }, ..el },
            None => el,
        },
        ElemProp::Rotate => match decimal::read_i32(s) {
            Some(v) => El {
                display: DisplayRect { rotate: (v as int % 360) as i32, ..el.display },
                ..el
            },
            None => el,
        },
        ElemProp::BorderColor => El { extra: Ex { border_color: normalized(s), ..x }, ..el },
        ElemProp::BorderWidth => match decimal::read_u32(s) {
            Some(v) => El {
                extra: Ex { border_width: num::int_min(v as int, 50) as u32, ..x },
                ..el
            },
            None => el,
        },
        ElemProp::CornerRadius => match decimal::read_u32(s) {
            Some(v) => El {
                extra: Ex { corner_radius: num::int_min(v as int, 200) as u32, ..x },
                ..el
            },
            None => el,
        },
        ElemProp::BgColor => El { extra: Ex { color: normalized(s), ..x }, ..el },
        ElemProp::Content => El { extra: Ex { content: s, ..x }, ..el },
        ElemProp::FontSize => match decimal::read_u32(s) {
            Some(v) => El { extra: Ex { font_size: v, ..x }, ..el },
            None => el,
        },
        ElemProp::TextColor => El { extra: Ex { text_color: normalized(s), ..x }, ..el },
        ElemProp::PngPath => El { extra: Ex { png_path: s, ..x }, ..el },
    }
}

fn set_prop(e: &mut Element, prop: ElemProp, s: &str, parsed: Option<Opacity>)
    ensures
        final(e)@ == prop_applied(old(e)@, prop, s@, parsed),
{
    match prop {
        ElemProp::Opacity => {
            if let Some(v) = parsed {
                e.extra.opacity = v.clamp();
                e.extra.opacity_explicit = true;
            }
            e.display.opacity = Some(e.extra.opacity);
        },
        ElemProp::ZOrder => {
            if let Some(v) = parse_i32(s) {
                e.extra.z_order = v;
            }
        },
        ElemProp::Rotate => {
            if let Some(v) = parse_i32(s) {
                e.display.rotate = wrap_degrees(v as i64);
            }
        },
        ElemProp::BorderColor => {
            e.extra.border_color = normalize_color(s);
        },
        ElemProp::BorderWidth => {
            if let Some(v) = parse_u32(s) {
                e.extra.border_width = if v < 50 {
                    v
                } else {
                    50
                };
            }
        },
        ElemProp::CornerRadius => {
            if let Some(v) = parse_u32(s) {
                e.extra.corner_radius = if v < 200 {
                    v
                } else {
                    200
                };
            }
        },
        ElemProp::BgColor => {
            e.extra.color = normalize_color(s);
        },
        ElemProp::Content => {
            e.extra.content = owned(s);
        },
        ElemProp::FontSize => {
            if let Some(v) = parse_u32(s) {
                e.extra.font_size = v;
            }
        },
        ElemProp::TextColor => {
            e.extra.text_color = normalize_color(s);
        },
        ElemProp::PngPath => {
            e.extra.png_path = owned(s);
        },
    }
}

/// Sets a property of the element with an index from a text.
fn apply_prop(
    elements: &mut Vec<Element>,
    idx: usize,
    prop: ElemProp,
    s: &str,
    parsed: Option<Opacity>,
)
    ensures
        state::els(final(elements)@) == changed_at(
            state::els(old(elements)@),
            idx as int,
            prop_applied(state::els(old(elements)@)[idx as int], prop, s@, parsed),
        ),
        final(elements)@.len() == old(elements)@.len(),
{
    if idx < elements.len() {
        let ghost before = elements@;
        set_prop(&mut elements[idx], prop, s, parsed);
        proof {
            lemma_els_update(before, idx as int, elements@[idx as int]);
        }
    }
}

// ===== Typing into fields =====

/// The state in which a coordinate is typed in; the text is the current one.
pub open spec fn field_started(e: Ed, idx: usize, fk: FieldKind) -> Ed {
    Ed {
        entry: EntryView {
            target: EditingTarget::RegionField(idx, fk),
            text: decimal::dec_int(coord_of(e, idx as int, fk) as int),
            filename_focused: false,
            ..e.entry
        },
        ..e
    }
}

/// The state in which a property is typed in; the text is the current one.
pub open spec fn prop_started(e: Ed, idx: usize, prop: ElemProp, opacity: Seq<char>) -> Ed {
    Ed {
        entry: EntryView {
            target: EditingTarget::ElemField(idx, prop),
            text: if idx < e.doc.elements.len() {
                prop_text(e.doc.elements[idx as int], prop, opacity)
            } else {
                Seq::empty()
            },
            filename_focused: false,
            ..e.entry
        },
        ..e
    }
}

/// Begins to type in a coordinate.
pub fn start_editing_field(st: &mut EditorState, idx: usize, fk: FieldKind)
    ensures
        final(st)@ == field_started(old(st)@, idx, fk),
{
    let val: i32 = get_field_coord(st, idx, fk);
    st.entry.editing_target = EditingTarget::RegionField(idx, fk);
    st.entry.editing_text = decimal(val as i64);
    st.entry.filename_focused = false;
}

/// Begins to type in a property. `opacity` is the text of the element's opacity.
pub fn start_editing_prop(st: &mut EditorState, idx: usize, prop: ElemProp, opacity: &str)
    ensures
        final(st)@ == prop_started(old(st)@, idx, prop, opacity@),
{
    let val: String = if idx < st.doc.elements.len() {
        assert(st.doc.elements@[idx as int]@ == st@.doc.elements[idx as int]);
        read_prop(&st.doc.elements[idx], prop, opacity)
    } else {
        owned("")
    };
    proof {
        reveal_strlit("");
        if idx >= st.doc.elements@.len() {
            assert(val@ =~= Seq::empty());
        }
    }
    st.entry.editing_target = EditingTarget::ElemField(idx, prop);
    st.entry.editing_text = val;
    st.entry.filename_focused = false;
}

/// Nothing is typed in any more.
pub open spec fn typing_ended(e: Ed) -> Ed {
    Ed {
        entry: EntryView { target: EditingTarget::Nothing, text: Seq::empty(), ..e.entry },
        ..e
    }
}

/// Ends typing without using what was typed.
pub fn end_typing(st: &mut EditorState)
    ensures
        final(st)@ == typing_ended(old(st)@),
{
    st.entry.editing_target = EditingTarget::Nothing;
    st.entry.editing_text = owned("");
    proof {
        reveal_strlit("");
        assert(st.entry.editing_text@ =~= Seq::empty());
    }
}

/// The state with its preferences set, which then wait to be taken over.
pub open spec fn prefs_set(e: Ed, p: Prefs) -> Ed {
    Ed {
        prefs: p,
        staged_prefs: config::prefs_saved(
            e.staged_prefs,
            (p.snap_distance, p.snap_gap, p.nudge_step),
        ),
        ..e
    }
}

/// The state with its elements replaced.
pub open spec fn elements_set(e: Ed, s: Seq<El>) -> Ed {
    Ed { doc: DocView { elements: s, ..e.doc }, ..e }
}

/// The state after a change of the elements: where they are no longer equal,
/// the change is a step that can be undone.
pub open spec fn step_made(before: Ed, after: Ed) -> Ed {
    if state::same_els(after.doc.elements, before.doc.elements) {
        after
    } else {
        Ed { doc: state::snapshot_pushed(after.doc, before.doc.elements), ..after }
    }
}

/// The state with what was typed used, before typing ends. A coordinate below
/// zero counts as zero. A number that was not typed changes nothing.
pub open spec fn typed_used(e: Ed, parsed: Option<Opacity>) -> Ed {
    let s = e.entry.text;
    let v = decimal::read_i32(s);
    match e.entry.target {
        EditingTarget::RegionField(idx, fk) => match v {
            Some(n) => elements_set(
                e,
                changed_at(
                    e.doc.elements,
                    idx as int,
                    el_coord_set(
                        e.doc.elements[idx as int],
                        e.phase,
                        fk,
                        num::int_max(n as int, 0),
                    ),
                ),
            ),
            None => e,
        },
        EditingTarget::ElemField(idx, prop) => elements_set(
            e,
            changed_at(
                e.doc.elements,
                idx as int,
                prop_applied(e.doc.elements[idx as int], prop, s, parsed),
            ),
        ),
        EditingTarget::SnapDistance => match v {
            Some(n) => prefs_set(
                e,
                Prefs { snap_distance: num::int_clamp(n as int, 1, 100) as i32, ..e.prefs },
            ),
            None => e,
        },
        EditingTarget::SnapGap => match v {
            Some(n) => prefs_set(
                e,
                Prefs { snap_gap: num::int_clamp(n as int, 0, 50) as i32, ..e.prefs },
            ),
            None => e,
        },
        EditingTarget::NudgeStep => match v {
            Some(n) => prefs_set(
                e,
                Prefs { nudge_step: num::int_clamp(n as int, 1, 100) as i32, ..e.prefs },
            ),
            None => e,
        },
        EditingTarget::Nothing => e,
    }
}

/// The state after what was typed was used.
pub open spec fn committed(e: Ed, parsed: Option<Opacity>) -> Ed {
    typing_ended(step_made(e, typed_used(e, parsed)))
}

fn stage_prefs(st: &mut EditorState)
    ensures
        final(st)@ == prefs_set(old(st)@, old(st)@.prefs),
        *final(st) == (EditorState { staged_prefs: final(st).staged_prefs, ..*old(st) }),
{
    save_editor_prefs(
        &mut st.staged_prefs,
        st.prefs.snap_distance,
        st.prefs.snap_gap,
        st.prefs.nudge_step,
    );
}

fn make_step(st: &mut EditorState, before: Vec<Element>, Ghost(was): Ghost<Ed>)
    requires
        was.doc.elements == state::els(before@),
        old(st)@.doc.undo.len() <= UNDO_LIMIT,
    ensures
        final(st)@ == step_made(was, old(st)@),
{
    if !same_elements(&st.doc.elements, &before) {
        st.doc.push_snapshot(before);
    }
}

fn use_typed_pref(st: &mut EditorState)
    requires
        match old(st)@.entry.target {
            EditingTarget::SnapDistance | EditingTarget::SnapGap | EditingTarget::NudgeStep => true,
            _ => false,
        },
    ensures
        forall|parsed: Option<Opacity>| final(st)@ == #[trigger] typed_used(old(st)@, parsed),
{
    if let Some(val) = parse_i32(st.entry.editing_text.as_str()) {
        match st.entry.editing_target {
            EditingTarget::SnapDistance => {
                st.prefs.snap_distance = clamp_i32(val, 1, 100);
            },
            EditingTarget::SnapGap => {
                st.prefs.snap_gap = clamp_i32(val, 0, 50);
            },
            _ => {
                st.prefs.nudge_step = clamp_i32(val, 1, 100);
            },
        }
        stage_prefs(st);
    }
}

fn use_typed(st: &mut EditorState, parsed: Option<Opacity>)
    ensures
        final(st)@ == typed_used(old(st)@, parsed),
{
    match st.entry.editing_target {
        EditingTarget::RegionField(idx, fk) => {
            if let Some(val) = parse_i32(st.entry.editing_text.as_str()) {
                set_field_coord(&mut st.doc.elements, st.phase, idx, fk, max_i32(val, 0) as i64);
            }
        },
        EditingTarget::ElemField(idx, prop) => {
            apply_prop(
                &mut st.doc.elements,
                idx,
                prop,
                st.entry.editing_text.as_str(),
                parsed,
            );
        },
        EditingTarget::Nothing => {},
        _ => {
            use_typed_pref(st);
        },
    }
}

/// Uses what was typed, and ends typing. `parsed` is the opacity that the text
/// writes, if it writes one.
pub fn commit_editing(st: &mut EditorState, parsed: Option<Opacity>)
    requires
        old(st)@.doc.undo.len() <= UNDO_LIMIT,
    ensures
        final(st)@ == committed(old(st)@, parsed),
{
    let ghost was = st@;
    let before: Vec<Element> = copy_elements(&st.doc.elements);
    use_typed(st, parsed);
    make_step(st, before, Ghost(was));
    end_typing(st);
}

/// The state with a property shown as it is being typed in.
pub open spec fn live_synced(e: Ed, parsed: Option<Opacity>) -> Ed {
    match e.entry.target {
        EditingTarget::ElemField(idx, prop) => elements_set(
            e,
            changed_at(
                e.doc.elements,
                idx as int,
                prop_applied(e.doc.elements[idx as int], prop, e.entry.text, parsed),
            ),
        ),
        _ => e,
    }
}

/// Shows a property as it is being typed in.
pub fn sync_live_edit(st: &mut EditorState, parsed: Option<Opacity>)
    ensures
        final(st)@ == live_synced(old(st)@, parsed),
{
    match st.entry.editing_target {
        EditingTarget::ElemField(idx, prop) => {
            apply_prop(
                &mut st.doc.elements,
                idx,
                prop,
                st.entry.editing_text.as_str(),
                parsed,
            );
        },
        _ => {},
    }
}

// ===== Stepping numbers =====

/// An element with a number stepped. `stepped` is the opacity a step on.
pub open spec fn prop_spun(el: El, prop: ElemProp, dir: int, stepped: Opacity) -> El {
    let x = el.extra;
    match prop {
        ElemProp::Opacity => El {
            extra: Ex { opacity: stepped.clamped(), opacity_explicit: true, ..x },
            display: DisplayRect { opacity: Some(stepped.clamped()), ..el.display },
            ..el
        },
        ElemProp::ZOrder => El { extra: Ex { z_order: (x.z_order + dir) as i32, ..x }, ..el },
        ElemProp::Rotate => El {
            display: DisplayRect {
                rotate: ((el.display.rotate + dir) % 360) as i32,
                ..el.display
            },
            ..el
        },
        ElemProp::BorderWidth => El {
            extra: Ex { border_width: num::int_max(x.border_width as i32 + dir, 0) as u32, ..x },
            ..el
        },
        ElemProp::CornerRadius => El {
            extra: Ex { corner_radius: num::int_max(x.corner_radius as i32 + dir, 0) as u32, ..x },
            ..el
        },
        ElemProp::FontSize => El {
            extra: Ex { font_size: num::int_max(x.font_size as i32 + dir, 1) as u32, ..x },
            ..el
        },
        _ => el,
    }
}

/// The state with a number stepped, before the step is made one that can be
/// undone. Coordinates move by the nudge step.
pub open spec fn number_spun(e: Ed, target: SpinTarget, dir: int, stepped: Opacity) -> Ed {
    match target {
        SpinTarget::RegionField(idx, fk) => elements_set(
            e,
            changed_at(
                e.doc.elements,
                idx as int,
                el_coord_set(
                    e.doc.elements[idx as int],
                    e.phase,
                    fk,
                    coord_of(e, idx as int, fk) + dir * num::int_max(e.prefs.nudge_step as int, 1),
                ),
            ),
        ),
        SpinTarget::ElemProp(idx, prop) => elements_set(
            e,
            changed_at(
                e.doc.elements,
                idx as int,
                prop_spun(e.doc.elements[idx as int], prop, dir, stepped),
            ),
        ),
        SpinTarget::SnapDistance => prefs_set(
            e,
            Prefs {
                snap_distance: num::int_clamp(e.prefs.snap_distance + dir, 1, 100) as i32,
                ..e.prefs
            },
        ),
        SpinTarget::SnapGap => prefs_set(
            e,
            Prefs { snap_gap: num::int_clamp(e.prefs.snap_gap + dir, 0, 50) as i32, ..e.prefs },
        ),
        SpinTarget::NudgeStep => prefs_set(
            e,
            Prefs {
                nudge_step: num::int_clamp(e.prefs.nudge_step + dir, 1, 100) as i32,
                ..e.prefs
            },
        ),
    }
}

/// The state after a number was stepped. Nothing happens to the properties of an
/// element that there is not.
pub open spec fn spun(e: Ed, target: SpinTarget, dir: int, stepped: Opacity) -> Ed {
    match target {
        SpinTarget::ElemProp(idx, prop) => if idx >= e.doc.elements.len() {
            e
        } else {
            step_made(e, number_spun(e, target, dir, stepped))
        },
        _ => step_made(e, number_spun(e, target, dir, stepped)),
    }
}

fn spin_prop(e: &mut Element, prop: ElemProp, dir: i32, stepped: Opacity)
    ensures
        final(e)@ == prop_spun(old(e)@, prop, dir as int, stepped),
{
    let by: i64 = dir as i64;
    match prop {
        ElemProp::Opacity => {
            let o: Opacity = stepped.clamp();
            e.extra.opacity = o;
            e.extra.opacity_explicit = true;
            e.display.opacity = Some(o);
        },
        ElemProp::ZOrder => {
            e.extra.z_order = (e.extra.z_order as i64 + by) as i32;
        },
        ElemProp::Rotate => {
            e.display.rotate = wrap_degrees(e.display.rotate as i64 + by);
        },
        ElemProp::BorderWidth => {
            e.extra.border_width = max_i64(e.extra.border_width as i32 as i64 + by, 0) as u32;
        },
        ElemProp::CornerRadius => {
            e.extra.corner_radius = max_i64(e.extra.corner_radius as i32 as i64 + by, 0) as u32;
        },
        ElemProp::FontSize => {
            e.extra.font_size = max_i64(e.extra.font_size as i32 as i64 + by, 1) as u32;
        },
        _ => {},
    }
}

fn spin_coord(st: &mut EditorState, idx: usize, fk: FieldKind, dir: i32)
    ensures
        forall|stepped: Opacity|
            final(st)@ == #[trigger] number_spun(
                old(st)@,
                SpinTarget::RegionField(idx, fk),
                dir as int,
                stepped,
            ),
{
    let step: i32 = max_i32(st.prefs.nudge_step, 1);
    let cur: i32 = get_field_coord(st, idx, fk);
    assert(-0x4000_0000_0000_0000 <= dir * step <= 0x4000_0000_0000_0000) by (nonlinear_arith)
        requires
            i32::MIN <= dir <= i32::MAX,
            1 <= step <= i32::MAX,
    ;
    let val: i64 = cur as i64 + dir as i64 * step as i64;
    set_field_coord(&mut st.doc.elements, st.phase, idx, fk, val);
}

fn spin_pref(st: &mut EditorState, target: SpinTarget, dir: i32)
    requires
        target == SpinTarget::SnapDistance || target == SpinTarget::SnapGap || target
            == SpinTarget::NudgeStep,
    ensures
        forall|stepped: Opacity|
            final(st)@ == #[trigger] number_spun(old(st)@, target, dir as int, stepped),
{
    let by: i64 = dir as i64;
    match target {
        SpinTarget::SnapDistance => {
            st.prefs.snap_distance = clamp_i64(st.prefs.snap_distance as i64 + by, 1, 100) as i32;
        },
        SpinTarget::SnapGap => {
            st.prefs.snap_gap = clamp_i64(st.prefs.snap_gap as i64 + by, 0, 50) as i32;
        },
        _ => {
            st.prefs.nudge_step = clamp_i64(st.prefs.nudge_step as i64 + by, 1, 100) as i32;
        },
    }
    stage_prefs(st);
}

/// Steps a number up or down. `stepped` is the element's opacity that many steps
/// of a tenth on.
pub fn apply_spin(st: &mut EditorState, target: SpinTarget, dir: i32, stepped: Opacity)
    requires
        old(st)@.doc.undo.len() <= UNDO_LIMIT,
    ensures
        final(st)@ == spun(old(st)@, target, dir as int, stepped),
{
    let ghost was = st@;
    let before: Vec<Element> = copy_elements(&st.doc.elements);
    match target {
        SpinTarget::RegionField(idx, fk) => {
            spin_coord(st, idx, fk, dir);
        },
        SpinTarget::ElemProp(idx, prop) => {
            if idx >= st.doc.elements.len() {
                return;
            }
            let ghost v = st.doc.elements@;
            spin_prop(&mut st.doc.elements[idx], prop, dir, stepped);
            proof {
                lemma_els_update(v, idx as int, st.doc.elements@[idx as int]);
            }
        },
        _ => {
            spin_pref(st, target, dir);
        },
    }
    assert(st@ == number_spun(was, target, dir as int, stepped));
    make_step(st, before, Ghost(was));
}

// ===== Selecting list items =====

/// Where an index first occurs.
pub open spec fn first_pos(s: Seq<usize>, v: usize) -> int
    decreases s.len(),
{
    if s.len() == 0 || s[0] == v {
        0
    } else {
        1 + first_pos(s.drop_first(), v)
    }
}

/// A selection with an element taken out where it was in, else put in.
pub open spec fn toggled(s: Seq<usize>, v: usize) -> Seq<usize> {
    if s.contains(v) {
        s.remove(first_pos(s, v))
    } else {
        s.push(v)
    }
}

/// Selects an element, or takes it out of the selection.
pub fn toggle_select(selected: &mut Vec<usize>, idx: usize)
    ensures
        final(selected)@ == toggled(old(selected)@, idx),
{
    let ghost all = selected@;
    assert(all.skip(0) =~= all);
    let n: usize = selected.len();
    let mut i: usize = 0;
    while i < n
        invariant
            selected@ == all,
            old(selected)@ == all,
            n == all.len(),
            i <= n,
            forall|j: int| 0 <= j < i ==> all[j] != idx,
            first_pos(all, idx) == i + first_pos(all.skip(i as int), idx),
        decreases n - i,
    {
        let v: usize = selected[i];
        assert(all.skip(i as int)[0] == v);
        if v == idx {
            let gone: usize = selected.remove(i);
            assert(all.contains(idx));
            return;
        }
        assert(all.skip(i as int).drop_first() =~= all.skip(i + 1));
        i += 1;
    }
    selected.push(idx);
}

// ===== Laws =====

/// Selecting an element that is not selected and then selecting it again leaves
/// the selection as it was.
pub proof fn law_toggling_twice(s: Seq<usize>, v: usize)
    requires
        !s.contains(v),
    ensures
        toggled(toggled(s, v), v) == s,
{
    let t = s.push(v);
    assert(t[s.len() as int] == v);
    lemma_first_pos_of_last(s, v);
    assert(t.remove(s.len() as int) =~= s);
}

proof fn lemma_first_pos_of_last(s: Seq<usize>, v: usize)
    requires
        !s.contains(v),
    ensures
        first_pos(s.push(v), v) == s.len(),
    decreases s.len(),
{
    if s.len() > 0 {
        assert(s.contains(s[0]));
        assert(s.push(v).drop_first() =~= s.drop_first().push(v));
        assert forall|i: int| 0 <= i < s.drop_first().len() implies s.drop_first()[i] != v by {
            assert(s.contains(s[i + 1]));
        }
        lemma_first_pos_of_last(s.drop_first(), v);
    }
}

/// Taking an element out of the selection, or putting it in, keeps the selection
/// one of elements, each of them once.
pub proof fn law_toggling_selects_elements(s: Seq<usize>, v: usize, len: nat)
    requires
        state::selection_ok(s, len),
        state::distinct(s),
        v < len,
    ensures
        state::selection_ok(toggled(s, v), len),
        state::distinct(toggled(s, v)),
        toggled(s, v).contains(v) == !s.contains(v),
{
    if s.contains(v) {
        lemma_first_pos(s, v);
        let p = first_pos(s, v);
        assert forall|i: int| 0 <= i < toggled(s, v).len() implies (#[trigger] toggled(s, v)[i]) < len by {
            if i < p {
                assert(s[i] < len);
            } else {
                assert(s[i + 1] < len);
            }
        }
        assert forall|i: int| 0 <= i < toggled(s, v).len() implies #[trigger] toggled(s, v)[i]
            != v by {
            if i < p {
                assert(s[i] != s[p]);
            } else {
                assert(s[p] != s[i + 1]);
            }
        }
    } else {
        assert(toggled(s, v)[s.len() as int] == v);
        assert forall|i: int| 0 <= i < s.len() implies s[i] != v by {
            assert(s.contains(s[i]));
        }
    }
}

pub proof fn lemma_first_pos(s: Seq<usize>, v: usize)
    requires
        s.contains(v),
    ensures
        0 <= first_pos(s, v) < s.len(),
        s[first_pos(s, v)] == v,
    decreases s.len(),
{
    if s[0] != v {
        let k = choose|k: int| 0 <= k < s.len() && s[k] == v;
        assert(s.drop_first()[k - 1] == v);
        lemma_first_pos(s.drop_first(), v);
    }
}

proof fn lemma_uppered(d: Seq<char>)
    requires
        six_hex(d),
    ensures
        six_hex(uppered(d)),
        uppered(uppered(d)) == uppered(d),
        forall|i: int|
            0 <= i < 6 ==> !text::is_white(#[trigger] uppered(d)[i]) && uppered(d)[i] != '#',
{
    assert forall|i: int| 0 <= i < 6 implies is_hex(#[trigger] uppered(d)[i]) && text::upper(
        uppered(d)[i],
    ) == uppered(d)[i] && !text::is_white(uppered(d)[i]) && uppered(d)[i] != '#' by {
        assert(is_hex(d[i]));
    }
    assert(uppered(uppered(d)) =~= uppered(d));
}

/// A color that is kept is kept as it is.
pub proof fn law_normalizing_settles(s: Seq<char>)
    ensures
        normalized(normalized(s)) == normalized(s),
{
    let t = text::trim(s);
    let d = text::strip_leading(t, '#');
    if t.len() == 0 {
        assert(text::trim(Seq::<char>::empty()).len() == 0);
    } else if six_hex(d) {
        let u = uppered(d);
        let r = seq!['#'] + u;
        lemma_uppered(d);
        assert(u[5] == r[6] && u[0] == r[1]);
        assert(r.last() == u[5]);
        assert(text::trim_start(r) == r);
        assert(text::trim_end(r) == r);
        assert(r.drop_first() =~= u);
        assert(text::strip_leading(u, '#') == u);
        assert(text::strip_leading(r, '#') == u);
    }
}

/// What is shown of a number or a text reads back as it is, so that using it
/// unchanged changes nothing. Colors are kept in upper case, and an opacity is
/// shown with two places.
#[verifier::spinoff_prover]
#[verifier::rlimit(60)]
pub proof fn law_shown_values_read_back(el: El, prop: ElemProp, opacity: Seq<char>, parsed: Option<Opacity>)
    requires
        common::numeric(prop) || prop == ElemProp::Content || prop == ElemProp::PngPath,
        prop != ElemProp::Opacity,
        el.extra.border_width <= 50,
        el.extra.corner_radius <= 200,
        0 <= el.display.rotate < 360,
    ensures
        prop_applied(el, prop, prop_text(el, prop, opacity), parsed) == el,
{
    match prop {
        ElemProp::ZOrder => {
            decimal::law_decimal_reads_back(el.extra.z_order);
            assert(decimal::read_i32(prop_text(el, prop, opacity)) == Some(el.extra.z_order));
        },
        ElemProp::Rotate => {
            decimal::law_decimal_reads_back(el.display.rotate);
            assert(decimal::read_i32(prop_text(el, prop, opacity)) == Some(el.display.rotate));
        },
        ElemProp::BorderWidth => {
            decimal::law_unsigned_reads_back(el.extra.border_width);
            assert(decimal::read_u32(prop_text(el, prop, opacity)) == Some(el.extra.border_width));
        },
        ElemProp::CornerRadius => {
            decimal::law_unsigned_reads_back(el.extra.corner_radius);
            assert(decimal::read_u32(prop_text(el, prop, opacity)) == Some(el.extra.corner_radius));
        },
        ElemProp::FontSize => {
            decimal::law_unsigned_reads_back(el.extra.font_size);
            assert(decimal::read_u32(prop_text(el, prop, opacity)) == Some(el.extra.font_size));
        },
        _ => {},
    }
}

/// Every kind lists its rotation first and then what is its own; all but regions
/// end with opacity and layer.
pub proof fn law_listed_properties(kind: ElemKind)
    ensures
        ({
            let p = props_of(kind);
            let n = p.len() as int;
            &&& p[0] == ElemProp::Rotate
            &&& kind == ElemKind::Capture <==> n == 1
            &&& kind != ElemKind::Capture ==> p[n - 2] == ElemProp::Opacity && p[n - 1]
                == ElemProp::ZOrder
            &&& kind == ElemKind::Frame ==> n == 6 && p[1] == ElemProp::BorderColor && p[2]
                == ElemProp::BorderWidth && p[3] == ElemProp::CornerRadius
            &&& kind == ElemKind::Background ==> n == 5 && p[1] == ElemProp::BgColor && p[2]
                == ElemProp::CornerRadius
            &&& kind == ElemKind::Png ==> n == 4 && p[1] == ElemProp::PngPath
            &&& kind == ElemKind::Text ==> n == 6 && p[1] == ElemProp::Content && p[2]
                == ElemProp::FontSize && p[3] == ElemProp::TextColor
        }),
{
}

/// The properties are those of the element that was selected last; a region shows
/// them only while arranging. They take 36 pixels and 30 for each.
pub proof fn law_shown_properties(e: Ed)
    ensures
        ({
            let n = e.doc.selected.len() as int;
            let last = e.doc.selected[n - 1];
            let there = n > 0 && last < e.doc.elements.len();
            let kind = e.doc.elements[last as int].extra.kind;
            let shown = there && !(kind == ElemKind::Capture && e.phase == EditorPhase::Selecting);
            &&& shown ==> shown_element(e) == Some(last) && props_height(e) == 36 + 30 * props_of(
                kind,
            ).len()
            &&& !shown ==> shown_element(e) is None && props_height(e) == 0
        }),
{
}

/// The panel is as high as what it holds, as long as that leaves 48 pixels of the
/// screen below it, and never lower than the controls, the row of buttons and 68
/// pixels of the list.
pub proof fn law_panel_height(e: Ed)
    ensures
        ({
            let add: int = if e.phase == EditorPhase::Arranging {
                40
            } else {
                12
            };
            let all = 278 + 42 * e.doc.elements.len() + add + props_height(e);
            let room = e.area.screen_h - e.panel.panel_y - 48;
            let h = panel_height(e);
            &&& h >= 278 + add + 68
            &&& h > 278 + add + 68 ==> h <= room && h <= all
            &&& 278 + add + 68 <= all <= room ==> h == all
            &&& 278 + add + 68 <= room <= all ==> h == room
            &&& list_top(e) == e.panel.panel_y + 278
            &&& add_top(e) == e.panel.panel_y + h - 36
        }),
{
    assert(e.doc.elements.len() * 42 == 42 * e.doc.elements.len());
}

/// The list ends where the properties begin, else at the buttons that add
/// elements, and without both near the end of the panel.
pub proof fn law_list_ends(e: Ed)
    ensures
        props_height(e) > 0 ==> list_bottom(e) + props_height(e) == add_top(e),
        props_height(e) == 0 && e.phase == EditorPhase::Arranging ==> list_bottom(e) == add_top(e),
        props_height(e) == 0 && e.phase == EditorPhase::Selecting ==> list_bottom(e)
            == e.panel.panel_y + panel_height(e) - 4,
        props_height(e) >= 0,
{
}

/// As many items are shown as fit, one at least. The list scrolls from its
/// beginning just so far that the last item is shown, where one fits at all; items
/// follow each other every 42 pixels.
pub proof fn law_list_scrolls_to_its_end(e: Ed, i: int)
    ensures
        ({
            let h = list_bottom(e) - list_top(e);
            let n = e.doc.elements.len() as int;
            let v = visible_count(e);
            &&& v >= 1
            &&& h >= 42 ==> 42 * v <= h < 42 * (v + 1)
            &&& 0 <= scroll_of(e) <= max_scroll(e)
            &&& n > v ==> max_scroll(e) + v == n
            &&& n <= v ==> max_scroll(e) == 0
            &&& 0 <= e.panel.list_scroll <= max_scroll(e) ==> scroll_of(e) == e.panel.list_scroll
            &&& row_top(e, scroll_of(e)) == list_top(e)
            &&& row_top(e, i + 1) == row_top(e, i) + 42
            &&& h >= 42 && scroll_of(e) == max_scroll(e) && n > 0 ==> row_fits(e, n - 1)
        }),
{
    let h = list_bottom(e) - list_top(e);
    let n = e.doc.elements.len() as int;
    let s = scroll_of(e);
    assert((i + 1 - s) * 42 == (i - s) * 42 + 42) by (nonlinear_arith);
    assert((s - s) * 42 == 0);
    if h >= 42 && s == max_scroll(e) && n > 0 {
        let v = visible_count(e);
        assert(n - 1 - s <= v - 1);
        assert((n - 1 - s) * 42 <= (v - 1) * 42) by (nonlinear_arith)
            requires
                n - 1 - s <= v - 1,
        ;
    }
}

/// The thumb lies in the lane of the scroll bar: at its beginning while the list
/// is at its beginning, at its end while the list is at its end, and never shorter
/// than 24 pixels.
pub proof fn law_thumb_shows_the_place(e: Ed)
    requires
        max_scroll(e) > 0,
        list_bottom(e) - list_top(e) >= 24,
    ensures
        ({
            let h = list_bottom(e) - list_top(e);
            let t = thumb(e);
            &&& 24 <= t.1 <= h
            &&& 0 <= t.0 && t.0 + t.1 <= h
            &&& scroll_of(e) == 0 ==> t.0 == 0
            &&& scroll_of(e) == max_scroll(e) ==> t.0 + t.1 == h
        }),
{
    let h = list_bottom(e) - list_top(e);
    let n = e.doc.elements.len() as int;
    let v = visible_count(e);
    let m = max_scroll(e);
    let s = scroll_of(e);
    let t = thumb(e);
    assert(h * v / n <= h) by (nonlinear_arith)
        requires
            0 < v < n,
            h >= 24,
    ;
    let rest = h - t.1;
    assert(0 <= rest * s && rest * s / m <= rest && rest * s / m >= 0) by (nonlinear_arith)
        requires
            0 <= s <= m,
            m > 0,
            rest >= 0,
    ;
    if s == m {
        assert(rest * m / m == rest) by (nonlinear_arith)
            requires
                m > 0,
        ;
    }
    if s == 0 {
        assert(rest * 0 == 0);
        vstd::arithmetic::div_mod::lemma_basic_div(0, m);
    }
}

/// A coordinate that is set reads back, a position below zero as zero and a size
/// below ten as ten; and setting one changes none of the others, and nothing of
/// the other phase.
pub proof fn law_coordinates_read_back(
    el: El,
    phase: EditorPhase,
    fk: FieldKind,
    other: FieldKind,
    val: i32,
)
    requires
        phase == EditorPhase::Arranging || el.source is Some,
    ensures
        ({
            let s = el_coord_set(el, phase, fk, val as int);
            let least: int = if fk == FieldKind::X || fk == FieldKind::Y {
                0
            } else {
                10
            };
            &&& el_coord(s, phase, fk) == (if val >= least {
                val as int
            } else {
                least
            })
            &&& other != fk ==> el_coord(s, phase, other) == el_coord(el, phase, other)
            &&& s.extra == el.extra
            &&& phase == EditorPhase::Selecting ==> s.display == el.display
            &&& phase == EditorPhase::Arranging ==> s.source == el.source && s.display
                == (DisplayRect {
                x: s.display.x,
                y: s.display.y,
                width: s.display.width,
                height: s.display.height,
                ..el.display
            })
        }),
{
    let pos = num::int_max(val as int, 0);
    let size = num::int_max(val as int, 10);
    let p: u32 = pos as u32;
    let q: u32 = size as u32;
    assert(p < 0x8000_0000 ==> p as i32 == p) by (bit_vector);
    assert(q < 0x8000_0000 ==> q as i32 == q) by (bit_vector);
}

/// While selecting the coordinates are those of what is captured, while arranging
/// those of where it is shown; an element that captures nothing has none to select.
pub proof fn law_coordinates_of_a_phase(el: El)
    ensures
        el_coord(el, EditorPhase::Arranging, FieldKind::X) == el.display.x,
        el_coord(el, EditorPhase::Arranging, FieldKind::Y) == el.display.y,
        el_coord(el, EditorPhase::Arranging, FieldKind::Width) == el.display.width,
        el_coord(el, EditorPhase::Arranging, FieldKind::Height) == el.display.height,
        match el.source {
            Some(s) => {
                &&& el_coord(el, EditorPhase::Selecting, FieldKind::X) == s.x as i32
                &&& el_coord(el, EditorPhase::Selecting, FieldKind::Y) == s.y as i32
                &&& el_coord(el, EditorPhase::Selecting, FieldKind::Width) == s.width as i32
                &&& el_coord(el, EditorPhase::Selecting, FieldKind::Height) == s.height as i32
            },
            None => forall|fk: FieldKind| #[trigger] el_coord(el, EditorPhase::Selecting, fk) == 0,
        },
{
}

/// The four fields of an item are 88 pixels apart, the first 90 from the left edge
/// of the panel; a text has only the first two.
pub proof fn law_fields_of_an_item(x: int, px: int, is_text: bool, from: int, to: int)
    requires
        0 <= from <= to <= 80,
    ensures
        ({
            let c = column_hit(x, px, is_text, from, to);
            let d = x - px - 90;
            &&& c == Some(FieldKind::X) <==> from <= d <= to
            &&& c == Some(FieldKind::Y) <==> from + 88 <= d <= to + 88
            &&& c == Some(FieldKind::Width) <==> !is_text && from + 176 <= d <= to + 176
            &&& c == Some(FieldKind::Height) <==> !is_text && from + 264 <= d <= to + 264
        }),
{
}

proof fn lemma_value_from(e: Ed, x: int, y: int, i: int)
    requires
        0 <= i,
        e.doc.elements.len() <= usize::MAX,
    ensures
        match value_from(e, x, y, i) {
            Some((k, fk)) => {
                &&& i <= k < e.doc.elements.len()
                &&& row_fits(e, k as int)
                &&& row_top(e, k as int) <= y <= row_top(e, k as int) + 42
                &&& column_hit(
                    x,
                    e.panel.panel_x as int,
                    e.doc.elements[k as int].extra.kind == ElemKind::Text,
                    26,
                    64,
                ) == Some(fk)
            },
            None => true,
        },
        match spin_from(e, x, y, i) {
            Some((k, fk, up)) => {
                &&& i <= k < e.doc.elements.len()
                &&& row_fits(e, k as int)
                &&& row_top(e, k as int) + 4 <= y <= row_top(e, k as int) + 38
                &&& up == (y <= row_top(e, k as int) + 21)
                &&& column_hit(
                    x,
                    e.panel.panel_x as int,
                    e.doc.elements[k as int].extra.kind == ElemKind::Text,
                    64,
                    80,
                ) == Some(fk)
            },
            None => true,
        },
    decreases e.doc.elements.len() - i,
{
    if i < e.doc.elements.len() && row_fits(e, i) {
        lemma_value_from(e, x, y, i + 1);
        assert(i as usize as int == i);
    }
}

/// A value or an arrow button of the list that a point hits is shown there: in a
/// row that the list has room for, and in the column of its field. The value is in
/// the middle of the field and the arrows at its end, the upper one above the
/// middle of the row.
pub proof fn law_list_hits_are_shown(e: Ed, x: int, y: int)
    requires
        e.doc.elements.len() <= usize::MAX,
    ensures
        match value_hit(e, x, y) {
            Some((k, fk)) => {
                let d = x - e.panel.panel_x - 90 - (if fk == FieldKind::X {
                    0int
                } else if fk == FieldKind::Y {
                    88
                } else if fk == FieldKind::Width {
                    176
                } else {
                    264
                });
                &&& scroll_of(e) <= k < e.doc.elements.len()
                &&& row_fits(e, k as int)
                &&& row_top(e, k as int) <= y <= row_top(e, k as int) + 42
                &&& 26 <= d <= 64
            },
            None => true,
        },
        match spin_hit(e, x, y) {
            Some((k, fk, up)) => {
                let d = x - e.panel.panel_x - 90 - (if fk == FieldKind::X {
                    0int
                } else if fk == FieldKind::Y {
                    88
                } else if fk == FieldKind::Width {
                    176
                } else {
                    264
                });
                &&& scroll_of(e) <= k < e.doc.elements.len()
                &&& row_fits(e, k as int)
                &&& row_top(e, k as int) + 4 <= y <= row_top(e, k as int) + 38
                &&& up == (y <= row_top(e, k as int) + 21)
                &&& 64 <= d <= 80
            },
            None => true,
        },
{
    lemma_value_from(e, x, y, scroll_of(e));
}

proof fn lemma_value_there(e: Ed, x: int, y: int, i: int, k: int)
    requires
        0 <= i <= k < e.doc.elements.len(),
        row_fits(e, k),
        row_top(e, k) <= y <= row_top(e, k) + 42,
        column_hit(
            x,
            e.panel.panel_x as int,
            e.doc.elements[k].extra.kind == ElemKind::Text,
            26,
            64,
        ) is Some,
    ensures
        value_from(e, x, y, i) is Some,
    decreases k - i,
{
    assert(row_top(e, i) <= row_top(e, k)) by (nonlinear_arith)
        requires
            row_top(e, i) == list_top(e) + (i - scroll_of(e)) * 42,
            row_top(e, k) == list_top(e) + (k - scroll_of(e)) * 42,
            i <= k,
    ;
    if i < k {
        lemma_value_there(e, x, y, i + 1, k);
    }
}

/// Every value that the list shows can be hit.
pub proof fn law_shown_values_are_hit(e: Ed, x: int, y: int, k: int)
    requires
        scroll_of(e) <= k < e.doc.elements.len(),
        row_fits(e, k),
        row_top(e, k) <= y <= row_top(e, k) + 42,
        116 <= x - e.panel.panel_x <= 154 || 204 <= x - e.panel.panel_x <= 242 || 292 <= x
            - e.panel.panel_x <= 330 && e.doc.elements[k].extra.kind != ElemKind::Text || 380 <= x
            - e.panel.panel_x <= 418 && e.doc.elements[k].extra.kind != ElemKind::Text,
    ensures
        value_hit(e, x, y) is Some,
{
    lemma_value_there(e, x, y, scroll_of(e), k);
}

/// A property that a point hits is one of the shown element, in whose row the
/// point is; the values begin 72 pixels from the left edge of the panel.
pub proof fn law_property_hits_are_shown(e: Ed, x: int, y: int)
    ensures
        match prop_hit(e, x, y) {
            Some((idx, p)) => {
                let props = props_of(e.doc.elements[idx as int].extra.kind);
                &&& shown_element(e) == Some(idx)
                &&& 72 <= x - e.panel.panel_x <= 448
                &&& exists|row: int|
                    0 <= row < props.len() && #[trigger] props[row] == p && prop_row_top(e, row)
                        <= y <= prop_row_top(e, row) + 30
            },
            None => true,
        },
        match prop_spin_hit(e, x, y) {
            Some((idx, p, up)) => {
                let props = props_of(e.doc.elements[idx as int].extra.kind);
                &&& shown_element(e) == Some(idx)
                &&& common::numeric(p)
                &&& 432 <= x - e.panel.panel_x <= 448
                &&& exists|row: int|
                    0 <= row < props.len() && #[trigger] props[row] == p && prop_row_top(e, row)
                        + 2 <= y <= prop_row_top(e, row) + 24 && up == (y <= prop_row_top(e, row)
                        + 13)
            },
            None => true,
        },
        forall|row: int| #[trigger]
            prop_row_top(e, row) == add_top(e) - props_height(e) + 30 + 30 * row,
{
    match shown_element(e) {
        Some(idx) => {
            let props = props_of(e.doc.elements[idx as int].extra.kind);
            lemma_prop_from(e, props, y, 0);
        },
        None => {},
    }
}

proof fn lemma_prop_from(e: Ed, props: Seq<ElemProp>, y: int, i: int)
    requires
        0 <= i,
    ensures
        match prop_from(e, props, y, i) {
            Some(p) => exists|row: int|
                i <= row < props.len() && #[trigger] props[row] == p && prop_row_top(e, row) <= y
                    <= prop_row_top(e, row) + 30,
            None => true,
        },
        match prop_spin_from(e, props, y, i) {
            Some((p, up)) => common::numeric(p) && exists|row: int|
                i <= row < props.len() && #[trigger] props[row] == p && prop_row_top(e, row) + 2
                    <= y <= prop_row_top(e, row) + 24 && up == (y <= prop_row_top(e, row) + 13),
            None => true,
        },
    decreases props.len() - i,
{
    if i < props.len() {
        lemma_prop_from(e, props, y, i + 1);
        assert(props[i] == props[i]);
    }
}

/// The wheel steps a coordinate where one is shown at the point, else a property
/// that is a number, and nothing elsewhere.
pub proof fn law_wheel_steps_numbers(e: Ed, x: int, y: int)
    ensures
        match wheel_target(e, x, y) {
            Some(SpinTarget::RegionField(i, fk)) => value_hit(e, x, y) == Some((i, fk)) || spin_hit(
                e,
                x,
                y,
            ) is Some && spin_hit(e, x, y).unwrap().0 == i && spin_hit(e, x, y).unwrap().1 == fk,
            Some(SpinTarget::ElemProp(i, p)) => common::numeric(p) && value_hit(e, x, y) is None
                && spin_hit(e, x, y) is None && shown_element(e) == Some(i),
            Some(_) => false,
            None => value_hit(e, x, y) is None && spin_hit(e, x, y) is None && prop_spin_hit(
                e,
                x,
                y,
            ) is None,
        },
{
    law_property_hits_are_shown(e, x, y);
}

/// The four buttons that add elements share the width of the panel: each is 108
/// wide, with 4 between them, and 22 high.
pub proof fn law_add_buttons(e: Ed, x: int, y: int, d: int)
    requires
        d == x - e.panel.panel_x - 8,
    ensures
        ({
            let a = add_hit(e, x, y);
            let row = 0 <= y - (e.panel.panel_y + panel_height(e) - 32) <= 22;
            &&& a == Some(AddKind::Frame) <==> row && 0 <= d <= 108
            &&& a == Some(AddKind::Background) <==> row && 112 <= d <= 220
            &&& a == Some(AddKind::Png) <==> row && 224 <= d <= 332
            &&& a == Some(AddKind::Text) <==> row && 336 <= d <= 444
        }),
        kind_added(AddKind::Frame) == ElemKind::Frame,
        kind_added(AddKind::Background) == ElemKind::Background,
        kind_added(AddKind::Png) == ElemKind::Png,
        kind_added(AddKind::Text) == ElemKind::Text,
{
}

/// A new element is put inside the overlay where it has room for it, beside the
/// panel on the side of the screen with more room, ten pixels off, and not above
/// the element before it.
pub proof fn law_new_elements_have_room(e: Ed, w: int, h: int)
    requires
        0 < w,
        0 < h,
    ensures
        ({
            let p = new_pos(e, w, h);
            let els = e.doc.elements;
            let right = 2 * (e.panel.panel_x + 230) > e.area.screen_w + 1;
            let left = 2 * (e.panel.panel_x + 230) < e.area.screen_w;
            let sx = p.0 + e.area.overlay_x;
            &&& 0 <= p.0 && 0 <= p.1
            &&& w <= e.area.overlay_w ==> p.0 + w <= e.area.overlay_w
            &&& h <= e.area.overlay_h ==> p.1 + h <= e.area.overlay_h
            &&& right && 0 < p.0 && p.0 + w < e.area.overlay_w && e.panel.panel_x - w - 10 >= 4
                ==> sx + w + 10 == e.panel.panel_x
            &&& left && 0 < p.0 && p.0 + w < e.area.overlay_w ==> sx == e.panel.panel_x + 470
            &&& els.len() > 0 && p.1 + h < e.area.overlay_h ==> p.1 >= els.last().display.y
                + els.last().display.height + 10
        }),
{
}

/// Adding puts one new element behind the others, of the kind, without a source,
/// 40 by 20 unless it is a picture or a text, and with the global opacity, which it
/// does not own. The step can be undone.
pub proof fn law_adding_an_element(e: Ed, kind: ElemKind)
    ensures
        ({
            let a = element_added(e, kind);
            let n = e.doc.elements.len() as int;
            let x = a.doc.elements[n];
            let sized = kind != ElemKind::Png && kind != ElemKind::Text;
            &&& a.doc.elements.len() == n + 1
            &&& a.doc.elements.take(n) == e.doc.elements
            &&& x.extra.kind == kind && x.source is None
            &&& x.extra.opacity == e.area.global_opacity && !x.extra.opacity_explicit
                && x.display.opacity is None
            &&& x.extra.z_order == 10 && x.display.rotate == 0
            &&& sized ==> x.display.width == 40 && x.display.height == 20
            &&& !sized ==> x.display.width == 0 && x.display.height == 0
            &&& a == (Ed { doc: a.doc, ..e })
            &&& a.doc.selected == e.doc.selected && a.doc.pending == e.doc.pending
            &&& a.doc.undo == state::undo_pushed(e.doc).undo
        }),
{
    let a = element_added(e, kind);
    assert(a.doc.elements.take(e.doc.elements.len() as int) =~= e.doc.elements);
}

/// Setting a property from a text changes that property alone: what any other
/// shows stays, and so do the source and the place.
pub proof fn law_property_changes_alone(
    el: El,
    prop: ElemProp,
    other: ElemProp,
    s: Seq<char>,
    parsed: Option<Opacity>,
    opacity: Seq<char>,
)
    requires
        other != prop,
    ensures
        ({
            let a = prop_applied(el, prop, s, parsed);
            &&& prop_text(a, other, opacity) == prop_text(el, other, opacity)
            &&& a.source == el.source
            &&& a.display == (DisplayRect {
                opacity: a.display.opacity,
                rotate: a.display.rotate,
                ..el.display
            })
            &&& a.extra.kind == el.extra.kind
            &&& prop != ElemProp::Opacity ==> a.extra.opacity == el.extra.opacity
                && a.extra.opacity_explicit == el.extra.opacity_explicit && a.display.opacity
                == el.display.opacity
        }),
{
}

/// What is typed into a property is taken over: numbers in their ranges, angles
/// within the circle, colors as they are kept, texts as they are; a text that is no
/// number leaves a number as it is.
pub proof fn law_typed_values_are_taken_over(
    el: El,
    s: Seq<char>,
    parsed: Option<Opacity>,
)
    ensures
        prop_applied(el, ElemProp::Content, s, parsed).extra.content == s,
        prop_applied(el, ElemProp::PngPath, s, parsed).extra.png_path == s,
        prop_applied(el, ElemProp::BorderColor, s, parsed).extra.border_color == normalized(s),
        prop_applied(el, ElemProp::BgColor, s, parsed).extra.color == normalized(s),
        prop_applied(el, ElemProp::TextColor, s, parsed).extra.text_color == normalized(s),
        match decimal::read_i32(s) {
            Some(v) => {
                &&& prop_applied(el, ElemProp::ZOrder, s, parsed).extra.z_order == v
                &&& 0 <= prop_applied(el, ElemProp::Rotate, s, parsed).display.rotate < 360
                &&& (prop_applied(el, ElemProp::Rotate, s, parsed).display.rotate - v) % 360 == 0
            },
            None => prop_applied(el, ElemProp::ZOrder, s, parsed) == el && prop_applied(
                el,
                ElemProp::Rotate,
                s,
                parsed,
            ) == el,
        },
        match decimal::read_u32(s) {
            Some(v) => {
                &&& prop_applied(el, ElemProp::BorderWidth, s, parsed).extra.border_width == (
                if v <= 50 {
                    v
                } else {
                    50
                })
                &&& prop_applied(el, ElemProp::CornerRadius, s, parsed).extra.corner_radius == (
                if v <= 200 {
                    v
                } else {
                    200
                })
                &&& prop_applied(el, ElemProp::FontSize, s, parsed).extra.font_size == v
            },
            None => prop_applied(el, ElemProp::BorderWidth, s, parsed) == el && prop_applied(
                el,
                ElemProp::CornerRadius,
                s,
                parsed,
            ) == el && prop_applied(el, ElemProp::FontSize, s, parsed) == el,
        },
        ({
            let a = prop_applied(el, ElemProp::Opacity, s, parsed);
            &&& a.display.opacity == Some(a.extra.opacity)
            &&& match parsed {
                Some(o) => a.extra.opacity == o.clamped() && a.extra.opacity_explicit,
                None => a.extra == el.extra,
            }
        }),
{
}

/// Six hexadecimal digits are kept behind a number sign in upper case, whether or
/// not the sign was typed; a blank text is kept as nothing.
pub proof fn law_colors_are_kept(d: Seq<char>, s: Seq<char>)
    requires
        d.len() == 6,
        forall|i: int|
            0 <= i < 6 ==> '0' <= #[trigger] d[i] && d[i] <= '9' || 'a' <= d[i] && d[i] <= 'f'
                || 'A' <= d[i] && d[i] <= 'F',
        forall|i: int| 0 <= i < s.len() ==> #[trigger] s[i] == ' ',
    ensures
        ({
            let k = normalized(d);
            &&& k.len() == 7
            &&& k[0] == '#'
            &&& forall|i: int|
                0 <= i < 6 ==> #[trigger] d[i] <= 'F' ==> k[i + 1] == d[i]
            &&& forall|i: int|
                0 <= i < 6 ==> #[trigger] d[i] >= 'a' ==> k[i + 1] as int == d[i] as int - 32
            &&& normalized(seq!['#'] + d) == k
        }),
        normalized(s).len() == 0,
{
    assert(six_hex(d));
    assert(d[0] != '#' && !text::is_white(d[0]));
    assert(!text::is_white(d[5]));
    assert(d.last() == d[5]);
    assert(text::trim(d) == d);
    assert(text::strip_leading(d, '#') == d);
    let t = seq!['#'] + d;
    assert(t[0] == '#');
    assert(t.last() == d[5]);
    assert(text::trim(t) == t);
    text::law_leading_come_off(d, '#', '#');
    let k = normalized(d);
    assert forall|i: int| 0 <= i < 6 implies #[trigger] d[i] >= 'a' ==> k[i + 1] as int == d[i] as int
        - 32 by {
        text::law_cases(d[i]);
    }
    text::lemma_trim_empty(s);
    if text::trim(s).len() > 0 {
        let i = choose|i: int| 0 <= i < s.len() && !text::is_white(#[trigger] s[i]);
        assert(s[i] == ' ');
    }
}

/// Stepping a property changes that property alone, and by the steps: a layer by
/// as many, an angle by as many degrees within the circle, a width, a radius or a
/// font size by as many but not below its least value.
pub proof fn law_properties_step(el: El, prop: ElemProp, other: ElemProp, dir: int, stepped: Opacity)
    requires
        other != prop,
        -1000 <= dir <= 1000,
        -0x7fff_0000 <= el.extra.z_order <= 0x7fff_0000,
        el.extra.border_width <= 0x7fff_0000,
        el.extra.corner_radius <= 0x7fff_0000,
        el.extra.font_size <= 0x7fff_0000,
    ensures
        ({
            let a = prop_spun(el, prop, dir, stepped);
            &&& prop_text(a, other, Seq::empty()) == prop_text(el, other, Seq::empty())
            &&& a.source == el.source && a.extra.kind == el.extra.kind
            &&& (a.display.x, a.display.y, a.display.width, a.display.height) == (
                el.display.x,
                el.display.y,
                el.display.width,
                el.display.height,
            )
            &&& prop == ElemProp::ZOrder ==> a.extra.z_order == el.extra.z_order + dir
            &&& prop == ElemProp::Rotate ==> 0 <= a.display.rotate < 360 && (a.display.rotate - (
            el.display.rotate + dir)) % 360 == 0
            &&& prop == ElemProp::BorderWidth ==> a.extra.border_width == (
            if el.extra.border_width + dir >= 0 {
                el.extra.border_width + dir
            } else {
                0
            })
            &&& prop == ElemProp::CornerRadius ==> a.extra.corner_radius == (
            if el.extra.corner_radius + dir >= 0 {
                el.extra.corner_radius + dir
            } else {
                0
            })
            &&& prop == ElemProp::FontSize ==> a.extra.font_size == (if el.extra.font_size + dir
                >= 1 {
                el.extra.font_size + dir
            } else {
                1
            })
            &&& prop == ElemProp::Opacity ==> a.extra.opacity == stepped.clamped()
                && a.extra.opacity_explicit && a.display.opacity == Some(stepped.clamped())
            &&& !common::numeric(prop) ==> a == el
        }),
{
    let b = el.extra.border_width;
    let c = el.extra.corner_radius;
    let f = el.extra.font_size;
    assert(b < 0x8000_0000 ==> b as i32 == b) by (bit_vector);
    assert(c < 0x8000_0000 ==> c as i32 == c) by (bit_vector);
    assert(f < 0x8000_0000 ==> f as i32 == f) by (bit_vector);
}

/// The numbers of the helpers keep to their ranges, 1 to 100 for the snap distance
/// and the nudge step and 0 to 50 for the gap, whether they are typed or stepped;
/// and the three of them wait to be taken over.
pub proof fn law_helper_numbers(e: Ed, target: EditingTarget, dir: int, stepped: Opacity)
    requires
        target == EditingTarget::SnapDistance || target == EditingTarget::SnapGap || target
            == EditingTarget::NudgeStep,
        e.entry.target == target,
        decimal::read_i32(e.entry.text) is Some,
    ensures
        ({
            let n = decimal::read_i32(e.entry.text).unwrap();
            let t = typed_used(e, None);
            let v = if target == EditingTarget::SnapDistance {
                t.prefs.snap_distance
            } else if target == EditingTarget::SnapGap {
                t.prefs.snap_gap
            } else {
                t.prefs.nudge_step
            };
            let lo: int = if target == EditingTarget::SnapGap {
                0
            } else {
                1
            };
            let hi: int = if target == EditingTarget::SnapGap {
                50
            } else {
                100
            };
            &&& lo <= n <= hi ==> v == n
            &&& n < lo ==> v == lo
            &&& n > hi ==> v == hi
            &&& target != EditingTarget::SnapDistance ==> t.prefs.snap_distance
                == e.prefs.snap_distance
            &&& target != EditingTarget::SnapGap ==> t.prefs.snap_gap == e.prefs.snap_gap
            &&& target != EditingTarget::NudgeStep ==> t.prefs.nudge_step == e.prefs.nudge_step
            &&& t.staged_prefs == Some(
                (t.prefs.snap_distance, t.prefs.snap_gap, t.prefs.nudge_step),
            )
            &&& t.doc == e.doc
        }),
        ({
            let t = number_spun(e, SpinTarget::SnapDistance, dir, stepped);
            let v = e.prefs.snap_distance + dir;
            &&& t.prefs.snap_distance == (if v < 1 {
                1
            } else if v > 100 {
                100
            } else {
                v
            })
            &&& t.staged_prefs == Some(
                (t.prefs.snap_distance, e.prefs.snap_gap, e.prefs.nudge_step),
            )
        }),
        ({
            let t = number_spun(e, SpinTarget::SnapGap, dir, stepped);
            let v = e.prefs.snap_gap + dir;
            t.prefs.snap_gap == (if v < 0 {
                0
            } else if v > 50 {
                50
            } else {
                v
            })
        }),
        ({
            let t = number_spun(e, SpinTarget::NudgeStep, dir, stepped);
            let v = e.prefs.nudge_step + dir;
            t.prefs.nudge_step == (if v < 1 {
                1
            } else if v > 100 {
                100
            } else {
                v
            })
        }),
{
}

/// A coordinate that is typed is set, one that is stepped moves by the nudge step
/// for each step; only the element that it is of changes.
pub proof fn law_coordinates_are_typed_and_stepped(
    e: Ed,
    idx: usize,
    fk: FieldKind,
    other: int,
    dir: int,
    stepped: Opacity,
)
    requires
        idx < e.doc.elements.len(),
        0 <= other < e.doc.elements.len(),
        other != idx,
        e.prefs.nudge_step >= 1,
    ensures
        e.entry.target == EditingTarget::RegionField(idx, fk) ==> ({
            let t = typed_used(e, None);
            match decimal::read_i32(e.entry.text) {
                Some(n) => t.doc.elements[idx as int] == el_coord_set(
                    e.doc.elements[idx as int],
                    e.phase,
                    fk,
                    if n >= 0 {
                        n as int
                    } else {
                        0
                    },
                ) && t.doc.elements[other] == e.doc.elements[other] && t.doc.elements.len()
                    == e.doc.elements.len(),
                None => t == e,
            }
        }),
        ({
            let t = number_spun(e, SpinTarget::RegionField(idx, fk), dir, stepped);
            &&& t.doc.elements[idx as int] == el_coord_set(
                e.doc.elements[idx as int],
                e.phase,
                fk,
                el_coord(e.doc.elements[idx as int], e.phase, fk) + dir * e.prefs.nudge_step,
            )
            &&& t.doc.elements[other] == e.doc.elements[other]
            &&& t.doc.elements.len() == e.doc.elements.len()
        }),
{
}

/// A change that leaves the elements equal is no step; any other is one, and
/// undoing it gives back the elements from before.
pub proof fn law_changes_are_steps(before: Ed, after: Ed)
    requires
        after.doc.undo.len() <= 50,
    ensures
        ({
            let s = step_made(before, after);
            let top = after.doc.undo.len() > 0 && state::same_els(
                after.doc.undo.last(),
                before.doc.elements,
            );
            &&& state::same_els(after.doc.elements, before.doc.elements) ==> s == after
            &&& !state::same_els(after.doc.elements, before.doc.elements) ==> {
                &&& s.doc.elements == after.doc.elements
                &&& !top ==> state::doc_undone(s.doc).elements == before.doc.elements
                &&& s.doc.selected == after.doc.selected
            }
        }),
{
    state::law_steps_on_the_stack(after.doc, before.doc.elements);
}

/// Using what was typed ends typing, and so does giving it up, which changes
/// nothing else. Beginning to type shows what there is.
pub proof fn law_typing_begins_and_ends(
    e: Ed,
    idx: usize,
    fk: FieldKind,
    prop: ElemProp,
    opacity: Seq<char>,
    parsed: Option<Opacity>,
)
    ensures
        committed(e, parsed).entry.target == EditingTarget::Nothing,
        committed(e, parsed).entry.text.len() == 0,
        typing_ended(e).doc == e.doc && typing_ended(e).prefs == e.prefs,
        typing_ended(e).entry.target == EditingTarget::Nothing,
        field_started(e, idx, fk).entry.target == EditingTarget::RegionField(idx, fk),
        idx < e.doc.elements.len() ==> field_started(e, idx, fk).entry.text == decimal::dec_int(
            el_coord(e.doc.elements[idx as int], e.phase, fk) as int,
        ),
        prop_started(e, idx, prop, opacity).entry.target == EditingTarget::ElemField(idx, prop),
        idx < e.doc.elements.len() ==> prop_started(e, idx, prop, opacity).entry.text == prop_text(
            e.doc.elements[idx as int],
            prop,
            opacity,
        ),
        !field_started(e, idx, fk).entry.filename_focused,
        field_started(e, idx, fk).doc == e.doc && prop_started(e, idx, prop, opacity).doc == e.doc,
{
}

/// Selecting an element, or taking it out, leaves the others selected as they
/// were.
pub proof fn law_toggling_keeps_the_others(s: Seq<usize>, v: usize, other: usize)
    requires
        other != v,
    ensures
        toggled(s, v).contains(other) == s.contains(other),
{
    let t = toggled(s, v);
    if s.contains(v) {
        lemma_first_pos(s, v);
        let p = first_pos(s, v);
        if s.contains(other) {
            let i = choose|i: int| 0 <= i < s.len() && s[i] == other;
            assert(t[if i < p { i } else { i - 1 }] == other);
        }
        if t.contains(other) {
            let i = choose|i: int| 0 <= i < t.len() && t[i] == other;
            assert(s[if i < p { i } else { i + 1 }] == other);
        }
    } else {
        if s.contains(other) {
            let i = choose|i: int| 0 <= i < s.len() && s[i] == other;
            assert(t[i] == other);
        }
        if t.contains(other) {
            let i = choose|i: int| 0 <= i < t.len() && t[i] == other;
            assert(s[i] == other);
        }
    }
}

} // verus!
