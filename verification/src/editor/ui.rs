//! Rows of controls in the panel, and the question about an existing file.

use vstd::prelude::*;

use crate::config::UNNAMED_CONFIG;
use crate::editor::common;
use crate::editor::common::{
    rgb, BtnAction, EditorPhase, ToggleKind, FN_BOX_H, PANEL_W, SECTION_H, SECTION_STEP, SPIN_W,
    TITLE_H, TOG_BOX_W,
};
use crate::editor::panel;
use crate::editor::state;
use crate::editor::state::{Ed, EditorState};
use crate::i18n::{t, Texts};
use crate::num;
use crate::num::half_i64;
use crate::text;
use crate::text::{append_text, chars_of, owned, string_of, strip_trailing_chars};

verus! {

// ===== Buttons =====

/// A button of a row; `x` counts from the left end of the row.
pub struct Btn<'a> {
    pub x: i32,
    pub w: i32,
    pub label: &'a str,
    pub bg: u32,
    pub fg: u32,
    pub border: u32,
    pub action: BtnAction,
}

/// Where a button begins, how wide it is, and what it does.
#[derive(Debug, Clone, Copy)]
pub struct Span {
    pub x: i32,
    pub w: i32,
    pub action: BtnAction,
}

/// The row that switches the phase.
pub open spec fn mode_row(phase: EditorPhase) -> Seq<Span> {
    match phase {
        EditorPhase::Selecting => seq![Span { x: 0, w: 164, action: BtnAction::NextStep }],
        EditorPhase::Arranging => seq![Span { x: 0, w: 164, action: BtnAction::BackToSelect }],
    }
}

/// The row of actions.
pub open spec fn action_row(phase: EditorPhase) -> Seq<Span> {
    match phase {
        EditorPhase::Selecting => seq![
            Span { x: 0, w: 120, action: BtnAction::UndoLast },
            Span { x: 128, w: 88, action: BtnAction::Cancel },
        ],
        EditorPhase::Arranging => seq![
            Span { x: 0, w: 120, action: BtnAction::UndoLast },
            Span { x: 128, w: 96, action: BtnAction::DeleteSelected },
            Span { x: 232, w: 88, action: BtnAction::Save },
            Span { x: 328, w: 76, action: BtnAction::Discard },
        ],
    }
}

/// The key of the label of a button.
pub open spec fn action_key(a: BtnAction) -> Seq<char> {
    match a {
        BtnAction::UndoLast => "undo_last"@,
        BtnAction::NextStep => "next_step"@,
        BtnAction::BackToSelect => "back"@,
        BtnAction::Cancel => "cancel"@,
        BtnAction::DeleteSelected => "delete_selected"@,
        BtnAction::Save => "save"@,
        BtnAction::Discard => "discard"@,
    }
}

/// The colors of a button: ground, text and border. What goes on is green, what
/// gives up or deletes is red.
pub open spec fn action_colors(a: BtnAction) -> (u32, u32, u32) {
    let white = common::color_number(255, 255, 255);
    match a {
        BtnAction::UndoLast => (
            common::color_number(60, 66, 92),
            common::color_number(220, 225, 240),
            common::color_number(90, 96, 130),
        ),
        BtnAction::BackToSelect => (
            common::color_number(74, 108, 150),
            white,
            common::color_number(130, 170, 210),
        ),
        BtnAction::NextStep | BtnAction::Save => (
            common::color_number(56, 132, 96),
            white,
            common::color_number(120, 200, 150),
        ),
        BtnAction::Cancel | BtnAction::DeleteSelected | BtnAction::Discard => (
            common::color_number(150, 64, 64),
            white,
            common::color_number(200, 120, 120),
        ),
    }
}

/// Whether a button is the one of a span, with its label and colors.
pub open spec fn is_button(b: Btn<'_>, s: Span, texts: Texts) -> bool {
    &&& b.x == s.x
    &&& b.w == s.w
    &&& b.action == s.action
    &&& b.label@ == texts.text(action_key(s.action))
    &&& (b.bg, b.fg, b.border) == action_colors(s.action)
}

fn mode_spans(phase: EditorPhase) -> (r: Vec<Span>)
    ensures
        r@ == mode_row(phase),
{
    let r: Vec<Span> = match phase {
        EditorPhase::Selecting => vec![Span { x: 0, w: 164, action: BtnAction::NextStep }],
        EditorPhase::Arranging => vec![Span { x: 0, w: 164, action: BtnAction::BackToSelect }],
    };
    assert(r@ =~= mode_row(phase));
    r
}

fn action_spans(phase: EditorPhase) -> (r: Vec<Span>)
    ensures
        r@ == action_row(phase),
{
    let r: Vec<Span> = match phase {
        EditorPhase::Selecting => vec![
            Span { x: 0, w: 120, action: BtnAction::UndoLast },
            Span { x: 128, w: 88, action: BtnAction::Cancel },
        ],
        EditorPhase::Arranging => vec![
            Span { x: 0, w: 120, action: BtnAction::UndoLast },
            Span { x: 128, w: 96, action: BtnAction::DeleteSelected },
            Span { x: 232, w: 88, action: BtnAction::Save },
            Span { x: 328, w: 76, action: BtnAction::Discard },
        ],
    };
    assert(r@ =~= action_row(phase));
    r
}

fn button<'a>(s: Span, texts: &'a Texts) -> (r: Btn<'a>)
    ensures
        is_button(r, s, *texts),
{
    let white: u32 = rgb(255, 255, 255);
    let label: &'a str = match s.action {
        BtnAction::UndoLast => t(texts, "undo_last"),
        BtnAction::NextStep => t(texts, "next_step"),
        BtnAction::BackToSelect => t(texts, "back"),
        BtnAction::Cancel => t(texts, "cancel"),
        BtnAction::DeleteSelected => t(texts, "delete_selected"),
        BtnAction::Save => t(texts, "save"),
        BtnAction::Discard => t(texts, "discard"),
    };
    let (bg, fg, border): (u32, u32, u32) = match s.action {
        BtnAction::UndoLast => (rgb(60, 66, 92), rgb(220, 225, 240), rgb(90, 96, 130)),
        BtnAction::BackToSelect => (rgb(74, 108, 150), white, rgb(130, 170, 210)),
        BtnAction::NextStep | BtnAction::Save => (rgb(56, 132, 96), white, rgb(120, 200, 150)),
        BtnAction::Cancel | BtnAction::DeleteSelected | BtnAction::Discard => (
            rgb(150, 64, 64),
            white,
            rgb(200, 120, 120),
        ),
    };
    Btn { x: s.x, w: s.w, label, bg, fg, border, action: s.action }
}

fn buttons<'a>(spans: Vec<Span>, texts: &'a Texts) -> (r: Vec<Btn<'a>>)
    ensures
        r@.len() == spans@.len(),
        forall|i: int| 0 <= i < r@.len() ==> is_button(#[trigger] r@[i], spans@[i], *texts),
{
    let mut r: Vec<Btn<'a>> = Vec::new();
    for i in 0..spans.len()
        invariant
            r@.len() == i,
            forall|j: int| 0 <= j < i ==> is_button(#[trigger] r@[j], spans@[j], *texts),
    {
        r.push(button(spans[i], texts));
    }
    r
}

/// The buttons that switch the phase.
pub fn mode_buttons<'a>(phase: EditorPhase, texts: &'a Texts) -> (r: Vec<Btn<'a>>)
    ensures
        r@.len() == mode_row(phase).len(),
        forall|i: int|
            0 <= i < r@.len() ==> is_button(#[trigger] r@[i], mode_row(phase)[i], *texts),
{
    buttons(mode_spans(phase), texts)
}

/// The buttons of the row of actions.
pub fn toolbar_buttons<'a>(phase: EditorPhase, texts: &'a Texts) -> (r: Vec<Btn<'a>>)
    ensures
        r@.len() == action_row(phase).len(),
        forall|i: int|
            0 <= i < r@.len() ==> is_button(#[trigger] r@[i], action_row(phase)[i], *texts),
{
    buttons(action_spans(phase), texts)
}

// ===== Rows =====

/// Where a row of controls begins: the phase, the actions, the toggles and the
/// values.
pub open spec fn section_top(e: Ed, row: int) -> int {
    e.panel.panel_y + TITLE_H + 22 + FN_BOX_H + 8 + row * SECTION_STEP
}

fn panel_section_rect(st: &EditorState, row: i32) -> (r: (i32, i32, i32, i32))
    requires
        st@.panel.in_range(),
        0 <= row <= 3,
    ensures
        r.0 == st.panel.panel_x + 8,
        r.1 == section_top(st@, row as int),
        r.2 == PANEL_W - 16,
        r.3 == SECTION_H,
{
    let y: i32 = st.panel.panel_y + TITLE_H + 22 + FN_BOX_H + 8 + row * SECTION_STEP;
    (st.panel.panel_x + 8, y, PANEL_W - 16, SECTION_H)
}

/// The row that switches the phase.
pub fn panel_mode_rect(st: &EditorState) -> (r: (i32, i32, i32, i32))
    requires
        st@.panel.in_range(),
    ensures
        r.0 == st.panel.panel_x + 8,
        r.1 == section_top(st@, 0),
        r.2 == PANEL_W - 16,
        r.3 == SECTION_H,
{
    panel_section_rect(st, 0)
}

/// The row of actions.
pub fn panel_action_rect(st: &EditorState) -> (r: (i32, i32, i32, i32))
    requires
        st@.panel.in_range(),
    ensures
        r.0 == st.panel.panel_x + 8,
        r.1 == section_top(st@, 1),
        r.2 == PANEL_W - 16,
        r.3 == SECTION_H,
{
    panel_section_rect(st, 1)
}

/// The row of toggles.
pub fn panel_tog1_rect(st: &EditorState) -> (r: (i32, i32, i32, i32))
    requires
        st@.panel.in_range(),
    ensures
        r.0 == st.panel.panel_x + 8,
        r.1 == section_top(st@, 2),
        r.2 == PANEL_W - 16,
        r.3 == SECTION_H,
{
    panel_section_rect(st, 2)
}

/// The row of values.
pub fn panel_tog2_rect(st: &EditorState) -> (r: (i32, i32, i32, i32))
    requires
        st@.panel.in_range(),
    ensures
        r.0 == st.panel.panel_x + 8,
        r.1 == section_top(st@, 3),
        r.2 == PANEL_W - 16,
        r.3 == SECTION_H,
{
    panel_section_rect(st, 3)
}

/// Whether a point is on the height of a row.
pub open spec fn on_row(e: Ed, y: int, row: int) -> bool {
    section_top(e, row) <= y <= section_top(e, row) + SECTION_H
}

/// What the button does that a point of a row hits, from a button on.
pub open spec fn span_hit(spans: Seq<Span>, d: int, i: int) -> Option<BtnAction>
    decreases spans.len() - i,
{
    if i >= spans.len() {
        None
    } else if spans[i].x <= d <= spans[i].x + spans[i].w {
        Some(spans[i].action)
    } else {
        span_hit(spans, d, i + 1)
    }
}

/// What the button does that a point hits in the row that switches the phase.
pub open spec fn mode_hit(e: Ed, x: int, y: int) -> Option<BtnAction> {
    if on_row(e, y, 0) {
        span_hit(mode_row(e.phase), x - e.panel.panel_x - 8, 0)
    } else {
        None
    }
}

/// What the button does that a point hits in the row of actions.
pub open spec fn action_hit(e: Ed, x: int, y: int) -> Option<BtnAction> {
    if on_row(e, y, 1) {
        span_hit(action_row(e.phase), x - e.panel.panel_x - 8, 0)
    } else {
        None
    }
}

fn span_at(spans: &Vec<Span>, d: i64) -> (r: Option<BtnAction>)
    requires
        forall|i: int|
            0 <= i < spans@.len() ==> 0 <= (#[trigger] spans@[i]).x <= 1000 && 0 <= spans@[i].w
                <= 1000,
    ensures
        r == span_hit(spans@, d as int, 0),
{
    for i in 0..spans.len()
        invariant
            forall|j: int|
                0 <= j < spans@.len() ==> 0 <= (#[trigger] spans@[j]).x <= 1000 && 0 <= spans@[j].w
                    <= 1000,
            span_hit(spans@, d as int, 0) == span_hit(spans@, d as int, i as int),
    {
        let s: Span = spans[i];
        if d >= s.x as i64 && d <= (s.x + s.w) as i64 {
            return Some(s.action);
        }
    }
    None
}

/// What the button does that a point hits in the row that switches the phase.
pub fn panel_mode_hit(st: &EditorState, x: i32, y: i32) -> (r: Option<BtnAction>)
    requires
        st@.panel.in_range(),
    ensures
        r == mode_hit(st@, x as int, y as int),
{
    let (rx, ry, _rw, rh) = panel_mode_rect(st);
    if y < ry || y > ry + rh {
        return None;
    }
    span_at(&mode_spans(st.phase), x as i64 - rx as i64)
}

/// What the button does that a point hits in the row of actions.
pub fn panel_action_hit(st: &EditorState, x: i32, y: i32) -> (r: Option<BtnAction>)
    requires
        st@.panel.in_range(),
    ensures
        r == action_hit(st@, x as int, y as int),
{
    let (rx, ry, _rw, rh) = panel_action_rect(st);
    if y < ry || y > ry + rh {
        return None;
    }
    span_at(&action_spans(st.phase), x as i64 - rx as i64)
}

// ===== Toggles and values =====

/// A toggle of a row: where it begins, how wide it is, and what it switches.
#[derive(Debug, Clone, Copy)]
pub struct ToggleDef {
    pub x: i32,
    pub w: i32,
    pub kind: ToggleKind,
}

/// The row of toggles.
pub open spec fn toggle_row() -> Seq<ToggleDef> {
    seq![
        ToggleDef { x: 0, w: 60, kind: ToggleKind::Magnifier },
        ToggleDef { x: 64, w: 52, kind: ToggleKind::Grid },
        ToggleDef { x: 120, w: 60, kind: ToggleKind::Crosshair },
        ToggleDef { x: 184, w: 52, kind: ToggleKind::XyLabel },
        ToggleDef { x: 240, w: 48, kind: ToggleKind::Snap },
        ToggleDef { x: 292, w: 56, kind: ToggleKind::TianSnap },
    ]
}

/// The row of values: where the labels begin and how wide they are.
pub open spec fn value_row() -> Seq<ToggleDef> {
    seq![
        ToggleDef { x: 0, w: 92, kind: ToggleKind::SnapDistance },
        ToggleDef { x: 184, w: 48, kind: ToggleKind::SnapGap },
        ToggleDef { x: 308, w: 48, kind: ToggleKind::NudgeStep },
    ]
}

/// The key of the label of a toggle or a value.
pub open spec fn toggle_key(k: ToggleKind) -> Seq<char> {
    match k {
        ToggleKind::Magnifier => "toggle_magnifier"@,
        ToggleKind::Grid => "toggle_grid"@,
        ToggleKind::Crosshair => "toggle_crosshair"@,
        ToggleKind::XyLabel => "toggle_xy"@,
        ToggleKind::Snap => "toggle_snap"@,
        ToggleKind::TianSnap => "toggle_tian"@,
        ToggleKind::SnapDistance => "snap_dist"@,
        ToggleKind::SnapGap => "snap_gap"@,
        ToggleKind::NudgeStep => "nudge_step"@,
    }
}

/// The label of a toggle or a value.
pub fn toggle_label<'a>(k: ToggleKind, texts: &'a Texts) -> (r: &'a str)
    ensures
        r@ == texts.text(toggle_key(k)),
{
    match k {
        ToggleKind::Magnifier => t(texts, "toggle_magnifier"),
        ToggleKind::Grid => t(texts, "toggle_grid"),
        ToggleKind::Crosshair => t(texts, "toggle_crosshair"),
        ToggleKind::XyLabel => t(texts, "toggle_xy"),
        ToggleKind::Snap => t(texts, "toggle_snap"),
        ToggleKind::TianSnap => t(texts, "toggle_tian"),
        ToggleKind::SnapDistance => t(texts, "snap_dist"),
        ToggleKind::SnapGap => t(texts, "snap_gap"),
        ToggleKind::NudgeStep => t(texts, "nudge_step"),
    }
}

/// The row of toggles.
pub fn tog1_defs() -> (r: Vec<ToggleDef>)
    ensures
        r@ == toggle_row(),
{
    let r: Vec<ToggleDef> = vec![
        ToggleDef { x: 0, w: 60, kind: ToggleKind::Magnifier },
        ToggleDef { x: 64, w: 52, kind: ToggleKind::Grid },
        ToggleDef { x: 120, w: 60, kind: ToggleKind::Crosshair },
        ToggleDef { x: 184, w: 52, kind: ToggleKind::XyLabel },
        ToggleDef { x: 240, w: 48, kind: ToggleKind::Snap },
        ToggleDef { x: 292, w: 56, kind: ToggleKind::TianSnap },
    ];
    assert(r@ =~= toggle_row());
    r
}

/// The row of values.
pub fn tog2_defs() -> (r: Vec<ToggleDef>)
    ensures
        r@ == value_row(),
{
    let r: Vec<ToggleDef> = vec![
        ToggleDef { x: 0, w: 92, kind: ToggleKind::SnapDistance },
        ToggleDef { x: 184, w: 48, kind: ToggleKind::SnapGap },
        ToggleDef { x: 308, w: 48, kind: ToggleKind::NudgeStep },
    ];
    assert(r@ =~= value_row());
    r
}

/// What the toggle switches that a point of a row hits, from a toggle on.
pub open spec fn toggle_from(defs: Seq<ToggleDef>, d: int, i: int) -> Option<ToggleKind>
    decreases defs.len() - i,
{
    if i >= defs.len() {
        None
    } else if defs[i].x <= d <= defs[i].x + defs[i].w {
        Some(defs[i].kind)
    } else {
        toggle_from(defs, d, i + 1)
    }
}

/// The toggle that a point hits.
pub open spec fn toggle_hit(e: Ed, x: int, y: int) -> Option<ToggleKind> {
    if on_row(e, y, 2) {
        toggle_from(toggle_row(), x - e.panel.panel_x - 8, 0)
    } else {
        None
    }
}

/// The toggle that a point hits.
pub fn panel_toggle_button_hit(st: &EditorState, x: i32, y: i32) -> (r: Option<ToggleKind>)
    requires
        st@.panel.in_range(),
    ensures
        r == toggle_hit(st@, x as int, y as int),
{
    let (rx, ry, _rw, rh) = panel_tog1_rect(st);
    if y < ry || y > ry + rh {
        return None;
    }
    let defs: Vec<ToggleDef> = tog1_defs();
    let d: i64 = x as i64 - rx as i64;
    for i in 0..defs.len()
        invariant
            defs@ == toggle_row(),
            d == x - st.panel.panel_x - 8,
            on_row(st@, y as int, 2),
            toggle_from(toggle_row(), d as int, 0) == toggle_from(
                toggle_row(),
                d as int,
                i as int,
            ),
    {
        let td: ToggleDef = defs[i];
        if d >= td.x as i64 && d <= (td.x + td.w) as i64 {
            return Some(td.kind);
        }
    }
    None
}

/// Where the box of a value begins, counted from the left end of the row; -1 for
/// what has no box.
pub open spec fn value_x(k: ToggleKind) -> int {
    match k {
        ToggleKind::SnapDistance => 100,
        ToggleKind::SnapGap => 240,
        ToggleKind::NudgeStep => 364,
        _ => -1,
    }
}

/// Whether a point is in the box of a value.
pub open spec fn in_value(e: Ed, x: int, y: int, k: ToggleKind) -> bool {
    let bx = e.panel.panel_x + 8 + value_x(k);
    on_row(e, y, 3) && bx <= x <= bx + TOG_BOX_W
}

/// The value whose box a point hits.
pub open spec fn box_hit(e: Ed, x: int, y: int) -> Option<ToggleKind> {
    if in_value(e, x, y, ToggleKind::SnapDistance) {
        Some(ToggleKind::SnapDistance)
    } else if in_value(e, x, y, ToggleKind::SnapGap) {
        Some(ToggleKind::SnapGap)
    } else if in_value(e, x, y, ToggleKind::NudgeStep) {
        Some(ToggleKind::NudgeStep)
    } else {
        None
    }
}

/// Whether a point is on the arrow buttons of a value.
pub open spec fn on_value_spin(e: Ed, x: int, y: int, k: ToggleKind) -> bool {
    in_value(e, x, y, k) && e.panel.panel_x + 8 + value_x(k) + TOG_BOX_W - SPIN_W <= x
}

/// The value whose arrow buttons a point hits, and whether it is the upper one.
pub open spec fn box_spin_hit(e: Ed, x: int, y: int) -> Option<(ToggleKind, bool)> {
    let up = y <= section_top(e, 3) + SECTION_H / 2;
    if on_value_spin(e, x, y, ToggleKind::SnapDistance) {
        Some((ToggleKind::SnapDistance, up))
    } else if on_value_spin(e, x, y, ToggleKind::SnapGap) {
        Some((ToggleKind::SnapGap, up))
    } else if on_value_spin(e, x, y, ToggleKind::NudgeStep) {
        Some((ToggleKind::NudgeStep, up))
    } else {
        None
    }
}

/// The box of the value that is `i` in its row.
fn tog2_box_rect(st: &EditorState, i: usize) -> (r: (ToggleKind, i32, i32, i32, i32))
    requires
        st@.panel.in_range(),
        i < 3,
    ensures
        r.0 == value_row()[i as int].kind,
        r.1 == st.panel.panel_x + 8 + value_x(r.0),
        r.2 == section_top(st@, 3),
        r.3 == TOG_BOX_W,
        r.4 == SECTION_H,
{
    let (vx, vy, _vw, vh) = panel_tog2_rect(st);
    let td: ToggleDef = tog2_defs()[i];
    (td.kind, vx + td.x + td.w + 8, vy, TOG_BOX_W, vh)
}

/// The value whose box a point hits.
pub fn panel_toggle_box_hit(st: &EditorState, x: i32, y: i32) -> (r: Option<ToggleKind>)
    requires
        st@.panel.in_range(),
    ensures
        r == box_hit(st@, x as int, y as int),
{
    let mut i: usize = 0;
    while i < 3
        invariant
            st@.panel.in_range(),
            i <= 3,
            i > 0 ==> !in_value(st@, x as int, y as int, ToggleKind::SnapDistance),
            i > 1 ==> !in_value(st@, x as int, y as int, ToggleKind::SnapGap),
            i > 2 ==> !in_value(st@, x as int, y as int, ToggleKind::NudgeStep),
        decreases 3 - i,
    {
        let (kind, bx, by, bw, bh) = tog2_box_rect(st, i);
        if x >= bx && x <= bx + bw && y >= by && y <= by + bh {
            return Some(kind);
        }
        i += 1;
    }
    None
}

/// The value whose arrow buttons a point hits, and whether it is the upper one.
pub fn panel_toggle_spin_hit(st: &EditorState, x: i32, y: i32) -> (r: Option<(ToggleKind, bool)>)
    requires
        st@.panel.in_range(),
    ensures
        r == box_spin_hit(st@, x as int, y as int),
{
    let mut i: usize = 0;
    while i < 3
        invariant
            st@.panel.in_range(),
            i <= 3,
            i > 0 ==> !on_value_spin(st@, x as int, y as int, ToggleKind::SnapDistance),
            i > 1 ==> !on_value_spin(st@, x as int, y as int, ToggleKind::SnapGap),
            i > 2 ==> !on_value_spin(st@, x as int, y as int, ToggleKind::NudgeStep),
        decreases 3 - i,
    {
        let (kind, bx, by, bw, bh) = tog2_box_rect(st, i);
        let sx: i32 = bx + bw - SPIN_W;
        if x >= sx && x <= bx + bw && y >= by && y <= by + bh {
            return Some((kind, y <= by + bh / 2));
        }
        i += 1;
    }
    None
}

/// The value that the mouse wheel steps at a point: the one whose box it hits.
pub fn panel_toggle_wheel_hit(st: &EditorState, x: i32, y: i32) -> (r: Option<ToggleKind>)
    requires
        st@.panel.in_range(),
    ensures
        r == box_hit(st@, x as int, y as int),
{
    panel_toggle_box_hit(st, x, y)
}

// ===== Hint bar =====

/// The hint bar: where it begins, and the key of its text. It dodges the mouse.
pub open spec fn hint_bar(e: Ed) -> (int, Seq<char>) {
    (
        if e.panel.hint_top {
            0
        } else {
            e.area.screen_h - 40
        },
        match e.phase {
            EditorPhase::Selecting => "hint_selecting"@,
            EditorPhase::Arranging => "hint_arranging"@,
        },
    )
}

/// Where the hint bar begins, and its text.
pub fn hint_at<'a>(st: &EditorState, texts: &'a Texts) -> (r: (i32, &'a str))
    requires
        st@.area.in_range(),
    ensures
        r.0 == hint_bar(st@).0,
        r.1@ == texts.text(hint_bar(st@).1),
{
    let y: i32 = if st.panel.hint_top {
        0
    } else {
        st.area.screen_h - 40
    };
    let hint: &'a str = match st.phase {
        EditorPhase::Selecting => t(texts, "hint_selecting"),
        EditorPhase::Arranging => t(texts, "hint_arranging"),
    };
    (y, hint)
}

// ===== The question about an existing file =====

/// The box of the question: in the middle of the screen.
pub open spec fn question_box(sw: int, sh: int) -> (int, int, int, int) {
    (num::half(sw - 460), num::half(sh - 156), 460, 156)
}

/// The box of the question.
pub fn confirm_box(sw: i32, sh: i32) -> (r: (i32, i32, i32, i32))
    ensures
        (r.0 as int, r.1 as int, r.2 as int, r.3 as int) == question_box(sw as int, sh as int),
{
    let cw: i32 = 460;
    let ch: i32 = 156;
    let x: i64 = half_i64(sw as i64 - cw as i64);
    let y: i64 = half_i64(sh as i64 - ch as i64);
    (x as i32, y as i32, cw, ch)
}

/// The name of the file that is saved to: with the ending ".yml" in place of any
/// ".yaml" and ".yml".
pub open spec fn resolved(s: Seq<char>) -> Seq<char> {
    if s.len() == 0 {
        UNNAMED_CONFIG@
    } else {
        text::strip_trailing(text::strip_trailing(s, ".yaml"@), ".yml"@) + ".yml"@
    }
}

/// The name of the file that is saved to.
pub fn resolve_filename(s: &str) -> (r: String)
    ensures
        r@ == resolved(s@),
{
    let all: Vec<char> = chars_of(s);
    if all.len() == 0 {
        return owned(UNNAMED_CONFIG);
    }
    let one: Vec<char> = strip_trailing_chars(&all, &chars_of(".yaml"));
    let mut stem: Vec<char> = strip_trailing_chars(&one, &chars_of(".yml"));
    append_text(&mut stem, ".yml");
    string_of(&stem)
}

// ===== Laws =====

proof fn lemma_stripped(s: Seq<char>, p: Seq<char>)
    requires
        p.len() > 0,
    ensures
        !text::ends_with(text::strip_trailing(s, p), p),
    decreases s.len(),
{
    if text::ends_with(s, p) {
        lemma_stripped(s.take(s.len() - p.len()), p);
    }
}

/// A name that a file is saved to stays the same when it is resolved again.
pub proof fn law_resolving_settles(s: Seq<char>)
    ensures
        resolved(resolved(s)) == resolved(s),
{
    reveal_strlit(".yml");
    reveal_strlit(".yaml");
    reveal_strlit("未命名.yml");
    let yml = ".yml"@;
    let yaml = ".yaml"@;
    let r = resolved(s);
    let stem = if s.len() == 0 {
        UNNAMED_CONFIG@.take(3)
    } else {
        text::strip_trailing(text::strip_trailing(s, yaml), yml)
    };
    if s.len() == 0 {
        assert(r =~= stem + yml);
    } else {
        lemma_stripped(text::strip_trailing(s, yaml), yml);
    }
    assert(!text::ends_with(r, yaml)) by {
        if text::ends_with(r, yaml) {
            let tail = r.skip(r.len() - 5);
            assert(tail == yaml);
            assert(tail[2] == r[r.len() - 3]);
            assert(r[r.len() - 3] == yml[1]);
        }
    }
    assert(r.skip(r.len() - 4) =~= yml);
    assert(r.take(r.len() - 4) =~= stem);
    assert(!text::ends_with(stem, yml)) by {
        if s.len() == 0 {
            assert(stem.len() == 3);
        }
    }
    assert(text::strip_trailing(stem, yml) == stem);
    assert(text::strip_trailing(r, yml) == stem);
}

/// A point hits at most one of the rows of controls.
pub proof fn law_rows_do_not_overlap(e: Ed, y: int, a: int, b: int)
    requires
        0 <= a < b <= 3,
        on_row(e, y, a),
    ensures
        !on_row(e, y, b),
{
}

/// The rows of controls begin 108 pixels below the top of the panel and follow
/// every 42; each is 34 high.
pub proof fn law_rows_of_controls(e: Ed, y: int, row: int)
    ensures
        section_top(e, row) == e.panel.panel_y + 108 + 42 * row,
        on_row(e, y, row) == (0 <= y - e.panel.panel_y - 108 - 42 * row <= 34),
{
    assert(row * 42 == 42 * row);
}

/// The buttons are where the rows show them, and what lies between them hits none.
/// `d` counts from the left end of the row.
pub proof fn law_buttons_are_hit(e: Ed, x: int, y: int, d: int)
    requires
        d == x - e.panel.panel_x - 8,
    ensures
        ({
            let m = mode_hit(e, x, y);
            if on_row(e, y, 0) && 0 <= d <= 164 {
                m == Some(
                    if e.phase == EditorPhase::Selecting {
                        BtnAction::NextStep
                    } else {
                        BtnAction::BackToSelect
                    },
                )
            } else {
                m is None
            }
        }),
        ({
            let a = action_hit(e, x, y);
            &&& !on_row(e, y, 1) ==> a is None
            &&& on_row(e, y, 1) && 0 <= d <= 120 ==> a == Some(BtnAction::UndoLast)
            &&& on_row(e, y, 1) && e.phase == EditorPhase::Selecting ==> {
                &&& 128 <= d <= 216 ==> a == Some(BtnAction::Cancel)
                &&& d < 0 || 120 < d < 128 || d > 216 ==> a is None
            }
            &&& on_row(e, y, 1) && e.phase == EditorPhase::Arranging ==> {
                &&& 128 <= d <= 224 ==> a == Some(BtnAction::DeleteSelected)
                &&& 232 <= d <= 320 ==> a == Some(BtnAction::Save)
                &&& 328 <= d <= 404 ==> a == Some(BtnAction::Discard)
                &&& d < 0 || 120 < d < 128 || 224 < d < 232 || 320 < d < 328 || d > 404 ==> a
                    is None
            }
        }),
{
    reveal_with_fuel(span_hit, 5);
}

/// The toggles are where their row shows them, and what lies between them hits
/// none. `d` counts from the left end of the row.
pub proof fn law_toggles_are_hit(e: Ed, x: int, y: int, d: int)
    requires
        d == x - e.panel.panel_x - 8,
    ensures
        ({
            let t = toggle_hit(e, x, y);
            &&& !on_row(e, y, 2) ==> t is None
            &&& on_row(e, y, 2) ==> {
                &&& 0 <= d <= 60 ==> t == Some(ToggleKind::Magnifier)
                &&& 64 <= d <= 116 ==> t == Some(ToggleKind::Grid)
                &&& 120 <= d <= 180 ==> t == Some(ToggleKind::Crosshair)
                &&& 184 <= d <= 236 ==> t == Some(ToggleKind::XyLabel)
                &&& 240 <= d <= 288 ==> t == Some(ToggleKind::Snap)
                &&& 292 <= d <= 348 ==> t == Some(ToggleKind::TianSnap)
                &&& d < 0 || 60 < d < 64 || 116 < d < 120 || 180 < d < 184 || 236 < d < 240 || 288
                    < d < 292 || d > 348 ==> t is None
            }
        }),
{
    reveal_with_fuel(toggle_from, 7);
}

/// The boxes of the values are where their row shows them; the arrow buttons are
/// the last sixteen pixels of each, and the upper one reaches to the middle.
pub proof fn law_value_boxes_are_hit(e: Ed, x: int, y: int, d: int)
    requires
        d == x - e.panel.panel_x - 8,
    ensures
        ({
            let b = box_hit(e, x, y);
            let s = box_spin_hit(e, x, y);
            let up = y - e.panel.panel_y - 234 <= 17;
            &&& !on_row(e, y, 3) ==> b is None && s is None
            &&& on_row(e, y, 3) ==> {
                &&& 100 <= d <= 156 ==> b == Some(ToggleKind::SnapDistance)
                &&& 240 <= d <= 296 ==> b == Some(ToggleKind::SnapGap)
                &&& 364 <= d <= 420 ==> b == Some(ToggleKind::NudgeStep)
                &&& d < 100 || 156 < d < 240 || 296 < d < 364 || d > 420 ==> b is None
                &&& 140 <= d <= 156 ==> s == Some((ToggleKind::SnapDistance, up))
                &&& 280 <= d <= 296 ==> s == Some((ToggleKind::SnapGap, up))
                &&& 404 <= d <= 420 ==> s == Some((ToggleKind::NudgeStep, up))
                &&& d < 140 || 156 < d < 280 || 296 < d < 404 || d > 420 ==> s is None
            }
        }),
{
}

/// The question stands in the middle of the screen, to a pixel; the hint bar is 40
/// pixels at the top or the bottom and has the hint of the phase.
pub proof fn law_question_and_hint(e: Ed, sw: int, sh: int)
    requires
        sw >= 460,
        sh >= 156,
    ensures
        ({
            let q = question_box(sw, sh);
            &&& q.2 == 460 && q.3 == 156
            &&& 0 <= (sw - q.0 - q.2) - q.0 <= 1
            &&& 0 <= (sh - q.1 - q.3) - q.1 <= 1
        }),
        e.panel.hint_top ==> hint_bar(e).0 == 0,
        !e.panel.hint_top ==> hint_bar(e).0 + 40 == e.area.screen_h,
        e.phase == EditorPhase::Selecting ==> hint_bar(e).1 == "hint_selecting"@,
        e.phase == EditorPhase::Arranging ==> hint_bar(e).1 == "hint_arranging"@,
{
}

/// A file is saved under its name with the ending ".yml", whether it was typed
/// without an ending, with that one or with ".yaml"; without a name it gets the
/// fixed one.
pub proof fn law_names_get_their_ending(s: Seq<char>)
    requires
        s.len() > 0,
        !text::ends_with(s, ".yml"@),
        !text::ends_with(s, ".yaml"@),
    ensures
        resolved(s) == s + ".yml"@,
        resolved(s + ".yml"@) == s + ".yml"@,
        resolved(s + ".yaml"@) == s + ".yml"@,
        resolved(Seq::empty()) == "未命名.yml"@,
{
    reveal_strlit(".yml");
    reveal_strlit(".yaml");
    text::law_affixes_come_off(s, ".yml"@);
    text::law_affixes_come_off(s, ".yaml"@);
    let t = s + ".yml"@;
    assert(!text::ends_with(t, ".yaml"@)) by {
        if text::ends_with(t, ".yaml"@) {
            let u = t.skip(t.len() - 5);
            assert(u[1] == t[t.len() - 4]);
            assert(t[t.len() - 4] == '.');
            assert(u[1] == 'y');
        }
    }
}

/// Every button and toggle has the label of what it does.
pub proof fn law_labels_of_controls()
    ensures
        action_key(BtnAction::UndoLast) == "undo_last"@,
        action_key(BtnAction::NextStep) == "next_step"@,
        action_key(BtnAction::BackToSelect) == "back"@,
        action_key(BtnAction::Cancel) == "cancel"@,
        action_key(BtnAction::DeleteSelected) == "delete_selected"@,
        action_key(BtnAction::Save) == "save"@,
        action_key(BtnAction::Discard) == "discard"@,
        toggle_key(ToggleKind::Magnifier) == "toggle_magnifier"@,
        toggle_key(ToggleKind::Grid) == "toggle_grid"@,
        toggle_key(ToggleKind::Crosshair) == "toggle_crosshair"@,
        toggle_key(ToggleKind::XyLabel) == "toggle_xy"@,
        toggle_key(ToggleKind::Snap) == "toggle_snap"@,
        toggle_key(ToggleKind::TianSnap) == "toggle_tian"@,
        toggle_key(ToggleKind::SnapDistance) == "snap_dist"@,
        toggle_key(ToggleKind::SnapGap) == "snap_gap"@,
        toggle_key(ToggleKind::NudgeStep) == "nudge_step"@,
{
}

} // verus!
