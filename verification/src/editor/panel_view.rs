//! How the panel is drawn.

use vstd::prelude::*;

use crate::decimal;
use crate::editor::arranging::holds;
use crate::editor::common;
use crate::editor::common::{
    rgb, EditingTarget, EditorPhase, ElemProp, FieldKind, ToggleKind, FN_BOX_H,
    LIST_ITEM_H, LIST_TOP2, PANEL_W, SECTION_H, SPIN_W, TITLE_H, TOG_BOX_W,
};
use crate::editor::draw;
use crate::editor::draw::{
    draw_button, draw_rect_outline, fill_rect_solid, join2, number, put_rounded, put_words, steps,
    Op, OpView, Shape,
};
use crate::editor::panel;
use crate::editor::panel::{
    get_field_coord, list_area_rect, list_scroll_clamped, list_visible_count, panel_rect,
    props_for_kind, props_section_height, read_prop, scroll_thumb, ADD_BTN_H, ADD_W, FIELD_BASE_X,
    FIELD_LABEL_W, FIELD_STRIDE, FIELD_VAL_W, FIELD_VAL_X, FIELD_W, IDX_W, PROP_LABEL_W, PROP_ROW_H,
    PROP_SECTION_H, PROP_TOP_PAD, SB_LANE, SB_W,
};
use crate::editor::state;
use crate::editor::state::{Ed, EditorState, ElemKind, Element};
use crate::editor::ui;
use crate::editor::ui::{
    mode_buttons, panel_action_rect, panel_mode_rect, panel_tog1_rect, panel_tog2_rect, tog1_defs,
    tog2_defs, toggle_label, toolbar_buttons, Btn, ToggleDef,
};
use crate::i18n::{t, Texts};
use crate::text::{append_text, chars_of, owned, string_of};

verus! {

// ===== Arrow buttons =====

/// The two arrow buttons of a number.
pub open spec fn spinner_ops(x: int, y: int, w: int, h: int) -> Seq<OpView> {
    seq![
        draw::fill(x, y, w, h, common::color_number(32, 36, 52)),
        draw::outline(x, y, w, h, 1, common::color_number(52, 56, 76)),
        draw::centered("▲"@, (x - 2, y, w + 4, h / 2), common::color_number(190, 220, 120)),
        draw::centered(
            "▼"@,
            (x - 2, y + h / 2, w + 4, h - h / 2),
            common::color_number(150, 210, 255),
        ),
    ]
}

/// Draws the two arrow buttons of a number.
pub fn draw_spinner_pub(ops: &mut Vec<Op>, x: i32, y: i32, w: i32, h: i32)
    requires
        i32::MIN + 2 <= x,
        w <= i32::MAX - 4,
        0 <= h,
        y + h <= i32::MAX,
    ensures
        steps(final(ops)@) == steps(old(ops)@) + spinner_ops(
            x as int,
            y as int,
            w as int,
            h as int,
        ),
{
    let ghost before = steps(ops@);
    let half: i32 = h / 2;
    fill_rect_solid(ops, x, y, w, h, rgb(32, 36, 52));
    draw_rect_outline(ops, x, y, w, h, 1, rgb(52, 56, 76));
    put_words(ops, Shape::Text, owned("▲"), (x - 2, y, w + 4, half), rgb(190, 220, 120));
    put_words(
        ops,
        Shape::Text,
        owned("▼"),
        (x - 2, y + half, w + 4, h - half),
        rgb(150, 210, 255),
    );
    assert(steps(ops@) =~= before + spinner_ops(x as int, y as int, w as int, h as int));
}

// ===== Title and file name =====

/// The ground of the panel and its title.
#[verifier::opaque]
pub open spec fn title_ops(e: Ed, tx: Texts) -> Seq<OpView> {
    let px = e.panel.panel_x as int;
    let py = e.panel.panel_y as int;
    let pw = PANEL_W as int;
    let ph = panel::panel_height(e);
    let th = TITLE_H as int;
    let count = decimal::dec_int(e.doc.elements.len() as int) + tx.text("count_suffix"@);
    seq![
        draw::fill(px, py, pw, ph, common::color_number(22, 22, 22)),
        draw::rounded(
            Shape::RoundOutline,
            (px, py, pw, ph),
            6,
            1,
            common::color_number(80, 80, 80),
            0,
        ),
        draw::fill(px + 1, py + 1, pw - 2, th - 1, common::color_number(34, 34, 34)),
        draw::left(
            tx.text("region_list"@),
            (px + 10, py, 100, th),
            common::color_number(220, 220, 220),
        ),
        draw::left(count, (px + 100, py, 50, th), common::color_number(150, 150, 150)),
        draw::centered(
            tx.text("drag_hint"@),
            (px + pw - 70, py, 60, th),
            common::color_number(100, 100, 100),
        ),
        draw::fill(px, py + th, pw, 1, common::color_number(42, 42, 42)),
    ]
}

fn put_title(ops: &mut Vec<Op>, st: &EditorState, texts: &Texts)
    requires
        st@.in_range(),
    ensures
        steps(final(ops)@) == steps(old(ops)@) + title_ops(st@, *texts),
{
    proof {
        reveal(title_ops);
    }
    let ghost before = steps(ops@);
    let (px, py, pw, ph): (i32, i32, i32, i32) = panel_rect(st);
    let count: String = join2(
        number(st.doc.elements.len() as i32).as_str(),
        t(texts, "count_suffix"),
    );
    fill_rect_solid(ops, px, py, pw, ph, rgb(22, 22, 22));
    put_rounded(ops, Shape::RoundOutline, (px, py, pw, ph), 6, 1, rgb(80, 80, 80), 0);
    fill_rect_solid(ops, px + 1, py + 1, pw - 2, TITLE_H - 1, rgb(34, 34, 34));
    put_words(
        ops,
        Shape::TextLeft,
        owned(t(texts, "region_list")),
        (px + 10, py, 100, TITLE_H),
        rgb(220, 220, 220),
    );
    put_words(ops, Shape::TextLeft, count, (px + 100, py, 50, TITLE_H), rgb(150, 150, 150));
    put_words(
        ops,
        Shape::Text,
        owned(t(texts, "drag_hint")),
        (px + pw - 70, py, 60, TITLE_H),
        rgb(100, 100, 100),
    );
    fill_rect_solid(ops, px, py + TITLE_H, pw, 1, rgb(42, 42, 42));
    assert(steps(ops@) =~= before + title_ops(st@, *texts));
}

/// The text in the box of the file name: with a bar behind it while it is typed
/// in, and a hint where there is none.
pub open spec fn name_text(e: Ed, tx: Texts) -> Seq<char> {
    if e.entry.filename_focused {
        e.entry.save_filename + "|"@
    } else if e.entry.save_filename.len() == 0 {
        tx.text("filename_hint"@)
    } else {
        e.entry.save_filename
    }
}

/// The box of the file name.
#[verifier::opaque]
pub open spec fn name_ops(e: Ed, tx: Texts) -> Seq<OpView> {
    let px = e.panel.panel_x as int;
    let py = e.panel.panel_y as int;
    let pw = PANEL_W as int;
    let fx = px + 10;
    let fy = py + TITLE_H + 22;
    let fw = pw - 20;
    let fh = FN_BOX_H as int;
    let hint = e.entry.save_filename.len() == 0 && !e.entry.filename_focused;
    seq![
        draw::left(
            tx.text("filename_label"@),
            (px + 10, py + TITLE_H + 4, pw - 20, 16),
            common::color_number(140, 140, 140),
        ),
        draw::fill(fx, fy, fw, fh, common::color_number(14, 14, 14)),
        draw::outline(
            fx,
            fy,
            fw,
            fh,
            1,
            if e.entry.filename_focused {
                common::color_number(255, 204, 0)
            } else {
                common::color_number(68, 68, 68)
            },
        ),
        draw::left(
            name_text(e, tx),
            (fx + 8, fy, fw - 16, fh),
            if hint {
                common::color_number(100, 100, 100)
            } else {
                common::color_number(255, 255, 255)
            },
        ),
    ]
}

fn put_name(ops: &mut Vec<Op>, st: &EditorState, texts: &Texts)
    requires
        st@.in_range(),
    ensures
        steps(final(ops)@) == steps(old(ops)@) + name_ops(st@, *texts),
{
    proof {
        reveal(name_ops);
    }
    let ghost before = steps(ops@);
    let px: i32 = st.panel.panel_x;
    let py: i32 = st.panel.panel_y;
    let fx: i32 = px + 10;
    let fy: i32 = py + TITLE_H + 22;
    let fw: i32 = PANEL_W - 20;
    let focused: bool = st.entry.filename_focused;
    put_words(
        ops,
        Shape::TextLeft,
        owned(t(texts, "filename_label")),
        (px + 10, py + TITLE_H + 4, PANEL_W - 20, 16),
        rgb(140, 140, 140),
    );
    fill_rect_solid(ops, fx, fy, fw, FN_BOX_H, rgb(14, 14, 14));
    let border: u32 = if focused {
        rgb(255, 204, 0)
    } else {
        rgb(68, 68, 68)
    };
    draw_rect_outline(ops, fx, fy, fw, FN_BOX_H, 1, border);
    let name: Vec<char> = chars_of(st.entry.save_filename.as_str());
    let hint: bool = name.len() == 0 && !focused;
    let shown: String = if focused {
        join2(st.entry.save_filename.as_str(), "|")
    } else if hint {
        owned(t(texts, "filename_hint"))
    } else {
        owned(st.entry.save_filename.as_str())
    };
    let color: u32 = if hint {
        rgb(100, 100, 100)
    } else {
        rgb(255, 255, 255)
    };
    put_words(ops, Shape::TextLeft, shown, (fx + 8, fy, fw - 16, FN_BOX_H), color);
    assert(steps(ops@) =~= before + name_ops(st@, *texts));
}

// ===== Rows of controls =====

/// The buttons of a row.
pub open spec fn row_ops(spans: Seq<ui::Span>, tx: Texts, x: int, y: int) -> Seq<OpView>
    decreases spans.len(),
{
    if spans.len() == 0 {
        Seq::empty()
    } else {
        let s = spans.last();
        row_ops(spans.drop_last(), tx, x, y) + draw::button_ops(
            (x + s.x, y, s.w as int, SECTION_H as int),
            tx.text(ui::action_key(s.action)),
            ui::action_colors(s.action),
        )
    }
}

/// The rows of buttons.
#[verifier::opaque]
pub open spec fn action_ops(e: Ed, tx: Texts) -> Seq<OpView> {
    let x = e.panel.panel_x + 8;
    row_ops(ui::mode_row(e.phase), tx, x, ui::section_top(e, 0)) + row_ops(
        ui::action_row(e.phase),
        tx,
        x,
        ui::section_top(e, 1),
    )
}

fn put_row(ops: &mut Vec<Op>, btns: Vec<Btn<'_>>, Ghost(spans): Ghost<Seq<ui::Span>>, texts: &Texts, x: i32, y: i32)
    requires
        btns@.len() == spans.len(),
        forall|i: int| 0 <= i < btns@.len() ==> ui::is_button(#[trigger] btns@[i], spans[i], *texts),
        forall|i: int| 0 <= i < spans.len() ==> 0 <= (#[trigger] spans[i]).x <= 1000,
        -0x2000 <= x <= i32::MAX - 0x2000,
    ensures
        steps(final(ops)@) == steps(old(ops)@) + row_ops(spans, *texts, x as int, y as int),
{
    let ghost before = steps(ops@);
    assert(before + row_ops(spans.take(0), *texts, x as int, y as int) =~= before);
    for i in 0..btns.len()
        invariant
            btns@.len() == spans.len(),
            forall|j: int|
                0 <= j < btns@.len() ==> ui::is_button(#[trigger] btns@[j], spans[j], *texts),
            forall|j: int| 0 <= j < spans.len() ==> 0 <= (#[trigger] spans[j]).x <= 1000,
            -0x2000 <= x <= i32::MAX - 0x2000,
            steps(ops@) == before + row_ops(spans.take(i as int), *texts, x as int, y as int),
    {
        let b: &Btn<'_> = &btns[i];
        proof {
            assert(ui::is_button(btns@[i as int], spans[i as int], *texts));
            assert(spans.take(i + 1).drop_last() =~= spans.take(i as int));
            assert(spans.take(i + 1).last() == spans[i as int]);
        }
        draw_button(ops, (x + b.x, y, b.w, SECTION_H), b.label, b.bg, b.fg, b.border);
        assert(steps(ops@) =~= before + row_ops(spans.take(i + 1), *texts, x as int, y as int));
    }
    assert(spans.take(spans.len() as int) =~= spans);
}

/// Draws the rows of modes and actions.
pub fn draw_panel_actions(ops: &mut Vec<Op>, st: &EditorState, texts: &Texts)
    requires
        st@.in_range(),
    ensures
        steps(final(ops)@) == steps(old(ops)@) + action_ops(st@, *texts),
{
    proof {
        reveal(action_ops);
    }
    let ghost before = steps(ops@);
    let (mx, my, _mw, _mh): (i32, i32, i32, i32) = panel_mode_rect(st);
    put_row(ops, mode_buttons(st.phase, texts), Ghost(ui::mode_row(st.phase)), texts, mx, my);
    let (rx, ry, _rw, _rh): (i32, i32, i32, i32) = panel_action_rect(st);
    put_row(ops, toolbar_buttons(st.phase, texts), Ghost(ui::action_row(st.phase)), texts, rx, ry);
    assert(steps(ops@) =~= before + action_ops(st@, *texts));
}

/// Whether a helper is on.
pub open spec fn is_on(e: Ed, k: ToggleKind) -> bool {
    match k {
        ToggleKind::Magnifier => e.prefs.magnifier_on,
        ToggleKind::Grid => e.prefs.grid_on,
        ToggleKind::Crosshair => e.prefs.crosshair_on,
        ToggleKind::XyLabel => e.prefs.xy_label_on,
        ToggleKind::Snap => e.prefs.snap_on,
        ToggleKind::TianSnap => e.prefs.snap_tian,
        _ => false,
    }
}

/// The colors of a toggle: ground, text and border.
pub open spec fn toggle_colors(on: bool) -> (u32, u32, u32) {
    if on {
        (
            common::color_number(56, 132, 96),
            common::color_number(255, 255, 255),
            common::color_number(120, 200, 150),
        )
    } else {
        (
            common::color_number(50, 50, 60),
            common::color_number(120, 120, 130),
            common::color_number(70, 70, 80),
        )
    }
}

/// The row of toggles.
pub open spec fn toggle_ops(e: Ed, defs: Seq<ToggleDef>, tx: Texts) -> Seq<OpView>
    decreases defs.len(),
{
    if defs.len() == 0 {
        Seq::empty()
    } else {
        let d = defs.last();
        toggle_ops(e, defs.drop_last(), tx) + draw::button_ops(
            (
                e.panel.panel_x + 8 + d.x,
                ui::section_top(e, 2),
                d.w as int,
                SECTION_H as int,
            ),
            tx.text(ui::toggle_key(d.kind)),
            toggle_colors(is_on(e, d.kind)),
        )
    }
}

fn helper_on(st: &EditorState, k: ToggleKind) -> (r: bool)
    ensures
        r == is_on(st@, k),
{
    match k {
        ToggleKind::Magnifier => st.prefs.magnifier_on,
        ToggleKind::Grid => st.prefs.grid_on,
        ToggleKind::Crosshair => st.prefs.crosshair_on,
        ToggleKind::XyLabel => st.prefs.xy_label_on,
        ToggleKind::Snap => st.prefs.snap_on,
        ToggleKind::TianSnap => st.prefs.snap_tian,
        _ => false,
    }
}

fn put_toggles(ops: &mut Vec<Op>, st: &EditorState, texts: &Texts)
    requires
        st@.in_range(),
    ensures
        steps(final(ops)@) == steps(old(ops)@) + toggle_ops(st@, ui::toggle_row(), *texts),
{
    let ghost before = steps(ops@);
    let (rx, ry, _rw, rh): (i32, i32, i32, i32) = panel_tog1_rect(st);
    let defs: Vec<ToggleDef> = tog1_defs();
    assert(before + toggle_ops(st@, defs@.take(0), *texts) =~= before);
    for i in 0..defs.len()
        invariant
            st@.in_range(),
            defs@ == ui::toggle_row(),
            rx == st.panel.panel_x + 8,
            ry == ui::section_top(st@, 2),
            rh == SECTION_H,
            steps(ops@) == before + toggle_ops(st@, defs@.take(i as int), *texts),
    {
        let d: ToggleDef = defs[i];
        proof {
            assert(defs@.take(i + 1).drop_last() =~= defs@.take(i as int));
            assert(defs@.take(i + 1).last() == d);
            assert(0 <= d.x <= 1000);
        }
        let (bg, fg, border): (u32, u32, u32) = if helper_on(st, d.kind) {
            (rgb(56, 132, 96), rgb(255, 255, 255), rgb(120, 200, 150))
        } else {
            (rgb(50, 50, 60), rgb(120, 120, 130), rgb(70, 70, 80))
        };
        draw_button(ops, (rx + d.x, ry, d.w, rh), toggle_label(d.kind, texts), bg, fg, border);
        assert(steps(ops@) =~= before + toggle_ops(st@, defs@.take(i + 1), *texts));
    }
    assert(defs@.take(defs@.len() as int) =~= defs@);
}

/// The number of a value, and what is typed in where it is.
pub open spec fn value_of(e: Ed, k: ToggleKind) -> (i32, EditingTarget) {
    match k {
        ToggleKind::SnapDistance => (e.prefs.snap_distance, EditingTarget::SnapDistance),
        ToggleKind::SnapGap => (e.prefs.snap_gap, EditingTarget::SnapGap),
        _ => (e.prefs.nudge_step, EditingTarget::NudgeStep),
    }
}

/// The text of a field: what is typed in, with a bar behind it, or its value.
pub open spec fn field_text(e: Ed, editing: bool, value: Seq<char>) -> Seq<char> {
    if editing {
        e.entry.text + "|"@
    } else {
        value
    }
}

/// A value of the row of values.
#[verifier::opaque]
pub open spec fn one_value_ops(e: Ed, d: ToggleDef, tx: Texts) -> Seq<OpView> {
    let vx = e.panel.panel_x + 8;
    let vy = ui::section_top(e, 3);
    let vh = SECTION_H as int;
    let bx = vx + d.x + d.w + 8;
    let bw = TOG_BOX_W as int;
    let (v, target) = value_of(e, d.kind);
    let editing = e.entry.target == target;
    seq![
        draw::left(
            tx.text(ui::toggle_key(d.kind)),
            (vx + d.x, vy, d.w as int, vh),
            common::color_number(160, 165, 180),
        ),
        draw::fill(
            bx,
            vy,
            bw,
            vh,
            if editing {
                common::color_number(60, 70, 100)
            } else {
                common::color_number(30, 34, 50)
            },
        ),
        draw::outline(bx, vy, bw, vh, 1, common::color_number(80, 90, 130)),
        draw::centered(
            field_text(e, editing, decimal::dec_int(v as int)),
            (bx + 2, vy, bw - SPIN_W - 4, vh),
            common::color_number(120, 230, 140),
        ),
    ] + spinner_ops(bx + bw - SPIN_W, vy, SPIN_W as int, vh)
}

/// The row of values.
pub open spec fn value_ops(e: Ed, defs: Seq<ToggleDef>, tx: Texts) -> Seq<OpView>
    decreases defs.len(),
{
    if defs.len() == 0 {
        Seq::empty()
    } else {
        value_ops(e, defs.drop_last(), tx) + one_value_ops(e, defs.last(), tx)
    }
}

fn shown_text(st: &EditorState, editing: bool, value: String) -> (r: String)
    ensures
        r@ == field_text(st@, editing, value@),
{
    if editing {
        join2(st.entry.editing_text.as_str(), "|")
    } else {
        value
    }
}

fn put_value(ops: &mut Vec<Op>, st: &EditorState, d: ToggleDef, texts: &Texts)
    requires
        st@.in_range(),
        0 <= d.x <= 1000,
        0 <= d.w <= 1000,
    ensures
        steps(final(ops)@) == steps(old(ops)@) + one_value_ops(st@, d, *texts),
{
    proof {
        reveal(one_value_ops);
    }
    let ghost before = steps(ops@);
    let (vx, vy, _vw, vh): (i32, i32, i32, i32) = panel_tog2_rect(st);
    let (v, target): (i32, EditingTarget) = match d.kind {
        ToggleKind::SnapDistance => (st.prefs.snap_distance, EditingTarget::SnapDistance),
        ToggleKind::SnapGap => (st.prefs.snap_gap, EditingTarget::SnapGap),
        _ => (st.prefs.nudge_step, EditingTarget::NudgeStep),
    };
    let editing: bool = st.entry.editing_target == target;
    let bx: i32 = vx + d.x + d.w + 8;
    let bw: i32 = TOG_BOX_W;
    put_words(
        ops,
        Shape::TextLeft,
        owned(toggle_label(d.kind, texts)),
        (vx + d.x, vy, d.w, vh),
        rgb(160, 165, 180),
    );
    let bg: u32 = if editing {
        rgb(60, 70, 100)
    } else {
        rgb(30, 34, 50)
    };
    fill_rect_solid(ops, bx, vy, bw, vh, bg);
    draw_rect_outline(ops, bx, vy, bw, vh, 1, rgb(80, 90, 130));
    put_words(
        ops,
        Shape::Text,
        shown_text(st, editing, number(v)),
        (bx + 2, vy, bw - SPIN_W - 4, vh),
        rgb(120, 230, 140),
    );
    draw_spinner_pub(ops, bx + bw - SPIN_W, vy, SPIN_W, vh);
    assert(steps(ops@) =~= before + one_value_ops(st@, d, *texts));
}

fn put_values(ops: &mut Vec<Op>, st: &EditorState, texts: &Texts)
    requires
        st@.in_range(),
    ensures
        steps(final(ops)@) == steps(old(ops)@) + value_ops(st@, ui::value_row(), *texts),
{
    let ghost before = steps(ops@);
    let defs: Vec<ToggleDef> = tog2_defs();
    assert(before + value_ops(st@, defs@.take(0), *texts) =~= before);
    for i in 0..defs.len()
        invariant
            st@.in_range(),
            defs@ == ui::value_row(),
            steps(ops@) == before + value_ops(st@, defs@.take(i as int), *texts),
    {
        proof {
            assert(defs@.take(i + 1).drop_last() =~= defs@.take(i as int));
            assert(defs@.take(i + 1).last() == defs@[i as int]);
        }
        put_value(ops, st, defs[i], texts);
        assert(steps(ops@) =~= before + value_ops(st@, defs@.take(i + 1), *texts));
    }
    assert(defs@.take(defs@.len() as int) =~= defs@);
}

/// The rows of toggles and values.
pub open spec fn both_toggle_ops(e: Ed, tx: Texts) -> Seq<OpView> {
    toggle_ops(e, ui::toggle_row(), tx) + value_ops(e, ui::value_row(), tx)
}

/// Draws the rows of toggles and values.
pub fn draw_panel_toggles(ops: &mut Vec<Op>, st: &EditorState, texts: &Texts)
    requires
        st@.in_range(),
    ensures
        steps(final(ops)@) == steps(old(ops)@) + both_toggle_ops(st@, *texts),
{
    let ghost before = steps(ops@);
    put_toggles(ops, st, texts);
    put_values(ops, st, texts);
    proof {
        let e = st@;
        draw::lemma_added(
            before,
            toggle_ops(e, ui::toggle_row(), *texts),
            value_ops(e, ui::value_row(), *texts),
        );
    }
}

// ===== List =====

/// The name of a coordinate.
pub open spec fn field_name(fk: FieldKind) -> Seq<char> {
    match fk {
        FieldKind::X => "X"@,
        FieldKind::Y => "Y"@,
        FieldKind::Width => "W"@,
        FieldKind::Height => "H"@,
    }
}

/// The column of a coordinate.
pub open spec fn field_col(fk: FieldKind) -> int {
    match fk {
        FieldKind::X => 0,
        FieldKind::Y => 1,
        FieldKind::Width => 2,
        FieldKind::Height => 3,
    }
}

/// The field of a coordinate of a list item.
#[verifier::opaque]
pub open spec fn field_ops(e: Ed, i: int, fk: FieldKind) -> Seq<OpView> {
    let x = e.panel.panel_x + FIELD_BASE_X + field_col(fk) * FIELD_STRIDE;
    let y = panel::row_top(e, i) + 4;
    let w = FIELD_W as int;
    let h = LIST_ITEM_H - 8;
    let editing = e.entry.target == EditingTarget::RegionField(i as usize, fk);
    seq![
        draw::fill(
            x,
            y,
            w,
            h,
            if editing {
                common::color_number(50, 56, 80)
            } else {
                common::color_number(14, 14, 14)
            },
        ),
        draw::outline(x, y, w, h, 1, common::color_number(60, 60, 60)),
        draw::words(
            Shape::LabelText,
            field_name(fk),
            (x + 3, y, FIELD_LABEL_W as int, h),
            common::color_number(120, 120, 120),
        ),
        draw::words(
            Shape::ValueText,
            field_text(e, editing, decimal::dec_int(panel::coord_of(e, i, fk) as int)),
            (x + FIELD_VAL_X, y, FIELD_VAL_W as int, h),
            common::color_number(150, 220, 160),
        ),
    ] + spinner_ops(x + FIELD_W - SPIN_W, y, SPIN_W as int, h)
}

fn put_field(ops: &mut Vec<Op>, st: &EditorState, i: usize, iy: i32, fk: FieldKind)
    requires
        st@.in_range(),
        i < st@.doc.elements.len(),
        iy == panel::row_top(st@, i as int),
        0 <= iy <= i32::MAX - 0x2000,
    ensures
        steps(final(ops)@) == steps(old(ops)@) + field_ops(st@, i as int, fk),
{
    proof {
        reveal(field_ops);
    }
    let ghost before = steps(ops@);
    let (name, col): (&str, i32) = match fk {
        FieldKind::X => ("X", 0),
        FieldKind::Y => ("Y", 1),
        FieldKind::Width => ("W", 2),
        FieldKind::Height => ("H", 3),
    };
    let x: i32 = st.panel.panel_x + FIELD_BASE_X + col * FIELD_STRIDE;
    let y: i32 = iy + 4;
    let h: i32 = LIST_ITEM_H - 8;
    let editing: bool = st.entry.editing_target == EditingTarget::RegionField(i, fk);
    let bg: u32 = if editing {
        rgb(50, 56, 80)
    } else {
        rgb(14, 14, 14)
    };
    fill_rect_solid(ops, x, y, FIELD_W, h, bg);
    draw_rect_outline(ops, x, y, FIELD_W, h, 1, rgb(60, 60, 60));
    put_words(
        ops,
        Shape::LabelText,
        owned(name),
        (x + 3, y, FIELD_LABEL_W, h),
        rgb(120, 120, 120),
    );
    let value: String = number(get_field_coord(st, i, fk));
    put_words(
        ops,
        Shape::ValueText,
        shown_text(st, editing, value),
        (x + FIELD_VAL_X, y, FIELD_VAL_W, h),
        rgb(150, 220, 160),
    );
    draw_spinner_pub(ops, x + FIELD_W - SPIN_W, y, SPIN_W, h);
    assert(steps(ops@) =~= before + field_ops(st@, i as int, fk));
}

/// What marks a list item that is selected.
#[verifier::opaque]
pub open spec fn mark_ops(e: Ed, i: int) -> Seq<OpView> {
    let px = e.panel.panel_x as int;
    let y = panel::row_top(e, i);
    if e.doc.selected.contains(i as usize) {
        seq![
            draw::fill(
                px + 4,
                y,
                PANEL_W - SB_LANE - 12,
                LIST_ITEM_H - 2,
                common::color_number(38, 44, 66),
            ),
            draw::fill(px + 4, y, 3, LIST_ITEM_H - 2, common::color_number(80, 160, 255)),
        ]
    } else {
        Seq::empty()
    }
}

/// The line below a list item that is not the last.
#[verifier::opaque]
pub open spec fn divider_ops(e: Ed, i: int) -> Seq<OpView> {
    if i < e.doc.elements.len() - 1 {
        seq![
            draw::fill(
                e.panel.panel_x + 8,
                panel::row_top(e, i) + LIST_ITEM_H - 2,
                PANEL_W - SB_LANE - 20,
                1,
                common::color_number(42, 42, 42),
            ),
        ]
    } else {
        Seq::empty()
    }
}

/// The label of a list item: its number and its badge.
pub open spec fn item_label(e: Ed, tx: Texts, i: int) -> Seq<char> {
    "#"@ + decimal::dec_int(i + 1) + "["@ + tx.text(
        state::badge_key(e.doc.elements[i].extra.kind),
    ) + "]"@
}

/// The cross that deletes a list item.
#[verifier::opaque]
pub open spec fn cross_ops(e: Ed, i: int) -> Seq<OpView> {
    if e.phase == EditorPhase::Arranging {
        let far = if e.doc.elements.len() > panel::visible_count(e) {
            36int
        } else {
            24
        };
        seq![
            draw::centered(
                "✕"@,
                (e.panel.panel_x + PANEL_W - far, panel::row_top(e, i) + 12, 18, 18),
                common::color_number(180, 90, 90),
            ),
        ]
    } else {
        Seq::empty()
    }
}

/// The label of a list item.
pub open spec fn label_op(e: Ed, tx: Texts, i: int) -> OpView {
    draw::left(
        item_label(e, tx, i),
        (e.panel.panel_x + 8, panel::row_top(e, i), IDX_W as int, LIST_ITEM_H - 2),
        if e.doc.selected.contains(i as usize) {
            common::color_number(150, 210, 255)
        } else {
            common::color_number(200, 200, 200)
        },
    )
}

/// Width and height of a list item. A text has none.
pub open spec fn size_ops(e: Ed, i: int) -> Seq<OpView> {
    if e.doc.elements[i].extra.kind == ElemKind::Text {
        Seq::empty()
    } else {
        field_ops(e, i, FieldKind::Width) + field_ops(e, i, FieldKind::Height)
    }
}

/// A list item.
#[verifier::opaque]
pub open spec fn item_ops(e: Ed, tx: Texts, i: int) -> Seq<OpView> {
    mark_ops(e, i) + divider_ops(e, i) + seq![label_op(e, tx, i)] + field_ops(e, i, FieldKind::X)
        + field_ops(e, i, FieldKind::Y) + size_ops(e, i) + cross_ops(e, i)
}

/// The list items from one on, as far as there is room for them.
pub open spec fn items_from(e: Ed, tx: Texts, i: int) -> Seq<OpView>
    decreases e.doc.elements.len() - i,
{
    if i >= e.doc.elements.len() || !panel::row_fits(e, i) {
        Seq::empty()
    } else {
        item_ops(e, tx, i) + items_from(e, tx, i + 1)
    }
}

fn label_of(e: &Element, i: usize, texts: &Texts) -> (r: String)
    requires
        i < i32::MAX,
    ensures
        r@ == "#"@ + decimal::dec_int(i + 1) + "["@ + texts.text(state::badge_key(e.extra.kind))
            + "]"@,
{
    let mut v: Vec<char> = chars_of("#");
    append_text(&mut v, number((i + 1) as i32).as_str());
    append_text(&mut v, "[");
    append_text(&mut v, e.extra.kind.badge(texts));
    append_text(&mut v, "]");
    string_of(&v)
}

fn put_mark(ops: &mut Vec<Op>, st: &EditorState, i: usize, iy: i32)
    requires
        st@.in_range(),
        iy == panel::row_top(st@, i as int),
        0 <= iy <= i32::MAX - 0x2000,
    ensures
        steps(final(ops)@) == steps(old(ops)@) + mark_ops(st@, i as int),
{
    proof {
        reveal(mark_ops);
    }
    let ghost before = steps(ops@);
    let px: i32 = st.panel.panel_x;
    if holds(&st.doc.selected_indices, i) {
        fill_rect_solid(ops, px + 4, iy, PANEL_W - SB_LANE - 12, LIST_ITEM_H - 2, rgb(38, 44, 66));
        fill_rect_solid(ops, px + 4, iy, 3, LIST_ITEM_H - 2, rgb(80, 160, 255));
    }
    assert(steps(ops@) =~= before + mark_ops(st@, i as int));
}

fn put_divider(ops: &mut Vec<Op>, st: &EditorState, i: usize, iy: i32)
    requires
        st@.in_range(),
        i < st@.doc.elements.len(),
        iy == panel::row_top(st@, i as int),
        0 <= iy <= i32::MAX - 0x2000,
    ensures
        steps(final(ops)@) == steps(old(ops)@) + divider_ops(st@, i as int),
{
    proof {
        reveal(divider_ops);
    }
    let ghost before = steps(ops@);
    if i < st.doc.elements.len() - 1 {
        fill_rect_solid(
            ops,
            st.panel.panel_x + 8,
            iy + LIST_ITEM_H - 2,
            PANEL_W - SB_LANE - 20,
            1,
            rgb(42, 42, 42),
        );
    }
    assert(steps(ops@) =~= before + divider_ops(st@, i as int));
}

fn put_label(ops: &mut Vec<Op>, st: &EditorState, texts: &Texts, i: usize, iy: i32)
    requires
        st@.in_range(),
        i < st@.doc.elements.len(),
        iy == panel::row_top(st@, i as int),
    ensures
        steps(final(ops)@) == steps(old(ops)@) + seq![label_op(st@, *texts, i as int)],
{
    let ghost before = steps(ops@);
    let color: u32 = if holds(&st.doc.selected_indices, i) {
        rgb(150, 210, 255)
    } else {
        rgb(200, 200, 200)
    };
    assert(st.doc.elements@[i as int]@ == st@.doc.elements[i as int]);
    let label: String = label_of(&st.doc.elements[i], i, texts);
    put_words(
        ops,
        Shape::TextLeft,
        label,
        (st.panel.panel_x + 8, iy, IDX_W, LIST_ITEM_H - 2),
        color,
    );
    assert(steps(ops@) =~= before + seq![label_op(st@, *texts, i as int)]);
}

fn put_sizes(ops: &mut Vec<Op>, st: &EditorState, i: usize, iy: i32)
    requires
        st@.in_range(),
        i < st@.doc.elements.len(),
        iy == panel::row_top(st@, i as int),
        0 <= iy <= i32::MAX - 0x2000,
    ensures
        steps(final(ops)@) == steps(old(ops)@) + size_ops(st@, i as int),
{
    let ghost before = steps(ops@);
    assert(st.doc.elements@[i as int]@ == st@.doc.elements[i as int]);
    if st.doc.elements[i].extra.kind != ElemKind::Text {
        put_field(ops, st, i, iy, FieldKind::Width);
        put_field(ops, st, i, iy, FieldKind::Height);
        proof {
            draw::lemma_added(
                before,
                field_ops(st@, i as int, FieldKind::Width),
                field_ops(st@, i as int, FieldKind::Height),
            );
        }
    } else {
        assert(before + Seq::<OpView>::empty() =~= before);
    }
}

fn put_cross(ops: &mut Vec<Op>, st: &EditorState, i: usize, iy: i32)
    requires
        st@.in_range(),
        iy == panel::row_top(st@, i as int),
        0 <= iy <= i32::MAX - 0x2000,
    ensures
        steps(final(ops)@) == steps(old(ops)@) + cross_ops(st@, i as int),
{
    proof {
        reveal(cross_ops);
    }
    let ghost before = steps(ops@);
    if st.phase == EditorPhase::Arranging {
        let far: i32 = if st.doc.elements.len() as i32 > list_visible_count(st) {
            36
        } else {
            24
        };
        put_words(
            ops,
            Shape::Text,
            owned("✕"),
            (st.panel.panel_x + PANEL_W - far, iy + (LIST_ITEM_H - 18) / 2, 18, 18),
            rgb(180, 90, 90),
        );
    }
    assert(steps(ops@) =~= before + cross_ops(st@, i as int));
}

fn put_item(ops: &mut Vec<Op>, st: &EditorState, texts: &Texts, i: usize, iy: i32)
    requires
        st@.in_range(),
        i < st@.doc.elements.len(),
        iy == panel::row_top(st@, i as int),
        0 <= iy <= i32::MAX - 0x2000,
    ensures
        steps(final(ops)@) == steps(old(ops)@) + item_ops(st@, *texts, i as int),
{
    let ghost before = steps(ops@);
    put_mark(ops, st, i, iy);
    put_divider(ops, st, i, iy);
    put_label(ops, st, texts, i, iy);
    put_field(ops, st, i, iy, FieldKind::X);
    put_field(ops, st, i, iy, FieldKind::Y);
    put_sizes(ops, st, i, iy);
    put_cross(ops, st, i, iy);
    proof {
        reveal(item_ops);
        let e = st@;
        let k = i as int;
        let a1 = mark_ops(e, k);
        let a2 = a1 + divider_ops(e, k);
        let a3 = a2 + seq![label_op(e, *texts, k)];
        let a4 = a3 + field_ops(e, k, FieldKind::X);
        let a5 = a4 + field_ops(e, k, FieldKind::Y);
        let a6 = a5 + size_ops(e, k);
        draw::lemma_added(before, a1, divider_ops(e, k));
        draw::lemma_added(before, a2, seq![label_op(e, *texts, k)]);
        draw::lemma_added(before, a3, field_ops(e, k, FieldKind::X));
        draw::lemma_added(before, a4, field_ops(e, k, FieldKind::Y));
        draw::lemma_added(before, a5, size_ops(e, k));
        draw::lemma_added(before, a6, cross_ops(e, k));
    }
}

fn put_items(ops: &mut Vec<Op>, st: &EditorState, texts: &Texts)
    requires
        st@.in_range(),
    ensures
        steps(final(ops)@) == steps(old(ops)@) + items_from(
            st@,
            *texts,
            panel::scroll_of(st@),
        ),
{
    let ghost before = steps(ops@);
    let ghost e = st@;
    let (_lx, top, _lw, h): (i32, i32, i32, i32) = list_area_rect(st);
    let bottom: i32 = top + h;
    let scroll: i32 = list_scroll_clamped(st);
    let ghost all = items_from(e, *texts, scroll as int);
    let mut i: usize = scroll as usize;
    while i < st.doc.elements.len()
        invariant
            st@.in_range(),
            e == st@,
            top == panel::list_top(e),
            bottom == panel::list_bottom(e),
            0 <= top,
            bottom <= i32::MAX - 0x2000,
            scroll == panel::scroll_of(e),
            0 <= scroll <= i <= e.doc.elements.len(),
            before == steps(old(ops)@),
            all == items_from(e, *texts, scroll as int),
            before + all == steps(ops@) + items_from(e, *texts, i as int),
        decreases st.doc.elements.len() - i,
    {
        let far: i64 = top as i64 + (i as i64 - scroll as i64) * LIST_ITEM_H as i64;
        assert(far == panel::row_top(e, i as int));
        if far + LIST_ITEM_H as i64 > bottom as i64 {
            assert(steps(ops@) + items_from(e, *texts, i as int) =~= steps(ops@));
            return;
        }
        let iy: i32 = far as i32;
        let ghost s = steps(ops@);
        put_item(ops, st, texts, i, iy);
        proof {
            draw::lemma_added(s, item_ops(e, *texts, i as int), items_from(e, *texts, i + 1));
        }
        i += 1;
    }
    assert(steps(ops@) + items_from(e, *texts, i as int) =~= steps(ops@));
}

/// The scroll bar, where the list can be scrolled.
#[verifier::opaque]
pub open spec fn scroll_ops(e: Ed) -> Seq<OpView> {
    if panel::max_scroll(e) > 0 {
        let x = e.panel.panel_x + PANEL_W - SB_LANE;
        let top = panel::list_top(e);
        let (off, len) = panel::thumb(e);
        let w = SB_W as int;
        seq![
            draw::fill(
                x,
                top,
                w,
                panel::list_bottom(e) - top,
                common::color_number(26, 26, 32),
            ),
            draw::fill(x, top + off, w, len, common::color_number(72, 76, 92)),
            draw::outline(x, top + off, w, len, 1, common::color_number(100, 110, 140)),
        ]
    } else {
        Seq::empty()
    }
}

fn put_scroll_bar(ops: &mut Vec<Op>, st: &EditorState)
    requires
        st@.in_range(),
    ensures
        steps(final(ops)@) == steps(old(ops)@) + scroll_ops(st@),
{
    proof {
        reveal(scroll_ops);
    }
    let ghost before = steps(ops@);
    if let Some((off, len)) = scroll_thumb(st) {
        let (px, top, pw, h): (i32, i32, i32, i32) = list_area_rect(st);
        let x: i32 = px + pw - SB_LANE;
        fill_rect_solid(ops, x, top, SB_W, h, rgb(26, 26, 32));
        fill_rect_solid(ops, x, top + off, SB_W, len, rgb(72, 76, 92));
        draw_rect_outline(ops, x, top + off, SB_W, len, 1, rgb(100, 110, 140));
    }
    assert(steps(ops@) =~= before + scroll_ops(st@));
}

// ===== Properties =====

/// The color of the value of a property.
pub open spec fn prop_color(p: ElemProp) -> u32 {
    match p {
        ElemProp::BorderColor | ElemProp::BgColor | ElemProp::TextColor => common::color_number(
            180,
            220,
            255,
        ),
        ElemProp::Content | ElemProp::PngPath => common::color_number(255, 255, 255),
        _ => common::color_number(150, 220, 160),
    }
}

/// A row of the properties. `opacity` is the text of the element's opacity.
#[verifier::opaque]
pub open spec fn prop_ops(e: Ed, tx: Texts, idx: usize, p: ElemProp, row: int, opacity: Seq<char>) -> Seq<OpView> {
    let y = panel::prop_row_top(e, row);
    let vx = panel::prop_value_x(e);
    let vw = panel::prop_value_w();
    let by = y + 2;
    let bh = PROP_ROW_H - 8;
    let editing = e.entry.target == EditingTarget::ElemField(idx, p);
    let value = field_text(
        e,
        editing,
        panel::prop_text(e.doc.elements[idx as int], p, opacity),
    );
    seq![
        draw::left(
            tx.text(common::label_key(p)),
            (e.panel.panel_x + 8, y, PROP_LABEL_W as int, PROP_ROW_H - 6),
            common::color_number(150, 155, 170),
        ),
        draw::fill(
            vx,
            by,
            vw,
            bh,
            if editing {
                common::color_number(50, 56, 80)
            } else {
                common::color_number(14, 14, 14)
            },
        ),
        draw::outline(
            vx,
            by,
            vw,
            bh,
            1,
            if editing {
                common::color_number(255, 204, 0)
            } else {
                common::color_number(60, 60, 60)
            },
        ),
    ] + if common::numeric(p) {
        seq![
            draw::words(
                Shape::ValueText,
                value,
                (vx + 6, by, vw - SPIN_W - 10, bh),
                prop_color(p),
            ),
        ] + spinner_ops(vx + vw - SPIN_W, by, SPIN_W as int, bh)
    } else {
        seq![draw::left(value, (vx + 6, by, vw - 10, bh), prop_color(p))]
    }
}

/// The first rows of the properties.
pub open spec fn prop_rows(e: Ed, tx: Texts, idx: usize, props: Seq<ElemProp>, opacity: Seq<char>) -> Seq<OpView>
    decreases props.len(),
{
    if props.len() == 0 {
        Seq::empty()
    } else {
        prop_rows(e, tx, idx, props.drop_last(), opacity) + prop_ops(
            e,
            tx,
            idx,
            props.last(),
            props.len() - 1,
            opacity,
        )
    }
}

/// The properties of the element that was selected last.
#[verifier::opaque]
pub open spec fn props_ops(e: Ed, tx: Texts, opacity: Seq<char>) -> Seq<OpView> {
    match panel::shown_element(e) {
        Some(idx) => {
            let px = e.panel.panel_x as int;
            let top = panel::add_top(e) - panel::props_height(e);
            seq![
                draw::fill(px + 4, top, PANEL_W - 8, 1, common::color_number(58, 58, 72)),
                draw::left(
                    tx.text("elem_props"@),
                    (px + 8, top + 4, PANEL_W - 16, PROP_SECTION_H - 4),
                    common::color_number(150, 210, 255),
                ),
            ] + prop_rows(
                e,
                tx,
                idx,
                panel::props_of(e.doc.elements[idx as int].extra.kind),
                opacity,
            )
        },
        None => Seq::empty(),
    }
}

fn value_color(p: ElemProp) -> (r: u32)
    ensures
        r == prop_color(p),
{
    match p {
        ElemProp::BorderColor | ElemProp::BgColor | ElemProp::TextColor => rgb(180, 220, 255),
        ElemProp::Content | ElemProp::PngPath => rgb(255, 255, 255),
        _ => rgb(150, 220, 160),
    }
}

fn put_prop(
    ops: &mut Vec<Op>,
    st: &EditorState,
    texts: &Texts,
    idx: usize,
    p: ElemProp,
    y: i32,
    opacity: &str,
    Ghost(row): Ghost<int>,
)
    requires
        st@.in_range(),
        idx < st@.doc.elements.len(),
        y == panel::prop_row_top(st@, row),
        -0x4000 <= y <= i32::MAX - 0x2000,
    ensures
        steps(final(ops)@) == steps(old(ops)@) + prop_ops(st@, *texts, idx, p, row, opacity@),
{
    proof {
        reveal(prop_ops);
    }
    let ghost before = steps(ops@);
    let px: i32 = st.panel.panel_x;
    let vx: i32 = px + 8 + PROP_LABEL_W;
    let vw: i32 = PANEL_W - 16 - PROP_LABEL_W - 4;
    let by: i32 = y + 2;
    let bh: i32 = PROP_ROW_H - 8;
    let editing: bool = st.entry.editing_target == EditingTarget::ElemField(idx, p);
    put_words(
        ops,
        Shape::TextLeft,
        owned(p.label(texts)),
        (px + 8, y, PROP_LABEL_W, PROP_ROW_H - 6),
        rgb(150, 155, 170),
    );
    let bg: u32 = if editing {
        rgb(50, 56, 80)
    } else {
        rgb(14, 14, 14)
    };
    fill_rect_solid(ops, vx, by, vw, bh, bg);
    let border: u32 = if editing {
        rgb(255, 204, 0)
    } else {
        rgb(60, 60, 60)
    };
    draw_rect_outline(ops, vx, by, vw, bh, 1, border);
    assert(st.doc.elements@[idx as int]@ == st@.doc.elements[idx as int]);
    let value: String = shown_text(st, editing, read_prop(&st.doc.elements[idx], p, opacity));
    if p.is_numeric() {
        put_words(
            ops,
            Shape::ValueText,
            value,
            (vx + 6, by, vw - SPIN_W - 10, bh),
            value_color(p),
        );
        draw_spinner_pub(ops, vx + vw - SPIN_W, by, SPIN_W, bh);
    } else {
        put_words(ops, Shape::TextLeft, value, (vx + 6, by, vw - 10, bh), value_color(p));
    }
    assert(steps(ops@) =~= before + prop_ops(st@, *texts, idx, p, row, opacity@));
}

fn put_props(ops: &mut Vec<Op>, st: &EditorState, texts: &Texts, opacity: &str)
    requires
        st@.in_range(),
    ensures
        steps(final(ops)@) == steps(old(ops)@) + props_ops(st@, *texts, opacity@),
{
    proof {
        reveal(props_ops);
    }
    let ghost before = steps(ops@);
    let ghost e = st@;
    let props_h: i32 = props_section_height(st);
    let count: usize = st.doc.selected_indices.len();
    if props_h <= 0 || count == 0 {
        assert(steps(ops@) =~= before + props_ops(e, *texts, opacity@));
        return;
    }
    let idx: usize = st.doc.selected_indices[count - 1];
    let (px, py, pw, ph): (i32, i32, i32, i32) = panel_rect(st);
    let top: i32 = py + ph - ADD_BTN_H - 8 - props_h;
    fill_rect_solid(ops, px + 4, top, pw - 8, 1, rgb(58, 58, 72));
    put_words(
        ops,
        Shape::TextLeft,
        owned(t(texts, "elem_props")),
        (px + 8, top + 4, pw - 16, PROP_SECTION_H - 4),
        rgb(150, 210, 255),
    );
    let ghost head = steps(ops@);
    assert(st.doc.elements@[idx as int]@ == e.doc.elements[idx as int]);
    let props: Vec<ElemProp> = props_for_kind(st.doc.elements[idx].extra.kind);
    assert(head + prop_rows(e, *texts, idx, props@.take(0), opacity@) =~= head);
    for row in 0..props.len()
        invariant
            st@.in_range(),
            e == st@,
            idx < e.doc.elements.len(),
            props@.len() <= 6,
            top == panel::add_top(e) - panel::props_height(e),
            -0x2000 <= top <= i32::MAX - 0x4000,
            steps(ops@) == head + prop_rows(
                e,
                *texts,
                idx,
                props@.take(row as int),
                opacity@,
            ),
    {
        let y: i32 = top + PROP_TOP_PAD + PROP_SECTION_H + row as i32 * PROP_ROW_H;
        proof {
            assert(props@.take(row + 1).drop_last() =~= props@.take(row as int));
            assert(props@.take(row + 1).last() == props@[row as int]);
            assert(y == panel::prop_row_top(e, row as int));
        }
        put_prop(ops, st, texts, idx, props[row], y, opacity, Ghost(row as int));
        assert(steps(ops@) =~= head + prop_rows(
            e,
            *texts,
            idx,
            props@.take(row + 1),
            opacity@,
        ));
    }
    assert(props@.take(props@.len() as int) =~= props@);
    assert(steps(ops@) =~= before + props_ops(e, *texts, opacity@));
}

// ===== Buttons that add elements =====

/// The key of the label of a button that adds elements.
pub open spec fn add_key(i: int) -> Seq<char> {
    if i == 0 {
        "add_frame"@
    } else if i == 1 {
        "add_bg"@
    } else if i == 2 {
        "add_png"@
    } else {
        "add_text"@
    }
}

/// A button that adds elements.
#[verifier::opaque]
pub open spec fn add_ops(e: Ed, tx: Texts, i: int) -> Seq<OpView> {
    let x = e.panel.panel_x + 8 + i * 112;
    let y = panel::add_top(e) + 4;
    seq![
        draw::fill(x, y, ADD_W as int, 22, common::color_number(74, 63, 45)),
        draw::outline(x, y, ADD_W as int, 22, 1, common::color_number(106, 90, 63)),
        draw::centered(
            tx.text(add_key(i)),
            (x, y, ADD_W as int, 22),
            common::color_number(243, 232, 216),
        ),
    ]
}

/// The buttons that add elements, while arranging.
#[verifier::opaque]
pub open spec fn all_add_ops(e: Ed, tx: Texts) -> Seq<OpView> {
    if e.phase == EditorPhase::Arranging {
        add_ops(e, tx, 0) + add_ops(e, tx, 1) + add_ops(e, tx, 2) + add_ops(e, tx, 3)
    } else {
        Seq::empty()
    }
}

fn put_add(ops: &mut Vec<Op>, st: &EditorState, texts: &Texts, i: i32)
    requires
        st@.in_range(),
        0 <= i <= 3,
    ensures
        steps(final(ops)@) == steps(old(ops)@) + add_ops(st@, *texts, i as int),
{
    proof {
        reveal(add_ops);
    }
    let ghost before = steps(ops@);
    let (px, py, _pw, ph): (i32, i32, i32, i32) = panel_rect(st);
    let x: i32 = px + 8 + i * 112;
    let y: i32 = py + ph - ADD_BTN_H - 8 + 4;
    let label: &str = if i == 0 {
        t(texts, "add_frame")
    } else if i == 1 {
        t(texts, "add_bg")
    } else if i == 2 {
        t(texts, "add_png")
    } else {
        t(texts, "add_text")
    };
    fill_rect_solid(ops, x, y, ADD_W, 22, rgb(74, 63, 45));
    draw_rect_outline(ops, x, y, ADD_W, 22, 1, rgb(106, 90, 63));
    put_words(ops, Shape::Text, owned(label), (x, y, ADD_W, 22), rgb(243, 232, 216));
    assert(steps(ops@) =~= before + add_ops(st@, *texts, i as int));
}

fn put_adds(ops: &mut Vec<Op>, st: &EditorState, texts: &Texts)
    requires
        st@.in_range(),
    ensures
        steps(final(ops)@) == steps(old(ops)@) + all_add_ops(st@, *texts),
{
    proof {
        reveal(all_add_ops);
    }
    let ghost before = steps(ops@);
    if st.phase == EditorPhase::Arranging {
        put_add(ops, st, texts, 0);
        put_add(ops, st, texts, 1);
        put_add(ops, st, texts, 2);
        put_add(ops, st, texts, 3);
    }
    assert(steps(ops@) =~= before + all_add_ops(st@, *texts));
}

// ===== Panel =====

/// The line above the list.
pub open spec fn list_line(e: Ed) -> OpView {
    draw::fill(
        e.panel.panel_x as int,
        e.panel.panel_y + LIST_TOP2 - 10,
        PANEL_W as int,
        1,
        common::color_number(42, 42, 42),
    )
}

/// The title, the file name and the rows of controls.
#[verifier::opaque]
pub open spec fn controls_ops(e: Ed, tx: Texts) -> Seq<OpView> {
    title_ops(e, tx) + name_ops(e, tx) + action_ops(e, tx) + both_toggle_ops(e, tx) + seq![
        list_line(e),
    ]
}

/// The list and what is below it.
#[verifier::opaque]
pub open spec fn contents_ops(e: Ed, tx: Texts, opacity: Seq<char>) -> Seq<OpView> {
    items_from(e, tx, panel::scroll_of(e)) + scroll_ops(e) + props_ops(e, tx, opacity)
        + all_add_ops(e, tx)
}

/// The panel. `opacity` is the text of the opacity of the element that was
/// selected last.
pub open spec fn panel_ops(e: Ed, tx: Texts, opacity: Seq<char>) -> Seq<OpView> {
    controls_ops(e, tx) + contents_ops(e, tx, opacity)
}

fn put_list_line(ops: &mut Vec<Op>, st: &EditorState)
    requires
        st@.in_range(),
    ensures
        steps(final(ops)@) == steps(old(ops)@) + seq![list_line(st@)],
{
    let ghost before = steps(ops@);
    fill_rect_solid(
        ops,
        st.panel.panel_x,
        st.panel.panel_y + LIST_TOP2 - 10,
        PANEL_W,
        1,
        rgb(42, 42, 42),
    );
    assert(steps(ops@) =~= before + seq![list_line(st@)]);
}

fn put_controls(ops: &mut Vec<Op>, st: &EditorState, texts: &Texts)
    requires
        st@.in_range(),
    ensures
        steps(final(ops)@) == steps(old(ops)@) + controls_ops(st@, *texts),
{
    let ghost before = steps(ops@);
    put_title(ops, st, texts);
    put_name(ops, st, texts);
    draw_panel_actions(ops, st, texts);
    draw_panel_toggles(ops, st, texts);
    put_list_line(ops, st);
    proof {
        reveal(controls_ops);
        let e = st@;
        let tx = *texts;
        let a1 = title_ops(e, tx);
        let a2 = a1 + name_ops(e, tx);
        let a3 = a2 + action_ops(e, tx);
        let a4 = a3 + both_toggle_ops(e, tx);
        draw::lemma_added(before, a1, name_ops(e, tx));
        draw::lemma_added(before, a2, action_ops(e, tx));
        draw::lemma_added(before, a3, both_toggle_ops(e, tx));
        draw::lemma_added(before, a4, seq![list_line(e)]);
    }
}

fn put_contents(ops: &mut Vec<Op>, st: &EditorState, texts: &Texts, opacity: &str)
    requires
        st@.in_range(),
    ensures
        steps(final(ops)@) == steps(old(ops)@) + contents_ops(st@, *texts, opacity@),
{
    let ghost before = steps(ops@);
    put_items(ops, st, texts);
    put_scroll_bar(ops, st);
    put_props(ops, st, texts, opacity);
    put_adds(ops, st, texts);
    proof {
        reveal(contents_ops);
        let e = st@;
        let tx = *texts;
        let a1 = items_from(e, tx, panel::scroll_of(e));
        let a2 = a1 + scroll_ops(e);
        let a3 = a2 + props_ops(e, tx, opacity@);
        draw::lemma_added(before, a1, scroll_ops(e));
        draw::lemma_added(before, a2, props_ops(e, tx, opacity@));
        draw::lemma_added(before, a3, all_add_ops(e, tx));
    }
}

/// Draws the panel. `opacity` is the text of the opacity of the element that was
/// selected last.
pub fn draw_region_panel(ops: &mut Vec<Op>, st: &EditorState, texts: &Texts, opacity: &str)
    requires
        st@.in_range(),
    ensures
        steps(final(ops)@) == steps(old(ops)@) + panel_ops(st@, *texts, opacity@),
{
    let ghost before = steps(ops@);
    put_controls(ops, st, texts);
    put_contents(ops, st, texts, opacity);
    proof {
        draw::lemma_added(
            before,
            controls_ops(st@, *texts),
            contents_ops(st@, *texts, opacity@),
        );
    }
}

// ===== Laws =====

proof fn lemma_nth_toggle(e: Ed, defs: Seq<ToggleDef>, tx: Texts, k: int)
    requires
        0 <= k < defs.len(),
    ensures
        toggle_ops(e, defs, tx).len() == 2 * defs.len(),
        toggle_ops(e, defs, tx).subrange(2 * k, 2 * k + 2) == draw::button_ops(
            (
                e.panel.panel_x + 8 + defs[k].x,
                ui::section_top(e, 2),
                defs[k].w as int,
                SECTION_H as int,
            ),
            tx.text(ui::toggle_key(defs[k].kind)),
            toggle_colors(is_on(e, defs[k].kind)),
        ),
    decreases defs.len(),
{
    let rest = defs.drop_last();
    let d = defs.last();
    let b = draw::button_ops(
        (e.panel.panel_x + 8 + d.x, ui::section_top(e, 2), d.w as int, SECTION_H as int),
        tx.text(ui::toggle_key(d.kind)),
        toggle_colors(is_on(e, d.kind)),
    );
    assert(b.len() == 2);
    if k < rest.len() {
        lemma_nth_toggle(e, rest, tx, k);
        assert(rest[k] == defs[k]);
        assert(toggle_ops(e, defs, tx).subrange(2 * k, 2 * k + 2) =~= toggle_ops(
            e,
            rest,
            tx,
        ).subrange(2 * k, 2 * k + 2));
    } else {
        if rest.len() > 0 {
            lemma_nth_toggle(e, rest, tx, 0);
        }
        assert(toggle_ops(e, defs, tx).subrange(2 * k, 2 * k + 2) =~= b);
    }
}

/// Every toggle is drawn where it is hit, with its label: a point in its rectangle
/// switches what it names.
pub proof fn law_toggles_are_drawn_where_they_are_hit(e: Ed, tx: Texts, k: int, x: int, y: int)
    requires
        0 <= k < 6,
        e.panel.in_range(),
        ({
            let o = toggle_ops(e, ui::toggle_row(), tx)[2 * k];
            o.x <= x <= o.x + o.w && o.y <= y <= o.y + o.h
        }),
    ensures
        ({
            let o = toggle_ops(e, ui::toggle_row(), tx);
            let hit = ui::toggle_hit(e, x, y);
            &&& o.len() == 12
            &&& o[2 * k].shape == Shape::Round
            &&& hit is Some
            &&& o[2 * k + 1].text == tx.text(ui::toggle_key(hit.unwrap()))
            &&& is_on(e, hit.unwrap()) ==> o[2 * k].fill == 56 + 256 * 132 + 65536 * 96
            &&& !is_on(e, hit.unwrap()) ==> o[2 * k].fill == 50 + 256 * 50 + 65536 * 60
        }),
{
    let defs = ui::toggle_row();
    let o = toggle_ops(e, defs, tx);
    lemma_nth_toggle(e, defs, tx, k);
    let s = o.subrange(2 * k, 2 * k + 2);
    assert(s[0] == o[2 * k] && s[1] == o[2 * k + 1]);
    ui::law_toggles_are_hit(e, x, y, x - e.panel.panel_x - 8);
}

/// A helper is shown as on where it is on.
pub proof fn law_helpers_show_their_state(e: Ed)
    ensures
        is_on(e, ToggleKind::Magnifier) == e.prefs.magnifier_on,
        is_on(e, ToggleKind::Grid) == e.prefs.grid_on,
        is_on(e, ToggleKind::Crosshair) == e.prefs.crosshair_on,
        is_on(e, ToggleKind::XyLabel) == e.prefs.xy_label_on,
        is_on(e, ToggleKind::Snap) == e.prefs.snap_on,
        is_on(e, ToggleKind::TianSnap) == e.prefs.snap_tian,
{
}

proof fn lemma_nth_button(spans: Seq<ui::Span>, tx: Texts, x: int, y: int, k: int)
    requires
        0 <= k < spans.len(),
    ensures
        row_ops(spans, tx, x, y).len() == 2 * spans.len(),
        row_ops(spans, tx, x, y).subrange(2 * k, 2 * k + 2) == draw::button_ops(
            (x + spans[k].x, y, spans[k].w as int, SECTION_H as int),
            tx.text(ui::action_key(spans[k].action)),
            ui::action_colors(spans[k].action),
        ),
    decreases spans.len(),
{
    let rest = spans.drop_last();
    let s = spans.last();
    let b = draw::button_ops(
        (x + s.x, y, s.w as int, SECTION_H as int),
        tx.text(ui::action_key(s.action)),
        ui::action_colors(s.action),
    );
    assert(b.len() == 2);
    if k < rest.len() {
        lemma_nth_button(rest, tx, x, y, k);
        assert(rest[k] == spans[k]);
        assert(row_ops(spans, tx, x, y).subrange(2 * k, 2 * k + 2) =~= row_ops(
            rest,
            tx,
            x,
            y,
        ).subrange(2 * k, 2 * k + 2));
    } else {
        if rest.len() > 0 {
            lemma_nth_button(rest, tx, x, y, 0);
        }
        assert(row_ops(spans, tx, x, y).subrange(2 * k, 2 * k + 2) =~= b);
    }
}

/// Every button of the row of actions is drawn where it is hit, with the label of
/// what it does.
pub proof fn law_actions_are_drawn_where_they_are_hit(e: Ed, tx: Texts, k: int, x: int, y: int)
    requires
        0 <= k < ui::action_row(e.phase).len(),
        e.panel.in_range(),
        ({
            let o = row_ops(
                ui::action_row(e.phase),
                tx,
                e.panel.panel_x + 8,
                ui::section_top(e, 1),
            )[2 * k];
            o.x <= x <= o.x + o.w && o.y <= y <= o.y + o.h
        }),
    ensures
        ({
            let o = row_ops(
                ui::action_row(e.phase),
                tx,
                e.panel.panel_x + 8,
                ui::section_top(e, 1),
            );
            let hit = ui::action_hit(e, x, y);
            &&& hit is Some
            &&& o[2 * k + 1].text == tx.text(ui::action_key(hit.unwrap()))
        }),
{
    let spans = ui::action_row(e.phase);
    let px = e.panel.panel_x + 8;
    let py = ui::section_top(e, 1);
    let o = row_ops(spans, tx, px, py);
    lemma_nth_button(spans, tx, px, py, k);
    let s = o.subrange(2 * k, 2 * k + 2);
    assert(s[0] == o[2 * k] && s[1] == o[2 * k + 1]);
    ui::law_buttons_are_hit(e, x, y, x - e.panel.panel_x - 8);
}

/// Every value is drawn where its box is hit, and shows what is typed while it is
/// typed in.
pub proof fn law_values_are_drawn_where_they_are_hit(e: Ed, tx: Texts, k: int, x: int, y: int)
    requires
        0 <= k < 3,
        e.panel.in_range(),
        ({
            let o = one_value_ops(e, ui::value_row()[k], tx)[1];
            o.x <= x <= o.x + o.w && o.y <= y <= o.y + o.h
        }),
    ensures
        ({
            let o = one_value_ops(e, ui::value_row()[k], tx);
            let hit = ui::box_hit(e, x, y);
            &&& hit is Some
            &&& o[0].text == tx.text(ui::toggle_key(hit.unwrap()))
            &&& hit == Some(ToggleKind::SnapDistance) ==> o[3].text == (if e.entry.target
                == EditingTarget::SnapDistance {
                e.entry.text + "|"@
            } else {
                decimal::dec_int(e.prefs.snap_distance as int)
            })
            &&& hit == Some(ToggleKind::SnapGap) ==> o[3].text == (if e.entry.target
                == EditingTarget::SnapGap {
                e.entry.text + "|"@
            } else {
                decimal::dec_int(e.prefs.snap_gap as int)
            })
            &&& hit == Some(ToggleKind::NudgeStep) ==> o[3].text == (if e.entry.target
                == EditingTarget::NudgeStep {
                e.entry.text + "|"@
            } else {
                decimal::dec_int(e.prefs.nudge_step as int)
            })
        }),
{
    reveal(one_value_ops);
    ui::law_value_boxes_are_hit(e, x, y, x - e.panel.panel_x - 8);
}

/// The buttons that add elements are drawn where they are hit, in the order of
/// their labels.
pub proof fn law_add_buttons_are_drawn_where_they_are_hit(e: Ed, tx: Texts, i: int, x: int, y: int)
    requires
        0 <= i < 4,
        e.in_range(),
        ({
            let o = add_ops(e, tx, i)[0];
            o.x <= x <= o.x + o.w && o.y <= y <= o.y + o.h
        }),
        panel::add_top(e) + 30 < 0x8000_0000,
        -0x8000_0000 <= panel::add_top(e),
    ensures
        ({
            let o = add_ops(e, tx, i);
            &&& i == 0 ==> panel::add_hit(e, x, y) == Some(panel::AddKind::Frame) && o[2].text == tx.text(
                "add_frame"@,
            )
            &&& i == 1 ==> panel::add_hit(e, x, y) == Some(panel::AddKind::Background) && o[2].text
                == tx.text("add_bg"@)
            &&& i == 2 ==> panel::add_hit(e, x, y) == Some(panel::AddKind::Png) && o[2].text == tx.text(
                "add_png"@,
            )
            &&& i == 3 ==> panel::add_hit(e, x, y) == Some(panel::AddKind::Text) && o[2].text == tx.text(
                "add_text"@,
            )
        }),
{
    reveal(add_ops);
    panel::law_add_buttons(e, x, y, x - e.panel.panel_x - 8);
}

/// A field shows its coordinate, or what is typed while it is typed in, under its
/// letter; the fields stand 88 pixels apart, the first 90 from the edge of the
/// panel.
pub proof fn law_fields_show_their_coordinates(e: Ed, i: int, fk: FieldKind)
    requires
        e.panel.in_range(),
        0 <= i < e.doc.elements.len(),
        0 <= panel::row_top(e, i) < 0x7fff_0000,
    ensures
        ({
            let o = field_ops(e, i, fk);
            let column: int = if fk == FieldKind::X {
                0
            } else if fk == FieldKind::Y {
                1
            } else if fk == FieldKind::Width {
                2
            } else {
                3
            };
            &&& o[0].x == e.panel.panel_x + 90 + 88 * column
            &&& o[0].y == panel::row_top(e, i) + 4
            &&& o[0].w == 80 && o[0].h == 34
            &&& o[2].text == (if fk == FieldKind::X {
                "X"@
            } else if fk == FieldKind::Y {
                "Y"@
            } else if fk == FieldKind::Width {
                "W"@
            } else {
                "H"@
            })
            &&& o[3].text == (if e.entry.target == EditingTarget::RegionField(i as usize, fk) {
                e.entry.text + "|"@
            } else {
                decimal::dec_int(
                    panel::el_coord(e.doc.elements[i], e.phase, fk) as int,
                )
            })
        }),
{
    reveal(field_ops);
}

/// An item of the list shows its number from one on and the badge of its kind; the
/// box of the file name shows the name, the name with a bar while it is typed in,
/// and a hint where there is none.
pub proof fn law_labels_of_the_list(e: Ed, tx: Texts, i: int)
    requires
        0 <= i < e.doc.elements.len(),
    ensures
        label_op(e, tx, i).text == "#"@ + decimal::dec_int(i + 1) + "["@ + tx.text(
            state::badge_key(e.doc.elements[i].extra.kind),
        ) + "]"@,
        e.entry.filename_focused ==> name_text(e, tx) == e.entry.save_filename + "|"@,
        !e.entry.filename_focused && e.entry.save_filename.len() > 0 ==> name_text(e, tx)
            == e.entry.save_filename,
        !e.entry.filename_focused && e.entry.save_filename.len() == 0 ==> name_text(e, tx)
            == tx.text("filename_hint"@),
{
}

/// The list draws one item after the other from where it is scrolled to, as long as
/// there is room; the thumb is drawn where it is grabbed, and nothing where the
/// list needs no scrolling.
pub proof fn law_list_is_drawn(e: Ed, tx: Texts, i: int)
    ensures
        i < e.doc.elements.len() && panel::row_fits(e, i) ==> items_from(e, tx, i) == item_ops(
            e,
            tx,
            i,
        ) + items_from(e, tx, i + 1),
        i >= e.doc.elements.len() || !panel::row_fits(e, i) ==> items_from(e, tx, i).len() == 0,
        panel::max_scroll(e) == 0 ==> scroll_ops(e).len() == 0,
        panel::max_scroll(e) > 0 ==> scroll_ops(e)[1].y == (panel::list_top(e) + panel::thumb(
            e,
        ).0) as i32 && scroll_ops(e)[1].h == panel::thumb(e).1 as i32,
{
    reveal(scroll_ops);
}

/// The two arrow buttons lie one above the other and share the height, the upper
/// one with an upward arrow.
pub proof fn law_arrow_buttons_share_the_height(x: i32, y: i32, w: i32, h: i32)
    requires
        -0x1000_0000 <= x <= 0x1000_0000,
        -0x1000_0000 <= y <= 0x1000_0000,
        0 <= w <= 0x1000_0000,
        0 <= h <= 0x1000_0000,
    ensures
        ({
            let o = spinner_ops(x as int, y as int, w as int, h as int);
            &&& (o[0].x, o[0].y, o[0].w, o[0].h) == (x, y, w, h)
            &&& o[2].y == y && o[2].y + o[2].h == o[3].y && o[3].y + o[3].h == y + h
            &&& 0 <= o[3].h - o[2].h <= 1
            &&& o[2].text == "\u{25B2}"@ && o[3].text == "\u{25BC}"@
        }),
{
}

/// The box of the file name is drawn across the panel, ten pixels from its edges;
/// the title says how many elements there are.
pub proof fn law_title_and_name_box(e: Ed, tx: Texts)
    requires
        e.panel.in_range(),
    ensures
        ({
            let o = name_ops(e, tx);
            &&& o[1].x == e.panel.panel_x + 10 && o[1].x + o[1].w == e.panel.panel_x + 450
            &&& o[1].y == e.panel.panel_y + 64 && o[1].h == 36
            &&& o[3].text == name_text(e, tx)
        }),
        ({
            let o = title_ops(e, tx);
            &&& o[0].x == e.panel.panel_x && o[0].y == e.panel.panel_y && o[0].w == 460
            &&& o[0].h == panel::panel_height(e) as i32
            &&& o[4].text == decimal::dec_int(e.doc.elements.len() as int) + tx.text(
                "count_suffix"@,
            )
        }),
{
    reveal(name_ops);
    reveal(title_ops);
}

/// An item of the list is marked where its element is selected, has no size where
/// it is a text, and can be taken out while arranging.
pub proof fn law_marks_of_items(e: Ed, i: int)
    requires
        0 <= i < e.doc.elements.len(),
    ensures
        (mark_ops(e, i).len() > 0) == e.doc.selected.contains(i as usize),
        (divider_ops(e, i).len() > 0) == (i + 1 < e.doc.elements.len()),
        (cross_ops(e, i).len() > 0) == (e.phase == EditorPhase::Arranging),
        e.doc.elements[i].extra.kind == ElemKind::Text ==> size_ops(e, i).len() == 0,
        e.doc.elements[i].extra.kind != ElemKind::Text ==> size_ops(e, i) == field_ops(
            e,
            i,
            FieldKind::Width,
        ) + field_ops(e, i, FieldKind::Height),
{
    reveal(mark_ops);
    reveal(divider_ops);
    reveal(cross_ops);
}

/// A property is drawn under its name with its value, or with what is typed while
/// it is typed in, in the row where it is hit; only numbers have arrow buttons.
pub proof fn law_properties_are_drawn(
    e: Ed,
    tx: Texts,
    idx: usize,
    p: ElemProp,
    row: int,
    opacity: Seq<char>,
)
    requires
        e.panel.in_range(),
        idx < e.doc.elements.len(),
        -0x4000 <= panel::prop_row_top(e, row) <= 0x7000_0000,
    ensures
        ({
            let o = prop_ops(e, tx, idx, p, row, opacity);
            let typed = e.entry.target == EditingTarget::ElemField(idx, p);
            &&& o[0].text == tx.text(common::label_key(p))
            &&& o[1].x == panel::prop_value_x(e) && o[1].w == panel::prop_value_w()
            &&& panel::prop_row_top(e, row) <= o[1].y && o[1].y + o[1].h
                <= panel::prop_row_top(e, row + 1)
            &&& typed ==> o[3].text == e.entry.text + "|"@
            &&& !typed ==> o[3].text == panel::prop_text(
                e.doc.elements[idx as int],
                p,
                opacity,
            )
            &&& (o.len() > 4) == common::numeric(p)
        }),
        panel::shown_element(e) is None ==> props_ops(e, tx, opacity).len() == 0,
{
    reveal(prop_ops);
    reveal(props_ops);
    assert(row * PROP_ROW_H + PROP_ROW_H == (row + 1) * PROP_ROW_H) by (nonlinear_arith);
}

} // verus!
