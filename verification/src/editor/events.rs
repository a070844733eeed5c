//! What mouse and keyboard do to the state of the editor.

use vstd::prelude::*;

use crate::config::{DisplayRect, Rect};
use crate::decimal;
use crate::decimal::decimal;
use crate::editor::arranging;
use crate::editor::arranging::{hit_test, holds};
use crate::editor::common;
use crate::editor::common::{
    BtnAction, EditingTarget, EditorPhase, ElemProp, SpinTarget, ToggleKind, FN_BOX_H,
    LIST_ITEM_H, PANEL_W, TITLE_H,
};
use crate::editor::panel;
use crate::editor::panel::{
    add_button_hit, add_ui_element, apply_spin, end_typing, hit_test_field, hit_test_prop,
    hit_test_spin_field, hit_test_spin_prop, list_area_rect, list_max_scroll, list_scroll_clamped,
    panel_rect, scroll_thumb, start_editing_field, start_editing_prop, toggle_select, AddKind,
    SB_LANE,
};
use crate::editor::snap;
use crate::editor::snap::{snap_arrangement, snap_resize, snap_selection};
use crate::editor::state;
use crate::editor::state::{
    copy_elements, do_undo, same_elements, Boxes, Doc, DocView, Drag, Ed, EditorState, El,
    ElemExtra, ElemKind, Element, EntryView, Ex, Panel, Prefs, UNDO_LIMIT,
};
use crate::editor::ui;
use crate::editor::ui::{
    confirm_box, panel_action_hit, panel_mode_hit, panel_toggle_box_hit, panel_toggle_button_hit,
    panel_toggle_spin_hit,
};
use crate::num;
use crate::num::{abs_i64, clamp_i32, clamp_i64, half_i32, max_i32, max_i64, min_i32};
use crate::opacity::Opacity;
use crate::text;

verus! {

/// A state, and whether the editor closes.
pub struct Outcome {
    pub ed: Ed,
    pub close: bool,
}

pub open spec fn goes_on(ed: Ed) -> Outcome {
    Outcome { ed, close: false }
}

/// The state in which no file name is typed in.
pub open spec fn unfocused(e: Ed) -> Ed {
    Ed { entry: EntryView { filename_focused: false, ..e.entry }, ..e }
}

// ===== Ending what is under way =====

/// The state in which nothing is dragged, resized or boxed.
pub open spec fn let_go(e: Ed) -> Ed {
    Ed {
        boxes: Boxes {
            drag_start: None,
            drag_current: None,
            is_dragging: false,
            box_select_start: None,
            box_select_current: None,
            box_selecting: false,
        },
        drag: Drag {
            drag_index: None,
            resize_index: None,
            resize_start: None,
            resize_start_font: 0,
            multi_dragging: false,
            ..e.drag
        },
        doc: DocView { pending: None, ..e.doc },
        ..e
    }
}

/// The state in the other phase, with nothing selected and nothing under way.
pub open spec fn switched(e: Ed, phase: EditorPhase) -> Ed {
    let f = let_go(e);
    Ed { phase, doc: DocView { selected: Seq::empty(), ..f.doc }, ..f }
}

fn cancel_interactions(st: &mut EditorState)
    ensures
        final(st)@ == let_go(old(st)@),
{
    st.boxes.is_dragging = false;
    st.boxes.drag_start = None;
    st.boxes.drag_current = None;
    st.boxes.box_selecting = false;
    st.boxes.box_select_start = None;
    st.boxes.box_select_current = None;
    st.drag.drag_index = None;
    st.drag.resize_index = None;
    st.drag.resize_start = None;
    st.drag.resize_start_font = 0;
    st.drag.multi_dragging = false;
    st.doc.undo_pending = None;
}

pub(crate) fn switch_phase(st: &mut EditorState, phase: EditorPhase)
    ensures
        final(st)@ == switched(old(st)@, phase),
{
    cancel_interactions(st);
    st.phase = phase;
    st.doc.selected_indices = Vec::new();
    assert(st.doc.selected_indices@ =~= Seq::empty());
}

// ===== Deleting =====

/// The elements from an index on that are not selected.
pub open spec fn kept_from(s: Seq<El>, selected: Seq<usize>, i: int) -> Seq<El>
    decreases s.len() - i,
{
    if i >= s.len() {
        Seq::empty()
    } else if selected.contains(i as usize) {
        kept_from(s, selected, i + 1)
    } else {
        seq![s[i]] + kept_from(s, selected, i + 1)
    }
}

/// The state without the elements that were selected; nothing is dragged.
pub open spec fn deleted(e: Ed) -> Ed {
    Ed {
        doc: DocView {
            elements: kept_from(e.doc.elements, e.doc.selected, 0),
            selected: Seq::empty(),
            pending: None,
            ..e.doc
        },
        drag: Drag {
            drag_index: None,
            resize_index: None,
            resize_start: None,
            multi_dragging: false,
            ..e.drag
        },
        ..e
    }
}

/// Deleting what is selected while arranging is a step that can be undone.
/// Without a selection nothing happens.
pub open spec fn deletion_made(e: Ed) -> Ed {
    if e.phase == EditorPhase::Arranging && e.doc.selected.len() > 0 {
        deleted(Ed { doc: state::undo_pushed(e.doc), ..e })
    } else {
        e
    }
}

fn remove_elements(elements: &mut Vec<Element>, selected: &Vec<usize>)
    ensures
        state::els(final(elements)@) == kept_from(state::els(old(elements)@), selected@, 0),
{
    let ghost all = state::els(elements@);
    let n: usize = elements.len();
    let mut i: usize = n;
    assert(all.take(n as int) + kept_from(all, selected@, n as int) =~= all);
    while i > 0
        invariant
            i <= n,
            n == all.len(),
            elements@.len() >= i,
            state::els(elements@) == all.take(i as int) + kept_from(all, selected@, i as int),
        decreases i,
    {
        i -= 1;
        let ghost before = elements@;
        if holds(selected, i) {
            let gone: Element = elements.remove(i);
            proof {
                assert(state::els(elements@) =~= state::els(before).remove(i as int));
                assert(state::els(elements@) =~= all.take(i as int) + kept_from(
                    all,
                    selected@,
                    i as int,
                ));
            }
        } else {
            assert(state::els(elements@) =~= all.take(i as int) + kept_from(
                all,
                selected@,
                i as int,
            ));
        }
    }
    assert(all.take(0) + kept_from(all, selected@, 0) =~= kept_from(all, selected@, 0));
}

fn delete_selected(st: &mut EditorState)
    ensures
        final(st)@ == deleted(old(st)@),
{
    remove_elements(&mut st.doc.elements, &st.doc.selected_indices);
    st.doc.selected_indices = Vec::new();
    assert(st.doc.selected_indices@ =~= Seq::empty());
    st.drag.drag_index = None;
    st.drag.resize_index = None;
    st.drag.resize_start = None;
    st.drag.multi_dragging = false;
    st.doc.undo_pending = None;
}

pub(crate) fn make_deletion(st: &mut EditorState)
    requires
        old(st)@.wf(),
    ensures
        final(st)@ == deletion_made(old(st)@),
        final(st)@.wf(),
{
    if st.phase == EditorPhase::Arranging && st.doc.selected_indices.len() > 0 {
        st.doc.push_undo();
        delete_selected(st);
    }
}

// ===== Saving =====

/// Saving: where the file exists, the question about it is opened; else the
/// editor closes with the config saved.
pub open spec fn save_asked(e: Ed, exists: bool) -> Outcome {
    if exists {
        goes_on(Ed { entry: EntryView { confirm_overwrite: true, ..e.entry }, ..e })
    } else {
        Outcome { ed: Ed { saved: true, ..e }, close: true }
    }
}

/// Saves. `exists` tells whether there is a file of the name that is saved to.
/// Returns whether the editor closes.
pub fn request_save_inner(st: &mut EditorState, exists: bool) -> (r: bool)
    ensures
        final(st)@ == save_asked(old(st)@, exists).ed,
        r == save_asked(old(st)@, exists).close,
{
    if exists {
        st.entry.confirm_overwrite = true;
        false
    } else {
        st.saved = true;
        true
    }
}

/// The state after the question about an existing file was answered.
pub open spec fn answered(e: Ed, yes: bool) -> Outcome {
    Outcome {
        ed: Ed {
            saved: if yes {
                true
            } else {
                e.saved
            },
            entry: EntryView { confirm_overwrite: false, ..e.entry },
            ..e
        },
        close: yes,
    }
}

/// A click while the question is open: on one of its two buttons, or beside them.
pub open spec fn confirm_clicked(e: Ed, x: int, y: int) -> Outcome {
    let b = ui::question_box(e.area.screen_w as int, e.area.screen_h as int);
    if common::in_box(x, y, b.0 + 60, b.1 + 100, 150, 40) {
        answered(e, true)
    } else if common::in_box(x, y, b.0 + 250, b.1 + 100, 150, 40) {
        answered(e, false)
    } else {
        goes_on(e)
    }
}

fn handle_confirm_click(st: &mut EditorState, x: i32, y: i32) -> (r: bool)
    ensures
        final(st)@ == confirm_clicked(old(st)@, x as int, y as int).ed,
        r == confirm_clicked(old(st)@, x as int, y as int).close,
{
    let (cx, cy, _cw, _ch) = confirm_box(st.area.screen_w, st.area.screen_h);
    if x >= cx + 60 && x <= cx + 60 + 150 && y >= cy + 100 && y <= cy + 100 + 40 {
        st.saved = true;
        st.entry.confirm_overwrite = false;
        true
    } else if x >= cx + 250 && x <= cx + 250 + 150 && y >= cy + 100 && y <= cy + 100 + 40 {
        st.entry.confirm_overwrite = false;
        false
    } else {
        false
    }
}

// ===== Toggles =====

/// The state in which a value of the panel is typed in.
pub open spec fn value_started(e: Ed, target: EditingTarget, v: i32) -> Ed {
    Ed {
        entry: EntryView {
            target,
            text: decimal::dec_int(v as int),
            filename_focused: false,
            ..e.entry
        },
        ..e
    }
}

/// The helpers after one was switched. The two ways of snapping exclude each
/// other.
pub open spec fn switched_over(p: Prefs, k: ToggleKind) -> Prefs {
    match k {
        ToggleKind::Magnifier => Prefs { magnifier_on: !p.magnifier_on, ..p },
        ToggleKind::Grid => Prefs { grid_on: !p.grid_on, ..p },
        ToggleKind::Crosshair => Prefs { crosshair_on: !p.crosshair_on, ..p },
        ToggleKind::XyLabel => Prefs { xy_label_on: !p.xy_label_on, ..p },
        ToggleKind::Snap => if p.snap_on {
            Prefs { snap_on: false, ..p }
        } else {
            Prefs { snap_on: true, snap_tian: false, ..p }
        },
        ToggleKind::TianSnap => if p.snap_tian {
            Prefs { snap_tian: false, ..p }
        } else {
            Prefs { snap_on: false, snap_tian: true, ..p }
        },
        _ => p,
    }
}

/// Whether switching a helper lets go of what is held by snapping.
pub open spec fn lets_snap_go(p: Prefs, k: ToggleKind) -> bool {
    k == ToggleKind::Snap || (k == ToggleKind::TianSnap && !p.snap_tian)
}

/// The state after a click on a toggle or a value.
pub open spec fn toggle_clicked(e: Ed, k: ToggleKind) -> Ed {
    match k {
        ToggleKind::SnapDistance => value_started(
            e,
            EditingTarget::SnapDistance,
            e.prefs.snap_distance,
        ),
        ToggleKind::SnapGap => value_started(e, EditingTarget::SnapGap, e.prefs.snap_gap),
        ToggleKind::NudgeStep => value_started(e, EditingTarget::NudgeStep, e.prefs.nudge_step),
        _ => Ed {
            prefs: switched_over(e.prefs, k),
            drag: if lets_snap_go(e.prefs, k) {
                Drag { snapped_x: None, snapped_y: None, ..e.drag }
            } else {
                e.drag
            },
            ..e
        },
    }
}

fn start_value(st: &mut EditorState, target: EditingTarget, v: i32)
    ensures
        final(st)@ == value_started(old(st)@, target, v),
{
    st.entry.editing_target = target;
    st.entry.editing_text = decimal(v as i64);
    st.entry.filename_focused = false;
}

fn switch_helper(p: &mut Prefs, k: ToggleKind)
    ensures
        *final(p) == switched_over(*old(p), k),
{
    match k {
        ToggleKind::Magnifier => {
            p.magnifier_on = !p.magnifier_on;
        },
        ToggleKind::Grid => {
            p.grid_on = !p.grid_on;
        },
        ToggleKind::Crosshair => {
            p.crosshair_on = !p.crosshair_on;
        },
        ToggleKind::XyLabel => {
            p.xy_label_on = !p.xy_label_on;
        },
        ToggleKind::Snap => {
            p.snap_on = !p.snap_on;
            if p.snap_on {
                p.snap_tian = false;
            }
        },
        ToggleKind::TianSnap => {
            p.snap_tian = !p.snap_tian;
            if p.snap_tian {
                p.snap_on = false;
            }
        },
        _ => {},
    }
}

/// A click on a toggle switches it, one on a value starts typing it in. Returns
/// whether the editor closes, which it never does.
pub fn handle_toggle_click(st: &mut EditorState, k: ToggleKind) -> (r: bool)
    requires
        old(st)@.wf(),
    ensures
        !r,
        final(st)@ == toggle_clicked(old(st)@, k),
        final(st)@.wf(),
{
    let ghost e = st@;
    match k {
        ToggleKind::SnapDistance => {
            let v: i32 = st.prefs.snap_distance;
            start_value(st, EditingTarget::SnapDistance, v);
        },
        ToggleKind::SnapGap => {
            let v: i32 = st.prefs.snap_gap;
            start_value(st, EditingTarget::SnapGap, v);
        },
        ToggleKind::NudgeStep => {
            let v: i32 = st.prefs.nudge_step;
            start_value(st, EditingTarget::NudgeStep, v);
        },
        _ => {
            if k == ToggleKind::Snap || (k == ToggleKind::TianSnap && !st.prefs.snap_tian) {
                st.drag.snapped_x = None;
                st.drag.snapped_y = None;
            }
            switch_helper(&mut st.prefs, k);
        },
    }
    proof {
        lemma_same_doc(e, st@);
    }
    false
}

// ===== Buttons =====

/// What a button of the panel does.
pub open spec fn action_done(e: Ed, a: BtnAction, exists: bool) -> Outcome {
    let f = panel::typing_ended(e);
    match a {
        BtnAction::UndoLast => goes_on(state::undone(f)),
        BtnAction::NextStep => if f.phase == EditorPhase::Selecting && f.doc.elements.len() > 0 {
            goes_on(switched(f, EditorPhase::Arranging))
        } else {
            goes_on(f)
        },
        BtnAction::BackToSelect => if f.phase == EditorPhase::Arranging {
            goes_on(switched(f, EditorPhase::Selecting))
        } else {
            goes_on(f)
        },
        BtnAction::DeleteSelected => goes_on(deletion_made(f)),
        BtnAction::Save => save_asked(f, exists),
        BtnAction::Cancel | BtnAction::Discard => Outcome {
            ed: Ed { saved: false, ..f },
            close: true,
        },
    }
}

/// Does what a button of the panel does. Returns whether the editor closes.
pub fn handle_toolbar_action(st: &mut EditorState, a: BtnAction, exists: bool) -> (r: bool)
    requires
        old(st)@.wf(),
    ensures
        final(st)@ == action_done(old(st)@, a, exists).ed,
        r == action_done(old(st)@, a, exists).close,
        final(st)@.wf(),
{
    end_typing(st);
    match a {
        BtnAction::UndoLast => {
            do_undo(st);
            false
        },
        BtnAction::NextStep => {
            if st.phase == EditorPhase::Selecting && st.doc.elements.len() > 0 {
                switch_phase(st, EditorPhase::Arranging);
            }
            false
        },
        BtnAction::BackToSelect => {
            if st.phase == EditorPhase::Arranging {
                switch_phase(st, EditorPhase::Selecting);
            }
            false
        },
        BtnAction::DeleteSelected => {
            make_deletion(st);
            false
        },
        BtnAction::Save => request_save_inner(st, exists),
        BtnAction::Cancel | BtnAction::Discard => {
            st.saved = false;
            true
        },
    }
}

// ===== Mouse down =====

/// What is known outside the editor when the mouse button goes down.
pub struct Press {
    /// Whether the control key is down
    pub ctrl: bool,
    /// The sizes of the elements on the canvas
    pub sizes: Vec<(i32, i32)>,
    /// The text of the opacity of the element that was selected last
    pub opacity_text: String,
    /// Its opacity a tenth higher, and a tenth lower
    pub opacity_up: Opacity,
    pub opacity_down: Opacity,
    /// Where the list scrolls to when the lane of the scroll bar is clicked
    pub scroll_to: i32,
    /// Whether there is a file of the name that is saved to
    pub file_exists: bool,
}

/// Whether a point is on the panel.
pub open spec fn on_panel(e: Ed, x: int, y: int) -> bool {
    common::in_box(
        x,
        y,
        e.panel.panel_x as int,
        e.panel.panel_y as int,
        PANEL_W as int,
        panel::panel_height(e),
    )
}

/// Whether a point is on the box of the file name.
pub open spec fn on_file_name(e: Ed, x: int, y: int) -> bool {
    common::in_box(
        x,
        y,
        e.panel.panel_x + 10,
        e.panel.panel_y + TITLE_H + 22,
        PANEL_W - 20,
        FN_BOX_H as int,
    )
}

/// Whether a point is on the lane of a scroll bar that can be moved.
pub open spec fn on_lane(e: Ed, x: int, y: int) -> bool {
    &&& e.panel.panel_x + PANEL_W - SB_LANE - 2 <= x <= e.panel.panel_x + PANEL_W - 2
    &&& panel::list_top(e) <= y <= panel::list_bottom(e)
    &&& panel::max_scroll(e) > 0
}

/// The state in which the panel is dragged.
pub open spec fn panel_grabbed(e: Ed, x: i32, y: i32) -> Ed {
    Ed {
        panel: Panel {
            drag_panel: true,
            panel_drag_offset: ((x - e.panel.panel_x) as i32, (y - e.panel.panel_y) as i32),
            ..e.panel
        },
        ..unfocused(e)
    }
}

/// The number that the arrow buttons of a value step.
pub open spec fn value_target(k: ToggleKind) -> SpinTarget {
    match k {
        ToggleKind::SnapDistance => SpinTarget::SnapDistance,
        ToggleKind::SnapGap => SpinTarget::SnapGap,
        _ => SpinTarget::NudgeStep,
    }
}

pub open spec fn direction(up: bool) -> int {
    if up {
        1
    } else {
        -1
    }
}

/// The state with a new element whose center is at the mouse and that is dragged
/// from there.
pub open spec fn new_grabbed(e: Ed, k: AddKind, x: i32, y: i32) -> Ed {
    let f = panel::element_added(
        Ed { doc: DocView { pending: Some(e.doc.elements), ..e.doc }, ..e },
        panel::kind_added(k),
    );
    let idx = e.doc.elements.len() as int;
    let el = f.doc.elements[idx];
    let w = num::half(el.display.width as int);
    let h = num::half(el.display.height as int);
    let placed = El {
        display: DisplayRect {
            x: num::int_max(x - e.area.overlay_x - w, 0) as i32,
            y: num::int_max(y - e.area.overlay_y - h, 0) as i32,
            ..el.display
        },
        ..el
    };
    unfocused(
        Ed {
            doc: DocView {
                elements: f.doc.elements.update(idx, placed),
                selected: seq![idx as usize],
                ..f.doc
            },
            drag: Drag {
                drag_index: Some(idx as usize),
                drag_offset: (w as i32, h as i32),
                ..f.drag
            },
            ..f
        },
    )
}

/// A click on the lane of the scroll bar: the thumb is dragged, or the list
/// scrolls to about where the click is.
pub open spec fn lane_pressed(e: Ed, y: i32, scroll_to: i32) -> Ed {
    let (off, len) = panel::thumb(e);
    let top = panel::list_top(e) + off;
    unfocused(
        Ed {
            panel: if top <= y <= top + len {
                Panel { scroll_drag: Some((y, off as i32)), ..e.panel }
            } else {
                Panel {
                    list_scroll: num::int_clamp(
                        scroll_to as int,
                        0,
                        panel::max_scroll(e),
                    ) as i32,
                    ..e.panel
                }
            },
            ..e
        },
    )
}

/// The index of the list item at a height.
pub open spec fn item_at(e: Ed, y: int) -> int {
    panel::scroll_of(e) + (y - panel::list_top(e)) / (LIST_ITEM_H as int)
}

/// A click in the list selects an element; with the control key it is put into
/// the selection or taken out.
pub open spec fn list_pressed(e: Ed, y: int, ctrl: bool) -> Ed {
    let idx = item_at(e, y);
    if y >= panel::list_top(e) && idx < e.doc.elements.len() {
        unfocused(
            Ed {
                doc: DocView {
                    selected: if ctrl {
                        panel::toggled(e.doc.selected, idx as usize)
                    } else {
                        seq![idx as usize]
                    },
                    ..e.doc
                },
                ..e
            },
        )
    } else {
        unfocused(e)
    }
}

/// What the button does that a point hits.
pub open spec fn button_hit(e: Ed, x: int, y: int) -> Option<BtnAction> {
    match ui::mode_hit(e, x, y) {
        Some(a) => Some(a),
        None => ui::action_hit(e, x, y),
    }
}

/// A click on the panel below its title.
#[verifier::opaque]
pub open spec fn controls_pressed(e: Ed, x: i32, y: i32, s: Press) -> Outcome {
    match button_hit(e, x as int, y as int) {
        Some(a) => action_done(unfocused(e), a, s.file_exists),
        None => goes_on(values_pressed(e, x, y, s)),
    }
}

/// A click on the panel that hits no button.
#[verifier::opaque]
pub open spec fn values_pressed(e: Ed, x: i32, y: i32, s: Press) -> Ed {
    match ui::box_spin_hit(e, x as int, y as int) {
        Some((k, up)) => panel::spun(e, value_target(k), direction(up), s.opacity_up),
        None => match box_or_toggle_hit(e, x as int, y as int) {
            Some(k) => toggle_clicked(e, k),
            None => if on_file_name(e, x as int, y as int) {
                Ed { entry: EntryView { filename_focused: true, ..e.entry }, ..e }
            } else {
                fields_pressed(e, x, y, s)
            },
        },
    }
}

/// The value or the toggle that a point hits.
pub open spec fn box_or_toggle_hit(e: Ed, x: int, y: int) -> Option<ToggleKind> {
    match ui::box_hit(e, x, y) {
        Some(k) => Some(k),
        None => ui::toggle_hit(e, x, y),
    }
}

/// A click on the panel below its rows of controls.
#[verifier::opaque]
pub open spec fn fields_pressed(e: Ed, x: i32, y: i32, s: Press) -> Ed {
    let xi = x as int;
    let yi = y as int;
    if let Some((idx, fk, up)) = panel::spin_hit(e, xi, yi) {
        panel::spun(e, SpinTarget::RegionField(idx, fk), direction(up), s.opacity_up)
    } else if let Some((idx, p, up)) = panel::prop_spin_hit(e, xi, yi) {
        panel::spun(
            e,
            SpinTarget::ElemProp(idx, p),
            direction(up),
            if up {
                s.opacity_up
            } else {
                s.opacity_down
            },
        )
    } else if let Some((idx, fk)) = panel::value_hit(e, xi, yi) {
        panel::field_started(e, idx, fk)
    } else if let Some((idx, p)) = panel::prop_hit(e, xi, yi) {
        panel::prop_started(e, idx, p, s.opacity_text@)
    } else if e.phase == EditorPhase::Arranging && panel::add_hit(e, xi, yi) is Some {
        new_grabbed(e, panel::add_hit(e, xi, yi).unwrap(), x, y)
    } else if on_lane(e, xi, yi) {
        lane_pressed(e, y, s.scroll_to)
    } else {
        list_pressed(e, yi, s.ctrl)
    }
}

/// The state in which the box of a new region is begun, at a corner that snaps.
pub open spec fn region_begun(e: Ed, x: i32, y: i32) -> Ed {
    let snaps = e.prefs.snap_on && !e.prefs.snap_tian;
    let f = if snaps {
        snap::selection_snapped(e, x as int, y as int)
    } else {
        Ed { drag: Drag { snapped_x: None, snapped_y: None, ..e.drag }, ..e }
    };
    let p = if snaps {
        (
            snap::selection_x(e, x as int).pos as i32,
            snap::selection_y(e, y as int).pos as i32,
        )
    } else {
        (x, y)
    };
    Ed {
        boxes: Boxes {
            is_dragging: true,
            drag_start: Some(p),
            drag_current: Some(p),
            ..e.boxes
        },
        ..f
    }
}

/// The selection after an element was grabbed.
pub open spec fn grab_selection(selected: Seq<usize>, idx: usize, ctrl: bool) -> Seq<usize> {
    if ctrl {
        panel::toggled(selected, idx)
    } else if selected.contains(idx) {
        selected
    } else {
        seq![idx]
    }
}

/// The state in which an element is grabbed: together with the others that are
/// selected, or alone.
pub open spec fn element_grabbed(e: Ed, idx: usize, x: i32, y: i32, ctrl: bool) -> Ed {
    let sel = grab_selection(e.doc.selected, idx, ctrl);
    let d = e.doc.elements[idx as int].display;
    Ed {
        doc: DocView { selected: sel, pending: Some(e.doc.elements), ..e.doc },
        drag: if sel.len() > 1 && sel.contains(idx) {
            Drag { multi_dragging: true, multi_drag_last: (x, y), ..e.drag }
        } else {
            Drag {
                drag_index: Some(idx),
                drag_offset: (
                    (x - (e.area.overlay_x + d.x)) as i32,
                    (y - (e.area.overlay_y + d.y)) as i32,
                ),
                ..e.drag
            }
        },
        ..e
    }
}

/// The state in which the handle of an element is grabbed.
pub open spec fn handle_grabbed(e: Ed, idx: usize, x: i32, y: i32, ctrl: bool) -> Ed {
    let el = e.doc.elements[idx as int];
    Ed {
        doc: DocView {
            selected: if ctrl {
                e.doc.selected
            } else {
                seq![idx]
            },
            pending: Some(e.doc.elements),
            ..e.doc
        },
        drag: Drag {
            resize_index: Some(idx),
            resize_start: if el.extra.kind == ElemKind::Text {
                Some((x, y))
            } else {
                None
            },
            resize_start_font: el.extra.font_size,
            ..e.drag
        },
        ..e
    }
}

/// The state in which a box that selects elements is begun.
pub open spec fn box_begun(e: Ed, x: i32, y: i32, ctrl: bool) -> Ed {
    Ed {
        doc: DocView {
            selected: if ctrl {
                e.doc.selected
            } else {
                Seq::empty()
            },
            ..e.doc
        },
        boxes: Boxes {
            box_selecting: true,
            box_select_start: Some((x, y)),
            box_select_current: Some((x, y)),
            ..e.boxes
        },
        ..e
    }
}

/// A click on the canvas.
#[verifier::opaque]
pub open spec fn canvas_pressed(e: Ed, x: i32, y: i32, s: Press) -> Ed {
    match e.phase {
        EditorPhase::Selecting => region_begun(e, x, y),
        EditorPhase::Arranging => match arranging::canvas_hit(e, s.sizes@, x as int, y as int) {
            Some((idx, true)) => handle_grabbed(e, idx, x, y, s.ctrl),
            Some((idx, false)) => element_grabbed(e, idx, x, y, s.ctrl),
            None => box_begun(e, x, y, s.ctrl),
        },
    }
}

/// What the mouse button does when it goes down. While the question about an
/// existing file is open, only its buttons do anything. Typing ends. The panel
/// lets nothing through to the canvas.
pub open spec fn pressed(e: Ed, x: i32, y: i32, s: Press) -> Outcome {
    let f = panel::typing_ended(e);
    if e.entry.confirm_overwrite {
        confirm_clicked(e, x as int, y as int)
    } else if !on_panel(f, x as int, y as int) {
        goes_on(canvas_pressed(unfocused(f), x, y, s))
    } else if y <= f.panel.panel_y + TITLE_H {
        goes_on(panel_grabbed(f, x, y))
    } else {
        controls_pressed(f, x, y, s)
    }
}

fn grab_new(st: &mut EditorState, k: AddKind, x: i32, y: i32)
    requires
        old(st)@.in_range(),
        old(st)@.wf(),
        old(st)@.phase == EditorPhase::Arranging,
    ensures
        final(st)@ == new_grabbed(old(st)@, k, x, y),
        final(st)@.wf(),
{
    let ghost e = st@;
    let idx: usize = st.doc.elements.len();
    let before: Vec<Element> = copy_elements(&st.doc.elements);
    st.doc.undo_pending = Some(before);
    let kind: ElemKind = match k {
        AddKind::Frame => ElemKind::Frame,
        AddKind::Background => ElemKind::Background,
        AddKind::Png => ElemKind::Png,
        AddKind::Text => ElemKind::Text,
    };
    add_ui_element(st, kind);
    let ghost f = st@;
    let ghost v = st.doc.elements@;
    assert(state::els(v)[idx as int] == v[idx as int]@);
    let w: i32 = half_i32(st.doc.elements[idx].display.width);
    let h: i32 = half_i32(st.doc.elements[idx].display.height);
    let nx: i64 = max_i64(x as i64 - st.area.overlay_x as i64 - w as i64, 0);
    let ny: i64 = max_i64(y as i64 - st.area.overlay_y as i64 - h as i64, 0);
    st.doc.elements[idx].display.x = nx as i32;
    st.doc.elements[idx].display.y = ny as i32;
    proof {
        assert(st.doc.elements@ =~= v.update(idx as int, st.doc.elements@[idx as int]));
        panel::lemma_els_update(v, idx as int, st.doc.elements@[idx as int]);
    }
    st.drag.drag_index = Some(idx);
    st.drag.drag_offset = (w, h);
    st.doc.selected_indices = vec![idx];
    assert(st.doc.selected_indices@ =~= seq![idx]);
    st.entry.filename_focused = false;
}

fn press_lane(st: &mut EditorState, y: i32, scroll_to: i32)
    requires
        old(st)@.in_range(),
        panel::max_scroll(old(st)@) > 0,
    ensures
        final(st)@ == lane_pressed(old(st)@, y, scroll_to),
{
    if let Some((off, len)) = scroll_thumb(st) {
        let top: i64 = list_area_rect(st).1 as i64 + off as i64;
        if y as i64 >= top && y as i64 <= top + len as i64 {
            st.panel.scroll_drag = Some((y, off));
        } else {
            st.panel.list_scroll = clamp_i32(scroll_to, 0, list_max_scroll(st));
        }
    }
    st.entry.filename_focused = false;
}

fn press_list(st: &mut EditorState, y: i32, ctrl: bool)
    requires
        old(st)@.in_range(),
        old(st)@.wf(),
    ensures
        final(st)@ == list_pressed(old(st)@, y as int, ctrl),
        final(st)@.wf(),
{
    let top: i32 = list_area_rect(st).1;
    if y >= top {
        let idx: usize = list_scroll_clamped(st) as usize + ((y - top) / LIST_ITEM_H) as usize;
        if idx < st.doc.elements.len() {
            if ctrl {
                proof {
                    panel::law_toggling_selects_elements(
                        st@.doc.selected,
                        idx,
                        st@.doc.elements.len(),
                    );
                }
                toggle_select(&mut st.doc.selected_indices, idx);
            } else {
                st.doc.selected_indices = vec![idx];
                assert(st.doc.selected_indices@ =~= seq![idx]);
            }
        }
    }
    st.entry.filename_focused = false;
}

/// What does not change the elements, what is selected and what is dragged keeps
/// the state well-formed.
proof fn lemma_same_doc(e: Ed, f: Ed)
    requires
        e.wf(),
        f.doc == e.doc,
        f.phase == e.phase,
        f.drag == (Drag { snapped_x: f.drag.snapped_x, snapped_y: f.drag.snapped_y, ..e.drag }),
    ensures
        f.wf(),
{
}

pub proof fn lemma_kept_shape(e: Ed, f: Ed)
    requires
        e.wf(),
        f.doc.elements.len() == e.doc.elements.len(),
        f.doc.selected == e.doc.selected,
        f.doc.undo.len() <= UNDO_LIMIT,
        f.drag == e.drag,
        f.phase == e.phase,
    ensures
        f.wf(),
{
}

pub proof fn lemma_spun_wf(e: Ed, target: SpinTarget, dir: int, stepped: Opacity)
    requires
        e.wf(),
    ensures
        panel::spun(e, target, dir, stepped).wf(),
{
    let f = panel::spun(e, target, dir, stepped);
    state::law_stack_is_bounded(e.doc, e.doc.elements);
    lemma_kept_shape(e, f);
}

fn press_fields(st: &mut EditorState, x: i32, y: i32, s: &Press)
    requires
        old(st)@.in_range(),
        old(st)@.wf(),
    ensures
        final(st)@ == fields_pressed(old(st)@, x, y, *s),
        final(st)@.wf(),
{
    proof {
        reveal(fields_pressed);
    }
    let ghost e = st@;
    if let Some((idx, fk, up)) = hit_test_spin_field(st, x, y) {
        let dir: i32 = if up {
            1
        } else {
            -1
        };
        apply_spin(st, SpinTarget::RegionField(idx, fk), dir, s.opacity_up);
        proof {
            lemma_spun_wf(e, SpinTarget::RegionField(idx, fk), dir as int, s.opacity_up);
        }
        return;
    }
    if let Some((idx, prop, up)) = hit_test_spin_prop(st, x, y) {
        let dir: i32 = if up {
            1
        } else {
            -1
        };
        let stepped: Opacity = if up {
            s.opacity_up
        } else {
            s.opacity_down
        };
        apply_spin(st, SpinTarget::ElemProp(idx, prop), dir, stepped);
        proof {
            lemma_spun_wf(e, SpinTarget::ElemProp(idx, prop), dir as int, stepped);
        }
        return;
    }
    if let Some((idx, fk)) = hit_test_field(st, x, y) {
        start_editing_field(st, idx, fk);
        return;
    }
    if let Some((idx, prop)) = hit_test_prop(st, x, y) {
        start_editing_prop(st, idx, prop, s.opacity_text.as_str());
        return;
    }
    if st.phase == EditorPhase::Arranging {
        if let Some(k) = add_button_hit(st, x, y) {
            grab_new(st, k, x, y);
            return;
        }
    }
    let (px, top, pw, h) = list_area_rect(st);
    if x >= px + pw - SB_LANE - 2 && x <= px + pw - 2 && y >= top && y <= top + h
        && list_max_scroll(st) > 0 {
        press_lane(st, y, s.scroll_to);
        return;
    }
    press_list(st, y, s.ctrl);
}

fn button_at(st: &EditorState, x: i32, y: i32) -> (r: Option<BtnAction>)
    requires
        st@.panel.in_range(),
    ensures
        r == button_hit(st@, x as int, y as int),
{
    match panel_mode_hit(st, x, y) {
        Some(a) => Some(a),
        None => panel_action_hit(st, x, y),
    }
}

fn box_or_toggle_at(st: &EditorState, x: i32, y: i32) -> (r: Option<ToggleKind>)
    requires
        st@.panel.in_range(),
    ensures
        r == box_or_toggle_hit(st@, x as int, y as int),
{
    match panel_toggle_box_hit(st, x, y) {
        Some(k) => Some(k),
        None => panel_toggle_button_hit(st, x, y),
    }
}

fn file_name_at(st: &EditorState, x: i32, y: i32) -> (r: bool)
    requires
        st@.panel.in_range(),
    ensures
        r == on_file_name(st@, x as int, y as int),
{
    let fx: i32 = st.panel.panel_x + 10;
    let fy: i32 = st.panel.panel_y + TITLE_H + 22;
    x >= fx && x <= fx + (PANEL_W - 20) && y >= fy && y <= fy + FN_BOX_H
}

fn spin_value(st: &mut EditorState, k: ToggleKind, dir: i32, stepped: Opacity)
    requires
        old(st)@.wf(),
    ensures
        final(st)@ == panel::spun(old(st)@, value_target(k), dir as int, stepped),
        final(st)@.wf(),
{
    let target: SpinTarget = match k {
        ToggleKind::SnapDistance => SpinTarget::SnapDistance,
        ToggleKind::SnapGap => SpinTarget::SnapGap,
        _ => SpinTarget::NudgeStep,
    };
    proof {
        lemma_spun_wf(st@, target, dir as int, stepped);
    }
    apply_spin(st, target, dir, stepped);
}

fn press_values(st: &mut EditorState, x: i32, y: i32, s: &Press)
    requires
        old(st)@.in_range(),
        old(st)@.wf(),
    ensures
        final(st)@ == values_pressed(old(st)@, x, y, *s),
        final(st)@.wf(),
{
    proof {
        reveal(values_pressed);
    }
    match panel_toggle_spin_hit(st, x, y) {
        Some((k, up)) => {
            let dir: i32 = if up {
                1
            } else {
                -1
            };
            spin_value(st, k, dir, s.opacity_up);
        },
        None => {
            match box_or_toggle_at(st, x, y) {
                Some(k) => {
                    handle_toggle_click(st, k);
                },
                None => {
                    if file_name_at(st, x, y) {
                        st.entry.filename_focused = true;
                    } else {
                        press_fields(st, x, y, s);
                    }
                },
            }
        },
    }
}

fn press_controls(st: &mut EditorState, x: i32, y: i32, s: &Press) -> (r: bool)
    requires
        old(st)@.in_range(),
        old(st)@.wf(),
    ensures
        final(st)@ == controls_pressed(old(st)@, x, y, *s).ed,
        r == controls_pressed(old(st)@, x, y, *s).close,
        final(st)@.wf(),
{
    proof {
        reveal(controls_pressed);
    }
    match button_at(st, x, y) {
        Some(a) => {
            st.entry.filename_focused = false;
            handle_toolbar_action(st, a, s.file_exists)
        },
        None => {
            press_values(st, x, y, s);
            false
        },
    }
}

fn begin_region(st: &mut EditorState, x: i32, y: i32)
    ensures
        final(st)@ == region_begun(old(st)@, x, y),
{
    st.boxes.is_dragging = true;
    let p: (i32, i32) = if st.prefs.snap_on && !st.prefs.snap_tian {
        snap_selection(st, x, y)
    } else {
        st.drag.snapped_x = None;
        st.drag.snapped_y = None;
        (x, y)
    };
    st.boxes.drag_start = Some(p);
    st.boxes.drag_current = Some(p);
}

fn grab_element(st: &mut EditorState, idx: usize, x: i32, y: i32, ctrl: bool)
    requires
        old(st)@.wf(),
        old(st)@.phase == EditorPhase::Arranging,
        idx < old(st)@.doc.elements.len(),
    ensures
        final(st)@ == element_grabbed(old(st)@, idx, x, y, ctrl),
        final(st)@.wf(),
{
    let ghost e = st@;
    let before: Vec<Element> = copy_elements(&st.doc.elements);
    st.doc.undo_pending = Some(before);
    if ctrl {
        proof {
            panel::law_toggling_selects_elements(e.doc.selected, idx, e.doc.elements.len());
        }
        toggle_select(&mut st.doc.selected_indices, idx);
    } else if !holds(&st.doc.selected_indices, idx) {
        st.doc.selected_indices = vec![idx];
        assert(st.doc.selected_indices@ =~= seq![idx]);
    }
    if st.doc.selected_indices.len() > 1 && holds(&st.doc.selected_indices, idx) {
        st.drag.multi_dragging = true;
        st.drag.multi_drag_last = (x, y);
    } else {
        assert(e.doc.elements[idx as int] == st.doc.elements@[idx as int]@);
        let d = &st.doc.elements[idx].display;
        let off: (i32, i32) = (
            (x as i64 - (st.area.overlay_x as i64 + d.x as i64)) as i32,
            (y as i64 - (st.area.overlay_y as i64 + d.y as i64)) as i32,
        );
        st.drag.drag_index = Some(idx);
        st.drag.drag_offset = off;
    }
}

fn grab_handle(st: &mut EditorState, idx: usize, x: i32, y: i32, ctrl: bool)
    requires
        old(st)@.wf(),
        old(st)@.phase == EditorPhase::Arranging,
        idx < old(st)@.doc.elements.len(),
    ensures
        final(st)@ == handle_grabbed(old(st)@, idx, x, y, ctrl),
        final(st)@.wf(),
{
    let ghost e = st@;
    assert(e.doc.elements[idx as int] == st.doc.elements@[idx as int]@);
    let before: Vec<Element> = copy_elements(&st.doc.elements);
    st.doc.undo_pending = Some(before);
    st.drag.resize_index = Some(idx);
    st.drag.resize_start = if st.doc.elements[idx].extra.kind == ElemKind::Text {
        Some((x, y))
    } else {
        None
    };
    st.drag.resize_start_font = st.doc.elements[idx].extra.font_size;
    if !ctrl {
        st.doc.selected_indices = vec![idx];
        assert(st.doc.selected_indices@ =~= seq![idx]);
    }
}

fn press_canvas(st: &mut EditorState, x: i32, y: i32, s: &Press)
    requires
        old(st)@.wf(),
        s.sizes@.len() == old(st)@.doc.elements.len(),
    ensures
        final(st)@ == canvas_pressed(old(st)@, x, y, *s),
        final(st)@.wf(),
{
    proof {
        reveal(canvas_pressed);
    }
    match st.phase {
        EditorPhase::Selecting => {
            begin_region(st, x, y);
        },
        EditorPhase::Arranging => {
            match hit_test(st, &s.sizes, x, y) {
                Some((idx, handle)) => {
                    if handle {
                        grab_handle(st, idx, x, y, s.ctrl);
                    } else {
                        grab_element(st, idx, x, y, s.ctrl);
                    }
                },
                None => {
                    if !s.ctrl {
                        st.doc.selected_indices = Vec::new();
                        assert(st.doc.selected_indices@ =~= Seq::empty());
                    }
                    st.boxes.box_selecting = true;
                    st.boxes.box_select_start = Some((x, y));
                    st.boxes.box_select_current = Some((x, y));
                },
            }
        },
    }
}

/// The mouse button goes down. Returns whether the editor closes.
pub fn on_lbutton_down(st: &mut EditorState, x: i32, y: i32, s: &Press) -> (r: bool)
    requires
        old(st)@.in_range(),
        old(st)@.wf(),
        s.sizes@.len() == old(st)@.doc.elements.len(),
    ensures
        final(st)@ == pressed(old(st)@, x, y, *s).ed,
        r == pressed(old(st)@, x, y, *s).close,
        final(st)@.wf(),
{
    if st.entry.confirm_overwrite {
        return handle_confirm_click(st, x, y);
    }
    end_typing(st);
    let (px, py, pw, ph) = panel_rect(st);
    if x >= px && x <= px + pw && y >= py && y <= py + ph {
        if y <= py + TITLE_H {
            st.panel.drag_panel = true;
            st.panel.panel_drag_offset = (x - px, y - py);
            st.entry.filename_focused = false;
            return false;
        }
        return press_controls(st, x, y, s);
    }
    st.entry.filename_focused = false;
    press_canvas(st, x, y, s);
    false
}

// ===== Moving elements =====

/// An element moved: what it captures, or where it is shown. Neither goes left
/// of or above the origin.
pub open spec fn el_moved(el: El, sources: bool, dx: int, dy: int) -> El {
    if sources {
        match el.source {
            Some(s) => El {
                source: Some(
                    Rect {
                        x: num::int_max(s.x as i32 + dx, 0) as u32,
                        y: num::int_max(s.y as i32 + dy, 0) as u32,
                        ..s
                    },
                ),
                ..el
            },
            None => el,
        }
    } else {
        El {
            display: DisplayRect {
                x: num::int_max(el.display.x + dx, 0) as i32,
                y: num::int_max(el.display.y + dy, 0) as i32,
                ..el.display
            },
            ..el
        }
    }
}

/// Elements with those that are selected moved.
pub open spec fn els_moved(s: Seq<El>, selected: Seq<usize>, sources: bool, dx: int, dy: int) -> Seq<El> {
    Seq::new(
        s.len(),
        |i: int|
            if selected.contains(i as usize) {
                el_moved(s[i], sources, dx, dy)
            } else {
                s[i]
            },
    )
}

fn move_element(e: &mut Element, sources: bool, dx: i64, dy: i64)
    requires
        -0x1_0000_0000 <= dx <= 0x1_0000_0000,
        -0x1_0000_0000 <= dy <= 0x1_0000_0000,
    ensures
        final(e)@ == el_moved(old(e)@, sources, dx as int, dy as int),
{
    if sources {
        if let Some(s) = e.source {
            let mut s: Rect = s;
            s.x = max_i64(s.x as i32 as i64 + dx, 0) as u32;
            s.y = max_i64(s.y as i32 as i64 + dy, 0) as u32;
            e.source = Some(s);
        }
    } else {
        e.display.x = max_i64(e.display.x as i64 + dx, 0) as i32;
        e.display.y = max_i64(e.display.y as i64 + dy, 0) as i32;
    }
}

pub(crate) fn move_elements(
    elements: &mut Vec<Element>,
    selected: &Vec<usize>,
    sources: bool,
    dx: i64,
    dy: i64,
)
    requires
        state::selection_ok(selected@, old(elements)@.len()),
        state::distinct(selected@),
        -0x1_0000_0000 <= dx <= 0x1_0000_0000,
        -0x1_0000_0000 <= dy <= 0x1_0000_0000,
    ensures
        state::els(final(elements)@) == els_moved(
            state::els(old(elements)@),
            selected@,
            sources,
            dx as int,
            dy as int,
        ),
        final(elements)@.len() == old(elements)@.len(),
{
    let ghost all = state::els(elements@);
    let total: usize = elements.len();
    assert(els_moved(all, selected@.take(0), sources, dx as int, dy as int) =~= all);
    for k in 0..selected.len()
        invariant
            all.len() == elements@.len(),
            all.len() == total,
            state::selection_ok(selected@, all.len()),
            state::distinct(selected@),
            -0x1_0000_0000 <= dx <= 0x1_0000_0000,
            -0x1_0000_0000 <= dy <= 0x1_0000_0000,
            state::els(elements@) == els_moved(
                all,
                selected@.take(k as int),
                sources,
                dx as int,
                dy as int,
            ),
    {
        let idx: usize = selected[k];
        let ghost before = elements@;
        proof {
            let done = selected@.take(k as int);
            assert(selected@[k as int] < all.len());
            if done.contains(idx) {
                let j = choose|j: int| 0 <= j < done.len() && done[j] == idx;
                assert(selected@[j] == selected@[k as int]);
            }
            assert(state::els(before)[idx as int] == all[idx as int]);
            assert(before[idx as int]@ == all[idx as int]);
        }
        move_element(&mut elements[idx], sources, dx, dy);
        proof {
            panel::lemma_els_update(before, idx as int, elements@[idx as int]);
            let done = selected@.take(k as int);
            let next = selected@.take(k + 1);
            assert(next =~= done.push(idx));
            assert forall|i: int| 0 <= i < all.len() implies #[trigger] els_moved(
                all,
                next,
                sources,
                dx as int,
                dy as int,
            )[i] == state::els(elements@)[i] by {
                if i == idx {
                    assert(next[k as int] == idx);
                } else if done.contains(i as usize) {
                    let j = choose|j: int| 0 <= j < done.len() && done[j] == i as usize;
                    assert(next[j] == i as usize);
                } else if next.contains(i as usize) {
                    let j = choose|j: int| 0 <= j < next.len() && next[j] == i as usize;
                    assert(j < k ==> done[j] == i as usize);
                }
            }
            assert(state::els(elements@) =~= els_moved(all, next, sources, dx as int, dy as int));
        }
    }
    assert(selected@.take(selected@.len() as int) =~= selected@);
}

// ===== Mouse move =====

/// The state with the panel dragged: it stays on the screen.
pub open spec fn panel_dragged(e: Ed, x: int, y: int) -> Ed {
    Ed {
        panel: Panel {
            panel_x: num::int_clamp(
                x - e.panel.panel_drag_offset.0,
                4,
                e.area.screen_w - PANEL_W - 4,
            ) as i32,
            panel_y: num::int_clamp(
                y - e.panel.panel_drag_offset.1,
                4,
                e.area.screen_h - TITLE_H - 60,
            ) as i32,
            ..e.panel
        },
        ..e
    }
}

/// The state with the thumb of the scroll bar dragged.
pub open spec fn thumb_dragged(e: Ed, scroll_to: i32) -> Ed {
    if panel::max_scroll(e) > 0 {
        Ed {
            panel: Panel {
                list_scroll: num::int_clamp(scroll_to as int, 0, panel::max_scroll(e)) as i32,
                ..e.panel
            },
            ..e
        }
    } else {
        e
    }
}

/// The state with the box of a new region drawn on, to a corner that snaps.
pub open spec fn region_drawn(e: Ed, x: i32, y: i32) -> Ed {
    if e.prefs.snap_on && !e.prefs.snap_tian {
        Ed {
            boxes: Boxes {
                drag_current: Some(
                    (
                        snap::selection_x(e, x as int).pos as i32,
                        snap::selection_y(e, y as int).pos as i32,
                    ),
                ),
                ..e.boxes
            },
            ..snap::selection_snapped(e, x as int, y as int)
        }
    } else {
        Ed { boxes: Boxes { drag_current: Some((x, y)), ..e.boxes }, ..e }
    }
}

/// The state with all that is selected dragged to the mouse.
pub open spec fn selection_dragged(e: Ed, x: i32, y: i32) -> Ed {
    Ed {
        doc: DocView {
            elements: els_moved(
                e.doc.elements,
                e.doc.selected,
                false,
                x - e.drag.multi_drag_last.0,
                y - e.drag.multi_drag_last.1,
            ),
            ..e.doc
        },
        drag: Drag { multi_drag_last: (x, y), ..e.drag },
        ..e
    }
}

/// The state with an element dragged to the mouse, where it may snap.
pub open spec fn element_dragged(e: Ed, idx: usize, x: int, y: int) -> Ed {
    let nx = num::int_max(x - e.area.overlay_x - e.drag.drag_offset.0, 0) as i32 as int;
    let ny = num::int_max(y - e.area.overlay_y - e.drag.drag_offset.1, 0) as i32 as int;
    let snaps = e.prefs.snap_on || e.prefs.snap_tian;
    let f = if snaps {
        snap::arrangement_snapped(e, idx as int, nx, ny)
    } else {
        e
    };
    let p = if snaps {
        snap::arrangement_at(e, idx as int, nx, ny)
    } else {
        (nx, ny)
    };
    let el = e.doc.elements[idx as int];
    let placed = El {
        display: DisplayRect { x: p.0 as i32, y: p.1 as i32, ..el.display },
        ..el
    };
    panel::elements_set(f, e.doc.elements.update(idx as int, placed))
}

/// The state with an element resized to the mouse, which may snap. A text keeps
/// its place and its font is scaled: to between 6 and 300.
pub open spec fn element_resized(e: Ed, idx: usize, x: int, y: int, font: u32) -> Ed {
    let el = e.doc.elements[idx as int];
    if el.extra.kind == ElemKind::Text {
        if e.drag.resize_start is Some {
            let scaled = El {
                extra: Ex { font_size: num::int_clamp(font as int, 6, 300) as u32, ..el.extra },
                ..el
            };
            panel::elements_set(e, e.doc.elements.update(idx as int, scaled))
        } else {
            e
        }
    } else {
        let w = num::int_max(x - e.area.overlay_x - el.display.x, 20) as i32 as int;
        let h = num::int_max(y - e.area.overlay_y - el.display.y, 20) as i32 as int;
        let p = if e.prefs.snap_on && !e.prefs.snap_tian {
            snap::resized(e.doc.elements, idx as int, w, h, e.prefs.snap_distance as int)
        } else {
            (w, h)
        };
        let sized = El {
            display: DisplayRect { width: p.0 as i32, height: p.1 as i32, ..el.display },
            ..el
        };
        panel::elements_set(e, e.doc.elements.update(idx as int, sized))
    }
}

/// What the mouse does on the canvas when it moves, and whether the screen is
/// drawn again.
#[verifier::opaque]
pub open spec fn canvas_moved(e: Ed, x: i32, y: i32, font: u32) -> (Ed, bool) {
    match e.phase {
        EditorPhase::Selecting => if e.boxes.is_dragging {
            (region_drawn(e, x, y), true)
        } else {
            (e, false)
        },
        EditorPhase::Arranging => if e.drag.multi_dragging {
            (selection_dragged(e, x, y), true)
        } else if e.boxes.box_selecting {
            (Ed { boxes: Boxes { box_select_current: Some((x, y)), ..e.boxes }, ..e }, true)
        } else if e.drag.drag_index is Some {
            (element_dragged(e, e.drag.drag_index.unwrap(), x as int, y as int), true)
        } else if e.drag.resize_index is Some {
            (element_resized(e, e.drag.resize_index.unwrap(), x as int, y as int, font), true)
        } else {
            (e, false)
        },
    }
}

/// What the mouse does when it moves, and whether the screen is drawn again.
pub open spec fn mouse_moved(e: Ed, x: i32, y: i32, scroll_to: i32, font: u32) -> (Ed, bool) {
    if e.entry.confirm_overwrite {
        (e, false)
    } else if e.panel.drag_panel {
        (panel_dragged(e, x as int, y as int), true)
    } else if e.panel.scroll_drag is Some {
        (thumb_dragged(e, scroll_to), true)
    } else {
        canvas_moved(e, x, y, font)
    }
}

/// Whether the panel fits on the screen.
pub open spec fn panel_fits(e: Ed) -> bool {
    e.area.screen_w >= PANEL_W + 8 && e.area.screen_h >= TITLE_H + 64
}

fn draw_region(st: &mut EditorState, x: i32, y: i32)
    ensures
        final(st)@ == region_drawn(old(st)@, x, y),
{
    let p: (i32, i32) = if st.prefs.snap_on && !st.prefs.snap_tian {
        snap_selection(st, x, y)
    } else {
        (x, y)
    };
    st.boxes.drag_current = Some(p);
}

fn drag_selection(st: &mut EditorState, x: i32, y: i32)
    requires
        old(st)@.wf(),
    ensures
        final(st)@ == selection_dragged(old(st)@, x, y),
{
    let dx: i64 = x as i64 - st.drag.multi_drag_last.0 as i64;
    let dy: i64 = y as i64 - st.drag.multi_drag_last.1 as i64;
    st.drag.multi_drag_last = (x, y);
    move_elements(&mut st.doc.elements, &st.doc.selected_indices, false, dx, dy);
}

fn drag_element(st: &mut EditorState, idx: usize, x: i32, y: i32)
    requires
        idx < old(st)@.doc.elements.len(),
    ensures
        final(st)@ == element_dragged(old(st)@, idx, x as int, y as int),
{
    let (mx, my): (i64, i64) = (
        x as i64 - st.area.overlay_x as i64,
        y as i64 - st.area.overlay_y as i64,
    );
    let nx: i32 = max_i64(mx - st.drag.drag_offset.0 as i64, 0) as i32;
    let ny: i32 = max_i64(my - st.drag.drag_offset.1 as i64, 0) as i32;
    let (px, py): (i32, i32) = if st.prefs.snap_on || st.prefs.snap_tian {
        snap_arrangement(st, idx, nx, ny)
    } else {
        (nx, ny)
    };
    let ghost v = st.doc.elements@;
    assert(state::els(v)[idx as int] == v[idx as int]@);
    st.doc.elements[idx].display.x = px;
    st.doc.elements[idx].display.y = py;
    proof {
        assert(st.doc.elements@ =~= v.update(idx as int, st.doc.elements@[idx as int]));
        panel::lemma_els_update(v, idx as int, st.doc.elements@[idx as int]);
    }
}

fn resize_element(st: &mut EditorState, idx: usize, x: i32, y: i32, font: u32)
    requires
        idx < old(st)@.doc.elements.len(),
    ensures
        final(st)@ == element_resized(old(st)@, idx, x as int, y as int, font),
{
    let ghost v = st.doc.elements@;
    assert(state::els(v)[idx as int] == v[idx as int]@);
    if st.doc.elements[idx].extra.kind == ElemKind::Text {
        if st.drag.resize_start.is_some() {
            st.doc.elements[idx].extra.font_size = if font < 6 {
                6
            } else if font > 300 {
                300
            } else {
                font
            };
            proof {
                assert(st.doc.elements@ =~= v.update(idx as int, st.doc.elements@[idx as int]));
                panel::lemma_els_update(v, idx as int, st.doc.elements@[idx as int]);
            }
        }
        return;
    }
    let (mx, my): (i64, i64) = (
        x as i64 - st.area.overlay_x as i64,
        y as i64 - st.area.overlay_y as i64,
    );
    let w: i32 = max_i64(mx - st.doc.elements[idx].display.x as i64, 20) as i32;
    let h: i32 = max_i64(my - st.doc.elements[idx].display.y as i64, 20) as i32;
    let (pw, ph): (i32, i32) = if st.prefs.snap_on && !st.prefs.snap_tian {
        snap_resize(&st.doc.elements, idx, w, h, st.prefs.snap_distance)
    } else {
        (w, h)
    };
    st.doc.elements[idx].display.width = pw;
    st.doc.elements[idx].display.height = ph;
    proof {
        assert(st.doc.elements@ =~= v.update(idx as int, st.doc.elements@[idx as int]));
        panel::lemma_els_update(v, idx as int, st.doc.elements@[idx as int]);
    }
}

fn move_on_canvas(st: &mut EditorState, x: i32, y: i32, font: u32) -> (r: bool)
    requires
        old(st)@.wf(),
    ensures
        (final(st)@, r) == canvas_moved(old(st)@, x, y, font),
        final(st)@.wf(),
{
    proof {
        reveal(canvas_moved);
    }
    match st.phase {
        EditorPhase::Selecting => {
            if st.boxes.is_dragging {
                draw_region(st, x, y);
                true
            } else {
                false
            }
        },
        EditorPhase::Arranging => {
            if st.drag.multi_dragging {
                drag_selection(st, x, y);
                return true;
            }
            if st.boxes.box_selecting {
                st.boxes.box_select_current = Some((x, y));
                return true;
            }
            if let Some(idx) = st.drag.drag_index {
                drag_element(st, idx, x, y);
                return true;
            }
            if let Some(idx) = st.drag.resize_index {
                resize_element(st, idx, x, y, font);
                return true;
            }
            false
        },
    }
}

/// The mouse moves. `scroll_to` is where the list scrolls to where the thumb of
/// the scroll bar is dragged, and `font` the scaled font size where a text is
/// resized. Returns whether the screen is drawn again.
pub fn on_mouse_move(st: &mut EditorState, x: i32, y: i32, scroll_to: i32, font: u32) -> (r: bool)
    requires
        old(st)@.in_range(),
        old(st)@.wf(),
        old(st)@.panel.drag_panel && !old(st)@.entry.confirm_overwrite ==> panel_fits(old(st)@),
    ensures
        (final(st)@, r) == mouse_moved(old(st)@, x, y, scroll_to, font),
        final(st)@.wf(),
{
    if st.entry.confirm_overwrite {
        return false;
    }
    if st.panel.drag_panel {
        let px: i64 = x as i64 - st.panel.panel_drag_offset.0 as i64;
        let py: i64 = y as i64 - st.panel.panel_drag_offset.1 as i64;
        st.panel.panel_x = clamp_i64(px, 4, (st.area.screen_w - PANEL_W - 4) as i64) as i32;
        st.panel.panel_y = clamp_i64(py, 4, (st.area.screen_h - TITLE_H - 60) as i64) as i32;
        return true;
    }
    if st.panel.scroll_drag.is_some() {
        let most: i32 = list_max_scroll(st);
        if most > 0 {
            st.panel.list_scroll = clamp_i32(scroll_to, 0, most);
        }
        return true;
    }
    move_on_canvas(st, x, y, font)
}

// ===== Mouse up =====

/// The document after the step that was under way ended: it is one that can be
/// undone where the elements have changed.
pub open spec fn pending_settled(d: DocView) -> DocView {
    let f = DocView { pending: None, ..d };
    match d.pending {
        Some(p) => if state::same_els(d.elements, p) {
            f
        } else {
            state::snapshot_pushed(f, p)
        },
        None => f,
    }
}

/// The state after what was dragged was dropped, before boxes are looked at.
pub open spec fn dropped(e: Ed) -> Ed {
    Ed {
        doc: pending_settled(e.doc),
        drag: Drag { snapped_x: None, snapped_y: None, ..e.drag },
        panel: Panel { drag_panel: false, scroll_drag: None, ..e.panel },
        ..e
    }
}

/// The rectangle between two corners: left, top, width, height. It does not
/// begin left of or above the origin.
pub open spec fn between(s: (i32, i32), c: (i32, i32)) -> (int, int, int, int) {
    (
        num::int_max(num::int_min(s.0 as int, c.0 as int), 0),
        num::int_max(num::int_min(s.1 as int, c.1 as int), 0),
        num::int_abs(c.0 - s.0),
        num::int_abs(c.1 - s.1),
    )
}

/// A new capture element. It is shown where it captures, and shows the global
/// opacity, which is not saved with it.
pub open spec fn new_region(e: Ed, b: (int, int, int, int)) -> El {
    El {
        source: Some(
            Rect { x: b.0 as u32, y: b.1 as u32, width: b.2 as u32, height: b.3 as u32 },
        ),
        display: DisplayRect {
            x: (b.0 - e.area.overlay_x) as i32,
            y: (b.1 - e.area.overlay_y) as i32,
            width: b.2 as i32,
            height: b.3 as i32,
            z_order: 0,
            opacity: None,
            rotate: 0,
        },
        extra: Ex { opacity: e.area.global_opacity, ..state::new_capture_ex() },
    }
}

/// The state after the box of a new region ended. Only a box more than ten pixels
/// wide and high makes a region; that is a step that can be undone.
pub open spec fn region_ended(e: Ed, x: i32, y: i32) -> Ed {
    let c = match e.boxes.drag_current {
        Some(p) => p,
        None => (x, y),
    };
    let boxes = Boxes {
        is_dragging: false,
        drag_start: None,
        drag_current: None,
        ..e.boxes
    };
    match e.boxes.drag_start {
        Some(s) => {
            let b = between(s, c);
            if b.2 > 10 && b.3 > 10 {
                Ed {
                    doc: DocView {
                        elements: e.doc.elements.push(new_region(e, b)),
                        ..state::undo_pushed(e.doc)
                    },
                    boxes,
                    ..e
                }
            } else {
                Ed { boxes, ..e }
            }
        },
        None => Ed { boxes, ..e },
    }
}

/// Whether an element reaches into a box.
pub open spec fn in_selection_box(e: Ed, i: int, b: (int, int, int, int)) -> bool {
    let d = e.doc.elements[i].display;
    let x0 = e.area.overlay_x + d.x;
    let y0 = e.area.overlay_y + d.y;
    x0 < b.2 && x0 + d.width > b.0 && y0 < b.3 && y0 + d.height > b.1
}

/// The elements before an index that reach into a box.
pub open spec fn boxed(e: Ed, b: (int, int, int, int), n: int) -> Seq<usize>
    decreases n,
{
    if n <= 0 {
        Seq::empty()
    } else if in_selection_box(e, n - 1, b) {
        boxed(e, b, n - 1).push((n - 1) as usize)
    } else {
        boxed(e, b, n - 1)
    }
}

/// The box between two corners: left, top, right, bottom.
pub open spec fn span_of(s: (i32, i32), c: (i32, i32)) -> (int, int, int, int) {
    (
        num::int_min(s.0 as int, c.0 as int),
        num::int_min(s.1 as int, c.1 as int),
        num::int_max(s.0 as int, c.0 as int),
        num::int_max(s.1 as int, c.1 as int),
    )
}

/// What is selected after a box that selects elements ended. Only a box more than
/// five pixels wide and high selects.
pub open spec fn box_selection(e: Ed) -> Seq<usize> {
    match (e.boxes.box_select_start, e.boxes.box_select_current) {
        (Some(s), Some(c)) => {
            let b = span_of(s, c);
            if b.2 - b.0 > 5 && b.3 - b.1 > 5 {
                boxed(e, b, e.doc.elements.len() as int)
            } else {
                e.doc.selected
            }
        },
        _ => e.doc.selected,
    }
}

/// The state after what was dragged, resized or boxed while arranging ended.
pub open spec fn arranging_ended(e: Ed) -> Ed {
    let f = if e.boxes.box_selecting {
        Ed {
            doc: DocView { selected: box_selection(e), ..e.doc },
            boxes: Boxes {
                box_selecting: false,
                box_select_start: None,
                box_select_current: None,
                ..e.boxes
            },
            ..e
        }
    } else {
        e
    };
    Ed {
        drag: Drag {
            drag_index: None,
            resize_index: None,
            resize_start: None,
            resize_start_font: 0,
            multi_dragging: false,
            ..e.drag
        },
        ..f
    }
}

/// What the mouse button does when it goes up.
pub open spec fn released(e: Ed, x: i32, y: i32) -> Ed {
    let f = dropped(e);
    match f.phase {
        EditorPhase::Selecting => if f.boxes.is_dragging {
            region_ended(f, x, y)
        } else {
            f
        },
        EditorPhase::Arranging => arranging_ended(f),
    }
}

fn settle_pending(doc: &mut Doc)
    requires
        old(doc)@.wf(),
    ensures
        final(doc)@ == pending_settled(old(doc)@),
        final(doc)@.wf(),
        final(doc)@.elements == old(doc)@.elements,
{
    match doc.undo_pending.take() {
        Some(p) => {
            if !same_elements(&doc.elements, &p) {
                doc.push_snapshot(p);
            }
        },
        None => {},
    }
}

fn end_region(st: &mut EditorState, x: i32, y: i32)
    requires
        old(st)@.wf(),
        old(st)@.phase == EditorPhase::Selecting,
    ensures
        final(st)@ == region_ended(old(st)@, x, y),
        final(st)@.wf(),
{
    st.boxes.is_dragging = false;
    let (cx, cy): (i32, i32) = match st.boxes.drag_current {
        Some(p) => p,
        None => (x, y),
    };
    if let Some((sx, sy)) = st.boxes.drag_start {
        let rw: i64 = abs_i64(cx as i64 - sx as i64);
        let rh: i64 = abs_i64(cy as i64 - sy as i64);
        if rw > 10 && rh > 10 {
            let rx: i32 = max_i32(min_i32(sx, cx), 0);
            let ry: i32 = max_i32(min_i32(sy, cy), 0);
            st.doc.push_undo();
            let mut extra: ElemExtra = ElemExtra::new_capture();
            extra.opacity = st.area.global_opacity;
            let display: DisplayRect = DisplayRect {
                x: (rx as i64 - st.area.overlay_x as i64) as i32,
                y: (ry as i64 - st.area.overlay_y as i64) as i32,
                width: rw as i32,
                height: rh as i32,
                z_order: 0,
                opacity: None,
                rotate: 0,
            };
            let source: Rect = Rect {
                x: rx as u32,
                y: ry as u32,
                width: rw as u32,
                height: rh as u32,
            };
            let e: Element = Element::new_capture(source, display, extra);
            let ghost before = state::els(st.doc.elements@);
            st.doc.elements.push(e);
            assert(state::els(st.doc.elements@) =~= before.push(e@));
        }
    }
    st.boxes.drag_start = None;
    st.boxes.drag_current = None;
}

fn box_hits(st: &EditorState, b: (i32, i32, i32, i32)) -> (r: Vec<usize>)
    ensures
        r@ == boxed(
            st@,
            (b.0 as int, b.1 as int, b.2 as int, b.3 as int),
            st@.doc.elements.len() as int,
        ),
        state::selection_ok(r@, st@.doc.elements.len()),
        state::distinct(r@),
{
    let ghost bi = (b.0 as int, b.1 as int, b.2 as int, b.3 as int);
    let mut hits: Vec<usize> = Vec::new();
    for i in 0..st.doc.elements.len()
        invariant
            bi == (b.0 as int, b.1 as int, b.2 as int, b.3 as int),
            hits@ == boxed(st@, bi, i as int),
            state::selection_ok(hits@, i as nat),
            state::distinct(hits@),
    {
        assert(st@.doc.elements[i as int] == st.doc.elements@[i as int]@);
        let d = &st.doc.elements[i].display;
        let x0: i64 = st.area.overlay_x as i64 + d.x as i64;
        let y0: i64 = st.area.overlay_y as i64 + d.y as i64;
        let x1: i64 = x0 + d.width as i64;
        let y1: i64 = y0 + d.height as i64;
        if x0 < b.2 as i64 && x1 > b.0 as i64 && y0 < b.3 as i64 && y1 > b.1 as i64 {
            hits.push(i);
        }
    }
    hits
}

fn end_arranging(st: &mut EditorState)
    requires
        old(st)@.wf(),
    ensures
        final(st)@ == arranging_ended(old(st)@),
        final(st)@.wf(),
{
    if st.boxes.box_selecting {
        if let (Some((sx, sy)), Some((ex, ey))) = (
            st.boxes.box_select_start,
            st.boxes.box_select_current,
        ) {
            let b: (i32, i32, i32, i32) = (
                min_i32(sx, ex),
                min_i32(sy, ey),
                max_i32(sx, ex),
                max_i32(sy, ey),
            );
            if b.2 as i64 - b.0 as i64 > 5 && b.3 as i64 - b.1 as i64 > 5 {
                st.doc.selected_indices = box_hits(st, b);
            }
        }
        st.boxes.box_selecting = false;
        st.boxes.box_select_start = None;
        st.boxes.box_select_current = None;
    }
    st.drag.multi_dragging = false;
    st.drag.drag_index = None;
    st.drag.resize_index = None;
    st.drag.resize_start = None;
    st.drag.resize_start_font = 0;
}

/// The mouse button goes up.
pub fn on_lbutton_up(st: &mut EditorState, x: i32, y: i32)
    requires
        old(st)@.wf(),
    ensures
        final(st)@ == released(old(st)@, x, y),
        final(st)@.wf(),
{
    settle_pending(&mut st.doc);
    st.drag.snapped_x = None;
    st.drag.snapped_y = None;
    st.panel.drag_panel = false;
    st.panel.scroll_drag = None;
    match st.phase {
        EditorPhase::Selecting => {
            if st.boxes.is_dragging {
                end_region(st, x, y);
            }
        },
        EditorPhase::Arranging => {
            end_arranging(st);
        },
    }
}

// ===== Right button =====

/// What the right button does: while selecting it takes back the last element,
/// which can be undone; while arranging it undoes the last step.
pub open spec fn right_clicked(e: Ed) -> Ed {
    let f = panel::typing_ended(e);
    match f.phase {
        EditorPhase::Selecting => if f.doc.elements.len() > 0 {
            Ed {
                doc: DocView {
                    elements: f.doc.elements.drop_last(),
                    selected: Seq::empty(),
                    ..state::undo_pushed(f.doc)
                },
                ..f
            }
        } else {
            f
        },
        EditorPhase::Arranging => state::undone(f),
    }
}

/// The right button goes up. The editor never closes on it.
pub fn on_rbutton(st: &mut EditorState) -> (r: bool)
    requires
        old(st)@.wf(),
    ensures
        final(st)@ == right_clicked(old(st)@),
        !r,
        final(st)@.wf(),
{
    end_typing(st);
    match st.phase {
        EditorPhase::Selecting => {
            if st.doc.elements.len() > 0 {
                st.doc.push_undo();
                let ghost before = st.doc.elements@;
                let gone: Option<Element> = st.doc.elements.pop();
                assert(state::els(st.doc.elements@) =~= state::els(before).drop_last());
                st.doc.selected_indices = Vec::new();
                assert(st.doc.selected_indices@ =~= Seq::empty());
            }
        },
        EditorPhase::Arranging => {
            do_undo(st);
        },
    }
    false
}

// ===== Laws =====

/// A click on an element that does not move it makes no step that could be
/// undone, and leaves the elements as they are.
pub proof fn law_plain_click_makes_no_step(e: Ed, idx: usize, x: i32, y: i32, ctrl: bool)
    requires
        e.phase == EditorPhase::Arranging,
        state::same_els(e.doc.elements, e.doc.elements),
    ensures
        released(element_grabbed(e, idx, x, y, ctrl), x, y).doc.undo == e.doc.undo,
        released(element_grabbed(e, idx, x, y, ctrl), x, y).doc.elements == e.doc.elements,
        released(handle_grabbed(e, idx, x, y, ctrl), x, y).doc.undo == e.doc.undo,
        released(handle_grabbed(e, idx, x, y, ctrl), x, y).doc.elements == e.doc.elements,
{
}

/// Moving the mouse makes no step: neither what can be undone nor the elements
/// from before a drag change.
pub proof fn law_moves_make_no_step(e: Ed, x: i32, y: i32, scroll_to: i32, font: u32)
    ensures
        ({
            let f = mouse_moved(e, x, y, scroll_to, font).0;
            f.phase == e.phase && f.doc.undo == e.doc.undo && f.doc.pending == e.doc.pending
        }),
{
    reveal(canvas_moved);
}

/// A drag that changes the elements is one step, however many moves it is made
/// of, and undoing it gives back the elements from before the drag. `moved` is
/// any state that moves of the mouse lead to from the one in which an element or
/// its handle was grabbed.
pub proof fn law_one_drag_is_one_step(
    e: Ed,
    idx: usize,
    at: (i32, i32),
    ctrl: bool,
    moved: Ed,
    x: i32,
    y: i32,
)
    requires
        e.phase == EditorPhase::Arranging,
        e.doc.undo.len() <= UNDO_LIMIT,
        ({
            let g = element_grabbed(e, idx, at.0, at.1, ctrl);
            let h = handle_grabbed(e, idx, at.0, at.1, ctrl);
            &&& moved.phase == g.phase
            &&& moved.doc.undo == g.doc.undo || moved.doc.undo == h.doc.undo
            &&& moved.doc.pending == g.doc.pending || moved.doc.pending == h.doc.pending
        }),
        !state::same_els(moved.doc.elements, e.doc.elements),
    ensures
        ({
            let r = released(moved, x, y);
            &&& r.doc.elements == moved.doc.elements
            &&& r.doc.undo == state::undo_pushed(e.doc).undo
            &&& state::undone(r).doc.elements == e.doc.elements || state::same_els(
                state::undone(r).doc.elements,
                e.doc.elements,
            )
        }),
{
    let u = state::stack_pushed(e.doc.undo, e.doc.elements);
    if !(e.doc.undo.len() > 0 && state::same_els(e.doc.undo.last(), e.doc.elements)) {
        assert(u.last() == e.doc.elements);
    }
}

/// Adding an element and dragging it into place is one step. `moved` is any state
/// that moves of the mouse lead to.
pub proof fn law_add_and_drop_is_one_step(e: Ed, k: AddKind, at: (i32, i32), moved: Ed, x: i32, y: i32)
    requires
        e.phase == EditorPhase::Arranging,
        e.doc.undo.len() <= UNDO_LIMIT,
        state::same_els(e.doc.elements, e.doc.elements),
        ({
            let g = new_grabbed(e, k, at.0, at.1);
            &&& moved.phase == g.phase
            &&& moved.doc.undo == g.doc.undo
            &&& moved.doc.pending == g.doc.pending
        }),
    ensures
        released(moved, x, y).doc.undo == state::undo_pushed(e.doc).undo,
{
    let u = state::stack_pushed(e.doc.undo, e.doc.elements);
    if !(e.doc.undo.len() > 0 && state::same_els(e.doc.undo.last(), e.doc.elements)) {
        assert(u.last() == e.doc.elements);
    }
}

/// Undoing a deletion gives back the elements.
pub proof fn law_deletion_is_undone(e: Ed)
    requires
        e.phase == EditorPhase::Arranging,
        e.doc.selected.len() > 0,
        e.doc.undo.len() <= UNDO_LIMIT,
        state::same_els(e.doc.elements, e.doc.elements),
    ensures
        state::same_els(state::undone(deletion_made(e)).doc.elements, e.doc.elements),
{
    let u = state::stack_pushed(e.doc.undo, e.doc.elements);
    if !(e.doc.undo.len() > 0 && state::same_els(e.doc.undo.last(), e.doc.elements)) {
        assert(u.last() == e.doc.elements);
    }
}

/// The number of indices below `n` that are not selected.
pub open spec fn kept_below(selected: Seq<usize>, n: int) -> int
    decreases n,
{
    if n <= 0 {
        0
    } else if selected.contains((n - 1) as usize) {
        kept_below(selected, n - 1)
    } else {
        kept_below(selected, n - 1) + 1
    }
}

/// What is left after deleting are the elements that were not selected, all of
/// them and in their order: each comes after as many as are kept before it.
pub proof fn law_deletion_keeps_the_others(e: Ed, i: int)
    requires
        0 <= i < e.doc.elements.len(),
        !e.doc.selected.contains(i as usize),
    ensures
        ({
            let kept = deleted(e).doc.elements;
            let n = kept_below(e.doc.selected, i);
            &&& kept.len() == kept_below(e.doc.selected, e.doc.elements.len() as int)
            &&& 0 <= n < kept.len()
            &&& kept[n] == e.doc.elements[i]
        }),
{
    lemma_kept_from(e.doc.elements, e.doc.selected, 0, i);
}

proof fn lemma_kept_from(s: Seq<El>, selected: Seq<usize>, k: int, i: int)
    requires
        0 <= k <= s.len(),
    ensures
        ({
            let kept = kept_from(s, selected, k);
            let n = kept_below(selected, i) - kept_below(selected, k);
            &&& kept.len() == kept_below(selected, s.len() as int) - kept_below(selected, k)
            &&& k <= i < s.len() && !selected.contains(i as usize) ==> 0 <= n < kept.len()
                && kept[n] == s[i]
        }),
    decreases s.len() - k,
{
    if k < s.len() {
        lemma_kept_from(s, selected, k + 1, i);
        let rest = kept_from(s, selected, k + 1);
        if !selected.contains(k as usize) {
            assert(kept_from(s, selected, k) == seq![s[k]] + rest);
        }
    }
}

/// The two ways of snapping are never on together, once they are not. A click on
/// one of them switches it, and switches the other off where it is now on; a
/// click on anything else leaves both. No click changes the elements or what can
/// be undone.
pub proof fn law_snapping_modes_exclude(e: Ed, k: ToggleKind)
    requires
        !(e.prefs.snap_on && e.prefs.snap_tian),
    ensures
        ({
            let f = toggle_clicked(e, k);
            let p = f.prefs;
            &&& !(p.snap_on && p.snap_tian)
            &&& k == ToggleKind::Snap ==> p.snap_on == !e.prefs.snap_on && p.snap_tian == (
            e.prefs.snap_tian && !p.snap_on)
            &&& k == ToggleKind::TianSnap ==> p.snap_tian == !e.prefs.snap_tian && p.snap_on == (
            e.prefs.snap_on && !p.snap_tian)
            &&& k != ToggleKind::Snap && k != ToggleKind::TianSnap ==> p.snap_on == e.prefs.snap_on
                && p.snap_tian == e.prefs.snap_tian
            &&& f.doc == e.doc
        }),
{
}

/// Switching a helper twice brings it back, but that a way of snapping that it
/// replaced stays off.
pub proof fn law_toggling_a_helper_twice(e: Ed, k: ToggleKind)
    requires
        !(e.prefs.snap_on && e.prefs.snap_tian),
    ensures
        ({
            let p = toggle_clicked(toggle_clicked(e, k), k).prefs;
            &&& p.magnifier_on == e.prefs.magnifier_on
            &&& p.grid_on == e.prefs.grid_on
            &&& p.crosshair_on == e.prefs.crosshair_on
            &&& p.xy_label_on == e.prefs.xy_label_on
            &&& p.snap_on ==> e.prefs.snap_on
            &&& p.snap_tian ==> e.prefs.snap_tian
        }),
{
}

/// Whether the screen is the same and the panel in the same place.
spec fn same_place(e: Ed, f: Ed) -> bool {
    f.area == e.area && f.panel.panel_x == e.panel.panel_x && f.panel.panel_y == e.panel.panel_y
}

proof fn lemma_spun_in_place(e: Ed, target: SpinTarget, dir: int, stepped: Opacity)
    ensures
        same_place(e, panel::spun(e, target, dir, stepped)),
{
}

proof fn lemma_fields_in_place(e: Ed, x: i32, y: i32, s: Press)
    ensures
        same_place(e, fields_pressed(e, x, y, s)),
{
    reveal(fields_pressed);
    let xi = x as int;
    let yi = y as int;
    if let Some((idx, fk, up)) = panel::spin_hit(e, xi, yi) {
        lemma_spun_in_place(e, SpinTarget::RegionField(idx, fk), direction(up), s.opacity_up);
    } else if let Some((idx, p, up)) = panel::prop_spin_hit(e, xi, yi) {
        lemma_spun_in_place(e, SpinTarget::ElemProp(idx, p), direction(up), s.opacity_up);
        lemma_spun_in_place(e, SpinTarget::ElemProp(idx, p), direction(up), s.opacity_down);
    } else if let Some((idx, fk)) = panel::value_hit(e, xi, yi) {
        assert(same_place(e, panel::field_started(e, idx, fk)));
    } else if let Some((idx, p)) = panel::prop_hit(e, xi, yi) {
        assert(same_place(e, panel::prop_started(e, idx, p, s.opacity_text@)));
    } else if e.phase == EditorPhase::Arranging && panel::add_hit(e, xi, yi) is Some {
        assert(same_place(e, new_grabbed(e, panel::add_hit(e, xi, yi).unwrap(), x, y)));
    } else if on_lane(e, xi, yi) {
        assert(same_place(e, lane_pressed(e, y, s.scroll_to)));
    } else {
        assert(same_place(e, list_pressed(e, yi, s.ctrl)));
    }
}

proof fn lemma_values_in_place(e: Ed, x: i32, y: i32, s: Press)
    ensures
        same_place(e, values_pressed(e, x, y, s)),
{
    reveal(values_pressed);
    lemma_fields_in_place(e, x, y, s);
    match ui::box_spin_hit(e, x as int, y as int) {
        Some((k, up)) => {
            lemma_spun_in_place(e, value_target(k), direction(up), s.opacity_up);
        },
        None => {},
    }
}

proof fn lemma_controls_in_place(e: Ed, x: i32, y: i32, s: Press)
    ensures
        same_place(e, controls_pressed(e, x, y, s).ed),
{
    reveal(controls_pressed);
    lemma_values_in_place(e, x, y, s);
    match button_hit(e, x as int, y as int) {
        Some(a) => {
            assert(same_place(e, action_done(unfocused(e), a, s.file_exists).ed));
        },
        None => {},
    }
}

proof fn lemma_canvas_in_place(e: Ed, x: i32, y: i32, s: Press, font: u32)
    ensures
        same_place(e, canvas_pressed(e, x, y, s)),
        same_place(e, canvas_moved(e, x, y, font).0),
{
    reveal(canvas_pressed);
    reveal(canvas_moved);
}

/// Whatever the mouse does, the panel stays laid out on the screen, which stays
/// as it is.
pub proof fn law_mouse_keeps_the_panel_placed(
    e: Ed,
    x: i32,
    y: i32,
    s: Press,
    scroll_to: i32,
    font: u32,
)
    requires
        e.placed(),
        e.panel.drag_panel && !e.entry.confirm_overwrite ==> panel_fits(e),
    ensures
        pressed(e, x, y, s).ed.placed(),
        mouse_moved(e, x, y, scroll_to, font).0.placed(),
        released(e, x, y).placed(),
        right_clicked(e).placed(),
{
    let f = panel::typing_ended(e);
    assert(same_place(e, f));
    lemma_controls_in_place(f, x, y, s);
    lemma_canvas_in_place(unfocused(f), x, y, s, font);
    lemma_canvas_in_place(e, x, y, s, font);
    assert(same_place(e, released(e, x, y)));
    assert(same_place(e, right_clicked(e)));
    assert(same_place(e, confirm_clicked(e, x as int, y as int).ed));
}

/// Nothing that was under way in one phase goes on in the other.
pub proof fn law_switching_phases_lets_go(e: Ed, phase: EditorPhase)
    ensures
        ({
            let f = switched(e, phase);
            &&& !f.boxes.is_dragging && !f.boxes.box_selecting && !f.drag.multi_dragging
            &&& f.drag.drag_index is None && f.drag.resize_index is None
            &&& f.doc.pending is None && f.doc.selected.len() == 0
            &&& f.doc.elements == e.doc.elements && f.doc.undo == e.doc.undo
        }),
{
}

/// While the question about an existing file is open, the mouse changes nothing
/// but its answer.
pub proof fn law_question_blocks(e: Ed, x: i32, y: i32, s: Press, scroll_to: i32, font: u32)
    requires
        e.entry.confirm_overwrite,
    ensures
        mouse_moved(e, x, y, scroll_to, font) == (e, false),
        ({
            let r = pressed(e, x, y, s);
            &&& r.ed == (Ed {
                saved: r.ed.saved,
                entry: EntryView {
                    confirm_overwrite: r.ed.entry.confirm_overwrite,
                    ..e.entry
                },
                ..e
            })
            &&& r.close ==> r.ed.saved && !r.ed.entry.confirm_overwrite
            &&& !r.close ==> r.ed.saved == e.saved
        }),
{
}

// ===== What the mouse does =====

/// The buttons do what they say: undo, go on to arranging where there is
/// something to arrange, go back, delete, save, or close without saving. All of
/// them end typing.
pub proof fn law_buttons_do_what_they_say(e: Ed, exists: bool)
    ensures
        ({
            let f = panel::typing_ended(e);
            let undo = action_done(e, BtnAction::UndoLast, exists);
            let next = action_done(e, BtnAction::NextStep, exists);
            let back = action_done(e, BtnAction::BackToSelect, exists);
            let del = action_done(e, BtnAction::DeleteSelected, exists);
            let save = action_done(e, BtnAction::Save, exists);
            let cancel = action_done(e, BtnAction::Cancel, exists);
            let discard = action_done(e, BtnAction::Discard, exists);
            &&& !undo.close && undo.ed == state::undone(f)
            &&& !next.close && next.ed.doc.elements == e.doc.elements && (next.ed.phase
                == EditorPhase::Arranging) == (e.phase == EditorPhase::Arranging
                || e.doc.elements.len() > 0)
            &&& !back.close && back.ed.phase == EditorPhase::Selecting && back.ed.doc.elements
                == e.doc.elements
            &&& !del.close && del.ed == deletion_made(f)
            &&& save.close == !exists && save.ed.saved == (e.saved || !exists)
                && save.ed.entry.confirm_overwrite == (e.entry.confirm_overwrite || exists)
                && save.ed.doc == e.doc
            &&& cancel.close && !cancel.ed.saved && cancel.ed.doc == e.doc
            &&& discard == cancel
            &&& undo.ed.entry.target == EditingTarget::Nothing && next.ed.entry.target
                == EditingTarget::Nothing && back.ed.entry.target == EditingTarget::Nothing
                && save.ed.entry.target == EditingTarget::Nothing
        }),
{
}

/// The question has two buttons, 150 by 40, 60 and 250 pixels from its left edge:
/// the left one saves and closes, the right one goes back to the editor, and a
/// click elsewhere does nothing.
pub proof fn law_question_is_answered(e: Ed, x: int, y: int)
    ensures
        ({
            let b = ui::question_box(e.area.screen_w as int, e.area.screen_h as int);
            let r = confirm_clicked(e, x, y);
            let row = 100 <= y - b.1 <= 140;
            let yes = row && 60 <= x - b.0 <= 210;
            let no = row && 250 <= x - b.0 <= 400;
            &&& r.close == yes
            &&& yes ==> r.ed.saved && !r.ed.entry.confirm_overwrite
            &&& no ==> r.ed.saved == e.saved && !r.ed.entry.confirm_overwrite
            &&& !yes && !no ==> r.ed == e
            &&& r.ed.doc == e.doc && r.ed.panel == e.panel && r.ed.prefs == e.prefs
        }),
{
}

/// A click on a helper turns that helper around and no other; the ways of
/// snapping let go of what they hold. A click on a value starts typing it in, from
/// what it is.
pub proof fn law_toggles_turn_their_helper(e: Ed, k: ToggleKind)
    ensures
        ({
            let f = toggle_clicked(e, k);
            &&& (f.prefs.magnifier_on != e.prefs.magnifier_on) == (k == ToggleKind::Magnifier)
            &&& (f.prefs.grid_on != e.prefs.grid_on) == (k == ToggleKind::Grid)
            &&& (f.prefs.crosshair_on != e.prefs.crosshair_on) == (k == ToggleKind::Crosshair)
            &&& (f.prefs.xy_label_on != e.prefs.xy_label_on) == (k == ToggleKind::XyLabel)
            &&& f.prefs.snap_distance == e.prefs.snap_distance && f.prefs.snap_gap
                == e.prefs.snap_gap && f.prefs.nudge_step == e.prefs.nudge_step
            &&& k == ToggleKind::Snap ==> f.drag.snapped_x is None && f.drag.snapped_y is None
            &&& k == ToggleKind::TianSnap && f.prefs.snap_tian ==> f.drag.snapped_x is None
                && f.drag.snapped_y is None
            &&& k != ToggleKind::Snap && k != ToggleKind::TianSnap ==> f.drag == e.drag
            &&& k == ToggleKind::SnapDistance ==> f.entry.target == EditingTarget::SnapDistance
                && f.entry.text == decimal::dec_int(e.prefs.snap_distance as int)
            &&& k == ToggleKind::SnapGap ==> f.entry.target == EditingTarget::SnapGap
                && f.entry.text == decimal::dec_int(e.prefs.snap_gap as int)
            &&& k == ToggleKind::NudgeStep ==> f.entry.target == EditingTarget::NudgeStep
                && f.entry.text == decimal::dec_int(e.prefs.nudge_step as int)
            &&& k != ToggleKind::SnapDistance && k != ToggleKind::SnapGap && k
                != ToggleKind::NudgeStep ==> f.entry == e.entry
        }),
{
}

/// The panel follows the mouse: grabbed at one point and dragged to another it has
/// moved by as much, as far as four pixels of the screen stay free beside it and
/// 60 below its title.
pub proof fn law_panel_follows_the_mouse(e: Ed, x: i32, y: i32, x2: i32, y2: i32)
    requires
        e.placed(),
        panel_fits(e),
        -0x8000 <= x <= 0x7fff,
        -0x8000 <= y <= 0x7fff,
        -0x8000 <= x2 <= 0x7fff,
        -0x8000 <= y2 <= 0x7fff,
    ensures
        ({
            let g = panel_grabbed(e, x, y);
            let d = panel_dragged(g, x2 as int, y2 as int);
            let px = e.panel.panel_x + x2 - x;
            let py = e.panel.panel_y + y2 - y;
            let right = e.area.screen_w - 464;
            let low = e.area.screen_h - 102;
            &&& g.panel.drag_panel
            &&& 4 <= d.panel.panel_x <= right
            &&& 4 <= d.panel.panel_y <= low
            &&& 4 <= px <= right ==> d.panel.panel_x == px
            &&& px < 4 ==> d.panel.panel_x == 4
            &&& px > right ==> d.panel.panel_x == right
            &&& 4 <= py <= low ==> d.panel.panel_y == py
            &&& py < 4 ==> d.panel.panel_y == 4
            &&& py > low ==> d.panel.panel_y == low
            &&& d.doc == e.doc
        }),
{
}

/// A new element is dragged from where it was added: its center is at the mouse,
/// it alone is selected, and the elements from before wait to be a step.
pub proof fn law_new_element_is_at_the_mouse(e: Ed, k: AddKind, x: i32, y: i32)
    requires
        e.doc.elements.len() <= usize::MAX,
        0 <= x - e.area.overlay_x - 20 < 0x8000_0000,
        0 <= y - e.area.overlay_y - 10 < 0x8000_0000,
        0 <= x - e.area.overlay_x < 0x8000_0000,
        0 <= y - e.area.overlay_y < 0x8000_0000,
    ensures
        ({
            let g = new_grabbed(e, k, x, y);
            let n = e.doc.elements.len() as int;
            let d = g.doc.elements[n].display;
            &&& g.doc.elements.len() == n + 1
            &&& g.doc.elements.take(n) == e.doc.elements
            &&& g.doc.elements[n].extra.kind == panel::kind_added(k)
            &&& 2 * (e.area.overlay_x + d.x) + d.width == 2 * x
            &&& 2 * (e.area.overlay_y + d.y) + d.height == 2 * y
            &&& g.doc.selected == seq![n as usize]
            &&& g.drag.drag_index == Some(n as usize)
            &&& g.drag.drag_offset.0 == x - e.area.overlay_x - d.x
            &&& g.drag.drag_offset.1 == y - e.area.overlay_y - d.y
            &&& g.doc.pending == Some(e.doc.elements)
        }),
{
    let g = new_grabbed(e, k, x, y);
    assert(g.doc.elements.take(e.doc.elements.len() as int) =~= e.doc.elements);
}

/// A click in the list selects the item under it: the one whose row holds the
/// point. With the control key it is put into the selection or taken out.
pub proof fn law_list_selects_the_item(e: Ed, y: int, ctrl: bool, i: int)
    requires
        0 <= i < e.doc.elements.len(),
        e.doc.elements.len() <= usize::MAX,
        panel::scroll_of(e) <= i,
        panel::row_top(e, i) <= y < panel::row_top(e, i) + 42,
    ensures
        ({
            let l = list_pressed(e, y, ctrl);
            &&& item_at(e, y) == i
            &&& !ctrl ==> l.doc.selected == seq![i as usize]
            &&& ctrl ==> l.doc.selected == panel::toggled(e.doc.selected, i as usize)
            &&& l.doc.elements == e.doc.elements && l.doc.undo == e.doc.undo
            &&& !l.entry.filename_focused
        }),
{
    let s = panel::scroll_of(e);
    let d = y - panel::list_top(e);
    assert((i - s) * 42 <= d < (i - s) * 42 + 42);
    assert(d / 42 == i - s) by (nonlinear_arith)
        requires
            (i - s) * 42 <= d < (i - s) * 42 + 42,
    ;
    assert((i - s) * 42 >= 0) by (nonlinear_arith)
        requires
            i >= s,
    ;
}

/// The scroll bar is grabbed by its thumb; elsewhere in its lane the list scrolls
/// there, within its range.
pub proof fn law_lane_scrolls_or_grabs(e: Ed, y: i32, scroll_to: i32)
    requires
        panel::max_scroll(e) < 0x8000_0000,
    ensures
        ({
            let t = panel::thumb(e);
            let on = 0 <= y - panel::list_top(e) - t.0 <= t.1;
            let l = lane_pressed(e, y, scroll_to);
            let m = panel::max_scroll(e);
            &&& on ==> l.panel.scroll_drag == Some((y, t.0 as i32)) && l.panel.list_scroll
                == e.panel.list_scroll
            &&& !on ==> l.panel.scroll_drag == e.panel.scroll_drag && 0 <= l.panel.list_scroll <= m
            &&& !on && 0 <= scroll_to <= m ==> l.panel.list_scroll == scroll_to
            &&& l.doc == e.doc
        }),
        panel::max_scroll(e) > 0 ==> 0 <= thumb_dragged(e, scroll_to).panel.list_scroll
            <= panel::max_scroll(e),
        panel::max_scroll(e) > 0 && 0 <= scroll_to <= panel::max_scroll(e) ==> thumb_dragged(
            e,
            scroll_to,
        ).panel.list_scroll == scroll_to,
{
}

/// A press off the panel works on the canvas, one on the title grabs the panel,
/// and everything ends typing. The panel is 460 pixels wide and as high as it is
/// laid out; its title is 42 high.
pub proof fn law_presses_go_where_they_belong(e: Ed, x: i32, y: i32, s: Press)
    requires
        !e.entry.confirm_overwrite,
    ensures
        ({
            let f = panel::typing_ended(e);
            let r = pressed(e, x, y, s);
            let on = e.panel.panel_x <= x <= e.panel.panel_x + 460 && e.panel.panel_y <= y
                <= e.panel.panel_y + panel::panel_height(f);
            &&& !on ==> !r.close && r.ed == canvas_pressed(unfocused(f), x, y, s)
            &&& on && y <= e.panel.panel_y + 42 ==> !r.close && r.ed.panel.drag_panel && r.ed.doc
                == e.doc
            &&& on && y > e.panel.panel_y + 42 ==> r == controls_pressed(f, x, y, s)
            &&& f.entry.target == EditingTarget::Nothing
        }),
        unfocused(e) == (Ed {
            entry: EntryView { filename_focused: false, ..e.entry },
            ..e
        }),
{
}

/// On the panel below its title the buttons come first, then the arrows and boxes
/// of the values and the toggles, then the box of the file name, which is 10 from
/// the left edge and 64 below the top, 440 by 36; then the list.
pub proof fn law_controls_in_their_order(e: Ed, x: i32, y: i32, s: Press)
    ensures
        ({
            let xi = x as int;
            let yi = y as int;
            let r = controls_pressed(e, x, y, s);
            let name = 10 <= x - e.panel.panel_x <= 450 && 64 <= y - e.panel.panel_y <= 100;
            let mode = ui::mode_hit(e, xi, yi);
            let act = ui::action_hit(e, xi, yi);
            let spin = ui::box_spin_hit(e, xi, yi);
            let b = ui::box_hit(e, xi, yi);
            let tog = ui::toggle_hit(e, xi, yi);
            &&& mode is Some ==> r == action_done(unfocused(e), mode.unwrap(), s.file_exists)
            &&& mode is None && act is Some ==> r == action_done(
                unfocused(e),
                act.unwrap(),
                s.file_exists,
            )
            &&& mode is None && act is None ==> {
                &&& !r.close
                &&& spin is Some ==> r.ed == panel::spun(
                    e,
                    value_target(spin.unwrap().0),
                    if spin.unwrap().1 {
                        1
                    } else {
                        -1
                    },
                    s.opacity_up,
                )
                &&& spin is None && b is Some ==> r.ed == toggle_clicked(e, b.unwrap())
                &&& spin is None && b is None && tog is Some ==> r.ed == toggle_clicked(
                    e,
                    tog.unwrap(),
                )
                &&& spin is None && b is None && tog is None && name ==> r.ed.entry.filename_focused
                    && r.ed.doc == e.doc
                &&& spin is None && b is None && tog is None && !name ==> r.ed == fields_pressed(
                    e,
                    x,
                    y,
                    s,
                )
            }
        }),
        value_target(ToggleKind::SnapDistance) == SpinTarget::SnapDistance,
        value_target(ToggleKind::SnapGap) == SpinTarget::SnapGap,
        value_target(ToggleKind::NudgeStep) == SpinTarget::NudgeStep,
{
    reveal(controls_pressed);
    reveal(values_pressed);
    let xi = x as int;
    let yi = y as int;
    match ui::mode_hit(e, xi, yi) {
        Some(a) => {
            assert(button_hit(e, xi, yi) == Some(a));
            assert(controls_pressed(e, x, y, s) == action_done(unfocused(e), a, s.file_exists));
        },
        None => match ui::action_hit(e, xi, yi) {
            Some(a) => {
                assert(button_hit(e, xi, yi) == Some(a));
                assert(controls_pressed(e, x, y, s) == action_done(unfocused(e), a, s.file_exists));
            },
            None => {
                assert(controls_pressed(e, x, y, s) == goes_on(values_pressed(e, x, y, s)));
                match ui::box_spin_hit(e, xi, yi) {
                    Some(h) => {
                        assert(values_pressed(e, x, y, s) == panel::spun(
                            e,
                            value_target(h.0),
                            direction(h.1),
                            s.opacity_up,
                        ));
                    },
                    None => match ui::box_hit(e, xi, yi) {
                        Some(k) => {
                            assert(values_pressed(e, x, y, s) == toggle_clicked(e, k));
                        },
                        None => match ui::toggle_hit(e, xi, yi) {
                            Some(k) => {
                                assert(values_pressed(e, x, y, s) == toggle_clicked(e, k));
                            },
                            None => {},
                        },
                    },
                }
            },
        },
    }
}

/// In the list and the properties arrows step, values start typing, the buttons
/// below add an element while arranging, and the rest scrolls or selects.
pub proof fn law_fields_in_their_order(e: Ed, x: i32, y: i32, s: Press)
    ensures
        ({
            let xi = x as int;
            let yi = y as int;
            let r = fields_pressed(e, x, y, s);
            let spin = panel::spin_hit(e, xi, yi);
            let prop_spin = panel::prop_spin_hit(e, xi, yi);
            let value = panel::value_hit(e, xi, yi);
            let prop = panel::prop_hit(e, xi, yi);
            &&& spin is Some ==> r == panel::spun(
                e,
                SpinTarget::RegionField(spin.unwrap().0, spin.unwrap().1),
                if spin.unwrap().2 {
                    1
                } else {
                    -1
                },
                s.opacity_up,
            )
            &&& spin is None && prop_spin is Some && prop_spin.unwrap().2 ==> r == panel::spun(
                e,
                SpinTarget::ElemProp(prop_spin.unwrap().0, prop_spin.unwrap().1),
                1,
                s.opacity_up,
            )
            &&& spin is None && prop_spin is Some && !prop_spin.unwrap().2 ==> r == panel::spun(
                e,
                SpinTarget::ElemProp(prop_spin.unwrap().0, prop_spin.unwrap().1),
                -1,
                s.opacity_down,
            )
            &&& spin is None && prop_spin is None && value is Some ==> r.entry.target
                == EditingTarget::RegionField(value.unwrap().0, value.unwrap().1)
            &&& spin is None && prop_spin is None && value is None && prop is Some
                ==> r.entry.target == EditingTarget::ElemField(prop.unwrap().0, prop.unwrap().1)
            &&& spin is None && prop_spin is None && value is None && prop is None ==> {
                let add = e.phase == EditorPhase::Arranging && panel::add_hit(e, xi, yi) is Some;
                let lane = 446 <= x - e.panel.panel_x <= 458 && panel::list_top(e) <= y
                    <= panel::list_bottom(e) && panel::max_scroll(e) > 0;
                &&& add ==> r == new_grabbed(e, panel::add_hit(e, xi, yi).unwrap(), x, y)
                &&& !add && lane ==> r == lane_pressed(e, y, s.scroll_to)
                &&& !add && !lane ==> r == list_pressed(e, yi, s.ctrl)
            }
        }),
{
    reveal(fields_pressed);
    let xi = x as int;
    let yi = y as int;
    let r = fields_pressed(e, x, y, s);
    match panel::spin_hit(e, xi, yi) {
        Some(h) => {
            assert(r == panel::spun(
                e,
                SpinTarget::RegionField(h.0, h.1),
                direction(h.2),
                s.opacity_up,
            ));
        },
        None => match panel::prop_spin_hit(e, xi, yi) {
            Some(h) => {
                assert(r == panel::spun(
                    e,
                    SpinTarget::ElemProp(h.0, h.1),
                    direction(h.2),
                    if h.2 {
                        s.opacity_up
                    } else {
                        s.opacity_down
                    },
                ));
            },
            None => match panel::value_hit(e, xi, yi) {
                Some(h) => {
                    assert(r == panel::field_started(e, h.0, h.1));
                },
                None => match panel::prop_hit(e, xi, yi) {
                    Some(h) => {
                        assert(r == panel::prop_started(e, h.0, h.1, s.opacity_text@));
                    },
                    None => {},
                },
            },
        },
    }
}

/// An element follows the mouse: grabbed alone at one point and dragged to another
/// without snapping, it has moved by as much, but not beyond zero.
pub proof fn law_element_follows_the_mouse(e: Ed, idx: usize, x: i32, y: i32, x2: i32, y2: i32)
    requires
        idx < e.doc.elements.len(),
        e.doc.selected.len() == 0,
        !e.prefs.snap_on,
        !e.prefs.snap_tian,
        -0x1000_0000 <= x <= 0x1000_0000,
        -0x1000_0000 <= y <= 0x1000_0000,
        -0x1000_0000 <= x2 <= 0x1000_0000,
        -0x1000_0000 <= y2 <= 0x1000_0000,
        -0x1000_0000 <= e.doc.elements[idx as int].display.x <= 0x1000_0000,
        -0x1000_0000 <= e.doc.elements[idx as int].display.y <= 0x1000_0000,
        -0x1000_0000 <= e.area.overlay_x <= 0x1000_0000,
        -0x1000_0000 <= e.area.overlay_y <= 0x1000_0000,
    ensures
        ({
            let g = element_grabbed(e, idx, x, y, false);
            let d = element_dragged(g, idx, x2 as int, y2 as int);
            let was = e.doc.elements[idx as int].display;
            let now = d.doc.elements[idx as int];
            let nx = was.x + x2 - x;
            let ny = was.y + y2 - y;
            &&& g.doc.selected == seq![idx]
            &&& g.drag.drag_index == Some(idx)
            &&& g.doc.pending == Some(e.doc.elements)
            &&& now.display.x == (if nx >= 0 { nx } else { 0 })
            &&& now.display.y == (if ny >= 0 { ny } else { 0 })
            &&& now == (El {
                display: DisplayRect { x: now.display.x, y: now.display.y, ..was },
                ..e.doc.elements[idx as int]
            })
            &&& forall|i: int|
                0 <= i < e.doc.elements.len() && i != idx ==> #[trigger] d.doc.elements[i]
                    == e.doc.elements[i]
        }),
{
    assert(!e.doc.selected.contains(idx));
}

/// What is selected together moves together: every selected element by as much as
/// the mouse since it was looked at last, but not beyond zero, and no other.
pub proof fn law_selection_follows_the_mouse(e: Ed, x: i32, y: i32, i: int)
    requires
        0 <= i < e.doc.elements.len(),
        0 <= e.doc.elements[i].display.x + x - e.drag.multi_drag_last.0 < 0x8000_0000,
        0 <= e.doc.elements[i].display.y + y - e.drag.multi_drag_last.1 < 0x8000_0000,
    ensures
        ({
            let d = selection_dragged(e, x, y);
            let was = e.doc.elements[i];
            let now = d.doc.elements[i];
            &&& d.doc.elements.len() == e.doc.elements.len()
            &&& d.drag.multi_drag_last == (x, y)
            &&& !e.doc.selected.contains(i as usize) ==> now == was
            &&& e.doc.selected.contains(i as usize) ==> {
                &&& now.display.x - was.display.x == x - e.drag.multi_drag_last.0
                &&& now.display.y - was.display.y == y - e.drag.multi_drag_last.1
                &&& now == (El {
                    display: DisplayRect { x: now.display.x, y: now.display.y, ..was.display },
                    ..was
                })
            }
        }),
{
}

/// Moving what an element captures, or where it is shown, moves that alone and
/// stops at zero.
pub proof fn law_moving_stops_at_zero(el: El, dx: int, dy: int)
    requires
        -0x1000_0000 <= dx <= 0x1000_0000,
        -0x1000_0000 <= dy <= 0x1000_0000,
        -0x1000_0000 <= el.display.x <= 0x1000_0000,
        -0x1000_0000 <= el.display.y <= 0x1000_0000,
        match el.source {
            Some(s) => s.x <= 0x1000_0000 && s.y <= 0x1000_0000,
            None => true,
        },
    ensures
        ({
            let m = el_moved(el, false, dx, dy);
            let x = el.display.x + dx;
            let y = el.display.y + dy;
            &&& m.source == el.source && m.extra == el.extra
            &&& m.display.x == (if x >= 0 { x } else { 0 })
            &&& m.display.y == (if y >= 0 { y } else { 0 })
            &&& m.display.width == el.display.width && m.display.height == el.display.height
        }),
        match el.source {
            Some(s) => {
                let m = el_moved(el, true, dx, dy);
                let x = s.x + dx;
                let y = s.y + dy;
                &&& m.display == el.display && m.extra == el.extra
                &&& m.source is Some
                &&& m.source.unwrap().x == (if x >= 0 { x } else { 0 })
                &&& m.source.unwrap().y == (if y >= 0 { y } else { 0 })
                &&& m.source.unwrap().width == s.width && m.source.unwrap().height == s.height
            },
            None => el_moved(el, true, dx, dy) == el,
        },
{
    match el.source {
        Some(s) => {
            let a = s.x;
            let b = s.y;
            assert(a <= 0x1000_0000 ==> a as i32 == a) by (bit_vector);
            assert(b <= 0x1000_0000 ==> b as i32 == b) by (bit_vector);
        },
        None => {},
    }
}

/// The corner of a resized element follows the mouse, where it does not snap, and
/// never comes nearer than 20 pixels. A text keeps its size fields and takes on
/// the scaled font, from 6 to 300.
pub proof fn law_resizing_follows_the_mouse(e: Ed, idx: usize, x: int, y: int, font: u32)
    requires
        idx < e.doc.elements.len(),
        !e.prefs.snap_on,
        -0x1000_0000 <= x <= 0x1000_0000,
        -0x1000_0000 <= y <= 0x1000_0000,
        -0x1000_0000 <= e.doc.elements[idx as int].display.x <= 0x1000_0000,
        -0x1000_0000 <= e.doc.elements[idx as int].display.y <= 0x1000_0000,
        -0x1000_0000 <= e.area.overlay_x <= 0x1000_0000,
        -0x1000_0000 <= e.area.overlay_y <= 0x1000_0000,
    ensures
        ({
            let r = element_resized(e, idx, x, y, font);
            let was = e.doc.elements[idx as int];
            let now = r.doc.elements[idx as int];
            let w = x - e.area.overlay_x - was.display.x;
            let h = y - e.area.overlay_y - was.display.y;
            &&& was.extra.kind != ElemKind::Text ==> {
                &&& now.display.width == (if w >= 20 { w } else { 20 })
                &&& now.display.height == (if h >= 20 { h } else { 20 })
                &&& now == (El {
                    display: DisplayRect {
                        width: now.display.width,
                        height: now.display.height,
                        ..was.display
                    },
                    ..was
                })
            }
            &&& was.extra.kind == ElemKind::Text && e.drag.resize_start is Some ==> {
                &&& now.display == was.display
                &&& 6 <= font <= 300 ==> now.extra.font_size == font
                &&& font < 6 ==> now.extra.font_size == 6
                &&& font > 300 ==> now.extra.font_size == 300
            }
            &&& was.extra.kind == ElemKind::Text && e.drag.resize_start is None ==> r == e
        }),
{
}

/// A handle is grabbed with its element: the step is prepared, and a text
/// remembers where the scaling began and its font. With the control key the
/// selection stays.
pub proof fn law_handle_is_grabbed(e: Ed, idx: usize, x: i32, y: i32, ctrl: bool)
    ensures
        ({
            let g = handle_grabbed(e, idx, x, y, ctrl);
            let el = e.doc.elements[idx as int];
            &&& g.drag.resize_index == Some(idx)
            &&& g.drag.resize_start_font == el.extra.font_size
            &&& el.extra.kind == ElemKind::Text ==> g.drag.resize_start == Some((x, y))
            &&& el.extra.kind != ElemKind::Text ==> g.drag.resize_start is None
            &&& ctrl ==> g.doc.selected == e.doc.selected
            &&& !ctrl ==> g.doc.selected == seq![idx]
            &&& g.doc.pending == Some(e.doc.elements) && g.doc.elements == e.doc.elements
        }),
{
}

/// Grabbing an element of a selection keeps the selection, so that all of it is
/// dragged; grabbing another selects that one alone; with the control key it is
/// put in or taken out.
pub proof fn law_grabbing_selects(e: Ed, idx: usize, x: i32, y: i32, ctrl: bool)
    ensures
        ({
            let g = element_grabbed(e, idx, x, y, ctrl);
            let s = g.doc.selected;
            &&& ctrl ==> s == panel::toggled(e.doc.selected, idx)
            &&& !ctrl && e.doc.selected.contains(idx) ==> s == e.doc.selected
            &&& !ctrl && !e.doc.selected.contains(idx) ==> s == seq![idx]
            &&& s.len() > 1 && s.contains(idx) ==> g.drag.multi_dragging && g.drag.multi_drag_last
                == (x, y)
            &&& !(s.len() > 1 && s.contains(idx)) ==> g.drag.drag_index == Some(idx)
            &&& g.doc.elements == e.doc.elements && g.doc.undo == e.doc.undo
        }),
{
}

/// On the canvas a press begins a region while selecting; while arranging it grabs
/// the handle or the element that it hits, and else begins a box, which forgets the
/// selection unless the control key is down.
pub proof fn law_canvas_presses(e: Ed, x: i32, y: i32, s: Press)
    ensures
        ({
            let r = canvas_pressed(e, x, y, s);
            let hit = arranging::canvas_hit(e, s.sizes@, x as int, y as int);
            &&& e.phase == EditorPhase::Selecting ==> r.boxes.is_dragging && r.doc == e.doc
            &&& e.phase == EditorPhase::Selecting && !e.prefs.snap_on ==> r.boxes.drag_start
                == Some((x, y)) && r.boxes.drag_current == Some((x, y)) && r.drag.snapped_x is None
                && r.drag.snapped_y is None
            &&& e.phase == EditorPhase::Selecting ==> r.boxes.drag_start == r.boxes.drag_current
            &&& e.phase == EditorPhase::Arranging && hit is Some && hit.unwrap().1
                ==> r.drag.resize_index == Some(hit.unwrap().0)
            &&& e.phase == EditorPhase::Arranging && hit is Some && !hit.unwrap().1
                ==> r.drag.drag_index == Some(hit.unwrap().0) || r.drag.multi_dragging
            &&& e.phase == EditorPhase::Arranging && hit is None ==> {
                &&& r.boxes.box_selecting
                &&& r.boxes.box_select_start == Some((x, y)) && r.boxes.box_select_current
                    == Some((x, y))
                &&& r.doc.selected == (if s.ctrl { e.doc.selected } else { Seq::<usize>::empty() })
            }
        }),
{
    reveal(canvas_pressed);
    match arranging::canvas_hit(e, s.sizes@, x as int, y as int) {
        Some(h) => {
            if e.phase == EditorPhase::Arranging && h.1 {
                assert(canvas_pressed(e, x, y, s) == handle_grabbed(e, h.0, x, y, s.ctrl));
            } else if e.phase == EditorPhase::Arranging {
                assert(canvas_pressed(e, x, y, s) == element_grabbed(e, h.0, x, y, s.ctrl));
            }
        },
        None => {},
    }
    if e.phase == EditorPhase::Selecting {
        assert(canvas_pressed(e, x, y, s) == region_begun(e, x, y));
    }
}

/// A new region captures the box between the two corners, whichever was first, and
/// is shown where it captures. Only a box more than ten pixels wide and high makes
/// one.
pub proof fn law_new_region_is_the_box(e: Ed, s: (i32, i32), c: (i32, i32), x: i32, y: i32)
    requires
        e.boxes.drag_start == Some(s),
        e.boxes.drag_current == Some(c),
        0 <= s.0 < 0x1000_0000,
        0 <= s.1 < 0x1000_0000,
        0 <= c.0 < 0x1000_0000,
        0 <= c.1 < 0x1000_0000,
        -0x1000_0000 <= e.area.overlay_x <= 0x1000_0000,
        -0x1000_0000 <= e.area.overlay_y <= 0x1000_0000,
    ensures
        ({
            let r = region_ended(e, x, y);
            let n = e.doc.elements.len() as int;
            let left = if s.0 <= c.0 { s.0 } else { c.0 };
            let top = if s.1 <= c.1 { s.1 } else { c.1 };
            let right = if s.0 <= c.0 { c.0 } else { s.0 };
            let low = if s.1 <= c.1 { c.1 } else { s.1 };
            &&& !r.boxes.is_dragging && r.boxes.drag_start is None && r.boxes.drag_current is None
            &&& right - left <= 10 || low - top <= 10 ==> r.doc == e.doc
            &&& right - left > 10 && low - top > 10 ==> {
                let el = r.doc.elements[n];
                &&& r.doc.elements.len() == n + 1
                &&& r.doc.elements.take(n) == e.doc.elements
                &&& el.extra.kind == ElemKind::Capture && el.source is Some
                &&& el.source.unwrap().x == left && el.source.unwrap().y == top
                &&& el.source.unwrap().width == right - left && el.source.unwrap().height == low
                    - top
                &&& el.display.x + e.area.overlay_x == left
                &&& el.display.y + e.area.overlay_y == top
                &&& el.display.width == right - left && el.display.height == low - top
                &&& el.display.opacity is None && el.extra.opacity == e.area.global_opacity
                    && !el.extra.opacity_explicit
                &&& el.display.rotate == 0 && el.extra.z_order == 0
                &&& r.doc.undo == state::undo_pushed(e.doc).undo
            }
        }),
{
    let r = region_ended(e, x, y);
    let n = e.doc.elements.len() as int;
    let b = between(s, c);
    if b.2 > 10 && b.3 > 10 {
        assert(r.doc.elements.take(n) =~= e.doc.elements);
    }
}

proof fn lemma_boxed(e: Ed, b: (int, int, int, int), n: int, i: int)
    requires
        0 <= n <= e.doc.elements.len() <= usize::MAX,
        0 <= i < e.doc.elements.len(),
    ensures
        boxed(e, b, n).contains(i as usize) == (i < n && in_selection_box(e, i, b)),
    decreases n,
{
    if n > 0 {
        lemma_boxed(e, b, n - 1, i);
        let p = boxed(e, b, n - 1);
        let q = p.push((n - 1) as usize);
        if in_selection_box(e, n - 1, b) {
            assert(q[p.len() as int] == (n - 1) as usize);
            if p.contains(i as usize) {
                let k = choose|k: int| 0 <= k < p.len() && p[k] == i as usize;
                assert(q[k] == i as usize);
            }
            if q.contains(i as usize) && i != n - 1 {
                let k = choose|k: int| 0 <= k < q.len() && q[k] == i as usize;
                assert(k < p.len());
                assert(p[k] == i as usize);
            }
        }
    }
}

/// A box selects exactly the elements that reach into it, whichever corner was
/// first; a box that is not more than five pixels wide and high leaves the
/// selection.
pub proof fn law_box_selects_what_it_touches(e: Ed, s: (i32, i32), c: (i32, i32), i: int)
    requires
        e.boxes.box_selecting,
        e.boxes.box_select_start == Some(s),
        e.boxes.box_select_current == Some(c),
        e.doc.elements.len() <= usize::MAX,
        0 <= i < e.doc.elements.len(),
    ensures
        ({
            let r = arranging_ended(e);
            let left = if s.0 <= c.0 { s.0 } else { c.0 };
            let top = if s.1 <= c.1 { s.1 } else { c.1 };
            let right = if s.0 <= c.0 { c.0 } else { s.0 };
            let low = if s.1 <= c.1 { c.1 } else { s.1 };
            let d = e.doc.elements[i].display;
            let x = e.area.overlay_x + d.x;
            let y = e.area.overlay_y + d.y;
            &&& right - left > 5 && low - top > 5 ==> r.doc.selected.contains(i as usize) == (x
                < right && x + d.width > left && y < low && y + d.height > top)
            &&& right - left <= 5 || low - top <= 5 ==> r.doc.selected == e.doc.selected
            &&& !r.boxes.box_selecting && r.boxes.box_select_start is None
                && r.boxes.box_select_current is None
            &&& r.drag.drag_index is None && r.drag.resize_index is None && !r.drag.multi_dragging
            &&& r.doc.elements == e.doc.elements
        }),
{
    lemma_boxed(e, span_of(s, c), e.doc.elements.len() as int, i);
}

/// The right button takes back the last element while selecting, and undoes the
/// last step while arranging.
pub proof fn law_right_button_takes_back(e: Ed)
    ensures
        ({
            let r = right_clicked(e);
            let n = e.doc.elements.len() as int;
            &&& e.phase == EditorPhase::Selecting && n > 0 ==> r.doc.elements
                == e.doc.elements.take(n - 1) && r.doc.selected.len() == 0 && r.doc.undo
                == state::undo_pushed(e.doc).undo
            &&& e.phase == EditorPhase::Selecting && n == 0 ==> r.doc == e.doc
            &&& e.phase == EditorPhase::Arranging ==> r.doc == state::doc_undone(e.doc)
            &&& r.entry.target == EditingTarget::Nothing
        }),
{
    if e.doc.elements.len() > 0 {
        assert(e.doc.elements.drop_last() =~= e.doc.elements.take(e.doc.elements.len() - 1));
    }
}

/// The mouse moves what it has grabbed: first the panel, then the scroll bar, then
/// what is under way on the canvas; with nothing grabbed nothing changes.
pub proof fn law_moves_go_to_what_is_grabbed(e: Ed, x: i32, y: i32, scroll_to: i32, font: u32)
    requires
        !e.entry.confirm_overwrite,
    ensures
        ({
            let (m, drawn) = mouse_moved(e, x, y, scroll_to, font);
            let free = !e.panel.drag_panel && e.panel.scroll_drag is None;
            let box_first = !e.drag.multi_dragging && e.boxes.box_selecting;
            &&& e.panel.drag_panel ==> drawn && m == panel_dragged(e, x as int, y as int)
            &&& !e.panel.drag_panel && e.panel.scroll_drag is Some ==> drawn && m == thumb_dragged(
                e,
                scroll_to,
            )
            &&& free && e.phase == EditorPhase::Selecting ==> drawn == e.boxes.is_dragging && (
            !drawn ==> m == e)
            &&& free && e.phase == EditorPhase::Selecting && drawn && !e.prefs.snap_on
                ==> m.boxes.drag_current == Some((x, y)) && m.boxes.drag_start
                == e.boxes.drag_start
            &&& free && e.phase == EditorPhase::Arranging && e.drag.multi_dragging ==> m
                == selection_dragged(e, x, y)
            &&& free && e.phase == EditorPhase::Arranging && box_first
                ==> m.boxes.box_select_current == Some((x, y)) && m.doc == e.doc
            &&& free && e.phase == EditorPhase::Arranging && !e.drag.multi_dragging
                && !e.boxes.box_selecting && e.drag.drag_index is Some ==> m == element_dragged(
                e,
                e.drag.drag_index.unwrap(),
                x as int,
                y as int,
            )
            &&& free && e.phase == EditorPhase::Arranging && !e.drag.multi_dragging
                && !e.boxes.box_selecting && e.drag.drag_index is None && e.drag.resize_index
                is Some ==> m == element_resized(
                e,
                e.drag.resize_index.unwrap(),
                x as int,
                y as int,
                font,
            )
        }),
{
    reveal(canvas_moved);
    let free = !e.panel.drag_panel && e.panel.scroll_drag is None;
    if free {
        assert(mouse_moved(e, x, y, scroll_to, font) == canvas_moved(e, x, y, font));
        if e.phase == EditorPhase::Selecting && e.boxes.is_dragging {
            assert(canvas_moved(e, x, y, font) == (region_drawn(e, x, y), true));
        } else if e.phase == EditorPhase::Arranging && !e.drag.multi_dragging
            && !e.boxes.box_selecting {
            match e.drag.drag_index {
                Some(i) => {
                    assert(canvas_moved(e, x, y, font).0 == element_dragged(
                        e,
                        i,
                        x as int,
                        y as int,
                    ));
                },
                None => match e.drag.resize_index {
                    Some(i) => {
                        assert(canvas_moved(e, x, y, font).0 == element_resized(
                            e,
                            i,
                            x as int,
                            y as int,
                            font,
                        ));
                    },
                    None => {},
                },
            }
        }
    }
}

/// Letting go of the button drops the panel and the scroll bar, lets go of what
/// snapping holds, and ends the step that was under way.
pub proof fn law_releasing_lets_go(e: Ed, x: i32, y: i32)
    ensures
        ({
            let r = released(e, x, y);
            &&& !r.panel.drag_panel && r.panel.scroll_drag is None
            &&& r.drag.snapped_x is None && r.drag.snapped_y is None
            &&& r.doc.pending is None
            &&& e.phase == EditorPhase::Arranging ==> r.drag.drag_index is None
                && r.drag.resize_index is None && !r.drag.multi_dragging && !r.boxes.box_selecting
            &&& e.phase == EditorPhase::Selecting ==> !r.boxes.is_dragging
        }),
{
}

/// Deleting needs a selection and the arranging phase; it takes out what is
/// selected and nothing else, and forgets the selection.
pub proof fn law_deleting(e: Ed)
    ensures
        e.phase == EditorPhase::Selecting || e.doc.selected.len() == 0 ==> deletion_made(e) == e,
        e.phase == EditorPhase::Arranging && e.doc.selected.len() > 0 ==> ({
            let d = deletion_made(e);
            &&& d.doc.selected.len() == 0
            &&& d.doc.undo == state::undo_pushed(e.doc).undo
            &&& d.doc.elements == deleted(e).doc.elements
            &&& d.panel == e.panel && d.prefs == e.prefs && d.phase == e.phase
        }),
{
}

} // verus!
