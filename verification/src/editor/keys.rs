//! What the keyboard and the mouse wheel do to the state of the editor.

use vstd::prelude::*;

use crate::editor::common;
use crate::editor::common::{
    EditingTarget, EditorPhase, SpinTarget, ToggleKind, PANEL_W,
};
use crate::editor::events;
use crate::editor::events::{
    make_deletion, move_elements, request_save_inner, switch_phase, Outcome,
};
use crate::editor::panel;
use crate::editor::panel::{
    apply_spin, commit_editing, end_typing, list_area_rect, list_max_scroll, spin_target_at,
    sync_live_edit,
};
use crate::editor::state;
use crate::editor::state::{do_undo, DocView, Ed, EditorState, EntryView, Panel};
use crate::editor::ui;
use crate::editor::ui::panel_toggle_wheel_hit;
use crate::num;
use crate::num::{abs_i64, clamp_i64, divide, max_i32};
use crate::opacity::Opacity;
use crate::text;
use crate::text::cut_last;

verus! {

// Key codes

pub const VK_BACK: u32 = 0x08;
pub const VK_RETURN: u32 = 0x0d;
pub const VK_ESCAPE: u32 = 0x1b;
pub const VK_LEFT: u32 = 0x25;
pub const VK_UP: u32 = 0x26;
pub const VK_RIGHT: u32 = 0x27;
pub const VK_DOWN: u32 = 0x28;
pub const VK_DELETE: u32 = 0x2e;
pub const VK_Z: u32 = 0x5a;

// ===== Keys =====

/// A key while the question about an existing file is open.
pub open spec fn question_keyed(e: Ed, vk: u32) -> Outcome {
    if vk == VK_ESCAPE {
        events::answered(e, false)
    } else if vk == VK_RETURN {
        events::answered(e, true)
    } else {
        events::goes_on(e)
    }
}

/// A key while a field is typed in: the last character is taken back, or typing
/// ends with or without using what was typed.
pub open spec fn field_keyed(e: Ed, vk: u32, parsed: Option<Opacity>) -> Ed {
    if vk == VK_BACK {
        panel::live_synced(
            Ed { entry: EntryView { text: text::cut(e.entry.text), ..e.entry }, ..e },
            parsed,
        )
    } else if vk == VK_ESCAPE {
        panel::typing_ended(e)
    } else if vk == VK_RETURN {
        panel::committed(e, parsed)
    } else {
        e
    }
}

/// A key while the file name is typed in.
pub open spec fn name_keyed(e: Ed, vk: u32) -> Ed {
    if vk == VK_BACK {
        Ed {
            entry: EntryView { save_filename: text::cut(e.entry.save_filename), ..e.entry },
            ..e
        }
    } else if vk == VK_ESCAPE || vk == VK_RETURN {
        events::unfocused(e)
    } else {
        e
    }
}

pub open spec fn is_arrow(vk: u32) -> bool {
    vk == VK_LEFT || vk == VK_RIGHT || vk == VK_UP || vk == VK_DOWN
}

/// How far an arrow key moves what is selected: by the nudge step, and by at
/// least one pixel.
pub open spec fn nudge_of(vk: u32, nudge_step: int) -> (int, int) {
    let step = num::int_max(nudge_step, 1);
    if vk == VK_LEFT {
        (-step, 0)
    } else if vk == VK_RIGHT {
        (step, 0)
    } else if vk == VK_UP {
        (0, -step)
    } else {
        (0, step)
    }
}

/// Whether something that is selected can be moved: while selecting, an element
/// that captures.
pub open spec fn can_nudge(e: Ed) -> bool {
    exists|k: int|
        0 <= k < e.doc.selected.len() && (e.phase == EditorPhase::Arranging
            || e.doc.elements[#[trigger] e.doc.selected[k] as int].source is Some)
}

/// The state after an arrow key: what is selected is moved, what it captures
/// while selecting, where it is shown while arranging. That is a step that can
/// be undone. Where nothing can be moved nothing happens.
pub open spec fn nudged(e: Ed, vk: u32) -> Ed {
    let (dx, dy) = nudge_of(vk, e.prefs.nudge_step as int);
    if can_nudge(e) {
        let d = state::undo_pushed(e.doc);
        Ed {
            doc: DocView {
                elements: events::els_moved(
                    d.elements,
                    d.selected,
                    e.phase == EditorPhase::Selecting,
                    dx,
                    dy,
                ),
                ..d
            },
            ..e
        }
    } else {
        e
    }
}

/// The return key: on to arranging, or to saving; without any element the editor
/// closes and nothing is saved.
pub open spec fn return_keyed(e: Ed, exists: bool) -> Outcome {
    match e.phase {
        EditorPhase::Selecting => if e.doc.elements.len() == 0 {
            Outcome { ed: Ed { saved: false, ..e }, close: true }
        } else {
            events::goes_on(events::switched(e, EditorPhase::Arranging))
        },
        EditorPhase::Arranging => events::save_asked(e, exists),
    }
}

/// A key while nothing is typed in.
#[verifier::opaque]
pub open spec fn canvas_keyed(e: Ed, vk: u32, ctrl: bool, exists: bool) -> Outcome {
    if ctrl && vk == VK_Z {
        events::goes_on(state::undone(e))
    } else if is_arrow(vk) {
        events::goes_on(nudged(e, vk))
    } else if vk == VK_ESCAPE {
        Outcome { ed: Ed { saved: false, ..e }, close: true }
    } else if vk == VK_RETURN {
        return_keyed(e, exists)
    } else if vk == VK_DELETE {
        events::goes_on(events::deletion_made(e))
    } else {
        events::goes_on(e)
    }
}

/// What a key does when it goes down.
pub open spec fn keyed(
    e: Ed,
    vk: u32,
    ctrl: bool,
    parsed: Option<Opacity>,
    exists: bool,
) -> Outcome {
    if e.entry.confirm_overwrite {
        question_keyed(e, vk)
    } else if e.entry.target != EditingTarget::Nothing {
        events::goes_on(field_keyed(e, vk, parsed))
    } else if e.entry.filename_focused {
        events::goes_on(name_keyed(e, vk))
    } else {
        canvas_keyed(e, vk, ctrl, exists)
    }
}

proof fn lemma_live_wf(e: Ed, parsed: Option<Opacity>)
    requires
        e.wf(),
    ensures
        panel::live_synced(e, parsed).wf(),
{
    events::lemma_kept_shape(e, panel::live_synced(e, parsed));
}

proof fn lemma_committed_wf(e: Ed, parsed: Option<Opacity>)
    requires
        e.wf(),
    ensures
        panel::committed(e, parsed).wf(),
{
    state::law_stack_is_bounded(e.doc, e.doc.elements);
    events::lemma_kept_shape(e, panel::committed(e, parsed));
}

fn key_in_field(st: &mut EditorState, vk: u32, parsed: Option<Opacity>)
    requires
        old(st)@.wf(),
    ensures
        final(st)@ == field_keyed(old(st)@, vk, parsed),
        final(st)@.wf(),
{
    let ghost e = st@;
    if vk == VK_BACK {
        st.entry.editing_text = cut_last(st.entry.editing_text.as_str());
        proof {
            lemma_live_wf(st@, parsed);
        }
        sync_live_edit(st, parsed);
    } else if vk == VK_ESCAPE {
        end_typing(st);
    } else if vk == VK_RETURN {
        proof {
            lemma_committed_wf(e, parsed);
        }
        commit_editing(st, parsed);
    }
}

fn movable(st: &EditorState) -> (r: bool)
    requires
        st@.wf(),
    ensures
        r == can_nudge(st@),
{
    for k in 0..st.doc.selected_indices.len()
        invariant
            st@.wf(),
            forall|j: int|
                0 <= j < k ==> !(st@.phase == EditorPhase::Arranging
                    || st@.doc.elements[#[trigger] st@.doc.selected[j] as int].source is Some),
    {
        let idx: usize = st.doc.selected_indices[k];
        assert(st@.doc.selected[k as int] < st@.doc.elements.len());
        assert(st@.doc.elements[idx as int] == st.doc.elements@[idx as int]@);
        if st.phase == EditorPhase::Arranging || st.doc.elements[idx].source.is_some() {
            assert(st@.doc.selected[k as int] == idx);
            return true;
        }
    }
    false
}

fn nudge(st: &mut EditorState, vk: u32)
    requires
        old(st)@.wf(),
    ensures
        final(st)@ == nudged(old(st)@, vk),
        final(st)@.wf(),
{
    if !movable(st) {
        return;
    }
    let step: i64 = max_i32(st.prefs.nudge_step, 1) as i64;
    let (dx, dy): (i64, i64) = if vk == VK_LEFT {
        (-step, 0)
    } else if vk == VK_RIGHT {
        (step, 0)
    } else if vk == VK_UP {
        (0, -step)
    } else {
        (0, step)
    };
    let sources: bool = st.phase == EditorPhase::Selecting;
    st.doc.push_undo();
    move_elements(&mut st.doc.elements, &st.doc.selected_indices, sources, dx, dy);
}

fn key_on_canvas(st: &mut EditorState, vk: u32, ctrl: bool, exists: bool) -> (r: bool)
    requires
        old(st)@.wf(),
    ensures
        final(st)@ == canvas_keyed(old(st)@, vk, ctrl, exists).ed,
        r == canvas_keyed(old(st)@, vk, ctrl, exists).close,
        final(st)@.wf(),
{
    proof {
        reveal(canvas_keyed);
    }
    if ctrl && vk == VK_Z {
        do_undo(st);
        return false;
    }
    if vk == VK_LEFT || vk == VK_RIGHT || vk == VK_UP || vk == VK_DOWN {
        nudge(st, vk);
        return false;
    }
    if vk == VK_ESCAPE {
        st.saved = false;
        return true;
    }
    if vk == VK_RETURN {
        return match st.phase {
            EditorPhase::Selecting => {
                if st.doc.elements.len() == 0 {
                    st.saved = false;
                    true
                } else {
                    switch_phase(st, EditorPhase::Arranging);
                    false
                }
            },
            EditorPhase::Arranging => request_save_inner(st, exists),
        };
    }
    if vk == VK_DELETE {
        make_deletion(st);
    }
    false
}

/// A key goes down. `ctrl` tells whether the control key is down, `parsed` is the
/// opacity that the text that is typed in writes after the key, if it writes one,
/// and `exists` tells whether there is a file of the name that is saved to.
/// Returns whether the editor closes.
pub fn on_keydown(
    st: &mut EditorState,
    vk: u32,
    ctrl: bool,
    parsed: Option<Opacity>,
    exists: bool,
) -> (r: bool)
    requires
        old(st)@.wf(),
    ensures
        final(st)@ == keyed(old(st)@, vk, ctrl, parsed, exists).ed,
        r == keyed(old(st)@, vk, ctrl, parsed, exists).close,
        final(st)@.wf(),
{
    if st.entry.confirm_overwrite {
        if vk == VK_ESCAPE {
            st.entry.confirm_overwrite = false;
        } else if vk == VK_RETURN {
            st.saved = true;
            st.entry.confirm_overwrite = false;
            return true;
        }
        return false;
    }
    if st.entry.editing_target != EditingTarget::Nothing {
        key_in_field(st, vk, parsed);
        return false;
    }
    if st.entry.filename_focused {
        if vk == VK_BACK {
            st.entry.save_filename = cut_last(st.entry.save_filename.as_str());
        } else if vk == VK_ESCAPE || vk == VK_RETURN {
            st.entry.filename_focused = false;
        }
        return false;
    }
    key_on_canvas(st, vk, ctrl, exists)
}

// ===== Characters =====

pub open spec fn is_digit(c: char) -> bool {
    '0' <= c && c <= '9'
}

/// Whether a character can be seen and is not a space.
pub open spec fn is_graphic(c: char) -> bool {
    ('!' <= c && c <= '~') || c as u32 > 0x7f
}

/// Whether a field takes a character: numbers take digits and a minus sign,
/// numbers of elements also a point, texts what can be seen and spaces.
pub open spec fn takes(target: EditingTarget, c: char) -> bool {
    match target {
        EditingTarget::ElemField(idx, prop) => if common::numeric(prop) {
            is_digit(c) || c == '.' || c == '-'
        } else {
            is_graphic(c) || c == ' '
        },
        EditingTarget::Nothing => false,
        _ => is_digit(c) || c == '-',
    }
}

/// What a character does that is typed, and whether the screen is drawn again.
pub open spec fn char_typed(e: Ed, c: char, parsed: Option<Opacity>) -> (Ed, bool) {
    if e.entry.target != EditingTarget::Nothing {
        if takes(e.entry.target, c) {
            (
                panel::live_synced(
                    Ed { entry: EntryView { text: e.entry.text.push(c), ..e.entry }, ..e },
                    parsed,
                ),
                true,
            )
        } else {
            (e, false)
        }
    } else if e.entry.filename_focused && !e.entry.confirm_overwrite && is_graphic(c) {
        (
            Ed {
                entry: EntryView { save_filename: e.entry.save_filename.push(c), ..e.entry },
                ..e
            },
            true,
        )
    } else {
        (e, false)
    }
}

fn digit(c: char) -> (r: bool)
    ensures
        r == is_digit(c),
{
    '0' <= c && c <= '9'
}

fn graphic(c: char) -> (r: bool)
    ensures
        r == is_graphic(c),
{
    ('!' <= c && c <= '~') || c as u32 > 0x7f
}

fn field_takes(target: EditingTarget, c: char) -> (r: bool)
    ensures
        r == takes(target, c),
{
    match target {
        EditingTarget::ElemField(idx, prop) => {
            if prop.is_numeric() {
                digit(c) || c == '.' || c == '-'
            } else {
                graphic(c) || c == ' '
            }
        },
        EditingTarget::Nothing => false,
        _ => digit(c) || c == '-',
    }
}

/// A character is typed. `parsed` is the opacity that the text that is typed in
/// writes with it, if it writes one. Returns whether the screen is drawn again.
pub fn on_char(st: &mut EditorState, c: char, parsed: Option<Opacity>) -> (r: bool)
    requires
        old(st)@.wf(),
    ensures
        (final(st)@, r) == char_typed(old(st)@, c, parsed),
        final(st)@.wf(),
{
    if st.entry.editing_target != EditingTarget::Nothing {
        if !field_takes(st.entry.editing_target, c) {
            return false;
        }
        st.entry.editing_text.push(c);
        proof {
            lemma_live_wf(st@, parsed);
        }
        sync_live_edit(st, parsed);
        return true;
    }
    if st.entry.filename_focused && !st.entry.confirm_overwrite && graphic(c) {
        st.entry.save_filename.push(c);
        true
    } else {
        false
    }
}

// ===== Mouse wheel =====

/// Movement of the wheel that makes one step.
pub const NOTCH: i32 = 120;

/// The state after the list was scrolled: one item for each full notch, the rest
/// is kept.
pub open spec fn scrolled(e: Ed, delta: int) -> Ed {
    let acc = num::int_clamp(e.panel.wheel_acc + delta, i32::MIN as int, i32::MAX as int);
    let n = num::quotient(acc, NOTCH as int);
    if num::int_abs(acc) >= NOTCH {
        Ed {
            panel: Panel {
                wheel_acc: (acc - n * NOTCH) as i32,
                list_scroll: num::int_clamp(
                    e.panel.list_scroll - n,
                    0,
                    panel::max_scroll(e),
                ) as i32,
                ..e.panel
            },
            ..e
        }
    } else {
        Ed { panel: Panel { wheel_acc: acc as i32, ..e.panel }, ..e }
    }
}

/// Whether a point is on the list.
pub open spec fn on_list(e: Ed, x: int, y: int) -> bool {
    &&& e.panel.panel_x <= x <= e.panel.panel_x + PANEL_W
    &&& panel::list_top(e) <= y <= panel::list_bottom(e)
}

/// The number that the wheel steps at a point.
pub open spec fn stepped_at(e: Ed, x: int, y: int) -> Option<SpinTarget> {
    match ui::box_hit(e, x, y) {
        Some(k) => Some(events::value_target(k)),
        None => panel::wheel_target(e, x, y),
    }
}

/// What the mouse wheel does, and whether the screen is drawn again: over a number
/// it steps it, over the list it scrolls. `stepped` is the opacity that many
/// steps on.
pub open spec fn wheel_turned(e: Ed, x: int, y: int, delta: int, stepped: Opacity) -> (Ed, bool) {
    let steps = num::quotient(delta, NOTCH as int);
    if delta == 0 || e.entry.confirm_overwrite {
        (e, false)
    } else if stepped_at(e, x, y) is Some {
        if steps == 0 {
            (e, false)
        } else {
            (panel::spun(e, stepped_at(e, x, y).unwrap(), steps, stepped), true)
        }
    } else if on_list(e, x, y) {
        (scrolled(e, delta), true)
    } else {
        (e, false)
    }
}

fn wheel_steps(st: &EditorState, x: i32, y: i32) -> (r: Option<SpinTarget>)
    requires
        st@.in_range(),
    ensures
        r == stepped_at(st@, x as int, y as int),
{
    match panel_toggle_wheel_hit(st, x, y) {
        Some(k) => Some(
            match k {
                ToggleKind::SnapDistance => SpinTarget::SnapDistance,
                ToggleKind::SnapGap => SpinTarget::SnapGap,
                _ => SpinTarget::NudgeStep,
            },
        ),
        None => spin_target_at(st, x, y),
    }
}

fn scroll_list(st: &mut EditorState, delta: i32)
    requires
        old(st)@.in_range(),
    ensures
        final(st)@ == scrolled(old(st)@, delta as int),
{
    let acc: i64 = clamp_i64(
        st.panel.wheel_acc as i64 + delta as i64,
        i32::MIN as i64,
        i32::MAX as i64,
    );
    if abs_i64(acc) >= NOTCH as i64 {
        let n: i64 = divide(acc, NOTCH as i64);
        let most: i32 = list_max_scroll(st);
        st.panel.wheel_acc = (acc - n * NOTCH as i64) as i32;
        st.panel.list_scroll = clamp_i64(st.panel.list_scroll as i64 - n, 0, most as i64) as i32;
    } else {
        st.panel.wheel_acc = acc as i32;
    }
}

/// The mouse wheel turns. `stepped` is the opacity of the element that was
/// selected last, as many tenths on as the wheel makes steps. Returns whether the
/// screen is drawn again.
pub fn on_mouse_wheel(st: &mut EditorState, x: i32, y: i32, delta: i32, stepped: Opacity) -> (r: bool)
    requires
        old(st)@.in_range(),
        old(st)@.wf(),
    ensures
        (final(st)@, r) == wheel_turned(old(st)@, x as int, y as int, delta as int, stepped),
        final(st)@.wf(),
{
    if delta == 0 || st.entry.confirm_overwrite {
        return false;
    }
    if let Some(target) = wheel_steps(st, x, y) {
        let steps: i32 = divide(delta as i64, NOTCH as i64) as i32;
        if steps == 0 {
            return false;
        }
        proof {
            events::lemma_spun_wf(st@, target, steps as int, stepped);
        }
        apply_spin(st, target, steps, stepped);
        return true;
    }
    let (lx, ly, lw, lh) = list_area_rect(st);
    if x >= lx && x <= lx + lw && y >= ly && y <= ly + lh {
        scroll_list(st, delta);
        return true;
    }
    false
}

// ===== Laws =====

/// Whatever is typed and however the wheel is turned, the panel stays laid out on
/// the screen.
pub proof fn law_keys_keep_the_panel_placed(
    e: Ed,
    vk: u32,
    ctrl: bool,
    c: char,
    parsed: Option<Opacity>,
    exists: bool,
    at: (int, int),
    delta: int,
)
    requires
        e.placed(),
    ensures
        keyed(e, vk, ctrl, parsed, exists).ed.placed(),
        char_typed(e, c, parsed).0.placed(),
        forall|stepped: Opacity|
            (#[trigger] wheel_turned(e, at.0, at.1, delta, stepped)).0.placed(),
{
    reveal(canvas_keyed);
}

/// Off the fields the escape key closes without saving, the delete key deletes,
/// control and Z undo, and the return key goes on: to arranging, then to saving,
/// and without an element it closes without saving. Other keys do nothing there.
pub proof fn law_keys_do_what_they_say(e: Ed, vk: u32, ctrl: bool, parsed: Option<Opacity>, exists: bool)
    requires
        !e.entry.confirm_overwrite,
        e.entry.target == EditingTarget::Nothing,
        !e.entry.filename_focused,
    ensures
        ({
            let r = keyed(e, vk, ctrl, parsed, exists);
            let arrow = 0x25 <= vk <= 0x28;
            &&& ctrl && vk == 0x5a ==> !r.close && r.ed == state::undone(e)
            &&& arrow ==> !r.close && r.ed == nudged(e, vk)
            &&& vk == 0x1b ==> r.close && !r.ed.saved && r.ed.doc == e.doc
            &&& vk == 0x2e ==> !r.close && r.ed == events::deletion_made(e)
            &&& vk == 0x0d && e.phase == EditorPhase::Selecting && e.doc.elements.len() == 0
                ==> r.close && !r.ed.saved
            &&& vk == 0x0d && e.phase == EditorPhase::Selecting && e.doc.elements.len() > 0
                ==> !r.close && r.ed == events::switched(e, EditorPhase::Arranging)
            &&& vk == 0x0d && e.phase == EditorPhase::Arranging ==> r == events::save_asked(
                e,
                exists,
            )
            &&& !arrow && vk != 0x1b && vk != 0x2e && vk != 0x0d && !(ctrl && vk == 0x5a) ==> r
                == (Outcome { ed: e, close: false })
        }),
{
    reveal(canvas_keyed);
}

/// While the question is open the escape key goes back to the editor, the return
/// key saves and closes, and no other does anything.
pub proof fn law_keys_answer_the_question(
    e: Ed,
    vk: u32,
    ctrl: bool,
    parsed: Option<Opacity>,
    exists: bool,
)
    requires
        e.entry.confirm_overwrite,
    ensures
        ({
            let r = keyed(e, vk, ctrl, parsed, exists);
            &&& r.close == (vk == 0x0d)
            &&& vk == 0x0d ==> r.ed.saved
            &&& vk != 0x0d ==> r.ed.saved == e.saved
            &&& r.ed.entry.confirm_overwrite == (vk != 0x0d && vk != 0x1b)
            &&& r.ed.doc == e.doc && r.ed.entry.save_filename == e.entry.save_filename
        }),
{
}

/// In a field the back key takes the last character back, the escape key gives up
/// and the return key takes over; the arrow and other keys do nothing, and no key
/// closes the editor. The file name is typed in the same way.
pub proof fn law_keys_in_fields(e: Ed, vk: u32, ctrl: bool, parsed: Option<Opacity>, exists: bool)
    requires
        !e.entry.confirm_overwrite,
        e.entry.target != EditingTarget::Nothing || e.entry.filename_focused,
    ensures
        ({
            let r = keyed(e, vk, ctrl, parsed, exists);
            let field = e.entry.target != EditingTarget::Nothing;
            &&& !r.close
            &&& field && vk == 0x08 ==> r.ed.entry.text == text::cut(e.entry.text)
                && r.ed.entry.target == e.entry.target
            &&& field && vk == 0x1b ==> r.ed == panel::typing_ended(e)
            &&& field && vk == 0x0d ==> r.ed == panel::committed(e, parsed)
            &&& !field && vk == 0x08 ==> r.ed.entry.save_filename == text::cut(
                e.entry.save_filename,
            ) && r.ed.entry.filename_focused
            &&& !field && (vk == 0x1b || vk == 0x0d) ==> !r.ed.entry.filename_focused
                && r.ed.entry.save_filename == e.entry.save_filename
            &&& vk != 0x08 && vk != 0x1b && vk != 0x0d ==> r.ed == e
            &&& !field ==> r.ed.doc == e.doc
        }),
{
}

/// An arrow key moves what is selected one nudge step its way, one pixel at least:
/// what it captures while selecting, where it is shown while arranging. Nothing
/// else moves, and the move can be undone.
pub proof fn law_arrows_nudge(e: Ed, vk: u32, i: int)
    requires
        0x25 <= vk <= 0x28,
        0 <= i < e.doc.elements.len(),
        exists|k: int|
            0 <= k < e.doc.selected.len() && (e.phase == EditorPhase::Arranging
                || e.doc.elements[#[trigger] e.doc.selected[k] as int].source is Some),
    ensures
        ({
            let n = nudged(e, vk);
            let step = if e.prefs.nudge_step >= 1 {
                e.prefs.nudge_step as int
            } else {
                1
            };
            let dx = if vk == 0x25 {
                -step
            } else if vk == 0x27 {
                step
            } else {
                0
            };
            let dy = if vk == 0x26 {
                -step
            } else if vk == 0x28 {
                step
            } else {
                0
            };
            &&& n.doc.elements.len() == e.doc.elements.len()
            &&& e.doc.selected.contains(i as usize) ==> n.doc.elements[i] == events::el_moved(
                e.doc.elements[i],
                e.phase == EditorPhase::Selecting,
                dx,
                dy,
            )
            &&& !e.doc.selected.contains(i as usize) ==> n.doc.elements[i] == e.doc.elements[i]
            &&& n.doc.undo == state::undo_pushed(e.doc).undo && n.doc.selected == e.doc.selected
        }),
{
}

/// Where nothing that is selected can be moved, an arrow key does nothing.
pub proof fn law_nothing_to_nudge(e: Ed, vk: u32)
    requires
        forall|k: int|
            0 <= k < e.doc.selected.len() ==> e.phase == EditorPhase::Selecting
                && e.doc.elements[#[trigger] e.doc.selected[k] as int].source is None,
    ensures
        nudged(e, vk) == e,
{
}

/// A field takes the characters of what it holds: digits and the minus sign for
/// numbers, also the point for the numbers of elements, and for texts everything
/// that can be seen and the space. A character that it takes goes to the end of
/// what was typed.
pub proof fn law_characters_are_typed(e: Ed, c: char, parsed: Option<Opacity>, idx: usize, p: common::ElemProp)
    ensures
        takes(EditingTarget::ElemField(idx, p), c) == (if common::numeric(p) {
            '0' <= c && c <= '9' || c == '.' || c == '-'
        } else {
            ' ' <= c && c <= '~' || c as u32 >= 0x80
        }),
        takes(EditingTarget::SnapDistance, c) == ('0' <= c && c <= '9' || c == '-'),
        takes(EditingTarget::SnapGap, c) == takes(EditingTarget::SnapDistance, c),
        takes(EditingTarget::NudgeStep, c) == takes(EditingTarget::SnapDistance, c),
        takes(EditingTarget::RegionField(idx, common::FieldKind::X), c) == takes(
            EditingTarget::SnapDistance,
            c,
        ),
        !takes(EditingTarget::Nothing, c),
        ({
            let (t, drawn) = char_typed(e, c, parsed);
            let field = e.entry.target != EditingTarget::Nothing;
            let name = !field && e.entry.filename_focused && !e.entry.confirm_overwrite && '!' <= c
                && !(c as u32 == 0x7f);
            &&& field && takes(e.entry.target, c) ==> drawn && t.entry.text == e.entry.text + seq![c]
            &&& name ==> drawn && t.entry.save_filename == e.entry.save_filename + seq![c] && t.doc
                == e.doc
            &&& !name && !(field && takes(e.entry.target, c)) ==> !drawn && t == e
        }),
{
    assert(e.entry.text.push(c) =~= e.entry.text + seq![c]);
    assert(e.entry.save_filename.push(c) =~= e.entry.save_filename + seq![c]);
}

/// What the wheel turned adds up: each full notch of 120 scrolls the list by one
/// item, up for a turn forward, and what is left of a notch is kept for the next
/// turn.
pub proof fn law_wheel_adds_up(e: Ed, delta: int)
    requires
        -0x4000_0000 <= delta <= 0x4000_0000,
        -120 < e.panel.wheel_acc < 120,
        panel::max_scroll(e) < 0x8000_0000,
    ensures
        ({
            let s = scrolled(e, delta);
            let sum = e.panel.wheel_acc + delta;
            let left = s.panel.wheel_acc;
            let n = (sum - left) / 120;
            &&& -120 < left < 120
            &&& (sum - left) % 120 == 0
            &&& sum >= 0 ==> left >= 0
            &&& sum <= 0 ==> left <= 0
            &&& n == 0 ==> s.panel.list_scroll == e.panel.list_scroll
            &&& n != 0 ==> 0 <= s.panel.list_scroll <= panel::max_scroll(e)
            &&& n != 0 && 0 <= e.panel.list_scroll - n <= panel::max_scroll(e)
                ==> s.panel.list_scroll == e.panel.list_scroll - n
            &&& s.doc == e.doc
        }),
{
    let acc = e.panel.wheel_acc + delta;
    let n = num::quotient(acc, 120);
    assert(acc - (acc - n * 120) == 120 * n);
}

/// The wheel steps the number under it by whole notches, and elsewhere on the list
/// scrolls; off both, and while the question is open, it does nothing.
pub proof fn law_wheel_goes_where_it_belongs(e: Ed, x: int, y: int, delta: int, stepped: Opacity)
    ensures
        ({
            let (t, drawn) = wheel_turned(e, x, y, delta, stepped);
            let b = ui::box_hit(e, x, y);
            let p = panel::wheel_target(e, x, y);
            let list = e.panel.panel_x <= x <= e.panel.panel_x + 460 && panel::list_top(e) <= y
                <= panel::list_bottom(e);
            &&& e.entry.confirm_overwrite || delta == 0 ==> t == e && !drawn
            &&& !e.entry.confirm_overwrite && -120 < delta < 120 && (b is Some || p is Some) ==> t
                == e && !drawn
            &&& !e.entry.confirm_overwrite && delta == 120 && b is Some ==> t == panel::spun(
                e,
                events::value_target(b.unwrap()),
                1,
                stepped,
            )
            &&& !e.entry.confirm_overwrite && delta == -120 && b is None && p is Some ==> t
                == panel::spun(e, p.unwrap(), -1, stepped)
            &&& !e.entry.confirm_overwrite && delta != 0 && b is None && p is None && list ==> t
                == scrolled(e, delta) && drawn
            &&& b is None && p is None && !list ==> t == e && !drawn
        }),
{
    let b = ui::box_hit(e, x, y);
    match b {
        Some(k) => {
            assert(stepped_at(e, x, y) == Some(events::value_target(k)));
        },
        None => {
            assert(stepped_at(e, x, y) == panel::wheel_target(e, x, y));
        },
    }
}

} // verus!
