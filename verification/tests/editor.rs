//! The editor: what mouse and keyboard do, and what is shown and saved.

use aportal::config::{
    CaptureRegion, Config, CustomUiElement, DisplayRect, FrameElement, GlobalSettings, Measure,
    Measures, Rect, TextElement, WindowConfig,
};
use aportal::editor::arranging::{
    composite_png, decode_png_premul, drawing_order, eff_size, hex_color, hit_test, premultiplied,
    picture_part, visible_part, PngCache, PngEntry,
};
use aportal::editor::canvas_view::{
    colors_fit, draw_screen, draw_selecting, Canvas, Turned,
};
use aportal::editor::common::{
    rgb, BtnAction, CursorKind, EditingTarget, EditorPhase, ElemProp, FieldKind, SpinTarget,
    ToggleKind,
};
use aportal::editor::convert::{open_editor, saved_config};
use aportal::editor::draw::{line_font, Shape};
use aportal::editor::events::{
    handle_toggle_click, handle_toolbar_action, on_lbutton_down, on_lbutton_up, on_mouse_move,
    on_rbutton, Press,
};
use aportal::editor::keys::{
    on_char, on_keydown, on_mouse_wheel, VK_BACK, VK_DELETE, VK_ESCAPE, VK_LEFT, VK_RETURN, VK_RIGHT,
    VK_Z,
};
use aportal::editor::panel::{
    add_button_hit, add_ui_element, apply_spin, commit_editing, get_field_coord, hit_test_field,
    hit_test_prop, list_area_rect, list_max_scroll, list_visible_count, normalize_color,
    panel_rect, props_for_kind, read_prop, scroll_thumb, start_editing_field, start_editing_prop,
    toggle_select, AddKind,
};
use aportal::editor::snap::{
    snap_arrangement, snap_axis, snap_lines, snap_resize, snap_selection,
};
use aportal::editor::state::{do_undo, push_undo, EditorState, ElemKind, UNDO_LIMIT};
use aportal::editor::ui::{
    confirm_box, hint_at, mode_buttons, panel_action_hit, panel_action_rect, panel_mode_hit,
    panel_toggle_box_hit, panel_toggle_button_hit, panel_toggle_spin_hit, resolve_filename,
    tog1_defs, toggle_label, toolbar_buttons,
};
use aportal::editor::window::{
    clear_screen, correct_alpha, cursor_kind_for, follow_mouse, follows_mouse, hover_timer,
    is_over_title, magnifier_at, make_question_opaque, message_point, message_wheel, xy_label_at,
    Hover,
};
use aportal::i18n::no_texts;
use aportal::opacity::Opacity;

const SW: i32 = 1920;
const SH: i32 = 1080;
// The panel opens at the upper right
const PX: i32 = 1448;
const PY: i32 = 12;

fn region(x: i32, y: i32, w: i32, h: i32) -> CaptureRegion {
    CaptureRegion {
        id: "region_1".to_string(),
        source: Rect { x: 10, y: 20, width: w as u32, height: h as u32 },
        display: DisplayRect { x, y, width: w, height: h, z_order: 0, opacity: None, rotate: 0 },
        z_order: None,
    }
}

fn frame(x: i32, y: i32, z: i32) -> CustomUiElement {
    CustomUiElement::Frame(FrameElement {
        x,
        y,
        width: 40,
        height: 20,
        opacity: None,
        z_order: z,
        border_color: "#FFDC3C".to_string(),
        border_width: 2,
        corner_radius: 4,
        rotate: 0,
    })
}

fn text_element() -> CustomUiElement {
    CustomUiElement::Text(TextElement {
        content: "hello".to_string(),
        font_size: 14,
        text_color: "#FFFFFF".to_string(),
        x: 700,
        y: 500,
        opacity: Some(Opacity::one()),
        z_order: 5,
        rotate: 0,
    })
}

fn open(regions: Vec<CaptureRegion>, ui: Vec<CustomUiElement>) -> EditorState {
    let cfg = Config { capture_regions: regions, custom_ui: ui, ..Config::default() };
    open_editor(&cfg, &Measures::none(), "test", SW, SH, &GlobalSettings::default())
}

/// Two regions and a frame that lies over the first.
fn arranging() -> EditorState {
    open(vec![region(200, 300, 100, 50), region(500, 300, 80, 80)], vec![frame(220, 310, 3)])
}

fn press(st: &EditorState) -> Press {
    Press {
        ctrl: false,
        sizes: st.doc.elements.iter().map(|e| (e.display.width.max(2), e.display.height.max(2))).collect(),
        opacity_text: "1.00".to_string(),
        opacity_up: Opacity::one(),
        opacity_down: Opacity { bits: 0.9f32.to_bits() },
        scroll_to: 0,
        file_exists: false,
    }
}

fn click(st: &mut EditorState, x: i32, y: i32) -> bool {
    let s = press(st);
    let close = on_lbutton_down(st, x, y, &s);
    if !close {
        on_lbutton_up(st, x, y);
    }
    close
}

fn ctrl_click(st: &mut EditorState, x: i32, y: i32) {
    let s = Press { ctrl: true, ..press(st) };
    on_lbutton_down(st, x, y, &s);
    on_lbutton_up(st, x, y);
}

fn drag(st: &mut EditorState, from: (i32, i32), to: (i32, i32)) {
    let s = press(st);
    on_lbutton_down(st, from.0, from.1, &s);
    on_mouse_move(st, to.0, to.1, 0, 0);
    on_lbutton_up(st, to.0, to.1);
}

fn key(st: &mut EditorState, vk: u32) -> bool {
    on_keydown(st, vk, false, None, false)
}

fn place(st: &EditorState, i: usize) -> (i32, i32) {
    (st.doc.elements[i].display.x, st.doc.elements[i].display.y)
}

/// A point of the row of actions that hits the button.
fn action_at(st: &EditorState, a: BtnAction) -> (i32, i32) {
    let (_, y, _, _) = panel_action_rect(st);
    let x = (PX..PX + 460).find(|x| panel_action_hit(st, *x, y + 5) == Some(a)).unwrap();
    (x, y + 5)
}

// ===== Opening and saving =====

#[test]
fn the_editor_opens_on_a_config() {
    let st = open(Vec::new(), Vec::new());
    assert_eq!(st.phase, EditorPhase::Selecting);
    assert_eq!((st.panel.panel_x, st.panel.panel_y), (PX, PY));
    assert_eq!((st.area.overlay_w, st.area.overlay_h), (200, 150));
    let st = arranging();
    assert_eq!(st.phase, EditorPhase::Arranging);
    assert_eq!(st.doc.elements.len(), 3);
    assert_eq!(st.doc.elements[2].extra.kind, ElemKind::Frame);
    assert_eq!((st.area.overlay_w, st.area.overlay_h), (580, 380));
    assert_eq!(st.entry.save_filename, "test");
    assert!(st.in_range());
}

#[test]
fn texts_open_in_the_size_that_was_measured() {
    let cfg = Config { custom_ui: vec![text_element()], ..Config::default() };
    let m = Measures {
        regions: Vec::new(),
        elements: vec![Measure { natural: (44, 20), tilted: (0, 0) }],
    };
    let st = open_editor(&cfg, &m, "test", SW, SH, &GlobalSettings::default());
    let d = st.doc.elements[0].display;
    assert_eq!((d.x, d.y, d.width, d.height), (700, 500, 44, 20));
    assert!(st.doc.elements[0].extra.opacity_explicit);
}

#[test]
fn what_is_saved_reads_like_what_was_opened() {
    let before = Config {
        capture_regions: vec![region(200, 300, 100, 50)],
        custom_ui: vec![frame(220, 310, 3), text_element()],
        ..Config::default()
    };
    let mut st = open_editor(&before, &Measures::none(), "a.yaml", SW, SH, &GlobalSettings::default());
    assert!(saved_config(&st, &before).is_none());
    st.saved = true;
    let (cfg, name) = saved_config(&st, &before).unwrap();
    assert_eq!(name, "a.yml");
    assert_eq!(format!("{:?}", cfg.custom_ui), format!("{:?}", before.custom_ui));
    let r = &cfg.capture_regions[0];
    assert_eq!(r.id, "region_1");
    assert_eq!(r.source, before.capture_regions[0].source);
    assert_eq!((r.display.x, r.display.y), (200, 300));
    assert!(r.display.opacity.is_none() && r.z_order.is_none());
}

#[test]
fn windows_keep_their_anchor() {
    let mut cfg = Config { capture_regions: vec![region(5, 6, 100, 50)], ..Config::default() };
    cfg.settings.window = Some(WindowConfig { x: 40, y: 30, width: 1, height: 1 });
    let mut st = open_editor(&cfg, &Measures::none(), "", SW, SH, &GlobalSettings::default());
    assert_eq!((st.area.overlay_x, st.area.overlay_y), (40, 30));
    st.saved = true;
    let (saved, name) = saved_config(&st, &cfg).unwrap();
    assert_eq!(name, resolve_filename(""));
    let w = saved.settings.window.unwrap();
    assert_eq!((w.x, w.y, w.width, w.height), (40, 30, 105, 56));
}

#[test]
fn file_names_settle_on_one_ending() {
    assert_eq!(resolve_filename("a"), "a.yml");
    assert_eq!(resolve_filename("a.yaml"), "a.yml");
    assert_eq!(resolve_filename("a.yml.yml"), "a.yml");
    assert_eq!(resolve_filename("a.yml.yaml"), "a.yml");
    for n in ["a", "a.yaml", "x.yml", ".yml", ""] {
        let once = resolve_filename(n);
        assert_eq!(resolve_filename(&once), once);
    }
}

#[test]
fn existing_files_are_asked_about() {
    let mut st = arranging();
    assert!(!handle_toolbar_action(&mut st, BtnAction::Save, true));
    assert!(st.entry.confirm_overwrite && !st.saved);
    // while the question is open nothing else happens
    assert!(!click(&mut st, 250, 325));
    assert!(st.doc.selected_indices.is_empty());
    assert!(!key(&mut st, VK_ESCAPE));
    assert!(!st.entry.confirm_overwrite && !st.saved);
    handle_toolbar_action(&mut st, BtnAction::Save, true);
    let (bx, by, bw, bh) = confirm_box(SW, SH);
    assert_eq!((bx, by, bw, bh), (730, 462, 460, 156));
    assert!(!click(&mut st, bx + 260, by + 110));
    assert!(!st.entry.confirm_overwrite && !st.saved);
    handle_toolbar_action(&mut st, BtnAction::Save, true);
    assert!(click(&mut st, bx + 70, by + 110));
    assert!(st.saved);
}

#[test]
fn new_files_are_saved_at_once() {
    let mut st = arranging();
    let (x, y) = action_at(&st, BtnAction::Save);
    assert!(click(&mut st, x, y));
    assert!(st.saved);
    let mut st = arranging();
    let (x, y) = action_at(&st, BtnAction::Discard);
    assert!(click(&mut st, x, y));
    assert!(!st.saved);
}

// ===== Selecting =====

#[test]
fn boxes_make_regions() {
    let mut st = open(Vec::new(), Vec::new());
    drag(&mut st, (160, 180), (100, 100));
    assert_eq!(st.doc.elements.len(), 1);
    let e = &st.doc.elements[0];
    assert_eq!(e.source_rect(), Rect { x: 100, y: 100, width: 60, height: 80 });
    assert_eq!(place(&st, 0), (100, 100));
    assert_eq!(st.doc.undo_stack.len(), 1);
    // too small
    drag(&mut st, (400, 400), (410, 500));
    assert_eq!(st.doc.elements.len(), 1);
}

#[test]
fn corners_snap_to_other_regions() {
    let mut st = open(Vec::new(), Vec::new());
    drag(&mut st, (100, 100), (200, 200));
    drag(&mut st, (204, 95), (300, 300));
    assert_eq!(st.doc.elements[1].source_rect(), Rect { x: 200, y: 100, width: 100, height: 200 });
    assert_eq!(snap_selection(&mut st, 500, 500), (500, 500));
    let mut st = open(Vec::new(), Vec::new());
    st.prefs.snap_on = false;
    drag(&mut st, (100, 100), (200, 200));
    drag(&mut st, (204, 95), (300, 300));
    assert_eq!(st.doc.elements[1].source_rect(), Rect { x: 204, y: 95, width: 96, height: 205 });
}

#[test]
fn the_phases_are_switched() {
    let mut st = open(Vec::new(), Vec::new());
    assert!(key(&mut st, VK_RETURN));
    let mut st = open(Vec::new(), Vec::new());
    drag(&mut st, (100, 100), (200, 200));
    assert!(!key(&mut st, VK_RETURN));
    assert_eq!(st.phase, EditorPhase::Arranging);
    click(&mut st, 150, 150);
    assert_eq!(st.doc.selected_indices, vec![0]);
    handle_toolbar_action(&mut st, BtnAction::BackToSelect, false);
    assert_eq!(st.phase, EditorPhase::Selecting);
    assert!(st.doc.selected_indices.is_empty() && st.doc.undo_pending.is_none());
}

// ===== Arranging =====

#[test]
fn the_topmost_element_is_hit() {
    let st = arranging();
    let sizes = press(&st).sizes;
    assert_eq!(hit_test(&st, &sizes, 230, 315), Some((2, false)));
    assert_eq!(hit_test(&st, &sizes, 205, 305), Some((0, false)));
    assert_eq!(hit_test(&st, &sizes, 299, 349), Some((0, true)));
    assert_eq!(hit_test(&st, &sizes, 100, 100), None);
    assert_eq!(drawing_order(&st.doc), vec![0, 1, 2]);
}

#[test]
fn the_selected_element_is_drawn_last() {
    let mut st = arranging();
    click(&mut st, 205, 305);
    assert_eq!(drawing_order(&st.doc), vec![1, 2, 0]);
}

#[test]
fn plain_clicks_make_no_step() {
    let mut st = arranging();
    click(&mut st, 205, 305);
    assert_eq!(st.doc.selected_indices, vec![0]);
    assert!(st.doc.undo_stack.is_empty() && st.doc.undo_pending.is_none());
}

#[test]
fn one_drag_is_one_step() {
    let mut st = arranging();
    st.prefs.snap_on = false;
    let s = press(&st);
    on_lbutton_down(&mut st, 205, 305, &s);
    for i in 1..10 {
        on_mouse_move(&mut st, 205 + i, 305 + 2 * i, 0, 0);
    }
    on_lbutton_up(&mut st, 214, 323);
    assert_eq!(place(&st, 0), (209, 318));
    assert_eq!(st.doc.undo_stack.len(), 1);
    assert!(on_keydown(&mut st, VK_Z, true, None, false) == false);
    assert_eq!(place(&st, 0), (200, 300));
    assert!(st.doc.undo_stack.is_empty());
}

#[test]
fn dragged_elements_snap() {
    let mut st = arranging();
    // the left edge comes within reach of the right edge of the other region
    let (x, y) = snap_arrangement(&mut st, 1, 305, 600);
    assert_eq!((x, y), (300, 600));
    assert_eq!(st.drag.snapped_x, Some(300));
    assert_eq!(snap_arrangement(&mut st, 1, 315, 600), (300, 600));
    assert_eq!(snap_arrangement(&mut st, 1, 316, 600), (316, 600));
    assert_eq!(snap_arrangement(&mut st, 1, 900, 900), (900, 900));
}

#[test]
fn centers_snap_to_the_points_of_others() {
    let mut st = open(vec![region(200, 300, 100, 60), region(500, 600, 20, 20)], Vec::new());
    st.prefs.snap_on = false;
    st.prefs.snap_tian = true;
    // center at (252, 331), near the middle (250, 330)
    assert_eq!(snap_arrangement(&mut st, 1, 242, 321), (240, 320));
    assert_eq!(snap_arrangement(&mut st, 1, 700, 700), (700, 700));
}

#[test]
fn resized_elements_snap_and_keep_a_size() {
    let st = open(vec![region(200, 300, 100, 50), region(400, 300, 80, 80)], Vec::new());
    assert_eq!(snap_resize(&st.doc.elements, 0, 197, 60, 8), (200, 60));
    assert_eq!(snap_resize(&st.doc.elements, 0, 283, 86, 8), (280, 80));
    assert_eq!(snap_resize(&st.doc.elements, 0, 5, 5, 8), (20, 20));
}

#[test]
fn handles_resize() {
    let mut st = arranging();
    st.prefs.snap_on = false;
    drag(&mut st, (575, 375), (620, 390));
    let d = st.doc.elements[1].display;
    assert_eq!((d.x, d.y, d.width, d.height), (500, 300, 120, 90));
    assert_eq!(st.doc.undo_stack.len(), 1);
}

#[test]
fn texts_are_resized_by_their_font() {
    let cfg = Config { custom_ui: vec![text_element()], ..Config::default() };
    let m = Measures {
        regions: Vec::new(),
        elements: vec![Measure { natural: (44, 20), tilted: (0, 0) }],
    };
    let mut st = open_editor(&cfg, &m, "test", SW, SH, &GlobalSettings::default());
    let s = press(&st);
    on_lbutton_down(&mut st, 743, 519, &s);
    assert_eq!(st.drag.resize_index, Some(0));
    on_mouse_move(&mut st, 800, 560, 0, 999);
    assert_eq!(st.doc.elements[0].extra.font_size, 300);
    on_mouse_move(&mut st, 800, 560, 0, 1);
    assert_eq!(st.doc.elements[0].extra.font_size, 6);
}

#[test]
fn several_elements_move_together() {
    let mut st = arranging();
    click(&mut st, 205, 305);
    ctrl_click(&mut st, 510, 310);
    assert_eq!(st.doc.selected_indices, vec![0, 1]);
    drag(&mut st, (510, 310), (520, 315));
    assert_eq!((place(&st, 0), place(&st, 1), place(&st, 2)), ((210, 305), (510, 305), (220, 310)));
    assert_eq!(st.doc.undo_stack.len(), 1);
}

#[test]
fn boxes_select_elements() {
    let mut st = arranging();
    drag(&mut st, (100, 250), (250, 400));
    assert_eq!(st.doc.selected_indices, vec![0, 2]);
    drag(&mut st, (900, 900), (903, 950));
    assert!(st.doc.selected_indices.is_empty());
}

#[test]
fn toggling_twice_changes_nothing() {
    let mut v = vec![3, 1];
    toggle_select(&mut v, 5);
    assert_eq!(v, vec![3, 1, 5]);
    toggle_select(&mut v, 5);
    assert_eq!(v, vec![3, 1]);
    toggle_select(&mut v, 3);
    assert_eq!(v, vec![1]);
}

#[test]
fn arrow_keys_nudge() {
    let mut st = arranging();
    key(&mut st, VK_LEFT);
    assert!(st.doc.undo_stack.is_empty());
    click(&mut st, 205, 305);
    st.prefs.nudge_step = 7;
    key(&mut st, VK_LEFT);
    assert_eq!(place(&st, 0), (193, 300));
    assert_eq!(st.doc.undo_stack.len(), 1);
}

#[test]
fn deletions_are_undone() {
    let mut st = arranging();
    key(&mut st, VK_DELETE);
    assert_eq!(st.doc.elements.len(), 3);
    click(&mut st, 205, 305);
    ctrl_click(&mut st, 230, 315);
    key(&mut st, VK_DELETE);
    assert_eq!(st.doc.elements.len(), 1);
    assert_eq!(place(&st, 0), (500, 300));
    on_keydown(&mut st, VK_Z, true, None, false);
    assert_eq!(st.doc.elements.len(), 3);
    assert_eq!(place(&st, 0), (200, 300));
}

#[test]
fn the_undo_stack_is_bounded() {
    let mut st = arranging();
    for i in 0..UNDO_LIMIT + 10 {
        push_undo(&mut st);
        st.doc.elements[0].display.x = i as i32;
    }
    assert_eq!(st.doc.undo_stack.len(), UNDO_LIMIT);
    assert!(do_undo(&mut st));
    assert_eq!(place(&st, 0).0, UNDO_LIMIT as i32 + 8);
    while do_undo(&mut st) {}
    assert_eq!(place(&st, 0).0, 9);
    assert!(!do_undo(&mut st));
}

#[test]
fn elements_are_added() {
    let mut st = arranging();
    add_ui_element(&mut st, ElemKind::Background);
    assert_eq!(st.doc.elements.len(), 4);
    let d = st.doc.elements[3].display;
    assert_eq!((d.width, d.height), (40, 20));
    assert!(!st.doc.elements[3].extra.opacity_explicit);
    assert_eq!(st.doc.undo_stack.len(), 1);
    add_ui_element(&mut st, ElemKind::Text);
    let d = st.doc.elements[4].display;
    assert_eq!((d.width, d.height), (0, 0));
}

#[test]
fn adding_and_dropping_is_one_step() {
    let mut st = arranging();
    let (px, py, _, ph) = panel_rect(&st);
    let y = py + ph - 10;
    let x = (px..px + 460).find(|x| add_button_hit(&st, *x, y) == Some(AddKind::Frame)).unwrap();
    drag(&mut st, (x, y), (900, 700));
    assert_eq!(st.doc.elements.len(), 4);
    assert_eq!(st.doc.undo_stack.len(), 1);
    assert_eq!(st.doc.selected_indices, vec![3]);
    do_undo(&mut st);
    assert_eq!(st.doc.elements.len(), 3);
}

#[test]
fn the_right_button_lets_go() {
    let mut st = arranging();
    click(&mut st, 205, 305);
    assert!(!on_rbutton(&mut st));
    assert!(st.drag.drag_index.is_none());
    let mut st = open(Vec::new(), Vec::new());
    drag(&mut st, (100, 100), (200, 200));
    on_rbutton(&mut st);
    assert_eq!(st.phase, EditorPhase::Selecting);
}

// ===== Panel =====

#[test]
fn buttons_follow_the_phase() {
    let texts = no_texts();
    assert_eq!(mode_buttons(EditorPhase::Selecting, &texts)[0].label, "next_step");
    assert_eq!(mode_buttons(EditorPhase::Arranging, &texts)[0].label, "back");
    let labels: Vec<&str> =
        toolbar_buttons(EditorPhase::Arranging, &texts).iter().map(|b| b.label).collect();
    assert_eq!(labels, vec!["undo_last", "delete_selected", "save", "discard"]);
    let st = arranging();
    assert_eq!(panel_mode_hit(&st, PX + 10, PY + 112), Some(BtnAction::BackToSelect));
    assert_eq!(panel_mode_hit(&st, PX + 400, PY + 112), None);
}

#[test]
fn rows_do_not_overlap() {
    let st = arranging();
    for y in PY..PY + 290 {
        for x in [PX + 10, PX + 110, PX + 250, PX + 300] {
            let hits = [
                panel_mode_hit(&st, x, y).is_some(),
                panel_action_hit(&st, x, y).is_some(),
                panel_toggle_button_hit(&st, x, y).is_some(),
                panel_toggle_box_hit(&st, x, y).is_some(),
            ];
            assert!(hits.iter().filter(|h| **h).count() <= 1, "{} {}", x, y);
        }
    }
}

#[test]
fn helpers_are_switched() {
    let mut st = arranging();
    let (_, y, _, _) = panel_action_rect(&st);
    let row = y + 42 + 5;
    for d in tog1_defs().iter() {
        let x = PX + 8 + d.x + 2;
        assert_eq!(panel_toggle_button_hit(&st, x, row), Some(d.kind));
    }
    assert_eq!(toggle_label(ToggleKind::Grid, &no_texts()), "toggle_grid");
    let grid = PX + 8 + 64 + 2;
    click(&mut st, grid, row);
    assert!(!st.prefs.grid_on);
    click(&mut st, grid, row);
    assert!(st.prefs.grid_on);
    // the two ways of snapping exclude each other
    let tian = PX + 8 + 292 + 2;
    click(&mut st, tian, row);
    assert!(st.prefs.snap_tian && !st.prefs.snap_on);
    let snap = PX + 8 + 240 + 2;
    click(&mut st, snap, row);
    assert!(!st.prefs.snap_tian && st.prefs.snap_on);
}

#[test]
fn values_are_stepped_and_staged() {
    let mut st = arranging();
    let (_, y, _, _) = panel_action_rect(&st);
    let row = y + 84;
    let x = PX + 8 + 100 + 50;
    assert_eq!(panel_toggle_spin_hit(&st, x, row + 2), Some((ToggleKind::SnapDistance, true)));
    click(&mut st, x, row + 2);
    assert_eq!(st.prefs.snap_distance, 9);
    assert_eq!(st.staged_prefs, Some((9, 0, 1)));
    click(&mut st, x, row + 30);
    assert_eq!(st.prefs.snap_distance, 8);
    apply_spin(&mut st, SpinTarget::SnapGap, -5, Opacity::one());
    assert_eq!(st.prefs.snap_gap, 0);
    on_mouse_wheel(&mut st, x, row + 2, 240, Opacity::one());
    assert_eq!(st.prefs.snap_distance, 10);
    assert!(!on_mouse_wheel(&mut st, 10, 10, 120, Opacity::one()));
}

#[test]
fn the_panel_is_dragged() {
    let mut st = arranging();
    let s = press(&st);
    on_lbutton_down(&mut st, PX + 20, PY + 10, &s);
    assert!(st.panel.drag_panel);
    on_mouse_move(&mut st, 0, 0, 0, 0);
    assert_eq!((st.panel.panel_x, st.panel.panel_y), (4, 4));
    on_mouse_move(&mut st, 320, 210, 0, 0);
    assert_eq!((st.panel.panel_x, st.panel.panel_y), (300, 200));
    on_lbutton_up(&mut st, 320, 210);
    assert!(!st.panel.drag_panel);
}

#[test]
fn the_list_scrolls() {
    let many = (0..60).map(|i| region(10 * i, 0, 50, 50)).collect();
    let mut st = open(many, Vec::new());
    let shown = list_visible_count(&st);
    assert_eq!(list_max_scroll(&st), 60 - shown);
    assert!(scroll_thumb(&st).is_some());
    let (lx, ly, _, _) = list_area_rect(&st);
    on_mouse_wheel(&mut st, lx + 20, ly + 10, -240, Opacity::one());
    assert_eq!(st.panel.list_scroll, 2);
    on_mouse_wheel(&mut st, lx + 20, ly + 10, 32000, Opacity::one());
    assert_eq!(st.panel.list_scroll, 0);
    assert!(scroll_thumb(&arranging()).is_none());
}

#[test]
fn the_list_selects() {
    let mut st = arranging();
    let (lx, ly, _, _) = list_area_rect(&st);
    click(&mut st, lx + 20, ly + 42 + 20);
    assert_eq!(st.doc.selected_indices, vec![1]);
    ctrl_click(&mut st, lx + 20, ly + 20);
    assert_eq!(st.doc.selected_indices, vec![1, 0]);
}

#[test]
fn coordinates_are_typed_in() {
    let mut st = arranging();
    let (lx, ly, _, _) = list_area_rect(&st);
    let x = (lx..lx + 460)
        .find(|x| hit_test_field(&st, *x, ly + 20) == Some((0, FieldKind::X)))
        .unwrap();
    click(&mut st, x, ly + 20);
    assert_eq!(st.entry.editing_target, EditingTarget::RegionField(0, FieldKind::X));
    assert_eq!(st.entry.editing_text, "200");
    for _ in 0..3 {
        key(&mut st, VK_BACK);
    }
    assert!(!on_char(&mut st, 'x', None));
    for c in "345".chars() {
        assert!(on_char(&mut st, c, None));
    }
    key(&mut st, VK_RETURN);
    assert_eq!(get_field_coord(&st, 0, FieldKind::X), 345);
    assert_eq!(st.doc.undo_stack.len(), 1);
    assert_eq!(st.entry.editing_target, EditingTarget::Nothing);
    // a number below zero counts as zero
    start_editing_field(&mut st, 0, FieldKind::Y);
    st.entry.editing_text = "-9".to_string();
    commit_editing(&mut st, None);
    assert_eq!(get_field_coord(&st, 0, FieldKind::Y), 0);
    // what is no number changes nothing
    start_editing_field(&mut st, 0, FieldKind::Y);
    st.entry.editing_text = "-".to_string();
    commit_editing(&mut st, None);
    assert_eq!(get_field_coord(&st, 0, FieldKind::Y), 0);
    assert_eq!(st.doc.undo_stack.len(), 2);
}

#[test]
fn properties_are_typed_in() {
    let mut st = arranging();
    click(&mut st, 230, 315);
    let (px, py, _, ph) = panel_rect(&st);
    let hits: Vec<ElemProp> =
        (py..py + ph).filter_map(|y| hit_test_prop(&st, px + 200, y)).map(|h| h.1).collect();
    for p in props_for_kind(ElemKind::Frame) {
        assert!(hits.contains(&p), "{:?}", p);
    }
    start_editing_prop(&mut st, 2, ElemProp::BorderColor, "1.00");
    assert_eq!(st.entry.editing_text, "#FFDC3C");
    st.entry.editing_text = "00ff00".to_string();
    commit_editing(&mut st, None);
    assert_eq!(st.doc.elements[2].extra.border_color, "#00FF00");
    start_editing_prop(&mut st, 2, ElemProp::Opacity, "1.00");
    assert_eq!(st.entry.editing_text, "1.00");
    commit_editing(&mut st, Some(Opacity { bits: 0.5f32.to_bits() }));
    assert_eq!(f32::from_bits(st.doc.elements[2].extra.opacity.bits), 0.5);
    assert!(st.doc.elements[2].extra.opacity_explicit);
    start_editing_prop(&mut st, 2, ElemProp::Rotate, "1.00");
    st.entry.editing_text = "-90".to_string();
    commit_editing(&mut st, None);
    assert_eq!(st.doc.elements[2].display.rotate, 270);
    start_editing_prop(&mut st, 2, ElemProp::BorderWidth, "1.00");
    st.entry.editing_text = "999".to_string();
    commit_editing(&mut st, None);
    assert_eq!(st.doc.elements[2].extra.border_width, 50);
}

#[test]
fn shown_values_read_back() {
    let mut st = arranging();
    for p in [ElemProp::ZOrder, ElemProp::Rotate, ElemProp::BorderColor, ElemProp::BorderWidth] {
        let before = format!("{:?}", st.doc.elements[2]);
        start_editing_prop(&mut st, 2, p, "1.00");
        commit_editing(&mut st, None);
        assert_eq!(format!("{:?}", st.doc.elements[2]), before);
    }
    assert!(st.doc.undo_stack.is_empty());
    assert_eq!(read_prop(&st.doc.elements[2], ElemProp::ZOrder, ""), "3");
}

#[test]
fn colors_are_normalized() {
    assert_eq!(normalize_color("ffdc3c"), "#FFDC3C");
    assert_eq!(normalize_color("#ffdc3c"), "#FFDC3C");
    assert_eq!(normalize_color(&normalize_color(" #abcdef ")), normalize_color(" #abcdef "));
}

#[test]
fn file_names_are_typed_in() {
    let mut st = arranging();
    click(&mut st, PX + 30, PY + 42 + 22 + 10);
    assert!(st.entry.filename_focused);
    key(&mut st, VK_BACK);
    assert!(on_char(&mut st, 'x', None));
    assert!(!on_char(&mut st, ' ', None));
    assert_eq!(st.entry.save_filename, "tesx");
    key(&mut st, VK_RETURN);
    assert!(!st.entry.filename_focused);
}

// ===== Window =====

#[test]
fn messages_tell_points() {
    assert_eq!(message_point((300 << 16) | 200), (200, 300));
    assert_eq!(message_point(0xfffe_ffff), (-1, -2));
    assert_eq!(message_point(-1), (-1, -1));
    assert_eq!(message_wheel(120 << 16), 120);
    assert_eq!(message_wheel(0xff88_0000), -120);
}

#[test]
fn the_tooltip_shows_over_the_title() {
    let mut st = arranging();
    assert!(is_over_title(&st, PX + 5, PY + 5));
    assert_eq!(follow_mouse(&mut st, PX + 5, PY + 5), (Hover::Start, false));
    assert!(hover_timer(&mut st));
    assert!(st.panel.tooltip_show);
    assert_eq!(follow_mouse(&mut st, 5, 300), (Hover::Stop, true));
    assert!(!st.panel.tooltip_show);
    assert!(!hover_timer(&mut st));
    assert!(follows_mouse(&st));
}

#[test]
fn the_hint_dodges_the_mouse() {
    let mut st = arranging();
    assert_eq!(hint_at(&st, &no_texts()), (SH - 40, "hint_arranging"));
    follow_mouse(&mut st, 300, SH - 10);
    assert_eq!(hint_at(&st, &no_texts()).0, 0);
    follow_mouse(&mut st, 300, 10);
    assert_eq!(hint_at(&st, &no_texts()).0, SH - 40);
}

#[test]
fn the_cursor_tells_what_is_there() {
    let st = arranging();
    assert_eq!(cursor_kind_for(&st, 100, 100), CursorKind::Cross);
    assert_eq!(cursor_kind_for(&st, PX + 5, PY + 5), CursorKind::SizeAll);
    assert_eq!(cursor_kind_for(&st, PX + 30, PY + 70), CursorKind::Ibeam);
    let (x, y) = action_at(&st, BtnAction::Save);
    assert_eq!(cursor_kind_for(&st, x, y), CursorKind::Hand);
}

#[test]
fn the_magnifier_leaves_its_corner() {
    let mut st = arranging();
    follow_mouse(&mut st, 900, 500);
    assert_eq!(magnifier_at(&st), (20, 16, 800, 400));
    assert_eq!(xy_label_at(&st), (920, 470));
    follow_mouse(&mut st, 50, 20);
    assert_eq!(magnifier_at(&st), (SW - 420, 16, 0, 0));
}

#[test]
fn the_screen_is_transparent() {
    let mut buf = vec![9u8; 8];
    clear_screen(&mut buf);
    assert_eq!(buf, vec![0, 0, 0, 76, 0, 0, 0, 76]);
    buf[0] = 255;
    buf[1] = 100;
    correct_alpha(&mut buf);
    assert_eq!(buf, vec![153, 60, 0, 153, 0, 0, 0, 76]);
}

#[test]
fn the_question_is_opaque() {
    let mut buf = vec![0u8; 470 * 160 * 4];
    make_question_opaque(&mut buf, 470, 160);
    let at = |x: usize, y: usize| buf[(y * 470 + x) * 4 + 3];
    assert_eq!((at(4, 2), at(5, 1), at(5, 2)), (0, 0, 255));
    assert_eq!((at(464, 157), at(465, 157), at(464, 158)), (255, 0, 0));
}

// ===== Pictures and drawing =====

fn png_file(w: u32, h: u32, data: &[u8]) -> Vec<u8> {
    let mut out = Vec::new();
    {
        let mut e = png::Encoder::new(&mut out, w, h);
        e.set_color(png::ColorType::Rgba);
        e.set_depth(png::BitDepth::Eight);
        let mut writer = e.write_header().unwrap();
        writer.write_image_data(data).unwrap();
    }
    out
}

#[test]
fn pictures_are_cached() {
    let mut cache = PngCache::new();
    assert!(cache.wants("a.png") && !cache.wants("  "));
    let file = png_file(1, 1, &[200, 100, 50, 128]);
    cache.load("a.png", Some(&file));
    cache.load("gone.png", None);
    assert!(!cache.wants("a.png") && !cache.wants("gone.png"));
    let p = cache.get("a.png").unwrap();
    assert_eq!((p.w, p.h, p.pixels.clone()), (1, 1, vec![25, 50, 100, 128]));
    assert!(cache.get("gone.png").is_none() && cache.get("b.png").is_none());
    // the first outcome stays
    cache.load("gone.png", Some(&file));
    assert!(cache.get("gone.png").is_none());
    assert!(decode_png_premul(&vec![1, 2, 3]).is_none());
    assert_eq!(premultiplied(&vec![255, 0, 0, 255]), vec![0, 0, 255, 255]);
}

#[test]
fn elements_have_sizes_on_the_canvas() {
    let mut cache = PngCache::new();
    let mut st = arranging();
    add_ui_element(&mut st, ElemKind::Png);
    st.doc.elements[3].extra.png_path = "a.png".to_string();
    assert_eq!(eff_size(&st.doc.elements[3], &cache, (0, 0)), (40, 20));
    cache.load("a.png", Some(&png_file(3, 2, &[0; 24])));
    assert_eq!(eff_size(&st.doc.elements[3], &cache, (0, 0)), (3, 2));
    st.doc.elements[3].display.width = 10;
    st.doc.elements[3].display.height = 11;
    assert_eq!(eff_size(&st.doc.elements[3], &cache, (0, 0)), (10, 11));
    add_ui_element(&mut st, ElemKind::Text);
    assert_eq!(eff_size(&st.doc.elements[4], &cache, (44, 20)), (44, 20));
}

#[test]
fn pictures_are_cut_to_the_screen() {
    assert_eq!(visible_part(-5, 10, 20, 20, 100, 15), Some((0, 10, 15, 15)));
    assert_eq!(visible_part(200, 10, 20, 20, 100, 100), None);
    let picture = PngEntry { w: 4, h: 4, pixels: vec![0; 64] };
    assert_eq!(picture_part(&picture, -5, 10, 20, 20, 100, 15), Some((0, 10, 15, 15)));
    assert_eq!(picture_part(&picture, 0, 0, 0, 20, 100, 15), None);
    let empty = PngEntry { w: 0, h: 4, pixels: Vec::new() };
    assert_eq!(picture_part(&empty, -5, 10, 20, 20, 100, 15), None);
    let mut buf = vec![100u8; 2 * 2 * 4];
    composite_png(&mut buf, 2, 2, &vec![1, 2, 3, 255, 0, 0, 0, 0], (0, 1, 2, 2));
    assert_eq!(&buf[0..8], &[100; 8]);
    assert_eq!(&buf[8..11], &[1, 2, 3]);
    assert_eq!(&buf[12..16], &[100; 4]);
}

#[test]
fn colors_are_numbers() {
    assert_eq!(rgb(1, 2, 3), 0x030201);
    assert_eq!(hex_color("#010203"), 0x030201);
}

#[test]
fn the_screen_is_drawn() {
    let mut st = arranging();
    follow_mouse(&mut st, 900, 500);
    let sizes = press(&st).sizes;
    let turned = vec![Turned { tilted: (0, 0), corner: (0, 0) }; 3];
    let cache = PngCache::new();
    assert!(colors_fit(&st.doc.elements));
    let canvas = Canvas { sizes: &sizes, turned: &turned, cache: &cache };
    let ops = draw_screen(&st, &canvas, &no_texts(), "1.00");
    assert!(ops.iter().any(|o| o.shape == Shape::Magnifier && (o.w, o.h) == (800, 400)));
    assert!(ops.iter().any(|o| o.text == "hint_arranging"));
    assert!(ops.iter().any(|o| o.text == "save"));
    st.prefs.magnifier_on = false;
    let fewer = draw_screen(&st, &canvas, &no_texts(), "1.00");
    assert!(fewer.iter().all(|o| o.shape != Shape::Magnifier));
    assert!(fewer.len() < ops.len());
    assert_eq!(snap_lines(&st), (None, None));
    st.doc.elements[2].extra.border_color = "#\u{20ac}\u{20ac}".to_string();
    assert!(!colors_fit(&st.doc.elements));
}

// ===== Numbers far out =====

#[test]
fn an_axis_snaps_wherever_it_is() {
    assert_eq!(snap_axis(115, &vec![(114, 1)], Some(100), 8), (100, Some(100)));
    assert_eq!(snap_axis(116, &vec![(114, 2)], Some(100), 8), (114, Some(114)));
    // of equally near ones the first
    assert_eq!(snap_axis(10, &vec![(30, 20), (7, 3), (13, 3)], None, 8), (7, Some(7)));
    assert_eq!(snap_axis(10, &vec![(19, 9)], None, 8), (10, None));
    assert_eq!(snap_axis(10, &Vec::new(), None, 8), (10, None));
    let far = 1_500_000_000;
    assert_eq!(snap_axis(far, &vec![(far as i64 - 5, 5)], None, 8), (far - 5, Some(far - 5)));
    assert_eq!(snap_axis(0, &vec![(5, 5)], Some(i32::MAX), 1_000_000_000), (5, Some(5)));
    assert_eq!(snap_axis(i32::MIN, &Vec::new(), Some(i32::MAX), i32::MAX), (i32::MIN, None));
}

#[test]
fn elements_on_any_layer_are_selected_and_nudged() {
    let mut st = open(vec![region(200, 300, 100, 50)], vec![frame(600, 500, 200_000_000)]);
    st.doc.elements[0].extra.z_order = i32::MIN;
    click(&mut st, 605, 505);
    assert_eq!(st.doc.selected_indices, vec![1]);
    key(&mut st, VK_LEFT);
    assert_eq!(place(&st, 1), (599, 500));
    assert_eq!(drawing_order(&st.doc), vec![0, 1]);
    st.doc.elements[1].extra.z_order = i32::MAX;
    st.doc.selected_indices = vec![0];
    assert_eq!(drawing_order(&st.doc), vec![1, 0]);
    assert_eq!(hit_test(&st, &press(&st).sizes, 605, 505), Some((1, false)));
}

#[test]
fn steps_may_be_as_long_as_they_like() {
    let mut st = arranging();
    st.prefs.nudge_step = 2_000_000;
    click(&mut st, 205, 305);
    key(&mut st, VK_RIGHT);
    assert_eq!(place(&st, 0), (2_000_200, 300));
    key(&mut st, VK_LEFT);
    key(&mut st, VK_LEFT);
    assert_eq!(place(&st, 0), (0, 300));
}

#[test]
fn typed_numbers_do_not_stop_the_editor() {
    let mut st = arranging();
    click(&mut st, 205, 305);
    start_editing_field(&mut st, 0, FieldKind::X);
    st.entry.editing_text = String::new();
    for c in "200000000".chars() {
        assert!(on_char(&mut st, c, None));
    }
    assert!(!key(&mut st, VK_RETURN));
    assert_eq!(place(&st, 0), (200_000_000, 300));
    // the next events are taken as ever
    assert!(st.in_range());
    click(&mut st, 510, 310);
    assert_eq!(st.doc.selected_indices, vec![1]);
    let sizes = press(&st).sizes;
    let turned = vec![Turned { tilted: (0, 0), corner: (0, 0) }; 3];
    let cache = PngCache::new();
    let canvas = Canvas { sizes: &sizes, turned: &turned, cache: &cache };
    let ops = draw_screen(&st, &canvas, &no_texts(), "1.00");
    assert!(ops.iter().any(|o| o.text == "X:200000000 Y:300 W:100 H:50"));
}

#[test]
fn texts_without_a_color_are_white() {
    let mut st = open(Vec::new(), vec![text_element()]);
    st.doc.elements[0].extra.text_color = "\u{3000}\u{3000}".to_string();
    assert!(colors_fit(&st.doc.elements));
    let sizes = vec![(44, 20)];
    let turned = vec![Turned { tilted: (0, 0), corner: (0, 0) }];
    let cache = PngCache::new();
    let canvas = Canvas { sizes: &sizes, turned: &turned, cache: &cache };
    let ops = draw_screen(&st, &canvas, &no_texts(), "1.00");
    let words = ops.iter().find(|o| o.shape == Shape::Words).unwrap();
    assert_eq!((words.text.as_str(), words.color), ("hello", rgb(255, 255, 255)));
    assert_eq!(words.n, 14);
}

#[test]
fn clicks_on_toggles_switch_them() {
    let mut st = arranging();
    push_undo(&mut st);
    let steps = st.doc.undo_stack.len();
    assert!(st.prefs.snap_on && !st.prefs.snap_tian);
    assert!(!handle_toggle_click(&mut st, ToggleKind::TianSnap));
    assert!(!st.prefs.snap_on && st.prefs.snap_tian);
    assert!(!handle_toggle_click(&mut st, ToggleKind::Snap));
    assert!(st.prefs.snap_on && !st.prefs.snap_tian);
    assert!(!handle_toggle_click(&mut st, ToggleKind::Snap));
    assert!(!st.prefs.snap_on && !st.prefs.snap_tian);
    assert!(!handle_toggle_click(&mut st, ToggleKind::Grid));
    assert!(!st.prefs.grid_on && !st.prefs.snap_on && !st.prefs.snap_tian);
    assert!(!handle_toggle_click(&mut st, ToggleKind::SnapGap));
    assert_eq!(st.entry.editing_target, EditingTarget::SnapGap);
    assert_eq!((st.doc.elements.len(), st.doc.undo_stack.len()), (3, steps));
}

#[test]
fn the_panel_is_kept_on_the_screen() {
    let mut st = arranging();
    let s = press(&st);
    on_lbutton_down(&mut st, PX + 30, PY + 10, &s);
    assert_eq!(st.panel.panel_drag_offset, (30, 10));
    on_mouse_move(&mut st, i32::MIN, i32::MAX, 0, 0);
    assert_eq!((st.panel.panel_x, st.panel.panel_y), (4, SH - 42 - 60));
    assert!(st.in_range());
    on_mouse_move(&mut st, i32::MAX, i32::MIN, 0, 0);
    assert_eq!((st.panel.panel_x, st.panel.panel_y), (SW - 460 - 4, 4));
    assert!(st.in_range());
}

#[test]
fn labels_tell_the_numbers_of_the_source() {
    let mut st = open(vec![region(200, 300, 100, 50)], Vec::new());
    handle_toolbar_action(&mut st, BtnAction::BackToSelect, false);
    st.doc.elements[0].source = Some(Rect { x: u32::MAX, y: 20, width: 100, height: 50 });
    let mut ops = Vec::new();
    draw_selecting(&mut ops, &st, &no_texts(), "1.00");
    assert!(ops.iter().any(|o| o.text == "X:4294967295 Y:20 W:100 H:50"));
    let tint = ops.iter().find(|o| o.shape == Shape::Tint).unwrap();
    assert_eq!((tint.x, tint.y, tint.w, tint.h), (-1, 20, 100, 50));
}

#[test]
fn pens_are_as_wide_as_the_border() {
    let mut st = open(Vec::new(), vec![frame(220, 310, 3)]);
    let sizes = press(&st).sizes;
    let turned = vec![Turned { tilted: (0, 0), corner: (0, 0) }];
    let cache = PngCache::new();
    let canvas = Canvas { sizes: &sizes, turned: &turned, cache: &cache };
    for (width, pen) in [(0, 1), (7, 7), (u32::MAX, -1)] {
        st.doc.elements[0].extra.border_width = width;
        let ops = draw_screen(&st, &canvas, &no_texts(), "1.00");
        let outline = ops.iter().find(|o| o.shape == Shape::RoundOutline).unwrap();
        assert_eq!(outline.n, pen);
    }
}

#[test]
fn fonts_follow_the_height_of_a_line() {
    assert_eq!(line_font(30), 18);
    assert_eq!(line_font(22), 13);
    assert_eq!(line_font(5), 11);
    assert_eq!(line_font(40), 22);
    assert_eq!((line_font(i32::MIN), line_font(i32::MAX)), (11, 22));
}
