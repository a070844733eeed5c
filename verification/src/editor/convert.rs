//! Between a config and the state of the editor.

use vstd::prelude::*;

use crate::config;
use crate::config::{
    measure_at, to_signed, BackgroundElement, CaptureRegion, Config, CustomUiElement, DisplayRect,
    FrameElement, GlobalSettings, ImageElement, Measures, Rect, Settings, TextElement,
    WindowConfig,
};
use crate::decimal;
use crate::decimal::decimal;
use crate::editor::common::{EditingTarget, EditorPhase, PANEL_W, SCREEN_LIMIT};
use crate::editor::state;
use crate::editor::state::{
    Area, Boxes, Doc, Drag, Ed, EditorState, El, ElemExtra, ElemKind, Element, Entry, Ex, Panel,
    Prefs,
};
use crate::editor::ui;
use crate::editor::ui::resolve_filename;
use crate::num;
use crate::opacity::Opacity;
use crate::text::{append_text, chars_of, owned, string_of};

verus! {

// ===== Loading =====

/// The element of a capture region. Where the region has no size of its own, the
/// element has that of the source, so that the canvas shows its real extent.
pub open spec fn region_el(r: CaptureRegion, global: Opacity) -> El {
    let s = config::logical_size(r);
    El {
        source: Some(r.source),
        display: DisplayRect { width: s.0 as i32, height: s.1 as i32, ..r.display },
        extra: Ex {
            z_order: r.display.z_order,
            opacity: match r.display.opacity {
                Some(o) => o,
                None => global,
            },
            opacity_explicit: r.display.opacity is Some,
            ..state::new_capture_ex()
        },
    }
}

/// The data of a custom UI element.
pub open spec fn ui_ex(ui: CustomUiElement, global: Opacity) -> Ex {
    let x = match ui {
        CustomUiElement::Frame(e) => Ex {
            border_color: e.border_color@,
            border_width: e.border_width,
            corner_radius: e.corner_radius,
            z_order: e.z_order,
            ..state::new_ui_ex(ElemKind::Frame)
        },
        CustomUiElement::Background(e) => Ex {
            color: e.color@,
            corner_radius: e.corner_radius,
            z_order: e.z_order,
            ..state::new_ui_ex(ElemKind::Background)
        },
        CustomUiElement::Image(e) => Ex {
            png_path: e.path@,
            z_order: e.z_order,
            ..state::new_ui_ex(ElemKind::Png)
        },
        CustomUiElement::Text(e) => Ex {
            content: e.content@,
            font_size: e.font_size,
            text_color: e.text_color@,
            z_order: e.z_order,
            ..state::new_ui_ex(ElemKind::Text)
        },
    };
    Ex {
        opacity: match ui.own_opacity() {
            Some(o) => o,
            None => global,
        },
        opacity_explicit: ui.own_opacity() is Some,
        ..x
    }
}

/// The element of a custom UI element. `natural` is the size of its picture, or
/// what its text takes up.
pub open spec fn ui_el(ui: CustomUiElement, natural: (i32, i32), global: Opacity) -> El {
    let r = config::element_rect(ui, natural);
    El {
        source: None,
        display: DisplayRect {
            x: r.0,
            y: r.1,
            width: r.2,
            height: r.3,
            z_order: 0,
            opacity: ui.own_opacity(),
            rotate: ui.degrees(),
        },
        extra: ui_ex(ui, global),
    }
}

/// The elements of a config: its regions, then its custom UI elements.
pub open spec fn loaded(cfg: Config, m: Measures) -> Seq<El> {
    let n = cfg.capture_regions@.len() as int;
    Seq::new(
        (n + cfg.custom_ui@.len()) as nat,
        |i: int|
            if i < n {
                region_el(cfg.capture_regions@[i], cfg.global_opacity())
            } else {
                ui_el(
                    cfg.custom_ui@[i - n],
                    config::nth_measure(m.elements@, i - n).natural,
                    cfg.global_opacity(),
                )
            },
    )
}

/// The data of a custom UI element.
pub fn ui_elem_to_extra(ui: &CustomUiElement, global: Opacity) -> (r: ElemExtra)
    ensures
        r@ == ui_ex(*ui, global),
{
    let mut x: ElemExtra = match ui {
        CustomUiElement::Frame(e) => {
            let mut x: ElemExtra = ElemExtra::new_ui(ElemKind::Frame);
            x.border_color = e.border_color.clone();
            x.border_width = e.border_width;
            x.corner_radius = e.corner_radius;
            x.z_order = e.z_order;
            x
        },
        CustomUiElement::Background(e) => {
            let mut x: ElemExtra = ElemExtra::new_ui(ElemKind::Background);
            x.color = e.color.clone();
            x.corner_radius = e.corner_radius;
            x.z_order = e.z_order;
            x
        },
        CustomUiElement::Image(e) => {
            let mut x: ElemExtra = ElemExtra::new_ui(ElemKind::Png);
            x.png_path = e.path.clone();
            x.z_order = e.z_order;
            x
        },
        CustomUiElement::Text(e) => {
            let mut x: ElemExtra = ElemExtra::new_ui(ElemKind::Text);
            x.content = e.content.clone();
            x.font_size = e.font_size;
            x.text_color = e.text_color.clone();
            x.z_order = e.z_order;
            x
        },
    };
    match ui.opacity() {
        Some(o) => {
            x.opacity = o;
            x.opacity_explicit = true;
        },
        None => {
            x.opacity = global;
            x.opacity_explicit = false;
        },
    }
    x
}

/// The elements of a config.
pub fn load_elements(cfg: &Config, m: &Measures) -> (r: Vec<Element>)
    ensures
        state::els(r@) == loaded(*cfg, *m),
{
    let global: Opacity = cfg.effective_global_opacity();
    let mut r: Vec<Element> = Vec::new();
    let ghost all = loaded(*cfg, *m);
    assert(state::els(r@) =~= all.take(0));
    for i in 0..cfg.capture_regions.len()
        invariant
            all == loaded(*cfg, *m),
            global == cfg.global_opacity(),
            r@.len() == i,
            state::els(r@) == all.take(i as int),
    {
        let region: &CaptureRegion = &cfg.capture_regions[i];
        let mut extra: ElemExtra = ElemExtra::new_capture();
        extra.z_order = region.display.z_order;
        extra.opacity = cfg.effective_opacity(region.display.opacity);
        extra.opacity_explicit = region.display.opacity.is_some();
        let (w, h): (i32, i32) = cfg.region_logical_size(region);
        let mut display: DisplayRect = region.display;
        display.width = w;
        display.height = h;
        let e: Element = Element::new_capture(region.source, display, extra);
        let ghost before = r@;
        r.push(e);
        proof {
            assert(e@ == all[i as int]);
            assert(state::els(r@) =~= state::els(before).push(e@));
            assert(state::els(r@) =~= all.take(i + 1));
        }
    }
    let ghost n = cfg.capture_regions@.len() as int;
    for i in 0..cfg.custom_ui.len()
        invariant
            all == loaded(*cfg, *m),
            n == cfg.capture_regions@.len(),
            global == cfg.global_opacity(),
            r@.len() == n + i,
            state::els(r@) == all.take(n + i),
    {
        let u: &CustomUiElement = &cfg.custom_ui[i];
        let (x, y, width, height): (i32, i32, i32, i32) = cfg.element_footprint(
            u,
            measure_at(&m.elements, i).natural,
        );
        let display: DisplayRect = DisplayRect {
            x,
            y,
            width,
            height,
            z_order: 0,
            opacity: u.opacity(),
            rotate: u.rotate(),
        };
        let e: Element = Element::new_ui(display, ui_elem_to_extra(u, global));
        let ghost before = r@;
        r.push(e);
        proof {
            assert(e@ == all[n + i]);
            assert(state::els(r@) =~= state::els(before).push(e@));
            assert(state::els(r@) =~= all.take(n + i + 1));
        }
    }
    assert(all.take(all.len() as int) =~= all);
    r
}

/// The state in which the editor opens on a config: where there are elements it
/// begins with arranging.
pub open spec fn opened(
    e: Ed,
    cfg: Config,
    m: Measures,
    filename: Seq<char>,
    sw: i32,
    sh: i32,
    prefs: GlobalSettings,
) -> bool {
    &&& e.doc.elements == loaded(cfg, m)
    &&& e.phase == (if e.doc.elements.len() == 0 {
        EditorPhase::Selecting
    } else {
        EditorPhase::Arranging
    })
    &&& e.doc.selected.len() == 0 && e.doc.undo.len() == 0 && e.doc.pending is None
    &&& e.area.screen_w == sw && e.area.screen_h == sh
    &&& e.area.global_opacity == cfg.global_opacity()
    &&& match cfg.settings.window {
        Some(w) => e.area.overlay_x == w.x && e.area.overlay_y == w.y,
        None => e.area.overlay_x == 0 && e.area.overlay_y == 0,
    }
    &&& ({
        let r = config::reach(cfg.footprints(m));
        if r.0 == 0 && r.1 == 0 {
            e.area.overlay_w == 200 && e.area.overlay_h == 150
        } else {
            e.area.overlay_w == num::int_max(r.0, 1) && e.area.overlay_h == num::int_max(r.1, 1)
        }
    })
    &&& e.boxes == (Boxes {
        drag_start: None,
        drag_current: None,
        is_dragging: false,
        box_select_start: None,
        box_select_current: None,
        box_selecting: false,
    })
    &&& e.drag == (Drag {
        drag_index: None,
        drag_offset: (0, 0),
        resize_index: None,
        resize_start: None,
        resize_start_font: 0,
        multi_dragging: false,
        multi_drag_last: (0, 0),
        snapped_x: None,
        snapped_y: None,
    })
    &&& e.panel == (Panel {
        panel_x: (sw - PANEL_W - 12) as i32,
        panel_y: 12,
        drag_panel: false,
        panel_drag_offset: (0, 0),
        over_title: false,
        tooltip_show: false,
        hint_top: false,
        list_scroll: 0,
        wheel_acc: 0,
        scroll_drag: None,
    })
    &&& e.prefs == (Prefs {
        magnifier_on: true,
        grid_on: true,
        crosshair_on: true,
        xy_label_on: true,
        snap_on: true,
        snap_tian: false,
        snap_distance: prefs.snap_distance,
        snap_gap: prefs.snap_gap,
        nudge_step: prefs.nudge_step,
    })
    &&& e.entry.save_filename == filename && !e.entry.filename_focused
        && !e.entry.confirm_overwrite
    &&& e.entry.target == EditingTarget::Nothing && e.entry.text.len() == 0
    &&& e.mouse_x == 0 && e.mouse_y == 0
    &&& !e.close_requested && !e.saved && e.staged_prefs is None
}

/// Opens the editor on a config. `filename` is the name that it is saved to, or
/// nothing.
pub fn open_editor(
    cfg: &Config,
    m: &Measures,
    filename: &str,
    sw: i32,
    sh: i32,
    prefs: &GlobalSettings,
) -> (r: EditorState)
    requires
        config::boxes_fit(cfg.footprints(*m)),
        0 <= sw <= SCREEN_LIMIT,
        0 <= sh <= SCREEN_LIMIT,
    ensures
        opened(r@, *cfg, *m, filename@, sw, sh, *prefs),
        r@.wf(),
        r@.in_range() == (r@.doc.elements.len() <= i32::MAX),
{
    let elements: Vec<Element> = load_elements(cfg, m);
    let (overlay_x, overlay_y, overlay_w, overlay_h): (i32, i32, i32, i32) = cfg.overlay_bounds(m);
    let phase: EditorPhase = if elements.len() == 0 {
        EditorPhase::Selecting
    } else {
        EditorPhase::Arranging
    };
    proof {
        reveal_strlit("");
    }
    EditorState {
        phase,
        area: Area {
            screen_w: sw,
            screen_h: sh,
            overlay_x,
            overlay_y,
            overlay_w,
            overlay_h,
            global_opacity: cfg.effective_global_opacity(),
        },
        doc: Doc {
            elements,
            selected_indices: Vec::new(),
            undo_stack: Vec::new(),
            undo_pending: None,
        },
        boxes: Boxes {
            drag_start: None,
            drag_current: None,
            is_dragging: false,
            box_select_start: None,
            box_select_current: None,
            box_selecting: false,
        },
        drag: Drag {
            drag_index: None,
            drag_offset: (0, 0),
            resize_index: None,
            resize_start: None,
            resize_start_font: 0,
            multi_dragging: false,
            multi_drag_last: (0, 0),
            snapped_x: None,
            snapped_y: None,
        },
        panel: Panel {
            panel_x: sw - PANEL_W - 12,
            panel_y: 12,
            drag_panel: false,
            panel_drag_offset: (0, 0),
            over_title: false,
            tooltip_show: false,
            hint_top: false,
            list_scroll: 0,
            wheel_acc: 0,
            scroll_drag: None,
        },
        prefs: Prefs {
            magnifier_on: true,
            grid_on: true,
            crosshair_on: true,
            xy_label_on: true,
            snap_on: true,
            snap_tian: false,
            snap_distance: prefs.snap_distance,
            snap_gap: prefs.snap_gap,
            nudge_step: prefs.nudge_step,
        },
        entry: Entry {
            filename_focused: false,
            save_filename: owned(filename),
            confirm_overwrite: false,
            editing_target: EditingTarget::Nothing,
            editing_text: owned(""),
        },
        mouse_x: 0,
        mouse_y: 0,
        close_requested: false,
        saved: false,
        staged_prefs: None,
    }
}

// ===== Saving =====

/// The opacity that is saved: only one that was set by the user.
pub open spec fn saved_opacity(x: Ex) -> Option<Opacity> {
    if x.opacity_explicit {
        Some(x.opacity)
    } else {
        None
    }
}

/// The display rectangle that is saved of a capture element. A size that is that
/// of the source is saved as zero.
pub open spec fn saved_display(el: El) -> DisplayRect {
    let src = state::source_of(el);
    let same = el.display.width == config::signed(src.width) && el.display.height
        == config::signed(src.height);
    DisplayRect {
        opacity: saved_opacity(el.extra),
        z_order: el.extra.z_order,
        width: if same {
            0
        } else {
            el.display.width
        },
        height: if same {
            0
        } else {
            el.display.height
        },
        ..el.display
    }
}

/// Whether a region is what is saved of a capture element, the `n`th.
pub open spec fn is_region_of(r: CaptureRegion, el: El, n: int) -> bool {
    &&& r.id@ == "region_"@ + decimal::dec_int(n)
    &&& r.source == state::source_of(el)
    &&& r.display == saved_display(el)
    &&& r.z_order is None
}

/// Whether a custom UI element is what is saved of an element. The size of a text
/// is not saved.
pub open spec fn is_ui_of(u: CustomUiElement, el: El) -> bool {
    let x = el.extra;
    let d = el.display;
    let o = saved_opacity(x);
    match u {
        CustomUiElement::Frame(e) => {
            &&& x.kind == ElemKind::Frame
            &&& (e.x, e.y, e.width, e.height) == (d.x, d.y, d.width, d.height)
            &&& (e.opacity, e.z_order, e.rotate) == (o, x.z_order, d.rotate)
            &&& e.border_color@ == x.border_color
            &&& e.border_width == x.border_width
            &&& e.corner_radius == x.corner_radius
        },
        CustomUiElement::Background(e) => {
            &&& x.kind == ElemKind::Background
            &&& (e.x, e.y, e.width, e.height) == (d.x, d.y, d.width, d.height)
            &&& (e.opacity, e.z_order, e.rotate) == (o, x.z_order, d.rotate)
            &&& e.color@ == x.color
            &&& e.corner_radius == x.corner_radius
        },
        CustomUiElement::Image(e) => {
            &&& x.kind == ElemKind::Png
            &&& (e.x, e.y, e.width, e.height) == (d.x, d.y, d.width, d.height)
            &&& (e.opacity, e.z_order, e.rotate) == (o, x.z_order, d.rotate)
            &&& e.path@ == x.png_path
        },
        CustomUiElement::Text(e) => {
            &&& x.kind == ElemKind::Text
            &&& (e.x, e.y) == (d.x, d.y)
            &&& (e.opacity, e.z_order, e.rotate) == (o, x.z_order, d.rotate)
            &&& e.content@ == x.content
            &&& e.font_size == x.font_size
            &&& e.text_color@ == x.text_color
        },
    }
}

/// The capture elements, or the others, in their order.
pub open spec fn of_kind(s: Seq<El>, captures: bool) -> Seq<El>
    decreases s.len(),
{
    if s.len() == 0 {
        Seq::empty()
    } else {
        let rest = of_kind(s.drop_last(), captures);
        if (s.last().extra.kind == ElemKind::Capture) == captures {
            rest.push(s.last())
        } else {
            rest
        }
    }
}

/// Whether regions are what is saved of capture elements.
pub open spec fn are_regions_of(v: Seq<CaptureRegion>, s: Seq<El>) -> bool {
    v.len() == s.len() && forall|i: int|
        0 <= i < v.len() ==> is_region_of(#[trigger] v[i], s[i], i + 1)
}

/// Whether custom UI elements are what is saved of elements.
pub open spec fn are_uis_of(v: Seq<CustomUiElement>, s: Seq<El>) -> bool {
    v.len() == s.len() && forall|i: int| 0 <= i < v.len() ==> is_ui_of(#[trigger] v[i], s[i])
}

/// Whether a config is what is saved of a state.
pub open spec fn is_saved_of(cfg: Config, e: Ed, before: Config) -> bool {
    &&& cfg.settings.global_opacity == before.settings.global_opacity
    &&& cfg.settings.window == Some(
        WindowConfig {
            x: e.area.overlay_x,
            y: e.area.overlay_y,
            width: e.area.overlay_w,
            height: e.area.overlay_h,
        },
    )
    &&& are_regions_of(cfg.capture_regions@, of_kind(e.doc.elements, true))
    &&& are_uis_of(cfg.custom_ui@, of_kind(e.doc.elements, false))
}

fn own_opacity(x: &ElemExtra) -> (r: Option<Opacity>)
    ensures
        r == saved_opacity(x@),
{
    if x.opacity_explicit {
        Some(x.opacity)
    } else {
        None
    }
}

/// What is saved of an element that is not a capture element.
pub fn extra_to_ui_elem(e: &Element) -> (r: CustomUiElement)
    requires
        e.extra.kind != ElemKind::Capture,
    ensures
        is_ui_of(r, e@),
{
    let x: &ElemExtra = &e.extra;
    let d: DisplayRect = e.display;
    let opacity: Option<Opacity> = own_opacity(x);
    match x.kind {
        ElemKind::Frame => CustomUiElement::Frame(
            FrameElement {
                x: d.x,
                y: d.y,
                width: d.width,
                height: d.height,
                opacity,
                z_order: x.z_order,
                border_color: x.border_color.clone(),
                border_width: x.border_width,
                corner_radius: x.corner_radius,
                rotate: d.rotate,
            },
        ),
        ElemKind::Background => CustomUiElement::Background(
            BackgroundElement {
                x: d.x,
                y: d.y,
                width: d.width,
                height: d.height,
                opacity,
                z_order: x.z_order,
                color: x.color.clone(),
                corner_radius: x.corner_radius,
                rotate: d.rotate,
            },
        ),
        ElemKind::Png => CustomUiElement::Image(
            ImageElement {
                path: x.png_path.clone(),
                x: d.x,
                y: d.y,
                width: d.width,
                height: d.height,
                opacity,
                z_order: x.z_order,
                rotate: d.rotate,
            },
        ),
        _ => CustomUiElement::Text(
            TextElement {
                content: x.content.clone(),
                x: d.x,
                y: d.y,
                font_size: x.font_size,
                text_color: x.text_color.clone(),
                opacity,
                z_order: x.z_order,
                rotate: d.rotate,
            },
        ),
    }
}

fn region_id(n: usize) -> (r: String)
    requires
        n <= i64::MAX,
    ensures
        r@ == "region_"@ + decimal::dec_int(n as int),
{
    let mut v: Vec<char> = chars_of("region_");
    append_text(&mut v, decimal(n as i64).as_str());
    string_of(&v)
}

fn to_region(e: &Element, n: usize) -> (r: CaptureRegion)
    requires
        n <= i64::MAX,
    ensures
        is_region_of(r, e@, n as int),
{
    let source: Rect = e.source_rect();
    let mut display: DisplayRect = e.display;
    display.opacity = own_opacity(&e.extra);
    display.z_order = e.extra.z_order;
    if e.display.width == to_signed(source.width) && e.display.height == to_signed(source.height) {
        display.width = 0;
        display.height = 0;
    }
    CaptureRegion { id: region_id(n), source, display, z_order: None }
}

/// What is saved of the editor, and the name of the file: nothing unless the user
/// saved and there are elements. `before` is the config that was opened.
pub fn saved_config(st: &EditorState, before: &Config) -> (r: Option<(Config, String)>)
    requires
        st@.doc.elements.len() <= i32::MAX,
    ensures
        match r {
            Some((cfg, name)) => {
                &&& st@.saved && st@.doc.elements.len() > 0
                &&& is_saved_of(cfg, st@, *before)
                &&& name@ == ui::resolved(st@.entry.save_filename)
            },
            None => !(st@.saved && st@.doc.elements.len() > 0),
        },
{
    if !st.saved || st.doc.elements.len() == 0 {
        return None;
    }
    let mut capture_regions: Vec<CaptureRegion> = Vec::new();
    let mut custom_ui: Vec<CustomUiElement> = Vec::new();
    let ghost all = st@.doc.elements;
    for i in 0..st.doc.elements.len()
        invariant
            all == st@.doc.elements,
            all.len() <= i32::MAX,
            capture_regions@.len() <= i,
            are_regions_of(capture_regions@, of_kind(all.take(i as int), true)),
            are_uis_of(custom_ui@, of_kind(all.take(i as int), false)),
    {
        let e: &Element = &st.doc.elements[i];
        proof {
            assert(e@ == all[i as int]);
            assert(all.take(i + 1).drop_last() =~= all.take(i as int));
            assert(all.take(i + 1).last() == e@);
        }
        if e.extra.kind == ElemKind::Capture {
            let n: usize = capture_regions.len() + 1;
            capture_regions.push(to_region(e, n));
        } else {
            custom_ui.push(extra_to_ui_elem(e));
        }
    }
    assert(all.take(all.len() as int) =~= all);
    let window: WindowConfig = WindowConfig {
        x: st.area.overlay_x,
        y: st.area.overlay_y,
        width: st.area.overlay_w,
        height: st.area.overlay_h,
    };
    let settings: Settings = Settings {
        global_opacity: before.settings.global_opacity,
        window: Some(window),
    };
    let cfg: Config = Config { settings, capture_regions, custom_ui };
    Some((cfg, resolve_filename(st.entry.save_filename.as_str())))
}

// ===== Laws =====

proof fn lemma_of_kind_split(a: Seq<El>, b: Seq<El>, captures: bool)
    requires
        forall|i: int|
            0 <= i < a.len() ==> ((#[trigger] a[i]).extra.kind == ElemKind::Capture) == captures,
        forall|i: int|
            0 <= i < b.len() ==> ((#[trigger] b[i]).extra.kind == ElemKind::Capture) != captures,
    ensures
        of_kind(a + b, captures) == a,
    decreases a.len() + b.len(),
{
    let s = a + b;
    if b.len() > 0 {
        assert(s.last() == b.last());
        assert(s.drop_last() =~= a + b.drop_last());
        lemma_of_kind_split(a, b.drop_last(), captures);
    } else if a.len() > 0 {
        assert(s =~= a);
        assert(s.drop_last() =~= a.drop_last() + b);
        lemma_of_kind_split(a.drop_last(), b, captures);
        assert(a.drop_last().push(a.last()) =~= a);
    } else {
        assert(s =~= Seq::empty());
        assert(a =~= Seq::empty());
    }
}

proof fn lemma_of_kind_none(a: Seq<El>, captures: bool)
    requires
        forall|i: int|
            0 <= i < a.len() ==> ((#[trigger] a[i]).extra.kind == ElemKind::Capture) != captures,
    ensures
        of_kind(a, captures).len() == 0,
    decreases a.len(),
{
    if a.len() > 0 {
        lemma_of_kind_none(a.drop_last(), captures);
    }
}

proof fn lemma_of_kind_rest(a: Seq<El>, b: Seq<El>, captures: bool)
    requires
        forall|i: int|
            0 <= i < a.len() ==> ((#[trigger] a[i]).extra.kind == ElemKind::Capture) != captures,
        forall|i: int|
            0 <= i < b.len() ==> ((#[trigger] b[i]).extra.kind == ElemKind::Capture) == captures,
    ensures
        of_kind(a + b, captures) == b,
    decreases b.len(),
{
    let s = a + b;
    if b.len() > 0 {
        assert(s.last() == b.last());
        assert(s.drop_last() =~= a + b.drop_last());
        lemma_of_kind_rest(a, b.drop_last(), captures);
        assert(b.drop_last().push(b.last()) =~= b);
    } else {
        assert(s =~= a);
        lemma_of_kind_none(a, captures);
        assert(of_kind(s, captures) =~= b);
    }
}

/// The size that a region has in a file after it was opened and saved: none where
/// it has none, or that of its source.
pub open spec fn kept_size(r: CaptureRegion) -> (i32, i32) {
    let s = config::logical_size(r);
    if s == (config::signed(r.source.width), config::signed(r.source.height)) {
        (0, 0)
    } else {
        (r.display.width, r.display.height)
    }
}

/// Opening a config and saving it without changing anything keeps its regions:
/// what they capture, their places, layers, opacities and rotations, and their
/// sizes, but that a size equal to that of the source is not written.
pub proof fn law_saving_keeps_regions(cfg: Config, m: Measures, e: Ed, out: Config, i: int)
    requires
        e.doc.elements == loaded(cfg, m),
        is_saved_of(out, e, cfg),
        0 <= i < cfg.capture_regions@.len(),
    ensures
        out.capture_regions@.len() == cfg.capture_regions@.len(),
        out.capture_regions@[i].source == cfg.capture_regions@[i].source,
        out.capture_regions@[i].display == (DisplayRect {
            width: kept_size(cfg.capture_regions@[i]).0,
            height: kept_size(cfg.capture_regions@[i]).1,
            ..cfg.capture_regions@[i].display
        }),
{
    let all = loaded(cfg, m);
    let n = cfg.capture_regions@.len() as int;
    let a = all.take(n);
    let b = all.skip(n);
    assert(all =~= a + b);
    lemma_of_kind_split(a, b, true);
    assert(is_region_of(out.capture_regions@[i], a[i], i + 1));
    assert(a[i] == region_el(cfg.capture_regions@[i], cfg.global_opacity()));
}

/// Opening a config and saving it without changing anything keeps its custom UI
/// elements, but that an image is written with the size that it is shown in.
pub proof fn law_saving_keeps_elements(cfg: Config, m: Measures, e: Ed, out: Config, i: int)
    requires
        e.doc.elements == loaded(cfg, m),
        is_saved_of(out, e, cfg),
        0 <= i < cfg.custom_ui@.len(),
    ensures
        out.custom_ui@.len() == cfg.custom_ui@.len(),
        match (cfg.custom_ui@[i], out.custom_ui@[i]) {
            (CustomUiElement::Frame(a), CustomUiElement::Frame(b)) => {
                &&& b == (FrameElement { border_color: b.border_color, ..a })
                &&& b.border_color@ == a.border_color@
            },
            (CustomUiElement::Background(a), CustomUiElement::Background(b)) => {
                &&& b == (BackgroundElement { color: b.color, ..a })
                &&& b.color@ == a.color@
            },
            (CustomUiElement::Image(a), CustomUiElement::Image(b)) => {
                let r = config::element_rect(
                    cfg.custom_ui@[i],
                    config::nth_measure(m.elements@, i).natural,
                );
                &&& b == (ImageElement { path: b.path, width: r.2, height: r.3, ..a })
                &&& b.path@ == a.path@
            },
            (CustomUiElement::Text(a), CustomUiElement::Text(b)) => {
                &&& b == (TextElement { content: b.content, text_color: b.text_color, ..a })
                &&& b.content@ == a.content@
                &&& b.text_color@ == a.text_color@
            },
            _ => false,
        },
{
    let all = loaded(cfg, m);
    let n = cfg.capture_regions@.len() as int;
    let a = all.take(n);
    let b = all.skip(n);
    assert(all =~= a + b);
    lemma_of_kind_rest(a, b, false);
    assert(is_ui_of(out.custom_ui@[i], b[i]));
    assert(b[i] == all[n + i]);
}

/// An opened region is an element that captures what the region does, lies where
/// it is displayed, on its layer and with its rotation, and shows its own opacity
/// or the global one. A region without a size of its own has that of its source.
pub proof fn law_opened_region(r: CaptureRegion, global: Opacity)
    requires
        r.source.width < 0x8000_0000,
        r.source.height < 0x8000_0000,
    ensures
        ({
            let e = region_el(r, global);
            let own = r.display.width > 0 && r.display.height > 0;
            &&& e.source == Some(r.source)
            &&& e.extra.kind == ElemKind::Capture
            &&& e.extra.z_order == r.display.z_order
            &&& e.display == (DisplayRect {
                width: e.display.width,
                height: e.display.height,
                ..r.display
            })
            &&& own ==> e.display.width == r.display.width && e.display.height == r.display.height
            &&& !own ==> e.display.width == r.source.width && e.display.height == r.source.height
            &&& e.extra.opacity_explicit == r.display.opacity is Some
            &&& match r.display.opacity {
                Some(o) => e.extra.opacity == o,
                None => e.extra.opacity == global,
            }
        }),
{
}

/// An opened element has the kind, place, rotation, layer and opacity of the one
/// in the file, and what it says of its looks.
pub proof fn law_opened_element(ui: CustomUiElement, natural: (i32, i32), global: Opacity)
    ensures
        ({
            let e = ui_el(ui, natural, global);
            let r = config::element_rect(ui, natural);
            &&& e.source is None
            &&& (e.display.x, e.display.y, e.display.width, e.display.height) == r
            &&& e.display.rotate == ui.degrees()
            &&& e.extra.opacity_explicit == ui.own_opacity() is Some
            &&& match ui.own_opacity() {
                Some(o) => e.extra.opacity == o,
                None => e.extra.opacity == global,
            }
            &&& match ui {
                CustomUiElement::Frame(f) => e.extra.kind == ElemKind::Frame && e.extra.border_color
                    == f.border_color@ && e.extra.border_width == f.border_width
                    && e.extra.corner_radius == f.corner_radius && e.extra.z_order == f.z_order,
                CustomUiElement::Background(b) => e.extra.kind == ElemKind::Background
                    && e.extra.color == b.color@ && e.extra.corner_radius == b.corner_radius
                    && e.extra.z_order == b.z_order,
                CustomUiElement::Image(i) => e.extra.kind == ElemKind::Png && e.extra.png_path
                    == i.path@ && e.extra.z_order == i.z_order,
                CustomUiElement::Text(t) => e.extra.kind == ElemKind::Text && e.extra.content
                    == t.content@ && e.extra.font_size == t.font_size && e.extra.text_color
                    == t.text_color@ && e.extra.z_order == t.z_order,
            }
        }),
{
}

/// A config opens with its regions first and its elements behind them, each in
/// its order.
pub proof fn law_opened_in_order(cfg: Config, m: Measures, i: int)
    ensures
        loaded(cfg, m).len() == cfg.capture_regions@.len() + cfg.custom_ui@.len(),
        0 <= i < cfg.capture_regions@.len() ==> loaded(cfg, m)[i] == region_el(
            cfg.capture_regions@[i],
            cfg.global_opacity(),
        ),
        0 <= i < cfg.custom_ui@.len() ==> loaded(cfg, m)[cfg.capture_regions@.len() + i] == ui_el(
            cfg.custom_ui@[i],
            config::nth_measure(m.elements@, i).natural,
            cfg.global_opacity(),
        ),
{
}

/// What is saved of a capture element is its source, its place, layer and
/// rotation, its opacity where it was set, and its size unless that is the size of
/// the source.
pub proof fn law_saved_region(r: CaptureRegion, el: El, n: int)
    requires
        is_region_of(r, el, n),
        el.source is Some,
        el.source.unwrap().width < 0x8000_0000,
        el.source.unwrap().height < 0x8000_0000,
    ensures
        ({
            let s = el.source.unwrap();
            let same = el.display.width == s.width && el.display.height == s.height;
            &&& r.id@ == "region_"@ + decimal::dec_int(n)
            &&& r.source == s
            &&& r.display.x == el.display.x && r.display.y == el.display.y
            &&& r.display.rotate == el.display.rotate
            &&& r.display.z_order == el.extra.z_order
            &&& same ==> r.display.width == 0 && r.display.height == 0
            &&& !same ==> r.display.width == el.display.width && r.display.height
                == el.display.height
            &&& el.extra.opacity_explicit ==> r.display.opacity == Some(el.extra.opacity)
            &&& !el.extra.opacity_explicit ==> r.display.opacity is None
            &&& r.z_order is None
        }),
{
}

/// What is saved of any other element is of its kind, with its place, layer and
/// rotation, its size where it is no text, its opacity where it was set, and its
/// looks.
pub proof fn law_saved_element(u: CustomUiElement, el: El)
    requires
        is_ui_of(u, el),
    ensures
        u.rect().0 == el.display.x,
        u.rect().1 == el.display.y,
        el.extra.kind != ElemKind::Text ==> u.rect().2 == el.display.width && u.rect().3
            == el.display.height,
        u.degrees() == el.display.rotate,
        el.extra.opacity_explicit ==> u.own_opacity() == Some(el.extra.opacity),
        !el.extra.opacity_explicit ==> u.own_opacity() is None,
        match u {
            CustomUiElement::Frame(f) => el.extra.kind == ElemKind::Frame && f.z_order
                == el.extra.z_order && f.border_color@ == el.extra.border_color && f.border_width
                == el.extra.border_width && f.corner_radius == el.extra.corner_radius,
            CustomUiElement::Background(b) => el.extra.kind == ElemKind::Background && b.z_order
                == el.extra.z_order && b.color@ == el.extra.color && b.corner_radius
                == el.extra.corner_radius,
            CustomUiElement::Image(i) => el.extra.kind == ElemKind::Png && i.z_order
                == el.extra.z_order && i.path@ == el.extra.png_path,
            CustomUiElement::Text(t) => el.extra.kind == ElemKind::Text && t.z_order
                == el.extra.z_order && t.content@ == el.extra.content && t.font_size
                == el.extra.font_size && t.text_color@ == el.extra.text_color,
        },
{
}

/// The capture elements and the others are told apart one by one, and keep their
/// order.
pub proof fn law_kinds_are_told_apart(s: Seq<El>, e: El, captures: bool)
    ensures
        of_kind(Seq::empty(), captures).len() == 0,
        (e.extra.kind == ElemKind::Capture) == captures ==> of_kind(s.push(e), captures) == of_kind(
            s,
            captures,
        ).push(e),
        (e.extra.kind == ElemKind::Capture) != captures ==> of_kind(s.push(e), captures) == of_kind(
            s,
            captures,
        ),
{
    assert(s.push(e).drop_last() =~= s);
}

/// The editor opens on arranging where there is something to arrange, with nothing
/// selected and nothing to undo, the panel at the right, the overlay where the
/// window is, and every helper on.
pub proof fn law_editor_opens(
    e: Ed,
    cfg: Config,
    m: Measures,
    filename: Seq<char>,
    sw: i32,
    sh: i32,
    prefs: GlobalSettings,
)
    requires
        opened(e, cfg, m, filename, sw, sh, prefs),
        sw >= 472,
    ensures
        (e.phase == EditorPhase::Selecting) == (cfg.capture_regions@.len() == 0
            && cfg.custom_ui@.len() == 0),
        e.doc.elements == loaded(cfg, m),
        e.doc.selected.len() == 0 && e.doc.undo.len() == 0,
        e.panel.panel_x + 460 + 12 == sw && e.panel.panel_y == 12,
        match cfg.settings.window {
            Some(w) => e.area.overlay_x == w.x && e.area.overlay_y == w.y,
            None => e.area.overlay_x == 0 && e.area.overlay_y == 0,
        },
        e.prefs.magnifier_on && e.prefs.grid_on && e.prefs.crosshair_on && e.prefs.xy_label_on
            && e.prefs.snap_on && !e.prefs.snap_tian,
        e.prefs.snap_distance == prefs.snap_distance && e.prefs.snap_gap == prefs.snap_gap
            && e.prefs.nudge_step == prefs.nudge_step,
        e.entry.save_filename == filename,
        !e.saved && !e.close_requested,
        e.drag.snapped_x is None && e.drag.snapped_y is None && e.drag.drag_index is None,
{
}

} // verus!
