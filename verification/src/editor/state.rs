//! State of the editor.
//!
//! Capture regions and custom UI elements live in one list and share their
//! geometry, so that dragging, resizing and selecting work on both.

use vstd::prelude::*;

use crate::config::{DisplayRect, Rect};
use crate::editor::common;
use crate::editor::common::{EditingTarget, EditorPhase, PANEL_W, SCREEN_LIMIT};
use crate::i18n::{t, Texts};
use crate::opacity;
use crate::opacity::Opacity;
use crate::text::same_text;

verus! {

/// Most steps that can be undone.
pub const UNDO_LIMIT: usize = 50;

/// Element kinds.
#[derive(Debug, Clone, Copy, PartialEq, Eq, Structural)]
pub enum ElemKind {
    /// Screen capture region
    Capture,
    /// Outlined rounded rectangle
    Frame,
    /// Filled rounded rectangle
    Background,
    /// PNG picture
    Png,
    Text,
}

/// The key of the badge that the list shows for a kind.
pub open spec fn badge_key(k: ElemKind) -> Seq<char> {
    match k {
        ElemKind::Capture => "badge_capture"@,
        ElemKind::Frame => "badge_frame"@,
        ElemKind::Background => "badge_bg"@,
        ElemKind::Png => "badge_png"@,
        ElemKind::Text => "badge_text"@,
    }
}

impl ElemKind {
    /// The badge that the list shows.
    pub fn badge<'a>(&self, texts: &'a Texts) -> (r: &'a str)
        ensures
            r@ == texts.text(badge_key(*self)),
    {
        match self {
            ElemKind::Capture => t(texts, "badge_capture"),
            ElemKind::Frame => t(texts, "badge_frame"),
            ElemKind::Background => t(texts, "badge_bg"),
            ElemKind::Png => t(texts, "badge_png"),
            ElemKind::Text => t(texts, "badge_text"),
        }
    }
}

/// The data of an element besides its geometry.
#[derive(Debug)]
pub struct ElemExtra {
    pub kind: ElemKind,
    /// Background: fill color
    pub color: String,
    /// Text: content
    pub content: String,
    /// Text: font size
    pub font_size: u32,
    /// Text: text color
    pub text_color: String,
    /// Picture: file name
    pub png_path: String,
    /// Frame: border color
    pub border_color: String,
    /// Frame: border width
    pub border_width: u32,
    /// Frame and background: corner radius
    pub corner_radius: u32,
    /// Opacity that is shown and edited
    pub opacity: Opacity,
    /// Whether the opacity was set by the user; else it is inherited and not
    /// saved
    pub opacity_explicit: bool,
    /// Render order
    pub z_order: i32,
}

/// One element.
#[derive(Debug)]
pub struct Element {
    /// Source rectangle (capture elements only)
    pub source: Option<Rect>,
    /// Display geometry (overlay coordinates)
    pub display: DisplayRect,
    pub extra: ElemExtra,
}

/// The data of an element.
pub struct Ex {
    pub kind: ElemKind,
    pub color: Seq<char>,
    pub content: Seq<char>,
    pub font_size: u32,
    pub text_color: Seq<char>,
    pub png_path: Seq<char>,
    pub border_color: Seq<char>,
    pub border_width: u32,
    pub corner_radius: u32,
    pub opacity: Opacity,
    pub opacity_explicit: bool,
    pub z_order: i32,
}

/// One element.
pub struct El {
    pub source: Option<Rect>,
    pub display: DisplayRect,
    pub extra: Ex,
}

impl View for ElemExtra {
    type V = Ex;

    open spec fn view(&self) -> Ex {
        Ex {
            kind: self.kind,
            color: self.color@,
            content: self.content@,
            font_size: self.font_size,
            text_color: self.text_color@,
            png_path: self.png_path@,
            border_color: self.border_color@,
            border_width: self.border_width,
            corner_radius: self.corner_radius,
            opacity: self.opacity,
            opacity_explicit: self.opacity_explicit,
            z_order: self.z_order,
        }
    }
}

impl View for Element {
    type V = El;

    open spec fn view(&self) -> El {
        El { source: self.source, display: self.display, extra: self.extra@ }
    }
}

/// The elements of a list.
pub open spec fn els(v: Seq<Element>) -> Seq<El> {
    v.map_values(|e: Element| e@)
}

impl Clone for ElemExtra {
    fn clone(&self) -> (r: Self)
        ensures
            r@ == self@,
    {
        ElemExtra {
            kind: self.kind,
            color: self.color.clone(),
            content: self.content.clone(),
            font_size: self.font_size,
            text_color: self.text_color.clone(),
            png_path: self.png_path.clone(),
            border_color: self.border_color.clone(),
            border_width: self.border_width,
            corner_radius: self.corner_radius,
            opacity: self.opacity,
            opacity_explicit: self.opacity_explicit,
            z_order: self.z_order,
        }
    }
}

impl Clone for Element {
    fn clone(&self) -> (r: Self)
        ensures
            r@ == self@,
    {
        Element { source: self.source, display: self.display, extra: self.extra.clone() }
    }
}

/// The data of a new capture element.
pub open spec fn new_capture_ex() -> Ex {
    Ex {
        kind: ElemKind::Capture,
        color: "#D3CFC9"@,
        content: ""@,
        font_size: 14,
        text_color: "#FFFFFF"@,
        png_path: ""@,
        border_color: "#FFDC3C"@,
        border_width: 2,
        corner_radius: 4,
        opacity: Opacity::spec_one(),
        opacity_explicit: false,
        z_order: 0,
    }
}

/// The data of a new UI element: ten layers up, and for a text no fill color and
/// black text.
pub open spec fn new_ui_ex(kind: ElemKind) -> Ex {
    let e = Ex { kind, z_order: 10, ..new_capture_ex() };
    if kind == ElemKind::Text {
        Ex { color: ""@, text_color: "#000000"@, ..e }
    } else {
        e
    }
}

impl ElemExtra {
    /// The data of a new capture element.
    pub fn new_capture() -> (r: Self)
        ensures
            r@ == new_capture_ex(),
    {
        ElemExtra {
            kind: ElemKind::Capture,
            content: "".to_owned(),
            font_size: 14,
            text_color: "#FFFFFF".to_owned(),
            color: "#D3CFC9".to_owned(),
            png_path: "".to_owned(),
            border_color: "#FFDC3C".to_owned(),
            border_width: 2,
            corner_radius: 4,
            opacity: Opacity::one(),
            opacity_explicit: false,
            z_order: 0,
        }
    }

    /// The data of a new UI element.
    pub fn new_ui(kind: ElemKind) -> (r: Self)
        ensures
            r@ == new_ui_ex(kind),
    {
        let mut e: ElemExtra = ElemExtra::new_capture();
        e.kind = kind;
        e.z_order = 10;
        if kind == ElemKind::Text {
            e.color = "".to_owned();
            e.text_color = "#000000".to_owned();
        }
        e
    }
}

impl Element {
    /// A capture element.
    pub fn new_capture(source: Rect, display: DisplayRect, extra: ElemExtra) -> (r: Self)
        ensures
            r == (Element { source: Some(source), display, extra }),
    {
        Element { source: Some(source), display, extra }
    }

    /// A UI element, without a source rectangle.
    pub fn new_ui(display: DisplayRect, extra: ElemExtra) -> (r: Self)
        ensures
            r == (Element { source: None, display, extra }),
    {
        Element { source: None, display, extra }
    }

    /// The source rectangle; an empty one where there is none.
    pub fn source_rect(&self) -> (r: Rect)
        ensures
            r == source_of(self@),
    {
        match self.source {
            Some(s) => s,
            None => Rect { x: 0, y: 0, width: 0, height: 0 },
        }
    }
}

/// The source rectangle; an empty one where there is none.
pub open spec fn source_of(e: El) -> Rect {
    match e.source {
        Some(s) => s,
        None => Rect { x: 0, y: 0, width: 0, height: 0 },
    }
}

// ===== Equality =====

/// Whether two elements are equal: all fields are, opacities as numbers.
pub open spec fn same_el(a: El, b: El) -> bool {
    &&& a.source == b.source
    &&& same_display(a.display, b.display)
    &&& a.extra == (Ex { opacity: a.extra.opacity, ..b.extra })
    &&& opacity::same_number(a.extra.opacity.bits, b.extra.opacity.bits)
}

/// Whether two display rectangles are equal, opacities as numbers.
pub open spec fn same_display(a: DisplayRect, b: DisplayRect) -> bool {
    &&& a == (DisplayRect { opacity: a.opacity, ..b })
    &&& opacity::same_option(a.opacity, b.opacity)
}

/// Whether two lists hold equal elements in the same order.
pub open spec fn same_els(a: Seq<El>, b: Seq<El>) -> bool {
    a.len() == b.len() && forall|i: int| 0 <= i < a.len() ==> same_el(#[trigger] a[i], b[i])
}

fn same_source(a: &Option<Rect>, b: &Option<Rect>) -> (r: bool)
    ensures
        r == (*a == *b),
{
    match (a, b) {
        (Some(x), Some(y)) => *x == *y,
        (None, None) => true,
        _ => false,
    }
}

fn same_element(a: &Element, b: &Element) -> (r: bool)
    ensures
        r == same_el(a@, b@),
{
    let x: &ElemExtra = &a.extra;
    let y: &ElemExtra = &b.extra;
    same_source(&a.source, &b.source) && a.display == b.display && x.kind == y.kind && same_text(
        x.color.as_str(),
        y.color.as_str(),
    ) && same_text(x.content.as_str(), y.content.as_str()) && x.font_size == y.font_size
        && same_text(x.text_color.as_str(), y.text_color.as_str()) && same_text(
        x.png_path.as_str(),
        y.png_path.as_str(),
    ) && same_text(x.border_color.as_str(), y.border_color.as_str()) && x.border_width
        == y.border_width && x.corner_radius == y.corner_radius && x.opacity == y.opacity
        && x.opacity_explicit == y.opacity_explicit && x.z_order == y.z_order
}

/// Whether two lists hold equal elements in the same order.
pub fn same_elements(a: &Vec<Element>, b: &Vec<Element>) -> (r: bool)
    ensures
        r == same_els(els(a@), els(b@)),
{
    if a.len() != b.len() {
        return false;
    }
    for i in 0..a.len()
        invariant
            a@.len() == b@.len(),
            forall|j: int| 0 <= j < i ==> same_el(#[trigger] els(a@)[j], els(b@)[j]),
    {
        if !same_element(&a[i], &b[i]) {
            assert(!same_el(els(a@)[i as int], els(b@)[i as int]));
            return false;
        }
    }
    true
}

/// A copy of a list of elements.
pub fn copy_elements(v: &Vec<Element>) -> (r: Vec<Element>)
    ensures
        els(r@) == els(v@),
        r@.len() == v@.len(),
{
    let mut r: Vec<Element> = Vec::new();
    assert(els(r@) =~= els(v@).take(0));
    for i in 0..v.len()
        invariant
            els(r@) == els(v@).take(i as int),
            r@.len() == i,
    {
        let e: Element = v[i].clone();
        let ghost before = r@;
        r.push(e);
        assert(els(r@) =~= els(before).push(e@));
        assert(els(r@) =~= els(v@).take(i + 1));
    }
    assert(els(v@).take(v@.len() as int) =~= els(v@));
    r
}

// ===== State =====

/// The screen and the preview of the overlay.
#[derive(Debug, Clone, Copy)]
pub struct Area {
    pub screen_w: i32,
    pub screen_h: i32,
    pub overlay_x: i32,
    pub overlay_y: i32,
    pub overlay_w: i32,
    pub overlay_h: i32,
    /// Global opacity, which new elements show but do not save
    pub global_opacity: Opacity,
}

/// The elements, what is selected of them, and what can be undone.
pub struct Doc {
    pub elements: Vec<Element>,
    pub selected_indices: Vec<usize>,
    /// Element lists before the steps that can be undone, newest last
    pub undo_stack: Vec<Vec<Element>>,
    /// Element list before the step that is under way
    pub undo_pending: Option<Vec<Element>>,
}

/// Selection boxes.
#[derive(Debug, Clone, Copy)]
pub struct Boxes {
    /// Corner where the box of a new region begins (selecting phase)
    pub drag_start: Option<(i32, i32)>,
    pub drag_current: Option<(i32, i32)>,
    pub is_dragging: bool,
    /// Corner where the box that selects elements begins (arranging phase)
    pub box_select_start: Option<(i32, i32)>,
    pub box_select_current: Option<(i32, i32)>,
    pub box_selecting: bool,
}

/// Dragging and resizing of elements.
#[derive(Debug, Clone, Copy)]
pub struct Drag {
    pub drag_index: Option<usize>,
    pub drag_offset: (i32, i32),
    pub resize_index: Option<usize>,
    /// Where the scaling of a text began
    pub resize_start: Option<(i32, i32)>,
    /// Font size when the scaling of a text began
    pub resize_start_font: u32,
    /// Whether several elements are dragged
    pub multi_dragging: bool,
    pub multi_drag_last: (i32, i32),
    // Coordinates that are held by snapping
    pub snapped_x: Option<i32>,
    pub snapped_y: Option<i32>,
}

/// The panel and the hint bar.
#[derive(Debug, Clone, Copy)]
pub struct Panel {
    pub panel_x: i32,
    pub panel_y: i32,
    pub drag_panel: bool,
    pub panel_drag_offset: (i32, i32),
    // Tooltip of the title bar
    pub over_title: bool,
    pub tooltip_show: bool,
    /// Whether the hint bar is at the top; it dodges the mouse
    pub hint_top: bool,
    /// First element that the list shows
    pub list_scroll: i32,
    /// Wheel movement that is not used up
    pub wheel_acc: i32,
    /// Drag of the scroll bar: where it began, and the thumb's place then
    pub scroll_drag: Option<(i32, i32)>,
}

/// Helpers that are switched on and off, and their numbers.
#[derive(Debug, Clone, Copy)]
pub struct Prefs {
    pub magnifier_on: bool,
    pub grid_on: bool,
    pub crosshair_on: bool,
    pub xy_label_on: bool,
    pub snap_on: bool,
    /// Whether the center of the moving element snaps to the grid points of the
    /// others; excludes the other snapping
    pub snap_tian: bool,
    pub snap_distance: i32,
    pub snap_gap: i32,
    pub nudge_step: i32,
}

/// What is typed in.
pub struct Entry {
    pub filename_focused: bool,
    pub save_filename: String,
    /// Whether the question about an existing file is open
    pub confirm_overwrite: bool,
    pub editing_target: EditingTarget,
    pub editing_text: String,
}

/// State of the editor.
pub struct EditorState {
    pub phase: EditorPhase,
    pub area: Area,
    pub doc: Doc,
    pub boxes: Boxes,
    pub drag: Drag,
    pub panel: Panel,
    pub prefs: Prefs,
    pub entry: Entry,
    pub mouse_x: i32,
    pub mouse_y: i32,
    pub close_requested: bool,
    pub saved: bool,
    /// Preferences that wait to be taken over
    pub staged_prefs: Option<(i32, i32, i32)>,
}

/// The elements, what is selected of them, and what can be undone.
pub struct DocView {
    pub elements: Seq<El>,
    pub selected: Seq<usize>,
    pub undo: Seq<Seq<El>>,
    pub pending: Option<Seq<El>>,
}

/// What is typed in.
pub struct EntryView {
    pub filename_focused: bool,
    pub save_filename: Seq<char>,
    pub confirm_overwrite: bool,
    pub target: EditingTarget,
    pub text: Seq<char>,
}

/// State of the editor.
pub struct Ed {
    pub phase: EditorPhase,
    pub area: Area,
    pub doc: DocView,
    pub boxes: Boxes,
    pub drag: Drag,
    pub panel: Panel,
    pub prefs: Prefs,
    pub entry: EntryView,
    pub mouse_x: i32,
    pub mouse_y: i32,
    pub close_requested: bool,
    pub saved: bool,
    pub staged_prefs: Option<(i32, i32, i32)>,
}

/// The element lists of an undo stack.
pub open spec fn snaps(v: Seq<Vec<Element>>) -> Seq<Seq<El>> {
    v.map_values(|s: Vec<Element>| els(s@))
}

pub open spec fn pending_view(p: Option<Vec<Element>>) -> Option<Seq<El>> {
    match p {
        Some(v) => Some(els(v@)),
        None => None,
    }
}

impl View for Doc {
    type V = DocView;

    open spec fn view(&self) -> DocView {
        DocView {
            elements: els(self.elements@),
            selected: self.selected_indices@,
            undo: snaps(self.undo_stack@),
            pending: pending_view(self.undo_pending),
        }
    }
}

impl View for Entry {
    type V = EntryView;

    open spec fn view(&self) -> EntryView {
        EntryView {
            filename_focused: self.filename_focused,
            save_filename: self.save_filename@,
            confirm_overwrite: self.confirm_overwrite,
            target: self.editing_target,
            text: self.editing_text@,
        }
    }
}

impl View for EditorState {
    type V = Ed;

    open spec fn view(&self) -> Ed {
        Ed {
            phase: self.phase,
            area: self.area,
            doc: self.doc@,
            boxes: self.boxes,
            drag: self.drag,
            panel: self.panel,
            prefs: self.prefs,
            entry: self.entry@,
            mouse_x: self.mouse_x,
            mouse_y: self.mouse_y,
            close_requested: self.close_requested,
            saved: self.saved,
            staged_prefs: self.staged_prefs,
        }
    }
}

impl DocView {
    /// What is selected are elements, each of them once, and no more steps are
    /// kept than can be undone.
    pub open spec fn wf(self) -> bool {
        &&& selection_ok(self.selected, self.elements.len())
        &&& distinct(self.selected)
        &&& self.undo.len() <= UNDO_LIMIT
    }
}

/// Whether all indices are below a length.
pub open spec fn selection_ok(selected: Seq<usize>, len: nat) -> bool {
    forall|i: int| 0 <= i < selected.len() ==> (#[trigger] selected[i]) < len
}

/// Whether no index occurs twice.
pub open spec fn distinct(selected: Seq<usize>) -> bool {
    forall|i: int, j: int|
        0 <= i < j < selected.len() ==> #[trigger] selected[i] != #[trigger] selected[j]
}

impl Drag {
    /// What is dragged or resized are elements, and nothing is while regions
    /// are being selected.
    pub open spec fn wf(self, phase: EditorPhase, len: nat) -> bool {
        &&& match self.drag_index {
            Some(i) => i < len && phase == EditorPhase::Arranging,
            None => true,
        }
        &&& match self.resize_index {
            Some(i) => i < len && phase == EditorPhase::Arranging,
            None => true,
        }
        &&& self.multi_dragging ==> phase == EditorPhase::Arranging
    }
}

impl Area {
    /// The sizes of the screen are sizes that a panel can be laid out on.
    pub open spec fn in_range(self) -> bool {
        &&& 0 <= self.screen_w <= SCREEN_LIMIT
        &&& 0 <= self.screen_h <= SCREEN_LIMIT
    }
}

impl Panel {
    /// The panel begins on the screen, or left of a screen that is too narrow.
    pub open spec fn in_range(self) -> bool {
        &&& -PANEL_W - 12 <= self.panel_x <= SCREEN_LIMIT
        &&& 0 <= self.panel_y <= SCREEN_LIMIT
    }
}

impl Ed {
    /// The indices of the state point at elements, nothing is dragged while
    /// regions are being selected, and no more steps are kept than can be
    /// undone.
    pub open spec fn wf(self) -> bool {
        &&& self.doc.wf()
        &&& self.drag.wf(self.phase, self.doc.elements.len())
    }

    /// The panel is laid out on a screen.
    pub open spec fn placed(self) -> bool {
        &&& self.area.in_range()
        &&& self.panel.in_range()
    }

    /// The panel is laid out on a screen, and the elements can be counted.
    pub open spec fn in_range(self) -> bool {
        &&& self.placed()
        &&& self.doc.elements.len() <= i32::MAX
    }
}

impl EditorState {
    /// Whether the panel is laid out on a screen, and the elements can be
    /// counted.
    pub fn in_range(&self) -> (r: bool)
        ensures
            r == self@.in_range(),
    {
        let area: bool = 0 <= self.area.screen_w && self.area.screen_w <= SCREEN_LIMIT && 0
            <= self.area.screen_h && self.area.screen_h <= SCREEN_LIMIT;
        let panel: bool = -PANEL_W - 12 <= self.panel.panel_x && self.panel.panel_x <= SCREEN_LIMIT && 0
            <= self.panel.panel_y && self.panel.panel_y <= SCREEN_LIMIT;
        area && panel && self.doc.elements.len() <= i32::MAX as usize
    }
}

// ===== Undo =====

/// An undo stack with a list put on it: a list that equals the top is left out,
/// and the oldest is dropped where there are more than can be undone.
pub open spec fn stack_pushed(undo: Seq<Seq<El>>, snap: Seq<El>) -> Seq<Seq<El>> {
    if undo.len() > 0 && same_els(undo.last(), snap) {
        undo
    } else if undo.len() >= UNDO_LIMIT {
        undo.push(snap).skip(1)
    } else {
        undo.push(snap)
    }
}

/// The document with a list put on its undo stack.
pub open spec fn snapshot_pushed(d: DocView, snap: Seq<El>) -> DocView {
    DocView { undo: stack_pushed(d.undo, snap), ..d }
}

/// The document with its own list put on its undo stack.
pub open spec fn undo_pushed(d: DocView) -> DocView {
    snapshot_pushed(d, d.elements)
}

/// The document after the last step was undone.
pub open spec fn doc_undone(d: DocView) -> DocView {
    if d.undo.len() > 0 {
        DocView {
            undo: d.undo.drop_last(),
            elements: d.undo.last(),
            selected: Seq::empty(),
            pending: None,
        }
    } else {
        DocView { pending: None, ..d }
    }
}

/// The state after the last step was undone; what was being dragged is let go.
pub open spec fn undone(e: Ed) -> Ed {
    Ed {
        doc: doc_undone(e.doc),
        boxes: Boxes { is_dragging: false, ..e.boxes },
        drag: Drag { drag_index: None, resize_index: None, multi_dragging: false, ..e.drag },
        ..e
    }
}

impl Doc {
    /// Makes the given elements a step that can be undone.
    pub fn push_snapshot(&mut self, snap: Vec<Element>)
        requires
            old(self)@.undo.len() <= UNDO_LIMIT,
        ensures
            final(self)@ == snapshot_pushed(old(self)@, els(snap@)),
            final(self).elements == old(self).elements,
            final(self).selected_indices == old(self).selected_indices,
            final(self).undo_pending == old(self).undo_pending,
    {
        let n: usize = self.undo_stack.len();
        let ghost u = snaps(self.undo_stack@);
        let ghost s = els(snap@);
        let dup: bool = n > 0 && same_elements(&self.undo_stack[n - 1], &snap);
        if !dup {
            self.undo_stack.push(snap);
            assert(snaps(self.undo_stack@) =~= u.push(s));
            if self.undo_stack.len() > UNDO_LIMIT {
                let dropped: Vec<Element> = self.undo_stack.remove(0);
                assert(snaps(self.undo_stack@) =~= u.push(s).skip(1));
            }
        }
    }

    /// Makes the current elements a step that can be undone.
    pub fn push_undo(&mut self)
        requires
            old(self)@.undo.len() <= UNDO_LIMIT,
        ensures
            final(self)@ == undo_pushed(old(self)@),
            final(self).elements == old(self).elements,
            final(self).selected_indices == old(self).selected_indices,
            final(self).undo_pending == old(self).undo_pending,
    {
        let snap: Vec<Element> = copy_elements(&self.elements);
        self.push_snapshot(snap);
    }

    /// Undoes the last step. Returns whether there was one.
    fn undo(&mut self) -> (r: bool)
        ensures
            final(self)@ == doc_undone(old(self)@),
            r == (old(self)@.undo.len() > 0),
    {
        self.undo_pending = None;
        let ghost u = snaps(self.undo_stack@);
        match self.undo_stack.pop() {
            Some(prev) => {
                self.elements = prev;
                self.selected_indices = Vec::new();
                assert(snaps(self.undo_stack@) =~= u.drop_last());
                true
            },
            None => false,
        }
    }
}

/// Makes the current elements a step that can be undone.
pub fn push_undo(st: &mut EditorState)
    requires
        old(st)@.doc.undo.len() <= UNDO_LIMIT,
    ensures
        final(st)@ == (Ed { doc: undo_pushed(old(st)@.doc), ..old(st)@ }),
{
    st.doc.push_undo();
}

/// Makes the given elements a step that can be undone.
pub fn push_snapshot(st: &mut EditorState, snap: Vec<Element>)
    requires
        old(st)@.doc.undo.len() <= UNDO_LIMIT,
    ensures
        final(st)@ == (Ed { doc: snapshot_pushed(old(st)@.doc, els(snap@)), ..old(st)@ }),
{
    st.doc.push_snapshot(snap);
}

/// Undoes the last step. Returns whether there was one.
pub fn do_undo(st: &mut EditorState) -> (r: bool)
    ensures
        final(st)@ == undone(old(st)@),
        r == (old(st)@.doc.undo.len() > 0),
{
    st.boxes.is_dragging = false;
    st.drag.drag_index = None;
    st.drag.resize_index = None;
    st.drag.multi_dragging = false;
    st.doc.undo()
}

// ===== Laws =====

/// Undoing after a step was pushed and the elements were changed gives back the
/// elements of that step. The stack is then as it was before the step, but that
/// one more step is gone where the elements were pushed already, and the oldest
/// one where the stack was full.
pub proof fn law_undo_gives_back(d: DocView, changed: Seq<El>)
    requires
        d.undo.len() <= UNDO_LIMIT,
    ensures
        ({
            let f = doc_undone(DocView { elements: changed, ..undo_pushed(d) });
            if d.undo.len() > 0 && same_els(d.undo.last(), d.elements) {
                same_els(f.elements, d.elements) && f.undo == d.undo.drop_last()
            } else if d.undo.len() == UNDO_LIMIT {
                f.elements == d.elements && f.undo == d.undo.drop_first()
            } else {
                f.elements == d.elements && f.undo == d.undo
            }
        }),
{
    let pushed = d.undo.push(d.elements);
    assert(pushed.drop_last() =~= d.undo);
    if d.undo.len() == UNDO_LIMIT {
        assert(pushed.skip(1).drop_last() =~= d.undo.drop_first());
    }
}

/// Pushing never makes the stack longer than the limit, leaves the elements as
/// they are, and pushing the same list twice is pushing it once where every
/// opacity in it is a number.
pub proof fn law_stack_is_bounded(d: DocView, snap: Seq<El>)
    requires
        d.undo.len() <= UNDO_LIMIT,
    ensures
        snapshot_pushed(d, snap).undo.len() <= UNDO_LIMIT,
        snapshot_pushed(d, snap).elements == d.elements,
        same_els(snap, snap) ==> snapshot_pushed(snapshot_pushed(d, snap), snap)
            == snapshot_pushed(d, snap),
{
    let u = stack_pushed(d.undo, snap);
    if !(d.undo.len() > 0 && same_els(d.undo.last(), snap)) {
        assert(u.last() == snap);
    }
}

/// Undo keeps the state well-formed.
pub proof fn law_undo_keeps_wf(e: Ed)
    requires
        e.wf(),
    ensures
        undone(e).wf(),
{
}

/// A step goes on top of the stack, unless it is the step on top already; of
/// fifty steps the oldest makes room. Undoing takes the top step off and shows it
/// with nothing selected; with no step left the elements stay.
pub proof fn law_steps_on_the_stack(d: DocView, snap: Seq<El>)
    requires
        d.undo.len() <= 50,
    ensures
        ({
            let known = d.undo.len() > 0 && same_els(d.undo.last(), snap);
            let p = snapshot_pushed(d, snap);
            &&& known ==> p.undo == d.undo
            &&& !known && d.undo.len() < 50 ==> p.undo == d.undo + seq![snap]
            &&& !known && d.undo.len() == 50 ==> p.undo == d.undo.subrange(1, 50) + seq![snap]
            &&& p.elements == d.elements && p.selected == d.selected && p.pending == d.pending
        }),
        undo_pushed(d) == snapshot_pushed(d, d.elements),
        ({
            let u = doc_undone(d);
            &&& u.pending is None
            &&& d.undo.len() > 0 ==> u.elements == d.undo[d.undo.len() - 1] && u.undo
                == d.undo.take(d.undo.len() - 1) && u.selected.len() == 0
            &&& d.undo.len() == 0 ==> u.elements == d.elements && u.undo == d.undo && u.selected
                == d.selected
        }),
{
    assert(d.undo.push(snap) =~= d.undo + seq![snap]);
    if d.undo.len() == 50 {
        assert(d.undo.push(snap).skip(1) =~= d.undo.subrange(1, 50) + seq![snap]);
    }
    if d.undo.len() > 0 {
        assert(d.undo.drop_last() =~= d.undo.take(d.undo.len() - 1));
    }
}

/// Undoing lets go of what was being dragged and changes nothing else beside the
/// elements.
pub proof fn law_undo_lets_go(e: Ed)
    ensures
        ({
            let u = undone(e);
            &&& u.drag.drag_index is None && u.drag.resize_index is None && !u.drag.multi_dragging
            &&& !u.boxes.is_dragging
            &&& u.doc == doc_undone(e.doc)
            &&& u.panel == e.panel && u.prefs == e.prefs && u.entry == e.entry && u.area == e.area
            &&& u.phase == e.phase && u.saved == e.saved && u.close_requested == e.close_requested
            &&& u.boxes == (Boxes { is_dragging: false, ..e.boxes })
        }),
{
}

/// Elements are equal where all is: two with the same opacities, which are
/// numbers, are equal exactly where they are the same.
pub proof fn law_equal_elements(a: El, b: El)
    requires
        a.extra.opacity == b.extra.opacity,
        a.display.opacity == b.display.opacity,
        a.extra.opacity.bits <= 0x7f80_0000,
        match a.display.opacity {
            Some(o) => o.bits <= 0x7f80_0000,
            None => true,
        },
    ensures
        same_el(a, b) == (a == b),
        same_els(seq![a], seq![b]) == (a == b),
        !same_els(seq![a], seq![a, b]),
{
    assert(seq![a][0] == a && seq![b][0] == b);
    if a == b {
        assert(same_els(seq![a], seq![b]));
    }
    if same_els(seq![a], seq![b]) {
        assert(same_el(seq![a][0], seq![b][0]));
    }
}

/// A new element is opaque by inheritance, and a new frame, background, picture or
/// text lies ten layers up. A new text has no ground and is black.
pub proof fn law_new_elements(kind: ElemKind)
    ensures
        ({
            let c = new_capture_ex();
            &&& c.kind == ElemKind::Capture
            &&& c.z_order == 0
            &&& c.opacity.bits == 0x3f80_0000 && !c.opacity_explicit
            &&& c.font_size == 14 && c.border_width == 2 && c.corner_radius == 4
            &&& c.color == "#D3CFC9"@ && c.text_color == "#FFFFFF"@ && c.border_color == "#FFDC3C"@
            &&& c.content.len() == 0 && c.png_path.len() == 0
        }),
        ({
            let u = new_ui_ex(kind);
            &&& u.kind == kind
            &&& u.z_order == 10
            &&& kind == ElemKind::Text ==> u.color.len() == 0 && u.text_color == "#000000"@
            &&& kind != ElemKind::Text ==> u == (Ex { kind, z_order: 10, ..new_capture_ex() })
            &&& u == (Ex {
                kind,
                z_order: 10,
                color: u.color,
                text_color: u.text_color,
                ..new_capture_ex()
            })
        }),
{
    reveal_strlit("");
}

/// Every kind has its badge, and an element without a source an empty one.
pub proof fn law_badges_and_sources(e: El)
    ensures
        badge_key(ElemKind::Capture) == "badge_capture"@,
        badge_key(ElemKind::Frame) == "badge_frame"@,
        badge_key(ElemKind::Background) == "badge_bg"@,
        badge_key(ElemKind::Png) == "badge_png"@,
        badge_key(ElemKind::Text) == "badge_text"@,
        e.source is Some ==> source_of(e) == e.source.unwrap(),
        e.source is None ==> source_of(e).width == 0 && source_of(e).height == 0 && source_of(e).x
            == 0 && source_of(e).y == 0,
{
}

} // verus!
