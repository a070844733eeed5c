//! Config files: their contents, validation and geometry.
//!
//! Two kinds of config files:
//! 1. `settings.yml`: global settings (frame rate and per-config toggles)
//! 2. `*.yml`: region config files
//!
//! A region config file holds only region data; which files are on is kept
//! centrally in `settings.yml`.

use vstd::prelude::*;

use crate::names;
use crate::names::{contains_name, remove_name, sort_names, views};
use crate::num;
use crate::num::wrap_degrees;
use crate::opacity;
use crate::opacity::{clamp_option, same_opacity, Opacity};
use crate::text;
use crate::text::{chars_end_with, chars_of, owned, same_text, slice_chars, string_of, yaml_name};

verus! {

// ===== Global settings =====

/// Global settings (`settings.yml`): frame rate and per-config toggles.
#[derive(Debug, Clone)]
pub struct GlobalSettings {
    /// Global frame rate
    pub fps: u32,
    /// Enabled config files
    pub enabled_configs: Vec<String>,
    /// Editor snap distance (pixels)
    pub snap_distance: i32,
    /// Editor snap gap (pixels)
    pub snap_gap: i32,
    /// Editor nudge step (pixels)
    pub nudge_step: i32,
    /// Master toggle for controller/keyboard auto-switch
    pub input_auto_switch: bool,
    /// Whether mouse movement counts as keyboard/mouse activity
    pub input_track_mouse: bool,
    /// Input polling interval in ms
    pub input_poll_interval_ms: u64,
    /// Config files enabled in keyboard mode
    pub keyboard_configs: Vec<String>,
    /// Config files enabled in controller mode
    pub controller_configs: Vec<String>,
    /// UI language ("zh" or "en")
    pub lang: String,
    /// Whether log files are written
    pub log_enabled: bool,
}

pub fn default_fps() -> (r: u32)
    ensures
        r == 60,
{
    60
}

pub fn default_lang() -> (r: String)
    ensures
        r@ == "zh"@,
{
    owned("zh")
}

pub fn default_snap_distance() -> (r: i32)
    ensures
        r == 8,
{
    8
}

pub fn default_snap_gap() -> (r: i32)
    ensures
        r == 0,
{
    0
}

pub fn default_nudge_step() -> (r: i32)
    ensures
        r == 1,
{
    1
}

pub fn default_input_track_mouse() -> (r: bool)
    ensures
        r,
{
    true
}

pub fn default_input_poll_interval_ms() -> (r: u64)
    ensures
        r == 200,
{
    200
}

impl Default for GlobalSettings {
    fn default() -> (r: Self)
        ensures
            r.fps == 60,
            r.enabled_configs@.len() == 0,
            r.snap_distance == 8,
            r.snap_gap == 0,
            r.nudge_step == 1,
            !r.input_auto_switch,
            r.input_track_mouse,
            r.input_poll_interval_ms == 200,
            r.keyboard_configs@.len() == 0,
            r.controller_configs@.len() == 0,
            r.lang@ == "zh"@,
            !r.log_enabled,
    {
        GlobalSettings {
            fps: default_fps(),
            enabled_configs: Vec::new(),
            snap_distance: default_snap_distance(),
            snap_gap: default_snap_gap(),
            nudge_step: default_nudge_step(),
            input_auto_switch: false,
            input_track_mouse: default_input_track_mouse(),
            input_poll_interval_ms: default_input_poll_interval_ms(),
            keyboard_configs: Vec::new(),
            controller_configs: Vec::new(),
            lang: default_lang(),
            log_enabled: false,
        }
    }
}

/// File name of a new config that is saved with an empty name
pub const UNNAMED_CONFIG: &'static str = "未命名.yml";

/// Global settings file name
pub const SETTINGS_FILE: &'static str = "settings.yml";

/// Global settings file name of versions up to 0.0.4
pub const LEGACY_SETTINGS_FILE: &'static str = "settings.yaml";

/// Whether the settings file of an older version is renamed: only where there is
/// no current one.
pub fn migrates_legacy(current_exists: bool, legacy_exists: bool) -> (r: bool)
    ensures
        r == (legacy_exists && !current_exists),
{
    !current_exists && legacy_exists
}

/// `s` without a byte order mark at its beginning.
pub open spec fn without_bom(s: Seq<char>) -> Seq<char> {
    if s.len() > 0 && s[0] == '\u{FEFF}' {
        s.drop_first()
    } else {
        s
    }
}

/// Takes a byte order mark off the beginning of a text.
pub fn strip_bom(content: &str) -> (r: String)
    ensures
        r@ == without_bom(content@),
{
    let s: Vec<char> = chars_of(content);
    if s.len() > 0 && s[0] == '\u{FEFF}' {
        let t: Vec<char> = slice_chars(&s, 1, s.len());
        assert(t@ =~= s@.drop_first());
        string_of(&t)
    } else {
        string_of(&s)
    }
}

/// Whether a reference to a config file is kept: not a `.yaml` name, and one of
/// the existing files.
pub open spec fn keeps_ref(existing: Seq<Seq<char>>) -> spec_fn(Seq<char>) -> bool {
    |f: Seq<char>| !text::is_yaml_name(f) && existing.contains(f)
}

/// Removes the references that are not kept; returns whether there were any.
fn prune_list(list: &mut Vec<String>, existing: &Vec<String>) -> (r: bool)
    ensures
        views(final(list)@) == views(old(list)@).filter(keeps_ref(views(existing@))),
        r == (final(list)@.len() != old(list)@.len()),
{
    let ghost keep = keeps_ref(views(existing@));
    let before: usize = list.len();
    let mut kept: Vec<String> = Vec::new();
    for i in 0..list.len()
        invariant
            list@ == old(list)@,
            keep == keeps_ref(views(existing@)),
            views(kept@) == views(list@).take(i as int).filter(keep),
    {
        proof {
            assert(views(list@).take(i + 1).drop_last() =~= views(list@).take(i as int));
            assert(views(list@).take(i + 1).last() == list@[i as int]@);
            reveal(Seq::filter);
        }
        if !yaml_name(list[i].as_str()) && contains_name(existing, list[i].as_str()) {
            let ghost old_kept = kept@;
            kept.push(list[i].clone());
            assert(views(kept@) =~= views(old_kept).push(list@[i as int]@));
        }
    }
    assert(views(list@).take(list@.len() as int) =~= views(list@));
    let changed: bool = kept.len() != before;
    *list = kept;
    changed
}

/// The enabled config files after one was switched on or off.
pub open spec fn switched(list: Seq<Seq<char>>, name: Seq<char>, on: bool) -> Seq<Seq<char>> {
    if !on {
        names::without(list, name)
    } else if list.contains(name) {
        list
    } else {
        list.push(name)
    }
}

impl GlobalSettings {
    /// The settings with the frame rate brought into its range.
    pub open spec fn in_range(self) -> GlobalSettings {
        GlobalSettings { fps: num::int_clamp(self.fps as int, 1, 240) as u32, ..self }
    }

    /// What was read from `settings.yml`, with the frame rate brought into
    /// `1..=240`; nothing where nothing could be read.
    pub fn load_optional(parsed: Option<GlobalSettings>) -> (r: Option<GlobalSettings>)
        ensures
            match parsed {
                Some(gs) => r == Some(gs.in_range()),
                None => r is None,
            },
    {
        match parsed {
            Some(gs) => {
                let mut gs = gs;
                if gs.fps < 1 {
                    gs.fps = 1;
                } else if gs.fps > 240 {
                    gs.fps = 240;
                }
                Some(gs)
            },
            None => None,
        }
    }

    /// What was read from `settings.yml`, or the defaults.
    pub fn load(parsed: Option<GlobalSettings>) -> (r: GlobalSettings)
        ensures
            match parsed {
                Some(gs) => r == gs.in_range(),
                None => r.fps == 60 && r.enabled_configs@.len() == 0 && r.snap_distance == 8
                    && r.snap_gap == 0 && r.nudge_step == 1 && !r.input_auto_switch
                    && r.input_track_mouse && r.input_poll_interval_ms == 200
                    && r.keyboard_configs@.len() == 0 && r.controller_configs@.len() == 0
                    && r.lang@ == "zh"@ && !r.log_enabled,
            },
    {
        match GlobalSettings::load_optional(parsed) {
            Some(gs) => gs,
            None => GlobalSettings::default(),
        }
    }

    /// Whether the given config file is enabled.
    pub open spec fn enabled(self, filename: Seq<char>) -> bool {
        views(self.enabled_configs@).contains(filename)
    }

    /// Whether the given config file is enabled.
    pub fn is_enabled(&self, filename: &str) -> (r: bool)
        ensures
            r == self.enabled(filename@),
    {
        contains_name(&self.enabled_configs, filename)
    }

    /// Sets the on/off state of the given config file.
    pub fn set_enabled(&mut self, filename: &str, enabled: bool)
        ensures
            *final(self) == (GlobalSettings {
                enabled_configs: final(self).enabled_configs,
                ..*old(self)
            }),
            views(final(self).enabled_configs@) == switched(
                views(old(self).enabled_configs@),
                filename@,
                enabled,
            ),
    {
        if enabled {
            if !self.is_enabled(filename) {
                self.enabled_configs.push(owned(filename));
                assert(views(self.enabled_configs@) =~= views(old(self).enabled_configs@).push(
                    filename@,
                ));
            }
        } else {
            remove_name(&mut self.enabled_configs, filename);
        }
    }

    /// Removes the references to config files that are gone, or that have the
    /// `.yaml` name of older versions, from the enabled files and both input
    /// groups. Returns whether anything was removed.
    pub fn prune_missing_refs(&mut self, existing: &Vec<String>) -> (r: bool)
        ensures
            *final(self) == (GlobalSettings {
                enabled_configs: final(self).enabled_configs,
                keyboard_configs: final(self).keyboard_configs,
                controller_configs: final(self).controller_configs,
                ..*old(self)
            }),
            views(final(self).enabled_configs@) == views(old(self).enabled_configs@).filter(
                keeps_ref(views(existing@)),
            ),
            views(final(self).keyboard_configs@) == views(old(self).keyboard_configs@).filter(
                keeps_ref(views(existing@)),
            ),
            views(final(self).controller_configs@) == views(old(self).controller_configs@).filter(
                keeps_ref(views(existing@)),
            ),
            r == (final(self).enabled_configs@.len() != old(self).enabled_configs@.len()
                || final(self).keyboard_configs@.len() != old(self).keyboard_configs@.len()
                || final(self).controller_configs@.len() != old(self).controller_configs@.len()),
    {
        let a: bool = prune_list(&mut self.enabled_configs, existing);
        let b: bool = prune_list(&mut self.keyboard_configs, existing);
        let c: bool = prune_list(&mut self.controller_configs, existing);
        a || b || c
    }
}

// ===== Staged editor preferences =====

/// The slot after `prefs` were staged in it.
pub open spec fn prefs_saved(slot: Option<(i32, i32, i32)>, prefs: (i32, i32, i32)) -> Option<
    (i32, i32, i32),
> {
    Some(prefs)
}

/// What is taken out of a slot, and the slot after that.
pub open spec fn prefs_taken(slot: Option<(i32, i32, i32)>) -> (
    Option<(i32, i32, i32)>,
    Option<(i32, i32, i32)>,
) {
    (slot, None)
}

/// Stages the editor's snap distance, snap gap and nudge step.
pub fn save_editor_prefs(
    slot: &mut Option<(i32, i32, i32)>,
    snap_distance: i32,
    snap_gap: i32,
    nudge_step: i32,
)
    ensures
        *final(slot) == prefs_saved(*old(slot), (snap_distance, snap_gap, nudge_step)),
{
    *slot = Some((snap_distance, snap_gap, nudge_step));
}

/// Takes the staged preferences out of the slot.
pub fn take_editor_prefs(slot: &mut Option<(i32, i32, i32)>) -> (r: Option<(i32, i32, i32)>)
    ensures
        (r, *final(slot)) == prefs_taken(*old(slot)),
{
    let r: Option<(i32, i32, i32)> = *slot;
    *slot = None;
    r
}

// ===== Region configs =====

/// Contents of one region config file.
#[derive(Debug, Clone)]
pub struct Config {
    pub settings: Settings,
    pub capture_regions: Vec<CaptureRegion>,
    /// Custom UI elements (overlay coordinates)
    pub custom_ui: Vec<CustomUiElement>,
}

/// Settings of a config.
#[derive(Debug, Clone)]
pub struct Settings {
    /// Global opacity (one where unset; elements without an opacity inherit it)
    pub global_opacity: Option<Opacity>,
    /// Overlay window anchor: where the content's origin lands on the screen
    pub window: Option<WindowConfig>,
}

/// Overlay window anchor. Only the position is read; files of older versions
/// also hold a size.
#[derive(Debug, Clone)]
pub struct WindowConfig {
    pub x: i32,
    pub y: i32,
    pub width: i32,
    pub height: i32,
}

/// Screen capture region.
#[derive(Debug, Clone)]
pub struct CaptureRegion {
    /// Unique id
    pub id: String,
    /// Source region (screen coordinates)
    pub source: Rect,
    /// Display position (overlay window coordinates)
    pub display: DisplayRect,
    /// Render order of files of older versions, merged into `display` on load
    pub z_order: Option<i32>,
}

/// Rectangle in source coordinates.
#[derive(Debug, Clone, Copy, PartialEq, Eq, Structural)]
pub struct Rect {
    pub x: u32,
    pub y: u32,
    pub width: u32,
    pub height: u32,
}

/// Display rectangle with opacity and render order. A size of zero stands for
/// the source size.
#[derive(Debug, Clone, Copy)]
pub struct DisplayRect {
    pub x: i32,
    pub y: i32,
    pub width: i32,
    pub height: i32,
    /// Render order; higher numbers are on top
    pub z_order: i32,
    /// Opacity (inherits the global opacity where unset)
    pub opacity: Option<Opacity>,
    /// Rotation in degrees clockwise around the center; the size is that of the
    /// unrotated content
    pub rotate: i32,
}

impl PartialEq for DisplayRect {
    fn eq(&self, other: &DisplayRect) -> (r: bool) {
        self.x == other.x && self.y == other.y && self.width == other.width && self.height
            == other.height && self.z_order == other.z_order && same_opacity(
            self.opacity,
            other.opacity,
        ) && self.rotate == other.rotate
    }
}

impl vstd::std_specs::cmp::PartialEqSpecImpl for DisplayRect {
    open spec fn obeys_eq_spec() -> bool {
        true
    }

    open spec fn eq_spec(&self, other: &DisplayRect) -> bool {
        self.x == other.x && self.y == other.y && self.width == other.width && self.height
            == other.height && self.z_order == other.z_order && opacity::same_option(
            self.opacity,
            other.opacity,
        ) && self.rotate == other.rotate
    }
}

impl Default for Settings {
    fn default() -> (r: Self)
        ensures
            r.global_opacity is None,
            r.window is None,
    {
        Settings { global_opacity: None, window: None }
    }
}

impl Default for WindowConfig {
    fn default() -> (r: Self)
        ensures
            r == (WindowConfig { x: 0, y: 0, width: 0, height: 0 }),
    {
        WindowConfig { x: 0, y: 0, width: 0, height: 0 }
    }
}

impl Default for Config {
    fn default() -> (r: Self)
        ensures
            r.settings.global_opacity is None,
            r.settings.window is None,
            r.capture_regions@.len() == 0,
            r.custom_ui@.len() == 0,
    {
        Config {
            settings: Settings::default(),
            capture_regions: Vec::new(),
            custom_ui: Vec::new(),
        }
    }
}

pub fn is_zero(v: &i32) -> (r: bool)
    ensures
        r == (*v == 0),
{
    *v == 0
}

pub fn is_zero_i32(v: &i32) -> (r: bool)
    ensures
        r == (*v == 0),
{
    *v == 0
}

pub fn default_corner_radius() -> (r: u32)
    ensures
        r == 4,
{
    4
}

pub fn default_border_width() -> (r: u32)
    ensures
        r == 2,
{
    2
}

pub fn default_border_color() -> (r: String)
    ensures
        r@ == "#FFDC3C"@,
{
    owned("#FFDC3C")
}

pub fn default_fill_color() -> (r: String)
    ensures
        r@ == "#2A2A3A"@,
{
    owned("#2A2A3A")
}

pub fn default_font_size() -> (r: u32)
    ensures
        r == 14,
{
    14
}

pub fn default_text_color() -> (r: String)
    ensures
        r@ == ""@,
{
    owned("")
}

pub fn default_ui_w() -> (r: i32)
    ensures
        r == 0,
{
    0
}

pub fn default_ui_h() -> (r: i32)
    ensures
        r == 0,
{
    0
}

// ===== Custom UI elements =====

/// Custom UI element.
#[derive(Debug, Clone)]
pub enum CustomUiElement {
    /// Outlined rounded rectangle
    Frame(FrameElement),
    /// Filled rounded rectangle
    Background(BackgroundElement),
    /// PNG picture
    Image(ImageElement),
    /// Text
    Text(TextElement),
}

/// Outlined rounded rectangle.
#[derive(Debug, Clone)]
pub struct FrameElement {
    pub x: i32,
    pub y: i32,
    pub width: i32,
    pub height: i32,
    pub opacity: Option<Opacity>,
    pub z_order: i32,
    pub border_color: String,
    pub border_width: u32,
    pub corner_radius: u32,
    /// Rotation in degrees clockwise
    pub rotate: i32,
}

/// Filled rounded rectangle.
#[derive(Debug, Clone)]
pub struct BackgroundElement {
    pub x: i32,
    pub y: i32,
    pub width: i32,
    pub height: i32,
    pub opacity: Option<Opacity>,
    pub z_order: i32,
    pub color: String,
    pub corner_radius: u32,
    /// Rotation in degrees clockwise
    pub rotate: i32,
}

/// PNG picture. A size of zero stands for the size of the picture.
#[derive(Debug, Clone)]
pub struct ImageElement {
    /// Image file name
    pub path: String,
    pub x: i32,
    pub y: i32,
    pub width: i32,
    pub height: i32,
    pub opacity: Option<Opacity>,
    pub z_order: i32,
    /// Rotation in degrees clockwise
    pub rotate: i32,
}

/// Text. Its size follows from content and font size.
#[derive(Debug, Clone)]
pub struct TextElement {
    pub content: String,
    pub font_size: u32,
    /// Text color "#RRGGBB"
    pub text_color: String,
    pub x: i32,
    pub y: i32,
    pub opacity: Option<Opacity>,
    pub z_order: i32,
    /// Rotation in degrees clockwise
    pub rotate: i32,
}

impl CustomUiElement {
    /// Position and size; a text has the size (0, 0).
    pub open spec fn rect(self) -> (i32, i32, i32, i32) {
        match self {
            CustomUiElement::Frame(e) => (e.x, e.y, e.width, e.height),
            CustomUiElement::Background(e) => (e.x, e.y, e.width, e.height),
            CustomUiElement::Image(e) => (e.x, e.y, e.width, e.height),
            CustomUiElement::Text(e) => (e.x, e.y, 0, 0),
        }
    }

    /// Rotation in degrees clockwise.
    pub open spec fn degrees(self) -> i32 {
        match self {
            CustomUiElement::Frame(e) => e.rotate,
            CustomUiElement::Background(e) => e.rotate,
            CustomUiElement::Image(e) => e.rotate,
            CustomUiElement::Text(e) => e.rotate,
        }
    }

    /// The opacity of the element itself.
    pub open spec fn own_opacity(self) -> Option<Opacity> {
        match self {
            CustomUiElement::Frame(e) => e.opacity,
            CustomUiElement::Background(e) => e.opacity,
            CustomUiElement::Image(e) => e.opacity,
            CustomUiElement::Text(e) => e.opacity,
        }
    }

    /// The element moved by (-dx, -dy).
    pub open spec fn shifted(self, dx: int, dy: int) -> CustomUiElement {
        match self {
            CustomUiElement::Frame(e) => CustomUiElement::Frame(
                FrameElement { x: (e.x - dx) as i32, y: (e.y - dy) as i32, ..e },
            ),
            CustomUiElement::Background(e) => CustomUiElement::Background(
                BackgroundElement { x: (e.x - dx) as i32, y: (e.y - dy) as i32, ..e },
            ),
            CustomUiElement::Image(e) => CustomUiElement::Image(
                ImageElement { x: (e.x - dx) as i32, y: (e.y - dy) as i32, ..e },
            ),
            CustomUiElement::Text(e) => CustomUiElement::Text(
                TextElement { x: (e.x - dx) as i32, y: (e.y - dy) as i32, ..e },
            ),
        }
    }

    /// Position and size (x, y, w, h). A text has no fixed size: (x, y, 0, 0).
    pub fn geometry(&self) -> (r: (i32, i32, i32, i32))
        ensures
            r == self.rect(),
    {
        match self {
            CustomUiElement::Frame(e) => (e.x, e.y, e.width, e.height),
            CustomUiElement::Background(e) => (e.x, e.y, e.width, e.height),
            CustomUiElement::Image(e) => (e.x, e.y, e.width, e.height),
            CustomUiElement::Text(e) => (e.x, e.y, 0, 0),
        }
    }

    /// Moves the element by (-dx, -dy).
    pub fn shift_xy(&mut self, dx: i32, dy: i32)
        requires
            num::is_i32(old(self).rect().0 - dx),
            num::is_i32(old(self).rect().1 - dy),
        ensures
            *final(self) == old(self).shifted(dx as int, dy as int),
    {
        match self {
            CustomUiElement::Frame(e) => {
                e.x = e.x - dx;
                e.y = e.y - dy;
            },
            CustomUiElement::Background(e) => {
                e.x = e.x - dx;
                e.y = e.y - dy;
            },
            CustomUiElement::Image(e) => {
                e.x = e.x - dx;
                e.y = e.y - dy;
            },
            CustomUiElement::Text(e) => {
                e.x = e.x - dx;
                e.y = e.y - dy;
            },
        }
    }

    /// Element opacity (`None` where it is not set).
    pub fn opacity(&self) -> (r: Option<Opacity>)
        ensures
            r == self.own_opacity(),
    {
        match self {
            CustomUiElement::Frame(e) => e.opacity,
            CustomUiElement::Background(e) => e.opacity,
            CustomUiElement::Image(e) => e.opacity,
            CustomUiElement::Text(e) => e.opacity,
        }
    }

    /// Rotation in degrees clockwise (0 = none).
    pub fn rotate(&self) -> (r: i32)
        ensures
            r == self.degrees(),
    {
        match self {
            CustomUiElement::Frame(e) => e.rotate,
            CustomUiElement::Background(e) => e.rotate,
            CustomUiElement::Image(e) => e.rotate,
            CustomUiElement::Text(e) => e.rotate,
        }
    }
}

// ===== Reading a config file =====

/// A scalar of a config file.
#[derive(Debug, Clone)]
pub enum Scalar {
    Text(String),
    /// A number, as it is written
    Number(String),
    Flag(bool),
    Null,
}

/// The text that a scalar stands for where a text is wanted.
pub open spec fn scalar_text(v: Scalar) -> Seq<char> {
    match v {
        Scalar::Text(s) => s@,
        Scalar::Number(n) => n@,
        Scalar::Flag(b) => if b { "true"@ } else { "false"@ },
        Scalar::Null => ""@,
    }
}

/// Reads a text that may be written as a bare scalar, such as `content: 13`.
pub fn de_string_or_number(v: Scalar) -> (r: String)
    ensures
        r@ == scalar_text(v),
{
    match v {
        Scalar::Text(s) => s,
        Scalar::Number(n) => n,
        Scalar::Flag(b) => if b { owned("true") } else { owned("false") },
        Scalar::Null => owned(""),
    }
}

/// Whether elements of this type are read; the others are skipped.
pub open spec fn is_supported_type(t: Seq<char>) -> bool {
    t == "frame"@ || t == "background"@ || t == "image"@ || t == "text"@
}

pub fn supported_type(t: &str) -> (r: bool)
    ensures
        r == is_supported_type(t@),
{
    same_text(t, "frame") || same_text(t, "background") || same_text(t, "image") || same_text(
        t,
        "text",
    )
}

/// Whether an item is kept: it has a type, and elements of that type are read.
pub open spec fn keeps_item(t: Option<String>) -> bool {
    match t {
        Some(t) => is_supported_type(t@),
        None => false,
    }
}

/// Which elements of a config file are kept: in their order, exactly those whose
/// type is read. `types` holds the type of each, where it has one.
pub fn kept_items(types: &Vec<Option<String>>) -> (r: Vec<usize>)
    ensures
        forall|a: int, b: int| 0 <= a < b < r@.len() ==> #[trigger] r@[a] < #[trigger] r@[b],
        forall|i: usize| #[trigger]
            r@.contains(i) <==> i < types@.len() && keeps_item(types@[i as int]),
{
    let mut r: Vec<usize> = Vec::new();
    for i in 0..types.len()
        invariant
            forall|a: int| 0 <= a < r@.len() ==> #[trigger] r@[a] < i,
            forall|a: int, b: int| 0 <= a < b < r@.len() ==> #[trigger] r@[a] < #[trigger] r@[b],
            forall|j: usize| #[trigger] r@.contains(j) <==> j < i && keeps_item(types@[j as int]),
    {
        let kept: bool = match &types[i] {
            Some(t) => supported_type(t.as_str()),
            None => false,
        };
        if kept {
            let ghost before = r@;
            r.push(i);
            proof {
                assert forall|j: usize| #[trigger] r@.contains(j) <==> j <= i && keeps_item(
                    types@[j as int],
                ) by {
                    if before.contains(j) {
                        let k = choose|k: int| 0 <= k < before.len() && before[k] == j;
                        assert(r@[k] == j);
                    }
                    if j == i {
                        assert(r@[before.len() as int] == j);
                    }
                    if r@.contains(j) && j != i {
                        let k = choose|k: int| 0 <= k < r@.len() && r@[k] == j;
                        assert(before[k] == j);
                    }
                }
            }
        }
    }
    r
}

/// The value that the last entry with the key `k` holds. The numbers stand for
/// values of a config file.
pub open spec fn lookup(entries: Seq<(String, usize)>, k: Seq<char>) -> Option<usize>
    decreases entries.len(),
{
    if entries.len() == 0 {
        None
    } else if entries.last().0@ == k {
        Some(entries.last().1)
    } else {
        lookup(entries.drop_last(), k)
    }
}

/// Puts the entries of an element's `geometry` mapping beside its other
/// entries: `item` holds the entries of the element, `geometry` those of the
/// mapping. An entry of the mapping replaces one with the same key.
pub fn unnest_geometry(item: &Vec<(String, usize)>, geometry: &Vec<(String, usize)>) -> (r: Vec<
    (String, usize),
>)
    ensures
        forall|k: Seq<char>| #[trigger]
            lookup(r@, k) == (match lookup(geometry@, k) {
                Some(v) => Some(v),
                None => if k == "geometry"@ { None } else { lookup(item@, k) },
            }),
{
    let mut r: Vec<(String, usize)> = Vec::new();
    for i in 0..item.len()
        invariant
            forall|k: Seq<char>| #[trigger]
                lookup(r@, k) == (if k == "geometry"@ {
                    None
                } else {
                    lookup(item@.take(i as int), k)
                }),
    {
        let ghost before = r@;
        if !same_text(item[i].0.as_str(), "geometry") {
            r.push((item[i].0.clone(), item[i].1));
            assert(r@.drop_last() =~= before);
        }
        proof {
            let t = item@.take(i + 1);
            assert(t.drop_last() =~= item@.take(i as int));
            assert forall|k: Seq<char>| #[trigger]
                lookup(r@, k) == (if k == "geometry"@ { None } else { lookup(t, k) }) by {
                assert(lookup(before, k) == (if k == "geometry"@ {
                    None
                } else {
                    lookup(t.drop_last(), k)
                }));
            }
        }
    }
    assert(item@.take(item@.len() as int) =~= item@);
    let ghost base = r@;
    assert(geometry@.take(0) =~= Seq::<(String, usize)>::empty());
    for i in 0..geometry.len()
        invariant
            forall|k: Seq<char>| #[trigger]
                lookup(base, k) == (if k == "geometry"@ { None } else { lookup(item@, k) }),
            forall|k: Seq<char>| #[trigger]
                lookup(r@, k) == (match lookup(geometry@.take(i as int), k) {
                    Some(v) => Some(v),
                    None => lookup(base, k),
                }),
    {
        let ghost before = r@;
        r.push((geometry[i].0.clone(), geometry[i].1));
        proof {
            let t = geometry@.take(i + 1);
            assert(t.drop_last() =~= geometry@.take(i as int));
            assert(r@.drop_last() =~= before);
            assert forall|k: Seq<char>| #[trigger]
                lookup(r@, k) == (match lookup(t, k) {
                    Some(v) => Some(v),
                    None => lookup(base, k),
                }) by {
                assert(lookup(before, k) == (match lookup(t.drop_last(), k) {
                    Some(v) => Some(v),
                    None => lookup(base, k),
                }));
            }
        }
    }
    assert(geometry@.take(geometry@.len() as int) =~= geometry@);
    r
}

/// The big-endian number in four bytes.
pub open spec fn be_u32(b: Seq<u8>) -> int {
    b[0] * 0x100_0000 + b[1] * 0x1_0000 + b[2] * 0x100 + b[3]
}

fn read_be_u32(b: &Vec<u8>, at: usize) -> (r: u32)
    requires
        at + 4 <= b@.len(),
    ensures
        r == be_u32(b@.subrange(at as int, at + 4)),
{
    let total: usize = b.len();
    b[at] as u32 * 0x100_0000 + b[at + 1] as u32 * 0x1_0000 + b[at + 2] as u32 * 0x100 + b[at
        + 3] as u32
}

/// Whether the bytes begin with the signature of a PNG file and an image header
/// chunk.
pub open spec fn is_png_head(b: Seq<u8>) -> bool {
    &&& b.len() >= 24
    &&& b.take(8) == seq![0x89u8, 0x50, 0x4e, 0x47, 0x0d, 0x0a, 0x1a, 0x0a]
    &&& b.subrange(12, 16) == seq![0x49u8, 0x48, 0x44, 0x52]
}

/// The width and height in the header of a PNG file, of which `b` is the
/// beginning.
pub fn png_intrinsic_size(b: &Vec<u8>) -> (r: Option<(u32, u32)>)
    ensures
        match r {
            Some(s) => is_png_head(b@) && s.0 == be_u32(b@.subrange(16, 20)) && s.1 == be_u32(
                b@.subrange(20, 24),
            ),
            None => !is_png_head(b@),
        },
{
    if b.len() < 24 {
        return None;
    }
    if !(b[0] == 0x89 && b[1] == 0x50 && b[2] == 0x4e && b[3] == 0x47 && b[4] == 0x0d && b[5]
        == 0x0a && b[6] == 0x1a && b[7] == 0x0a) {
        proof {
            let sig = seq![0x89u8, 0x50, 0x4e, 0x47, 0x0d, 0x0a, 0x1a, 0x0a];
            if b@.take(8) == sig {
                assert(forall|i: int| 0 <= i < 8 ==> b@.take(8)[i] == b@[i]);
                assert(b@.take(8)[0] == sig[0] && b@.take(8)[1] == sig[1] && b@.take(8)[2]
                    == sig[2] && b@.take(8)[3] == sig[3] && b@.take(8)[4] == sig[4] && b@.take(
                    8,
                )[5] == sig[5] && b@.take(8)[6] == sig[6] && b@.take(8)[7] == sig[7]);
            }
        }
        return None;
    }
    assert(b@.take(8) =~= seq![0x89u8, 0x50, 0x4e, 0x47, 0x0d, 0x0a, 0x1a, 0x0a]);
    if !(b[12] == 0x49 && b[13] == 0x48 && b[14] == 0x44 && b[15] == 0x52) {
        proof {
            let tag = seq![0x49u8, 0x48, 0x44, 0x52];
            if b@.subrange(12, 16) == tag {
                assert(b@.subrange(12, 16)[0] == tag[0] && b@.subrange(12, 16)[1] == tag[1]
                    && b@.subrange(12, 16)[2] == tag[2] && b@.subrange(12, 16)[3] == tag[3]);
            }
        }
        return None;
    }
    assert(b@.subrange(12, 16) =~= seq![0x49u8, 0x48, 0x44, 0x52]);
    Some((read_be_u32(b, 16), read_be_u32(b, 20)))
}

// ===== Rotation =====

/// The size of the box around a rectangle of the given size turned by `deg`
/// degrees. `tilted` is that size at the angles that are no multiple of a right
/// angle.
pub open spec fn bbox(w: int, h: int, deg: int, tilted: (int, int)) -> (int, int) {
    let d = deg % 360;
    if d == 0 || d == 180 {
        (w, h)
    } else if d == 90 || d == 270 {
        (h, w)
    } else {
        (num::int_max(tilted.0, 1), num::int_max(tilted.1, 1))
    }
}

/// The box around a rectangle turned by `deg` degrees around its center.
pub open spec fn footprint(x: int, y: int, w: int, h: int, deg: int, tilted: (int, int)) -> (
    int,
    int,
    int,
    int,
) {
    let b = bbox(w, h, deg, tilted);
    (x + num::half(w - b.0), y + num::half(h - b.1), b.0, b.1)
}

/// The bounding box of a rectangle turned by `deg` degrees clockwise around its
/// center. `tilted` is the box at an angle that is no multiple of a right angle,
/// measured by the caller; it counts as one pixel at least.
pub fn rotated_bbox(size: (i32, i32), deg: i32, tilted: (i32, i32)) -> (r: (i32, i32))
    ensures
        (r.0 as int, r.1 as int) == bbox(
            size.0 as int,
            size.1 as int,
            deg as int,
            (tilted.0 as int, tilted.1 as int),
        ),
{
    let d: i32 = wrap_degrees(deg as i64);
    if d == 0 || d == 180 {
        return size;
    }
    if d == 90 || d == 270 {
        return (size.1, size.0);
    }
    (num::max_i32(tilted.0, 1), num::max_i32(tilted.1, 1))
}

/// Whether a box and its far corner have coordinates of the machine.
pub open spec fn rect_fits(f: (int, int, int, int)) -> bool {
    &&& num::is_i32(f.0)
    &&& num::is_i32(f.1)
    &&& num::is_i32(f.2)
    &&& num::is_i32(f.3)
    &&& num::is_i32(f.0 + f.2)
    &&& num::is_i32(f.1 + f.3)
}

/// The visible box of a turned rectangle, as far out as it may be.
pub fn wide_footprint(x: i32, y: i32, w: i32, h: i32, deg: i32, tilted: (i32, i32)) -> (r: (
    i64,
    i64,
    i64,
    i64,
))
    ensures
        (r.0 as int, r.1 as int, r.2 as int, r.3 as int) == footprint(
            x as int,
            y as int,
            w as int,
            h as int,
            deg as int,
            (tilted.0 as int, tilted.1 as int),
        ),
        i32::MIN <= r.2 <= i32::MAX,
        i32::MIN <= r.3 <= i32::MAX,
        -0x1_0000_0000 <= r.0 <= 0x1_0000_0000,
        -0x1_0000_0000 <= r.1 <= 0x1_0000_0000,
{
    let b: (i32, i32) = rotated_bbox((w, h), deg, tilted);
    let dw: i64 = w as i64 - b.0 as i64;
    let dh: i64 = h as i64 - b.1 as i64;
    (x as i64 + dw / 2, y as i64 + dh / 2, b.0 as i64, b.1 as i64)
}

/// The visible box of a rectangle turned by `deg` degrees around its center:
/// the corner moves so that the box stays centered.
pub fn rotated_footprint(x: i32, y: i32, w: i32, h: i32, deg: i32, tilted: (i32, i32)) -> (r: (
    i32,
    i32,
    i32,
    i32,
))
    requires
        num::is_i32(
            footprint(
                x as int,
                y as int,
                w as int,
                h as int,
                deg as int,
                (tilted.0 as int, tilted.1 as int),
            ).0,
        ),
        num::is_i32(
            footprint(
                x as int,
                y as int,
                w as int,
                h as int,
                deg as int,
                (tilted.0 as int, tilted.1 as int),
            ).1,
        ),
    ensures
        (r.0 as int, r.1 as int, r.2 as int, r.3 as int) == footprint(
            x as int,
            y as int,
            w as int,
            h as int,
            deg as int,
            (tilted.0 as int, tilted.1 as int),
        ),
{
    let f: (i64, i64, i64, i64) = wide_footprint(x, y, w, h, deg, tilted);
    (f.0 as i32, f.1 as i32, f.2 as i32, f.3 as i32)
}

// ===== Bounds of the content =====

/// What the caller has measured of one item of a config.
#[derive(Debug, Clone, Copy)]
pub struct Measure {
    /// The pixel size of an image, or the size that a text takes up
    pub natural: (i32, i32),
    /// The bounding box at an angle that is no multiple of a right angle
    pub tilted: (i32, i32),
}

/// What the caller has measured of the items of a config, in their order. What
/// is missing at the end counts as zero.
#[derive(Debug, Clone)]
pub struct Measures {
    pub regions: Vec<Measure>,
    pub elements: Vec<Measure>,
}

/// The measure of item `i`.
pub open spec fn nth_measure(s: Seq<Measure>, i: int) -> Measure {
    if 0 <= i < s.len() {
        s[i]
    } else {
        Measure { natural: (0, 0), tilted: (0, 0) }
    }
}

pub(crate) fn measure_at(v: &Vec<Measure>, i: usize) -> (r: Measure)
    ensures
        r == nth_measure(v@, i as int),
{
    if i < v.len() {
        v[i]
    } else {
        Measure { natural: (0, 0), tilted: (0, 0) }
    }
}

impl Measures {
    /// Nothing measured.
    pub fn none() -> (r: Measures)
        ensures
            r.regions@.len() == 0,
            r.elements@.len() == 0,
    {
        Measures { regions: Vec::new(), elements: Vec::new() }
    }
}

/// A size as the machine reads it into a signed number.
pub open spec fn signed(v: u32) -> int {
    if v >= 0x8000_0000 {
        v - 0x1_0000_0000
    } else {
        v as int
    }
}

pub(crate) fn to_signed(v: u32) -> (r: i32)
    ensures
        r == signed(v),
{
    if v >= 0x8000_0000 {
        (v as i64 - 0x1_0000_0000) as i32
    } else {
        v as i32
    }
}

/// The unrotated display size of a region: the display size where both sides are
/// positive, else the source size.
pub open spec fn logical_size(r: CaptureRegion) -> (int, int) {
    if r.display.width > 0 && r.display.height > 0 {
        (r.display.width as int, r.display.height as int)
    } else {
        (signed(r.source.width), signed(r.source.height))
    }
}

/// The unrotated rectangle of an element: an image without a size takes that of
/// the picture, a text that of its content.
pub open spec fn element_rect(ui: CustomUiElement, natural: (i32, i32)) -> (i32, i32, i32, i32) {
    match ui {
        CustomUiElement::Image(e) => (
            e.x,
            e.y,
            if e.width > 0 { e.width } else { natural.0 },
            if e.height > 0 { e.height } else { natural.1 },
        ),
        CustomUiElement::Text(t) => (t.x, t.y, natural.0, natural.1),
        _ => ui.rect(),
    }
}

/// The visible box of a region.
pub open spec fn region_footprint(r: CaptureRegion, m: Measure) -> (int, int, int, int) {
    let s = logical_size(r);
    footprint(
        r.display.x as int,
        r.display.y as int,
        s.0,
        s.1,
        r.display.rotate as int,
        (m.tilted.0 as int, m.tilted.1 as int),
    )
}

/// The visible box of an element.
pub open spec fn ui_footprint(ui: CustomUiElement, m: Measure) -> (int, int, int, int) {
    let e = element_rect(ui, m.natural);
    footprint(
        e.0 as int,
        e.1 as int,
        e.2 as int,
        e.3 as int,
        ui.degrees() as int,
        (m.tilted.0 as int, m.tilted.1 as int),
    )
}

/// The least number of a sequence.
pub open spec fn lowest(s: Seq<int>) -> int
    decreases s.len(),
{
    if s.len() <= 1 {
        s[0]
    } else {
        num::int_min(lowest(s.drop_last()), s.last())
    }
}

/// The greatest number of a sequence.
pub open spec fn highest(s: Seq<int>) -> int
    decreases s.len(),
{
    if s.len() <= 1 {
        s[0]
    } else {
        num::int_max(highest(s.drop_last()), s.last())
    }
}

pub open spec fn lefts(fs: Seq<(int, int, int, int)>) -> Seq<int> {
    fs.map_values(|f: (int, int, int, int)| f.0)
}

pub open spec fn tops(fs: Seq<(int, int, int, int)>) -> Seq<int> {
    fs.map_values(|f: (int, int, int, int)| f.1)
}

pub open spec fn rights(fs: Seq<(int, int, int, int)>) -> Seq<int> {
    fs.map_values(|f: (int, int, int, int)| f.0 + f.2)
}

pub open spec fn bottoms(fs: Seq<(int, int, int, int)>) -> Seq<int> {
    fs.map_values(|f: (int, int, int, int)| f.1 + f.3)
}

/// Whether there is content to put a window around.
pub open spec fn has_content(fs: Seq<(int, int, int, int)>) -> bool {
    fs.len() > 0 && highest(rights(fs)) != i32::MIN
}

/// The smallest box around the boxes `fs`, one pixel wide and high at least;
/// without content a box of a fixed size.
pub open spec fn tight_rect(fs: Seq<(int, int, int, int)>) -> (int, int, int, int) {
    if has_content(fs) {
        (
            lowest(lefts(fs)),
            lowest(tops(fs)),
            num::int_max(highest(rights(fs)) - lowest(lefts(fs)), 1),
            num::int_max(highest(bottoms(fs)) - lowest(tops(fs)), 1),
        )
    } else {
        (0, 0, 200, 150)
    }
}

/// How far the boxes reach from the origin to the right and down.
pub open spec fn reach(fs: Seq<(int, int, int, int)>) -> (int, int) {
    if fs.len() == 0 {
        (0, 0)
    } else {
        (num::int_max(0, highest(rights(fs))), num::int_max(0, highest(bottoms(fs))))
    }
}

/// Whether the boxes and the box around them have coordinates of the machine.
pub open spec fn boxes_fit(fs: Seq<(int, int, int, int)>) -> bool {
    &&& forall|i: int| 0 <= i < fs.len() ==> rect_fits(#[trigger] fs[i])
    &&& fs.len() > 0 ==> num::is_i32(highest(rights(fs)) - lowest(lefts(fs)))
    &&& fs.len() > 0 ==> num::is_i32(highest(bottoms(fs)) - lowest(tops(fs)))
}

/// The boxes of a list of wide boxes.
pub open spec fn box_views(v: Seq<(i64, i64, i64, i64)>) -> Seq<(int, int, int, int)> {
    v.map_values(|f: (i64, i64, i64, i64)| (f.0 as int, f.1 as int, f.2 as int, f.3 as int))
}

/// The least left, top and greatest right, bottom of a list of boxes.
fn extent(v: &Vec<(i64, i64, i64, i64)>) -> (r: (i64, i64, i64, i64))
    requires
        v@.len() > 0,
        forall|i: int| 0 <= i < v@.len() ==> wide_ok(#[trigger] v@[i]),
    ensures
        r.0 == lowest(lefts(box_views(v@))),
        r.1 == lowest(tops(box_views(v@))),
        r.2 == highest(rights(box_views(v@))),
        r.3 == highest(bottoms(box_views(v@))),
        -0x2_0000_0000 <= r.0 <= 0x2_0000_0000,
        -0x2_0000_0000 <= r.1 <= 0x2_0000_0000,
        -0x2_0000_0000 <= r.2 <= 0x2_0000_0000,
        -0x2_0000_0000 <= r.3 <= 0x2_0000_0000,
{
    let ghost fs = box_views(v@);
    let f0: (i64, i64, i64, i64) = v[0];
    assert(wide_ok(v@[0]));
    let mut r: (i64, i64, i64, i64) = (f0.0, f0.1, f0.0 + f0.2, f0.1 + f0.3);
    for i in 1..v.len()
        invariant
            v@.len() > 0,
            fs == box_views(v@),
            forall|i: int| 0 <= i < v@.len() ==> wide_ok(#[trigger] v@[i]),
            r.0 == lowest(lefts(fs).take(i as int)),
            r.1 == lowest(tops(fs).take(i as int)),
            r.2 == highest(rights(fs).take(i as int)),
            r.3 == highest(bottoms(fs).take(i as int)),
            -0x2_0000_0000 <= r.0 <= 0x2_0000_0000,
            -0x2_0000_0000 <= r.1 <= 0x2_0000_0000,
            -0x2_0000_0000 <= r.2 <= 0x2_0000_0000,
            -0x2_0000_0000 <= r.3 <= 0x2_0000_0000,
    {
        let f: (i64, i64, i64, i64) = v[i];
        proof {
            assert(wide_ok(v@[i as int]));
            assert(lefts(fs).take(i + 1).drop_last() =~= lefts(fs).take(i as int));
            assert(tops(fs).take(i + 1).drop_last() =~= tops(fs).take(i as int));
            assert(rights(fs).take(i + 1).drop_last() =~= rights(fs).take(i as int));
            assert(bottoms(fs).take(i + 1).drop_last() =~= bottoms(fs).take(i as int));
        }
        let right: i64 = f.0 + f.2;
        let bottom: i64 = f.1 + f.3;
        r = (
            if r.0 <= f.0 { r.0 } else { f.0 },
            if r.1 <= f.1 { r.1 } else { f.1 },
            if r.2 >= right { r.2 } else { right },
            if r.3 >= bottom { r.3 } else { bottom },
        );
    }
    proof {
        assert(lefts(fs).take(v@.len() as int) =~= lefts(fs));
        assert(tops(fs).take(v@.len() as int) =~= tops(fs));
        assert(rights(fs).take(v@.len() as int) =~= rights(fs));
        assert(bottoms(fs).take(v@.len() as int) =~= bottoms(fs));
    }
    r
}

/// The range of the numbers in a wide box.
pub open spec fn wide_ok(f: (i64, i64, i64, i64)) -> bool {
    &&& -0x1_0000_0000 <= f.0 <= 0x1_0000_0000
    &&& -0x1_0000_0000 <= f.1 <= 0x1_0000_0000
    &&& i32::MIN <= f.2 <= i32::MAX
    &&& i32::MIN <= f.3 <= i32::MAX
}

fn fits_i32(v: i64) -> (r: bool)
    ensures
        r == num::is_i32(v as int),
{
    -0x8000_0000 <= v && v <= 0x7fff_ffff
}

proof fn lemma_extremes(s: Seq<int>)
    requires
        s.len() > 0,
    ensures
        forall|i: int| 0 <= i < s.len() ==> lowest(s) <= #[trigger] s[i] <= highest(s),
        exists|i: int| 0 <= i < s.len() && #[trigger] s[i] == lowest(s),
        exists|i: int| 0 <= i < s.len() && #[trigger] s[i] == highest(s),
    decreases s.len(),
{
    if s.len() > 1 {
        let t = s.drop_last();
        lemma_extremes(t);
        assert forall|i: int| 0 <= i < s.len() implies lowest(s) <= #[trigger] s[i] <= highest(
            s,
        ) by {
            if i < t.len() {
                assert(t[i] == s[i]);
            }
        }
        let a = choose|i: int| 0 <= i < t.len() && #[trigger] t[i] == lowest(t);
        let b = choose|i: int| 0 <= i < t.len() && #[trigger] t[i] == highest(t);
        assert(s[a] == lowest(t) && s[b] == highest(t));
        assert(s[s.len() - 1] == s.last());
    } else {
        assert(s[0] == lowest(s));
    }
}

impl Config {
    /// The visible boxes of the content: those of the regions, then those of the
    /// elements.
    pub open spec fn footprints(self, m: Measures) -> Seq<(int, int, int, int)> {
        Seq::new(
            self.capture_regions@.len(),
            |i: int| region_footprint(self.capture_regions@[i], nth_measure(m.regions@, i)),
        ) + Seq::new(
            self.custom_ui@.len(),
            |i: int| ui_footprint(self.custom_ui@[i], nth_measure(m.elements@, i)),
        )
    }

    fn footprint_list(&self, m: &Measures) -> (r: Vec<(i64, i64, i64, i64)>)
        ensures
            box_views(r@) == self.footprints(*m),
            forall|i: int| 0 <= i < r@.len() ==> wide_ok(#[trigger] r@[i]),
    {
        let ghost all = self.footprints(*m);
        let ghost nr = self.capture_regions@.len() as int;
        let mut v: Vec<(i64, i64, i64, i64)> = Vec::new();
        for i in 0..self.capture_regions.len()
            invariant
                all == self.footprints(*m),
                box_views(v@) == all.take(i as int),
                forall|j: int| 0 <= j < v@.len() ==> wide_ok(#[trigger] v@[j]),
        {
            let d: &DisplayRect = &self.capture_regions[i].display;
            let (dw, dh) = self.region_logical_size(&self.capture_regions[i]);
            let t: Measure = measure_at(&m.regions, i);
            let f: (i64, i64, i64, i64) = wide_footprint(d.x, d.y, dw, dh, d.rotate, t.tilted);
            let ghost before = v@;
            v.push(f);
            assert(box_views(v@) =~= box_views(before).push(all[i as int]));
            assert(box_views(v@) =~= all.take(i + 1));
        }
        for i in 0..self.custom_ui.len()
            invariant
                all == self.footprints(*m),
                nr == self.capture_regions@.len(),
                box_views(v@) == all.take(nr + i),
                forall|j: int| 0 <= j < v@.len() ==> wide_ok(#[trigger] v@[j]),
        {
            let t: Measure = measure_at(&m.elements, i);
            let (x, y, w, h) = self.element_footprint(&self.custom_ui[i], t.natural);
            let f: (i64, i64, i64, i64) = wide_footprint(
                x,
                y,
                w,
                h,
                self.custom_ui[i].rotate(),
                t.tilted,
            );
            let ghost before = v@;
            v.push(f);
            assert(box_views(v@) =~= box_views(before).push(all[nr + i]));
            assert(box_views(v@) =~= all.take(nr + i + 1));
        }
        assert(all.take(all.len() as int) =~= all);
        v
    }

    /// Whether the visible boxes of the content, and the box around them, have
    /// coordinates of the machine.
    pub fn in_range(&self, m: &Measures) -> (r: bool)
        ensures
            r == boxes_fit(self.footprints(*m)),
    {
        let v: Vec<(i64, i64, i64, i64)> = self.footprint_list(m);
        let ghost fs = self.footprints(*m);
        if v.len() == 0 {
            return true;
        }
        for i in 0..v.len()
            invariant
                fs == self.footprints(*m),
                fs == box_views(v@),
                forall|j: int| 0 <= j < v@.len() ==> wide_ok(#[trigger] v@[j]),
                forall|j: int| 0 <= j < i ==> rect_fits(#[trigger] fs[j]),
        {
            let f: (i64, i64, i64, i64) = v[i];
            assert(wide_ok(v@[i as int]));
            assert(fs[i as int] == (f.0 as int, f.1 as int, f.2 as int, f.3 as int));
            if !(fits_i32(f.0) && fits_i32(f.1) && fits_i32(f.0 + f.2) && fits_i32(f.1 + f.3)) {
                assert(!rect_fits(fs[i as int]));
                return false;
            }
        }
        let e: (i64, i64, i64, i64) = extent(&v);
        fits_i32(e.2 - e.0) && fits_i32(e.3 - e.1)
    }

    /// The overlay window of the editor's canvas: the anchor, and how far the
    /// content reaches right and down. Without content the size is (200, 150).
    pub fn overlay_bounds(&self, m: &Measures) -> (r: (i32, i32, i32, i32))
        requires
            boxes_fit(self.footprints(*m)),
        ensures
            match self.settings.window {
                Some(w) => r.0 == w.x && r.1 == w.y,
                None => r.0 == 0 && r.1 == 0,
            },
            ({
                let e = reach(self.footprints(*m));
                if e.0 == 0 && e.1 == 0 {
                    r.2 == 200 && r.3 == 150
                } else {
                    r.2 == num::int_max(e.0, 1) && r.3 == num::int_max(e.1, 1)
                }
            }),
    {
        let (wx, wy): (i32, i32) = match &self.settings.window {
            Some(w) => (w.x, w.y),
            None => (0, 0),
        };
        let v: Vec<(i64, i64, i64, i64)> = self.footprint_list(m);
        let ghost fs = self.footprints(*m);
        if v.len() == 0 {
            return (wx, wy, 200, 150);
        }
        let e: (i64, i64, i64, i64) = extent(&v);
        proof {
            lemma_extremes(rights(fs));
            lemma_extremes(bottoms(fs));
            let a = choose|i: int|
                0 <= i < rights(fs).len() && #[trigger] rights(fs)[i] == highest(rights(fs));
            let b = choose|i: int|
                0 <= i < bottoms(fs).len() && #[trigger] bottoms(fs)[i] == highest(bottoms(fs));
            assert(rect_fits(fs[a]) && rect_fits(fs[b]));
        }
        let max_x: i32 = num::max_i32(0, e.2 as i32);
        let max_y: i32 = num::max_i32(0, e.3 as i32);
        if max_x == 0 && max_y == 0 {
            return (wx, wy, 200, 150);
        }
        (wx, wy, num::max_i32(max_x, 1), num::max_i32(max_y, 1))
    }

    /// The window tight around the content: the least corner of the visible
    /// boxes, and the size of the box around them. Without content it is
    /// (0, 0, 200, 150).
    pub fn tight_bounds(&self, m: &Measures) -> (r: (i32, i32, i32, i32))
        requires
            boxes_fit(self.footprints(*m)),
        ensures
            (r.0 as int, r.1 as int, r.2 as int, r.3 as int) == tight_rect(self.footprints(*m)),
    {
        let v: Vec<(i64, i64, i64, i64)> = self.footprint_list(m);
        let ghost fs = self.footprints(*m);
        if v.len() == 0 {
            return (0, 0, 200, 150);
        }
        let e: (i64, i64, i64, i64) = extent(&v);
        proof {
            lemma_extremes(lefts(fs));
            lemma_extremes(tops(fs));
            let a = choose|i: int|
                0 <= i < lefts(fs).len() && #[trigger] lefts(fs)[i] == lowest(lefts(fs));
            let b = choose|i: int|
                0 <= i < tops(fs).len() && #[trigger] tops(fs)[i] == lowest(tops(fs));
            assert(rect_fits(fs[a]) && rect_fits(fs[b]));
        }
        if e.2 == -0x8000_0000 {
            return (0, 0, 200, 150);
        }
        (
            e.0 as i32,
            e.1 as i32,
            num::max_i32((e.2 - e.0) as i32, 1),
            num::max_i32((e.3 - e.1) as i32, 1),
        )
    }

    /// The unrotated rectangle of an element. `natural` is the pixel size of an
    /// image, or the size that a text takes up.
    pub fn element_footprint(&self, ui: &CustomUiElement, natural: (i32, i32)) -> (r: (
        i32,
        i32,
        i32,
        i32,
    ))
        ensures
            r == element_rect(*ui, natural),
    {
        match ui {
            CustomUiElement::Image(e) => (
                e.x,
                e.y,
                if e.width > 0 { e.width } else { natural.0 },
                if e.height > 0 { e.height } else { natural.1 },
            ),
            CustomUiElement::Text(t) => (t.x, t.y, natural.0, natural.1),
            _ => ui.geometry(),
        }
    }

    /// The unrotated display size of a region: the display size where it is set,
    /// else the source size.
    pub fn region_logical_size(&self, r: &CaptureRegion) -> (s: (i32, i32))
        ensures
            (s.0 as int, s.1 as int) == logical_size(*r),
    {
        if r.display.width > 0 && r.display.height > 0 {
            (r.display.width, r.display.height)
        } else {
            (to_signed(r.source.width), to_signed(r.source.height))
        }
    }

    /// The global opacity; one where it is unset.
    pub open spec fn global_opacity(self) -> Opacity {
        match self.settings.global_opacity {
            Some(o) => o,
            None => Opacity::spec_one(),
        }
    }

    /// The global opacity: one where it is unset.
    pub fn effective_global_opacity(&self) -> (r: Opacity)
        ensures
            r == self.global_opacity(),
    {
        match self.settings.global_opacity {
            Some(o) => o,
            None => Opacity::one(),
        }
    }

    /// The opacity of an element: its own where it is set, else the global one.
    pub fn effective_opacity(&self, elem: Option<Opacity>) -> (r: Opacity)
        ensures
            r == (match elem {
                Some(o) => o,
                None => self.global_opacity(),
            }),
    {
        match elem {
            Some(o) => o,
            None => self.effective_global_opacity(),
        }
    }

    /// Brings the fields of a config that was read into their ranges, and moves
    /// the render order of older files into the display rectangle.
    pub fn validate(&mut self)
        ensures
            final(self).settings == (Settings {
                global_opacity: opacity::clamped_option(old(self).settings.global_opacity),
                ..old(self).settings
            }),
            final(self).capture_regions@ == old(self).capture_regions@.map_values(
                |r: CaptureRegion| valid_region(r),
            ),
            final(self).custom_ui == old(self).custom_ui,
    {
        self.settings.global_opacity = clamp_option(self.settings.global_opacity);
        let ghost before = self.capture_regions@;
        let n: usize = self.capture_regions.len();
        for i in 0..n
            invariant
                n == self.capture_regions@.len(),
                before == old(self).capture_regions@,
                before.len() == n,
                self.settings == (Settings {
                    global_opacity: opacity::clamped_option(old(self).settings.global_opacity),
                    ..old(self).settings
                }),
                self.custom_ui == old(self).custom_ui,
                forall|j: int|
                    0 <= j < i ==> #[trigger] self.capture_regions@[j] == valid_region(before[j]),
                forall|j: int| i <= j < n ==> #[trigger] self.capture_regions@[j] == before[j],
        {
            let o: Option<Opacity> = clamp_option(self.capture_regions[i].display.opacity);
            self.capture_regions[i].display.opacity = o;
            if self.capture_regions[i].source.width == 0 {
                self.capture_regions[i].source.width = 60;
            }
            if self.capture_regions[i].source.height == 0 {
                self.capture_regions[i].source.height = 60;
            }
            let z: Option<i32> = self.capture_regions[i].z_order;
            if let Some(v) = z {
                self.capture_regions[i].display.z_order = v;
            }
            self.capture_regions[i].z_order = None;
        }
        assert(self.capture_regions@ =~= before.map_values(|r: CaptureRegion| valid_region(r)));
    }

    /// Moves the content by (-dx, -dy).
    pub fn shift_content(&mut self, dx: i32, dy: i32)
        requires
            forall|i: int|
                0 <= i < old(self).capture_regions@.len() ==> num::is_i32(
                    (#[trigger] old(self).capture_regions@[i]).display.x - dx,
                ) && num::is_i32(old(self).capture_regions@[i].display.y - dy),
            forall|i: int|
                0 <= i < old(self).custom_ui@.len() ==> num::is_i32(
                    (#[trigger] old(self).custom_ui@[i]).rect().0 - dx,
                ) && num::is_i32(old(self).custom_ui@[i].rect().1 - dy),
        ensures
            final(self).settings == old(self).settings,
            final(self).capture_regions@ == old(self).capture_regions@.map_values(
                |r: CaptureRegion| shifted_region(r, dx as int, dy as int),
            ),
            final(self).custom_ui@ == old(self).custom_ui@.map_values(
                |u: CustomUiElement| u.shifted(dx as int, dy as int),
            ),
    {
        let n: usize = self.capture_regions.len();
        for i in 0..n
            invariant
                n == self.capture_regions@.len(),
                n == old(self).capture_regions@.len(),
                self.settings == old(self).settings,
                self.custom_ui == old(self).custom_ui,
                forall|i: int|
                    0 <= i < old(self).capture_regions@.len() ==> num::is_i32(
                        (#[trigger] old(self).capture_regions@[i]).display.x - dx,
                    ) && num::is_i32(old(self).capture_regions@[i].display.y - dy),
                forall|j: int|
                    0 <= j < i ==> #[trigger] self.capture_regions@[j] == shifted_region(
                        old(self).capture_regions@[j],
                        dx as int,
                        dy as int,
                    ),
                forall|j: int|
                    i <= j < n ==> #[trigger] self.capture_regions@[j] == old(
                        self).capture_regions@[j],
        {
            assert(self.capture_regions@[i as int] == old(self).capture_regions@[i as int]);
            let x: i32 = self.capture_regions[i].display.x - dx;
            let y: i32 = self.capture_regions[i].display.y - dy;
            self.capture_regions[i].display.x = x;
            self.capture_regions[i].display.y = y;
        }
        assert(self.capture_regions@ =~= old(self).capture_regions@.map_values(
            |r: CaptureRegion| shifted_region(r, dx as int, dy as int),
        ));
        let m: usize = self.custom_ui.len();
        let ghost regions = self.capture_regions;
        for i in 0..m
            invariant
                m == self.custom_ui@.len(),
                m == old(self).custom_ui@.len(),
                self.settings == old(self).settings,
                self.capture_regions == regions,
                forall|i: int|
                    0 <= i < old(self).custom_ui@.len() ==> num::is_i32(
                        (#[trigger] old(self).custom_ui@[i]).rect().0 - dx,
                    ) && num::is_i32(old(self).custom_ui@[i].rect().1 - dy),
                forall|j: int|
                    0 <= j < i ==> #[trigger] self.custom_ui@[j] == old(
                        self).custom_ui@[j].shifted(dx as int, dy as int),
                forall|j: int|
                    i <= j < m ==> #[trigger] self.custom_ui@[j] == old(self).custom_ui@[j],
        {
            assert(self.custom_ui@[i as int] == old(self).custom_ui@[i as int]);
            self.custom_ui[i].shift_xy(dx, dy);
        }
        assert(self.custom_ui@ =~= old(self).custom_ui@.map_values(
            |u: CustomUiElement| u.shifted(dx as int, dy as int),
        ));
    }
}

/// A region with its fields brought into their ranges.
pub open spec fn valid_region(r: CaptureRegion) -> CaptureRegion {
    CaptureRegion {
        id: r.id,
        source: Rect {
            x: r.source.x,
            y: r.source.y,
            width: if r.source.width == 0 { 60 } else { r.source.width },
            height: if r.source.height == 0 { 60 } else { r.source.height },
        },
        display: DisplayRect {
            opacity: opacity::clamped_option(r.display.opacity),
            z_order: match r.z_order {
                Some(z) => z,
                None => r.display.z_order,
            },
            ..r.display
        },
        z_order: None,
    }
}

/// A region displayed at a place moved by (-dx, -dy).
pub open spec fn shifted_region(r: CaptureRegion, dx: int, dy: int) -> CaptureRegion {
    CaptureRegion {
        display: DisplayRect {
            x: (r.display.x - dx) as i32,
            y: (r.display.y - dy) as i32,
            ..r.display
        },
        ..r
    }
}

// ===== Config file scanning =====

/// Whether a file of this name is a region config file.
pub open spec fn is_config_name(f: Seq<char>) -> bool {
    f.len() > 4 && text::ends_with(f, ".yml"@) && f != "settings.yml"@
}

/// The region config files among the files of the program's directory, sorted.
pub fn scan_config_files(files: &Vec<String>) -> (r: Vec<String>)
    ensures
        names::sorted_texts(views(r@)),
        views(r@).to_multiset() == views(files@).filter(
            |f: Seq<char>| is_config_name(f),
        ).to_multiset(),
{
    let ghost keep = |f: Seq<char>| is_config_name(f);
    let ext: Vec<char> = chars_of(".yml");
    let mut found: Vec<String> = Vec::new();
    for i in 0..files.len()
        invariant
            ext@ == ".yml"@,
            keep == (|f: Seq<char>| is_config_name(f)),
            views(found@) == views(files@).take(i as int).filter(keep),
    {
        proof {
            assert(views(files@).take(i + 1).drop_last() =~= views(files@).take(i as int));
            assert(views(files@).take(i + 1).last() == files@[i as int]@);
            reveal(Seq::filter);
        }
        let name: Vec<char> = chars_of(files[i].as_str());
        if name.len() > 4 && chars_end_with(&name, &ext) && !same_text(
            files[i].as_str(),
            "settings.yml",
        ) {
            let ghost before = found@;
            found.push(files[i].clone());
            assert(views(found@) =~= views(before).push(files@[i as int]@));
        }
    }
    assert(views(files@).take(files@.len() as int) =~= views(files@));
    sort_names(&found)
}

// ===== Laws =====

/// Turning a rectangle by full circles more changes nothing; a half turn keeps
/// the size and a quarter turn swaps the sides.
pub proof fn law_bbox_turns(w: int, h: int, deg: int, n: int, tilted: (int, int))
    ensures
        bbox(w, h, deg + 360 * n, tilted) == bbox(w, h, deg, tilted),
        bbox(w, h, 180, tilted) == (w, h),
        bbox(w, h, 90, tilted) == (h, w),
        bbox(w, h, 270, tilted) == (h, w),
{
    assert((deg + 360 * n) % 360 == deg % 360) by (nonlinear_arith);
}

/// The visible box is centered where the rectangle is, to half a pixel.
pub proof fn law_footprint_is_centered(
    x: int,
    y: int,
    w: int,
    h: int,
    deg: int,
    tilted: (int, int),
)
    ensures
        ({
            let f = footprint(x, y, w, h, deg, tilted);
            &&& -1 <= (2 * f.0 + f.2) - (2 * x + w) <= 1
            &&& -1 <= (2 * f.1 + f.3) - (2 * y + h) <= 1
        }),
{
}

/// Every visible box lies inside the tight window, and each side of the window
/// touches one (the far sides where the content is not empty).
pub proof fn law_tight_rect_is_tight(fs: Seq<(int, int, int, int)>)
    requires
        has_content(fs),
    ensures
        ({
            let t = tight_rect(fs);
            &&& forall|i: int|
                0 <= i < fs.len() ==> {
                    &&& t.0 <= (#[trigger] fs[i]).0
                    &&& t.1 <= fs[i].1
                    &&& fs[i].0 + fs[i].2 <= t.0 + t.2
                    &&& fs[i].1 + fs[i].3 <= t.1 + t.3
                }
            &&& exists|i: int| 0 <= i < fs.len() && (#[trigger] fs[i]).0 == t.0
            &&& exists|i: int| 0 <= i < fs.len() && (#[trigger] fs[i]).1 == t.1
            &&& t.2 > 1 ==> exists|i: int|
                0 <= i < fs.len() && (#[trigger] fs[i]).0 + fs[i].2 == t.0 + t.2
            &&& t.3 > 1 ==> exists|i: int|
                0 <= i < fs.len() && (#[trigger] fs[i]).1 + fs[i].3 == t.1 + t.3
        }),
{
    let t = tight_rect(fs);
    lemma_extremes(lefts(fs));
    lemma_extremes(tops(fs));
    lemma_extremes(rights(fs));
    lemma_extremes(bottoms(fs));
    assert forall|i: int| 0 <= i < fs.len() implies t.0 <= (#[trigger] fs[i]).0 && t.1 <= fs[i].1
        && fs[i].0 + fs[i].2 <= t.0 + t.2 && fs[i].1 + fs[i].3 <= t.1 + t.3 by {
        assert(lefts(fs)[i] == fs[i].0 && tops(fs)[i] == fs[i].1);
        assert(rights(fs)[i] == fs[i].0 + fs[i].2 && bottoms(fs)[i] == fs[i].1 + fs[i].3);
    }
    let a = choose|i: int|
        0 <= i < lefts(fs).len() && #[trigger] lefts(fs)[i] == lowest(lefts(fs));
    let b = choose|i: int| 0 <= i < tops(fs).len() && #[trigger] tops(fs)[i] == lowest(tops(fs));
    let c = choose|i: int|
        0 <= i < rights(fs).len() && #[trigger] rights(fs)[i] == highest(rights(fs));
    let d = choose|i: int|
        0 <= i < bottoms(fs).len() && #[trigger] bottoms(fs)[i] == highest(bottoms(fs));
    assert(fs[a].0 == t.0 && fs[b].1 == t.1);
    assert(t.2 > 1 ==> fs[c].0 + fs[c].2 == t.0 + t.2);
    assert(t.3 > 1 ==> fs[d].1 + fs[d].3 == t.1 + t.3);
}

proof fn lemma_shift_extremes(s: Seq<int>, t: Seq<int>, d: int)
    requires
        s.len() == t.len(),
        s.len() > 0,
        forall|i: int| 0 <= i < s.len() ==> #[trigger] t[i] == s[i] - d,
    ensures
        lowest(t) == lowest(s) - d,
        highest(t) == highest(s) - d,
    decreases s.len(),
{
    if s.len() > 1 {
        assert forall|i: int| 0 <= i < s.drop_last().len() implies #[trigger] t.drop_last()[i]
            == s.drop_last()[i] - d by {
            assert(t[i] == s[i] - d);
        }
        lemma_shift_extremes(s.drop_last(), t.drop_last(), d);
        assert(t.last() == t[t.len() - 1]);
    } else {
        assert(t[0] == s[0] - d);
    }
}

/// Moving the content by the corner of its tight window puts the window at the
/// origin with the same size, and a window placed at that corner shows every
/// box where it was on the screen.
pub proof fn law_shift_to_window(before: Config, after: Config, m: Measures)
    requires
        has_content(before.footprints(m)),
        highest(rights(before.footprints(m))) - lowest(lefts(before.footprints(m))) != i32::MIN,
        ({
            let t = tight_rect(before.footprints(m));
            &&& after.capture_regions@ == before.capture_regions@.map_values(
                |r: CaptureRegion| shifted_region(r, t.0, t.1),
            )
            &&& after.custom_ui@ == before.custom_ui@.map_values(
                |u: CustomUiElement| u.shifted(t.0, t.1),
            )
            &&& forall|i: int|
                0 <= i < before.capture_regions@.len() ==> num::is_i32(
                    (#[trigger] before.capture_regions@[i]).display.x - t.0,
                ) && num::is_i32(before.capture_regions@[i].display.y - t.1)
            &&& forall|i: int|
                0 <= i < before.custom_ui@.len() ==> num::is_i32(
                    (#[trigger] before.custom_ui@[i]).rect().0 - t.0,
                ) && num::is_i32(before.custom_ui@[i].rect().1 - t.1)
        }),
    ensures
        ({
            let fs = before.footprints(m);
            let gs = after.footprints(m);
            let t = tight_rect(fs);
            &&& tight_rect(gs) == (0int, 0int, t.2, t.3)
            &&& gs.len() == fs.len()
            &&& forall|i: int|
                0 <= i < fs.len() ==> {
                    &&& t.0 + (#[trigger] gs[i]).0 == fs[i].0
                    &&& t.1 + gs[i].1 == fs[i].1
                    &&& gs[i].2 == fs[i].2
                    &&& gs[i].3 == fs[i].3
                }
        }),
{
    let fs = before.footprints(m);
    let gs = after.footprints(m);
    let t = tight_rect(fs);
    let nr = before.capture_regions@.len() as int;
    assert forall|i: int| 0 <= i < fs.len() implies t.0 + (#[trigger] gs[i]).0 == fs[i].0 && t.1
        + gs[i].1 == fs[i].1 && gs[i].2 == fs[i].2 && gs[i].3 == fs[i].3 by {
        if i < nr {
            let r = before.capture_regions@[i];
            assert(after.capture_regions@[i] == shifted_region(r, t.0, t.1));
        } else {
            let u = before.custom_ui@[i - nr];
            assert(after.custom_ui@[i - nr] == u.shifted(t.0, t.1));
        }
    }
    assert forall|i: int| 0 <= i < fs.len() implies #[trigger] lefts(gs)[i] == lefts(fs)[i]
        - t.0 by {
        assert(t.0 + gs[i].0 == fs[i].0);
    }
    assert forall|i: int| 0 <= i < fs.len() implies #[trigger] rights(gs)[i] == rights(fs)[i]
        - t.0 by {
        assert(t.0 + gs[i].0 == fs[i].0);
    }
    assert forall|i: int| 0 <= i < fs.len() implies #[trigger] tops(gs)[i] == tops(fs)[i]
        - t.1 by {
        assert(t.1 + gs[i].1 == fs[i].1);
    }
    assert forall|i: int| 0 <= i < fs.len() implies #[trigger] bottoms(gs)[i] == bottoms(fs)[i]
        - t.1 by {
        assert(t.1 + gs[i].1 == fs[i].1);
    }
    lemma_shift_extremes(lefts(fs), lefts(gs), t.0);
    lemma_shift_extremes(rights(fs), rights(gs), t.0);
    lemma_shift_extremes(tops(fs), tops(gs), t.1);
    lemma_shift_extremes(bottoms(fs), bottoms(gs), t.1);
}

/// Validating a region twice is the same as once; a validated region has a
/// source size, an opacity in its range, and no render order but that of its
/// display rectangle.
pub proof fn law_valid_region_settles(r: CaptureRegion)
    ensures
        valid_region(valid_region(r)) == valid_region(r),
        valid_region(r).source.width > 0,
        valid_region(r).source.height > 0,
        valid_region(r).z_order is None,
        match valid_region(r).display.opacity {
            Some(o) => !opacity::below_zero(o.bits) && !opacity::above_one(o.bits),
            None => r.display.opacity is None,
        },
{
}

/// Pruning leaves no reference that pruning would remove: a second time removes
/// nothing.
pub proof fn law_pruning_settles(list: Seq<Seq<char>>, existing: Seq<Seq<char>>)
    ensures
        list.filter(keeps_ref(existing)).filter(keeps_ref(existing)) == list.filter(
            keeps_ref(existing),
        ),
        forall|i: int|
            0 <= i < list.filter(keeps_ref(existing)).len() ==> keeps_ref(existing)(
                #[trigger] list.filter(keeps_ref(existing))[i],
            ),
{
    names::lemma_filter_settles(list, keeps_ref(existing));
}

/// A config file that is switched on is on, one that is switched off is off,
/// and the others stay as they were. To switch again changes nothing.
pub proof fn law_set_enabled(before: Seq<Seq<char>>, name: Seq<char>, on: bool, other: Seq<char>)
    ensures
        switched(before, name, on).contains(name) == on,
        other != name ==> switched(before, name, on).contains(other) == before.contains(other),
        switched(switched(before, name, on), name, on) == switched(before, name, on),
{
    let pushed = before.push(name);
    assert(pushed[before.len() as int] == name);
    if before.contains(other) {
        let i = choose|i: int| 0 <= i < before.len() && before[i] == other;
        assert(pushed[i] == other);
    }
    if other != name && pushed.contains(other) {
        let i = choose|i: int| 0 <= i < pushed.len() && pushed[i] == other;
        assert(before[i] == other);
    }
    names::lemma_filter_contains(before, names::differs(name), name);
    names::lemma_filter_contains(before, names::differs(name), other);
    if !on {
        names::lemma_filter_settles(before, names::differs(name));
    }
}

/// The staged preferences come out once, as the last ones that were staged.
pub proof fn law_prefs_come_out_once(slot: Option<(i32, i32, i32)>, prefs: (i32, i32, i32))
    ensures
        prefs_taken(prefs_saved(slot, prefs)).0 == Some(prefs),
        prefs_taken(prefs_taken(slot).1).0 is None,
{
}

/// A byte order mark comes off once, and only from the beginning of a text.
pub proof fn law_bom_comes_off(s: Seq<char>, c: char)
    ensures
        without_bom(seq!['\u{FEFF}'] + s) == s,
        c != '\u{FEFF}' ==> without_bom(seq![c] + s) == seq![c] + s,
        without_bom(Seq::<char>::empty()).len() == 0,
{
    assert((seq!['\u{FEFF}'] + s).drop_first() =~= s);
}

/// Pruning keeps the references to files that exist and are not of the old kind,
/// in their order, and takes out all others: a list in two parts is pruned part
/// by part.
pub proof fn law_pruning_keeps_what_exists(
    a: Seq<Seq<char>>,
    b: Seq<Seq<char>>,
    existing: Seq<Seq<char>>,
    name: Seq<char>,
)
    ensures
        a.filter(keeps_ref(existing)).contains(name) == (a.contains(name) && existing.contains(name)
            && !text::is_yaml_name(name)),
        (a + b).filter(keeps_ref(existing)) == a.filter(keeps_ref(existing)) + b.filter(
            keeps_ref(existing),
        ),
{
    names::lemma_filter_contains(a, keeps_ref(existing), name);
    Seq::filter_distributes_over_add(a, b, keeps_ref(existing));
}

/// Loading settings brings the frame rate into 1 to 240 and changes nothing
/// else.
pub proof fn law_loaded_settings(s: GlobalSettings)
    ensures
        s.in_range() == (GlobalSettings { fps: s.in_range().fps, ..s }),
        1 <= s.fps <= 240 ==> s.in_range().fps == s.fps,
        s.fps < 1 ==> s.in_range().fps == 1,
        s.fps > 240 ==> s.in_range().fps == 240,
{
}

/// Every kind of element has its corner, rotation and opacity, and all but texts
/// have a size.
pub proof fn law_element_fields(
    f: FrameElement,
    b: BackgroundElement,
    i: ImageElement,
    t: TextElement,
)
    ensures
        CustomUiElement::Frame(f).rect() == (f.x, f.y, f.width, f.height),
        CustomUiElement::Background(b).rect() == (b.x, b.y, b.width, b.height),
        CustomUiElement::Image(i).rect() == (i.x, i.y, i.width, i.height),
        CustomUiElement::Text(t).rect() == (t.x, t.y, 0i32, 0i32),
        CustomUiElement::Frame(f).degrees() == f.rotate,
        CustomUiElement::Background(b).degrees() == b.rotate,
        CustomUiElement::Image(i).degrees() == i.rotate,
        CustomUiElement::Text(t).degrees() == t.rotate,
        CustomUiElement::Frame(f).own_opacity() == f.opacity,
        CustomUiElement::Background(b).own_opacity() == b.opacity,
        CustomUiElement::Image(i).own_opacity() == i.opacity,
        CustomUiElement::Text(t).own_opacity() == t.opacity,
{
}

/// A bare scalar reads as it is written; nothing reads as an empty text.
pub proof fn law_scalars_read_as_written(s: String)
    ensures
        scalar_text(Scalar::Text(s)) == s@,
        scalar_text(Scalar::Number(s)) == s@,
        scalar_text(Scalar::Flag(true)) == "true"@,
        scalar_text(Scalar::Flag(false)) == "false"@,
        scalar_text(Scalar::Null).len() == 0,
{
    reveal_strlit("");
}

/// An item without a type is not kept, and one with a type exactly where that is
/// one of the four.
pub proof fn law_kept_types(t: String)
    ensures
        !keeps_item(None),
        keeps_item(Some(t)) == (t@ == "frame"@ || t@ == "background"@ || t@ == "image"@ || t@
            == "text"@),
{
}

/// The last entry with a key decides what the key stands for.
pub proof fn law_last_entry_counts(entries: Seq<(String, usize)>, e: (String, usize), k: Seq<char>)
    ensures
        lookup(entries.push(e), e.0@) == Some(e.1),
        k != e.0@ ==> lookup(entries.push(e), k) == lookup(entries, k),
        lookup(Seq::<(String, usize)>::empty(), k) is None,
{
    assert(entries.push(e).drop_last() =~= entries);
}

/// Four bytes are read with the first as the highest.
pub proof fn law_big_endian(a: u8, b: u8, c: u8, d: u8)
    ensures
        be_u32(seq![a, b, c, d]) == ((a * 256 + b) * 256 + c) * 256 + d,
{
}

/// What was not measured counts as zero.
pub proof fn law_missing_measures(s: Seq<Measure>, i: int)
    ensures
        0 <= i < s.len() ==> nth_measure(s, i) == s[i],
        i < 0 || i >= s.len() ==> nth_measure(s, i).natural == (0i32, 0i32) && nth_measure(
            s,
            i,
        ).tilted == (0i32, 0i32),
{
}

/// A region shows in its display size where both sides are set, else in the size
/// of its source; an image in the size that is set, side by side, else in that of
/// its picture; a text in the size that it takes up; the others as they are set.
pub proof fn law_shown_sizes(r: CaptureRegion, u: CustomUiElement, natural: (i32, i32))
    requires
        r.source.width < 0x8000_0000,
        r.source.height < 0x8000_0000,
    ensures
        r.display.width > 0 && r.display.height > 0 ==> logical_size(r) == (
            r.display.width as int,
            r.display.height as int,
        ),
        r.display.width <= 0 || r.display.height <= 0 ==> logical_size(r) == (
            r.source.width as int,
            r.source.height as int,
        ),
        element_rect(u, natural).0 == u.rect().0,
        element_rect(u, natural).1 == u.rect().1,
        match u {
            CustomUiElement::Text(t) => element_rect(u, natural).2 == natural.0 && element_rect(
                u,
                natural,
            ).3 == natural.1,
            CustomUiElement::Image(i) => {
                &&& element_rect(u, natural).2 == (if i.width > 0 { i.width } else { natural.0 })
                &&& element_rect(u, natural).3 == (if i.height > 0 { i.height } else { natural.1 })
            },
            CustomUiElement::Frame(f) => element_rect(u, natural).2 == f.width && element_rect(
                u,
                natural,
            ).3 == f.height,
            CustomUiElement::Background(b) => element_rect(u, natural).2 == b.width && element_rect(
                u,
                natural,
            ).3 == b.height,
        },
{
}

/// A size that is too large for a signed number wraps around.
pub proof fn law_signed_wraps(v: u32)
    ensures
        v < 0x8000_0000 ==> signed(v) == v,
        v >= 0x8000_0000 ==> signed(v) == v - 0x1_0000_0000,
        num::is_i32(signed(v)),
{
}

/// Without content the tight window is a fixed box at the origin, and content
/// reaches no way.
pub proof fn law_no_content()
    ensures
        tight_rect(Seq::empty()) == (0int, 0int, 200int, 150int),
        reach(Seq::empty()) == (0int, 0int),
{
}

/// Content reaches as far to the right and down as the box that reaches furthest,
/// and not to the left of or above the origin.
pub proof fn law_reach_is_that_of_the_furthest(fs: Seq<(int, int, int, int)>)
    requires
        fs.len() > 0,
    ensures
        reach(fs).0 >= 0,
        reach(fs).1 >= 0,
        forall|i: int|
            0 <= i < fs.len() ==> (#[trigger] fs[i]).0 + fs[i].2 <= reach(fs).0 && fs[i].1
                + fs[i].3 <= reach(fs).1,
        reach(fs).0 > 0 ==> exists|i: int|
            0 <= i < fs.len() && (#[trigger] fs[i]).0 + fs[i].2 == reach(fs).0,
        reach(fs).1 > 0 ==> exists|i: int|
            0 <= i < fs.len() && (#[trigger] fs[i]).1 + fs[i].3 == reach(fs).1,
{
    let r = rights(fs);
    let b = bottoms(fs);
    lemma_extremes(r);
    lemma_extremes(b);
    assert forall|i: int| 0 <= i < fs.len() implies (#[trigger] fs[i]).0 + fs[i].2 <= reach(fs).0
        && fs[i].1 + fs[i].3 <= reach(fs).1 by {
        assert(r[i] <= highest(r));
        assert(b[i] <= highest(b));
    }
    let i = choose|i: int| 0 <= i < r.len() && #[trigger] r[i] == highest(r);
    let j = choose|j: int| 0 <= j < b.len() && #[trigger] b[j] == highest(b);
    assert(fs[i].0 + fs[i].2 == highest(r));
    assert(fs[j].1 + fs[j].3 == highest(b));
}

/// An opacity that is not set is one.
pub proof fn law_unset_opacity_is_one(c: Config)
    ensures
        c.settings.global_opacity is None ==> c.global_opacity().bits == 0x3f80_0000,
        forall|o: Opacity|
            c.settings.global_opacity == Some(o) ==> #[trigger] c.global_opacity() == o,
{
}

/// Validating a region gives a side without a source size 60 pixels, takes over
/// the render order of an older file, and keeps everything else but an opacity
/// out of range.
pub proof fn law_valid_region_keeps_the_rest(r: CaptureRegion)
    ensures
        ({
            let v = valid_region(r);
            &&& v.id == r.id
            &&& v.source.x == r.source.x && v.source.y == r.source.y
            &&& v.source.width == (if r.source.width == 0 { 60 } else { r.source.width })
            &&& v.source.height == (if r.source.height == 0 { 60 } else { r.source.height })
            &&& v.display == (DisplayRect {
                z_order: v.display.z_order,
                opacity: v.display.opacity,
                ..r.display
            })
            &&& r.z_order is None ==> v.display.z_order == r.display.z_order
            &&& r.z_order is Some ==> v.display.z_order == r.z_order.unwrap()
            &&& v.display.opacity is Some == r.display.opacity is Some
            &&& match r.display.opacity {
                Some(o) => v.display.opacity == Some(o.clamped()),
                None => true,
            }
        }),
{
}

/// Moving an element moves its corner and nothing else: moving it back gives the
/// element again.
pub proof fn law_element_moves(u: CustomUiElement, dx: int, dy: int)
    requires
        -0x8000_0000 <= u.rect().0 - dx < 0x8000_0000,
        -0x8000_0000 <= u.rect().1 - dy < 0x8000_0000,
    ensures
        u.shifted(dx, dy).shifted(-dx, -dy) == u,
        u.shifted(dx, dy).rect().0 == u.rect().0 - dx,
        u.shifted(dx, dy).rect().1 == u.rect().1 - dy,
        u.shifted(dx, dy).rect().2 == u.rect().2,
        u.shifted(dx, dy).rect().3 == u.rect().3,
        u.shifted(dx, dy).degrees() == u.degrees(),
        u.shifted(dx, dy).own_opacity() == u.own_opacity(),
{
}

/// Moving a region moves where it is displayed and nothing else: moving it back
/// gives the region again.
pub proof fn law_region_moves(r: CaptureRegion, dx: int, dy: int)
    requires
        -0x8000_0000 <= r.display.x - dx < 0x8000_0000,
        -0x8000_0000 <= r.display.y - dy < 0x8000_0000,
    ensures
        shifted_region(shifted_region(r, dx, dy), -dx, -dy) == r,
        shifted_region(r, dx, dy).display.x == r.display.x - dx,
        shifted_region(r, dx, dy).display.y == r.display.y - dy,
{
}

/// The visible boxes of a config are those of its regions and then those of its
/// elements, each with its own measure.
pub proof fn law_boxes_of_a_config(c: Config, m: Measures, i: int)
    ensures
        c.footprints(m).len() == c.capture_regions@.len() + c.custom_ui@.len(),
        0 <= i < c.capture_regions@.len() && c.capture_regions@[i].display.rotate == 0
            && c.capture_regions@[i].display.width > 0 && c.capture_regions@[i].display.height > 0
            ==> c.footprints(m)[i] == (
            c.capture_regions@[i].display.x as int,
            c.capture_regions@[i].display.y as int,
            c.capture_regions@[i].display.width as int,
            c.capture_regions@[i].display.height as int,
        ),
        0 <= i < c.custom_ui@.len() && c.custom_ui@[i].degrees() == 0 ==> ({
            let f = c.footprints(m)[c.capture_regions@.len() + i];
            let e = element_rect(c.custom_ui@[i], nth_measure(m.elements@, i).natural);
            f == (e.0 as int, e.1 as int, e.2 as int, e.3 as int)
        }),
{
}

/// A PNG file begins with its eight bytes, and names its first chunk behind four
/// more.
pub proof fn law_png_head(b: Seq<u8>)
    requires
        b.len() >= 24,
    ensures
        is_png_head(b) == {
            &&& b[0] == 0x89 && b[1] == 0x50 && b[2] == 0x4e && b[3] == 0x47
            &&& b[4] == 0x0d && b[5] == 0x0a && b[6] == 0x1a && b[7] == 0x0a
            &&& b[12] == 0x49 && b[13] == 0x48 && b[14] == 0x44 && b[15] == 0x52
        },
        !is_png_head(b.take(23)),
{
    let s = seq![0x89u8, 0x50, 0x4e, 0x47, 0x0d, 0x0a, 0x1a, 0x0a];
    let t = seq![0x49u8, 0x48, 0x44, 0x52];
    if is_png_head(b) {
        assert(b.take(8)[0] == s[0] && b.take(8)[1] == s[1] && b.take(8)[2] == s[2] && b.take(8)[3]
            == s[3]);
        assert(b.take(8)[4] == s[4] && b.take(8)[5] == s[5] && b.take(8)[6] == s[6] && b.take(8)[7]
            == s[7]);
        assert(b.subrange(12, 16)[0] == t[0] && b.subrange(12, 16)[1] == t[1] && b.subrange(
            12,
            16,
        )[2] == t[2] && b.subrange(12, 16)[3] == t[3]);
    } else {
        if b[0] == 0x89 && b[1] == 0x50 && b[2] == 0x4e && b[3] == 0x47 && b[4] == 0x0d && b[5]
            == 0x0a && b[6] == 0x1a && b[7] == 0x0a && b[12] == 0x49 && b[13] == 0x48 && b[14]
            == 0x44 && b[15] == 0x52 {
            assert(b.take(8) =~= s);
            assert(b.subrange(12, 16) =~= t);
        }
    }
}

/// A file is a config file where its name has something before ".yml", except the
/// settings.
pub proof fn law_config_names(stem: Seq<char>, name: Seq<char>)
    ensures
        is_config_name(stem + ".yml"@) == (stem.len() > 0 && stem + ".yml"@ != "settings.yml"@),
        is_config_name(name) ==> exists|s: Seq<char>| #[trigger] (s + ".yml"@) == name,
{
    reveal_strlit(".yml");
    text::law_beginnings_and_ends(stem, ".yml"@);
    text::law_beginnings_and_ends(name, ".yml"@);
}

/// The box of a rectangle that is not turned, or turned by a half circle, is the
/// rectangle; a quarter turn swaps the sides around the center; and at any other
/// angle the box has the size that was measured, one pixel at least. Half a pixel
/// that is left over stays on the side toward which the corner moves.
pub proof fn law_footprint_of_turns(
    x: int,
    y: int,
    w: int,
    h: int,
    deg: int,
    tilted: (int, int),
)
    ensures
        ({
            let f = footprint(x, y, w, h, deg, tilted);
            let d = deg % 360;
            &&& d == 0 || d == 180 ==> f == (x, y, w, h)
            &&& d == 90 || d == 270 ==> f.2 == h && f.3 == w
            &&& d != 0 && d != 90 && d != 180 && d != 270 ==> {
                &&& tilted.0 >= 1 ==> f.2 == tilted.0
                &&& tilted.0 < 1 ==> f.2 == 1
                &&& tilted.1 >= 1 ==> f.3 == tilted.1
                &&& tilted.1 < 1 ==> f.3 == 1
            }
            &&& w >= f.2 ==> 0 <= (w - f.2) - 2 * (f.0 - x) <= 1
            &&& w <= f.2 ==> 0 <= (f.2 - w) - 2 * (x - f.0) <= 1
            &&& h >= f.3 ==> 0 <= (h - f.3) - 2 * (f.1 - y) <= 1
            &&& h <= f.3 ==> 0 <= (f.3 - h) - 2 * (y - f.1) <= 1
        }),
{
}

/// A config file that is switched on comes behind the others, unless it is on
/// already; switching one off keeps the order of the others, part by part.
pub proof fn law_switching_keeps_the_order(
    a: Seq<Seq<char>>,
    b: Seq<Seq<char>>,
    name: Seq<char>,
)
    ensures
        a.contains(name) ==> switched(a, name, true) == a,
        !a.contains(name) ==> switched(a, name, true) == a + seq![name],
        switched(a + b, name, false) == switched(a, name, false) + switched(b, name, false),
{
    assert(a.push(name) =~= a + seq![name]);
    names::law_without_takes_out_one_name(a, b, name, name);
}

} // verus!
