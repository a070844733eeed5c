//! What the commands of the tray menu do to the settings, and which configs are
//! active.
//!
//! There is one slot: it is taken by one config that is switched on by hand, or
//! by the automatic switch as a whole.

use vstd::prelude::*;

use crate::config;
use crate::config::GlobalSettings;
use crate::input::InputMode;
use crate::names;
use crate::names::{contains_name, only, remove_name, views};
use crate::num;
use crate::text;
use crate::text::{chars_of, owned, same_text, string_of, strip_trailing_chars};
use crate::tray::{
    set_auto_enable, set_current_fps, set_last_unloaded, set_manual_enabled_configs, InputSide,
    TrayCommand, TrayShared, UnloadSource,
};

verus! {

/// The program gives up after this many failed captures in a row.
pub const MAX_CONSECUTIVE_ERRORS: u32 = 30;

/// The settings in use, and the state that the tray menu shows of them.
pub struct Session {
    pub global: GlobalSettings,
    pub tray: TrayShared,
}

/// What was unloaded last.
pub enum LastView {
    Config(Seq<char>),
    Auto,
}

pub open spec fn last_view(src: Option<UnloadSource>) -> Option<LastView> {
    match src {
        Some(UnloadSource::Config(s)) => Some(LastView::Config(s@)),
        Some(UnloadSource::Auto) => Some(LastView::Auto),
        None => None,
    }
}

/// What the commands change.
#[verifier::ext_equal]
pub struct Slot {
    pub fps: u32,
    /// The config files that are switched on
    pub enabled: Seq<Seq<char>>,
    /// Whether the automatic switch is on
    pub auto: bool,
    pub keyboard: Seq<Seq<char>>,
    pub controller: Seq<Seq<char>>,
    pub last: Option<LastView>,
}

/// What the main loop does after a command.
#[derive(Debug)]
pub enum Effect {
    Nothing,
    /// Run at another frame rate
    FpsChanged(u32),
    /// Open the editor on an empty config
    NewConfig,
    /// Open the editor on this file, with this name
    EditConfig(String, String),
    /// Close the window of this config
    CloseConfig(String),
    /// Bring the active configs in line with the settings
    ApplyMode,
    /// Read all active configs again
    ReloadAll,
    /// Show the program's folder
    OpenFolder,
    Quit,
}

pub enum EffectView {
    Nothing,
    FpsChanged(u32),
    NewConfig,
    EditConfig(Seq<char>, Seq<char>),
    CloseConfig(Seq<char>),
    ApplyMode,
    ReloadAll,
    OpenFolder,
    Quit,
}

pub open spec fn effect_view(e: Effect) -> EffectView {
    match e {
        Effect::Nothing => EffectView::Nothing,
        Effect::FpsChanged(n) => EffectView::FpsChanged(n),
        Effect::NewConfig => EffectView::NewConfig,
        Effect::EditConfig(f, s) => EffectView::EditConfig(f@, s@),
        Effect::CloseConfig(f) => EffectView::CloseConfig(f@),
        Effect::ApplyMode => EffectView::ApplyMode,
        Effect::ReloadAll => EffectView::ReloadAll,
        Effect::OpenFolder => EffectView::OpenFolder,
        Effect::Quit => EffectView::Quit,
    }
}

impl Slot {
    /// The input group of a mode.
    pub open spec fn group(self, mode: InputMode) -> Seq<Seq<char>> {
        match mode {
            InputMode::Keyboard => self.keyboard,
            InputMode::Controller => self.controller,
        }
    }

    /// The slot is taken once: by one config at most, and by none while the
    /// automatic switch is on.
    pub open spec fn single(self) -> bool {
        self.enabled.len() <= 1 && (self.auto ==> self.enabled.len() == 0)
    }
}

/// A list with a name put in, or taken out where it is in.
pub open spec fn toggled(list: Seq<Seq<char>>, name: Seq<char>) -> Seq<Seq<char>> {
    if list.contains(name) {
        names::without(list, name)
    } else {
        list.push(name)
    }
}

/// What a command makes of the settings, and what the main loop does then.
pub open spec fn commanded(s: Slot, mode: InputMode, cmd: TrayCommand) -> (Slot, EffectView) {
    match cmd {
        TrayCommand::SetFps(n) => if n != s.fps {
            (Slot { fps: n, ..s }, EffectView::FpsChanged(n))
        } else {
            (s, EffectView::Nothing)
        },
        TrayCommand::EnterEditMode => (s, EffectView::NewConfig),
        TrayCommand::EditConfig(f) => (
            s,
            EffectView::EditConfig(f@, text::strip_trailing(f@, ".yml"@)),
        ),
        TrayCommand::ToggleConfig(f) => if s.enabled.contains(f@) {
            (
                Slot { enabled: names::without(s.enabled, f@), last: None, ..s },
                if s.auto && s.group(mode).contains(f@) {
                    EffectView::Nothing
                } else {
                    EffectView::CloseConfig(f@)
                },
            )
        } else {
            (Slot { enabled: seq![f@], auto: false, last: None, ..s }, EffectView::ApplyMode)
        },
        TrayCommand::UnloadConfigs => if s.enabled.len() > 0 || s.auto {
            (
                Slot {
                    enabled: Seq::empty(),
                    auto: false,
                    last: Some(
                        if s.enabled.len() > 0 {
                            LastView::Config(s.enabled[0])
                        } else {
                            LastView::Auto
                        },
                    ),
                    ..s
                },
                EffectView::ApplyMode,
            )
        } else {
            match s.last {
                Some(LastView::Config(n)) => (
                    Slot { enabled: seq![n], auto: false, last: None, ..s },
                    EffectView::ApplyMode,
                ),
                Some(LastView::Auto) => (
                    Slot { enabled: Seq::empty(), auto: true, last: None, ..s },
                    EffectView::ApplyMode,
                ),
                None => (s, EffectView::Nothing),
            }
        },
        TrayCommand::OpenProgramDir => (s, EffectView::OpenFolder),
        TrayCommand::ReloadConfigs => (s, EffectView::ReloadAll),
        TrayCommand::Quit => (s, EffectView::Quit),
        TrayCommand::ToggleAutoSwitch => if s.auto {
            (Slot { auto: false, ..s }, EffectView::ApplyMode)
        } else {
            (Slot { auto: true, enabled: Seq::empty(), last: None, ..s }, EffectView::ApplyMode)
        },
        TrayCommand::ToggleInputConfig(side, f) => (
            match side {
                InputSide::Keyboard => Slot { keyboard: toggled(s.keyboard, f@), ..s },
                InputSide::Controller => Slot { controller: toggled(s.controller, f@), ..s },
            },
            if s.auto { EffectView::ApplyMode } else { EffectView::Nothing },
        ),
    }
}

fn toggle_name(list: &mut Vec<String>, name: &str)
    ensures
        views(final(list)@) == toggled(views(old(list)@), name@),
{
    if contains_name(list, name) {
        remove_name(list, name);
    } else {
        list.push(owned(name));
        assert(views(list@) =~= views(old(list)@).push(name@));
    }
}

impl Session {
    /// What the commands change.
    pub open spec fn slot(self) -> Slot {
        Slot {
            fps: self.global.fps,
            enabled: views(self.global.enabled_configs@),
            auto: self.global.input_auto_switch,
            keyboard: views(self.global.keyboard_configs@),
            controller: views(self.global.controller_configs@),
            last: last_view(self.tray.last_unloaded),
        }
    }

    /// The menu shows the settings that are in use.
    pub open spec fn wf(self) -> bool {
        &&& self.tray.current_fps == self.global.fps
        &&& views(self.tray.enabled_configs@) == views(self.global.enabled_configs@)
        &&& self.tray.auto_switch_on == self.global.input_auto_switch
        &&& views(self.tray.kbd_configs@) == views(self.global.keyboard_configs@)
        &&& views(self.tray.pad_configs@) == views(self.global.controller_configs@)
    }

    /// The settings that no command touches are the same, and so is what the
    /// menu lists, waits for and shows as active.
    pub open spec fn keeps_rest(self, before: Session) -> bool {
        &&& self.global == GlobalSettings {
            fps: self.global.fps,
            enabled_configs: self.global.enabled_configs,
            input_auto_switch: self.global.input_auto_switch,
            keyboard_configs: self.global.keyboard_configs,
            controller_configs: self.global.controller_configs,
            ..before.global
        }
        &&& self.tray.config_files == before.tray.config_files
        &&& self.tray.pending == before.tray.pending
        &&& self.tray.active_configs == before.tray.active_configs
    }

    /// A session with the given settings.
    pub fn new(global: GlobalSettings) -> (r: Session)
        ensures
            r.wf(),
            r.global == global,
            r.tray.last_unloaded is None,
            r.tray.pending is None,
            r.tray.config_files@.len() == 0,
            r.tray.active_configs@.len() == 0,
    {
        let mut tray: TrayShared = TrayShared::new();
        set_manual_enabled_configs(&mut tray, global.enabled_configs.clone());
        set_current_fps(&mut tray, global.fps);
        let mut s = Session { global, tray };
        s.sync_input_groups_to_tray();
        s
    }

    /// Tells the menu about the automatic switch and its groups.
    fn sync_input_groups_to_tray(&mut self)
        ensures
            final(self).global == old(self).global,
            final(self).tray == (TrayShared {
                auto_switch_on: old(self).global.input_auto_switch,
                kbd_configs: final(self).tray.kbd_configs,
                pad_configs: final(self).tray.pad_configs,
                ..old(self).tray
            }),
            final(self).tray.kbd_configs@ == old(self).global.keyboard_configs@,
            final(self).tray.pad_configs@ == old(self).global.controller_configs@,
    {
        let kbd: Vec<String> = self.global.keyboard_configs.clone();
        let pad: Vec<String> = self.global.controller_configs.clone();
        set_auto_enable(&mut self.tray, self.global.input_auto_switch, kbd, pad);
    }

    /// Tells the menu which config files are switched on.
    fn sync_enabled_to_tray(&mut self)
        ensures
            final(self).global == old(self).global,
            final(self).tray == (TrayShared {
                enabled_configs: final(self).tray.enabled_configs,
                ..old(self).tray
            }),
            final(self).tray.enabled_configs@ == old(self).global.enabled_configs@,
    {
        let list: Vec<String> = self.global.enabled_configs.clone();
        set_manual_enabled_configs(&mut self.tray, list);
    }

    /// Whether a config file is in the input group of a mode.
    pub fn if_auto_group_has(&self, mode: InputMode, name: &str) -> (r: bool)
        ensures
            r == self.slot().group(mode).contains(name@),
    {
        match mode {
            InputMode::Keyboard => contains_name(&self.global.keyboard_configs, name),
            InputMode::Controller => contains_name(&self.global.controller_configs, name),
        }
    }

    /// Gives the slot to one config: it alone is switched on, and the automatic
    /// switch is off.
    pub fn select_single_config(&mut self, name: &str)
        requires
            old(self).wf(),
        ensures
            final(self).wf(),
            final(self).keeps_rest(*old(self)),
            final(self).slot() == (Slot { enabled: seq![name@], auto: false, ..old(self).slot() }),
    {
        self.global.enabled_configs = only(name);
        self.global.input_auto_switch = false;
        self.sync_enabled_to_tray();
        self.sync_input_groups_to_tray();
    }

    /// Takes over the snap distance, snap gap and nudge step that the editor
    /// has staged, each brought into its range.
    pub fn apply_editor_prefs(&mut self, prefs: (i32, i32, i32))
        ensures
            final(self).tray == old(self).tray,
            final(self).global == (GlobalSettings {
                snap_distance: num::int_clamp(prefs.0 as int, 1, 100) as i32,
                snap_gap: num::int_clamp(prefs.1 as int, 0, 50) as i32,
                nudge_step: num::int_clamp(prefs.2 as int, 1, 100) as i32,
                ..old(self).global
            }),
    {
        self.global.snap_distance = num::clamp_i32(prefs.0, 1, 100);
        self.global.snap_gap = num::clamp_i32(prefs.1, 0, 50);
        self.global.nudge_step = num::clamp_i32(prefs.2, 1, 100);
    }

    /// Carries out a command of the tray menu; returns what the main loop does
    /// then.
    pub fn handle(&mut self, mode: InputMode, cmd: &TrayCommand) -> (r: Effect)
        requires
            old(self).wf(),
        ensures
            final(self).wf(),
            final(self).keeps_rest(*old(self)),
            (final(self).slot(), effect_view(r)) == commanded(old(self).slot(), mode, *cmd),
    {
        match cmd {
            TrayCommand::SetFps(n) => {
                if *n != self.global.fps {
                    self.global.fps = *n;
                    set_current_fps(&mut self.tray, *n);
                    Effect::FpsChanged(*n)
                } else {
                    Effect::Nothing
                }
            },
            TrayCommand::EnterEditMode => Effect::NewConfig,
            TrayCommand::EditConfig(f) => {
                let ext: Vec<char> = chars_of(".yml");
                let name: Vec<char> = chars_of(f.as_str());
                let stem: Vec<char> = strip_trailing_chars(&name, &ext);
                Effect::EditConfig(f.clone(), string_of(&stem))
            },
            TrayCommand::ToggleConfig(f) => self.toggle_config(mode, f.as_str()),
            TrayCommand::OpenProgramDir => Effect::OpenFolder,
            TrayCommand::ReloadConfigs => Effect::ReloadAll,
            TrayCommand::UnloadConfigs => self.unload_or_load(),
            TrayCommand::ToggleAutoSwitch => {
                if self.global.input_auto_switch {
                    self.global.input_auto_switch = false;
                } else {
                    self.global.input_auto_switch = true;
                    self.global.enabled_configs = Vec::new();
                    self.sync_enabled_to_tray();
                    set_last_unloaded(&mut self.tray, None);
                    assert(views(self.global.enabled_configs@) =~= Seq::<Seq<char>>::empty());
                }
                self.sync_input_groups_to_tray();
                Effect::ApplyMode
            },
            TrayCommand::ToggleInputConfig(side, f) => {
                match side {
                    InputSide::Keyboard => toggle_name(
                        &mut self.global.keyboard_configs,
                        f.as_str(),
                    ),
                    InputSide::Controller => toggle_name(
                        &mut self.global.controller_configs,
                        f.as_str(),
                    ),
                }
                self.sync_input_groups_to_tray();
                if self.global.input_auto_switch {
                    Effect::ApplyMode
                } else {
                    Effect::Nothing
                }
            },
            TrayCommand::Quit => Effect::Quit,
        }
    }

    fn toggle_config(&mut self, mode: InputMode, name: &str) -> (r: Effect)
        requires
            old(self).wf(),
        ensures
            final(self).wf(),
            final(self).keeps_rest(*old(self)),
            ({
                let s = old(self).slot();
                if s.enabled.contains(name@) {
                    &&& final(self).slot() == (Slot {
                        enabled: names::without(s.enabled, name@),
                        last: None,
                        ..s
                    })
                    &&& effect_view(r) == (if s.auto && s.group(mode).contains(name@) {
                        EffectView::Nothing
                    } else {
                        EffectView::CloseConfig(name@)
                    })
                } else {
                    &&& final(self).slot() == (Slot {
                        enabled: seq![name@],
                        auto: false,
                        last: None,
                        ..s
                    })
                    &&& effect_view(r) == EffectView::ApplyMode
                }
            }),
    {
        if self.global.is_enabled(name) {
            self.global.set_enabled(name, false);
            let in_group: bool = self.global.input_auto_switch && self.if_auto_group_has(mode, name);
            self.sync_enabled_to_tray();
            set_last_unloaded(&mut self.tray, None);
            if in_group {
                Effect::Nothing
            } else {
                Effect::CloseConfig(owned(name))
            }
        } else {
            self.global.enabled_configs = only(name);
            self.global.input_auto_switch = false;
            self.sync_input_groups_to_tray();
            self.sync_enabled_to_tray();
            set_last_unloaded(&mut self.tray, None);
            Effect::ApplyMode
        }
    }

    fn unload_or_load(&mut self) -> (r: Effect)
        requires
            old(self).wf(),
        ensures
            final(self).wf(),
            final(self).keeps_rest(*old(self)),
            (final(self).slot(), effect_view(r)) == commanded(
                old(self).slot(),
                InputMode::Keyboard,
                TrayCommand::UnloadConfigs,
            ),
    {
        if self.global.enabled_configs.len() > 0 || self.global.input_auto_switch {
            let last: UnloadSource = if self.global.enabled_configs.len() > 0 {
                UnloadSource::Config(self.global.enabled_configs[0].clone())
            } else {
                UnloadSource::Auto
            };
            self.global.enabled_configs = Vec::new();
            self.global.input_auto_switch = false;
            self.sync_enabled_to_tray();
            set_last_unloaded(&mut self.tray, Some(last));
            self.sync_input_groups_to_tray();
            assert(views(self.global.enabled_configs@) =~= Seq::<Seq<char>>::empty());
            return Effect::ApplyMode;
        }
        assert(views(self.global.enabled_configs@) =~= Seq::<Seq<char>>::empty());
        match self.tray.last_unloaded.clone() {
            Some(UnloadSource::Config(name)) => {
                self.global.enabled_configs = only(name.as_str());
                self.global.input_auto_switch = false;
            },
            Some(UnloadSource::Auto) => {
                self.global.enabled_configs = Vec::new();
                self.global.input_auto_switch = true;
                assert(views(self.global.enabled_configs@) =~= Seq::<Seq<char>>::empty());
            },
            None => {
                return Effect::Nothing;
            },
        }
        self.sync_enabled_to_tray();
        set_last_unloaded(&mut self.tray, None);
        self.sync_input_groups_to_tray();
        Effect::ApplyMode
    }
}

// ===== Active configs =====

/// `list` with the names of `more` that it does not hold yet, in order.
pub open spec fn merged(list: Seq<Seq<char>>, more: Seq<Seq<char>>) -> Seq<Seq<char>>
    decreases more.len(),
{
    if more.len() == 0 {
        list
    } else if list.contains(more[0]) {
        merged(list, more.drop_first())
    } else {
        merged(list.push(more[0]), more.drop_first())
    }
}

/// The configs that are to be active: those switched on, and where the automatic
/// switch is on those of the group of the current mode.
pub open spec fn expected(s: Slot, mode: InputMode) -> Seq<Seq<char>> {
    if s.auto {
        merged(s.enabled, s.group(mode))
    } else {
        s.enabled
    }
}

/// The test whether a name is one of `target`.
pub open spec fn is_in(target: Seq<Seq<char>>) -> spec_fn(Seq<char>) -> bool {
    |n: Seq<char>| target.contains(n)
}

/// The active configs after those of the first `k` names of `target` that were
/// missing were opened, as far as that succeeded.
pub open spec fn opened(
    active: Seq<Seq<char>>,
    target: Seq<Seq<char>>,
    ok: Seq<bool>,
    k: nat,
) -> Seq<Seq<char>>
    decreases k,
{
    if k == 0 {
        active
    } else {
        let a = opened(active, target, ok, (k - 1) as nat);
        if !a.contains(target[k - 1]) && ok[k - 1] {
            a.push(target[k - 1])
        } else {
            a
        }
    }
}

/// The active configs after they were brought in line with `target`: the others
/// are closed, and the missing ones opened as far as that succeeds.
pub open spec fn settled(
    active: Seq<Seq<char>>,
    target: Seq<Seq<char>>,
    ok: Seq<bool>,
) -> Seq<Seq<char>> {
    opened(active.filter(is_in(target)), target, ok, target.len())
}

/// The configs that are to be active.
pub fn active_target(s: &Session, mode: InputMode) -> (r: Vec<String>)
    ensures
        views(r@) == expected(s.slot(), mode),
{
    let mut target: Vec<String> = s.global.enabled_configs.clone();
    if !s.global.input_auto_switch {
        return target;
    }
    let group: &Vec<String> = match mode {
        InputMode::Keyboard => &s.global.keyboard_configs,
        InputMode::Controller => &s.global.controller_configs,
    };
    let ghost all = views(group@);
    let ghost start = views(target@);
    assert(all.skip(0) =~= all);
    for i in 0..group.len()
        invariant
            all == views(group@),
            merged(views(target@), all.skip(i as int)) == merged(start, all),
    {
        let ghost rest = all.skip(i as int);
        assert(rest[0] == group@[i as int]@);
        assert(rest.drop_first() =~= all.skip(i + 1));
        if !contains_name(&target, group[i].as_str()) {
            let ghost before = target@;
            target.push(group[i].clone());
            assert(views(target@) =~= views(before).push(rest[0]));
        }
    }
    assert(all.skip(group@.len() as int) =~= Seq::<Seq<char>>::empty());
    target
}

/// The active configs that stay when `target` is to be active, by their
/// positions.
pub fn kept_positions(active: &Vec<String>, target: &Vec<String>) -> (r: Vec<usize>)
    ensures
        forall|k: int| 0 <= k < r@.len() ==> #[trigger] r@[k] < active@.len(),
        r@.map_values(|i: usize| views(active@)[i as int]) == views(active@).filter(
            is_in(views(target@)),
        ),
        forall|a: int, b: int| 0 <= a < b < r@.len() ==> #[trigger] r@[a] < #[trigger] r@[b],
{
    let ghost all = views(active@);
    let ghost keep = is_in(views(target@));
    let ghost name = |i: usize| all[i as int];
    let mut r: Vec<usize> = Vec::new();
    assert(r@.map_values(name) =~= all.take(0).filter(keep)) by {
        reveal(Seq::filter);
    }
    for i in 0..active.len()
        invariant
            all == views(active@),
            keep == is_in(views(target@)),
            name == (|i: usize| all[i as int]),
            r@.map_values(name) == all.take(i as int).filter(keep),
            forall|k: int| 0 <= k < r@.len() ==> #[trigger] r@[k] < i,
            forall|a: int, b: int| 0 <= a < b < r@.len() ==> #[trigger] r@[a] < #[trigger] r@[b],
    {
        proof {
            assert(all.take(i + 1).drop_last() =~= all.take(i as int));
            assert(all.take(i + 1).last() == active@[i as int]@);
            reveal(Seq::filter);
        }
        if contains_name(target, active[i].as_str()) {
            let ghost before = r@;
            r.push(i);
            assert(r@.map_values(name) =~= before.map_values(name).push(all[i as int]));
        }
    }
    assert(all.take(active@.len() as int) =~= all);
    assert(r@.map_values(|i: usize| views(active@)[i as int]) =~= r@.map_values(name));
    r
}

/// The names of the active configs after they were brought in line with the
/// settings. `ok` says for each name that is to be active whether opening it
/// succeeds.
pub fn apply_input_mode(
    active: &Vec<String>,
    target: &Vec<String>,
    ok: &Vec<bool>,
) -> (r: Vec<String>)
    requires
        ok@.len() == target@.len(),
    ensures
        views(r@) == settled(views(active@), views(target@), ok@),
{
    let kept: Vec<usize> = kept_positions(active, target);
    let ghost all = views(active@);
    let ghost name = |i: usize| all[i as int];
    let ghost base = all.filter(is_in(views(target@)));
    let mut r: Vec<String> = Vec::new();
    assert(kept@.map_values(name) =~= base);
    assert(views(r@) =~= base.take(0));
    for k in 0..kept.len()
        invariant
            all == views(active@),
            name == (|i: usize| all[i as int]),
            kept@.map_values(name) == base,
            forall|k: int| 0 <= k < kept@.len() ==> #[trigger] kept@[k] < active@.len(),
            views(r@) == base.take(k as int),
    {
        let ghost before = r@;
        r.push(active[kept[k]].clone());
        assert(views(r@) =~= views(before).push(base[k as int]));
        assert(views(r@) =~= base.take(k + 1));
    }
    assert(base.take(kept@.len() as int) =~= base);
    for k in 0..target.len()
        invariant
            ok@.len() == target@.len(),
            views(r@) == opened(base, views(target@), ok@, k as nat),
    {
        if !contains_name(&r, target[k].as_str()) && ok[k] {
            let ghost before = r@;
            r.push(target[k].clone());
            assert(views(r@) =~= views(before).push(views(target@)[k as int]));
        }
    }
    r
}

/// The position of the first config of this name.
pub fn position_of(active: &Vec<String>, name: &str) -> (r: Option<usize>)
    ensures
        match r {
            Some(p) => p < active@.len() && views(active@)[p as int] == name@ && (forall|j: int|
                0 <= j < p ==> #[trigger] views(active@)[j] != name@),
            None => !views(active@).contains(name@),
        },
{
    for i in 0..active.len()
        invariant
            forall|j: int| 0 <= j < i ==> #[trigger] views(active@)[j] != name@,
    {
        if same_text(active[i].as_str(), name) {
            return Some(i);
        }
    }
    None
}

/// The config files that are opened at the start: those that are switched on, in
/// the order in which they were found.
pub fn startup_configs(global: &GlobalSettings, files: &Vec<String>) -> (r: Vec<String>)
    ensures
        views(r@) == views(files@).filter(is_in(views(global.enabled_configs@))),
{
    let ghost all = views(files@);
    let ghost keep = is_in(views(global.enabled_configs@));
    let mut r: Vec<String> = Vec::new();
    assert(views(r@) =~= all.take(0).filter(keep)) by {
        reveal(Seq::filter);
    }
    for i in 0..files.len()
        invariant
            all == views(files@),
            keep == is_in(views(global.enabled_configs@)),
            views(r@) == all.take(i as int).filter(keep),
    {
        proof {
            assert(all.take(i + 1).drop_last() =~= all.take(i as int));
            assert(all.take(i + 1).last() == files@[i as int]@);
            reveal(Seq::filter);
        }
        if global.is_enabled(files[i].as_str()) {
            let ghost before = r@;
            r.push(files[i].clone());
            assert(views(r@) =~= views(before).push(files@[i as int]@));
        }
    }
    assert(all.take(files@.len() as int) =~= all);
    r
}

// ===== Pacing =====

/// A frame rate brought into `1..=240`.
pub fn clamp_fps(fps: u32) -> (r: u32)
    ensures
        r == num::int_clamp(fps as int, 1, 240),
{
    if fps < 1 {
        1
    } else if fps > 240 {
        240
    } else {
        fps
    }
}

/// How the main loop waits for the next frame.
#[derive(Debug, Clone, Copy, PartialEq, Eq, Structural)]
pub enum Pace {
    /// The time for the frame is used up
    Run,
    /// Sleep for this long
    Sleep(u64),
    /// Sleep for this long, then spin until the time is up
    SleepThenSpin(u64),
    /// Spin until the time is up
    Spin,
}

/// How the main loop waits when `elapsed` of the `frame` nanoseconds of a frame
/// are used up: up to 60 frames a second it sleeps, above that it spins for the
/// last half millisecond.
pub fn pace(elapsed: u64, frame: u64, fps: u32) -> (r: Pace)
    ensures
        r == (if elapsed >= frame {
            Pace::Run
        } else if fps <= 60 {
            Pace::Sleep((frame - elapsed) as u64)
        } else if frame - elapsed > 500_000 {
            Pace::SleepThenSpin((frame - elapsed - 500_000) as u64)
        } else {
            Pace::Spin
        }),
{
    if elapsed >= frame {
        return Pace::Run;
    }
    let remaining: u64 = frame - elapsed;
    if fps <= 60 {
        Pace::Sleep(remaining)
    } else if remaining > 500_000 {
        Pace::SleepThenSpin(remaining - 500_000)
    } else {
        Pace::Spin
    }
}

/// What came of a capture.
#[derive(Debug, Clone, Copy, PartialEq, Eq, Structural)]
pub enum Captured {
    Frame,
    /// The desktop has not changed
    Nothing,
    Failure,
}

/// Counts captures that failed in a row; returns their number, and whether the
/// program gives up. Only a frame that came ends the row.
pub fn count_capture(consecutive: u32, c: Captured) -> (r: (u32, bool))
    requires
        consecutive < MAX_CONSECUTIVE_ERRORS,
    ensures
        r.0 == (match c {
            Captured::Frame => 0,
            Captured::Nothing => consecutive as int,
            Captured::Failure => consecutive + 1,
        }),
        r.1 == (r.0 >= MAX_CONSECUTIVE_ERRORS),
{
    match c {
        Captured::Frame => (0, false),
        Captured::Nothing => (consecutive, false),
        Captured::Failure => (consecutive + 1, consecutive + 1 >= MAX_CONSECUTIVE_ERRORS),
    }
}

// ===== Laws =====

/// No command makes two of the slot.
pub proof fn law_slot_stays_single(s: Slot, mode: InputMode, cmd: TrayCommand)
    requires
        s.single(),
    ensures
        commanded(s, mode, cmd).0.single(),
{
    if let TrayCommand::ToggleConfig(f) = cmd {
        lemma_without_len(s.enabled, f@);
    }
}

proof fn lemma_without_len(s: Seq<Seq<char>>, x: Seq<char>)
    ensures
        names::without(s, x).len() <= s.len(),
    decreases s.len(),
{
    reveal(Seq::filter);
    if s.len() > 0 {
        lemma_without_len(s.drop_last(), x);
    }
}

/// Unloading what is loaded and then loading again gives back what was loaded.
pub proof fn law_load_undoes_unload(s: Slot, mode: InputMode)
    requires
        s.single(),
        s.enabled.len() > 0 || s.auto,
    ensures
        ({
            let u = commanded(s, mode, TrayCommand::UnloadConfigs).0;
            let l = commanded(u, mode, TrayCommand::UnloadConfigs).0;
            &&& expected(u, mode).len() == 0
            &&& l.enabled == s.enabled
            &&& l.auto == s.auto
            &&& l.keyboard == s.keyboard
            &&& l.controller == s.controller
            &&& l.fps == s.fps
        }),
{
    let u = commanded(s, mode, TrayCommand::UnloadConfigs).0;
    let l = commanded(u, mode, TrayCommand::UnloadConfigs).0;
    if s.enabled.len() > 0 {
        assert(l.enabled =~= s.enabled);
    } else {
        assert(l.enabled =~= s.enabled);
    }
}

/// Switching the automatic switch keeps the groups. Switching it on and off again
/// leaves nothing to be shown.
pub proof fn law_auto_switch_keeps_groups(s: Slot, mode: InputMode)
    ensures
        ({
            let a = commanded(s, mode, TrayCommand::ToggleAutoSwitch).0;
            let b = commanded(a, mode, TrayCommand::ToggleAutoSwitch).0;
            &&& a.auto == !s.auto
            &&& a.keyboard == s.keyboard
            &&& a.controller == s.controller
            &&& !s.auto ==> expected(b, mode).len() == 0 && b == (Slot {
                enabled: b.enabled,
                last: None,
                ..s
            })
        }),
{
}

proof fn lemma_opened_members(
    active: Seq<Seq<char>>,
    target: Seq<Seq<char>>,
    ok: Seq<bool>,
    k: nat,
    x: Seq<char>,
)
    requires
        k <= target.len(),
        ok.len() == target.len(),
    ensures
        active.contains(x) ==> opened(active, target, ok, k).contains(x),
        opened(active, target, ok, k).contains(x) ==> active.contains(x) || target.contains(x),
    decreases k,
{
    if k > 0 {
        lemma_opened_members(active, target, ok, (k - 1) as nat, x);
        let a = opened(active, target, ok, (k - 1) as nat);
        let n = target[k - 1];
        let b = a.push(n);
        if a.contains(x) {
            let i = choose|i: int| 0 <= i < a.len() && a[i] == x;
            assert(b[i] == x);
        }
        if b.contains(x) {
            let i = choose|i: int| 0 <= i < b.len() && b[i] == x;
            if i < a.len() {
                assert(a[i] == x);
            } else {
                assert(target[k - 1] == x);
            }
        }
    }
}

proof fn lemma_opened_has_target(
    active: Seq<Seq<char>>,
    target: Seq<Seq<char>>,
    ok: Seq<bool>,
    k: nat,
    j: int,
)
    requires
        k <= target.len(),
        ok.len() == target.len(),
        0 <= j < k,
        ok[j],
    ensures
        opened(active, target, ok, k).contains(target[j]),
    decreases k,
{
    let a = opened(active, target, ok, (k - 1) as nat);
    if j == k - 1 {
        if !a.contains(target[j]) {
            assert(a.push(target[j])[a.len() as int] == target[j]);
        }
    } else {
        lemma_opened_has_target(active, target, ok, (k - 1) as nat, j);
        let i = choose|i: int| 0 <= i < a.len() && a[i] == target[j];
        assert(a.push(target[k - 1])[i] == target[j]);
    }
}

proof fn lemma_opened_nothing(
    active: Seq<Seq<char>>,
    target: Seq<Seq<char>>,
    ok: Seq<bool>,
    k: nat,
)
    requires
        k <= target.len(),
        forall|j: int| 0 <= j < target.len() ==> active.contains(#[trigger] target[j]),
    ensures
        opened(active, target, ok, k) == active,
    decreases k,
{
    if k > 0 {
        lemma_opened_nothing(active, target, ok, (k - 1) as nat);
        assert(active.contains(target[k - 1]));
    }
}

proof fn lemma_filter_all(s: Seq<Seq<char>>, p: spec_fn(Seq<char>) -> bool)
    requires
        forall|i: int| 0 <= i < s.len() ==> p(#[trigger] s[i]),
    ensures
        s.filter(p) == s,
    decreases s.len(),
{
    reveal(Seq::filter);
    if s.len() > 0 {
        let t = s.drop_last();
        assert forall|i: int| 0 <= i < t.len() implies p(#[trigger] t[i]) by {
            assert(p(s[i]));
        }
        lemma_filter_all(t, p);
        assert(p(s[s.len() - 1]));
        assert(t.push(s.last()) =~= s);
    }
}

/// Bringing the active configs in line a second time changes nothing. Once every
/// config could be opened, exactly those that are to be active are.
pub proof fn law_settling_twice_is_once(
    active: Seq<Seq<char>>,
    target: Seq<Seq<char>>,
    ok: Seq<bool>,
    x: Seq<char>,
)
    requires
        ok.len() == target.len(),
        forall|j: int| 0 <= j < ok.len() ==> #[trigger] ok[j],
    ensures
        settled(settled(active, target, ok), target, ok) == settled(active, target, ok),
        settled(active, target, ok).contains(x) == target.contains(x),
{
    let kept = active.filter(is_in(target));
    let once = settled(active, target, ok);
    assert forall|i: int| 0 <= i < once.len() implies is_in(target)(#[trigger] once[i]) by {
        lemma_opened_members(kept, target, ok, target.len(), once[i]);
        names::lemma_filter_contains(active, is_in(target), once[i]);
        assert(once.contains(once[i]));
    }
    lemma_filter_all(once, is_in(target));
    assert forall|j: int| 0 <= j < target.len() implies once.contains(#[trigger] target[j]) by {
        assert(ok[j]);
        lemma_opened_has_target(kept, target, ok, target.len(), j);
    }
    lemma_opened_nothing(once, target, ok, target.len());
    lemma_opened_members(kept, target, ok, target.len(), x);
    names::lemma_filter_contains(active, is_in(target), x);
    if target.contains(x) {
        let j = choose|j: int| 0 <= j < target.len() && target[j] == x;
        assert(once.contains(target[j]));
    }
}

proof fn lemma_merged_push(list: Seq<Seq<char>>, more: Seq<Seq<char>>, x: Seq<char>)
    ensures
        merged(list, more.push(x)) == (if merged(list, more).contains(x) {
            merged(list, more)
        } else {
            merged(list, more).push(x)
        }),
    decreases more.len(),
{
    reveal_with_fuel(merged, 2);
    let all = more.push(x);
    if more.len() == 0 {
        assert(all.drop_first() =~= Seq::<Seq<char>>::empty());
    } else {
        assert(all.drop_first() =~= more.drop_first().push(x));
        assert(all[0] == more[0]);
        if list.contains(more[0]) {
            lemma_merged_push(list, more.drop_first(), x);
        } else {
            lemma_merged_push(list.push(more[0]), more.drop_first(), x);
        }
    }
}

proof fn lemma_merged(list: Seq<Seq<char>>, more: Seq<Seq<char>>)
    ensures
        ({
            let r = merged(list, more);
            let n = list.len() as int;
            &&& r.len() >= n
            &&& r.take(n) == list
            &&& forall|i: int| n <= i < r.len() ==> more.contains(#[trigger] r[i])
            &&& forall|j: int| 0 <= j < more.len() ==> r.contains(#[trigger] more[j])
            &&& forall|i: int, j: int|
                0 <= i < j < r.len() && n <= j ==> #[trigger] r[i] != #[trigger] r[j]
        }),
    decreases more.len(),
{
    let r = merged(list, more);
    let n = list.len() as int;
    if more.len() == 0 {
        assert(r.take(n) =~= list);
    } else {
        let before = more.drop_last();
        let x = more.last();
        lemma_merged(list, before);
        lemma_merged_push(list, before, x);
        assert(before.push(x) =~= more);
        let q = merged(list, before);
        assert(r.take(n) =~= q.take(n));
        assert forall|i: int| n <= i < r.len() implies more.contains(#[trigger] r[i]) by {
            if i < q.len() {
                assert(before.contains(q[i]));
                let a = choose|a: int| 0 <= a < before.len() && before[a] == q[i];
                assert(more[a] == r[i]);
            } else {
                assert(more[more.len() - 1] == r[i]);
            }
        }
        assert forall|j: int| 0 <= j < more.len() implies r.contains(#[trigger] more[j]) by {
            if j < before.len() {
                assert(q.contains(before[j]));
                let a = choose|a: int| 0 <= a < q.len() && q[a] == before[j];
                assert(r[a] == more[j]);
            } else if !q.contains(x) {
                assert(r[r.len() - 1] == x);
            }
        }
        assert forall|i: int, j: int| 0 <= i < j < r.len() && n <= j implies #[trigger] r[i]
            != #[trigger] r[j] by {
            if j < q.len() {
                assert(q[i] != q[j]);
            } else {
                assert(q[i] == r[i]);
                assert(q.contains(q[i]));
            }
        }
    }
}

proof fn lemma_merged_order(list: Seq<Seq<char>>, more: Seq<Seq<char>>, i: int, j: int)
    requires
        list.len() <= i < j < merged(list, more).len(),
    ensures
        exists|a: int, b: int|
            0 <= a < b < more.len() && more[a] == merged(list, more)[i] && more[b] == merged(
                list,
                more,
            )[j],
    decreases more.len(),
{
    if more.len() > 0 {
        let before = more.drop_last();
        let r = merged(list, more);
        let q = merged(list, before);
        lemma_merged(list, before);
        lemma_merged_push(list, before, more.last());
        assert(before.push(more.last()) =~= more);
        if j < q.len() {
            lemma_merged_order(list, before, i, j);
            let (a, b) = choose|a: int, b: int|
                0 <= a < b < before.len() && before[a] == q[i] && before[b] == q[j];
            assert(more[a] == r[i] && more[b] == r[j]);
        } else {
            assert(before.contains(q[i]));
            let a = choose|a: int| 0 <= a < before.len() && before[a] == q[i];
            assert(more[a] == r[i] && more[more.len() - 1] == r[j]);
        }
    }
}

/// What is to be active is what is switched on by hand, first and as it is, and
/// while the automatic switch is on every config of the group of the mode, in
/// the order of the group. Nothing else is, and no config of the group comes
/// twice.
pub proof fn law_group_joins_what_is_on(
    s: Slot,
    mode: InputMode,
    group: Seq<Seq<char>>,
    name: Seq<char>,
)
    requires
        mode == InputMode::Keyboard ==> group == s.keyboard,
        mode == InputMode::Controller ==> group == s.controller,
    ensures
        ({
            let r = expected(s, mode);
            let n = s.enabled.len() as int;
            &&& !s.auto ==> r == s.enabled
            &&& s.auto ==> {
                &&& r.contains(name) <==> s.enabled.contains(name) || group.contains(name)
                &&& r.len() >= n
                &&& r.take(n) == s.enabled
                &&& forall|i: int, j: int|
                    0 <= i < j < r.len() && n <= j ==> #[trigger] r[i] != #[trigger] r[j]
                &&& forall|i: int, j: int|
                    n <= i < j < r.len() ==> exists|a: int, b: int|
                        0 <= a < b < group.len() && group[a] == #[trigger] r[i] && group[b]
                            == #[trigger] r[j]
            }
        }),
{
    let r = expected(s, mode);
    let n = s.enabled.len() as int;
    if s.auto {
        lemma_merged(s.enabled, group);
        assert(r == merged(s.enabled, group));
        assert forall|i: int, j: int|
            n <= i < j < r.len() implies exists|a: int, b: int|
                0 <= a < b < group.len() && group[a] == #[trigger] r[i] && group[b]
                    == #[trigger] r[j] by {
            lemma_merged_order(s.enabled, group, i, j);
        }
        if r.contains(name) {
            let i = choose|i: int| 0 <= i < r.len() && r[i] == name;
            if i < n {
                assert(r.take(n)[i] == name);
            } else {
                assert(group.contains(r[i]));
            }
        }
        if s.enabled.contains(name) {
            let i = choose|i: int| 0 <= i < n && s.enabled[i] == name;
            assert(r.take(n)[i] == r[i]);
        }
        if group.contains(name) {
            let j = choose|j: int| 0 <= j < group.len() && group[j] == name;
            assert(r.contains(group[j]));
        }
    } else {
        assert(r == s.enabled);
    }
}

proof fn lemma_opened_order(
    active: Seq<Seq<char>>,
    target: Seq<Seq<char>>,
    ok: Seq<bool>,
    k: nat,
)
    requires
        k <= target.len(),
        ok.len() == target.len(),
    ensures
        ({
            let r = opened(active, target, ok, k);
            let n = active.len() as int;
            &&& r.len() >= n
            &&& r.take(n) == active
            &&& forall|i: int|
                n <= i < r.len() ==> !active.contains(#[trigger] r[i]) && exists|a: int|
                    0 <= a < k && target[a] == r[i] && ok[a]
            &&& forall|i: int, j: int|
                n <= i < j < r.len() ==> #[trigger] r[i] != #[trigger] r[j] && exists|a: int, b: int|
                    0 <= a < b < k && target[a] == r[i] && target[b] == r[j]
        }),
    decreases k,
{
    let r = opened(active, target, ok, k);
    let n = active.len() as int;
    if k == 0 {
        assert(r.take(n) =~= active);
    } else {
        let q = opened(active, target, ok, (k - 1) as nat);
        lemma_opened_order(active, target, ok, (k - 1) as nat);
        assert(r.take(n) =~= q.take(n));
        assert forall|i: int| n <= i < r.len() implies !active.contains(#[trigger] r[i]) && exists|
            a: int,
        |
            0 <= a < k && target[a] == r[i] && ok[a] by {
            if i < q.len() {
                assert(q[i] == r[i]);
                let a = choose|a: int| 0 <= a < k - 1 && target[a] == q[i] && ok[a];
                assert(target[a] == r[i]);
            } else {
                assert(target[k - 1] == r[i]);
                if active.contains(r[i]) {
                    let a = choose|a: int| 0 <= a < n && active[a] == r[i];
                    assert(q.take(n)[a] == q[a]);
                    assert(q.contains(target[k - 1]));
                }
            }
        }
        assert forall|i: int, j: int| n <= i < j < r.len() implies #[trigger] r[i]
            != #[trigger] r[j] && exists|a: int, b: int|
            0 <= a < b < k && target[a] == r[i] && target[b] == r[j] by {
            if j < q.len() {
                assert(q[i] == r[i] && q[j] == r[j]);
                let (a, b) = choose|a: int, b: int|
                    0 <= a < b < k - 1 && target[a] == q[i] && target[b] == q[j];
                assert(target[a] == r[i] && target[b] == r[j]);
            } else {
                assert(q[i] == r[i]);
                let a = choose|a: int| 0 <= a < k - 1 && target[a] == q[i] && ok[a];
                assert(target[a] == r[i] && target[k - 1] == r[j]);
            }
        }
    }
}

/// Active configs that are still wanted stay, first and in their order; the
/// others are closed; and of the wanted ones that were not active those that
/// could be opened follow, each once and in the order in which they are wanted.
pub proof fn law_settling_closes_and_opens(
    active: Seq<Seq<char>>,
    target: Seq<Seq<char>>,
    ok: Seq<bool>,
    x: Seq<char>,
)
    requires
        ok.len() == target.len(),
    ensures
        ({
            let r = settled(active, target, ok);
            let kept = active.filter(|n: Seq<char>| target.contains(n));
            let n = kept.len() as int;
            &&& r.contains(x) <==> target.contains(x) && (active.contains(x) || exists|a: int|
                0 <= a < target.len() && target[a] == x && ok[a])
            &&& r.len() >= n
            &&& r.take(n) == kept
            &&& forall|i: int, j: int|
                n <= i < j < r.len() ==> #[trigger] r[i] != #[trigger] r[j] && exists|a: int, b: int|
                    0 <= a < b < target.len() && target[a] == r[i] && target[b] == r[j]
        }),
{
    let r = settled(active, target, ok);
    let kept = active.filter(is_in(target));
    let n = kept.len() as int;
    assert(is_in(target) =~= (|n: Seq<char>| target.contains(n)));
    lemma_opened_order(kept, target, ok, target.len());
    names::lemma_filter_contains(active, is_in(target), x);
    lemma_opened_members(kept, target, ok, target.len(), x);
    if r.contains(x) && !kept.contains(x) {
        let i = choose|i: int| 0 <= i < r.len() && r[i] == x;
        if i < n {
            assert(r.take(n)[i] == x);
        } else {
            let a = choose|a: int| 0 <= a < target.len() && target[a] == r[i] && ok[a];
            assert(target[a] == x && ok[a]);
        }
    }
    if exists|a: int| 0 <= a < target.len() && target[a] == x && ok[a] {
        let a = choose|a: int| 0 <= a < target.len() && target[a] == x && ok[a];
        lemma_opened_has_target(kept, target, ok, target.len(), a);
    }
}

/// A config that is switched on by hand becomes the only one that is to be
/// active, in either mode. One that is switched off is closed, unless the group
/// of the mode still wants it.
pub proof fn law_toggling_a_config(s: Slot, mode: InputMode, file: String, other: Seq<char>)
    ensures
        ({
            let (t, e) = commanded(s, mode, TrayCommand::ToggleConfig(file));
            if s.enabled.contains(file@) {
                &&& t.auto == s.auto
                &&& t.enabled.contains(other) == (s.enabled.contains(other) && other != file@)
                &&& e == EffectView::CloseConfig(file@) <==> !expected(t, mode).contains(file@)
                &&& e == EffectView::Nothing <==> expected(t, mode).contains(file@)
            } else {
                &&& expected(t, mode) == seq![file@]
                &&& !t.auto
                &&& e == EffectView::ApplyMode
            }
        }),
        ({
            let t = commanded(s, mode, TrayCommand::ToggleConfig(file)).0;
            t == (Slot { enabled: t.enabled, auto: t.auto, last: None, ..s })
        }),
{
    let t = commanded(s, mode, TrayCommand::ToggleConfig(file)).0;
    names::law_without_takes_out_one_name(s.enabled, Seq::empty(), file@, other);
    names::law_without_takes_out_one_name(s.enabled, Seq::empty(), file@, file@);
    law_group_joins_what_is_on(t, mode, t.group(mode), file@);
}

/// Putting a config into the group of one side, or taking it out, changes that
/// group alone and for that config alone. What is shown is brought in line where
/// the automatic switch is on.
pub proof fn law_toggling_a_group(
    s: Slot,
    mode: InputMode,
    side: InputSide,
    file: String,
    other: Seq<char>,
)
    ensures
        ({
            let (t, e) = commanded(s, mode, TrayCommand::ToggleInputConfig(side, file));
            let (before, after) = match side {
                InputSide::Keyboard => (s.keyboard, t.keyboard),
                InputSide::Controller => (s.controller, t.controller),
            };
            &&& after.contains(file@) == !before.contains(file@)
            &&& other != file@ ==> after.contains(other) == before.contains(other)
            &&& side == InputSide::Keyboard ==> t == (Slot { keyboard: after, ..s })
            &&& side == InputSide::Controller ==> t == (Slot { controller: after, ..s })
            &&& e == (if s.auto { EffectView::ApplyMode } else { EffectView::Nothing })
        }),
{
    let before = match side {
        InputSide::Keyboard => s.keyboard,
        InputSide::Controller => s.controller,
    };
    names::law_without_takes_out_one_name(before, Seq::empty(), file@, other);
    names::law_without_takes_out_one_name(before, Seq::empty(), file@, file@);
    let after = before.push(file@);
    assert(after[before.len() as int] == file@);
    if before.contains(other) {
        let i = choose|i: int| 0 <= i < before.len() && before[i] == other;
        assert(after[i] == other);
    }
    if after.contains(other) && other != file@ {
        let i = choose|i: int| 0 <= i < after.len() && after[i] == other;
        assert(before[i] == other);
    }
}

/// Unloading leaves nothing to be active and remembers what was: the config that
/// was switched on, else the automatic switch. Where nothing is loaded and
/// nothing was, it does nothing.
pub proof fn law_unloading_remembers(s: Slot, mode: InputMode)
    ensures
        ({
            let (t, e) = commanded(s, mode, TrayCommand::UnloadConfigs);
            &&& t == (Slot { enabled: t.enabled, auto: t.auto, last: t.last, ..s })
            &&& s.enabled.len() > 0 || s.auto ==> {
                &&& e == EffectView::ApplyMode
                &&& expected(t, mode).len() == 0
                &&& !t.auto
                &&& s.enabled.len() > 0 ==> t.last == Some(LastView::Config(s.enabled[0]))
                &&& s.enabled.len() == 0 ==> t.last == Some(LastView::Auto)
            }
            &&& s.enabled.len() == 0 && !s.auto && s.last is Some ==> {
                &&& e == EffectView::ApplyMode
                &&& t.last is None
                &&& s.last == Some(LastView::Auto) ==> t.auto && t.enabled.len() == 0
                &&& forall|n: Seq<char>|
                    s.last == Some(LastView::Config(n)) ==> #[trigger] t.enabled == seq![n] && !t.auto
            }
            &&& s.enabled.len() == 0 && !s.auto && s.last is None ==> t == s && e
                == EffectView::Nothing
        }),
{
}

/// The commands that open the editor, the folder or read the configs again, and
/// the one that quits, change no setting. A frame rate is taken over, and the
/// main loop is told where it is another one. Turning the automatic switch on
/// forgets what was switched on by hand and what was unloaded.
pub proof fn law_other_commands(s: Slot, mode: InputMode, fps: u32, file: String)
    ensures
        commanded(s, mode, TrayCommand::EnterEditMode) == (s, EffectView::NewConfig),
        commanded(s, mode, TrayCommand::OpenProgramDir) == (s, EffectView::OpenFolder),
        commanded(s, mode, TrayCommand::ReloadConfigs) == (s, EffectView::ReloadAll),
        commanded(s, mode, TrayCommand::Quit) == (s, EffectView::Quit),
        ({
            let (t, e) = commanded(s, mode, TrayCommand::EditConfig(file));
            &&& t == s
            &&& e matches EffectView::EditConfig(f, name) && f == file@ && name.len() <= f.len()
                && f.take(name.len() as int) == name
        }),
        ({
            let (t, e) = commanded(s, mode, TrayCommand::SetFps(fps));
            &&& t == (Slot { fps, ..s })
            &&& e == EffectView::FpsChanged(fps) <==> fps != s.fps
            &&& e == EffectView::Nothing <==> fps == s.fps
        }),
        ({
            let (t, e) = commanded(s, mode, TrayCommand::ToggleAutoSwitch);
            &&& e == EffectView::ApplyMode
            &&& t.auto == !s.auto
            &&& s.auto ==> t == (Slot { auto: false, ..s })
            &&& !s.auto ==> t.enabled.len() == 0 && t.last is None
            &&& t.keyboard == s.keyboard && t.controller == s.controller && t.fps == s.fps
        }),
{
    text::lemma_strip_trailing(file@, ".yml"@);
}

} // verus!
