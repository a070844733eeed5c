//! Tray icon menu: its contents, the commands behind its items, and the state
//! that it shares with the main loop.

use vstd::prelude::*;

use crate::decimal;
use crate::decimal::decimal;
use crate::i18n::{t, Texts};
use crate::lines;
use crate::lines::{char_views, join_parts};
use crate::names;
use crate::names::{contains_name, views};
use crate::num;
use crate::text::{append_chars, append_text, chars_of, string_of};

verus! {

pub const MENU_FPS_30: usize = 1001;
pub const MENU_FPS_60: usize = 1002;
pub const MENU_FPS_120: usize = 1003;
pub const MENU_FPS_240: usize = 1004;
pub const MENU_NEW_CONFIG: usize = 1050;
pub const MENU_OPEN_DIR: usize = 1051;
pub const MENU_AUTO_SWITCH: usize = 1060;
pub const MENU_UNLOAD_CONFIG: usize = 1097;
pub const MENU_RELOAD_CONFIGS: usize = 1098;
pub const MENU_QUIT: usize = 1099;

/// Items that toggle a config file count from here.
pub const MENU_CONFIG_BASE: usize = 2000;

/// Items that edit a config file count from here.
pub const MENU_EDIT_CONFIG_BASE: usize = 3000;

/// Items of the keyboard group count from here.
pub const MENU_KBD_BASE: usize = 4000;

/// Items of the pad group count from here.
pub const MENU_PAD_BASE: usize = 5000;

/// Input side.
#[derive(Debug, Clone, Copy, PartialEq, Eq, Structural)]
pub enum InputSide {
    Keyboard,
    Controller,
}

/// Commands of the menu, for the main loop.
#[derive(Debug, Clone, PartialEq, Eq)]
pub enum TrayCommand {
    SetFps(u32),
    /// Create a config file in the editor
    EnterEditMode,
    /// Edit a config file
    EditConfig(String),
    /// Switch a config file on or off
    ToggleConfig(String),
    /// Open the program's folder
    OpenProgramDir,
    /// Read all active configs again
    ReloadConfigs,
    /// Unload what is loaded, or load what was unloaded last
    UnloadConfigs,
    /// Switch the automatic switch on or off
    ToggleAutoSwitch,
    /// Put a config file into the group of one side, or take it out
    ToggleInputConfig(InputSide, String),
    Quit,
}

/// What was unloaded last: a config file, or the automatic switch.
#[derive(Debug, PartialEq, Eq)]
pub enum UnloadSource {
    Config(String),
    Auto,
}

impl Clone for UnloadSource {
    fn clone(&self) -> (r: Self)
        ensures
            r == *self,
    {
        match self {
            UnloadSource::Config(s) => UnloadSource::Config(s.clone()),
            UnloadSource::Auto => UnloadSource::Auto,
        }
    }
}

/// The state that the menu and the main loop share.
pub struct TrayShared {
    /// The config files that the menu lists
    pub config_files: Vec<String>,
    /// The config files that are switched on
    pub enabled_configs: Vec<String>,
    pub last_unloaded: Option<UnloadSource>,
    pub pending: Option<TrayCommand>,
    pub current_fps: u32,
    pub active_configs: Vec<String>,
    pub auto_switch_on: bool,
    pub kbd_configs: Vec<String>,
    pub pad_configs: Vec<String>,
}

impl TrayShared {
    /// Nothing listed, loaded or pending.
    pub fn new() -> (r: TrayShared)
        ensures
            r.config_files@.len() == 0,
            r.enabled_configs@.len() == 0,
            r.last_unloaded is None,
            r.pending is None,
            r.current_fps == 30,
            r.active_configs@.len() == 0,
            !r.auto_switch_on,
            r.kbd_configs@.len() == 0,
            r.pad_configs@.len() == 0,
    {
        TrayShared {
            config_files: Vec::new(),
            enabled_configs: Vec::new(),
            last_unloaded: None,
            pending: None,
            current_fps: 30,
            active_configs: Vec::new(),
            auto_switch_on: false,
            kbd_configs: Vec::new(),
            pad_configs: Vec::new(),
        }
    }
}

/// Tells the menu which config files are switched on.
pub fn set_manual_enabled_configs(shared: &mut TrayShared, list: Vec<String>)
    ensures
        *final(shared) == (TrayShared { enabled_configs: list, ..*old(shared) }),
{
    shared.enabled_configs = list;
}

/// Remembers what was unloaded last.
pub fn set_last_unloaded(shared: &mut TrayShared, src: Option<UnloadSource>)
    ensures
        *final(shared) == (TrayShared { last_unloaded: src, ..*old(shared) }),
{
    shared.last_unloaded = src;
}

/// What was unloaded last.
pub fn last_unloaded_shared(shared: &TrayShared) -> (r: Option<UnloadSource>)
    ensures
        r == shared.last_unloaded,
{
    match &shared.last_unloaded {
        Some(s) => Some(s.clone()),
        None => None,
    }
}

/// The state with a command waiting in it; one that waits already is replaced.
pub open spec fn pushed(shared: TrayShared, cmd: TrayCommand) -> TrayShared {
    TrayShared { pending: Some(cmd), ..shared }
}

/// The waiting command, and the state without it.
pub open spec fn polled(shared: TrayShared) -> (Option<TrayCommand>, TrayShared) {
    (shared.pending, TrayShared { pending: None, ..shared })
}

/// Leaves a command for the main loop.
pub fn push_command(shared: &mut TrayShared, cmd: TrayCommand)
    ensures
        *final(shared) == pushed(*old(shared), cmd),
{
    shared.pending = Some(cmd);
}

/// Takes the waiting command, if there is one.
pub fn poll_command(shared: &mut TrayShared) -> (r: Option<TrayCommand>)
    ensures
        (r, *final(shared)) == polled(*old(shared)),
{
    shared.pending.take()
}

/// A command is taken once, and it is the last that was left.
pub proof fn law_commands_are_taken_once(shared: TrayShared, a: TrayCommand, b: TrayCommand)
    ensures
        polled(pushed(shared, a)).0 == Some(a),
        polled(pushed(pushed(shared, a), b)).0 == Some(b),
        polled(polled(shared).1).0 is None,
{
}

/// Tells the menu the frame rate.
pub fn set_current_fps(shared: &mut TrayShared, fps: u32)
    ensures
        *final(shared) == (TrayShared { current_fps: fps, ..*old(shared) }),
{
    shared.current_fps = fps;
}

/// Tells the menu which config files are active.
pub fn set_active_configs(shared: &mut TrayShared, configs: Vec<String>)
    ensures
        *final(shared) == (TrayShared { active_configs: configs, ..*old(shared) }),
{
    shared.active_configs = configs;
}

/// Tells the menu about the automatic switch and its groups.
pub fn set_auto_enable(shared: &mut TrayShared, auto_on: bool, kbd: Vec<String>, pad: Vec<String>)
    ensures
        *final(shared) == (TrayShared {
            auto_switch_on: auto_on,
            kbd_configs: kbd,
            pad_configs: pad,
            ..*old(shared)
        }),
{
    shared.auto_switch_on = auto_on;
    shared.kbd_configs = kbd;
    shared.pad_configs = pad;
}

// ===== Menu =====

/// A menu item.
#[derive(Debug)]
pub struct MenuItem {
    pub label: String,
    pub id: usize,
    pub checked: bool,
    pub grayed: bool,
}

/// An entry of the menu.
#[derive(Debug)]
pub enum MenuEntry {
    Separator,
    Item(MenuItem),
    /// Label, whether it is grayed, and items
    Submenu(String, bool, Vec<MenuItem>),
}

/// A menu item: label, number, whether it is checked, whether it is grayed.
pub type ItemView = (Seq<char>, int, bool, bool);

/// An entry of the menu.
pub enum EntryView {
    Separator,
    Item(ItemView),
    Submenu(Seq<char>, bool, Seq<ItemView>),
}

pub open spec fn item_view(i: MenuItem) -> ItemView {
    (i.label@, i.id as int, i.checked, i.grayed)
}

pub open spec fn item_views(v: Seq<MenuItem>) -> Seq<ItemView> {
    v.map_values(|i: MenuItem| item_view(i))
}

pub open spec fn entry_view(e: MenuEntry) -> EntryView {
    match e {
        MenuEntry::Separator => EntryView::Separator,
        MenuEntry::Item(i) => EntryView::Item(item_view(i)),
        MenuEntry::Submenu(l, g, v) => EntryView::Submenu(l@, g, item_views(v@)),
    }
}

pub open spec fn entry_views(v: Seq<MenuEntry>) -> Seq<EntryView> {
    v.map_values(|e: MenuEntry| entry_view(e))
}

/// One item for each file, numbered from `base` on, and checked where the file
/// is one of `members`.
pub open spec fn file_items(
    files: Seq<Seq<char>>,
    members: Seq<Seq<char>>,
    base: int,
) -> Seq<ItemView> {
    Seq::new(files.len(), |i: int| (files[i], base + i, members.contains(files[i]), false))
}

/// The items that choose the frame rate.
pub open spec fn fps_items(fps: u32) -> Seq<ItemView> {
    seq![
        ("30 FPS"@, MENU_FPS_30 as int, fps == 30, false),
        ("60 FPS"@, MENU_FPS_60 as int, fps == 60, false),
        ("120 FPS"@, MENU_FPS_120 as int, fps == 120, false),
        ("240 FPS"@, MENU_FPS_240 as int, fps == 240, false),
    ]
}

/// `s` with every "{}" replaced by `by`.
pub open spec fn replaced(s: Seq<char>, by: Seq<char>) -> Seq<char>
    decreases s.len(),
{
    if s.len() == 0 {
        s
    } else if s.len() >= 2 && s[0] == '{' && s[1] == '}' {
        by + replaced(s.skip(2), by)
    } else {
        seq![s[0]] + replaced(s.skip(1), by)
    }
}

/// What the menu says of the members of a group: their names where they are
/// three at most.
pub open spec fn group_suffix(texts: Texts, members: Seq<Seq<char>>) -> Seq<char> {
    if members.len() == 0 {
        texts.text("unset"@)
    } else if members.len() <= 3 {
        lines::join(members, ", "@)
    } else {
        replaced(
            replaced(texts.text("n_more_groups"@), lines::join(members.take(3), ", "@)),
            decimal::dec(members.len()),
        )
    }
}

/// The submenu of an input group; grayed while the automatic switch is off.
pub open spec fn group_entry(
    texts: Texts,
    mark: Seq<char>,
    key: Seq<char>,
    files: Seq<Seq<char>>,
    members: Seq<Seq<char>>,
    base: int,
    auto_on: bool,
) -> EntryView {
    EntryView::Submenu(
        mark + texts.text(key) + ": "@ + group_suffix(texts, members),
        !auto_on,
        file_items(files, members, base),
    )
}

/// The item that unloads what is loaded; it loads what was unloaded last where
/// nothing is loaded, and is grayed where nothing was.
pub open spec fn unload_item(texts: Texts, shared: TrayShared) -> ItemView {
    let id = MENU_UNLOAD_CONFIG as int;
    if shared.enabled_configs@.len() > 0 || shared.auto_switch_on {
        (texts.text("unload_config"@), id, false, false)
    } else {
        match shared.last_unloaded {
            Some(UnloadSource::Config(name)) => (
                texts.text("load_config"@) + " "@ + name@,
                id,
                false,
                false,
            ),
            Some(UnloadSource::Auto) => (
                texts.text("load_config"@) + " "@ + texts.text("auto_switch"@),
                id,
                false,
                false,
            ),
            None => (texts.text("unload_config"@), id, false, true),
        }
    }
}

/// A plain item.
pub open spec fn plain(label: Seq<char>, id: int) -> EntryView {
    EntryView::Item((label, id, false, false))
}

/// The part of the menu that is about the config files.
pub open spec fn files_part(texts: Texts, shared: TrayShared, files: Seq<Seq<char>>) -> Seq<
    EntryView,
> {
    let active = views(shared.active_configs@);
    let manual = views(shared.enabled_configs@);
    let auto_on = shared.auto_switch_on;
    seq![
        EntryView::Submenu(
            texts.text("edit_existing"@),
            false,
            file_items(files, active, MENU_EDIT_CONFIG_BASE as int),
        ),
        plain(texts.text("open_folder"@), MENU_OPEN_DIR as int),
        EntryView::Separator,
    ] + file_items(files, manual, MENU_CONFIG_BASE as int).map_values(
        |i: ItemView| EntryView::Item(i),
    ) + seq![
        EntryView::Separator,
        EntryView::Item((texts.text("auto_switch"@), MENU_AUTO_SWITCH as int, auto_on, false)),
        group_entry(
            texts,
            "├ "@,
            "pad"@,
            files,
            views(shared.pad_configs@),
            MENU_PAD_BASE as int,
            auto_on,
        ),
        group_entry(
            texts,
            "└ "@,
            "keyboard"@,
            files,
            views(shared.kbd_configs@),
            MENU_KBD_BASE as int,
            auto_on,
        ),
    ]
}

/// The menu.
pub open spec fn menu_of(texts: Texts, shared: TrayShared, files: Seq<Seq<char>>, fps: u32) -> Seq<
    EntryView,
> {
    seq![
        EntryView::Submenu(
            texts.text("refresh_rate"@) + ": "@ + decimal::dec(fps as nat) + " FPS"@,
            false,
            fps_items(fps),
        ),
        EntryView::Separator,
        plain(texts.text("new_config"@), MENU_NEW_CONFIG as int),
    ] + (if files.len() > 0 { files_part(texts, shared, files) } else { Seq::empty() }) + seq![
        EntryView::Separator,
        plain(texts.text("reload_configs"@), MENU_RELOAD_CONFIGS as int),
        EntryView::Item(unload_item(texts, shared)),
        EntryView::Separator,
        plain(texts.text("quit"@), MENU_QUIT as int),
    ]
}

fn item(label: &str, id: usize, checked: bool) -> (r: MenuItem)
    ensures
        item_view(r) == (label@, id as int, checked, false),
{
    MenuItem { label: label.to_owned(), id, checked, grayed: false }
}

fn push_entry(v: &mut Vec<MenuEntry>, e: MenuEntry)
    ensures
        entry_views(final(v)@) == entry_views(old(v)@).push(entry_view(e)),
{
    v.push(e);
    assert(entry_views(v@) =~= entry_views(old(v)@).push(entry_view(e)));
}

fn push_plain(v: &mut Vec<MenuEntry>, label: &str, id: usize)
    ensures
        entry_views(final(v)@) == entry_views(old(v)@).push(plain(label@, id as int)),
{
    push_entry(v, MenuEntry::Item(item(label, id, false)));
}

fn make_file_items(files: &Vec<String>, members: &Vec<String>, base: usize) -> (r: Vec<MenuItem>)
    requires
        files@.len() + base <= usize::MAX,
    ensures
        item_views(r@) == file_items(views(files@), views(members@), base as int),
{
    let ghost all = file_items(views(files@), views(members@), base as int);
    let mut r: Vec<MenuItem> = Vec::new();
    assert(item_views(r@) =~= all.take(0));
    for i in 0..files.len()
        invariant
            files@.len() + base <= usize::MAX,
            all == file_items(views(files@), views(members@), base as int),
            item_views(r@) == all.take(i as int),
    {
        let checked: bool = contains_name(members, files[i].as_str());
        let m: MenuItem = item(files[i].as_str(), base + i, checked);
        let ghost before = r@;
        r.push(m);
        assert(item_views(r@) =~= item_views(before).push(all[i as int]));
        assert(item_views(r@) =~= all.take(i + 1));
    }
    assert(all.take(files@.len() as int) =~= all);
    r
}

fn make_fps_items(fps: u32) -> (r: Vec<MenuItem>)
    ensures
        item_views(r@) == fps_items(fps),
{
    let mut r: Vec<MenuItem> = Vec::new();
    r.push(item("30 FPS", MENU_FPS_30, fps == 30));
    r.push(item("60 FPS", MENU_FPS_60, fps == 60));
    r.push(item("120 FPS", MENU_FPS_120, fps == 120));
    r.push(item("240 FPS", MENU_FPS_240, fps == 240));
    assert(item_views(r@) =~= fps_items(fps));
    r
}

/// Replaces every "{}" in `s`.
fn replace_braces(s: &Vec<char>, by: &Vec<char>) -> (r: Vec<char>)
    ensures
        r@ == replaced(s@, by@),
{
    let mut r: Vec<char> = Vec::new();
    let mut i: usize = 0;
    let n: usize = s.len();
    assert(s@.skip(0) =~= s@);
    assert(r@ + replaced(s@, by@) =~= replaced(s@, by@));
    while i < n
        invariant
            i <= n,
            n == s@.len(),
            r@ + replaced(s@.skip(i as int), by@) == replaced(s@, by@),
        decreases n - i,
    {
        let ghost rest = s@.skip(i as int);
        let ghost before = r@;
        if n - i >= 2 && s[i] == '{' && s[i + 1] == '}' {
            append_chars(&mut r, by);
            assert(rest.skip(2) =~= s@.skip(i + 2));
            i = i + 2;
        } else {
            r.push(s[i]);
            assert(rest.skip(1) =~= s@.skip(i + 1));
            i = i + 1;
        }
        assert(r@ + replaced(s@.skip(i as int), by@) =~= before + replaced(rest, by@));
    }
    assert(s@.skip(i as int) =~= Seq::<char>::empty());
    assert(r@ + Seq::<char>::empty() =~= r@);
    r
}

/// The names `0..n`, with ", " between each two.
fn join_names(v: &Vec<String>, n: usize) -> (r: Vec<char>)
    requires
        n <= v@.len(),
    ensures
        r@ == lines::join(views(v@).take(n as int), ", "@),
{
    let mut parts: Vec<Vec<char>> = Vec::new();
    for i in 0..n
        invariant
            n <= v@.len(),
            char_views(parts@) == views(v@).take(i as int),
    {
        let c: Vec<char> = chars_of(v[i].as_str());
        let ghost before = parts@;
        parts.push(c);
        assert(char_views(parts@) =~= char_views(before).push(c@));
        assert(char_views(parts@) =~= views(v@).take(i + 1));
    }
    join_parts(&parts, ", ")
}

fn make_group_suffix(texts: &Texts, members: &Vec<String>) -> (r: Vec<char>)
    requires
        members@.len() <= i64::MAX,
    ensures
        r@ == group_suffix(*texts, views(members@)),
{
    let n: usize = members.len();
    if n == 0 {
        chars_of(t(texts, "unset"))
    } else if n <= 3 {
        assert(views(members@).take(n as int) =~= views(members@));
        join_names(members, n)
    } else {
        let template: Vec<char> = chars_of(t(texts, "n_more_groups"));
        let first: Vec<char> = join_names(members, 3);
        let once: Vec<char> = replace_braces(&template, &first);
        let count: String = decimal(n as i64);
        let digits: Vec<char> = chars_of(count.as_str());
        replace_braces(&once, &digits)
    }
}

/// Appends the submenu of an input group.
fn append_input_group_menu(
    v: &mut Vec<MenuEntry>,
    texts: &Texts,
    mark: &str,
    key: &str,
    files: &Vec<String>,
    members: &Vec<String>,
    base: usize,
    auto_on: bool,
)
    requires
        files@.len() + base <= usize::MAX,
        members@.len() <= i64::MAX,
    ensures
        entry_views(final(v)@) == entry_views(old(v)@).push(
            group_entry(
                *texts,
                mark@,
                key@,
                views(files@),
                views(members@),
                base as int,
                auto_on,
            ),
        ),
{
    let mut title: Vec<char> = chars_of(mark);
    append_text(&mut title, t(texts, key));
    append_text(&mut title, ": ");
    let suffix: Vec<char> = make_group_suffix(texts, members);
    append_chars(&mut title, &suffix);
    let items: Vec<MenuItem> = make_file_items(files, members, base);
    push_entry(v, MenuEntry::Submenu(string_of(&title), !auto_on, items));
}

fn make_unload_item(texts: &Texts, shared: &TrayShared) -> (r: MenuItem)
    ensures
        item_view(r) == unload_item(*texts, *shared),
{
    if shared.enabled_configs.len() > 0 || shared.auto_switch_on {
        item(t(texts, "unload_config"), MENU_UNLOAD_CONFIG, false)
    } else {
        match &shared.last_unloaded {
            Some(src) => {
                let mut label: Vec<char> = chars_of(t(texts, "load_config"));
                append_text(&mut label, " ");
                match src {
                    UnloadSource::Config(name) => append_text(&mut label, name.as_str()),
                    UnloadSource::Auto => append_text(&mut label, t(texts, "auto_switch")),
                }
                MenuItem {
                    label: string_of(&label),
                    id: MENU_UNLOAD_CONFIG,
                    checked: false,
                    grayed: false,
                }
            },
            None => MenuItem {
                label: t(texts, "unload_config").to_owned(),
                id: MENU_UNLOAD_CONFIG,
                checked: false,
                grayed: true,
            },
        }
    }
}

/// Appends the part of the menu that is about the config files.
fn append_files_part(
    v: &mut Vec<MenuEntry>,
    texts: &Texts,
    shared: &TrayShared,
    files: &Vec<String>,
)
    requires
        files@.len() + MENU_PAD_BASE <= usize::MAX,
        shared.kbd_configs@.len() <= i64::MAX,
        shared.pad_configs@.len() <= i64::MAX,
    ensures
        entry_views(final(v)@) == entry_views(old(v)@) + files_part(
            *texts,
            *shared,
            views(files@),
        ),
{
    let ghost start = entry_views(v@);
    let ghost part = files_part(*texts, *shared, views(files@));
    let edit: Vec<MenuItem> = make_file_items(files, &shared.active_configs, MENU_EDIT_CONFIG_BASE);
    push_entry(v, MenuEntry::Submenu(t(texts, "edit_existing").to_owned(), false, edit));
    push_plain(v, t(texts, "open_folder"), MENU_OPEN_DIR);
    push_entry(v, MenuEntry::Separator);
    let ghost toggles = file_items(
        views(files@),
        views(shared.enabled_configs@),
        MENU_CONFIG_BASE as int,
    ).map_values(|i: ItemView| EntryView::Item(i));
    let ghost head = entry_views(v@);
    assert(head + toggles.take(0) =~= head);
    for i in 0..files.len()
        invariant
            files@.len() + MENU_PAD_BASE <= usize::MAX,
            toggles == file_items(
                views(files@),
                views(shared.enabled_configs@),
                MENU_CONFIG_BASE as int,
            ).map_values(|i: ItemView| EntryView::Item(i)),
            entry_views(v@) == head + toggles.take(i as int),
    {
        let checked: bool = contains_name(&shared.enabled_configs, files[i].as_str());
        let m: MenuItem = item(files[i].as_str(), MENU_CONFIG_BASE + i, checked);
        push_entry(v, MenuEntry::Item(m));
        assert(entry_views(v@) =~= head + toggles.take(i + 1));
    }
    assert(toggles.take(files@.len() as int) =~= toggles);
    push_entry(v, MenuEntry::Separator);
    push_entry(
        v,
        MenuEntry::Item(item(t(texts, "auto_switch"), MENU_AUTO_SWITCH, shared.auto_switch_on)),
    );
    append_input_group_menu(
        v,
        texts,
        "├ ",
        "pad",
        files,
        &shared.pad_configs,
        MENU_PAD_BASE,
        shared.auto_switch_on,
    );
    append_input_group_menu(
        v,
        texts,
        "└ ",
        "keyboard",
        files,
        &shared.kbd_configs,
        MENU_KBD_BASE,
        shared.auto_switch_on,
    );
    assert(entry_views(v@) =~= start + part);
}

/// Builds the menu for the given config files, and remembers the files for the
/// commands behind its items.
pub fn build_menu(shared: &mut TrayShared, texts: &Texts, files: &Vec<String>, fps: u32) -> (r: Vec<
    MenuEntry,
>)
    requires
        files@.len() + MENU_PAD_BASE <= usize::MAX,
        old(shared).kbd_configs@.len() <= i64::MAX,
        old(shared).pad_configs@.len() <= i64::MAX,
    ensures
        entry_views(r@) == menu_of(*texts, *old(shared), views(files@), fps),
        *final(shared) == (TrayShared {
            config_files: final(shared).config_files,
            ..*old(shared)
        }),
        final(shared).config_files@ == (if files@.len() > 0 {
            files@
        } else {
            old(shared).config_files@
        }),
{
    let mut v: Vec<MenuEntry> = Vec::new();
    let mut title: Vec<char> = chars_of(t(texts, "refresh_rate"));
    append_text(&mut title, ": ");
    let rate: String = decimal(fps as i64);
    append_text(&mut title, rate.as_str());
    append_text(&mut title, " FPS");
    assert(title@ =~= texts.text("refresh_rate"@) + ": "@ + decimal::dec(fps as nat) + " FPS"@);
    push_entry(&mut v, MenuEntry::Submenu(string_of(&title), false, make_fps_items(fps)));
    push_entry(&mut v, MenuEntry::Separator);
    push_plain(&mut v, t(texts, "new_config"), MENU_NEW_CONFIG);
    if files.len() > 0 {
        append_files_part(&mut v, texts, shared, files);
    }
    push_entry(&mut v, MenuEntry::Separator);
    push_plain(&mut v, t(texts, "reload_configs"), MENU_RELOAD_CONFIGS);
    push_entry(&mut v, MenuEntry::Item(make_unload_item(texts, shared)));
    push_entry(&mut v, MenuEntry::Separator);
    push_plain(&mut v, t(texts, "quit"), MENU_QUIT);
    assert(entry_views(v@) =~= menu_of(*texts, *old(shared), views(files@), fps));
    if files.len() > 0 {
        shared.config_files = files.clone();
    }
    v
}

// ===== Commands =====

/// The file that item `id` of a group that counts from `base` stands for.
pub open spec fn group_file(files: Seq<String>, id: int, base: int) -> Option<String> {
    if base <= id < base + 1000 && id - base < files.len() {
        Some(files[id - base])
    } else {
        None
    }
}

/// The command behind the menu item `id`.
pub open spec fn command_of(files: Seq<String>, id: int) -> Option<TrayCommand> {
    if id == MENU_FPS_30 {
        Some(TrayCommand::SetFps(30))
    } else if id == MENU_FPS_60 {
        Some(TrayCommand::SetFps(60))
    } else if id == MENU_FPS_120 {
        Some(TrayCommand::SetFps(120))
    } else if id == MENU_FPS_240 {
        Some(TrayCommand::SetFps(240))
    } else if id == MENU_NEW_CONFIG {
        Some(TrayCommand::EnterEditMode)
    } else if id == MENU_OPEN_DIR {
        Some(TrayCommand::OpenProgramDir)
    } else if id == MENU_RELOAD_CONFIGS {
        Some(TrayCommand::ReloadConfigs)
    } else if id == MENU_UNLOAD_CONFIG {
        Some(TrayCommand::UnloadConfigs)
    } else if id == MENU_AUTO_SWITCH {
        Some(TrayCommand::ToggleAutoSwitch)
    } else if id == MENU_QUIT {
        Some(TrayCommand::Quit)
    } else {
        match (
            group_file(files, id, MENU_EDIT_CONFIG_BASE as int),
            group_file(files, id, MENU_CONFIG_BASE as int),
            group_file(files, id, MENU_KBD_BASE as int),
            group_file(files, id, MENU_PAD_BASE as int),
        ) {
            (Some(f), _, _, _) => Some(TrayCommand::EditConfig(f)),
            (_, Some(f), _, _) => Some(TrayCommand::ToggleConfig(f)),
            (_, _, Some(f), _) => Some(TrayCommand::ToggleInputConfig(InputSide::Keyboard, f)),
            (_, _, _, Some(f)) => Some(TrayCommand::ToggleInputConfig(InputSide::Controller, f)),
            _ => None,
        }
    }
}

fn file_at(files: &Vec<String>, id: usize, base: usize) -> (r: Option<String>)
    requires
        base <= 5000,
    ensures
        r == group_file(files@, id as int, base as int),
{
    if base <= id && id < base + 1000 && id - base < files.len() {
        Some(files[id - base].clone())
    } else {
        None
    }
}

/// The command behind the menu item `id`.
pub fn menu_command(files: &Vec<String>, id: usize) -> (r: Option<TrayCommand>)
    ensures
        r == command_of(files@, id as int),
{
    if id == MENU_FPS_30 {
        return Some(TrayCommand::SetFps(30));
    }
    if id == MENU_FPS_60 {
        return Some(TrayCommand::SetFps(60));
    }
    if id == MENU_FPS_120 {
        return Some(TrayCommand::SetFps(120));
    }
    if id == MENU_FPS_240 {
        return Some(TrayCommand::SetFps(240));
    }
    if id == MENU_NEW_CONFIG {
        return Some(TrayCommand::EnterEditMode);
    }
    if id == MENU_OPEN_DIR {
        return Some(TrayCommand::OpenProgramDir);
    }
    if id == MENU_RELOAD_CONFIGS {
        return Some(TrayCommand::ReloadConfigs);
    }
    if id == MENU_UNLOAD_CONFIG {
        return Some(TrayCommand::UnloadConfigs);
    }
    if id == MENU_AUTO_SWITCH {
        return Some(TrayCommand::ToggleAutoSwitch);
    }
    if id == MENU_QUIT {
        return Some(TrayCommand::Quit);
    }
    if let Some(f) = file_at(files, id, MENU_EDIT_CONFIG_BASE) {
        return Some(TrayCommand::EditConfig(f));
    }
    if let Some(f) = file_at(files, id, MENU_CONFIG_BASE) {
        return Some(TrayCommand::ToggleConfig(f));
    }
    if let Some(f) = file_at(files, id, MENU_KBD_BASE) {
        return Some(TrayCommand::ToggleInputConfig(InputSide::Keyboard, f));
    }
    if let Some(f) = file_at(files, id, MENU_PAD_BASE) {
        return Some(TrayCommand::ToggleInputConfig(InputSide::Controller, f));
    }
    None
}

/// Leaves the command behind a chosen menu item for the main loop. The item's
/// number is in the low 16 bits of `wparam`. Returns whether the program is to
/// quit.
pub fn choose_item(shared: &mut TrayShared, wparam: usize) -> (r: bool)
    ensures
        match command_of(old(shared).config_files@, wparam as int % 0x10000) {
            Some(c) => *final(shared) == pushed(*old(shared), c),
            None => *final(shared) == *old(shared),
        },
        r == (wparam as int % 0x10000 == MENU_QUIT),
{
    let id: usize = wparam % 0x10000;
    if let Some(c) = menu_command(&shared.config_files, id) {
        push_command(shared, c);
    }
    id == MENU_QUIT
}

/// The items that the menu shows for a file give the commands for that file, for
/// as many files as have a number of their own.
pub proof fn law_file_items_give_their_commands(files: Seq<String>, i: int)
    requires
        0 <= i < files.len(),
        i < 1000,
    ensures
        command_of(files, MENU_EDIT_CONFIG_BASE + i) == Some(TrayCommand::EditConfig(files[i])),
        command_of(files, MENU_CONFIG_BASE + i) == Some(TrayCommand::ToggleConfig(files[i])),
        command_of(files, MENU_KBD_BASE + i) == Some(
            TrayCommand::ToggleInputConfig(InputSide::Keyboard, files[i]),
        ),
        command_of(files, MENU_PAD_BASE + i) == Some(
            TrayCommand::ToggleInputConfig(InputSide::Controller, files[i]),
        ),
{
}

// ===== Popup position =====

/// A rectangle: left, top, right, bottom.
pub type Area = (i32, i32, i32, i32);

/// Where the menu pops up.
#[derive(Debug, Clone, Copy, PartialEq, Eq, Structural)]
pub struct Popup {
    pub x: i32,
    pub y: i32,
    /// Whether the menu opens to the left
    pub right_aligned: bool,
    /// Whether the menu opens upward
    pub bottom_aligned: bool,
}

/// Where the menu pops up for a click at `pt`: inside the work area `wa`, toward
/// the middle of the screen, and away from a taskbar at the top or bottom.
pub fn compute_popup_pos(pt: (i32, i32), wa: (i32, i32, i32, i32), screen_h: i32) -> (r: Popup)
    requires
        wa.0 < wa.2,
        wa.1 < wa.3,
    ensures
        r.x == num::int_clamp(pt.0 as int, wa.0 as int, wa.2 - 1),
        r.y == num::int_clamp(pt.1 as int, wa.1 as int, wa.3 - 1),
        r.right_aligned == (r.x > num::half(wa.0 + wa.2)),
        r.bottom_aligned == (if wa.1 > 0 && wa.3 == screen_h {
            false
        } else if wa.3 < screen_h && wa.1 == 0 {
            true
        } else {
            r.y >= num::half(wa.1 + wa.3)
        }),
{
    let taskbar_bottom: bool = wa.3 < screen_h && wa.1 == 0;
    let taskbar_top: bool = wa.1 > 0 && wa.3 == screen_h;
    let x: i32 = num::clamp_i32(pt.0, wa.0, wa.2 - 1);
    let y: i32 = num::clamp_i32(pt.1, wa.1, wa.3 - 1);
    let mid_x: i64 = (wa.0 as i64 + wa.2 as i64) / 2;
    let mid_y: i64 = (wa.1 as i64 + wa.3 as i64) / 2;
    let bottom_aligned: bool = if taskbar_top {
        false
    } else if taskbar_bottom {
        true
    } else {
        y as i64 >= mid_y
    };
    Popup { x, y, right_aligned: x as i64 > mid_x, bottom_aligned }
}

// ===== Laws of the menu =====

/// Every fixed item stands for its own command, and a number that belongs to no
/// item, or to a file that is not there, for none.
pub proof fn law_items_give_their_commands(files: Seq<String>, id: int)
    ensures
        command_of(files, 1001) == Some(TrayCommand::SetFps(30)),
        command_of(files, 1002) == Some(TrayCommand::SetFps(60)),
        command_of(files, 1003) == Some(TrayCommand::SetFps(120)),
        command_of(files, 1004) == Some(TrayCommand::SetFps(240)),
        command_of(files, 1050) == Some(TrayCommand::EnterEditMode),
        command_of(files, 1051) == Some(TrayCommand::OpenProgramDir),
        command_of(files, 1060) == Some(TrayCommand::ToggleAutoSwitch),
        command_of(files, 1097) == Some(TrayCommand::UnloadConfigs),
        command_of(files, 1098) == Some(TrayCommand::ReloadConfigs),
        command_of(files, 1099) == Some(TrayCommand::Quit),
        id < 1001 || 1004 < id < 1050 || 1051 < id < 1060 || 1060 < id < 1097 || 1099 < id < 2000
            || id >= 6000 ==> command_of(files, id) is None,
        2000 <= id < 6000 && id % 1000 >= files.len() ==> command_of(files, id) is None,
{
}

/// The items of the frame rates set what they say, and the one of the current
/// rate is checked.
pub proof fn law_rate_items(files: Seq<String>, fps: u32, k: int, rate: u32)
    requires
        0 <= k < 4,
        rate == (if k == 0 {
            30u32
        } else if k == 1 {
            60
        } else if k == 2 {
            120
        } else {
            240
        }),
    ensures
        fps_items(fps).len() == 4,
        fps_items(fps)[k].0 == (if k == 0 {
            "30 FPS"@
        } else if k == 1 {
            "60 FPS"@
        } else if k == 2 {
            "120 FPS"@
        } else {
            "240 FPS"@
        }),
        command_of(files, fps_items(fps)[k].1) == Some(TrayCommand::SetFps(rate)),
        fps_items(fps)[k].2 == (fps == rate),
        !fps_items(fps)[k].3,
{
}

/// The menu has an item for each file, with its name, a number of its own, and a
/// check where the file is one of the members.
pub proof fn law_file_items(files: Seq<Seq<char>>, members: Seq<Seq<char>>, base: int, i: int)
    requires
        0 <= i < files.len(),
    ensures
        file_items(files, members, base).len() == files.len(),
        file_items(files, members, base)[i] == (
            files[i],
            base + i,
            members.contains(files[i]),
            false,
        ),
{
}

/// Every pair of braces is replaced, and everything else is kept in its place.
pub proof fn law_braces_are_replaced(s: Seq<char>, by: Seq<char>, c: char)
    ensures
        replaced(seq!['{', '}'] + s, by) == by + replaced(s, by),
        c != '{' ==> replaced(seq![c] + s, by) == seq![c] + replaced(s, by),
        s.len() == 0 || s[0] != '}' ==> replaced(seq!['{'] + s, by) == seq!['{'] + replaced(s, by),
        replaced(Seq::empty(), by).len() == 0,
{
    assert((seq!['{', '}'] + s).skip(2) =~= s);
    assert((seq![c] + s).skip(1) =~= s);
    assert((seq!['{'] + s).skip(1) =~= s);
}

/// A group is described by its members where they are three at most, and else by
/// the first three and their number; an empty one is said to be unset.
pub proof fn law_group_description(texts: Texts, members: Seq<Seq<char>>)
    ensures
        members.len() == 0 ==> group_suffix(texts, members) == texts.text("unset"@),
        1 <= members.len() <= 3 ==> group_suffix(texts, members) == lines::join(members, ", "@),
        members.len() > 3 ==> group_suffix(texts, members) == replaced(
            replaced(
                texts.text("n_more_groups"@),
                lines::join(seq![members[0], members[1], members[2]], ", "@),
            ),
            decimal::dec(members.len()),
        ),
{
    if members.len() > 3 {
        assert(members.take(3) =~= seq![members[0], members[1], members[2]]);
    }
}

/// The menu without files: the frame rates, the item for a new config, and at the
/// end those that read the configs again, unload them and quit. Each item gives
/// the command that it names.
pub proof fn law_menu_items(
    texts: Texts,
    shared: TrayShared,
    files: Seq<Seq<char>>,
    fps: u32,
)
    ensures
        ({
            let m = menu_of(texts, shared, files, fps);
            let n = m.len() as int;
            &&& m[0] == EntryView::Submenu(
                texts.text("refresh_rate"@) + ": "@ + decimal::dec(fps as nat) + " FPS"@,
                false,
                fps_items(fps),
            )
            &&& m[1] is Separator
            &&& m[2] == EntryView::Item((texts.text("new_config"@), 1050, false, false))
            &&& m[n - 5] is Separator
            &&& m[n - 4] == EntryView::Item((texts.text("reload_configs"@), 1098, false, false))
            &&& m[n - 3] == EntryView::Item(unload_item(texts, shared))
            &&& m[n - 2] is Separator
            &&& m[n - 1] == EntryView::Item((texts.text("quit"@), 1099, false, false))
            &&& files.len() == 0 ==> n == 8
            &&& files.len() > 0 ==> n == 15 + files.len()
        }),
{
}

/// The menu with files: a submenu to edit each, the item for the folder, an item
/// to switch each on or off, the automatic switch with its check, and the two
/// groups, which are grayed while it is off.
pub proof fn law_menu_of_files(
    texts: Texts,
    shared: TrayShared,
    files: Seq<Seq<char>>,
    fps: u32,
    i: int,
)
    requires
        0 <= i < files.len(),
    ensures
        ({
            let m = menu_of(texts, shared, files, fps);
            let k = 6 + files.len() as int;
            let on = shared.auto_switch_on;
            let pads = views(shared.pad_configs@);
            let keyboards = views(shared.kbd_configs@);
            &&& m[3] == EntryView::Submenu(
                texts.text("edit_existing"@),
                false,
                file_items(files, views(shared.active_configs@), 3000),
            )
            &&& m[4] == EntryView::Item((texts.text("open_folder"@), 1051, false, false))
            &&& m[5] is Separator
            &&& m[6 + i] == EntryView::Item(
                (
                    files[i],
                    2000 + i,
                    views(shared.enabled_configs@).contains(files[i]),
                    false,
                ),
            )
            &&& m[k] is Separator
            &&& m[k + 1] == EntryView::Item((texts.text("auto_switch"@), 1060, on, false))
            &&& m[k + 2] == EntryView::Submenu(
                "├ "@ + texts.text("pad"@) + ": "@ + group_suffix(texts, pads),
                !on,
                file_items(files, pads, 5000),
            )
            &&& m[k + 3] == EntryView::Submenu(
                "└ "@ + texts.text("keyboard"@) + ": "@ + group_suffix(texts, keyboards),
                !on,
                file_items(files, keyboards, 4000),
            )
        }),
{
}

/// The item that unloads offers to unload while something is loaded; else it
/// offers to load what was unloaded last, by its name, and is grayed where nothing
/// was.
pub proof fn law_unload_item(texts: Texts, shared: TrayShared)
    ensures
        ({
            let i = unload_item(texts, shared);
            let loaded = shared.enabled_configs@.len() > 0 || shared.auto_switch_on;
            &&& i.1 == 1097
            &&& !i.2
            &&& i.3 == (!loaded && shared.last_unloaded is None)
            &&& loaded || shared.last_unloaded is None ==> i.0 == texts.text("unload_config"@)
            &&& !loaded ==> match shared.last_unloaded {
                Some(UnloadSource::Config(n)) => i.0 == texts.text("load_config"@) + " "@ + n@,
                Some(UnloadSource::Auto) => i.0 == texts.text("load_config"@) + " "@ + texts.text(
                    "auto_switch"@,
                ),
                None => true,
            }
        }),
{
}

} // verus!
