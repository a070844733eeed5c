//! Capturing, the tray menu, the session, input, log files and the icon.

use aportal::capture::{
    acquire_outcome, append_regions, best_refresh, frame_range, source_box, tells_losses,
    AcquireOutcome, RegionRect, Staging, StagingPlan, DXGI_ERROR_ACCESS_LOST,
    DXGI_ERROR_WAIT_TIMEOUT,
};
use aportal::config::{CaptureRegion, Config, DisplayRect, GlobalSettings, Rect};
use aportal::i18n::{
    lang, lang_file_name, load_from_file, no_texts, set_lang, t, take_table, Lang,
};
use aportal::icon::{encode_dib_entry, pack_ico, version_numbers};
use aportal::input::{pad_activity, Gamepad, Input, InputMode, PadState, BACK_OFF};
use aportal::logtext::{crash_text, normalize_log_file, LOG_MAX_LINES};
use aportal::session::{
    active_target, apply_input_mode, clamp_fps, count_capture, kept_positions, pace, position_of,
    startup_configs, Captured, Effect, Pace, Session,
};
use aportal::tray::{
    build_menu, choose_item, compute_popup_pos, last_unloaded_shared, menu_command, poll_command,
    push_command, set_active_configs, set_auto_enable, set_last_unloaded,
    set_manual_enabled_configs, InputSide, MenuEntry, Popup, TrayCommand, TrayShared, UnloadSource,
    MENU_CONFIG_BASE, MENU_EDIT_CONFIG_BASE, MENU_FPS_120, MENU_KBD_BASE, MENU_PAD_BASE, MENU_QUIT,
    MENU_UNLOAD_CONFIG,
};

const MS: u64 = 1_000_000;

fn strings(v: &[&str]) -> Vec<String> {
    v.iter().map(|s| s.to_string()).collect()
}

fn rect(x: u32, y: u32, w: u32, h: u32) -> RegionRect {
    RegionRect { x, y, w, h }
}

fn config(sources: &[(u32, u32, u32, u32)]) -> Config {
    Config {
        capture_regions: sources
            .iter()
            .map(|s| CaptureRegion {
                id: "r".to_string(),
                source: Rect { x: s.0, y: s.1, width: s.2, height: s.3 },
                display: DisplayRect {
                    x: 0,
                    y: 0,
                    width: 0,
                    height: 0,
                    z_order: 0,
                    opacity: None,
                    rotate: 0,
                },
                z_order: None,
            })
            .collect(),
        ..Config::default()
    }
}

fn pad() -> Gamepad {
    Gamepad {
        buttons: 0,
        left_trigger: 0,
        right_trigger: 0,
        thumb_lx: 0,
        thumb_ly: 0,
        thumb_rx: 0,
        thumb_ry: 0,
    }
}

// ===== Capturing =====

#[test]
fn errors_of_the_screen_are_told_apart() {
    assert_eq!(DXGI_ERROR_WAIT_TIMEOUT as u32, 0x887A0027);
    assert_eq!(DXGI_ERROR_ACCESS_LOST as u32, 0x887A0026);
    assert_eq!(acquire_outcome(DXGI_ERROR_WAIT_TIMEOUT), AcquireOutcome::Unchanged);
    assert_eq!(acquire_outcome(DXGI_ERROR_ACCESS_LOST), AcquireOutcome::Lost);
    assert_eq!(acquire_outcome(-1), AcquireOutcome::Failed);
}

#[test]
fn sources_are_cut_to_the_screen() {
    assert_eq!(source_box(&rect(10, 20, 30, 40), 100, 100), Some((10, 20, 40, 60)));
    assert_eq!(source_box(&rect(90, 20, 30, 40), 100, 50), Some((90, 20, 100, 50)));
    assert_eq!(source_box(&rect(100, 0, 30, 40), 100, 100), None);
    assert_eq!(source_box(&rect(0, 0, 0, 40), 100, 100), None);
    assert_eq!(source_box(&rect(u32::MAX, 0, 2, 2), 100, 100), None);
}

#[test]
fn regions_lie_side_by_side() {
    let mut s = Staging::new();
    let regions = vec![rect(0, 0, 3, 2), rect(5, 5, 2, 4)];
    assert_eq!(s.plan(&Vec::new()), StagingPlan::Nothing);
    let plan = s.plan(&regions);
    s.ensure_staging(&regions);
    match plan {
        StagingPlan::Create(w, h) => {
            assert!(w >= 5 && h >= 4);
            assert_eq!((s.w, s.h), (w, h));
        }
        other => panic!("{:?}", other),
    }
    assert_eq!((s.slots[0].x_offset, s.slots[1].x_offset), (0, 3));
    assert_eq!((s.slots[0].cpu.len(), s.slots[1].cpu.len()), (24, 32));
    assert_eq!(s.plan(&regions), StagingPlan::Keep);
}

#[test]
fn regions_read_what_was_written() {
    let mut s = Staging::new();
    s.ensure_staging(&vec![rect(0, 0, 2, 1), rect(5, 5, 1, 2)]);
    let pitch = s.w as usize * 4 + 8;
    let mut mapped = vec![0u8; pitch * s.h as usize];
    for (i, b) in mapped.iter_mut().enumerate() {
        *b = (i % 251) as u8;
    }
    s.read_back(&mapped, pitch);
    let frames = s.frames();
    assert_eq!(frames[0].data, &mapped[0..8]);
    assert_eq!(&frames[1].data[0..4], &mapped[8..12]);
    assert_eq!(&frames[1].data[4..8], &mapped[pitch + 8..pitch + 12]);
    assert_eq!((frames[1].w, frames[1].h), (1, 2));
}

#[test]
fn buffers_take_turns() {
    let mut s = Staging::new();
    assert_eq!(s.buffer_indices(), (0, 1));
    assert!(!s.frame_copied());
    assert_eq!(s.buffer_indices(), (1, 0));
    assert!(s.frame_copied());
    s.reset();
    assert_eq!(s.acquired_seq, 0);
}

#[test]
fn frames_are_shared_out_to_the_configs() {
    let mut all = Vec::new();
    let a = append_regions(&mut all, &config(&[(1, 2, 3, 4), (5, 6, 7, 8)]));
    let b = append_regions(&mut all, &config(&[(9, 9, 9, 9)]));
    assert_eq!((a, b), (0, 2));
    assert_eq!(all[1], rect(5, 6, 7, 8));
    assert_eq!(frame_range(&vec![a, b], all.len(), 0), (0, 2));
    assert_eq!(frame_range(&vec![a, b], all.len(), 1), (2, 3));
}

#[test]
fn the_fastest_mode_wins() {
    let modes = vec![
        (800, 600, 240, 1),
        (1920, 1080, 60, 1),
        (1920, 1080, 143_999, 1000),
        (1920, 1080, 999, 0),
        (1920, 1080, 120, 1),
    ];
    assert_eq!(best_refresh(&modes, 1920, 1080), Some((143_999, 1000)));
    assert_eq!(best_refresh(&modes, 640, 480), None);
}

// ===== Input =====

#[test]
fn pads_are_active_outside_of_the_dead_zone() {
    assert_eq!(pad_activity(None), PadState::NotConnected);
    assert_eq!(pad_activity(Some(pad())), PadState::Idle);
    assert_eq!(pad_activity(Some(Gamepad { buttons: 1, ..pad() })), PadState::Active);
    assert_eq!(pad_activity(Some(Gamepad { left_trigger: 8, ..pad() })), PadState::Idle);
    assert_eq!(pad_activity(Some(Gamepad { right_trigger: 9, ..pad() })), PadState::Active);
    assert_eq!(pad_activity(Some(Gamepad { thumb_lx: 4000, ..pad() })), PadState::Idle);
    assert_eq!(pad_activity(Some(Gamepad { thumb_ly: -4001, ..pad() })), PadState::Active);
    assert_eq!(pad_activity(Some(Gamepad { thumb_rx: i16::MIN, ..pad() })), PadState::Active);
}

#[test]
fn the_pad_comes_before_the_mouse() {
    let mut i = Input::new(200, true, 0, (0, 0));
    assert_eq!(i.mode(), InputMode::Keyboard);
    assert!(i.poll(0, (100, 0), PadState::Active));
    assert_eq!(i.mode(), InputMode::Controller);
    assert_eq!((i.mode().label(), InputMode::Keyboard.label()), ("pad", "keyboard"));
    assert!(!i.poll(200 * MS, (101, 1), PadState::Idle));
    assert!(i.poll(400 * MS, (104, 1), PadState::Idle));
    assert_eq!(i.mode(), InputMode::Keyboard);
}

#[test]
fn polls_keep_their_distance() {
    let mut i = Input::new(0, false, 0, (0, 0));
    assert_eq!(i.interval, 1);
    assert_eq!(Input::new(99_999, false, 0, (0, 0)).interval, 10_000);
    i.poll(0, (0, 0), PadState::Idle);
    assert!(!i.due(MS - 1));
    assert!(i.due(MS));
    // without a pad the next poll is put off
    i.poll(MS, (0, 0), PadState::NotConnected);
    assert!(!i.due(BACK_OFF));
    assert!(i.due(BACK_OFF + 2 * MS));
    // mouse movement does not count here
    assert!(!i.poll(2 * BACK_OFF, (500, 500), PadState::Idle));
}

// ===== Log files =====

#[test]
fn normal_logs_are_left() {
    assert_eq!(normalize_log_file("\u{FEFF}a\nb\n"), None);
    let fixed = normalize_log_file("a\nb\n").unwrap();
    assert_eq!(fixed, "\u{FEFF}a\nb\n");
    assert_eq!(normalize_log_file(&fixed), None);
    assert_eq!(normalize_log_file("").unwrap(), "\u{FEFF}");
}

#[test]
fn long_logs_keep_their_end() {
    let mut log = String::new();
    for i in 0..LOG_MAX_LINES + 5 {
        log.push_str(&format!("line {}\r\n", i));
    }
    let out = normalize_log_file(&log).unwrap();
    let lines: Vec<&str> = out.trim_start_matches('\u{FEFF}').lines().collect();
    assert_eq!(lines.len(), LOG_MAX_LINES);
    assert_eq!(lines[0], "line 5");
    assert_eq!(lines[LOG_MAX_LINES - 1], format!("line {}", LOG_MAX_LINES + 4));
    assert_eq!(normalize_log_file(&out), None);
}

#[test]
fn crashes_are_written_down() {
    assert_eq!(
        crash_text("now", "boom"),
        "\u{FEFF}========== CRASH ==========\nTime: now\nPanic: boom\n\n",
    );
}

// ===== Texts =====

#[test]
fn language_files_are_read() {
    let mut texts = no_texts();
    assert_eq!(load_from_file(&mut texts, "\u{FEFF}quit: Leave\nunset: '-'\n"), Ok(2));
    assert_eq!(t(&texts, "quit"), "Leave");
    assert_eq!(t(&texts, "unset"), "-");
    assert_eq!(t(&texts, "open_folder"), "open_folder");
    // the first table stays
    assert_eq!(load_from_file(&mut texts, "quit: Other\n"), Ok(1));
    assert_eq!(t(&texts, "quit"), "Leave");
}

#[test]
fn language_files_may_hold_long_gaps() {
    let mut texts = no_texts();
    let gap = " ".repeat(40);
    let text = format!("a: x{gap}y\n\n\n\n\nb: 'elevenchars{gap}y'\nc: one\n\n\n\n  two\nd: |\n  p\n\n\n\n\n  q\n");
    assert_eq!(load_from_file(&mut texts, &text), Ok(4));
    assert_eq!(t(&texts, "a"), format!("x{gap}y"));
    assert_eq!(t(&texts, "b"), format!("elevenchars{gap}y"));
    assert_eq!(t(&texts, "c"), "one\n\n\ntwo");
    assert_eq!(t(&texts, "d"), "p\n\n\n\n\nq\n");
}

#[test]
fn broken_language_files_change_nothing() {
    let mut texts = no_texts();
    assert!(load_from_file(&mut texts, "- a\n- b\n").is_err());
    assert!(texts.table.is_none());
    let e = take_table(&mut texts, Err("bad".to_string()));
    assert_eq!(e, Err("bad".to_string()));
    assert_eq!(take_table(&mut texts, Ok(vec![("a".to_string(), "b".to_string())])), Ok(1));
    assert_eq!(t(&texts, "a"), "b");
}

#[test]
fn languages_are_chosen() {
    let mut texts = no_texts();
    assert_eq!(lang(&texts), Lang::Zh);
    set_lang(&mut texts, "en");
    assert_eq!(lang_file_name(lang(&texts)), "en.yml");
    set_lang(&mut texts, "EN");
    assert_eq!(lang_file_name(lang(&texts)), "zh.yml");
}

// ===== Tray =====

fn label_of(e: &MenuEntry) -> String {
    match e {
        MenuEntry::Separator => "--".to_string(),
        MenuEntry::Item(i) => format!(
            "{}{}{}",
            if i.checked { "*" } else { "" },
            if i.grayed { "!" } else { "" },
            i.label
        ),
        MenuEntry::Submenu(l, grayed, items) => {
            let inner: Vec<String> = items
                .iter()
                .map(|i| format!("{}{}={}", if i.checked { "*" } else { "" }, i.label, i.id))
                .collect();
            format!("{}{}[{}]", if *grayed { "!" } else { "" }, l, inner.join("|"))
        }
    }
}

#[test]
fn the_menu_without_configs_is_short() {
    let mut shared = TrayShared::new();
    let menu = build_menu(&mut shared, &no_texts(), &Vec::new(), 60);
    let labels: Vec<String> = menu.iter().map(label_of).collect();
    assert_eq!(
        labels,
        vec![
            "refresh_rate: 60 FPS[30 FPS=1001|*60 FPS=1002|120 FPS=1003|240 FPS=1004]",
            "--",
            "new_config",
            "--",
            "reload_configs",
            "!unload_config",
            "--",
            "quit",
        ]
    );
}

#[test]
fn the_menu_lists_the_configs() {
    let mut shared = TrayShared::new();
    set_manual_enabled_configs(&mut shared, strings(&["b.yml"]));
    set_active_configs(&mut shared, strings(&["a.yml"]));
    set_auto_enable(&mut shared, false, Vec::new(), strings(&["a.yml", "b.yml"]));
    let files = strings(&["a.yml", "b.yml"]);
    let menu = build_menu(&mut shared, &no_texts(), &files, 75);
    let labels: Vec<String> = menu.iter().map(label_of).collect();
    assert_eq!(
        labels[3..],
        [
            "edit_existing[*a.yml=3000|b.yml=3001]",
            "open_folder",
            "--",
            "a.yml",
            "*b.yml",
            "--",
            "auto_switch",
            "!\u{251c} pad: a.yml, b.yml[*a.yml=5000|*b.yml=5001]",
            "!\u{2514} keyboard: unset[a.yml=4000|b.yml=4001]",
            "--",
            "reload_configs",
            "unload_config",
            "--",
            "quit",
        ]
    );
    assert_eq!(shared.config_files, files);
}

#[test]
fn large_groups_are_shortened() {
    let mut shared = TrayShared::new();
    let many = strings(&["a", "b", "c", "d"]);
    set_auto_enable(&mut shared, true, many, Vec::new());
    let mut texts = no_texts();
    load_from_file(&mut texts, "n_more_groups: '{} and more'\n").unwrap();
    let menu = build_menu(&mut shared, &texts, &strings(&["a"]), 30);
    let labels: Vec<String> = menu.iter().map(label_of).collect();
    assert!(labels.contains(&"\u{2514} keyboard: a, b, c and more[*a=4000]".to_string()), "{:?}", labels);
    assert!(labels.contains(&"*auto_switch".to_string()));
}

#[test]
fn what_was_unloaded_can_be_loaded() {
    let mut shared = TrayShared::new();
    set_last_unloaded(&mut shared, Some(UnloadSource::Config("a.yml".to_string())));
    let menu = build_menu(&mut shared, &no_texts(), &Vec::new(), 60);
    assert_eq!(label_of(&menu[5]), "load_config a.yml");
    set_last_unloaded(&mut shared, Some(UnloadSource::Auto));
    let menu = build_menu(&mut shared, &no_texts(), &Vec::new(), 60);
    assert_eq!(label_of(&menu[5]), "load_config auto_switch");
    assert_eq!(last_unloaded_shared(&shared), Some(UnloadSource::Auto));
}

#[test]
fn items_give_their_commands() {
    let files = strings(&["a.yml", "b.yml"]);
    let b = || "b.yml".to_string();
    assert_eq!(menu_command(&files, MENU_FPS_120), Some(TrayCommand::SetFps(120)));
    assert_eq!(menu_command(&files, MENU_CONFIG_BASE + 1), Some(TrayCommand::ToggleConfig(b())));
    assert_eq!(menu_command(&files, MENU_EDIT_CONFIG_BASE + 1), Some(TrayCommand::EditConfig(b())));
    assert_eq!(
        menu_command(&files, MENU_KBD_BASE + 1),
        Some(TrayCommand::ToggleInputConfig(InputSide::Keyboard, b())),
    );
    assert_eq!(
        menu_command(&files, MENU_PAD_BASE + 1),
        Some(TrayCommand::ToggleInputConfig(InputSide::Controller, b())),
    );
    assert_eq!(menu_command(&files, MENU_UNLOAD_CONFIG), Some(TrayCommand::UnloadConfigs));
    assert_eq!(menu_command(&files, MENU_CONFIG_BASE + 2), None);
    assert_eq!(menu_command(&files, 7), None);
}

#[test]
fn commands_are_taken_once() {
    let mut shared = TrayShared::new();
    assert!(!choose_item(&mut shared, MENU_FPS_120 + 0x10000));
    assert_eq!(poll_command(&mut shared), Some(TrayCommand::SetFps(120)));
    assert_eq!(poll_command(&mut shared), None);
    assert!(choose_item(&mut shared, MENU_QUIT));
    assert_eq!(poll_command(&mut shared), Some(TrayCommand::Quit));
    push_command(&mut shared, TrayCommand::ReloadConfigs);
    assert!(!choose_item(&mut shared, 7));
    assert_eq!(poll_command(&mut shared), Some(TrayCommand::ReloadConfigs));
}

#[test]
fn the_menu_opens_towards_the_screen() {
    let wa = (0, 0, 1920, 1040);
    assert_eq!(
        compute_popup_pos((1900, 1070), wa, 1080),
        Popup { x: 1900, y: 1039, right_aligned: true, bottom_aligned: true },
    );
    assert_eq!(
        compute_popup_pos((10, 5), (0, 40, 1920, 1080), 1080),
        Popup { x: 10, y: 40, right_aligned: false, bottom_aligned: false },
    );
    assert_eq!(
        compute_popup_pos((10, 5), (0, 0, 1920, 1080), 1080),
        Popup { x: 10, y: 5, right_aligned: false, bottom_aligned: false },
    );
}

// ===== Session =====

fn session() -> Session {
    Session::new(GlobalSettings {
        enabled_configs: strings(&["a.yml"]),
        keyboard_configs: strings(&["k.yml"]),
        controller_configs: strings(&["p.yml"]),
        ..GlobalSettings::default()
    })
}

#[test]
fn one_config_has_the_slot() {
    let mut s = session();
    let e = s.handle(InputMode::Keyboard, &TrayCommand::ToggleConfig("b.yml".to_string()));
    assert!(matches!(e, Effect::ApplyMode));
    assert_eq!(s.global.enabled_configs, strings(&["b.yml"]));
    assert_eq!(s.tray.enabled_configs, strings(&["b.yml"]));
    let e = s.handle(InputMode::Keyboard, &TrayCommand::ToggleAutoSwitch);
    assert!(matches!(e, Effect::ApplyMode));
    assert!(s.global.input_auto_switch && s.global.enabled_configs.is_empty());
    assert_eq!(active_target(&s, InputMode::Keyboard), strings(&["k.yml"]));
    assert_eq!(active_target(&s, InputMode::Controller), strings(&["p.yml"]));
    s.select_single_config("c.yml");
    assert!(!s.global.input_auto_switch);
    assert_eq!(active_target(&s, InputMode::Controller), strings(&["c.yml"]));
}

#[test]
fn loading_undoes_unloading() {
    let mut s = session();
    s.handle(InputMode::Keyboard, &TrayCommand::UnloadConfigs);
    assert!(s.global.enabled_configs.is_empty());
    assert_eq!(s.tray.last_unloaded, Some(UnloadSource::Config("a.yml".to_string())));
    s.handle(InputMode::Keyboard, &TrayCommand::UnloadConfigs);
    assert_eq!(s.global.enabled_configs, strings(&["a.yml"]));
    assert_eq!(s.tray.last_unloaded, None);
    s.handle(InputMode::Keyboard, &TrayCommand::ToggleAutoSwitch);
    s.handle(InputMode::Keyboard, &TrayCommand::UnloadConfigs);
    assert_eq!(s.tray.last_unloaded, Some(UnloadSource::Auto));
    s.handle(InputMode::Keyboard, &TrayCommand::UnloadConfigs);
    assert!(s.global.input_auto_switch);
}

#[test]
fn nothing_to_load_is_nothing() {
    let mut s = Session::new(GlobalSettings::default());
    let e = s.handle(InputMode::Keyboard, &TrayCommand::UnloadConfigs);
    assert!(matches!(e, Effect::Nothing));
}

#[test]
fn commands_have_their_effects() {
    let mut s = session();
    let m = InputMode::Keyboard;
    assert!(matches!(s.handle(m, &TrayCommand::SetFps(60)), Effect::Nothing));
    assert!(matches!(s.handle(m, &TrayCommand::SetFps(120)), Effect::FpsChanged(120)));
    assert_eq!(s.tray.current_fps, 120);
    assert!(matches!(s.handle(m, &TrayCommand::EnterEditMode), Effect::NewConfig));
    match s.handle(m, &TrayCommand::EditConfig("a.yml".to_string())) {
        Effect::EditConfig(f, stem) => assert_eq!((f.as_str(), stem.as_str()), ("a.yml", "a")),
        other => panic!("{:?}", other),
    }
    match s.handle(m, &TrayCommand::ToggleConfig("a.yml".to_string())) {
        Effect::CloseConfig(f) => assert_eq!(f, "a.yml"),
        other => panic!("{:?}", other),
    }
    assert!(matches!(s.handle(m, &TrayCommand::OpenProgramDir), Effect::OpenFolder));
    assert!(matches!(s.handle(m, &TrayCommand::ReloadConfigs), Effect::ReloadAll));
    assert!(matches!(s.handle(m, &TrayCommand::Quit), Effect::Quit));
}

#[test]
fn groups_are_kept_by_the_switch() {
    let mut s = session();
    let m = InputMode::Keyboard;
    let add = TrayCommand::ToggleInputConfig(InputSide::Keyboard, "x.yml".to_string());
    assert!(matches!(s.handle(m, &add), Effect::Nothing));
    assert_eq!(s.global.keyboard_configs, strings(&["k.yml", "x.yml"]));
    assert!(s.if_auto_group_has(InputMode::Keyboard, "x.yml"));
    assert!(!s.if_auto_group_has(InputMode::Controller, "x.yml"));
    s.handle(m, &TrayCommand::ToggleAutoSwitch);
    assert_eq!(s.global.keyboard_configs, strings(&["k.yml", "x.yml"]));
    assert!(matches!(s.handle(m, &add), Effect::ApplyMode));
    assert_eq!(s.tray.kbd_configs, strings(&["k.yml"]));
}

#[test]
fn editor_prefs_are_brought_into_their_ranges() {
    let mut s = session();
    s.apply_editor_prefs((500, -3, 0));
    assert_eq!((s.global.snap_distance, s.global.snap_gap, s.global.nudge_step), (100, 0, 1));
    s.apply_editor_prefs((12, 4, 2));
    assert_eq!((s.global.snap_distance, s.global.snap_gap, s.global.nudge_step), (12, 4, 2));
}

#[test]
fn windows_settle_on_the_target() {
    let active = strings(&["a", "b", "c"]);
    let target = strings(&["c", "x", "a", "y"]);
    assert_eq!(kept_positions(&active, &target), vec![0, 2]);
    let ok = vec![true, true, true, false];
    let settled = apply_input_mode(&active, &target, &ok);
    assert_eq!(settled, strings(&["a", "c", "x"]));
    assert_eq!(apply_input_mode(&settled, &target, &ok), settled);
    assert_eq!(position_of(&settled, "x"), Some(2));
    assert_eq!(position_of(&settled, "y"), None);
}

#[test]
fn enabled_configs_start_in_the_order_of_the_files() {
    let g = GlobalSettings {
        enabled_configs: strings(&["b.yml", "gone.yml", "a.yml"]),
        ..GlobalSettings::default()
    };
    let files = strings(&["a.yml", "b.yml", "c.yml"]);
    assert_eq!(startup_configs(&g, &files), strings(&["a.yml", "b.yml"]));
}

#[test]
fn frames_are_paced() {
    assert_eq!(pace(17 * MS, 16 * MS, 60), Pace::Run);
    assert_eq!(pace(6 * MS, 16 * MS, 60), Pace::Sleep(10 * MS));
    assert_eq!(pace(2 * MS, 8 * MS, 120), Pace::SleepThenSpin(5_500_000));
    assert_eq!(pace(7_600_000, 8 * MS, 120), Pace::Spin);
    assert_eq!((clamp_fps(0), clamp_fps(75), clamp_fps(999)), (1, 75, 240));
}

#[test]
fn errors_are_counted() {
    assert_eq!(count_capture(0, Captured::Failure), (1, false));
    assert_eq!(count_capture(28, Captured::Failure), (29, false));
    assert_eq!(count_capture(29, Captured::Failure), (30, true));
    // a frame that does not come neither counts nor ends the row
    assert_eq!(count_capture(29, Captured::Nothing), (29, false));
    assert_eq!(count_capture(29, Captured::Frame), (0, false));
}

// ===== Icon =====

#[test]
fn icons_hold_their_images() {
    let entry = encode_dib_entry(2, &vec![1, 2, 3, 4, 5, 6, 7, 8, 9, 10, 11, 12, 13, 14, 15, 16]);
    // header, pixels, and a mask of two padded rows
    assert_eq!(entry.len(), 40 + 16 + 8);
    assert_eq!(&entry[0..4], &40u32.to_le_bytes());
    assert_eq!(&entry[4..8], &2u32.to_le_bytes());
    assert_eq!(&entry[8..12], &4u32.to_le_bytes());
    // the rows are stored from the last to the first
    assert_eq!(entry[40 + 3], 12);
    let file = pack_ico(&vec![2, 256], &vec![entry.clone(), vec![7, 7, 7]]);
    assert_eq!(&file[0..6], &[0, 0, 1, 0, 2, 0]);
    assert_eq!((file[6], file[7]), (2, 2));
    assert_eq!((file[22], file[23]), (0, 0));
    let offset = u32::from_le_bytes([file[18], file[19], file[20], file[21]]) as usize;
    assert_eq!(offset, 6 + 32);
    assert_eq!(&file[offset..offset + entry.len()], &entry[..]);
    assert_eq!(&file[offset + entry.len()..], &[7, 7, 7]);
}

#[test]
fn versions_have_four_numbers() {
    assert_eq!(version_numbers("0.0.9"), (0, 0, 9, 0));
    assert_eq!(version_numbers("1.2.3.4"), (1, 2, 3, 4));
    assert_eq!(version_numbers("1.x.3"), (1, 0, 3, 0));
}

#[test]
fn every_tenth_loss_is_told() {
    assert!(!tells_losses(1) && !tells_losses(9) && !tells_losses(11));
    assert!(tells_losses(10) && tells_losses(20));
}

#[test]
fn commands_can_be_cloned() {
    let c = TrayCommand::EditConfig("a.yml".to_string());
    assert_eq!(c.clone(), c);
}
