//! Global settings, and the measures of a config.

use aportal::config::{
    de_string_or_number, kept_items, migrates_legacy, png_intrinsic_size, rotated_bbox, rotated_footprint,
    save_editor_prefs, scan_config_files, strip_bom, supported_type, take_editor_prefs,
    unnest_geometry, BackgroundElement, CaptureRegion, Config, CustomUiElement, DisplayRect,
    GlobalSettings, ImageElement, Measure, Measures, Rect, Scalar, TextElement,
    LEGACY_SETTINGS_FILE, SETTINGS_FILE,
};
use aportal::opacity::Opacity;

fn strings(v: &[&str]) -> Vec<String> {
    v.iter().map(|s| s.to_string()).collect()
}

fn region(x: i32, y: i32, w: i32, h: i32, rotate: i32) -> CaptureRegion {
    CaptureRegion {
        id: "r".to_string(),
        source: Rect { x: 0, y: 0, width: 7, height: 9 },
        display: DisplayRect { x, y, width: w, height: h, z_order: 0, opacity: None, rotate },
        z_order: None,
    }
}

fn image(x: i32, y: i32, w: i32, h: i32) -> CustomUiElement {
    CustomUiElement::Image(ImageElement {
        path: "a.png".to_string(),
        x,
        y,
        width: w,
        height: h,
        opacity: None,
        z_order: 0,
        rotate: 0,
    })
}

#[test]
fn settings_have_defaults() {
    let s = GlobalSettings::load(None);
    assert_eq!(s.fps, 60);
    assert_eq!((s.snap_distance, s.snap_gap, s.nudge_step), (8, 0, 1));
    assert!(!s.input_auto_switch && s.input_track_mouse && !s.log_enabled);
    assert_eq!(s.input_poll_interval_ms, 200);
    assert_eq!(s.lang, "zh");
    assert!(s.enabled_configs.is_empty());
    assert!(GlobalSettings::load_optional(None).is_none());
}

#[test]
fn frame_rates_are_brought_into_their_range() {
    for (given, used) in [(0, 1), (1, 1), (144, 144), (1000, 240)] {
        let s = GlobalSettings { fps: given, ..GlobalSettings::default() };
        assert_eq!(GlobalSettings::load(Some(s.clone())).fps, used);
        assert_eq!(GlobalSettings::load_optional(Some(s)).unwrap().fps, used);
    }
}

#[test]
fn configs_are_switched_on_and_off() {
    let mut s = GlobalSettings::default();
    s.set_enabled("a.yml", true);
    s.set_enabled("b.yml", true);
    s.set_enabled("a.yml", true);
    assert_eq!(s.enabled_configs, strings(&["a.yml", "b.yml"]));
    s.set_enabled("a.yml", false);
    assert!(!s.is_enabled("a.yml"));
    assert!(s.is_enabled("b.yml"));
}

#[test]
fn references_to_missing_files_are_pruned() {
    let mut s = GlobalSettings {
        enabled_configs: strings(&["a.yml", "gone.yml"]),
        keyboard_configs: strings(&["old.yaml", "a.yml"]),
        controller_configs: strings(&["b.yml"]),
        ..GlobalSettings::default()
    };
    let files = strings(&["a.yml", "b.yml", "old.yaml"]);
    assert!(s.prune_missing_refs(&files));
    assert_eq!(s.enabled_configs, strings(&["a.yml"]));
    assert_eq!(s.keyboard_configs, strings(&["a.yml"]));
    assert_eq!(s.controller_configs, strings(&["b.yml"]));
    assert!(!s.prune_missing_refs(&files));
}

#[test]
fn settings_of_older_versions_are_renamed() {
    assert_eq!((SETTINGS_FILE, LEGACY_SETTINGS_FILE), ("settings.yml", "settings.yaml"));
    assert!(migrates_legacy(false, true));
    assert!(!migrates_legacy(true, true));
    assert!(!migrates_legacy(false, false));
}

#[test]
fn staged_prefs_come_out_once() {
    let mut slot = None;
    assert_eq!(take_editor_prefs(&mut slot), None);
    save_editor_prefs(&mut slot, 1, 2, 3);
    save_editor_prefs(&mut slot, 4, 5, 6);
    assert_eq!(take_editor_prefs(&mut slot), Some((4, 5, 6)));
    assert_eq!(take_editor_prefs(&mut slot), None);
}

#[test]
fn config_files_are_found() {
    let files = strings(&["b.yml", "settings.yml", "a.yml", ".yml", "c.yaml", "d.txt", "A.YML"]);
    assert_eq!(scan_config_files(&files), strings(&["a.yml", "b.yml"]));
}

#[test]
fn byte_order_marks_are_taken_off() {
    assert_eq!(strip_bom("\u{FEFF}a"), "a");
    assert_eq!(strip_bom("\u{FEFF}\u{FEFF}a"), "\u{FEFF}a");
    assert_eq!(strip_bom("a"), "a");
    assert_eq!(strip_bom(""), "");
}

#[test]
fn scalars_become_texts() {
    assert_eq!(de_string_or_number(Scalar::Text("a".to_string())), "a");
    assert_eq!(de_string_or_number(Scalar::Number("1.5".to_string())), "1.5");
    assert_eq!(de_string_or_number(Scalar::Flag(true)), "true");
    assert_eq!(de_string_or_number(Scalar::Flag(false)), "false");
    assert_eq!(de_string_or_number(Scalar::Null), "");
}

#[test]
fn types_are_supported_or_skipped() {
    for t in ["frame", "background", "image", "text"] {
        assert!(supported_type(t));
    }
    assert!(!supported_type("Frame"));
    assert!(!supported_type("group"));
}

#[test]
fn items_of_other_types_are_left_out() {
    let types: Vec<Option<String>> = [Some("group"), Some("text"), None, Some("frame"), Some("")]
        .iter()
        .map(|t| t.map(str::to_string))
        .collect();
    assert_eq!(kept_items(&types), vec![1, 3]);
    assert_eq!(kept_items(&Vec::new()), Vec::<usize>::new());
}

#[test]
fn nested_geometry_comes_first() {
    let item = vec![
        ("type".to_string(), 0),
        ("x".to_string(), 1),
        ("geometry".to_string(), 2),
    ];
    let geometry = vec![("x".to_string(), 3), ("y".to_string(), 4)];
    let r = unnest_geometry(&item, &geometry);
    let find = |k: &str| r.iter().rev().find(|e| e.0 == k).map(|e| e.1);
    assert_eq!(find("type"), Some(0));
    assert_eq!(find("x"), Some(3));
    assert_eq!(find("y"), Some(4));
    assert_eq!(find("geometry"), None);
}

#[test]
fn png_sizes_are_read_from_the_header() {
    let mut b = vec![0x89, b'P', b'N', b'G', b'\r', b'\n', 0x1A, b'\n', 0, 0, 0, 13];
    b.extend(b"IHDR");
    b.extend([0, 0, 1, 2, 0, 0, 0, 5]);
    assert_eq!(png_intrinsic_size(&b), Some((258, 5)));
    let mut short = b.clone();
    short.pop();
    assert_eq!(png_intrinsic_size(&short), None);
    let mut other = b.clone();
    other[0] = 0x88;
    assert_eq!(png_intrinsic_size(&other), None);
    let mut chunk = b.clone();
    chunk[12] = b'J';
    assert_eq!(png_intrinsic_size(&chunk), None);
}

#[test]
fn boxes_turn() {
    assert_eq!(rotated_bbox((60, 100), 90, (0, 0)), (100, 60));
    assert_eq!(rotated_bbox((60, 100), 180, (0, 0)), (60, 100));
    assert_eq!(rotated_bbox((60, 100), -90, (0, 0)), (100, 60));
    assert_eq!(rotated_bbox((60, 100), 45, (114, 113)), (114, 113));
    for n in [-2, -1, 0, 1, 2] {
        assert_eq!(rotated_bbox((60, 100), 90 + 360 * n, (0, 0)), (100, 60));
    }
}

#[test]
fn footprints_are_centered() {
    assert_eq!(rotated_footprint(10, 20, 60, 100, 90, (0, 0)), (-10, 40, 100, 60));
    assert_eq!(rotated_footprint(10, 20, 60, 100, 0, (0, 0)), (10, 20, 60, 100));
    let (x, y, w, h) = rotated_footprint(10, 20, 61, 100, 90, (0, 0));
    assert!((2 * x + w - (2 * 10 + 61)).abs() <= 1);
    assert!((2 * y + h - (2 * 20 + 100)).abs() <= 1);
}

#[test]
fn windows_are_tight_around_the_content() {
    let cfg = Config {
        capture_regions: vec![region(100, 50, 60, 100, 90), region(-5, 200, 0, 0, 0)],
        custom_ui: vec![image(300, 10, 0, 0)],
        ..Config::default()
    };
    let m = Measures {
        regions: Vec::new(),
        elements: vec![Measure { natural: (32, 16), tilted: (0, 0) }],
    };
    assert!(cfg.in_range(&m));
    // boxes (80, 70, 100, 60), (-5, 200, 7, 9) and (300, 10, 32, 16)
    assert_eq!(cfg.tight_bounds(&m), (-5, 10, 337, 199));
    assert_eq!(cfg.overlay_bounds(&m), (0, 0, 332, 209));
}

#[test]
fn content_moves_under_the_window() {
    let mut cfg = Config {
        capture_regions: vec![region(100, 50, 60, 100, 0)],
        custom_ui: vec![image(300, 10, 5, 5)],
        ..Config::default()
    };
    let (x, y, w, h) = cfg.tight_bounds(&Measures::none());
    cfg.shift_content(x, y);
    assert_eq!(cfg.tight_bounds(&Measures::none()), (0, 0, w, h));
    assert_eq!((cfg.capture_regions[0].display.x, cfg.capture_regions[0].display.y), (0, 40));
    assert_eq!(cfg.custom_ui[0].geometry(), (200, 0, 5, 5));
}

#[test]
fn configs_out_of_the_coordinate_range_are_told() {
    let far = Config {
        capture_regions: vec![region(i32::MAX, 0, 60, 100, 0)],
        ..Config::default()
    };
    assert!(!far.in_range(&Measures::none()));
    assert!(Config::default().in_range(&Measures::none()));
}

#[test]
fn validated_regions_settle() {
    let mut r = region(0, 0, 0, 0, 0);
    r.source = Rect { x: 3, y: 4, width: 0, height: 0 };
    r.display.opacity = Some(Opacity { bits: 7.0f32.to_bits() });
    r.z_order = Some(4);
    let mut cfg = Config { capture_regions: vec![r], ..Config::default() };
    cfg.settings.global_opacity = Some(Opacity { bits: (-1.0f32).to_bits() });
    cfg.validate();
    let once = format!("{:?}", cfg);
    let v = &cfg.capture_regions[0];
    assert_eq!((v.source.width, v.source.height), (60, 60));
    assert_eq!(f32::from_bits(v.display.opacity.unwrap().bits), 1.0);
    assert_eq!((v.display.z_order, v.z_order), (4, None));
    assert_eq!(f32::from_bits(cfg.settings.global_opacity.unwrap().bits), 0.0);
    cfg.validate();
    assert_eq!(format!("{:?}", cfg), once);
}

#[test]
fn elements_show_their_footprint() {
    let cfg = Config::default();
    assert_eq!(cfg.element_footprint(&image(1, 2, 0, 0), (30, 40)), (1, 2, 30, 40));
    assert_eq!(cfg.element_footprint(&image(1, 2, 5, 6), (30, 40)), (1, 2, 5, 6));
    let text = CustomUiElement::Text(TextElement {
        content: "hello".to_string(),
        font_size: 14,
        text_color: String::new(),
        x: 3,
        y: 4,
        opacity: None,
        z_order: 1,
        rotate: 30,
    });
    assert_eq!(cfg.element_footprint(&text, (44, 20)), (3, 4, 44, 20));
    assert_eq!((text.geometry(), text.rotate()), ((3, 4, 0, 0), 30));
    let plain = CustomUiElement::Background(BackgroundElement {
        x: 1,
        y: 1,
        width: 0,
        height: 5,
        opacity: Some(Opacity::one()),
        z_order: 0,
        color: "#000000".to_string(),
        corner_radius: 0,
        rotate: 0,
    });
    assert_eq!(cfg.element_footprint(&plain, (9, 9)), (1, 1, 0, 5));
    assert!(plain.opacity().is_some());
}
