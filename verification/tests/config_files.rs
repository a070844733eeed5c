//! Config files: what is read from them and what is written to them.

use aportal::compact_yaml::collapse_inline_rects;
use aportal::config::{
    de_string_or_number, default_border_color, default_border_width, default_corner_radius,
    default_fill_color, default_font_size, default_text_color, default_ui_h, default_ui_w, is_zero,
    kept_items, rotated_bbox, unnest_geometry, BackgroundElement, CaptureRegion, Config,
    CustomUiElement, DisplayRect, FrameElement, ImageElement, Measures, Rect, Scalar, Settings,
    TextElement, WindowConfig,
};
use aportal::opacity::Opacity;
use serde_yml::{Mapping, Number, Value};

// ===== Between values of a file and configs =====

fn value(o: Opacity) -> f32 {
    f32::from_bits(o.bits)
}

/// The entry under the first of the names that is there.
fn entry<'a>(v: &'a Value, names: &[&str]) -> Option<&'a Value> {
    names.iter().find_map(|n| v.get(*n))
}

fn signed(v: &Value, names: &[&str], missing: i32) -> i32 {
    entry(v, names).map(|e| e.as_i64().unwrap() as i32).unwrap_or(missing)
}

fn unsigned(v: &Value, names: &[&str], missing: u32) -> u32 {
    entry(v, names).map(|e| e.as_u64().unwrap() as u32).unwrap_or(missing)
}

fn text(v: &Value, name: &str, missing: String) -> String {
    entry(v, &[name]).map(|e| e.as_str().unwrap().to_string()).unwrap_or(missing)
}

fn opacity(v: &Value, name: &str) -> Option<Opacity> {
    entry(v, &[name]).map(|e| Opacity { bits: (e.as_f64().unwrap() as f32).to_bits() })
}

fn scalar(v: &Value) -> Scalar {
    match v {
        Value::String(s) => Scalar::Text(s.clone()),
        Value::Number(n) => Scalar::Number(n.to_string()),
        Value::Bool(b) => Scalar::Flag(*b),
        _ => Scalar::Null,
    }
}

fn region(v: &Value) -> CaptureRegion {
    let s = v.get("source").unwrap();
    let d = v.get("display").unwrap();
    CaptureRegion {
        id: text(v, "id", String::new()),
        source: Rect {
            x: unsigned(s, &["x"], 0),
            y: unsigned(s, &["y"], 0),
            width: unsigned(s, &["w", "width"], 0),
            height: unsigned(s, &["h", "height"], 0),
        },
        display: DisplayRect {
            x: signed(d, &["x"], 0),
            y: signed(d, &["y"], 0),
            width: signed(d, &["w", "width"], 0),
            height: signed(d, &["h", "height"], 0),
            z_order: signed(d, &["z", "z_order"], 0),
            opacity: opacity(d, "opacity"),
            rotate: signed(d, &["rotate"], 0),
        },
        z_order: entry(v, &["z", "z_order"]).map(|e| e.as_i64().unwrap() as i32),
    }
}

fn element(v: &Value) -> Option<CustomUiElement> {
    let (x, y) = (signed(v, &["x"], 0), signed(v, &["y"], 0));
    let width = signed(v, &["w", "width"], default_ui_w());
    let height = signed(v, &["h", "height"], default_ui_h());
    let z_order = signed(v, &["z", "z_order"], 0);
    let rotate = signed(v, &["rotate"], 0);
    let opacity = opacity(v, "opacity");
    let corner_radius = unsigned(v, &["corner_radius"], default_corner_radius());
    match v.get("type")?.as_str()? {
        "frame" => Some(CustomUiElement::Frame(FrameElement {
            x, y, width, height, opacity, z_order, corner_radius, rotate,
            border_color: text(v, "border_color", default_border_color()),
            border_width: unsigned(v, &["border_width"], default_border_width()),
        })),
        "background" => Some(CustomUiElement::Background(BackgroundElement {
            x, y, width, height, opacity, z_order, corner_radius, rotate,
            color: text(v, "color", default_fill_color()),
        })),
        "image" => Some(CustomUiElement::Image(ImageElement {
            path: text(v, "path", String::new()),
            x, y, width, height, opacity, z_order, rotate,
        })),
        "text" => Some(CustomUiElement::Text(TextElement {
            content: v.get("content").map(|c| de_string_or_number(scalar(c))).unwrap_or_default(),
            font_size: unsigned(v, &["font_size"], default_font_size()),
            text_color: text(v, "text_color", default_text_color()),
            x, y, opacity, z_order, rotate,
        })),
        _ => None,
    }
}

fn items(v: &Value, name: &str) -> Vec<Value> {
    v.get(name).and_then(|s| s.as_sequence()).cloned().unwrap_or_default()
}

fn config_of(v: &Value) -> Option<Config> {
    let settings = v.get("settings").cloned().unwrap_or(Value::Null);
    Some(Config {
        settings: Settings {
            global_opacity: opacity(&settings, "global_opacity"),
            window: settings.get("window").map(|w| WindowConfig {
                x: signed(w, &["x"], 0),
                y: signed(w, &["y"], 0),
                width: signed(w, &["w", "width"], 0),
                height: signed(w, &["h", "height"], 0),
            }),
        },
        capture_regions: items(v, "capture_regions").iter().map(region).collect(),
        custom_ui: items(v, "custom_ui").iter().map(element).collect::<Option<Vec<_>>>()?,
    })
}

fn read_config(yaml: &str) -> Option<Config> {
    config_of(&serde_yml::from_str(yaml).ok()?)
}

/// Numbers the entries of a mapping from `first` on.
fn numbered(m: &Mapping, first: usize) -> Vec<(String, usize)> {
    m.iter().enumerate().map(|(i, (k, _))| (k.as_str().unwrap().to_string(), first + i)).collect()
}

fn unnested(item: &Value) -> Value {
    let flat = item.as_mapping().unwrap();
    let empty = Mapping::new();
    let nested = item.get("geometry").and_then(|g| g.as_mapping()).unwrap_or(&empty);
    let all: Vec<&Value> = flat.values().chain(nested.values()).collect();
    let mut out = Mapping::new();
    for (k, i) in unnest_geometry(&numbered(flat, 0), &numbered(nested, flat.len())) {
        out.insert(Value::String(k), all[i].clone());
    }
    Value::Mapping(out)
}

/// Reads a file as the program does: elements of unknown types are skipped, and
/// the entries under `geometry` count as entries of the element.
fn read_filtered(yaml: &str) -> Option<Config> {
    let mut v: Value = serde_yml::from_str(yaml).ok()?;
    if let Some(seq) = v.get_mut("custom_ui").and_then(|s| s.as_sequence_mut()) {
        let types: Vec<Option<String>> = seq
            .iter()
            .map(|i| i.get("type").and_then(|t| t.as_str()).map(str::to_string))
            .collect();
        *seq = kept_items(&types).iter().map(|&i| seq[i].clone()).collect();
        for item in seq.iter_mut() {
            *item = unnested(item);
        }
    }
    config_of(&v)
}

// The functions below write a config as config files look. They are not the
// program's serializer, which the library does not hold: where a test says that an
// entry is not written, it shows that of these functions and of the folding only.

fn put(m: &mut Mapping, k: &str, v: Value) {
    m.insert(Value::String(k.to_string()), v);
}

fn put_int(m: &mut Mapping, k: &str, v: i64) {
    put(m, k, Value::Number(Number::from(v)));
}

fn put_nonzero(m: &mut Mapping, k: &str, v: i32) {
    if !is_zero(&v) {
        put_int(m, k, v as i64);
    }
}

fn put_text(m: &mut Mapping, k: &str, v: &str) {
    put(m, k, Value::String(v.to_string()));
}

fn put_opacity(m: &mut Mapping, k: &str, v: Option<Opacity>) {
    if let Some(o) = v {
        let shortest: f64 = value(o).to_string().parse().unwrap();
        put(m, k, Value::Number(Number::from(shortest)));
    }
}

fn element_value(ui: &CustomUiElement) -> Value {
    let mut m = Mapping::new();
    let (x, y, w, h) = ui.geometry();
    let place = |m: &mut Mapping| {
        put_int(m, "x", x as i64);
        put_int(m, "y", y as i64);
    };
    match ui {
        CustomUiElement::Frame(e) => {
            put_text(&mut m, "type", "frame");
            place(&mut m);
            put_int(&mut m, "w", w as i64);
            put_int(&mut m, "h", h as i64);
            put_opacity(&mut m, "opacity", e.opacity);
            put_int(&mut m, "z", e.z_order as i64);
            put_text(&mut m, "border_color", &e.border_color);
            put_int(&mut m, "border_width", e.border_width as i64);
            put_int(&mut m, "corner_radius", e.corner_radius as i64);
        }
        CustomUiElement::Background(e) => {
            put_text(&mut m, "type", "background");
            place(&mut m);
            put_int(&mut m, "w", w as i64);
            put_int(&mut m, "h", h as i64);
            put_opacity(&mut m, "opacity", e.opacity);
            put_int(&mut m, "z", e.z_order as i64);
            put_text(&mut m, "color", &e.color);
            put_int(&mut m, "corner_radius", e.corner_radius as i64);
        }
        CustomUiElement::Image(e) => {
            put_text(&mut m, "type", "image");
            put_text(&mut m, "path", &e.path);
            place(&mut m);
            put_nonzero(&mut m, "w", w);
            put_nonzero(&mut m, "h", h);
            put_opacity(&mut m, "opacity", e.opacity);
            put_int(&mut m, "z", e.z_order as i64);
        }
        CustomUiElement::Text(e) => {
            put_text(&mut m, "type", "text");
            put_text(&mut m, "content", &e.content);
            put_int(&mut m, "font_size", e.font_size as i64);
            put_text(&mut m, "text_color", &e.text_color);
            place(&mut m);
            put_opacity(&mut m, "opacity", e.opacity);
            put_int(&mut m, "z", e.z_order as i64);
        }
    }
    put_nonzero(&mut m, "rotate", ui.rotate());
    Value::Mapping(m)
}

fn region_value(r: &CaptureRegion) -> Value {
    let mut source = Mapping::new();
    put_int(&mut source, "x", r.source.x as i64);
    put_int(&mut source, "y", r.source.y as i64);
    put_int(&mut source, "w", r.source.width as i64);
    put_int(&mut source, "h", r.source.height as i64);
    let mut display = Mapping::new();
    put_int(&mut display, "x", r.display.x as i64);
    put_int(&mut display, "y", r.display.y as i64);
    put_nonzero(&mut display, "w", r.display.width);
    put_nonzero(&mut display, "h", r.display.height);
    put_int(&mut display, "z", r.display.z_order as i64);
    put_opacity(&mut display, "opacity", r.display.opacity);
    put_nonzero(&mut display, "rotate", r.display.rotate);
    let mut m = Mapping::new();
    put_text(&mut m, "id", &r.id);
    put(&mut m, "source", Value::Mapping(source));
    put(&mut m, "display", Value::Mapping(display));
    if let Some(z) = r.z_order {
        put_int(&mut m, "z", z as i64);
    }
    Value::Mapping(m)
}

fn config_value(cfg: &Config) -> Value {
    let mut settings = Mapping::new();
    put_opacity(&mut settings, "global_opacity", cfg.settings.global_opacity);
    if let Some(w) = &cfg.settings.window {
        let mut window = Mapping::new();
        put_int(&mut window, "x", w.x as i64);
        put_int(&mut window, "y", w.y as i64);
        put_nonzero(&mut window, "w", w.width);
        put_nonzero(&mut window, "h", w.height);
        put(&mut settings, "window", Value::Mapping(window));
    }
    let mut m = Mapping::new();
    put(&mut m, "settings", Value::Mapping(settings));
    put(&mut m, "capture_regions", Value::Sequence(cfg.capture_regions.iter().map(region_value).collect()));
    put(&mut m, "custom_ui", Value::Sequence(cfg.custom_ui.iter().map(element_value).collect()));
    Value::Mapping(m)
}

fn to_compact_yaml(cfg: &Config) -> Option<String> {
    Some(collapse_inline_rects(&serde_yml::to_string(&config_value(cfg)).ok()?))
}

// ===== Reading and writing =====

#[test]
fn text_content_accepts_bare_number() {
    let yaml = r#"
custom_ui:
  - type: text
    x: 10
    y: 20
    width: 120
    height: 40
    content: 13
"#;
    let cfg: Config = read_config(yaml).expect("bare number content should parse");
    let elems = cfg.custom_ui;
    let elem = elems.first().expect("should have one element");
    match elem {
        CustomUiElement::Text(t) => assert_eq!(t.content, "13"),
        other => panic!("expected a text element, got {:?}", other),
    }
}

#[test]
fn text_content_accepts_string() {
    let yaml = r#"
custom_ui:
  - type: text
    x: 10
    y: 20
    width: 120
    height: 40
    content: hello
"#;
    let mut cfg: Config = read_config(yaml).expect("string content should parse");
    let elem = cfg.custom_ui.remove(0);
    match elem {
        CustomUiElement::Text(t) => assert_eq!(t.content, "hello"),
        other => panic!("expected a text element, got {:?}", other),
    }
}

#[test]
fn opacity_inheritance_rules() {
    // 1) No opacity anywhere in the file → elements default to 1.0
    let cfg: Config = read_config("custom_ui:\n  - type: image\n    path: a.png\n").unwrap();
    assert_eq!(value(cfg.effective_global_opacity()), 1.0);
    match &cfg.custom_ui[0] {
        CustomUiElement::Image(i) => assert_eq!(value(cfg.effective_opacity(i.opacity)), 1.0),
        _ => panic!(),
    }

    // 2) global_opacity set, element unset → use the global value
    let cfg: Config = read_config(
        "settings:\n  global_opacity: 0.7\ncustom_ui:\n  - type: image\n    path: a.png\n",
    )
    .unwrap();
    assert_eq!(value(cfg.effective_global_opacity()), 0.7);
    match &cfg.custom_ui[0] {
        CustomUiElement::Image(i) => assert_eq!(value(cfg.effective_opacity(i.opacity)), 0.7),
        _ => panic!(),
    }

    // 3) Element has its own opacity → overrides the global value
    let cfg: Config = read_config(
        "settings:\n  global_opacity: 0.7\ncustom_ui:\n  - type: image\n    path: a.png\n    opacity: 0.3\n",
    )
    .unwrap();
    match &cfg.custom_ui[0] {
        CustomUiElement::Image(i) => assert_eq!(value(cfg.effective_opacity(i.opacity)), 0.3),
        _ => panic!(),
    }

    // 4) Same rule for capture regions
    let cfg: Config = read_config(
        "settings:\n  global_opacity: 0.6\ncapture_regions:\n  - id: a\n    source: {x: 0, y: 0, width: 10, height: 10}\n    display: {x: 0, y: 0, width: 10, height: 10}\n",
    )
    .unwrap();
    assert_eq!(value(cfg.effective_opacity(cfg.capture_regions[0].display.opacity)), 0.6);

    // 5) image without width/height isn't serialized (native 1:1 image)
    let yaml = serde_yml::to_string(&config_value(&Config {
        settings: Settings::default(),
        capture_regions: Vec::new(),
        custom_ui: vec![CustomUiElement::Image(ImageElement {
            path: "a.png".to_string(),
            x: 1,
            y: 2,
            width: 0,
            height: 0,
            opacity: None,
            z_order: 0,
            rotate: 0,
        })],
    }))
    .unwrap();
    // Look only at the image element section (width/height under settings.window are window sizes, unrelated to elements)
    let img_section = yaml
        .split("custom_ui:")
        .nth(1)
        .unwrap_or_default()
        .to_string();
    assert!(!img_section.contains("width"), "image with default size must not write width: {}", yaml);
    assert!(!img_section.contains("height"), "image with default size must not write height: {}", yaml);
    assert!(!img_section.contains("opacity"), "no explicit opacity must not write the entry: {}", yaml);
}

#[test]
fn compact_yaml_reads_short_names_and_flow_rect() {
    // New format: single-line flow rects + short w/h/z fields
    let yaml = r#"
settings:
  global_opacity: 0.65
  window: {x: 20, 'y': 20, w: 1972, h: 1187}
capture_regions:
- id: region_1
  source: {x: 1492, 'y': 461, w: 230, h: 176}
  display: {x: 1360, 'y': 475, w: 230, h: 176, opacity: 0.95}
  z: 3
custom_ui:
- type: text
  content: 13
  x: 1022
  'y': 1012
  w: 40
  h: 20
  font_size: 25
  z: 10
"#;
    let cfg: Config = read_config(yaml).expect("new format should parse");
    let reg = &cfg.capture_regions[0];
    assert_eq!(reg.source.width, 230);
    assert_eq!(reg.display.x, 1360);
    assert_eq!(reg.display.width, 230);
    assert_eq!(reg.z_order, Some(3), "legacy top-level z should still be read at parse time");
    match &cfg.custom_ui[0] {
        CustomUiElement::Text(t) => {
            assert_eq!(t.content, "13");
            assert_eq!(t.x, 1022);
            assert_eq!(t.y, 1012);
            assert_eq!(t.z_order, 10);
        }
        other => panic!("expected a text element, got {:?}", other),
    }
}

#[test]
fn compact_yaml_writer_uses_short_names_and_inline_rect() {
    let cfg: Config = read_config(
        "settings:\n  global_opacity: 0.65\n  window: {x: 20, y: 20, w: 1972, h: 1187}\ncapture_regions:\n- id: a\n  source: {x: 0, y: 0, w: 10, h: 10}\n  display: {x: 1360, y: 475, w: 230, h: 176}\n  z: 3\n",
    )
    .unwrap();
    let yaml = to_compact_yaml(&cfg).expect("compact serialization");
    // window anchor x/y must be kept (window position is auto-derived from the content bounding box; sizes are ignored)
    assert!(yaml.contains("window: {x: 20, 'y': 20"), "should output the window anchor: {}", yaml);
    // Geometry rects collapse to single-line flow (z always written: 0 → explicit level control)
    assert!(yaml.contains("source: {x: 0, 'y': 0, w: 10, h: 10}"), "{}", yaml);
    assert!(yaml.contains("display: {x: 1360, 'y': 475, w: 230, h: 176, z: 0}"), "{}", yaml);
    // Uncollapsed fields use short names
    assert!(yaml.contains("\n  z: 3"), "z_order should be output as the short name z: {}", yaml);
    // The output must still parse itself (round-trip)
    let cfg2: Config = read_config(&yaml).expect("compact output should parse back");
    assert_eq!(cfg2.capture_regions[0].display.x, cfg.capture_regions[0].display.x);
    assert_eq!(cfg2.capture_regions[0].display.y, cfg.capture_regions[0].display.y);
    assert_eq!(cfg2.capture_regions[0].display.width, cfg.capture_regions[0].display.width);
    assert_eq!(cfg2.capture_regions[0].display.height, cfg.capture_regions[0].display.height);
    assert_eq!(cfg2.capture_regions[0].z_order, cfg.capture_regions[0].z_order);
}

#[test]
fn old_file_with_width_height_z_order_still_loads() {
    // Old format: block-form rects + width/height/z_order entries
    let yaml = r#"
settings:
  global_opacity: 1.0
  window:
    x: 20
    y: 20
    width: 100
    height: 200
capture_regions:
- id: old_1
  source:
    x: 1
    y: 2
    width: 10
    height: 11
  display:
    x: 3
    y: 4
    width: 12
    height: 13
  z_order: 5
"#;
    let cfg: Config = read_config(yaml).expect("old format should parse (alias compatibility)");
    assert_eq!(cfg.capture_regions[0].source.width, 10);
    assert_eq!(cfg.capture_regions[0].display.width, 12);
    assert_eq!(cfg.capture_regions[0].z_order, Some(5), "legacy top-level z_order read into the Option field");
    // Position = window anchor (20,20); size = max content extent (display 3,4,12,13 → 15x17), ignoring width/height
    assert_eq!(cfg.overlay_bounds(&Measures::none()), (20, 20, 15, 17));
}

#[test]
fn display_without_size_is_1x1_and_z_migrates_to_display_on_load() {
    // New format: a region may omit display w/h (1:1, follows the source size) and
    // carries z on display; the legacy top-level z must be merged into display.z by validate()
    let yaml = r#"
settings:
  global_opacity: 1.0
capture_regions:
- id: r1
  source: {x: 0, y: 0, w: 640, h: 360}
  display: {x: 30, y: 40, z: 7}
- id: r2
  source: {x: 0, y: 0, w: 32, h: 32}
  display: {x: 100, y: 100}
  z: 2
"#;
    let mut cfg: Config = read_config(yaml).expect("1:1 + z-on-display format should parse");
    // Before validate: display size stays 0, legacy z still on the Option field
    assert_eq!(cfg.capture_regions[0].display.width, 0);
    assert_eq!(cfg.capture_regions[0].display.z_order, 7);
    assert_eq!(cfg.capture_regions[1].display.z_order, 0);
    assert_eq!(cfg.capture_regions[1].z_order, Some(2));

    cfg.validate();
    // Legacy top-level z merged into display.z, Option cleared (never serialized again)
    assert_eq!(cfg.capture_regions[1].display.z_order, 2);
    assert_eq!(cfg.capture_regions[1].z_order, None);
    // 1:1 regions take their effective display size from the source
    assert_eq!(cfg.region_logical_size(&cfg.capture_regions[0]), (640, 360));
    assert_eq!(cfg.region_logical_size(&cfg.capture_regions[1]), (32, 32));
}

#[test]
fn compact_writer_skips_zero_size_and_write_z_inside_display() {
    let mut cfg: Config = read_config(
        "settings:\n  global_opacity: 0.65\ncapture_regions:\n- id: a\n  source: {x: 0, y: 0, w: 640, h: 360}\n  display: {x: 30, y: 40, z: 7}\n",
    )
    .unwrap();
    cfg.validate();
    let yaml = to_compact_yaml(&cfg).expect("compact serialization");
    // display 1:1 (0 size) → no w/h written; z stays inside the display flow
    assert!(yaml.contains("display: {x: 30, 'y': 40, z: 7}"), "1:1 display should omit w/h and keep z inside: {}", yaml);
    // No stray top-level z on the region (only inside the display flow)
    let region_section = yaml.split("capture_regions:").nth(1).unwrap_or_default().to_string();
    let region_block = region_section.split("custom_ui:").next().unwrap_or_default();
    assert!(!region_block.contains("\n  z: 7"), "z must live on display, not the region top level: {}", yaml);
}

#[test]
fn rotate_folds_into_display_and_element_geometry() {
    // New format: element geometry (x, 'y', z) folds into one line with braces
    let mut cfg: Config = read_config(
        "settings:\n  global_opacity: 1.0\ncapture_regions:\n- id: a\n  source: {x: 0, y: 0, w: 640, h: 360}\n  display: {x: 30, y: 40, w: 230, h: 176, rotate: 90}\ncustom_ui:\n- type: image\n  path: X.png\n  x: 5\n  'y': 6\n  rotate: 45\n",
    )
    .unwrap();
    cfg.validate();
    // Effective display footprint = the rotated bounding box; logical size stays 230x176
    assert_eq!(rotated_bbox(cfg.region_logical_size(&cfg.capture_regions[0]), cfg.capture_regions[0].display.rotate, (0, 0)), (176, 230));
    assert_eq!(cfg.region_logical_size(&cfg.capture_regions[0]), (230, 176));
    let yaml = to_compact_yaml(&cfg).expect("compact serialization");
    // rotate folds into the display flow, after w/h/z keys
    assert!(yaml.contains("display: {x: 30, 'y': 40, w: 230, h: 176, z: 0, rotate: 90}"), "{}", yaml);
    assert!(yaml.contains("  path: X.png\n  geometry: {x: 5, 'y': 6, z: 0, rotate: 45}"), "{}", yaml);
    // Round-trip through the real loader (geometry: {...} unnests back to flat keys)
    let cfg2: Config = read_filtered(&yaml).expect("flow output should parse back");
    assert_eq!(cfg2.capture_regions[0].display.rotate, 90);
    match &cfg2.custom_ui[0] {
        CustomUiElement::Image(i) => assert_eq!(i.rotate, 45),
        other => panic!("expected an image element, got {:?}", other),
    }
}

#[test]
fn text_and_image_geometry_fold_into_flow_with_braces() {
    // New format: text/image geometry (x, 'y', z) folds into one line with braces
    let mut cfg: Config = read_config(
        "settings:\n  global_opacity: 1.0\ncustom_ui:\n- type: text\n  content: '1'\n  font_size: 30\n  text_color: '#FFFFFF'\n  x: 12\n  'y': 34\n  z: 20\n- type: image\n  path: X.png\n  x: 5\n  'y': 6\n  z: 9\n",
    )
    .unwrap();
    cfg.validate();
    let yaml = to_compact_yaml(&cfg).expect("compact serialization");
    // text: content/font_size/color stay on their own lines, geometry folds to one line under geometry:
    assert!(yaml.contains("  content: '1'\n  font_size: 30\n  text_color: '#FFFFFF'\n  geometry: {x: 12, 'y': 34, z: 20}"),
        "{}", yaml);
    // image: path stays, geometry folds to one line
    assert!(yaml.contains("  path: X.png\n  geometry: {x: 5, 'y': 6, z: 9}"), "{}", yaml);
    // Round-trip: the flow output must parse back identically (through the real loader,
    // which unnests geometry: {...} back to flat keys)
    let cfg2: Config = read_filtered(&yaml).expect("flow output should parse back");
    match &cfg2.custom_ui[0] {
        CustomUiElement::Text(t) => {
            assert_eq!(t.x, 12);
            assert_eq!(t.y, 34);
            assert_eq!(t.z_order, 20);
        }
        other => panic!("expected a text element, got {:?}", other),
    }
    match &cfg2.custom_ui[1] {
        CustomUiElement::Image(i) => {
            assert_eq!(i.x, 5);
            assert_eq!(i.y, 6);
            assert_eq!(i.z_order, 9);
        }
        other => panic!("expected an image element, got {:?}", other),
    }
}

#[test]
fn text_has_no_width_height_entries() {
    // Text is fully auto-sized: no w/h keys may appear in the serialized output
    let mut cfg: Config = read_config(
        "custom_ui:\n- type: text\n  content: hello\n  font_size: 30\n  x: 12\n  'y': 34\n",
    )
    .unwrap();
    cfg.validate();
    let yaml = to_compact_yaml(&cfg).expect("compact serialization");
    let elem_section = yaml.split("custom_ui:").nth(1).unwrap_or_default().to_string();
    assert!(!elem_section.contains("width"), "text must not write width: {}", yaml);
    assert!(!elem_section.contains("height"), "text must not write height: {}", yaml);
    assert!(!elem_section.contains("w:"), "text must not write w: {}", yaml);
    assert!(!elem_section.contains("h:"), "text must not write h: {}", yaml);
}

#[test]
fn tight_bounds_single_region_equals_footprint() {
    // One region at (100,100) 10x10 → the window is exactly the footprint
    let cfg: Config = read_config(
        "capture_regions:\n- id: a\n  source: {x: 0, y: 0, w: 10, h: 10}\n  display: {x: 100, y: 100, w: 10, h: 10}\n",
    )
    .unwrap();
    assert_eq!(cfg.tight_bounds(&Measures::none()), (100, 100, 10, 10));
}

#[test]
fn tight_bounds_spans_min_to_max_of_all_content() {
    // Regions at different corners + a UI element: window = min corner + bounding box
    let cfg: Config = read_config(
        "capture_regions:\n\
         - id: a\n  source: {x: 0, y: 0, w: 76, h: 92}\n  display: {x: 1597, y: 804, w: 76, h: 92}\n\
         - id: b\n  source: {x: 0, y: 0, w: 60, h: 60}\n  display: {x: 1863, y: 875, w: 60, h: 60}\n\
         custom_ui:\n\
         - type: image\n  path: X.png\n  x: 1617\n  'y': 878\n  w: 36\n  h: 36\n",
    )
    .unwrap();
    // min corner = (1597, 804); max = (1923, 935) → size = (326, 131)
    assert_eq!(cfg.tight_bounds(&Measures::none()), (1597, 804, 326, 131));
}

#[test]
fn tight_bounds_covers_negative_coordinates() {
    // Content with negative coordinates: the window must include them (no clipping)
    let cfg: Config = read_config(
        "capture_regions:\n- id: a\n  source: {x: 0, y: 0, w: 50, h: 50}\n  display: {x: -100, y: -200, w: 50, h: 50}\n",
    )
    .unwrap();
    assert_eq!(cfg.tight_bounds(&Measures::none()), (-100, -200, 50, 50));
}

#[test]
fn tight_bounds_empty_content_falls_back() {
    let cfg = Config::default();
    assert_eq!(cfg.tight_bounds(&Measures::none()), (0, 0, 200, 150));
}

#[test]
fn shift_xy_moves_all_element_kinds() {
    let mut cfg: Config = read_config(
        "custom_ui:\n\
         - type: frame\n  x: 100\n  'y': 100\n  w: 10\n  h: 10\n\
         - type: image\n  path: X.png\n  x: 200\n  'y': 300\n  w: 20\n  h: 20\n",
    )
    .unwrap();
    for ui in &mut cfg.custom_ui {
        ui.shift_xy(50, 25);
    }
    let geom: Vec<(i32, i32)> = cfg.custom_ui.iter().map(|u| {
        let (x, y, _, _) = u.geometry();
        (x, y)
    }).collect();
    assert_eq!(geom, vec![(50, 75), (150, 275)]);
}
