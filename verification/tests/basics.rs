//! Numbers, texts, colors, opacities, orders and compact YAML.

use aportal::color::{read_color, reads_as_color};
use aportal::compact_yaml::collapse_inline_rects;
use aportal::decimal::{decimal, parse_i32, parse_u32};
use aportal::names::{contains_name, remove_name, sort_names};
use aportal::num::{clamp_i32, divide, half_i32, wrap_degrees};
use aportal::opacity::{clamp_option, same_opacity, Opacity};
use aportal::pixels::{premultiply, read_pixel, write_pixel};
use aportal::text::{cut_last, yaml_name};
use aportal::zorder::sort_by_z;

fn opacity(v: f32) -> Opacity {
    Opacity { bits: v.to_bits() }
}

fn value(o: Opacity) -> f32 {
    f32::from_bits(o.bits)
}

fn strings(v: &[&str]) -> Vec<String> {
    v.iter().map(|s| s.to_string()).collect()
}

#[test]
fn numbers_are_written_in_decimal() {
    assert_eq!(decimal(0), "0");
    assert_eq!(decimal(-7), "-7");
    assert_eq!(decimal(1234567890123), "1234567890123");
}

#[test]
fn numbers_are_read_like_the_machine_reads_them() {
    assert_eq!(parse_i32("42"), Some(42));
    assert_eq!(parse_i32("-42"), Some(-42));
    assert_eq!(parse_i32("+42"), Some(42));
    assert_eq!(parse_i32("007"), Some(7));
    assert_eq!(parse_i32("2147483647"), Some(i32::MAX));
    assert_eq!(parse_i32("2147483648"), None);
    assert_eq!(parse_i32("-2147483648"), Some(i32::MIN));
    for bad in ["", "-", "+", " 1", "1 ", "1.0", "a", "--1"] {
        assert_eq!(parse_i32(bad), None, "{}", bad);
        assert_eq!(bad.parse::<i32>().ok(), None);
    }
    assert_eq!(parse_u32("4294967295"), Some(u32::MAX));
    assert_eq!(parse_u32("4294967296"), None);
    assert_eq!(parse_u32("-1"), None);
    assert_eq!(parse_u32("+1"), Some(1));
    assert_eq!(parse_u32(""), None);
}

#[test]
fn every_number_reads_back() {
    for v in [0, 1, -1, 9, 10, -10, 99999, i32::MAX, i32::MIN] {
        assert_eq!(parse_i32(&decimal(v as i64)), Some(v));
    }
    for v in [0u32, 1, 10, u32::MAX] {
        assert_eq!(parse_u32(&decimal(v as i64)), Some(v));
    }
}

#[test]
fn division_goes_towards_zero() {
    assert_eq!(divide(7, 2), 3);
    assert_eq!(divide(-7, 2), -3);
    assert_eq!(half_i32(-3), -1);
    assert_eq!(half_i32(3), 1);
    assert_eq!(clamp_i32(300, -5, 5), 5);
}

#[test]
fn degrees_wrap_into_one_turn() {
    assert_eq!(wrap_degrees(450), 90);
    assert_eq!(wrap_degrees(-90), 270);
    assert_eq!(wrap_degrees(720), 0);
}

#[test]
fn opacities_settle_between_zero_and_one() {
    assert_eq!(value(opacity(1.5).clamp()), 1.0);
    assert_eq!(value(opacity(-0.5).clamp()), 0.0);
    assert_eq!(value(opacity(0.25).clamp()), 0.25);
    assert_eq!(value(opacity(f32::INFINITY).clamp()), 1.0);
    assert!(value(opacity(f32::NAN).clamp()).is_nan());
    assert_eq!(opacity(-0.0).clamp().bits, (-0.0f32).clamp(0.0, 1.0).to_bits());
    for v in [-3.0f32, 0.0, 0.1, 1.0, 7.5] {
        let once = opacity(v).clamp();
        assert_eq!(once.clamp().bits, once.bits);
        assert_eq!(value(once), v.clamp(0.0, 1.0));
    }
    assert!(clamp_option(None).is_none());
    assert_eq!(clamp_option(Some(opacity(2.0))).map(value), Some(1.0));
    assert_eq!(value(Opacity::one()), 1.0);
}

#[test]
fn opacities_are_the_same_as_numbers() {
    assert!(same_opacity(None, None));
    assert!(!same_opacity(None, Some(opacity(1.0))));
    assert!(same_opacity(Some(opacity(0.5)), Some(opacity(0.5))));
    assert!(!same_opacity(Some(opacity(0.5)), Some(opacity(0.25))));
    assert!(same_opacity(Some(opacity(0.0)), Some(opacity(-0.0))));
    assert!(!same_opacity(Some(opacity(f32::NAN)), Some(opacity(f32::NAN))));
}

#[test]
fn colors_are_read() {
    assert_eq!(read_color("#FFDC3C", 0), (255, 220, 60));
    assert_eq!(read_color("ffdc3c", 0), (255, 220, 60));
    assert_eq!(read_color("##102030", 9), (16, 32, 48));
    // a pair that is no number is replaced on its own
    assert_eq!(read_color("#zz2030", 9), (9, 32, 48));
    assert_eq!(read_color("+1+2+3", 9), (1, 2, 3));
    assert!(reads_as_color("#123"));
    assert!(reads_as_color("\u{e9}\u{e9}\u{e9}"));
    assert!(!reads_as_color("#\u{20ac}\u{20ac}"));
}

#[test]
fn names_are_looked_up_and_sorted() {
    let mut v = strings(&["b.yml", "a.yml", "b.yml"]);
    assert!(contains_name(&v, "a.yml"));
    assert!(!contains_name(&v, "c.yml"));
    assert_eq!(sort_names(&v), strings(&["a.yml", "b.yml", "b.yml"]));
    remove_name(&mut v, "b.yml");
    assert_eq!(v, strings(&["a.yml"]));
    assert_eq!(sort_names(&strings(&["a", "B", "ab", ""])), strings(&["", "B", "a", "ab"]));
}

#[test]
fn yaml_names_are_told_by_their_ending() {
    assert!(yaml_name("old.yaml"));
    assert!(!yaml_name("new.yml"));
    assert_eq!(cut_last("abc"), "ab");
    assert_eq!(cut_last(""), "");
}

#[test]
fn lower_orders_come_first_and_equal_ones_keep_their_place() {
    assert_eq!(sort_by_z(&vec![5, -1, 5, 0]), vec![1, 3, 0, 2]);
    assert_eq!(sort_by_z(&Vec::new()), Vec::<usize>::new());
    let zs = vec![3, 3, 3];
    assert_eq!(sort_by_z(&zs), vec![0, 1, 2]);
}

#[test]
fn channels_are_multiplied() {
    assert_eq!(premultiply(200, 255), 200);
    assert_eq!(premultiply(200, 0), 0);
    assert_eq!(premultiply(200, 128), 100);
    for v in [0u8, 1, 77, 255] {
        for a in [0u8, 1, 128, 255] {
            assert!(premultiply(v, a) <= a);
        }
    }
    let mut b = vec![0u8; 8];
    write_pixel(&mut b, 1, (1, 2, 3, 4));
    assert_eq!(b, vec![0, 0, 0, 0, 1, 2, 3, 4]);
    assert_eq!(read_pixel(&b, 1), (1, 2, 3, 4));
}

#[test]
fn rectangles_become_one_line() {
    let yaml = "settings:\n  window:\n    x: 1\n    'y': 2\n    w: 3\n    h: 4\n";
    assert_eq!(collapse_inline_rects(yaml), "settings:\n  window: {x: 1, 'y': 2, w: 3, h: 4}");
    // a window without a size is left as it is
    let bare = "settings:\n  window:\n    x: 1\n    'y': 2";
    assert_eq!(collapse_inline_rects(bare), bare);
    // a display may go without one
    assert_eq!(
        collapse_inline_rects("  display:\n    x: 1\n    'y': -2\n"),
        "  display: {x: 1, 'y': -2}",
    );
}

#[test]
fn texts_are_not_folded() {
    let yaml = "- type: text\n  content: |-\n    a\n    x: 5\n  font_size: 14\n  x: 1\n  'y': 2";
    assert_eq!(
        collapse_inline_rects(yaml),
        "- type: text\n  content: |-\n    a\n    x: 5\n  font_size: 14\n  geometry: {x: 1, 'y': 2}"
    );
    // a content that looks like geometry, and a blank line that ends the block
    let yaml = "- type: text\n  content: |-\n    x: 1\n    y: 2\n\n    foo\n  font_size: 14";
    assert_eq!(collapse_inline_rects(yaml), yaml);
    // a content that looks like a rectangle
    let yaml = "- type: text\n  content: |2-\n      a\n\n    display:\n      x: 1\n      y: 2\n  z: 3";
    assert_eq!(collapse_inline_rects(yaml), yaml);
    let yaml = "- id: |-\n    display:\n      x: 1\n      y: 2\n  display:\n    x: 3\n    y: 4";
    assert_eq!(
        collapse_inline_rects(yaml),
        "- id: |-\n    display:\n      x: 1\n      y: 2\n  display: {x: 3, y: 4}"
    );
}

#[test]
fn geometry_before_other_keys_stays_in_lines() {
    let yaml = "- type: image\n  x: 1\n  y: 2\n  path: a.png\n  z: 3";
    assert_eq!(collapse_inline_rects(yaml), yaml);
    let yaml = "- type: image\n  w: 9\n  path: a.png\n  x: 1\n  y: 2";
    assert_eq!(
        collapse_inline_rects(yaml),
        "- type: image\n  w: 9\n  path: a.png\n  geometry: {x: 1, y: 2}"
    );
}

#[test]
fn other_lines_are_kept() {
    let yaml = "# notes\nsettings:\n  global_opacity: 0.5\nlist:\n- a\n- b: source";
    assert_eq!(collapse_inline_rects(yaml), yaml);
}

#[test]
fn geometry_of_frames_stays_in_lines() {
    let yaml = "custom_ui:\n- type: frame\n  x: 1\n  'y': 2\n  w: 3\n  h: 4";
    assert_eq!(collapse_inline_rects(yaml), yaml);
    let image = "custom_ui:\n- type: image\n  path: a.png\n  x: 1\n  'y': 2\n  z: 3";
    assert_eq!(
        collapse_inline_rects(image),
        "custom_ui:\n- type: image\n  path: a.png\n  geometry: {x: 1, 'y': 2, z: 3}",
    );
}
