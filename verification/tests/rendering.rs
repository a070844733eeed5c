use aportal::capture::RegionFrame;
use aportal::config::{CaptureRegion, Config, DisplayRect, Measure, Rect};
use aportal::opacity::Opacity;
use aportal::render::{region_opacity, render_regions};

/// Build a tiny source frame whose pixel value encodes (x, y): BGRA = (x, y, 127, 255).
fn frame(w: u32, h: u32) -> Vec<u8> {
    let mut data = vec![0u8; (w * h * 4) as usize];
    for y in 0..h {
        for x in 0..w {
            let i = ((y * w + x) * 4) as usize;
            data[i] = x as u8;
            data[i + 1] = y as u8;
            data[i + 2] = 127;
            data[i + 3] = 255;
        }
    }
    data
}

/// Render one 4x3 source rotated by `deg` (display 1:1, no offset) into a dst buffer.
/// Returns the BGRA pixel at (dx, dy).
fn rotated_pixel(deg: i32, dx: u32, dy: u32) -> (u8, u8, u8, u8) {
    let (src_w, src_h) = (4u32, 3u32);
    let data = frame(src_w, src_h);
    let rf = RegionFrame { data: &data, w: src_w, h: src_h };
    let cfg = Config {
        capture_regions: vec![CaptureRegion {
            id: "r".into(),
            source: Rect { x: 0, y: 0, width: src_w, height: src_h },
            display: DisplayRect {
                x: 0,
                y: 0,
                width: 0,
                height: 0,
                opacity: None,
                z_order: 0,
                rotate: deg,
            },
            z_order: None,
        }],
        ..Default::default()
    };
    // 90°/270° → 3x4 footprint; 180° → 4x3
    let (dw, dh) = if deg % 180 == 0 { (src_w, src_h) } else { (src_h, src_w) };
    let mut dst = vec![0u8; (dw * dh * 4) as usize];
    render_regions(
        &vec![rf],
        &cfg,
        &mut dst,
        dw as i32,
        dh as i32,
        &Vec::new(),
        &Vec::new(),
        &vec![255],
    );
    let i = ((dy * dw + dx) * 4) as usize;
    (dst[i], dst[i + 1], dst[i + 2], dst[i + 3])
}

fn check_axis(deg: i32) {
    let (sw, sh) = (4u32, 3u32);
    // 90°/270° → 3x4 footprint; 180° → 4x3
    let (dw, dh) = if deg % 180 == 0 { (sw, sh) } else { (sh, sw) };
    for dy in 0..dh {
        for dx in 0..dw {
            // Expected inverse mapping (integer axis rotation):
            let (sx, sy) = match deg.rem_euclid(360) {
                90 => (dy, sh - 1 - dx),
                180 => (sw - 1 - dx, sh - 1 - dy),
                270 => (sw - 1 - dy, dx),
                _ => unreachable!(),
            };
            let p = rotated_pixel(deg, dx, dy);
            assert_eq!(
                (p.0, p.1),
                (sx as u8, sy as u8),
                "deg={} dst=({},{}) should sample src=({},{})",
                deg,
                dx,
                dy,
                sx,
                sy
            );
            assert_eq!(p.2, 127);
            assert_eq!(p.3, 255);
        }
    }
}

#[test]
fn axis_rotate_90() {
    check_axis(90);
}

#[test]
fn axis_rotate_180() {
    check_axis(180);
}

#[test]
fn axis_rotate_270() {
    check_axis(270);
}

#[test]
fn axis_rotate_90_plus_360() {
    check_axis(450);
}

fn placed(x: i32, y: i32, w: i32, h: i32, z: i32, rotate: i32) -> CaptureRegion {
    CaptureRegion {
        id: "r".into(),
        source: Rect { x: 0, y: 0, width: 2, height: 2 },
        display: DisplayRect { x, y, width: w, height: h, opacity: None, z_order: z, rotate },
        z_order: None,
    }
}

fn one_color(c: u8) -> Vec<u8> {
    vec![c, c, c, 255, c, c, c, 255, c, c, c, 255, c, c, c, 255]
}

fn config_of(regions: Vec<CaptureRegion>) -> Config {
    Config { capture_regions: regions, ..Default::default() }
}

/// The first and the last byte of each pixel.
fn ends(dst: &[u8]) -> Vec<(u8, u8)> {
    dst.chunks(4).map(|p| (p[0], p[3])).collect()
}

#[test]
fn regions_are_copied_to_their_place() {
    let data = frame(2, 2);
    let cfg = config_of(vec![placed(1, 1, 0, 0, 0, 0)]);
    let mut dst = vec![9u8; 4 * 3 * 4];
    let frames = vec![RegionFrame { data: &data, w: 2, h: 2 }];
    render_regions(&frames, &cfg, &mut dst, 4, 3, &Vec::new(), &Vec::new(), &vec![255]);
    let n = (9, 9);
    assert_eq!(
        ends(&dst),
        vec![n, n, n, n, n, (0, 255), (1, 255), n, n, (0, 255), (1, 255), n]
    );
    assert_eq!(dst[9 * 4 + 1], 1);
}

#[test]
fn regions_reach_over_the_lower_edge() {
    let data = frame(2, 2);
    let cfg = config_of(vec![placed(0, 1, 0, 0, 0, 0)]);
    let mut dst = vec![0u8; 2 * 2 * 4];
    let frames = vec![RegionFrame { data: &data, w: 2, h: 2 }];
    render_regions(&frames, &cfg, &mut dst, 2, 2, &Vec::new(), &Vec::new(), &vec![255]);
    assert_eq!(ends(&dst), vec![(0, 0), (0, 0), (0, 255), (1, 255)]);
}

#[test]
fn colors_are_multiplied_by_the_opacity() {
    let data = one_color(200);
    let cfg = config_of(vec![placed(0, 0, 0, 0, 0, 0)]);
    let mut dst = vec![0u8; 2 * 2 * 4];
    let frames = vec![RegionFrame { data: &data, w: 2, h: 2 }];
    render_regions(&frames, &cfg, &mut dst, 2, 2, &Vec::new(), &Vec::new(), &vec![128]);
    // 200 * 128 / 255, rounded down
    assert_eq!(dst[..4], [100, 100, 100, 128]);
    let mut same = vec![7u8; 2 * 2 * 4];
    render_regions(&frames, &cfg, &mut same, 2, 2, &Vec::new(), &Vec::new(), &vec![0]);
    assert_eq!(same, vec![7u8; 16]);
}

#[test]
fn regions_are_drawn_in_their_order() {
    let (a, b) = (one_color(10), one_color(20));
    let frames =
        vec![RegionFrame { data: &a, w: 2, h: 2 }, RegionFrame { data: &b, w: 2, h: 2 }];
    for (z, top) in [((5, 1), 10u8), ((1, 5), 20), ((3, 3), 20)] {
        let cfg = config_of(vec![placed(0, 0, 0, 0, z.0, 0), placed(0, 0, 0, 0, z.1, 0)]);
        let mut dst = vec![0u8; 2 * 2 * 4];
        render_regions(&frames, &cfg, &mut dst, 2, 2, &Vec::new(), &Vec::new(), &vec![255, 255]);
        assert_eq!(dst[0], top);
    }
}

#[test]
fn scaled_regions_show_their_samples() {
    let data = one_color(10);
    let cfg = config_of(vec![placed(0, 0, 3, 1, 0, 0)]);
    let samples = vec![vec![50, 51, 52, 255, 60, 61, 62, 0, 70, 71, 72, 255]];
    let mut dst = vec![1u8; 3 * 4];
    let frames = vec![RegionFrame { data: &data, w: 2, h: 2 }];
    render_regions(&frames, &cfg, &mut dst, 3, 1, &Vec::new(), &samples, &vec![255]);
    assert_eq!(dst, vec![50, 51, 52, 255, 1, 1, 1, 1, 70, 71, 72, 255]);
}

#[test]
fn tilted_regions_show_their_samples() {
    let data = one_color(10);
    let cfg = config_of(vec![placed(1, 1, 0, 0, 0, 45)]);
    // the box of a square of two pixels, tilted, is three pixels wide
    let measures = vec![Measure { natural: (0, 0), tilted: (3, 3) }];
    let mut samples = vec![0u8; 3 * 3 * 4];
    samples[4 * 4..4 * 4 + 4].copy_from_slice(&[80, 81, 82, 255]);
    let mut dst = vec![0u8; 4 * 4 * 4];
    let frames = vec![RegionFrame { data: &data, w: 2, h: 2 }];
    render_regions(&frames, &cfg, &mut dst, 4, 4, &measures, &vec![samples], &vec![255]);
    let lit: Vec<usize> = (0..16).filter(|&p| dst[p * 4 + 3] != 0).collect();
    // half of minus one is zero: the box begins at (1, 1), its middle is at (2, 2)
    assert_eq!(lit, vec![10]);
    assert_eq!(dst[40..44], [80, 81, 82, 255]);
}

#[test]
fn regions_take_the_opacity_of_the_config() {
    let opacity = |v: f32| Opacity { bits: v.to_bits() };
    let mut cfg = config_of(vec![placed(0, 0, 0, 0, 0, 0)]);
    assert_eq!(region_opacity(&cfg, &cfg.capture_regions[0]).bits, 1f32.to_bits());
    cfg.settings.global_opacity = Some(opacity(0.5));
    assert_eq!(region_opacity(&cfg, &cfg.capture_regions[0]).bits, 0.5f32.to_bits());
    cfg.capture_regions[0].display.opacity = Some(opacity(7.0));
    assert_eq!(region_opacity(&cfg, &cfg.capture_regions[0]).bits, 1f32.to_bits());
}

#[test]
fn at_most_32_regions_are_shown() {
    let mut regions = Vec::new();
    let data = one_color(30);
    let mut frames = Vec::new();
    for i in 0..33 {
        regions.push(placed(0, 0, 0, 0, i, 0));
        frames.push(RegionFrame { data: &data, w: 2, h: 2 });
    }
    regions[32].display.x = 2;
    let cfg = config_of(regions);
    let mut dst = vec![0u8; 4 * 2 * 4];
    render_regions(&frames, &cfg, &mut dst, 4, 2, &Vec::new(), &Vec::new(), &vec![255; 33]);
    assert_eq!(ends(&dst)[..4], [(30, 255), (30, 255), (0, 0), (0, 0)]);
}

#[test]
fn full_circles_draw_the_same() {
    let data = frame(2, 2);
    let drawn = |rotate: i32| {
        let cfg = config_of(vec![placed(1, 1, 0, 0, 0, rotate)]);
        let frames = vec![RegionFrame { data: &data, w: 2, h: 2 }];
        let mut dst = vec![9u8; 4 * 4 * 4];
        render_regions(&frames, &cfg, &mut dst, 4, 4, &Vec::new(), &Vec::new(), &vec![255]);
        dst
    };
    for deg in [0, 90, 180, 270] {
        assert_eq!(drawn(deg), drawn(deg + 360));
        assert_eq!(drawn(deg), drawn(deg - 720));
    }
    assert_ne!(drawn(0), drawn(90));
}

#[test]
fn the_greatest_order_is_on_top() {
    let (low, high) = (one_color(10), one_color(20));
    let drawn = |first: i32, second: i32| {
        let cfg = config_of(vec![placed(0, 0, 0, 0, first, 0), placed(1, 0, 0, 0, second, 0)]);
        let frames = vec![
            RegionFrame { data: &low, w: 2, h: 2 },
            RegionFrame { data: &high, w: 2, h: 2 },
        ];
        let mut dst = vec![0u8; 3 * 2 * 4];
        render_regions(&frames, &cfg, &mut dst, 3, 2, &Vec::new(), &Vec::new(), &vec![255, 255]);
        (dst[0], dst[4], dst[8])
    };
    assert_eq!(drawn(1, 0), (10, 10, 20));
    assert_eq!(drawn(0, 1), (10, 20, 20));
    // of equal ones the last
    assert_eq!(drawn(5, 5), (10, 20, 20));
}
