//! Rendering of the elements of a config.

use aportal::config::{BackgroundElement, FrameElement, ImageElement, TextElement};
use aportal::custom_ui::{
    apply_rotation, blend_pixel, composite_ui, is_in_rounded_rect, measure_text_size, parse_color,
    prerender_ui, render_background_gdi, render_frame_gdi, render_image, render_text, rotate_pixels,
    text_buffer_size, RenderedUi,
};
use aportal::picture::{decode_picture, picture_of, Picture};

fn background(w: i32, h: i32, radius: u32) -> BackgroundElement {
    BackgroundElement {
        x: 5,
        y: 6,
        width: w,
        height: h,
        opacity: None,
        z_order: 2,
        color: "#FF8040".to_string(),
        corner_radius: radius,
        rotate: 30,
    }
}

fn picture(w: u32, h: u32, rgba: Vec<u8>) -> Picture {
    Picture { w, h, rgba }
}

fn shown(w: u32, h: u32, pixels: Vec<u8>, z_order: i32) -> RenderedUi {
    RenderedUi { pixels, w, h, x: 0, y: 0, z_order, rotate: 0, stencil: false }
}

fn text(color: &str) -> TextElement {
    TextElement {
        content: "hello".to_string(),
        font_size: 14,
        text_color: color.to_string(),
        x: 1,
        y: 2,
        opacity: None,
        z_order: 3,
        rotate: 0,
    }
}

/// The bytes of a PNG file.
fn png_file(w: u32, h: u32, color: png::ColorType, data: &[u8]) -> Vec<u8> {
    let mut out = Vec::new();
    {
        let mut e = png::Encoder::new(&mut out, w, h);
        e.set_color(color);
        e.set_depth(png::BitDepth::Eight);
        let mut writer = e.write_header().unwrap();
        writer.write_image_data(data).unwrap();
    }
    out
}

#[test]
fn pictures_are_decoded() {
    let data = [1u8, 2, 3, 4, 5, 6, 7, 8];
    let p = decode_picture(&png_file(2, 1, png::ColorType::Rgba, &data)).unwrap().unwrap();
    assert_eq!((p.w, p.h, p.rgba), (2, 1, data.to_vec()));
}

#[test]
fn pictures_without_alpha_are_opaque() {
    let file = png_file(1, 2, png::ColorType::Rgb, &[1, 2, 3, 4, 5, 6]);
    let p = decode_picture(&file).unwrap().unwrap();
    assert_eq!((p.w, p.h, p.rgba), (1, 2, vec![1, 2, 3, 255, 4, 5, 6, 255]));
}

#[test]
fn gray_pictures_are_refused() {
    let file = png_file(2, 1, png::ColorType::Grayscale, &[9, 8]);
    let e = decode_picture(&file).unwrap().err().unwrap();
    assert_eq!(e, "unsupported PNG color type: Grayscale");
}

#[test]
fn broken_pictures_are_refused() {
    let e = decode_picture(&vec![1, 2, 3]).unwrap().err().unwrap();
    assert!(e.starts_with("PNG decode failed: "), "{}", e);
    let mut file = png_file(8, 8, png::ColorType::Rgba, &[7u8; 256]);
    file.truncate(file.len() - 30);
    let e = decode_picture(&file).unwrap().err().unwrap();
    assert!(e.starts_with("PNG frame read failed: "), "{}", e);
}

#[test]
fn decoded_frames_become_pictures() {
    let ok = picture_of(Ok((1, 1, "Rgba".to_string(), vec![1, 2, 3, 4]))).ok().unwrap();
    assert_eq!(ok.rgba, vec![1, 2, 3, 4]);
    let e = picture_of(Ok((1, 1, "Indexed".to_string(), vec![1]))).err().unwrap();
    assert_eq!(e, "unsupported PNG color type: Indexed");
    let e = picture_of(Err((false, "x".to_string()))).err().unwrap();
    assert_eq!(e, "PNG decode failed: x");
    let e = picture_of(Err((true, "x".to_string()))).err().unwrap();
    assert_eq!(e, "PNG frame read failed: x");
}

#[test]
fn huge_pictures_are_left_alone() {
    let mut b = vec![0x89, b'P', b'N', b'G', b'\r', b'\n', 0x1A, b'\n', 0, 0, 0, 13];
    b.extend(b"IHDR");
    b.extend([0xff; 8]);
    assert!(decode_picture(&b).is_none());
}

#[test]
fn colors_of_elements_are_read() {
    assert_eq!(parse_color("#FF8040"), (255, 128, 64));
    assert_eq!(parse_color("#zz8040"), (0, 128, 64));
}

#[test]
fn corners_are_round() {
    assert!(is_in_rounded_rect(0, 0, 10, 10, 0));
    assert!(!is_in_rounded_rect(0, 0, 10, 10, 4));
    assert!(is_in_rounded_rect(4, 0, 10, 10, 4));
    assert!(is_in_rounded_rect(0, 5, 10, 10, 4));
    assert!(is_in_rounded_rect(2, 1, 10, 10, 4));
    assert!(!is_in_rounded_rect(9, 9, 10, 10, 4));
}

#[test]
fn backgrounds_are_filled() {
    let ui = render_background_gdi(&background(3, 2, 0), 128).unwrap();
    assert_eq!((ui.w, ui.h, ui.x, ui.y, ui.z_order, ui.rotate), (3, 2, 5, 6, 2, 30));
    assert!(!ui.stencil);
    // blue, green, red, alpha; each channel multiplied by the alpha
    assert_eq!(ui.pixels, [32, 64, 128, 128].repeat(6));
    let least = render_background_gdi(&background(0, -3, 0), 255).unwrap();
    assert_eq!((least.w, least.h), (2, 2));
}

#[test]
fn backgrounds_leave_their_corners_empty() {
    let ui = render_background_gdi(&background(10, 10, 4), 255).unwrap();
    assert_eq!(&ui.pixels[0..4], &[0, 0, 0, 0]);
    assert_eq!(&ui.pixels[4 * 4..4 * 5], &[64, 128, 255, 255]);
}

#[test]
fn frames_are_empty_inside() {
    let f = FrameElement {
        x: 0,
        y: 0,
        width: 4,
        height: 4,
        opacity: None,
        z_order: 0,
        border_color: "#0000FF".to_string(),
        border_width: 1,
        corner_radius: 0,
        rotate: 0,
    };
    let ui = render_frame_gdi(&f, 255).unwrap();
    for y in 0..4 {
        for x in 0..4 {
            let i = (y * 4 + x) * 4;
            let border = x == 0 || y == 0 || x == 3 || y == 3;
            let want = if border { [255, 0, 0, 255] } else { [0, 0, 0, 0] };
            assert_eq!(ui.pixels[i..i + 4], want, "{} {}", x, y);
        }
    }
    let none = render_frame_gdi(&FrameElement { border_width: 0, ..f }, 255).unwrap();
    assert_eq!(none.pixels, ui.pixels);
}

#[test]
fn images_are_shown_in_their_size() {
    let img = ImageElement {
        path: "a.png".to_string(),
        x: 1,
        y: 2,
        width: 0,
        height: 0,
        opacity: None,
        z_order: 4,
        rotate: 0,
    };
    let pic = picture(2, 1, vec![10, 20, 30, 255, 200, 100, 50, 128]);
    let ui = render_image(&img, &pic, &Vec::new(), 255).unwrap();
    assert_eq!((ui.w, ui.h, ui.x, ui.y, ui.z_order), (2, 1, 1, 2, 4));
    assert_eq!(ui.pixels, vec![30, 20, 10, 255, 25, 50, 100, 128]);
    let faded = render_image(&img, &pic, &Vec::new(), 51).unwrap();
    assert_eq!(faded.pixels, vec![6, 4, 2, 51, 5, 10, 20, 25]);
    let sized = ImageElement { width: 1, ..img };
    let ui = render_image(&sized, &pic, &vec![1, 2, 3, 255], 255).unwrap();
    assert_eq!((ui.w, ui.h, ui.pixels), (1, 1, vec![3, 2, 1, 255]));
}

#[test]
fn texts_take_their_color_or_cut_out() {
    let drawn = vec![255, 255, 255, 0, 0, 0, 0, 0, 128, 128, 128, 0];
    let ui = render_text(&text("#FF0000"), 3, 1, &drawn, 255).unwrap();
    assert!(!ui.stencil);
    assert_eq!(ui.pixels, vec![0, 0, 255, 255, 0, 0, 0, 0, 0, 0, 128, 128]);
    let ui = render_text(&text("  "), 3, 1, &drawn, 255).unwrap();
    assert!(ui.stencil);
    assert_eq!(ui.pixels, vec![0, 0, 0, 255, 0, 0, 0, 0, 0, 0, 0, 128]);
    assert_eq!((ui.x, ui.y, ui.z_order), (1, 2, 3));
}

#[test]
fn texts_take_up_their_extent_and_a_margin() {
    assert_eq!(measure_text_size("hello", Some((40, 16))), (44, 20));
    assert_eq!(measure_text_size("", Some((40, 16))), (2, 2));
    assert_eq!(measure_text_size("hello", None), (2, 2));
    assert_eq!(text_buffer_size((40, 16)), (44, 20));
    assert_eq!(text_buffer_size((-9, 0)), (2, 4));
}

#[test]
fn quarter_turns_cancel() {
    let src: Vec<u8> = (0u8..24).collect();
    let none = Vec::new();
    let (mut p, mut w, mut h) = (src.clone(), 3u32, 2u32);
    for _ in 0..4 {
        let (q, nw, nh) = rotate_pixels(&p, w, h, 90, (0, 0), &none).unwrap();
        assert_eq!((nw, nh), (h, w));
        p = q;
        w = nw;
        h = nh;
    }
    assert_eq!(p, src);
    let (once, _, _) = rotate_pixels(&src, 3, 2, 90, (0, 0), &none).unwrap();
    // the left column, bottom first, becomes the top row
    assert_eq!(&once[0..8], &[12, 13, 14, 15, 0, 1, 2, 3]);
    let (back, bw, bh) = rotate_pixels(&once, 2, 3, 270, (0, 0), &none).unwrap();
    assert_eq!((back, bw, bh), (src, 3, 2));
}

#[test]
fn tilted_pictures_take_the_picked_pixels() {
    let src = vec![1, 1, 1, 1, 2, 2, 2, 2];
    let picks = vec![1, u32::MAX, 0, 7];
    let (p, w, h) = rotate_pixels(&src, 2, 1, 45, (2, 2), &picks).unwrap();
    assert_eq!((w, h), (2, 2));
    assert_eq!(p, vec![2, 2, 2, 2, 0, 0, 0, 0, 1, 1, 1, 1, 0, 0, 0, 0]);
}

#[test]
fn turned_elements_stay_centered() {
    let ui = RenderedUi { x: 10, y: 20, rotate: 90, ..shown(4, 2, vec![9; 32], 1) };
    let r = apply_rotation(ui, (0, 0), &Vec::new()).unwrap();
    assert_eq!((r.x, r.y, r.w, r.h), (11, 19, 2, 4));
    assert_eq!((r.z_order, r.stencil), (1, false));
}

#[test]
fn pixels_are_laid_over() {
    let d = (10, 20, 30, 255);
    assert_eq!(blend_pixel((1, 2, 3, 0), d, false), d);
    assert_eq!(blend_pixel((1, 2, 3, 255), d, false), (1, 2, 3, 255));
    assert_eq!(blend_pixel((50, 50, 50, 51), (100, 100, 100, 255), false), (130, 130, 130, 255));
    assert_eq!(blend_pixel((0, 0, 0, 255), d, true), (0, 0, 0, 0));
    assert_eq!(blend_pixel((0, 0, 0, 51), (100, 100, 100, 255), true), (80, 80, 80, 204));
    let (b, g, r, a) = blend_pixel((50, 51, 0, 51), (100, 0, 200, 200), false);
    assert!(b <= a && g <= a && r <= a);
}

#[test]
fn elements_cover_only_their_rectangle() {
    let mut dst = vec![7u8; 3 * 2 * 4];
    let ui = RenderedUi { x: 1, y: 1, ..shown(5, 1, vec![255; 20], 0) };
    composite_ui(&mut dst, 3, 2, &ui);
    assert_eq!(&dst[0..16], &[7; 16]);
    assert_eq!(&dst[16..24], &[255; 8]);
    let out = RenderedUi { x: -5, y: 0, ..shown(5, 1, vec![255; 20], 0) };
    let before = dst.clone();
    composite_ui(&mut dst, 3, 2, &out);
    assert_eq!(dst, before);
}

#[test]
fn elements_are_drawn_in_their_order() {
    let v = prerender_ui(vec![
        shown(1, 1, vec![1; 4], 5),
        shown(1, 1, vec![2; 4], -1),
        shown(1, 1, vec![3; 4], 5),
    ]);
    let first: Vec<u8> = v.iter().map(|u| u.pixels[0]).collect();
    assert_eq!(first, vec![2, 1, 3]);
}
