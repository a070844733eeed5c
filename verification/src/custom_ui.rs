//! Custom UI elements: rendered once, then blended over the window in each
//! frame.

use vstd::prelude::*;

use crate::color;
use crate::color::read_color;
use crate::config;
use crate::config::{
    rotated_bbox, BackgroundElement, FrameElement, ImageElement, TextElement,
};
use crate::num;
use crate::num::wrap_degrees;
use crate::picture::Picture;
use crate::pixels;
use crate::pixels::{
    lemma_progress_ends, lemma_progress_skip, lemma_progress_step, lemma_row_after,
    lemma_row_before, lemma_row_column, lemma_row_in, lemma_rows_below, lemma_split, pixels_of,
    premul, premultiply, progress, read_pixel, write_pixel, Pixel,
};
use crate::render;
use crate::text;
use crate::text::{chars_of, trim_chars};
use crate::zorder;

verus! {

/// A rendered UI element.
#[derive(Debug)]
pub struct RenderedUi {
    /// Pixels, multiplied by their alpha: blue, green, red, alpha
    pub pixels: Vec<u8>,
    pub w: u32,
    pub h: u32,
    /// Position inside the overlay
    pub x: i32,
    pub y: i32,
    pub z_order: i32,
    /// Rotation in degrees clockwise
    pub rotate: i32,
    /// Whether the alpha is a cutout strength: 255 cuts away what lies below
    pub stencil: bool,
}

impl RenderedUi {
    /// The buffer holds the pixels of the element and nothing else.
    pub open spec fn wf(self) -> bool {
        &&& self.pixels@.len() == self.w * self.h * 4
        &&& self.w <= i32::MAX
        &&& self.h <= i32::MAX
    }

    /// The color channels of every pixel are not above its alpha.
    pub open spec fn premultiplied(self) -> bool {
        forall|p: int|
            0 <= p < pixels_of(self.pixels@).len() ==> is_premultiplied(
                #[trigger] pixels_of(self.pixels@)[p],
            )
    }
}

/// Whether the color channels of a pixel are not above its alpha.
pub open spec fn is_premultiplied(c: Pixel) -> bool {
    c.0 <= c.3 && c.1 <= c.3 && c.2 <= c.3
}

// ===== Rotation =====

/// Pixel `p` of a picture of size (w, h) after a turn by `deg` degrees into a
/// box of width `bw`.
pub open spec fn turned_pixel(src: Seq<Pixel>, w: int, h: int, deg: int, bw: int, p: int) -> Pixel {
    let s = render::unturned(deg, w, h, p % bw, p / bw);
    src[s.1 * w + s.0]
}

/// The pixel that `pick` names, or nothing where it names none.
pub open spec fn picked_pixel(src: Seq<Pixel>, picks: Seq<u32>, p: int) -> Pixel {
    if p < picks.len() && picks[p] < src.len() {
        src[picks[p] as int]
    } else {
        (0, 0, 0, 0)
    }
}

/// The pixels of a picture turned by `deg` degrees.
pub open spec fn turned(
    src: Seq<Pixel>,
    w: int,
    h: int,
    deg: int,
    tilted: (int, int),
    picks: Seq<u32>,
) -> Seq<Pixel> {
    let b = config::bbox(w, h, deg, tilted);
    let d = deg % 360;
    if d == 0 {
        src
    } else if render::is_axis_turn(d) {
        Seq::new((b.0 * b.1) as nat, |p: int| turned_pixel(src, w, h, d, b.0, p))
    } else {
        Seq::new((b.0 * b.1) as nat, |p: int| picked_pixel(src, picks, p))
    }
}

fn push_pixel(out: &mut Vec<u8>, v: (u8, u8, u8, u8))
    requires
        old(out)@.len() % 4 == 0,
    ensures
        final(out)@.len() == old(out)@.len() + 4,
        pixels_of(final(out)@) == pixels_of(old(out)@).push(v),
{
    out.push(v.0);
    out.push(v.1);
    out.push(v.2);
    out.push(v.3);
    assert(pixels_of(out@) =~= pixels_of(old(out)@).push(v));
}

proof fn lemma_area(w: int, h: int)
    requires
        0 <= w <= 0xffff_ffff,
        0 <= h <= 0xffff_ffff,
    ensures
        0 <= w * h <= 0xffff_ffff * 0xffff_ffff,
        w * h == h * w,
{
    assert(0 <= w * h <= 0xffff_ffff * 0xffff_ffff && w * h == h * w) by (nonlinear_arith)
        requires
            0 <= w <= 0xffff_ffff,
            0 <= h <= 0xffff_ffff,
    ;
}

/// Turns a buffer of pixels by `deg` degrees clockwise around its center.
/// Returns the pixels and their new width and height, which are those of the
/// bounding box. At an angle that is no multiple of a right angle `tilted` is
/// the box, and `picks` says for each pixel of the box which source pixel it
/// shows.
pub fn rotate_pixels(
    src: &Vec<u8>,
    w: u32,
    h: u32,
    deg: i32,
    tilted: (i32, i32),
    picks: &Vec<u32>,
) -> (r: Result<(Vec<u8>, u32, u32), String>)
    requires
        src@.len() == w * h * 4,
        w <= i32::MAX,
        h <= i32::MAX,
    ensures
        match r {
            Ok((out, bw, bh)) => {
                let b = config::bbox(
                    w as int,
                    h as int,
                    deg as int,
                    (tilted.0 as int, tilted.1 as int),
                );
                &&& (bw as int, bh as int) == b
                &&& out@.len() == bw * bh * 4
                &&& pixels_of(out@) == turned(
                    pixels_of(src@),
                    w as int,
                    h as int,
                    deg as int,
                    (tilted.0 as int, tilted.1 as int),
                    picks@,
                )
            },
            Err(e) => false,
        },
{
    let d: i32 = wrap_degrees(deg as i64);
    let ghost sp = pixels_of(src@);
    proof {
        lemma_area(w as int, h as int);
    }
    if d == 0 {
        let mut out: Vec<u8> = Vec::new();
        for i in 0..src.len()
            invariant
                out@ == src@.take(i as int),
        {
            out.push(src[i]);
            assert(out@ =~= src@.take(i + 1));
        }
        assert(src@.take(src@.len() as int) =~= src@);
        return Ok((out, w, h));
    }
    let (bw, bh): (i32, i32) = rotated_bbox((w as i32, h as i32), d, tilted);
    let ghost target = turned(
        sp,
        w as int,
        h as int,
        deg as int,
        (tilted.0 as int, tilted.1 as int),
        picks@,
    );
    let mut out: Vec<u8> = Vec::new();
    let ghost bwi = bw as int;
    let ghost bhi = bh as int;
    proof {
        lemma_area(bwi, bhi);
        assert(pixels_of(out@) =~= target.take(0));
    }
    let total: u64 = bw as u64 * bh as u64;
    let held: usize = src.len();
    let mut y: i32 = 0;
    let mut x: i32 = 0;
    let mut p: u64 = 0;
    while p < total
        invariant
            src@.len() == w * h * 4,
            held == src@.len(),
            w <= i32::MAX,
            h <= i32::MAX,
            d == deg as int % 360,
            d != 0,
            bwi == bw,
            bhi == bh,
            bw >= 0,
            bh >= 0,
            total == bwi * bhi,
            p <= total,
            sp == pixels_of(src@),
            sp.len() == w * h,
            (bwi, bhi) == config::bbox(
                w as int,
                h as int,
                deg as int,
                (tilted.0 as int, tilted.1 as int),
            ),
            target == turned(
                sp,
                w as int,
                h as int,
                deg as int,
                (tilted.0 as int, tilted.1 as int),
                picks@,
            ),
            target.len() == total,
            0 <= y,
            0 <= x,
            p < total ==> x < bw && y < bh && p == y * bwi + x,
            out@.len() == 4 * p,
            pixels_of(out@) == target.take(p as int),
        decreases total - p,
    {
        let v: (u8, u8, u8, u8);
        if d == 90 || d == 180 || d == 270 {
            let (sx, sy): (u32, u32) = if d == 90 {
                (y as u32, h - 1 - x as u32)
            } else if d == 180 {
                (w - 1 - x as u32, h - 1 - y as u32)
            } else {
                (w - 1 - y as u32, x as u32)
            };
            proof {
                lemma_row_column(bwi, x as int, y as int);
                lemma_row_in(w as int, h as int, sx as int, sy as int);
                assert(0 <= sy * w) by (nonlinear_arith)
                    requires
                        0 <= sy,
                        0 <= w,
                ;
            }
            let i: usize = sy as usize * w as usize + sx as usize;
            v = read_pixel(src, i);
        } else {
            let k: usize = picks.len();
            if p < k as u64 && (picks[p as usize] as usize) < held / 4 {
                v = read_pixel(src, picks[p as usize] as usize);
            } else {
                v = (0, 0, 0, 0);
            }
        }
        assert(v == target[p as int]);
        let ghost before = out@;
        push_pixel(&mut out, v);
        proof {
            assert(target.take(p + 1) =~= target.take(p as int).push(v));
            assert((y + 1) * bwi == y * bwi + bwi) by (nonlinear_arith);
        }
        p = p + 1;
        if p < total {
            if x + 1 < bw {
                x = x + 1;
            } else {
                x = 0;
                proof {
                    assert(y + 1 < bhi) by (nonlinear_arith)
                        requires
                            p == (y + 1) * bwi,
                            p < bwi * bhi,
                            bwi > 0,
                    ;
                }
                y = y + 1;
            }
        }
    }
    assert(target.take(total as int) =~= target);
    Ok((out, bw as u32, bh as u32))
}

/// Turns a rendered element: its buffer is turned, its size becomes that of the
/// bounding box, and its corner moves so that it stays centered.
pub fn apply_rotation(ui: RenderedUi, tilted: (i32, i32), picks: &Vec<u32>) -> (r: Result<
    RenderedUi,
    String,
>)
    requires
        ui.wf(),
        ({
            let f = config::footprint(
                ui.x as int,
                ui.y as int,
                ui.w as int,
                ui.h as int,
                ui.rotate as int,
                (tilted.0 as int, tilted.1 as int),
            );
            num::is_i32(f.0) && num::is_i32(f.1)
        }),
    ensures
        match r {
            Ok(n) => {
                let f = config::footprint(
                    ui.x as int,
                    ui.y as int,
                    ui.w as int,
                    ui.h as int,
                    ui.rotate as int,
                    (tilted.0 as int, tilted.1 as int),
                );
                &&& n.wf()
                &&& (n.x as int, n.y as int, n.w as int, n.h as int) == f
                &&& pixels_of(n.pixels@) == turned(
                    pixels_of(ui.pixels@),
                    ui.w as int,
                    ui.h as int,
                    ui.rotate as int,
                    (tilted.0 as int, tilted.1 as int),
                    picks@,
                )
                &&& n.z_order == ui.z_order
                &&& n.rotate == ui.rotate
                &&& n.stencil == ui.stencil
            },
            Err(e) => false,
        },
{
    if ui.rotate == 0 {
        return Ok(ui);
    }
    match rotate_pixels(&ui.pixels, ui.w, ui.h, ui.rotate, tilted, picks) {
        Ok((pixels, nw, nh)) => {
            let x: i64 = ui.x as i64 + (ui.w as i64 - nw as i64) / 2;
            let y: i64 = ui.y as i64 + (ui.h as i64 - nh as i64) / 2;
            Ok(
                RenderedUi {
                    pixels,
                    w: nw,
                    h: nh,
                    x: x as i32,
                    y: y as i32,
                    z_order: ui.z_order,
                    rotate: ui.rotate,
                    stencil: ui.stencil,
                },
            )
        },
        Err(e) => Err(e),
    }
}

// ===== Blending =====

/// One byte of a blended pixel: the source over what lies below.
pub open spec fn over(s: u8, d: u8, sa: u8) -> u8 {
    ((s + d * (255 - sa) / 255) % 256) as u8
}

/// A pixel `s` laid over the pixel `d`. In stencil mode the alpha of `s` says
/// how much of `d` is cut away.
pub open spec fn blended(s: Pixel, d: Pixel, stencil: bool) -> Pixel {
    if s.3 == 0 {
        d
    } else if stencil {
        let keep = 255 - s.3;
        (premul(d.0, keep), premul(d.1, keep), premul(d.2, keep), premul(d.3, keep))
    } else if s.3 == 255 {
        s
    } else {
        (over(s.0, d.0, s.3), over(s.1, d.1, s.3), over(s.2, d.2, s.3), over(s.3, d.3, s.3))
    }
}

/// The pixel of an element that lies at (tx, ty) of the window.
pub open spec fn ui_pixel(ui: RenderedUi, tx: int, ty: int) -> Option<Pixel> {
    let sx = tx - ui.x;
    let sy = ty - ui.y;
    if 0 <= sx < ui.w && 0 <= sy < ui.h {
        Some(pixels_of(ui.pixels@)[sy * ui.w + sx])
    } else {
        None
    }
}

/// The window with an element laid over it.
pub open spec fn composited(start: Seq<Pixel>, w: int, ui: RenderedUi) -> Seq<Pixel> {
    Seq::new(
        start.len(),
        |p: int|
            match ui_pixel(ui, p % w, p / w) {
                Some(s) => blended(s, start[p], ui.stencil),
                None => start[p],
            },
    )
}

fn over_byte(s: u8, d: u8, sa: u8) -> (r: u8)
    ensures
        r == over(s, d, sa),
{
    let inv: u32 = 255 - sa as u32;
    assert(d * inv <= 255 * 255) by (nonlinear_arith)
        requires
            d <= 255,
            inv <= 255,
    ;
    assert(d * inv >= 0) by (nonlinear_arith)
        requires
            d >= 0,
            inv >= 0,
    ;
    ((s as u32 + d as u32 * inv / 255) % 256) as u8
}

/// Blends one pixel over another.
pub fn blend_pixel(s: (u8, u8, u8, u8), d: (u8, u8, u8, u8), stencil: bool) -> (r: (
    u8,
    u8,
    u8,
    u8,
))
    ensures
        r == blended(s, d, stencil),
{
    if s.3 == 0 {
        d
    } else if stencil {
        let keep: u8 = 255 - s.3;
        (
            premultiply(d.0, keep),
            premultiply(d.1, keep),
            premultiply(d.2, keep),
            premultiply(d.3, keep),
        )
    } else if s.3 == 255 {
        s
    } else {
        (
            over_byte(s.0, d.0, s.3),
            over_byte(s.1, d.1, s.3),
            over_byte(s.2, d.2, s.3),
            over_byte(s.3, d.3, s.3),
        )
    }
}

/// Lays a rendered element over the window.
pub fn composite_ui(dst: &mut Vec<u8>, dst_w: i32, dst_h: i32, ui: &RenderedUi)
    requires
        dst_w >= 0,
        dst_h >= 0,
        dst_w * dst_h * 4 <= i32::MAX,
        old(dst)@.len() == dst_w * dst_h * 4,
        ui.wf(),
        ui.x + ui.w <= i32::MAX,
        ui.y + ui.h <= i32::MAX,
    ensures
        final(dst)@.len() == old(dst)@.len(),
        pixels_of(final(dst)@) == composited(pixels_of(old(dst)@), dst_w as int, *ui),
{
    let ghost start = pixels_of(dst@);
    let ghost wi = dst_w as int;
    let ghost hi = dst_h as int;
    let ghost target = composited(start, wi, *ui);
    let ghost n = wi * hi;
    if dst_w == 0 || dst_h == 0 {
        proof {
            assert(wi * hi == 0) by (nonlinear_arith)
                requires
                    wi == 0 || hi == 0,
            ;
            assert(start =~= target);
        }
        return;
    }
    let x0: i32 = num::max_i32(ui.x, 0);
    let y0: i32 = num::max_i32(ui.y, 0);
    let x1: i32 = num::min_i32(ui.x + ui.w as i32, dst_w);
    let y1: i32 = num::min_i32(ui.y + ui.h as i32, dst_h);
    if x0 >= x1 || y0 >= y1 {
        proof {
            assert forall|p: int| 0 <= p < start.len() implies #[trigger] target[p] == start[p] by {
                lemma_split(wi, p);
                lemma_rows_below(wi, hi, p);
            }
            assert(start =~= target);
        }
        return;
    }
    proof {
        lemma_progress_ends(start, target);
        assert(0 <= y0 * wi) by (nonlinear_arith)
            requires
                0 <= y0,
                wi > 0,
        ;
        assert forall|p: int| 0 <= p < y0 * wi && p < start.len() implies #[trigger] target[p]
            == start[p] by {
            lemma_row_before(wi, p, y0 as int);
        }
        lemma_progress_skip(start, target, 0, y0 * wi);
    }
    let held: usize = ui.pixels.len();
    let mut ty: i32 = y0;
    while ty < y1
        invariant
            dst_w > 0,
            dst_h > 0,
            dst_w * dst_h * 4 <= i32::MAX,
            wi == dst_w,
            hi == dst_h,
            n == wi * hi,
            dst@.len() == dst_w * dst_h * 4,
            start.len() == n,
            ui.wf(),
            held == ui.pixels@.len(),
            ui.x + ui.w <= i32::MAX,
            ui.y + ui.h <= i32::MAX,
            x0 == num::int_max(ui.x as int, 0),
            y0 == num::int_max(ui.y as int, 0),
            x1 == num::int_min(ui.x + ui.w, wi),
            y1 == num::int_min(ui.y + ui.h, hi),
            x0 < x1,
            y0 <= ty <= y1,
            target == composited(start, wi, *ui),
            pixels_of(dst@) == progress(start, target, ty * wi),
        decreases y1 - ty,
    {
        proof {
            assert forall|p: int|
                ty * wi <= p < ty * wi + x0 && 0 <= p < start.len() implies #[trigger] target[p]
                == start[p] by {
                lemma_row_column(wi, p - ty * wi, ty as int);
            }
            lemma_progress_skip(start, target, ty * wi, ty * wi + x0);
        }
        let mut tx: i32 = x0;
        while tx < x1
            invariant
                dst_w > 0,
                dst_h > 0,
                dst_w * dst_h * 4 <= i32::MAX,
                wi == dst_w,
                hi == dst_h,
                n == wi * hi,
                dst@.len() == dst_w * dst_h * 4,
                start.len() == n,
                ui.wf(),
                held == ui.pixels@.len(),
                x0 == num::int_max(ui.x as int, 0),
                y0 == num::int_max(ui.y as int, 0),
                x1 == num::int_min(ui.x + ui.w, wi),
                y1 == num::int_min(ui.y + ui.h, hi),
                x0 <= tx <= x1,
                y0 <= ty < y1,
                target == composited(start, wi, *ui),
                pixels_of(dst@) == progress(start, target, ty * wi + tx),
            decreases x1 - tx,
        {
            let sx: i64 = tx as i64 - ui.x as i64;
            let sy: i64 = ty as i64 - ui.y as i64;
            proof {
                lemma_row_in(wi, hi, tx as int, ty as int);
                lemma_row_column(wi, tx as int, ty as int);
                lemma_row_in(ui.w as int, ui.h as int, sx as int, sy as int);
                assert(0 <= ty * wi && 0 <= sy * ui.w) by (nonlinear_arith)
                    requires
                        0 <= ty,
                        wi > 0,
                        0 <= sy,
                        0 <= ui.w,
                ;
            }
            let p: usize = (ty as i64 * dst_w as i64 + tx as i64) as usize;
            let q: usize = sy as usize * ui.w as usize + sx as usize;
            let s: (u8, u8, u8, u8) = read_pixel(&ui.pixels, q);
            let d: (u8, u8, u8, u8) = read_pixel(dst, p);
            assert(d == start[p as int]);
            let v: (u8, u8, u8, u8) = blend_pixel(s, d, ui.stencil);
            assert(v == target[p as int]);
            write_pixel(dst, p, v);
            proof {
                lemma_progress_step(start, target, p as int);
            }
            tx = tx + 1;
        }
        proof {
            assert forall|p: int|
                ty * wi + x1 <= p < ty * wi + wi && 0 <= p < start.len() implies #[trigger] target[p]
                == start[p] by {
                lemma_row_column(wi, p - ty * wi, ty as int);
            }
            lemma_progress_skip(start, target, ty * wi + x1, ty * wi + wi);
            assert((ty + 1) * wi == ty * wi + wi) by (nonlinear_arith);
        }
        ty = ty + 1;
    }
    proof {
        assert(y1 * wi <= n) by (nonlinear_arith)
            requires
                n == wi * hi,
                y1 <= hi,
                wi > 0,
        ;
        assert forall|p: int| y1 * wi <= p < n && 0 <= p < start.len() implies #[trigger] target[p]
            == start[p] by {
            lemma_row_after(wi, p, y1 as int);
            lemma_rows_below(wi, hi, p);
        }
        lemma_progress_skip(start, target, y1 * wi, n);
        lemma_progress_ends(start, target);
    }
}

// ===== Colors and text =====

/// Reads "#RRGGBB" into (red, green, blue); what is no number counts as zero.
pub fn parse_color(hex: &str) -> (r: (u8, u8, u8))
    requires
        color::is_color_text(hex@),
    ensures
        r == color::color_of(hex@, 0),
{
    read_color(hex, 0)
}

/// The size that a text takes up: the extent that was measured of it and a
/// margin. Without content, or where nothing could be measured, it is (2, 2).
pub fn measure_text_size(content: &str, extent: Option<(i32, i32)>) -> (r: (i32, i32))
    requires
        match extent {
            Some(e) => e.0 <= i32::MAX - 4 && e.1 <= i32::MAX - 4,
            None => true,
        },
    ensures
        match extent {
            Some(e) => if content@.len() == 0 {
                r == (2i32, 2i32)
            } else {
                r.0 == e.0 + 4 && r.1 == e.1 + 4
            },
            None => r == (2i32, 2i32),
        },
{
    let c: Vec<char> = chars_of(content);
    if c.len() == 0 {
        return (2, 2);
    }
    match extent {
        Some(e) => (e.0 + 4, e.1 + 4),
        None => (2, 2),
    }
}

// ===== Frames and backgrounds =====

/// Whether a pixel lies inside a rounded rectangle of size (w, h) with the
/// corner radius `r`.
pub open spec fn in_rounded(px: int, py: int, w: int, h: int, r: int) -> bool {
    let cx = if px < r { r } else { w - r - 1 };
    let cy = if py < r { r } else { h - r - 1 };
    ||| r <= 0
    ||| r <= px < w - r
    ||| r <= py < h - r
    ||| (px - cx) * (px - cx) + (py - cy) * (py - cy) <= r * r
}

/// Whether a pixel lies inside a rounded rectangle.
pub fn is_in_rounded_rect(px: i32, py: i32, w: i32, h: i32, r: i32) -> (b: bool)
    ensures
        b == in_rounded(px as int, py as int, w as int, h as int, r as int),
{
    if r <= 0 {
        return true;
    }
    if px >= r && (px as i64) < w as i64 - r as i64 {
        return true;
    }
    if py >= r && (py as i64) < h as i64 - r as i64 {
        return true;
    }
    let cx: i128 = if px < r { r as i128 } else { w as i128 - r as i128 - 1 };
    let cy: i128 = if py < r { r as i128 } else { h as i128 - r as i128 - 1 };
    let dx: i128 = px as i128 - cx;
    let dy: i128 = py as i128 - cy;
    let rr: i128 = r as i128;
    proof {
        lemma_square(dx as int);
        lemma_square(dy as int);
        lemma_square(rr as int);
    }
    dx * dx + dy * dy <= rr * rr
}

proof fn lemma_square(v: int)
    requires
        -0x10_0000_0000 <= v <= 0x10_0000_0000,
    ensures
        0 <= v * v <= 0x10_0000_0000 * 0x10_0000_0000,
{
    assert(0 <= v * v <= 0x10_0000_0000 * 0x10_0000_0000) by (nonlinear_arith)
        requires
            -0x10_0000_0000 <= v <= 0x10_0000_0000,
    ;
}

/// The pixel of a color (red, green, blue) multiplied by an alpha.
pub open spec fn shade(c: (u8, u8, u8), alpha: int) -> Pixel {
    (premul(c.2, alpha), premul(c.1, alpha), premul(c.0, alpha), alpha as u8)
}

fn shade_pixel(c: (u8, u8, u8), alpha: u8) -> (r: (u8, u8, u8, u8))
    ensures
        r == shade(c, alpha as int),
{
    (premultiply(c.2, alpha), premultiply(c.1, alpha), premultiply(c.0, alpha), alpha)
}

/// A rectangle of size (w, h) whose pixels inside the shape have a color.
pub open spec fn filled(w: int, h: int, inside: spec_fn(int, int) -> bool, c: Pixel) -> Seq<Pixel> {
    Seq::new((w * h) as nat, |p: int| if inside(p % w, p / w) { c } else { (0u8, 0u8, 0u8, 0u8) })
}

/// Whether a pixel lies on the border of a rounded rectangle: inside of it, but
/// not inside the rectangle that is smaller by the border width on each side.
pub open spec fn on_border(px: int, py: int, w: int, h: int, r: int, bw: int) -> bool {
    in_rounded(px, py, w, h, r) && !(bw <= px < w - bw && bw <= py < h - bw && in_rounded(
        px - bw,
        py - bw,
        w - bw * 2,
        h - bw * 2,
        num::int_max(r, 0),
    ))
}

fn border_pixel(px: i32, py: i32, w: i32, h: i32, r: i32, bw: i32) -> (b: bool)
    requires
        0 <= px < w,
        0 <= py < h,
    ensures
        b == on_border(px as int, py as int, w as int, h as int, r as int, bw as int),
{
    if !is_in_rounded_rect(px, py, w, h, r) {
        return false;
    }
    if !(bw <= px && (px as i64) < w as i64 - bw as i64 && bw <= py && (py as i64) < h as i64
        - bw as i64) {
        return true;
    }
    if bw < 0 {
        return !wide_rounded(
            px as i64 - bw as i64,
            py as i64 - bw as i64,
            w as i64 - bw as i64 * 2,
            h as i64 - bw as i64 * 2,
            num::max_i32(r, 0),
        );
    }
    !is_in_rounded_rect(px - bw, py - bw, w - bw - bw, h - bw - bw, num::max_i32(r, 0))
}

fn wide_rounded(px: i64, py: i64, w: i64, h: i64, r: i32) -> (b: bool)
    requires
        0 <= px <= 0x2_0000_0000,
        0 <= py <= 0x2_0000_0000,
        0 <= w <= 0x2_0000_0000,
        0 <= h <= 0x2_0000_0000,
    ensures
        b == in_rounded(px as int, py as int, w as int, h as int, r as int),
{
    let rl: i64 = r as i64;
    if rl <= 0 {
        return true;
    }
    if px >= rl && px < w - rl {
        return true;
    }
    if py >= rl && py < h - rl {
        return true;
    }
    let cx: i128 = if px < rl { rl as i128 } else { w as i128 - rl as i128 - 1 };
    let cy: i128 = if py < rl { rl as i128 } else { h as i128 - rl as i128 - 1 };
    let dx: i128 = px as i128 - cx;
    let dy: i128 = py as i128 - cy;
    let rr: i128 = rl as i128;
    proof {
        lemma_square(dx as int);
        lemma_square(dy as int);
        lemma_square(rr as int);
    }
    dx * dx + dy * dy <= rr * rr
}

/// Fills the pixels of a rectangle that lie inside a rounded rectangle, or on
/// its border.
fn fill_shape(w: i32, h: i32, r: i32, border: Option<i32>, c: (u8, u8, u8, u8)) -> (out: Vec<u8>)
    requires
        w >= 2,
        h >= 2,
        w * h <= i32::MAX,
    ensures
        out@.len() == w * h * 4,
        pixels_of(out@) == filled(
            w as int,
            h as int,
            |x: int, y: int|
                match border {
                    Some(bw) => on_border(x, y, w as int, h as int, r as int, bw as int),
                    None => in_rounded(x, y, w as int, h as int, r as int),
                },
            c,
        ),
{
    let ghost inside = |x: int, y: int|
        match border {
            Some(bw) => on_border(x, y, w as int, h as int, r as int, bw as int),
            None => in_rounded(x, y, w as int, h as int, r as int),
        };
    let ghost target = filled(w as int, h as int, inside, c);
    let mut out: Vec<u8> = Vec::new();
    assert(pixels_of(out@) =~= target.take(0));
    let total: i32 = w * h;
    let mut i: i32 = 0;
    while i < total
        invariant
            w >= 2,
            h >= 2,
            w * h <= i32::MAX,
            total == w * h,
            0 <= i <= total,
            inside == (|x: int, y: int|
                match border {
                    Some(bw) => on_border(x, y, w as int, h as int, r as int, bw as int),
                    None => in_rounded(x, y, w as int, h as int, r as int),
                }),
            target == filled(w as int, h as int, inside, c),
            target.len() == total,
            out@.len() == 4 * i,
            pixels_of(out@) == target.take(i as int),
        decreases total - i,
    {
        let px: i32 = i % w;
        let py: i32 = i / w;
        proof {
            lemma_rows_below(w as int, h as int, i as int);
            lemma_split(w as int, i as int);
        }
        let inn: bool = match border {
            Some(bw) => border_pixel(px, py, w, h, r, bw),
            None => is_in_rounded_rect(px, py, w, h, r),
        };
        assert(inn == inside(i as int % w as int, i as int / w as int));
        let v: (u8, u8, u8, u8) = if inn { c } else { (0, 0, 0, 0) };
        assert(v == target[i as int]);
        push_pixel(&mut out, v);
        assert(target.take(i + 1) =~= target.take(i as int).push(v));
        i = i + 1;
    }
    assert(target.take(total as int) =~= target);
    out
}

/// The size of a frame or background: two pixels at least.
pub open spec fn shape_size(w: i32, h: i32) -> (int, int) {
    (num::int_max(w as int, 2), num::int_max(h as int, 2))
}

/// Renders a background element: a filled rounded rectangle. `alpha` is its
/// opacity as a byte.
pub fn render_background_gdi(b: &BackgroundElement, alpha: u8) -> (r: Result<RenderedUi, String>)
    requires
        color::is_color_text(b.color@),
        shape_size(b.width, b.height).0 * shape_size(b.width, b.height).1 <= i32::MAX,
    ensures
        match r {
            Ok(ui) => {
                let s = shape_size(b.width, b.height);
                &&& ui.wf()
                &&& (ui.w as int, ui.h as int) == s
                &&& pixels_of(ui.pixels@) == filled(
                    s.0,
                    s.1,
                    |x: int, y: int| in_rounded(x, y, s.0, s.1, config::signed(b.corner_radius)),
                    shade(color::color_of(b.color@, 0), alpha as int),
                )
                &&& ui.x == b.x
                &&& ui.y == b.y
                &&& ui.z_order == b.z_order
                &&& ui.rotate == b.rotate
                &&& !ui.stencil
            },
            Err(e) => false,
        },
{
    let w: i32 = num::max_i32(b.width, 2);
    let h: i32 = num::max_i32(b.height, 2);
    let c: (u8, u8, u8, u8) = shade_pixel(parse_color(b.color.as_str()), alpha);
    let cr: i32 = as_signed(b.corner_radius);
    let pixels: Vec<u8> = fill_shape(w, h, cr, None, c);
    proof {
        let s = shape_size(b.width, b.height);
        let f = |x: int, y: int| in_rounded(x, y, s.0, s.1, config::signed(b.corner_radius));
        assert(pixels_of(pixels@) =~= filled(s.0, s.1, f, c));
    }
    Ok(
        RenderedUi {
            pixels,
            w: w as u32,
            h: h as u32,
            x: b.x,
            y: b.y,
            z_order: b.z_order,
            rotate: b.rotate,
            stencil: false,
        },
    )
}

fn as_signed(v: u32) -> (r: i32)
    ensures
        r == config::signed(v),
{
    if v >= 0x8000_0000 {
        (v as i64 - 0x1_0000_0000) as i32
    } else {
        v as i32
    }
}

/// The border width of a frame: one pixel at least.
pub open spec fn border_of(width: u32) -> int {
    config::signed(num::int_max(width as int, 1) as u32)
}

/// Renders a frame element: an outlined rounded rectangle, transparent inside.
/// `alpha` is its opacity as a byte.
pub fn render_frame_gdi(f: &FrameElement, alpha: u8) -> (r: Result<RenderedUi, String>)
    requires
        color::is_color_text(f.border_color@),
        shape_size(f.width, f.height).0 * shape_size(f.width, f.height).1 <= i32::MAX,
    ensures
        match r {
            Ok(ui) => {
                let s = shape_size(f.width, f.height);
                &&& ui.wf()
                &&& (ui.w as int, ui.h as int) == s
                &&& pixels_of(ui.pixels@) == filled(
                    s.0,
                    s.1,
                    |x: int, y: int|
                        on_border(
                            x,
                            y,
                            s.0,
                            s.1,
                            config::signed(f.corner_radius),
                            border_of(f.border_width),
                        ),
                    shade(color::color_of(f.border_color@, 0), alpha as int),
                )
                &&& ui.x == f.x
                &&& ui.y == f.y
                &&& ui.z_order == f.z_order
                &&& ui.rotate == f.rotate
                &&& !ui.stencil
            },
            Err(e) => false,
        },
{
    let w: i32 = num::max_i32(f.width, 2);
    let h: i32 = num::max_i32(f.height, 2);
    let c: (u8, u8, u8, u8) = shade_pixel(parse_color(f.border_color.as_str()), alpha);
    let cr: i32 = as_signed(f.corner_radius);
    let bw: i32 = as_signed(if f.border_width >= 1 { f.border_width } else { 1 });
    let pixels: Vec<u8> = fill_shape(w, h, cr, Some(bw), c);
    proof {
        let s = shape_size(f.width, f.height);
        let g = |x: int, y: int|
            on_border(
                x,
                y,
                s.0,
                s.1,
                config::signed(f.corner_radius),
                border_of(f.border_width),
            );
        assert(pixels_of(pixels@) =~= filled(s.0, s.1, g, c));
    }
    Ok(
        RenderedUi {
            pixels,
            w: w as u32,
            h: h as u32,
            x: f.x,
            y: f.y,
            z_order: f.z_order,
            rotate: f.rotate,
            stencil: false,
        },
    )
}

// ===== Images and texts =====

/// A pixel that is multiplied by its alpha, multiplied by an opacity.
pub open spec fn faded(c: Pixel, opacity: int) -> Pixel {
    if c.3 == 0 {
        c
    } else {
        (
            premul(c.0, opacity),
            premul(c.1, opacity),
            premul(c.2, opacity),
            premul(c.3, opacity),
        )
    }
}

fn fade_pixel(c: (u8, u8, u8, u8), opacity: u8) -> (r: (u8, u8, u8, u8))
    ensures
        r == faded(c, opacity as int),
{
    if c.3 == 0 {
        c
    } else {
        (
            premultiply(c.0, opacity),
            premultiply(c.1, opacity),
            premultiply(c.2, opacity),
            premultiply(c.3, opacity),
        )
    }
}

/// A pixel (red, green, blue, alpha) multiplied by its alpha.
pub open spec fn from_rgba(c: Pixel) -> Pixel {
    shade((c.0, c.1, c.2), c.3 as int)
}

/// The size that an image is shown in: its own where it is set, else that of
/// the picture.
pub open spec fn image_size(img: ImageElement, pic: Picture) -> (int, int) {
    (
        if img.width > 0 { img.width as int } else { pic.w as int },
        if img.height > 0 { img.height as int } else { pic.h as int },
    )
}

/// The pixels (red, green, blue, alpha) that an image is made of: those of the
/// picture in its size, else the resampled ones.
pub open spec fn image_source(img: ImageElement, pic: Picture, scaled: Seq<u8>) -> Seq<u8> {
    if image_size(img, pic) == (pic.w as int, pic.h as int) {
        pic.rgba@
    } else {
        scaled
    }
}

/// Renders an image element from its decoded picture. `scaled` holds the
/// picture resampled to the size of the element, four bytes for each pixel; it
/// is read where that size is not the picture's. `opacity` is the opacity of
/// the element as a byte.
pub fn render_image(img: &ImageElement, pic: &Picture, scaled: &Vec<u8>, opacity: u8) -> (r: Result<
    RenderedUi,
    String,
>)
    requires
        image_size(*img, *pic).0 <= i32::MAX,
        image_size(*img, *pic).1 <= i32::MAX,
        image_source(*img, *pic, scaled@).len() == image_size(*img, *pic).0 * image_size(
            *img,
            *pic,
        ).1 * 4,
    ensures
        match r {
            Ok(ui) => {
                let s = image_size(*img, *pic);
                let src = pixels_of(image_source(*img, *pic, scaled@));
                &&& ui.wf()
                &&& (ui.w as int, ui.h as int) == s
                &&& pixels_of(ui.pixels@) == Seq::new(
                    src.len(),
                    |p: int| faded(from_rgba(src[p]), opacity as int),
                )
                &&& ui.x == img.x
                &&& ui.y == img.y
                &&& ui.z_order == img.z_order
                &&& ui.rotate == img.rotate
                &&& !ui.stencil
            },
            Err(e) => false,
        },
{
    let dw: u32 = if img.width > 0 { img.width as u32 } else { pic.w };
    let dh: u32 = if img.height > 0 { img.height as u32 } else { pic.h };
    let src: &Vec<u8> = if dw == pic.w && dh == pic.h {
        &pic.rgba
    } else {
        scaled
    };
    let ghost sp = pixels_of(src@);
    let ghost target = Seq::new(sp.len(), |p: int| faded(from_rgba(sp[p]), opacity as int));
    let mut pixels: Vec<u8> = Vec::new();
    assert(pixels_of(pixels@) =~= target.take(0));
    let n: usize = src.len() / 4;
    for i in 0..n
        invariant
            n == src@.len() / 4,
            sp == pixels_of(src@),
            target == Seq::new(sp.len(), |p: int| faded(from_rgba(sp[p]), opacity as int)),
            pixels@.len() == 4 * i,
            pixels_of(pixels@) == target.take(i as int),
    {
        let c: (u8, u8, u8, u8) = read_pixel(src, i);
        let v: (u8, u8, u8, u8) = fade_pixel(shade_pixel((c.0, c.1, c.2), c.3), opacity);
        assert(v == target[i as int]);
        push_pixel(&mut pixels, v);
        assert(target.take(i + 1) =~= target.take(i as int).push(v));
    }
    assert(target.take(n as int) =~= target);
    Ok(
        RenderedUi {
            pixels,
            w: dw,
            h: dh,
            x: img.x,
            y: img.y,
            z_order: img.z_order,
            rotate: img.rotate,
            stencil: false,
        },
    )
}

/// Whether a text is written in a color; without one it is cut out of what lies
/// below.
pub open spec fn has_text_color(t: TextElement) -> bool {
    text::trim(t.text_color@).len() > 0
}

/// The pixel of a text where its strokes cover a pixel by `cov`.
pub open spec fn text_pixel(t: TextElement, cov: u8) -> Pixel {
    if cov == 0 {
        (0, 0, 0, 0)
    } else if has_text_color(t) {
        shade(color::color_of(t.text_color@, 0), cov as int)
    } else {
        (0, 0, 0, cov)
    }
}

/// The size of the buffer that a text is drawn in: the extent that was measured
/// of it and a margin, two pixels at least.
pub fn text_buffer_size(extent: (i32, i32)) -> (r: (i32, i32))
    requires
        extent.0 <= i32::MAX - 4,
        extent.1 <= i32::MAX - 4,
    ensures
        r.0 == num::int_max(extent.0 + 4, 2),
        r.1 == num::int_max(extent.1 + 4, 2),
{
    (num::max_i32(extent.0 + 4, 2), num::max_i32(extent.1 + 4, 2))
}

/// Renders a text element from its drawing: white strokes on black, of which
/// the first byte of each pixel is the coverage. `opacity` is the opacity of the
/// element as a byte.
pub fn render_text(t: &TextElement, w: u32, h: u32, drawn: &Vec<u8>, opacity: u8) -> (r: Result<
    RenderedUi,
    String,
>)
    requires
        w <= i32::MAX,
        h <= i32::MAX,
        drawn@.len() == w * h * 4,
        has_text_color(*t) ==> color::is_color_text(t.text_color@),
    ensures
        match r {
            Ok(ui) => {
                &&& ui.wf()
                &&& ui.w == w
                &&& ui.h == h
                &&& pixels_of(ui.pixels@) == Seq::new(
                    drawn@.len() / 4,
                    |p: int| faded(text_pixel(*t, drawn@[4 * p]), opacity as int),
                )
                &&& ui.x == t.x
                &&& ui.y == t.y
                &&& ui.z_order == t.z_order
                &&& ui.rotate == t.rotate
                &&& ui.stencil == !has_text_color(*t)
            },
            Err(e) => false,
        },
{
    let raw: Vec<char> = chars_of(t.text_color.as_str());
    let trimmed: Vec<char> = trim_chars(&raw);
    let colored: bool = trimmed.len() > 0;
    let color: (u8, u8, u8) = if colored {
        parse_color(t.text_color.as_str())
    } else {
        (0, 0, 0)
    };
    let ghost target = Seq::new(
        drawn@.len() / 4,
        |p: int| faded(text_pixel(*t, drawn@[4 * p]), opacity as int),
    );
    let mut pixels: Vec<u8> = Vec::new();
    assert(pixels_of(pixels@) =~= target.take(0));
    let total: usize = drawn.len();
    let n: usize = total / 4;
    for i in 0..n
        invariant
            total == drawn@.len(),
            n == total / 4,
            colored == has_text_color(*t),
            colored ==> color == color::color_of(t.text_color@, 0),
            target == Seq::new(
                drawn@.len() / 4,
                |p: int| faded(text_pixel(*t, drawn@[4 * p]), opacity as int),
            ),
            pixels@.len() == 4 * i,
            pixels_of(pixels@) == target.take(i as int),
    {
        let cov: u8 = drawn[i * 4];
        let c: (u8, u8, u8, u8) = if cov == 0 {
            (0, 0, 0, 0)
        } else if colored {
            shade_pixel(color, cov)
        } else {
            (0, 0, 0, cov)
        };
        let v: (u8, u8, u8, u8) = fade_pixel(c, opacity);
        assert(v == target[i as int]);
        push_pixel(&mut pixels, v);
        assert(target.take(i + 1) =~= target.take(i as int).push(v));
    }
    assert(target.take(n as int) =~= target);
    Ok(
        RenderedUi {
            pixels,
            w,
            h,
            x: t.x,
            y: t.y,
            z_order: t.z_order,
            rotate: t.rotate,
            stencil: !colored,
        },
    )
}

// ===== Order =====

/// The render orders of a list of elements.
pub open spec fn ui_orders(v: Seq<RenderedUi>) -> Seq<i64> {
    v.map_values(|u: RenderedUi| u.z_order as i64)
}

/// The rendered elements in render order.
pub open spec fn ui_sorted(v: Seq<RenderedUi>) -> Seq<RenderedUi> {
    zorder::in_order(ui_orders(v)).map_values(|i: int| v[i])
}

/// Puts the elements that were rendered into render order.
pub fn prerender_ui(rendered: Vec<RenderedUi>) -> (r: Vec<RenderedUi>)
    ensures
        r@ == ui_sorted(rendered@),
{
    let ghost all = rendered@;
    let ghost zs = ui_orders(all);
    let ghost pick = |i: int| all[i];
    let mut rest: Vec<RenderedUi> = rendered;
    let mut out: Vec<RenderedUi> = Vec::new();
    let n: usize = rest.len();
    assert(out@ =~= zorder::first_in_order(zs, 0).map_values(pick));
    assert(rest@ =~= all.skip(0));
    for i in 0..n
        invariant
            n == all.len(),
            zs == ui_orders(all),
            pick == (|i: int| all[i]),
            rest@ == all.skip(i as int),
            out@ == zorder::first_in_order(zs, i as nat).map_values(pick),
    {
        let ui: RenderedUi = rest.remove(0);
        let ghost order = zorder::first_in_order(zs, i as nat);
        proof {
            zorder::lemma_first_in_order(zs, i as nat);
            assert(ui == all[i as int]);
            assert(rest@ =~= all.skip(i + 1));
        }
        let mut k: usize = out.len();
        while k > 0 && out[k - 1].z_order > ui.z_order
            invariant
                k <= out@.len(),
                forall|j: int| k <= j < out@.len() ==> (#[trigger] out@[j]).z_order > ui.z_order,
            decreases k,
        {
            k = k - 1;
        }
        proof {
            assert forall|j: int| 0 <= j < order.len() implies zs[#[trigger] order[j]]
                == out@[j].z_order by {
                assert(out@[j] == all[order[j]]);
            }
            zorder::lemma_insert_at(order, zs, i as int, k as int);
        }
        let ghost before = out@;
        out.insert(k, ui);
        assert(out@ =~= order.insert(k as int, i as int).map_values(pick));
    }
    out
}

// ===== Laws =====

/// Two half turns, or a quarter turn and three more, give back the picture.
pub proof fn law_turns_cancel(
    src: Seq<Pixel>,
    w: int,
    h: int,
    tilted: (int, int),
    picks: Seq<u32>,
)
    requires
        w > 0,
        h > 0,
        src.len() == w * h,
    ensures
        turned(turned(src, w, h, 180, tilted, picks), w, h, 180, tilted, picks) == src,
        turned(turned(src, w, h, 90, tilted, picks), h, w, 270, tilted, picks) == src,
        turned(turned(src, w, h, 270, tilted, picks), h, w, 90, tilted, picks) == src,
{
    assert(h * w == w * h) by (nonlinear_arith);
    let half = turned(src, w, h, 180, tilted, picks);
    let back = turned(half, w, h, 180, tilted, picks);
    assert forall|p: int| 0 <= p < src.len() implies back[p] == src[p] by {
        lemma_split(w, p);
        lemma_rows_below(w, h, p);
        let x = p % w;
        let y = p / w;
        lemma_row_in(w, h, w - 1 - x, h - 1 - y);
        lemma_row_column(w, w - 1 - x, h - 1 - y);
        assert(back[p] == half[(h - 1 - y) * w + (w - 1 - x)]);
    }
    assert(back =~= src);
    let q = turned(src, w, h, 90, tilted, picks);
    let b1 = turned(q, h, w, 270, tilted, picks);
    assert forall|p: int| 0 <= p < src.len() implies b1[p] == src[p] by {
        lemma_split(w, p);
        lemma_rows_below(w, h, p);
        let x = p % w;
        let y = p / w;
        lemma_row_in(h, w, h - 1 - y, x);
        lemma_row_column(h, h - 1 - y, x);
        assert(b1[p] == q[x * h + (h - 1 - y)]);
    }
    assert(b1 =~= src);
    let t = turned(src, w, h, 270, tilted, picks);
    let b2 = turned(t, h, w, 90, tilted, picks);
    assert forall|p: int| 0 <= p < src.len() implies b2[p] == src[p] by {
        lemma_split(w, p);
        lemma_rows_below(w, h, p);
        let x = p % w;
        let y = p / w;
        lemma_row_in(h, w, y, w - 1 - x);
        lemma_row_column(h, y, w - 1 - x);
        assert(b2[p] == t[(w - 1 - x) * h + y]);
    }
    assert(b2 =~= src);
}

/// A fully transparent pixel leaves what lies below as it is, and a fully opaque
/// one replaces it, or in stencil mode cuts it away.
pub proof fn law_blend_extremes(s: Pixel, d: Pixel)
    ensures
        s.3 == 0 ==> blended(s, d, false) == d && blended(s, d, true) == d,
        s.3 == 255 ==> blended(s, d, false) == s,
        s.3 == 255 ==> blended(s, d, true) == (0u8, 0u8, 0u8, 0u8),
{
}

proof fn lemma_over(s: u8, d: u8, sa: u8, da: u8)
    requires
        s <= sa,
        d <= da,
    ensures
        over(s, d, sa) == s + d * (255 - sa) / 255,
        over(s, d, sa) <= over(sa, da, sa),
        over(sa, da, sa) == sa + da * (255 - sa) / 255,
{
    let inv = 255 - sa;
    assert(0 <= d * inv <= da * inv && da * inv <= 255 * inv) by (nonlinear_arith)
        requires
            0 <= d <= da,
            da <= 255,
            0 <= inv,
    ;
}

proof fn lemma_keep(d: u8, da: u8, keep: int)
    requires
        d <= da,
        0 <= keep <= 255,
    ensures
        premul(d, keep) <= premul(da, keep),
{
    assert(0 <= d * keep <= da * keep && da * keep <= 255 * 255) by (nonlinear_arith)
        requires
            0 <= d <= da,
            da <= 255,
            0 <= keep <= 255,
    ;
}

/// Pixels that are multiplied by their alpha stay so when one is blended over
/// another, and no byte of the sum is cut off.
pub proof fn law_blend_keeps_premultiplied(s: Pixel, d: Pixel, stencil: bool)
    requires
        is_premultiplied(s),
        is_premultiplied(d),
    ensures
        is_premultiplied(blended(s, d, stencil)),
        !stencil && 0 < s.3 < 255 ==> blended(s, d, stencil).3 == s.3 + d.3 * (255 - s.3) / 255,
{
    lemma_over(s.0, d.0, s.3, d.3);
    lemma_over(s.1, d.1, s.3, d.3);
    lemma_over(s.2, d.2, s.3, d.3);
    lemma_keep(d.0, d.3, 255 - s.3);
    lemma_keep(d.1, d.3, 255 - s.3);
    lemma_keep(d.2, d.3, 255 - s.3);
}

/// What the renderers make of a color, a picture's pixel and the coverage of a
/// text is multiplied by its alpha.
pub proof fn law_rendered_pixels_are_premultiplied(
    c: (u8, u8, u8),
    p: Pixel,
    t: TextElement,
    cov: u8,
    alpha: u8,
)
    ensures
        is_premultiplied(shade(c, alpha as int)),
        is_premultiplied(faded(from_rgba(p), alpha as int)),
        is_premultiplied(faded(text_pixel(t, cov), alpha as int)),
{
    pixels::law_premul(c.0, alpha);
    pixels::law_premul(c.1, alpha);
    pixels::law_premul(c.2, alpha);
    let q = from_rgba(p);
    pixels::law_premul(p.0, p.3);
    pixels::law_premul(p.1, p.3);
    pixels::law_premul(p.2, p.3);
    lemma_keep(q.0, q.3, alpha as int);
    lemma_keep(q.1, q.3, alpha as int);
    lemma_keep(q.2, q.3, alpha as int);
    let k = color::color_of(t.text_color@, 0);
    pixels::law_premul(k.0, cov);
    pixels::law_premul(k.1, cov);
    pixels::law_premul(k.2, cov);
    let u = text_pixel(t, cov);
    lemma_keep(u.0, u.3, alpha as int);
    lemma_keep(u.1, u.3, alpha as int);
    lemma_keep(u.2, u.3, alpha as int);
}

/// Outside of an element the window stays as it is.
pub proof fn law_composite_outside(
    start: Seq<Pixel>,
    w: int,
    h: int,
    ui: RenderedUi,
    x: int,
    y: int,
)
    requires
        0 <= x < w,
        0 <= y < h,
        start.len() == w * h,
        !(ui.x <= x < ui.x + ui.w && ui.y <= y < ui.y + ui.h),
    ensures
        composited(start, w, ui)[y * w + x] == start[y * w + x],
{
    lemma_row_in(w, h, x, y);
    lemma_row_column(w, x, y);
}

proof fn lemma_whole_shares(d: u8, share: int)
    ensures
        share == 255 ==> d * share / 255 == d,
        share == 0 ==> d * share / 255 == 0,
{
    assert(share == 255 ==> d * share == 255 * d) by (nonlinear_arith);
    assert(share == 0 ==> d * share == 0) by (nonlinear_arith);
}

/// Blending lays the source over what lies below: of pixels that are multiplied
/// by their alpha, every channel of the result is that of the source and the
/// share of the one below that the source lets through, whatever their alphas.
pub proof fn law_blend_is_source_over(s: Pixel, d: Pixel)
    requires
        s.0 <= s.3 && s.1 <= s.3 && s.2 <= s.3,
        d.0 <= d.3 && d.1 <= d.3 && d.2 <= d.3,
    ensures
        ({
            let r = blended(s, d, false);
            &&& r.0 == s.0 + d.0 * (255 - s.3) / 255
            &&& r.1 == s.1 + d.1 * (255 - s.3) / 255
            &&& r.2 == s.2 + d.2 * (255 - s.3) / 255
            &&& r.3 == s.3 + d.3 * (255 - s.3) / 255
        }),
{
    lemma_over(s.0, d.0, s.3, d.3);
    lemma_over(s.1, d.1, s.3, d.3);
    lemma_over(s.2, d.2, s.3, d.3);
    lemma_whole_shares(d.0, 255 - s.3);
    lemma_whole_shares(d.1, 255 - s.3);
    lemma_whole_shares(d.2, 255 - s.3);
    lemma_whole_shares(d.3, 255 - s.3);
}

/// A stencil only cuts away: whatever its colors, every channel below is left
/// with the share that the alpha of the stencil lets through.
pub proof fn law_stencil_lets_a_share_through(s: Pixel, d: Pixel)
    ensures
        ({
            let r = blended(s, d, true);
            &&& r.0 == d.0 * (255 - s.3) / 255
            &&& r.1 == d.1 * (255 - s.3) / 255
            &&& r.2 == d.2 * (255 - s.3) / 255
            &&& r.3 == d.3 * (255 - s.3) / 255
        }),
{
    let keep: u8 = (255 - s.3) as u8;
    pixels::law_premul_is_a_share((d.0, d.1, d.2, d.3), keep);
    pixels::law_premul_is_a_share((d.3, d.1, d.2, d.3), keep);
    lemma_whole_shares(d.0, 255 - s.3);
    lemma_whole_shares(d.1, 255 - s.3);
    lemma_whole_shares(d.2, 255 - s.3);
    lemma_whole_shares(d.3, 255 - s.3);
}

/// Inside of an element every pixel of the window has the pixel of the element
/// that lies there blended over it.
pub proof fn law_composite_inside(
    start: Seq<Pixel>,
    w: int,
    h: int,
    ui: RenderedUi,
    x: int,
    y: int,
)
    requires
        0 <= x < w,
        0 <= y < h,
        start.len() == w * h,
        ui.pixels@.len() == ui.w * ui.h * 4,
        ui.x <= x < ui.x + ui.w,
        ui.y <= y < ui.y + ui.h,
    ensures
        ({
            let i = (y - ui.y) * ui.w + (x - ui.x);
            let s = (
                ui.pixels@[4 * i],
                ui.pixels@[4 * i + 1],
                ui.pixels@[4 * i + 2],
                ui.pixels@[4 * i + 3],
            );
            composited(start, w, ui)[y * w + x] == blended(s, start[y * w + x], ui.stencil)
        }),
{
    lemma_row_in(w, h, x, y);
    lemma_row_column(w, x, y);
    lemma_row_in(ui.w as int, ui.h as int, x - ui.x, y - ui.y);
}

/// A turn by right angles clockwise moves the pixel at (x, y) to its one place:
/// by a quarter to column h - 1 - y of row x, by a half to the opposite corner,
/// by three quarters to column y of row w - 1 - x. Full circles change nothing.
pub proof fn law_turn_moves_pixels(
    src: Seq<Pixel>,
    w: int,
    h: int,
    deg: int,
    tilted: (int, int),
    picks: Seq<u32>,
    x: int,
    y: int,
)
    requires
        0 <= x < w,
        0 <= y < h,
        src.len() == w * h,
    ensures
        ({
            let t = turned(src, w, h, deg, tilted, picks);
            let c = src[y * w + x];
            &&& deg % 360 == 0 ==> t == src
            &&& deg % 360 == 90 ==> t.len() == src.len() && t[x * h + (h - 1 - y)] == c
            &&& deg % 360 == 180 ==> t.len() == src.len() && t[(h - 1 - y) * w + (w - 1 - x)] == c
            &&& deg % 360 == 270 ==> t.len() == src.len() && t[(w - 1 - x) * h + y] == c
        }),
{
    assert(h * w == w * h) by (nonlinear_arith);
    lemma_row_in(w, h, w - 1 - x, h - 1 - y);
    lemma_row_column(w, w - 1 - x, h - 1 - y);
    lemma_row_in(h, w, h - 1 - y, x);
    lemma_row_column(h, h - 1 - y, x);
    lemma_row_in(h, w, y, w - 1 - x);
    lemma_row_column(h, y, w - 1 - x);
}

/// At any other angle each pixel of the box shows the source pixel that was
/// picked for it, and nothing where none was.
pub proof fn law_tilt_shows_picked_pixels(
    src: Seq<Pixel>,
    w: int,
    h: int,
    deg: int,
    tilted: (int, int),
    picks: Seq<u32>,
    p: int,
)
    requires
        deg % 90 != 0,
        0 < tilted.0,
        0 < tilted.1,
        0 <= p < tilted.0 * tilted.1,
    ensures
        ({
            let t = turned(src, w, h, deg, tilted, picks);
            &&& t.len() == tilted.0 * tilted.1
            &&& p < picks.len() && picks[p] < src.len() ==> t[p] == src[picks[p] as int]
            &&& p >= picks.len() || picks[p] >= src.len() ==> t[p] == (0u8, 0u8, 0u8, 0u8)
        }),
{
    assert(deg % 360 != 0 && deg % 360 != 90 && deg % 360 != 180 && deg % 360 != 270);
}

/// A rounded rectangle is the same from all four corners, holds everything that
/// is not in a corner, and of a corner what lies within the radius around the
/// center of its circle.
pub proof fn law_rounded_corners(px: int, py: int, w: int, h: int, r: int)
    requires
        0 <= px < w,
        0 <= py < h,
        2 * r <= w,
        2 * r <= h,
    ensures
        in_rounded(w - 1 - px, py, w, h, r) == in_rounded(px, py, w, h, r),
        in_rounded(px, h - 1 - py, w, h, r) == in_rounded(px, py, w, h, r),
        r <= px < w - r || r <= py < h - r ==> in_rounded(px, py, w, h, r),
        px < r && py < r ==> in_rounded(px, py, w, h, r) == ((r - px) * (r - px) + (r - py) * (r
            - py) <= r * r),
{
    assert((r - px) * (r - px) == (px - r) * (px - r)) by (nonlinear_arith);
    assert((r - py) * (r - py) == (py - r) * (py - r)) by (nonlinear_arith);
    let x = w - 1 - px;
    let y = h - 1 - py;
    let c = w - r - 1;
    let d = h - r - 1;
    assert((x - r) * (x - r) == (px - c) * (px - c)) by (nonlinear_arith)
        requires
            x - r == -(px - c),
    ;
    assert((x - c) * (x - c) == (px - r) * (px - r)) by (nonlinear_arith)
        requires
            x - c == -(px - r),
    ;
    assert((y - r) * (y - r) == (py - d) * (py - d)) by (nonlinear_arith)
        requires
            y - r == -(py - d),
    ;
    assert((y - d) * (y - d) == (py - r) * (py - r)) by (nonlinear_arith)
        requires
            y - d == -(py - r),
    ;
}

/// Without a radius a rounded rectangle is the whole rectangle, and its border
/// is what lies within the border width of an edge.
pub proof fn law_square_corners(px: int, py: int, w: int, h: int, bw: int)
    requires
        0 <= px < w,
        0 <= py < h,
        0 <= bw,
    ensures
        in_rounded(px, py, w, h, 0),
        on_border(px, py, w, h, 0, bw) == (px < bw || py < bw || px >= w - bw || py >= h - bw),
{
}

/// A border is part of its shape. Within the border width of an edge the whole
/// shape is border; further in it is border only where a corner with the same
/// radius, moved in by the border width, does not reach.
pub proof fn law_border_follows_the_shape(px: int, py: int, w: int, h: int, r: int, bw: int)
    requires
        0 <= px < w,
        0 <= py < h,
        0 <= bw,
        0 <= r,
        2 * (bw + r) <= w,
        2 * (bw + r) <= h,
    ensures
        on_border(px, py, w, h, r, bw) ==> in_rounded(px, py, w, h, r),
        px < bw || py < bw || px >= w - bw || py >= h - bw ==> on_border(px, py, w, h, r, bw)
            == in_rounded(px, py, w, h, r),
        bw + r <= px < w - bw - r && bw <= py < h - bw ==> !on_border(px, py, w, h, r, bw),
        bw <= px < w - bw && bw + r <= py < h - bw - r ==> !on_border(px, py, w, h, r, bw),
        bw <= px < bw + r && bw <= py < bw + r && in_rounded(px, py, w, h, r) ==> on_border(
            px,
            py,
            w,
            h,
            r,
            bw,
        ) == ((bw + r - px) * (bw + r - px) + (bw + r - py) * (bw + r - py) > r * r),
        on_border(w - 1 - px, py, w, h, r, bw) == on_border(px, py, w, h, r, bw),
        on_border(px, h - 1 - py, w, h, r, bw) == on_border(px, py, w, h, r, bw),
{
    law_rounded_corners(px, py, w, h, r);
    if bw <= px < w - bw && bw <= py < h - bw {
        law_rounded_corners(px - bw, py - bw, w - bw * 2, h - bw * 2, r);
        assert(w - bw * 2 - 1 - (px - bw) == w - 1 - px - bw);
        assert(h - bw * 2 - 1 - (py - bw) == h - 1 - py - bw);
    }
    let a = r - (px - bw);
    let b = r - (py - bw);
    assert(a == bw + r - px && b == bw + r - py);
}

/// A shape that is filled has its color at every pixel inside of it, and nothing
/// elsewhere.
pub proof fn law_filled_shape(
    w: int,
    h: int,
    inside: spec_fn(int, int) -> bool,
    c: Pixel,
    x: int,
    y: int,
)
    requires
        0 <= x < w,
        0 <= y < h,
    ensures
        filled(w, h, inside, c).len() == w * h,
        inside(x, y) ==> filled(w, h, inside, c)[y * w + x] == c,
        !inside(x, y) ==> filled(w, h, inside, c)[y * w + x] == (0u8, 0u8, 0u8, 0u8),
{
    lemma_row_in(w, h, x, y);
    lemma_row_column(w, x, y);
}

/// A frame or background is as large as it is set, but not below two pixels; a
/// border is as wide as it is set, but not below one.
pub proof fn law_least_sizes(w: i32, h: i32, border: u32)
    requires
        border < 0x8000_0000,
    ensures
        w >= 2 ==> shape_size(w, h).0 == w,
        w < 2 ==> shape_size(w, h).0 == 2,
        h >= 2 ==> shape_size(w, h).1 == h,
        h < 2 ==> shape_size(w, h).1 == 2,
        border >= 1 ==> border_of(border) == border,
        border == 0 ==> border_of(border) == 1,
{
}

/// A color (red, green, blue) becomes a pixel in the order blue, green, red, with
/// each channel multiplied by the alpha, and so does a pixel of a picture, by its
/// own alpha. Fading multiplies all four bytes.
pub proof fn law_colors_become_pixels(c: (u8, u8, u8), p: Pixel, alpha: u8)
    ensures
        ({
            let q = shade(c, alpha as int);
            &&& q.0 == c.2 * alpha / 255
            &&& q.1 == c.1 * alpha / 255
            &&& q.2 == c.0 * alpha / 255
            &&& q.3 == alpha
        }),
        ({
            let q = from_rgba(p);
            &&& q.0 == p.2 * p.3 / 255
            &&& q.1 == p.1 * p.3 / 255
            &&& q.2 == p.0 * p.3 / 255
            &&& q.3 == p.3
        }),
        p.3 != 0 ==> ({
            let q = faded(p, alpha as int);
            &&& q.0 == p.0 * alpha / 255
            &&& q.1 == p.1 * alpha / 255
            &&& q.2 == p.2 * alpha / 255
            &&& q.3 == p.3 * alpha / 255
        }),
        p.3 == 0 ==> faded(p, alpha as int) == p,
{
    pixels::law_premul_is_a_share((c.2, c.1, c.0, 0), alpha);
    pixels::law_premul_is_a_share((p.2, p.1, p.0, 0), p.3);
    pixels::law_premul_is_a_share(p, alpha);
    pixels::law_premul_is_a_share((p.3, 0, 0, 0), alpha);
}

/// A text has its color where its strokes are, as far as they cover the pixel;
/// without a color it has no color channels, and the coverage says how much is
/// cut out.
pub proof fn law_text_pixels(t: TextElement, cov: u8)
    ensures
        cov == 0 ==> text_pixel(t, cov) == (0u8, 0u8, 0u8, 0u8),
        text_pixel(t, cov).3 == cov,
        has_text_color(t) ==> ({
            let c = color::color_of(t.text_color@, 0);
            let p = text_pixel(t, cov);
            &&& p.0 == c.2 * cov / 255
            &&& p.1 == c.1 * cov / 255
            &&& p.2 == c.0 * cov / 255
        }),
        !has_text_color(t) ==> text_pixel(t, cov) == (0u8, 0u8, 0u8, cov),
        has_text_color(t) == exists|i: int|
            0 <= i < t.text_color@.len() && !text::is_white(#[trigger] t.text_color@[i]),
{
    let c = color::color_of(t.text_color@, 0);
    pixels::law_premul_is_a_share((c.2, c.1, c.0, 0), cov);
    lemma_whole_shares(c.0, cov as int);
    lemma_whole_shares(c.1, cov as int);
    lemma_whole_shares(c.2, cov as int);
    text::lemma_trim_empty(t.text_color@);
}

/// An image is shown in the size that is set for it, side by side, and where a
/// side is not set in that of the picture. In the size of the picture its own
/// pixels are shown, in any other the resampled ones.
pub proof fn law_image_sizes(img: ImageElement, pic: Picture, scaled: Seq<u8>)
    ensures
        ({
            let s = image_size(img, pic);
            &&& s.0 == (if img.width > 0 { img.width as int } else { pic.w as int })
            &&& s.1 == (if img.height > 0 { img.height as int } else { pic.h as int })
            &&& s.0 == pic.w && s.1 == pic.h ==> image_source(img, pic, scaled) == pic.rgba@
            &&& s.0 != pic.w || s.1 != pic.h ==> image_source(img, pic, scaled) == scaled
        }),
{
}

/// Elements are laid over the window from the lowest render order up, those of
/// the same order as they come, and each once. `o` says which element is laid
/// when.
pub proof fn law_elements_in_order(v: Seq<RenderedUi>) -> (o: Seq<int>)
    ensures
        ui_sorted(v).len() == v.len(),
        o.len() == v.len(),
        forall|k: int|
            0 <= k < v.len() ==> 0 <= #[trigger] o[k] < v.len() && ui_sorted(v)[k] == v[o[k]],
        forall|a: int, b: int|
            0 <= a < b < v.len() ==> v[#[trigger] o[a]].z_order < v[#[trigger] o[b]].z_order || (
            v[o[a]].z_order == v[o[b]].z_order && o[a] < o[b]),
        forall|i: int| 0 <= i < v.len() ==> #[trigger] o.contains(i),
{
    let zs = ui_orders(v);
    zorder::law_in_order(zs);
    let o = zorder::in_order(zs);
    assert forall|a: int, b: int| 0 <= a < b < v.len() implies v[#[trigger] o[a]].z_order
        < v[#[trigger] o[b]].z_order || (v[o[a]].z_order == v[o[b]].z_order && o[a] < o[b]) by {
        assert(zorder::goes_before(zs, o[a], o[b]));
    }
    o
}

} // verus!
