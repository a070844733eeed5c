//! Layout of the captured regions in the overlay window.
//!
//! The data of a region is already cropped to the region; here it is placed,
//! turned and multiplied by its opacity.

use vstd::prelude::*;

use crate::capture::RegionFrame;
use crate::config;
use crate::config::{rotated_footprint, CaptureRegion, Config, Measure};
use crate::num;
use crate::num::wrap_degrees;
use crate::opacity::Opacity;
use crate::pixels;
use crate::pixels::{
    lemma_progress_ends, lemma_progress_skip, lemma_progress_step, lemma_row_column, lemma_row_in,
    lemma_split, pixel, pixels_of, premul_pixel, premultiply, progress, write_pixel, Pixel,
};
use crate::zorder;
use crate::zorder::{index_views, sort_by_z};

verus! {

/// At most this many regions of one config are shown.
pub const MAX_REGIONS: usize = 32;

/// The source coordinate that coordinate `l` of a side of length `logical`
/// shows, in 16.16 fixed point rounded down.
pub open spec fn source_coord(l: int, src: int, logical: int) -> int {
    let scale = src * 0x10000 / num::int_max(logical, 1);
    num::int_clamp(((l + 1) * scale - 0x8000) / 0x10000, 0, src - 1)
}

/// The place in the unturned rectangle of size (lx, ly) that the place (dx, dy)
/// shows after a turn by 90, 180 or 270 degrees clockwise.
pub open spec fn unturned(deg: int, lx: int, ly: int, dx: int, dy: int) -> (int, int) {
    if deg == 90 {
        (dy, ly - 1 - dx)
    } else if deg == 180 {
        (lx - 1 - dx, ly - 1 - dy)
    } else {
        (lx - 1 - dy, dx)
    }
}

/// The pixel `i` of a buffer, if the buffer reaches that far.
pub open spec fn held_pixel(data: Seq<u8>, i: int) -> Option<Pixel> {
    if 4 * i + 3 < data.len() {
        Some(pixel(data, i))
    } else {
        None
    }
}

/// Whether an angle in `0..360` is a turn by 90, 180 or 270 degrees.
pub open spec fn is_axis_turn(deg: int) -> bool {
    deg == 90 || deg == 180 || deg == 270
}

/// The color that a region shows at (tx, ty) of the window, where it is not
/// copied row by row. At the right angles it is read from the frame; elsewhere
/// it is read from `sample`, which holds four bytes for each pixel of the
/// visible box: the color, and whether there is any.
pub open spec fn region_color(
    r: CaptureRegion,
    data: Seq<u8>,
    fw: int,
    fh: int,
    m: Measure,
    sample: Seq<u8>,
    tx: int,
    ty: int,
) -> Option<Pixel> {
    let fp = config::region_footprint(r, m);
    let s = config::logical_size(r);
    let deg = r.display.rotate as int % 360;
    let dx = tx - fp.0;
    let dy = ty - fp.1;
    if !(0 <= dx < fp.2 && 0 <= dy < fp.3) {
        None
    } else if is_axis_turn(deg) {
        let l = unturned(deg, s.0, s.1, dx, dy);
        held_pixel(data, source_coord(l.1, fh, s.1) * fw + source_coord(l.0, fw, s.0))
    } else {
        match held_pixel(sample, dy * fp.2 + dx) {
            Some(c) => if c.3 != 0 { Some(c) } else { None },
            None => None,
        }
    }
}

/// The window with the colors that `color` gives laid over it.
pub open spec fn painted(
    start: Seq<Pixel>,
    w: int,
    color: spec_fn(int, int) -> Option<Pixel>,
    alpha: int,
) -> Seq<Pixel> {
    Seq::new(
        start.len(),
        |p: int|
            match color(p % w, p / w) {
                Some(c) => premul_pixel(c, alpha),
                None => start[p],
            },
    )
}

/// `s` with `row` written from position `at` on.
pub open spec fn with_row(s: Seq<Pixel>, at: int, row: Seq<Pixel>) -> Seq<Pixel> {
    Seq::new(s.len(), |p: int| if at <= p < at + row.len() { row[p - at] } else { s[p] })
}

/// Row `k` of a frame of width `fw`, multiplied by an alpha.
pub open spec fn frame_row(data: Seq<u8>, fw: int, k: int, alpha: int) -> Seq<Pixel> {
    Seq::new(fw as nat, |i: int| premul_pixel(pixel(data, k * fw + i), alpha))
}

/// The window after the first `k` rows of a frame were copied to (x, y). A row
/// that the window or the frame does not hold is left out.
pub open spec fn copied_rows(
    start: Seq<Pixel>,
    w: int,
    h: int,
    x: int,
    y: int,
    data: Seq<u8>,
    fw: int,
    alpha: int,
    k: nat,
) -> Seq<Pixel>
    decreases k,
{
    if k == 0 {
        start
    } else {
        let s = copied_rows(start, w, h, x, y, data, fw, alpha, (k - 1) as nat);
        let ty = y + k - 1;
        if 0 <= ty < h && k * fw * 4 <= data.len() && ty * w + x + fw <= w * h {
            with_row(s, ty * w + x, frame_row(data, fw, k - 1, alpha))
        } else {
            s
        }
    }
}

/// Whether a region is copied row by row: not turned, and shown in its size.
pub open spec fn is_one_to_one(r: CaptureRegion, fw: int, fh: int) -> bool {
    r.display.rotate as int % 360 == 0 && config::logical_size(r) == (fw, fh)
}

/// The window after a region was laid over it.
pub open spec fn region_painted(
    start: Seq<Pixel>,
    w: int,
    h: int,
    r: CaptureRegion,
    f: RegionFrame<'_>,
    m: Measure,
    sample: Seq<u8>,
    alpha: u8,
) -> Seq<Pixel> {
    let fp = config::region_footprint(r, m);
    if alpha == 0 || fp.2 == 0 || fp.3 == 0 || f.w == 0 || f.h == 0 {
        start
    } else if is_one_to_one(r, f.w as int, f.h as int) {
        copied_rows(
            start,
            w,
            h,
            fp.0,
            fp.1,
            f.data@,
            f.w as int,
            alpha as int,
            f.h as nat,
        )
    } else {
        painted(
            start,
            w,
            |tx: int, ty: int|
                region_color(r, f.data@, f.w as int, f.h as int, m, sample, tx, ty),
            alpha as int,
        )
    }
}

/// What the machine's numbers ask of a region: a visible box and a frame whose
/// numbers fit, and no row to copy that would begin left of the window.
pub open spec fn renderable(r: CaptureRegion, f: RegionFrame<'_>, m: Measure, h: int) -> bool {
    let fp = config::region_footprint(r, m);
    &&& config::rect_fits(fp)
    &&& config::logical_size(r).0 >= 0
    &&& config::logical_size(r).1 >= 0
    &&& f.w <= i32::MAX
    &&& f.h <= i32::MAX
    &&& f.w * f.h * 4 <= u32::MAX
    &&& is_one_to_one(r, f.w as int, f.h as int) ==> fp.0 >= 0 || fp.1 + fp.3 <= 0 || fp.1 >= h
}

/// The sample of region `i`.
pub open spec fn nth_sample(samples: Seq<Vec<u8>>, i: int) -> Seq<u8> {
    if 0 <= i < samples.len() {
        samples[i]@
    } else {
        Seq::empty()
    }
}

/// The window after the first `k` regions in `order` were laid over it.
pub open spec fn rendered(
    start: Seq<Pixel>,
    w: int,
    h: int,
    regions: Seq<CaptureRegion>,
    frames: Seq<RegionFrame<'_>>,
    measures: Seq<Measure>,
    samples: Seq<Vec<u8>>,
    alphas: Seq<u8>,
    order: Seq<int>,
    k: nat,
) -> Seq<Pixel>
    decreases k,
{
    if k == 0 {
        start
    } else {
        let i = order[k - 1];
        region_painted(
            rendered(
                start,
                w,
                h,
                regions,
                frames,
                measures,
                samples,
                alphas,
                order,
                (k - 1) as nat,
            ),
            w,
            h,
            regions[i],
            frames[i],
            config::nth_measure(measures, i),
            nth_sample(samples, i),
            alphas[i],
        )
    }
}

/// How many regions are shown.
pub open spec fn shown(regions: int, frames: int) -> int {
    num::int_min(num::int_min(regions, 32), frames)
}

/// The render orders of the regions that are shown.
pub open spec fn shown_orders(regions: Seq<CaptureRegion>, n: int) -> Seq<i64> {
    Seq::new(n as nat, |i: int| regions[i].display.z_order as i64)
}

// ===== Execution =====

proof fn lemma_source_coord(l: int, src: int, logical: int)
    requires
        0 <= l < logical,
        1 <= src,
    ensures
        0 <= src * 0x10000 / logical,
        0 <= (l + 1) * (src * 0x10000 / logical) <= src * 0x10000,
        0 <= source_coord(l, src, logical) < src,
{
    let scale = src * 0x10000 / logical;
    vstd::arithmetic::div_mod::lemma_fundamental_div_mod(src * 0x10000, logical);
    assert(0 <= scale && logical * scale <= src * 0x10000) by (nonlinear_arith)
        requires
            src * 0x10000 == logical * scale + (src * 0x10000) % logical,
            scale == src * 0x10000 / logical,
            logical > 0,
            src >= 1,
    ;
    assert(0 <= (l + 1) * scale <= logical * scale) by (nonlinear_arith)
        requires
            0 <= l < logical,
            0 <= scale,
    ;
}

/// The source coordinate that coordinate `l` shows.
fn fixed_coord(l: i64, src: u32, logical: i32) -> (r: u32)
    requires
        0 <= l < logical,
        1 <= src <= i32::MAX,
    ensures
        r == source_coord(l as int, src as int, logical as int),
        r < src,
{
    proof {
        lemma_source_coord(l as int, src as int, logical as int);
    }
    let scale: i64 = src as i64 * 0x10000 / (logical as i64);
    let v: i64 = (l + 1) * scale - 0x8000;
    let q: i64 = v >> 16;
    assert(q == v as int / 0x10000) by {
        assert(v >> 16 == v / 0x10000) by (bit_vector);
    }
    if q < 0 {
        0
    } else if q > src as i64 - 1 {
        src - 1
    } else {
        q as u32
    }
}

proof fn lemma_index_in(x: int, y: int, w: int, h: int)
    requires
        0 <= x < w,
        0 <= y < h,
        w * h * 4 <= u32::MAX,
    ensures
        0 <= y * w,
        0 <= (y * w + x) * 4,
        (y * w + x) * 4 + 3 < u32::MAX,
        y * w + x < w * h,
{
    lemma_row_in(w, h, x, y);
    assert(0 <= y * w) by (nonlinear_arith)
        requires
            0 <= y,
            0 < w,
    ;
}

/// The color that a region shows at (dx, dy) of its visible box.
fn color_at(
    r: &CaptureRegion,
    f: &RegionFrame<'_>,
    Ghost(m): Ghost<Measure>,
    sample: &Vec<u8>,
    deg: i32,
    size: (i32, i32),
    fp: (i32, i32, i32, i32),
    dx: u32,
    dy: u32,
) -> (c: Option<(u8, u8, u8, u8)>)
    requires
        f.w <= i32::MAX,
        f.h <= i32::MAX,
        f.w >= 1,
        f.h >= 1,
        f.w * f.h * 4 <= u32::MAX,
        deg == r.display.rotate as int % 360,
        (size.0 as int, size.1 as int) == config::logical_size(*r),
        (fp.0 as int, fp.1 as int, fp.2 as int, fp.3 as int) == config::region_footprint(*r, m),
        dx < fp.2,
        dy < fp.3,
    ensures
        c == region_color(
            *r,
            f.data@,
            f.w as int,
            f.h as int,
            m,
            sample@,
            fp.0 + dx,
            fp.1 + dy,
        ),
{
    if deg == 90 || deg == 180 || deg == 270 {
        let (lxi, lyi): (i64, i64) = if deg == 90 {
            (dy as i64, size.1 as i64 - 1 - dx as i64)
        } else if deg == 180 {
            (size.0 as i64 - 1 - dx as i64, size.1 as i64 - 1 - dy as i64)
        } else {
            (size.0 as i64 - 1 - dy as i64, dx as i64)
        };
        let sx: u32 = fixed_coord(lxi, f.w, size.0);
        let sy: u32 = fixed_coord(lyi, f.h, size.1);
        proof {
            lemma_index_in(sx as int, sy as int, f.w as int, f.h as int);
        }
        let i: usize = ((sy * f.w + sx) * 4) as usize;
        if i + 3 >= f.data.len() {
            None
        } else {
            Some((f.data[i], f.data[i + 1], f.data[i + 2], f.data[i + 3]))
        }
    } else {
        proof {
            assert(0 <= dy * fp.2 <= 0x7fff_ffff * 0x7fff_ffff) by (nonlinear_arith)
                requires
                    0 <= dy <= 0x7fff_ffff,
                    0 <= fp.2 <= 0x7fff_ffff,
            ;
        }
        let k: u64 = dy as u64 * fp.2 as u64 + dx as u64;
        let n: usize = sample.len();
        if n < 4 || k > ((n - 4) / 4) as u64 {
            return None;
        }
        let i: usize = k as usize * 4;
        if sample[i + 3] == 0 {
            None
        } else {
            Some((sample[i], sample[i + 1], sample[i + 2], sample[i + 3]))
        }
    }
}

/// Between two rows or columns where the region shows nothing, the painted
/// window is the window before.
proof fn lemma_blank(
    start: Seq<Pixel>,
    w: int,
    color: spec_fn(int, int) -> Option<Pixel>,
    alpha: int,
    a: int,
    b: int,
)
    requires
        w > 0,
        a <= b,
        forall|p: int| a <= p < b ==> (#[trigger] color(p % w, p / w)) is None,
    ensures
        progress(start, painted(start, w, color, alpha), a) == progress(
            start,
            painted(start, w, color, alpha),
            b,
        ),
{
    let target = painted(start, w, color, alpha);
    assert forall|p: int| a <= p < b && 0 <= p < start.len() implies #[trigger] target[p]
        == start[p] by {
        assert(color(p % w, p / w) is None);
    }
    lemma_progress_skip(start, target, a, b);
}

proof fn lemma_rows_apart(w: int, p: int, y: int)
    requires
        w > 0,
    ensures
        p < y * w ==> p / w < y,
        p >= y * w ==> p / w >= y,
{
    lemma_split(w, p);
    let q = p / w;
    if p < y * w && q >= y {
        assert(q * w >= y * w) by (nonlinear_arith)
            requires
                q >= y,
                w > 0,
        ;
    }
    if p >= y * w && q < y {
        assert(q * w + w <= y * w) by (nonlinear_arith)
            requires
                q + 1 <= y,
                w > 0,
        ;
    }
}

proof fn lemma_in_row(w: int, p: int, y: int)
    requires
        w > 0,
        y * w <= p < y * w + w,
    ensures
        p / w == y,
        p % w == p - y * w,
{
    lemma_row_column(w, p - y * w, y);
}

/// Lays a region that is turned or scaled over the window.
fn paint_colors(
    dst: &mut Vec<u8>,
    w: i32,
    h: i32,
    r: &CaptureRegion,
    f: &RegionFrame<'_>,
    Ghost(m): Ghost<Measure>,
    sample: &Vec<u8>,
    alpha: u8,
    size: (i32, i32),
    fp: (i32, i32, i32, i32),
)
    requires
        w > 0,
        h > 0,
        w * h * 4 <= i32::MAX,
        old(dst)@.len() == w * h * 4,
        f.w <= i32::MAX,
        f.h <= i32::MAX,
        f.w >= 1,
        f.h >= 1,
        f.w * f.h * 4 <= u32::MAX,
        (size.0 as int, size.1 as int) == config::logical_size(*r),
        (fp.0 as int, fp.1 as int, fp.2 as int, fp.3 as int) == config::region_footprint(*r, m),
        config::rect_fits(config::region_footprint(*r, m)),
        fp.2 >= 0,
        fp.3 >= 0,
    ensures
        final(dst)@.len() == old(dst)@.len(),
        pixels_of(final(dst)@) == painted(
            pixels_of(old(dst)@),
            w as int,
            |tx: int, ty: int|
                region_color(*r, f.data@, f.w as int, f.h as int, m, sample@, tx, ty),
            alpha as int,
        ),
{
    let deg: i32 = wrap_degrees(r.display.rotate as i64);
    let ghost color = |tx: int, ty: int|
        region_color(*r, f.data@, f.w as int, f.h as int, m, sample@, tx, ty);
    let ghost start = pixels_of(dst@);
    let ghost target = painted(start, w as int, color, alpha as int);
    let ghost wi = w as int;
    let ghost hi = h as int;
    let disp_w: u32 = fp.2 as u32;
    let disp_h: u32 = fp.3 as u32;
    let ghost n = wi * hi;
    proof {
        assert(start.len() == n);
        lemma_progress_ends(start, target);
        let b = num::int_clamp(fp.1 as int, 0, hi) * wi;
        assert(0 <= b) by (nonlinear_arith)
            requires
                b == num::int_clamp(fp.1 as int, 0, hi) * wi,
                num::int_clamp(fp.1 as int, 0, hi) >= 0,
                wi > 0,
        ;
        assert forall|p: int| 0 <= p < b implies (#[trigger] color(p % wi, p / wi)) is None by {
            lemma_rows_apart(wi, p, num::int_clamp(fp.1 as int, 0, hi));
            lemma_rows_apart(wi, p, 0);
        }
        lemma_blank(start, wi, color, alpha as int, 0, b);
    }
    let mut dy: u32 = 0;
    while dy < disp_h
        invariant
            w > 0,
            h > 0,
            w * h * 4 <= i32::MAX,
            wi == w,
            hi == h,
            n == wi * hi,
            dst@.len() == w * h * 4,
            start.len() == n,
            f.w <= i32::MAX,
            f.h <= i32::MAX,
            f.w >= 1,
            f.h >= 1,
            f.w * f.h * 4 <= u32::MAX,
            deg == r.display.rotate as int % 360,
            (size.0 as int, size.1 as int) == config::logical_size(*r),
            (fp.0 as int, fp.1 as int, fp.2 as int, fp.3 as int) == config::region_footprint(*r, m),
            config::rect_fits(config::region_footprint(*r, m)),
            disp_w == fp.2,
            disp_h == fp.3,
            dy <= disp_h,
            color == (|tx: int, ty: int|
                region_color(*r, f.data@, f.w as int, f.h as int, m, sample@, tx, ty)),
            target == painted(start, wi, color, alpha as int),
            pixels_of(dst@) == progress(
                start,
                target,
                num::int_clamp(fp.1 + dy, 0, hi) * wi,
            ),
        decreases disp_h - dy,
    {
        let ty: i64 = fp.1 as i64 + dy as i64;
        if 0 <= ty && ty < h as i64 {
            let mut dx: u32 = 0;
            proof {
                let b = ty * wi + num::int_clamp(fp.0 as int, 0, wi);
                assert forall|p: int| ty * wi <= p < b implies (#[trigger] color(
                    p % wi,
                    p / wi,
                )) is None by {
                    lemma_in_row(wi, p, ty as int);
                }
                lemma_blank(start, wi, color, alpha as int, ty * wi, b);
            }
            while dx < disp_w
                invariant
                    w > 0,
                    h > 0,
                    w * h * 4 <= i32::MAX,
                    wi == w,
                    hi == h,
                    n == wi * hi,
                    dst@.len() == w * h * 4,
                    start.len() == n,
                    f.w <= i32::MAX,
                    f.h <= i32::MAX,
                    f.w >= 1,
                    f.h >= 1,
                    f.w * f.h * 4 <= u32::MAX,
                    deg == r.display.rotate as int % 360,
                    (size.0 as int, size.1 as int) == config::logical_size(*r),
                    (fp.0 as int, fp.1 as int, fp.2 as int, fp.3 as int)
                        == config::region_footprint(*r, m),
                    config::rect_fits(config::region_footprint(*r, m)),
                    disp_w == fp.2,
                    disp_h == fp.3,
                    dy < disp_h,
                    dx <= disp_w,
                    ty == fp.1 + dy,
                    0 <= ty < h,
                    color == (|tx: int, ty: int|
                        region_color(*r, f.data@, f.w as int, f.h as int, m, sample@, tx, ty)),
                    target == painted(start, wi, color, alpha as int),
                    pixels_of(dst@) == progress(
                        start,
                        target,
                        ty * wi + num::int_clamp(fp.0 + dx, 0, wi),
                    ),
                decreases disp_w - dx,
            {
                let tx: i64 = fp.0 as i64 + dx as i64;
                if 0 <= tx && tx < w as i64 {
                    proof {
                        lemma_row_in(wi, hi, tx as int, ty as int);
                        lemma_row_column(wi, tx as int, ty as int);
                        assert(0 <= ty * wi) by (nonlinear_arith)
                            requires
                                0 <= ty,
                                wi > 0,
                        ;
                    }
                    let p: usize = (ty * w as i64 + tx) as usize;
                    let c: Option<(u8, u8, u8, u8)> = color_at(
                        r,
                        f,
                        Ghost(m),
                        sample,
                        deg,
                        size,
                        fp,
                        dx,
                        dy,
                    );
                    assert(c == color(tx as int, ty as int));
                    match c {
                        Some(v) => {
                            let px: (u8, u8, u8, u8) = (
                                premultiply(v.0, alpha),
                                premultiply(v.1, alpha),
                                premultiply(v.2, alpha),
                                alpha,
                            );
                            assert(px == target[p as int]);
                            write_pixel(dst, p, px);
                            proof {
                                lemma_progress_step(start, target, p as int);
                            }
                        },
                        None => {
                            proof {
                                assert forall|q: int| p <= q < p + 1 implies (#[trigger] color(
                                    q % wi,
                                    q / wi,
                                )) is None by {}
                                lemma_blank(start, wi, color, alpha as int, p as int, p + 1);
                            }
                        },
                    }
                }
                dx = dx + 1;
            }
            proof {
                let a = ty * wi + num::int_clamp(fp.0 + fp.2, 0, wi);
                let b = ty * wi + wi;
                assert forall|p: int| a <= p < b implies (#[trigger] color(
                    p % wi,
                    p / wi,
                )) is None by {
                    lemma_in_row(wi, p, ty as int);
                }
                lemma_blank(start, wi, color, alpha as int, a, b);
                assert((ty + 1) * wi == ty * wi + wi) by (nonlinear_arith);
            }
        }
        dy = dy + 1;
    }
    proof {
        let y1 = num::int_clamp(fp.1 + fp.3, 0, hi);
        let a = y1 * wi;
        assert(a <= n) by (nonlinear_arith)
            requires
                a == y1 * wi,
                n == wi * hi,
                y1 <= hi,
                wi > 0,
        ;
        assert forall|p: int| a <= p < n implies (#[trigger] color(p % wi, p / wi)) is None by {
            lemma_rows_apart(wi, p, y1);
            assert(hi * wi == n) by (nonlinear_arith)
                requires
                    n == wi * hi,
            ;
            lemma_rows_apart(wi, p, hi);
        }
        lemma_blank(start, wi, color, alpha as int, a, n);
        lemma_progress_ends(start, target);
    }
}

proof fn lemma_row_bytes(fw: int, fh: int, k: int)
    requires
        1 <= fw,
        0 <= k < fh,
        fw * fh * 4 <= u32::MAX,
    ensures
        0 <= k * fw,
        (k + 1) * fw == k * fw + fw,
        (k * fw + fw) * 4 <= u32::MAX,
        fw * 4 <= u32::MAX,
{
    assert(0 <= k * fw && (k + 1) * fw == k * fw + fw && k * fw + fw <= fw * fh)
        by (nonlinear_arith)
        requires
            1 <= fw,
            0 <= k < fh,
    ;
}

/// Copies a region that is neither turned nor scaled into the window.
fn copy_rows(
    dst: &mut Vec<u8>,
    w: i32,
    h: i32,
    x: i32,
    y: i32,
    f: &RegionFrame<'_>,
    alpha: u8,
)
    requires
        w > 0,
        h > 0,
        w * h * 4 <= i32::MAX,
        old(dst)@.len() == w * h * 4,
        1 <= f.w <= i32::MAX,
        f.h <= i32::MAX,
        f.w * f.h * 4 <= u32::MAX,
        y + f.h <= i32::MAX,
        x >= 0 || y + f.h <= 0 || y >= h,
    ensures
        final(dst)@.len() == old(dst)@.len(),
        pixels_of(final(dst)@) == copied_rows(
            pixels_of(old(dst)@),
            w as int,
            h as int,
            x as int,
            y as int,
            f.data@,
            f.w as int,
            alpha as int,
            f.h as nat,
        ),
{
    let ghost start = pixels_of(dst@);
    let ghost wi = w as int;
    let ghost hi = h as int;
    let mut dy: u32 = 0;
    while dy < f.h
        invariant
            w > 0,
            h > 0,
            w * h * 4 <= i32::MAX,
            wi == w,
            hi == h,
            dst@.len() == w * h * 4,
            1 <= f.w <= i32::MAX,
            f.h <= i32::MAX,
            f.w * f.h * 4 <= u32::MAX,
            y + f.h <= i32::MAX,
            x >= 0 || y + f.h <= 0 || y >= h,
            dy <= f.h,
            pixels_of(dst@) == copied_rows(
                start,
                wi,
                hi,
                x as int,
                y as int,
                f.data@,
                f.w as int,
                alpha as int,
                dy as nat,
            ),
        decreases f.h - dy,
    {
        let ty: i64 = y as i64 + dy as i64;
        let ghost s = pixels_of(dst@);
        proof {
            lemma_row_bytes(f.w as int, f.h as int, dy as int);
        }
        if 0 <= ty && ty < h as i64 {
            let src: usize = dy as usize * f.w as usize;
            let row_bytes: usize = f.w as usize * 4;
            proof {
                lemma_row_in(wi, hi, 0, ty as int);
            }
            let at: i64 = ty * w as i64 + x as i64;
            let total: i64 = w as i64 * h as i64;
            if src * 4 + row_bytes <= f.data.len() && at + f.w as i64 <= total {
                let ghost row = frame_row(f.data@, f.w as int, dy as int, alpha as int);
                let ghost target = with_row(s, at as int, row);
                proof {
                    lemma_progress_ends(s, target);
                    lemma_progress_skip(s, target, 0, at as int);
                }
                let mut px: u32 = 0;
                while px < f.w
                    invariant
                        w > 0,
                        h > 0,
                        w * h * 4 <= i32::MAX,
                        dst@.len() == w * h * 4,
                        s.len() == w * h,
                        0 <= at,
                        at + f.w <= w * h,
                        px <= f.w,
                        dy < f.h,
                        src == dy * f.w,
                        (src + f.w) * 4 <= f.data@.len(),
                        (src + f.w) * 4 <= u32::MAX,
                        row == frame_row(f.data@, f.w as int, dy as int, alpha as int),
                        target == with_row(s, at as int, row),
                        pixels_of(dst@) == progress(s, target, at + px),
                    decreases f.w - px,
                {
                    let i: usize = (src + px as usize) * 4;
                    let p: usize = (at + px as i64) as usize;
                    let v: (u8, u8, u8, u8) = (
                        premultiply(f.data[i], alpha),
                        premultiply(f.data[i + 1], alpha),
                        premultiply(f.data[i + 2], alpha),
                        alpha,
                    );
                    assert(v == target[p as int]);
                    write_pixel(dst, p, v);
                    proof {
                        lemma_progress_step(s, target, p as int);
                    }
                    px = px + 1;
                }
                proof {
                    lemma_progress_skip(s, target, at + f.w, s.len() as int);
                    lemma_progress_ends(s, target);
                }
            }
        }
        dy = dy + 1;
    }
}

/// The opacity that a region is shown with: its own or the global one, from zero
/// to one.
pub fn region_opacity(cfg: &Config, r: &CaptureRegion) -> (o: Opacity)
    ensures
        o == (match r.display.opacity {
            Some(v) => v.clamped(),
            None => cfg.global_opacity().clamped(),
        }),
{
    cfg.effective_opacity(r.display.opacity).clamp()
}

/// Lays one region over the window.
fn paint_region(
    dst: &mut Vec<u8>,
    w: i32,
    h: i32,
    cfg: &Config,
    r: &CaptureRegion,
    f: &RegionFrame<'_>,
    m: Measure,
    sample: &Vec<u8>,
    alpha: u8,
)
    requires
        w > 0,
        h > 0,
        w * h * 4 <= i32::MAX,
        old(dst)@.len() == w * h * 4,
        renderable(*r, *f, m, h as int),
    ensures
        final(dst)@.len() == old(dst)@.len(),
        pixels_of(final(dst)@) == region_painted(
            pixels_of(old(dst)@),
            w as int,
            h as int,
            *r,
            *f,
            m,
            sample@,
            alpha,
        ),
{
    let size: (i32, i32) = cfg.region_logical_size(r);
    let fp: (i32, i32, i32, i32) = rotated_footprint(
        r.display.x,
        r.display.y,
        size.0,
        size.1,
        r.display.rotate,
        m.tilted,
    );
    if alpha == 0 || fp.2 == 0 || fp.3 == 0 || f.w == 0 || f.h == 0 {
        return;
    }
    if wrap_degrees(r.display.rotate as i64) == 0 && size.0 as u32 == f.w && size.1 as u32 == f.h {
        copy_rows(dst, w, h, fp.0, fp.1, f, alpha);
    } else {
        paint_colors(dst, w, h, r, f, Ghost(m), sample, alpha, size, fp);
    }
}

/// Lays the regions of a config over the overlay window, in render order.
///
/// `frames` holds the captured data of the regions and `alphas` their opacity
/// as a byte. `samples` holds the resampled colors of the regions that are
/// scaled, or turned by an angle that is no multiple of a right angle, and
/// `measures` the visible size of the latter.
pub fn render_regions(
    frames: &Vec<RegionFrame<'_>>,
    cfg: &Config,
    dst: &mut Vec<u8>,
    dst_w: i32,
    dst_h: i32,
    measures: &Vec<Measure>,
    samples: &Vec<Vec<u8>>,
    alphas: &Vec<u8>,
)
    requires
        dst_w >= 0,
        dst_h >= 0,
        dst_w * dst_h * 4 <= i32::MAX,
        old(dst)@.len() == dst_w * dst_h * 4,
        alphas@.len() >= shown(cfg.capture_regions@.len() as int, frames@.len() as int),
        forall|i: int|
            0 <= i < shown(cfg.capture_regions@.len() as int, frames@.len() as int) ==> renderable(
                #[trigger] cfg.capture_regions@[i],
                frames@[i],
                config::nth_measure(measures@, i),
                dst_h as int,
            ),
    ensures
        final(dst)@.len() == old(dst)@.len(),
        ({
            let n = shown(cfg.capture_regions@.len() as int, frames@.len() as int);
            pixels_of(final(dst)@) == rendered(
                pixels_of(old(dst)@),
                dst_w as int,
                dst_h as int,
                cfg.capture_regions@,
                frames@,
                measures@,
                samples@,
                alphas@,
                zorder::in_order(shown_orders(cfg.capture_regions@, n)),
                n as nat,
            )
        }),
{
    let mut n: usize = cfg.capture_regions.len();
    if n > MAX_REGIONS {
        n = MAX_REGIONS;
    }
    if n > frames.len() {
        n = frames.len();
    }
    let mut zs: Vec<i64> = Vec::new();
    for i in 0..n
        invariant
            n <= cfg.capture_regions@.len(),
            zs@ == shown_orders(cfg.capture_regions@, i as int),
    {
        zs.push(cfg.capture_regions[i].display.z_order as i64);
        assert(zs@ =~= shown_orders(cfg.capture_regions@, i + 1));
    }
    let order: Vec<usize> = sort_by_z(&zs);
    let none: Vec<u8> = Vec::new();
    let ghost start = pixels_of(dst@);
    let ghost ord = zorder::in_order(zs@);
    for k in 0..order.len()
        invariant
            n <= cfg.capture_regions@.len(),
            n <= frames@.len(),
            n <= alphas@.len(),
            n == shown(cfg.capture_regions@.len() as int, frames@.len() as int),
            order@.len() == n,
            ord == index_views(order@),
            forall|j: int| 0 <= j < order@.len() ==> #[trigger] order@[j] < n,
            none@ == Seq::<u8>::empty(),
            dst_w >= 0,
            dst_h >= 0,
            dst_w * dst_h * 4 <= i32::MAX,
            dst@.len() == dst_w * dst_h * 4,
            forall|i: int|
                0 <= i < n ==> renderable(
                    #[trigger] cfg.capture_regions@[i],
                    frames@[i],
                    config::nth_measure(measures@, i),
                    dst_h as int,
                ),
            pixels_of(dst@) == rendered(
                start,
                dst_w as int,
                dst_h as int,
                cfg.capture_regions@,
                frames@,
                measures@,
                samples@,
                alphas@,
                ord,
                k as nat,
            ),
    {
        let i: usize = order[k];
        assert(ord[k as int] == i);
        let m: Measure = if i < measures.len() {
            measures[i]
        } else {
            Measure { natural: (0, 0), tilted: (0, 0) }
        };
        let sample: &Vec<u8> = if i < samples.len() {
            &samples[i]
        } else {
            &none
        };
        assert(sample@ =~= nth_sample(samples@, i as int));
        assert(renderable(cfg.capture_regions@[i as int], frames@[i as int], m, dst_h as int));
        if dst_w > 0 && dst_h > 0 {
            paint_region(
                dst,
                dst_w,
                dst_h,
                cfg,
                &cfg.capture_regions[i],
                &frames[i],
                m,
                sample,
                alphas[i],
            );
        } else {
            proof {
                assert(dst_w * dst_h == 0) by (nonlinear_arith)
                    requires
                        dst_w == 0 || dst_h == 0,
                ;
                let ghost after = region_painted(
                    pixels_of(dst@),
                    dst_w as int,
                    dst_h as int,
                    cfg.capture_regions@[i as int],
                    frames@[i as int],
                    m,
                    sample@,
                    alphas@[i as int],
                );
                lemma_painted_len(
                    pixels_of(dst@),
                    dst_w as int,
                    dst_h as int,
                    cfg.capture_regions@[i as int],
                    frames@[i as int],
                    m,
                    sample@,
                    alphas@[i as int],
                );
                assert(pixels_of(dst@) =~= after);
            }
        }
    }
}

proof fn lemma_copied_len(
    start: Seq<Pixel>,
    w: int,
    h: int,
    x: int,
    y: int,
    data: Seq<u8>,
    fw: int,
    alpha: int,
    k: nat,
)
    ensures
        copied_rows(start, w, h, x, y, data, fw, alpha, k).len() == start.len(),
    decreases k,
{
    if k > 0 {
        lemma_copied_len(start, w, h, x, y, data, fw, alpha, (k - 1) as nat);
    }
}

proof fn lemma_painted_len(
    start: Seq<Pixel>,
    w: int,
    h: int,
    r: CaptureRegion,
    f: RegionFrame<'_>,
    m: Measure,
    sample: Seq<u8>,
    alpha: u8,
)
    ensures
        region_painted(start, w, h, r, f, m, sample, alpha).len() == start.len(),
{
    let fp = config::region_footprint(r, m);
    lemma_copied_len(start, w, h, fp.0, fp.1, f.data@, f.w as int, alpha as int, f.h as nat);
}

// ===== Laws =====

/// At the size of the source, a turn by a right angle moves every pixel to one
/// place: the color at (dx, dy) of the visible box is that of the source pixel
/// turned there.
pub proof fn law_axis_turn_moves_pixels(
    r: CaptureRegion,
    data: Seq<u8>,
    fw: int,
    fh: int,
    m: Measure,
    sample: Seq<u8>,
    dx: int,
    dy: int,
)
    requires
        is_axis_turn(r.display.rotate as int % 360),
        config::logical_size(r) == (fw, fh),
        data.len() == fw * fh * 4,
        0 <= dx < config::region_footprint(r, m).2,
        0 <= dy < config::region_footprint(r, m).3,
    ensures
        ({
            let fp = config::region_footprint(r, m);
            let l = unturned(r.display.rotate as int % 360, fw, fh, dx, dy);
            &&& 0 <= l.0 < fw
            &&& 0 <= l.1 < fh
            &&& region_color(r, data, fw, fh, m, sample, fp.0 + dx, fp.1 + dy) == Some(
                pixel(data, l.1 * fw + l.0),
            )
        }),
{
    let l = unturned(r.display.rotate as int % 360, fw, fh, dx, dy);
    lemma_one_to_one_coord(l.0, fw);
    lemma_one_to_one_coord(l.1, fh);
    lemma_row_in(fw, fh, l.0, l.1);
}

proof fn lemma_one_to_one_coord(l: int, n: int)
    requires
        0 <= l < n,
    ensures
        source_coord(l, n, n) == l,
{
    assert(n * 0x10000 / n == 0x10000) by (nonlinear_arith)
        requires
            n > 0,
    ;
    assert(num::int_max(n, 1) == n);
    assert(((l + 1) * 0x10000 - 0x8000) / 0x10000 == l);
}

/// Outside of its visible box a region that is turned or scaled leaves the
/// window as it is.
pub proof fn law_outside_is_untouched(
    start: Seq<Pixel>,
    w: int,
    h: int,
    r: CaptureRegion,
    f: RegionFrame<'_>,
    m: Measure,
    sample: Seq<u8>,
    alpha: u8,
    x: int,
    y: int,
)
    requires
        0 <= x < w,
        0 <= y < h,
        start.len() == w * h,
        !is_one_to_one(r, f.w as int, f.h as int),
        ({
            let fp = config::region_footprint(r, m);
            !(fp.0 <= x < fp.0 + fp.2 && fp.1 <= y < fp.1 + fp.3)
        }),
    ensures
        region_painted(start, w, h, r, f, m, sample, alpha)[y * w + x] == start[y * w + x],
{
    lemma_row_in(w, h, x, y);
    lemma_row_column(w, x, y);
}

/// A region that is copied row by row, lies inside the window and has its full
/// data, shows its pixels at their places and leaves the rest of the window as
/// it is.
pub proof fn law_copy_places_pixels(
    start: Seq<Pixel>,
    w: int,
    h: int,
    x: int,
    y: int,
    data: Seq<u8>,
    fw: int,
    alpha: int,
    k: nat,
    tx: int,
    ty: int,
)
    requires
        0 <= x,
        x + fw <= w,
        0 <= y,
        y + k <= h,
        1 <= fw,
        data.len() >= fw * k * 4,
        start.len() == w * h,
        0 <= tx < w,
        0 <= ty < h,
    ensures
        copied_rows(start, w, h, x, y, data, fw, alpha, k)[ty * w + tx] == (if x <= tx < x + fw
            && y <= ty < y + k {
            premul_pixel(pixel(data, (ty - y) * fw + (tx - x)), alpha)
        } else {
            start[ty * w + tx]
        }),
    decreases k,
{
    lemma_row_in(w, h, tx, ty);
    if k > 0 {
        let j = (k - 1) as nat;
        assert(fw * k * 4 >= fw * j * 4 && k * fw * 4 == fw * k * 4) by (nonlinear_arith)
            requires
                fw >= 1,
                k == j + 1,
        ;
        law_copy_places_pixels(start, w, h, x, y, data, fw, alpha, j, tx, ty);
        lemma_copied_len(start, w, h, x, y, data, fw, alpha, j);
        let ry = y + k - 1;
        lemma_row_in(w, h, x, ry);
        lemma_row_in(w, h, x + fw - 1, ry);
        let s = copied_rows(start, w, h, x, y, data, fw, alpha, j);
        let row = frame_row(data, fw, k - 1, alpha);
        assert(copied_rows(start, w, h, x, y, data, fw, alpha, k) == with_row(s, ry * w + x, row));
        let p = ty * w + tx;
        let at = ry * w + x;
        if ty == ry {
            if x <= tx < x + fw {
                assert(row[p - at] == premul_pixel(pixel(data, (k - 1) * fw + (tx - x)), alpha));
            }
        } else if ty < ry {
            assert(p < ry * w) by (nonlinear_arith)
                requires
                    p == ty * w + tx,
                    tx < w,
                    ty + 1 <= ry,
                    w > 0,
            ;
        } else {
            assert(p >= ry * w + w) by (nonlinear_arith)
                requires
                    p == ty * w + tx,
                    0 <= tx,
                    ty >= ry + 1,
                    w > 0,
            ;
        }
    }
}

/// Whether two regions differ in nothing that is shown but by full circles.
pub open spec fn full_circles_apart(a: CaptureRegion, b: CaptureRegion) -> bool {
    &&& a.source == b.source
    &&& a.display.x == b.display.x && a.display.y == b.display.y
    &&& a.display.width == b.display.width && a.display.height == b.display.height
    &&& a.display.z_order == b.display.z_order
    &&& a.display.rotate as int % 360 == b.display.rotate as int % 360
}

proof fn lemma_full_circle(
    start: Seq<Pixel>,
    w: int,
    h: int,
    a: CaptureRegion,
    b: CaptureRegion,
    f: RegionFrame<'_>,
    m: Measure,
    sample: Seq<u8>,
    alpha: u8,
)
    requires
        full_circles_apart(a, b),
    ensures
        region_painted(start, w, h, a, f, m, sample, alpha) == region_painted(
            start,
            w,
            h,
            b,
            f,
            m,
            sample,
            alpha,
        ),
{
    assert(config::region_footprint(a, m) == config::region_footprint(b, m));
    assert(region_painted(start, w, h, a, f, m, sample, alpha) =~= region_painted(
        start,
        w,
        h,
        b,
        f,
        m,
        sample,
        alpha,
    ));
}

proof fn lemma_full_circles(
    start: Seq<Pixel>,
    w: int,
    h: int,
    a: Seq<CaptureRegion>,
    b: Seq<CaptureRegion>,
    frames: Seq<RegionFrame<'_>>,
    measures: Seq<Measure>,
    samples: Seq<Vec<u8>>,
    alphas: Seq<u8>,
    order: Seq<int>,
    k: nat,
)
    requires
        k <= order.len(),
        forall|j: int|
            0 <= j < order.len() ==> full_circles_apart(a[#[trigger] order[j]], b[order[j]]),
    ensures
        rendered(start, w, h, a, frames, measures, samples, alphas, order, k) == rendered(
            start,
            w,
            h,
            b,
            frames,
            measures,
            samples,
            alphas,
            order,
            k,
        ),
    decreases k,
{
    if k > 0 {
        let j = (k - 1) as nat;
        lemma_full_circles(start, w, h, a, b, frames, measures, samples, alphas, order, j);
        let i = order[k - 1];
        lemma_full_circle(
            rendered(start, w, h, a, frames, measures, samples, alphas, order, j),
            w,
            h,
            a[i],
            b[i],
            frames[i],
            config::nth_measure(measures, i),
            nth_sample(samples, i),
            alphas[i],
        );
    }
}

/// A full circle more draws the same pixels: regions that differ by full circles
/// only are rendered in the same order and alike.
pub proof fn law_full_circles_draw_alike(
    start: Seq<Pixel>,
    w: int,
    h: int,
    a: Seq<CaptureRegion>,
    b: Seq<CaptureRegion>,
    frames: Seq<RegionFrame<'_>>,
    measures: Seq<Measure>,
    samples: Seq<Vec<u8>>,
    alphas: Seq<u8>,
    n: int,
)
    requires
        0 <= n <= a.len(),
        forall|i: int| 0 <= i < n ==> full_circles_apart(#[trigger] a[i], b[i]),
    ensures
        ({
            let order = zorder::in_order(shown_orders(a, n));
            &&& zorder::in_order(shown_orders(b, n)) == order
            &&& rendered(start, w, h, a, frames, measures, samples, alphas, order, n as nat)
                == rendered(start, w, h, b, frames, measures, samples, alphas, order, n as nat)
        }),
{
    let zs = shown_orders(a, n);
    assert(zs =~= shown_orders(b, n)) by {
        assert forall|i: int| 0 <= i < n implies #[trigger] zs[i] == shown_orders(b, n)[i] by {
            assert(full_circles_apart(a[i], b[i]));
        }
    }
    zorder::law_in_order(zs);
    let order = zorder::in_order(zs);
    assert forall|j: int| 0 <= j < order.len() implies full_circles_apart(
        a[#[trigger] order[j]],
        b[order[j]],
    ) by {
        assert(0 <= order[j] < n);
    }
    lemma_full_circles(start, w, h, a, b, frames, measures, samples, alphas, order, n as nat);
}

/// Whether row `j` of a frame of width `fw` that is copied to (x, y) reaches
/// pixel `p` of the window.
pub open spec fn row_reaches(w: int, h: int, x: int, y: int, data: Seq<u8>, fw: int, j: int, p: int) -> bool {
    let at = (y + j) * w + x;
    &&& 0 <= y + j < h
    &&& (j + 1) * fw * 4 <= data.len()
    &&& at + fw <= w * h
    &&& at <= p < at + fw
}

/// Whether a region is drawn over pixel `p` of the window.
pub open spec fn reaches(
    w: int,
    h: int,
    r: CaptureRegion,
    f: RegionFrame<'_>,
    m: Measure,
    sample: Seq<u8>,
    alpha: u8,
    p: int,
) -> bool {
    let fp = config::region_footprint(r, m);
    if alpha == 0 || fp.2 == 0 || fp.3 == 0 || f.w == 0 || f.h == 0 {
        false
    } else if is_one_to_one(r, f.w as int, f.h as int) {
        exists|j: int|
            0 <= j < f.h && #[trigger] row_reaches(w, h, fp.0, fp.1, f.data@, f.w as int, j, p)
    } else {
        region_color(r, f.data@, f.w as int, f.h as int, m, sample, p % w, p / w) is Some
    }
}

proof fn lemma_copy_reaches(
    s: Seq<Pixel>,
    t: Seq<Pixel>,
    w: int,
    h: int,
    x: int,
    y: int,
    data: Seq<u8>,
    fw: int,
    alpha: int,
    k: nat,
    p: int,
)
    requires
        s.len() == t.len(),
        0 <= p < s.len(),
        0 <= fw,
    ensures
        ({
            let a = copied_rows(s, w, h, x, y, data, fw, alpha, k);
            let b = copied_rows(t, w, h, x, y, data, fw, alpha, k);
            if exists|j: int| 0 <= j < k && #[trigger] row_reaches(w, h, x, y, data, fw, j, p) {
                a[p] == b[p]
            } else {
                a[p] == s[p]
            }
        }),
    decreases k,
{
    if k > 0 {
        let i = (k - 1) as nat;
        lemma_copy_reaches(s, t, w, h, x, y, data, fw, alpha, i, p);
        lemma_copied_len(s, w, h, x, y, data, fw, alpha, i);
        lemma_copied_len(t, w, h, x, y, data, fw, alpha, i);
        let before = exists|j: int|
            0 <= j < i && #[trigger] row_reaches(w, h, x, y, data, fw, j, p);
        let now = exists|j: int| 0 <= j < k && #[trigger] row_reaches(w, h, x, y, data, fw, j, p);
        if row_reaches(w, h, x, y, data, fw, i as int, p) {
            assert(now);
        } else {
            assert(now ==> before) by {
                if now {
                    let j = choose|j: int|
                        0 <= j < k && #[trigger] row_reaches(w, h, x, y, data, fw, j, p);
                    assert(j < i);
                }
            }
            assert(before ==> now) by {
                if before {
                    let j = choose|j: int|
                        0 <= j < i && #[trigger] row_reaches(w, h, x, y, data, fw, j, p);
                    assert(0 <= j < k);
                }
            }
        }
    }
}

proof fn lemma_reaches(
    s: Seq<Pixel>,
    t: Seq<Pixel>,
    w: int,
    h: int,
    r: CaptureRegion,
    f: RegionFrame<'_>,
    m: Measure,
    sample: Seq<u8>,
    alpha: u8,
    p: int,
)
    requires
        s.len() == t.len(),
        0 <= p < s.len(),
    ensures
        reaches(w, h, r, f, m, sample, alpha, p) ==> region_painted(
            s,
            w,
            h,
            r,
            f,
            m,
            sample,
            alpha,
        )[p] == region_painted(t, w, h, r, f, m, sample, alpha)[p],
        !reaches(w, h, r, f, m, sample, alpha, p) ==> region_painted(
            s,
            w,
            h,
            r,
            f,
            m,
            sample,
            alpha,
        )[p] == s[p],
{
    let fp = config::region_footprint(r, m);
    lemma_copy_reaches(
        s,
        t,
        w,
        h,
        fp.0,
        fp.1,
        f.data@,
        f.w as int,
        alpha as int,
        f.h as nat,
        p,
    );
}

proof fn lemma_rendered_len(
    start: Seq<Pixel>,
    w: int,
    h: int,
    regions: Seq<CaptureRegion>,
    frames: Seq<RegionFrame<'_>>,
    measures: Seq<Measure>,
    samples: Seq<Vec<u8>>,
    alphas: Seq<u8>,
    order: Seq<int>,
    k: nat,
)
    ensures
        rendered(start, w, h, regions, frames, measures, samples, alphas, order, k).len()
            == start.len(),
    decreases k,
{
    if k > 0 {
        let j = (k - 1) as nat;
        let i = order[k - 1];
        lemma_rendered_len(start, w, h, regions, frames, measures, samples, alphas, order, j);
        lemma_painted_len(
            rendered(start, w, h, regions, frames, measures, samples, alphas, order, j),
            w,
            h,
            regions[i],
            frames[i],
            config::nth_measure(measures, i),
            nth_sample(samples, i),
            alphas[i],
        );
    }
}

/// Whether region `i` of a config is drawn over pixel `p` of the window.
pub open spec fn nth_reaches(
    w: int,
    h: int,
    regions: Seq<CaptureRegion>,
    frames: Seq<RegionFrame<'_>>,
    measures: Seq<Measure>,
    samples: Seq<Vec<u8>>,
    alphas: Seq<u8>,
    i: int,
    p: int,
) -> bool {
    reaches(
        w,
        h,
        regions[i],
        frames[i],
        config::nth_measure(measures, i),
        nth_sample(samples, i),
        alphas[i],
        p,
    )
}

proof fn lemma_top_region(
    start: Seq<Pixel>,
    w: int,
    h: int,
    regions: Seq<CaptureRegion>,
    frames: Seq<RegionFrame<'_>>,
    measures: Seq<Measure>,
    samples: Seq<Vec<u8>>,
    alphas: Seq<u8>,
    order: Seq<int>,
    a: int,
    k: nat,
    p: int,
)
    requires
        0 <= p < start.len(),
        0 <= a < k <= order.len(),
        nth_reaches(w, h, regions, frames, measures, samples, alphas, order[a], p),
        forall|b: int|
            a < b < order.len() ==> !nth_reaches(
                w,
                h,
                regions,
                frames,
                measures,
                samples,
                alphas,
                #[trigger] order[b],
                p,
            ),
    ensures
        rendered(start, w, h, regions, frames, measures, samples, alphas, order, k)[p]
            == region_painted(
            start,
            w,
            h,
            regions[order[a]],
            frames[order[a]],
            config::nth_measure(measures, order[a]),
            nth_sample(samples, order[a]),
            alphas[order[a]],
        )[p],
    decreases k,
{
    let j = (k - 1) as nat;
    let i = order[k - 1];
    let under = rendered(start, w, h, regions, frames, measures, samples, alphas, order, j);
    lemma_rendered_len(start, w, h, regions, frames, measures, samples, alphas, order, j);
    lemma_reaches(
        under,
        start,
        w,
        h,
        regions[i],
        frames[i],
        config::nth_measure(measures, i),
        nth_sample(samples, i),
        alphas[i],
        p,
    );
    if a < k - 1 {
        lemma_top_region(
            start,
            w,
            h,
            regions,
            frames,
            measures,
            samples,
            alphas,
            order,
            a,
            j,
            p,
        );
        assert(!nth_reaches(w, h, regions, frames, measures, samples, alphas, order[j as int], p));
    }
}

/// The greatest render order is on top, and of equal ones the last of the list:
/// where a region is drawn over a pixel and none that goes after it is, the pixel
/// is what that region alone shows there.
pub proof fn law_greatest_order_is_on_top(
    start: Seq<Pixel>,
    w: int,
    h: int,
    regions: Seq<CaptureRegion>,
    frames: Seq<RegionFrame<'_>>,
    measures: Seq<Measure>,
    samples: Seq<Vec<u8>>,
    alphas: Seq<u8>,
    n: int,
    i: int,
    p: int,
)
    requires
        0 <= i < n,
        0 <= p < start.len(),
        nth_reaches(w, h, regions, frames, measures, samples, alphas, i, p),
        forall|j: int|
            0 <= j < n && (regions[j].display.z_order > regions[i].display.z_order || (
            regions[j].display.z_order == regions[i].display.z_order && j > i))
                ==> !#[trigger] nth_reaches(
                w,
                h,
                regions,
                frames,
                measures,
                samples,
                alphas,
                j,
                p,
            ),
    ensures
        rendered(
            start,
            w,
            h,
            regions,
            frames,
            measures,
            samples,
            alphas,
            zorder::in_order(shown_orders(regions, n)),
            n as nat,
        )[p] == region_painted(
            start,
            w,
            h,
            regions[i],
            frames[i],
            config::nth_measure(measures, i),
            nth_sample(samples, i),
            alphas[i],
        )[p],
{
    let zs = shown_orders(regions, n);
    let order = zorder::in_order(zs);
    zorder::law_in_order(zs);
    assert(order.contains(i));
    let a = choose|a: int| 0 <= a < order.len() && order[a] == i;
    assert forall|b: int| a < b < order.len() implies !nth_reaches(
        w,
        h,
        regions,
        frames,
        measures,
        samples,
        alphas,
        #[trigger] order[b],
        p,
    ) by {
        assert(zorder::goes_before(zs, order[a], order[b]));
        assert(0 <= order[b] < n);
    }
    lemma_top_region(
        start,
        w,
        h,
        regions,
        frames,
        measures,
        samples,
        alphas,
        order,
        a,
        n as nat,
        p,
    );
}

/// A side of a source is spread over a side of any length: the coordinate that is
/// shown at `l` is the one in which the share of `l` ends, less a half, to within
/// what sixteen binary places can tell. So the shown coordinates never fall from
/// one place to the next, a source that is enlarged shows its first coordinate
/// first and passes none over, and the last place shows its last coordinate.
pub proof fn law_source_is_spread_evenly(l: int, src: int, logical: int)
    requires
        0 <= l < logical,
        1 <= src,
    ensures
        ({
            let c = source_coord(l, src, logical);
            &&& 0 <= c < src
            &&& c > 0 ==> logical * (2 * c + 1) <= 2 * (l + 1) * src
            &&& c < src - 1 ==> (l + 1) * (0x10000 * src - logical) < logical * (0x10000 * (c + 1)
                + 0x8000)
            &&& l == 0 && src <= logical ==> c == 0
            &&& l == logical - 1 && logical <= 0x8000 ==> c == src - 1
            &&& l + 1 < logical ==> c <= source_coord(l + 1, src, logical)
            &&& l + 1 < logical && src <= logical ==> source_coord(l + 1, src, logical) <= c + 1
        }),
{
    let scale = src * 0x10000 / logical;
    let c = source_coord(l, src, logical);
    let q = ((l + 1) * scale - 0x8000) / 0x10000;
    lemma_source_coord(l, src, logical);
    vstd::arithmetic::div_mod::lemma_fundamental_div_mod(src * 0x10000, logical);
    vstd::arithmetic::div_mod::lemma_mod_bound(src * 0x10000, logical);
    assert(c == num::int_clamp(q, 0, src - 1));
    assert(logical * scale <= src * 0x10000 < logical * scale + logical);
    if c > 0 {
        assert(c <= q);
        assert(c * 0x10000 + 0x8000 <= (l + 1) * scale);
        assert(logical * (2 * c + 1) <= 2 * (l + 1) * src) by (nonlinear_arith)
            requires
                c * 0x10000 + 0x8000 <= (l + 1) * scale,
                logical * scale <= src * 0x10000,
                l >= 0,
                logical > 0,
        {
            assert(logical * (c * 0x10000 + 0x8000) <= logical * ((l + 1) * scale));
            assert(logical * ((l + 1) * scale) == (l + 1) * (logical * scale));
            assert((l + 1) * (logical * scale) <= (l + 1) * (src * 0x10000));
            assert(logical * (c * 0x10000 + 0x8000) == 0x8000 * (logical * (2 * c + 1)));
            assert((l + 1) * (src * 0x10000) == 0x8000 * (2 * (l + 1) * src));
        }
    }
    if c < src - 1 {
        assert(q <= c);
        assert((l + 1) * scale < (c + 1) * 0x10000 + 0x8000);
        assert((l + 1) * (0x10000 * src - logical) < logical * (0x10000 * (c + 1) + 0x8000))
            by (nonlinear_arith)
            requires
                (l + 1) * scale < (c + 1) * 0x10000 + 0x8000,
                src * 0x10000 < logical * scale + logical,
                l >= 0,
                logical > 0,
        {
            assert((l + 1) * (0x10000 * src - logical) <= (l + 1) * (logical * scale));
            assert((l + 1) * (logical * scale) == logical * ((l + 1) * scale));
            assert(logical * ((l + 1) * scale) < logical * ((c + 1) * 0x10000 + 0x8000));
        }
    }
    if l == 0 && src <= logical && c > 0 {
        assert(false) by (nonlinear_arith)
            requires
                logical * (2 * c + 1) <= 2 * (l + 1) * src,
                l == 0,
                src <= logical,
                logical > 0,
                c > 0,
        ;
    }
    if l == logical - 1 && logical <= 0x8000 && c < src - 1 {
        assert(false) by (nonlinear_arith)
            requires
                (l + 1) * (0x10000 * src - logical) < logical * (0x10000 * (c + 1) + 0x8000),
                l + 1 == logical,
                0 < logical <= 0x8000,
                c + 2 <= src,
        {
            assert(logical * (0x10000 * src - logical) < logical * (0x10000 * (c + 1) + 0x8000));
            assert(0x10000 * src - logical < 0x10000 * (c + 1) + 0x8000);
        }
    }
    assert((l + 2) * scale == (l + 1) * scale + scale) by (nonlinear_arith);
    if src <= logical {
        assert(scale <= 0x10000) by (nonlinear_arith)
            requires
                logical * scale <= src * 0x10000,
                src <= logical,
                logical > 0,
                src >= 1,
        ;
    }
}

/// A region that is turned by a right angle and shown in any size (lx, ly) shows
/// its whole source: at a place of its visible box the window takes on the color
/// of a source pixel, multiplied by the opacity, and that pixel is the one in
/// whose row and column the shares of the place end. The place counts from the
/// corner of the source that the turn has brought to the corner of the box.
pub proof fn law_turned_region_shows_its_source(
    start: Seq<Pixel>,
    w: int,
    h: int,
    r: CaptureRegion,
    f: RegionFrame<'_>,
    m: Measure,
    sample: Seq<u8>,
    alpha: u8,
    lx: int,
    ly: int,
    left: int,
    top: int,
    tx: int,
    ty: int,
) -> (at: (int, int))
    requires
        start.len() == w * h,
        0 <= tx < w,
        0 <= ty < h,
        alpha > 0,
        f.w > 0,
        f.h > 0,
        f.data@.len() == f.w * f.h * 4,
        lx > 0,
        ly > 0,
        r.display.width > 0 && r.display.height > 0 ==> lx == r.display.width && ly
            == r.display.height,
        !(r.display.width > 0 && r.display.height > 0) ==> lx == r.source.width && ly
            == r.source.height,
        lx < 0x8000_0000,
        ly < 0x8000_0000,
        ({
            let deg = r.display.rotate as int % 360;
            let (bw, bh) = if deg == 180 {
                (lx, ly)
            } else {
                (ly, lx)
            };
            &&& deg == 90 || deg == 180 || deg == 270
            &&& lx >= bw ==> 0 <= (lx - bw) - 2 * (left - r.display.x) <= 1
            &&& lx <= bw ==> 0 <= (bw - lx) - 2 * (r.display.x - left) <= 1
            &&& ly >= bh ==> 0 <= (ly - bh) - 2 * (top - r.display.y) <= 1
            &&& ly <= bh ==> 0 <= (bh - ly) - 2 * (r.display.y - top) <= 1
            &&& left <= tx < left + bw
            &&& top <= ty < top + bh
        }),
    ensures
        ({
            let deg = r.display.rotate as int % 360;
            let p = region_painted(start, w, h, r, f, m, sample, alpha)[ty * w + tx];
            let i = at.1 * f.w + at.0;
            let column = if deg == 90 {
                ty - top
            } else if deg == 180 {
                lx - 1 - (tx - left)
            } else {
                lx - 1 - (ty - top)
            };
            let row = if deg == 90 {
                ly - 1 - (tx - left)
            } else if deg == 180 {
                ly - 1 - (ty - top)
            } else {
                tx - left
            };
            &&& 0 <= at.0 < f.w
            &&& 0 <= at.1 < f.h
            &&& p.0 == f.data@[4 * i] * alpha / 255
            &&& p.1 == f.data@[4 * i + 1] * alpha / 255
            &&& p.2 == f.data@[4 * i + 2] * alpha / 255
            &&& p.3 == alpha
            &&& at.0 > 0 ==> lx * (2 * at.0 + 1) <= 2 * (column + 1) * f.w
            &&& at.0 < f.w - 1 ==> (column + 1) * (0x10000 * f.w - lx) < lx * (0x10000 * (at.0 + 1)
                + 0x8000)
            &&& at.1 > 0 ==> ly * (2 * at.1 + 1) <= 2 * (row + 1) * f.h
            &&& at.1 < f.h - 1 ==> (row + 1) * (0x10000 * f.h - ly) < ly * (0x10000 * (at.1 + 1)
                + 0x8000)
        }),
{
    let deg = r.display.rotate as int % 360;
    let fp = config::region_footprint(r, m);
    let fw = f.w as int;
    let fh = f.h as int;
    assert(config::logical_size(r) == (lx, ly));
    assert(fp.0 == left && fp.1 == top);
    let l = unturned(deg, lx, ly, tx - left, ty - top);
    let at = (source_coord(l.0, fw, lx), source_coord(l.1, fh, ly));
    law_source_is_spread_evenly(l.0, fw, lx);
    law_source_is_spread_evenly(l.1, fh, ly);
    lemma_row_in(fw, fh, at.0, at.1);
    lemma_row_in(w, h, tx, ty);
    lemma_row_column(w, tx, ty);
    pixels::law_premul_is_a_share(pixel(f.data@, at.1 * fw + at.0), alpha);
    at
}

/// A region that is neither turned by a right angle nor shown as it is takes its
/// colors from the sample of its visible box (left, top, bw, bh): where the
/// sample has a color the window takes it on, multiplied by the opacity, and
/// elsewhere the window stays as it is.
pub proof fn law_sampled_region_shows_its_sample(
    start: Seq<Pixel>,
    w: int,
    h: int,
    r: CaptureRegion,
    f: RegionFrame<'_>,
    m: Measure,
    sample: Seq<u8>,
    alpha: u8,
    tx: int,
    ty: int,
)
    requires
        start.len() == w * h,
        0 <= tx < w,
        0 <= ty < h,
        alpha > 0,
        f.w > 0,
        f.h > 0,
        r.display.width > 0,
        r.display.height > 0,
        ({
            let deg = r.display.rotate as int % 360;
            &&& deg != 90 && deg != 180 && deg != 270
            &&& deg == 0 ==> r.display.width != f.w || r.display.height != f.h
        }),
    ensures
        ({
            let straight = r.display.rotate as int % 360 == 0;
            let bw = if straight {
                r.display.width as int
            } else if m.tilted.0 < 1 {
                1
            } else {
                m.tilted.0 as int
            };
            let bh = if straight {
                r.display.height as int
            } else if m.tilted.1 < 1 {
                1
            } else {
                m.tilted.1 as int
            };
            let fp = config::region_footprint(r, m);
            let i = (ty - fp.1) * bw + (tx - fp.0);
            let p = region_painted(start, w, h, r, f, m, sample, alpha)[ty * w + tx];
            &&& straight ==> fp.0 == r.display.x && fp.1 == r.display.y
            &&& fp.2 == bw && fp.3 == bh
            &&& if fp.0 <= tx < fp.0 + bw && fp.1 <= ty < fp.1 + bh && 4 * i + 3 < sample.len()
                && sample[4 * i + 3] != 0 {
                &&& p.0 == sample[4 * i] * alpha / 255
                &&& p.1 == sample[4 * i + 1] * alpha / 255
                &&& p.2 == sample[4 * i + 2] * alpha / 255
                &&& p.3 == alpha
            } else {
                p == start[ty * w + tx]
            }
        }),
{
    let fp = config::region_footprint(r, m);
    lemma_row_in(w, h, tx, ty);
    lemma_row_column(w, tx, ty);
    pixels::law_premul_is_a_share(pixel(sample, (ty - fp.1) * fp.2 + (tx - fp.0)), alpha);
}

proof fn lemma_copied_pixel(
    start: Seq<Pixel>,
    w: int,
    h: int,
    x: int,
    y: int,
    data: Seq<u8>,
    fw: int,
    alpha: int,
    k: nat,
    tx: int,
    ty: int,
)
    requires
        0 <= x,
        x + fw <= w,
        1 <= fw,
        start.len() == w * h,
        0 <= tx < w,
        0 <= ty < h,
    ensures
        copied_rows(start, w, h, x, y, data, fw, alpha, k)[ty * w + tx] == (if x <= tx < x + fw
            && y <= ty < y + k && (ty - y + 1) * fw * 4 <= data.len() {
            premul_pixel(pixel(data, (ty - y) * fw + (tx - x)), alpha)
        } else {
            start[ty * w + tx]
        }),
    decreases k,
{
    lemma_row_in(w, h, tx, ty);
    if k > 0 {
        lemma_copied_pixel(start, w, h, x, y, data, fw, alpha, (k - 1) as nat, tx, ty);
        lemma_copied_len(start, w, h, x, y, data, fw, alpha, (k - 1) as nat);
        let at = y + k - 1;
        if 0 <= at < h {
            lemma_row_in(w, h, 0, at);
            if ty < at {
                assert(ty * w + w <= at * w) by (nonlinear_arith)
                    requires
                        ty + 1 <= at,
                        w > 0,
                ;
            } else if ty > at {
                assert(at * w + w <= ty * w) by (nonlinear_arith)
                    requires
                        at + 1 <= ty,
                        w > 0,
                ;
            }
        }
    }
}

/// A region that is shown as it is puts every pixel of its frame, multiplied by
/// the opacity, at its place in the window, and changes nothing else. Rows above
/// or below the window, and rows that the frame does not hold, are left out.
pub proof fn law_plain_region_shows_its_pixels(
    start: Seq<Pixel>,
    w: int,
    h: int,
    r: CaptureRegion,
    f: RegionFrame<'_>,
    m: Measure,
    sample: Seq<u8>,
    alpha: u8,
    tx: int,
    ty: int,
)
    requires
        start.len() == w * h,
        0 <= tx < w,
        0 <= ty < h,
        alpha > 0,
        f.w > 0,
        f.h > 0,
        r.display.rotate as int % 360 == 0,
        r.display.width == f.w,
        r.display.height == f.h,
        r.display.x >= 0,
        r.display.x + f.w <= w,
    ensures
        ({
            let p = region_painted(start, w, h, r, f, m, sample, alpha)[ty * w + tx];
            let x = tx - r.display.x;
            let y = ty - r.display.y;
            let i = y * f.w + x;
            if 0 <= x < f.w && 0 <= y < f.h && (y + 1) * f.w * 4 <= f.data@.len() {
                &&& p.0 == f.data@[4 * i] * alpha / 255
                &&& p.1 == f.data@[4 * i + 1] * alpha / 255
                &&& p.2 == f.data@[4 * i + 2] * alpha / 255
                &&& p.3 == alpha
            } else {
                p == start[ty * w + tx]
            }
        }),
{
    let fp = config::region_footprint(r, m);
    assert(fp.0 == r.display.x && fp.1 == r.display.y);
    lemma_copied_pixel(
        start,
        w,
        h,
        fp.0,
        fp.1,
        f.data@,
        f.w as int,
        alpha as int,
        f.h as nat,
        tx,
        ty,
    );
    pixels::law_premul_is_a_share(pixel(f.data@, (ty - fp.1) * f.w + (tx - fp.0)), alpha);
}

/// A region without a size for its display shows in the size of its source.
pub proof fn law_unset_size_is_that_of_the_source(
    start: Seq<Pixel>,
    w: int,
    h: int,
    r: CaptureRegion,
    s: CaptureRegion,
    f: RegionFrame<'_>,
    m: Measure,
    sample: Seq<u8>,
    alpha: u8,
)
    requires
        r.display.width <= 0 || r.display.height <= 0,
        0 < r.source.width < 0x8000_0000,
        0 < r.source.height < 0x8000_0000,
        s == (CaptureRegion {
            display: config::DisplayRect {
                width: r.source.width as i32,
                height: r.source.height as i32,
                ..r.display
            },
            ..r
        }),
    ensures
        region_painted(start, w, h, r, f, m, sample, alpha) == region_painted(
            start,
            w,
            h,
            s,
            f,
            m,
            sample,
            alpha,
        ),
{
    assert(config::logical_size(r) == config::logical_size(s));
    assert forall|tx: int, ty: int|
        region_color(r, f.data@, f.w as int, f.h as int, m, sample, tx, ty) == region_color(
            s,
            f.data@,
            f.w as int,
            f.h as int,
            m,
            sample,
            tx,
            ty,
        ) by {}
    assert(region_painted(start, w, h, r, f, m, sample, alpha) =~= region_painted(
        start,
        w,
        h,
        s,
        f,
        m,
        sample,
        alpha,
    ));
}

/// A region that is fully transparent, or whose frame is empty, shows nothing.
pub proof fn law_invisible_region(
    start: Seq<Pixel>,
    w: int,
    h: int,
    r: CaptureRegion,
    f: RegionFrame<'_>,
    m: Measure,
    sample: Seq<u8>,
    alpha: u8,
)
    requires
        alpha == 0 || f.w == 0 || f.h == 0,
    ensures
        region_painted(start, w, h, r, f, m, sample, alpha) == start,
{
}

/// The region that goes last is on top: painting it once more over the window
/// changes nothing. A single region is painted over the window as it was, and
/// without one the window stays.
pub proof fn law_last_region_is_on_top(
    start: Seq<Pixel>,
    w: int,
    h: int,
    regions: Seq<CaptureRegion>,
    frames: Seq<RegionFrame<'_>>,
    measures: Seq<Measure>,
    samples: Seq<Vec<u8>>,
    alphas: Seq<u8>,
    n: int,
    i: int,
)
    requires
        0 <= i < n <= samples.len(),
        n <= measures.len(),
        forall|j: int|
            0 <= j < n && j != i ==> {
                ||| (#[trigger] regions[j]).display.z_order < regions[i].display.z_order
                ||| regions[j].display.z_order == regions[i].display.z_order && j < i
            },
    ensures
        ({
            let order = zorder::in_order(shown_orders(regions, n));
            let r = rendered(
                start,
                w,
                h,
                regions,
                frames,
                measures,
                samples,
                alphas,
                order,
                n as nat,
            );
            &&& region_painted(
                r,
                w,
                h,
                regions[i],
                frames[i],
                measures[i],
                samples[i]@,
                alphas[i],
            ) == r
            &&& n == 1 ==> r == region_painted(
                start,
                w,
                h,
                regions[i],
                frames[i],
                measures[i],
                samples[i]@,
                alphas[i],
            )
        }),
        rendered(
            start,
            w,
            h,
            regions,
            frames,
            measures,
            samples,
            alphas,
            zorder::in_order(shown_orders(regions, 0)),
            0,
        ) == start,
{
    let zs = shown_orders(regions, n);
    let order = zorder::in_order(zs);
    zorder::law_in_order(zs);
    assert(zs.len() == n);
    let last = order[n - 1];
    assert(order.contains(i));
    let k = choose|k: int| 0 <= k < order.len() && order[k] == i;
    if k < n - 1 {
        assert(zorder::goes_before(zs, order[k], order[n - 1]));
        assert(regions[last].display.z_order < regions[i].display.z_order || regions[last].display.z_order
            == regions[i].display.z_order && last < i);
    }
    assert(last == i);
    let before = rendered(
        start,
        w,
        h,
        regions,
        frames,
        measures,
        samples,
        alphas,
        order,
        (n - 1) as nat,
    );
    let f = frames[i];
    let m = measures[i];
    let s = samples[i]@;
    let a = alphas[i];
    let once = region_painted(before, w, h, regions[i], f, m, s, a);
    let twice = region_painted(once, w, h, regions[i], f, m, s, a);
    lemma_painted_len(before, w, h, regions[i], f, m, s, a);
    lemma_painted_len(once, w, h, regions[i], f, m, s, a);
    assert forall|p: int| 0 <= p < once.len() implies twice[p] == once[p] by {
        lemma_reaches(once, before, w, h, regions[i], f, m, s, a, p);
    }
    assert(twice =~= once);
}

/// As many regions are shown as there are frames, but at most 32.
pub proof fn law_shown_regions(regions: int, frames: int)
    ensures
        shown(regions, frames) <= regions,
        shown(regions, frames) <= frames,
        shown(regions, frames) <= 32,
        shown(regions, frames) == regions || shown(regions, frames) == frames || shown(
            regions,
            frames,
        ) == 32,
{
}

} // verus!
