//! Pixel buffers: four bytes for each pixel, rows without padding.

use vstd::prelude::*;

verus! {

/// The four bytes of a pixel: blue, green, red, alpha.
pub type Pixel = (u8, u8, u8, u8);

/// Pixel `p` of a buffer.
pub open spec fn pixel(s: Seq<u8>, p: int) -> Pixel {
    (s[4 * p], s[4 * p + 1], s[4 * p + 2], s[4 * p + 3])
}

/// The pixels of a buffer.
pub open spec fn pixels_of(s: Seq<u8>) -> Seq<Pixel> {
    Seq::new(s.len() / 4, |p: int| pixel(s, p))
}

/// A buffer of which the pixels before `at` are those of `target`, and the
/// others those of `start`.
pub open spec fn progress(start: Seq<Pixel>, target: Seq<Pixel>, at: int) -> Seq<Pixel> {
    Seq::new(start.len(), |p: int| if p < at { target[p] } else { start[p] })
}

/// Where the two buffers agree, progress makes no difference.
pub proof fn lemma_progress_skip(start: Seq<Pixel>, target: Seq<Pixel>, a: int, b: int)
    requires
        a <= b,
        forall|p: int| a <= p < b && 0 <= p < start.len() ==> #[trigger] target[p] == start[p],
    ensures
        progress(start, target, a) == progress(start, target, b),
{
    assert(progress(start, target, a) =~= progress(start, target, b));
}

/// Writing one pixel of the target makes one step of progress.
pub proof fn lemma_progress_step(start: Seq<Pixel>, target: Seq<Pixel>, a: int)
    requires
        0 <= a < start.len(),
    ensures
        progress(start, target, a).update(a, target[a]) == progress(start, target, a + 1),
{
    assert(progress(start, target, a).update(a, target[a]) =~= progress(start, target, a + 1));
}

pub proof fn lemma_progress_ends(start: Seq<Pixel>, target: Seq<Pixel>)
    requires
        start.len() == target.len(),
    ensures
        progress(start, target, 0) == start,
        progress(start, target, start.len() as int) == target,
{
    assert(progress(start, target, 0) =~= start);
    assert(progress(start, target, start.len() as int) =~= target);
}

/// Column and row of the pixel that lies `x` behind the beginning of row `y`.
pub proof fn lemma_row_column(w: int, x: int, y: int)
    requires
        0 <= x < w,
    ensures
        (y * w + x) / w == y,
        (y * w + x) % w == x,
{
    vstd::arithmetic::div_mod::lemma_fundamental_div_mod_converse(y * w + x, w, y, x);
}

/// The pixels of row `y` lie in a buffer of `h` rows.
pub proof fn lemma_row_in(w: int, h: int, x: int, y: int)
    requires
        0 <= x < w,
        0 <= y < h,
    ensures
        0 <= y * w + x < w * h,
        y * w + w <= w * h,
{
    assert(0 <= y * w + x && y * w + w <= w * h) by (nonlinear_arith)
        requires
            0 <= x < w,
            0 <= y < h,
    ;
}

/// Every pixel of a buffer of width `w` has a row and a column.
pub proof fn lemma_split(w: int, p: int)
    requires
        w > 0,
    ensures
        p == (p / w) * w + p % w,
        0 <= p % w < w,
{
    vstd::arithmetic::div_mod::lemma_fundamental_div_mod(p, w);
    assert(w * (p / w) == (p / w) * w) by (nonlinear_arith);
    assert(0 <= p % w < w) by (nonlinear_arith)
        requires
            w > 0,
    ;
}

/// A pixel before row `y` lies in a row above it.
pub proof fn lemma_row_before(w: int, p: int, y: int)
    requires
        w > 0,
        p < y * w,
    ensures
        p / w < y,
{
    lemma_split(w, p);
    let q = p / w;
    assert(q < y) by (nonlinear_arith)
        requires
            p == q * w + p % w,
            p % w >= 0,
            p < y * w,
            w > 0,
    ;
}

/// A pixel from row `y` on lies in that row or below it.
pub proof fn lemma_row_after(w: int, p: int, y: int)
    requires
        w > 0,
        p >= y * w,
    ensures
        p / w >= y,
{
    lemma_split(w, p);
    let q = p / w;
    assert(q >= y) by (nonlinear_arith)
        requires
            p == q * w + p % w,
            p % w < w,
            p >= y * w,
            w > 0,
    ;
}

/// The pixels of a buffer lie in its rows.
pub proof fn lemma_rows_below(w: int, h: int, p: int)
    requires
        w > 0,
        0 <= p < w * h,
    ensures
        0 <= p / w < h,
{
    assert(h * w == w * h) by (nonlinear_arith);
    lemma_row_before(w, p, h);
    lemma_row_after(w, p, 0);
}

/// Writes pixel `p` of a buffer.
pub fn write_pixel(dst: &mut Vec<u8>, p: usize, v: (u8, u8, u8, u8))
    requires
        4 * p + 4 <= old(dst)@.len(),
    ensures
        final(dst)@.len() == old(dst)@.len(),
        pixels_of(final(dst)@) == pixels_of(old(dst)@).update(p as int, v),
{
    let n: usize = dst.len();
    let i: usize = p * 4;
    dst.set(i, v.0);
    dst.set(i + 1, v.1);
    dst.set(i + 2, v.2);
    dst.set(i + 3, v.3);
    assert(pixels_of(dst@) =~= pixels_of(old(dst)@).update(p as int, v));
}

/// Reads pixel `p` of a buffer.
pub fn read_pixel(src: &Vec<u8>, p: usize) -> (r: (u8, u8, u8, u8))
    requires
        4 * p + 4 <= src@.len(),
    ensures
        r == pixel(src@, p as int),
        r == pixels_of(src@)[p as int],
{
    let n: usize = src.len();
    let i: usize = p * 4;
    (src[i], src[i + 1], src[i + 2], src[i + 3])
}

/// A color channel multiplied by an alpha.
pub open spec fn premul(v: u8, alpha: int) -> u8 {
    (v * alpha / 255) as u8
}

/// A pixel of a color, multiplied by an alpha.
pub open spec fn premul_pixel(c: Pixel, alpha: int) -> Pixel {
    (premul(c.0, alpha), premul(c.1, alpha), premul(c.2, alpha), alpha as u8)
}

pub fn premultiply(v: u8, alpha: u8) -> (r: u8)
    ensures
        r == premul(v, alpha as int),
{
    assert(v * alpha <= 255 * 255) by (nonlinear_arith)
        requires
            v <= 255,
            alpha <= 255,
    ;
    (v as u32 * alpha as u32 / 255) as u8
}

/// With full alpha a channel stays as it is; a multiplied channel is never above
/// the alpha.
pub proof fn law_premul(v: u8, alpha: u8)
    ensures
        premul(v, 255) == v,
        premul(v, alpha as int) <= alpha,
        premul(v, 0) == 0,
{
    assert(v * alpha <= 255 * alpha) by (nonlinear_arith)
        requires
            v <= 255,
            alpha >= 0,
    ;
}

/// A multiplied channel is the channel's share of the alpha, rounded down; the
/// pixel of a color has its three channels multiplied and the alpha itself.
pub proof fn law_premul_is_a_share(c: Pixel, alpha: u8)
    ensures
        premul(c.0, alpha as int) == c.0 * alpha / 255,
        ({
            let p = premul_pixel(c, alpha as int);
            &&& p.0 == c.0 * alpha / 255
            &&& p.1 == c.1 * alpha / 255
            &&& p.2 == c.2 * alpha / 255
            &&& p.3 == alpha
        }),
{
    assert(0 <= c.0 * alpha <= 255 * 255) by (nonlinear_arith)
        requires
            c.0 <= 255,
            alpha <= 255,
    ;
    assert(0 <= c.1 * alpha <= 255 * 255) by (nonlinear_arith)
        requires
            c.1 <= 255,
            alpha <= 255,
    ;
    assert(0 <= c.2 * alpha <= 255 * 255) by (nonlinear_arith)
        requires
            c.2 <= 255,
            alpha <= 255,
    ;
}

/// A buffer holds its pixels one after the other, four bytes each.
pub proof fn law_pixels_of_bytes(s: Seq<u8>, p: int)
    requires
        0 <= p,
        4 * p + 4 <= s.len(),
    ensures
        pixels_of(s).len() == s.len() / 4,
        pixels_of(s)[p] == (s[4 * p], s[4 * p + 1], s[4 * p + 2], s[4 * p + 3]),
{
}

} // verus!
