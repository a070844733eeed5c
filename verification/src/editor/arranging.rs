//! The canvas of the arranging phase: sizes and order of the elements, what a
//! point hits, and pictures.

use vstd::prelude::*;

use crate::color;
use crate::color::read_color;
use crate::editor::common;
use crate::editor::common::rgb;
use crate::editor::state;
use crate::editor::state::{Ed, EditorState, El, ElemKind, Element};
use crate::num;
use crate::num::{max_i32, min_i64};
use crate::picture;
use crate::picture::decode_picture;
use crate::pixels;
use crate::pixels::{
    lemma_progress_ends, lemma_progress_skip, lemma_progress_step, lemma_row_after,
    lemma_row_before, lemma_row_column, lemma_row_in, lemma_rows_below, premultiply, read_pixel,
    write_pixel, Pixel,
};
use crate::text;
use crate::text::{chars_of, owned, same_text, trim_chars};
use crate::zorder;

verus! {

// ===== Pictures =====

/// A decoded picture: size, and pixels multiplied by their alpha.
#[derive(Debug)]
pub struct PngEntry {
    pub w: u32,
    pub h: u32,
    pub pixels: Vec<u8>,
}

/// A decoded picture: size and pixels.
pub struct PngView {
    pub w: u32,
    pub h: u32,
    pub pixels: Seq<u8>,
}

/// Decoded pictures by file name; `None` for a file that is no picture.
pub struct PngCache {
    pub entries: Vec<(String, Option<PngEntry>)>,
}

pub open spec fn entry_view(e: Option<PngEntry>) -> Option<PngView> {
    match e {
        Some(p) => Some(PngView { w: p.w, h: p.h, pixels: p.pixels@ }),
        None => None,
    }
}

/// What is kept for a file name, if anything is.
pub open spec fn lookup(s: Seq<(String, Option<PngEntry>)>, path: Seq<char>) -> Option<
    Option<PngView>,
>
    decreases s.len(),
{
    if s.len() == 0 {
        None
    } else if s[0].0@ == path {
        Some(entry_view(s[0].1))
    } else {
        lookup(s.drop_first(), path)
    }
}

impl PngCache {
    /// Every file name occurs once.
    pub open spec fn wf(self) -> bool {
        forall|i: int, j: int|
            0 <= i < j < self.entries@.len() ==> (#[trigger] self.entries@[i]).0@ != (
            #[trigger] self.entries@[j]).0@
    }

    /// What is kept for a file name, if anything is.
    pub open spec fn kept(self, path: Seq<char>) -> Option<Option<PngView>> {
        lookup(self.entries@, path)
    }

    /// A cache that holds nothing.
    pub fn new() -> (r: Self)
        ensures
            r.wf(),
            forall|path: Seq<char>| (#[trigger] r.kept(path)) is None,
    {
        PngCache { entries: Vec::new() }
    }

    /// Where a file name is kept.
    fn find(&self, path: &str) -> (r: Option<usize>)
        ensures
            match r {
                Some(i) => i < self.entries@.len() && self.kept(path@) == Some(
                    entry_view(self.entries@[i as int].1),
                ) && self.entries@[i as int].0@ == path@,
                None => self.kept(path@) is None && forall|j: int|
                    0 <= j < self.entries@.len() ==> (#[trigger] self.entries@[j]).0@ != path@,
            },
    {
        let ghost all = self.entries@;
        assert(all.skip(0) =~= all);
        for i in 0..self.entries.len()
            invariant
                all == self.entries@,
                lookup(all, path@) == lookup(all.skip(i as int), path@),
                forall|j: int| 0 <= j < i ==> (#[trigger] all[j]).0@ != path@,
        {
            assert(all.skip(i as int)[0] == all[i as int]);
            if same_text(self.entries[i].0.as_str(), path) {
                return Some(i);
            }
            assert(all.skip(i as int).drop_first() =~= all.skip(i + 1));
        }
        None
    }

    /// Whether a file has to be read for a name: it is not blank, and nothing is
    /// kept for it.
    pub fn wants(&self, path: &str) -> (r: bool)
        ensures
            r == (text::trim(path@).len() > 0 && self.kept(path@) is None),
    {
        trim_chars(&chars_of(path)).len() > 0 && self.find(path).is_none()
    }

    /// The picture of a file name: none for a blank name, for a file that is no
    /// picture, and where nothing is kept.
    pub fn get(&self, path: &str) -> (r: Option<&PngEntry>)
        ensures
            match r {
                Some(p) => text::trim(path@).len() > 0 && self.kept(path@) == Some(
                    entry_view(Some(*p)),
                ),
                None => text::trim(path@).len() == 0 || self.kept(path@) is None || self.kept(path@)
                    == Some(None::<PngView>),
            },
    {
        if trim_chars(&chars_of(path)).len() == 0 {
            return None;
        }
        match self.find(path) {
            Some(i) => match &self.entries[i].1 {
                Some(p) => Some(p),
                None => None,
            },
            None => None,
        }
    }

    /// Keeps what the bytes of a file decode to; nothing is changed where the
    /// name is blank or something is kept for it. `file` is `None` where the file
    /// could not be read.
    pub fn load(&mut self, path: &str, file: Option<&Vec<u8>>)
        requires
            old(self).wf(),
        ensures
            final(self).wf(),
            forall|other: Seq<char>|
                other != path@ ==> (#[trigger] final(self).kept(other)) == old(self).kept(other),
            text::trim(path@).len() == 0 || old(self).kept(path@) is Some ==> final(self).kept(
                path@,
            ) == old(self).kept(path@),
            text::trim(path@).len() > 0 && old(self).kept(path@) is None ==> final(self).kept(path@)
                == Some(
                match file {
                    Some(b) => preview(b@),
                    None => None,
                },
            ),
    {
        if !self.wants(path) {
            return;
        }
        let decoded: Option<PngEntry> = match file {
            Some(b) => decode_png_premul(b),
            None => None,
        };
        let ghost before = self.entries@;
        let e: (String, Option<PngEntry>) = (owned(path), decoded);
        let found: Option<usize> = self.find(path);
        self.entries.push(e);
        proof {
            assert forall|other: Seq<char>| other != path@ implies lookup(before.push(e), other)
                == lookup(before, other) by {
                lemma_lookup_pushed(before, e, other);
            }
            lemma_lookup_pushed(before, e, path@);
        }
    }
}

/// What is kept for a name is not changed by what is put behind it, and what is
/// put last counts where nothing was kept.
proof fn lemma_lookup_pushed(s: Seq<(String, Option<PngEntry>)>, e: (String, Option<PngEntry>), path: Seq<char>)
    ensures
        lookup(s.push(e), path) == (match lookup(s, path) {
            Some(p) => Some(p),
            None => if e.0@ == path {
                Some(entry_view(e.1))
            } else {
                None
            },
        }),
    decreases s.len(),
{
    let t = s.push(e);
    if s.len() == 0 {
        assert(t[0] == e);
        assert(t.drop_first() =~= Seq::empty());
        assert(lookup(t.drop_first(), path) is None);
    } else {
        assert(t[0] == s[0]);
        assert(t.drop_first() =~= s.drop_first().push(e));
        lemma_lookup_pushed(s.drop_first(), e, path);
    }
}

/// A pixel of a picture for the canvas: blue first, multiplied by its alpha.
pub open spec fn canvas_pixel(p: Pixel) -> Pixel {
    pixels::premul_pixel((p.2, p.1, p.0, p.3), p.3 as int)
}

/// The pixels of a picture for the canvas.
pub open spec fn canvas_pixels(rgba: Seq<u8>) -> Seq<Pixel> {
    pixels::pixels_of(rgba).map_values(|p: Pixel| canvas_pixel(p))
}

/// The bytes of pixels.
pub open spec fn bytes_of(s: Seq<Pixel>) -> Seq<u8> {
    Seq::new(
        s.len() * 4,
        |i: int|
            if i % 4 == 0 {
                s[i / 4].0
            } else if i % 4 == 1 {
                s[i / 4].1
            } else if i % 4 == 2 {
                s[i / 4].2
            } else {
                s[i / 4].3
            },
    )
}

/// What the canvas shows of the bytes of a PNG file; nothing where they are no
/// picture that can be shown.
pub open spec fn preview(bytes: Seq<u8>) -> Option<PngView> {
    if picture::frame_bytes(bytes) > isize::MAX {
        None
    } else {
        match picture::picture_text(picture::png_decoded(bytes)) {
            Ok((w, h, rgba)) => Some(PngView { w, h, pixels: bytes_of(canvas_pixels(rgba)) }),
            Err(_) => None,
        }
    }
}

/// The pixels of a picture for the canvas.
pub fn premultiplied(rgba: &Vec<u8>) -> (r: Vec<u8>)
    requires
        rgba@.len() % 4 == 0,
    ensures
        r@ == bytes_of(canvas_pixels(rgba@)),
{
    let n: usize = rgba.len() / 4;
    let mut r: Vec<u8> = Vec::new();
    for p in 0..n
        invariant
            n == rgba@.len() / 4,
            rgba@.len() % 4 == 0,
            r@ == bytes_of(canvas_pixels(rgba@)).take(4 * p),
    {
        let c: (u8, u8, u8, u8) = read_pixel(rgba, p);
        let a: u8 = c.3;
        r.push(premultiply(c.2, a));
        r.push(premultiply(c.1, a));
        r.push(premultiply(c.0, a));
        r.push(a);
        proof {
            let all = bytes_of(canvas_pixels(rgba@));
            assert(canvas_pixels(rgba@)[p as int] == canvas_pixel(c));
            assert(all[4 * p] == r@[4 * p] && all[4 * p + 1] == r@[4 * p + 1] && all[4 * p + 2]
                == r@[4 * p + 2] && all[4 * p + 3] == r@[4 * p + 3]);
            assert(r@ =~= all.take(4 * (p + 1)));
        }
    }
    proof {
        let all = bytes_of(canvas_pixels(rgba@));
        assert(all.take(4 * n) =~= all);
    }
    r
}

/// Decodes the bytes of a PNG file for the canvas.
pub fn decode_png_premul(bytes: &Vec<u8>) -> (r: Option<PngEntry>)
    ensures
        entry_view(r) == preview(bytes@),
{
    match decode_picture(bytes) {
        Some(Ok(p)) => {
            assert((p.w * p.h * 4) % 4 == 0) by (nonlinear_arith);
            let pixels: Vec<u8> = premultiplied(&p.rgba);
            Some(PngEntry { w: p.w, h: p.h, pixels })
        },
        _ => None,
    }
}

// ===== Sizes =====

/// The size of an element on the canvas: a picture without a size of its own has
/// that of its file, or a small one where there is none; a text takes up what its
/// content does; everything else is at least two pixels wide and high.
pub open spec fn size_on_canvas(el: El, cache: PngCache, text_size: (i32, i32)) -> (i32, i32) {
    let w = el.display.width;
    let h = el.display.height;
    if el.extra.kind == ElemKind::Png && (w <= 0 || h <= 0) {
        match cache.kept(el.extra.png_path) {
            Some(Some(p)) => (p.w as i32, p.h as i32),
            _ => (40, 20),
        }
    } else if el.extra.kind == ElemKind::Text {
        text_size
    } else {
        (num::int_max(w as int, 2) as i32, num::int_max(h as int, 2) as i32)
    }
}

/// The size of an element on the canvas. `text_size` is what its content takes
/// up where it is a text.
pub fn eff_size(e: &Element, cache: &PngCache, text_size: (i32, i32)) -> (r: (i32, i32))
    ensures
        r == size_on_canvas(e@, *cache, text_size),
{
    let w: i32 = e.display.width;
    let h: i32 = e.display.height;
    if e.extra.kind == ElemKind::Png && (w <= 0 || h <= 0) {
        return match cache.find(e.extra.png_path.as_str()) {
            Some(i) => match &cache.entries[i].1 {
                Some(p) => (p.w as i32, p.h as i32),
                None => (40, 20),
            },
            None => (40, 20),
        };
    }
    if e.extra.kind == ElemKind::Text {
        return text_size;
    }
    (max_i32(w, 2), max_i32(h, 2))
}

/// The sizes of all elements on the canvas. `text_sizes` holds what the contents
/// of the texts take up.
pub fn eff_sizes(elements: &Vec<Element>, cache: &PngCache, text_sizes: &Vec<(i32, i32)>) -> (r: Vec<
    (i32, i32),
>)
    requires
        text_sizes@.len() == elements@.len(),
    ensures
        r@.len() == elements@.len(),
        forall|i: int|
            0 <= i < r@.len() ==> #[trigger] r@[i] == size_on_canvas(
                state::els(elements@)[i],
                *cache,
                text_sizes@[i],
            ),
{
    let mut r: Vec<(i32, i32)> = Vec::new();
    for i in 0..elements.len()
        invariant
            text_sizes@.len() == elements@.len(),
            r@.len() == i,
            forall|j: int|
                0 <= j < i ==> #[trigger] r@[j] == size_on_canvas(
                    state::els(elements@)[j],
                    *cache,
                    text_sizes@[j],
                ),
    {
        r.push(eff_size(&elements[i], cache, text_sizes[i]));
    }
    r
}

// ===== Order and hits =====

/// Numbers by which elements are tried for a hit: the higher its layer, the
/// sooner an element is tried.
pub open spec fn hit_keys(s: Seq<El>) -> Seq<i64> {
    s.map_values(|e: El| (-e.extra.z_order) as i64)
}

/// The order in which elements are tried for a hit.
pub open spec fn hit_order(s: Seq<El>) -> Seq<int> {
    zorder::in_order(hit_keys(s))
}

/// Whether a point is on an element, edges and all.
pub open spec fn on_element(e: Ed, sizes: Seq<(i32, i32)>, i: int, x: int, y: int) -> bool {
    let d = e.doc.elements[i].display;
    common::in_box(
        x,
        y,
        e.area.overlay_x + d.x,
        e.area.overlay_y + d.y,
        sizes[i].0 as int,
        sizes[i].1 as int,
    )
}

/// Whether a point is on the handle at the lower right corner of an element.
pub open spec fn on_handle(e: Ed, sizes: Seq<(i32, i32)>, i: int, x: int, y: int) -> bool {
    let d = e.doc.elements[i].display;
    common::in_box(
        x,
        y,
        e.area.overlay_x + d.x + sizes[i].0 - 12,
        e.area.overlay_y + d.y + sizes[i].1 - 12,
        12,
        12,
    )
}

/// What a point hits, from an element of an order on: the element, and whether
/// it is its handle.
pub open spec fn hit_from(
    e: Ed,
    sizes: Seq<(i32, i32)>,
    order: Seq<int>,
    x: int,
    y: int,
    k: int,
) -> Option<(usize, bool)>
    decreases order.len() - k,
{
    if k >= order.len() {
        None
    } else if on_handle(e, sizes, order[k], x, y) {
        Some((order[k] as usize, true))
    } else if on_element(e, sizes, order[k], x, y) {
        Some((order[k] as usize, false))
    } else {
        hit_from(e, sizes, order, x, y, k + 1)
    }
}

/// What a point hits on the canvas.
pub open spec fn canvas_hit(e: Ed, sizes: Seq<(i32, i32)>, x: int, y: int) -> Option<(usize, bool)> {
    hit_from(e, sizes, hit_order(e.doc.elements), x, y, 0)
}

/// What a point hits on the canvas: the topmost element there, and whether it is
/// its handle.
pub fn hit_test(st: &EditorState, sizes: &Vec<(i32, i32)>, x: i32, y: i32) -> (r: Option<(usize, bool)>)
    requires
        sizes@.len() == st@.doc.elements.len(),
    ensures
        r == canvas_hit(st@, sizes@, x as int, y as int),
        match r {
            Some(h) => h.0 < st@.doc.elements.len(),
            None => true,
        },
{
    let ghost all = st@.doc.elements;
    let mut keys: Vec<i64> = Vec::new();
    for i in 0..st.doc.elements.len()
        invariant
            all == st@.doc.elements,
            keys@ == hit_keys(all).take(i as int),
    {
        assert(all[i as int] == st.doc.elements@[i as int]@);
        keys.push(-(st.doc.elements[i].extra.z_order as i64));
        assert(keys@ =~= hit_keys(all).take(i + 1));
    }
    assert(keys@ =~= hit_keys(all));
    let order: Vec<usize> = zorder::sort_by_z(&keys);
    let ghost ord = hit_order(all);
    assert forall|k: int| 0 <= k < order@.len() implies ord[k] == #[trigger] order@[k] by {
        assert(zorder::index_views(order@)[k] == order@[k]);
    }
    for k in 0..order.len()
        invariant
            all == st@.doc.elements,
            sizes@.len() == all.len(),
            ord == hit_order(all),
            order@.len() == ord.len(),
            forall|j: int| 0 <= j < order@.len() ==> #[trigger] order@[j] < all.len(),
            forall|j: int| 0 <= j < order@.len() ==> ord[j] == #[trigger] order@[j],
            canvas_hit(st@, sizes@, x as int, y as int) == hit_from(
                st@,
                sizes@,
                ord,
                x as int,
                y as int,
                k as int,
            ),
    {
        let i: usize = order[k];
        assert(all[i as int] == st.doc.elements@[i as int]@);
        let (ew, eh): (i64, i64) = (sizes[i].0 as i64, sizes[i].1 as i64);
        let rx: i64 = st.area.overlay_x as i64 + st.doc.elements[i].display.x as i64;
        let ry: i64 = st.area.overlay_y as i64 + st.doc.elements[i].display.y as i64;
        let (x, y): (i64, i64) = (x as i64, y as i64);
        if x >= rx + ew - 12 && x <= rx + ew && y >= ry + eh - 12 && y <= ry + eh {
            return Some((i, true));
        }
        if x >= rx && x <= rx + ew && y >= ry && y <= ry + eh {
            return Some((i, false));
        }
    }
    None
}

/// How much what is selected is lifted: above every layer.
pub const SELECTED_LIFT: i64 = 0x1_0000_0000;

/// Numbers by which elements are drawn: by layers, and what is selected above
/// all others.
pub open spec fn draw_keys(s: Seq<El>, selected: Seq<usize>) -> Seq<i64> {
    Seq::new(
        s.len(),
        |i: int|
            (s[i].extra.z_order + if selected.contains(i as usize) {
                SELECTED_LIFT as int
            } else {
                0
            }) as i64,
    )
}

/// The order in which elements are drawn.
pub open spec fn draw_order(d: state::DocView) -> Seq<int> {
    zorder::in_order(draw_keys(d.elements, d.selected))
}

/// Whether a list holds an index.
pub fn holds(v: &Vec<usize>, i: usize) -> (r: bool)
    ensures
        r == v@.contains(i),
{
    for k in 0..v.len()
        invariant
            forall|j: int| 0 <= j < k ==> v@[j] != i,
    {
        if v[k] == i {
            assert(v@[k as int] == i);
            return true;
        }
    }
    false
}

/// The order in which the elements are drawn: higher layers above lower ones,
/// and what is selected above all others.
pub fn drawing_order(doc: &state::Doc) -> (r: Vec<usize>)
    ensures
        zorder::index_views(r@) == draw_order(doc@),
        r@.len() == doc@.elements.len(),
        forall|k: int| 0 <= k < r@.len() ==> #[trigger] r@[k] < doc@.elements.len(),
{
    let ghost all = doc@.elements;
    let mut keys: Vec<i64> = Vec::new();
    for i in 0..doc.elements.len()
        invariant
            all == doc@.elements,
            keys@ == draw_keys(all, doc@.selected).take(i as int),
    {
        assert(all[i as int] == doc.elements@[i as int]@);
        let up: i64 = if holds(&doc.selected_indices, i) {
            SELECTED_LIFT
        } else {
            0
        };
        keys.push(doc.elements[i].extra.z_order as i64 + up);
        assert(keys@ =~= draw_keys(all, doc@.selected).take(i + 1));
    }
    assert(keys@ =~= draw_keys(all, doc@.selected));
    zorder::sort_by_z(&keys)
}

// ===== Laying a picture over the canvas =====

/// A channel of a pixel over another that is `a` covered.
pub open spec fn over_channel(s: u8, d: u8, a: u8) -> u8 {
    ((s + d * (255 - a) / 255) % 256) as u8
}

/// A pixel of a picture over one of the canvas. Alphas add up.
pub open spec fn picture_over(s: Pixel, d: Pixel) -> Pixel {
    if s.3 == 0 {
        d
    } else if s.3 == 255 {
        s
    } else {
        (
            over_channel(s.0, d.0, s.3),
            over_channel(s.1, d.1, s.3),
            over_channel(s.2, d.2, s.3),
            num::int_min(d.3 + s.3, 255) as u8,
        )
    }
}

/// The part of a rectangle that lies on the canvas, if any does: left, top,
/// right, bottom.
pub open spec fn part_on_canvas(x: int, y: int, w: int, h: int, sw: int, sh: int) -> Option<
    (int, int, int, int),
> {
    let x0 = num::int_max(x, 0);
    let y0 = num::int_max(y, 0);
    let x1 = num::int_min(x + w, sw);
    let y1 = num::int_min(y + h, sh);
    if w <= 0 || h <= 0 || x1 <= x0 || y1 <= y0 {
        None
    } else {
        Some((x0, y0, x1, y1))
    }
}

/// The part of a rectangle that lies on the canvas.
pub fn visible_part(x: i32, y: i32, w: i32, h: i32, sw: i32, sh: i32) -> (r: Option<
    (i32, i32, i32, i32),
>)
    ensures
        match r {
            Some(p) => part_on_canvas(
                x as int,
                y as int,
                w as int,
                h as int,
                sw as int,
                sh as int,
            ) == Some((p.0 as int, p.1 as int, p.2 as int, p.3 as int)),
            None => part_on_canvas(x as int, y as int, w as int, h as int, sw as int, sh as int)
                is None,
        },
{
    if w <= 0 || h <= 0 {
        return None;
    }
    let x0: i32 = max_i32(x, 0);
    let y0: i32 = max_i32(y, 0);
    let x1: i64 = min_i64(x as i64 + w as i64, sw as i64);
    let y1: i64 = min_i64(y as i64 + h as i64, sh as i64);
    if x1 <= x0 as i64 || y1 <= y0 as i64 {
        return None;
    }
    Some((x0, y0, x1 as i32, y1 as i32))
}

/// The part of a picture in a rectangle that lies on the canvas, if any does. A
/// picture without pixels has none.
pub fn picture_part(p: &PngEntry, x: i32, y: i32, w: i32, h: i32, sw: i32, sh: i32) -> (r: Option<
    (i32, i32, i32, i32),
>)
    ensures
        match r {
            Some(v) => p.w > 0 && p.h > 0 && part_on_canvas(
                x as int,
                y as int,
                w as int,
                h as int,
                sw as int,
                sh as int,
            ) == Some((v.0 as int, v.1 as int, v.2 as int, v.3 as int)),
            None => p.w == 0 || p.h == 0 || part_on_canvas(
                x as int,
                y as int,
                w as int,
                h as int,
                sw as int,
                sh as int,
            ) is None,
        },
{
    if p.w == 0 || p.h == 0 {
        None
    } else {
        visible_part(x, y, w, h, sw, sh)
    }
}

/// The canvas of a width with pixels laid over the part from (x0, y0) to
/// (x1, y1).
pub open spec fn laid_over(
    start: Seq<Pixel>,
    w: int,
    part: (int, int, int, int),
    samples: Seq<Pixel>,
) -> Seq<Pixel> {
    Seq::new(
        start.len(),
        |p: int|
            {
                let x = p % w - part.0;
                let y = p / w - part.1;
                let pw = part.2 - part.0;
                if 0 <= x < pw && 0 <= y < part.3 - part.1 {
                    picture_over(samples[y * pw + x], start[p])
                } else {
                    start[p]
                }
            },
    )
}

fn channel_over(s: u8, d: u8, a: u8) -> (r: u8)
    ensures
        r == over_channel(s, d, a),
{
    let inv: u32 = 255 - a as u32;
    assert(0 <= d * inv <= 255 * 255) by (nonlinear_arith)
        requires
            0 <= d <= 255,
            0 <= inv <= 255,
    ;
    ((s as u32 + d as u32 * inv / 255) % 256) as u8
}

fn pixel_over(s: (u8, u8, u8, u8), d: (u8, u8, u8, u8)) -> (r: (u8, u8, u8, u8))
    ensures
        r == picture_over(s, d),
{
    if s.3 == 0 {
        d
    } else if s.3 == 255 {
        s
    } else {
        let a: u32 = d.3 as u32 + s.3 as u32;
        let top: u8 = if a > 255 {
            255
        } else {
            a as u8
        };
        (
            channel_over(s.0, d.0, s.3),
            channel_over(s.1, d.1, s.3),
            channel_over(s.2, d.2, s.3),
            top,
        )
    }
}

/// Lays the pixels of a scaled picture over the part of the canvas from (x0, y0)
/// to (x1, y1). `samples` holds them by rows, multiplied by their alphas.
pub fn composite_png(
    buf: &mut Vec<u8>,
    sw: i32,
    sh: i32,
    samples: &Vec<u8>,
    part: (i32, i32, i32, i32),
)
    requires
        sw * sh * 4 <= i32::MAX,
        old(buf)@.len() == sw * sh * 4,
        0 <= part.0 < part.2 <= sw,
        0 <= part.1 < part.3 <= sh,
        samples@.len() == (part.2 - part.0) * (part.3 - part.1) * 4,
    ensures
        final(buf)@.len() == old(buf)@.len(),
        pixels::pixels_of(final(buf)@) == laid_over(
            pixels::pixels_of(old(buf)@),
            sw as int,
            (part.0 as int, part.1 as int, part.2 as int, part.3 as int),
            pixels::pixels_of(samples@),
        ),
{
    let ghost start = pixels::pixels_of(buf@);
    let ghost wi = sw as int;
    let ghost hi = sh as int;
    let ghost n = wi * hi;
    let ghost pt = (part.0 as int, part.1 as int, part.2 as int, part.3 as int);
    let ghost from = pixels::pixels_of(samples@);
    let ghost target = laid_over(start, wi, pt, from);
    let (x0, y0, x1, y1): (i32, i32, i32, i32) = part;
    let pw: usize = (x1 - x0) as usize;
    let held: usize = samples.len();
    proof {
        lemma_progress_ends(start, target);
        assert(0 <= y0 * wi) by (nonlinear_arith)
            requires
                0 <= y0,
                wi > 0,
        ;
        assert forall|p: int| 0 <= p < y0 * wi && p < start.len() implies #[trigger] target[p]
            == start[p] by {
            lemma_row_before(wi, p, y0 as int);
        }
        lemma_progress_skip(start, target, 0, y0 * wi);
    }
    let mut ty: i32 = y0;
    while ty < y1
        invariant
            sw > 0,
            sh > 0,
            sw * sh * 4 <= i32::MAX,
            wi == sw,
            hi == sh,
            n == wi * hi,
            buf@.len() == sw * sh * 4,
            start.len() == n,
            pt == (x0 as int, y0 as int, x1 as int, y1 as int),
            0 <= x0 < x1 <= sw,
            0 <= y0 < y1 <= sh,
            pw == x1 - x0,
            held == samples@.len(),
            samples@.len() == (x1 - x0) * (y1 - y0) * 4,
            from == pixels::pixels_of(samples@),
            y0 <= ty <= y1,
            target == laid_over(start, wi, pt, from),
            pixels::pixels_of(buf@) == pixels::progress(start, target, ty * wi),
        decreases y1 - ty,
    {
        proof {
            assert forall|p: int|
                ty * wi <= p < ty * wi + x0 && 0 <= p < start.len() implies #[trigger] target[p]
                == start[p] by {
                lemma_row_column(wi, p - ty * wi, ty as int);
            }
            lemma_progress_skip(start, target, ty * wi, ty * wi + x0);
        }
        let mut tx: i32 = x0;
        while tx < x1
            invariant
                sw > 0,
                sh > 0,
                sw * sh * 4 <= i32::MAX,
                wi == sw,
                hi == sh,
                n == wi * hi,
                buf@.len() == sw * sh * 4,
                start.len() == n,
                pt == (x0 as int, y0 as int, x1 as int, y1 as int),
                0 <= x0 < x1 <= sw,
                0 <= y0 < y1 <= sh,
                pw == x1 - x0,
                held == samples@.len(),
                samples@.len() == (x1 - x0) * (y1 - y0) * 4,
                from == pixels::pixels_of(samples@),
                x0 <= tx <= x1,
                y0 <= ty < y1,
                target == laid_over(start, wi, pt, from),
                pixels::pixels_of(buf@) == pixels::progress(start, target, ty * wi + tx),
            decreases x1 - tx,
        {
            proof {
                lemma_row_in(wi, hi, tx as int, ty as int);
                lemma_row_column(wi, tx as int, ty as int);
                lemma_row_in(x1 - x0, y1 - y0, tx - x0, ty - y0);
                assert(0 <= ty * wi && 0 <= (ty - y0) * (x1 - x0)) by (nonlinear_arith)
                    requires
                        0 <= y0 <= ty,
                        wi > 0,
                        x0 < x1,
                ;
            }
            let p: usize = (ty as i64 * sw as i64 + tx as i64) as usize;
            let q: usize = (ty - y0) as usize * pw + (tx - x0) as usize;
            let s: (u8, u8, u8, u8) = read_pixel(samples, q);
            let d: (u8, u8, u8, u8) = read_pixel(buf, p);
            assert(d == start[p as int]);
            let v: (u8, u8, u8, u8) = pixel_over(s, d);
            assert(v == target[p as int]);
            write_pixel(buf, p, v);
            proof {
                lemma_progress_step(start, target, p as int);
            }
            tx = tx + 1;
        }
        proof {
            assert forall|p: int|
                ty * wi + x1 <= p < ty * wi + wi && 0 <= p < start.len() implies #[trigger] target[p]
                == start[p] by {
                lemma_row_column(wi, p - ty * wi, ty as int);
            }
            lemma_progress_skip(start, target, ty * wi + x1, ty * wi + wi);
            assert((ty + 1) * wi == ty * wi + wi) by (nonlinear_arith);
        }
        ty = ty + 1;
    }
    proof {
        assert(y1 * wi <= n) by (nonlinear_arith)
            requires
                n == wi * hi,
                y1 <= hi,
                wi > 0,
        ;
        assert forall|p: int| y1 * wi <= p < n && 0 <= p < start.len() implies #[trigger] target[p]
            == start[p] by {
            lemma_row_after(wi, p, y1 as int);
            lemma_rows_below(wi, hi, p);
        }
        lemma_progress_skip(start, target, y1 * wi, n);
        lemma_progress_ends(start, target);
    }
}

// ===== Colors =====

/// The color that a text writes; gray for what it does not write.
pub open spec fn canvas_color(s: Seq<char>) -> u32 {
    let (r, g, b) = color::color_of(s, 128);
    common::color_number(r, g, b)
}

/// The color that a text writes; gray for what it does not write.
pub fn hex_color(hex: &str) -> (r: u32)
    requires
        color::is_color_text(hex@),
    ensures
        r == canvas_color(hex@),
{
    let (r, g, b): (u8, u8, u8) = read_color(hex, 128);
    rgb(r, g, b)
}

// ===== Laws =====

proof fn lemma_hit_from(e: Ed, sizes: Seq<(i32, i32)>, order: Seq<int>, x: int, y: int, k: int)
    requires
        0 <= k <= order.len(),
    ensures
        match hit_from(e, sizes, order, x, y, k) {
            Some((i, h)) => exists|j: int|
                k <= j < order.len() && (#[trigger] order[j]) as usize == i && (on_handle(
                    e,
                    sizes,
                    order[j],
                    x,
                    y,
                ) || on_element(e, sizes, order[j], x, y)) && forall|m: int|
                    k <= m < j ==> !on_element(e, sizes, #[trigger] order[m], x, y),
            None => forall|m: int|
                k <= m < order.len() ==> !on_element(e, sizes, #[trigger] order[m], x, y),
        },
    decreases order.len() - k,
{
    if k < order.len() {
        if on_handle(e, sizes, order[k], x, y) || on_element(e, sizes, order[k], x, y) {
            assert(order[k] as usize == order[k] as usize);
        } else {
            lemma_hit_from(e, sizes, order, x, y, k + 1);
            match hit_from(e, sizes, order, x, y, k + 1) {
                Some((i, h)) => {
                    let j = choose|j: int|
                        k + 1 <= j < order.len() && (#[trigger] order[j]) as usize == i && (
                        on_handle(e, sizes, order[j], x, y) || on_element(
                            e,
                            sizes,
                            order[j],
                            x,
                            y,
                        )) && forall|m: int|
                            k + 1 <= m < j ==> !on_element(e, sizes, #[trigger] order[m], x, y);
                    assert(order[j] as usize == i);
                },
                None => {},
            }
        }
    }
}

/// What a point hits is on a layer not below that of any element under the point;
/// and where it hits nothing, no element is under it.
pub proof fn law_topmost_is_hit(e: Ed, sizes: Seq<(i32, i32)>, x: int, y: int, other: int)
    requires
        e.doc.elements.len() <= usize::MAX,
        0 <= other < e.doc.elements.len(),
        on_element(e, sizes, other, x, y),
    ensures
        match canvas_hit(e, sizes, x, y) {
            Some((i, h)) => e.doc.elements[i as int].extra.z_order
                >= e.doc.elements[other].extra.z_order,
            None => false,
        },
{
    let els = e.doc.elements;
    let keys = hit_keys(els);
    let order = hit_order(els);
    zorder::law_in_order(keys);
    lemma_hit_from(e, sizes, order, x, y, 0);
    assert(order.contains(other));
    let o = choose|o: int| 0 <= o < order.len() && order[o] == other;
    match canvas_hit(e, sizes, x, y) {
        Some((i, h)) => {
            let j = choose|j: int|
                0 <= j < order.len() && (#[trigger] order[j]) as usize == i && (on_handle(
                    e,
                    sizes,
                    order[j],
                    x,
                    y,
                ) || on_element(e, sizes, order[j], x, y)) && forall|m: int|
                    0 <= m < j ==> !on_element(e, sizes, #[trigger] order[m], x, y);
            if o < j {
                assert(!on_element(e, sizes, order[o], x, y));
            } else if j < o {
                assert(zorder::goes_before(keys, order[j], order[o]));
            }
        },
        None => {
            assert(!on_element(e, sizes, order[o], x, y));
        },
    }
}

/// What is selected is drawn after everything that is not, and of two that are
/// both or neither selected, the one on the lower layer is drawn first.
pub proof fn law_selected_is_drawn_last(d: state::DocView, a: int, b: int)
    requires
        0 <= a < b < d.elements.len(),
    ensures
        ({
            let i = draw_order(d)[a];
            let j = draw_order(d)[b];
            let si = d.selected.contains(i as usize);
            let sj = d.selected.contains(j as usize);
            &&& si ==> sj
            &&& si == sj ==> d.elements[i].extra.z_order <= d.elements[j].extra.z_order
        }),
{
    let keys = draw_keys(d.elements, d.selected);
    zorder::law_in_order(keys);
    let i = draw_order(d)[a];
    let j = draw_order(d)[b];
    assert(zorder::goes_before(keys, i, j));
}

/// Pixels outside the part are left as they are, and a picture pixel that is
/// opaque replaces what is under it.
pub proof fn law_laying_over(
    start: Seq<Pixel>,
    w: int,
    part: (int, int, int, int),
    samples: Seq<Pixel>,
    p: int,
)
    requires
        0 <= p < start.len(),
    ensures
        !(part.0 <= p % w < part.2 && part.1 <= p / w < part.3) ==> laid_over(
            start,
            w,
            part,
            samples,
        )[p] == start[p],
        part.0 <= p % w < part.2 && part.1 <= p / w < part.3 && samples[(p / w - part.1) * (part.2
            - part.0) + (p % w - part.0)].3 == 255 ==> laid_over(start, w, part, samples)[p]
            == samples[(p / w - part.1) * (part.2 - part.0) + (p % w - part.0)],
{
}

/// A point is on an element from its corner on the screen as far as it is large,
/// edges and all, and on its handle in the last twelve pixels of both sides. What
/// is hit is one of these; the handle of an element goes before the element.
pub proof fn law_elements_and_handles(e: Ed, sizes: Seq<(i32, i32)>, i: int, x: int, y: int)
    ensures
        ({
            let d = e.doc.elements[i].display;
            let px = x - e.area.overlay_x - d.x;
            let py = y - e.area.overlay_y - d.y;
            let w = sizes[i].0;
            let h = sizes[i].1;
            &&& on_element(e, sizes, i, x, y) == (0 <= px <= w && 0 <= py <= h)
            &&& on_handle(e, sizes, i, x, y) == (w - 12 <= px <= w && h - 12 <= py <= h)
        }),
{
}

proof fn lemma_hit_says_where(
    e: Ed,
    sizes: Seq<(i32, i32)>,
    order: Seq<int>,
    x: int,
    y: int,
    k: int,
)
    requires
        0 <= k <= order.len(),
        forall|j: int| 0 <= j < order.len() ==> 0 <= #[trigger] order[j] <= usize::MAX,
    ensures
        match hit_from(e, sizes, order, x, y, k) {
            Some((i, h)) => {
                &&& h == on_handle(e, sizes, i as int, x, y)
                &&& h || on_element(e, sizes, i as int, x, y)
            },
            None => forall|j: int|
                k <= j < order.len() ==> !on_handle(e, sizes, #[trigger] order[j], x, y),
        },
    decreases order.len() - k,
{
    if k < order.len() {
        let i = order[k];
        assert(i as usize as int == i);
        if !on_handle(e, sizes, i, x, y) && !on_element(e, sizes, i, x, y) {
            lemma_hit_says_where(e, sizes, order, x, y, k + 1);
        }
    }
}

/// What a point hits lies under it, and the handle is reported exactly where the
/// point is on it; a point on a handle hits something.
pub proof fn law_hit_is_under_the_point(e: Ed, sizes: Seq<(i32, i32)>, x: int, y: int, i: int)
    requires
        e.doc.elements.len() <= usize::MAX,
        0 <= i < e.doc.elements.len(),
    ensures
        match canvas_hit(e, sizes, x, y) {
            Some((k, h)) => {
                &&& h == on_handle(e, sizes, k as int, x, y)
                &&& h || on_element(e, sizes, k as int, x, y)
            },
            None => !on_handle(e, sizes, i, x, y),
        },
{
    let order = hit_order(e.doc.elements);
    zorder::law_in_order(hit_keys(e.doc.elements));
    lemma_hit_says_where(e, sizes, order, x, y, 0);
    assert(order.contains(i));
    let j = choose|j: int| 0 <= j < order.len() && order[j] == i;
    assert(order[j] == i);
}

/// Every element is drawn, and each once.
pub proof fn law_every_element_is_drawn(d: state::DocView, i: int)
    requires
        0 <= i < d.elements.len(),
    ensures
        draw_order(d).len() == d.elements.len(),
        draw_order(d).contains(i),
        0 <= draw_order(d)[i] < d.elements.len(),
{
    zorder::law_in_order(draw_keys(d.elements, d.selected));
}

/// A picture is laid over the canvas: where it covers a pixel in part, every
/// channel is its own and the share of the one below that it lets through, and
/// the alphas add up to 255 at most. Where it is clear the canvas stays, and where
/// it is opaque the picture shows.
pub proof fn law_picture_over_canvas(s: Pixel, d: Pixel)
    requires
        s.0 <= s.3 && s.1 <= s.3 && s.2 <= s.3,
    ensures
        ({
            let r = picture_over(s, d);
            &&& s.3 == 0 ==> r == d
            &&& s.3 == 255 ==> r == s
            &&& 0 < s.3 < 255 ==> {
                &&& r.0 == s.0 + d.0 * (255 - s.3) / 255
                &&& r.1 == s.1 + d.1 * (255 - s.3) / 255
                &&& r.2 == s.2 + d.2 * (255 - s.3) / 255
                &&& s.3 + d.3 <= 255 ==> r.3 == s.3 + d.3
                &&& s.3 + d.3 > 255 ==> r.3 == 255
            }
        }),
{
    let inv = 255 - s.3;
    assert(0 <= d.0 * inv <= 255 * inv && 0 <= d.1 * inv <= 255 * inv && 0 <= d.2 * inv <= 255
        * inv) by (nonlinear_arith)
        requires
            0 <= inv,
            d.0 <= 255,
            d.1 <= 255,
            d.2 <= 255,
    ;
}

/// The part of a rectangle on the canvas holds exactly the pixels that are on
/// both.
pub proof fn law_part_on_canvas(
    x: int,
    y: int,
    w: int,
    h: int,
    sw: int,
    sh: int,
    px: int,
    py: int,
)
    ensures
        ({
            let both = x <= px < x + w && y <= py < y + h && 0 <= px < sw && 0 <= py < sh;
            match part_on_canvas(x, y, w, h, sw, sh) {
                Some(p) => (p.0 <= px < p.2 && p.1 <= py < p.3) == both && p.0 < p.2 && p.1 < p.3,
                None => !both,
            }
        }),
{
}

/// Inside of the part, every pixel of the canvas has the pixel of the samples that
/// lies there laid over it; the samples go by the rows of the part.
pub proof fn law_samples_are_laid_over(
    start: Seq<Pixel>,
    w: int,
    h: int,
    part: (int, int, int, int),
    samples: Seq<Pixel>,
    x: int,
    y: int,
)
    requires
        start.len() == w * h,
        0 <= x < w,
        0 <= y < h,
        part.0 <= x < part.2,
        part.1 <= y < part.3,
    ensures
        laid_over(start, w, part, samples)[y * w + x] == picture_over(
            samples[(y - part.1) * (part.2 - part.0) + (x - part.0)],
            start[y * w + x],
        ),
{
    pixels::lemma_row_in(w, h, x, y);
    pixels::lemma_row_column(w, x, y);
}

/// A picture's pixel (red, green, blue, alpha) comes to the canvas as blue, green,
/// red, each multiplied by the alpha, and the alpha; and the bytes of pixels are
/// those pixels.
pub proof fn law_canvas_pixels(p: Pixel, s: Seq<Pixel>, i: int)
    requires
        0 <= i < s.len(),
    ensures
        canvas_pixel(p).0 == p.2 * p.3 / 255,
        canvas_pixel(p).1 == p.1 * p.3 / 255,
        canvas_pixel(p).2 == p.0 * p.3 / 255,
        canvas_pixel(p).3 == p.3,
        bytes_of(s).len() == 4 * s.len(),
        bytes_of(s)[4 * i] == s[i].0,
        bytes_of(s)[4 * i + 1] == s[i].1,
        bytes_of(s)[4 * i + 2] == s[i].2,
        bytes_of(s)[4 * i + 3] == s[i].3,
{
    pixels::law_premul_is_a_share((p.2, p.1, p.0, p.3), p.3);
    assert((4 * i) % 4 == 0 && (4 * i) / 4 == i);
    assert((4 * i + 1) % 4 == 1 && (4 * i + 1) / 4 == i);
    assert((4 * i + 2) % 4 == 2 && (4 * i + 2) / 4 == i);
    assert((4 * i + 3) % 4 == 3 && (4 * i + 3) / 4 == i);
}

/// On the canvas a picture without a size has that of its file, or 40 by 20 where
/// that is not known, a text what it takes up, and all else its size, two pixels
/// at least.
pub proof fn law_sizes_on_canvas(el: El, cache: PngCache, text_size: (i32, i32))
    ensures
        ({
            let r = size_on_canvas(el, cache, text_size);
            let d = el.display;
            let sizeless = el.extra.kind == ElemKind::Png && (d.width <= 0 || d.height <= 0);
            &&& el.extra.kind == ElemKind::Text ==> r == text_size
            &&& sizeless ==> match cache.kept(el.extra.png_path) {
                Some(Some(p)) => r == (p.w as i32, p.h as i32),
                _ => r == (40i32, 20i32),
            }
            &&& el.extra.kind != ElemKind::Text && !sizeless ==> {
                &&& r.0 == (if d.width >= 2 { d.width } else { 2 })
                &&& r.1 == (if d.height >= 2 { d.height } else { 2 })
            }
        }),
{
}

/// What a text writes no color for is a middle gray.
pub proof fn law_gray_stands_in(s: Seq<char>)
    ensures
        canvas_color(Seq::empty()) == 128 + 256 * 128 + 65536 * 128,
        ({
            let c = color::color_of(s, 128);
            canvas_color(s) == c.0 + 256 * c.1 + 65536 * c.2
        }),
{
}

} // verus!
