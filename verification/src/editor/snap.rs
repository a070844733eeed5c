//! Snapping.
//!
//! While something is moved, each axis snaps to the nearest edge that is close
//! enough. Once it has snapped it is held until it is moved away twice the
//! distance. Edges can also touch with a gap. With the other mode, only the
//! center of the moving element snaps, to one of nine grid points of another.

use vstd::prelude::*;

use crate::editor::common::EditorPhase;
use crate::editor::state;
use crate::editor::state::{Drag, Ed, EditorState, El, Element};
use crate::num;
use crate::num::{abs_i64, half_i64, max_i32, max_i64};

verus! {

// ===== One axis =====

/// Candidates: where to snap to, and how far that is.
pub open spec fn cands(v: Seq<(i64, i64)>) -> Seq<(int, int)> {
    v.map_values(|c: (i64, i64)| (c.0 as int, c.1 as int))
}

/// The nearest candidate; of equally near ones the first.
pub open spec fn nearest(c: Seq<(int, int)>) -> Option<(int, int)>
    decreases c.len(),
{
    if c.len() == 0 {
        None
    } else {
        match nearest(c.drop_last()) {
            Some(b) => if c.last().1 < b.1 {
                Some(c.last())
            } else {
                Some(b)
            },
            None => Some(c.last()),
        }
    }
}

/// Where an axis comes to lie, and whether it is held there.
pub struct Held {
    pub pos: int,
    pub held: bool,
}

/// An axis at `pos`: held where it was held, unless it is twice the distance
/// away; else at the nearest candidate that is within the distance; else where
/// it is.
pub open spec fn axis(pos: int, c: Seq<(int, int)>, prev: Option<i32>, dist: int) -> Held {
    if prev.is_some() && num::int_abs(pos - prev.unwrap()) < dist * 2 {
        Held { pos: prev.unwrap() as int, held: true }
    } else {
        match nearest(c) {
            Some(b) => if b.1 <= dist {
                Held { pos: b.0, held: true }
            } else {
                Held { pos, held: false }
            },
            None => Held { pos, held: false },
        }
    }
}

/// What is kept of a held position.
pub open spec fn kept(h: Held) -> Option<i32> {
    if h.held {
        Some(h.pos as i32)
    } else {
        None
    }
}

/// Snaps one axis. Candidates are sums of coordinates, so they are wider than
/// those.
pub fn snap_axis(
    new_pos: i32,
    candidates: &Vec<(i64, i64)>,
    prev_snapped: Option<i32>,
    snap_dist: i32,
) -> (r: (i32, Option<i32>))
    ensures
        r.0 == axis(new_pos as int, cands(candidates@), prev_snapped, snap_dist as int).pos as i32,
        r.1 == kept(axis(new_pos as int, cands(candidates@), prev_snapped, snap_dist as int)),
{
    if let Some(prev) = prev_snapped {
        if abs_i64(new_pos as i64 - prev as i64) < snap_dist as i64 * 2 {
            return (prev, Some(prev));
        }
    }
    let mut best: Option<(i64, i64)> = None;
    let ghost all = cands(candidates@);
    for i in 0..candidates.len()
        invariant
            all == cands(candidates@),
            match best {
                Some(b) => nearest(all.take(i as int)) == Some((b.0 as int, b.1 as int)),
                None => nearest(all.take(i as int)) is None,
            },
    {
        let c: (i64, i64) = candidates[i];
        assert(all.take(i + 1).drop_last() =~= all.take(i as int));
        assert(all.take(i + 1).last() == (c.0 as int, c.1 as int));
        match best {
            Some(b) => {
                if c.1 < b.1 {
                    best = Some(c);
                }
            },
            None => {
                best = Some(c);
            },
        }
    }
    assert(all.take(all.len() as int) =~= all);
    match best {
        Some(b) => {
            if b.1 <= snap_dist as i64 {
                return (b.0 as i32, Some(b.0 as i32));
            }
        },
        None => {},
    }
    (new_pos, None)
}

// ===== Selecting =====

/// The two edges of a span as candidates for a position.
pub open spec fn edges(at: int, start: int, len: int) -> Seq<(int, int)> {
    seq![(start, num::int_abs(at - start)), (start + len, num::int_abs(at - (start + len)))]
}

/// The vertical edges of all source rectangles.
pub open spec fn source_x_cands(e: Seq<El>, x: int) -> Seq<(int, int)>
    decreases e.len(),
{
    if e.len() == 0 {
        Seq::empty()
    } else {
        let rest = source_x_cands(e.drop_last(), x);
        match e.last().source {
            Some(s) => rest + edges(x, s.x as i32 as int, s.width as i32 as int),
            None => rest,
        }
    }
}

/// The horizontal edges of all source rectangles.
pub open spec fn source_y_cands(e: Seq<El>, y: int) -> Seq<(int, int)>
    decreases e.len(),
{
    if e.len() == 0 {
        Seq::empty()
    } else {
        let rest = source_y_cands(e.drop_last(), y);
        match e.last().source {
            Some(s) => rest + edges(y, s.y as i32 as int, s.height as i32 as int),
            None => rest,
        }
    }
}

/// Where a corner of a new region comes to lie.
pub open spec fn selection_x(e: Ed, x: int) -> Held {
    axis(x, source_x_cands(e.doc.elements, x), e.drag.snapped_x, e.prefs.snap_distance as int)
}

pub open spec fn selection_y(e: Ed, y: int) -> Held {
    axis(y, source_y_cands(e.doc.elements, y), e.drag.snapped_y, e.prefs.snap_distance as int)
}

/// The state after a corner of a new region was snapped.
pub open spec fn selection_snapped(e: Ed, x: int, y: int) -> Ed {
    Ed {
        drag: Drag {
            snapped_x: kept(selection_x(e, x)),
            snapped_y: kept(selection_y(e, y)),
            ..e.drag
        },
        ..e
    }
}

fn push_edges(v: &mut Vec<(i64, i64)>, at: i32, start: i32, len: i32)
    ensures
        cands(final(v)@) == cands(old(v)@) + edges(at as int, start as int, len as int),
{
    let ghost before = cands(v@);
    let (from, to): (i64, i64) = (start as i64, start as i64 + len as i64);
    v.push((from, abs_i64(at as i64 - from)));
    v.push((to, abs_i64(at as i64 - to)));
    assert(cands(v@) =~= before + edges(at as int, start as int, len as int));
}

/// Snaps a corner of a new region to the edges of the regions that there are.
/// Only capture elements have edges to snap to.
pub fn snap_selection(st: &mut EditorState, x: i32, y: i32) -> (r: (i32, i32))
    ensures
        r.0 == selection_x(old(st)@, x as int).pos as i32,
        r.1 == selection_y(old(st)@, y as int).pos as i32,
        final(st)@ == selection_snapped(old(st)@, x as int, y as int),
{
    let snap_dist: i32 = st.prefs.snap_distance;
    let mut xs: Vec<(i64, i64)> = Vec::new();
    let mut ys: Vec<(i64, i64)> = Vec::new();
    let ghost all = st@.doc.elements;
    assert(cands(xs@) =~= Seq::empty());
    assert(cands(ys@) =~= Seq::empty());
    for i in 0..st.doc.elements.len()
        invariant
            all == st@.doc.elements,
            cands(xs@) == source_x_cands(all.take(i as int), x as int),
            cands(ys@) == source_y_cands(all.take(i as int), y as int),
    {
        assert(all.take(i + 1).drop_last() =~= all.take(i as int));
        assert(all.take(i + 1).last() == st.doc.elements@[i as int]@);
        if let Some(src) = st.doc.elements[i].source {
            push_edges(&mut xs, x, src.x as i32, src.width as i32);
            push_edges(&mut ys, y, src.y as i32, src.height as i32);
        }
    }
    assert(all.take(all.len() as int) =~= all);
    let (snap_x, kept_x) = snap_axis(x, &xs, st.drag.snapped_x, snap_dist);
    let (snap_y, kept_y) = snap_axis(y, &ys, st.drag.snapped_y, snap_dist);
    st.drag.snapped_x = kept_x;
    st.drag.snapped_y = kept_y;
    (snap_x, snap_y)
}

// ===== Arranging =====

/// The candidates that another element gives for one axis of a moving one: the
/// near edges aligned with either edge, and edges that touch with the gap.
pub open spec fn side_cands(at: int, len: int, start: int, other_len: int, gap: int) -> Seq<
    (int, int),
> {
    let end = start + other_len;
    seq![
        (start, num::int_abs(at - start)),
        (end, num::int_abs(at - end)),
        (start - len, num::int_abs(at + len - start)),
        (end - len, num::int_abs(at + len - end)),
        (end + gap, num::int_abs(at - (end + gap))),
        (start - len - gap, num::int_abs(at + len - (start - gap))),
    ]
}

/// The candidates of all elements but one for the horizontal axis.
pub open spec fn move_x_cands(e: Seq<El>, idx: int, x: int, w: int, gap: int) -> Seq<(int, int)>
    decreases e.len(),
{
    if e.len() == 0 {
        Seq::empty()
    } else {
        let rest = move_x_cands(e.drop_last(), idx, x, w, gap);
        if e.len() - 1 == idx {
            rest
        } else {
            let o = e.last().display;
            rest + side_cands(x, w, o.x as int, o.width as int, gap)
        }
    }
}

/// The candidates of all elements but one for the vertical axis.
pub open spec fn move_y_cands(e: Seq<El>, idx: int, y: int, h: int, gap: int) -> Seq<(int, int)>
    decreases e.len(),
{
    if e.len() == 0 {
        Seq::empty()
    } else {
        let rest = move_y_cands(e.drop_last(), idx, y, h, gap);
        if e.len() - 1 == idx {
            rest
        } else {
            let o = e.last().display;
            rest + side_cands(y, h, o.y as int, o.height as int, gap)
        }
    }
}

/// The nine grid points of a rectangle, by columns.
pub open spec fn nodes(x: int, y: int, w: int, h: int) -> Seq<(int, int)> {
    seq![
        (x, y),
        (x, y + num::half(h)),
        (x, y + h),
        (x + num::half(w), y),
        (x + num::half(w), y + num::half(h)),
        (x + num::half(w), y + h),
        (x + w, y),
        (x + w, y + num::half(h)),
        (x + w, y + h),
    ]
}

/// The grid points of all elements but one.
pub open spec fn all_nodes(e: Seq<El>, idx: int) -> Seq<(int, int)>
    decreases e.len(),
{
    if e.len() == 0 {
        Seq::empty()
    } else {
        let rest = all_nodes(e.drop_last(), idx);
        if e.len() - 1 == idx {
            rest
        } else {
            let o = e.last().display;
            rest + nodes(o.x as int, o.y as int, o.width as int, o.height as int)
        }
    }
}

/// How far a grid point is from a center, both axes together.
pub open spec fn node_cost(n: (int, int), cx: int, cy: int) -> int {
    num::int_abs(n.0 - cx) + num::int_abs(n.1 - cy)
}

/// Whether a grid point is within the distance on both axes.
pub open spec fn node_near(n: (int, int), cx: int, cy: int, dist: int) -> bool {
    num::int_abs(n.0 - cx) <= dist && num::int_abs(n.1 - cy) <= dist
}

/// The closest grid point within the distance; of equally close ones the first.
pub open spec fn best_node(n: Seq<(int, int)>, cx: int, cy: int, dist: int) -> Option<(int, int)>
    decreases n.len(),
{
    if n.len() == 0 {
        None
    } else {
        let rest = best_node(n.drop_last(), cx, cy, dist);
        let last = n.last();
        if !node_near(last, cx, cy, dist) {
            rest
        } else {
            match rest {
                Some(b) => if node_cost(last, cx, cy) < node_cost(b, cx, cy) {
                    Some(last)
                } else {
                    Some(b)
                },
                None => Some(last),
            }
        }
    }
}

/// The size of a moving element.
pub open spec fn moving_size(e: Ed, idx: int) -> (int, int) {
    (e.doc.elements[idx].display.width as int, e.doc.elements[idx].display.height as int)
}

/// The grid point that a moving element snaps to.
pub open spec fn moved_node(e: Ed, idx: int, x: int, y: int) -> Option<(int, int)> {
    let (w, h) = moving_size(e, idx);
    best_node(
        all_nodes(e.doc.elements, idx),
        x + num::half(w),
        y + num::half(h),
        e.prefs.snap_distance as int,
    )
}

/// Where the edges of a moving element come to lie.
pub open spec fn moved_x(e: Ed, idx: int, x: int) -> Held {
    axis(
        x,
        move_x_cands(e.doc.elements, idx, x, moving_size(e, idx).0, e.prefs.snap_gap as int),
        e.drag.snapped_x,
        e.prefs.snap_distance as int,
    )
}

pub open spec fn moved_y(e: Ed, idx: int, y: int) -> Held {
    axis(
        y,
        move_y_cands(e.doc.elements, idx, y, moving_size(e, idx).1, e.prefs.snap_gap as int),
        e.drag.snapped_y,
        e.prefs.snap_distance as int,
    )
}

/// Where a moving element comes to lie: never left of or above the origin once
/// it has snapped.
pub open spec fn arrangement_at(e: Ed, idx: int, x: int, y: int) -> (int, int) {
    if idx >= e.doc.elements.len() {
        (x, y)
    } else if e.prefs.snap_tian {
        let (w, h) = moving_size(e, idx);
        match moved_node(e, idx, x, y) {
            Some(n) => (
                num::int_max(n.0 - num::half(w), 0),
                num::int_max(n.1 - num::half(h), 0),
            ),
            None => (x, y),
        }
    } else {
        (
            num::int_max(moved_x(e, idx, x).pos as i32 as int, 0),
            num::int_max(moved_y(e, idx, y).pos as i32 as int, 0),
        )
    }
}

/// The state after a moving element was snapped.
pub open spec fn arrangement_snapped(e: Ed, idx: int, x: int, y: int) -> Ed {
    if idx >= e.doc.elements.len() {
        e
    } else if e.prefs.snap_tian {
        Ed { drag: Drag { snapped_x: None, snapped_y: None, ..e.drag }, ..e }
    } else {
        Ed {
            drag: Drag {
                snapped_x: kept(moved_x(e, idx, x)),
                snapped_y: kept(moved_y(e, idx, y)),
                ..e.drag
            },
            ..e
        }
    }
}

fn push_sides(v: &mut Vec<(i64, i64)>, at: i32, len: i32, start: i32, other_len: i32, gap: i32)
    ensures
        cands(final(v)@) == cands(old(v)@) + side_cands(
            at as int,
            len as int,
            start as int,
            other_len as int,
            gap as int,
        ),
{
    let ghost before = cands(v@);
    let ghost added = side_cands(at as int, len as int, start as int, other_len as int, gap as int);
    let (at, len, start, gap): (i64, i64, i64, i64) = (
        at as i64,
        len as i64,
        start as i64,
        gap as i64,
    );
    let end: i64 = start + other_len as i64;
    let far: i64 = at + len;
    v.push((start, abs_i64(at - start)));
    v.push((end, abs_i64(at - end)));
    v.push((start - len, abs_i64(far - start)));
    v.push((end - len, abs_i64(far - end)));
    v.push((end + gap, abs_i64(at - (end + gap))));
    v.push((start - len - gap, abs_i64(far - (start - gap))));
    assert(cands(v@) =~= before + added);
}

/// A grid point as numbers.
pub open spec fn point(p: Option<(i64, i64)>) -> Option<(int, int)> {
    match p {
        Some(v) => Some((v.0 as int, v.1 as int)),
        None => None,
    }
}

/// Whether a sum of a few coordinates can be added to others.
spec fn wide_ok(v: int) -> bool {
    -0x100_0000_0000 <= v <= 0x100_0000_0000
}

fn better_node(best: Option<(i64, i64)>, gx: i64, gy: i64, cx: i64, cy: i64, dist: i32, Ghost(seen):
    Ghost<Seq<(int, int)>>) -> (r: Option<(i64, i64)>)
    requires
        wide_ok(gx as int),
        wide_ok(gy as int),
        wide_ok(cx as int),
        wide_ok(cy as int),
        point(best) == best_node(seen, cx as int, cy as int, dist as int),
        match best {
            Some(b) => node_near((b.0 as int, b.1 as int), cx as int, cy as int, dist as int)
                && wide_ok(b.0 as int) && wide_ok(b.1 as int),
            None => true,
        },
    ensures
        point(r) == best_node(
            seen.push((gx as int, gy as int)),
            cx as int,
            cy as int,
            dist as int,
        ),
        match r {
            Some(b) => node_near((b.0 as int, b.1 as int), cx as int, cy as int, dist as int)
                && wide_ok(b.0 as int) && wide_ok(b.1 as int),
            None => true,
        },
{
    proof {
        assert(seen.push((gx as int, gy as int)).drop_last() =~= seen);
    }
    let dx: i64 = abs_i64(gx - cx);
    let dy: i64 = abs_i64(gy - cy);
    if dx <= dist as i64 && dy <= dist as i64 {
        match best {
            Some(b) => {
                if dx + dy < abs_i64(b.0 - cx) + abs_i64(b.1 - cy) {
                    Some((gx, gy))
                } else {
                    best
                }
            },
            None => Some((gx, gy)),
        }
    } else {
        best
    }
}

/// The grid point that a center snaps to.
fn find_node(elements: &Vec<Element>, idx: usize, cx: i64, cy: i64, dist: i32) -> (r: Option<
    (i64, i64),
>)
    requires
        wide_ok(cx as int),
        wide_ok(cy as int),
    ensures
        point(r) == best_node(
            all_nodes(state::els(elements@), idx as int),
            cx as int,
            cy as int,
            dist as int,
        ),
        match r {
            Some(b) => wide_ok(b.0 as int) && wide_ok(b.1 as int),
            None => true,
        },
{
    let mut best: Option<(i64, i64)> = None;
    let ghost all = state::els(elements@);
    for i in 0..elements.len()
        invariant
            all == state::els(elements@),
            wide_ok(cx as int),
            wide_ok(cy as int),
            point(best) == best_node(
                all_nodes(all.take(i as int), idx as int),
                cx as int,
                cy as int,
                dist as int,
            ),
            match best {
                Some(b) => node_near((b.0 as int, b.1 as int), cx as int, cy as int, dist as int)
                    && wide_ok(b.0 as int) && wide_ok(b.1 as int),
                None => true,
            },
    {
        proof {
            assert(all.take(i + 1).drop_last() =~= all.take(i as int));
            assert(all.take(i + 1).last() == elements@[i as int]@);
        }
        if i != idx {
            let x: i64 = elements[i].display.x as i64;
            let y: i64 = elements[i].display.y as i64;
            let w: i64 = elements[i].display.width as i64;
            let h: i64 = elements[i].display.height as i64;
            let mx: i64 = x + half_i64(w);
            let my: i64 = y + half_i64(h);
            let ghost s0 = all_nodes(all.take(i as int), idx as int);
            let ghost s1 = s0.push((x as int, y as int));
            let ghost s2 = s1.push((x as int, my as int));
            let ghost s3 = s2.push((x as int, y + h));
            let ghost s4 = s3.push((mx as int, y as int));
            let ghost s5 = s4.push((mx as int, my as int));
            let ghost s6 = s5.push((mx as int, y + h));
            let ghost s7 = s6.push((x + w, y as int));
            let ghost s8 = s7.push((x + w, my as int));
            let ghost s9 = s8.push((x + w, y + h));
            best = better_node(best, x, y, cx, cy, dist, Ghost(s0));
            best = better_node(best, x, my, cx, cy, dist, Ghost(s1));
            best = better_node(best, x, y + h, cx, cy, dist, Ghost(s2));
            best = better_node(best, mx, y, cx, cy, dist, Ghost(s3));
            best = better_node(best, mx, my, cx, cy, dist, Ghost(s4));
            best = better_node(best, mx, y + h, cx, cy, dist, Ghost(s5));
            best = better_node(best, x + w, y, cx, cy, dist, Ghost(s6));
            best = better_node(best, x + w, my, cx, cy, dist, Ghost(s7));
            best = better_node(best, x + w, y + h, cx, cy, dist, Ghost(s8));
            assert(s9 =~= s0 + nodes(x as int, y as int, w as int, h as int));
        }
    }
    assert(all.take(all.len() as int) =~= all);
    best
}

/// Snaps a moving element: to the edges of the others, with the gap between
/// touching edges, or its center to a grid point of another.
pub fn snap_arrangement(st: &mut EditorState, idx: usize, new_x: i32, new_y: i32) -> (r: (i32, i32))
    ensures
        r.0 == arrangement_at(old(st)@, idx as int, new_x as int, new_y as int).0 as i32,
        r.1 == arrangement_at(old(st)@, idx as int, new_x as int, new_y as int).1 as i32,
        final(st)@ == arrangement_snapped(old(st)@, idx as int, new_x as int, new_y as int),
{
    if idx >= st.doc.elements.len() {
        return (new_x, new_y);
    }
    let ghost all = st@.doc.elements;
    assert(all[idx as int] == st.doc.elements@[idx as int]@);
    let snap_dist: i32 = st.prefs.snap_distance;
    let w: i32 = st.doc.elements[idx].display.width;
    let h: i32 = st.doc.elements[idx].display.height;
    if st.prefs.snap_tian {
        let (half_w, half_h): (i64, i64) = (half_i64(w as i64), half_i64(h as i64));
        let node: Option<(i64, i64)> = find_node(
            &st.doc.elements,
            idx,
            new_x as i64 + half_w,
            new_y as i64 + half_h,
            snap_dist,
        );
        st.drag.snapped_x = None;
        st.drag.snapped_y = None;
        return match node {
            Some(n) => (max_i64(n.0 - half_w, 0) as i32, max_i64(n.1 - half_h, 0) as i32),
            None => (new_x, new_y),
        };
    }
    let gap: i32 = st.prefs.snap_gap;
    let mut xs: Vec<(i64, i64)> = Vec::new();
    let mut ys: Vec<(i64, i64)> = Vec::new();
    assert(cands(xs@) =~= Seq::empty());
    assert(cands(ys@) =~= Seq::empty());
    for i in 0..st.doc.elements.len()
        invariant
            all == st@.doc.elements,
            cands(xs@) == move_x_cands(
                all.take(i as int),
                idx as int,
                new_x as int,
                w as int,
                gap as int,
            ),
            cands(ys@) == move_y_cands(
                all.take(i as int),
                idx as int,
                new_y as int,
                h as int,
                gap as int,
            ),
    {
        assert(all.take(i + 1).drop_last() =~= all.take(i as int));
        assert(all.take(i + 1).last() == st.doc.elements@[i as int]@);
        if i != idx {
            let o = &st.doc.elements[i].display;
            push_sides(&mut xs, new_x, w, o.x, o.width, gap);
            push_sides(&mut ys, new_y, h, o.y, o.height, gap);
        }
    }
    assert(all.take(all.len() as int) =~= all);
    let (snap_x, kept_x) = snap_axis(new_x, &xs, st.drag.snapped_x, snap_dist);
    let (snap_y, kept_y) = snap_axis(new_y, &ys, st.drag.snapped_y, snap_dist);
    st.drag.snapped_x = kept_x;
    st.drag.snapped_y = kept_y;
    (max_i32(snap_x, 0), max_i32(snap_y, 0))
}

// ===== Resizing =====

/// A length whose far end snaps to the edges of another span: an edge within the
/// distance of where the far end was dragged to takes it, the far edge over the
/// near one.
pub open spec fn end_snapped(len: int, at: int, end: int, start: int, other_len: int, dist: int) -> int {
    if num::int_abs(end - (start + other_len)) <= dist {
        start + other_len - at
    } else if num::int_abs(end - start) <= dist {
        start - at
    } else {
        len
    }
}

/// The width that a resized element snaps to: the last element with an edge
/// within the distance decides.
pub open spec fn width_snapped(e: Seq<El>, idx: int, x: int, w: int, dist: int) -> int
    decreases e.len(),
{
    if e.len() == 0 {
        w
    } else {
        let rest = width_snapped(e.drop_last(), idx, x, w, dist);
        if e.len() - 1 == idx {
            rest
        } else {
            let o = e.last().display;
            end_snapped(rest, x, x + w, o.x as int, o.width as int, dist)
        }
    }
}

/// The height that a resized element snaps to.
pub open spec fn height_snapped(e: Seq<El>, idx: int, y: int, h: int, dist: int) -> int
    decreases e.len(),
{
    if e.len() == 0 {
        h
    } else {
        let rest = height_snapped(e.drop_last(), idx, y, h, dist);
        if e.len() - 1 == idx {
            rest
        } else {
            let o = e.last().display;
            end_snapped(rest, y, y + h, o.y as int, o.height as int, dist)
        }
    }
}

/// The size of a resized element: snapped, and at least 20 on each side.
pub open spec fn resized(e: Seq<El>, idx: int, w: int, h: int, dist: int) -> (int, int) {
    if idx >= e.len() {
        (w, h)
    } else {
        let d = e[idx].display;
        (
            num::int_max(width_snapped(e, idx, d.x as int, w, dist), 20),
            num::int_max(height_snapped(e, idx, d.y as int, h, dist), 20),
        )
    }
}

/// Snaps the size of an element that is resized.
pub fn snap_resize(
    elements: &Vec<Element>,
    idx: usize,
    new_w: i32,
    new_h: i32,
    snap_distance: i32,
) -> (r: (i32, i32))
    ensures
        r.0 == resized(
            state::els(elements@),
            idx as int,
            new_w as int,
            new_h as int,
            snap_distance as int,
        ).0 as i32,
        r.1 == resized(
            state::els(elements@),
            idx as int,
            new_w as int,
            new_h as int,
            snap_distance as int,
        ).1 as i32,
{
    if idx >= elements.len() {
        return (new_w, new_h);
    }
    let ghost all = state::els(elements@);
    assert(all[idx as int] == elements@[idx as int]@);
    let snap_dist: i64 = snap_distance as i64;
    let mut snap_w: i64 = new_w as i64;
    let mut snap_h: i64 = new_h as i64;
    let mx: i64 = elements[idx].display.x as i64;
    let my: i64 = elements[idx].display.y as i64;
    let moving_r: i64 = mx + new_w as i64;
    let moving_b: i64 = my + new_h as i64;
    for i in 0..elements.len()
        invariant
            all == state::els(elements@),
            snap_dist == snap_distance,
            i32::MIN <= mx <= i32::MAX,
            i32::MIN <= my <= i32::MAX,
            moving_r == mx + new_w,
            moving_b == my + new_h,
            snap_w == width_snapped(
                all.take(i as int),
                idx as int,
                mx as int,
                new_w as int,
                snap_distance as int,
            ),
            snap_h == height_snapped(
                all.take(i as int),
                idx as int,
                my as int,
                new_h as int,
                snap_distance as int,
            ),
    {
        assert(all.take(i + 1).drop_last() =~= all.take(i as int));
        assert(all.take(i + 1).last() == elements@[i as int]@);
        if i != idx {
            let ox: i64 = elements[i].display.x as i64;
            let oy: i64 = elements[i].display.y as i64;
            let or: i64 = ox + elements[i].display.width as i64;
            let ob: i64 = oy + elements[i].display.height as i64;
            if abs_i64(moving_r - ox) <= snap_dist {
                snap_w = ox - mx;
            }
            if abs_i64(moving_r - or) <= snap_dist {
                snap_w = or - mx;
            }
            if abs_i64(moving_b - oy) <= snap_dist {
                snap_h = oy - my;
            }
            if abs_i64(moving_b - ob) <= snap_dist {
                snap_h = ob - my;
            }
        }
    }
    assert(all.take(all.len() as int) =~= all);
    (max_i64(snap_w, 20) as i32, max_i64(snap_h, 20) as i32)
}

// ===== Guide lines =====

/// The guide lines on the screen: where the coordinates that are held lie, a
/// vertical one and a horizontal one. While arranging they count from the
/// overlay.
pub open spec fn guide_lines(e: Ed) -> (Option<int>, Option<int>) {
    let arranging = e.phase == EditorPhase::Arranging;
    let ox = if arranging {
        e.area.overlay_x as int
    } else {
        0
    };
    let oy = if arranging {
        e.area.overlay_y as int
    } else {
        0
    };
    if !e.prefs.snap_on {
        (None, None)
    } else {
        (
            match e.drag.snapped_x {
                Some(x) => Some(x + ox),
                None => None,
            },
            match e.drag.snapped_y {
                Some(y) => Some(y + oy),
                None => None,
            },
        )
    }
}

/// A number on the screen, as a number.
pub open spec fn line_at(p: Option<i64>) -> Option<int> {
    match p {
        Some(v) => Some(v as int),
        None => None,
    }
}

/// Where the guide lines are drawn.
pub fn snap_lines(st: &EditorState) -> (r: (Option<i64>, Option<i64>))
    ensures
        (line_at(r.0), line_at(r.1)) == guide_lines(st@),
{
    if !st.prefs.snap_on {
        return (None, None);
    }
    let arranging: bool = st.phase == EditorPhase::Arranging;
    let ox: i64 = if arranging {
        st.area.overlay_x as i64
    } else {
        0
    };
    let oy: i64 = if arranging {
        st.area.overlay_y as i64
    } else {
        0
    };
    let x: Option<i64> = match st.drag.snapped_x {
        Some(x) => Some(x as i64 + ox),
        None => None,
    };
    let y: Option<i64> = match st.drag.snapped_y {
        Some(y) => Some(y as i64 + oy),
        None => None,
    };
    (x, y)
}

// ===== Laws =====

/// Whether the distances of candidates are those from a position.
pub open spec fn measured_from(c: Seq<(int, int)>, pos: int) -> bool {
    forall|i: int| 0 <= i < c.len() ==> (#[trigger] c[i]).1 == num::int_abs(pos - c[i].0)
}

proof fn lemma_nearest(c: Seq<(int, int)>)
    ensures
        match nearest(c) {
            Some(b) => c.contains(b) && forall|i: int|
                0 <= i < c.len() ==> b.1 <= (#[trigger] c[i]).1,
            None => c.len() == 0,
        },
    decreases c.len(),
{
    if c.len() > 0 {
        let r = c.drop_last();
        lemma_nearest(r);
        assert(c[c.len() - 1] == c.last());
        match nearest(r) {
            Some(b) => {
                let k = choose|k: int| 0 <= k < r.len() && r[k] == b;
                assert(c[k] == b);
                assert forall|i: int| 0 <= i < c.len() implies nearest(c).unwrap().1 <= (
                #[trigger] c[i]).1 by {
                    if i < r.len() {
                        assert(r[i] == c[i]);
                    }
                }
            },
            None => {},
        }
    }
}

/// Whether a candidate is the first of those that are nearest.
pub open spec fn first_nearest(c: Seq<(int, int)>, k: int) -> bool {
    &&& 0 <= k < c.len()
    &&& forall|i: int| 0 <= i < k ==> c[k].1 < (#[trigger] c[i]).1
    &&& forall|i: int| k <= i < c.len() ==> c[k].1 <= (#[trigger] c[i]).1
}

proof fn lemma_first_nearest(c: Seq<(int, int)>) -> (k: int)
    requires
        c.len() > 0,
    ensures
        first_nearest(c, k),
        nearest(c) == Some(c[k]),
    decreases c.len(),
{
    let r = c.drop_last();
    assert(c[c.len() - 1] == c.last());
    assert forall|i: int| 0 <= i < r.len() implies #[trigger] c[i] == r[i] by {}
    if r.len() == 0 {
        assert(nearest(r) is None);
        0
    } else {
        let j = lemma_first_nearest(r);
        if c.last().1 < r[j].1 {
            assert forall|i: int| 0 <= i < c.len() - 1 implies c.last().1 < (#[trigger] c[i]).1 by {
                assert(c[i] == r[i]);
                assert(r[j].1 <= r[i].1);
            }
            c.len() - 1
        } else {
            assert(c[j] == r[j]);
            assert forall|i: int| 0 <= i < j implies c[j].1 < (#[trigger] c[i]).1 by {
                assert(c[i] == r[i]);
            }
            assert forall|i: int| j <= i < c.len() implies c[j].1 <= (#[trigger] c[i]).1 by {
                if i < r.len() {
                    assert(c[i] == r[i]);
                }
            }
            j
        }
    }
}

/// Where an axis comes to lie: where it was held, as long as it is less than
/// twice the distance away; else at the first of the nearest candidates, where
/// that is within the distance; else where it is, and not held.
pub proof fn law_snap_result(pos: int, c: Seq<(int, int)>, prev: Option<i32>, dist: int)
    ensures
        ({
            let h = axis(pos, c, prev, dist);
            if prev is Some && num::int_abs(pos - prev.unwrap()) < dist * 2 {
                h == (Held { pos: prev.unwrap() as int, held: true })
            } else {
                ||| exists|k: int|
                    #[trigger] first_nearest(c, k) && c[k].1 <= dist && h == (Held {
                        pos: c[k].0,
                        held: true,
                    })
                ||| (forall|i: int| 0 <= i < c.len() ==> (#[trigger] c[i]).1 > dist) && h == (Held {
                    pos,
                    held: false,
                })
            }
        }),
{
    if c.len() > 0 {
        let k = lemma_first_nearest(c);
        assert(first_nearest(c, k));
        assert(c[k].1 > dist ==> forall|i: int| 0 <= i < c.len() ==> (#[trigger] c[i]).1 > dist);
    }
}

/// Snapping never moves an axis further than the distance, or twice the distance
/// where it was held; and one that is not held stays where it is.
pub proof fn law_snap_stays_near(pos: int, c: Seq<(int, int)>, prev: Option<i32>, dist: int)
    requires
        measured_from(c, pos),
    ensures
        ({
            let h = axis(pos, c, prev, dist);
            &&& !h.held ==> h.pos == pos
            &&& h.held && prev is None ==> num::int_abs(pos - h.pos) <= dist
            &&& h.held ==> num::int_abs(pos - h.pos) <= dist || num::int_abs(pos - h.pos) < dist * 2
        }),
{
    lemma_nearest(c);
}

/// An axis that was not held snaps exactly where some candidate is within the
/// distance, and no candidate is nearer than where it snaps to.
pub proof fn law_snap_takes_the_nearest(pos: int, c: Seq<(int, int)>, dist: int)
    requires
        measured_from(c, pos),
    ensures
        ({
            let h = axis(pos, c, None, dist);
            &&& h.held == exists|i: int| 0 <= i < c.len() && (#[trigger] c[i]).1 <= dist
            &&& h.held ==> forall|i: int|
                0 <= i < c.len() ==> num::int_abs(pos - h.pos) <= num::int_abs(
                    pos - (#[trigger] c[i]).0,
                )
        }),
{
    lemma_nearest(c);
    let h = axis(pos, c, None, dist);
    if h.held {
        let b = nearest(c).unwrap();
        let k = choose|k: int| 0 <= k < c.len() && c[k] == b;
        assert(c[k].1 <= dist);
    }
}

/// An axis that is held stays where it is as long as it is moved less than twice
/// the distance, whatever the candidates are.
pub proof fn law_snap_holds(pos: int, held: i32, c: Seq<(int, int)>, dist: int)
    requires
        num::int_abs(pos - held) < dist * 2,
    ensures
        axis(pos, c, Some(held), dist) == (Held { pos: held as int, held: true }),
{
}

/// A resized element is at least 20 wide and 20 high.
pub proof fn law_resize_keeps_a_size(e: Seq<El>, idx: int, w: int, h: int, dist: int)
    requires
        0 <= idx < e.len(),
    ensures
        resized(e, idx, w, h, dist).0 >= 20,
        resized(e, idx, w, h, dist).1 >= 20,
{
}

proof fn lemma_move_x_has(e: Seq<El>, idx: int, at: int, len: int, gap: int, k: int, j: int) -> (i: int)
    requires
        0 <= k < e.len(),
        k != idx,
        0 <= j < 6,
    ensures
        0 <= i < move_x_cands(e, idx, at, len, gap).len(),
        move_x_cands(e, idx, at, len, gap)[i] == side_cands(
            at,
            len,
            e[k].display.x as int,
            e[k].display.width as int,
            gap,
        )[j],
    decreases e.len(),
{
    let rest = move_x_cands(e.drop_last(), idx, at, len, gap);
    if k == e.len() - 1 {
        rest.len() + j
    } else {
        assert(e.drop_last()[k] == e[k]);
        lemma_move_x_has(e.drop_last(), idx, at, len, gap, k, j)
    }
}

/// The places that a moving element may snap to across are those where one of its
/// edges meets an edge of another element, or lies beside it with the gap
/// between; and the distance of each is that from where the element is. `k` is
/// the other element.
pub proof fn law_move_x_places_meet_edges(
    e: Seq<El>,
    idx: int,
    at: int,
    len: int,
    gap: int,
    i: int,
) -> (k: int)
    requires
        0 <= i < move_x_cands(e, idx, at, len, gap).len(),
    ensures
        0 <= k < e.len(),
        k != idx,
        ({
            let c = move_x_cands(e, idx, at, len, gap)[i];
            let near = e[k].display.x as int;
            let far = near + e[k].display.width;
            &&& {
                ||| c.0 == near
                ||| c.0 == far
                ||| c.0 + len == near
                ||| c.0 + len == far
                ||| c.0 == far + gap
                ||| c.0 + len + gap == near
            }
            &&& c.0 <= at ==> c.1 == at - c.0
            &&& c.0 >= at ==> c.1 == c.0 - at
        }),
    decreases e.len(),
{
    let rest = move_x_cands(e.drop_last(), idx, at, len, gap);
    if i < rest.len() {
        let k = law_move_x_places_meet_edges(e.drop_last(), idx, at, len, gap, i);
        assert(e.drop_last()[k] == e[k]);
        k
    } else {
        assert(e[e.len() - 1] == e.last());
        e.len() - 1
    }
}

/// Every place across where an edge of a moving element would meet an edge of
/// another one, or lie beside it with the gap between, is one that it may snap
/// to.
pub proof fn law_move_x_edges_are_places(
    e: Seq<El>,
    idx: int,
    at: int,
    len: int,
    gap: int,
    k: int,
    place: int,
)
    requires
        0 <= k < e.len(),
        k != idx,
        ({
            let near = e[k].display.x as int;
            let far = near + e[k].display.width;
            ||| place == near
            ||| place == far
            ||| place + len == near
            ||| place + len == far
            ||| place == far + gap
            ||| place + len + gap == near
        }),
    ensures
        exists|i: int|
            0 <= i < move_x_cands(e, idx, at, len, gap).len() && (#[trigger] move_x_cands(
                e,
                idx,
                at,
                len,
                gap,
            )[i]).0 == place,
{
    let near = e[k].display.x as int;
    let far = near + e[k].display.width;
    let j: int = if place == near {
        0
    } else if place == far {
        1
    } else if place + len == near {
        2
    } else if place + len == far {
        3
    } else if place == far + gap {
        4
    } else {
        5
    };
    let i = lemma_move_x_has(e, idx, at, len, gap, k, j);
    assert(move_x_cands(e, idx, at, len, gap)[i].0 == place);
}

proof fn lemma_move_y_has(e: Seq<El>, idx: int, at: int, len: int, gap: int, k: int, j: int) -> (i: int)
    requires
        0 <= k < e.len(),
        k != idx,
        0 <= j < 6,
    ensures
        0 <= i < move_y_cands(e, idx, at, len, gap).len(),
        move_y_cands(e, idx, at, len, gap)[i] == side_cands(
            at,
            len,
            e[k].display.y as int,
            e[k].display.height as int,
            gap,
        )[j],
    decreases e.len(),
{
    let rest = move_y_cands(e.drop_last(), idx, at, len, gap);
    if k == e.len() - 1 {
        rest.len() + j
    } else {
        assert(e.drop_last()[k] == e[k]);
        lemma_move_y_has(e.drop_last(), idx, at, len, gap, k, j)
    }
}

/// The places that a moving element may snap to up or down are those where one of its
/// edges meets an edge of another element, or lies beside it with the gap
/// between; and the distance of each is that from where the element is. `k` is
/// the other element.
pub proof fn law_move_y_places_meet_edges(
    e: Seq<El>,
    idx: int,
    at: int,
    len: int,
    gap: int,
    i: int,
) -> (k: int)
    requires
        0 <= i < move_y_cands(e, idx, at, len, gap).len(),
    ensures
        0 <= k < e.len(),
        k != idx,
        ({
            let c = move_y_cands(e, idx, at, len, gap)[i];
            let near = e[k].display.y as int;
            let far = near + e[k].display.height;
            &&& {
                ||| c.0 == near
                ||| c.0 == far
                ||| c.0 + len == near
                ||| c.0 + len == far
                ||| c.0 == far + gap
                ||| c.0 + len + gap == near
            }
            &&& c.0 <= at ==> c.1 == at - c.0
            &&& c.0 >= at ==> c.1 == c.0 - at
        }),
    decreases e.len(),
{
    let rest = move_y_cands(e.drop_last(), idx, at, len, gap);
    if i < rest.len() {
        let k = law_move_y_places_meet_edges(e.drop_last(), idx, at, len, gap, i);
        assert(e.drop_last()[k] == e[k]);
        k
    } else {
        assert(e[e.len() - 1] == e.last());
        e.len() - 1
    }
}

/// Every place up or down where an edge of a moving element would meet an edge of
/// another one, or lie beside it with the gap between, is one that it may snap
/// to.
pub proof fn law_move_y_edges_are_places(
    e: Seq<El>,
    idx: int,
    at: int,
    len: int,
    gap: int,
    k: int,
    place: int,
)
    requires
        0 <= k < e.len(),
        k != idx,
        ({
            let near = e[k].display.y as int;
            let far = near + e[k].display.height;
            ||| place == near
            ||| place == far
            ||| place + len == near
            ||| place + len == far
            ||| place == far + gap
            ||| place + len + gap == near
        }),
    ensures
        exists|i: int|
            0 <= i < move_y_cands(e, idx, at, len, gap).len() && (#[trigger] move_y_cands(
                e,
                idx,
                at,
                len,
                gap,
            )[i]).0 == place,
{
    let near = e[k].display.y as int;
    let far = near + e[k].display.height;
    let j: int = if place == near {
        0
    } else if place == far {
        1
    } else if place + len == near {
        2
    } else if place + len == far {
        3
    } else if place == far + gap {
        4
    } else {
        5
    };
    let i = lemma_move_y_has(e, idx, at, len, gap, k, j);
    assert(move_y_cands(e, idx, at, len, gap)[i].0 == place);
}

/// The vertical edges of the source rectangles, and nothing else, are what a corner
/// of a new region may snap to, and the distance of each is that from the corner.
/// `k` is the element whose edge it is.
pub proof fn law_source_x_places_are_edges(e: Seq<El>, at: int, i: int) -> (k: int)
    requires
        0 <= i < source_x_cands(e, at).len(),
    ensures
        0 <= k < e.len(),
        e[k].source is Some,
        ({
            let c = source_x_cands(e, at)[i];
            let near = e[k].source.unwrap().x as i32;
            &&& c.0 == near || c.0 == near + e[k].source.unwrap().width as i32
            &&& c.0 <= at ==> c.1 == at - c.0
            &&& c.0 >= at ==> c.1 == c.0 - at
        }),
    decreases e.len(),
{
    let rest = source_x_cands(e.drop_last(), at);
    if i < rest.len() {
        let k = law_source_x_places_are_edges(e.drop_last(), at, i);
        assert(e.drop_last()[k] == e[k]);
        k
    } else {
        assert(e[e.len() - 1] == e.last());
        e.len() - 1
    }
}

/// Both vertical edges of every source rectangle are places that a corner of a new
/// region may snap to.
pub proof fn law_source_x_edges_are_places(e: Seq<El>, at: int, k: int, place: int) -> (i: int)
    requires
        0 <= k < e.len(),
        e[k].source is Some,
        ({
            let near = e[k].source.unwrap().x as i32;
            place == near || place == near + e[k].source.unwrap().width as i32
        }),
    ensures
        0 <= i < source_x_cands(e, at).len(),
        source_x_cands(e, at)[i].0 == place,
    decreases e.len(),
{
    let rest = source_x_cands(e.drop_last(), at);
    if k == e.len() - 1 {
        let near = e[k].source.unwrap().x as i32;
        if place == near {
            rest.len() as int
        } else {
            rest.len() as int + 1
        }
    } else {
        assert(e.drop_last()[k] == e[k]);
        law_source_x_edges_are_places(e.drop_last(), at, k, place)
    }
}

/// The horizontal edges of the source rectangles, and nothing else, are what a corner
/// of a new region may snap to, and the distance of each is that from the corner.
/// `k` is the element whose edge it is.
pub proof fn law_source_y_places_are_edges(e: Seq<El>, at: int, i: int) -> (k: int)
    requires
        0 <= i < source_y_cands(e, at).len(),
    ensures
        0 <= k < e.len(),
        e[k].source is Some,
        ({
            let c = source_y_cands(e, at)[i];
            let near = e[k].source.unwrap().y as i32;
            &&& c.0 == near || c.0 == near + e[k].source.unwrap().height as i32
            &&& c.0 <= at ==> c.1 == at - c.0
            &&& c.0 >= at ==> c.1 == c.0 - at
        }),
    decreases e.len(),
{
    let rest = source_y_cands(e.drop_last(), at);
    if i < rest.len() {
        let k = law_source_y_places_are_edges(e.drop_last(), at, i);
        assert(e.drop_last()[k] == e[k]);
        k
    } else {
        assert(e[e.len() - 1] == e.last());
        e.len() - 1
    }
}

/// Both horizontal edges of every source rectangle are places that a corner of a new
/// region may snap to.
pub proof fn law_source_y_edges_are_places(e: Seq<El>, at: int, k: int, place: int) -> (i: int)
    requires
        0 <= k < e.len(),
        e[k].source is Some,
        ({
            let near = e[k].source.unwrap().y as i32;
            place == near || place == near + e[k].source.unwrap().height as i32
        }),
    ensures
        0 <= i < source_y_cands(e, at).len(),
        source_y_cands(e, at)[i].0 == place,
    decreases e.len(),
{
    let rest = source_y_cands(e.drop_last(), at);
    if k == e.len() - 1 {
        let near = e[k].source.unwrap().y as i32;
        if place == near {
            rest.len() as int
        } else {
            rest.len() as int + 1
        }
    } else {
        assert(e.drop_last()[k] == e[k]);
        law_source_y_edges_are_places(e.drop_last(), at, k, place)
    }
}

/// An axis of a moving element that was not held before comes to lie at the place
/// nearest to where it was dragged, where that is within the snap distance, and is
/// held there; else it stays where it was dragged. Only zero cuts it off, so it
/// never moves further than the distance for another reason.
pub proof fn law_arrangement_x_stays_near(e: Ed, idx: int, x: int, y: int)
    requires
        0 <= idx < e.doc.elements.len(),
        !e.prefs.snap_tian,
        e.drag.snapped_x is None,
        e.prefs.snap_distance >= 0,
        -0x8000_0000 <= x - e.prefs.snap_distance,
        x + e.prefs.snap_distance < 0x8000_0000,
    ensures
        ({
            let size = e.doc.elements[idx].display.width as int;
            let c = move_x_cands(e.doc.elements, idx, x, size, e.prefs.snap_gap as int);
            let dist = e.prefs.snap_distance;
            let r = arrangement_at(e, idx, x, y).0;
            &&& r >= 0
            &&& r > 0 ==> x - dist <= r <= x + dist
            &&& match arrangement_snapped(e, idx, x, y).drag.snapped_x {
                Some(p) => {
                    &&& exists|i: int| 0 <= i < c.len() && (#[trigger] c[i]).0 == p
                    &&& x - dist <= p <= x + dist
                    &&& forall|i: int|
                        0 <= i < c.len() ==> {
                            ||| (#[trigger] c[i]).0 <= x && p <= x && c[i].0 <= p
                            ||| c[i].0 >= x && p >= x && c[i].0 >= p
                            ||| c[i].0 <= x && p >= x && x - c[i].0 >= p - x
                            ||| c[i].0 >= x && p <= x && c[i].0 - x >= x - p
                        }
                    &&& p >= 0 ==> r == p
                    &&& p < 0 ==> r == 0
                },
                None => {
                    &&& forall|i: int|
                        0 <= i < c.len() ==> (#[trigger] c[i]).0 < x - dist || c[i].0 > x + dist
                    &&& x >= 0 ==> r == x
                    &&& x < 0 ==> r == 0
                },
            }
        }),
{
    let size = e.doc.elements[idx].display.width as int;
    let gap = e.prefs.snap_gap as int;
    let dist = e.prefs.snap_distance as int;
    let c = move_x_cands(e.doc.elements, idx, x, size, gap);
    let h = moved_x(e, idx, x);
    assert forall|i: int| 0 <= i < c.len() implies (#[trigger] c[i]).1 == num::int_abs(x - c[i].0) by {
        let k = law_move_x_places_meet_edges(e.doc.elements, idx, x, size, gap, i);
    }
    assert(h == axis(x, c, None, dist));
    lemma_nearest(c);
    if h.held {
        let b = nearest(c).unwrap();
        let k = choose|k: int| 0 <= k < c.len() && c[k] == b;
        assert(c[k].0 == h.pos);
        assert(h.pos as i32 == h.pos);
        assert forall|i: int| 0 <= i < c.len() implies num::int_abs(x - h.pos) <= num::int_abs(
            x - (#[trigger] c[i]).0,
        ) by {}
    } else {
        assert forall|i: int| 0 <= i < c.len() implies (#[trigger] c[i]).1 > dist by {
            assert(nearest(c).unwrap().1 <= c[i].1);
        }
    }
}

/// An axis of a moving element that was not held before comes to lie at the place
/// nearest to where it was dragged, where that is within the snap distance, and is
/// held there; else it stays where it was dragged. Only zero cuts it off, so it
/// never moves further than the distance for another reason.
pub proof fn law_arrangement_y_stays_near(e: Ed, idx: int, x: int, y: int)
    requires
        0 <= idx < e.doc.elements.len(),
        !e.prefs.snap_tian,
        e.drag.snapped_y is None,
        e.prefs.snap_distance >= 0,
        -0x8000_0000 <= y - e.prefs.snap_distance,
        y + e.prefs.snap_distance < 0x8000_0000,
    ensures
        ({
            let size = e.doc.elements[idx].display.height as int;
            let c = move_y_cands(e.doc.elements, idx, y, size, e.prefs.snap_gap as int);
            let dist = e.prefs.snap_distance;
            let r = arrangement_at(e, idx, x, y).1;
            &&& r >= 0
            &&& r > 0 ==> y - dist <= r <= y + dist
            &&& match arrangement_snapped(e, idx, x, y).drag.snapped_y {
                Some(p) => {
                    &&& exists|i: int| 0 <= i < c.len() && (#[trigger] c[i]).0 == p
                    &&& y - dist <= p <= y + dist
                    &&& forall|i: int|
                        0 <= i < c.len() ==> {
                            ||| (#[trigger] c[i]).0 <= y && p <= y && c[i].0 <= p
                            ||| c[i].0 >= y && p >= y && c[i].0 >= p
                            ||| c[i].0 <= y && p >= y && y - c[i].0 >= p - y
                            ||| c[i].0 >= y && p <= y && c[i].0 - y >= y - p
                        }
                    &&& p >= 0 ==> r == p
                    &&& p < 0 ==> r == 0
                },
                None => {
                    &&& forall|i: int|
                        0 <= i < c.len() ==> (#[trigger] c[i]).0 < y - dist || c[i].0 > y + dist
                    &&& y >= 0 ==> r == y
                    &&& y < 0 ==> r == 0
                },
            }
        }),
{
    let size = e.doc.elements[idx].display.height as int;
    let gap = e.prefs.snap_gap as int;
    let dist = e.prefs.snap_distance as int;
    let c = move_y_cands(e.doc.elements, idx, y, size, gap);
    let h = moved_y(e, idx, y);
    assert forall|i: int| 0 <= i < c.len() implies (#[trigger] c[i]).1 == num::int_abs(y - c[i].0) by {
        let k = law_move_y_places_meet_edges(e.doc.elements, idx, y, size, gap, i);
    }
    assert(h == axis(y, c, None, dist));
    lemma_nearest(c);
    if h.held {
        let b = nearest(c).unwrap();
        let k = choose|k: int| 0 <= k < c.len() && c[k] == b;
        assert(c[k].0 == h.pos);
        assert(h.pos as i32 == h.pos);
        assert forall|i: int| 0 <= i < c.len() implies num::int_abs(y - h.pos) <= num::int_abs(
            y - (#[trigger] c[i]).0,
        ) by {}
    } else {
        assert forall|i: int| 0 <= i < c.len() implies (#[trigger] c[i]).1 > dist by {
            assert(nearest(c).unwrap().1 <= c[i].1);
        }
    }
}

/// A held axis stays where it is held while it is dragged less than twice the
/// snap distance away, and snapping touches nothing but what is held.
pub proof fn law_arrangement_holds(e: Ed, idx: int, x: int, y: int)
    requires
        0 <= idx < e.doc.elements.len(),
    ensures
        ({
            let d = e.prefs.snap_distance;
            let s = arrangement_snapped(e, idx, x, y);
            let r = arrangement_at(e, idx, x, y);
            &&& s == (Ed {
                drag: Drag {
                    snapped_x: s.drag.snapped_x,
                    snapped_y: s.drag.snapped_y,
                    ..e.drag
                },
                ..e
            })
            &&& e.prefs.snap_tian ==> s.drag.snapped_x is None && s.drag.snapped_y is None
            &&& !e.prefs.snap_tian ==> match e.drag.snapped_x {
                Some(p) => p - 2 * d < x < p + 2 * d ==> s.drag.snapped_x == Some(p) && r.0 == (
                if p >= 0 {
                    p as int
                } else {
                    0
                }),
                None => true,
            }
            &&& !e.prefs.snap_tian ==> match e.drag.snapped_y {
                Some(p) => p - 2 * d < y < p + 2 * d ==> s.drag.snapped_y == Some(p) && r.1 == (
                if p >= 0 {
                    p as int
                } else {
                    0
                }),
                None => true,
            }
        }),
{
}

proof fn lemma_best_node(n: Seq<(int, int)>, cx: int, cy: int, dist: int)
    ensures
        match best_node(n, cx, cy, dist) {
            Some(b) => {
                &&& n.contains(b)
                &&& node_near(b, cx, cy, dist)
                &&& forall|i: int|
                    0 <= i < n.len() && node_near(#[trigger] n[i], cx, cy, dist) ==> node_cost(
                        b,
                        cx,
                        cy,
                    ) <= node_cost(n[i], cx, cy)
            },
            None => forall|i: int| 0 <= i < n.len() ==> !node_near(#[trigger] n[i], cx, cy, dist),
        },
    decreases n.len(),
{
    if n.len() > 0 {
        let t = n.drop_last();
        lemma_best_node(t, cx, cy, dist);
        assert(n[n.len() - 1] == n.last());
        assert forall|i: int| 0 <= i < t.len() implies #[trigger] n[i] == t[i] by {}
        match best_node(t, cx, cy, dist) {
            Some(b) => {
                let k = choose|k: int| 0 <= k < t.len() && t[k] == b;
                assert(n[k] == b);
                assert forall|i: int|
                    0 <= i < n.len() && node_near(#[trigger] n[i], cx, cy, dist) implies node_cost(
                    best_node(n, cx, cy, dist).unwrap(),
                    cx,
                    cy,
                ) <= node_cost(n[i], cx, cy) by {
                    if i < t.len() {
                        assert(n[i] == t[i]);
                    }
                }
            },
            None => {
                assert forall|i: int| 0 <= i < t.len() implies !node_near(
                    #[trigger] n[i],
                    cx,
                    cy,
                    dist,
                ) by {
                    assert(n[i] == t[i]);
                }
            },
        }
    }
}

/// The grid points of the other elements are the crossings of their left edge,
/// middle and right edge with their top edge, middle and bottom edge. `k` is the
/// element whose grid point it is.
pub proof fn law_grid_points(e: Seq<El>, idx: int, i: int) -> (k: int)
    requires
        0 <= i < all_nodes(e, idx).len(),
    ensures
        0 <= k < e.len(),
        k != idx,
        ({
            let n = all_nodes(e, idx)[i];
            let d = e[k].display;
            &&& {
                ||| n.0 == d.x
                ||| n.0 == d.x + d.width
                ||| d.width >= 0 && n.0 == d.x + d.width as int / 2
                ||| d.width < 0 && n.0 == d.x - (-d.width) / 2
            }
            &&& {
                ||| n.1 == d.y
                ||| n.1 == d.y + d.height
                ||| d.height >= 0 && n.1 == d.y + d.height as int / 2
                ||| d.height < 0 && n.1 == d.y - (-d.height) / 2
            }
        }),
    decreases e.len(),
{
    let rest = all_nodes(e.drop_last(), idx);
    if i < rest.len() {
        let k = law_grid_points(e.drop_last(), idx, i);
        assert(e.drop_last()[k] == e[k]);
        k
    } else {
        assert(e[e.len() - 1] == e.last());
        e.len() - 1
    }
}

/// Each of the nine crossings of every other element is a grid point: `a` and `b`
/// say which of the three verticals and horizontals.
pub proof fn law_all_crossings_are_grid_points(e: Seq<El>, idx: int, k: int, a: int, b: int) -> (i:
    int)
    requires
        0 <= k < e.len(),
        k != idx,
        0 <= a < 3,
        0 <= b < 3,
        e[k].display.width >= 0,
        e[k].display.height >= 0,
    ensures
        0 <= i < all_nodes(e, idx).len(),
        ({
            let n = all_nodes(e, idx)[i];
            let d = e[k].display;
            &&& n.0 == d.x + (if a == 0 {
                0
            } else if a == 1 {
                d.width as int / 2
            } else {
                d.width as int
            })
            &&& n.1 == d.y + (if b == 0 {
                0
            } else if b == 1 {
                d.height as int / 2
            } else {
                d.height as int
            })
        }),
    decreases e.len(),
{
    let rest = all_nodes(e.drop_last(), idx);
    if k == e.len() - 1 {
        rest.len() + 3 * a + b
    } else {
        assert(e.drop_last()[k] == e[k]);
        law_all_crossings_are_grid_points(e.drop_last(), idx, k, a, b)
    }
}

/// With the grid on, the center of a moving element comes to lie on a grid point
/// of another that is within the snap distance on both axes, and on none that is
/// further off, both axes together; where there is no such point, the element
/// stays where it was dragged. Zero cuts its place off.
pub proof fn law_grid_takes_the_center(e: Ed, idx: int, x: int, y: int)
    requires
        0 <= idx < e.doc.elements.len(),
        e.prefs.snap_tian,
        e.doc.elements[idx].display.width >= 0,
        e.doc.elements[idx].display.height >= 0,
    ensures
        ({
            let n = all_nodes(e.doc.elements, idx);
            let d = e.doc.elements[idx].display;
            let dist = e.prefs.snap_distance;
            let cx = x + d.width as int / 2;
            let cy = y + d.height as int / 2;
            let r = arrangement_at(e, idx, x, y);
            if exists|i: int|
                0 <= i < n.len() && cx - dist <= (#[trigger] n[i]).0 <= cx + dist && cy - dist
                    <= n[i].1 <= cy + dist {
                exists|i: int|
                    {
                        &&& 0 <= i < n.len()
                        &&& cx - dist <= (#[trigger] n[i]).0 <= cx + dist
                        &&& cy - dist <= n[i].1 <= cy + dist
                        &&& r.0 == num::int_max(n[i].0 - d.width as int / 2, 0)
                        &&& r.1 == num::int_max(n[i].1 - d.height as int / 2, 0)
                        &&& forall|j: int|
                            0 <= j < n.len() && cx - dist <= (#[trigger] n[j]).0 <= cx + dist && cy
                                - dist <= n[j].1 <= cy + dist ==> num::int_abs(n[i].0 - cx)
                                + num::int_abs(n[i].1 - cy) <= num::int_abs(n[j].0 - cx)
                                + num::int_abs(n[j].1 - cy)
                    }
            } else {
                r == (x, y)
            }
        }),
{
    let n = all_nodes(e.doc.elements, idx);
    let d = e.doc.elements[idx].display;
    let dist = e.prefs.snap_distance as int;
    let cx = x + d.width as int / 2;
    let cy = y + d.height as int / 2;
    lemma_best_node(n, cx, cy, dist);
    assert(moved_node(e, idx, x, y) == best_node(n, cx, cy, dist));
    assert forall|i: int| 0 <= i < n.len() implies node_near(#[trigger] n[i], cx, cy, dist) == (cx
        - dist <= n[i].0 <= cx + dist && cy - dist <= n[i].1 <= cy + dist) by {}
    match best_node(n, cx, cy, dist) {
        Some(b) => {
            let i = choose|i: int| 0 <= i < n.len() && n[i] == b;
            assert(node_near(n[i], cx, cy, dist));
        },
        None => {},
    }
}

/// The first of the nearest candidates takes an axis that is not held, where it
/// is within the distance.
pub proof fn law_first_of_the_nearest(pos: int, c: Seq<(int, int)>, dist: int, k: int)
    requires
        0 <= k < c.len(),
        c[k].1 <= dist,
        forall|i: int| 0 <= i < k ==> c[k].1 < (#[trigger] c[i]).1,
        forall|i: int| k < i < c.len() ==> c[k].1 <= (#[trigger] c[i]).1,
    ensures
        axis(pos, c, None, dist) == (Held { pos: c[k].0, held: true }),
{
    let j = lemma_first_nearest(c);
    if j < k {
        assert(c[k].1 < c[j].1);
        assert(c[j].1 <= c[k].1);
    } else if j > k {
        assert(c[j].1 < c[k].1);
        assert(c[k].1 <= c[j].1);
    }
}

/// A corner of a new region that was not held snaps to the nearest edge within
/// the snap distance, and stays where there is none; what is held is where it
/// snapped, and nothing else changes.
pub proof fn law_selection_snaps_to_edges(e: Ed, x: int, y: int)
    requires
        e.drag.snapped_x is None,
        e.drag.snapped_y is None,
        e.prefs.snap_distance >= 0,
    ensures
        ({
            let d = e.prefs.snap_distance;
            let s = selection_snapped(e, x, y);
            let cx = source_x_cands(e.doc.elements, x);
            let cy = source_y_cands(e.doc.elements, y);
            let hx = selection_x(e, x);
            let hy = selection_y(e, y);
            &&& x - d <= hx.pos <= x + d
            &&& y - d <= hy.pos <= y + d
            &&& hx.held ==> exists|i: int| 0 <= i < cx.len() && (#[trigger] cx[i]).0 == hx.pos
            &&& hy.held ==> exists|i: int| 0 <= i < cy.len() && (#[trigger] cy[i]).0 == hy.pos
            &&& !hx.held ==> hx.pos == x && forall|i: int|
                0 <= i < cx.len() ==> (#[trigger] cx[i]).0 < x - d || cx[i].0 > x + d
            &&& !hy.held ==> hy.pos == y && forall|i: int|
                0 <= i < cy.len() ==> (#[trigger] cy[i]).0 < y - d || cy[i].0 > y + d
            &&& s.drag.snapped_x == (if hx.held {
                Some(hx.pos as i32)
            } else {
                None
            })
            &&& s.drag.snapped_y == (if hy.held {
                Some(hy.pos as i32)
            } else {
                None
            })
            &&& s == (Ed {
                drag: Drag {
                    snapped_x: s.drag.snapped_x,
                    snapped_y: s.drag.snapped_y,
                    ..e.drag
                },
                ..e
            })
        }),
{
    let d = e.prefs.snap_distance as int;
    let cx = source_x_cands(e.doc.elements, x);
    let cy = source_y_cands(e.doc.elements, y);
    assert forall|i: int| 0 <= i < cx.len() implies (#[trigger] cx[i]).1 == num::int_abs(
        x - cx[i].0,
    ) by {
        let k = law_source_x_places_are_edges(e.doc.elements, x, i);
    }
    assert forall|i: int| 0 <= i < cy.len() implies (#[trigger] cy[i]).1 == num::int_abs(
        y - cy[i].0,
    ) by {
        let k = law_source_y_places_are_edges(e.doc.elements, y, i);
    }
    lemma_nearest(cx);
    lemma_nearest(cy);
    assert(selection_x(e, x) == axis(x, cx, None, d));
    assert(selection_y(e, y) == axis(y, cy, None, d));
    if selection_x(e, x).held {
        let b = nearest(cx).unwrap();
        let k = choose|k: int| 0 <= k < cx.len() && cx[k] == b;
        assert(cx[k].0 == selection_x(e, x).pos);
    }
    if selection_y(e, y).held {
        let b = nearest(cy).unwrap();
        let k = choose|k: int| 0 <= k < cy.len() && cy[k] == b;
        assert(cy[k].0 == selection_y(e, y).pos);
    }
}

/// The guide lines lie where the coordinates are held, on the screen: while
/// arranging they are moved by the corner of the overlay. With snapping off there
/// are none.
pub proof fn law_guide_lines(e: Ed)
    ensures
        !e.prefs.snap_on ==> guide_lines(e).0 is None && guide_lines(e).1 is None,
        e.prefs.snap_on ==> {
            &&& guide_lines(e).0 is Some == e.drag.snapped_x is Some
            &&& guide_lines(e).1 is Some == e.drag.snapped_y is Some
            &&& forall|x: i32|
                e.drag.snapped_x == Some(x) ==> #[trigger] guide_lines(e).0.unwrap() - x == (
                if e.phase == EditorPhase::Arranging {
                    e.area.overlay_x as int
                } else {
                    0
                })
            &&& forall|y: i32|
                e.drag.snapped_y == Some(y) ==> #[trigger] guide_lines(e).1.unwrap() - y == (
                if e.phase == EditorPhase::Arranging {
                    e.area.overlay_y as int
                } else {
                    0
                })
        },
{
}

proof fn lemma_width_snapped(e: Seq<El>, idx: int, at: int, len: int, dist: int, k: int)
    requires
        -1 <= k < e.len(),
        k != idx,
        forall|j: int|
            k < j < e.len() && j != idx ==> {
                let near = (#[trigger] e[j]).display.x as int;
                let far = near + e[j].display.width;
                &&& near < at + len - dist || near > at + len + dist
                &&& far < at + len - dist || far > at + len + dist
            },
    ensures
        k == -1 ==> width_snapped(e, idx, at, len, dist) == len,
        k >= 0 ==> ({
            let near = e[k].display.x as int;
            let far = near + e[k].display.width;
            let end = at + width_snapped(e, idx, at, len, dist);
            if at + len - dist <= far <= at + len + dist {
                end == far
            } else if at + len - dist <= near <= at + len + dist {
                end == near
            } else {
                true
            }
        }),
    decreases e.len(),
{
    if e.len() > 0 && k < e.len() - 1 {
        let t = e.drop_last();
        assert forall|j: int| k < j < t.len() && j != idx implies {
            let near = (#[trigger] t[j]).display.x as int;
            let far = near + t[j].display.width;
            &&& near < at + len - dist || near > at + len + dist
            &&& far < at + len - dist || far > at + len + dist
        } by {
            assert(t[j] == e[j]);
        }
        lemma_width_snapped(t, idx, at, len, dist, k);
        assert(e[e.len() - 1] == e.last());
        if k >= 0 {
            assert(t[k] == e[k]);
        }
    } else if e.len() > 0 {
        assert(e[k] == e.last());
    }
}

proof fn lemma_height_snapped(e: Seq<El>, idx: int, at: int, len: int, dist: int, k: int)
    requires
        -1 <= k < e.len(),
        k != idx,
        forall|j: int|
            k < j < e.len() && j != idx ==> {
                let near = (#[trigger] e[j]).display.y as int;
                let far = near + e[j].display.height;
                &&& near < at + len - dist || near > at + len + dist
                &&& far < at + len - dist || far > at + len + dist
            },
    ensures
        k == -1 ==> height_snapped(e, idx, at, len, dist) == len,
        k >= 0 ==> ({
            let near = e[k].display.y as int;
            let far = near + e[k].display.height;
            let end = at + height_snapped(e, idx, at, len, dist);
            if at + len - dist <= far <= at + len + dist {
                end == far
            } else if at + len - dist <= near <= at + len + dist {
                end == near
            } else {
                true
            }
        }),
    decreases e.len(),
{
    if e.len() > 0 && k < e.len() - 1 {
        let t = e.drop_last();
        assert forall|j: int| k < j < t.len() && j != idx implies {
            let near = (#[trigger] t[j]).display.y as int;
            let far = near + t[j].display.height;
            &&& near < at + len - dist || near > at + len + dist
            &&& far < at + len - dist || far > at + len + dist
        } by {
            assert(t[j] == e[j]);
        }
        lemma_height_snapped(t, idx, at, len, dist, k);
        assert(e[e.len() - 1] == e.last());
        if k >= 0 {
            assert(t[k] == e[k]);
        }
    } else if e.len() > 0 {
        assert(e[k] == e.last());
    }
}

/// The right and the lower edge of a resized element snap to the edges of the
/// others: of the elements with an edge within the distance the last decides, and
/// of its two edges the far one. Without such an element the size is as it was
/// dragged. It never falls below 20.
pub proof fn law_resize_meets_edges(e: Seq<El>, idx: int, w: int, h: int, dist: int, k: int)
    requires
        0 <= idx < e.len(),
        -1 <= k < e.len(),
        k != idx,
        0 <= dist,
    ensures
        ({
            let d = e[idx].display;
            let r = resized(e, idx, w, h, dist);
            let right = d.x + w;
            let late = forall|j: int|
                k < j < e.len() && j != idx ==> {
                    &&& (#[trigger] e[j]).display.x < right - dist || e[j].display.x > right + dist
                    &&& e[j].display.x + e[j].display.width < right - dist || e[j].display.x
                        + e[j].display.width > right + dist
                };
            &&& late && k == -1 ==> r.0 == (if w >= 20 {
                w
            } else {
                20
            })
            &&& late && k >= 0 ==> {
                let near = e[k].display.x as int;
                let far = near + e[k].display.width;
                if right - dist <= far <= right + dist {
                    r.0 == (if far - d.x >= 20 {
                        far - d.x
                    } else {
                        20
                    })
                } else if right - dist <= near <= right + dist {
                    r.0 == (if near - d.x >= 20 {
                        near - d.x
                    } else {
                        20
                    })
                } else {
                    true
                }
            }
        }),
        ({
            let d = e[idx].display;
            let r = resized(e, idx, w, h, dist);
            let low = d.y + h;
            let late = forall|j: int|
                k < j < e.len() && j != idx ==> {
                    &&& (#[trigger] e[j]).display.y < low - dist || e[j].display.y > low + dist
                    &&& e[j].display.y + e[j].display.height < low - dist || e[j].display.y
                        + e[j].display.height > low + dist
                };
            &&& late && k == -1 ==> r.1 == (if h >= 20 {
                h
            } else {
                20
            })
            &&& late && k >= 0 ==> {
                let near = e[k].display.y as int;
                let far = near + e[k].display.height;
                if low - dist <= far <= low + dist {
                    r.1 == (if far - d.y >= 20 {
                        far - d.y
                    } else {
                        20
                    })
                } else if low - dist <= near <= low + dist {
                    r.1 == (if near - d.y >= 20 {
                        near - d.y
                    } else {
                        20
                    })
                } else {
                    true
                }
            }
        }),
{
    let d = e[idx].display;
    let right = d.x + w;
    let low = d.y + h;
    if forall|j: int|
        k < j < e.len() && j != idx ==> {
            &&& (#[trigger] e[j]).display.x < right - dist || e[j].display.x > right + dist
            &&& e[j].display.x + e[j].display.width < right - dist || e[j].display.x
                + e[j].display.width > right + dist
        } {
        lemma_width_snapped(e, idx, d.x as int, w, dist, k);
    }
    if forall|j: int|
        k < j < e.len() && j != idx ==> {
            &&& (#[trigger] e[j]).display.y < low - dist || e[j].display.y > low + dist
            &&& e[j].display.y + e[j].display.height < low - dist || e[j].display.y
                + e[j].display.height > low + dist
        } {
        lemma_height_snapped(e, idx, d.y as int, h, dist, k);
    }
}

} // verus!
