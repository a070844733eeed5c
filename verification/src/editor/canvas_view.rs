//! How the canvas and what lies over it are drawn.

use vstd::prelude::*;

use crate::color;
use crate::color::reads_as_color;
use crate::config;
use crate::config::wide_footprint;
use crate::decimal;
use crate::decimal::decimal;
use crate::editor::arranging;
use crate::editor::arranging::{drawing_order, hex_color, holds, PngCache};
use crate::editor::common;
use crate::editor::common::{
    rgb, EditorPhase, GRID_SPACING, MAG_CAPTURE, MAG_SIZE, SCREEN_LIMIT,
};
use crate::editor::draw;
use crate::editor::draw::{
    draw_button, draw_handle, draw_rect_outline, fill_rect_solid, join2, number, put_op, put_plain,
    put_rounded, put_words, steps, Op, OpView, Shape,
};
use crate::editor::panel_view;
use crate::editor::panel_view::draw_region_panel;
use crate::editor::snap;
use crate::editor::snap::snap_lines;
use crate::editor::state;
use crate::editor::state::{Ed, EditorState, El, ElemKind, Element};
use crate::editor::ui;
use crate::editor::ui::{confirm_box, hint_at, resolve_filename};
use crate::editor::window;
use crate::editor::window::{magnifier_at, xy_label_at};
use crate::i18n::{t, Texts};
use crate::num;
use crate::num::{
    abs_i64, half_i32, half_i64, max_i32, max_i64, min_i32, min_i64, wrap_degrees,
};
use crate::text;
use crate::text::{append_text, chars_of, owned, string_of, trim_chars};
use crate::zorder;

verus! {

// ===== Grid =====

/// The lines that part the screen, before the `n`th. Where there are sixteen
/// parts, every fourth line is left out.
pub open spec fn part_lines(sw: int, sh: int, parts: int, n: int, upright: bool, color: u32) -> Seq<OpView>
    decreases n,
{
    if n <= 1 {
        Seq::empty()
    } else {
        let k = n - 1;
        let rest = part_lines(sw, sh, parts, k, upright, color);
        if parts == 16 && k % 4 == 0 {
            rest
        } else if upright {
            rest.push(draw::fill(sw * k / parts, 0, 1, sh, color))
        } else {
            rest.push(draw::fill(0, sh * k / parts, sw, 1, color))
        }
    }
}

/// The first ticks at the upper edge of the screen: one every hundred pixels.
pub open spec fn top_ticks(n: int) -> Seq<OpView>
    decreases n,
{
    if n <= 0 {
        Seq::empty()
    } else {
        let x = n * GRID_SPACING;
        top_ticks(n - 1) + seq![
            draw::fill(x, 0, 1, 25, common::color_number(46, 52, 70)),
            draw::centered(
                decimal::dec_int(x),
                (x - 20, 4, 40, 18),
                common::color_number(95, 105, 128),
            ),
        ]
    }
}

/// The first ticks at the left edge of the screen.
pub open spec fn left_ticks(n: int) -> Seq<OpView>
    decreases n,
{
    if n <= 0 {
        Seq::empty()
    } else {
        let y = n * GRID_SPACING;
        left_ticks(n - 1) + seq![
            draw::fill(0, y, 25, 1, common::color_number(46, 52, 70)),
            draw::left(
                decimal::dec_int(y),
                (4, y - 9, 40, 18),
                common::color_number(95, 105, 128),
            ),
        ]
    }
}

/// How many ticks an edge has: none at its ends.
pub open spec fn tick_count(len: int) -> int {
    if len <= 0 {
        0
    } else {
        (len - 1) / (GRID_SPACING as int)
    }
}

/// The middle of the screen.
pub open spec fn middle_ops(sw: int, sh: int) -> Seq<OpView> {
    let c = common::color_number(0x96, 0xa0, 0xd7);
    seq![draw::fill(sw / 2 - 1, 0, 2, sh, c), draw::fill(0, sh / 2 - 1, sw, 2, c)]
}

/// The grid: the screen in sixteen, in four and in two parts, and ticks at its
/// edges.
#[verifier::opaque]
pub open spec fn grid_ops(e: Ed) -> Seq<OpView> {
    let sw = e.area.screen_w as int;
    let sh = e.area.screen_h as int;
    let weak = common::color_number(46, 52, 70);
    let strong = common::color_number(0x5a, 0x64, 0x8c);
    part_lines(sw, sh, 16, 16, true, weak) + part_lines(sw, sh, 16, 16, false, weak) + part_lines(
        sw,
        sh,
        4,
        4,
        true,
        strong,
    ) + part_lines(sw, sh, 4, 4, false, strong) + middle_ops(sw, sh) + top_ticks(tick_count(sw))
        + left_ticks(tick_count(sh))
}

fn put_part_lines(ops: &mut Vec<Op>, sw: i32, sh: i32, parts: i32, upright: bool, color: u32)
    requires
        0 <= sw,
        0 <= sh,
        1 <= parts <= 16,
    ensures
        steps(final(ops)@) == steps(old(ops)@) + part_lines(
            sw as int,
            sh as int,
            parts as int,
            parts as int,
            upright,
            color,
        ),
{
    let ghost before = steps(ops@);
    let mut k: i32 = 1;
    assert(before + part_lines(sw as int, sh as int, parts as int, 1, upright, color) =~= before);
    while k < parts
        invariant
            0 <= sw,
            0 <= sh,
            1 <= k <= parts <= 16,
            steps(ops@) == before + part_lines(
                sw as int,
                sh as int,
                parts as int,
                k as int,
                upright,
                color,
            ),
        decreases parts - k,
    {
        if !(parts == 16 && k % 4 == 0) {
            assert(0 <= sw * k <= 0x8_0000_0000 && 0 <= sh * k <= 0x8_0000_0000)
                by (nonlinear_arith)
                requires
                    0 <= sw <= i32::MAX,
                    0 <= sh <= i32::MAX,
                    1 <= k <= 16,
            ;
            if upright {
                let x: i64 = sw as i64 * k as i64 / parts as i64;
                fill_rect_solid(ops, x as i32, 0, 1, sh, color);
            } else {
                let y: i64 = sh as i64 * k as i64 / parts as i64;
                fill_rect_solid(ops, 0, y as i32, sw, 1, color);
            }
        }
        k += 1;
        assert(steps(ops@) =~= before + part_lines(
            sw as int,
            sh as int,
            parts as int,
            k as int,
            upright,
            color,
        ));
    }
}

fn put_ticks(ops: &mut Vec<Op>, len: i32, top: bool)
    requires
        0 <= len <= SCREEN_LIMIT,
    ensures
        steps(final(ops)@) == steps(old(ops)@) + (if top {
            top_ticks(tick_count(len as int))
        } else {
            left_ticks(tick_count(len as int))
        }),
{
    let ghost before = steps(ops@);
    let tick: u32 = rgb(46, 52, 70);
    let label: u32 = rgb(95, 105, 128);
    let mut at: i32 = GRID_SPACING;
    let ghost mut n = 0int;
    assert(before + top_ticks(0) =~= before);
    assert(before + left_ticks(0) =~= before);
    while at < len
        invariant
            0 <= len <= SCREEN_LIMIT,
            at == (n + 1) * GRID_SPACING,
            at <= len + GRID_SPACING,
            n >= 0,
            n > 0 ==> n * GRID_SPACING < len,
            tick == common::color_number(46, 52, 70),
            label == common::color_number(95, 105, 128),
            steps(ops@) == before + (if top {
                top_ticks(n)
            } else {
                left_ticks(n)
            }),
        decreases len + GRID_SPACING - at,
    {
        if top {
            fill_rect_solid(ops, at, 0, 1, 25, tick);
            put_words(ops, Shape::Text, number(at), (at - 20, 4, 40, 18), label);
            assert(steps(ops@) =~= before + top_ticks(n + 1));
        } else {
            fill_rect_solid(ops, 0, at, 25, 1, tick);
            put_words(ops, Shape::TextLeft, number(at), (4, at - 9, 40, 18), label);
            assert(steps(ops@) =~= before + left_ticks(n + 1));
        }
        proof {
            n = n + 1;
        }
        at += GRID_SPACING;
    }
    assert(n == tick_count(len as int));
}

/// Draws the grid.
pub fn draw_grid(ops: &mut Vec<Op>, st: &EditorState)
    requires
        st@.area.in_range(),
    ensures
        steps(final(ops)@) == steps(old(ops)@) + grid_ops(st@),
{
    let ghost before = steps(ops@);
    let sw: i32 = st.area.screen_w;
    let sh: i32 = st.area.screen_h;
    let weak: u32 = rgb(46, 52, 70);
    let strong: u32 = rgb(0x5a, 0x64, 0x8c);
    let middle: u32 = rgb(0x96, 0xa0, 0xd7);
    put_part_lines(ops, sw, sh, 16, true, weak);
    put_part_lines(ops, sw, sh, 16, false, weak);
    put_part_lines(ops, sw, sh, 4, true, strong);
    put_part_lines(ops, sw, sh, 4, false, strong);
    let ghost s4 = steps(ops@);
    fill_rect_solid(ops, sw / 2 - 1, 0, 2, sh, middle);
    fill_rect_solid(ops, 0, sh / 2 - 1, sw, 2, middle);
    assert(steps(ops@) =~= s4 + middle_ops(sw as int, sh as int));
    put_ticks(ops, sw, true);
    put_ticks(ops, sh, false);
    proof {
        reveal(grid_ops);
        let w = sw as int;
        let h = sh as int;
        let a1 = part_lines(w, h, 16, 16, true, weak);
        let b2 = part_lines(w, h, 16, 16, false, weak);
        let b3 = part_lines(w, h, 4, 4, true, strong);
        let b4 = part_lines(w, h, 4, 4, false, strong);
        let b5 = middle_ops(w, h);
        let b6 = top_ticks(tick_count(w));
        let b7 = left_ticks(tick_count(h));
        draw::lemma_added(before, a1, b2);
        draw::lemma_added(before, a1 + b2, b3);
        draw::lemma_added(before, a1 + b2 + b3, b4);
        draw::lemma_added(before, a1 + b2 + b3 + b4, b5);
        draw::lemma_added(before, a1 + b2 + b3 + b4 + b5, b6);
        draw::lemma_added(before, a1 + b2 + b3 + b4 + b5 + b6, b7);
    }
}

// ===== Texts =====

/// The text that tells place and size.
pub open spec fn place_text(x: int, y: int, w: int, h: int) -> Seq<char> {
    "X:"@ + decimal::dec_int(x) + " Y:"@ + decimal::dec_int(y) + " W:"@ + decimal::dec_int(w)
        + " H:"@ + decimal::dec_int(h)
}

fn place_label(x: i64, y: i64, w: i64, h: i64) -> (r: String)
    requires
        x > i64::MIN,
        y > i64::MIN,
        w > i64::MIN,
        h > i64::MIN,
    ensures
        r@ == place_text(x as int, y as int, w as int, h as int),
{
    let mut v: Vec<char> = chars_of("X:");
    append_text(&mut v, decimal(x).as_str());
    append_text(&mut v, " Y:");
    append_text(&mut v, decimal(y).as_str());
    append_text(&mut v, " W:");
    append_text(&mut v, decimal(w).as_str());
    append_text(&mut v, " H:");
    append_text(&mut v, decimal(h).as_str());
    string_of(&v)
}

// ===== Selecting =====

/// Where the text of a region is drawn: below it, at its left end, or at its
/// right end where it is narrow.
pub open spec fn region_text_x(x: int, w: int) -> int {
    if w > 220 {
        num::int_max(num::int_min(x, x + w - 220), 0)
    } else {
        num::int_max(x + w - 220, 0)
    }
}

/// A region that is captured.
#[verifier::opaque]
pub open spec fn region_ops(e: Ed, i: int) -> Seq<OpView> {
    match e.doc.elements[i].source {
        Some(s) => {
            let x = s.x as i32 as int;
            let y = s.y as i32 as int;
            let w = s.width as i32 as int;
            let h = s.height as i32 as int;
            let tx = region_text_x(x, w);
            let ty = num::int_min(y + h, e.area.screen_h - 24);
            seq![
                draw::plain(Shape::Tint, (x, y, w, h), 110, common::color_number(40, 190, 110)),
                draw::outline(x, y, w, h, 2, common::color_number(80, 200, 120)),
                draw::fill(x, y, 38, 22, common::color_number(255, 220, 60)),
                draw::centered(
                    "#"@ + decimal::dec_int(i + 1),
                    (x, y, 38, 22),
                    common::color_number(30, 30, 40),
                ),
                draw::fill(tx, ty, 220, 22, common::color_number(20, 40, 24)),
                draw::centered(
                    place_text(s.x as int, s.y as int, s.width as int, s.height as int),
                    (tx, ty, 220, 22),
                    common::color_number(120, 230, 140),
                ),
            ] + if e.doc.selected.contains(i as usize) {
                seq![
                    draw::outline(
                        x - 2,
                        y - 2,
                        w + 4,
                        h + 4,
                        2,
                        common::color_number(255, 220, 60),
                    ),
                ]
            } else {
                Seq::empty()
            }
        },
        None => Seq::empty(),
    }
}

/// The first regions.
pub open spec fn all_region_ops(e: Ed, n: int) -> Seq<OpView>
    decreases n,
{
    if n <= 0 {
        Seq::empty()
    } else {
        all_region_ops(e, n - 1) + region_ops(e, n - 1)
    }
}

/// The box of a new region.
#[verifier::opaque]
pub open spec fn new_box_ops(e: Ed) -> Seq<OpView> {
    match (e.boxes.is_dragging, e.boxes.drag_start, e.boxes.drag_current) {
        (true, Some(s), Some(c)) => {
            let x = num::int_min(s.0 as int, c.0 as int);
            let y = num::int_min(s.1 as int, c.1 as int);
            let w = num::int_abs(c.0 - s.0);
            let h = num::int_abs(c.1 - s.1);
            let ly = num::int_max(y - 24, 2);
            seq![
                draw::outline(x, y, w, h, 2, common::color_number(80, 220, 120)),
                draw::fill(x, ly, 120, 22, common::color_number(20, 40, 24)),
                draw::centered(
                    decimal::dec_int(w) + " \u{00D7} "@ + decimal::dec_int(h),
                    (x, ly, 120, 22),
                    common::color_number(120, 230, 140),
                ),
            ]
        },
        _ => Seq::empty(),
    }
}

/// The canvas while selecting.
pub open spec fn selecting_ops(e: Ed, tx: Texts, opacity: Seq<char>) -> Seq<OpView> {
    all_region_ops(e, e.doc.elements.len() as int) + new_box_ops(e) + panel_view::panel_ops(
        e,
        tx,
        opacity,
    )
}

fn put_region(ops: &mut Vec<Op>, st: &EditorState, i: usize)
    requires
        st@.in_range(),
        i < st@.doc.elements.len(),
    ensures
        steps(final(ops)@) == steps(old(ops)@) + region_ops(st@, i as int),
{
    proof {
        reveal(region_ops);
    }
    let ghost before = steps(ops@);
    assert(st.doc.elements@[i as int]@ == st@.doc.elements[i as int]);
    if let Some(s) = st.doc.elements[i].source {
        let (x, y, w, h): (i32, i32, i32, i32) = (
            s.x as i32,
            s.y as i32,
            s.width as i32,
            s.height as i32,
        );
        put_plain(ops, Shape::Tint, (x, y, w, h), 110, rgb(40, 190, 110));
        draw_rect_outline(ops, x, y, w, h, 2, rgb(80, 200, 120));
        fill_rect_solid(ops, x, y, 38, 22, rgb(255, 220, 60));
        let label: String = join2("#", number((i + 1) as i32).as_str());
        put_words(ops, Shape::Text, label, (x, y, 38, 22), rgb(30, 30, 40));
        let right: i64 = x as i64 + w as i64 - 220;
        let far: i64 = if w > 220 {
            max_i64(min_i64(x as i64, right), 0)
        } else {
            max_i64(right, 0)
        };
        let tx: i32 = far as i32;
        let ty: i32 = min_i64(y as i64 + h as i64, (st.area.screen_h - 24) as i64) as i32;
        fill_rect_solid(ops, tx, ty, 220, 22, rgb(20, 40, 24));
        put_words(
            ops,
            Shape::Text,
            place_label(s.x as i64, s.y as i64, s.width as i64, s.height as i64),
            (tx, ty, 220, 22),
            rgb(120, 230, 140),
        );
        if holds(&st.doc.selected_indices, i) {
            draw_rect_outline(
                ops,
                (x as i64 - 2) as i32,
                (y as i64 - 2) as i32,
                (w as i64 + 4) as i32,
                (h as i64 + 4) as i32,
                2,
                rgb(255, 220, 60),
            );
        }
    }
    assert(steps(ops@) =~= before + region_ops(st@, i as int));
}

fn put_new_box(ops: &mut Vec<Op>, st: &EditorState)
    ensures
        steps(final(ops)@) == steps(old(ops)@) + new_box_ops(st@),
{
    proof {
        reveal(new_box_ops);
    }
    let ghost before = steps(ops@);
    if st.boxes.is_dragging {
        if let (Some((sx, sy)), Some((cx, cy))) = (st.boxes.drag_start, st.boxes.drag_current) {
            let x: i32 = min_i32(sx, cx);
            let y: i32 = min_i32(sy, cy);
            let w: i64 = abs_i64(cx as i64 - sx as i64);
            let h: i64 = abs_i64(cy as i64 - sy as i64);
            draw_rect_outline(ops, x, y, w as i32, h as i32, 2, rgb(80, 220, 120));
            let ly: i32 = max_i64(y as i64 - 24, 2) as i32;
            fill_rect_solid(ops, x, ly, 120, 22, rgb(20, 40, 24));
            let size: String = join2(
                join2(decimal(w).as_str(), " \u{00D7} ").as_str(),
                decimal(h).as_str(),
            );
            put_words(ops, Shape::Text, size, (x, ly, 120, 22), rgb(120, 230, 140));
        }
    }
    assert(steps(ops@) =~= before + new_box_ops(st@));
}

/// Draws the canvas while selecting.
pub fn draw_selecting(ops: &mut Vec<Op>, st: &EditorState, texts: &Texts, opacity: &str)
    requires
        st@.in_range(),
    ensures
        steps(final(ops)@) == steps(old(ops)@) + selecting_ops(st@, *texts, opacity@),
{
    let ghost before = steps(ops@);
    let ghost e = st@;
    assert(before + all_region_ops(e, 0) =~= before);
    for i in 0..st.doc.elements.len()
        invariant
            st@.in_range(),
            e == st@,
            steps(ops@) == before + all_region_ops(e, i as int),
    {
        put_region(ops, st, i);
        proof {
            draw::lemma_added(before, all_region_ops(e, i as int), region_ops(e, i as int));
        }
    }
    put_new_box(ops, st);
    draw_region_panel(ops, st, texts, opacity);
    proof {
        let a1 = all_region_ops(e, e.doc.elements.len() as int);
        draw::lemma_added(before, a1, new_box_ops(e));
        draw::lemma_added(
            before,
            a1 + new_box_ops(e),
            panel_view::panel_ops(e, *texts, opacity@),
        );
    }
}

// ===== Arranging =====

/// What was measured of a turned element: the box around it at an angle that is
/// no multiple of a right angle, and where its upper left corner comes to lie.
#[derive(Debug, Clone, Copy)]
pub struct Turned {
    pub tilted: (i32, i32),
    pub corner: (i32, i32),
}

/// What is known of the elements besides the state: their sizes on the canvas,
/// how they are turned, and the pictures.
pub struct Canvas<'a> {
    pub sizes: &'a Vec<(i32, i32)>,
    pub turned: &'a Vec<Turned>,
    pub cache: &'a PngCache,
}

/// Whether what is known fits the elements, and their colors can be read.
pub open spec fn canvas_ok(e: Ed, c: Canvas<'_>) -> bool {
    &&& c.sizes@.len() == e.doc.elements.len()
    &&& c.turned@.len() == e.doc.elements.len()
    &&& forall|i: int|
        0 <= i < e.doc.elements.len() ==> colors_ok((#[trigger] e.doc.elements[i]))
}

/// Whether the colors of an element can be read. A text may have none.
pub open spec fn colors_ok(el: El) -> bool {
    match el.extra.kind {
        ElemKind::Frame => color::is_color_text(el.extra.border_color),
        ElemKind::Background => color::is_color_text(el.extra.color),
        ElemKind::Text => text::trim(el.extra.text_color).len() > 0 ==> color::is_color_text(
            el.extra.text_color,
        ),
        _ => true,
    }
}

/// Whether the colors of all elements can be read.
pub fn colors_fit(elements: &Vec<Element>) -> (r: bool)
    ensures
        r == forall|i: int|
            0 <= i < elements@.len() ==> colors_ok(#[trigger] state::els(elements@)[i]),
{
    for i in 0..elements.len()
        invariant
            forall|j: int| 0 <= j < i ==> colors_ok(#[trigger] state::els(elements@)[j]),
    {
        let e: &Element = &elements[i];
        let ok: bool = match e.extra.kind {
            ElemKind::Frame => reads_as_color(e.extra.border_color.as_str()),
            ElemKind::Background => reads_as_color(e.extra.color.as_str()),
            ElemKind::Text => trim_chars(&chars_of(e.extra.text_color.as_str())).len() == 0
                || reads_as_color(e.extra.text_color.as_str()),
            _ => true,
        };
        assert(ok == colors_ok(state::els(elements@)[i as int]));
        if !ok {
            return false;
        }
    }
    true
}

/// The color of a capture element: six colors in turn.
pub open spec fn turn_color(i: int) -> u32 {
    let k = i % 6;
    if k == 0 {
        common::color_number(180, 60, 60)
    } else if k == 1 {
        common::color_number(60, 160, 60)
    } else if k == 2 {
        common::color_number(60, 60, 180)
    } else if k == 3 {
        common::color_number(180, 140, 40)
    } else if k == 4 {
        common::color_number(140, 60, 160)
    } else {
        common::color_number(60, 160, 160)
    }
}

/// The pen around a filled element: its width and color.
pub open spec fn pen_of(selected: bool) -> (int, u32) {
    if selected {
        (3, common::color_number(255, 220, 60))
    } else {
        (1, common::color_number(255, 255, 255))
    }
}

/// The radius of the corners of an element: at most half of its sides.
pub open spec fn corner_of(el: El) -> int {
    num::int_max(
        num::int_min(
            num::int_min(el.extra.corner_radius as i32 as int, num::half(el.display.width as int)),
            num::half(el.display.height as int),
        ),
        0,
    )
}

/// A thin outline around an element that is selected.
pub open spec fn selected_outline(selected: bool, b: (int, int, int, int)) -> Seq<OpView> {
    if selected {
        seq![draw::outline(b.0, b.1, b.2, b.3, 1, common::color_number(255, 220, 60))]
    } else {
        Seq::empty()
    }
}

/// A capture element: its area tinted, and an outline.
pub open spec fn capture_ops(el: El, x: int, y: int, i: int, selected: bool) -> Seq<OpView> {
    let b = (x, y, el.display.width as int, el.display.height as int);
    seq![
        draw::plain(Shape::Tint, b, 90, turn_color(i)),
        draw::rounded(
            Shape::RoundOutline,
            b,
            8,
            if selected {
                3
            } else {
                2
            },
            turn_color(i),
            0,
        ),
    ]
}

/// A frame.
pub open spec fn frame_ops(el: El, x: int, y: int) -> Seq<OpView> {
    let b = (x, y, el.display.width as int, el.display.height as int);
    seq![
        draw::rounded(
            Shape::RoundOutline,
            b,
            corner_of(el) * 2,
            num::int_max(el.extra.border_width as int, 1),
            arranging::canvas_color(el.extra.border_color),
            0,
        ),
    ]
}

/// A background.
pub open spec fn ground_ops(el: El, x: int, y: int, selected: bool) -> Seq<OpView> {
    let b = (x, y, el.display.width as int, el.display.height as int);
    seq![
        draw::rounded(
            Shape::Round,
            b,
            corner_of(el) * 2,
            pen_of(selected).0,
            pen_of(selected).1,
            arranging::canvas_color(el.extra.color),
        ),
    ]
}

/// Whether there is a picture for a file name.
pub open spec fn has_picture(cache: PngCache, path: Seq<char>) -> bool {
    text::trim(path).len() > 0 && match cache.kept(path) {
        Some(Some(p)) => true,
        _ => false,
    }
}

/// A picture, or what stands in for one that there is not.
pub open spec fn picture_ops(
    el: El,
    cache: PngCache,
    tx: Texts,
    x: int,
    y: int,
    size: (int, int),
    selected: bool,
) -> Seq<OpView> {
    let b = (x, y, size.0, size.1);
    let path = el.extra.png_path;
    if has_picture(cache, path) {
        seq![draw::words(Shape::Picture, path, b, 0)] + selected_outline(selected, b)
    } else {
        seq![
            draw::rounded(
                Shape::Round,
                b,
                corner_of(el) * 2,
                pen_of(selected).0,
                pen_of(selected).1,
                common::color_number(40, 60, 80),
            ),
            if path.len() > 0 {
                draw::centered(
                    path,
                    (x + 2, y + num::half(size.1) - 8, size.0 - 4, 16),
                    common::color_number(200, 220, 255),
                )
            } else {
                draw::centered(
                    tx.text("no_image"@),
                    (x + 2, y + num::half(size.1) - 8, size.0 - 4, 16),
                    common::color_number(200, 100, 100),
                )
            },
        ]
    }
}

/// The color of a text: white where it has none.
pub open spec fn text_color(el: El) -> u32 {
    if text::trim(el.extra.text_color).len() > 0 {
        arranging::canvas_color(el.extra.text_color)
    } else {
        common::color_number(255, 255, 255)
    }
}

/// A text.
pub open spec fn text_ops(el: El, x: int, y: int, size: (int, int), selected: bool) -> Seq<OpView> {
    let b = (x, y, size.0, size.1);
    let drawn = if el.extra.content.len() > 0 {
        seq![
            OpView {
                n: el.extra.font_size as i32,
                ..draw::words(Shape::Words, el.extra.content, b, text_color(el))
            },
        ]
    } else {
        Seq::empty()
    };
    drawn + selected_outline(selected, b)
}

/// What an element itself looks like.
#[verifier::opaque]
pub open spec fn body_ops(e: Ed, c: Canvas<'_>, tx: Texts, i: int) -> Seq<OpView> {
    let el = e.doc.elements[i];
    let x = e.area.overlay_x + el.display.x;
    let y = e.area.overlay_y + el.display.y;
    let size = (c.sizes@[i].0 as int, c.sizes@[i].1 as int);
    let selected = e.doc.selected.contains(i as usize);
    match el.extra.kind {
        ElemKind::Capture => capture_ops(el, x, y, i, selected),
        ElemKind::Frame => frame_ops(el, x, y),
        ElemKind::Background => ground_ops(el, x, y, selected),
        ElemKind::Png => picture_ops(el, *c.cache, tx, x, y, size, selected),
        ElemKind::Text => text_ops(el, x, y, size, selected),
    }
}

/// What shows how an element is turned: the box around it, and a line from its
/// corner to where that comes to lie.
#[verifier::opaque]
pub open spec fn turn_ops(e: Ed, c: Canvas<'_>, i: int) -> Seq<OpView> {
    let el = e.doc.elements[i];
    let t = c.turned@[i];
    let x = e.area.overlay_x + el.display.x;
    let y = e.area.overlay_y + el.display.y;
    if el.display.rotate as int % 360 != 0 {
        let f = config::footprint(
            x,
            y,
            c.sizes@[i].0 as int,
            c.sizes@[i].1 as int,
            el.display.rotate as int,
            (t.tilted.0 as int, t.tilted.1 as int),
        );
        seq![
            draw::outline(f.0, f.1, f.2, f.3, 1, common::color_number(255, 220, 60)),
            draw::plain(
                Shape::Line,
                (x, y, t.corner.0 as int, t.corner.1 as int),
                1,
                common::color_number(160, 160, 255),
            ),
        ]
    } else {
        Seq::empty()
    }
}

/// The number, the handle, and place and size of an element.
#[verifier::opaque]
pub open spec fn badge_ops(e: Ed, c: Canvas<'_>, tx: Texts, i: int) -> Seq<OpView> {
    let el = e.doc.elements[i];
    let x = e.area.overlay_x + el.display.x;
    let y = e.area.overlay_y + el.display.y;
    let w = c.sizes@[i].0 as int;
    let h = c.sizes@[i].1 as int;
    let ix = num::int_max(x + num::half(w) - 110, 0);
    let iy = num::int_min(y + h, e.area.screen_h - 24);
    seq![
        draw::centered(
            "#"@ + decimal::dec_int(i + 1) + tx.text(state::badge_key(el.extra.kind)),
            (x, y - 18, num::int_max(w, 40), 16),
            common::color_number(255, 255, 255),
        ),
        draw::handle(x + w - 12, y + h - 12),
        draw::fill(ix, iy, 220, 20, common::color_number(20, 40, 24)),
        draw::centered(
            place_text(el.display.x as int, el.display.y as int, w, h),
            (ix, iy, 220, 20),
            common::color_number(120, 230, 140),
        ),
    ]
}

/// An element.
pub open spec fn element_ops(e: Ed, c: Canvas<'_>, tx: Texts, i: int) -> Seq<OpView> {
    body_ops(e, c, tx, i) + turn_ops(e, c, i) + badge_ops(e, c, tx, i)
}

/// The first elements of an order.
pub open spec fn ordered_ops(e: Ed, c: Canvas<'_>, tx: Texts, order: Seq<int>, n: int) -> Seq<OpView>
    decreases n,
{
    if n <= 0 {
        Seq::empty()
    } else {
        ordered_ops(e, c, tx, order, n - 1) + element_ops(e, c, tx, order[n - 1])
    }
}

/// The box that selects elements.
#[verifier::opaque]
pub open spec fn select_box_ops(e: Ed) -> Seq<OpView> {
    match (e.boxes.box_selecting, e.boxes.box_select_start, e.boxes.box_select_current) {
        (true, Some(s), Some(c)) => {
            let x = num::int_min(s.0 as int, c.0 as int);
            let y = num::int_min(s.1 as int, c.1 as int);
            let w = num::int_abs(c.0 - s.0);
            let h = num::int_abs(c.1 - s.1);
            let color = common::color_number(255, 220, 100);
            if w > 2 && h > 2 {
                seq![
                    draw::outline(x, y, w, h, 1, color),
                    draw::outline(x + 1, y + 1, w - 2, h - 2, 1, color),
                ]
            } else {
                Seq::empty()
            }
        },
        _ => Seq::empty(),
    }
}

/// The canvas while arranging.
pub open spec fn arranging_ops(e: Ed, c: Canvas<'_>, tx: Texts, opacity: Seq<char>) -> Seq<OpView> {
    let order = arranging::draw_order(e.doc);
    ordered_ops(e, c, tx, order, order.len() as int) + panel_view::panel_ops(e, tx, opacity)
        + select_box_ops(e)
}

fn turn_color_of(i: usize) -> (r: u32)
    ensures
        r == turn_color(i as int),
{
    let k: usize = i % 6;
    if k == 0 {
        rgb(180, 60, 60)
    } else if k == 1 {
        rgb(60, 160, 60)
    } else if k == 2 {
        rgb(60, 60, 180)
    } else if k == 3 {
        rgb(180, 140, 40)
    } else if k == 4 {
        rgb(140, 60, 160)
    } else {
        rgb(60, 160, 160)
    }
}

fn corner_radius(e: &Element) -> (r: i32)
    ensures
        r == corner_of(e@),
        0 <= r <= i32::MAX / 2,
{
    max_i32(
        min_i32(
            min_i32(e.extra.corner_radius as i32, half_i32(e.display.width)),
            half_i32(e.display.height),
        ),
        0,
    )
}

fn pen(selected: bool) -> (r: (i32, u32))
    ensures
        (r.0 as int, r.1) == pen_of(selected),
{
    if selected {
        (3, rgb(255, 220, 60))
    } else {
        (1, rgb(255, 255, 255))
    }
}

fn put_selected_outline(ops: &mut Vec<Op>, selected: bool, b: (i64, i64, i64, i64))
    ensures
        steps(final(ops)@) == steps(old(ops)@) + selected_outline(
            selected,
            (b.0 as int, b.1 as int, b.2 as int, b.3 as int),
        ),
{
    let ghost before = steps(ops@);
    if selected {
        draw_rect_outline(
            ops,
            b.0 as i32,
            b.1 as i32,
            b.2 as i32,
            b.3 as i32,
            1,
            rgb(255, 220, 60),
        );
    }
    assert(steps(ops@) =~= before + selected_outline(
        selected,
        (b.0 as int, b.1 as int, b.2 as int, b.3 as int),
    ));
}

/// Whether a little can be added to the numbers of a box.
spec fn wide_box(b: (i64, i64, i64, i64)) -> bool {
    &&& -0x100_0000_0000 <= b.0 <= 0x100_0000_0000
    &&& -0x100_0000_0000 <= b.1 <= 0x100_0000_0000
    &&& i32::MIN <= b.2 <= i32::MAX
    &&& i32::MIN <= b.3 <= i32::MAX
}

fn narrowed(b: (i64, i64, i64, i64)) -> (r: (i32, i32, i32, i32))
    ensures
        r == (b.0 as i32, b.1 as i32, b.2 as i32, b.3 as i32),
{
    (b.0 as i32, b.1 as i32, b.2 as i32, b.3 as i32)
}

fn put_picture(
    ops: &mut Vec<Op>,
    e: &Element,
    cache: &PngCache,
    texts: &Texts,
    b: (i64, i64, i64, i64),
    selected: bool,
)
    requires
        wide_box(b),
    ensures
        steps(final(ops)@) == steps(old(ops)@) + picture_ops(
            e@,
            *cache,
            *texts,
            b.0 as int,
            b.1 as int,
            (b.2 as int, b.3 as int),
            selected,
        ),
{
    let ghost before = steps(ops@);
    let path: &str = e.extra.png_path.as_str();
    if cache.get(path).is_some() {
        put_words(ops, Shape::Picture, owned(path), narrowed(b), 0);
        put_selected_outline(ops, selected, b);
    } else {
        let corner: i32 = corner_radius(e);
        let (width, color): (i32, u32) = pen(selected);
        put_rounded(ops, Shape::Round, narrowed(b), corner * 2, width, color, rgb(40, 60, 80));
        let at: (i32, i32, i32, i32) = narrowed((b.0 + 2, b.1 + half_i64(b.3) - 8, b.2 - 4, 16));
        if chars_of(path).len() > 0 {
            put_words(ops, Shape::Text, owned(path), at, rgb(200, 220, 255));
        } else {
            put_words(ops, Shape::Text, owned(t(texts, "no_image")), at, rgb(200, 100, 100));
        }
    }
    assert(steps(ops@) =~= before + picture_ops(
        e@,
        *cache,
        *texts,
        b.0 as int,
        b.1 as int,
        (b.2 as int, b.3 as int),
        selected,
    ));
}

fn put_text_element(ops: &mut Vec<Op>, e: &Element, b: (i64, i64, i64, i64), selected: bool)
    requires
        text::trim(e.extra.text_color@).len() > 0 ==> color::is_color_text(e.extra.text_color@),
    ensures
        steps(final(ops)@) == steps(old(ops)@) + text_ops(
            e@,
            b.0 as int,
            b.1 as int,
            (b.2 as int, b.3 as int),
            selected,
        ),
{
    let ghost before = steps(ops@);
    if chars_of(e.extra.content.as_str()).len() > 0 {
        let color: u32 = if trim_chars(&chars_of(e.extra.text_color.as_str())).len() > 0 {
            hex_color(e.extra.text_color.as_str())
        } else {
            rgb(255, 255, 255)
        };
        put_op(
            ops,
            Op {
                shape: Shape::Words,
                x: b.0 as i32,
                y: b.1 as i32,
                w: b.2 as i32,
                h: b.3 as i32,
                n: e.extra.font_size as i32,
                corner: 0,
                color,
                fill: 0,
                text: owned(e.extra.content.as_str()),
            },
        );
    }
    put_selected_outline(ops, selected, b);
    assert(steps(ops@) =~= before + text_ops(
        e@,
        b.0 as int,
        b.1 as int,
        (b.2 as int, b.3 as int),
        selected,
    ));
}

fn put_body(ops: &mut Vec<Op>, st: &EditorState, c: &Canvas<'_>, texts: &Texts, i: usize)
    requires
        st@.in_range(),
        canvas_ok(st@, *c),
        i < st@.doc.elements.len(),
    ensures
        steps(final(ops)@) == steps(old(ops)@) + body_ops(st@, *c, *texts, i as int),
{
    proof {
        reveal(body_ops);
    }
    let ghost before = steps(ops@);
    let e: &Element = &st.doc.elements[i];
    assert(e@ == st@.doc.elements[i as int]);
    assert(colors_ok(st@.doc.elements[i as int]));
    let x: i64 = st.area.overlay_x as i64 + e.display.x as i64;
    let y: i64 = st.area.overlay_y as i64 + e.display.y as i64;
    let b: (i32, i32, i32, i32) = (x as i32, y as i32, e.display.width, e.display.height);
    let (ew, eh): (i64, i64) = (c.sizes[i].0 as i64, c.sizes[i].1 as i64);
    let selected: bool = holds(&st.doc.selected_indices, i);
    match e.extra.kind {
        ElemKind::Capture => {
            let color: u32 = turn_color_of(i);
            let width: i32 = if selected {
                3
            } else {
                2
            };
            put_plain(ops, Shape::Tint, b, 90, color);
            put_rounded(ops, Shape::RoundOutline, b, 8, width, color, 0);
            assert(steps(ops@) =~= before + body_ops(st@, *c, *texts, i as int));
        },
        ElemKind::Frame => {
            let corner: i32 = corner_radius(e);
            let width: i32 = max_i64(e.extra.border_width as i64, 1) as i32;
            let color: u32 = hex_color(e.extra.border_color.as_str());
            put_rounded(ops, Shape::RoundOutline, b, corner * 2, width, color, 0);
            assert(steps(ops@) =~= before + body_ops(st@, *c, *texts, i as int));
        },
        ElemKind::Background => {
            let corner: i32 = corner_radius(e);
            let (width, color): (i32, u32) = pen(selected);
            let fill: u32 = hex_color(e.extra.color.as_str());
            put_rounded(ops, Shape::Round, b, corner * 2, width, color, fill);
            assert(steps(ops@) =~= before + body_ops(st@, *c, *texts, i as int));
        },
        ElemKind::Png => {
            put_picture(ops, e, c.cache, texts, (x, y, ew, eh), selected);
        },
        ElemKind::Text => {
            put_text_element(ops, e, (x, y, ew, eh), selected);
        },
    }
}

fn put_turn(ops: &mut Vec<Op>, st: &EditorState, c: &Canvas<'_>, i: usize)
    requires
        canvas_ok(st@, *c),
        i < st@.doc.elements.len(),
    ensures
        steps(final(ops)@) == steps(old(ops)@) + turn_ops(st@, *c, i as int),
{
    proof {
        reveal(turn_ops);
    }
    let ghost before = steps(ops@);
    let e: &Element = &st.doc.elements[i];
    assert(e@ == st@.doc.elements[i as int]);
    if wrap_degrees(e.display.rotate as i64) != 0 {
        let x: i64 = st.area.overlay_x as i64 + e.display.x as i64;
        let y: i64 = st.area.overlay_y as i64 + e.display.y as i64;
        let (ew, eh): (i32, i32) = c.sizes[i];
        let turned: Turned = c.turned[i];
        let (dx, dy, bw, bh): (i64, i64, i64, i64) = wide_footprint(
            0,
            0,
            ew,
            eh,
            e.display.rotate,
            turned.tilted,
        );
        draw_rect_outline(
            ops,
            (x + dx) as i32,
            (y + dy) as i32,
            bw as i32,
            bh as i32,
            1,
            rgb(255, 220, 60),
        );
        put_plain(
            ops,
            Shape::Line,
            (x as i32, y as i32, turned.corner.0, turned.corner.1),
            1,
            rgb(160, 160, 255),
        );
    }
    assert(steps(ops@) =~= before + turn_ops(st@, *c, i as int));
}

fn put_badge(ops: &mut Vec<Op>, st: &EditorState, c: &Canvas<'_>, texts: &Texts, i: usize)
    requires
        st@.in_range(),
        canvas_ok(st@, *c),
        i < st@.doc.elements.len(),
    ensures
        steps(final(ops)@) == steps(old(ops)@) + badge_ops(st@, *c, *texts, i as int),
{
    proof {
        reveal(badge_ops);
    }
    let ghost before = steps(ops@);
    let e: &Element = &st.doc.elements[i];
    assert(e@ == st@.doc.elements[i as int]);
    let x: i64 = st.area.overlay_x as i64 + e.display.x as i64;
    let y: i64 = st.area.overlay_y as i64 + e.display.y as i64;
    let (w, h): (i32, i32) = c.sizes[i];
    let (wide, high): (i64, i64) = (w as i64, h as i64);
    let label: String = join2(
        join2("#", number((i + 1) as i32).as_str()).as_str(),
        e.extra.kind.badge(texts),
    );
    put_words(
        ops,
        Shape::Text,
        label,
        (x as i32, (y - 18) as i32, max_i32(w, 40), 16),
        rgb(255, 255, 255),
    );
    draw_handle(ops, (x + wide - 12) as i32, (y + high - 12) as i32);
    let ix: i32 = max_i64(x + half_i64(wide) - 110, 0) as i32;
    let iy: i32 = min_i64(y + high, (st.area.screen_h - 24) as i64) as i32;
    fill_rect_solid(ops, ix, iy, 220, 20, rgb(20, 40, 24));
    put_words(
        ops,
        Shape::Text,
        place_label(e.display.x as i64, e.display.y as i64, wide, high),
        (ix, iy, 220, 20),
        rgb(120, 230, 140),
    );
    assert(steps(ops@) =~= before + badge_ops(st@, *c, *texts, i as int));
}

fn put_select_box(ops: &mut Vec<Op>, st: &EditorState)
    ensures
        steps(final(ops)@) == steps(old(ops)@) + select_box_ops(st@),
{
    proof {
        reveal(select_box_ops);
    }
    let ghost before = steps(ops@);
    if st.boxes.box_selecting {
        if let (Some((sx, sy)), Some((ex, ey))) = (
            st.boxes.box_select_start,
            st.boxes.box_select_current,
        ) {
            let x: i32 = min_i32(sx, ex);
            let y: i32 = min_i32(sy, ey);
            let w: i64 = abs_i64(ex as i64 - sx as i64);
            let h: i64 = abs_i64(ey as i64 - sy as i64);
            if w > 2 && h > 2 {
                let color: u32 = rgb(255, 220, 100);
                draw_rect_outline(ops, x, y, w as i32, h as i32, 1, color);
                draw_rect_outline(
                    ops,
                    (x as i64 + 1) as i32,
                    (y as i64 + 1) as i32,
                    (w - 2) as i32,
                    (h - 2) as i32,
                    1,
                    color,
                );
            }
        }
    }
    assert(steps(ops@) =~= before + select_box_ops(st@));
}

/// Draws the canvas while arranging: the elements by their layers, what is
/// selected last, then the panel and the box that selects.
pub fn draw_arranging(ops: &mut Vec<Op>, st: &EditorState, c: &Canvas<'_>, texts: &Texts, opacity: &str)
    requires
        st@.in_range(),
        canvas_ok(st@, *c),
    ensures
        steps(final(ops)@) == steps(old(ops)@) + arranging_ops(st@, *c, *texts, opacity@),
{
    let ghost before = steps(ops@);
    let ghost e = st@;
    let order: Vec<usize> = drawing_order(&st.doc);
    let ghost ord = arranging::draw_order(e.doc);
    assert(zorder::index_views(order@).len() == order@.len());
    assert(before + ordered_ops(e, *c, *texts, ord, 0) =~= before);
    for k in 0..order.len()
        invariant
            st@.in_range(),
            canvas_ok(st@, *c),
            e == st@,
            ord == arranging::draw_order(e.doc),
            zorder::index_views(order@) == ord,
            order@.len() == ord.len(),
            forall|j: int| 0 <= j < order@.len() ==> #[trigger] order@[j] < e.doc.elements.len(),
            steps(ops@) == before + ordered_ops(e, *c, *texts, ord, k as int),
    {
        let i: usize = order[k];
        let ghost done = ordered_ops(e, *c, *texts, ord, k as int);
        assert(zorder::index_views(order@)[k as int] == i);
        put_body(ops, st, c, texts, i);
        put_turn(ops, st, c, i);
        put_badge(ops, st, c, texts, i);
        proof {
            let b = body_ops(e, *c, *texts, i as int);
            let tu = turn_ops(e, *c, i as int);
            let ba = badge_ops(e, *c, *texts, i as int);
            draw::lemma_added(before + done, b, tu);
            draw::lemma_added(before + done, b + tu, ba);
            draw::lemma_added(before, done, b + tu + ba);
        }
    }
    draw_region_panel(ops, st, texts, opacity);
    put_select_box(ops, st);
    proof {
        let a1 = ordered_ops(e, *c, *texts, ord, ord.len() as int);
        let pa = panel_view::panel_ops(e, *texts, opacity@);
        draw::lemma_added(before, a1, pa);
        draw::lemma_added(before, a1 + pa, select_box_ops(e));
    }
}

// ===== Over the canvas =====

/// The guide lines of snapping.
#[verifier::opaque]
pub open spec fn guide_ops(e: Ed) -> Seq<OpView> {
    let c = common::color_number(255, 220, 60);
    let (x, y) = snap::guide_lines(e);
    (match x {
        Some(v) => seq![draw::fill(v, 0, 1, e.area.screen_h as int, c)],
        None => Seq::empty(),
    }) + (match y {
        Some(v) => seq![draw::fill(0, v, e.area.screen_w as int, 1, c)],
        None => Seq::empty(),
    })
}

/// Draws the guide lines of snapping.
pub fn draw_snap_lines(ops: &mut Vec<Op>, st: &EditorState)
    ensures
        steps(final(ops)@) == steps(old(ops)@) + guide_ops(st@),
{
    proof {
        reveal(guide_ops);
    }
    let ghost before = steps(ops@);
    let (x, y): (Option<i64>, Option<i64>) = snap_lines(st);
    if let Some(v) = x {
        fill_rect_solid(ops, v as i32, 0, 1, st.area.screen_h, rgb(255, 220, 60));
    }
    if let Some(v) = y {
        fill_rect_solid(ops, 0, v as i32, st.area.screen_w, 1, rgb(255, 220, 60));
    }
    assert(steps(ops@) =~= before + guide_ops(st@));
}

/// The lines through the mouse.
#[verifier::opaque]
pub open spec fn crosshair_ops(e: Ed) -> Seq<OpView> {
    let c = common::color_number(80, 200, 120);
    if e.prefs.crosshair_on {
        seq![
            draw::fill(e.mouse_x as int, 0, 1, e.area.screen_h as int, c),
            draw::fill(0, e.mouse_y as int, e.area.screen_w as int, 1, c),
        ]
    } else {
        Seq::empty()
    }
}

/// Draws the lines through the mouse.
pub fn draw_crosshair(ops: &mut Vec<Op>, st: &EditorState)
    ensures
        steps(final(ops)@) == steps(old(ops)@) + crosshair_ops(st@),
{
    proof {
        reveal(crosshair_ops);
    }
    let ghost before = steps(ops@);
    if st.prefs.crosshair_on {
        let color: u32 = rgb(80, 200, 120);
        fill_rect_solid(ops, st.mouse_x, 0, 1, st.area.screen_h, color);
        fill_rect_solid(ops, 0, st.mouse_y, st.area.screen_w, 1, color);
    }
    assert(steps(ops@) =~= before + crosshair_ops(st@));
}

/// The magnifier, with a cross in its middle.
#[verifier::opaque]
pub open spec fn magnifier_ops(e: Ed) -> Seq<OpView> {
    if e.prefs.magnifier_on {
        let m = window::magnifier(e);
        let cx = m.0 + MAG_SIZE / 2;
        let cy = m.1 + MAG_SIZE / 2;
        let red = common::color_number(255, 80, 80);
        seq![
            draw::plain(Shape::Magnifier, m, MAG_SIZE as int, 0),
            draw::outline(
                m.0,
                m.1,
                MAG_SIZE as int,
                MAG_SIZE as int,
                2,
                common::color_number(255, 220, 60),
            ),
            draw::fill(cx - 6, cy - 1, 12, 2, red),
            draw::fill(cx - 1, cy - 6, 2, 12, red),
        ]
    } else {
        Seq::empty()
    }
}

/// Draws the magnifier.
pub fn draw_magnifier(ops: &mut Vec<Op>, st: &EditorState)
    requires
        screen_ok(st@),
    ensures
        steps(final(ops)@) == steps(old(ops)@) + magnifier_ops(st@),
{
    proof {
        reveal(magnifier_ops);
    }
    let ghost before = steps(ops@);
    if st.prefs.magnifier_on {
        let m: (i32, i32, i32, i32) = magnifier_at(st);
        let cx: i32 = m.0 + MAG_SIZE / 2;
        let cy: i32 = m.1 + MAG_SIZE / 2;
        let red: u32 = rgb(255, 80, 80);
        put_plain(ops, Shape::Magnifier, m, MAG_SIZE, 0);
        draw_rect_outline(ops, m.0, m.1, MAG_SIZE, MAG_SIZE, 2, rgb(255, 220, 60));
        fill_rect_solid(ops, cx - 6, cy - 1, 12, 2, red);
        fill_rect_solid(ops, cx - 1, cy - 6, 2, 12, red);
    }
    assert(steps(ops@) =~= before + magnifier_ops(st@));
}

/// The coordinates of the mouse.
#[verifier::opaque]
pub open spec fn xy_ops(e: Ed) -> Seq<OpView> {
    if e.prefs.xy_label_on {
        let (x, y) = window::xy_label(e);
        seq![
            draw::fill(x, y, 140, 22, common::color_number(20, 30, 20)),
            draw::outline(x, y, 140, 22, 1, common::color_number(60, 120, 60)),
            draw::centered(
                "X:"@ + decimal::dec_int(e.mouse_x as int) + " Y:"@ + decimal::dec_int(
                    e.mouse_y as int,
                ),
                (x, y, 140, 22),
                common::color_number(120, 230, 140),
            ),
        ]
    } else {
        Seq::empty()
    }
}

/// Draws the coordinates of the mouse.
pub fn draw_xy_label(ops: &mut Vec<Op>, st: &EditorState)
    requires
        screen_ok(st@),
    ensures
        steps(final(ops)@) == steps(old(ops)@) + xy_ops(st@),
{
    proof {
        reveal(xy_ops);
    }
    let ghost before = steps(ops@);
    if st.prefs.xy_label_on {
        let (x, y): (i32, i32) = xy_label_at(st);
        let mut v: Vec<char> = chars_of("X:");
        append_text(&mut v, number(st.mouse_x).as_str());
        append_text(&mut v, " Y:");
        append_text(&mut v, number(st.mouse_y).as_str());
        fill_rect_solid(ops, x, y, 140, 22, rgb(20, 30, 20));
        draw_rect_outline(ops, x, y, 140, 22, 1, rgb(60, 120, 60));
        put_words(ops, Shape::Text, string_of(&v), (x, y, 140, 22), rgb(120, 230, 140));
    }
    assert(steps(ops@) =~= before + xy_ops(st@));
}

/// The hint bar.
#[verifier::opaque]
pub open spec fn hint_ops(e: Ed, tx: Texts) -> Seq<OpView> {
    let (y, key) = ui::hint_bar(e);
    let sw = e.area.screen_w as int;
    seq![
        draw::fill(0, y, sw, 40, common::color_number(22, 24, 38)),
        draw::fill(0, y, sw, 1, common::color_number(60, 66, 92)),
        draw::centered(
            tx.text(key),
            (16, y, sw - 32, 40),
            common::color_number(200, 205, 220),
        ),
    ]
}

/// Draws the hint bar.
pub fn draw_hint_bar(ops: &mut Vec<Op>, st: &EditorState, texts: &Texts)
    requires
        st@.area.in_range(),
    ensures
        steps(final(ops)@) == steps(old(ops)@) + hint_ops(st@, *texts),
{
    proof {
        reveal(hint_ops);
    }
    let ghost before = steps(ops@);
    let (y, hint): (i32, &str) = hint_at(st, texts);
    let sw: i32 = st.area.screen_w;
    fill_rect_solid(ops, 0, y, sw, 40, rgb(22, 24, 38));
    fill_rect_solid(ops, 0, y, sw, 1, rgb(60, 66, 92));
    put_words(ops, Shape::Text, owned(hint), (16, y, sw - 32, 40), rgb(200, 205, 220));
    assert(steps(ops@) =~= before + hint_ops(st@, *texts));
}

/// The question about an existing file.
#[verifier::opaque]
pub open spec fn question_ops(e: Ed, tx: Texts) -> Seq<OpView> {
    if e.entry.confirm_overwrite {
        let b = ui::question_box(e.area.screen_w as int, e.area.screen_h as int);
        seq![
            draw::fill(b.0, b.1, b.2, b.3, common::color_number(28, 30, 48)),
            draw::outline(b.0, b.1, b.2, b.3, 2, common::color_number(220, 170, 60)),
            draw::centered(
                tx.text("cfg_exists"@),
                (b.0, b.1 + 18, b.2, 28),
                common::color_number(255, 220, 120),
            ),
            draw::centered(
                "\u{201C}"@ + ui::resolved(e.entry.save_filename) + "\u{201D} "@ + tx.text(
                    "overwrite_ask"@,
                ),
                (b.0, b.1 + 52, b.2, 28),
                common::color_number(210, 215, 230),
            ),
        ] + draw::button_ops(
            (b.0 + 60, b.1 + 100, 150, 40),
            tx.text("yes_overwrite"@),
            (
                common::color_number(150, 64, 64),
                common::color_number(255, 255, 255),
                common::color_number(210, 110, 110),
            ),
        ) + draw::button_ops(
            (b.0 + 250, b.1 + 100, 150, 40),
            tx.text("no"@),
            (
                common::color_number(60, 66, 92),
                common::color_number(220, 225, 240),
                common::color_number(90, 96, 130),
            ),
        )
    } else {
        Seq::empty()
    }
}

/// Draws the question about an existing file, where it is open.
pub fn draw_confirm_modal(ops: &mut Vec<Op>, st: &EditorState, texts: &Texts)
    requires
        st@.area.in_range(),
    ensures
        steps(final(ops)@) == steps(old(ops)@) + question_ops(st@, *texts),
{
    proof {
        reveal(question_ops);
    }
    let ghost before = steps(ops@);
    if st.entry.confirm_overwrite {
        let (x, y, w, h): (i32, i32, i32, i32) = confirm_box(st.area.screen_w, st.area.screen_h);
        fill_rect_solid(ops, x, y, w, h, rgb(28, 30, 48));
        draw_rect_outline(ops, x, y, w, h, 2, rgb(220, 170, 60));
        put_words(
            ops,
            Shape::Text,
            owned(t(texts, "cfg_exists")),
            (x, y + 18, w, 28),
            rgb(255, 220, 120),
        );
        let mut v: Vec<char> = chars_of("\u{201C}");
        append_text(&mut v, resolve_filename(st.entry.save_filename.as_str()).as_str());
        append_text(&mut v, "\u{201D} ");
        append_text(&mut v, t(texts, "overwrite_ask"));
        put_words(
            ops,
            Shape::Text,
            string_of(&v),
            (x, y + 52, w, 28),
            rgb(210, 215, 230),
        );
        draw_button(
            ops,
            (x + 60, y + 100, 150, 40),
            t(texts, "yes_overwrite"),
            rgb(150, 64, 64),
            rgb(255, 255, 255),
            rgb(210, 110, 110),
        );
        draw_button(
            ops,
            (x + 250, y + 100, 150, 40),
            t(texts, "no"),
            rgb(60, 66, 92),
            rgb(220, 225, 240),
            rgb(90, 96, 130),
        );
    }
    assert(steps(ops@) =~= before + question_ops(st@, *texts));
}

// ===== The whole screen =====

/// Whether the screen has room for the helpers that are shown.
pub open spec fn screen_ok(e: Ed) -> bool {
    &&& e.area.in_range()
    &&& e.prefs.magnifier_on ==> e.area.screen_w >= MAG_CAPTURE && e.area.screen_h >= MAG_CAPTURE
    &&& e.prefs.xy_label_on ==> e.area.screen_w >= 160
}

/// The canvas of the current phase.
pub open spec fn phase_ops(e: Ed, c: Canvas<'_>, tx: Texts, opacity: Seq<char>) -> Seq<OpView> {
    match e.phase {
        EditorPhase::Selecting => selecting_ops(e, tx, opacity),
        EditorPhase::Arranging => arranging_ops(e, c, tx, opacity),
    }
}

/// What lies below the canvas.
pub open spec fn below_ops(e: Ed) -> Seq<OpView> {
    if e.prefs.grid_on {
        grid_ops(e)
    } else {
        Seq::empty()
    }
}

/// The whole screen: the grid, the canvas, and over it guide lines, helpers, the
/// hint bar and the question.
pub open spec fn screen_ops(e: Ed, c: Canvas<'_>, tx: Texts, opacity: Seq<char>) -> Seq<OpView> {
    below_ops(e) + phase_ops(e, c, tx, opacity) + guide_ops(e) + crosshair_ops(e) + magnifier_ops(e)
        + xy_ops(e) + hint_ops(e, tx) + question_ops(e, tx)
}

fn put_below(ops: &mut Vec<Op>, st: &EditorState)
    requires
        st@.area.in_range(),
    ensures
        steps(final(ops)@) == steps(old(ops)@) + below_ops(st@),
{
    let ghost before = steps(ops@);
    if st.prefs.grid_on {
        draw_grid(ops, st);
    } else {
        assert(before + Seq::<OpView>::empty() =~= before);
    }
}

/// Draws the whole screen. `opacity` is the text of the opacity of the element
/// that was selected last.
pub fn draw_screen(st: &EditorState, c: &Canvas<'_>, texts: &Texts, opacity: &str) -> (r: Vec<Op>)
    requires
        st@.in_range(),
        screen_ok(st@),
        canvas_ok(st@, *c),
    ensures
        steps(r@) == screen_ops(st@, *c, *texts, opacity@),
{
    let mut ops: Vec<Op> = Vec::new();
    let ghost none = steps(ops@);
    assert(none =~= Seq::empty());
    put_below(&mut ops, st);
    assert(none + below_ops(st@) =~= below_ops(st@));
    match st.phase {
        EditorPhase::Selecting => {
            draw_selecting(&mut ops, st, texts, opacity);
        },
        EditorPhase::Arranging => {
            draw_arranging(&mut ops, st, c, texts, opacity);
        },
    }
    draw_snap_lines(&mut ops, st);
    draw_crosshair(&mut ops, st);
    draw_magnifier(&mut ops, st);
    draw_xy_label(&mut ops, st);
    draw_hint_bar(&mut ops, st, texts);
    draw_confirm_modal(&mut ops, st, texts);
    ops
}

// ===== Laws =====

/// The buttons of the question are drawn where they are clicked: the first says
/// yes, the second no. Without the question nothing is drawn of it.
pub proof fn law_question_is_drawn_where_it_is_clicked(e: Ed, tx: Texts, x: int, y: int)
    requires
        e.area.in_range(),
        e.area.screen_w >= 460,
        e.area.screen_h >= 156,
    ensures
        !e.entry.confirm_overwrite ==> question_ops(e, tx).len() == 0,
        e.entry.confirm_overwrite ==> ({
            let o = question_ops(e, tx);
            let yes = o[4];
            let no = o[6];
            &&& yes.shape == Shape::Round && no.shape == Shape::Round
            &&& o[5].text == tx.text("yes_overwrite"@) && o[7].text == tx.text("no"@)
            &&& yes.x <= x <= yes.x + yes.w && yes.y <= y <= yes.y + yes.h
                ==> crate::editor::events::confirm_clicked(e, x, y).close
            &&& no.x <= x <= no.x + no.w && no.y <= y <= no.y + no.h ==> {
                let r = crate::editor::events::confirm_clicked(e, x, y);
                !r.close && !r.ed.entry.confirm_overwrite
            }
        }),
{
    reveal(question_ops);
}

/// The handle of an element is drawn where it is grabbed, and the element is
/// labelled with its number and its place and size.
pub proof fn law_handles_are_drawn_where_they_are_grabbed(
    e: Ed,
    c: Canvas<'_>,
    tx: Texts,
    i: int,
    x: int,
    y: int,
)
    requires
        0 <= i < e.doc.elements.len(),
        -0x1000_0000 <= e.area.overlay_x <= 0x1000_0000,
        -0x1000_0000 <= e.area.overlay_y <= 0x1000_0000,
        -0x1000_0000 <= e.doc.elements[i].display.x <= 0x1000_0000,
        -0x1000_0000 <= e.doc.elements[i].display.y <= 0x1000_0000,
        0 <= c.sizes@[i].0 <= 0x1000_0000,
        0 <= c.sizes@[i].1 <= 0x1000_0000,
    ensures
        ({
            let o = badge_ops(e, c, tx, i);
            let d = e.doc.elements[i].display;
            &&& o.len() == 4
            &&& o[1].w == 12 && o[1].h == 12
            &&& arranging::on_handle(e, c.sizes@, i, x, y) == (o[1].x <= x <= o[1].x + 12 && o[1].y
                <= y <= o[1].y + 12)
            &&& o[0].text == "#"@ + decimal::dec_int(i + 1) + tx.text(
                state::badge_key(e.doc.elements[i].extra.kind),
            )
            &&& o[3].text == "X:"@ + decimal::dec_int(d.x as int) + " Y:"@ + decimal::dec_int(
                d.y as int,
            ) + " W:"@ + decimal::dec_int(c.sizes@[i].0 as int) + " H:"@ + decimal::dec_int(
                c.sizes@[i].1 as int,
            )
        }),
{
    reveal(badge_ops);
}

/// A region is drawn where it captures, with its number, and with a second outline
/// where it is selected. An element that captures nothing is not drawn while
/// selecting.
pub proof fn law_regions_are_drawn_where_they_capture(e: Ed, i: int)
    requires
        0 <= i < e.doc.elements.len(),
    ensures
        match e.doc.elements[i].source {
            Some(s) => {
                let o = region_ops(e, i);
                &&& (o[0].x, o[0].y, o[0].w, o[0].h) == (
                    s.x as i32,
                    s.y as i32,
                    s.width as i32,
                    s.height as i32,
                )
                &&& o[0].shape == Shape::Tint && o[1].shape == Shape::Outline
                &&& (o[1].x, o[1].y, o[1].w, o[1].h) == (o[0].x, o[0].y, o[0].w, o[0].h)
                &&& o[3].text == "#"@ + decimal::dec_int(i + 1)
                &&& o[5].text == place_text(
                    s.x as int,
                    s.y as int,
                    s.width as int,
                    s.height as int,
                )
                &&& o.len() == (if e.doc.selected.contains(i as usize) {
                    7int
                } else {
                    6
                })
            },
            None => region_ops(e, i).len() == 0,
        },
        all_region_ops(e, 0).len() == 0,
        all_region_ops(e, i + 1) == all_region_ops(e, i) + region_ops(e, i),
{
    reveal(region_ops);
}

/// The box of a new region is drawn between its two corners, whichever was first,
/// with its size above it.
pub proof fn law_new_box_is_drawn(e: Ed, s: (i32, i32), c: (i32, i32))
    requires
        e.boxes.drag_start == Some(s),
        e.boxes.drag_current == Some(c),
        0 <= s.0 < 0x1000_0000,
        0 <= s.1 < 0x1000_0000,
        0 <= c.0 < 0x1000_0000,
        0 <= c.1 < 0x1000_0000,
    ensures
        !e.boxes.is_dragging ==> new_box_ops(e).len() == 0,
        e.boxes.is_dragging ==> ({
            let o = new_box_ops(e);
            let w = if s.0 <= c.0 { c.0 - s.0 } else { s.0 - c.0 };
            let h = if s.1 <= c.1 { c.1 - s.1 } else { s.1 - c.1 };
            &&& o[0].x == (if s.0 <= c.0 { s.0 } else { c.0 })
            &&& o[0].y == (if s.1 <= c.1 { s.1 } else { c.1 })
            &&& o[0].w == w && o[0].h == h
            &&& o[2].text == decimal::dec_int(w) + " \u{00D7} "@ + decimal::dec_int(h)
        }),
{
    reveal(new_box_ops);
}

/// The helpers draw where they should: the cross through the mouse, the guide
/// lines where coordinates are held, each over the whole screen, and each only
/// while it is on.
pub proof fn law_helpers_are_drawn(e: Ed)
    requires
        e.area.in_range(),
    ensures
        !e.prefs.crosshair_on ==> crosshair_ops(e).len() == 0,
        e.prefs.crosshair_on ==> ({
            let o = crosshair_ops(e);
            &&& o.len() == 2
            &&& (o[0].x, o[0].y, o[0].w, o[0].h) == (e.mouse_x, 0i32, 1i32, e.area.screen_h)
            &&& (o[1].x, o[1].y, o[1].w, o[1].h) == (0i32, e.mouse_y, e.area.screen_w, 1i32)
        }),
        !e.prefs.magnifier_on ==> magnifier_ops(e).len() == 0,
        e.prefs.magnifier_on ==> magnifier_ops(e)[0].shape == Shape::Magnifier,
        !e.prefs.xy_label_on ==> xy_ops(e).len() == 0,
        e.prefs.xy_label_on ==> xy_ops(e)[2].text == "X:"@ + decimal::dec_int(e.mouse_x as int)
            + " Y:"@ + decimal::dec_int(e.mouse_y as int),
        !e.prefs.snap_on ==> guide_ops(e).len() == 0,
        e.prefs.snap_on && e.drag.snapped_x is None && e.drag.snapped_y is None ==> guide_ops(
            e,
        ).len() == 0,
{
    reveal(crosshair_ops);
    reveal(magnifier_ops);
    reveal(xy_ops);
    reveal(guide_ops);
}

/// The ticks of the edges stand every hundred pixels, and none at the ends.
pub proof fn law_ticks_every_hundred(len: int, n: int)
    requires
        0 < len,
        0 < n < 0x10_0000,
    ensures
        100 * tick_count(len) < len <= 100 * (tick_count(len) + 1),
        top_ticks(n).len() == top_ticks(n - 1).len() + 2,
        top_ticks(n)[top_ticks(n - 1).len() as int].x == 100 * n,
        top_ticks(n)[top_ticks(n - 1).len() as int + 1].text == decimal::dec_int(100 * n),
        left_ticks(n)[left_ticks(n - 1).len() as int].y == 100 * n,
        top_ticks(0).len() == 0 && left_ticks(0).len() == 0,
{
    assert(n * 100 == 100 * n);
}

/// The corners of an element are as round as it says, but never rounder than half
/// of its sides.
pub proof fn law_corners_fit(el: El)
    requires
        el.extra.corner_radius < 0x8000_0000,
    ensures
        corner_of(el) >= 0,
        corner_of(el) <= el.extra.corner_radius,
        corner_of(el) > 0 ==> 2 * corner_of(el) <= el.display.width && 2 * corner_of(el)
            <= el.display.height,
        2 * el.extra.corner_radius <= el.display.width && 2 * el.extra.corner_radius
            <= el.display.height ==> corner_of(el) == el.extra.corner_radius,
{
    let r = el.extra.corner_radius;
    assert(r < 0x8000_0000 ==> r as i32 == r) by (bit_vector);
}

/// The elements are drawn in their order, each with what it looks like first.
pub proof fn law_elements_are_drawn_in_order(
    e: Ed,
    c: Canvas<'_>,
    tx: Texts,
    order: Seq<int>,
    n: int,
)
    requires
        0 < n <= order.len(),
    ensures
        ordered_ops(e, c, tx, order, 0).len() == 0,
        ordered_ops(e, c, tx, order, n) == ordered_ops(e, c, tx, order, n - 1) + body_ops(
            e,
            c,
            tx,
            order[n - 1],
        ) + turn_ops(e, c, order[n - 1]) + badge_ops(e, c, tx, order[n - 1]),
        turn_color(n) == turn_color(n + 6),
{
    assert(ordered_ops(e, c, tx, order, n) =~= ordered_ops(e, c, tx, order, n - 1) + body_ops(
        e,
        c,
        tx,
        order[n - 1],
    ) + turn_ops(e, c, order[n - 1]) + badge_ops(e, c, tx, order[n - 1]));
}

/// The lines of the grid part the screen evenly: the last of `n` stands at its
/// share of the width or the height, and a line of a finer grid is left out where
/// a coarser one stands.
pub proof fn law_grid_lines_part_the_screen(sw: int, sh: int, n: int, color: u32)
    requires
        2 <= n <= 16,
        0 <= sw < 0x800_0000,
        0 <= sh < 0x800_0000,
    ensures
        ({
            let k = n - 1;
            let up = part_lines(sw, sh, 16, n, true, color);
            let flat = part_lines(sw, sh, 16, n, false, color);
            &&& k % 4 == 0 ==> up == part_lines(sw, sh, 16, k, true, color)
            &&& k % 4 == 0 ==> flat == part_lines(sw, sh, 16, k, false, color)
            &&& k % 4 != 0 ==> up.len() == part_lines(sw, sh, 16, k, true, color).len() + 1
            &&& k % 4 != 0 ==> up.last().x * 16 <= sw * k < (up.last().x + 1) * 16
            &&& k % 4 != 0 ==> up.last().y == 0 && up.last().w == 1 && up.last().h == sh
            &&& k % 4 != 0 ==> flat.last().y * 16 <= sh * k < (flat.last().y + 1) * 16
            &&& k % 4 != 0 ==> flat.last().x == 0 && flat.last().h == 1 && flat.last().w == sw
        }),
        n <= 4 ==> ({
            let k = n - 1;
            let up = part_lines(sw, sh, 4, n, true, color);
            let flat = part_lines(sw, sh, 4, n, false, color);
            &&& up.last().x * 4 <= sw * k < (up.last().x + 1) * 4
            &&& flat.last().y * 4 <= sh * k < (flat.last().y + 1) * 4
        }),
        part_lines(sw, sh, 16, 1, true, color).len() == 0,
{
    let k = n - 1;
    assert(0 <= sw * k <= 16 * sw) by (nonlinear_arith)
        requires
            1 <= k <= 15,
            0 <= sw,
    ;
    assert(0 <= sh * k <= 16 * sh) by (nonlinear_arith)
        requires
            1 <= k <= 15,
            0 <= sh,
    ;
    if n <= 4 {
        assert(0 <= sw * k <= 4 * sw) by (nonlinear_arith)
            requires
                1 <= k <= 3,
                0 <= sw,
        ;
        assert(0 <= sh * k <= 4 * sh) by (nonlinear_arith)
            requires
                1 <= k <= 3,
                0 <= sh,
        ;
    }
}

/// What is over the canvas is drawn behind it, the question last of all; the grid
/// is drawn first and only while it is on.
pub proof fn law_question_is_on_top(e: Ed, c: Canvas<'_>, tx: Texts, opacity: Seq<char>)
    ensures
        ({
            let all = screen_ops(e, c, tx, opacity);
            let under = below_ops(e).len() as int;
            let q = question_ops(e, tx).len() as int;
            let h = hint_ops(e, tx).len() as int;
            &&& all.subrange(all.len() - q, all.len() as int) == question_ops(e, tx)
            &&& all.subrange(all.len() - q - h, all.len() - q) == hint_ops(e, tx)
            &&& all.subrange(0, under) == below_ops(e)
            &&& !e.prefs.grid_on ==> under == 0
            &&& e.prefs.grid_on ==> below_ops(e) == grid_ops(e)
        }),
{
    let all = screen_ops(e, c, tx, opacity);
    let under = below_ops(e).len() as int;
    let q = question_ops(e, tx).len() as int;
    let h = hint_ops(e, tx).len() as int;
    assert(all.subrange(all.len() - q, all.len() as int) =~= question_ops(e, tx));
    assert(all.subrange(all.len() - q - h, all.len() - q) =~= hint_ops(e, tx));
    assert(all.subrange(0, under) =~= below_ops(e));
}

/// An element is drawn where it stands on the overlay and as large as it is shown,
/// each kind in its own way and in its own color; a frame is at least a pixel wide,
/// and a selected element has a wider or a second outline.
pub proof fn law_elements_look_like_their_kind(
    e: Ed,
    c: Canvas<'_>,
    tx: Texts,
    i: int,
    b: (i32, i32),
)
    requires
        0 <= i < e.doc.elements.len(),
        b.0 == e.area.overlay_x + e.doc.elements[i].display.x,
        b.1 == e.area.overlay_y + e.doc.elements[i].display.y,
    ensures
        ({
            let o = body_ops(e, c, tx, i);
            let d = e.doc.elements[i].display;
            let x = e.doc.elements[i].extra;
            let selected = e.doc.selected.contains(i as usize);
            let size = c.sizes@[i];
            match x.kind {
                ElemKind::Capture => {
                    &&& o.len() == 2 && o[0].shape == Shape::Tint && o[1].shape
                        == Shape::RoundOutline
                    &&& o[0].x == b.0 && o[0].y == b.1 && o[0].w == d.width as i32 && o[0].h
                        == d.height as i32
                    &&& o[0].color == o[1].color
                    &&& o[1].n == (if selected { 3int } else { 2 })
                },
                ElemKind::Frame => {
                    &&& o.len() == 1 && o[0].shape == Shape::RoundOutline
                    &&& o[0].x == b.0 && o[0].y == b.1 && o[0].w == d.width as i32 && o[0].h
                        == d.height as i32
                    &&& o[0].color == arranging::canvas_color(x.border_color)
                    &&& 1 <= x.border_width < 0x8000_0000 ==> o[0].n == x.border_width
                    &&& x.border_width == 0 ==> o[0].n == 1
                },
                ElemKind::Background => {
                    &&& o.len() == 1 && o[0].shape == Shape::Round
                    &&& o[0].x == b.0 && o[0].y == b.1 && o[0].w == d.width as i32 && o[0].h
                        == d.height as i32
                    &&& o[0].fill == arranging::canvas_color(x.color)
                    &&& o[0].n == (if selected { 3int } else { 1 })
                },
                ElemKind::Png => {
                    &&& o[0].x == b.0 && o[0].y == b.1 && o[0].w == size.0 && o[0].h == size.1
                    &&& has_picture(*c.cache, x.png_path) ==> {
                        &&& o[0].shape == Shape::Picture && o[0].text == x.png_path
                        &&& o.len() == (if selected { 2int } else { 1 })
                    }
                    &&& !has_picture(*c.cache, x.png_path) ==> {
                        &&& o[0].shape == Shape::Round && o.len() == 2
                        &&& o[1].text == (if x.png_path.len() > 0 {
                            x.png_path
                        } else {
                            tx.text("no_image"@)
                        })
                    }
                },
                ElemKind::Text => {
                    &&& o.len() == (if x.content.len() > 0 { 1int } else { 0 }) + (if selected {
                        1int
                    } else {
                        0
                    })
                    &&& x.content.len() > 0 ==> {
                        &&& o[0].shape == Shape::Words && o[0].text == x.content
                        &&& o[0].n == x.font_size as i32 && o[0].color == text_color(
                            e.doc.elements[i],
                        )
                        &&& o[0].x == b.0 && o[0].y == b.1 && o[0].w == size.0 && o[0].h == size.1
                    }
                },
            }
        }),
        ({
            let el = e.doc.elements[i];
            &&& text::trim(el.extra.text_color).len() == 0 ==> text_color(el) == 255 + 256 * 255
                + 65536 * 255
            &&& text::trim(el.extra.text_color).len() > 0 ==> text_color(el)
                == arranging::canvas_color(el.extra.text_color)
            &&& el.display.rotate as int % 360 == 0 ==> turn_ops(e, c, i).len() == 0
            &&& el.display.rotate as int % 360 != 0 ==> turn_ops(e, c, i).len() == 2 && turn_ops(
                e,
                c,
                i,
            )[1].w == c.turned@[i].corner.0 && turn_ops(e, c, i)[1].h == c.turned@[i].corner.1
        }),
{
    reveal(body_ops);
    reveal(turn_ops);
}

/// The box in which elements are selected is drawn between its two corners,
/// whichever was first, once it is larger than two pixels both ways.
pub proof fn law_selecting_box_is_drawn(e: Ed, s: (i32, i32), c: (i32, i32))
    requires
        e.boxes.box_select_start == Some(s),
        e.boxes.box_select_current == Some(c),
        0 <= s.0 < 0x1000_0000,
        0 <= s.1 < 0x1000_0000,
        0 <= c.0 < 0x1000_0000,
        0 <= c.1 < 0x1000_0000,
    ensures
        ({
            let o = select_box_ops(e);
            let w = if s.0 <= c.0 { c.0 - s.0 } else { s.0 - c.0 };
            let h = if s.1 <= c.1 { c.1 - s.1 } else { s.1 - c.1 };
            &&& (o.len() > 0) == (e.boxes.box_selecting && w > 2 && h > 2)
            &&& o.len() > 0 ==> {
                &&& o[0].x == (if s.0 <= c.0 { s.0 } else { c.0 })
                &&& o[0].y == (if s.1 <= c.1 { s.1 } else { c.1 })
                &&& o[0].w == w && o[0].h == h
                &&& o[1].x == o[0].x + 1 && o[1].x + o[1].w == o[0].x + w - 1
                &&& o[1].y == o[0].y + 1 && o[1].y + o[1].h == o[0].y + h - 1
            }
        }),
{
    reveal(select_box_ops);
}

/// The guide lines go over the whole screen where coordinates are held, the hint
/// bar over its whole width, and the magnifier has its cross in its middle.
pub proof fn law_lines_over_the_canvas(e: Ed, tx: Texts)
    requires
        screen_ok(e),
    ensures
        ({
            let o = guide_ops(e);
            let g = snap::guide_lines(e);
            &&& o.len() == (if g.0 is Some { 1int } else { 0 }) + (if g.1 is Some { 1int } else { 0 })
            &&& g.0 is Some ==> o[0].x == g.0.unwrap() as i32 && o[0].y == 0 && o[0].w == 1
                && o[0].h == e.area.screen_h
            &&& g.1 is Some ==> o.last().y == g.1.unwrap() as i32 && o.last().x == 0 && o.last().h
                == 1 && o.last().w == e.area.screen_w
        }),
        ({
            let o = hint_ops(e, tx);
            &&& o[0].x == 0 && o[0].w == e.area.screen_w && o[0].h == 40
            &&& o[2].text == tx.text(ui::hint_bar(e).1)
        }),
        ({
            let c = middle_ops(e.area.screen_w as int, e.area.screen_h as int);
            &&& 0 <= e.area.screen_w - 2 * (c[0].x + 1) <= 1 && c[0].w == 2 && c[0].h
                == e.area.screen_h
            &&& 0 <= e.area.screen_h - 2 * (c[1].y + 1) <= 1 && c[1].h == 2 && c[1].w
                == e.area.screen_w
        }),
{
    reveal(guide_ops);
    reveal(hint_ops);
}

} // verus!
