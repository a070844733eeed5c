//! The window of the editor: where the mouse is, what it looks like, and the
//! transparency of the screen.

use vstd::prelude::*;

use crate::editor::common;
use crate::editor::common::{
    CursorKind, BG_ALPHA, FN_BOX_H, LIST_TOP2, MAG_CAPTURE, MAG_SIZE, PANEL_W, TITLE_H, UI_ALPHA,
};
use crate::editor::events;
use crate::editor::panel;
use crate::editor::panel::panel_rect;
use crate::editor::state::{Ed, EditorState, Panel};
use crate::editor::ui;
use crate::editor::ui::{
    confirm_box, panel_action_hit, panel_toggle_box_hit, panel_toggle_button_hit,
    panel_toggle_spin_hit,
};
use crate::num;
use crate::num::{clamp_i64, max_i64};
use crate::pixels;
use crate::pixels::{
    lemma_progress_ends, lemma_progress_step, premultiply, read_pixel, write_pixel, Pixel,
};

verus! {

// ===== Messages =====

/// The low sixteen bits of a number, as a number with a sign.
pub open spec fn low_word(v: int) -> int {
    let w = v % 0x1_0000;
    if w >= 0x8000 {
        w - 0x1_0000
    } else {
        w
    }
}

/// The sixteen bits above them.
pub open spec fn high_word(v: int) -> int {
    low_word(v / 0x1_0000)
}

fn word(v: i64) -> (r: i32)
    ensures
        r == low_word(v as int),
        -0x8000 <= r <= 0x7fff,
{
    let m: i64 = v % 0x1_0000;
    let w: i64 = if m < 0 {
        m + 0x1_0000
    } else {
        m
    };
    if w >= 0x8000 {
        (w - 0x1_0000) as i32
    } else {
        w as i32
    }
}

/// The point that a mouse message tells.
pub fn message_point(lparam: i64) -> (r: (i32, i32))
    ensures
        r.0 == low_word(lparam as int),
        r.1 == high_word(lparam as int),
        -0x8000 <= r.0 <= 0x7fff,
        -0x8000 <= r.1 <= 0x7fff,
{
    let m: i64 = lparam % 0x1_0000;
    let w: i64 = if m < 0 {
        m + 0x1_0000
    } else {
        m
    };
    let high: i64 = if m < 0 {
        lparam / 0x1_0000 - 1
    } else {
        lparam / 0x1_0000
    };
    assert(high == lparam as int / 0x1_0000);
    (word(w), word(high))
}

/// The movement of the wheel that a message tells.
pub fn message_wheel(wparam: u64) -> (r: i32)
    ensures
        r == high_word(wparam as int),
        -0x8000 <= r <= 0x7fff,
{
    word((wparam / 0x1_0000) as i64)
}

// ===== Mouse =====

/// Whether a point is on the title of the panel.
pub open spec fn on_title(e: Ed, x: int, y: int) -> bool {
    common::in_box(
        x,
        y,
        e.panel.panel_x as int,
        e.panel.panel_y as int,
        PANEL_W as int,
        TITLE_H as int,
    )
}

/// Whether the hint bar dodges a mouse at a height.
pub open spec fn hint_dodges(e: Ed, y: int) -> bool {
    &&& if e.panel.hint_top {
        y < 60
    } else {
        y > e.area.screen_h - 60
    }
    &&& !e.entry.confirm_overwrite
}

/// What the timer of the tooltip does.
#[derive(Debug, Clone, Copy, PartialEq, Eq, Structural)]
pub enum Hover {
    Start,
    Stop,
    Same,
}

/// The state after the mouse came to a point: the hint bar dodges it, and the
/// tooltip is hidden where it left the title.
pub open spec fn mouse_at(e: Ed, x: i32, y: i32) -> Ed {
    let over = on_title(e, x as int, y as int);
    Ed {
        mouse_x: x,
        mouse_y: y,
        panel: Panel {
            hint_top: if hint_dodges(e, y as int) {
                !e.panel.hint_top
            } else {
                e.panel.hint_top
            },
            over_title: over,
            tooltip_show: if e.panel.over_title && !over {
                false
            } else {
                e.panel.tooltip_show
            },
            ..e.panel
        },
        ..e
    }
}

/// What the timer of the tooltip does when the mouse came to a point.
pub open spec fn hover_at(e: Ed, x: int, y: int) -> Hover {
    let over = on_title(e, x, y);
    if over && !e.panel.over_title {
        Hover::Start
    } else if !over && e.panel.over_title {
        Hover::Stop
    } else {
        Hover::Same
    }
}

/// Whether the screen is drawn again because the mouse came to a point: a tooltip
/// was hidden, or the hint bar dodged.
pub open spec fn drawn_at(e: Ed, x: int, y: int) -> bool {
    (e.panel.tooltip_show && hover_at(e, x, y) == Hover::Stop) || hint_dodges(e, y)
}

/// Whether a point is on the title of the panel.
pub fn is_over_title(st: &EditorState, x: i32, y: i32) -> (r: bool)
    requires
        st@.panel.in_range(),
    ensures
        r == on_title(st@, x as int, y as int),
{
    let px: i32 = st.panel.panel_x;
    let py: i32 = st.panel.panel_y;
    x >= px && x <= px + PANEL_W && y >= py && y <= py + TITLE_H
}

/// The mouse came to a point. Returns what the timer of the tooltip does, and
/// whether the screen is drawn again.
pub fn follow_mouse(st: &mut EditorState, x: i32, y: i32) -> (r: (Hover, bool))
    requires
        old(st)@.in_range(),
    ensures
        final(st)@ == mouse_at(old(st)@, x, y),
        r.0 == hover_at(old(st)@, x as int, y as int),
        r.1 == drawn_at(old(st)@, x as int, y as int),
{
    st.mouse_x = x;
    st.mouse_y = y;
    let near: bool = if st.panel.hint_top {
        y < 60
    } else {
        y > st.area.screen_h - 60
    };
    let flipped: bool = near && !st.entry.confirm_overwrite;
    if flipped {
        st.panel.hint_top = !st.panel.hint_top;
    }
    let over: bool = is_over_title(st, x, y);
    let before: bool = st.panel.over_title;
    st.panel.over_title = over;
    if over && !before {
        (Hover::Start, flipped)
    } else if !over && before {
        let shown: bool = st.panel.tooltip_show;
        st.panel.tooltip_show = false;
        (Hover::Stop, flipped || shown)
    } else {
        (Hover::Same, flipped)
    }
}

/// The timer of the tooltip ran out. Returns whether the screen is drawn again.
pub fn hover_timer(st: &mut EditorState) -> (r: bool)
    ensures
        r == old(st)@.panel.over_title,
        final(st)@ == (if old(st)@.panel.over_title {
            Ed { panel: Panel { tooltip_show: true, ..old(st)@.panel }, ..old(st)@ }
        } else {
            old(st)@
        }),
{
    if st.panel.over_title {
        st.panel.tooltip_show = true;
        true
    } else {
        false
    }
}

/// Whether helpers follow the mouse, so that the screen is drawn at every move.
pub fn follows_mouse(st: &EditorState) -> (r: bool)
    ensures
        r == (st@.prefs.crosshair_on || st@.prefs.magnifier_on || st@.prefs.xy_label_on),
{
    st.prefs.crosshair_on || st.prefs.magnifier_on || st.prefs.xy_label_on
}

/// Whether a point is on one of the controls of the panel.
pub open spec fn on_control(e: Ed, x: int, y: int) -> bool {
    ui::action_hit(e, x, y) is Some || ui::toggle_hit(e, x, y) is Some || ui::box_hit(e, x, y)
        is Some || ui::box_spin_hit(e, x, y) is Some
}

/// What the mouse looks like at a point.
pub open spec fn cursor_at(e: Ed, x: int, y: int) -> CursorKind {
    if e.entry.confirm_overwrite {
        CursorKind::Arrow
    } else if !events::on_panel(e, x, y) {
        CursorKind::Cross
    } else if y <= e.panel.panel_y + TITLE_H {
        CursorKind::SizeAll
    } else if on_control(e, x, y) {
        CursorKind::Hand
    } else if events::on_file_name(e, x, y) {
        CursorKind::Ibeam
    } else if y >= e.panel.panel_y + LIST_TOP2 {
        CursorKind::Hand
    } else {
        CursorKind::Arrow
    }
}

fn control_at(st: &EditorState, x: i32, y: i32) -> (r: bool)
    requires
        st@.panel.in_range(),
    ensures
        r == on_control(st@, x as int, y as int),
{
    panel_action_hit(st, x, y).is_some() || panel_toggle_button_hit(st, x, y).is_some()
        || panel_toggle_box_hit(st, x, y).is_some() || panel_toggle_spin_hit(st, x, y).is_some()
}

/// What the mouse looks like at a point.
pub fn cursor_kind_for(st: &EditorState, x: i32, y: i32) -> (r: CursorKind)
    requires
        st@.in_range(),
    ensures
        r == cursor_at(st@, x as int, y as int),
{
    if st.entry.confirm_overwrite {
        return CursorKind::Arrow;
    }
    let (px, py, pw, ph) = panel_rect(st);
    if !(x >= px && x <= px + pw && y >= py && y <= py + ph) {
        return CursorKind::Cross;
    }
    if y <= py + TITLE_H {
        return CursorKind::SizeAll;
    }
    if control_at(st, x, y) {
        return CursorKind::Hand;
    }
    let fx: i32 = px + 10;
    let fy: i32 = py + TITLE_H + 22;
    if x >= fx && x <= fx + (pw - 20) && y >= fy && y <= fy + FN_BOX_H {
        return CursorKind::Ibeam;
    }
    if y >= py + LIST_TOP2 {
        return CursorKind::Hand;
    }
    CursorKind::Arrow
}

// ===== Magnifier and coordinates =====

/// Where the magnifier is drawn, and where what it shows begins. It leaves the
/// upper left corner when the mouse is there.
pub open spec fn magnifier(e: Ed) -> (int, int, int, int) {
    let sw = e.area.screen_w as int;
    let sh = e.area.screen_h as int;
    (
        if e.mouse_x < sw / 3 && e.mouse_y < sh / 3 {
            sw - MAG_SIZE - 20
        } else {
            20
        },
        16,
        num::int_clamp(e.mouse_x - MAG_CAPTURE / 2, 0, sw - MAG_CAPTURE),
        num::int_clamp(e.mouse_y - MAG_CAPTURE / 2, 0, sh - MAG_CAPTURE),
    )
}

/// Where the magnifier is drawn, and where what it shows begins.
pub fn magnifier_at(st: &EditorState) -> (r: (i32, i32, i32, i32))
    requires
        st@.area.in_range(),
        st@.area.screen_w >= MAG_CAPTURE,
        st@.area.screen_h >= MAG_CAPTURE,
    ensures
        (r.0 as int, r.1 as int, r.2 as int, r.3 as int) == magnifier(st@),
{
    let sw: i32 = st.area.screen_w;
    let sh: i32 = st.area.screen_h;
    let x: i32 = if st.mouse_x < sw / 3 && st.mouse_y < sh / 3 {
        sw - MAG_SIZE - 20
    } else {
        20
    };
    let half: i64 = MAG_CAPTURE as i64 / 2;
    let cap_x: i64 = clamp_i64(st.mouse_x as i64 - half, 0, (sw - MAG_CAPTURE) as i64);
    let cap_y: i64 = clamp_i64(st.mouse_y as i64 - half, 0, (sh - MAG_CAPTURE) as i64);
    (x, 16, cap_x as i32, cap_y as i32)
}

/// Where the coordinates of the mouse are drawn: beside it, and on the screen.
pub open spec fn xy_label(e: Ed) -> (int, int) {
    (
        num::int_clamp(e.mouse_x + 20, 0, e.area.screen_w - 160),
        num::int_max(e.mouse_y - 30, 0),
    )
}

/// Where the coordinates of the mouse are drawn.
pub fn xy_label_at(st: &EditorState) -> (r: (i32, i32))
    requires
        st@.area.in_range(),
        st@.area.screen_w >= 160,
    ensures
        (r.0 as int, r.1 as int) == xy_label(st@),
{
    let x: i64 = clamp_i64(st.mouse_x as i64 + 20, 0, (st.area.screen_w - 160) as i64);
    let y: i64 = max_i64(st.mouse_y as i64 - 30, 0);
    (x as i32, y as i32)
}

// ===== Transparency =====

/// A pixel of the empty screen.
pub open spec fn empty_pixel() -> Pixel {
    (0, 0, 0, BG_ALPHA)
}

/// A pixel as it is shown: what was drawn is a little transparent, the empty
/// screen more so.
pub open spec fn shown_pixel(p: Pixel) -> Pixel {
    if p.0 != 0 || p.1 != 0 || p.2 != 0 {
        (
            pixels::premul(p.0, UI_ALPHA as int),
            pixels::premul(p.1, UI_ALPHA as int),
            pixels::premul(p.2, UI_ALPHA as int),
            UI_ALPHA,
        )
    } else {
        (p.0, p.1, p.2, BG_ALPHA)
    }
}

/// Empties the screen.
pub fn clear_screen(buf: &mut Vec<u8>)
    requires
        old(buf)@.len() % 4 == 0,
    ensures
        final(buf)@.len() == old(buf)@.len(),
        pixels::pixels_of(final(buf)@) == Seq::new(
            old(buf)@.len() / 4,
            |p: int| empty_pixel(),
        ),
{
    let n: usize = buf.len() / 4;
    let ghost start = pixels::pixels_of(buf@);
    let ghost target = Seq::new(buf@.len() / 4, |p: int| empty_pixel());
    proof {
        lemma_progress_ends(start, target);
    }
    for p in 0..n
        invariant
            n == buf@.len() / 4,
            buf@.len() == old(buf)@.len(),
            buf@.len() % 4 == 0,
            start.len() == n,
            target == Seq::new(n as nat, |p: int| empty_pixel()),
            pixels::pixels_of(buf@) == pixels::progress(start, target, p as int),
    {
        write_pixel(buf, p, (0, 0, 0, BG_ALPHA));
        proof {
            lemma_progress_step(start, target, p as int);
        }
    }
    proof {
        lemma_progress_ends(start, target);
    }
}

/// Makes what was drawn transparent.
pub fn correct_alpha(buf: &mut Vec<u8>)
    requires
        old(buf)@.len() % 4 == 0,
    ensures
        final(buf)@.len() == old(buf)@.len(),
        pixels::pixels_of(final(buf)@) == pixels::pixels_of(old(buf)@).map_values(
            |p: Pixel| shown_pixel(p),
        ),
{
    let n: usize = buf.len() / 4;
    let ghost start = pixels::pixels_of(buf@);
    let ghost target = start.map_values(|p: Pixel| shown_pixel(p));
    proof {
        lemma_progress_ends(start, target);
    }
    for p in 0..n
        invariant
            n == buf@.len() / 4,
            buf@.len() == old(buf)@.len(),
            buf@.len() % 4 == 0,
            start.len() == n,
            target == start.map_values(|p: Pixel| shown_pixel(p)),
            pixels::pixels_of(buf@) == pixels::progress(start, target, p as int),
    {
        let c: (u8, u8, u8, u8) = read_pixel(buf, p);
        assert(c == start[p as int]);
        let v: (u8, u8, u8, u8) = if c.0 != 0 || c.1 != 0 || c.2 != 0 {
            (
                premultiply(c.0, UI_ALPHA),
                premultiply(c.1, UI_ALPHA),
                premultiply(c.2, UI_ALPHA),
                UI_ALPHA,
            )
        } else {
            (c.0, c.1, c.2, BG_ALPHA)
        };
        write_pixel(buf, p, v);
        proof {
            lemma_progress_step(start, target, p as int);
        }
    }
    proof {
        lemma_progress_ends(start, target);
    }
}

/// A screen of a width in which a box (left, top, width, height) is opaque.
pub open spec fn opaque_box(s: Seq<Pixel>, w: int, b: (int, int, int, int)) -> Seq<Pixel> {
    Seq::new(
        s.len(),
        |p: int|
            if b.0 <= p % w < b.0 + b.2 && b.1 <= p / w < b.1 + b.3 {
                (s[p].0, s[p].1, s[p].2, 255u8)
            } else {
                s[p]
            },
    )
}

/// Makes the box of the question about an existing file opaque, so that nothing
/// shows through it.
pub fn make_question_opaque(buf: &mut Vec<u8>, sw: i32, sh: i32)
    requires
        sw >= 460,
        sh >= 156,
        sw * sh * 4 <= i32::MAX,
        old(buf)@.len() == sw * sh * 4,
    ensures
        final(buf)@.len() == old(buf)@.len(),
        pixels::pixels_of(final(buf)@) == opaque_box(
            pixels::pixels_of(old(buf)@),
            sw as int,
            ui::question_box(sw as int, sh as int),
        ),
{
    let (cx, cy, cw, ch): (i32, i32, i32, i32) = confirm_box(sw, sh);
    let n: usize = buf.len() / 4;
    let w: usize = sw as usize;
    let ghost start = pixels::pixels_of(buf@);
    let ghost target = opaque_box(start, sw as int, (cx as int, cy as int, cw as int, ch as int));
    proof {
        lemma_progress_ends(start, target);
    }
    for p in 0..n
        invariant
            n == buf@.len() / 4,
            buf@.len() == old(buf)@.len(),
            buf@.len() == sw * sh * 4,
            sw * sh * 4 <= i32::MAX,
            w == sw,
            w > 0,
            0 <= cx,
            cx + cw <= i32::MAX,
            0 <= cy,
            cy + ch <= i32::MAX,
            start.len() == n,
            target == opaque_box(
                start,
                sw as int,
                (cx as int, cy as int, cw as int, ch as int),
            ),
            pixels::pixels_of(buf@) == pixels::progress(start, target, p as int),
    {
        let x: usize = p % w;
        let y: usize = p / w;
        let c: (u8, u8, u8, u8) = read_pixel(buf, p);
        assert(c == start[p as int]);
        assert(y <= p) by (nonlinear_arith)
            requires
                y == p / w,
                w > 0,
        ;
        let inside: bool = cx as i64 <= x as i64 && (x as i64) < (cx + cw) as i64 && cy as i64
            <= y as i64 && (y as i64) < (cy + ch) as i64;
        if inside {
            write_pixel(buf, p, (c.0, c.1, c.2, 255));
        } else {
            write_pixel(buf, p, c);
        }
        proof {
            lemma_progress_step(start, target, p as int);
        }
    }
    proof {
        lemma_progress_ends(start, target);
    }
}

// ===== Laws =====

/// Nothing that is shown is brighter than its alpha allows.
pub proof fn law_shown_pixels_are_premultiplied(p: Pixel)
    ensures
        shown_pixel(p).0 <= shown_pixel(p).3,
        shown_pixel(p).1 <= shown_pixel(p).3,
        shown_pixel(p).2 <= shown_pixel(p).3,
{
}

/// The tooltip shows only while the mouse is on the title.
pub proof fn law_tooltip_shows_over_the_title(e: Ed, x: i32, y: i32)
    requires
        e.panel.tooltip_show ==> e.panel.over_title,
    ensures
        mouse_at(e, x, y).panel.tooltip_show ==> mouse_at(e, x, y).panel.over_title,
{
}

/// A point is the two words of a message.
pub proof fn law_points_come_through(x: int, y: int)
    requires
        -0x8000 <= x <= 0x7fff,
        -0x8000 <= y <= 0x7fff,
    ensures
        low_word(y * 0x1_0000 + x % 0x1_0000) == x,
        high_word(y * 0x1_0000 + x % 0x1_0000) == y,
{
}

/// What was drawn is shown with six tenths of its brightness and opacity, and the
/// empty screen black with three tenths of opacity.
pub proof fn law_what_is_drawn_shows_through(p: Pixel)
    ensures
        p.0 != 0 || p.1 != 0 || p.2 != 0 ==> ({
            let q = shown_pixel(p);
            &&& q.0 == p.0 * 153 / 255
            &&& q.1 == p.1 * 153 / 255
            &&& q.2 == p.2 * 153 / 255
            &&& q.3 == 153
        }),
        p.0 == 0 && p.1 == 0 && p.2 == 0 ==> shown_pixel(p) == (0u8, 0u8, 0u8, 76u8),
        empty_pixel() == (0u8, 0u8, 0u8, 76u8),
        shown_pixel(empty_pixel()) == empty_pixel(),
{
    pixels::law_premul_is_a_share(p, 153);
}

/// A box is made opaque pixel by pixel, its colors stay, and so does everything
/// outside of it.
pub proof fn law_box_is_opaque(s: Seq<Pixel>, w: int, h: int, b: (int, int, int, int), x: int, y: int)
    requires
        s.len() == w * h,
        0 <= x < w,
        0 <= y < h,
    ensures
        ({
            let c = s[y * w + x];
            let r = opaque_box(s, w, b)[y * w + x];
            if b.0 <= x < b.0 + b.2 && b.1 <= y < b.1 + b.3 {
                r == (c.0, c.1, c.2, 255u8)
            } else {
                r == c
            }
        }),
{
    pixels::lemma_row_in(w, h, x, y);
    pixels::lemma_row_column(w, x, y);
}

/// The magnifier shows 200 pixels around the mouse, and at the edges of the screen
/// the last 200; it is drawn at the upper left, and at the upper right while the
/// mouse is in that ninth of the screen.
pub proof fn law_magnifier_follows(e: Ed)
    requires
        e.area.screen_w >= 420,
        e.area.screen_h >= 200,
    ensures
        ({
            let m = magnifier(e);
            let x = e.mouse_x as int;
            let y = e.mouse_y as int;
            let w = e.area.screen_w as int;
            let h = e.area.screen_h as int;
            &&& 0 <= m.2 <= w - 200
            &&& 0 <= m.3 <= h - 200
            &&& 100 <= x <= w - 100 ==> m.2 == x - 100
            &&& x < 100 ==> m.2 == 0
            &&& x > w - 100 ==> m.2 == w - 200
            &&& 100 <= y <= h - 100 ==> m.3 == y - 100
            &&& y < 100 ==> m.3 == 0
            &&& y > h - 100 ==> m.3 == h - 200
            &&& m.1 == 16
            &&& x < w / 3 && y < h / 3 ==> m.0 + 400 + 20 == w
            &&& x >= w / 3 || y >= h / 3 ==> m.0 == 20
        }),
{
}

/// The coordinates stand 20 to the right of the mouse and 30 above it, where that
/// is on the screen.
pub proof fn law_coordinates_follow(e: Ed)
    requires
        e.area.screen_w >= 160,
    ensures
        ({
            let l = xy_label(e);
            &&& 0 <= l.0 <= e.area.screen_w - 160
            &&& 0 <= l.1
            &&& 0 <= e.mouse_x + 20 <= e.area.screen_w - 160 ==> l.0 == e.mouse_x + 20
            &&& e.mouse_y >= 30 ==> l.1 == e.mouse_y - 30
            &&& e.mouse_x + 20 > e.area.screen_w - 160 ==> l.0 == e.area.screen_w - 160
        }),
{
}

/// The hint bar changes sides exactly where the mouse comes within 60 pixels of
/// its side, unless the question is open. The mouse is remembered, and nothing but
/// the hint bar and the tooltip changes.
pub proof fn law_hint_bar_dodges(e: Ed, x: i32, y: i32)
    ensures
        ({
            let m = mouse_at(e, x, y);
            let near = if e.panel.hint_top {
                y < 60
            } else {
                y > e.area.screen_h - 60
            };
            &&& (m.panel.hint_top != e.panel.hint_top) == (near && !e.entry.confirm_overwrite)
            &&& m.mouse_x == x && m.mouse_y == y
            &&& m.panel.over_title == (e.panel.panel_x <= x <= e.panel.panel_x + 460
                && e.panel.panel_y <= y <= e.panel.panel_y + 42)
            &&& m == (Ed {
                mouse_x: x,
                mouse_y: y,
                panel: Panel {
                    hint_top: m.panel.hint_top,
                    over_title: m.panel.over_title,
                    tooltip_show: m.panel.tooltip_show,
                    ..e.panel
                },
                ..e
            })
            &&& m.panel.tooltip_show == (e.panel.tooltip_show && !(e.panel.over_title
                && !m.panel.over_title))
        }),
{
}

/// The timer of the tooltip starts when the mouse comes onto the title and stops
/// when it leaves it. The screen is drawn again where that hides a tooltip, or the
/// hint bar dodges.
pub proof fn law_tooltip_timer(e: Ed, x: i32, y: i32)
    ensures
        ({
            let m = mouse_at(e, x, y);
            let h = hover_at(e, x as int, y as int);
            &&& h == Hover::Start <==> !e.panel.over_title && m.panel.over_title
            &&& h == Hover::Stop <==> e.panel.over_title && !m.panel.over_title
            &&& drawn_at(e, x as int, y as int) == (m.panel.hint_top != e.panel.hint_top
                || e.panel.tooltip_show && h == Hover::Stop)
        }),
{
}

/// The mouse is an arrow while the question is open, a cross off the panel, and
/// moves the panel on its title; elsewhere on the panel it is a hand on what can be
/// clicked, and writes in the box of the file name.
pub proof fn law_cursor_shows_what_is_under_it(e: Ed, x: int, y: int)
    ensures
        ({
            let c = cursor_at(e, x, y);
            let on = events::on_panel(e, x, y);
            let title = y <= e.panel.panel_y + 42;
            &&& e.entry.confirm_overwrite ==> c == CursorKind::Arrow
            &&& !e.entry.confirm_overwrite ==> {
                &&& !on <==> c == CursorKind::Cross
                &&& on && title <==> c == CursorKind::SizeAll
                &&& on && !title && (ui::action_hit(e, x, y) is Some || ui::toggle_hit(e, x, y)
                    is Some || ui::box_hit(e, x, y) is Some) ==> c == CursorKind::Hand
                &&& c == CursorKind::Ibeam ==> events::on_file_name(e, x, y)
            }
        }),
{
}

} // verus!
