//! What is drawn: steps that the screen carries out one after the other.

use vstd::prelude::*;

use crate::decimal;
use crate::decimal::decimal;
use crate::editor::common;
use crate::editor::common::rgb;
use crate::num;
use crate::num::{clamp_i64, divide};
use crate::text::{append_text, chars_of, owned, string_of};

verus! {

/// What a step draws.
#[derive(Debug, Clone, Copy, PartialEq, Eq, Structural)]
pub enum Shape {
    /// A filled rectangle
    Fill,
    /// A rectangle filled with `n` of 255 parts of the color
    Tint,
    /// The outline of a rectangle, `n` pixels wide
    Outline,
    /// A filled rectangle with an outline
    Plate,
    /// A filled rectangle with round corners and an outline `n` pixels wide
    Round,
    /// The outline of a rectangle with round corners, `n` pixels wide
    RoundOutline,
    /// A line to the point (w, h)
    Line,
    /// A centered text
    Text,
    /// A text that begins at the left
    TextLeft,
    /// A text in the size of values
    ValueText,
    /// A text in the size of labels
    LabelText,
    /// A centered bold text of font size `n`
    Words,
    /// The picture of the file that the text names
    Picture,
    /// The part of the screen around the point (w, h), enlarged
    Magnifier,
}

/// A step: what is drawn, where, and in which color.
#[derive(Debug)]
pub struct Op {
    pub shape: Shape,
    pub x: i32,
    pub y: i32,
    pub w: i32,
    pub h: i32,
    pub n: i32,
    /// Diameter of round corners
    pub corner: i32,
    /// Color of lines and texts, and of what has one color
    pub color: u32,
    /// Color of what is filled where there is an outline
    pub fill: u32,
    pub text: String,
}

/// A step.
pub struct OpView {
    pub shape: Shape,
    pub x: i32,
    pub y: i32,
    pub w: i32,
    pub h: i32,
    pub n: i32,
    pub corner: i32,
    pub color: u32,
    pub fill: u32,
    pub text: Seq<char>,
}

impl View for Op {
    type V = OpView;

    open spec fn view(&self) -> OpView {
        OpView {
            shape: self.shape,
            x: self.x,
            y: self.y,
            w: self.w,
            h: self.h,
            n: self.n,
            corner: self.corner,
            color: self.color,
            fill: self.fill,
            text: self.text@,
        }
    }
}

/// The steps of a list.
pub open spec fn steps(v: Seq<Op>) -> Seq<OpView> {
    v.map_values(|o: Op| o@)
}

/// A step of a shape without an outline, corners or a text. Sums that are no
/// coordinates of the screen wrap round, like those of the machine.
pub open spec fn plain(shape: Shape, b: (int, int, int, int), n: int, color: u32) -> OpView {
    OpView {
        shape,
        x: b.0 as i32,
        y: b.1 as i32,
        w: b.2 as i32,
        h: b.3 as i32,
        n: n as i32,
        corner: 0,
        color,
        fill: 0,
        text: Seq::empty(),
    }
}

pub open spec fn fill(x: int, y: int, w: int, h: int, color: u32) -> OpView {
    plain(Shape::Fill, (x, y, w, h), 0, color)
}

pub open spec fn outline(x: int, y: int, w: int, h: int, pen: int, color: u32) -> OpView {
    plain(Shape::Outline, (x, y, w, h), pen, color)
}

/// A text of a kind in a rectangle.
pub open spec fn words(shape: Shape, t: Seq<char>, b: (int, int, int, int), color: u32) -> OpView {
    OpView { text: t, ..plain(shape, b, 0, color) }
}

pub open spec fn centered(t: Seq<char>, b: (int, int, int, int), color: u32) -> OpView {
    words(Shape::Text, t, b, color)
}

pub open spec fn left(t: Seq<char>, b: (int, int, int, int), color: u32) -> OpView {
    words(Shape::TextLeft, t, b, color)
}

/// A rectangle with round corners.
pub open spec fn rounded(
    shape: Shape,
    b: (int, int, int, int),
    corner: int,
    pen: int,
    color: u32,
    fill: u32,
) -> OpView {
    OpView { corner: corner as i32, fill, ..plain(shape, b, pen, color) }
}

/// A button: a round rectangle with a label.
pub open spec fn button_ops(
    b: (int, int, int, int),
    label: Seq<char>,
    colors: (u32, u32, u32),
) -> Seq<OpView> {
    seq![rounded(Shape::Round, b, 6, 1, colors.2, colors.0), centered(label, b, colors.1)]
}

/// The handle of an element: a square by which it is resized.
pub open spec fn handle(x: int, y: int) -> OpView {
    OpView {
        fill: common::color_number(255, 220, 60),
        ..plain(Shape::Plate, (x, y, 12, 12), 1, common::color_number(30, 30, 30))
    }
}

/// Steps that are added one list after the other are added as one list.
pub proof fn lemma_added(a: Seq<OpView>, b: Seq<OpView>, c: Seq<OpView>)
    ensures
        (a + b) + c == a + (b + c),
{
    assert((a + b) + c =~= a + (b + c));
}

/// Two texts one after the other.
pub fn join2(a: &str, b: &str) -> (r: String)
    ensures
        r@ == a@ + b@,
{
    let mut v: Vec<char> = chars_of(a);
    append_text(&mut v, b);
    string_of(&v)
}

/// The decimal notation of a number.
pub fn number(v: i32) -> (r: String)
    ensures
        r@ == decimal::dec_int(v as int),
{
    decimal(v as i64)
}

/// The height of the font of a text that stands in a line: three fifths of the
/// line, within bounds.
pub fn line_font(h: i32) -> (r: i32)
    ensures
        r == num::int_clamp(num::quotient(h * 3, 5), 11, 22),
{
    clamp_i64(divide(h as i64 * 3, 5), 11, 22) as i32
}

fn nothing() -> (r: String)
    ensures
        r@ == Seq::<char>::empty(),
{
    let r: String = owned("");
    proof {
        reveal_strlit("");
        assert(r@ =~= Seq::<char>::empty());
    }
    r
}

fn push(ops: &mut Vec<Op>, o: Op)
    ensures
        steps(final(ops)@) == steps(old(ops)@).push(o@),
{
    let ghost before = ops@;
    ops.push(o);
    assert(steps(ops@) =~= steps(before).push(o@));
}

/// Adds a step of a shape without an outline, corners or a text.
pub fn put_plain(ops: &mut Vec<Op>, shape: Shape, b: (i32, i32, i32, i32), n: i32, color: u32)
    ensures
        steps(final(ops)@) == steps(old(ops)@).push(
            plain(shape, (b.0 as int, b.1 as int, b.2 as int, b.3 as int), n as int, color),
        ),
{
    push(
        ops,
        Op {
            shape,
            x: b.0,
            y: b.1,
            w: b.2,
            h: b.3,
            n,
            corner: 0,
            color,
            fill: 0,
            text: nothing(),
        },
    );
}

/// Adds a filled rectangle.
pub fn fill_rect_solid(ops: &mut Vec<Op>, x: i32, y: i32, w: i32, h: i32, color: u32)
    ensures
        steps(final(ops)@) == steps(old(ops)@).push(
            fill(x as int, y as int, w as int, h as int, color),
        ),
{
    put_plain(ops, Shape::Fill, (x, y, w, h), 0, color);
}

/// Adds the outline of a rectangle.
pub fn draw_rect_outline(ops: &mut Vec<Op>, x: i32, y: i32, w: i32, h: i32, pen: i32, color: u32)
    ensures
        steps(final(ops)@) == steps(old(ops)@).push(
            outline(x as int, y as int, w as int, h as int, pen as int, color),
        ),
{
    put_plain(ops, Shape::Outline, (x, y, w, h), pen, color);
}

/// Adds a text of a kind in a rectangle.
pub fn put_words(ops: &mut Vec<Op>, shape: Shape, text: String, b: (i32, i32, i32, i32), color: u32)
    ensures
        steps(final(ops)@) == steps(old(ops)@).push(
            words(shape, text@, (b.0 as int, b.1 as int, b.2 as int, b.3 as int), color),
        ),
{
    push(
        ops,
        Op { shape, x: b.0, y: b.1, w: b.2, h: b.3, n: 0, corner: 0, color, fill: 0, text },
    );
}

/// Adds a rectangle with round corners.
pub fn put_rounded(
    ops: &mut Vec<Op>,
    shape: Shape,
    b: (i32, i32, i32, i32),
    corner: i32,
    pen: i32,
    color: u32,
    fill: u32,
)
    ensures
        steps(final(ops)@) == steps(old(ops)@).push(
            rounded(
                shape,
                (b.0 as int, b.1 as int, b.2 as int, b.3 as int),
                corner as int,
                pen as int,
                color,
                fill,
            ),
        ),
{
    push(
        ops,
        Op { shape, x: b.0, y: b.1, w: b.2, h: b.3, n: pen, corner, color, fill, text: nothing() },
    );
}

/// Adds a step that is given as a whole.
pub fn put_op(ops: &mut Vec<Op>, o: Op)
    ensures
        steps(final(ops)@) == steps(old(ops)@).push(o@),
{
    push(ops, o);
}

/// Adds a button.
pub fn draw_button(ops: &mut Vec<Op>, b: (i32, i32, i32, i32), label: &str, bg: u32, fg: u32, border: u32)
    ensures
        steps(final(ops)@) == steps(old(ops)@) + button_ops(
            (b.0 as int, b.1 as int, b.2 as int, b.3 as int),
            label@,
            (bg, fg, border),
        ),
{
    let ghost before = steps(ops@);
    put_rounded(ops, Shape::Round, b, 6, 1, border, bg);
    put_words(ops, Shape::Text, owned(label), b, fg);
    assert(steps(ops@) =~= before + button_ops(
        (b.0 as int, b.1 as int, b.2 as int, b.3 as int),
        label@,
        (bg, fg, border),
    ));
}

/// Adds the handle of an element.
pub fn draw_handle(ops: &mut Vec<Op>, x: i32, y: i32)
    ensures
        steps(final(ops)@) == steps(old(ops)@).push(handle(x as int, y as int)),
{
    put_rounded(ops, Shape::Plate, (x, y, 12, 12), 0, 1, rgb(30, 30, 30), rgb(255, 220, 60));
}

// ===== Laws =====

/// A step draws its shape in the rectangle and the color that it is given, and
/// nothing that it is not given.
pub proof fn law_steps_draw_what_they_say(
    b: (i32, i32, i32, i32),
    pen: i32,
    color: u32,
    ground: u32,
    corner: i32,
    t: Seq<char>,
)
    ensures
        ({
            let o = fill(b.0 as int, b.1 as int, b.2 as int, b.3 as int, color);
            &&& o.shape == Shape::Fill && o.color == color
            &&& (o.x, o.y, o.w, o.h) == b
            &&& o.text.len() == 0
        }),
        ({
            let o = outline(b.0 as int, b.1 as int, b.2 as int, b.3 as int, pen as int, color);
            &&& o.shape == Shape::Outline && o.color == color && o.n == pen
            &&& (o.x, o.y, o.w, o.h) == b
        }),
        ({
            let r = (b.0 as int, b.1 as int, b.2 as int, b.3 as int);
            let o = centered(t, r, color);
            let l = left(t, r, color);
            &&& o.shape == Shape::Text && o.text == t && o.color == color
            &&& (o.x, o.y, o.w, o.h) == b
            &&& l.shape == Shape::TextLeft && l == (OpView { shape: Shape::TextLeft, ..o })
        }),
        ({
            let r = (b.0 as int, b.1 as int, b.2 as int, b.3 as int);
            let o = rounded(Shape::Round, r, corner as int, pen as int, color, ground);
            &&& o.shape == Shape::Round && o.corner == corner && o.n == pen
            &&& o.color == color && o.fill == ground
            &&& (o.x, o.y, o.w, o.h) == b
        }),
{
}

/// A button is a round rectangle with its label in it: the first color is its
/// ground, the second that of the label, the third its border.
pub proof fn law_buttons_are_drawn(
    b: (i32, i32, i32, i32),
    label: Seq<char>,
    ground: u32,
    ink: u32,
    border: u32,
)
    ensures
        ({
            let o = button_ops(
                (b.0 as int, b.1 as int, b.2 as int, b.3 as int),
                label,
                (ground, ink, border),
            );
            &&& o.len() == 2
            &&& o[0].shape == Shape::Round && o[0].fill == ground && o[0].color == border
            &&& (o[0].x, o[0].y, o[0].w, o[0].h) == b
            &&& o[1].shape == Shape::Text && o[1].text == label && o[1].color == ink
            &&& (o[1].x, o[1].y, o[1].w, o[1].h) == b
        }),
{
}

} // verus!
