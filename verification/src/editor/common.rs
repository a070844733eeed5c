//! Constants and types that the editor's parts share.

use vstd::prelude::*;

use crate::i18n::{t, Texts};

verus! {

// ===== Layout =====

/// Height of a row of controls in the panel
pub const SECTION_H: i32 = 34;
/// From one row of controls to the next
pub const SECTION_STEP: i32 = 42;
pub const PANEL_W: i32 = 460;
pub const TITLE_H: i32 = 42;
pub const FN_BOX_H: i32 = 36;

/// Where the list begins below the top of the panel: title, file name, and the
/// rows of mode, actions, toggles and values
pub const LIST_TOP2: i32 = TITLE_H + 22 + FN_BOX_H + 8 + SECTION_H + 8 + SECTION_H + 8 + SECTION_H + 8
    + SECTION_H + 10;

pub const LIST_ITEM_H: i32 = 42;
pub const HOVER_TIMER_ID: usize = 9001;

/// Width of the arrow buttons of a value box
pub const SPIN_W: i32 = 16;

/// Width of a value box, arrow buttons and all
pub const TOG_BOX_W: i32 = 56;
pub const BG_ALPHA: u8 = 76;
pub const UI_ALPHA: u8 = 153;

// Magnifier
pub const MAG_SIZE: i32 = 400;
pub const MAG_CAPTURE: i32 = 200;

// Grid
pub const GRID_SPACING: i32 = 100;

/// Bound of the sizes of the screen: with the layout of the panel added they are
/// numbers of the machine.
pub const SCREEN_LIMIT: i32 = 0x7fff_0000;

// ===== Types =====

#[derive(Debug, Clone, Copy, PartialEq, Eq, Structural)]
pub enum EditorPhase {
    Selecting,
    Arranging,
}

#[derive(Debug, Clone, Copy, PartialEq, Eq, Structural)]
pub enum CursorKind {
    Cross,
    SizeAll,
    Hand,
    Ibeam,
    Arrow,
}

#[derive(Debug, Clone, Copy, PartialEq, Eq, Structural)]
pub enum FieldKind {
    X,
    Y,
    Width,
    Height,
}

/// Editable properties of an element.
#[derive(Debug, Clone, Copy, PartialEq, Eq, Structural)]
pub enum ElemProp {
    Opacity,
    ZOrder,
    /// Rotation in degrees clockwise
    Rotate,
    BorderColor,
    BorderWidth,
    CornerRadius,
    BgColor,
    Content,
    FontSize,
    TextColor,
    PngPath,
}

/// Whether a property is a number.
pub open spec fn numeric(p: ElemProp) -> bool {
    ||| p == ElemProp::Opacity
    ||| p == ElemProp::ZOrder
    ||| p == ElemProp::Rotate
    ||| p == ElemProp::BorderWidth
    ||| p == ElemProp::CornerRadius
    ||| p == ElemProp::FontSize
}

/// The key of a property's label.
pub open spec fn label_key(p: ElemProp) -> Seq<char> {
    match p {
        ElemProp::Opacity => "opacity"@,
        ElemProp::ZOrder => "z_order"@,
        ElemProp::Rotate => "rotate"@,
        ElemProp::BorderColor => "border_color"@,
        ElemProp::BorderWidth => "border_width"@,
        ElemProp::CornerRadius => "corner_radius"@,
        ElemProp::BgColor => "bg_color"@,
        ElemProp::Content => "content"@,
        ElemProp::FontSize => "font_size"@,
        ElemProp::TextColor => "text_color"@,
        ElemProp::PngPath => "png_path"@,
    }
}

impl ElemProp {
    /// Whether the property is a number; else it is a text.
    pub fn is_numeric(self) -> (r: bool)
        ensures
            r == numeric(self),
    {
        match self {
            ElemProp::Opacity => true,
            ElemProp::ZOrder => true,
            ElemProp::Rotate => true,
            ElemProp::BorderWidth => true,
            ElemProp::CornerRadius => true,
            ElemProp::FontSize => true,
            _ => false,
        }
    }

    /// The label of the property.
    pub fn label(self, texts: &Texts) -> (r: &str)
        ensures
            r@ == texts.text(label_key(self)),
    {
        match self {
            ElemProp::Opacity => t(texts, "opacity"),
            ElemProp::ZOrder => t(texts, "z_order"),
            ElemProp::Rotate => t(texts, "rotate"),
            ElemProp::BorderColor => t(texts, "border_color"),
            ElemProp::BorderWidth => t(texts, "border_width"),
            ElemProp::CornerRadius => t(texts, "corner_radius"),
            ElemProp::BgColor => t(texts, "bg_color"),
            ElemProp::Content => t(texts, "content"),
            ElemProp::FontSize => t(texts, "font_size"),
            ElemProp::TextColor => t(texts, "text_color"),
            ElemProp::PngPath => t(texts, "png_path"),
        }
    }
}

/// What is being typed in.
#[derive(Debug, Clone, Copy, PartialEq, Eq, Structural)]
pub enum EditingTarget {
    Nothing,
    /// A coordinate of an element
    RegionField(usize, FieldKind),
    /// A property of an element
    ElemField(usize, ElemProp),
    SnapDistance,
    SnapGap,
    NudgeStep,
}

/// What the arrow buttons and the mouse wheel step.
#[derive(Debug, Clone, Copy, PartialEq, Eq, Structural)]
pub enum SpinTarget {
    RegionField(usize, FieldKind),
    ElemProp(usize, ElemProp),
    SnapDistance,
    SnapGap,
    NudgeStep,
}

#[derive(Debug, Clone, Copy, PartialEq, Eq, Structural)]
pub enum ToggleKind {
    Magnifier,
    Grid,
    Crosshair,
    XyLabel,
    Snap,
    TianSnap,
    SnapDistance,
    SnapGap,
    NudgeStep,
}

#[derive(Debug, Clone, Copy, PartialEq, Eq, Structural)]
pub enum BtnAction {
    UndoLast,
    NextStep,
    BackToSelect,
    Cancel,
    DeleteSelected,
    Save,
    Discard,
}

/// The number of a color: red in the low byte, then green, then blue.
pub open spec fn color_number(r: u8, g: u8, b: u8) -> u32 {
    (r + g * 0x100 + b * 0x1_0000) as u32
}

/// A color as the machine's drawing functions take it.
pub fn rgb(r: u8, g: u8, b: u8) -> (c: u32)
    ensures
        c == color_number(r, g, b),
{
    r as u32 + g as u32 * 0x100 + b as u32 * 0x1_0000
}

/// Whether a point lies in a rectangle, its edges and all.
pub open spec fn in_box(x: int, y: int, bx: int, by: int, bw: int, bh: int) -> bool {
    bx <= x <= bx + bw && by <= y <= by + bh
}

// ===== Laws =====

/// A color is one number: red counts once, green 256 times, blue 65536 times.
pub proof fn law_color_number(r: u8, g: u8, b: u8)
    ensures
        color_number(r, g, b) == r + 256 * g + 65536 * b,
{
}

/// A point is in a rectangle from its left and top edge to its right and lower
/// edge, both with it.
pub proof fn law_edges_are_inside(x: int, y: int, bx: int, by: int, bw: int, bh: int)
    ensures
        in_box(x, y, bx, by, bw, bh) == (x >= bx && y >= by && x - bx <= bw && y - by <= bh),
{
}

/// The properties that are not numbers are the colors, the content and the file
/// name; every property has its label.
pub proof fn law_properties(p: ElemProp)
    ensures
        numeric(p) == !(p == ElemProp::BorderColor || p == ElemProp::BgColor || p
            == ElemProp::Content || p == ElemProp::TextColor || p == ElemProp::PngPath),
        label_key(ElemProp::Opacity) == "opacity"@,
        label_key(ElemProp::ZOrder) == "z_order"@,
        label_key(ElemProp::Rotate) == "rotate"@,
        label_key(ElemProp::BorderColor) == "border_color"@,
        label_key(ElemProp::BorderWidth) == "border_width"@,
        label_key(ElemProp::CornerRadius) == "corner_radius"@,
        label_key(ElemProp::BgColor) == "bg_color"@,
        label_key(ElemProp::Content) == "content"@,
        label_key(ElemProp::FontSize) == "font_size"@,
        label_key(ElemProp::TextColor) == "text_color"@,
        label_key(ElemProp::PngPath) == "png_path"@,
{
}

} // verus!
