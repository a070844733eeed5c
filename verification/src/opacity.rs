//! Opacity values.
//!
//! An opacity is a single-precision number. The library holds it by its
//! IEEE-754 bit pattern, which it compares and clamps; it does no arithmetic on
//! it.

use vstd::prelude::*;

verus! {

/// An opacity, by the bit pattern of a single-precision number.
#[derive(Clone, Copy, Debug)]
pub struct Opacity {
    pub bits: u32,
}

/// The bit pattern of one.
pub const ONE_BITS: u32 = 0x3f80_0000;

/// The bit pattern of the number with the sign taken off.
pub open spec fn magnitude(bits: u32) -> int {
    if bits >= 0x8000_0000 {
        bits - 0x8000_0000
    } else {
        bits as int
    }
}

/// Whether the pattern stands for no number.
pub open spec fn is_nan(bits: u32) -> bool {
    magnitude(bits) > 0x7f80_0000
}

/// Whether the pattern stands for a number below zero.
pub open spec fn below_zero(bits: u32) -> bool {
    bits > 0x8000_0000 && !is_nan(bits)
}

/// Whether the pattern stands for a number above one. The patterns of the
/// numbers from zero up ascend with the numbers.
pub open spec fn above_one(bits: u32) -> bool {
    ONE_BITS < bits < 0x8000_0000 && !is_nan(bits)
}

/// Whether two patterns stand for equal numbers: the same pattern, or both
/// zeros; never where one stands for no number.
pub open spec fn same_number(a: u32, b: u32) -> bool {
    !is_nan(a) && !is_nan(b) && (a == b || (magnitude(a) == 0 && magnitude(b) == 0))
}

impl Opacity {
    /// Full opacity.
    pub open spec fn spec_one() -> Opacity {
        Opacity { bits: ONE_BITS }
    }

    /// The opacity moved into the range from zero to one. A pattern that
    /// stands for no number is left as it is, and so is negative zero.
    pub open spec fn clamped(self) -> Opacity {
        if below_zero(self.bits) {
            Opacity { bits: 0 }
        } else if above_one(self.bits) {
            Opacity { bits: ONE_BITS }
        } else {
            self
        }
    }

    /// Full opacity.
    pub fn one() -> (r: Opacity)
        ensures
            r == Opacity::spec_one(),
    {
        Opacity { bits: ONE_BITS }
    }

    /// Moves the opacity into the range from zero to one.
    pub fn clamp(self) -> (r: Opacity)
        ensures
            r == self.clamped(),
    {
        let neg: bool = self.bits >= 0x8000_0000;
        let mag: u32 = if neg { self.bits - 0x8000_0000 } else { self.bits };
        if mag > 0x7f80_0000 {
            self
        } else if neg && mag > 0 {
            Opacity { bits: 0 }
        } else if !neg && mag > ONE_BITS {
            Opacity { bits: ONE_BITS }
        } else {
            self
        }
    }
}

impl PartialEq for Opacity {
    fn eq(&self, other: &Opacity) -> (r: bool) {
        let m1: u32 = if self.bits >= 0x8000_0000 { self.bits - 0x8000_0000 } else { self.bits };
        let m2: u32 = if other.bits >= 0x8000_0000 {
            other.bits - 0x8000_0000
        } else {
            other.bits
        };
        m1 <= 0x7f80_0000 && m2 <= 0x7f80_0000 && (self.bits == other.bits || (m1 == 0 && m2 == 0))
    }
}

impl vstd::std_specs::cmp::PartialEqSpecImpl for Opacity {
    open spec fn obeys_eq_spec() -> bool {
        true
    }

    open spec fn eq_spec(&self, other: &Opacity) -> bool {
        same_number(self.bits, other.bits)
    }
}

/// An opacity that may be unset, clamped where it is set.
pub open spec fn clamped_option(o: Option<Opacity>) -> Option<Opacity> {
    match o {
        Some(v) => Some(v.clamped()),
        None => None,
    }
}

pub fn clamp_option(o: Option<Opacity>) -> (r: Option<Opacity>)
    ensures
        r == clamped_option(o),
{
    match o {
        Some(v) => Some(v.clamp()),
        None => None,
    }
}

/// Whether two opacities that may be unset are equal: both unset, or equal
/// numbers.
pub open spec fn same_option(a: Option<Opacity>, b: Option<Opacity>) -> bool {
    match (a, b) {
        (Some(x), Some(y)) => same_number(x.bits, y.bits),
        (None, None) => true,
        _ => false,
    }
}

pub fn same_opacity(a: Option<Opacity>, b: Option<Opacity>) -> (r: bool)
    ensures
        r == same_option(a, b),
{
    match (a, b) {
        (Some(x), Some(y)) => x == y,
        (None, None) => true,
        _ => false,
    }
}

/// Clamping an opacity a second time changes nothing, and a clamped opacity is
/// neither below zero nor above one.
pub proof fn law_clamp_settles(o: Opacity)
    ensures
        o.clamped().clamped() == o.clamped(),
        !below_zero(o.clamped().bits),
        !above_one(o.clamped().bits),
{
}

/// Clamping takes every number below zero to zero and every number above one to
/// one, and leaves the others, the two zeros and what is no number alone. The
/// numbers below zero are the patterns behind that of the negative zero, up to
/// the negative infinity; those above one are the patterns behind that of one, up
/// to the infinity.
pub proof fn law_clamp_takes_to_the_range(o: Opacity)
    ensures
        0x8000_0000 < o.bits <= 0xff80_0000 ==> o.clamped().bits == 0,
        0x3f80_0000 < o.bits <= 0x7f80_0000 ==> o.clamped().bits == 0x3f80_0000,
        o.bits <= 0x3f80_0000 ==> o.clamped() == o,
        o.bits == 0x8000_0000 ==> o.clamped() == o,
        0x7f80_0000 < o.bits < 0x8000_0000 ==> o.clamped() == o,
        0xff80_0000 < o.bits ==> o.clamped() == o,
        clamped_option(Some(o)) == Some(o.clamped()),
        clamped_option(None) is None,
        Opacity::spec_one().bits == 0x3f80_0000,
{
}

/// Numbers are equal where their patterns are; the two zeros are equal too, and
/// what is no number equals nothing. Unset opacities are equal.
pub proof fn law_equal_numbers(a: Opacity, b: Opacity)
    ensures
        a.bits <= 0x7f80_0000 ==> same_number(a.bits, a.bits),
        same_number(0, 0x8000_0000),
        same_number(a.bits, b.bits) == same_number(b.bits, a.bits),
        same_number(a.bits, b.bits) && a.bits != b.bits ==> (a.bits == 0 || a.bits == 0x8000_0000)
            && (b.bits == 0 || b.bits == 0x8000_0000),
        0x7f80_0000 < a.bits < 0x8000_0000 || 0xff80_0000 < a.bits ==> !same_number(
            a.bits,
            b.bits,
        ),
        0x8000_0000 <= a.bits <= 0xff80_0000 ==> same_number(a.bits, a.bits),
        same_option(Some(a), Some(b)) == same_number(a.bits, b.bits),
        same_option(None, None),
        !same_option(Some(a), None) && !same_option(None, Some(a)),
{
}

} // verus!
