//! Integer helpers: the mathematical operations that the contracts speak of,
//! and their executable counterparts on `i32`.

use vstd::prelude::*;

verus! {

/// The larger of two integers.
pub open spec fn int_max(a: int, b: int) -> int {
    if a >= b { a } else { b }
}

/// The smaller of two integers.
pub open spec fn int_min(a: int, b: int) -> int {
    if a <= b { a } else { b }
}

/// `v` moved into the closed range `lo..=hi`.
pub open spec fn int_clamp(v: int, lo: int, hi: int) -> int {
    if v < lo { lo } else if v > hi { hi } else { v }
}

/// The distance of `v` from zero.
pub open spec fn int_abs(v: int) -> int {
    if v < 0 { -v } else { v }
}

/// Half of `v`, rounded toward zero.
pub open spec fn half(v: int) -> int {
    if v < 0 { -((-v) / 2) } else { v / 2 }
}

/// `a` divided by `b`, rounded toward zero.
pub open spec fn quotient(a: int, b: int) -> int {
    if a < 0 { -((-a) / b) } else { a / b }
}

/// Whether `v` is an `i32`.
pub open spec fn is_i32(v: int) -> bool {
    i32::MIN <= v <= i32::MAX
}

pub fn max_i32(a: i32, b: i32) -> (r: i32)
    ensures
        r == int_max(a as int, b as int),
{
    if a >= b { a } else { b }
}

pub fn min_i32(a: i32, b: i32) -> (r: i32)
    ensures
        r == int_min(a as int, b as int),
{
    if a <= b { a } else { b }
}

pub fn clamp_i32(v: i32, lo: i32, hi: i32) -> (r: i32)
    requires
        lo <= hi,
    ensures
        r == int_clamp(v as int, lo as int, hi as int),
{
    if v < lo { lo } else if v > hi { hi } else { v }
}

pub fn abs_i32(v: i32) -> (r: i32)
    requires
        v > i32::MIN,
    ensures
        r == int_abs(v as int),
{
    if v < 0 { -v } else { v }
}

pub fn half_i32(v: i32) -> (r: i32)
    ensures
        r == half(v as int),
{
    v / 2
}

pub fn max_i64(a: i64, b: i64) -> (r: i64)
    ensures
        r == int_max(a as int, b as int),
{
    if a >= b { a } else { b }
}

pub fn min_i64(a: i64, b: i64) -> (r: i64)
    ensures
        r == int_min(a as int, b as int),
{
    if a <= b { a } else { b }
}

pub fn clamp_i64(v: i64, lo: i64, hi: i64) -> (r: i64)
    requires
        lo <= hi,
    ensures
        r == int_clamp(v as int, lo as int, hi as int),
{
    if v < lo { lo } else if v > hi { hi } else { v }
}

pub fn abs_i64(v: i64) -> (r: i64)
    requires
        v > i64::MIN,
    ensures
        r == int_abs(v as int),
{
    if v < 0 { -v } else { v }
}

pub fn half_i64(v: i64) -> (r: i64)
    ensures
        r == half(v as int),
{
    v / 2
}

/// `a` divided by `b`, rounded toward zero.
pub fn divide(a: i64, b: i64) -> (r: i64)
    requires
        a > i64::MIN,
        b > 0,
    ensures
        r == quotient(a as int, b as int),
{
    if a < 0 {
        let q: i64 = (-a) / b;
        assert(0 <= q <= -a) by (nonlinear_arith)
            requires
                a < 0,
                b > 0,
                q == (-a) / (b as int),
        ;
        -q
    } else {
        a / b
    }
}


/// The angle `deg` brought into `0..360`.
pub fn wrap_degrees(deg: i64) -> (r: i32)
    ensures
        r == deg as int % 360,
        0 <= r < 360,
{
    let r: i64 = deg % 360;
    if r < 0 { (r + 360) as i32 } else { r as i32 }
}

// ===== Laws =====

/// The larger of two numbers is one of them and not below either, the smaller
/// one of them and not above either, and together they are the two.
pub proof fn law_larger_and_smaller(a: int, b: int)
    ensures
        int_max(a, b) >= a && int_max(a, b) >= b,
        int_min(a, b) <= a && int_min(a, b) <= b,
        int_max(a, b) == a || int_max(a, b) == b,
        int_min(a, b) + int_max(a, b) == a + b,
{
}

/// A number moved into a range lies in it, and no number of the range is nearer
/// to the one that was moved.
pub proof fn law_clamp_is_nearest(v: int, lo: int, hi: int, w: int)
    requires
        lo <= w <= hi,
    ensures
        lo <= int_clamp(v, lo, hi) <= hi,
        v <= w ==> v <= int_clamp(v, lo, hi) <= w,
        w <= v ==> w <= int_clamp(v, lo, hi) <= v,
{
}

/// A distance is not below zero, the same for a number and its opposite, and
/// that of a sum is not above the sum of the distances.
pub proof fn law_distance(v: int, w: int)
    ensures
        v >= 0 ==> int_abs(v) == v,
        int_abs(-v) == int_abs(v),
        int_abs(v + w) <= int_abs(v) + int_abs(w),
{
}

/// Half of a number, doubled, is the number or the next one toward zero; a
/// quotient times its divisor misses the number by less than the divisor, and
/// never on the far side. Opposite numbers have opposite halves and quotients.
pub proof fn law_half_and_quotient(a: int, b: int)
    requires
        b > 0,
    ensures
        a >= 0 ==> 0 <= a - 2 * half(a) <= 1,
        half(-a) == -half(a),
        a >= 0 ==> 0 <= a - quotient(a, b) * b < b,
        quotient(-a, b) == -quotient(a, b),
{
    if a >= 0 {
        vstd::arithmetic::div_mod::lemma_fundamental_div_mod(a, b);
        vstd::arithmetic::div_mod::lemma_mod_bound(a, b);
        assert(b * (a / b) == (a / b) * b) by (nonlinear_arith);
    }
    if a == 0 {
        vstd::arithmetic::div_mod::lemma_basic_div(0, b);
    }
}

/// The numbers of the machine reach from -2147483648 to 2147483647.
pub proof fn law_machine_numbers(v: int)
    ensures
        is_i32(v) == (-0x8000_0000 <= v && v < 0x8000_0000),
{
}

} // verus!
