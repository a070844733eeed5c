//! Colors written as "#RRGGBB".

use vstd::prelude::*;

use crate::text;
use crate::text::{chars_of, strip_leading_chars};

verus! {

/// The value of a hexadecimal digit.
pub open spec fn hex_value(c: char) -> Option<int> {
    if '0' <= c && c <= '9' {
        Some(c as int - '0' as int)
    } else if 'a' <= c && c <= 'f' {
        Some(c as int - 'a' as int + 10)
    } else if 'A' <= c && c <= 'F' {
        Some(c as int - 'A' as int + 10)
    } else {
        None
    }
}

/// The number that two characters write in hexadecimal: two digits, or a plus
/// sign and a digit.
pub open spec fn hex_pair(a: char, b: char) -> Option<int> {
    match (hex_value(a), hex_value(b)) {
        (Some(x), Some(y)) => Some(16 * x + y),
        (None, Some(y)) => if a == '+' { Some(y) } else { None },
        _ => None,
    }
}

/// What the first two bytes of a text write, and the text behind them; nothing
/// where a character lies across their end.
pub open spec fn first_pair(s: Seq<char>) -> Option<(Option<int>, Seq<char>)> {
    if s.len() >= 1 && text::utf8_width(s[0]) == 2 {
        Some((None, s.skip(1)))
    } else if s.len() >= 2 && text::utf8_width(s[0]) == 1 && text::utf8_width(s[1]) == 1 {
        Some((hex_pair(s[0], s[1]), s.skip(2)))
    } else {
        None
    }
}

/// What the three pairs of bytes of a text write; nothing where a character
/// lies across two of them.
pub open spec fn three_pairs(s: Seq<char>) -> Option<(Option<int>, Option<int>, Option<int>)> {
    match first_pair(s) {
        Some((a, s1)) => match first_pair(s1) {
            Some((b, s2)) => match first_pair(s2) {
                Some((c, s3)) => Some((a, b, c)),
                None => None,
            },
            None => None,
        },
        None => None,
    }
}

/// The digits of a color: what follows the leading number signs.
pub open spec fn color_digits(s: Seq<char>) -> Seq<char> {
    text::strip_leading(s, '#')
}

/// Whether a text can be read as a color: where its digits take six bytes, no
/// character lies across two of the three pairs.
pub open spec fn is_color_text(s: Seq<char>) -> bool {
    text::utf8_size(color_digits(s)) == 6 ==> three_pairs(color_digits(s)) is Some
}

/// A number, or what stands in for it.
pub open spec fn or_else(v: Option<int>, other: u8) -> u8 {
    match v {
        Some(x) => x as u8,
        None => other,
    }
}

/// The color (red, green, blue) that a text writes. A pair that is no number
/// counts as `other`, and so does every pair where the digits do not take six
/// bytes.
pub open spec fn color_of(s: Seq<char>, other: u8) -> (u8, u8, u8) {
    let d = color_digits(s);
    if text::utf8_size(d) == 6 {
        match three_pairs(d) {
            Some((r, g, b)) => (or_else(r, other), or_else(g, other), or_else(b, other)),
            None => (other, other, other),
        }
    } else {
        (other, other, other)
    }
}

fn hex_digit(c: char) -> (r: Option<u8>)
    ensures
        match r {
            Some(v) => hex_value(c) == Some(v as int) && v < 16,
            None => hex_value(c) is None,
        },
{
    if '0' <= c && c <= '9' {
        Some(c as u8 - 48)
    } else if 'a' <= c && c <= 'f' {
        Some(c as u8 - 97 + 10)
    } else if 'A' <= c && c <= 'F' {
        Some(c as u8 - 65 + 10)
    } else {
        None
    }
}

fn pair_value(a: char, b: char) -> (r: Option<u8>)
    ensures
        match r {
            Some(v) => hex_pair(a, b) == Some(v as int),
            None => hex_pair(a, b) is None,
        },
{
    match (hex_digit(a), hex_digit(b)) {
        (Some(x), Some(y)) => Some(x * 16 + y),
        (None, Some(y)) => if a == '+' { Some(y) } else { None },
        _ => None,
    }
}

fn width_class(c: char) -> (r: u8)
    ensures
        r == text::utf8_width(c),
        1 <= r <= 4,
{
    let u: u32 = c as u32;
    if u < 0x80 {
        1
    } else if u < 0x800 {
        2
    } else if u < 0x10000 {
        3
    } else {
        4
    }
}

/// Reads the pair at position `at`; returns its value and the position behind
/// it.
fn read_pair(s: &Vec<char>, at: usize) -> (r: Option<(Option<u8>, usize)>)
    requires
        at <= s@.len(),
    ensures
        match r {
            Some((v, next)) => at <= next <= s@.len() && ({
                match first_pair(s@.skip(at as int)) {
                    Some((w, rest)) => rest == s@.skip(next as int) && (match v {
                        Some(x) => w == Some(x as int),
                        None => w is None,
                    }),
                    None => false,
                }
            }),
            None => first_pair(s@.skip(at as int)) is None,
        },
{
    let n: usize = s.len();
    if at >= n {
        return None;
    }
    let wa: u8 = width_class(s[at]);
    if wa == 2 {
        assert(s@.skip(at as int).skip(1) =~= s@.skip(at + 1));
        return Some((None, at + 1));
    }
    if n - at >= 2 && wa == 1 && width_class(s[at + 1]) == 1 {
        assert(s@.skip(at as int).skip(2) =~= s@.skip(at + 2));
        return Some((pair_value(s[at], s[at + 1]), at + 2));
    }
    None
}

/// The number of bytes that `s` takes, or seven where it takes more than six.
fn size_up_to_six(s: &Vec<char>) -> (r: u8)
    ensures
        r == (if text::utf8_size(s@) <= 6 { text::utf8_size(s@) } else { 7 }),
{
    let mut i: usize = 0;
    let mut size: u8 = 0;
    assert(s@.skip(0) =~= s@);
    while i < s.len()
        invariant
            i <= s@.len(),
            size <= 6,
            text::utf8_size(s@) == size + text::utf8_size(s@.skip(i as int)),
        decreases s@.len() - i,
    {
        assert(s@.skip(i as int).drop_first() =~= s@.skip(i + 1));
        size = size + width_class(s[i]);
        i = i + 1;
        if size > 6 {
            return 7;
        }
    }
    assert(s@.skip(i as int) =~= Seq::<char>::empty());
    size
}

/// Whether a text can be read as a color.
pub fn reads_as_color(hex: &str) -> (r: bool)
    ensures
        r == is_color_text(hex@),
{
    let s: Vec<char> = chars_of(hex);
    let d: Vec<char> = strip_leading_chars(&s, '#');
    if size_up_to_six(&d) != 6 {
        return true;
    }
    assert(d@.skip(0) =~= d@);
    match read_pair(&d, 0) {
        Some((a, n1)) => match read_pair(&d, n1) {
            Some((b, n2)) => match read_pair(&d, n2) {
                Some((c, n3)) => true,
                None => false,
            },
            None => false,
        },
        None => false,
    }
}

/// Reads "#RRGGBB" into (red, green, blue), with `other` for what is no number.
pub fn read_color(hex: &str, other: u8) -> (r: (u8, u8, u8))
    requires
        is_color_text(hex@),
    ensures
        r == color_of(hex@, other),
{
    let s: Vec<char> = chars_of(hex);
    let d: Vec<char> = strip_leading_chars(&s, '#');
    if size_up_to_six(&d) != 6 {
        return (other, other, other);
    }
    assert(d@.skip(0) =~= d@);
    match read_pair(&d, 0) {
        Some((a, n1)) => match read_pair(&d, n1) {
            Some((b, n2)) => match read_pair(&d, n2) {
                Some((c, n3)) => (some_or(a, other), some_or(b, other), some_or(c, other)),
                None => (other, other, other),
            },
            None => (other, other, other),
        },
        None => (other, other, other),
    }
}

fn some_or(v: Option<u8>, other: u8) -> (r: u8)
    ensures
        r == (match v {
            Some(x) => x,
            None => other,
        }),
{
    match v {
        Some(x) => x,
        None => other,
    }
}

// ===== Laws =====

/// The digits count from zero to nine, and the letters, in either case, from ten
/// to fifteen; no other character counts.
pub proof fn law_hex_digits(c: char)
    ensures
        '0' <= c && c <= '9' ==> hex_value(c) == Some(c as int - 48),
        'a' <= c && c <= 'f' ==> hex_value(c) == Some(c as int - 87),
        'A' <= c && c <= 'F' ==> hex_value(c) == Some(c as int - 55),
        hex_value(c) is Some ==> 0 <= hex_value(c).unwrap() <= 15,
        hex_value(c) is Some == ('0' <= c && c <= '9' || 'a' <= c && c <= 'f' || 'A' <= c && c
            <= 'F'),
{
}

proof fn lemma_six_digits(s: Seq<char>, other: u8)
    requires
        s.len() == 6,
        forall|i: int| 0 <= i < 6 ==> hex_value(#[trigger] s[i]) is Some,
    ensures
        text::utf8_size(s) == 6,
        three_pairs(s) == Some(
            (
                Some(16 * hex_value(s[0]).unwrap() + hex_value(s[1]).unwrap()),
                Some(16 * hex_value(s[2]).unwrap() + hex_value(s[3]).unwrap()),
                Some(16 * hex_value(s[4]).unwrap() + hex_value(s[5]).unwrap()),
            ),
        ),
{
    reveal_with_fuel(text::utf8_size, 7);
    law_hex_digits(s[0]);
    law_hex_digits(s[1]);
    law_hex_digits(s[2]);
    law_hex_digits(s[3]);
    law_hex_digits(s[4]);
    law_hex_digits(s[5]);
    let s1 = s.skip(2);
    let s2 = s1.skip(2);
    assert(s1[0] == s[2] && s1[1] == s[3] && s2[0] == s[4] && s2[1] == s[5]);
    let d1 = s.drop_first();
    let d2 = d1.drop_first();
    let d3 = d2.drop_first();
    let d4 = d3.drop_first();
    let d5 = d4.drop_first();
    assert(d1[0] == s[1] && d2[0] == s[2] && d3[0] == s[3] && d4[0] == s[4] && d5[0] == s[5]);
    assert(d5.drop_first().len() == 0);
}

/// Six hexadecimal digits write red, green and blue, two digits each and the
/// first of them the higher, with or without number signs before them. Where a
/// text takes up more or less room than six digits, all three are what stands in.
pub proof fn law_colors_are_read(s: Seq<char>, t: Seq<char>, other: u8)
    requires
        s.len() == 6,
        forall|i: int| 0 <= i < 6 ==> hex_value(#[trigger] s[i]) is Some,
    ensures
        ({
            let c = color_of(s, other);
            &&& c.0 == 16 * hex_value(s[0]).unwrap() + hex_value(s[1]).unwrap()
            &&& c.1 == 16 * hex_value(s[2]).unwrap() + hex_value(s[3]).unwrap()
            &&& c.2 == 16 * hex_value(s[4]).unwrap() + hex_value(s[5]).unwrap()
        }),
        color_of(seq!['#'] + t, other) == color_of(t, other),
        t.len() > 0 && t[0] != '#' && text::utf8_size(t) != 6 ==> color_of(t, other) == (
            other,
            other,
            other,
        ),
        color_of(Seq::empty(), other) == (other, other, other),
{
    lemma_six_digits(s, other);
    law_hex_digits(s[0]);
    law_hex_digits(s[1]);
    law_hex_digits(s[2]);
    law_hex_digits(s[3]);
    law_hex_digits(s[4]);
    law_hex_digits(s[5]);
    assert(color_digits(s) == s);
    assert((seq!['#'] + t).drop_first() =~= t);
}

/// A pair that is no number counts as what stands in, and leaves the others as
/// they are; a plus sign before a digit counts as a zero.
pub proof fn law_bad_pairs_stand_alone(a: char, b: char)
    ensures
        hex_value(a) is Some && hex_value(b) is Some ==> hex_pair(a, b) == Some(
            16 * hex_value(a).unwrap() + hex_value(b).unwrap(),
        ),
        hex_value(b) is None ==> hex_pair(a, b) is None,
        hex_value(a) is None && a != '+' ==> hex_pair(a, b) is None,
        hex_value(b) is Some ==> hex_pair('+', b) == hex_pair('0', b),
{
}

} // verus!
