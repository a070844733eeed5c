//! Decimal notation of integers: writing and reading.

use vstd::prelude::*;

use crate::text::{append_chars, chars_of, slice_chars, string_of};

verus! {

/// The decimal digit for `d`.
pub open spec fn digit(d: nat) -> char {
    (48 + d) as char
}

/// The decimal notation of `n`.
pub open spec fn dec(n: nat) -> Seq<char>
    decreases n,
{
    if n < 10 {
        seq![digit(n)]
    } else {
        dec(n / 10).push(digit(n % 10))
    }
}

/// The decimal notation of `v`, with a leading minus sign for negative numbers.
pub open spec fn dec_int(v: int) -> Seq<char> {
    if v < 0 {
        seq!['-'] + dec((-v) as nat)
    } else {
        dec(v as nat)
    }
}

pub open spec fn is_digit(c: char) -> bool {
    '0' <= c && c <= '9'
}

/// Whether `s` is one or more decimal digits.
pub open spec fn all_digits(s: Seq<char>) -> bool {
    s.len() > 0 && forall|i: int| 0 <= i < s.len() ==> is_digit(#[trigger] s[i])
}

/// The number that the digits `s` denote.
pub open spec fn digits_value(s: Seq<char>) -> nat
    decreases s.len(),
{
    if s.len() == 0 {
        0
    } else {
        digits_value(s.drop_last()) * 10 + (s.last() as nat - 48) as nat
    }
}

/// The integer that `s` denotes: digits after an optional sign.
pub open spec fn read_int(s: Seq<char>) -> Option<int> {
    if s.len() > 0 && s[0] == '-' {
        if all_digits(s.drop_first()) {
            Some(-(digits_value(s.drop_first()) as int))
        } else {
            None
        }
    } else {
        match read_nat(s) {
            Some(n) => Some(n as int),
            None => None,
        }
    }
}

/// The natural number that `s` denotes: digits after an optional plus sign.
pub open spec fn read_nat(s: Seq<char>) -> Option<nat> {
    let d = if s.len() > 0 && s[0] == '+' { s.drop_first() } else { s };
    if all_digits(d) {
        Some(digits_value(d))
    } else {
        None
    }
}

/// The `i32` that `s` denotes, if it denotes one.
pub open spec fn read_i32(s: Seq<char>) -> Option<i32> {
    match read_int(s) {
        Some(v) => if i32::MIN <= v <= i32::MAX { Some(v as i32) } else { None },
        None => None,
    }
}

/// The `u32` that `s` denotes, if it denotes one.
pub open spec fn read_u32(s: Seq<char>) -> Option<u32> {
    match read_nat(s) {
        Some(v) => if v <= u32::MAX { Some(v as u32) } else { None },
        None => None,
    }
}

fn digit_char(d: u8) -> (r: char)
    requires
        d < 10,
    ensures
        r == digit(d as nat),
{
    (48 + d) as char
}

fn dec_chars(n: u64) -> (r: Vec<char>)
    ensures
        r@ == dec(n as nat),
    decreases n,
{
    let mut v: Vec<char> = Vec::new();
    if n >= 10 {
        v = dec_chars(n / 10);
    }
    v.push(digit_char((n % 10) as u8));
    v
}

/// The decimal notation of an integer.
pub fn decimal(v: i64) -> (r: String)
    requires
        v > i64::MIN,
    ensures
        r@ == dec_int(v as int),
{
    if v < 0 {
        let d: Vec<char> = dec_chars((-v) as u64);
        let mut r: Vec<char> = Vec::new();
        r.push('-');
        append_chars(&mut r, &d);
        assert(r@ =~= seq!['-'] + d@);
        string_of(&r)
    } else {
        let d: Vec<char> = dec_chars(v as u64);
        string_of(&d)
    }
}

/// The value of the digits `s`, or `None` where `s` is not a run of digits or
/// is above `limit`.
fn digits_to_u64(s: &Vec<char>, limit: u64) -> (r: Option<u64>)
    requires
        limit <= 0x1_0000_0000,
    ensures
        r == (if all_digits(s@) && digits_value(s@) <= limit {
            Some(digits_value(s@) as u64)
        } else {
            None
        }),
{
    if s.len() == 0 {
        return None;
    }
    let mut v: u64 = 0;
    let mut big: bool = false;
    for i in 0..s.len()
        invariant
            limit <= 0x1_0000_0000,
            forall|j: int| 0 <= j < i ==> is_digit(#[trigger] s@[j]),
            big ==> digits_value(s@.take(i as int)) > limit,
            !big ==> v == digits_value(s@.take(i as int)) && v <= limit,
    {
        let c: char = s[i];
        if !('0' <= c && c <= '9') {
            return None;
        }
        assert(s@.take(i + 1).drop_last() =~= s@.take(i as int));
        if !big {
            v = v * 10 + (c as u64 - 48);
            if v > limit {
                big = true;
            }
        }
    }
    assert(s@.take(s@.len() as int) =~= s@);
    if big {
        None
    } else {
        Some(v)
    }
}

/// Reads an `i32` as `str::parse` does.
pub fn parse_i32(text: &str) -> (r: Option<i32>)
    ensures
        r == read_i32(text@),
{
    let s: Vec<char> = chars_of(text);
    if s.len() > 0 && s[0] == '-' {
        let d: Vec<char> = slice_chars(&s, 1, s.len());
        assert(d@ =~= s@.drop_first());
        match digits_to_u64(&d, 0x8000_0000) {
            Some(v) => Some((0 - (v as i64)) as i32),
            None => None,
        }
    } else {
        let d: Vec<char> = unsigned_part(&s);
        match digits_to_u64(&d, 0x7fff_ffff) {
            Some(v) => Some(v as i32),
            None => None,
        }
    }
}

/// Reads a `u32` as `str::parse` does.
pub fn parse_u32(text: &str) -> (r: Option<u32>)
    ensures
        r == read_u32(text@),
{
    let s: Vec<char> = chars_of(text);
    let d: Vec<char> = unsigned_part(&s);
    match digits_to_u64(&d, 0xffff_ffff) {
        Some(v) => Some(v as u32),
        None => None,
    }
}

fn unsigned_part(s: &Vec<char>) -> (r: Vec<char>)
    ensures
        r@ == (if s@.len() > 0 && s@[0] == '+' { s@.drop_first() } else { s@ }),
{
    let from: usize = if s.len() > 0 && s[0] == '+' { 1 } else { 0 };
    let r: Vec<char> = slice_chars(s, from, s.len());
    assert(r@ =~= (if s@.len() > 0 && s@[0] == '+' { s@.drop_first() } else { s@ }));
    r
}

// ===== Reading back what was written =====

proof fn lemma_dec_digits(n: nat)
    ensures
        all_digits(dec(n)),
        digits_value(dec(n)) == n,
    decreases n,
{
    if n < 10 {
        assert(dec(n).drop_last() =~= Seq::<char>::empty());
        assert(digits_value(Seq::<char>::empty()) == 0);
    } else {
        lemma_dec_digits(n / 10);
        assert(dec(n).drop_last() =~= dec(n / 10));
    }
}

/// Every integer reads back from its decimal notation.
pub proof fn law_decimal_reads_back(v: i32)
    ensures
        read_i32(dec_int(v as int)) == Some(v),
{
    if v < 0 {
        lemma_dec_digits((-v) as nat);
        assert(dec_int(v as int).drop_first() =~= dec((-v) as nat));
    } else {
        lemma_dec_digits(v as nat);
        assert(is_digit(dec(v as nat)[0]));
    }
}

/// The decimal notation of a number without a sign reads back as that number.
pub proof fn law_unsigned_reads_back(v: u32)
    ensures
        read_u32(dec_int(v as int)) == Some(v),
{
    lemma_dec_digits(v as nat);
    assert(is_digit(dec(v as nat)[0]));
}

/// Decimal notation: a number below ten is its digit, and a digit behind a number
/// makes ten times the number and the digit. A minus sign stands before a number
/// below zero.
pub proof fn law_decimal_notation(n: nat, d: nat)
    requires
        d < 10,
    ensures
        dec(d).len() == 1,
        dec(d)[0] as int == '0' as int + d,
        n > 0 ==> dec(10 * n + d) == dec(n) + dec(d),
        dec_int(n as int) == dec(n),
        n > 0 ==> dec_int(-(n as int)) == seq!['-'] + dec(n),
{
    assert((10 * n + d) / 10 == n && (10 * n + d) % 10 == d);
    if n > 0 {
        assert(dec(n).push(digit(d)) =~= dec(n) + dec(d));
    }
}

/// Reading is the other way around: the digits count tens, one sign may stand
/// before them, and nothing else may stand anywhere.
pub proof fn law_numbers_read(s: Seq<char>, c: char)
    requires
        s.len() > 0,
        forall|i: int| 0 <= i < s.len() ==> '0' <= #[trigger] s[i] && s[i] <= '9',
    ensures
        read_nat(s) is Some,
        '0' <= c && c <= '9' ==> read_nat(s.push(c)) == Some(
            (10 * read_nat(s).unwrap() + (c as int - '0' as int)) as nat,
        ),
        !('0' <= c && c <= '9') ==> read_nat(s.push(c)) is None && read_int(s.push(c)) is None,
        read_nat(seq!['+'] + s) == read_nat(s),
        read_nat(seq!['-'] + s) is None,
        read_int(s) == Some(read_nat(s).unwrap() as int),
        read_int(seq!['-'] + s) == Some(-(read_nat(s).unwrap() as int)),
        read_int(seq!['+'] + s) == read_int(s),
        read_nat(Seq::empty()) is None && read_int(Seq::empty()) is None,
{
    assert(all_digits(s));
    let t = s.push(c);
    assert(t.drop_last() =~= s);
    assert(t[0] == s[0]);
    assert(t[t.len() - 1] == c);
    if '0' <= c && c <= '9' {
        assert(all_digits(t));
    } else {
        assert(!is_digit(t[t.len() - 1]));
        assert(!all_digits(t));
    }
    assert((seq!['+'] + s).drop_first() =~= s);
    assert((seq!['-'] + s).drop_first() =~= s);
    assert(!is_digit((seq!['-'] + s)[0]));
    assert((seq!['+'] + s)[0] == '+');
}

/// A number of the machine is read where the text writes one in its range, and
/// not elsewhere.
pub proof fn law_machine_ranges(s: Seq<char>)
    ensures
        match read_i32(s) {
            Some(v) => read_int(s) == Some(v as int),
            None => read_int(s) is None || read_int(s).unwrap() < -0x8000_0000 || read_int(s).unwrap()
                > 0x7fff_ffff,
        },
        match read_u32(s) {
            Some(v) => read_nat(s) == Some(v as nat),
            None => read_nat(s) is None || read_nat(s).unwrap() > 0xffff_ffff,
        },
{
}

} // verus!
