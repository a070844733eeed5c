//! Text as sequences of characters: trimming, splitting, decimal numbers, and
//! lists of names.

use vstd::prelude::*;

verus! {

/// `String::push` appends one character at the end and changes nothing else.
pub assume_specification[ String::push ](s: &mut String, c: char)
    ensures
        final(s)@ == old(s)@.push(c),
;

// ===== Characters and strings =====

/// The characters of a string, in order.
pub fn chars_of(s: &str) -> (r: Vec<char>)
    ensures
        r@ == s@,
{
    let mut r: Vec<char> = Vec::new();
    for c in it: s.chars()
        invariant
            r@ == it.seq().take(it.index() as int),
            it.seq() == s@,
    {
        r.push(c);
    }
    r
}

/// The string made of the given characters.
pub fn string_of(v: &Vec<char>) -> (r: String)
    ensures
        r@ == v@,
{
    let mut r: String = String::new();
    for i in 0..v.len()
        invariant
            r@ == v@.take(i as int),
    {
        r.push(v[i]);
        assert(v@.take(i as int).push(v@[i as int]) =~= v@.take(i + 1));
    }
    assert(v@.take(v@.len() as int) =~= v@);
    r
}

/// An owned copy of a string slice.
pub fn owned(s: &str) -> (r: String)
    ensures
        r@ == s@,
{
    s.to_owned()
}

/// Whether two strings hold the same characters.
pub fn same_text(a: &str, b: &str) -> (r: bool)
    ensures
        r == (a@ == b@),
{
    a.to_owned() == b.to_owned()
}

/// The characters `a..b` of `s`.
pub fn slice_chars(s: &Vec<char>, a: usize, b: usize) -> (r: Vec<char>)
    requires
        a <= b <= s@.len(),
    ensures
        r@ == s@.subrange(a as int, b as int),
{
    let mut r: Vec<char> = Vec::new();
    for i in a..b
        invariant
            a <= b <= s@.len(),
            r@ == s@.subrange(a as int, i as int),
    {
        r.push(s[i]);
        assert(s@.subrange(a as int, i as int).push(s@[i as int]) =~= s@.subrange(a as int, i + 1));
    }
    r
}

/// Appends `b` to `a`.
pub fn append_chars(a: &mut Vec<char>, b: &Vec<char>)
    ensures
        final(a)@ == old(a)@ + b@,
{
    for i in 0..b.len()
        invariant
            a@ == old(a)@ + b@.take(i as int),
    {
        a.push(b[i]);
        assert((old(a)@ + b@.take(i as int)).push(b@[i as int]) =~= old(a)@ + b@.take(i + 1));
    }
    assert(b@.take(b@.len() as int) =~= b@);
}

/// Appends the characters of `b` to `a`.
pub fn append_text(a: &mut Vec<char>, b: &str)
    ensures
        final(a)@ == old(a)@ + b@,
{
    let v: Vec<char> = chars_of(b);
    append_chars(a, &v);
}

/// Whether two character lists are equal.
pub fn same_chars(a: &Vec<char>, b: &Vec<char>) -> (r: bool)
    ensures
        r == (a@ == b@),
{
    if a.len() != b.len() {
        return false;
    }
    for i in 0..a.len()
        invariant
            a@.len() == b@.len(),
            forall|j: int| 0 <= j < i ==> a@[j] == b@[j],
    {
        if a[i] != b[i] {
            return false;
        }
    }
    assert(a@ =~= b@);
    true
}

/// Whether a character list spells `b`.
pub fn chars_are(a: &Vec<char>, b: &str) -> (r: bool)
    ensures
        r == (a@ == b@),
{
    let v: Vec<char> = chars_of(b);
    same_chars(a, &v)
}

/// The number of bytes that `c` takes in UTF-8.
pub open spec fn utf8_width(c: char) -> nat {
    if (c as u32) < 0x80 {
        1
    } else if (c as u32) < 0x800 {
        2
    } else if (c as u32) < 0x10000 {
        3
    } else {
        4
    }
}

/// The number of bytes that `s` takes in UTF-8.
pub open spec fn utf8_size(s: Seq<char>) -> nat
    decreases s.len(),
{
    if s.len() == 0 {
        0
    } else {
        utf8_width(s[0]) + utf8_size(s.drop_first())
    }
}

// ===== White space =====

/// The characters with the Unicode property `White_Space`.
pub open spec fn is_white(c: char) -> bool {
    let u = c as u32;
    ||| 0x09 <= u <= 0x0d
    ||| u == 0x20
    ||| u == 0x85
    ||| u == 0xa0
    ||| u == 0x1680
    ||| 0x2000 <= u <= 0x200a
    ||| u == 0x2028
    ||| u == 0x2029
    ||| u == 0x202f
    ||| u == 0x205f
    ||| u == 0x3000
}

pub fn white(c: char) -> (r: bool)
    ensures
        r == is_white(c),
{
    let u: u32 = c as u32;
    (0x09 <= u && u <= 0x0d) || u == 0x20 || u == 0x85 || u == 0xa0 || u == 0x1680 || (0x2000 <= u
        && u <= 0x200a) || u == 0x2028 || u == 0x2029 || u == 0x202f || u == 0x205f || u == 0x3000
}

/// `s` without its leading white space.
pub open spec fn trim_start(s: Seq<char>) -> Seq<char>
    decreases s.len(),
{
    if s.len() > 0 && is_white(s[0]) {
        trim_start(s.drop_first())
    } else {
        s
    }
}

/// `s` without its trailing white space.
pub open spec fn trim_end(s: Seq<char>) -> Seq<char>
    decreases s.len(),
{
    if s.len() > 0 && is_white(s.last()) {
        trim_end(s.drop_last())
    } else {
        s
    }
}

/// `s` without white space at either end.
pub open spec fn trim(s: Seq<char>) -> Seq<char> {
    trim_end(trim_start(s))
}

/// `s` without its leading `c`s.
pub open spec fn strip_leading(s: Seq<char>, c: char) -> Seq<char>
    decreases s.len(),
{
    if s.len() > 0 && s[0] == c {
        strip_leading(s.drop_first(), c)
    } else {
        s
    }
}

pub fn trim_start_chars(s: &Vec<char>) -> (r: Vec<char>)
    ensures
        r@ == trim_start(s@),
{
    let mut i: usize = 0;
    assert(s@.skip(0) =~= s@);
    while i < s.len() && white(s[i])
        invariant
            i <= s@.len(),
            trim_start(s@) == trim_start(s@.skip(i as int)),
        decreases s@.len() - i,
    {
        assert(s@.skip(i as int).drop_first() =~= s@.skip(i + 1));
        i = i + 1;
    }
    let r: Vec<char> = slice_chars(s, i, s.len());
    assert(r@ =~= s@.skip(i as int));
    r
}

pub fn trim_end_chars(s: &Vec<char>) -> (r: Vec<char>)
    ensures
        r@ == trim_end(s@),
{
    let mut n: usize = s.len();
    assert(s@.take(n as int) =~= s@);
    while n > 0 && white(s[n - 1])
        invariant
            n <= s@.len(),
            trim_end(s@) == trim_end(s@.take(n as int)),
        decreases n,
    {
        assert(s@.take(n as int).drop_last() =~= s@.take(n - 1));
        n = n - 1;
    }
    let r: Vec<char> = slice_chars(s, 0, n);
    assert(r@ =~= s@.take(n as int));
    r
}

pub fn trim_chars(s: &Vec<char>) -> (r: Vec<char>)
    ensures
        r@ == trim(s@),
{
    let t: Vec<char> = trim_start_chars(s);
    trim_end_chars(&t)
}

pub fn strip_leading_chars(s: &Vec<char>, c: char) -> (r: Vec<char>)
    ensures
        r@ == strip_leading(s@, c),
{
    let mut i: usize = 0;
    assert(s@.skip(0) =~= s@);
    while i < s.len() && s[i] == c
        invariant
            i <= s@.len(),
            strip_leading(s@, c) == strip_leading(s@.skip(i as int), c),
        decreases s@.len() - i,
    {
        assert(s@.skip(i as int).drop_first() =~= s@.skip(i + 1));
        i = i + 1;
    }
    let r: Vec<char> = slice_chars(s, i, s.len());
    assert(r@ =~= s@.skip(i as int));
    r
}

// ===== Prefixes and suffixes =====

/// Whether `s` begins with `p`.
pub open spec fn starts_with(s: Seq<char>, p: Seq<char>) -> bool {
    p.len() <= s.len() && s.take(p.len() as int) == p
}

/// Whether `s` ends with `p`.
pub open spec fn ends_with(s: Seq<char>, p: Seq<char>) -> bool {
    p.len() <= s.len() && s.skip(s.len() - p.len()) == p
}

/// `s` with the suffix `p` removed as often as it occurs at the end.
pub open spec fn strip_trailing(s: Seq<char>, p: Seq<char>) -> Seq<char>
    decreases s.len(),
{
    if p.len() > 0 && ends_with(s, p) {
        strip_trailing(s.take(s.len() - p.len()), p)
    } else {
        s
    }
}

/// `s` with the prefix `p` removed as often as it occurs at the beginning.
pub open spec fn strip_prefixes(s: Seq<char>, p: Seq<char>) -> Seq<char>
    decreases s.len(),
{
    if p.len() > 0 && starts_with(s, p) {
        strip_prefixes(s.skip(p.len() as int), p)
    } else {
        s
    }
}

pub fn chars_start_with(s: &Vec<char>, p: &Vec<char>) -> (r: bool)
    ensures
        r == starts_with(s@, p@),
{
    if p.len() > s.len() {
        return false;
    }
    let head: Vec<char> = slice_chars(s, 0, p.len());
    assert(head@ =~= s@.take(p@.len() as int));
    same_chars(&head, p)
}

pub fn chars_end_with(s: &Vec<char>, p: &Vec<char>) -> (r: bool)
    ensures
        r == ends_with(s@, p@),
{
    if p.len() > s.len() {
        return false;
    }
    let tail: Vec<char> = slice_chars(s, s.len() - p.len(), s.len());
    assert(tail@ =~= s@.skip(s@.len() - p@.len()));
    same_chars(&tail, p)
}

pub fn strip_trailing_chars(s: &Vec<char>, p: &Vec<char>) -> (r: Vec<char>)
    ensures
        r@ == strip_trailing(s@, p@),
    decreases s@.len(),
{
    if p.len() > 0 && chars_end_with(s, p) {
        let head: Vec<char> = slice_chars(s, 0, s.len() - p.len());
        assert(head@ =~= s@.take(s@.len() - p@.len()));
        strip_trailing_chars(&head, p)
    } else {
        slice_all(s)
    }
}

pub fn strip_prefixes_chars(s: &Vec<char>, p: &Vec<char>) -> (r: Vec<char>)
    ensures
        r@ == strip_prefixes(s@, p@),
    decreases s@.len(),
{
    if p.len() > 0 && chars_start_with(s, p) {
        let tail: Vec<char> = slice_chars(s, p.len(), s.len());
        assert(tail@ =~= s@.skip(p@.len() as int));
        strip_prefixes_chars(&tail, p)
    } else {
        slice_all(s)
    }
}

/// A copy of `s`.
pub fn slice_all(s: &Vec<char>) -> (r: Vec<char>)
    ensures
        r@ == s@,
{
    let r: Vec<char> = slice_chars(s, 0, s.len());
    assert(r@ =~= s@);
    r
}

/// `c` with an ASCII upper-case letter turned into its lower-case form.
pub open spec fn lower(c: char) -> char {
    if 'A' <= c && c <= 'Z' {
        (c as u32 + 32) as char
    } else {
        c
    }
}

/// `c` with an ASCII lower-case letter turned into its upper-case form.
pub open spec fn upper(c: char) -> char {
    if 'a' <= c && c <= 'z' {
        (c as u32 - 32) as char
    } else {
        c
    }
}

/// Whether `s` ends with ".yaml", in upper or lower case.
pub open spec fn is_yaml_name(s: Seq<char>) -> bool {
    ends_with(s.map_values(|c: char| lower(c)), ".yaml"@)
}

pub fn lower_char(c: char) -> (r: char)
    ensures
        r == lower(c),
{
    if 'A' <= c && c <= 'Z' {
        (c as u8 + 32) as char
    } else {
        c
    }
}

pub fn upper_char(c: char) -> (r: char)
    ensures
        r == upper(c),
{
    if 'a' <= c && c <= 'z' {
        (c as u8 - 32) as char
    } else {
        c
    }
}

pub fn yaml_name(s: &str) -> (r: bool)
    ensures
        r == is_yaml_name(s@),
{
    let v: Vec<char> = chars_of(s);
    let mut low: Vec<char> = Vec::new();
    for i in 0..v.len()
        invariant
            low@ == v@.take(i as int).map_values(|c: char| lower(c)),
    {
        low.push(lower_char(v[i]));
        assert(low@ =~= v@.take(i + 1).map_values(|c: char| lower(c)));
    }
    assert(v@.take(v@.len() as int) =~= v@);
    let p: Vec<char> = chars_of(".yaml");
    chars_end_with(&low, &p)
}

/// A text without its last character.
pub open spec fn cut(s: Seq<char>) -> Seq<char> {
    if s.len() > 0 {
        s.drop_last()
    } else {
        s
    }
}

/// A text without its last character.
pub fn cut_last(s: &str) -> (r: String)
    ensures
        r@ == cut(s@),
{
    let v: Vec<char> = chars_of(s);
    if v.len() == 0 {
        return string_of(&v);
    }
    let c: Vec<char> = slice_chars(&v, 0, v.len() - 1);
    assert(c@ =~= s@.drop_last());
    string_of(&c)
}

// ===== Laws =====

pub proof fn lemma_strip_trailing(s: Seq<char>, p: Seq<char>)
    ensures
        strip_trailing(s, p).len() <= s.len(),
        s.take(strip_trailing(s, p).len() as int) == strip_trailing(s, p),
    decreases s.len(),
{
    if p.len() > 0 && ends_with(s, p) {
        let t = s.take(s.len() - p.len());
        lemma_strip_trailing(t, p);
        let n = strip_trailing(t, p).len() as int;
        assert(s.take(n) =~= t.take(n));
    } else {
        assert(s.take(s.len() as int) =~= s);
    }
}

/// A suffix is taken off as often as it stands at the end: once more where one
/// more stands there, and not at all from a text that does not end with it.
/// The same holds of a prefix at the beginning.
pub proof fn law_affixes_come_off(s: Seq<char>, p: Seq<char>)
    requires
        p.len() > 0,
    ensures
        strip_trailing(s + p, p) == strip_trailing(s, p),
        strip_prefixes(p + s, p) == strip_prefixes(s, p),
        (forall|t: Seq<char>| #[trigger] (t + p) != s) ==> strip_trailing(s, p) == s,
        (forall|t: Seq<char>| #[trigger] (p + t) != s) ==> strip_prefixes(s, p) == s,
{
    assert((s + p).skip(s.len() as int) =~= p);
    assert((s + p).take(s.len() as int) =~= s);
    assert((p + s).take(p.len() as int) =~= p);
    assert((p + s).skip(p.len() as int) =~= s);
    if ends_with(s, p) {
        assert(s.take(s.len() - p.len()) + p =~= s);
    }
    if starts_with(s, p) {
        assert(p + s.skip(p.len() as int) =~= s);
    }
}

/// A text begins with each of its beginnings and ends with each of its ends, and
/// with nothing else.
pub proof fn law_beginnings_and_ends(s: Seq<char>, p: Seq<char>)
    ensures
        starts_with(p + s, p),
        ends_with(s + p, p),
        starts_with(s, p) ==> exists|t: Seq<char>| #[trigger] (p + t) == s,
        ends_with(s, p) ==> exists|t: Seq<char>| #[trigger] (t + p) == s,
{
    assert((s + p).skip(s.len() as int) =~= p);
    assert((p + s).take(p.len() as int) =~= p);
    if ends_with(s, p) {
        assert(s.take(s.len() - p.len()) + p =~= s);
    }
    if starts_with(s, p) {
        assert(p + s.skip(p.len() as int) =~= s);
    }
}

proof fn lemma_trim_end(s: Seq<char>, c: char)
    ensures
        is_white(c) ==> trim_end(s.push(c)) == trim_end(s),
        !is_white(c) ==> trim_end(s.push(c)) == s.push(c),
{
    assert(s.push(c).drop_last() =~= s);
}

/// Trimming takes white space off both ends, one character after the other, and
/// stops at the first that is none: a text between two of those stays.
pub proof fn law_trim_takes_white_off(s: Seq<char>, c: char, d: char)
    ensures
        is_white(c) ==> trim_start(seq![c] + s) == trim_start(s),
        !is_white(c) ==> trim_start(seq![c] + s) == seq![c] + s,
        is_white(d) ==> trim_end(s.push(d)) == trim_end(s),
        !is_white(d) ==> trim_end(s.push(d)) == s.push(d),
        is_white(c) ==> trim(seq![c] + s) == trim(s),
        !is_white(c) && !is_white(d) ==> trim((seq![c] + s).push(d)) == (seq![c] + s).push(d),
        trim(Seq::<char>::empty()).len() == 0,
{
    assert((seq![c] + s).drop_first() =~= s);
    lemma_trim_end(s, d);
    lemma_trim_end(seq![c] + s, d);
    let t = (seq![c] + s).push(d);
    assert(t[0] == c);
}

/// White space is what Unicode says it is: tabs and line ends, the space, and
/// the spaces and separators outside of ASCII.
pub proof fn law_white_space(c: char)
    ensures
        is_white(' ') && is_white('\t') && is_white('\n') && is_white('\r'),
        (c as u32) < 0x80 ==> is_white(c) == (c == ' ' || '\t' <= c <= '\r'),
        is_white('\u{3000}') && is_white('\u{A0}') && is_white('\u{2028}'),
        !is_white('\u{200B}') && !is_white('\u{FEFF}'),
{
}

/// Leading characters come off one after the other.
pub proof fn law_leading_come_off(s: Seq<char>, c: char, d: char)
    ensures
        strip_leading(seq![c] + s, c) == strip_leading(s, c),
        d != c ==> strip_leading(seq![d] + s, c) == seq![d] + s,
        strip_leading(Seq::<char>::empty(), c).len() == 0,
{
    assert((seq![c] + s).drop_first() =~= s);
}

/// A text takes as many bytes as its parts together, and each character one to
/// four of them.
pub proof fn law_sizes_add_up(s: Seq<char>, t: Seq<char>, c: char)
    ensures
        utf8_size(s + t) == utf8_size(s) + utf8_size(t),
        utf8_size(seq![c]) == (if (c as u32) <= 0x7f {
            1nat
        } else if (c as u32) <= 0x7ff {
            2
        } else if (c as u32) <= 0xffff {
            3
        } else {
            4
        }),
    decreases s.len(),
{
    reveal_with_fuel(utf8_size, 2);
    assert(seq![c].drop_first() =~= Seq::<char>::empty());
    if s.len() == 0 {
        assert(s + t =~= t);
    } else {
        assert((s + t).drop_first() =~= s.drop_first() + t);
        law_sizes_add_up(s.drop_first(), t, c);
    }
}

/// A letter of the alphabet and its other case go into each other; all other
/// characters stay as they are.
pub proof fn law_cases(c: char)
    ensures
        'A' <= c && c <= 'Z' ==> lower(c) as int == c as int + 32 && upper(lower(c)) == c,
        'a' <= c && c <= 'z' ==> upper(c) as int == c as int - 32 && lower(upper(c)) == c,
        !('A' <= c && c <= 'Z') ==> lower(c) == c,
        !('a' <= c && c <= 'z') ==> upper(c) == c,
{
}

/// A name is one of the old kind whatever the case of its ending, and only by
/// its last five characters.
pub proof fn law_yaml_names(s: Seq<char>, e: Seq<char>)
    requires
        e.len() == 5,
    ensures
        is_yaml_name(s + e) == {
            &&& e[0] == '.'
            &&& e[1] == 'y' || e[1] == 'Y'
            &&& e[2] == 'a' || e[2] == 'A'
            &&& e[3] == 'm' || e[3] == 'M'
            &&& e[4] == 'l' || e[4] == 'L'
        },
{
    reveal_strlit(".yaml");
    let t = (s + e).map_values(|c: char| lower(c));
    let end = t.skip(t.len() - 5);
    assert(end.len() == 5);
    assert(forall|i: int| 0 <= i < 5 ==> #[trigger] end[i] == lower(e[i]));
    law_cases(e[0]);
    law_cases(e[1]);
    law_cases(e[2]);
    law_cases(e[3]);
    law_cases(e[4]);
    if is_yaml_name(s + e) {
        assert(end[0] == '.' && end[1] == 'y' && end[2] == 'a' && end[3] == 'm' && end[4] == 'l');
    } else {
        if e[0] == '.' && (e[1] == 'y' || e[1] == 'Y') && (e[2] == 'a' || e[2] == 'A') && (e[3]
            == 'm' || e[3] == 'M') && (e[4] == 'l' || e[4] == 'L') {
            assert(end =~= ".yaml"@);
        }
    }
}

/// Taking the last character off undoes putting one there, and of an empty text
/// nothing is taken.
pub proof fn law_cut_undoes_typing(s: Seq<char>, c: char)
    ensures
        cut(s.push(c)) == s,
        cut(Seq::<char>::empty()).len() == 0,
{
    assert(s.push(c).drop_last() =~= s);
}

/// Nothing is left of a text exactly where all of it is white space.
pub proof fn lemma_trim_empty(s: Seq<char>)
    ensures
        trim(s).len() > 0 <==> exists|i: int| 0 <= i < s.len() && !is_white(#[trigger] s[i]),
    decreases s.len(),
{
    if s.len() > 0 {
        if is_white(s[0]) {
            let t = s.drop_first();
            lemma_trim_empty(t);
            if exists|i: int| 0 <= i < s.len() && !is_white(#[trigger] s[i]) {
                let i = choose|i: int| 0 <= i < s.len() && !is_white(#[trigger] s[i]);
                assert(!is_white(t[i - 1]));
            }
            if exists|i: int| 0 <= i < t.len() && !is_white(#[trigger] t[i]) {
                let i = choose|i: int| 0 <= i < t.len() && !is_white(#[trigger] t[i]);
                assert(!is_white(s[i + 1]));
            }
        } else {
            lemma_trim_end_keeps(s, 0);
        }
    }
}

proof fn lemma_trim_end_keeps(s: Seq<char>, i: int)
    requires
        0 <= i < s.len(),
        !is_white(s[i]),
    ensures
        trim_end(s).len() > i,
    decreases s.len(),
{
    if is_white(s.last()) {
        assert(s.drop_last()[i] == s[i]);
        lemma_trim_end_keeps(s.drop_last(), i);
    }
}

} // verus!
