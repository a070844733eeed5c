//! Texts as lists of lines.

use vstd::prelude::*;

use crate::text::{append_chars, append_text, chars_of, slice_chars};

verus! {

/// The contents of a list of character lists.
pub open spec fn char_views(v: Seq<Vec<char>>) -> Seq<Seq<char>> {
    v.map_values(|l: Vec<char>| l@)
}

/// The position of the first `c` in `s`, or the length of `s` where there is none.
pub open spec fn first_at(s: Seq<char>, c: char) -> nat
    decreases s.len(),
{
    if s.len() == 0 || s[0] == c {
        0
    } else {
        1 + first_at(s.drop_first(), c)
    }
}

pub proof fn lemma_first_at(s: Seq<char>, c: char)
    ensures
        first_at(s, c) <= s.len(),
        forall|i: int| 0 <= i < first_at(s, c) ==> #[trigger] s[i] != c,
        first_at(s, c) < s.len() ==> s[first_at(s, c) as int] == c,
    decreases s.len(),
{
    if s.len() > 0 && s[0] != c {
        let t = s.drop_first();
        lemma_first_at(t, c);
        assert forall|i: int| 0 <= i < first_at(s, c) implies #[trigger] s[i] != c by {
            if i > 0 {
                assert(t[i - 1] == s[i]);
            }
        }
        if first_at(s, c) < s.len() {
            assert(t[first_at(t, c) as int] == s[first_at(s, c) as int]);
        }
    }
}

proof fn lemma_first_at_is(s: Seq<char>, c: char, k: int)
    requires
        0 <= k <= s.len(),
        forall|i: int| 0 <= i < k ==> #[trigger] s[i] != c,
        k < s.len() ==> s[k] == c,
    ensures
        first_at(s, c) == k,
{
    lemma_first_at(s, c);
    let f = first_at(s, c) as int;
    if f < k {
        assert(s[f] != c);
    }
    if f > k {
        assert(s[k] != c);
    }
}

/// The position of the first `c` in `s`, or the length of `s`.
pub fn find_first(s: &Vec<char>, c: char) -> (r: usize)
    ensures
        r == first_at(s@, c),
        r <= s@.len(),
{
    let mut i: usize = 0;
    while i < s.len() && s[i] != c
        invariant
            i <= s@.len(),
            forall|j: int| 0 <= j < i ==> #[trigger] s@[j] != c,
        decreases s@.len() - i,
    {
        i = i + 1;
    }
    proof {
        lemma_first_at_is(s@, c, i as int);
    }
    i
}

/// A line without the carriage return before its line feed.
pub open spec fn strip_cr(line: Seq<char>) -> Seq<char> {
    if line.len() > 0 && line.last() == '\r' {
        line.drop_last()
    } else {
        line
    }
}

/// The lines of `s`: the texts that its line feeds end, each without a carriage
/// return before the line feed, and what follows the last line feed where that
/// is not empty.
pub open spec fn split_lines(s: Seq<char>) -> Seq<Seq<char>>
    decreases s.len(),
{
    let k = first_at(s, '\n') as int;
    if s.len() == 0 {
        Seq::empty()
    } else if k >= s.len() {
        seq![s]
    } else {
        seq![strip_cr(s.take(k))] + split_lines(s.skip(k + 1))
    }
}

/// The lines of a text.
pub fn lines_of(text: &str) -> (r: Vec<Vec<char>>)
    ensures
        char_views(r@) == split_lines(text@),
{
    let s: Vec<char> = chars_of(text);
    let mut out: Vec<Vec<char>> = Vec::new();
    let mut at: usize = 0;
    assert(s@.skip(0) =~= s@);
    assert(char_views(out@) + split_lines(s@) =~= split_lines(s@));
    while at < s.len()
        invariant
            s@ == text@,
            at <= s@.len(),
            char_views(out@) + split_lines(s@.skip(at as int)) == split_lines(s@),
        decreases s@.len() - at,
    {
        let ghost rest = s@.skip(at as int);
        let mut k: usize = at;
        while k < s.len() && s[k] != '\n'
            invariant
                at <= k <= s@.len(),
                forall|j: int| at <= j < k ==> #[trigger] s@[j] != '\n',
            decreases s@.len() - k,
        {
            k = k + 1;
        }
        proof {
            assert forall|i: int| 0 <= i < k - at implies #[trigger] rest[i] != '\n' by {
                assert(rest[i] == s@[at + i]);
            }
            lemma_first_at_is(rest, '\n', k - at);
        }
        let ghost before = out@;
        if k >= s.len() {
            let line: Vec<char> = slice_chars(&s, at, k);
            assert(line@ =~= rest);
            out.push(line);
            at = k;
            proof {
                assert(char_views(out@) =~= char_views(before).push(rest));
                assert(s@.skip(at as int) =~= Seq::<char>::empty());
                assert(char_views(out@) + split_lines(s@.skip(at as int)) =~= char_views(before)
                    + split_lines(rest));
            }
        } else {
            let end: usize = if k > at && s[k - 1] == '\r' {
                k - 1
            } else {
                k
            };
            let line: Vec<char> = slice_chars(&s, at, end);
            assert(rest.take(k - at) =~= s@.subrange(at as int, k as int));
            assert(line@ =~= strip_cr(rest.take(k - at)));
            out.push(line);
            proof {
                assert(char_views(out@) =~= char_views(before).push(line@));
                assert(rest.skip(k - at + 1) =~= s@.skip(k + 1));
                assert(char_views(out@) + split_lines(s@.skip(k + 1)) =~= char_views(before)
                    + split_lines(rest));
            }
            at = k + 1;
        }
    }
    proof {
        assert(s@.skip(at as int) =~= Seq::<char>::empty());
        assert(char_views(out@) + split_lines(s@.skip(at as int)) =~= char_views(out@));
    }
    out
}

/// The texts `parts`, in order, with `sep` between each two.
pub open spec fn join(parts: Seq<Seq<char>>, sep: Seq<char>) -> Seq<char>
    decreases parts.len(),
{
    if parts.len() == 0 {
        Seq::empty()
    } else if parts.len() == 1 {
        parts[0]
    } else {
        join(parts.drop_last(), sep) + sep + parts.last()
    }
}

/// Joins character lists with `sep` between each two.
pub fn join_parts(parts: &Vec<Vec<char>>, sep: &str) -> (r: Vec<char>)
    ensures
        r@ == join(char_views(parts@), sep@),
{
    let ghost all = char_views(parts@);
    let mut r: Vec<char> = Vec::new();
    for i in 0..parts.len()
        invariant
            all == char_views(parts@),
            r@ == join(all.take(i as int), sep@),
    {
        if i > 0 {
            append_text(&mut r, sep);
        }
        append_chars(&mut r, &parts[i]);
        proof {
            let t = all.take(i + 1);
            assert(t.drop_last() =~= all.take(i as int));
            assert(t.last() == parts@[i as int]@);
            if i == 0 {
                assert(all.take(0) =~= Seq::<Seq<char>>::empty());
                assert(r@ =~= t[0]);
            }
        }
    }
    assert(all.take(parts@.len() as int) =~= all);
    r
}

// ===== Laws =====

/// A line feed ends a line, and a carriage return before it goes with it; what
/// follows the last line feed is a line where it is not empty.
pub proof fn law_line_feeds_end_lines(line: Seq<char>, rest: Seq<char>)
    requires
        forall|i: int| 0 <= i < line.len() ==> #[trigger] line[i] != '\n',
    ensures
        split_lines(line + seq!['\n'] + rest) == seq![
            if line.len() > 0 && line.last() == '\r' {
                line.drop_last()
            } else {
                line
            },
        ] + split_lines(rest),
        line.len() > 0 ==> split_lines(line) == seq![line],
        split_lines(Seq::empty()).len() == 0,
{
    let s = line + seq!['\n'] + rest;
    let k = line.len() as int;
    assert(s[k] == '\n');
    assert forall|i: int| 0 <= i < k implies #[trigger] s[i] != '\n' by {
        assert(s[i] == line[i]);
    }
    lemma_first_at_is(s, '\n', k);
    assert(s.take(k) =~= line);
    assert(s.skip(k + 1) =~= rest);
    lemma_first_at_is(line, '\n', k);
}

/// Joining puts the separator between each two texts, and nowhere else.
pub proof fn law_join_separates(parts: Seq<Seq<char>>, p: Seq<char>, sep: Seq<char>)
    ensures
        join(Seq::empty(), sep).len() == 0,
        join(seq![p], sep) == p,
        parts.len() > 0 ==> join(parts.push(p), sep) == join(parts, sep) + sep + p,
{
    assert(parts.push(p).drop_last() =~= parts);
}

} // verus!
