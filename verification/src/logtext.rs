//! Text of the log files.

use vstd::prelude::*;

use crate::lines;
use crate::lines::{char_views, join_parts, lines_of};
use crate::text;
use crate::text::{append_chars, append_text, chars_of, string_of, strip_leading_chars};

verus! {

/// Most lines that are kept in the log file.
pub const LOG_MAX_LINES: usize = 1000;

/// The byte order mark.
pub open spec fn bom() -> char {
    '\u{FEFF}'
}

/// The text of a log file without the byte order marks at its beginning.
pub open spec fn log_body(s: Seq<char>) -> Seq<char> {
    text::strip_leading(s, bom())
}

/// Whether a log file is left as it is: it begins with a byte order mark and
/// holds no more lines than are kept.
pub open spec fn log_is_normal(s: Seq<char>) -> bool {
    s.len() > 0 && s[0] == bom() && lines::split_lines(log_body(s)).len() <= LOG_MAX_LINES
}

/// The text of a log file with a byte order mark at its beginning and, where it
/// holds more lines than are kept, only the last ones.
pub open spec fn normal_log(s: Seq<char>) -> Seq<char> {
    let all = lines::split_lines(log_body(s));
    if all.len() > LOG_MAX_LINES {
        seq![bom()] + lines::join(all.skip(all.len() - LOG_MAX_LINES), "\n"@) + "\n"@
    } else {
        seq![bom()] + log_body(s)
    }
}

/// The new text of a log file, or `None` where the file is left as it is.
pub fn normalize_log_file(orig: &str) -> (r: Option<String>)
    ensures
        match r {
            Some(s) => !log_is_normal(orig@) && s@ == normal_log(orig@),
            None => log_is_normal(orig@),
        },
{
    let s: Vec<char> = chars_of(orig);
    let had_bom: bool = s.len() > 0 && s[0] == '\u{FEFF}';
    let body: Vec<char> = strip_leading_chars(&s, '\u{FEFF}');
    let plain: String = string_of(&body);
    let all: Vec<Vec<char>> = lines_of(plain.as_str());
    let total: usize = all.len();
    let trimmed: bool = total > LOG_MAX_LINES;
    if had_bom && !trimmed {
        return None;
    }
    let mut out: Vec<char> = Vec::new();
    out.push('\u{FEFF}');
    if trimmed {
        let mut last: Vec<Vec<char>> = Vec::new();
        let from: usize = total - LOG_MAX_LINES;
        for i in from..total
            invariant
                from <= total,
                total == all@.len(),
                char_views(last@) == char_views(all@).subrange(from as int, i as int),
        {
            let mut line: Vec<char> = Vec::new();
            append_chars(&mut line, &all[i]);
            assert(line@ =~= all@[i as int]@);
            let ghost before = last@;
            last.push(line);
            assert(char_views(last@) =~= char_views(before).push(line@));
            assert(char_views(last@) =~= char_views(all@).subrange(from as int, i + 1));
        }
        assert(char_views(all@).subrange(from as int, total as int) =~= char_views(all@).skip(
            from as int,
        ));
        let text: Vec<char> = join_parts(&last, "\n");
        append_chars(&mut out, &text);
        append_text(&mut out, "\n");
        assert(out@ =~= normal_log(orig@));
    } else {
        append_chars(&mut out, &body);
        assert(out@ =~= normal_log(orig@));
    }
    Some(string_of(&out))
}

/// The text that is written when the program has crashed.
pub fn crash_text(time: &str, info: &str) -> (r: String)
    ensures
        r@ == "\u{FEFF}========== CRASH ==========\nTime: "@ + time@ + "\nPanic: "@ + info@
            + "\n\n"@,
{
    let mut out: Vec<char> = chars_of("\u{FEFF}========== CRASH ==========\nTime: ");
    append_text(&mut out, time);
    append_text(&mut out, "\nPanic: ");
    append_text(&mut out, info);
    append_text(&mut out, "\n\n");
    string_of(&out)
}

// ===== Laws =====

proof fn lemma_no_feed_lines(ls: Seq<Seq<char>>, rest: Seq<char>)
    requires
        ls.len() > 0,
        forall|i: int, j: int|
            0 <= i < ls.len() && 0 <= j < ls[i].len() ==> #[trigger] ls[i][j] != '\n',
    ensures
        lines::split_lines(lines::join(ls, "\n"@) + "\n"@ + rest).len() == ls.len()
            + lines::split_lines(rest).len(),
    decreases ls.len(),
{
    reveal_strlit("\n");
    let last = ls.last();
    let tail = last + "\n"@ + rest;
    assert forall|j: int| 0 <= j < last.len() implies #[trigger] last[j] != '\n' by {
        assert(ls[ls.len() - 1][j] != '\n');
    }
    lemma_line_splits(last, rest);
    if ls.len() == 1 {
        assert(lines::join(ls, "\n"@) == ls[0]);
    } else {
        let h = ls.drop_last();
        assert forall|i: int, j: int|
            0 <= i < h.len() && 0 <= j < h[i].len() implies #[trigger] h[i][j] != '\n' by {
            assert(ls[i][j] != '\n');
        }
        lemma_no_feed_lines(h, tail);
        assert(lines::join(ls, "\n"@) + "\n"@ + rest =~= lines::join(h, "\n"@) + "\n"@ + tail);
    }
}

proof fn lemma_line_splits(line: Seq<char>, rest: Seq<char>)
    requires
        forall|j: int| 0 <= j < line.len() ==> #[trigger] line[j] != '\n',
    ensures
        lines::split_lines(line + "\n"@ + rest).len() == 1 + lines::split_lines(rest).len(),
{
    reveal_strlit("\n");
    let s = line + "\n"@ + rest;
    lines::lemma_first_at(s, '\n');
    let k = lines::first_at(s, '\n') as int;
    assert(s[line.len() as int] == '\n');
    assert(k == line.len()) by {
        if k < line.len() {
            assert(s[k] == line[k]);
        }
        if k > line.len() {
            assert(s[line.len() as int] != '\n');
        }
    }
    assert(s.skip(k + 1) =~= rest);
}

proof fn lemma_lines_have_no_feed(s: Seq<char>)
    ensures
        forall|i: int, j: int|
            0 <= i < lines::split_lines(s).len() && 0 <= j < lines::split_lines(s)[i].len()
                ==> #[trigger] lines::split_lines(s)[i][j] != '\n',
    decreases s.len(),
{
    let k = lines::first_at(s, '\n') as int;
    lines::lemma_first_at(s, '\n');
    if s.len() == 0 {
    } else if k >= s.len() {
    } else {
        let all = lines::split_lines(s);
        let tail = lines::split_lines(s.skip(k + 1));
        lemma_lines_have_no_feed(s.skip(k + 1));
        assert forall|i: int, j: int|
            0 <= i < all.len() && 0 <= j < all[i].len() implies #[trigger] all[i][j] != '\n' by {
            if i == 0 {
                assert(all[0] == lines::strip_cr(s.take(k)));
                assert(all[0][j] == s[j]);
            } else {
                assert(all[i] == tail[i - 1]);
                assert(tail[i - 1][j] != '\n');
            }
        }
    }
}

proof fn lemma_strip_leading(s: Seq<char>, c: char)
    ensures
        text::strip_leading(seq![c] + s, c) == text::strip_leading(s, c),
{
    assert((seq![c] + s).drop_first() =~= s);
}

proof fn lemma_strip_len(s: Seq<char>, c: char)
    ensures
        text::strip_leading(text::strip_leading(s, c), c) == text::strip_leading(s, c),
    decreases s.len(),
{
    if s.len() > 0 && s[0] == c {
        lemma_strip_len(s.drop_first(), c);
    }
}

proof fn lemma_strip_keeps_line_count(s: Seq<char>, c: char)
    requires
        c != '\n',
        lines::split_lines(s).len() >= 1,
    ensures
        lines::split_lines(text::strip_leading(s, c)).len() <= lines::split_lines(s).len(),
    decreases s.len(),
{
    if s.len() > 0 && s[0] == c {
        let t = s.drop_first();
        lines::lemma_first_at(s, '\n');
        assert(lines::first_at(s, '\n') == 1 + lines::first_at(t, '\n'));
        let k = lines::first_at(s, '\n') as int;
        if t.len() == 0 {
            assert(text::strip_leading(t, c) == t);
            assert(lines::split_lines(t).len() == 0);
        } else {
            if k < s.len() {
                assert(s.skip(k + 1) =~= t.skip(k));
            }
            assert(lines::split_lines(t).len() == lines::split_lines(s).len());
            lemma_strip_keeps_line_count(t, c);
        }
    }
}

/// A log file that was brought into its normal form is left as it is the next
/// time: it begins with a byte order mark and holds no more lines than are kept.
pub proof fn law_normal_log_is_left(s: Seq<char>)
    ensures
        log_is_normal(normal_log(s)),
{
    reveal_strlit("\n");
    let all = lines::split_lines(log_body(s));
    let n = normal_log(s);
    assert(n[0] == bom());
    if all.len() > LOG_MAX_LINES {
        let kept = all.skip(all.len() - LOG_MAX_LINES);
        lemma_lines_have_no_feed(log_body(s));
        assert forall|i: int, j: int|
            0 <= i < kept.len() && 0 <= j < kept[i].len() implies #[trigger] kept[i][j] != '\n' by {
            assert(all[i + (all.len() - LOG_MAX_LINES)][j] != '\n');
        }
        let body = lines::join(kept, "\n"@) + "\n"@;
        assert(body + Seq::<char>::empty() =~= body);
        lemma_no_feed_lines(kept, Seq::<char>::empty());
        assert(lines::split_lines(Seq::<char>::empty()).len() == 0);
        assert(lines::split_lines(body).len() == LOG_MAX_LINES);
        assert(n =~= seq![bom()] + body);
        lemma_strip_leading(body, bom());
        lemma_strip_keeps_line_count(body, bom());
    } else {
        lemma_strip_leading(log_body(s), bom());
        lemma_strip_len(s, bom());
    }
}

/// The normal form of a log has one byte order mark before it, however many it
/// had. Up to a thousand lines stay as they are; of more, the last thousand are
/// kept, each on its line.
pub proof fn law_last_lines_are_kept(body: Seq<char>)
    requires
        body.len() == 0 || body[0] != '\u{FEFF}',
    ensures
        ({
            let all = lines::split_lines(body);
            let n = all.len() as int;
            &&& n <= 1000 ==> normal_log(body) == seq!['\u{FEFF}'] + body
            &&& n > 1000 ==> normal_log(body) == seq!['\u{FEFF}'] + lines::join(
                all.subrange(n - 1000, n),
                "\n"@,
            ) + "\n"@
            &&& log_is_normal(seq!['\u{FEFF}'] + body) == (n <= 1000)
            &&& !log_is_normal(body)
        }),
        normal_log(seq!['\u{FEFF}'] + body) == normal_log(body),
{
    let all = lines::split_lines(body);
    let n = all.len() as int;
    assert(log_body(body) == body);
    lemma_strip_leading(body, bom());
    if n > 1000 {
        assert(all.skip(n - 1000) =~= all.subrange(n - 1000, n));
    }
}

} // verus!
