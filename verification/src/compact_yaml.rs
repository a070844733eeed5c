//! Compact form of a serialized config.
//!
//! The rectangles of a config file (`source`, `display`, `window`) are written
//! on one line each, and so is the geometry of image and text elements, under
//! the key `geometry`:
//!
//! ```text
//! display: {x: 1360, 'y': 475, w: 230, h: 176}
//! - type: image
//!   path: X.png
//!   geometry: {x: 0, 'y': 8, z: 5}
//! ```

use vstd::prelude::*;

use crate::lines::{char_views, find_first, first_at, join, join_parts, lines_of, split_lines};
use crate::text;
use crate::text::{
    append_chars, append_text, chars_are, chars_of, chars_start_with, slice_all, slice_chars,
    string_of, strip_prefixes_chars, trim_chars, trim_end_chars, trim_start_chars,
};

verus! {

/// A key with its value.
pub type Entry = (Seq<char>, Seq<char>);

/// The number of bytes of white space that a line begins with.
pub open spec fn indent_of(line: Seq<char>) -> nat {
    text::utf8_size(line.take(line.len() - text::trim_start(line).len()))
}

/// The characters of a plain number.
pub open spec fn is_number_char(c: char) -> bool {
    ('0' <= c && c <= '9') || c == '.' || c == '-' || c == '+' || c == 'e' || c == 'E'
}

/// The key and value of a line `key: value` whose value is a plain number.
pub open spec fn scalar_entry(content: Seq<char>) -> Option<Entry> {
    let k = first_at(content, ':') as int;
    let key = text::trim(content.take(k));
    let val = text::trim(content.skip(k + 1));
    if k < content.len() && key.len() > 0 && val.len() > 0 && (forall|i: int|
        0 <= i < val.len() ==> is_number_char(#[trigger] val[i])) {
        Some((key, val))
    } else {
        None
    }
}

/// The keys that make up the geometry of an element.
pub open spec fn is_geometry_key(key: Seq<char>) -> bool {
    ||| key == "x"@
    ||| key == "y"@
    ||| key == "'y'"@
    ||| key == "w"@
    ||| key == "h"@
    ||| key == "z"@
    ||| key == "opacity"@
    ||| key == "rotate"@
}

/// The geometry entry that a line holds, if it holds one.
pub open spec fn geometry_entry(line: Seq<char>) -> Option<Entry> {
    match scalar_entry(text::trim_start(line)) {
        Some(e) => if is_geometry_key(e.0) { Some(e) } else { None },
        None => None,
    }
}

/// What a line names before a colon at its end.
pub open spec fn parent_of(line: Seq<char>) -> Seq<char> {
    let content = text::trim_start(line);
    if content.len() > 0 && content.last() == ':' {
        text::trim_end(content.drop_last())
    } else {
        Seq::empty()
    }
}

/// Whether a line opens a rectangle.
pub open spec fn opens_rect(line: Seq<char>) -> bool {
    parent_of(line) == "source"@ || parent_of(line) == "display"@ || parent_of(line) == "window"@
}

/// Whether a line opens an image or text element.
pub open spec fn opens_element(line: Seq<char>) -> bool {
    let content = text::trim_start(line);
    let kind = text::trim(text::strip_prefixes(content, "- type:"@));
    text::starts_with(content, "- type:"@) && (kind == "image"@ || kind == "text"@)
}

/// Whether a line belongs to a block opened at `indent`: deeper, and not blank.
pub open spec fn is_child(line: Seq<char>, indent: nat) -> bool {
    indent_of(line) > indent && text::trim_start(line).len() > 0
}

/// The number of lines at the beginning of `lines` that belong to a block
/// opened at `indent`.
pub open spec fn block_len(lines: Seq<Seq<char>>, indent: nat) -> nat
    decreases lines.len(),
{
    if lines.len() > 0 && is_child(lines[0], indent) {
        1 + block_len(lines.drop_first(), indent)
    } else {
        0
    }
}

/// The entries of the child lines at the beginning of `lines`, up to the first
/// that is no plain number.
pub open spec fn leading_entries(lines: Seq<Seq<char>>, indent: nat) -> Seq<Entry>
    decreases lines.len(),
{
    if lines.len() > 0 && is_child(lines[0], indent) {
        match scalar_entry(text::trim_start(lines[0])) {
            Some(e) => seq![e] + leading_entries(lines.drop_first(), indent),
            None => Seq::empty(),
        }
    } else {
        Seq::empty()
    }
}

/// The entries of the geometry lines at the end of a block. Only lines at the
/// indent of the keys count; deeper ones belong to a value.
pub open spec fn trailing_geometry(block: Seq<Seq<char>>, keys: nat) -> Seq<Entry>
    decreases block.len(),
{
    if block.len() == 0 || indent_of(block.last()) != keys {
        Seq::empty()
    } else {
        match geometry_entry(block.last()) {
            Some(e) => trailing_geometry(block.drop_last(), keys).push(e),
            None => Seq::empty(),
        }
    }
}

/// The indent of the keys of the mapping that a line belongs to. In a list the
/// first key stands behind a dash.
pub open spec fn keys_indent(line: Seq<char>) -> nat {
    if text::starts_with(text::trim_start(line), "- "@) {
        indent_of(line) + 2
    } else {
        indent_of(line)
    }
}

/// Whether a line ends in the mark of a text that is written on the lines below.
pub open spec fn opens_text(line: Seq<char>) -> bool {
    exists|i: int|
        0 < i < line.len() && line[i - 1] == ' ' && (#[trigger] line[i] == '|' || line[i] == '>')
            && forall|j: int| i < j < line.len() ==> is_mark_char(#[trigger] line[j])
}

/// The characters that may follow such a mark.
pub open spec fn is_mark_char(c: char) -> bool {
    c == '-' || c == '+' || ('1' <= c && c <= '9')
}

/// The number of lines at the beginning of `lines` that belong to a text opened
/// by a key at `keys`: deeper ones, and blank ones.
pub open spec fn text_len(lines: Seq<Seq<char>>, keys: nat) -> nat
    decreases lines.len(),
{
    if lines.len() > 0 && (indent_of(lines[0]) > keys || text::trim_start(lines[0]).len() == 0) {
        1 + text_len(lines.drop_first(), keys)
    } else {
        0
    }
}

/// Whether an entry has the key `k`.
pub open spec fn has_key(entries: Seq<Entry>, k: Seq<char>) -> bool {
    exists|i: int| 0 <= i < entries.len() && (#[trigger] entries[i]).0 == k
}

/// Whether the entries hold a position.
pub open spec fn has_position(entries: Seq<Entry>) -> bool {
    has_key(entries, "x"@) && (has_key(entries, "y"@) || has_key(entries, "'y'"@))
}

/// Whether a rectangle is written on one line: one of `display` with a
/// position, any other with a size besides.
pub open spec fn rect_folds(parent: Seq<char>, entries: Seq<Entry>) -> bool {
    if parent == "display"@ {
        entries.len() >= 2 && has_position(entries)
    } else {
        entries.len() >= 4 && has_position(entries) && has_key(entries, "w"@) && has_key(
            entries,
            "h"@,
        )
    }
}

/// Whether the geometry of an element is written on one line.
pub open spec fn geometry_folds(entries: Seq<Entry>) -> bool {
    entries.len() >= 2 && has_position(entries)
}

/// `n` spaces.
pub open spec fn spaces(n: nat) -> Seq<char> {
    Seq::new(n, |i: int| ' ')
}

/// An entry as text.
pub open spec fn entry_text(e: Entry) -> Seq<char> {
    e.0 + ": "@ + e.1
}

/// A mapping on one line.
pub open spec fn flow_line(indent: nat, name: Seq<char>, entries: Seq<Entry>) -> Seq<char> {
    spaces(indent) + name + ": {"@ + join(entries.map_values(|e: Entry| entry_text(e)), ", "@)
        + "}"@
}

/// How many lines the block at the beginning of `lines` takes up, and the lines
/// that are written for it. The lines of a text are written as they are.
pub open spec fn first_block(lines: Seq<Seq<char>>) -> (nat, Seq<Seq<char>>) {
    let line = lines[0];
    let rest = lines.drop_first();
    let indent = indent_of(line);
    if opens_rect(line) {
        let entries = leading_entries(rest, indent);
        if rect_folds(parent_of(line), entries) {
            (1 + entries.len(), seq![flow_line(indent, parent_of(line), entries)])
        } else {
            (1, seq![line])
        }
    } else if opens_element(line) {
        let block = rest.take(block_len(rest, indent) as int);
        let entries = trailing_geometry(block, keys_indent(line));
        if geometry_folds(entries) {
            (
                1 + block.len(),
                seq![spaces(indent) + text::trim_start(line)] + block.take(
                    block.len() - entries.len(),
                ) + seq![flow_line(keys_indent(line), "geometry"@, entries)],
            )
        } else {
            (1, seq![line])
        }
    } else if opens_text(line) {
        let n = 1 + text_len(rest, keys_indent(line));
        (n, lines.take(n as int))
    } else {
        (1, seq![line])
    }
}

/// The lines of the compact form.
pub open spec fn compact_lines(lines: Seq<Seq<char>>) -> Seq<Seq<char>>
    decreases lines.len(),
{
    if lines.len() == 0 {
        Seq::empty()
    } else {
        proof {
            lemma_first_block_len(lines);
        }
        first_block(lines).1 + compact_lines(lines.skip(first_block(lines).0 as int))
    }
}

/// The compact form of a serialized config.
pub open spec fn compacted(yaml: Seq<char>) -> Seq<char> {
    join(compact_lines(split_lines(yaml)), "\n"@)
}

proof fn lemma_block_len(lines: Seq<Seq<char>>, indent: nat)
    ensures
        block_len(lines, indent) <= lines.len(),
        leading_entries(lines, indent).len() <= lines.len(),
        text_len(lines, indent) <= lines.len(),
    decreases lines.len(),
{
    if lines.len() > 0 {
        lemma_block_len(lines.drop_first(), indent);
    }
}

pub proof fn lemma_first_block_len(lines: Seq<Seq<char>>)
    requires
        lines.len() > 0,
    ensures
        1 <= first_block(lines).0 <= lines.len(),
{
    lemma_block_len(lines.drop_first(), indent_of(lines[0]));
    lemma_block_len(lines.drop_first(), keys_indent(lines[0]));
}

proof fn lemma_trailing_len(block: Seq<Seq<char>>, keys: nat)
    ensures
        trailing_geometry(block, keys).len() <= block.len(),
    decreases block.len(),
{
    if block.len() > 0 {
        lemma_trailing_len(block.drop_last(), keys);
    }
}

// ===== Execution =====

/// The entries of a list of character pairs.
pub open spec fn entry_views(v: Seq<(Vec<char>, Vec<char>)>) -> Seq<Entry> {
    v.map_values(|e: (Vec<char>, Vec<char>)| (e.0@, e.1@))
}

fn width_of(c: char) -> (r: u128)
    ensures
        r == text::utf8_width(c),
        1 <= r <= 4,
{
    let u: u32 = c as u32;
    if u < 0x80 {
        1
    } else if u < 0x800 {
        2
    } else if u < 0x10000 {
        3
    } else {
        4
    }
}

proof fn lemma_utf8_size_push(s: Seq<char>, c: char)
    ensures
        text::utf8_size(s.push(c)) == text::utf8_size(s) + text::utf8_width(c),
    decreases s.len(),
{
    if s.len() == 0 {
        assert(s.push(c).drop_first() =~= Seq::<char>::empty());
        assert(text::utf8_size(Seq::<char>::empty()) == 0);
    } else {
        assert(s.push(c).drop_first() =~= s.drop_first().push(c));
        lemma_utf8_size_push(s.drop_first(), c);
    }
}

proof fn lemma_trim_start_len(s: Seq<char>)
    ensures
        text::trim_start(s).len() <= s.len(),
    decreases s.len(),
{
    if s.len() > 0 && text::is_white(s[0]) {
        lemma_trim_start_len(s.drop_first());
    }
}

/// The indent of a line and what follows it.
fn strip_indent(line: &Vec<char>) -> (r: (u128, Vec<char>))
    ensures
        r.0 == indent_of(line@),
        r.0 <= 4 * usize::MAX,
        r.1@ == text::trim_start(line@),
{
    let content: Vec<char> = trim_start_chars(line);
    proof {
        lemma_trim_start_len(line@);
    }
    let n: usize = line.len() - content.len();
    let mut size: u128 = 0;
    for i in 0..n
        invariant
            n <= line@.len(),
            size == text::utf8_size(line@.take(i as int)),
            size <= 4 * i,
    {
        proof {
            lemma_utf8_size_push(line@.take(i as int), line@[i as int]);
            assert(line@.take(i as int).push(line@[i as int]) =~= line@.take(i + 1));
        }
        size = size + width_of(line[i]);
    }
    (size, content)
}

fn number_char(c: char) -> (r: bool)
    ensures
        r == is_number_char(c),
{
    ('0' <= c && c <= '9') || c == '.' || c == '-' || c == '+' || c == 'e' || c == 'E'
}

/// Reads `key: value` where the value is a plain number.
fn split_scalar(content: &Vec<char>) -> (r: Option<(Vec<char>, Vec<char>)>)
    ensures
        match r {
            Some(e) => scalar_entry(content@) == Some((e.0@, e.1@)),
            None => scalar_entry(content@) is None,
        },
{
    let k: usize = find_first(content, ':');
    if k >= content.len() {
        return None;
    }
    let left: Vec<char> = slice_chars(content, 0, k);
    assert(left@ =~= content@.take(k as int));
    let right: Vec<char> = slice_chars(content, k + 1, content.len());
    assert(right@ =~= content@.skip(k + 1));
    let key: Vec<char> = trim_chars(&left);
    let val: Vec<char> = trim_chars(&right);
    if key.len() == 0 || val.len() == 0 {
        return None;
    }
    for i in 0..val.len()
        invariant
            forall|j: int| 0 <= j < i ==> is_number_char(#[trigger] val@[j]),
            val@ == text::trim(content@.skip(first_at(content@, ':') as int + 1)),
    {
        if !number_char(val[i]) {
            return None;
        }
    }
    Some((key, val))
}

fn geometry_key(key: &Vec<char>) -> (r: bool)
    ensures
        r == is_geometry_key(key@),
{
    chars_are(key, "x") || chars_are(key, "y") || chars_are(key, "'y'") || chars_are(key, "w")
        || chars_are(key, "h") || chars_are(key, "z") || chars_are(key, "opacity") || chars_are(
        key,
        "rotate",
    )
}

fn any_key(entries: &Vec<(Vec<char>, Vec<char>)>, k: &str) -> (r: bool)
    ensures
        r == has_key(entry_views(entries@), k@),
{
    for i in 0..entries.len()
        invariant
            forall|j: int| 0 <= j < i ==> (#[trigger] entries@[j]).0@ != k@,
    {
        if chars_are(&entries[i].0, k) {
            assert(entry_views(entries@)[i as int].0 == k@);
            return true;
        }
    }
    proof {
        if has_key(entry_views(entries@), k@) {
            let j = choose|j: int|
                0 <= j < entry_views(entries@).len() && (#[trigger] entry_views(entries@)[j]).0
                    == k@;
            assert(entries@[j].0@ == k@);
        }
    }
    false
}

fn any_position(entries: &Vec<(Vec<char>, Vec<char>)>) -> (r: bool)
    ensures
        r == has_position(entry_views(entries@)),
{
    any_key(entries, "x") && (any_key(entries, "y") || any_key(entries, "'y'"))
}

fn parent_chars(content: &Vec<char>) -> (r: Vec<char>)
    ensures
        r@ == (if content@.len() > 0 && content@.last() == ':' {
            text::trim_end(content@.drop_last())
        } else {
            Seq::empty()
        }),
{
    let n: usize = content.len();
    if n > 0 && content[n - 1] == ':' {
        let head: Vec<char> = slice_chars(content, 0, n - 1);
        assert(head@ =~= content@.drop_last());
        trim_end_chars(&head)
    } else {
        Vec::new()
    }
}

fn element_header(content: &Vec<char>) -> (r: bool)
    ensures
        r == ({
            let kind = text::trim(text::strip_prefixes(content@, "- type:"@));
            text::starts_with(content@, "- type:"@) && (kind == "image"@ || kind == "text"@)
        }),
{
    let tag: Vec<char> = chars_of("- type:");
    if !chars_start_with(content, &tag) {
        return false;
    }
    let tail: Vec<char> = strip_prefixes_chars(content, &tag);
    let kind: Vec<char> = trim_chars(&tail);
    chars_are(&kind, "image") || chars_are(&kind, "text")
}

fn push_spaces(v: &mut Vec<char>, n: u128)
    ensures
        final(v)@ == old(v)@ + spaces(n as nat),
{
    let mut i: u128 = 0;
    assert(v@ =~= old(v)@ + spaces(0));
    while i < n
        invariant
            i <= n,
            v@ == old(v)@ + spaces(i as nat),
        decreases n - i,
    {
        v.push(' ');
        i = i + 1;
        assert(v@ =~= old(v)@ + spaces(i as nat));
    }
}

fn flow_chars(indent: u128, name: &Vec<char>, entries: &Vec<(Vec<char>, Vec<char>)>) -> (r: Vec<
    char,
>)
    ensures
        r@ == flow_line(indent as nat, name@, entry_views(entries@)),
{
    let ghost texts = entry_views(entries@).map_values(|e: Entry| entry_text(e));
    let mut items: Vec<Vec<char>> = Vec::new();
    for i in 0..entries.len()
        invariant
            texts == entry_views(entries@).map_values(|e: Entry| entry_text(e)),
            char_views(items@) == texts.take(i as int),
    {
        let mut item: Vec<char> = slice_all(&entries[i].0);
        append_text(&mut item, ": ");
        append_chars(&mut item, &entries[i].1);
        let ghost before = items@;
        items.push(item);
        proof {
            assert(item@ == entry_text(entry_views(entries@)[i as int]));
            assert(char_views(items@) =~= char_views(before).push(item@));
            assert(char_views(items@) =~= texts.take(i + 1));
        }
    }
    assert(texts.take(entries@.len() as int) =~= texts);
    let inner: Vec<char> = join_parts(&items, ", ");
    let mut r: Vec<char> = Vec::new();
    push_spaces(&mut r, indent);
    append_chars(&mut r, name);
    append_text(&mut r, ": {");
    append_chars(&mut r, &inner);
    append_text(&mut r, "}");
    assert(r@ =~= flow_line(indent as nat, name@, entry_views(entries@)));
    r
}

/// Reads the entries of the rectangle opened at `indent` from line `from` on.
fn read_entries(lines: &Vec<Vec<char>>, from: usize, indent: u128) -> (r: Vec<
    (Vec<char>, Vec<char>),
>)
    requires
        from <= lines@.len(),
    ensures
        entry_views(r@) == leading_entries(char_views(lines@).skip(from as int), indent as nat),
{
    let ghost all = char_views(lines@);
    let mut entries: Vec<(Vec<char>, Vec<char>)> = Vec::new();
    let mut j: usize = from;
    assert(entry_views(entries@) + leading_entries(all.skip(j as int), indent as nat)
        =~= leading_entries(all.skip(from as int), indent as nat));
    while j < lines.len()
        invariant
            all == char_views(lines@),
            from <= j <= lines@.len(),
            entry_views(entries@) + leading_entries(all.skip(j as int), indent as nat)
                == leading_entries(all.skip(from as int), indent as nat),
        decreases lines@.len() - j,
    {
        let ghost rest = all.skip(j as int);
        assert(rest[0] == lines@[j as int]@);
        let (n_indent, n_content) = strip_indent(&lines[j]);
        if n_indent <= indent || n_content.len() == 0 {
            assert(leading_entries(rest, indent as nat) =~= Seq::<Entry>::empty());
            assert(entry_views(entries@) + Seq::<Entry>::empty() =~= entry_views(entries@));
            return entries;
        }
        match split_scalar(&n_content) {
            Some(e) => {
                let ghost before = entries@;
                let ghost ev = (e.0@, e.1@);
                entries.push(e);
                j = j + 1;
                proof {
                    assert(entry_views(entries@) =~= entry_views(before).push(ev));
                    assert(rest.drop_first() =~= all.skip(j as int));
                    assert(entry_views(entries@) + leading_entries(all.skip(j as int), indent as nat)
                        =~= entry_views(before) + leading_entries(rest, indent as nat));
                }
            },
            None => {
                assert(leading_entries(rest, indent as nat) =~= Seq::<Entry>::empty());
                assert(entry_views(entries@) + Seq::<Entry>::empty() =~= entry_views(entries@));
                return entries;
            },
        }
    }
    assert(all.skip(j as int) =~= Seq::<Seq<char>>::empty());
    assert(entry_views(entries@) + Seq::<Entry>::empty() =~= entry_views(entries@));
    entries
}

/// The number of lines from line `from` on that belong to the block opened at
/// `indent`.
fn measure_block(lines: &Vec<Vec<char>>, from: usize, indent: u128) -> (r: usize)
    requires
        from <= lines@.len(),
    ensures
        r == block_len(char_views(lines@).skip(from as int), indent as nat),
        from + r <= lines@.len(),
{
    let ghost all = char_views(lines@);
    let mut j: usize = from;
    while j < lines.len()
        invariant
            all == char_views(lines@),
            from <= j <= lines@.len(),
            block_len(all.skip(from as int), indent as nat) == (j - from) + block_len(
                all.skip(j as int),
                indent as nat,
            ),
        decreases lines@.len() - j,
    {
        let ghost rest = all.skip(j as int);
        assert(rest[0] == lines@[j as int]@);
        let (n_indent, n_content) = strip_indent(&lines[j]);
        if n_indent <= indent || n_content.len() == 0 {
            return j - from;
        }
        assert(rest.drop_first() =~= all.skip(j + 1));
        j = j + 1;
    }
    assert(all.skip(j as int) =~= Seq::<Seq<char>>::empty());
    j - from
}

/// The geometry at the end of the block of `n` lines from line `from` on, whose
/// keys stand at `keys`.
fn read_geometry(lines: &Vec<Vec<char>>, from: usize, n: usize, keys: u128) -> (r: Vec<
    (Vec<char>, Vec<char>),
>)
    requires
        from + n <= lines@.len(),
    ensures
        entry_views(r@) == trailing_geometry(
            char_views(lines@).skip(from as int).take(n as int),
            keys as nat,
        ),
{
    let ghost block = char_views(lines@).skip(from as int).take(n as int);
    let total: usize = lines.len();
    let mut pending: Vec<(Vec<char>, Vec<char>)> = Vec::new();
    for k in 0..n
        invariant
            from + n <= lines@.len(),
            lines@.len() == total,
            block == char_views(lines@).skip(from as int).take(n as int),
            entry_views(pending@) == trailing_geometry(block.take(k as int), keys as nat),
    {
        let (n_indent, n_content) = strip_indent(&lines[from + k]);
        let ghost b1 = block.take(k + 1);
        let ghost pending0 = pending@;
        proof {
            assert(b1.drop_last() =~= block.take(k as int));
            assert(b1.last() == lines@[from + k]@);
        }
        let mut found: bool = false;
        if n_indent == keys {
            match split_scalar(&n_content) {
                Some(e) => {
                    let ghost ev = (e.0@, e.1@);
                    if geometry_key(&e.0) {
                        pending.push(e);
                        found = true;
                        assert(entry_views(pending@) =~= entry_views(pending0).push(ev));
                    }
                },
                None => {},
            }
        }
        if !found {
            pending = Vec::new();
            assert(entry_views(pending@) =~= Seq::<Entry>::empty());
        }
    }
    assert(block.take(n as int) =~= block);
    pending
}

/// Whether a line ends in the mark of a text that is written on the lines below.
fn text_mark(line: &Vec<char>) -> (r: bool)
    ensures
        r == opens_text(line@),
{
    let mut i: usize = line.len();
    while i > 0
        invariant
            i <= line@.len(),
            forall|j: int| i <= j < line@.len() ==> is_mark_char(#[trigger] line@[j]),
        decreases i,
    {
        let c: char = line[i - 1];
        if c == '|' || c == '>' {
            let r: bool = i >= 2 && line[i - 2] == ' ';
            proof {
                if r {
                    assert(line@[i - 1] == c);
                }
                if opens_text(line@) {
                    let k = choose|k: int|
                        0 < k < line@.len() && line@[k - 1] == ' ' && (#[trigger] line@[k] == '|'
                            || line@[k] == '>') && forall|j: int|
                            k < j < line@.len() ==> is_mark_char(#[trigger] line@[j]);
                    if k < i - 1 {
                        assert(is_mark_char(line@[i - 1]));
                    }
                    if k > i - 1 {
                        assert(is_mark_char(line@[k]));
                    }
                }
            }
            return r;
        }
        if !(c == '-' || c == '+' || ('1' <= c && c <= '9')) {
            proof {
                if opens_text(line@) {
                    let k = choose|k: int|
                        0 < k < line@.len() && line@[k - 1] == ' ' && (#[trigger] line@[k] == '|'
                            || line@[k] == '>') && forall|j: int|
                            k < j < line@.len() ==> is_mark_char(#[trigger] line@[j]);
                    if k < i - 1 {
                        assert(is_mark_char(line@[i - 1]));
                    }
                    if k > i - 1 {
                        assert(is_mark_char(line@[k]));
                    }
                }
            }
            return false;
        }
        i = i - 1;
    }
    proof {
        if opens_text(line@) {
            let k = choose|k: int|
                0 < k < line@.len() && line@[k - 1] == ' ' && (#[trigger] line@[k] == '|'
                    || line@[k] == '>') && forall|j: int|
                    k < j < line@.len() ==> is_mark_char(#[trigger] line@[j]);
            assert(is_mark_char(line@[k]));
        }
    }
    false
}

/// The number of lines from line `from` on that belong to the text opened by a
/// key at `keys`.
fn measure_text(lines: &Vec<Vec<char>>, from: usize, keys: u128) -> (r: usize)
    requires
        from <= lines@.len(),
    ensures
        r == text_len(char_views(lines@).skip(from as int), keys as nat),
        from + r <= lines@.len(),
{
    let ghost all = char_views(lines@);
    let mut j: usize = from;
    while j < lines.len()
        invariant
            all == char_views(lines@),
            from <= j <= lines@.len(),
            text_len(all.skip(from as int), keys as nat) == (j - from) + text_len(
                all.skip(j as int),
                keys as nat,
            ),
        decreases lines@.len() - j,
    {
        let ghost rest = all.skip(j as int);
        assert(rest[0] == lines@[j as int]@);
        let (n_indent, n_content) = strip_indent(&lines[j]);
        if n_indent <= keys && n_content.len() > 0 {
            return j - from;
        }
        assert(rest.drop_first() =~= all.skip(j + 1));
        j = j + 1;
    }
    assert(all.skip(j as int) =~= Seq::<Seq<char>>::empty());
    j - from
}

/// Appends `n` of the lines from line `from` on.
fn append_from(out: &mut Vec<Vec<char>>, lines: &Vec<Vec<char>>, from: usize, n: usize)
    requires
        from + n <= lines@.len(),
    ensures
        char_views(final(out)@) == char_views(old(out)@) + char_views(lines@).skip(
            from as int,
        ).take(n as int),
{
    let ghost part = char_views(lines@).skip(from as int);
    let total: usize = lines.len();
    assert(char_views(out@) =~= char_views(old(out)@) + part.take(0));
    for i in 0..n
        invariant
            from + n <= lines@.len(),
            lines@.len() == total,
            part == char_views(lines@).skip(from as int),
            char_views(out@) == char_views(old(out)@) + part.take(i as int),
    {
        let line: Vec<char> = slice_all(&lines[from + i]);
        let ghost before = out@;
        out.push(line);
        assert(char_views(out@) =~= char_views(before).push(line@));
        assert(char_views(out@) =~= char_views(old(out)@) + part.take(i + 1));
    }
}

/// Appends the lines `b` to `a`.
fn append_lines(a: &mut Vec<Vec<char>>, b: &Vec<Vec<char>>)
    ensures
        char_views(final(a)@) == char_views(old(a)@) + char_views(b@),
{
    assert(char_views(a@) =~= char_views(old(a)@) + char_views(b@).take(0));
    for i in 0..b.len()
        invariant
            char_views(a@) == char_views(old(a)@) + char_views(b@).take(i as int),
    {
        let line: Vec<char> = slice_all(&b[i]);
        let ghost before = a@;
        a.push(line);
        assert(char_views(a@) =~= char_views(before).push(line@));
        assert(char_views(a@) =~= char_views(old(a)@) + char_views(b@).take(i + 1));
    }
    assert(char_views(b@).take(b@.len() as int) =~= char_views(b@));
}

/// The number of lines that the block at line `i` takes up, and the lines that
/// are written for it.
fn fold_block(lines: &Vec<Vec<char>>, i: usize) -> (r: (usize, Vec<Vec<char>>))
    requires
        i < lines@.len(),
    ensures
        r.0 == first_block(char_views(lines@).skip(i as int)).0,
        char_views(r.1@) == first_block(char_views(lines@).skip(i as int)).1,
        1 <= r.0 <= lines@.len() - i,
{
    let ghost rest = char_views(lines@).skip(i as int);
    let ghost after = rest.drop_first();
    let total: usize = lines.len();
    proof {
        assert(rest[0] == lines@[i as int]@);
        assert(after =~= char_views(lines@).skip(i + 1));
        lemma_first_block_len(rest);
        lemma_block_len(after, indent_of(rest[0]));
        lemma_block_len(after, keys_indent(rest[0]));
    }
    let (indent, content) = strip_indent(&lines[i]);
    let keys: u128 = if chars_start_with(&content, &chars_of("- ")) { indent + 2 } else { indent };
    let mut out: Vec<Vec<char>> = Vec::new();
    let parent: Vec<char> = parent_chars(&content);
    if chars_are(&parent, "source") || chars_are(&parent, "display") || chars_are(
        &parent,
        "window",
    ) {
        let entries: Vec<(Vec<char>, Vec<char>)> = read_entries(lines, i + 1, indent);
        let folds: bool = if chars_are(&parent, "display") {
            entries.len() >= 2 && any_position(&entries)
        } else {
            entries.len() >= 4 && any_position(&entries) && any_key(&entries, "w") && any_key(
                &entries,
                "h",
            )
        };
        if folds {
            let line: Vec<char> = flow_chars(indent, &parent, &entries);
            out.push(line);
            assert(char_views(out@) =~= seq![line@]);
            return (1 + entries.len(), out);
        }
    } else if element_header(&content) {
        let n: usize = measure_block(lines, i + 1, indent);
        let ghost block = after.take(n as int);
        let pending: Vec<(Vec<char>, Vec<char>)> = read_geometry(lines, i + 1, n, keys);
        if pending.len() >= 2 && any_position(&pending) {
            proof {
                lemma_trailing_len(block, keys as nat);
                assert(entry_views(pending@).len() == pending@.len());
            }
            let m: usize = n - pending.len();
            let name: Vec<char> = chars_of("geometry");
            let line: Vec<char> = flow_chars(keys, &name, &pending);
            let mut head: Vec<char> = Vec::new();
            push_spaces(&mut head, indent);
            append_chars(&mut head, &content);
            assert(head@ =~= spaces(indent as nat) + content@);
            out.push(head);
            let ghost first = out@;
            assert(char_views(first) =~= seq![head@]);
            append_from(&mut out, lines, i + 1, m);
            let ghost mid = out@;
            out.push(line);
            proof {
                assert(after.take(m as int) =~= block.take(m as int));
                assert(char_views(out@) =~= char_views(mid).push(line@));
                assert(char_views(out@) =~= seq![head@] + block.take(m as int) + seq![line@]);
            }
            return (1 + n, out);
        }
    } else if text_mark(&lines[i]) {
        let n: usize = measure_text(lines, i + 1, keys);
        append_from(&mut out, lines, i, 1 + n);
        assert(char_views(out@) =~= rest.take(1 + n));
        return (1 + n, out);
    }
    let line: Vec<char> = slice_all(&lines[i]);
    out.push(line);
    assert(char_views(out@) =~= seq![line@]);
    (1, out)
}

/// Collapses the block-form rectangles and element geometry of a serialized
/// config into single-line mappings.
pub fn collapse_inline_rects(yaml: &str) -> (r: String)
    ensures
        r@ == compacted(yaml@),
{
    let lines: Vec<Vec<char>> = lines_of(yaml);
    let ghost all = char_views(lines@);
    let mut out: Vec<Vec<char>> = Vec::new();
    let mut i: usize = 0;
    proof {
        assert(all.skip(0) =~= all);
        assert(char_views(out@) + compact_lines(all) =~= compact_lines(all));
    }
    while i < lines.len()
        invariant
            all == char_views(lines@),
            i <= lines@.len(),
            char_views(out@) + compact_lines(all.skip(i as int)) == compact_lines(all),
        decreases lines@.len() - i,
    {
        let (n, block) = fold_block(&lines, i);
        let ghost before = char_views(out@);
        let ghost rest = all.skip(i as int);
        append_lines(&mut out, &block);
        proof {
            assert(rest.skip(n as int) =~= all.skip(i + n));
            assert(char_views(out@) + compact_lines(all.skip(i + n)) =~= before + compact_lines(
                rest,
            ));
        }
        i = i + n;
    }
    proof {
        assert(all.skip(i as int) =~= Seq::<Seq<char>>::empty());
        assert(char_views(out@) + compact_lines(all.skip(i as int)) =~= char_views(out@));
    }
    let text: Vec<char> = join_parts(&out, "\n");
    string_of(&text)
}

// ===== Laws =====

/// Lines that open neither a rectangle nor an image or text element are kept as
/// they are.
pub proof fn law_other_lines_are_kept(lines: Seq<Seq<char>>)
    requires
        forall|i: int|
            0 <= i < lines.len() ==> !opens_rect(#[trigger] lines[i]) && !opens_element(lines[i]),
    ensures
        compact_lines(lines) == lines,
    decreases lines.len(),
{
    if lines.len() > 0 {
        lemma_first_block_len(lines);
        let n = first_block(lines).0 as int;
        let rest = lines.skip(n);
        assert forall|i: int| 0 <= i < rest.len() implies !opens_rect(#[trigger] rest[i])
            && !opens_element(rest[i]) by {
            assert(rest[i] == lines[i + n]);
        }
        law_other_lines_are_kept(rest);
        assert(!opens_rect(lines[0]));
        assert(first_block(lines).1 =~= lines.take(n));
        assert(lines.take(n) + rest =~= lines);
    }
}

/// Whether `out` is a block with nothing lost: the lines themselves; or the
/// first line with the entries of all others on one line; or the lines, the
/// first one indented by spaces, with the entries of the last ones on one line.
pub open spec fn loses_nothing(block: Seq<Seq<char>>, out: Seq<Seq<char>>, entries: Seq<Entry>) -> bool {
    let m = block.len() - entries.len();
    &&& forall|k: int|
        0 <= k < entries.len() ==> scalar_entry(text::trim_start(block[m + k])) == Some(
            #[trigger] entries[k],
        )
    &&& {
        ||| entries.len() == 0 && out == block
        ||| m == 1 && out == seq![flow_line(indent_of(block[0]), parent_of(block[0]), entries)]
        ||| 1 <= m && out == seq![spaces(indent_of(block[0])) + text::trim_start(block[0])]
            + block.subrange(1, m) + seq![
            flow_line(keys_indent(block[0]), "geometry"@, entries),
        ]
    }
}

/// Folding a block loses nothing: every line is kept, or its entry stands in the
/// line that the entries are folded into, in the same order.
pub proof fn law_folding_loses_nothing(lines: Seq<Seq<char>>)
    requires
        lines.len() > 0,
    ensures
        ({
            let (n, out) = first_block(lines);
            exists|entries: Seq<Entry>| #[trigger] loses_nothing(lines.take(n as int), out, entries)
        }),
{
    let (n, out) = first_block(lines);
    let rest = lines.drop_first();
    let line = lines[0];
    let indent = indent_of(line);
    let block = lines.take(n as int);
    lemma_first_block_len(lines);
    if opens_rect(line) && rect_folds(parent_of(line), leading_entries(rest, indent)) {
        let entries = leading_entries(rest, indent);
        lemma_leading_entries(rest, indent);
        assert forall|k: int| 0 <= k < entries.len() implies scalar_entry(
            text::trim_start(block[1 + k]),
        ) == Some(#[trigger] entries[k]) by {
            assert(block[1 + k] == rest[k]);
        }
        assert(loses_nothing(block, out, entries));
    } else if !opens_rect(line) && opens_element(line) && geometry_folds(
        trailing_geometry(rest.take(block_len(rest, indent) as int), keys_indent(line)),
    ) {
        lemma_block_len(rest, indent);
        let own = rest.take(block_len(rest, indent) as int);
        let entries = trailing_geometry(own, keys_indent(line));
        lemma_trailing_entries(own, keys_indent(line));
        let m = block.len() - entries.len();
        assert forall|k: int| 0 <= k < entries.len() implies scalar_entry(
            text::trim_start(block[m + k]),
        ) == Some(#[trigger] entries[k]) by {
            assert(block[m + k] == own[own.len() - entries.len() + k]);
        }
        assert(block.subrange(1, m) =~= own.take(own.len() - entries.len()));
        assert(loses_nothing(block, out, entries));
    } else {
        assert(out =~= block);
        assert(loses_nothing(block, out, Seq::empty()));
    }
}

proof fn lemma_leading_entries(lines: Seq<Seq<char>>, indent: nat)
    ensures
        leading_entries(lines, indent).len() <= lines.len(),
        forall|k: int|
            0 <= k < leading_entries(lines, indent).len() ==> scalar_entry(
                text::trim_start(lines[k]),
            ) == Some(#[trigger] leading_entries(lines, indent)[k]),
    decreases lines.len(),
{
    if lines.len() > 0 {
        lemma_leading_entries(lines.drop_first(), indent);
        let rest = leading_entries(lines.drop_first(), indent);
        assert forall|k: int| 0 <= k < leading_entries(lines, indent).len() implies scalar_entry(
            text::trim_start(lines[k]),
        ) == Some(#[trigger] leading_entries(lines, indent)[k]) by {
            if k > 0 {
                assert(leading_entries(lines, indent)[k] == rest[k - 1]);
                assert(lines.drop_first()[k - 1] == lines[k]);
            }
        }
    }
}

proof fn lemma_trailing_entries(block: Seq<Seq<char>>, keys: nat)
    ensures
        trailing_geometry(block, keys).len() <= block.len(),
        forall|k: int|
            0 <= k < trailing_geometry(block, keys).len() ==> scalar_entry(
                text::trim_start(block[block.len() - trailing_geometry(block, keys).len() + k]),
            ) == Some(#[trigger] trailing_geometry(block, keys)[k]),
    decreases block.len(),
{
    if block.len() > 0 {
        lemma_trailing_entries(block.drop_last(), keys);
        let all = trailing_geometry(block, keys);
        let rest = trailing_geometry(block.drop_last(), keys);
        assert forall|k: int| 0 <= k < all.len() implies scalar_entry(
            text::trim_start(block[block.len() - all.len() + k]),
        ) == Some(#[trigger] all[k]) by {
            if k < rest.len() {
                assert(all[k] == rest[k]);
                assert(block.drop_last()[block.len() - 1 - rest.len() + k] == block[block.len()
                    - all.len() + k]);
            }
        }
    }
}

proof fn lemma_trim_spaces(n: nat, content: Seq<char>)
    requires
        content.len() > 0,
        !text::is_white(content[0]),
    ensures
        text::trim_start(spaces(n) + content) == content,
        text::utf8_size(spaces(n)) == n,
    decreases n,
{
    if n == 0 {
        assert(spaces(n) + content =~= content);
    } else {
        let m = (n - 1) as nat;
        lemma_trim_spaces(m, content);
        assert((spaces(n) + content).drop_first() =~= spaces(m) + content);
        assert(spaces(n).drop_first() =~= spaces(m));
        assert((spaces(n) + content)[0] == ' ');
    }
}

/// The indent of a line is the number of its leading spaces, and a line that names
/// something before a colon at its end names it, whatever the indent.
pub proof fn law_indent_counts_spaces(n: nat, content: Seq<char>)
    requires
        content.len() > 0,
        !text::is_white(content[0]),
    ensures
        indent_of(spaces(n) + content) == n,
        spaces(n).len() == n,
        forall|i: int| 0 <= i < n ==> #[trigger] spaces(n)[i] == ' ',
        !text::is_white(content.last()) ==> parent_of(spaces(n) + content + seq![':']) == content,
        content.last() != ':' ==> parent_of(spaces(n) + content).len() == 0,
{
    lemma_trim_spaces(n, content);
    let line = spaces(n) + content;
    assert(line.take(line.len() - content.len()) =~= spaces(n));
    let named = content + seq![':'];
    lemma_trim_spaces(n, named);
    assert(spaces(n) + content + seq![':'] =~= spaces(n) + named);
    assert(named.drop_last() =~= content);
    assert(named.last() == ':');
}

/// A line "key: value" whose value is made of the characters of numbers is an
/// entry with that key and value, and one whose value has any other character is
/// none.
pub proof fn law_entries_are_read(key: Seq<char>, val: Seq<char>)
    requires
        key.len() > 0,
        val.len() > 0,
        forall|i: int| 0 <= i < key.len() ==> #[trigger] key[i] != ':',
        !text::is_white(key[0]),
        !text::is_white(key.last()),
        !text::is_white(val[0]),
        !text::is_white(val.last()),
    ensures
        (forall|i: int|
            0 <= i < val.len() ==> '0' <= #[trigger] val[i] && val[i] <= '9' || val[i] == '.'
                || val[i] == '-' || val[i] == '+' || val[i] == 'e' || val[i] == 'E')
            ==> scalar_entry(key + seq![':', ' '] + val) == Some((key, val)),
        (exists|i: int|
            0 <= i < val.len() && !('0' <= #[trigger] val[i] && val[i] <= '9') && val[i] != '.'
                && val[i] != '-' && val[i] != '+' && val[i] != 'e' && val[i] != 'E')
            ==> scalar_entry(key + seq![':', ' '] + val) is None,
{
    let s = key + seq![':', ' '] + val;
    let k = key.len() as int;
    crate::lines::lemma_first_at(s, ':');
    let f = first_at(s, ':') as int;
    assert(s[k] == ':');
    if f < k {
        assert(s[f] == key[f]);
    }
    assert(f == k);
    assert(s.take(k) =~= key);
    let behind = s.skip(k + 1);
    assert(behind =~= seq![' '] + val);
    text::law_trim_takes_white_off(val, ' ', ' ');
    assert(text::trim(val) == val);
    assert(text::trim(key) == key);
    if exists|i: int|
        0 <= i < val.len() && !('0' <= #[trigger] val[i] && val[i] <= '9') && val[i] != '.'
            && val[i] != '-' && val[i] != '+' && val[i] != 'e' && val[i] != 'E' {
        let i = choose|i: int|
            0 <= i < val.len() && !('0' <= #[trigger] val[i] && val[i] <= '9') && val[i] != '.'
                && val[i] != '-' && val[i] != '+' && val[i] != 'e' && val[i] != 'E';
        assert(!is_number_char(val[i]));
    }
}

/// On one line a mapping has its name, and in braces its entries, each with its
/// key and value, and commas between them.
pub proof fn law_mapping_on_one_line(
    indent: nat,
    name: Seq<char>,
    entries: Seq<Entry>,
    e: Entry,
)
    ensures
        flow_line(indent, name, seq![e]) == spaces(indent) + name + ": {"@ + e.0 + ": "@ + e.1
            + "}"@,
        entries.len() > 0 ==> flow_line(indent, name, entries.push(e)) == flow_line(
            indent,
            name,
            entries,
        ).drop_last() + ", "@ + e.0 + ": "@ + e.1 + "}"@,
{
    reveal_strlit("}");
    let f = |x: Entry| entry_text(x);
    assert(seq![e].map_values(f) =~= seq![entry_text(e)]);
    crate::lines::law_join_separates(entries.map_values(f), entry_text(e), ", "@);
    assert(entries.push(e).map_values(f) =~= entries.map_values(f).push(entry_text(e)));
    assert(flow_line(indent, name, seq![e]) =~= spaces(indent) + name + ": {"@ + e.0 + ": "@ + e.1
        + "}"@);
    if entries.len() > 0 {
        let l = flow_line(indent, name, entries);
        assert(l.drop_last() =~= spaces(indent) + name + ": {"@ + join(
            entries.map_values(f),
            ", "@,
        ));
        assert(flow_line(indent, name, entries.push(e)) =~= l.drop_last() + ", "@ + e.0 + ": "@
            + e.1 + "}"@);
    }
}

proof fn lemma_leading_are(lines: Seq<Seq<char>>, indent: nat, entries: Seq<Entry>)
    requires
        entries.len() <= lines.len(),
        forall|k: int|
            0 <= k < entries.len() ==> indent_of(#[trigger] lines[k]) > indent && text::trim_start(
                lines[k],
            ).len() > 0 && scalar_entry(text::trim_start(lines[k])) == Some(entries[k]),
        lines.len() > entries.len() ==> {
            let next = lines[entries.len() as int];
            ||| indent_of(next) <= indent
            ||| text::trim_start(next).len() == 0
            ||| scalar_entry(text::trim_start(next)) is None
        },
    ensures
        leading_entries(lines, indent) == entries,
    decreases entries.len(),
{
    if entries.len() > 0 {
        let rest = lines.drop_first();
        let tail = entries.drop_first();
        assert(lines[0] == lines[0]);
        assert forall|k: int| 0 <= k < tail.len() implies indent_of(#[trigger] rest[k]) > indent
            && text::trim_start(rest[k]).len() > 0 && scalar_entry(text::trim_start(rest[k]))
            == Some(tail[k]) by {
            assert(rest[k] == lines[k + 1]);
        }
        if rest.len() > tail.len() {
            assert(rest[tail.len() as int] == lines[entries.len() as int]);
        }
        lemma_leading_are(rest, indent, tail);
        assert(seq![entries[0]] + tail =~= entries);
    } else {
        assert(entries =~= Seq::<Entry>::empty());
    }
}

/// A rectangle is written on one line with all its entries where it has a place,
/// and, unless it is a display rectangle, a size besides; else its first line is
/// kept as it is. The rectangle is what stands deeper behind that line, up to the
/// first line that is no entry with a plain number.
pub proof fn law_rectangles_fold(lines: Seq<Seq<char>>, entries: Seq<Entry>)
    requires
        1 + entries.len() <= lines.len(),
        ({
            let p = parent_of(lines[0]);
            p == "source"@ || p == "display"@ || p == "window"@
        }),
        forall|k: int|
            0 <= k < entries.len() ==> indent_of(lines[1 + k]) > indent_of(lines[0])
                && text::trim_start(lines[1 + k]).len() > 0 && scalar_entry(
                text::trim_start(lines[1 + k]),
            ) == Some(#[trigger] entries[k]),
        lines.len() > 1 + entries.len() ==> {
            let next = lines[1 + entries.len() as int];
            ||| indent_of(next) <= indent_of(lines[0])
            ||| text::trim_start(next).len() == 0
            ||| scalar_entry(text::trim_start(next)) is None
        },
    ensures
        ({
            let (n, out) = first_block(lines);
            let p = parent_of(lines[0]);
            let x = exists|i: int| 0 <= i < entries.len() && (#[trigger] entries[i]).0 == "x"@;
            let y = exists|i: int|
                0 <= i < entries.len() && ((#[trigger] entries[i]).0 == "y"@ || entries[i].0
                    == "'y'"@);
            let w = exists|i: int| 0 <= i < entries.len() && (#[trigger] entries[i]).0 == "w"@;
            let h = exists|i: int| 0 <= i < entries.len() && (#[trigger] entries[i]).0 == "h"@;
            if x && y && (p == "display"@ && entries.len() >= 2 || p != "display"@ && w && h
                && entries.len() >= 4) {
                n == 1 + entries.len() && out == seq![flow_line(indent_of(lines[0]), p, entries)]
            } else {
                n == 1 && out == seq![lines[0]]
            }
        }),
{
    let rest = lines.drop_first();
    let indent = indent_of(lines[0]);
    assert forall|k: int| 0 <= k < entries.len() implies indent_of(#[trigger] rest[k]) > indent
        && text::trim_start(rest[k]).len() > 0 && scalar_entry(text::trim_start(rest[k])) == Some(
        entries[k],
    ) by {
        assert(rest[k] == lines[1 + k]);
        assert(entries[k] == entries[k]);
    }
    if rest.len() > entries.len() {
        assert(rest[entries.len() as int] == lines[1 + entries.len() as int]);
    }
    lemma_leading_are(rest, indent, entries);
}

proof fn lemma_block_is(lines: Seq<Seq<char>>, indent: nat, n: int)
    requires
        0 <= n <= lines.len(),
        forall|k: int|
            0 <= k < n ==> indent_of(#[trigger] lines[k]) > indent && text::trim_start(
                lines[k],
            ).len() > 0,
        n < lines.len() ==> indent_of(lines[n]) <= indent || text::trim_start(lines[n]).len() == 0,
    ensures
        block_len(lines, indent) == n,
    decreases n,
{
    if n > 0 {
        let rest = lines.drop_first();
        assert(is_child(lines[0], indent));
        assert forall|k: int| 0 <= k < n - 1 implies indent_of(#[trigger] rest[k]) > indent
            && text::trim_start(rest[k]).len() > 0 by {
            assert(rest[k] == lines[k + 1]);
        }
        lemma_block_is(rest, indent, n - 1);
    }
}

/// Whether a line holds an entry of the geometry at the indent of the keys.
spec fn is_geometry_line(line: Seq<char>, keys: nat, e: Entry) -> bool {
    indent_of(line) == keys && geometry_entry(line) == Some(e)
}

proof fn lemma_trailing_are(block: Seq<Seq<char>>, keys: nat, entries: Seq<Entry>)
    requires
        entries.len() <= block.len(),
        forall|k: int|
            0 <= k < entries.len() ==> is_geometry_line(
                block[block.len() - entries.len() + k],
                keys,
                #[trigger] entries[k],
            ),
        block.len() > entries.len() ==> {
            let line = block[block.len() - entries.len() - 1];
            indent_of(line) != keys || geometry_entry(line) is None
        },
    ensures
        trailing_geometry(block, keys) == entries,
    decreases block.len(),
{
    if entries.len() > 0 {
        let n = block.len();
        let m = entries.len();
        let head = block.drop_last();
        let first = entries.drop_last();
        assert(is_geometry_line(block[n - m + (m - 1)], keys, entries[m - 1]));
        assert forall|k: int| 0 <= k < first.len() implies is_geometry_line(
            head[head.len() - first.len() + k],
            keys,
            #[trigger] first[k],
        ) by {
            assert(is_geometry_line(block[n - m + k], keys, entries[k]));
            assert(head[head.len() - first.len() + k] == block[n - m + k]);
        }
        if head.len() > first.len() {
            assert(head[head.len() - first.len() - 1] == block[n - m - 1]);
        }
        lemma_trailing_are(head, keys, first);
        assert(first.push(entries.last()) =~= entries);
    } else {
        assert(entries =~= Seq::<Entry>::empty());
        if block.len() > 0 {
            assert(block[block.len() - 1] == block.last());
        }
    }
}

/// The lines at the end of an image or text element that are entries of its
/// geometry are written on one line named "geometry", at the indent of the keys,
/// where they have a place; the lines before stay. `n` is the number of lines of
/// the element behind the first.
pub proof fn law_element_geometry_folds(lines: Seq<Seq<char>>, n: int, keys: nat, entries: Seq<Entry>)
    requires
        1 + n <= lines.len(),
        entries.len() <= n,
        !opens_rect(lines[0]),
        opens_element(lines[0]),
        keys == indent_of(lines[0]) + 2,
        forall|k: int|
            1 <= k <= n ==> indent_of(#[trigger] lines[k]) > indent_of(lines[0])
                && text::trim_start(lines[k]).len() > 0,
        1 + n < lines.len() ==> indent_of(lines[1 + n]) <= indent_of(lines[0]) || text::trim_start(
            lines[1 + n],
        ).len() == 0,
        forall|k: int|
            0 <= k < entries.len() ==> {
                let line = lines[1 + n - entries.len() + k];
                indent_of(line) == keys && geometry_entry(line) == Some(#[trigger] entries[k])
            },
        n > entries.len() ==> {
            let line = lines[n - entries.len()];
            indent_of(line) != keys || geometry_entry(line) is None
        },
    ensures
        ({
            let (m, out) = first_block(lines);
            let x = exists|i: int| 0 <= i < entries.len() && (#[trigger] entries[i]).0 == "x"@;
            let y = exists|i: int|
                0 <= i < entries.len() && ((#[trigger] entries[i]).0 == "y"@ || entries[i].0
                    == "'y'"@);
            if x && y && entries.len() >= 2 {
                &&& m == 1 + n
                &&& out == seq![spaces(indent_of(lines[0])) + text::trim_start(lines[0])]
                    + lines.subrange(1, 1 + n - entries.len()) + seq![
                    flow_line(keys, "geometry"@, entries),
                ]
            } else {
                m == 1 && out == seq![lines[0]]
            }
        }),
{
    let rest = lines.drop_first();
    let indent = indent_of(lines[0]);
    assert forall|k: int| 0 <= k < n implies indent_of(#[trigger] rest[k]) > indent
        && text::trim_start(rest[k]).len() > 0 by {
        assert(rest[k] == lines[k + 1]);
    }
    lemma_block_is(rest, indent, n);
    let block = rest.take(n);
    assert(keys_indent(lines[0]) == keys) by {
        reveal_strlit("- type:");
        reveal_strlit("- ");
        let c = text::trim_start(lines[0]);
        assert(c.take(7)[0] == '-' && c.take(7)[1] == ' ');
        assert(c.take(2) =~= "- "@);
    }
    assert forall|k: int| 0 <= k < entries.len() implies is_geometry_line(
        block[block.len() - entries.len() + k],
        keys,
        #[trigger] entries[k],
    ) by {
        let e = entries[k];
        let line = lines[1 + n - entries.len() + k];
        assert(geometry_entry(line) == Some(e));
        assert(block[n - entries.len() + k] == line);
    }
    if n > entries.len() {
        assert(block[n - entries.len() - 1] == lines[n - entries.len()]);
    }
    lemma_trailing_are(block, keys, entries);
    assert(block.take(n - entries.len()) =~= lines.subrange(1, 1 + n - entries.len()));
}

/// Geometry has these keys and no others, and its lines are entries of any
/// indent.
pub proof fn law_geometry_keys(line: Seq<char>)
    ensures
        match geometry_entry(line) {
            Some(e) => scalar_entry(text::trim_start(line)) == Some(e) && (e.0 == "x"@ || e.0 == "y"@
                || e.0 == "'y'"@ || e.0 == "w"@ || e.0 == "h"@ || e.0 == "z"@ || e.0 == "opacity"@
                || e.0 == "rotate"@),
            None => match scalar_entry(text::trim_start(line)) {
                Some(e) => e.0 != "x"@ && e.0 != "y"@ && e.0 != "'y'"@ && e.0 != "w"@ && e.0 != "h"@
                    && e.0 != "z"@ && e.0 != "opacity"@ && e.0 != "rotate"@,
                None => true,
            },
        },
{
}

/// The compact form goes block by block: what the first block becomes, and then
/// the compact form of the lines behind it. A text that is written on lines of its
/// own is taken over with all its lines.
pub proof fn law_blocks_one_after_the_other(lines: Seq<Seq<char>>)
    requires
        lines.len() > 0,
    ensures
        compact_lines(Seq::empty()).len() == 0,
        ({
            let b = first_block(lines);
            &&& 1 <= b.0 <= lines.len()
            &&& compact_lines(lines) == b.1 + compact_lines(lines.skip(b.0 as int))
            &&& opens_text(lines[0]) && !opens_rect(lines[0]) && !opens_element(lines[0]) ==> b.1
                == lines.take(b.0 as int) && forall|k: int|
                1 <= k < b.0 ==> {
                    ||| indent_of(#[trigger] lines[k]) > keys_indent(lines[0])
                    ||| text::trim_start(lines[k]).len() == 0
                }
        }),
{
    lemma_first_block_len(lines);
    let rest = lines.drop_first();
    lemma_text_lines(rest, keys_indent(lines[0]));
    let b = first_block(lines);
    if opens_text(lines[0]) && !opens_rect(lines[0]) && !opens_element(lines[0]) {
        assert forall|k: int| 1 <= k < b.0 implies {
            ||| indent_of(#[trigger] lines[k]) > keys_indent(lines[0])
            ||| text::trim_start(lines[k]).len() == 0
        } by {
            assert(rest[k - 1] == lines[k]);
        }
    }
}

proof fn lemma_text_lines(lines: Seq<Seq<char>>, keys: nat)
    ensures
        text_len(lines, keys) <= lines.len(),
        forall|k: int|
            0 <= k < text_len(lines, keys) ==> {
                ||| indent_of(#[trigger] lines[k]) > keys
                ||| text::trim_start(lines[k]).len() == 0
            },
    decreases lines.len(),
{
    if lines.len() > 0 && (indent_of(lines[0]) > keys || text::trim_start(lines[0]).len() == 0) {
        let rest = lines.drop_first();
        lemma_text_lines(rest, keys);
        assert forall|k: int| 0 <= k < text_len(lines, keys) implies {
            ||| indent_of(#[trigger] lines[k]) > keys
            ||| text::trim_start(lines[k]).len() == 0
        } by {
            if k > 0 {
                assert(rest[k - 1] == lines[k]);
            }
        }
    }
}

} // verus!
