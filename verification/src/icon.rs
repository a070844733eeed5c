//! Icon files: several sizes of one picture, each a bitmap without compression.

use vstd::prelude::*;

use crate::decimal;
use crate::decimal::parse_u32;
use crate::text::{chars_of, string_of};

verus! {

/// A number of sixteen bits, low byte first.
pub open spec fn le16(v: int) -> Seq<u8> {
    seq![(v % 256) as u8, (v / 256 % 256) as u8]
}

/// A number of thirty-two bits, low byte first.
pub open spec fn le32(v: int) -> Seq<u8> {
    seq![
        (v % 256) as u8,
        (v / 256 % 256) as u8,
        (v / 0x1_0000 % 256) as u8,
        (v / 0x100_0000 % 256) as u8,
    ]
}

fn put16(out: &mut Vec<u8>, v: u16)
    ensures
        final(out)@ == old(out)@ + le16(v as int),
{
    out.push((v % 256) as u8);
    out.push((v / 256 % 256) as u8);
    assert(out@ =~= old(out)@ + le16(v as int));
}

fn put32(out: &mut Vec<u8>, v: u32)
    ensures
        final(out)@ == old(out)@ + le32(v as int),
{
    out.push((v % 256) as u8);
    out.push((v / 256 % 256) as u8);
    out.push((v / 0x1_0000 % 256) as u8);
    out.push((v / 0x100_0000 % 256) as u8);
    assert(out@ =~= old(out)@ + le32(v as int));
}

fn put_bytes(out: &mut Vec<u8>, v: &Vec<u8>, from: usize, to: usize)
    requires
        from <= to <= v@.len(),
    ensures
        final(out)@ == old(out)@ + v@.subrange(from as int, to as int),
{
    let ghost before = out@;
    assert(before + v@.subrange(from as int, from as int) =~= before);
    let mut i: usize = from;
    while i < to
        invariant
            from <= i <= to <= v@.len(),
            out@ == before + v@.subrange(from as int, i as int),
        decreases to - i,
    {
        out.push(v[i]);
        i += 1;
        assert(out@ =~= before + v@.subrange(from as int, i as int));
    }
}

fn put_zeros(out: &mut Vec<u8>, n: usize)
    ensures
        final(out)@ == old(out)@ + Seq::new(n as nat, |i: int| 0u8),
{
    let ghost before = out@;
    assert(before + Seq::new(0, |i: int| 0u8) =~= before);
    for k in 0..n
        invariant
            out@ == before + Seq::new(k as nat, |i: int| 0u8),
    {
        out.push(0);
        assert(out@ =~= before + Seq::new((k + 1) as nat, |i: int| 0u8));
    }
}

// ===== One size =====

/// The header of a bitmap. The height counts the mask too.
pub open spec fn bitmap_header(size: int) -> Seq<u8> {
    le32(40) + le32(size) + le32(size * 2) + le16(1) + le16(32) + le32(0) + le32(0) + le32(0)
        + le32(0) + le32(0) + le32(0)
}

/// The last `n` rows of a picture, the lowest first.
pub open spec fn rows_up(picture: Seq<u8>, size: int, n: int) -> Seq<u8>
    decreases n,
{
    if n <= 0 {
        Seq::empty()
    } else {
        let y = size - n;
        rows_up(picture, size, n - 1) + picture.subrange(y * size * 4, y * size * 4 + size * 4)
    }
}

/// The bytes of a mask: a bit for each pixel, rows filled up to thirty-two bits.
pub open spec fn mask_size(size: int) -> int {
    (size + 31) / 32 * 4 * size
}

/// A bitmap of a size: header, rows from the lowest up, and a mask that hides
/// nothing.
pub open spec fn dib_entry(size: int, picture: Seq<u8>) -> Seq<u8> {
    bitmap_header(size) + rows_up(picture, size, size) + Seq::new(
        mask_size(size) as nat,
        |i: int| 0u8,
    )
}

fn put_header(out: &mut Vec<u8>, size: u32)
    requires
        size <= 0x7fff,
    ensures
        final(out)@ == old(out)@ + bitmap_header(size as int),
{
    let ghost before = out@;
    put32(out, 40);
    put32(out, size);
    put32(out, size * 2);
    put16(out, 1);
    put16(out, 32);
    put32(out, 0);
    put32(out, 0);
    put32(out, 0);
    put32(out, 0);
    put32(out, 0);
    put32(out, 0);
    assert(out@ =~= before + bitmap_header(size as int));
}

/// Encodes a picture of a size, four bytes for each pixel, rows from the top
/// down.
pub fn encode_dib_entry(size: u32, picture: &Vec<u8>) -> (r: Vec<u8>)
    requires
        size <= 0x7fff,
        picture@.len() == size * size * 4,
    ensures
        r@ == dib_entry(size as int, picture@),
{
    let mut out: Vec<u8> = Vec::new();
    put_header(&mut out, size);
    let ghost head = out@;
    assert(head =~= bitmap_header(size as int));
    let row: usize = size as usize * 4;
    let total: usize = picture.len();
    assert(head + rows_up(picture@, size as int, 0) =~= head);
    let mut n: u32 = 0;
    while n < size
        invariant
            n <= size <= 0x7fff,
            row == size * 4,
            total == picture@.len(),
            total == size * size * 4,
            out@ == head + rows_up(picture@, size as int, n as int),
        decreases size - n,
    {
        n += 1;
        let y: usize = (size - n) as usize;
        proof {
            let s = size as int;
            assert(y * s * 4 + s * 4 <= s * s * 4 && 0 <= y * s * 4) by (nonlinear_arith)
                requires
                    0 <= y <= s - 1,
                    s <= 0x7fff,
            ;
            assert(y * row == y * s * 4) by (nonlinear_arith)
                requires
                    row == s * 4,
            ;
        }
        let from: usize = y * row;
        put_bytes(&mut out, picture, from, from + row);
        assert(out@ =~= head + rows_up(picture@, size as int, n as int));
    }
    let per_row: usize = (size as usize + 31) / 32 * 4;
    proof {
        let s = size as int;
        assert(per_row == (s + 31) / 32 * 4);
        assert(per_row * s <= 0x7fff * 0x1000) by (nonlinear_arith)
            requires
                0 <= per_row <= 0x1000,
                0 <= s <= 0x7fff,
        ;
    }
    put_zeros(&mut out, per_row * size as usize);
    out
}

// ===== The file =====

/// The entry of a size in the directory of a file.
pub open spec fn dir_entry(size: u32, len: int, offset: int) -> Seq<u8> {
    let side = if size >= 256 {
        0u8
    } else {
        size as u8
    };
    seq![side, side, 0u8, 0u8] + le16(1) + le16(32) + le32(len) + le32(offset)
}

/// The bytes of the first `n` images.
pub open spec fn images_size(images: Seq<Seq<u8>>, n: int) -> int
    decreases n,
{
    if n <= 0 {
        0
    } else {
        images_size(images, n - 1) + images[n - 1].len()
    }
}

/// The first `n` entries of the directory.
pub open spec fn dir_entries(sizes: Seq<u32>, images: Seq<Seq<u8>>, n: int) -> Seq<u8>
    decreases n,
{
    if n <= 0 {
        Seq::empty()
    } else {
        dir_entries(sizes, images, n - 1) + dir_entry(
            sizes[n - 1],
            images[n - 1].len() as int,
            6 + 16 * sizes.len() + images_size(images, n - 1),
        )
    }
}

/// The first `n` images.
pub open spec fn images_joined(images: Seq<Seq<u8>>, n: int) -> Seq<u8>
    decreases n,
{
    if n <= 0 {
        Seq::empty()
    } else {
        images_joined(images, n - 1) + images[n - 1]
    }
}

/// An icon file: head, directory, and the images.
pub open spec fn icon_file(sizes: Seq<u32>, images: Seq<Seq<u8>>) -> Seq<u8> {
    let n = sizes.len() as int;
    le16(0) + le16(1) + le16(n) + dir_entries(sizes, images, n) + images_joined(images, n)
}

/// The images of a list.
pub open spec fn image_views(v: Seq<Vec<u8>>) -> Seq<Seq<u8>> {
    v.map_values(|b: Vec<u8>| b@)
}

fn put_entry(out: &mut Vec<u8>, size: u32, len: u32, offset: u32)
    ensures
        final(out)@ == old(out)@ + dir_entry(size, len as int, offset as int),
{
    let ghost before = out@;
    let side: u8 = if size >= 256 {
        0
    } else {
        size as u8
    };
    out.push(side);
    out.push(side);
    out.push(0);
    out.push(0);
    put16(out, 1);
    put16(out, 32);
    put32(out, len);
    put32(out, offset);
    assert(out@ =~= before + dir_entry(size, len as int, offset as int));
}

pub proof fn lemma_images_size(images: Seq<Seq<u8>>, a: int, b: int)
    requires
        0 <= a <= b <= images.len(),
    ensures
        0 <= images_size(images, a) <= images_size(images, b),
    decreases b,
{
    if b > 0 {
        if a < b {
            lemma_images_size(images, a, b - 1);
        } else {
            lemma_images_size(images, a - 1, b - 1);
        }
    }
}

/// Packs images of several sizes into an icon file.
pub fn pack_ico(sizes: &Vec<u32>, images: &Vec<Vec<u8>>) -> (r: Vec<u8>)
    requires
        sizes@.len() == images@.len(),
        sizes@.len() <= 0xffff,
        6 + 16 * sizes@.len() + images_size(image_views(images@), sizes@.len() as int) <= u32::MAX,
    ensures
        r@ == icon_file(sizes@, image_views(images@)),
{
    let ghost all = image_views(images@);
    let count: usize = sizes.len();
    let ghost n = count as int;
    let mut out: Vec<u8> = Vec::new();
    put16(&mut out, 0);
    put16(&mut out, 1);
    put16(&mut out, count as u16);
    let ghost head = out@;
    assert(head =~= le16(0) + le16(1) + le16(n));
    let mut offset: u32 = 6 + 16 * (count as u32);
    assert(head + dir_entries(sizes@, all, 0) =~= head);
    for i in 0..count
        invariant
            n == count,
            count == sizes@.len(),
            count == images@.len(),
            count <= 0xffff,
            all == image_views(images@),
            6 + 16 * n + images_size(all, n) <= u32::MAX,
            offset == 6 + 16 * n + images_size(all, i as int),
            out@ == head + dir_entries(sizes@, all, i as int),
    {
        proof {
            lemma_images_size(all, i + 1, n);
            lemma_images_size(all, 0, i as int);
            assert(all[i as int] == images@[i as int]@);
        }
        let len: u32 = images[i].len() as u32;
        put_entry(&mut out, sizes[i], len, offset);
        offset += len;
        assert(out@ =~= head + dir_entries(sizes@, all, i + 1));
    }
    let ghost top = out@;
    assert(top + images_joined(all, 0) =~= top);
    for i in 0..count
        invariant
            count == images@.len(),
            all == image_views(images@),
            out@ == top + images_joined(all, i as int),
    {
        let ghost before = out@;
        put_bytes(&mut out, &images[i], 0, images[i].len());
        proof {
            assert(images@[i as int]@.subrange(0, images@[i as int]@.len() as int)
                =~= images@[i as int]@);
            assert(all[i as int] == images@[i as int]@);
            assert(out@ =~= top + images_joined(all, i + 1));
        }
    }
    out
}

// ===== Version numbers =====

/// The parts of a text between points.
pub open spec fn point_parts(s: Seq<char>) -> Seq<Seq<char>>
    decreases s.len(),
{
    if s.len() == 0 {
        seq![Seq::empty()]
    } else if s.last() == '.' {
        point_parts(s.drop_last()).push(Seq::empty())
    } else {
        let p = point_parts(s.drop_last());
        p.update(p.len() - 1, p.last().push(s.last()))
    }
}

/// The number of a part; zero where it writes none.
pub open spec fn part_number(s: Seq<char>) -> u32 {
    match decimal::read_u32(s) {
        Some(v) => v,
        None => 0,
    }
}

/// The four numbers of a version: missing ones are zero, and all are where there
/// are more than four.
pub open spec fn version_quad(s: Seq<char>) -> (u32, u32, u32, u32) {
    let p = point_parts(s);
    let at = |i: int|
        if i < p.len() {
            part_number(p[i])
        } else {
            0u32
        };
    if p.len() <= 4 {
        (at(0), at(1), at(2), at(3))
    } else {
        (0, 0, 0, 0)
    }
}

/// The parts of a list of parts.
pub open spec fn char_seqs(v: Seq<Vec<char>>) -> Seq<Seq<char>> {
    v.map_values(|p: Vec<char>| p@)
}

fn split_points(s: &str) -> (r: Vec<Vec<char>>)
    ensures
        char_seqs(r@) == point_parts(s@),
{
    let all: Vec<char> = chars_of(s);
    let mut parts: Vec<Vec<char>> = Vec::new();
    let mut part: Vec<char> = Vec::new();
    assert(char_seqs(parts@).push(part@) =~= point_parts(all@.take(0)));
    for i in 0..all.len()
        invariant
            char_seqs(parts@).push(part@) == point_parts(all@.take(i as int)),
    {
        let c: char = all[i];
        let ghost before = char_seqs(parts@).push(part@);
        proof {
            assert(all@.take(i + 1).drop_last() =~= all@.take(i as int));
            assert(all@.take(i + 1).last() == c);
        }
        if c == '.' {
            let ghost old_parts = parts@;
            let ghost done = part@;
            parts.push(part);
            part = Vec::new();
            assert(char_seqs(parts@) =~= char_seqs(old_parts).push(done));
            assert(char_seqs(parts@).push(part@) =~= before.push(Seq::empty()));
        } else {
            part.push(c);
            assert(char_seqs(parts@).push(part@) =~= before.update(
                before.len() - 1,
                before.last().push(c),
            ));
        }
    }
    let ghost old_parts = parts@;
    let ghost done = part@;
    parts.push(part);
    assert(char_seqs(parts@) =~= char_seqs(old_parts).push(done));
    assert(all@.take(all@.len() as int) =~= all@);
    parts
}

fn number_at(parts: &Vec<Vec<char>>, i: usize) -> (r: u32)
    ensures
        r == (if i < parts@.len() {
            part_number(char_seqs(parts@)[i as int])
        } else {
            0
        }),
{
    if i < parts.len() {
        match parse_u32(string_of(&parts[i]).as_str()) {
            Some(v) => v,
            None => 0,
        }
    } else {
        0
    }
}

/// The four numbers of a version.
pub fn version_numbers(version: &str) -> (r: (u32, u32, u32, u32))
    ensures
        r == version_quad(version@),
{
    let parts: Vec<Vec<char>> = split_points(version);
    if parts.len() > 4 {
        return (0, 0, 0, 0);
    }
    (number_at(&parts, 0), number_at(&parts, 1), number_at(&parts, 2), number_at(&parts, 3))
}

// ===== Laws =====

proof fn lemma_rows_up_len(picture: Seq<u8>, size: int, n: int)
    requires
        0 <= n <= size,
        picture.len() == size * size * 4,
    ensures
        rows_up(picture, size, n).len() == n * size * 4,
    decreases n,
{
    if n > 0 {
        lemma_rows_up_len(picture, size, n - 1);
        let y = size - n;
        assert(0 <= y * size * 4 && y * size * 4 + size * 4 <= size * size * 4)
            by (nonlinear_arith)
            requires
                0 <= y <= size - 1,
        ;
        assert((n - 1) * size * 4 + size * 4 == n * size * 4) by (nonlinear_arith);
    } else {
        assert(n * size * 4 == 0) by (nonlinear_arith)
            requires
                n == 0,
        ;
    }
}

/// A bitmap holds its header, four bytes for each pixel, and the mask.
pub proof fn law_dib_size(size: int, picture: Seq<u8>)
    requires
        0 <= size,
        picture.len() == size * size * 4,
    ensures
        dib_entry(size, picture).len() == 40 + size * size * 4 + mask_size(size),
{
    lemma_rows_up_len(picture, size, size);
    assert(mask_size(size) >= 0) by (nonlinear_arith)
        requires
            mask_size(size) == (size + 31) / 32 * 4 * size,
            size >= 0,
    ;
}

proof fn lemma_dir_len(sizes: Seq<u32>, images: Seq<Seq<u8>>, n: int)
    requires
        0 <= n,
    ensures
        dir_entries(sizes, images, n).len() == 16 * n,
    decreases n,
{
    if n > 0 {
        lemma_dir_len(sizes, images, n - 1);
    }
}

proof fn lemma_joined(images: Seq<Seq<u8>>, i: int, n: int)
    requires
        0 <= i < n <= images.len(),
    ensures
        images_joined(images, n).len() == images_size(images, n),
        images_size(images, i) + images[i].len() <= images_size(images, n),
        0 <= images_size(images, i),
        images_joined(images, n).subrange(
            images_size(images, i),
            images_size(images, i) + images[i].len(),
        ) == images[i],
    decreases n,
{
    lemma_images_size(images, 0, i);
    lemma_images_size(images, i + 1, n);
    lemma_joined_len(images, n);
    lemma_joined_len(images, n - 1);
    let all = images_joined(images, n);
    let a = images_size(images, i);
    let b = a + images[i].len();
    if i == n - 1 {
        assert(all.subrange(a, b) =~= images[i]);
    } else {
        lemma_joined(images, i, n - 1);
        assert(all.subrange(a, b) =~= images_joined(images, n - 1).subrange(a, b));
    }
}

proof fn lemma_joined_len(images: Seq<Seq<u8>>, n: int)
    ensures
        images_joined(images, n).len() == images_size(images, n),
    decreases n,
{
    if n > 0 {
        lemma_joined_len(images, n - 1);
    }
}

/// Every image lies in the file where the directory says that it does.
pub proof fn law_images_are_where_they_should_be(sizes: Seq<u32>, images: Seq<Seq<u8>>, i: int)
    requires
        sizes.len() == images.len(),
        0 <= i < images.len(),
    ensures
        ({
            let at = 6 + 16 * sizes.len() + images_size(images, i);
            &&& at + images[i].len() <= icon_file(sizes, images).len()
            &&& icon_file(sizes, images).subrange(at, at + images[i].len()) == images[i]
        }),
{
    let n = sizes.len() as int;
    lemma_dir_len(sizes, images, n);
    lemma_joined(images, i, n);
    let f = icon_file(sizes, images);
    let a = images_size(images, i);
    let at = 6 + 16 * n + a;
    assert(f.subrange(at, at + images[i].len()) =~= images_joined(images, n).subrange(
        a,
        a + images[i].len(),
    ));
}

/// Numbers are written with their low byte first: the bytes, each 256 times the
/// one before, add up to the number.
pub proof fn law_low_byte_first(v: int)
    ensures
        0 <= v < 0x1_0000 ==> le16(v).len() == 2 && le16(v)[0] + 0x100 * le16(v)[1] == v,
        0 <= v < 0x1_0000_0000 ==> le32(v).len() == 4 && le32(v)[0] + 0x100 * le32(v)[1]
            + 0x1_0000 * le32(v)[2] + 0x100_0000 * le32(v)[3] == v,
{
}

/// The rows of a bitmap go from the lowest up: byte `b` of row `y` of the picture
/// stands in the row that counts as much from the end.
pub proof fn law_rows_go_up(picture: Seq<u8>, size: int, n: int, y: int, b: int)
    requires
        0 <= n <= size,
        picture.len() == size * size * 4,
        size - n <= y < size,
        0 <= b < size * 4,
    ensures
        rows_up(picture, size, n)[(size - 1 - y) * size * 4 + b] == picture[y * size * 4 + b],
    decreases n,
{
    lemma_rows_up_len(picture, size, n);
    lemma_rows_up_len(picture, size, n - 1);
    let top = size - n;
    let before = rows_up(picture, size, n - 1);
    assert(0 <= top * size * 4 && top * size * 4 + size * 4 <= size * size * 4) by (nonlinear_arith)
        requires
            0 <= top,
            top + 1 <= size,
    ;
    if y == top {
        assert((size - 1 - y) * size * 4 == (n - 1) * size * 4);
        assert(rows_up(picture, size, n)[(n - 1) * size * 4 + b] == picture.subrange(
            top * size * 4,
            top * size * 4 + size * 4,
        )[b]);
    } else {
        assert(0 <= (size - 1 - y) * size * 4 && (size - 1 - y) * size * 4 + size * 4 <= (n - 1)
            * size * 4) by (nonlinear_arith)
            requires
                0 <= size - 1 - y,
                size - 1 - y + 1 <= n - 1,
                0 <= size,
        ;
        law_rows_go_up(picture, size, n - 1, y, b);
        assert(rows_up(picture, size, n)[(size - 1 - y) * size * 4 + b] == before[(size - 1 - y)
            * size * 4 + b]);
    }
}

/// The header of a bitmap says how long it is, how wide the bitmap is, twice how
/// high, one plane and 32 bits for each pixel, and nothing else.
pub proof fn law_bitmap_header(size: int, i: int)
    requires
        16 <= i < 40,
    ensures
        bitmap_header(size).len() == 40,
        bitmap_header(size).subrange(0, 4) == le32(40),
        bitmap_header(size).subrange(4, 8) == le32(size),
        bitmap_header(size).subrange(8, 12) == le32(2 * size),
        bitmap_header(size).subrange(12, 14) == le16(1),
        bitmap_header(size).subrange(14, 16) == le16(32),
        bitmap_header(size)[i] == 0,
{
    assert(size * 2 == 2 * size);
    assert(bitmap_header(size).subrange(0, 4) =~= le32(40));
    assert(bitmap_header(size).subrange(4, 8) =~= le32(size));
    assert(bitmap_header(size).subrange(8, 12) =~= le32(2 * size));
    assert(bitmap_header(size).subrange(12, 14) =~= le16(1));
    assert(bitmap_header(size).subrange(14, 16) =~= le16(32));
}

/// The mask has a bit for each pixel in rows of whole groups of 32 bits, and hides
/// nothing.
pub proof fn law_mask_hides_nothing(size: int, picture: Seq<u8>, i: int)
    requires
        0 < size,
        picture.len() == size * size * 4,
        40 + size * size * 4 <= i < dib_entry(size, picture).len(),
    ensures
        dib_entry(size, picture)[i] == 0,
        mask_size(size) % size == 0,
        mask_size(size) / size % 4 == 0,
        size <= 8 * (mask_size(size) / size) < size + 32,
{
    lemma_rows_up_len(picture, size, size);
    law_bitmap_header(size, 16);
    let row = (size + 31) / 32 * 4;
    assert(row * size % size == 0 && row * size / size == row) by (nonlinear_arith)
        requires
            size > 0,
    ;
    assert(mask_size(size) == row * size);
}

/// An entry of the directory says the side, with zero for 256 and more, one plane
/// and 32 bits for each pixel, and how long the image is and where it begins.
pub proof fn law_directory_entry(size: u32, len: int, offset: int)
    ensures
        ({
            let e = dir_entry(size, len, offset);
            &&& e.len() == 16
            &&& e[0] == (if size < 256 { size as int } else { 0 })
            &&& e[1] == e[0]
            &&& e[2] == 0 && e[3] == 0
            &&& e.subrange(4, 6) == le16(1)
            &&& e.subrange(6, 8) == le16(32)
            &&& e.subrange(8, 12) == le32(len)
            &&& e.subrange(12, 16) == le32(offset)
        }),
{
    let e = dir_entry(size, len, offset);
    assert(e.subrange(4, 6) =~= le16(1));
    assert(e.subrange(6, 8) =~= le16(32));
    assert(e.subrange(8, 12) =~= le32(len));
    assert(e.subrange(12, 16) =~= le32(offset));
}

proof fn lemma_nth_entry(sizes: Seq<u32>, images: Seq<Seq<u8>>, n: int, i: int)
    requires
        0 <= i < n,
    ensures
        dir_entries(sizes, images, n).subrange(16 * i, 16 * i + 16) == dir_entry(
            sizes[i],
            images[i].len() as int,
            6 + 16 * sizes.len() + images_size(images, i),
        ),
    decreases n,
{
    lemma_dir_len(sizes, images, n);
    lemma_dir_len(sizes, images, n - 1);
    let d = dir_entry(
        sizes[n - 1],
        images[n - 1].len() as int,
        6 + 16 * sizes.len() + images_size(images, n - 1),
    );
    law_directory_entry(
        sizes[n - 1],
        images[n - 1].len() as int,
        6 + 16 * sizes.len() + images_size(images, n - 1),
    );
    if i == n - 1 {
        assert(dir_entries(sizes, images, n).subrange(16 * i, 16 * i + 16) =~= d);
    } else {
        lemma_nth_entry(sizes, images, n - 1, i);
        assert(dir_entries(sizes, images, n).subrange(16 * i, 16 * i + 16) =~= dir_entries(
            sizes,
            images,
            n - 1,
        ).subrange(16 * i, 16 * i + 16));
    }
}

/// An icon file begins with zero, one and the number of images, and then the
/// directory has an entry for each, with its side, its length and its place. Each
/// image begins where the one before ends.
pub proof fn law_icon_file(sizes: Seq<u32>, images: Seq<Seq<u8>>, i: int)
    requires
        sizes.len() == images.len(),
        0 <= i < images.len(),
    ensures
        ({
            let f = icon_file(sizes, images);
            &&& f.subrange(0, 2) == le16(0)
            &&& f.subrange(2, 4) == le16(1)
            &&& f.subrange(4, 6) == le16(images.len() as int)
            &&& f.subrange(6 + 16 * i, 22 + 16 * i) == dir_entry(
                sizes[i],
                images[i].len() as int,
                6 + 16 * images.len() + images_size(images, i),
            )
        }),
        images_size(images, 0) == 0,
        images_size(images, i + 1) == images_size(images, i) + images[i].len(),
{
    let f = icon_file(sizes, images);
    let n = sizes.len() as int;
    lemma_dir_len(sizes, images, n);
    lemma_nth_entry(sizes, images, n, i);
    assert(f.subrange(0, 2) =~= le16(0));
    assert(f.subrange(2, 4) =~= le16(1));
    assert(f.subrange(4, 6) =~= le16(n));
    assert(f.subrange(6 + 16 * i, 22 + 16 * i) =~= dir_entries(sizes, images, n).subrange(
        16 * i,
        16 * i + 16,
    ));
}

proof fn lemma_one_part(s: Seq<char>)
    requires
        forall|i: int| 0 <= i < s.len() ==> #[trigger] s[i] != '.',
    ensures
        point_parts(s) == seq![s],
    decreases s.len(),
{
    if s.len() == 0 {
        assert(s =~= Seq::<char>::empty());
    } else {
        let t = s.drop_last();
        assert forall|i: int| 0 <= i < t.len() implies #[trigger] t[i] != '.' by {
            assert(s[i] != '.');
        }
        assert(s[s.len() - 1] != '.');
        lemma_one_part(t);
        assert(t.push(s.last()) =~= s);
        assert(seq![t].update(0, s) =~= seq![s]);
    }
}

proof fn lemma_point_parts_len(s: Seq<char>)
    ensures
        point_parts(s).len() > 0,
    decreases s.len(),
{
    if s.len() > 0 {
        lemma_point_parts_len(s.drop_last());
    }
}

/// A point ends a part: what stands before it is split by itself, and what
/// follows without a further point is one part.
pub proof fn law_points_end_parts(s: Seq<char>, part: Seq<char>)
    requires
        forall|i: int| 0 <= i < part.len() ==> #[trigger] part[i] != '.',
    ensures
        point_parts(part) == seq![part],
        point_parts(s + seq!['.'] + part) == point_parts(s).push(part),
    decreases part.len(),
{
    lemma_one_part(part);
    let all = s + seq!['.'] + part;
    if part.len() == 0 {
        assert(all =~= s.push('.'));
        assert(all.drop_last() =~= s);
        assert(part =~= Seq::<char>::empty());
    } else {
        let t = part.drop_last();
        assert forall|i: int| 0 <= i < t.len() implies #[trigger] t[i] != '.' by {
            assert(part[i] != '.');
        }
        law_points_end_parts(s, t);
        assert(part[part.len() - 1] != '.');
        assert(all.drop_last() =~= s + seq!['.'] + t);
        assert(t.push(part.last()) =~= part);
        let p = point_parts(s).push(t);
        assert(p.update(p.len() - 1, part) =~= point_parts(s).push(part));
    }
}

/// The numbers of a version are those of its parts: a part that is no number, and
/// one that is missing, counts as zero; and of more than four parts all do.
pub proof fn law_version_numbers(s: Seq<char>)
    ensures
        ({
            let p = point_parts(s);
            let q = version_quad(s);
            &&& p.len() > 4 ==> q == (0u32, 0u32, 0u32, 0u32)
            &&& p.len() <= 4 ==> {
                &&& q.0 == (match decimal::read_u32(p[0]) {
                    Some(v) => v,
                    None => 0,
                })
                &&& p.len() > 1 && decimal::read_u32(p[1]) is Some ==> q.1 == decimal::read_u32(
                    p[1],
                ).unwrap()
                &&& p.len() > 2 && decimal::read_u32(p[2]) is Some ==> q.2 == decimal::read_u32(
                    p[2],
                ).unwrap()
                &&& p.len() > 3 && decimal::read_u32(p[3]) is Some ==> q.3 == decimal::read_u32(
                    p[3],
                ).unwrap()
                &&& p.len() <= 1 || decimal::read_u32(p[1]) is None ==> q.1 == 0
                &&& p.len() <= 2 || decimal::read_u32(p[2]) is None ==> q.2 == 0
                &&& p.len() <= 3 || decimal::read_u32(p[3]) is None ==> q.3 == 0
            }
        }),
{
    lemma_point_parts_len(s);
}

} // verus!
