//! Decoding of PNG pictures.

use vstd::prelude::*;

use crate::config;
use crate::config::png_intrinsic_size;
use crate::text::{append_text, chars_of, same_text, string_of};

verus! {

/// A picture: four bytes for each pixel, red, green, blue, alpha.
pub struct Picture {
    pub w: u32,
    pub h: u32,
    pub rgba: Vec<u8>,
}

/// A decoded frame: width, height, the name of its color type, and its bytes.
pub type Frame = (u32, u32, Seq<char>, Seq<u8>);

/// What decoding the bytes of a PNG file gives: the first frame with palettes
/// and gray levels below one byte expanded and sixteen-bit samples cut to one
/// byte; or an error text, with whether it came from reading the frame and not
/// from reading the header.
pub uninterp spec fn png_decoded(bytes: Seq<u8>) -> Result<
    (u32, u32, Seq<char>, Seq<u8>),
    (bool, Seq<char>),
>;

/// The number of bytes that the frame of a PNG file takes at four bytes for
/// each pixel, by the sizes in the header of the file.
pub open spec fn frame_bytes(bytes: Seq<u8>) -> int {
    if config::is_png_head(bytes) {
        config::be_u32(bytes.subrange(16, 20)) * config::be_u32(bytes.subrange(20, 24)) * 4
    } else {
        0
    }
}

/// Decodes a PNG file with `png::Decoder` (`read_info`, then `next_frame`),
/// with the transformations `EXPAND` and `STRIP_16`. The outcome depends on the
/// bytes alone. With these transformations every sample takes one byte, so a
/// frame of color type `Rgba` holds four bytes for each pixel and one of color
/// type `Rgb` three. The frame's buffer is allocated in one piece, so its size
/// must be one that can be allocated. What the pixels are is not stated beyond
/// their name.
#[verifier::external_body]
fn decode_png(bytes: &Vec<u8>) -> (r: Result<(u32, u32, String, Vec<u8>), (bool, String)>)
    requires
        frame_bytes(bytes@) <= isize::MAX,
    ensures
        match r {
            Ok(d) => png_decoded(bytes@) == Ok::<Frame, (bool, Seq<char>)>(
                (d.0, d.1, d.2@, d.3@),
            ) && (d.2@ == "Rgba"@ ==> d.3@.len() == d.0 * d.1 * 4) && (d.2@ == "Rgb"@
                ==> d.3@.len() == d.0 * d.1 * 3),
            Err(e) => png_decoded(bytes@) == Err::<Frame, (bool, Seq<char>)>((e.0, e.1@)),
        },
{
    let mut decoder = png::Decoder::new(bytes.as_slice());
    decoder.set_transformations(png::Transformations::EXPAND | png::Transformations::STRIP_16);
    let mut reader = decoder.read_info().map_err(|e| (false, format!("{}", e)))?;
    let mut buf: Vec<u8> = vec![0u8; reader.output_buffer_size()];
    let info = reader.next_frame(&mut buf).map_err(|e| (true, format!("{}", e)))?;
    buf.truncate(info.buffer_size());
    Ok((info.width, info.height, format!("{:?}", info.color_type), buf))
}

/// Pixel `i` of a buffer of three bytes for each pixel, made opaque.
pub open spec fn opaque_byte(data: Seq<u8>, b: int) -> u8 {
    if b % 4 == 3 {
        255
    } else {
        data[b / 4 * 3 + b % 4]
    }
}

/// A buffer of three bytes for each pixel as one of four.
pub open spec fn made_opaque(data: Seq<u8>) -> Seq<u8> {
    Seq::new((data.len() / 3 * 4) as nat, |b: int| opaque_byte(data, b))
}

/// The picture that a decoded frame is, or the error text. Only frames in color
/// without a palette are pictures.
pub open spec fn picture_text(d: Result<Frame, (bool, Seq<char>)>) -> Result<
    (u32, u32, Seq<u8>),
    Seq<char>,
> {
    match d {
        Ok(f) => if f.2 == "Rgba"@ {
            Ok((f.0, f.1, f.3))
        } else if f.2 == "Rgb"@ {
            Ok((f.0, f.1, made_opaque(f.3)))
        } else {
            Err("unsupported PNG color type: "@ + f.2)
        },
        Err(e) => if e.0 {
            Err("PNG frame read failed: "@ + e.1)
        } else {
            Err("PNG decode failed: "@ + e.1)
        },
    }
}

fn joined(a: &str, b: &str) -> (r: String)
    ensures
        r@ == a@ + b@,
{
    let mut v: Vec<char> = chars_of(a);
    append_text(&mut v, b);
    string_of(&v)
}

/// Turns a decoded frame into a picture.
pub fn picture_of(d: Result<(u32, u32, String, Vec<u8>), (bool, String)>) -> (r: Result<
    Picture,
    String,
>)
    ensures
        ({
            let t = picture_text(
                match d {
                    Ok(f) => Ok::<Frame, (bool, Seq<char>)>((f.0, f.1, f.2@, f.3@)),
                    Err(e) => Err::<Frame, (bool, Seq<char>)>((e.0, e.1@)),
                },
            );
            match r {
                Ok(p) => t == Ok::<(u32, u32, Seq<u8>), Seq<char>>((p.w, p.h, p.rgba@)),
                Err(e) => t == Err::<(u32, u32, Seq<u8>), Seq<char>>(e@),
            }
        }),
{
    match d {
        Ok(f) => {
            if same_text(f.2.as_str(), "Rgba") {
                Ok(Picture { w: f.0, h: f.1, rgba: f.3 })
            } else if same_text(f.2.as_str(), "Rgb") {
                let data: Vec<u8> = f.3;
                let total: usize = data.len();
                let n: usize = total / 3;
                let mut rgba: Vec<u8> = Vec::new();
                for i in 0..n
                    invariant
                        data@.len() == total,
                        n == total / 3,
                        rgba@.len() == 4 * i,
                        forall|b: int| 0 <= b < 4 * i ==> #[trigger] rgba@[b] == opaque_byte(data@, b),
                {
                    let s: usize = i * 3;
                    rgba.push(data[s]);
                    rgba.push(data[s + 1]);
                    rgba.push(data[s + 2]);
                    rgba.push(255);
                }
                assert(rgba@ =~= made_opaque(data@));
                Ok(Picture { w: f.0, h: f.1, rgba })
            } else {
                Err(joined("unsupported PNG color type: ", f.2.as_str()))
            }
        },
        Err(e) => {
            if e.0 {
                Err(joined("PNG frame read failed: ", e.1.as_str()))
            } else {
                Err(joined("PNG decode failed: ", e.1.as_str()))
            }
        },
    }
}

/// Decodes a PNG file into a picture. Where the sizes in the header ask for more
/// memory than can be allocated, nothing is decoded.
pub fn decode_picture(bytes: &Vec<u8>) -> (r: Option<Result<Picture, String>>)
    ensures
        match r {
            Some(p) => frame_bytes(bytes@) <= isize::MAX && (match p {
                Ok(p) => picture_text(png_decoded(bytes@)) == Ok::<(u32, u32, Seq<u8>), Seq<char>>(
                    (p.w, p.h, p.rgba@),
                ) && p.rgba@.len() == p.w * p.h * 4,
                Err(e) => picture_text(png_decoded(bytes@)) == Err::<
                    (u32, u32, Seq<u8>),
                    Seq<char>,
                >(e@),
            }),
            None => frame_bytes(bytes@) > isize::MAX,
        },
{
    match png_intrinsic_size(bytes) {
        Some((w, h)) => {
            assert(w * h <= 0xffff_ffff * 0xffff_ffff) by (nonlinear_arith)
                requires
                    w <= 0xffff_ffff,
                    h <= 0xffff_ffff,
            ;
            assert(0 <= w * h) by (nonlinear_arith)
                requires
                    0 <= w,
                    0 <= h,
            ;
            if w as u128 * h as u128 * 4 > isize::MAX as u128 {
                return None;
            }
        },
        None => {},
    }
    let d: Result<(u32, u32, String, Vec<u8>), (bool, String)> = decode_png(bytes);
    Some(picture_of(d))
}

// ===== Laws =====

/// A picture without alpha keeps its colors and becomes opaque: pixel by pixel,
/// three bytes and a full one.
pub proof fn law_colors_become_opaque(data: Seq<u8>, p: int)
    requires
        0 <= p < data.len() / 3,
    ensures
        made_opaque(data).len() == 4 * (data.len() / 3),
        made_opaque(data)[4 * p] == data[3 * p],
        made_opaque(data)[4 * p + 1] == data[3 * p + 1],
        made_opaque(data)[4 * p + 2] == data[3 * p + 2],
        made_opaque(data)[4 * p + 3] == 255,
{
    assert((4 * p) / 4 == p && (4 * p) % 4 == 0);
    assert((4 * p + 1) / 4 == p && (4 * p + 1) % 4 == 1);
    assert((4 * p + 2) / 4 == p && (4 * p + 2) % 4 == 2);
    assert((4 * p + 3) % 4 == 3);
}

/// A frame with alpha is a picture as it is, one in color without alpha becomes
/// opaque, and every other frame is refused by its color type. An error says
/// whether the frame or the header could not be read.
pub proof fn law_frames_become_pictures(w: u32, h: u32, color: Seq<char>, data: Seq<u8>)
    ensures
        picture_text(Ok((w, h, "Rgba"@, data))) == Ok::<(u32, u32, Seq<u8>), Seq<char>>(
            (w, h, data),
        ),
        picture_text(Ok((w, h, "Rgb"@, data))) == Ok::<(u32, u32, Seq<u8>), Seq<char>>(
            (w, h, made_opaque(data)),
        ),
        color != "Rgba"@ && color != "Rgb"@ ==> picture_text(Ok((w, h, color, data))) == Err::<
            (u32, u32, Seq<u8>),
            Seq<char>,
        >("unsupported PNG color type: "@ + color),
        picture_text(Err((true, color))) == Err::<(u32, u32, Seq<u8>), Seq<char>>(
            "PNG frame read failed: "@ + color,
        ),
        picture_text(Err((false, color))) == Err::<(u32, u32, Seq<u8>), Seq<char>>(
            "PNG decode failed: "@ + color,
        ),
{
    reveal_strlit("Rgba");
    reveal_strlit("Rgb");
    assert("Rgb"@.len() != "Rgba"@.len());
}

} // verus!
