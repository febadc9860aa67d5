//! From the bytes of a file to the picture that is measured.
use crate::decode::{comes_from_jpeg, decode_jpeg_to_rgb, holds_jpeg, is_jpeg_head, is_upright_image, jpeg_header, orientation_of, upright_image, AnalyzedImage, RgbImage, ANALYSIS_MAX_DIM};
use crate::pixels::{can_resize, fit_within, fitted, may_resize, scale_side, scaled, sides_keep_their_proportion};
use crate::text::{chars_of, lowercase, lowered, same_text};
use vstd::prelude::*;

verus! {

/// The orientation that the EXIF data in the bytes of a file name, where they name one.
pub uninterp spec fn exif_orientation(bytes: Seq<u8>) -> Option<u32>;

/// Reads the orientation with `exif::Reader::read_from_container`, `Exif::get_field` and
/// `Value::get_uint`. The number is named `exif_orientation`.
#[verifier::external_body]
fn read_orientation_field(bytes: &[u8]) -> (r: Option<u32>)
    ensures
        r == exif_orientation(bytes@),
{
    let mut reader = std::io::Cursor::new(bytes);
    let data = exif::Reader::new().read_from_container(&mut reader).ok()?;
    data.get_field(exif::Tag::Orientation, exif::In::PRIMARY)?.value.get_uint(0)
}

/// How a picture was stored: the low 16 bits of what EXIF says, where they lie between 1 and 8, else
/// 1.
pub open spec fn stored_orientation(bytes: Seq<u8>) -> int {
    match exif_orientation(bytes) {
        Some(v) => if 1 <= v % 0x1_0000 <= 8 {
            v as int % 0x1_0000
        } else {
            1
        },
        None => 1,
    }
}

/// Reads from the bytes of a file how its picture was stored.
pub fn read_orientation(bytes: &[u8]) -> (r: u16)
    ensures
        r == stored_orientation(bytes@),
        1 <= r <= 8,
{
    orientation_of(read_orientation_field(bytes))
}

/// The extension is one of JPEG files.
pub open spec fn names_jpeg(ext: Seq<char>) -> bool {
    let e = lowered(ext);
    e == "jpg"@ || e == "jpeg"@ || e == "jfif"@
}

/// Tells whether an extension is one of JPEG files.
pub fn is_jpeg_name(ext: &str) -> (r: bool)
    ensures
        r == names_jpeg(ext@),
{
    let e = lowercase(&chars_of(ext));
    same_text(&e, "jpg") || same_text(&e, "jpeg") || same_text(&e, "jfif")
}

/// The bytes, width and height of the picture in the bytes of a file with the given extension; none
/// where it cannot be decoded.
pub uninterp spec fn picture_decoded(bytes: Seq<u8>, ext: Seq<char>) -> Option<(Seq<u8>, u32, u32)>;

/// Decodes a picture as `image::open` does, by the format that `ImageFormat::from_extension` finds,
/// with `image::load_from_memory_with_format`, and takes three bytes for each pixel by
/// `DynamicImage::into_rgb8`. The outcome is named `picture_decoded`.
///
/// JPEG files are left out: on damaged ones the arithmetic of the decoder that the crate has for them
/// can overflow, which panics in builds with overflow checks, and it picks its routines by the
/// processor.
#[verifier::external_body]
fn decode_picture(bytes: &[u8], ext: &str) -> (r: Option<RgbImage>)
    requires
        !names_jpeg(ext@),
    ensures
        match r {
            Some(img) => img.wf() && picture_decoded(bytes@, ext@) == Some(
                (img.data@, img.width, img.height),
            ),
            None => picture_decoded(bytes@, ext@) is None,
        },
{
    let format = image::ImageFormat::from_extension(ext)?;
    let p = image::load_from_memory_with_format(bytes, format).ok()?.into_rgb8();
    Some(RgbImage { width: p.width(), height: p.height(), data: p.into_raw() })
}

/// The longer one of two sides.
pub open spec fn longer(w: u32, h: u32) -> u32 {
    if w > h {
        w
    } else {
        h
    }
}

/// A side of the size that is measured.
pub open spec fn measured_side(side: u32, longest: u32) -> u32 {
    scaled(side as int, longest as int, ANALYSIS_MAX_DIM as int) as u32
}

/// A picture of that size can be brought to the size that is measured.
pub open spec fn can_measure(w: u32, h: u32) -> bool {
    let longest = longer(w, h);
    &&& w > 0
    &&& h > 0
    &&& longest <= ANALYSIS_MAX_DIM || can_resize(
        w as int,
        h as int,
        measured_side(w, longest) as int,
        measured_side(h, longest) as int,
    )
}

/// `img` is `p` brought to the size that is measured: `p` itself where it is small enough.
pub open spec fn is_measured(img: RgbImage, p: RgbImage) -> bool {
    let longest = longer(p.width, p.height);
    &&& img.wf()
    &&& (img.data@, img.width, img.height) == if longest <= ANALYSIS_MAX_DIM {
        (p.data@, p.width, p.height)
    } else {
        fitted(
            p.data@,
            p.width,
            p.height,
            measured_side(p.width, longest),
            measured_side(p.height, longest),
        )
    }
}

/// Brings a picture to the size that is measured: none where it is empty or cannot be resized.
pub fn to_measured(p: RgbImage) -> (r: Option<RgbImage>)
    requires
        p.wf(),
    ensures
        r is Some <==> can_measure(p.width, p.height),
        r is Some ==> is_measured(r->0, p),
        r is Some ==> r->0.width <= ANALYSIS_MAX_DIM && r->0.height <= ANALYSIS_MAX_DIM,
{
    let (w, h) = (p.width, p.height);
    if w == 0 || h == 0 {
        return None;
    }
    let longest: u32 = if w > h { w } else { h };
    if longest <= ANALYSIS_MAX_DIM {
        return Some(p);
    }
    let nw: u32 = scale_side(w, longest, ANALYSIS_MAX_DIM);
    let nh: u32 = scale_side(h, longest, ANALYSIS_MAX_DIM);
    if !may_resize(w, h, nw, nh) {
        return None;
    }
    Some(fit_within(p, nw, nh))
}

/// `r` is the picture to be measured that `p`, which was stored with orientation `o`, gives: brought
/// to the size that is measured, then turned upright.
pub open spec fn is_prepared(r: AnalyzedImage, p: RgbImage, o: u16) -> bool {
    exists|img: RgbImage| #[trigger] is_measured(img, p) && is_upright_image(r, img, o)
}

/// Brings a picture to the size that is measured and turns it upright: none where it is empty or
/// cannot be resized.
pub fn prepare_picture(p: RgbImage, orientation: u16) -> (r: Option<AnalyzedImage>)
    requires
        p.wf(),
    ensures
        r is Some <==> can_measure(p.width, p.height),
        r is Some ==> is_prepared(r->0, p, orientation),
{
    let ghost whole = p;
    match to_measured(p) {
        Some(img) => {
            assert(img.width * img.height <= 1024 * 1024) by (nonlinear_arith)
                requires
                    0 <= img.width <= 1024,
                    0 <= img.height <= 1024,
            ;
            assert(is_measured(img, whole));
            Some(upright_image(img, orientation))
        },
        None => None,
    }
}

/// The bytes start as those of a JPEG file do.
pub open spec fn starts_as_jpeg(bytes: Seq<u8>) -> bool {
    bytes.len() >= 4 && bytes[0] == 0xff && bytes[1] == 0xd8 && bytes[2] == 0xff
}

/// `r` is the picture to be measured of a JPEG file, turned upright as its EXIF data ask.
pub open spec fn is_loaded_jpeg(r: AnalyzedImage, bytes: Seq<u8>) -> bool {
    exists|img: RgbImage| #[trigger] comes_from_jpeg(img, bytes) && is_upright_image(
        r,
        img,
        stored_orientation(bytes) as u16,
    )
}

/// `r` is the picture to be measured of a file of another kind, turned upright as its EXIF data ask.
pub open spec fn is_loaded_other(r: AnalyzedImage, bytes: Seq<u8>, ext: Seq<char>) -> bool {
    exists|p: RgbImage| #[trigger] is_prepared(r, p, stored_orientation(bytes) as u16)
        && picture_decoded(bytes, ext) == Some((p.data@, p.width, p.height))
}

/// A file of another kind than JPEG holds a picture that can be measured.
pub open spec fn holds_other(bytes: Seq<u8>, ext: Seq<char>) -> bool {
    &&& !names_jpeg(ext)
    &&& picture_decoded(bytes, ext) is Some
    &&& can_measure((picture_decoded(bytes, ext)->0).1, (picture_decoded(bytes, ext)->0).2)
}

/// Reads the picture of a file, brings it to the size that is measured and turns it upright. A file
/// that starts as a JPEG file does is read as one; any other by its extension, and not at all where
/// that is one of JPEG files. None where there is no picture that can be measured; a JPEG picture of
/// more than 128 pixels in a row may fail for want of threads too.
pub fn load_analysis_image(bytes: &[u8], ext: &str) -> (r: Option<AnalyzedImage>)
    ensures
        starts_as_jpeg(bytes@) ==> {
            &&& r is Some ==> holds_jpeg(bytes@) && is_loaded_jpeg(r->0, bytes@)
            &&& holds_jpeg(bytes@) && (jpeg_header(bytes@)->0).0 <= 128 ==> r is Some
        },
        !starts_as_jpeg(bytes@) ==> {
            &&& r is Some <==> holds_other(bytes@, ext@)
            &&& r is Some ==> is_loaded_other(r->0, bytes@, ext@)
        },
{
    let orientation: u16 = read_orientation(bytes);
    if bytes.len() >= 4 && is_jpeg_head(&[bytes[0], bytes[1], bytes[2], bytes[3]]) {
        return match decode_jpeg_to_rgb(bytes) {
            Some(img) => {
                assert(comes_from_jpeg(img, bytes@));
                assert(img.width * img.height <= 1024 * 1024) by (nonlinear_arith)
                    requires
                        0 <= img.width <= 1024,
                        0 <= img.height <= 1024,
                ;
                Some(upright_image(img, orientation))
            },
            None => None,
        };
    }
    if is_jpeg_name(ext) {
        return None;
    }
    match decode_picture(bytes, ext) {
        Some(p) => {
            let ghost whole = p;
            let r = prepare_picture(p, orientation);
            assert(r is Some ==> is_loaded_other(r->0, bytes@, ext@)) by {
                if r is Some {
                    assert(is_prepared(r->0, whole, stored_orientation(bytes@) as u16));
                }
            }
            r
        },
        None => None,
    }
}

/// How a picture was stored is what its EXIF data say, and upright where they say nothing that is known;
/// of a larger number only the low 16 bits count.
pub proof fn orientation_is_what_exif_says(bytes: Seq<u8>)
    ensures
        exif_orientation(bytes) is None ==> stored_orientation(bytes) == 1,
        exif_orientation(bytes) is Some && 1 <= exif_orientation(bytes)->0 <= 8 ==> stored_orientation(
            bytes,
        ) == exif_orientation(bytes)->0,
        exif_orientation(bytes) is Some && (exif_orientation(bytes)->0 == 0 || 8 < exif_orientation(
            bytes,
        )->0 < 0x1_0000) ==> stored_orientation(bytes) == 1,
        exif_orientation(bytes) is Some && 1 <= exif_orientation(bytes)->0 % 0x1_0000 <= 8
            ==> stored_orientation(bytes) == exif_orientation(bytes)->0 % 0x1_0000,
        1 <= stored_orientation(bytes) <= 8,
{
}

/// A picture that is small enough is measured as it is; of a larger one the longer side is brought to
/// 1024 pixels.
pub proof fn small_pictures_stay(img: RgbImage, p: RgbImage)
    requires
        is_measured(img, p),
        p.width > 0,
        p.height > 0,
    ensures
        p.width <= 1024 && p.height <= 1024 ==> img.data@ == p.data@ && img.width == p.width
            && img.height == p.height,
        p.width > 1024 && p.width >= p.height ==> (img.data@, img.width, img.height) == fitted(
            p.data@,
            p.width,
            p.height,
            1024,
            measured_side(p.height, p.width),
        ),
        p.height > 1024 && p.height >= p.width ==> (img.data@, img.width, img.height) == fitted(
            p.data@,
            p.width,
            p.height,
            measured_side(p.width, p.height),
            1024,
        ),
{
    sides_keep_their_proportion(p.width as int, longer(p.width, p.height) as int, 1024);
    sides_keep_their_proportion(p.height as int, longer(p.width, p.height) as int, 1024);
}

/// Every picture of up to 65535 pixels in a side can be measured, unless it is empty.
pub proof fn ordinary_pictures_can_be_measured(w: u32, h: u32)
    requires
        w <= 65535,
        h <= 65535,
    ensures
        can_measure(w, h) <==> w > 0 && h > 0,
{
    if w > 0 && h > 0 {
        let longest = longer(w, h);
        sides_keep_their_proportion(w as int, longest as int, 1024);
        sides_keep_their_proportion(h as int, longest as int, 1024);
        let (nw, nh) = (measured_side(w, longest) as int, measured_side(h, longest) as int);
        assert(w * nh <= 65535 * 1024) by (nonlinear_arith)
            requires
                0 <= w <= 65535,
                0 <= nh <= 1024,
        ;
        assert(nw * nh <= 1024 * 1024) by (nonlinear_arith)
            requires
                0 <= nw <= 1024,
                0 <= nh <= 1024,
        ;
    }
}

/// A file is read as a JPEG file where it has four bytes at least and starts with FF D8 FF, whatever its
/// extension.
pub proof fn jpeg_files_are_told_by_their_first_bytes(bytes: Seq<u8>)
    ensures
        starts_as_jpeg(bytes) <==> bytes.len() >= 4 && bytes.take(3) == seq![0xffu8, 0xd8u8, 0xffu8],
{
    if bytes.len() >= 4 {
        let head = bytes.take(3);
        let mark = seq![0xffu8, 0xd8u8, 0xffu8];
        if head == mark {
            assert(head[0] == mark[0] && head[1] == mark[1] && head[2] == mark[2]);
        }
        if starts_as_jpeg(bytes) {
            assert(head =~= mark);
        }
    }
}

} // verus!
