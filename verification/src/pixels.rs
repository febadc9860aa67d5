//! Pictures in other sizes: what the detectors look at, and thumbnails.
use crate::decode::{AnalyzedImage, RgbImage};
use crate::fixed::{round_div, rounded, rounded_is_near};
use vstd::prelude::*;
use vstd::slice::slice_to_vec;

verus! {

/// A picture of `w` by `h` pixels can be brought to `nw` by `nh`: no side is longer than the
/// numbers that the resizing counts with can tell apart, and the bytes of the picture in between,
/// 16 for each pixel, and of the new one fit a vector.
pub open spec fn can_resize(w: int, h: int, nw: int, nh: int) -> bool {
    &&& w <= 0x1f_ffff
    &&& h <= 0x1f_ffff
    &&& nw <= 0x1f_ffff
    &&& nh <= 0x1f_ffff
    &&& 16 * (w * nh) <= isize::MAX
    &&& 3 * (nw * nh) <= isize::MAX
}

/// Tells whether a picture can be brought to another size.
pub fn may_resize(w: u32, h: u32, nw: u32, nh: u32) -> (r: bool)
    ensures
        r == can_resize(w as int, h as int, nw as int, nh as int),
{
    if w > 0x1f_ffff || h > 0x1f_ffff || nw > 0x1f_ffff || nh > 0x1f_ffff {
        return false;
    }
    assert(0 <= w * nh <= 0x1f_ffff * 0x1f_ffff && 0 <= nw * nh <= 0x1f_ffff * 0x1f_ffff)
        by (nonlinear_arith)
        requires
            0 <= w <= 0x1f_ffff,
            0 <= nw <= 0x1f_ffff,
            0 <= nh <= 0x1f_ffff,
    ;
    16 * (w as u64 * nh as u64) <= isize::MAX as u64 && 3 * (nw as u64 * nh as u64)
        <= isize::MAX as u64
}

/// The bytes of a picture of `w` by `h` pixels brought to `nw` by `nh`.
pub uninterp spec fn resized(data: Seq<u8>, w: u32, h: u32, nw: u32, nh: u32) -> Seq<u8>;

/// Brings a picture to another size with `image::imageops::resize` and its triangle filter. The
/// bytes are named `resized`; the crate makes three for each pixel of the new size.
#[verifier::external_body]
fn resize_to(img: RgbImage, nw: u32, nh: u32) -> (r: RgbImage)
    requires
        img.wf(),
        can_resize(img.width as int, img.height as int, nw as int, nh as int),
    ensures
        r.wf(),
        r.width == nw,
        r.height == nh,
        r.data@ == resized(img.data@, img.width, img.height, nw, nh),
{
    let p = image::RgbImage::from_raw(img.width, img.height, img.data).unwrap_or_default();
    let small = image::imageops::resize(&p, nw, nh, image::imageops::FilterType::Triangle);
    RgbImage { width: nw, height: nh, data: small.into_raw() }
}

/// The bytes, width and height of a picture of `w` by `h` pixels made to fit `bw` by `bh` pixels.
pub uninterp spec fn fitted(data: Seq<u8>, w: u32, h: u32, bw: u32, bh: u32) -> (Seq<u8>, u32, u32);

/// Makes a picture fit a box, keeping its shape, with `image::DynamicImage::resize` and its triangle
/// filter. Bytes and size are named `fitted`; the crate makes three bytes for each pixel of a size
/// that is at most the box.
#[verifier::external_body]
pub(crate) fn fit_within(img: RgbImage, bw: u32, bh: u32) -> (r: RgbImage)
    requires
        img.wf(),
        0 < img.width,
        0 < img.height,
        0 < bw,
        0 < bh,
        can_resize(img.width as int, img.height as int, bw as int, bh as int),
    ensures
        r.wf(),
        0 < r.width <= bw,
        0 < r.height <= bh,
        (r.data@, r.width, r.height) == fitted(img.data@, img.width, img.height, bw, bh),
{
    let p = image::RgbImage::from_raw(img.width, img.height, img.data).unwrap_or_default();
    let small = image::DynamicImage::ImageRgb8(p);
    let fit = small.resize(bw, bh, image::imageops::FilterType::Triangle).into_rgb8();
    RgbImage { width: fit.width(), height: fit.height(), data: fit.into_raw() }
}

/// The bytes of a picture of `w` by `h` pixels as a JPEG file; none where it cannot be encoded.
pub uninterp spec fn jpeg_encoded(data: Seq<u8>, w: u32, h: u32, quality: u8) -> Option<Seq<u8>>;

/// Encodes a picture with `image::codecs::jpeg::JpegEncoder::encode`. The bytes are named
/// `jpeg_encoded`.
#[verifier::external_body]
fn encode_jpeg(img: &RgbImage, quality: u8) -> (r: Option<Vec<u8>>)
    requires
        img.wf(),
    ensures
        match r {
            Some(b) => jpeg_encoded(img.data@, img.width, img.height, quality) == Some(b@),
            None => jpeg_encoded(img.data@, img.width, img.height, quality) is None,
        },
{
    let mut buf = Vec::new();
    let mut enc = image::codecs::jpeg::JpegEncoder::new_with_quality(&mut buf, quality);
    let (w, h) = (img.width, img.height);
    match enc.encode(&img.data, w, h, image::ExtendedColorType::Rgb8) {
        Ok(()) => Some(buf),
        Err(_) => None,
    }
}

/// The picture that a detector looks at: the bytes brought to a square of side `side`; none where
/// there are too few bytes for the size, or the picture cannot be brought to that side.
pub fn model_input(rgb: &[u8], w: u32, h: u32, side: u32) -> (r: Option<Vec<u8>>)
    ensures
        r is Some <==> rgb.len() >= w * h * 3 && can_resize(
            w as int,
            h as int,
            side as int,
            side as int,
        ),
        r is Some ==> r->0@ == resized(rgb@.take(w * h * 3), w, h, side, side),
        r is Some ==> r->0.len() == side * side * 3,
{
    if !may_resize(w, h, side, side) {
        return None;
    }
    match RgbImage::from_raw(w, h, slice_to_vec(rgb)) {
        Some(img) => Some(resize_to(img, side, side).data),
        None => None,
    }
}

/// Longest side of a thumbnail.
pub const THUMB_MAX_DIM: u32 = 320;

/// The thumbnail of a picture, as a JPEG file.
pub open spec fn thumbnail_of(data: Seq<u8>, w: u32, h: u32) -> Option<Seq<u8>> {
    let small = fitted(data, w, h, 320, 320);
    jpeg_encoded(small.0, small.1, small.2, 72)
}

/// Makes the thumbnail of a picture, as a JPEG file: none for an empty picture, for one that cannot
/// be made that small, or where it cannot be encoded.
pub fn make_thumbnail(img: AnalyzedImage) -> (r: Option<Vec<u8>>)
    requires
        img.wf(),
    ensures
        match r {
            Some(b) => {
                &&& 0 < img.width
                &&& 0 < img.height
                &&& can_resize(img.width as int, img.height as int, 320, 320)
                &&& thumbnail_of(img.rgb@, img.width, img.height) == Some(b@)
            },
            None => {
                ||| img.width == 0
                ||| img.height == 0
                ||| !can_resize(img.width as int, img.height as int, 320, 320)
                ||| thumbnail_of(img.rgb@, img.width, img.height) is None
            },
        },
{
    let (w, h) = (img.width, img.height);
    if w == 0 || h == 0 || !may_resize(w, h, THUMB_MAX_DIM, THUMB_MAX_DIM) {
        return None;
    }
    let small = fit_within(RgbImage { width: w, height: h, data: img.rgb }, THUMB_MAX_DIM, THUMB_MAX_DIM);
    encode_jpeg(&small, 72)
}

/// A side made smaller in proportion, at least one pixel.
pub open spec fn scaled(side: int, longest: int, want: int) -> int {
    let n = rounded(side * want, longest);
    if n > 1 {
        n
    } else {
        1
    }
}

/// A side made smaller in proportion, at least one pixel.
pub(crate) fn scale_side(side: u32, longest: u32, want: u32) -> (r: u32)
    requires
        0 < longest,
        side <= longest,
        want < longest,
    ensures
        r == scaled(side as int, longest as int, want as int),
        1 <= r <= longest,
        want > 0 ==> r <= want,
{
    assert(0 <= side * want <= 0xffff_ffff * 0xffff_ffff) by (nonlinear_arith)
        requires
            0 <= side <= 0xffff_ffff,
            0 <= want <= 0xffff_ffff,
    ;
    let n: i128 = round_div(side as i128 * want as i128, longest as i128);
    proof {
        let a = side * want;
        assert(rounded(a, longest as int) <= want <= longest) by (nonlinear_arith)
            requires
                rounded(a, longest as int) == (2 * a + longest) / (2 * longest as int),
                0 <= a,
                a == side * want,
                0 <= side <= longest,
                0 <= want <= longest,
                longest > 0,
        ;
    }
    if n > 1 {
        n as u32
    } else {
        1
    }
}

/// The picture of a contact sheet, as a JPEG file: its longer side is `thumb` pixels. None for a
/// picture that is not larger than that, that cannot be made that small, or that cannot be encoded.
pub fn contact_picture(img: AnalyzedImage, thumb: u32) -> (r: Option<Vec<u8>>)
    requires
        img.wf(),
    ensures
        ({
            let longest = if img.width > img.height { img.width } else { img.height };
            let nw = scaled(img.width as int, longest as int, thumb as int) as u32;
            let nh = scaled(img.height as int, longest as int, thumb as int) as u32;
            let small = resized(img.rgb@, img.width, img.height, nw, nh);
            let fits = can_resize(img.width as int, img.height as int, nw as int, nh as int);
            match r {
                Some(b) => thumb < longest && fits && jpeg_encoded(small, nw, nh, 70) == Some(b@),
                None => thumb >= longest || !fits || jpeg_encoded(small, nw, nh, 70) is None,
            }
        }),
{
    let (w, h) = (img.width, img.height);
    let longest: u32 = if w > h { w } else { h };
    if thumb >= longest {
        return None;
    }
    let nw: u32 = scale_side(w, longest, thumb);
    let nh: u32 = scale_side(h, longest, thumb);
    if !may_resize(w, h, nw, nh) {
        return None;
    }
    let small = resize_to(RgbImage { width: w, height: h, data: img.rgb }, nw, nh);
    encode_jpeg(&small, 70)
}

/// The longer side becomes as long as is asked for, and the other one keeps its proportion, to the
/// nearest pixel; no side vanishes.
pub proof fn sides_keep_their_proportion(side: int, longest: int, want: int)
    requires
        0 < side <= longest,
        want > 0,
    ensures
        scaled(longest, longest, want) == want,
        1 <= scaled(side, longest, want) <= want,
        2 * (side * want) >= longest ==> -longest <= 2 * (scaled(side, longest, want) * longest - side
            * want) <= longest,
{
    rounded_is_near(side * want, longest);
    rounded_is_near(longest * want, longest);
    let (n, m) = (rounded(side * want, longest), rounded(longest * want, longest));
    assert(m == want) by (nonlinear_arith)
        requires
            longest > 0,
            -longest <= 2 * (m * longest - longest * want) <= longest,
    ;
    assert(side * want <= longest * want) by (nonlinear_arith)
        requires
            0 < side <= longest,
            want > 0,
    ;
    assert(n <= want) by (nonlinear_arith)
        requires
            longest > 0,
            side * want <= longest * want,
            -longest <= 2 * (n * longest - side * want) <= longest,
    ;
    if 2 * (side * want) >= longest {
        assert(n >= 0) by (nonlinear_arith)
            requires
                longest > 0,
                2 * (side * want) >= longest,
                -longest <= 2 * (n * longest - side * want) <= longest,
        ;
        assert(0 * longest == 0 && 1 * longest == longest) by (nonlinear_arith);
    }
}

/// A thumbnail fits a square of 320 pixels and is encoded with quality 72.
pub proof fn thumbnails_fit_a_square(data: Seq<u8>, w: u32, h: u32)
    ensures
        ({
            let (bytes, nw, nh) = fitted(data, w, h, 320, 320);
            thumbnail_of(data, w, h) == jpeg_encoded(bytes, nw, nh, 72)
        }),
{
}

} // verus!
