//! Pictures: from JPEG bytes to what the measures look at.
use crate::moments::{variance, Moments};
use crate::raster::{index_inside, rect_sum, rect_sum_bound, row_sum, row_sum_bound};
use crate::tally::{sum, tally};
use vstd::prelude::*;

verus! {

/// Longest side of a picture that is measured.
pub const ANALYSIS_MAX_DIM: u32 = 1024;

/// From this brightness on a pixel counts as burnt out.
pub const OVEREXPOSED_THRESHOLD: u8 = 250;

/// Up to this brightness a pixel counts as black.
pub const UNDEREXPOSED_THRESHOLD: u8 = 5;

/// A picture: rows of pixels, each of three bytes.
#[derive(Debug)]
pub struct RgbImage {
    pub width: u32,
    pub height: u32,
    pub data: Vec<u8>,
}

impl RgbImage {
    /// There are three bytes for every pixel.
    pub open spec fn wf(&self) -> bool {
        self.data.len() == self.width * self.height * 3
    }

    /// The bytes of the pixel in column `x` of row `y`.
    pub open spec fn pixel(&self, x: int, y: int) -> (u8, u8, u8) {
        rgb_at(self.data@, self.width as int, x, y)
    }

    /// A picture from its size and bytes: none where there are too few bytes; bytes beyond the
    /// last pixel are dropped.
    pub fn from_raw(width: u32, height: u32, data: Vec<u8>) -> (r: Option<RgbImage>)
        ensures
            r is Some <==> data.len() >= width * height * 3,
            r is Some ==> {
                &&& r->0.wf()
                &&& r->0.width == width
                &&& r->0.height == height
                &&& r->0.data@ == data@.take(width * height * 3)
            },
    {
        assert(width * height <= 0xffff_ffff * 0xffff_ffff) by (nonlinear_arith)
            requires
                0 <= width <= 0xffff_ffff,
                0 <= height <= 0xffff_ffff,
        ;
        assert(0 <= width * height) by (nonlinear_arith)
            requires
                0 <= width,
                0 <= height,
        ;
        let need: u128 = (width as u128) * (height as u128) * 3;
        if (data.len() as u128) < need {
            return None;
        }
        let mut data = data;
        data.truncate(need as usize);
        Some(RgbImage { width, height, data })
    }
}

/// The bytes of the pixel in column `x` of row `y`, in rows of `w` pixels.
pub open spec fn rgb_at(data: Seq<u8>, w: int, x: int, y: int) -> (u8, u8, u8) {
    (data[(y * w + x) * 3], data[(y * w + x) * 3 + 1], data[(y * w + x) * 3 + 2])
}

/// The EXIF orientation turns width into height.
pub open spec fn turns(o: u16) -> bool {
    5 <= o <= 8
}

/// Where the pixel in column `x` of row `y` of the upright picture comes from, in a stored picture
/// of `w` by `h` pixels.
pub open spec fn source(o: u16, w: int, h: int, x: int, y: int) -> (int, int) {
    if o == 2 {
        (w - 1 - x, y)
    } else if o == 3 {
        (w - 1 - x, h - 1 - y)
    } else if o == 4 {
        (x, h - 1 - y)
    } else if o == 5 {
        (y, x)
    } else if o == 6 {
        (y, h - 1 - x)
    } else if o == 7 {
        (w - 1 - y, h - 1 - x)
    } else if o == 8 {
        (w - 1 - y, x)
    } else {
        (x, y)
    }
}

/// `up` is the upright form of `img`, which was stored with orientation `o`.
pub open spec fn is_upright(up: RgbImage, img: RgbImage, o: u16) -> bool {
    &&& up.wf()
    &&& up.width == if turns(o) { img.height } else { img.width }
    &&& up.height == if turns(o) { img.width } else { img.height }
    &&& forall|x: int, y: int|
        0 <= x < up.width && 0 <= y < up.height ==> #[trigger] up.pixel(x, y) == img.pixel(
            source(o, img.width as int, img.height as int, x, y).0,
            source(o, img.width as int, img.height as int, x, y).1,
        )
}

/// Turns and mirrors a picture as its EXIF orientation asks: 2 mirrors left and right, 3 turns by
/// 180 degrees, 4 mirrors top and bottom, 5 swaps rows and columns, 6 turns by 90 degrees
/// clockwise, 7 swaps rows and columns the other way, 8 turns by 90 degrees counter-clockwise;
/// anything else leaves the picture as it is.
pub fn apply_orientation(img: RgbImage, orientation: u16) -> (r: RgbImage)
    requires
        img.wf(),
    ensures
        is_upright(r, img, orientation),
{
    if orientation < 2 || orientation > 8 {
        return img;
    }
    let turned = orientation >= 5;
    let w: usize = img.width as usize;
    let h: usize = img.height as usize;
    let nw: usize = if turned { h } else { w };
    let nh: usize = if turned { w } else { h };
    assert(nw * nh == w * h) by (nonlinear_arith)
        requires
            (nw == w && nh == h) || (nw == h && nh == w),
    ;
    let mut out: Vec<u8> = Vec::new();
    let mut y: usize = 0;
    assert(0 * nw == 0) by (nonlinear_arith);
    while y < nh
        invariant
            img.wf(),
            2 <= orientation <= 8,
            turned == turns(orientation),
            w == img.width,
            h == img.height,
            nw == if turned { h } else { w },
            nh == if turned { w } else { h },
            y <= nh,
            out.len() == y * nw * 3,
            forall|i: int, j: int|
                0 <= i < nw && 0 <= j < y ==> #[trigger] rgb_at(out@, nw as int, i, j) == img.pixel(
                    source(orientation, w as int, h as int, i, j).0,
                    source(orientation, w as int, h as int, i, j).1,
                ),
        decreases nh - y,
    {
        let mut x: usize = 0;
        while x < nw
            invariant
                img.wf(),
                2 <= orientation <= 8,
                turned == turns(orientation),
                w == img.width,
                h == img.height,
                nw == if turned { h } else { w },
                nh == if turned { w } else { h },
                y < nh,
                x <= nw,
                out.len() == (y * nw + x) * 3,
                forall|i: int, j: int|
                    0 <= i < nw && 0 <= j < y ==> #[trigger] rgb_at(out@, nw as int, i, j)
                        == img.pixel(
                        source(orientation, w as int, h as int, i, j).0,
                        source(orientation, w as int, h as int, i, j).1,
                    ),
                forall|i: int|
                    0 <= i < x ==> #[trigger] rgb_at(out@, nw as int, i, y as int) == img.pixel(
                        source(orientation, w as int, h as int, i, y as int).0,
                        source(orientation, w as int, h as int, i, y as int).1,
                    ),
            decreases nw - x,
        {
            let (sx, sy): (usize, usize) = if orientation == 2 {
                (w - 1 - x, y)
            } else if orientation == 3 {
                (w - 1 - x, h - 1 - y)
            } else if orientation == 4 {
                (x, h - 1 - y)
            } else if orientation == 5 {
                (y, x)
            } else if orientation == 6 {
                (y, h - 1 - x)
            } else if orientation == 7 {
                (w - 1 - y, h - 1 - x)
            } else {
                (w - 1 - y, x)
            };
            proof {
                index_inside(sx as int, sy as int, w as int, h as int);
            }
            let at: usize = (sy * w + sx) * 3;
            let ghost before = out@;
            out.push(img.data[at]);
            out.push(img.data[at + 1]);
            out.push(img.data[at + 2]);
            assert forall|i: int, j: int| 0 <= i < nw && 0 <= j < y implies #[trigger] rgb_at(
                out@,
                nw as int,
                i,
                j,
            ) == img.pixel(
                source(orientation, w as int, h as int, i, j).0,
                source(orientation, w as int, h as int, i, j).1,
            ) by {
                index_inside(i, j, nw as int, y as int);
                assert(nw * y == y * nw) by (nonlinear_arith);
                assert(rgb_at(before, nw as int, i, j) == rgb_at(out@, nw as int, i, j));
            }
            assert forall|i: int| 0 <= i < x + 1 implies #[trigger] rgb_at(
                out@,
                nw as int,
                i,
                y as int,
            ) == img.pixel(
                source(orientation, w as int, h as int, i, y as int).0,
                source(orientation, w as int, h as int, i, y as int).1,
            ) by {
                assert(0 <= y * nw) by (nonlinear_arith)
                    requires
                        y >= 0,
                        nw >= 0,
                ;
                if i < x {
                    assert(rgb_at(before, nw as int, i, y as int) == rgb_at(
                        out@,
                        nw as int,
                        i,
                        y as int,
                    ));
                }
            }
            x += 1;
        }
        assert((y + 1) * nw == y * nw + nw) by (nonlinear_arith);
        y += 1;
    }
    assert(nh * nw == w * h) by (nonlinear_arith)
        requires
            (nw == w && nh == h) || (nw == h && nh == w),
    ;
    assert(nw * nh == nh * nw) by (nonlinear_arith);
    let r = RgbImage { width: nw as u32, height: nh as u32, data: out };
    assert forall|x: int, y: int| 0 <= x < r.width && 0 <= y < r.height implies #[trigger] r.pixel(
        x,
        y,
    ) == img.pixel(
        source(orientation, img.width as int, img.height as int, x, y).0,
        source(orientation, img.width as int, img.height as int, x, y).1,
    ) by {
        assert(r.pixel(x, y) == rgb_at(out@, nw as int, x, y));
    }
    r
}

/// The orientation that undoes `o`.
pub open spec fn inverse(o: u16) -> u16 {
    if o == 6 {
        8
    } else if o == 8 {
        6
    } else {
        o
    }
}

/// Turning a picture upright and back gives the picture.
pub proof fn orientation_can_be_undone(img: RgbImage, up: RgbImage, back: RgbImage, o: u16)
    requires
        img.wf(),
        is_upright(up, img, o),
        is_upright(back, up, inverse(o)),
    ensures
        back.width == img.width,
        back.height == img.height,
        back.data@ == img.data@,
{
    let w = img.width as int;
    let h = img.height as int;
    assert forall|x: int, y: int| 0 <= x < w && 0 <= y < h implies #[trigger] back.pixel(x, y)
        == img.pixel(x, y) by {
        let (ux, uy) = source(inverse(o), up.width as int, up.height as int, x, y);
        assert(up.pixel(ux, uy) == img.pixel(source(o, w, h, ux, uy).0, source(o, w, h, ux, uy).1));
    }
    assert forall|k: int| 0 <= k < img.data.len() implies back.data@[k] == img.data@[k] by {
        let p = k / 3;
        assert(p < w * h);
        assert(w > 0) by (nonlinear_arith)
            requires
                w >= 0,
                0 <= p < w * h,
        ;
        vstd::arithmetic::div_mod::lemma_fundamental_div_mod(p, w);
        vstd::arithmetic::div_mod::lemma_mod_bound(p, w);
        let y = p / w;
        let x = p % w;
        assert(y < h && y >= 0) by (nonlinear_arith)
            requires
                p == w * y + x,
                0 <= x < w,
                0 <= p < w * h,
        ;
        assert(y * w == w * y) by (nonlinear_arith);
        assert(back.pixel(x, y) == img.pixel(x, y));
        assert(k == (y * w + x) * 3 + k % 3);
    }
    assert(back.data@ =~= img.data@);
}

/// Channel `c` of the pixels, in rows of `w`.
pub open spec fn channel(rgb: Seq<u8>, w: int, c: int) -> spec_fn(int, int) -> int {
    |x: int, y: int| rgb[(y * w + x) * 3 + c] as int
}

/// The mean, rounded down, of channel `c` over the block number `ox`, `oy` of side `step`.
pub open spec fn block_mean(rgb: Seq<u8>, w: int, step: int, ox: int, oy: int, c: int) -> int {
    rect_sum(channel(rgb, w, c), ox * step, ox * step + step, oy * step, oy * step + step) / (step
        * step)
}

/// The sum of one channel over a block.
fn block_total(rgb: &[u8], w: usize, h: usize, x0: usize, y0: usize, step: usize, c: usize) -> (r: u128)
    requires
        w * h * 3 <= rgb.len(),
        x0 + step <= w,
        y0 + step <= h,
        c < 3,
    ensures
        r == rect_sum(channel(rgb@, w as int, c as int), x0 as int, x0 + step, y0 as int, y0 + step),
        r <= 255 * (step * step),
{
    let ghost f = channel(rgb@, w as int, c as int);
    let x1: usize = x0 + step;
    let y1: usize = y0 + step;
    assert(step * step <= 0xffff_ffff_ffff_ffff * 0xffff_ffff_ffff_ffff) by (nonlinear_arith)
        requires
            0 <= step <= 0xffff_ffff_ffff_ffff,
    ;
    assert(step * step <= w * h) by (nonlinear_arith)
        requires
            0 <= step <= w,
            0 <= step <= h,
    ;
    let mut total: u128 = 0;
    let mut y: usize = y0;
    while y < y1
        invariant
            w * h * 3 <= rgb.len(),
            x0 <= x1 <= w,
            x1 == x0 + step,
            y1 == y0 + step,
            y0 <= y <= y1 <= h,
            c < 3,
            step * step <= w * h,
            f == channel(rgb@, w as int, c as int),
            total == rect_sum(f, x0 as int, x1 as int, y0 as int, y as int),
        decreases y1 - y,
    {
        let mut x: usize = x0;
        while x < x1
            invariant
                w * h * 3 <= rgb.len(),
                x0 <= x <= x1 <= w,
                x1 == x0 + step,
                y1 == y0 + step,
                y0 <= y < y1 <= h,
                c < 3,
                step * step <= w * h,
                f == channel(rgb@, w as int, c as int),
                total == rect_sum(f, x0 as int, x1 as int, y0 as int, y as int) + row_sum(
                    f,
                    y as int,
                    x0 as int,
                    x as int,
                ),
            decreases x1 - x,
        {
            proof {
                index_inside(x as int, y as int, w as int, h as int);
                rect_sum_bound(f, x0 as int, x1 as int, y0 as int, y as int, 255);
                row_sum_bound(f, y as int, x0 as int, x as int, 255);
                assert((x1 - x0) * (y - y0) <= step * step) by (nonlinear_arith)
                    requires
                        x1 - x0 == step,
                        0 <= y - y0 <= step,
                        0 <= step,
                ;
            }
            let at: usize = (y * w + x) * 3 + c;
            total += rgb[at] as u128;
            x += 1;
        }
        y += 1;
    }
    proof {
        rect_sum_bound(f, x0 as int, x1 as int, y0 as int, y1 as int, 255);
    }
    total
}

/// `small` holds, for each block of side `step` that fits, the mean of each channel.
pub open spec fn is_downsampled(
    small: Seq<u8>,
    nw: int,
    nh: int,
    rgb: Seq<u8>,
    w: int,
    step: int,
) -> bool {
    &&& small.len() == nw * nh * 3
    &&& forall|ox: int, oy: int, c: int|
        0 <= ox < nw && 0 <= oy < nh && 0 <= c < 3 ==> #[trigger] channel(small, nw, c)(ox, oy)
            == block_mean(rgb, w, step, ox, oy, c)
}

/// Makes a picture smaller: every whole block of `step` by `step` pixels becomes its mean.
pub fn box_downsample(rgb: &[u8], w: u32, h: u32, step: u32) -> (r: (u32, u32, Vec<u8>))
    requires
        step > 0,
        w * h * 3 <= rgb.len(),
    ensures
        r.0 == w / step,
        r.1 == h / step,
        is_downsampled(r.2@, r.0 as int, r.1 as int, rgb@, w as int, step as int),
{
    let nw: u32 = w / step;
    let nh: u32 = h / step;
    proof {
        assert(0 < step * step <= 0xffff_ffff * 0xffff_ffff) by (nonlinear_arith)
            requires
                0 < step <= 0xffff_ffff,
        ;
        assert(0 * nw == 0) by (nonlinear_arith);
    }
    let area: u128 = (step as u128) * (step as u128);
    let mut out: Vec<u8> = Vec::new();
    let mut oy: u32 = 0;
    while oy < nh
        invariant
            step > 0,
            w * h * 3 <= rgb.len(),
            nw == w / step,
            nh == h / step,
            area == step * step,
            area > 0,
            oy <= nh,
            out.len() == oy * nw * 3,
            forall|i: int, j: int, c: int|
                0 <= i < nw && 0 <= j < oy && 0 <= c < 3 ==> #[trigger] channel(
                    out@,
                    nw as int,
                    c,
                )(i, j) == block_mean(rgb@, w as int, step as int, i, j, c),
        decreases nh - oy,
    {
        let mut ox: u32 = 0;
        while ox < nw
            invariant
                step > 0,
                w * h * 3 <= rgb.len(),
                nw == w / step,
                nh == h / step,
                area == step * step,
                area > 0,
                oy < nh,
                ox <= nw,
                out.len() == (oy * nw + ox) * 3,
                forall|i: int, j: int, c: int|
                    0 <= i < nw && 0 <= j < oy && 0 <= c < 3 ==> #[trigger] channel(
                        out@,
                        nw as int,
                        c,
                    )(i, j) == block_mean(rgb@, w as int, step as int, i, j, c),
                forall|i: int, c: int|
                    0 <= i < ox && 0 <= c < 3 ==> #[trigger] channel(out@, nw as int, c)(
                        i,
                        oy as int,
                    ) == block_mean(rgb@, w as int, step as int, i, oy as int, c),
            decreases nw - ox,
        {
            proof {
                block_inside(ox as int, step as int, w as int);
                block_inside(oy as int, step as int, h as int);
            }
            let x0: usize = (ox * step) as usize;
            let y0: usize = (oy * step) as usize;
            let s0: u128 = block_total(rgb, w as usize, h as usize, x0, y0, step as usize, 0);
            let s1: u128 = block_total(rgb, w as usize, h as usize, x0, y0, step as usize, 1);
            let s2: u128 = block_total(rgb, w as usize, h as usize, x0, y0, step as usize, 2);
            proof {
                mean_is_byte(s0 as int, area as int);
                mean_is_byte(s1 as int, area as int);
                mean_is_byte(s2 as int, area as int);
            }
            let ghost before = out@;
            out.push((s0 / area) as u8);
            out.push((s1 / area) as u8);
            out.push((s2 / area) as u8);
            assert forall|i: int, j: int, c: int|
                0 <= i < nw && 0 <= j < oy && 0 <= c < 3 implies #[trigger] channel(
                out@,
                nw as int,
                c,
            )(i, j) == block_mean(rgb@, w as int, step as int, i, j, c) by {
                index_inside(i, j, nw as int, oy as int);
                assert(nw * oy == oy * nw) by (nonlinear_arith);
                assert(channel(before, nw as int, c)(i, j) == channel(out@, nw as int, c)(i, j));
            }
            assert forall|i: int, c: int| 0 <= i < ox + 1 && 0 <= c < 3 implies #[trigger] channel(
                out@,
                nw as int,
                c,
            )(i, oy as int) == block_mean(rgb@, w as int, step as int, i, oy as int, c) by {
                assert(0 <= oy * nw) by (nonlinear_arith)
                    requires
                        oy >= 0,
                        nw >= 0,
                ;
                if i < ox {
                    assert(channel(before, nw as int, c)(i, oy as int) == channel(
                        out@,
                        nw as int,
                        c,
                    )(i, oy as int));
                }
            }
            ox += 1;
        }
        assert((oy + 1) * nw == oy * nw + nw) by (nonlinear_arith);
        oy += 1;
    }
    assert(nh * nw == nw * nh) by (nonlinear_arith);
    (nw, nh, out)
}

/// A whole block lies inside its side.
proof fn block_inside(o: int, step: int, side: int)
    requires
        step > 0,
        0 <= o < side / step,
    ensures
        0 <= o * step <= o * step + step <= side,
{
    vstd::arithmetic::div_mod::lemma_fundamental_div_mod(side, step);
    vstd::arithmetic::div_mod::lemma_mod_bound(side, step);
    let n = side / step;
    assert(0 <= o * step <= o * step + step <= side) by (nonlinear_arith)
        requires
            0 <= o < n,
            step > 0,
            side == step * n + side % step,
            0 <= side % step,
    ;
}

/// The mean of bytes is a byte.
proof fn mean_is_byte(s: int, area: int)
    requires
        0 <= s <= 255 * area,
        area > 0,
    ensures
        0 <= s / area <= 255,
{
    assert(0 <= s / area <= 255) by (nonlinear_arith)
        requires
            0 <= s <= 255 * area,
            area > 0,
    ;
}

/// How many pixels of a side become one, so that the longer side is at most
/// `ANALYSIS_MAX_DIM`.
pub open spec fn step_for(w: int, h: int) -> int {
    let side = if w > h { w } else { h };
    (side + 1023) / 1024
}

/// After a step of `step_for` the longer side is at most `ANALYSIS_MAX_DIM`.
pub proof fn step_is_enough(w: int, h: int)
    requires
        w > 0,
        h > 0,
    ensures
        step_for(w, h) >= 1,
        w / step_for(w, h) <= ANALYSIS_MAX_DIM,
        h / step_for(w, h) <= ANALYSIS_MAX_DIM,
{
    let s = step_for(w, h);
    assert(w / s <= 1024 && h / s <= 1024) by (nonlinear_arith)
        requires
            s >= 1,
            0 <= w <= 1024 * s,
            0 <= h <= 1024 * s,
    ;
}

/// Width, height and number of bytes for each pixel that the header of a JPEG picture tells; none
/// where it cannot be read.
pub uninterp spec fn jpeg_header(bytes: Seq<u8>) -> Option<(u16, u16, usize)>;

/// Reads the header with `jpeg_decoder::Decoder::read_info` and `Decoder::info`, which look at the
/// bytes up to the frame header and nothing else. The outcome is named `jpeg_header`; the number of
/// bytes is that of `PixelFormat::pixel_bytes`.
#[verifier::external_body]
fn jpeg_size(bytes: &[u8]) -> (r: Option<(u16, u16, usize)>)
    ensures
        r == jpeg_header(bytes@),
{
    let mut decoder = jpeg_decoder::Decoder::new(bytes);
    decoder.read_info().ok()?;
    let info = decoder.info()?;
    Some((info.width, info.height, info.pixel_format.pixel_bytes()))
}

/// The bytes that a JPEG picture decodes to; none where it cannot be decoded. Where there is more than
/// one byte for a sample, only their number means anything.
pub uninterp spec fn jpeg_decoded(bytes: Seq<u8>) -> Option<Seq<u8>>;

/// Decodes with `jpeg_decoder::Decoder::decode`. Sides from 65529 on are left out: with them the
/// decoder's count of blocks, eight pixels each, can go beyond 16 bits.
///
/// The outcome is named `jpeg_decoded`. The number of bytes is always that of the name. The bytes
/// themselves are where there is one for each sample; nothing is said where there are two, as they
/// then come in the byte order of the machine. Up to a width of 128 pixels the decoder starts no
/// threads, so a failure is one of the bytes; with wider pictures the machine may refuse a thread,
/// and nothing is said of a failure.
#[verifier::external_body]
fn jpeg_decode(bytes: &[u8]) -> (r: Option<Vec<u8>>)
    requires
        jpeg_header(bytes@) is Some,
        (jpeg_header(bytes@)->0).0 <= 65528,
        (jpeg_header(bytes@)->0).1 <= 65528,
    ensures
        r is Some ==> jpeg_decoded(bytes@) is Some && r->0.len() == jpeg_decoded(bytes@)->0.len(),
        r is Some ==> ({
            let (w, h, depth) = jpeg_header(bytes@)->0;
            depth != 2 && r->0.len() == w * h * depth ==> r->0@ == jpeg_decoded(bytes@)->0
        }),
        r is None && (jpeg_header(bytes@)->0).0 <= 128 ==> jpeg_decoded(bytes@) is None,
{
    jpeg_decoder::Decoder::new(bytes).decode().ok()
}

/// `img` is the picture to be measured that decoded bytes of `w` by `h` pixels give: themselves
/// where they are small enough, else made smaller by blocks.
pub open spec fn is_analysis_size(img: RgbImage, pixels: Seq<u8>, w: int, h: int) -> bool {
    &&& img.wf()
    &&& img.width <= ANALYSIS_MAX_DIM
    &&& img.height <= ANALYSIS_MAX_DIM
    &&& if w <= ANALYSIS_MAX_DIM && h <= ANALYSIS_MAX_DIM {
        img.width == w && img.height == h && img.data@ == pixels.take(w * h * 3)
    } else {
        let step = step_for(w, h);
        &&& img.width == w / step
        &&& img.height == h / step
        &&& is_downsampled(img.data@, img.width as int, img.height as int, pixels, w, step)
    }
}

/// Brings decoded bytes to the size that is measured: none where the picture is empty or has less
/// than three bytes for a pixel.
pub fn to_analysis_size(pixels: Vec<u8>, w: u16, h: u16) -> (r: Option<RgbImage>)
    ensures
        r is Some <==> w > 0 && h > 0 && pixels.len() >= w * h * 3,
        r is Some ==> is_analysis_size(r->0, pixels@, w as int, h as int),
{
    if w == 0 || h == 0 {
        return None;
    }
    assert(0 <= w * h <= 0xffff * 0xffff) by (nonlinear_arith)
        requires
            0 <= w <= 0xffff,
            0 <= h <= 0xffff,
    ;
    let side: u16 = if w > h { w } else { h };
    if side as u32 <= ANALYSIS_MAX_DIM {
        return RgbImage::from_raw(w as u32, h as u32, pixels);
    }
    let need: u128 = (w as u128) * (h as u128) * 3;
    if (pixels.len() as u128) < need {
        return None;
    }
    let step: u32 = (side as u32 + 1023) / 1024;
    proof {
        step_is_enough(w as int, h as int);
    }
    let (nw, nh, out) = box_downsample(pixels.as_slice(), w as u32, h as u32, step);
    Some(RgbImage { width: nw, height: nh, data: out })
}

/// The bytes of a picture with three for each pixel: a gray picture has the same byte three times.
pub open spec fn in_color(pixels: Seq<u8>, depth: int) -> Seq<u8> {
    if depth == 1 {
        Seq::new(3 * pixels.len(), |i: int| pixels[i / 3])
    } else {
        pixels
    }
}

/// Repeats every byte of a gray picture three times.
fn triple(pixels: &Vec<u8>) -> (r: Vec<u8>)
    requires
        pixels.len() * 3 <= usize::MAX,
    ensures
        r@ == in_color(pixels@, 1),
{
    let mut out: Vec<u8> = Vec::new();
    let mut i: usize = 0;
    while i < pixels.len()
        invariant
            i <= pixels.len(),
            out.len() == 3 * i,
            forall|k: int| 0 <= k < 3 * i ==> #[trigger] out[k] == pixels[k / 3],
        decreases pixels.len() - i,
    {
        let v: u8 = pixels[i];
        out.push(v);
        out.push(v);
        out.push(v);
        assert((3 * i) / 3 == i && (3 * i + 1) / 3 == i && (3 * i + 2) / 3 == i);
        i += 1;
    }
    assert(out@ =~= in_color(pixels@, 1));
    out
}

/// A picture of that size and number of bytes for each pixel can be measured: it is not empty, and
/// it has at least three bytes for each pixel, or is gray and three times its bytes fit a vector.
pub open spec fn has_pixels(w: u16, h: u16, depth: usize) -> bool {
    w > 0 && h > 0 && ((depth == 1 && 3 * (w * h) <= usize::MAX) || depth >= 3)
}

/// Brings a decoded picture of `depth` bytes for each pixel to the size that is measured: none where
/// it is empty, where it has two bytes for each pixel, or where the number of bytes is another than
/// its size tells.
pub fn rgb_of_decoded(pixels: Vec<u8>, w: u16, h: u16, depth: usize) -> (r: Option<RgbImage>)
    ensures
        r is Some <==> has_pixels(w, h, depth) && pixels.len() == w * h * depth,
        r is Some ==> is_analysis_size(r->0, in_color(pixels@, depth as int), w as int, h as int),
{
    if depth == 0 || depth == 2 {
        return None;
    }
    assert(0 <= w * h <= 0xffff * 0xffff) by (nonlinear_arith)
        requires
            0 <= w <= 0xffff,
            0 <= h <= 0xffff,
    ;
    assert(0 <= (w * h) * depth <= 0xffff * 0xffff * 0xffff_ffff_ffff_ffff) by (nonlinear_arith)
        requires
            0 <= w * h <= 0xffff * 0xffff,
            0 <= depth <= 0xffff_ffff_ffff_ffff,
    ;
    let need: u128 = (w as u128) * (h as u128) * (depth as u128);
    if pixels.len() as u128 != need {
        return None;
    }
    if depth == 1 {
        if pixels.len() > usize::MAX / 3 {
            return None;
        }
        return to_analysis_size(triple(&pixels), w, h);
    }
    assert((w * h) * depth >= (w * h) * 3) by (nonlinear_arith)
        requires
            w * h >= 0,
            depth >= 3,
    ;
    to_analysis_size(pixels, w, h)
}

/// The bytes of a JPEG file hold a picture that can be measured, with one byte for each sample and
/// with sides of at most 65528 pixels.
pub open spec fn holds_jpeg(bytes: Seq<u8>) -> bool {
    let (w, h, depth) = jpeg_header(bytes)->0;
    &&& jpeg_header(bytes) is Some
    &&& w <= 65528
    &&& h <= 65528
    &&& has_pixels(w, h, depth)
    &&& jpeg_decoded(bytes) is Some
    &&& jpeg_decoded(bytes)->0.len() == w * h * depth
}

/// `img` is the picture to be measured that the bytes of a JPEG file give.
pub open spec fn comes_from_jpeg(img: RgbImage, bytes: Seq<u8>) -> bool {
    let (w, h, depth) = jpeg_header(bytes)->0;
    &&& holds_jpeg(bytes)
    &&& is_analysis_size(
        img,
        in_color(jpeg_decoded(bytes)->0, depth as int),
        w as int,
        h as int,
    )
}

/// Decodes a JPEG picture to the size that is measured, not yet turned upright: none where the bytes
/// hold no picture that can be measured. A picture of more than 128 pixels in a row may fail for want
/// of threads too.
pub fn decode_jpeg_to_rgb(bytes: &[u8]) -> (r: Option<RgbImage>)
    ensures
        r is Some ==> comes_from_jpeg(r->0, bytes@),
        holds_jpeg(bytes@) && (jpeg_header(bytes@)->0).0 <= 128 ==> r is Some,
{
    match jpeg_size(bytes) {
        Some((w, h, depth)) => {
            if w > 65528 || h > 65528 {
                return None;
            }
            match jpeg_decode(bytes) {
                Some(pixels) => rgb_of_decoded(pixels, w, h, depth),
                None => None,
            }
        },
        None => None,
    }
}

/// Tells from the first bytes of a file whether it is a JPEG picture.
pub fn is_jpeg_head(head: &[u8; 4]) -> (r: bool)
    ensures
        r == (head@[0] == 0xff && head@[1] == 0xd8 && head@[2] == 0xff),
{
    head[0] == 0xff && head[1] == 0xd8 && head[2] == 0xff
}

/// The orientation that an EXIF value stands for: its low 16 bits where they lie between 1 and 8,
/// else 1.
pub fn orientation_of(value: Option<u32>) -> (r: u16)
    ensures
        r == match value {
            Some(v) => if 1 <= v % 0x1_0000 <= 8 { v % 0x1_0000 } else { 1 },
            None => 1,
        },
{
    match value {
        Some(v) => {
            let low: u32 = v % 0x1_0000;
            if 1 <= low && low <= 8 {
                low as u16
            } else {
                1
            }
        },
        None => 1,
    }
}

/// A picture as the measures look at it.
pub struct AnalyzedImage {
    pub width: u32,
    pub height: u32,
    /// Brightness of each pixel.
    pub luma: Vec<u8>,
    /// Three bytes for each pixel.
    pub rgb: Vec<u8>,
    /// How many pixels have each brightness.
    pub histogram: Vec<u64>,
    /// Variance of the brightness.
    pub luma_variance: i64,
}

/// The brightness of a pixel.
pub open spec fn brightness(r: u8, g: u8, b: u8) -> int {
    (r * 299 + g * 587 + b * 114) / 1000
}

/// The brightness of pixel number `i`.
pub open spec fn brightness_at(rgb: Seq<u8>, i: int) -> int {
    brightness(rgb[3 * i], rgb[3 * i + 1], rgb[3 * i + 2])
}

/// The values that are `v`.
pub open spec fn having(luma: Seq<u8>, v: int) -> spec_fn(int) -> bool {
    |i: int| luma[i] == v
}

/// How many of the values are `v`.
pub open spec fn count_of(luma: Seq<u8>, v: int) -> nat {
    tally(having(luma, v), 0, luma.len() as int)
}

/// The sum of the values.
pub open spec fn total_of(luma: Seq<u8>) -> int {
    sum(|i: int| luma[i] as int, 0, luma.len() as int)
}

/// The sum of the squares of the values.
pub open spec fn squares_of(luma: Seq<u8>) -> int {
    sum(|i: int| luma[i] * luma[i], 0, luma.len() as int)
}

impl AnalyzedImage {
    /// The parts of the picture agree with each other.
    pub open spec fn wf(&self) -> bool {
        &&& self.luma.len() == self.width * self.height
        &&& self.luma.len() <= u32::MAX
        &&& self.rgb.len() == self.luma.len() * 3
        &&& forall|i: int|
            0 <= i < self.luma.len() ==> #[trigger] self.luma[i] == brightness_at(self.rgb@, i)
        &&& self.histogram.len() == 256
        &&& forall|v: int|
            0 <= v < 256 ==> #[trigger] self.histogram[v] == count_of(self.luma@, v)
        &&& self.luma_variance == variance(
            self.luma.len() as int,
            total_of(self.luma@),
            squares_of(self.luma@),
        )
    }
}

/// Prepares a picture for the measures.
pub fn build_analysis_image(img: RgbImage) -> (r: AnalyzedImage)
    requires
        img.wf(),
        img.width * img.height <= u32::MAX,
    ensures
        r.wf(),
        r.width == img.width,
        r.height == img.height,
        r.rgb@ == img.data@,
{
    let n: usize = (img.width as usize) * (img.height as usize);
    let ghost rgb = img.data@;
    let mut luma: Vec<u8> = Vec::new();
    let mut i: usize = 0;
    while i < n
        invariant
            i <= n,
            rgb == img.data@,
            img.data.len() == n * 3,
            luma.len() == i,
            forall|k: int| 0 <= k < i ==> #[trigger] luma[k] == brightness_at(rgb, k),
        decreases n - i,
    {
        let r: u32 = img.data[3 * i] as u32;
        let g: u32 = img.data[3 * i + 1] as u32;
        let b: u32 = img.data[3 * i + 2] as u32;
        luma.push(((r * 299 + g * 587 + b * 114) / 1000) as u8);
        i += 1;
    }
    let histogram = histogram_of(&luma);
    let luma_variance: i64 = variance_of(&luma);
    AnalyzedImage {
        width: img.width,
        height: img.height,
        luma,
        rgb: img.data,
        histogram,
        luma_variance,
    }
}

/// Counts how often each value occurs.
fn histogram_of(luma: &Vec<u8>) -> (r: Vec<u64>)
    requires
        luma.len() <= u32::MAX,
    ensures
        r.len() == 256,
        forall|v: int| 0 <= v < 256 ==> #[trigger] r[v] == count_of(luma@, v),
{
    let mut hist: Vec<u64> = Vec::new();
    for v in 0..256
        invariant
            hist.len() == v,
            forall|k: int| 0 <= k < v ==> #[trigger] hist[k] == 0,
    {
        hist.push(0);
    }
    let n: usize = luma.len();
    let mut i: usize = 0;
    while i < n
        invariant
            i <= n == luma.len(),
            n <= u32::MAX,
            hist.len() == 256,
            forall|v: int|
                0 <= v < 256 ==> #[trigger] hist[v] == tally(having(luma@, v), 0, i as int),
            forall|v: int| 0 <= v < 256 ==> #[trigger] hist[v] <= i,
        decreases n - i,
    {
        let v: usize = luma[i] as usize;
        let c: u64 = hist[v];
        hist.set(v, c + 1);
        i += 1;
    }
    hist
}

/// The variance of the values.
fn variance_of(luma: &Vec<u8>) -> (r: i64)
    requires
        luma.len() <= u32::MAX,
    ensures
        r == variance(luma.len() as int, total_of(luma@), squares_of(luma@)),
{
    let n: usize = luma.len();
    let ghost f = |i: int| luma@[i] as int;
    let ghost g = |i: int| luma@[i] * luma@[i];
    let mut m = Moments::new(255);
    let mut i: usize = 0;
    while i < n
        invariant
            i <= n == luma.len(),
            n <= u32::MAX,
            f == (|i: int| luma@[i] as int),
            g == (|i: int| luma@[i] * luma@[i]),
            m.wf(),
            m.max == 255,
            m.n == i,
            m.total == sum(f, 0, i as int),
            m.squares == sum(g, 0, i as int),
        decreases n - i,
    {
        m.take_in(luma[i] as u64);
        i += 1;
    }
    m.variance()
}

/// `r` is the upright form of `img`, which was stored with orientation `o`, with its measures.
pub open spec fn is_upright_image(r: AnalyzedImage, img: RgbImage, o: u16) -> bool {
    &&& r.wf()
    &&& r.width == if turns(o) { img.height } else { img.width }
    &&& r.height == if turns(o) { img.width } else { img.height }
    &&& forall|x: int, y: int|
        0 <= x < r.width && 0 <= y < r.height ==> #[trigger] rgb_at(r.rgb@, r.width as int, x, y)
            == img.pixel(
            source(o, img.width as int, img.height as int, x, y).0,
            source(o, img.width as int, img.height as int, x, y).1,
        )
}

/// Turns a picture upright and prepares it for the measures.
pub fn upright_image(img: RgbImage, orientation: u16) -> (r: AnalyzedImage)
    requires
        img.wf(),
        img.width * img.height <= u32::MAX,
    ensures
        is_upright_image(r, img, orientation),
{
    let ghost before = img;
    let up = apply_orientation(img, orientation);
    assert(up.width * up.height == before.width * before.height) by (nonlinear_arith)
        requires
            (up.width == before.width && up.height == before.height) || (up.width == before.height
                && up.height == before.width),
    ;
    let ghost turned = up;
    let r = build_analysis_image(up);
    assert forall|x: int, y: int| 0 <= x < r.width && 0 <= y < r.height implies #[trigger] rgb_at(
        r.rgb@,
        r.width as int,
        x,
        y,
    ) == before.pixel(
        source(orientation, before.width as int, before.height as int, x, y).0,
        source(orientation, before.width as int, before.height as int, x, y).1,
    ) by {
        assert(turned.pixel(x, y) == rgb_at(r.rgb@, r.width as int, x, y));
    }
    r
}

/// Where the pixel in column `x` of row `y` of a stored picture of `w` by `h` pixels lies once the picture
/// is upright: 2 mirrors left and right, 3 turns by half, 4 mirrors top and bottom, 5 and 7 mirror along a
/// diagonal, 6 turns clockwise and 8 counter-clockwise by a quarter.
pub open spec fn destination(o: u16, w: int, h: int, x: int, y: int) -> (int, int) {
    let (right, low) = (w - 1 - x, h - 1 - y);
    if o == 2 {
        (right, y)
    } else if o == 3 {
        (right, low)
    } else if o == 4 {
        (x, low)
    } else if o == 5 {
        (y, x)
    } else if o == 6 {
        (low, x)
    } else if o == 7 {
        (low, right)
    } else if o == 8 {
        (y, right)
    } else {
        (x, y)
    }
}

/// Every pixel of a stored picture is found in the upright one where its orientation takes it; four
/// of the orientations swap the sides.
pub proof fn pixels_go_where_the_orientation_says(up: RgbImage, img: RgbImage, o: u16, x: int, y: int)
    requires
        is_upright(up, img, o),
        0 <= x < img.width,
        0 <= y < img.height,
    ensures
        ({
            let to = destination(o, img.width as int, img.height as int, x, y);
            up.pixel(to.0, to.1) == img.pixel(x, y)
        }),
        o == 5 || o == 6 || o == 7 || o == 8 ==> up.width == img.height && up.height == img.width,
        !(o == 5 || o == 6 || o == 7 || o == 8) ==> up.width == img.width && up.height == img.height,
{
    let (w, h) = (img.width as int, img.height as int);
    let to = destination(o, w, h, x, y);
    assert(source(o, w, h, to.0, to.1) == (x, y));
}

/// The picture that is measured is the upright one: the same pixels at the same places.
pub proof fn measured_pictures_are_upright(r: AnalyzedImage, img: RgbImage, o: u16, x: int, y: int)
    requires
        is_upright_image(r, img, o),
        0 <= x < img.width,
        0 <= y < img.height,
    ensures
        ({
            let to = destination(o, img.width as int, img.height as int, x, y);
            rgb_at(r.rgb@, r.width as int, to.0, to.1) == img.pixel(x, y)
        }),
{
    let (w, h) = (img.width as int, img.height as int);
    let to = destination(o, w, h, x, y);
    assert(source(o, w, h, to.0, to.1) == (x, y));
}

/// The brightness of a pixel is 299 parts of red, 587 of green and 114 of blue in a thousand, rounded
/// down.
pub proof fn brightness_weighs_the_colors(img: AnalyzedImage, i: int)
    requires
        img.wf(),
        0 <= i < img.luma.len(),
    ensures
        1000 * img.luma[i] <= 299 * img.rgb[3 * i] + 587 * img.rgb[3 * i + 1] + 114 * img.rgb[3 * i + 2]
            < 1000 * (img.luma[i] + 1),
{
    assert(img.luma[i] == brightness_at(img.rgb@, i));
}

/// A picture is made smaller by as little as brings both sides to at most 1024 pixels.
pub proof fn step_is_least(w: int, h: int)
    requires
        w > 0,
        h > 0,
    ensures
        w <= 1024 * step_for(w, h),
        h <= 1024 * step_for(w, h),
        w > 1024 * (step_for(w, h) - 1) || h > 1024 * (step_for(w, h) - 1),
{
}

/// In a picture made smaller every byte is the mean, rounded down, of the same color over a square of
/// the larger one.
pub proof fn small_pixels_are_means(
    small: Seq<u8>,
    nw: int,
    nh: int,
    rgb: Seq<u8>,
    w: int,
    step: int,
    x: int,
    y: int,
    c: int,
)
    requires
        step > 0,
        is_downsampled(small, nw, nh, rgb, w, step),
        0 <= x < nw,
        0 <= y < nh,
        0 <= c < 3,
    ensures
        ({
            let v = small[(y * nw + x) * 3 + c] as int;
            let s = rect_sum(
                |u: int, t: int| rgb[(t * w + u) * 3 + c] as int,
                x * step,
                x * step + step,
                y * step,
                y * step + step,
            );
            v * (step * step) <= s < (v + 1) * (step * step)
        }),
{
    let f = |u: int, t: int| rgb[(t * w + u) * 3 + c] as int;
    assert(f =~= channel(rgb, w, c));
    assert(channel(small, nw, c)(x, y) == block_mean(rgb, w, step, x, y, c));
    let v = small[(y * nw + x) * 3 + c] as int;
    let s = rect_sum(f, x * step, x * step + step, y * step, y * step + step);
    let area = step * step;
    assert(area > 0) by (nonlinear_arith)
        requires
            step > 0,
            area == step * step,
    ;
    vstd::arithmetic::div_mod::lemma_fundamental_div_mod(s, area);
    vstd::arithmetic::div_mod::lemma_mod_bound(s, area);
    assert(v * area <= s < (v + 1) * area) by (nonlinear_arith)
        requires
            s == area * v + s % area,
            0 <= s % area < area,
    ;
}

/// A gray pixel becomes one of three equal colors; bytes of colors stay as they are.
pub proof fn gray_pixels_have_equal_colors(pixels: Seq<u8>, i: int, c: int)
    requires
        0 <= i < pixels.len(),
        0 <= c < 3,
    ensures
        in_color(pixels, 1).len() == 3 * pixels.len(),
        in_color(pixels, 1)[3 * i + c] == pixels[i],
        in_color(pixels, 3) == pixels,
{
    assert((3 * i + c) / 3 == i);
}

/// A picture that is not empty can be measured where it is gray or has colors; not where it has two bytes
/// for each pixel.
pub proof fn gray_and_colored_pictures_can_be_measured(w: u16, h: u16, depth: usize)
    requires
        w * h <= 0x4000_0000,
    ensures
        has_pixels(w, h, depth) <==> w > 0 && h > 0 && (depth == 1 || depth >= 3),
{
}

} // verus!
