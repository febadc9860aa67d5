//! Sharpness: gradients over the whole picture, and how much a blur changes it.
use crate::decode::AnalyzedImage;
use crate::fixed::{clamped, round_div, rounded, rounded_is_near};
use crate::metrics::region::{span, window_area, window_at, window_of, Region, Window};
use crate::moments::{variance, Moments};
use crate::order::{index_of_percentile, is_kth, kth_smallest, percentile_index};
use crate::raster::{index_inside, pixel, rect_sum, rect_sum_bound, row_sum, row_sum_bound};
use vstd::prelude::*;

verus! {

/// The horizontal gradient at a pixel that is not on the border (Sobel).
pub open spec fn gradient_x(luma: Seq<u8>, w: int, x: int, y: int) -> int {
    pixel(luma, w, x + 1, y - 1) + 2 * pixel(luma, w, x + 1, y) + pixel(luma, w, x + 1, y + 1) - (
    pixel(luma, w, x - 1, y - 1) + 2 * pixel(luma, w, x - 1, y) + pixel(luma, w, x - 1, y + 1))
}

/// The vertical gradient at a pixel that is not on the border (Sobel).
pub open spec fn gradient_y(luma: Seq<u8>, w: int, x: int, y: int) -> int {
    pixel(luma, w, x - 1, y + 1) + 2 * pixel(luma, w, x, y + 1) + pixel(luma, w, x + 1, y + 1) - (
    pixel(luma, w, x - 1, y - 1) + 2 * pixel(luma, w, x, y - 1) + pixel(luma, w, x + 1, y - 1))
}

/// The square of the gradient.
pub open spec fn gradient_square(luma: Seq<u8>, w: int, x: int, y: int) -> int {
    gradient_x(luma, w, x, y) * gradient_x(luma, w, x, y) + gradient_y(luma, w, x, y) * gradient_y(
        luma,
        w,
        x,
        y,
    )
}

/// The squares of the gradient at every second pixel of every second row, inside the border.
pub open spec fn sampled_gradient(luma: Seq<u8>, w: int) -> spec_fn(int, int) -> int {
    |kx: int, ky: int| gradient_square(luma, w, 1 + 2 * kx, 1 + 2 * ky)
}

/// The squares of the sampled squares.
pub open spec fn sampled_gradient_squared(luma: Seq<u8>, w: int) -> spec_fn(int, int) -> int {
    |kx: int, ky: int|
        gradient_square(luma, w, 1 + 2 * kx, 1 + 2 * ky) * gradient_square(
            luma,
            w,
            1 + 2 * kx,
            1 + 2 * ky,
        )
}

/// How many samples fit inside the border of a side.
pub open spec fn samples(side: int) -> int {
    (side - 1) / 2
}

/// The square of the gradient at a pixel.
fn gradient_at(luma: &[u8], w: usize, h: usize, x: usize, y: usize) -> (r: u64)
    requires
        1 <= x < w - 1,
        1 <= y < h - 1,
        w * h <= luma.len(),
    ensures
        r == gradient_square(luma@, w as int, x as int, y as int),
        r <= 2_080_800,
{
    proof {
        index_inside(x as int, y - 1, w as int, h as int);
        index_inside(x as int, y as int, w as int, h as int);
        index_inside(x as int, y + 1, w as int, h as int);
        index_inside(w - 1, y + 1, w as int, h as int);
        assert((y - 1) * w == y * w - w && (y + 1) * w == y * w + w) by (nonlinear_arith);
    }
    let up: usize = (y - 1) * w + x;
    let mid: usize = y * w + x;
    let low: usize = (y + 1) * w + x;
    let gx: i64 = luma[up + 1] as i64 + 2 * (luma[mid + 1] as i64) + luma[low + 1] as i64 - (
    luma[up - 1] as i64 + 2 * (luma[mid - 1] as i64) + luma[low - 1] as i64);
    let gy: i64 = luma[low - 1] as i64 + 2 * (luma[low] as i64) + luma[low + 1] as i64 - (luma[up
        - 1] as i64 + 2 * (luma[up] as i64) + luma[up + 1] as i64);
    assert(gx == gradient_x(luma@, w as int, x as int, y as int));
    assert(gy == gradient_y(luma@, w as int, x as int, y as int));
    assert(0 <= gx * gx <= 1_040_400) by (nonlinear_arith)
        requires
            -1020 <= gx <= 1020,
    ;
    assert(0 <= gy * gy <= 1_040_400) by (nonlinear_arith)
        requires
            -1020 <= gy <= 1020,
    ;
    (gx * gx + gy * gy) as u64
}

/// A quarter of the pixels at most are sampled.
proof fn sample_count(w: int, h: int)
    requires
        w >= 3,
        h >= 3,
    ensures
        0 < samples(w) * samples(h),
        4 * (samples(w) * samples(h)) <= w * h,
{
    let a = samples(w);
    let b = samples(h);
    assert(0 < a * b) by (nonlinear_arith)
        requires
            a > 0,
            b > 0,
    ;
    assert(4 * (a * b) <= w * h) by (nonlinear_arith)
        requires
            0 < 2 * a <= w,
            0 < 2 * b <= h,
    ;
}

/// The number of samples up to one of them is no more than there are.
proof fn sample_index(kx: int, ky: int, nx: int, ny: int)
    requires
        0 <= kx <= nx,
        0 <= ky < ny,
    ensures
        0 <= ky * nx + kx <= nx * ny,
{
    assert(0 <= ky * nx + kx <= nx * ny) by (nonlinear_arith)
        requires
            0 <= kx <= nx,
            0 <= ky < ny,
    ;
}

/// The variance of the squared gradient over the samples; zero for a picture of less than three
/// pixels in a side.
pub open spec fn tenengrad_of(luma: Seq<u8>, w: int, h: int) -> int {
    if w < 3 || h < 3 {
        0
    } else {
        variance(
            samples(w) * samples(h),
            rect_sum(sampled_gradient(luma, w), 0, samples(w), 0, samples(h)),
            rect_sum(sampled_gradient_squared(luma, w), 0, samples(w), 0, samples(h)),
        )
    }
}

/// The variance of the squared gradient over the samples: the larger, the sharper. Zero for a
/// picture of less than three pixels in a side.
pub fn tenengrad_variance(img: &AnalyzedImage) -> (r: i64)
    requires
        img.wf(),
    ensures
        r == tenengrad_of(img.luma@, img.width as int, img.height as int),
        r >= 0,
{
    let w: usize = img.width as usize;
    let h: usize = img.height as usize;
    if w < 3 || h < 3 {
        return 0;
    }
    let nx: usize = (w - 1) / 2;
    let ny: usize = (h - 1) / 2;
    let ghost f = sampled_gradient(img.luma@, w as int);
    let ghost g = sampled_gradient_squared(img.luma@, w as int);
    let ghost x1 = nx as int;
    proof {
        sample_count(w as int, h as int);
        assert(0 * nx == 0) by (nonlinear_arith);
    }
    let mut m = Moments::new(2_080_800);
    let mut ky: usize = 0;
    while ky < ny
        invariant
            img.wf(),
            w == img.width,
            h == img.height,
            w >= 3,
            h >= 3,
            nx == samples(w as int),
            ny == samples(h as int),
            x1 == nx,
            f == sampled_gradient(img.luma@, w as int),
            g == sampled_gradient_squared(img.luma@, w as int),
            4 * (nx * ny) <= w * h,
            ky <= ny,
            m.wf(),
            m.max == 2_080_800,
            m.n == ky * nx,
            m.total == rect_sum(f, 0, x1, 0, ky as int),
            m.squares == rect_sum(g, 0, x1, 0, ky as int),
        decreases ny - ky,
    {
        let mut kx: usize = 0;
        while kx < nx
            invariant
                img.wf(),
                w == img.width,
                h == img.height,
                w >= 3,
                h >= 3,
                nx == samples(w as int),
                ny == samples(h as int),
                x1 == nx,
                f == sampled_gradient(img.luma@, w as int),
                g == sampled_gradient_squared(img.luma@, w as int),
                4 * (nx * ny) <= w * h,
                ky < ny,
                kx <= nx,
                m.wf(),
                m.max == 2_080_800,
                m.n == ky * nx + kx,
                m.total == rect_sum(f, 0, x1, 0, ky as int) + row_sum(f, ky as int, 0, kx as int),
                m.squares == rect_sum(g, 0, x1, 0, ky as int) + row_sum(g, ky as int, 0, kx as int),
            decreases nx - kx,
        {
            let v: u64 = gradient_at(img.luma.as_slice(), w, h, 1 + 2 * kx, 1 + 2 * ky);
            proof {
                sample_index(kx + 1, ky as int, nx as int, ny as int);
                assert(f(kx as int, ky as int) == v);
                assert(g(kx as int, ky as int) == v * v);
            }
            m.take_in(v);
            kx += 1;
        }
        assert((ky + 1) * nx == ky * nx + nx) by (nonlinear_arith);
        ky += 1;
    }
    assert(ny * nx == nx * ny) by (nonlinear_arith);
    m.variance()
}

/// One variance in units of another; zero where that is below one.
pub open spec fn normalized_of(var: int, luma_variance: int) -> int {
    if luma_variance < 1_000_000 {
        0
    } else {
        rounded(var * 1_000_000, luma_variance)
    }
}

/// The variance of the gradient in units of the variance of the brightness; zero where that is
/// below one.
pub fn normalized_sharpness(var: i64, luma_variance: i64) -> (r: i128)
    requires
        var >= 0,
    ensures
        r == normalized_of(var as int, luma_variance as int),
{
    if luma_variance < 1_000_000 {
        0
    } else {
        round_div(var as i128 * 1_000_000, luma_variance as i128)
    }
}

/// One where the gradient at a sample is stronger than the threshold, zero elsewhere.
pub open spec fn strong_edge(luma: Seq<u8>, w: int, threshold: int) -> spec_fn(int, int) -> int {
    |kx: int, ky: int|
        if gradient_square(luma, w, 1 + 2 * kx, 1 + 2 * ky) * 1_000_000_000_000 > threshold
            * threshold {
            1
        } else {
            0
        }
}

/// The share of the samples whose gradient is stronger than the threshold.
pub fn edge_ratio(luma: &[u8], w: u32, h: u32, grad_threshold: i64) -> (r: i64)
    requires
        w < 3 || h < 3 || w * h <= luma.len(),
    ensures
        r == if w < 3 || h < 3 {
            0
        } else {
            rounded(
                rect_sum(
                    strong_edge(luma@, w as int, grad_threshold as int),
                    0,
                    samples(w as int),
                    0,
                    samples(h as int),
                ) * 1_000_000,
                samples(w as int) * samples(h as int),
            )
        },
        0 <= r <= 1_000_000,
{
    let w: usize = w as usize;
    let h: usize = h as usize;
    if w < 3 || h < 3 {
        return 0;
    }
    let nx: usize = (w - 1) / 2;
    let ny: usize = (h - 1) / 2;
    let t: i128 = grad_threshold as i128;
    let ghost f = strong_edge(luma@, w as int, grad_threshold as int);
    let ghost x1 = nx as int;
    proof {
        sample_count(w as int, h as int);
        assert(0 * nx == 0) by (nonlinear_arith);
        assert(0 <= t * t <= 0x4000_0000_0000_0000_0000_0000_0000_0000) by (nonlinear_arith)
            requires
                -0x8000_0000_0000_0000 <= t <= 0x8000_0000_0000_0000,
        ;
    }
    let limit: i128 = t * t;
    let mut strong: u64 = 0;
    let mut ky: usize = 0;
    while ky < ny
        invariant
            w * h <= luma.len(),
            3 <= w <= u32::MAX,
            3 <= h <= u32::MAX,
            nx == samples(w as int),
            ny == samples(h as int),
            x1 == nx,
            limit == grad_threshold * grad_threshold,
            f == strong_edge(luma@, w as int, grad_threshold as int),
            4 * (nx * ny) <= w * h,
            ky <= ny,
            strong == rect_sum(f, 0, x1, 0, ky as int),
            strong <= ky * nx,
        decreases ny - ky,
    {
        let mut kx: usize = 0;
        while kx < nx
            invariant
                w * h <= luma.len(),
                3 <= w <= u32::MAX,
                3 <= h <= u32::MAX,
                nx == samples(w as int),
                ny == samples(h as int),
                x1 == nx,
                limit == grad_threshold * grad_threshold,
                f == strong_edge(luma@, w as int, grad_threshold as int),
                4 * (nx * ny) <= w * h,
                ky < ny,
                kx <= nx,
                strong == rect_sum(f, 0, x1, 0, ky as int) + row_sum(f, ky as int, 0, kx as int),
                strong <= ky * nx + kx,
            decreases nx - kx,
        {
            let v: u64 = gradient_at(luma, w, h, 1 + 2 * kx, 1 + 2 * ky);
            proof {
                sample_index(kx + 1, ky as int, nx as int, ny as int);
            }
            if (v as i128) * 1_000_000_000_000 > limit {
                strong += 1;
            }
            kx += 1;
        }
        assert((ky + 1) * nx == ky * nx + nx) by (nonlinear_arith);
        ky += 1;
    }
    assert(ny * nx == nx * ny) by (nonlinear_arith);
    let total: i128 = (nx * ny) as i128;
    proof {
        ratio_bound(strong as int, total as int);
    }
    round_div(strong as i128 * 1_000_000, total) as i64
}

/// A share of a whole lies between zero and one.
pub proof fn ratio_bound(part: int, whole: int)
    requires
        0 <= part <= whole,
        whole > 0,
    ensures
        0 <= rounded(part * 1_000_000, whole) <= 1_000_000,
{
    let a = part * 1_000_000;
    assert(0 <= (2 * a + whole) / (2 * whole) <= 1_000_000) by (nonlinear_arith)
        requires
            0 <= a <= 1_000_000 * whole,
            whole > 0,
    ;
}

/// A coordinate moved back onto a side.
pub open spec fn on_side(x: int, side: int) -> int {
    clamped(x, 0, side - 1)
}

/// The pixel nearest to a place that may lie just outside the picture.
pub open spec fn near_pixel(luma: Seq<u8>, w: int, h: int, x: int, y: int) -> int {
    pixel(luma, w, on_side(x, w), on_side(y, h))
}

/// The sum of three neighbours in a row.
pub open spec fn three(luma: Seq<u8>, w: int, h: int, x: int, y: int) -> int {
    near_pixel(luma, w, h, x - 1, y) + near_pixel(luma, w, h, x, y) + near_pixel(
        luma,
        w,
        h,
        x + 1,
        y,
    )
}

/// The mean, rounded down, of a pixel and its eight neighbours; border pixels repeat outwards.
pub open spec fn blur_at(luma: Seq<u8>, w: int, h: int, x: int, y: int) -> int {
    (three(luma, w, h, x, y - 1) + three(luma, w, h, x, y) + three(luma, w, h, x, y + 1)) / 9
}

/// The picture with every pixel replaced by the mean of its neighbourhood; what lies behind the
/// last row becomes zero.
pub open spec fn blurred(luma: Seq<u8>, w: int, h: int) -> Seq<u8> {
    Seq::new(
        luma.len(),
        |k: int|
            if k < w * h {
                blur_at(luma, w, h, k % w, k / w) as u8
            } else {
                0u8
            },
    )
}

/// The sum of three neighbours in a row.
fn three_of(luma: &[u8], w: usize, h: usize, x: usize, y: usize) -> (r: u64)
    requires
        x < w,
        y < h,
        w * h <= luma.len(),
    ensures
        r == three(luma@, w as int, h as int, x as int, y as int),
        r <= 765,
{
    let left: usize = if x > 0 { x - 1 } else { 0 };
    let right: usize = if x + 1 < w { x + 1 } else { x };
    proof {
        index_inside(x as int, y as int, w as int, h as int);
        index_inside(left as int, y as int, w as int, h as int);
        index_inside(right as int, y as int, w as int, h as int);
    }
    luma[y * w + left] as u64 + luma[y * w + x] as u64 + luma[y * w + right] as u64
}

/// Blurs a picture: every pixel becomes the mean of itself and its eight neighbours.
pub fn box_blur_3x3(luma: &[u8], w: usize, h: usize) -> (r: Vec<u8>)
    requires
        w * h <= luma.len(),
    ensures
        r@ == blurred(luma@, w as int, h as int),
{
    let n: usize = luma.len();
    let ghost all = blurred(luma@, w as int, h as int);
    let mut out: Vec<u8> = Vec::new();
    let mut y: usize = 0;
    assert(0 * w == 0) by (nonlinear_arith);
    while y < h
        invariant
            w * h <= luma.len(),
            y <= h,
            all == blurred(luma@, w as int, h as int),
            out.len() == y * w,
            forall|k: int| 0 <= k < y * w ==> #[trigger] out[k] == all[k],
        decreases h - y,
    {
        let mut x: usize = 0;
        while x < w
            invariant
                w * h <= luma.len(),
                y < h,
                x <= w,
                all == blurred(luma@, w as int, h as int),
                out.len() == y * w + x,
                forall|k: int| 0 <= k < y * w + x ==> #[trigger] out[k] == all[k],
            decreases w - x,
        {
            let up: usize = if y > 0 { y - 1 } else { 0 };
            let low: usize = if y + 1 < h { y + 1 } else { y };
            let s: u64 = three_of(luma, w, h, x, up) + three_of(luma, w, h, x, y) + three_of(
                luma,
                w,
                h,
                x,
                low,
            );
            proof {
                let k = y * w + x;
                index_inside(x as int, y as int, w as int, h as int);
                vstd::arithmetic::div_mod::lemma_fundamental_div_mod_converse(
                    k,
                    w as int,
                    y as int,
                    x as int,
                );
                assert(three(luma@, w as int, h as int, x as int, y - 1) == three(
                    luma@,
                    w as int,
                    h as int,
                    x as int,
                    up as int,
                ));
                assert(three(luma@, w as int, h as int, x as int, y + 1) == three(
                    luma@,
                    w as int,
                    h as int,
                    x as int,
                    low as int,
                ));
                assert(all[k] == (s / 9) as u8);
            }
            out.push((s / 9) as u8);
            x += 1;
        }
        assert((y + 1) * w == y * w + w) by (nonlinear_arith);
        y += 1;
    }
    assert(h * w == w * h) by (nonlinear_arith);
    while out.len() < n
        invariant
            w * h <= out.len() <= n == luma.len(),
            all == blurred(luma@, w as int, h as int),
            forall|k: int| 0 <= k < out.len() ==> #[trigger] out[k] == all[k],
        decreases n - out.len(),
    {
        out.push(0);
    }
    assert(out@ =~= all);
    out
}

/// How much the picture changes at a pixel where it is blurred twice.
pub open spec fn blur_change(luma: Seq<u8>, w: int, h: int) -> spec_fn(int, int) -> int {
    change(luma, blurred(blurred(luma, w, h), w, h), w)
}

/// The difference of two pictures at a pixel, without its sign.
pub open spec fn change(a: Seq<u8>, b: Seq<u8>, w: int) -> spec_fn(int, int) -> int {
    |x: int, y: int|
        if pixel(a, w, x, y) >= pixel(b, w, x, y) {
            pixel(a, w, x, y) - pixel(b, w, x, y)
        } else {
            pixel(b, w, x, y) - pixel(a, w, x, y)
        }
}

/// The difference of two pictures at a pixel, without its sign.
fn change_at(a: &[u8], b: &[u8], w: usize, h: usize, x: usize, y: usize) -> (r: u64)
    requires
        x < w,
        y < h,
        w * h <= a.len(),
        a.len() == b.len(),
    ensures
        r == change(a@, b@, w as int)(x as int, y as int),
        r <= 255,
{
    proof {
        index_inside(x as int, y as int, w as int, h as int);
    }
    let p: u8 = a[y * w + x];
    let q: u8 = b[y * w + x];
    if p >= q {
        (p - q) as u64
    } else {
        (q - p) as u64
    }
}

/// The sum of the differences over a rectangle.
fn change_total(
    a: &[u8],
    b: &[u8],
    w: usize,
    h: usize,
    x0: usize,
    x1: usize,
    y0: usize,
    y1: usize,
) -> (r: u128)
    requires
        x1 <= w,
        y1 <= h,
        w * h <= a.len(),
        a.len() == b.len(),
    ensures
        r == rect_sum(change(a@, b@, w as int), x0 as int, x1 as int, y0 as int, y1 as int),
        x0 <= x1 && y0 <= y1 ==> r <= 255 * ((x1 - x0) * (y1 - y0)),
{
    let ghost f = change(a@, b@, w as int);
    let mut total: u128 = 0;
    if x0 > x1 || y0 > y1 {
        proof {
            empty_rect(f, x0 as int, x1 as int, y0 as int, y1 as int);
        }
        return 0;
    }
    let mut y: usize = y0;
    proof {
        assert((x1 - x0) * (y1 - y0) <= w * h) by (nonlinear_arith)
            requires
                0 <= x1 - x0 <= w,
                0 <= y1 - y0 <= h,
        ;
    }
    while y < y1
        invariant
            x0 <= x1 <= w,
            y0 <= y <= y1 <= h,
            w * h <= a.len(),
            a.len() == b.len(),
            (x1 - x0) * (y1 - y0) <= w * h,
            f == change(a@, b@, w as int),
            total == rect_sum(f, x0 as int, x1 as int, y0 as int, y as int),
        decreases y1 - y,
    {
        let mut x: usize = x0;
        while x < x1
            invariant
                x0 <= x <= x1 <= w,
                y0 <= y < y1 <= h,
                w * h <= a.len(),
                a.len() == b.len(),
                (x1 - x0) * (y1 - y0) <= w * h,
                f == change(a@, b@, w as int),
                total == rect_sum(f, x0 as int, x1 as int, y0 as int, y as int) + row_sum(
                    f,
                    y as int,
                    x0 as int,
                    x as int,
                ),
            decreases x1 - x,
        {
            proof {
                rect_sum_bound(f, x0 as int, x1 as int, y0 as int, y as int, 255);
                row_sum_bound(f, y as int, x0 as int, x as int, 255);
                assert((x1 - x0) * (y - y0) <= (x1 - x0) * (y1 - y0)) by (nonlinear_arith)
                    requires
                        0 <= x1 - x0,
                        0 <= y - y0 <= y1 - y0,
                ;
            }
            total += change_at(a, b, w, h, x, y) as u128;
            x += 1;
        }
        y += 1;
    }
    proof {
        rect_sum_bound(f, x0 as int, x1 as int, y0 as int, y1 as int, 255);
    }
    total
}

/// A sum over no pixels is zero.
proof fn empty_rect(f: spec_fn(int, int) -> int, x0: int, x1: int, y0: int, y1: int)
    requires
        x0 >= x1 || y0 >= y1,
    ensures
        rect_sum(f, x0, x1, y0, y1) == 0,
    decreases y1 - y0,
{
    if y0 < y1 {
        empty_rect(f, x0, x1, y0, y1 - 1);
    }
}

/// Where a block that starts at `a` ends: after `block` pixels or at the side.
pub open spec fn block_end(a: int, block: int, side: int) -> int {
    if a + block < side {
        a + block
    } else {
        side
    }
}

/// How many blocks a side has, the last one perhaps shorter.
pub open spec fn block_count(side: int, block: int) -> int {
    (side + block - 1) / block
}

/// The mean change over block number `i`, counted along the rows.
pub open spec fn block_change(luma: Seq<u8>, w: int, h: int, block: int, i: int) -> int {
    let x0 = i % block_count(w, block) * block;
    let y0 = i / block_count(w, block) * block;
    let x1 = block_end(x0, block, w);
    let y1 = block_end(y0, block, h);
    rounded(
        rect_sum(blur_change(luma, w, h), x0, x1, y0, y1) * 1_000_000,
        (x1 - x0) * (y1 - y0),
    )
}

/// The mean changes of all blocks.
pub open spec fn block_changes(luma: Seq<u8>, w: int, h: int, block: int) -> Seq<u64> {
    Seq::new(
        (block_count(w, block) * block_count(h, block)) as nat,
        |i: int| block_change(luma, w, h, block, i) as u64,
    )
}

/// A mean of values up to 255 is at most 255.
pub proof fn mean_bound(s: int, area: int)
    requires
        0 <= s <= 255 * area,
        area > 0,
    ensures
        0 <= rounded(s * 1_000_000, area) <= 255_000_000,
{
    let a = s * 1_000_000;
    assert(0 <= (2 * a + area) / (2 * area) <= 255_000_000) by (nonlinear_arith)
        requires
            0 <= a <= 255_000_000 * area,
            area > 0,
    ;
}

/// The blocks of a side: each of them starts on it, and there are no more than pixels.
proof fn blocks_fit(side: int, block: int, g: int)
    requires
        block >= 4,
        side >= 4,
        0 <= g < block_count(side, block),
    ensures
        0 <= g * block < side,
        0 < block_count(side, block) <= side,
{
    let n = block_count(side, block);
    vstd::arithmetic::div_mod::lemma_fundamental_div_mod(side + block - 1, block);
    vstd::arithmetic::div_mod::lemma_mod_bound(side + block - 1, block);
    assert(0 <= g * block < side) by (nonlinear_arith)
        requires
            0 <= g < n,
            block > 0,
            side + block - 1 >= block * n,
    ;
    assert(n <= side) by (nonlinear_arith)
        requires
            side + block - 1 >= block * n,
            block >= 1,
            side >= 1,
    ;
}

/// How much a blur changes the sharpest blocks: the percentile `pct` of the mean changes of all
/// blocks. Zero for a picture of less than four pixels in a side; blocks have four pixels or more.
pub fn reblur_block_percentile(luma: &[u8], w: u32, h: u32, block: u32, pct: u32) -> (r: u64)
    requires
        w < 4 || h < 4 || w * h <= luma.len(),
    ensures
        w < 4 || h < 4 ==> r == 0,
        w >= 4 && h >= 4 ==> {
            let side = if block >= 4 { block as int } else { 4int };
            let vals = block_changes(luma@, w as int, h as int, side);
            is_kth(vals, percentile_index(vals.len() as int, pct as int), r as int)
        },
{
    let w: usize = w as usize;
    let h: usize = h as usize;
    if w < 4 || h < 4 {
        return 0;
    }
    let once = box_blur_3x3(luma, w, h);
    let twice = box_blur_3x3(once.as_slice(), w, h);
    let side: u64 = if block >= 4 { block as u64 } else { 4 };
    let bw: u64 = (w as u64 + side - 1) / side;
    let bh: u64 = (h as u64 + side - 1) / side;
    let ghost vals = block_changes(luma@, w as int, h as int, side as int);
    let ghost f = blur_change(luma@, w as int, h as int);
    assert(bw >= 1 && bh >= 1) by (nonlinear_arith)
        requires
            bw == (w as u64 + side - 1) / side as int,
            bh == (h as u64 + side - 1) / side as int,
            side > 0,
            w >= 1,
            h >= 1,
    ;
    proof {
        blocks_fit(w as int, side as int, 0);
        blocks_fit(h as int, side as int, 0);
    }
    assert(0 < bw * bh <= w * h) by (nonlinear_arith)
        requires
            0 < bw <= w,
            0 < bh <= h,
    ;
    let total: u64 = bw * bh;
    let mut out: Vec<u64> = Vec::new();
    let mut i: u64 = 0;
    while i < total
        invariant
            4 <= w <= u32::MAX,
            4 <= h <= u32::MAX,
            w * h <= luma.len(),
            luma.len() == twice.len(),
            twice@ == blurred(blurred(luma@, w as int, h as int), w as int, h as int),
            4 <= side <= u32::MAX,
            bw == block_count(w as int, side as int),
            bh == block_count(h as int, side as int),
            bw > 0,
            total == bw * bh,
            i <= total,
            f == blur_change(luma@, w as int, h as int),
            vals == block_changes(luma@, w as int, h as int, side as int),
            out.len() == i,
            forall|k: int| 0 <= k < i ==> #[trigger] out[k] == vals[k],
            forall|k: int| 0 <= k < i ==> #[trigger] out[k] <= 255_000_000,
        decreases total - i,
    {
        let gx: u64 = i % bw;
        let gy: u64 = i / bw;
        proof {
            assert(gy < bh) by (nonlinear_arith)
                requires
                    gy == i as int / bw as int,
                    i < bw * bh,
                    bw > 0,
            ;
            blocks_fit(w as int, side as int, gx as int);
            blocks_fit(h as int, side as int, gy as int);
        }
        let x0: u64 = gx * side;
        let y0: u64 = gy * side;
        let x1: u64 = if x0 + side < w as u64 { x0 + side } else { w as u64 };
        let y1: u64 = if y0 + side < h as u64 { y0 + side } else { h as u64 };
        let s: u128 = change_total(
            luma,
            twice.as_slice(),
            w,
            h,
            x0 as usize,
            x1 as usize,
            y0 as usize,
            y1 as usize,
        );
        proof {
            assert(0 < (x1 - x0) * (y1 - y0) <= 0xffff_ffff * 0xffff_ffff) by (nonlinear_arith)
                requires
                    0 < x1 - x0 <= 0xffff_ffff,
                    0 < y1 - y0 <= 0xffff_ffff,
            ;
            mean_bound(s as int, (x1 - x0) * (y1 - y0));
        }
        let area: i128 = ((x1 - x0) as i128) * ((y1 - y0) as i128);
        let v: u64 = round_div(s as i128 * 1_000_000, area) as u64;
        assert(vals[i as int] == v);
        out.push(v);
        i += 1;
    }
    assert(out@ =~= vals);
    let k: usize = index_of_percentile(out.len(), pct);
    kth_smallest(&out, k, 255_000_000)
}

/// One where `f` is at most `v`, zero elsewhere.
pub open spec fn within(f: spec_fn(int, int) -> int, v: int) -> spec_fn(int, int) -> int {
    |x: int, y: int|
        if f(x, y) <= v {
            1int
        } else {
            0int
        }
}

/// How many pixels of a window change by at most `v`.
pub open spec fn changed_at_most(f: spec_fn(int, int) -> int, r: Window, v: int) -> int {
    rect_sum(
        within(f, v),
        r.x0 as int,
        r.x1 + 1,
        r.y0 as int,
        r.y1 + 1,
    )
}

/// The mean change over a window, in fixed point; zero for no pixels.
pub open spec fn mean_change(f: spec_fn(int, int) -> int, r: Window) -> int {
    if window_area(r) == 0 {
        0
    } else {
        rounded(
            rect_sum(f, r.x0 as int, r.x1 + 1, r.y0 as int, r.y1 + 1) * 1_000_000,
            window_area(r),
        )
    }
}

/// `v` is the change that 80 of 100 pixels of a window do not exceed; zero for no pixels.
pub open spec fn is_p80_change(f: spec_fn(int, int) -> int, r: Window, v: int) -> bool {
    if window_area(r) == 0 {
        v == 0
    } else {
        let k = percentile_index(window_area(r), 80);
        changed_at_most(f, r, v) > k && changed_at_most(f, r, v - 1) <= k
    }
}

/// How much a blur changes a part of the picture, on average. Zero for a picture of less than
/// eight pixels in a side.
pub fn reblur_mean_region(luma: &[u8], w: u32, h: u32, g: &Region) -> (r: i64)
    requires
        w < 8 || h < 8 || w * h <= luma.len(),
    ensures
        w < 8 || h < 8 ==> r == 0,
        w >= 8 && h >= 8 ==> r == mean_change(
            blur_change(luma@, w as int, h as int),
            window_at(w as int, h as int, *g),
        ),
{
    if w < 8 || h < 8 {
        return 0;
    }
    let win = window_of(w, h, g);
    let once = box_blur_3x3(luma, w as usize, h as usize);
    let twice = box_blur_3x3(once.as_slice(), w as usize, h as usize);
    let s: u128 = change_total(
        luma,
        twice.as_slice(),
        w as usize,
        h as usize,
        win.x0,
        win.x1 + 1,
        win.y0,
        win.y1 + 1,
    );
    if win.x0 > win.x1 || win.y0 > win.y1 {
        assert(window_area(win) == 0) by (nonlinear_arith)
            requires
                window_area(win) == span(win.x0 as int, win.x1 as int) * span(
                    win.y0 as int,
                    win.y1 as int,
                ),
                span(win.x0 as int, win.x1 as int) == 0 || span(win.y0 as int, win.y1 as int) == 0,
        ;
        return 0;
    }
    let nw: i128 = (win.x1 - win.x0) as i128 + 1;
    let nh: i128 = (win.y1 - win.y0) as i128 + 1;
    proof {
        assert(0 < nw * nh <= 0x1_0000_0000 * 0x1_0000_0000) by (nonlinear_arith)
            requires
                0 < nw <= 0x1_0000_0000,
                0 < nh <= 0x1_0000_0000,
        ;
        mean_bound(s as int, nw * nh);
    }
    round_div(s as i128 * 1_000_000, nw * nh) as i64
}

/// Counts the pixels of a window that change by at most `v`.
fn count_changed(a: &[u8], b: &[u8], w: usize, h: usize, win: &Window, v: u64) -> (r: u64)
    requires
        win.x0 <= win.x1 < w <= u32::MAX,
        win.y0 <= win.y1 < h <= u32::MAX,
        w * h <= a.len(),
        a.len() == b.len(),
    ensures
        r == changed_at_most(change(a@, b@, w as int), *win, v as int),
{
    let ghost f = change(a@, b@, w as int);
    let ghost g = within(f, v as int);
    let (x0, x1, y0, y1): (usize, usize, usize, usize) = (win.x0, win.x1 + 1, win.y0, win.y1 + 1);
    proof {
        assert((x1 - x0) * (y1 - y0) <= 0x1_0000_0000 * 0xffff_ffff) by (nonlinear_arith)
            requires
                0 <= x1 - x0 <= 0xffff_ffff,
                0 <= y1 - y0 <= 0xffff_ffff,
        ;
    }
    let mut count: u64 = 0;
    let mut y: usize = y0;
    while y < y1
        invariant
            x0 <= x1 <= w,
            y0 <= y <= y1 <= h,
            w * h <= a.len(),
            a.len() == b.len(),
            (x1 - x0) * (y1 - y0) <= 0x1_0000_0000 * 0xffff_ffff,
            f == change(a@, b@, w as int),
            g == within(f, v as int),
            count == rect_sum(g, x0 as int, x1 as int, y0 as int, y as int),
        decreases y1 - y,
    {
        let mut x: usize = x0;
        while x < x1
            invariant
                x0 <= x <= x1 <= w,
                y0 <= y < y1 <= h,
                w * h <= a.len(),
                a.len() == b.len(),
                (x1 - x0) * (y1 - y0) <= 0x1_0000_0000 * 0xffff_ffff,
                f == change(a@, b@, w as int),
                g == within(f, v as int),
                count == rect_sum(g, x0 as int, x1 as int, y0 as int, y as int) + row_sum(
                    g,
                    y as int,
                    x0 as int,
                    x as int,
                ),
            decreases x1 - x,
        {
            proof {
                rect_sum_bound(g, x0 as int, x1 as int, y0 as int, y as int, 1);
                row_sum_bound(g, y as int, x0 as int, x as int, 1);
                assert((x1 - x0) * (y - y0) + (x - x0) < (x1 - x0) * (y1 - y0)) by (nonlinear_arith)
                    requires
                        0 <= x - x0 < x1 - x0,
                        0 <= y - y0 < y1 - y0,
                ;
            }
            if change_at(a, b, w, h, x, y) <= v {
                count += 1;
            }
            x += 1;
        }
        y += 1;
    }
    count
}

/// Every pixel changes by at most 255, and none by less than nothing.
proof fn change_extremes(f: spec_fn(int, int) -> int, r: Window)
    requires
        r.x0 <= r.x1,
        r.y0 <= r.y1,
        forall|x: int, y: int| 0 <= #[trigger] f(x, y) <= 255,
    ensures
        changed_at_most(f, r, 255) == window_area(r),
        changed_at_most(f, r, -1) == 0,
{
    let x0 = r.x0 as int;
    let x1 = r.x1 + 1;
    let y0 = r.y0 as int;
    let y1 = r.y1 + 1;
    ones(within(f, 255), x0, x1, y0, y1, 1);
    ones(within(f, -1), x0, x1, y0, y1, 0);
    assert(0 * ((x1 - x0) * (y1 - y0)) == 0) by (nonlinear_arith);
}

/// A constant sums to itself for each pixel.
proof fn ones(f: spec_fn(int, int) -> int, x0: int, x1: int, y0: int, y1: int, c: int)
    requires
        x0 <= x1,
        y0 <= y1,
        forall|x: int, y: int| #[trigger] f(x, y) == c,
    ensures
        rect_sum(f, x0, x1, y0, y1) == c * ((x1 - x0) * (y1 - y0)),
    decreases y1 - y0,
{
    if y0 < y1 {
        ones(f, x0, x1, y0, y1 - 1, c);
        row_ones(f, y1 - 1, x0, x1, c);
        assert(c * ((x1 - x0) * (y1 - y0)) == c * ((x1 - x0) * (y1 - 1 - y0)) + c * (x1 - x0))
            by (nonlinear_arith);
    } else {
        assert(c * ((x1 - x0) * (y1 - y0)) == 0) by (nonlinear_arith)
            requires
                y1 == y0,
        ;
    }
}

/// A constant sums to itself for each pixel of a row.
proof fn row_ones(f: spec_fn(int, int) -> int, y: int, x0: int, x1: int, c: int)
    requires
        x0 <= x1,
        forall|x: int, y: int| #[trigger] f(x, y) == c,
    ensures
        row_sum(f, y, x0, x1) == c * (x1 - x0),
    decreases x1 - x0,
{
    if x0 < x1 {
        row_ones(f, y, x0, x1 - 1, c);
        assert(c * (x1 - x0) == c * (x1 - 1 - x0) + c) by (nonlinear_arith);
    } else {
        assert(c * (x1 - x0) == 0) by (nonlinear_arith)
            requires
                x1 == x0,
        ;
    }
}

/// `r` is how much a blur changes a part of the picture, in fixed point.
pub open spec fn is_region_change(luma: Seq<u8>, w: int, h: int, g: Region, r: int) -> bool {
    if w < 8 || h < 8 {
        r == 0
    } else {
        exists|v: int| #[trigger]
            is_p80_change(blur_change(luma, w, h), window_at(w, h, g), v) && r == v * 1_000_000
    }
}

/// How much a blur changes a part of the picture: the change that 80 of 100 of its pixels do not
/// exceed, which skin and smooth cloth do not pull down. Zero for a picture of less than eight
/// pixels in a side.
pub fn reblur_p80_region(luma: &[u8], w: u32, h: u32, g: &Region) -> (r: i64)
    requires
        w < 8 || h < 8 || w * h <= luma.len(),
    ensures
        is_region_change(luma@, w as int, h as int, *g, r as int),
        0 <= r <= 255_000_000,
{
    if w < 8 || h < 8 {
        return 0;
    }
    let win = window_of(w, h, g);
    let ghost f = blur_change(luma@, w as int, h as int);
    if win.x0 > win.x1 || win.y0 > win.y1 {
        assert(window_area(win) == 0) by (nonlinear_arith)
            requires
                window_area(win) == span(win.x0 as int, win.x1 as int) * span(
                    win.y0 as int,
                    win.y1 as int,
                ),
                span(win.x0 as int, win.x1 as int) == 0 || span(win.y0 as int, win.y1 as int) == 0,
        ;
        assert(is_p80_change(f, win, 0));
        return 0;
    }
    let once = box_blur_3x3(luma, w as usize, h as usize);
    let twice = box_blur_3x3(once.as_slice(), w as usize, h as usize);
    let nw: u64 = (win.x1 - win.x0) as u64 + 1;
    let nh: u64 = (win.y1 - win.y0) as u64 + 1;
    proof {
        assert(0 < nw * nh <= 0xffff_ffff * 0xffff_ffff) by (nonlinear_arith)
            requires
                0 < nw <= 0xffff_ffff,
                0 < nh <= 0xffff_ffff,
        ;
        change_extremes(f, win);
    }
    let area: u64 = nw * nh;
    assert(area == window_area(win));
    let want: u128 = (area as u128) * 80 / 100;
    let k: u64 = if want < (area - 1) as u128 { want as u64 } else { area - 1 };
    assert(k == percentile_index(area as int, 80));
    let mut lo: u64 = 0;
    let mut hi: u64 = 255;
    while lo < hi
        invariant
            lo <= hi <= 255,
            w * h <= luma.len(),
            luma.len() == twice.len(),
            win.x0 <= win.x1 < w,
            win.y0 <= win.y1 < h,
            f == change(luma@, twice@, w as int),
            changed_at_most(f, win, lo - 1) <= k,
            changed_at_most(f, win, hi as int) > k,
        decreases hi - lo,
    {
        let mid: u64 = lo + (hi - lo) / 2;
        if count_changed(luma, twice.as_slice(), w as usize, h as usize, &win, mid) > k {
            hi = mid;
        } else {
            lo = mid + 1;
        }
    }
    assert(is_p80_change(f, win, lo as int));
    (lo * 1_000_000) as i64
}

/// Two pictures of `w` by `h` pixels differ by `d` in one pixel, and nowhere else.
pub open spec fn one_pixel_apart(a: Seq<u8>, b: Seq<u8>, w: int, h: int, px: int, py: int, d: int) -> bool {
    &&& 0 <= px < w && 0 <= py < h
    &&& a.len() == w * h && b.len() == w * h
    &&& forall|k: int|
        0 <= k < w * h ==> #[trigger] b[k] - a[k] == if k == py * w + px {
            d
        } else {
            0
        }
}

/// Only the one pixel differs.
proof fn pixel_apart(a: Seq<u8>, b: Seq<u8>, w: int, h: int, px: int, py: int, d: int, x: int, y: int)
    requires
        one_pixel_apart(a, b, w, h, px, py, d),
        0 <= x < w,
        0 <= y < h,
    ensures
        pixel(b, w, x, y) - pixel(a, w, x, y) == if x == px && y == py {
            d
        } else {
            0
        },
{
    index_inside(x, y, w, h);
    if y * w + x == py * w + px {
        assert(y == py) by (nonlinear_arith)
            requires
                y * w + x == py * w + px,
                0 <= x < w,
                0 <= px < w,
        ;
    }
    let k = y * w + x;
    assert(b[k] - a[k] == if k == py * w + px { d } else { 0 });
}

/// The gradient takes in the eight neighbours of a pixel: one that is brighter by `d` adds `d` or, next
/// to the pixel itself, `2 * d`, with the sign of the side on which it lies; the pixel itself and
/// those further off do not matter. An even picture has no gradient.
pub proof fn gradient_takes_in_the_neighbours(
    a: Seq<u8>,
    b: Seq<u8>,
    w: int,
    h: int,
    px: int,
    py: int,
    d: int,
    x: int,
    y: int,
)
    requires
        one_pixel_apart(a, b, w, h, px, py, d),
        1 <= x < w - 1,
        1 <= y < h - 1,
    ensures
        ({
            let (dx, dy) = (px - x, py - y);
            let near = -1 <= dx <= 1 && -1 <= dy <= 1;
            let side_x = if dx == 0 { 0int } else { if dy == 0 { 2 * d * dx } else { d * dx } };
            let side_y = if dy == 0 { 0int } else { if dx == 0 { 2 * d * dy } else { d * dy } };
            &&& gradient_x(b, w, x, y) - gradient_x(a, w, x, y) == if near { side_x } else { 0 }
            &&& gradient_y(b, w, x, y) - gradient_y(a, w, x, y) == if near { side_y } else { 0 }
        }),
        (forall|k: int| 0 <= k < w * h ==> #[trigger] a[k] == a[0]) ==> gradient_x(a, w, x, y) == 0
            && gradient_y(a, w, x, y) == 0,
{
    pixel_apart(a, b, w, h, px, py, d, x - 1, y - 1);
    pixel_apart(a, b, w, h, px, py, d, x, y - 1);
    pixel_apart(a, b, w, h, px, py, d, x + 1, y - 1);
    pixel_apart(a, b, w, h, px, py, d, x - 1, y);
    pixel_apart(a, b, w, h, px, py, d, x + 1, y);
    pixel_apart(a, b, w, h, px, py, d, x - 1, y + 1);
    pixel_apart(a, b, w, h, px, py, d, x, y + 1);
    pixel_apart(a, b, w, h, px, py, d, x + 1, y + 1);
    index_inside(x - 1, y - 1, w, h);
    index_inside(x, y - 1, w, h);
    index_inside(x + 1, y - 1, w, h);
    index_inside(x - 1, y, w, h);
    index_inside(x + 1, y, w, h);
    index_inside(x - 1, y + 1, w, h);
    index_inside(x, y + 1, w, h);
    index_inside(x + 1, y + 1, w, h);
    let dx = px - x;
    let dy = py - y;
    assert(dx == 1 ==> 2 * d * dx == 2 * d && d * dx == d) by (nonlinear_arith);
    assert(dx == -1 ==> 2 * d * dx == -(2 * d) && d * dx == -d) by (nonlinear_arith);
    assert(dy == 1 ==> 2 * d * dy == 2 * d && d * dy == d) by (nonlinear_arith);
    assert(dy == -1 ==> 2 * d * dy == -(2 * d) && d * dy == -d) by (nonlinear_arith);
}

/// `f` at the pixels of odd columns and rows, zero elsewhere.
pub open spec fn at_odd(f: spec_fn(int, int) -> int) -> spec_fn(int, int) -> int {
    |x: int, y: int|
        if x % 2 == 1 && y % 2 == 1 {
            f(x, y)
        } else {
            0
        }
}

/// The samples of a row are the pixels of odd columns inside the border.
proof fn row_of_samples(f: spec_fn(int, int) -> int, g: spec_fn(int, int) -> int, ky: int, w: int)
    requires
        w >= 2,
        forall|kx: int, ky: int| #[trigger] g(kx, ky) == f(1 + 2 * kx, 1 + 2 * ky),
    ensures
        row_sum(g, ky, 0, samples(w)) == row_sum(at_odd(f), 1 + 2 * ky, 1, w - 1),
    decreases w,
{
    if w > 2 {
        row_of_samples(f, g, ky, w - 1);
        let x = w - 2;
        if x % 2 == 1 {
            assert(samples(w) == samples(w - 1) + 1 && x == 1 + 2 * (samples(w) - 1));
            assert(g(samples(w) - 1, ky) == f(x, 1 + 2 * ky));
        } else {
            assert(samples(w) == samples(w - 1));
        }
    }
}

/// An even row has no samples.
proof fn row_without_samples(f: spec_fn(int, int) -> int, y: int, x0: int, x1: int)
    requires
        y % 2 == 0,
    ensures
        row_sum(at_odd(f), y, x0, x1) == 0,
    decreases x1 - x0,
{
    if x0 < x1 {
        row_without_samples(f, y, x0, x1 - 1);
    }
}

/// The sum over the samples is that over the pixels of odd columns and rows inside the border.
proof fn sum_of_samples(f: spec_fn(int, int) -> int, g: spec_fn(int, int) -> int, w: int, h: int)
    requires
        w >= 2,
        h >= 2,
        forall|kx: int, ky: int| #[trigger] g(kx, ky) == f(1 + 2 * kx, 1 + 2 * ky),
    ensures
        rect_sum(g, 0, samples(w), 0, samples(h)) == rect_sum(at_odd(f), 1, w - 1, 1, h - 1),
    decreases h,
{
    if h > 2 {
        sum_of_samples(f, g, w, h - 1);
        let y = h - 2;
        if y % 2 == 1 {
            assert(samples(h) == samples(h - 1) + 1 && y == 1 + 2 * (samples(h) - 1));
            row_of_samples(f, g, samples(h) - 1, w);
        } else {
            assert(samples(h) == samples(h - 1));
            row_without_samples(f, y, 1, w - 1);
        }
    }
}

/// The sharpness of a picture is the variance of the squared gradient over the pixels of odd columns
/// and rows inside the border: with `n` of them, `n` times the sum of the squares of the squared
/// gradients, less the square of their sum, in parts of `n * n`.
pub proof fn sharpness_is_the_variance_of_the_gradient(luma: Seq<u8>, w: int, h: int)
    requires
        w >= 3,
        h >= 3,
    ensures
        ({
            let g = |x: int, y: int| gradient_square(luma, w, x, y);
            let g2 = |x: int, y: int|
                gradient_square(luma, w, x, y) * gradient_square(luma, w, x, y);
            let n = ((w - 1) / 2) * ((h - 1) / 2);
            let total = rect_sum(at_odd(g), 1, w - 1, 1, h - 1);
            let squares = rect_sum(at_odd(g2), 1, w - 1, 1, h - 1);
            &&& n > 0
            &&& -(n * n) <= 2 * (tenengrad_of(luma, w, h) * (n * n) - (n * squares - total * total)
                * 1_000_000) <= n * n
        }),
{
    let g = |x: int, y: int| gradient_square(luma, w, x, y);
    let g2 = |x: int, y: int| gradient_square(luma, w, x, y) * gradient_square(luma, w, x, y);
    sum_of_samples(g, sampled_gradient(luma, w), w, h);
    sum_of_samples(g2, sampled_gradient_squared(luma, w), w, h);
    let n = samples(w) * samples(h);
    assert(n > 0) by (nonlinear_arith)
        requires
            n == samples(w) * samples(h),
            samples(w) > 0,
            samples(h) > 0,
    ;
    let total = rect_sum(at_odd(g), 1, w - 1, 1, h - 1);
    let squares = rect_sum(at_odd(g2), 1, w - 1, 1, h - 1);
    assert(n * n > 0) by (nonlinear_arith)
        requires
            n > 0,
    ;
    rounded_is_near((n * squares - total * total) * 1_000_000, n * n);
}

/// Every pixel of `b` is the mean, rounded down, of the nine around it in `a`; beyond the border stands
/// the nearest pixel.
pub open spec fn is_blur_of(b: Seq<u8>, a: Seq<u8>, w: int, h: int) -> bool {
    forall|x: int, y: int|
        #![trigger pixel(b, w, x, y)]
        0 <= x < w && 0 <= y < h ==> {
            let l = if x > 0 { x - 1 } else { 0 };
            let r = if x < w - 1 { x + 1 } else { w - 1 };
            let u = if y > 0 { y - 1 } else { 0 };
            let d = if y < h - 1 { y + 1 } else { h - 1 };
            let nine = pixel(a, w, l, u) + pixel(a, w, x, u) + pixel(a, w, r, u) + pixel(a, w, l, y)
                + pixel(a, w, x, y) + pixel(a, w, r, y) + pixel(a, w, l, d) + pixel(a, w, x, d)
                + pixel(a, w, r, d);
            9 * pixel(b, w, x, y) <= nine < 9 * pixel(b, w, x, y) + 9
        }
}

/// The blurred picture holds means.
pub proof fn blur_takes_the_mean_of_nine(a: Seq<u8>, w: int, h: int)
    requires
        w > 0,
        h > 0,
        a.len() == w * h,
    ensures
        blurred(a, w, h).len() == a.len(),
        is_blur_of(blurred(a, w, h), a, w, h),
{
    let b = blurred(a, w, h);
    assert forall|x: int, y: int|
        #![trigger pixel(b, w, x, y)]
        0 <= x < w && 0 <= y < h implies {
        let l = if x > 0 { x - 1 } else { 0 };
        let r = if x < w - 1 { x + 1 } else { w - 1 };
        let u = if y > 0 { y - 1 } else { 0 };
        let d = if y < h - 1 { y + 1 } else { h - 1 };
        let nine = pixel(a, w, l, u) + pixel(a, w, x, u) + pixel(a, w, r, u) + pixel(a, w, l, y)
            + pixel(a, w, x, y) + pixel(a, w, r, y) + pixel(a, w, l, d) + pixel(a, w, x, d)
            + pixel(a, w, r, d);
        9 * pixel(b, w, x, y) <= nine < 9 * pixel(b, w, x, y) + 9
    } by {
        index_inside(x, y, w, h);
        let k = y * w + x;
        vstd::arithmetic::div_mod::lemma_fundamental_div_mod_converse(k, w, y, x);
        assert(b[k] == blur_at(a, w, h, x, y) as u8);
        assert(on_side(x - 1, w) == if x > 0 { x - 1 } else { 0 });
        assert(on_side(x + 1, w) == if x < w - 1 { x + 1 } else { w - 1 });
        assert(on_side(y - 1, h) == if y > 0 { y - 1 } else { 0 });
        assert(on_side(y + 1, h) == if y < h - 1 { y + 1 } else { h - 1 });
    }
}

/// Only one picture is the blur of another.
proof fn blur_is_unique(b: Seq<u8>, c: Seq<u8>, a: Seq<u8>, w: int, h: int)
    requires
        w > 0,
        h > 0,
        b.len() == w * h,
        c.len() == w * h,
        is_blur_of(b, a, w, h),
        is_blur_of(c, a, w, h),
    ensures
        b == c,
{
    assert forall|k: int| 0 <= k < w * h implies b[k] == c[k] by {
        let (x, y) = (k % w, k / w);
        vstd::arithmetic::div_mod::lemma_fundamental_div_mod(k, w);
        vstd::arithmetic::div_mod::lemma_mod_bound(k, w);
        assert(k == y * w + x) by (nonlinear_arith)
            requires
                k == w * y + x,
        ;
        assert(0 <= y < h) by (nonlinear_arith)
            requires
                0 <= k < w * h,
                k == y * w + x,
                0 <= x < w,
        ;
        assert(pixel(b, w, x, y) == b[k] && pixel(c, w, x, y) == c[k]);
    }
    assert(b =~= c);
}

/// What a blur changes: the difference of a picture and what two blurs make of it.
pub proof fn change_is_that_of_two_blurs(
    a: Seq<u8>,
    once: Seq<u8>,
    twice: Seq<u8>,
    w: int,
    h: int,
    x: int,
    y: int,
)
    requires
        w > 0,
        h > 0,
        a.len() == w * h,
        once.len() == w * h,
        twice.len() == w * h,
        is_blur_of(once, a, w, h),
        is_blur_of(twice, once, w, h),
        0 <= x < w,
        0 <= y < h,
    ensures
        blur_change(a, w, h)(x, y) >= 0,
        blur_change(a, w, h)(x, y) == pixel(a, w, x, y) - pixel(twice, w, x, y) || blur_change(a, w, h)(
            x,
            y,
        ) == pixel(twice, w, x, y) - pixel(a, w, x, y),
{
    blur_takes_the_mean_of_nine(a, w, h);
    blur_is_unique(once, blurred(a, w, h), a, w, h);
    blur_takes_the_mean_of_nine(once, w, h);
    blur_is_unique(twice, blurred(once, w, h), once, w, h);
}

/// Four fifths of the pixels of the region change no more than the measure, and less than four fifths,
/// or just as many, change less.
pub proof fn four_fifths_change_no_more(luma: Seq<u8>, w: int, h: int, g: Region, r: int)
    requires
        w >= 8,
        h >= 8,
        is_region_change(luma, w, h, g, r),
        window_area(window_at(w, h, g)) > 0,
    ensures
        ({
            let win = window_at(w, h, g);
            let f = blur_change(luma, w, h);
            let (x0, x1) = (win.x0 as int, win.x1 + 1);
            let (y0, y1) = (win.y0 as int, win.y1 + 1);
            let upto = |x: int, y: int| if 1_000_000 * f(x, y) <= r { 1int } else { 0int };
            let less = |x: int, y: int| if 1_000_000 * f(x, y) < r { 1int } else { 0int };
            &&& r % 1_000_000 == 0
            &&& 5 * rect_sum(upto, x0, x1, y0, y1) > 4 * window_area(win)
            &&& 5 * rect_sum(less, x0, x1, y0, y1) <= 4 * window_area(win)
        }),
{
    let win = window_at(w, h, g);
    let f = blur_change(luma, w, h);
    let n = window_area(win);
    let v = choose|v: int| #[trigger] is_p80_change(f, win, v) && r == v * 1_000_000;
    let upto = |x: int, y: int| if 1_000_000 * f(x, y) <= r { 1int } else { 0int };
    let less = |x: int, y: int| if 1_000_000 * f(x, y) < r { 1int } else { 0int };
    crate::order::percentile_index_is_the_share(n, 80);
    assert(upto =~= within(f, v)) by {
        assert forall|x: int, y: int| #[trigger] upto(x, y) == within(f, v)(x, y) by {}
    }
    assert(less =~= within(f, v - 1)) by {
        assert forall|x: int, y: int| #[trigger] less(x, y) == within(f, v - 1)(x, y) by {}
    }
}

/// The mean change over a block: that of the pixels from its first column and row on, as many as the
/// block has, or as are left up to the border.
pub proof fn blocks_hold_their_mean_change(luma: Seq<u8>, w: int, h: int, block: int, bx: int, by: int)
    requires
        w > 0,
        h > 0,
        block > 0,
        bx >= 0,
        by >= 0,
        bx * block < w,
        by * block < h,
    ensures
        ({
            let x1 = if bx * block + block < w { bx * block + block } else { w };
            let y1 = if by * block + block < h { by * block + block } else { h };
            let area = (x1 - bx * block) * (y1 - by * block);
            let s = rect_sum(blur_change(luma, w, h), bx * block, x1, by * block, y1);
            let m = block_change(luma, w, h, block, by * block_count(w, block) + bx);
            &&& -area <= 2 * (m * area - s * 1_000_000) <= area
            &&& bx < block_count(w, block)
            &&& by < block_count(h, block)
        }),
{
    let n = block_count(w, block);
    blocks_cover(w, block, bx);
    blocks_cover(h, block, by);
    let i = by * n + bx;
    vstd::arithmetic::div_mod::lemma_fundamental_div_mod_converse(i, n, by, bx);
    let x1 = block_end(bx * block, block, w);
    let y1 = block_end(by * block, block, h);
    let area = (x1 - bx * block) * (y1 - by * block);
    assert(area > 0) by (nonlinear_arith)
        requires
            area == (x1 - bx * block) * (y1 - by * block),
            x1 - bx * block > 0,
            y1 - by * block > 0,
    ;
    rounded_is_near(
        rect_sum(blur_change(luma, w, h), bx * block, x1, by * block, y1) * 1_000_000,
        area,
    );
}

/// A block that starts on the side is one of those that are counted.
proof fn blocks_cover(side: int, block: int, b: int)
    requires
        side > 0,
        block > 0,
        b >= 0,
        b * block < side,
    ensures
        b < block_count(side, block),
{
    let q = (side + block - 1) / block;
    vstd::arithmetic::div_mod::lemma_fundamental_div_mod(side + block - 1, block);
    vstd::arithmetic::div_mod::lemma_mod_bound(side + block - 1, block);
    assert(b < q) by (nonlinear_arith)
        requires
            block > 0,
            b * block < side,
            side + block - 1 == block * q + (side + block - 1) % block,
            (side + block - 1) % block < block,
    ;
}

/// The mean change over a window, to the nearest millionth.
pub proof fn mean_change_is_the_mean(f: spec_fn(int, int) -> int, r: Window)
    requires
        window_area(r) > 0,
    ensures
        -window_area(r) <= 2 * (mean_change(f, r) * window_area(r) - 1_000_000 * rect_sum(
            f,
            r.x0 as int,
            r.x1 + 1,
            r.y0 as int,
            r.y1 + 1,
        )) <= window_area(r),
{
    rounded_is_near(
        rect_sum(f, r.x0 as int, r.x1 + 1, r.y0 as int, r.y1 + 1) * 1_000_000,
        window_area(r),
    );
}

/// Strong edges are counted at the pixels of odd columns and rows inside the border: where the gradient
/// is steeper than the threshold.
pub proof fn edges_are_counted_at_odd_pixels(luma: Seq<u8>, w: int, h: int, t: int)
    requires
        w >= 3,
        h >= 3,
    ensures
        ({
            let steep = |x: int, y: int|
                if (gradient_x(luma, w, x, y) * gradient_x(luma, w, x, y) + gradient_y(luma, w, x, y)
                    * gradient_y(luma, w, x, y)) * 1_000_000_000_000 > t * t {
                    1int
                } else {
                    0int
                };
            rect_sum(strong_edge(luma, w, t), 0, samples(w), 0, samples(h)) == rect_sum(
                at_odd(steep),
                1,
                w - 1,
                1,
                h - 1,
            )
        }),
        samples(w) == (w - 1) / 2,
{
    let steep = |x: int, y: int|
        if (gradient_x(luma, w, x, y) * gradient_x(luma, w, x, y) + gradient_y(luma, w, x, y)
            * gradient_y(luma, w, x, y)) * 1_000_000_000_000 > t * t {
            1int
        } else {
            0int
        };
    sum_of_samples(steep, strong_edge(luma, w, t), w, h);
}

/// The square of the gradient is that of its two parts.
pub proof fn gradient_has_two_parts(luma: Seq<u8>, w: int, x: int, y: int)
    ensures
        gradient_square(luma, w, x, y) == gradient_x(luma, w, x, y) * gradient_x(luma, w, x, y)
            + gradient_y(luma, w, x, y) * gradient_y(luma, w, x, y),
{
}

/// Nothing is told of the sharpness of a part of a very small picture, nor of a part without pixels.
pub proof fn very_small_parts_tell_nothing(luma: Seq<u8>, w: int, h: int, g: Region, r: int)
    requires
        is_region_change(luma, w, h, g, r),
        w < 8 || h < 8 || window_area(window_at(w, h, g)) == 0,
    ensures
        r == 0,
{
}

/// Blocks cover a side, and every one of them has a pixel of it.
pub proof fn blocks_cover_a_side(side: int, block: int)
    requires
        side > 0,
        block > 0,
    ensures
        side <= block_count(side, block) * block,
        (block_count(side, block) - 1) * block < side,
{
    let q = (side + block - 1) / block;
    vstd::arithmetic::div_mod::lemma_fundamental_div_mod(side + block - 1, block);
    vstd::arithmetic::div_mod::lemma_mod_bound(side + block - 1, block);
    assert(side <= q * block && (q - 1) * block < side) by (nonlinear_arith)
        requires
            block > 0,
            side + block - 1 == block * q + (side + block - 1) % block,
            0 <= (side + block - 1) % block < block,
    ;
}

} // verus!
