//! Noise: how much the smoothest dark parts of a picture vary.
use crate::decode::AnalyzedImage;
use crate::fixed::{integer_root, root_is_root, root_of};
use crate::moments::{one_more_number, spread_bounds, Moments};
use crate::order::{at_most, index_of_percentile, is_kth, kth_smallest, percentile_index, percentile_index_is_the_share};
use crate::raster::{index_inside, pixel, rect_sum, row_sum};
use crate::tally::{sum, tally, tally_none, tally_same};
use vstd::prelude::*;

verus! {

/// Below this brightness a pixel is dark.
pub const DARK_THRESHOLD: u8 = 40;

/// The brightness of a pixel.
pub open spec fn value(luma: Seq<u8>, w: int) -> spec_fn(int, int) -> int {
    |x: int, y: int| pixel(luma, w, x, y)
}

/// The square of the brightness of a pixel.
pub open spec fn value_squared(luma: Seq<u8>, w: int) -> spec_fn(int, int) -> int {
    |x: int, y: int| pixel(luma, w, x, y) * pixel(luma, w, x, y)
}

/// One for a dark pixel, zero for another.
pub open spec fn darkness(luma: Seq<u8>, w: int) -> spec_fn(int, int) -> int {
    |x: int, y: int|
        if pixel(luma, w, x, y) < 40 {
            1int
        } else {
            0int
        }
}

/// The sum of `f` over the 8 by 8 block number `bx`, `by`.
pub open spec fn block_sum(f: spec_fn(int, int) -> int, bx: int, by: int) -> int {
    rect_sum(f, 8 * bx, 8 * bx + 8, 8 * by, 8 * by + 8)
}

/// At least half of the pixels of a block are dark.
pub open spec fn is_dark_block(luma: Seq<u8>, w: int, bx: int, by: int) -> bool {
    block_sum(darkness(luma, w), bx, by) * 2 >= 64
}

/// The variance of a block, times 64 * 64.
pub open spec fn block_spread(luma: Seq<u8>, w: int, bx: int, by: int) -> int {
    64 * block_sum(value_squared(luma, w), bx, by) - block_sum(value(luma, w), bx, by) * block_sum(
        value(luma, w),
        bx,
        by,
    )
}

/// The spreads of the dark blocks among the first `k`, counted along the rows of `n` blocks.
pub open spec fn dark_spreads(luma: Seq<u8>, w: int, n: int, k: int) -> Seq<u64>
    decreases k,
{
    if k <= 0 {
        Seq::empty()
    } else {
        let s = dark_spreads(luma, w, n, k - 1);
        let bx = (k - 1) % n;
        let by = (k - 1) / n;
        if is_dark_block(luma, w, bx, by) {
            s.push(block_spread(luma, w, bx, by) as u64)
        } else {
            s
        }
    }
}

/// One for a dark pixel, zero for another.
pub open spec fn dark_one(luma: Seq<u8>) -> spec_fn(int) -> int {
    |i: int|
        if luma[i] < 40 {
            1int
        } else {
            0int
        }
}

/// The brightness of a dark pixel, zero for another.
pub open spec fn dark_value(luma: Seq<u8>) -> spec_fn(int) -> int {
    |i: int|
        if luma[i] < 40 {
            luma[i] as int
        } else {
            0int
        }
}

/// The square of the brightness of a dark pixel, zero for another.
pub open spec fn dark_square(luma: Seq<u8>) -> spec_fn(int) -> int {
    |i: int|
        if luma[i] < 40 {
            luma[i] * luma[i]
        } else {
            0int
        }
}

/// The standard deviation, in fixed point and rounded down, of numbers whose variance is `spread`
/// parts of `whole`.
pub open spec fn deviation(spread: int, whole: int) -> int {
    root_of(spread * 1_000_000_000_000 / whole)
}

/// The standard deviation of all dark pixels; zero where there is none.
pub open spec fn dark_deviation(luma: Seq<u8>) -> int {
    let len = luma.len() as int;
    let n = sum(dark_one(luma), 0, len);
    let t = sum(dark_value(luma), 0, len);
    let q = sum(dark_square(luma), 0, len);
    if n == 0 {
        0
    } else {
        deviation(n * q - t * t, n * n)
    }
}

/// `r` is the noise of a picture: of its dark 8 by 8 blocks the standard deviation that 15 of 100
/// do not reach; where there is no dark block, the standard deviation of all dark pixels; zero for
/// a picture of less than eight pixels in a side.
pub open spec fn is_noise(luma: Seq<u8>, w: int, h: int, r: int) -> bool {
    if w < 8 || h < 8 {
        r == 0
    } else {
        let spreads = dark_spreads(luma, w, w / 8, (w / 8) * (h / 8));
        if spreads.len() == 0 {
            r == dark_deviation(luma)
        } else {
            exists|v: int| #[trigger]
                is_kth(spreads, percentile_index(spreads.len() as int, 15), v) && r == deviation(
                    v,
                    4096,
                )
        }
    }
}

/// The count of dark pixels of a block, and its moments.
fn block_moments(luma: &[u8], w: usize, h: usize, bx: usize, by: usize) -> (r: (u64, Moments))
    requires
        w * h <= luma.len(),
        w <= u32::MAX,
        h <= u32::MAX,
        8 * bx + 8 <= w,
        8 * by + 8 <= h,
    ensures
        r.0 == block_sum(darkness(luma@, w as int), bx as int, by as int),
        r.1.wf(),
        r.1.max == 255,
        r.1.n == 64,
        r.1.total == block_sum(value(luma@, w as int), bx as int, by as int),
        r.1.squares == block_sum(value_squared(luma@, w as int), bx as int, by as int),
        r.0 <= 64,
{
    let ghost f = value(luma@, w as int);
    let ghost g = value_squared(luma@, w as int);
    let ghost d = darkness(luma@, w as int);
    let x0: usize = 8 * bx;
    let y0: usize = 8 * by;
    let ghost gx0 = x0 as int;
    let ghost gy0 = y0 as int;
    let mut dark: u64 = 0;
    let mut m = Moments::new(255);
    let mut dy: usize = 0;
    while dy < 8
        invariant
            w * h <= luma.len(),
            x0 + 8 <= w,
            y0 + 8 <= h,
            gx0 == x0,
            gy0 == y0,
            dy <= 8,
            f == value(luma@, w as int),
            g == value_squared(luma@, w as int),
            d == darkness(luma@, w as int),
            m.wf(),
            m.max == 255,
            m.n == 8 * dy,
            dark <= 8 * dy,
            m.total == rect_sum(f, gx0, gx0 + 8, gy0, gy0 + dy),
            m.squares == rect_sum(g, gx0, gx0 + 8, gy0, gy0 + dy),
            dark == rect_sum(d, gx0, gx0 + 8, gy0, gy0 + dy),
        decreases 8 - dy,
    {
        let y: usize = y0 + dy;
        let mut dx: usize = 0;
        while dx < 8
            invariant
                w * h <= luma.len(),
                x0 + 8 <= w,
                y0 + 8 <= h,
                gx0 == x0,
                gy0 == y0,
                dy < 8,
                y == y0 + dy,
                dx <= 8,
                f == value(luma@, w as int),
                g == value_squared(luma@, w as int),
                d == darkness(luma@, w as int),
                m.wf(),
                m.max == 255,
                m.n == 8 * dy + dx,
                dark <= 8 * dy + dx,
                m.total == rect_sum(f, gx0, gx0 + 8, gy0, gy0 + dy) + row_sum(
                    f,
                    y as int,
                    gx0,
                    gx0 + dx,
                ),
                m.squares == rect_sum(g, gx0, gx0 + 8, gy0, gy0 + dy) + row_sum(
                    g,
                    y as int,
                    gx0,
                    gx0 + dx,
                ),
                dark == rect_sum(d, gx0, gx0 + 8, gy0, gy0 + dy) + row_sum(
                    d,
                    y as int,
                    gx0,
                    gx0 + dx,
                ),
            decreases 8 - dx,
        {
            let x: usize = x0 + dx;
            proof {
                index_inside(x as int, y as int, w as int, h as int);
            }
            let v: u8 = luma[y * w + x];
            assert(f(x as int, y as int) == v);
            assert(g(x as int, y as int) == v * v);
            m.take_in(v as u64);
            if v < DARK_THRESHOLD {
                dark += 1;
            }
            dx += 1;
        }
        dy += 1;
    }
    (dark, m)
}

/// The standard deviation of numbers with the given moments, from their spread.
fn deviation_of(spread: u128, whole: u128) -> (r: u64)
    requires
        0 < whole,
        spread <= 0x3f_ffff_ffff_ffff_ffff_ffff,
    ensures
        r == deviation(spread as int, whole as int),
{
    let scaled: u128 = spread * 1_000_000_000_000 / whole;
    assert(scaled <= spread * 1_000_000_000_000) by (nonlinear_arith)
        requires
            whole > 0,
            scaled == (spread * 1_000_000_000_000) / whole as int,
    ;
    integer_root(scaled) as u64
}

/// The standard deviation of all dark pixels.
fn deviation_of_dark(luma: &Vec<u8>) -> (r: u64)
    requires
        luma.len() <= u32::MAX,
    ensures
        r == dark_deviation(luma@),
{
    let ghost c = dark_one(luma@);
    let ghost f = dark_value(luma@);
    let ghost g = dark_square(luma@);
    let mut m = Moments::new(255);
    let mut i: usize = 0;
    while i < luma.len()
        invariant
            i <= luma.len() <= u32::MAX,
            c == dark_one(luma@),
            f == dark_value(luma@),
            g == dark_square(luma@),
            m.wf(),
            m.max == 255,
            m.n <= i,
            m.n == sum(c, 0, i as int),
            m.total == sum(f, 0, i as int),
            m.squares == sum(g, 0, i as int),
        decreases luma.len() - i,
    {
        let v: u8 = luma[i];
        if v < DARK_THRESHOLD {
            m.take_in(v as u64);
        }
        i += 1;
    }
    if m.n == 0 {
        return 0;
    }
    proof {
        spread_bounds(m.n as int, m.total as int, m.squares as int, 255);
        let n = m.n as int;
        let q = m.squares as int;
        assert(n * q <= 65025 * (n * n)) by (nonlinear_arith)
            requires
                q <= n * 65025,
                n > 0,
        ;
    }
    let n: u128 = m.n as u128;
    deviation_of(n * m.squares - m.total * m.total, n * n)
}

/// Measures the noise of a picture.
pub fn dark_noise_metric(img: &AnalyzedImage) -> (r: u64)
    requires
        img.wf(),
    ensures
        is_noise(img.luma@, img.width as int, img.height as int, r as int),
{
    let w: usize = img.width as usize;
    let h: usize = img.height as usize;
    if w < 8 || h < 8 {
        return 0;
    }
    let nx: usize = w / 8;
    let ny: usize = h / 8;
    assert(nx * ny <= w * h) by (nonlinear_arith)
        requires
            0 <= nx <= w,
            0 <= ny <= h,
    ;
    assert(0 <= nx * ny) by (nonlinear_arith)
        requires
            0 <= nx,
            0 <= ny,
    ;
    let total: usize = nx * ny;
    let mut spreads: Vec<u64> = Vec::new();
    let mut k: usize = 0;
    while k < total
        invariant
            img.wf(),
            w == img.width,
            h == img.height,
            w >= 8,
            h >= 8,
            nx == w / 8,
            ny == h / 8,
            total == nx * ny,
            k <= total,
            spreads@ == dark_spreads(img.luma@, w as int, nx as int, k as int),
            forall|i: int| 0 <= i < spreads.len() ==> #[trigger] spreads[i] <= 266_342_400,
        decreases total - k,
    {
        let bx: usize = k % nx;
        let by: usize = k / nx;
        assert(by < ny) by (nonlinear_arith)
            requires
                by == k as int / nx as int,
                k < nx * ny,
                nx > 0,
        ;
        let (dark, m) = block_moments(img.luma.as_slice(), w, h, bx, by);
        if dark * 2 >= 64 {
            proof {
                spread_bounds(64, m.total as int, m.squares as int, 255);
            }
            let spread: u128 = 64 * m.squares - m.total * m.total;
            spreads.push(spread as u64);
        }
        k += 1;
    }
    if spreads.len() == 0 {
        return deviation_of_dark(&img.luma);
    }
    let i: usize = index_of_percentile(spreads.len(), 15);
    let v: u64 = kth_smallest(&spreads, i, 266_342_400);
    assert(is_kth(spreads@, percentile_index(spreads.len() as int, 15), v as int));
    deviation_of(v as u128, 4096)
}

/// `spread` times the square of the fixed point lies between the squares of `r` and `r + 1`, in parts
/// of `whole`: `r` is the standard deviation, rounded down.
pub open spec fn is_deviation(spread: int, whole: int, r: int) -> bool {
    0 <= r && (r * r) * whole <= spread * 1_000_000_000_000 < ((r + 1) * (r + 1)) * whole
}

/// The root of a variance is the standard deviation.
proof fn deviation_is_root(spread: int, whole: int)
    requires
        spread >= 0,
        whole > 0,
    ensures
        is_deviation(spread, whole, deviation(spread, whole)),
{
    let n = spread * 1_000_000_000_000;
    let q = n / whole;
    vstd::arithmetic::div_mod::lemma_fundamental_div_mod(n, whole);
    vstd::arithmetic::div_mod::lemma_mod_bound(n, whole);
    vstd::arithmetic::div_mod::lemma_div_pos_is_pos(n, whole);
    root_is_root(q);
    let r = deviation(spread, whole);
    let (a, b) = (r * r, (r + 1) * (r + 1));
    assert(a * whole <= n < b * whole) by (nonlinear_arith)
        requires
            a <= q < b,
            n == whole * q + n % whole,
            0 <= n % whole < whole,
    ;
}

/// The moments of a row go together.
proof fn row_moments(luma: Seq<u8>, w: int, y: int, x0: int, x1: int, n: int, t: int, q: int)
    requires
        x0 <= x1,
        n >= 0,
        t >= 0,
        q >= 0,
        t * t <= n * q,
    ensures
        ({
            let (a, b) = (row_sum(value(luma, w), y, x0, x1), row_sum(value_squared(luma, w), y, x0, x1));
            &&& 0 <= a
            &&& 0 <= b <= 65_025 * (x1 - x0)
            &&& (t + a) * (t + a) <= (n + (x1 - x0)) * (q + b)
        }),
    decreases x1 - x0,
{
    if x0 < x1 {
        row_moments(luma, w, y, x0, x1 - 1, n, t, q);
        let v = pixel(luma, w, x1 - 1, y);
        let a = row_sum(value(luma, w), y, x0, x1 - 1);
        let b = row_sum(value_squared(luma, w), y, x0, x1 - 1);
        assert(0 <= v * v <= 65_025) by (nonlinear_arith)
            requires
                0 <= v <= 255,
        ;
        one_more_number(n + (x1 - 1 - x0), t + a, q + b, v);
    }
}

/// The moments of a rectangle go together.
proof fn rect_moments(luma: Seq<u8>, w: int, x0: int, x1: int, y0: int, y1: int)
    requires
        x1 == x0 + 8,
        y0 <= y1,
    ensures
        ({
            let a = rect_sum(value(luma, w), x0, x1, y0, y1);
            let b = rect_sum(value_squared(luma, w), x0, x1, y0, y1);
            &&& 0 <= a
            &&& 0 <= b <= 520_200 * (y1 - y0)
            &&& a * a <= (8 * (y1 - y0)) * b
        }),
    decreases y1 - y0,
{
    if y0 < y1 {
        rect_moments(luma, w, x0, x1, y0, y1 - 1);
        let a = rect_sum(value(luma, w), x0, x1, y0, y1 - 1);
        let b = rect_sum(value_squared(luma, w), x0, x1, y0, y1 - 1);
        row_moments(luma, w, y1 - 1, x0, x1, 8 * (y1 - 1 - y0), a, b);
    }
}

/// The spread of a block is not negative and fits into 64 bits.
proof fn spread_fits(luma: Seq<u8>, w: int, bx: int, by: int)
    ensures
        0 <= block_spread(luma, w, bx, by) <= 0x1_0000_0000,
{
    rect_moments(luma, w, 8 * bx, 8 * bx + 8, 8 * by, 8 * by + 8);
    let a = block_sum(value(luma, w), bx, by);
    assert(a * a >= 0) by (nonlinear_arith);
}

/// Block number `i`, counted along rows of `n`, is dark, and its spread is at most `v`.
pub open spec fn dark_and_even(luma: Seq<u8>, w: int, n: int, v: int) -> spec_fn(int) -> bool {
    |i: int|
        32 <= rect_sum(
            |x: int, y: int| if luma[y * w + x] < 40 { 1int } else { 0int },
            8 * (i % n),
            8 * (i % n) + 8,
            8 * (i / n),
            8 * (i / n) + 8,
        ) && spread_of(luma, w, i % n, i / n) <= v
}

/// 64 times the sum of the squares of the 64 pixels of a block, less the square of their sum: 64 * 64
/// times their variance.
pub open spec fn spread_of(luma: Seq<u8>, w: int, bx: int, by: int) -> int {
    let t = rect_sum(
        |x: int, y: int| luma[y * w + x] as int,
        8 * bx,
        8 * bx + 8,
        8 * by,
        8 * by + 8,
    );
    let q = rect_sum(
        |x: int, y: int| luma[y * w + x] * luma[y * w + x],
        8 * bx,
        8 * bx + 8,
        8 * by,
        8 * by + 8,
    );
    64 * q - t * t
}

/// The block is dark and even as told by its pixels.
proof fn block_by_pixels(luma: Seq<u8>, w: int, n: int, v: int, i: int)
    ensures
        dark_and_even(luma, w, n, v)(i) <==> is_dark_block(luma, w, i % n, i / n) && block_spread(
            luma,
            w,
            i % n,
            i / n,
        ) <= v,
        spread_of(luma, w, i % n, i / n) == block_spread(luma, w, i % n, i / n),
{
    let dark = |x: int, y: int| if luma[y * w + x] < 40 { 1int } else { 0int };
    let one = |x: int, y: int| luma[y * w + x] as int;
    let two = |x: int, y: int| luma[y * w + x] * luma[y * w + x];
    assert(dark =~= darkness(luma, w));
    assert(one =~= value(luma, w));
    assert(two =~= value_squared(luma, w));
}

/// The spreads of the dark blocks are those of the dark blocks.
proof fn spreads_are(luma: Seq<u8>, w: int, n: int, k: int, v: int)
    requires
        k >= 0,
    ensures
        at_most(dark_spreads(luma, w, n, k), v) == tally(dark_and_even(luma, w, n, v), 0, k),
        dark_spreads(luma, w, n, k).len() == tally(dark_and_even(luma, w, n, 0x1_0000_0000), 0, k),
    decreases k,
{
    let t = dark_spreads(luma, w, n, k);
    if k > 0 {
        spreads_are(luma, w, n, k - 1, v);
        let s = dark_spreads(luma, w, n, k - 1);
        let (bx, by) = ((k - 1) % n, (k - 1) / n);
        block_by_pixels(luma, w, n, v, k - 1);
        block_by_pixels(luma, w, n, 0x1_0000_0000, k - 1);
        spread_fits(luma, w, bx, by);
        let p = |i: int| s[i] <= v;
        let q = |i: int| t[i] <= v;
        if is_dark_block(luma, w, bx, by) {
            assert forall|i: int| 0 <= i < s.len() implies #[trigger] p(i) == q(i) by {}
            tally_same(p, q, 0, s.len() as int);
            assert(t.len() == s.len() + 1);
            assert(t[s.len() as int] == block_spread(luma, w, bx, by) as u64);
        } else {
            assert(t == s);
        }
    }
}

/// The noise is that of the evenest dark blocks: where there are dark 8 by 8 blocks, those with half of
/// their pixels below 40, it is the standard deviation of one of them; more than 15 of 100 dark blocks
/// are no noisier, and no more than 15 of 100 have less spread.
pub proof fn noise_is_that_of_the_evenest_blocks(luma: Seq<u8>, w: int, h: int, r: int)
    requires
        w >= 8,
        h >= 8,
        is_noise(luma, w, h, r),
        tally(dark_and_even(luma, w, w / 8, 0x1_0000_0000), 0, (w / 8) * (h / 8)) > 0,
    ensures
        exists|v: int| #[trigger]
            is_deviation(v, 4096, r) && {
                let n = w / 8;
                let k = (w / 8) * (h / 8);
                let all = tally(dark_and_even(luma, w, n, 0x1_0000_0000), 0, k);
                &&& 100 * tally(dark_and_even(luma, w, n, v), 0, k) > 15 * all
                &&& 100 * tally(dark_and_even(luma, w, n, v - 1), 0, k) <= 15 * all
            },
{
    let n = w / 8;
    let k = (w / 8) * (h / 8);
    assert(k >= 0) by (nonlinear_arith)
        requires
            k == (w / 8) * (h / 8),
            w / 8 >= 0,
            h / 8 >= 0,
    ;
    let s = dark_spreads(luma, w, n, k);
    spreads_are(luma, w, n, k, 0);
    let v = choose|v: int| #[trigger]
        is_kth(s, percentile_index(s.len() as int, 15), v) && r == deviation(v, 4096);
    spreads_are(luma, w, n, k, v);
    spreads_are(luma, w, n, k, v - 1);
    percentile_index_is_the_share(s.len() as int, 15);
    if v < 0 {
        tally_none(|i: int| s[i] <= v, 0, s.len() as int);
    }
    deviation_is_root(v, 4096);
}

/// Where no block is dark, the noise is the standard deviation of all pixels below 40, and nothing where
/// there are none; nor has a picture of less than eight pixels in a side any.
pub proof fn noise_without_dark_blocks(luma: Seq<u8>, w: int, h: int, r: int)
    requires
        is_noise(luma, w, h, r),
        w < 8 || h < 8 || tally(dark_and_even(luma, w, w / 8, 0x1_0000_0000), 0, (w / 8) * (h / 8))
            == 0,
    ensures
        w < 8 || h < 8 ==> r == 0,
        w >= 8 && h >= 8 ==> {
            let len = luma.len() as int;
            let n = sum(|i: int| if luma[i] < 40 { 1int } else { 0int }, 0, len);
            let t = sum(|i: int| if luma[i] < 40 { luma[i] as int } else { 0int }, 0, len);
            let q = sum(|i: int| if luma[i] < 40 { luma[i] * luma[i] } else { 0int }, 0, len);
            &&& n >= 0
            &&& n == 0 ==> r == 0
            &&& n > 0 ==> is_deviation(n * q - t * t, n * n, r)
        },
{
    if w >= 8 && h >= 8 {
        let k = (w / 8) * (h / 8);
        assert(k >= 0) by (nonlinear_arith)
            requires
                k == (w / 8) * (h / 8),
                w / 8 >= 0,
                h / 8 >= 0,
        ;
        spreads_are(luma, w, w / 8, k, 0);
        let len = luma.len() as int;
        let one = |i: int| if luma[i] < 40 { 1int } else { 0int };
        let val = |i: int| if luma[i] < 40 { luma[i] as int } else { 0int };
        let sqr = |i: int| if luma[i] < 40 { luma[i] * luma[i] } else { 0int };
        assert(one =~= dark_one(luma));
        assert(val =~= dark_value(luma));
        assert(sqr =~= dark_square(luma));
        dark_moments(luma, len);
        let (n, t, q) = (sum(one, 0, len), sum(val, 0, len), sum(sqr, 0, len));
        if n > 0 {
            assert(n * n > 0) by (nonlinear_arith)
                requires
                    n > 0,
            ;
            deviation_is_root(n * q - t * t, n * n);
        }
    }
}

/// The moments of the dark pixels go together.
proof fn dark_moments(luma: Seq<u8>, k: int)
    requires
        0 <= k <= luma.len(),
    ensures
        ({
            let n = sum(dark_one(luma), 0, k);
            let t = sum(dark_value(luma), 0, k);
            let q = sum(dark_square(luma), 0, k);
            &&& n >= 0
            &&& t >= 0
            &&& q >= 0
            &&& t * t <= n * q
        }),
    decreases k,
{
    if k > 0 {
        dark_moments(luma, k - 1);
        let v = luma[k - 1] as int;
        let n = sum(dark_one(luma), 0, k - 1);
        let t = sum(dark_value(luma), 0, k - 1);
        let q = sum(dark_square(luma), 0, k - 1);
        assert(v * v >= 0) by (nonlinear_arith);
        one_more_number(n, t, q, v);
    }
}

} // verus!
