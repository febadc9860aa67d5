//! Histograms of the brightness: percentiles, and the histogram of a part of a picture.
use crate::metrics::exposure::hist_count;
use crate::raster::{index_inside, pixel, rect_sum, rect_sum_bound, row_sum, row_sum_bound};
use vstd::prelude::*;

verus! {

/// The least brightness from `v` on such that `need` pixels are no brighter; 255 if there is none.
pub open spec fn first_reaching(hist: Seq<u64>, need: int, v: int) -> int
    decreases hist.len() - v,
{
    if v >= hist.len() {
        255
    } else if hist_count(hist, 0, v + 1) >= need {
        v
    } else {
        first_reaching(hist, need, v + 1)
    }
}

/// A share of a whole, in percent, rounded up.
pub open spec fn share(total: int, pct: int) -> int {
    (total * pct + 99) / 100
}

/// The brightness that `pct` percent of the pixels do not exceed; zero for no pixels.
pub open spec fn percentile_of(hist: Seq<u64>, pct: int) -> int {
    let total = hist_count(hist, 0, hist.len() as int);
    if total == 0 {
        0
    } else {
        first_reaching(hist, share(total, pct), 0)
    }
}

/// A sum of counts fits 128 bits.
proof fn count_bound(hist: Seq<u64>, hi: int)
    requires
        0 <= hi <= hist.len(),
    ensures
        0 <= hist_count(hist, 0, hi) <= 0xffff_ffff_ffff_ffff * hi,
{
    crate::tally::sum_bound(|v: int| hist[v] as int, 0, hi, 0xffff_ffff_ffff_ffff);
}

/// The brightness that `pct` percent of the pixels do not exceed.
pub fn percentile(hist: &Vec<u64>, pct: u32) -> (r: usize)
    requires
        hist.len() <= 256,
    ensures
        r == percentile_of(hist@, pct as int),
{
    let n: usize = hist.len();
    let mut total: u128 = 0;
    let mut i: usize = 0;
    while i < n
        invariant
            i <= n == hist.len(),
            n <= 256,
            total == hist_count(hist@, 0, i as int),
        decreases n - i,
    {
        proof {
            count_bound(hist@, i as int);
        }
        total += hist[i] as u128;
        i += 1;
    }
    if total == 0 {
        return 0;
    }
    proof {
        count_bound(hist@, n as int);
        assert(0 <= total * pct <= 0x100_0000_0000_0000_0000 * 0xffff_ffff) by (nonlinear_arith)
            requires
                0 <= total <= 0x100_0000_0000_0000_0000,
                0 <= pct <= 0xffff_ffff,
        ;
    }
    let need: u128 = (total * (pct as u128) + 99) / 100;
    let mut acc: u128 = 0;
    let mut v: usize = 0;
    while v < n
        invariant
            v <= n == hist.len(),
            n <= 256,
            acc == hist_count(hist@, 0, v as int),
            first_reaching(hist@, need as int, 0) == first_reaching(hist@, need as int, v as int),
            percentile_of(hist@, pct as int) == first_reaching(hist@, need as int, 0),
        decreases n - v,
    {
        proof {
            count_bound(hist@, v as int);
        }
        acc += hist[v] as u128;
        if acc >= need {
            return v;
        }
        v += 1;
    }
    255
}

/// The pixel of a side that holds the given part of it.
pub open spec fn cell_of(at: int, side: int) -> int {
    let c = at * side / 1_000_000;
    if c < 0 {
        0
    } else if c > side - 1 {
        side - 1
    } else {
        c
    }
}

/// One for a pixel of brightness `v`, zero for another.
pub open spec fn of_brightness(luma: Seq<u8>, w: int, v: int) -> spec_fn(int, int) -> int {
    |x: int, y: int|
        if pixel(luma, w, x, y) == v {
            1int
        } else {
            0int
        }
}

/// The pixel of a side that holds the given part of it.
fn cell(at: i128, side: u32) -> (r: usize)
    requires
        -0x1_0000_0000_0000_0000 <= at <= 0x1_0000_0000_0000_0000,
        side > 0,
    ensures
        r == cell_of(at as int, side as int),
        r < side,
{
    if at < 0 {
        assert(at * side < 0) by (nonlinear_arith)
            requires
                at < 0,
                side > 0,
        ;
        return 0;
    }
    assert(0 <= at * side <= 0x1_0000_0000_0000_0000_0000_0000) by (nonlinear_arith)
        requires
            0 <= at <= 0x1_0000_0000_0000_0000,
            0 <= side <= 0x1_0000_0000,
    ;
    let c: i128 = at * (side as i128) / 1_000_000;
    if c > side as i128 - 1 {
        (side - 1) as usize
    } else {
        c as usize
    }
}

/// The histogram of a box of the picture, its borders included. Empty for a picture of less than
/// two pixels in a side, or with too few pixels for its size.
pub fn region_hist(luma: &[u8], w: u32, h: u32, x: i64, y: i64, bw: i64, bh: i64) -> (r: Vec<u64>)
    ensures
        r.len() == 256,
        w < 2 || h < 2 || luma.len() < w * h ==> forall|v: int| 0 <= v < 256 ==> #[trigger] r[v] == 0,
        w >= 2 && h >= 2 && luma.len() >= w * h ==> forall|v: int|
            0 <= v < 256 ==> #[trigger] r[v] == rect_sum(
                of_brightness(luma@, w as int, v),
                cell_of(x as int, w as int),
                cell_of(x + bw, w as int) + 1,
                cell_of(y as int, h as int),
                cell_of(y + bh, h as int) + 1,
            ),
{
    let mut hist: Vec<u64> = Vec::new();
    for v in 0..256
        invariant
            hist.len() == v,
            forall|k: int| 0 <= k < v ==> #[trigger] hist[k] == 0,
    {
        hist.push(0);
    }
    if w < 2 || h < 2 {
        return hist;
    }
    assert(0 <= w * h <= 0xffff_ffff * 0xffff_ffff) by (nonlinear_arith)
        requires
            0 <= w <= 0xffff_ffff,
            0 <= h <= 0xffff_ffff,
    ;
    if (luma.len() as u128) < (w as u128) * (h as u128) {
        return hist;
    }
    let x0: usize = cell(x as i128, w);
    let x1: usize = cell(x as i128 + bw as i128, w) + 1;
    let y0: usize = cell(y as i128, h);
    let y1: usize = cell(y as i128 + bh as i128, h) + 1;
    let ghost (gx0, gx1, gy0) = (x0 as int, x1 as int, y0 as int);
    let w: usize = w as usize;
    let mut yy: usize = y0;
    if y0 > y1 {
        assert forall|v: int| 0 <= v < 256 implies #[trigger] hist[v] == rect_sum(
            of_brightness(luma@, w as int, v),
            gx0,
            gx1,
            gy0,
            y1 as int,
        ) by {}
        return hist;
    }
    while yy < y1
        invariant
            hist.len() == 256,
            gx0 == x0,
            gx1 == x1,
            gy0 == y0,
            x1 <= w <= u32::MAX,
            y0 <= yy <= y1 <= h,
            w * h <= luma.len(),
            forall|v: int|
                0 <= v < 256 ==> #[trigger] hist[v] == rect_sum(
                    of_brightness(luma@, w as int, v),
                    gx0,
                    gx1,
                    gy0,
                    yy as int,
                ),
        decreases y1 - yy,
    {
        let mut xx: usize = x0;
        while xx < x1
            invariant
                hist.len() == 256,
                gx0 == x0,
                gx1 == x1,
                gy0 == y0,
                x1 <= w <= u32::MAX,
                x0 <= xx,
                x0 <= x1 ==> xx <= x1,
                x0 > x1 ==> xx == x0,
                y0 <= yy < y1 <= h,
                w * h <= luma.len(),
                forall|v: int|
                    0 <= v < 256 ==> #[trigger] hist[v] == rect_sum(
                        of_brightness(luma@, w as int, v),
                        gx0,
                        gx1,
                        gy0,
                        yy as int,
                    ) + row_sum(of_brightness(luma@, w as int, v), yy as int, gx0, xx as int),
            decreases x1 - xx,
        {
            proof {
                index_inside(xx as int, yy as int, w as int, h as int);
            }
            let p: usize = luma[yy * w + xx] as usize;
            proof {
                let f = of_brightness(luma@, w as int, p as int);
                rect_sum_bound(f, gx0, gx1, gy0, yy as int, 1);
                row_sum_bound(f, yy as int, gx0, xx as int, 1);
                let (a, b) = (gx1 - gx0, yy - gy0);
                assert(1 * (a * b) <= 0xffff_ffff * 0xffff_ffff) by (nonlinear_arith)
                    requires
                        0 <= a <= 0xffff_ffff,
                        0 <= b <= 0xffff_ffff,
                ;
                assert(hist[p as int] <= 0xffff_ffff * 0xffff_ffff + 0xffff_ffff);
            }
            let c: u64 = hist[p];
            hist.set(p, c + 1);
            xx += 1;
        }
        proof {
            if x0 > x1 {
                assert forall|v: int| 0 <= v < 256 implies #[trigger] hist[v] == rect_sum(
                    of_brightness(luma@, w as int, v),
                    gx0,
                    gx1,
                    gy0,
                    yy + 1,
                ) by {}
            }
        }
        yy += 1;
    }
    hist
}

/// The percentile parts the pixels: the given share of them, or more, is no brighter, and less than that
/// share is darker.
pub proof fn percentile_parts_the_pixels(hist: Seq<u64>, pct: int)
    requires
        hist.len() <= 256,
        0 < pct <= 100,
        hist_count(hist, 0, hist.len() as int) > 0,
    ensures
        ({
            let v = percentile_of(hist, pct);
            let total = hist_count(hist, 0, hist.len() as int);
            &&& 0 <= v < hist.len()
            &&& 100 * hist_count(hist, 0, v + 1) >= pct * total
            &&& 100 * hist_count(hist, 0, v) < pct * total
        }),
{
    let total = hist_count(hist, 0, hist.len() as int);
    let need = share(total, pct);
    assert(total * pct == pct * total) by (nonlinear_arith);
    assert(0 < total * pct <= 100 * total) by (nonlinear_arith)
        requires
            total > 0,
            0 < pct <= 100,
    ;
    assert(hist_count(hist, 0, 0) == 0);
    first_is_least(hist, need, 0);
}

/// The first brightness that reaches a number of pixels.
proof fn first_is_least(hist: Seq<u64>, need: int, v: int)
    requires
        0 <= v <= hist.len(),
        hist_count(hist, 0, hist.len() as int) >= need,
        hist_count(hist, 0, v) < need,
    ensures
        v <= first_reaching(hist, need, v) < hist.len(),
        hist_count(hist, 0, first_reaching(hist, need, v) + 1) >= need,
        hist_count(hist, 0, first_reaching(hist, need, v)) < need,
    decreases hist.len() - v,
{
    if v < hist.len() && hist_count(hist, 0, v + 1) < need {
        first_is_least(hist, need, v + 1);
    }
}

/// The pixel at a part of a side is the one that the part falls into; the first or the last one for a
/// part beyond them.
pub proof fn cells_hold_their_part(at: int, side: int)
    requires
        side > 0,
    ensures
        0 <= at < 1_000_000 ==> 1_000_000 * cell_of(at, side) <= at * side < 1_000_000 * (cell_of(at, side)
            + 1),
        at <= 0 ==> cell_of(at, side) == 0,
        at >= 1_000_000 ==> cell_of(at, side) == side - 1,
{
    assert(at >= 0 ==> at * side >= 0) by (nonlinear_arith)
        requires
            side > 0,
    ;
    assert(at <= 0 ==> at * side <= 0) by (nonlinear_arith)
        requires
            side > 0,
    ;
    assert(at >= 1_000_000 ==> at * side >= 1_000_000 * side) by (nonlinear_arith)
        requires
            side > 0,
    ;
    assert(at < 1_000_000 ==> at * side < 1_000_000 * side) by (nonlinear_arith)
        requires
            side > 0,
    ;
}

} // verus!
