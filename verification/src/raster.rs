//! Rectangles of pixels: where a pixel stands, and sums over a rectangle.
use vstd::prelude::*;

verus! {

/// The pixel in column `x` of row `y`, in rows of `w` pixels.
pub open spec fn pixel(luma: Seq<u8>, w: int, x: int, y: int) -> int {
    luma[y * w + x] as int
}

/// The sum of `f` over the columns from `x0` up to `x1` of row `y`.
pub open spec fn row_sum(f: spec_fn(int, int) -> int, y: int, x0: int, x1: int) -> int
    decreases x1 - x0,
{
    if x0 >= x1 {
        0
    } else {
        row_sum(f, y, x0, x1 - 1) + f(x1 - 1, y)
    }
}

/// The sum of `f` over the rows from `y0` up to `y1`, each from column `x0` up to `x1`.
pub open spec fn rect_sum(f: spec_fn(int, int) -> int, x0: int, x1: int, y0: int, y1: int) -> int
    decreases y1 - y0,
{
    if y0 >= y1 {
        0
    } else {
        rect_sum(f, x0, x1, y0, y1 - 1) + row_sum(f, y1 - 1, x0, x1)
    }
}

/// A row of terms from 0 to `m` sums to at most `m` for each.
pub proof fn row_sum_bound(f: spec_fn(int, int) -> int, y: int, x0: int, x1: int, m: int)
    requires
        x0 <= x1,
        forall|x: int| x0 <= x < x1 ==> 0 <= #[trigger] f(x, y) <= m,
    ensures
        0 <= row_sum(f, y, x0, x1) <= m * (x1 - x0),
    decreases x1 - x0,
{
    if x0 < x1 {
        row_sum_bound(f, y, x0, x1 - 1, m);
        assert(m * (x1 - x0) == m * (x1 - 1 - x0) + m) by (nonlinear_arith);
    } else {
        assert(m * (x1 - x0) == 0) by (nonlinear_arith)
            requires
                x1 == x0,
        ;
    }
}

/// A rectangle of terms from 0 to `m` sums to at most `m` for each.
pub proof fn rect_sum_bound(
    f: spec_fn(int, int) -> int,
    x0: int,
    x1: int,
    y0: int,
    y1: int,
    m: int,
)
    requires
        x0 <= x1,
        y0 <= y1,
        forall|x: int, y: int| x0 <= x < x1 && y0 <= y < y1 ==> 0 <= #[trigger] f(x, y) <= m,
    ensures
        0 <= rect_sum(f, x0, x1, y0, y1) <= m * ((x1 - x0) * (y1 - y0)),
    decreases y1 - y0,
{
    if y0 < y1 {
        rect_sum_bound(f, x0, x1, y0, y1 - 1, m);
        row_sum_bound(f, y1 - 1, x0, x1, m);
        assert(m * ((x1 - x0) * (y1 - y0)) == m * ((x1 - x0) * (y1 - 1 - y0)) + m * (x1 - x0))
            by (nonlinear_arith);
    } else {
        assert(m * ((x1 - x0) * (y1 - y0)) == 0) by (nonlinear_arith)
            requires
                y1 == y0,
        ;
    }
}

/// A pixel inside the picture has an index below the number of pixels.
pub proof fn index_inside(x: int, y: int, w: int, h: int)
    requires
        0 <= x < w,
        0 <= y < h,
    ensures
        0 <= y * w <= y * w + x < w * h,
        (y + 1) * w <= w * h,
{
    assert(0 <= y * w <= y * w + x < w * h && (y + 1) * w <= w * h) by (nonlinear_arith)
        requires
            0 <= x < w,
            0 <= y < h,
    ;
}

/// The sum of the pixels of a rectangle.
pub fn rect_total(luma: &[u8], w: usize, x0: usize, x1: usize, y0: usize, y1: usize) -> (r: u128)
    requires
        x0 <= x1 <= w,
        y0 <= y1,
        w * y1 <= luma.len(),
    ensures
        r == rect_sum(|x: int, y: int| pixel(luma@, w as int, x, y), x0 as int, x1 as int, y0 as int, y1 as int),
        r <= 255 * ((x1 - x0) * (y1 - y0)),
{
    let ghost f = |x: int, y: int| pixel(luma@, w as int, x, y);
    let mut total: u128 = 0;
    let mut y: usize = y0;
    proof {
        assert((x1 - x0) * (y1 - y0) <= 0xffff_ffff_ffff_ffff * 0xffff_ffff_ffff_ffff)
            by (nonlinear_arith)
            requires
                0 <= x1 - x0 <= 0xffff_ffff_ffff_ffff,
                0 <= y1 - y0 <= 0xffff_ffff_ffff_ffff,
        ;
        assert((x1 - x0) * (y1 - y0) <= w * y1) by (nonlinear_arith)
            requires
                0 <= x1 - x0 <= w,
                0 <= y1 - y0 <= y1,
        ;
    }
    while y < y1
        invariant
            x0 <= x1 <= w,
            y0 <= y <= y1,
            w * y1 <= luma.len(),
            (x1 - x0) * (y1 - y0) <= w * y1,
            f == (|x: int, y: int| pixel(luma@, w as int, x, y)),
            total == rect_sum(f, x0 as int, x1 as int, y0 as int, y as int),
        decreases y1 - y,
    {
        let mut x: usize = x0;
        while x < x1
            invariant
                x0 <= x <= x1 <= w,
                y0 <= y < y1,
                w * y1 <= luma.len(),
                (x1 - x0) * (y1 - y0) <= w * y1,
                f == (|x: int, y: int| pixel(luma@, w as int, x, y)),
                total == rect_sum(f, x0 as int, x1 as int, y0 as int, y as int) + row_sum(
                    f,
                    y as int,
                    x0 as int,
                    x as int,
                ),
            decreases x1 - x,
        {
            proof {
                index_inside(x as int, y as int, w as int, y1 as int);
                rect_sum_bound(f, x0 as int, x1 as int, y0 as int, y as int, 255);
                row_sum_bound(f, y as int, x0 as int, x as int, 255);
                assert((x1 - x0) * (y - y0) <= (x1 - x0) * (y1 - y0)) by (nonlinear_arith)
                    requires
                        0 <= x1 - x0,
                        0 <= y - y0 <= y1 - y0,
                ;
            }
            total += luma[y * w + x] as u128;
            x += 1;
        }
        y += 1;
    }
    proof {
        rect_sum_bound(f, x0 as int, x1 as int, y0 as int, y1 as int, 255);
    }
    total
}

/// A sum over a rectangle takes in every pixel of it once, and no other: where one pixel is worth `d`
/// more, the sum is `d` more if the pixel lies in the rectangle, and the same if not. The sum of nothing
/// is nothing.
pub proof fn every_pixel_counts_once(
    f: spec_fn(int, int) -> int,
    g: spec_fn(int, int) -> int,
    x0: int,
    x1: int,
    y0: int,
    y1: int,
    px: int,
    py: int,
    d: int,
)
    requires
        forall|x: int, y: int| #[trigger]
            g(x, y) == f(x, y) + if x == px && y == py {
                d
            } else {
                0
            },
    ensures
        rect_sum(g, x0, x1, y0, y1) == rect_sum(f, x0, x1, y0, y1) + if x0 <= px < x1 && y0 <= py < y1 {
            d
        } else {
            0
        },
        rect_sum(|x: int, y: int| 0, x0, x1, y0, y1) == 0,
    decreases y1 - y0,
{
    if y0 < y1 {
        every_pixel_counts_once(f, g, x0, x1, y0, y1 - 1, px, py, d);
        every_column_counts_once(f, g, y1 - 1, x0, x1, px, py, d);
    }
}

/// A sum over a row takes in every column of it once, and no other.
proof fn every_column_counts_once(
    f: spec_fn(int, int) -> int,
    g: spec_fn(int, int) -> int,
    y: int,
    x0: int,
    x1: int,
    px: int,
    py: int,
    d: int,
)
    requires
        forall|x: int, y: int| #[trigger]
            g(x, y) == f(x, y) + if x == px && y == py {
                d
            } else {
                0
            },
    ensures
        row_sum(g, y, x0, x1) == row_sum(f, y, x0, x1) + if x0 <= px < x1 && y == py {
            d
        } else {
            0
        },
        row_sum(|x: int, y: int| 0, y, x0, x1) == 0,
    decreases x1 - x0,
{
    if x0 < x1 {
        every_column_counts_once(f, g, y, x0, x1 - 1, px, py, d);
    }
}

} // verus!
