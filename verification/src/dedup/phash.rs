//! The difference hash of a picture, and how far two hashes lie apart.
use crate::raster::{index_inside, pixel, rect_sum, rect_total, row_sum};
use crate::tally::{tally, tally_monotone, tally_none, tally_same, tally_split, tally_strict, tally_sum};
use vstd::prelude::*;

verus! {

/// Bit number `k` of a hash, from the lowest.
pub open spec fn bit(h: u64, k: int) -> bool {
    (h >> (k as u64)) & 1 == 1
}

/// Where cell number `g` of `cells` starts, on a side of `side` pixels.
pub open spec fn cell_start(g: int, cells: int, side: int) -> int {
    g * side / cells
}

/// Where cell number `g` of `cells` ends: a cell is at least one pixel wide.
pub open spec fn cell_end(g: int, cells: int, side: int) -> int {
    let e = (g + 1) * side / cells;
    if e > cell_start(g, cells, side) {
        e
    } else {
        cell_start(g, cells, side) + 1
    }
}

/// The mean brightness, rounded down, of a cell of the picture laid out in 9 columns and 8 rows.
pub open spec fn cell_mean(luma: Seq<u8>, w: int, h: int, gx: int, gy: int) -> int {
    let x0 = cell_start(gx, 9, w);
    let x1 = cell_end(gx, 9, w);
    let y0 = cell_start(gy, 8, h);
    let y1 = cell_end(gy, 8, h);
    rect_sum(|x: int, y: int| pixel(luma, w, x, y), x0, x1, y0, y1) / ((x1 - x0) * (y1 - y0))
}

/// The mean brightness of one cell.
fn mean_of_cell(luma: &[u8], w: u32, h: u32, gx: u64, gy: u64) -> (r: u128)
    requires
        w >= 2,
        h >= 2,
        w * h <= luma.len(),
        gx < 9,
        gy < 8,
    ensures
        r == cell_mean(luma@, w as int, h as int, gx as int, gy as int),
{
    proof {
        assert(gx * w <= 8 * w && (gx + 1) * w <= 9 * w && gx * w >= 0) by (nonlinear_arith)
            requires
                0 <= gx <= 8,
                w >= 0,
        ;
        assert(gy * h <= 7 * h && (gy + 1) * h <= 8 * h && gy * h >= 0) by (nonlinear_arith)
            requires
                0 <= gy <= 7,
                h >= 0,
        ;
    }
    let x0: u64 = gx * (w as u64) / 9;
    let xe: u64 = (gx + 1) * (w as u64) / 9;
    let x1: u64 = if xe > x0 { xe } else { x0 + 1 };
    let y0: u64 = gy * (h as u64) / 8;
    let ye: u64 = (gy + 1) * (h as u64) / 8;
    let y1: u64 = if ye > y0 { ye } else { y0 + 1 };
    proof {
        assert((gx + 1) * w == gx * w + w && (gy + 1) * h == gy * h + h) by (nonlinear_arith);
        assert(w * y1 <= w * h) by (nonlinear_arith)
            requires
                y1 <= h,
                w >= 0,
        ;
        assert(0 < (x1 - x0) * (y1 - y0) <= 0xffff_ffff * 0xffff_ffff) by (nonlinear_arith)
            requires
                0 < x1 - x0 <= 0xffff_ffff,
                0 < y1 - y0 <= 0xffff_ffff,
        ;
    }
    let total: u128 = rect_total(luma, w as usize, x0 as usize, x1 as usize, y0 as usize, y1 as usize);
    let n: u128 = ((x1 - x0) as u128) * ((y1 - y0) as u128);
    total / n
}

/// Setting a bit sets that bit and no other.
proof fn set_bit(h: u64, k: u64)
    requires
        k < 64,
    ensures
        forall|j: int| 0 <= j < 64 ==> #[trigger] bit(h | (1u64 << k), j) == (j == k || bit(h, j)),
{
    assert forall|j: int| 0 <= j < 64 implies #[trigger] bit(h | (1u64 << k), j) == (j == k || bit(
        h,
        j,
    )) by {
        let i = j as u64;
        assert(((h | (1u64 << k)) >> i) & 1 == 1 <==> i == k || (h >> i) & 1 == 1) by (bit_vector)
            requires
                i < 64,
                k < 64,
        ;
    }
}

/// `r` is the difference hash of a picture: bit `8 * gy + gx` says whether cell `gx` of row `gy` is
/// brighter than its right neighbour. A picture of less than two pixels in a side hashes to zero.
pub open spec fn is_dhash(luma: Seq<u8>, w: int, h: int, r: u64) -> bool {
    if w < 2 || h < 2 {
        r == 0
    } else {
        forall|gx: int, gy: int|
            0 <= gx < 8 && 0 <= gy < 8 ==> #[trigger] bit(r, gy * 8 + gx) == (cell_mean(
                luma,
                w,
                h,
                gx,
                gy,
            ) > cell_mean(luma, w, h, gx + 1, gy))
    }
}

/// A sum over a rectangle of values that are all `c` higher is higher by `c` for each place.
proof fn raised_row(f: spec_fn(int, int) -> int, g: spec_fn(int, int) -> int, c: int, y: int, x0: int, x1: int)
    requires
        x0 <= x1,
        forall|x: int| x0 <= x < x1 ==> #[trigger] g(x, y) == f(x, y) + c,
    ensures
        row_sum(g, y, x0, x1) == row_sum(f, y, x0, x1) + c * (x1 - x0),
    decreases x1 - x0,
{
    if x0 < x1 {
        raised_row(f, g, c, y, x0, x1 - 1);
        assert(c * (x1 - x0) == c * (x1 - 1 - x0) + c) by (nonlinear_arith);
    } else {
        assert(c * (x1 - x0) == 0) by (nonlinear_arith)
            requires
                x1 == x0,
        ;
    }
}

/// A sum over a rectangle of values that are all `c` higher is higher by `c` for each place.
proof fn raised_rect(
    f: spec_fn(int, int) -> int,
    g: spec_fn(int, int) -> int,
    c: int,
    x0: int,
    x1: int,
    y0: int,
    y1: int,
)
    requires
        x0 <= x1,
        y0 <= y1,
        forall|x: int, y: int|
            x0 <= x < x1 && y0 <= y < y1 ==> #[trigger] g(x, y) == f(x, y) + c,
    ensures
        rect_sum(g, x0, x1, y0, y1) == rect_sum(f, x0, x1, y0, y1) + c * ((x1 - x0) * (y1 - y0)),
    decreases y1 - y0,
{
    let w = x1 - x0;
    if y0 < y1 {
        raised_rect(f, g, c, x0, x1, y0, y1 - 1);
        raised_row(f, g, c, y1 - 1, x0, x1);
        assert(c * (w * (y1 - y0)) == c * (w * (y1 - 1 - y0)) + c * w) by (nonlinear_arith);
    } else {
        assert(c * (w * (y1 - y0)) == 0) by (nonlinear_arith)
            requires
                y1 == y0,
        ;
    }
}

/// Where cell number `g` of `cells` lies: inside the side, and not empty.
proof fn cell_inside(g: int, cells: int, side: int)
    requires
        0 <= g < cells,
        side > 0,
    ensures
        0 <= cell_start(g, cells, side) < cell_end(g, cells, side) <= side,
{
    let s = cell_start(g, cells, side);
    let e = (g + 1) * side / cells;
    assert(0 <= s < side && e <= side) by (nonlinear_arith)
        requires
            0 <= g < cells,
            side > 0,
            s == g * side / cells,
            e == (g + 1) * side / cells,
    ;
}

/// The mean of a cell of a picture that is brighter by `c` everywhere is higher by `c`.
proof fn raised_cell(a: Seq<u8>, b: Seq<u8>, c: int, w: int, h: int, gx: int, gy: int)
    requires
        w >= 2,
        h >= 2,
        a.len() >= w * h,
        b.len() >= w * h,
        forall|i: int| 0 <= i < w * h ==> #[trigger] b[i] == a[i] + c,
        0 <= gx < 9,
        0 <= gy < 8,
    ensures
        cell_mean(b, w, h, gx, gy) == cell_mean(a, w, h, gx, gy) + c,
{
    let x0 = cell_start(gx, 9, w);
    let x1 = cell_end(gx, 9, w);
    let y0 = cell_start(gy, 8, h);
    let y1 = cell_end(gy, 8, h);
    cell_inside(gx, 9, w);
    cell_inside(gy, 8, h);
    let f = |x: int, y: int| pixel(a, w, x, y);
    let g = |x: int, y: int| pixel(b, w, x, y);
    assert forall|x: int, y: int| x0 <= x < x1 && y0 <= y < y1 implies #[trigger] g(x, y) == f(x, y)
        + c by {
        index_inside(x, y, w, h);
        assert(b[y * w + x] == a[y * w + x] + c);
    }
    raised_rect(f, g, c, x0, x1, y0, y1);
    let n = (x1 - x0) * (y1 - y0);
    let s = rect_sum(f, x0, x1, y0, y1);
    assert((s + c * n) / n == s / n + c) by (nonlinear_arith)
        requires
            n == (x1 - x0) * (y1 - y0),
            x1 - x0 > 0,
            y1 - y0 > 0,
    ;
}

/// A picture that is brighter, or darker, by the same amount everywhere has the same hash.
pub proof fn hash_does_not_depend_on_brightness(
    a: Seq<u8>,
    b: Seq<u8>,
    c: int,
    w: int,
    h: int,
    r: u64,
)
    requires
        a.len() >= w * h,
        b.len() >= w * h,
        forall|i: int| 0 <= i < w * h ==> #[trigger] b[i] == a[i] + c,
    ensures
        is_dhash(a, w, h, r) <==> is_dhash(b, w, h, r),
{
    if w >= 2 && h >= 2 {
        assert forall|gx: int, gy: int| 0 <= gx < 8 && 0 <= gy < 8 implies (#[trigger] cell_mean(
            a,
            w,
            h,
            gx,
            gy,
        ) > cell_mean(a, w, h, gx + 1, gy)) == (cell_mean(b, w, h, gx, gy) > cell_mean(
            b,
            w,
            h,
            gx + 1,
            gy,
        )) by {
            raised_cell(a, b, c, w, h, gx, gy);
            raised_cell(a, b, c, w, h, gx + 1, gy);
        }
        if is_dhash(a, w, h, r) {
            same_hash(a, b, w, h, r);
        }
        if is_dhash(b, w, h, r) {
            assert forall|gx: int, gy: int| 0 <= gx < 8 && 0 <= gy < 8 implies (
            #[trigger] cell_mean(b, w, h, gx, gy) > cell_mean(b, w, h, gx + 1, gy)) == (cell_mean(
                a,
                w,
                h,
                gx,
                gy,
            ) > cell_mean(a, w, h, gx + 1, gy)) by {
                assert(cell_mean(a, w, h, gx, gy) == cell_mean(a, w, h, gx, gy));
            }
            same_hash(b, a, w, h, r);
        }
    }
}

/// Pictures whose cells compare alike have the same hash.
proof fn same_hash(a: Seq<u8>, b: Seq<u8>, w: int, h: int, r: u64)
    requires
        w >= 2,
        h >= 2,
        forall|gx: int, gy: int|
            0 <= gx < 8 && 0 <= gy < 8 ==> (#[trigger] cell_mean(a, w, h, gx, gy) > cell_mean(
                a,
                w,
                h,
                gx + 1,
                gy,
            )) == (cell_mean(b, w, h, gx, gy) > cell_mean(b, w, h, gx + 1, gy)),
        is_dhash(a, w, h, r),
    ensures
        is_dhash(b, w, h, r),
{
    assert forall|gx: int, gy: int| 0 <= gx < 8 && 0 <= gy < 8 implies #[trigger] bit(
        r,
        gy * 8 + gx,
    ) == (cell_mean(b, w, h, gx, gy) > cell_mean(b, w, h, gx + 1, gy)) by {
        assert(cell_mean(a, w, h, gx, gy) > cell_mean(a, w, h, gx + 1, gy) <==> bit(r, gy * 8 + gx));
    }
}

/// The difference hash: bit `8 * gy + gx` says whether cell `gx` of row `gy` is brighter than its
/// right neighbour. A picture of less than two pixels in a side hashes to zero.
pub fn dhash(luma: &[u8], w: u32, h: u32) -> (r: u64)
    requires
        w < 2 || h < 2 || w * h <= luma.len(),
    ensures
        is_dhash(luma@, w as int, h as int, r),
{
    if w < 2 || h < 2 {
        return 0;
    }
    let mut hash: u64 = 0;
    let mut gy: u64 = 0;
    let ghost want = |k: int|
        cell_mean(luma@, w as int, h as int, k % 8, k / 8) > cell_mean(
            luma@,
            w as int,
            h as int,
            k % 8 + 1,
            k / 8,
        );
    assert forall|k: int| 0 <= k < 64 implies !#[trigger] bit(0, k) by {
        let i = k as u64;
        assert((0u64 >> i) & 1 == 0) by (bit_vector);
    }
    while gy < 8
        invariant
            w >= 2,
            h >= 2,
            w * h <= luma.len(),
            gy <= 8,
            want == (|k: int|
                cell_mean(luma@, w as int, h as int, k % 8, k / 8) > cell_mean(
                    luma@,
                    w as int,
                    h as int,
                    k % 8 + 1,
                    k / 8,
                )),
            forall|k: int| 0 <= k < 64 ==> #[trigger] bit(hash, k) == (k < gy * 8 && want(k)),
        decreases 8 - gy,
    {
        let mut left: u128 = mean_of_cell(luma, w, h, 0, gy);
        let mut gx: u64 = 0;
        while gx < 8
            invariant
                w >= 2,
                h >= 2,
                w * h <= luma.len(),
                gx <= 8,
                gy < 8,
                left == cell_mean(luma@, w as int, h as int, gx as int, gy as int),
                want == (|k: int|
                    cell_mean(luma@, w as int, h as int, k % 8, k / 8) > cell_mean(
                        luma@,
                        w as int,
                        h as int,
                        k % 8 + 1,
                        k / 8,
                    )),
                forall|k: int|
                    0 <= k < 64 ==> #[trigger] bit(hash, k) == (k < gy * 8 + gx && want(k)),
            decreases 8 - gx,
        {
            let right: u128 = mean_of_cell(luma, w, h, gx + 1, gy);
            let k: u64 = gy * 8 + gx;
            assert(k % 8 == gx && k / 8 == gy);
            assert(want(k as int) == (left > right));
            if left > right {
                proof {
                    set_bit(hash, k);
                }
                hash = hash | (1u64 << k);
            }
            left = right;
            gx += 1;
        }
        gy += 1;
    }
    assert forall|gx: int, gy: int| 0 <= gx < 8 && 0 <= gy < 8 implies #[trigger] bit(
        hash,
        gy * 8 + gx,
    ) == (cell_mean(luma@, w as int, h as int, gx, gy) > cell_mean(
        luma@,
        w as int,
        h as int,
        gx + 1,
        gy,
    )) by {
        let k = gy * 8 + gx;
        assert(k % 8 == gx && k / 8 == gy);
        assert(bit(hash, k) == want(k));
    }
    hash
}

/// The number of bits in which two hashes differ.
pub open spec fn distance(a: u64, b: u64) -> nat {
    tally(|k: int| bit(a, k) != bit(b, k), 0, 64)
}

/// The number of bits in which two hashes differ.
pub fn hamming(a: u64, b: u64) -> (r: u32)
    ensures
        r == distance(a, b),
        r <= 64,
{
    let ghost p = |k: int| bit(a, k) != bit(b, k);
    let mut r: u32 = 0;
    let mut k: u64 = 0;
    while k < 64
        invariant
            k <= 64,
            p == (|k: int| bit(a, k) != bit(b, k)),
            r == tally(p, 0, k as int),
            r <= k,
        decreases 64 - k,
    {
        assert(p(k as int) == (((a >> k) & 1 == 1) != ((b >> k) & 1 == 1)));
        if ((a >> k) & 1 == 1) != ((b >> k) & 1 == 1) {
            r += 1;
        }
        k += 1;
    }
    r
}

/// The distance does not depend on the order of the two hashes.
pub proof fn distance_symmetric(a: u64, b: u64)
    ensures
        distance(a, b) == distance(b, a),
{
    tally_same(|k: int| bit(a, k) != bit(b, k), |k: int| bit(b, k) != bit(a, k), 0, 64);
}

/// Two hashes lie at distance zero exactly where they are equal.
pub proof fn distance_zero(a: u64, b: u64)
    ensures
        distance(a, b) == 0 <==> a == b,
{
    let p = |k: int| bit(a, k) != bit(b, k);
    if a == b {
        tally_none(p, 0, 64);
    } else if distance(a, b) == 0 {
        assert forall|k: int| 0 <= k < 64 implies bit(a, k) == bit(b, k) by {
            if p(k) {
                tally_none(|k: int| false, 0, 64);
                tally_strict(|k: int| false, p, 0, 64, k);
            }
        }
        same_bits(a, b, 0);
        assert(a >> 0 == a && b >> 0 == b) by (bit_vector);
    }
}

/// Words that agree in every bit from `k` on agree when shifted by `k`.
proof fn same_bits(a: u64, b: u64, k: u64)
    requires
        k <= 64,
        forall|j: int| 0 <= j < 64 ==> bit(a, j) == bit(b, j),
    ensures
        k < 64 ==> a >> k == b >> k,
    decreases 64 - k,
{
    if k < 63 {
        same_bits(a, b, (k + 1) as u64);
        let n = (k + 1) as u64;
        assert(bit(a, k as int) == bit(b, k as int));
        assert(a >> k == b >> k) by (bit_vector)
            requires
                k < 63,
                n == k + 1,
                a >> n == b >> n,
                ((a >> k) & 1 == 1) == ((b >> k) & 1 == 1),
        ;
    } else if k == 63 {
        assert(bit(a, 63) == bit(b, 63));
        assert(a >> 63 == b >> 63) by (bit_vector)
            requires
                ((a >> 63) & 1 == 1) == ((b >> 63) & 1 == 1),
        ;
    }
}

/// Going by way of a third hash is never shorter.
pub proof fn distance_triangle(a: u64, b: u64, c: u64)
    ensures
        distance(a, c) <= distance(a, b) + distance(b, c),
{
    let ab = |k: int| bit(a, k) != bit(b, k);
    let bc = |k: int| bit(b, k) != bit(c, k);
    let ac = |k: int| bit(a, k) != bit(c, k);
    let either = |k: int| ab(k) || bc(k);
    let rest = |k: int| bc(k) && !ab(k);
    tally_monotone(ac, either, 0, 64);
    tally_sum(either, ab, rest, 0, 64);
    tally_monotone(rest, bc, 0, 64);
}

/// The brightness of the pixel in column `x` of row `y`, in rows of `w` pixels.
pub open spec fn shades(luma: Seq<u8>, w: int) -> spec_fn(int, int) -> int {
    |x: int, y: int| luma[y * w + x] as int
}

/// A hash compares neighbouring cells of a grid of nine columns and eight rows: bit `8 * gy + gx` is set
/// exactly where cell `gx` of row `gy` has a higher mean, rounded down, than the next one. Cell `g` of
/// a side starts at `g` ninths or eighths of it, rounded down, and has one pixel at least.
pub proof fn bits_compare_neighbouring_cells(
    luma: Seq<u8>,
    w: int,
    h: int,
    r: u64,
    gx: int,
    gy: int,
    xs: (int, int, int),
    ys: (int, int),
)
    requires
        w >= 2,
        h >= 2,
        is_dhash(luma, w, h, r),
        0 <= gx < 8,
        0 <= gy < 8,
        9 * xs.0 <= gx * w < 9 * xs.0 + 9,
        9 * xs.1 <= (gx + 1) * w < 9 * xs.1 + 9,
        9 * xs.2 <= (gx + 2) * w < 9 * xs.2 + 9,
        8 * ys.0 <= gy * h < 8 * ys.0 + 8,
        8 * ys.1 <= (gy + 1) * h < 8 * ys.1 + 8,
    ensures
        ({
            let at = shades(luma, w);
            let (x0, x1) = (xs.0, if xs.1 > xs.0 { xs.1 } else { xs.0 + 1 });
            let (u0, u1) = (xs.1, if xs.2 > xs.1 { xs.2 } else { xs.1 + 1 });
            let (y0, y1) = (ys.0, if ys.1 > ys.0 { ys.1 } else { ys.0 + 1 });
            bit(r, 8 * gy + gx) <==> rect_sum(at, x0, x1, y0, y1) / ((x1 - x0) * (y1 - y0)) > rect_sum(
                at,
                u0,
                u1,
                y0,
                y1,
            ) / ((u1 - u0) * (y1 - y0))
        }),
{
    let at = shades(luma, w);
    assert(at =~= (|x: int, y: int| pixel(luma, w, x, y)));
    assert(gx + 1 + 1 == gx + 2);
    assert(cell_start(gx, 9, w) == xs.0 && cell_start(gx + 1, 9, w) == xs.1);
    assert((gx + 1 + 1) * w / 9 == xs.2);
    assert(cell_start(gy, 8, h) == ys.0 && (gy + 1) * h / 8 == ys.1);
    assert(gy * 8 + gx == 8 * gy + gx);
    assert(bit(r, gy * 8 + gx) == (cell_mean(luma, w, h, gx, gy) > cell_mean(luma, w, h, gx + 1, gy)));
}

/// In a picture of nine by eight pixels every bit tells whether a pixel is brighter than the one to its
/// right.
pub proof fn bits_compare_pixels(luma: Seq<u8>, r: u64, x: int, y: int)
    requires
        is_dhash(luma, 9, 8, r),
        luma.len() == 72,
        0 <= x < 8,
        0 <= y < 8,
    ensures
        bit(r, 8 * y + x) <==> luma[9 * y + x] > luma[9 * y + x + 1],
{
    bits_compare_neighbouring_cells(luma, 9, 8, r, x, y, (x, x + 1, x + 2), (y, y + 1));
    let at = shades(luma, 9);
    reveal_with_fuel(rect_sum, 2);
    reveal_with_fuel(row_sum, 2);
    assert(rect_sum(at, x, x + 1, y, y + 1) == luma[y * 9 + x]);
    assert(rect_sum(at, x + 1, x + 2, y, y + 1) == luma[y * 9 + (x + 1)]);
    let one = (x + 1 - x) * (y + 1 - y);
    assert(one == 1) by (nonlinear_arith)
        requires
            one == (x + 1 - x) * (y + 1 - y),
    ;
    assert((x + 2 - (x + 1)) * (y + 1 - y) == one) by (nonlinear_arith)
        requires
            one == 1,
    ;
    let (left, right) = (luma[y * 9 + x] as int, luma[y * 9 + (x + 1)] as int);
    assert(y * 9 + x == 9 * y + x && y * 9 + (x + 1) == 9 * y + x + 1);
    vstd::arithmetic::div_mod::lemma_div_basics(left);
    vstd::arithmetic::div_mod::lemma_div_basics(right);
    assert(left / one == left && right / one == right);
}

/// The distance counts single bits: turning over one bit of a hash brings it one nearer to a hash that
/// differed there, and one further from one that did not.
pub proof fn each_bit_counts_one(a: u64, b: u64, k: u64)
    requires
        k < 64,
    ensures
        bit(a, k as int) != bit(b, k as int) ==> distance(a ^ (1u64 << k), b) == distance(a, b) - 1,
        bit(a, k as int) == bit(b, k as int) ==> distance(a ^ (1u64 << k), b) == distance(a, b) + 1,
{
    let c = a ^ (1u64 << k);
    let p = |j: int| bit(a, j) != bit(b, j);
    let q = |j: int| bit(c, j) != bit(b, j);
    let i = k as int;
    assert forall|j: int| 0 <= j < 64 implies #[trigger] bit(c, j) == (bit(a, j) != (j == i)) by {
        let m = j as u64;
        assert((((a ^ (1u64 << k)) >> m) & 1 == 1) == (((a >> m) & 1 == 1) != (m == k))) by (bit_vector)
            requires
                m < 64,
                k < 64,
        ;
    }
    tally_split(p, 0, i, 64);
    tally_split(q, 0, i, 64);
    tally_split(p, i, i + 1, 64);
    tally_split(q, i, i + 1, 64);
    tally_same(p, q, 0, i);
    tally_same(p, q, i + 1, 64);
    reveal_with_fuel(tally, 2);
}

/// A picture of less than two pixels in a side hashes to zero.
pub proof fn very_small_pictures_hash_to_zero(luma: Seq<u8>, w: int, h: int, r: u64)
    requires
        w < 2 || h < 2,
        is_dhash(luma, w, h, r),
    ensures
        r == 0,
{
}

} // verus!
