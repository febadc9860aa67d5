//! A part of a picture, given by its middle and half its size, in fixed point of the sides.
use crate::fixed::{clamp, clamped, round_div, rounded, rounded_is_near};
use vstd::prelude::*;

verus! {

/// The pixel of a side of `side` pixels that lies at the given part of it.
pub open spec fn edge(at: int, side: int) -> int {
    clamped(rounded(at * side, 1_000_000), 0, side - 1)
}

/// Columns from `x0` to `x1` and rows from `y0` to `y1`, the last ones included.
#[derive(Debug, Clone, Copy, PartialEq, Eq, Structural)]
pub struct Window {
    pub x0: usize,
    pub x1: usize,
    pub y0: usize,
    pub y1: usize,
}

/// A part of the picture: its middle and half its size.
#[derive(Debug, Clone, Copy, PartialEq, Eq, Structural)]
pub struct Region {
    pub cx: i64,
    pub cy: i64,
    pub half_w: i64,
    pub half_h: i64,
}

/// The window of a part of a picture of `w` by `h` pixels.
pub open spec fn window_at(w: int, h: int, g: Region) -> Window {
    Window {
        x0: edge(g.cx - g.half_w, w) as usize,
        x1: edge(g.cx + g.half_w, w) as usize,
        y0: edge(g.cy - g.half_h, h) as usize,
        y1: edge(g.cy + g.half_h, h) as usize,
    }
}

/// How many columns or rows lie between two edges, both included; none where they are crossed.
pub open spec fn span(a: int, b: int) -> int {
    if a <= b {
        b - a + 1
    } else {
        0
    }
}

/// The number of pixels in a window.
pub open spec fn window_area(r: Window) -> int {
    span(r.x0 as int, r.x1 as int) * span(r.y0 as int, r.y1 as int)
}

/// The pixel of a side that lies at the given part of it.
fn edge_of(at: i128, side: u32) -> (r: usize)
    requires
        -0x1_0000_0000_0000_0000 <= at <= 0x1_0000_0000_0000_0000,
        side > 0,
    ensures
        r == edge(at as int, side as int),
        r < side,
{
    assert(-0x1_0000_0000_0000_0000_0000_0000 <= at * side
        <= 0x1_0000_0000_0000_0000_0000_0000) by (nonlinear_arith)
        requires
            -0x1_0000_0000_0000_0000 <= at <= 0x1_0000_0000_0000_0000,
            0 <= side <= 0x1_0000_0000,
    ;
    clamp(round_div(at * (side as i128), 1_000_000), 0, side as i128 - 1) as usize
}

/// The window of a part of a picture.
pub fn window_of(w: u32, h: u32, g: &Region) -> (r: Window)
    requires
        w > 0,
        h > 0,
    ensures
        r == window_at(w as int, h as int, *g),
        r.x0 < w,
        r.x1 < w,
        r.y0 < h,
        r.y1 < h,
{
    Window {
        x0: edge_of(g.cx as i128 - g.half_w as i128, w),
        x1: edge_of(g.cx as i128 + g.half_w as i128, w),
        y0: edge_of(g.cy as i128 - g.half_h as i128, h),
        y1: edge_of(g.cy as i128 + g.half_h as i128, h),
    }
}

/// The window of a part of a picture has its sides where those of the part lie, each at the nearest
/// pixel; a side beyond the picture is moved onto its outermost pixel.
pub proof fn window_follows_the_region(w: int, h: int, g: Region)
    requires
        0 < w <= u32::MAX,
        0 < h <= u32::MAX,
    ensures
        follows(window_at(w, h, g).x0 as int, g.cx - g.half_w, w),
        follows(window_at(w, h, g).x1 as int, g.cx + g.half_w, w),
        follows(window_at(w, h, g).y0 as int, g.cy - g.half_h, h),
        follows(window_at(w, h, g).y1 as int, g.cy + g.half_h, h),
{
    edge_follows(g.cx - g.half_w, w);
    edge_follows(g.cx + g.half_w, w);
    edge_follows(g.cy - g.half_h, h);
    edge_follows(g.cy + g.half_h, h);
}

/// Pixel `p` is the one nearest to the given part of a side of `side` pixels; the first or the last one
/// for a part beyond them.
pub open spec fn follows(p: int, at: int, side: int) -> bool {
    &&& 0 <= p < side
    &&& 0 <= at * side <= 1_000_000 * (side - 1) ==> -1_000_000 <= 2 * (1_000_000 * p - at * side)
        <= 1_000_000
    &&& at * side <= 0 ==> p == 0
    &&& at * side >= 1_000_000 * (side - 1) ==> p == side - 1
}

/// The edge follows the part of the side.
proof fn edge_follows(at: int, side: int)
    requires
        0 < side,
    ensures
        follows(edge(at, side), at, side),
{
    rounded_is_near(at * side, 1_000_000);
}

/// A window has as many pixels as its columns times its rows, both ends counted, and none where its
/// edges are crossed.
pub proof fn windows_count_both_ends(r: Window)
    ensures
        r.x0 <= r.x1 && r.y0 <= r.y1 ==> window_area(r) == (r.x1 - r.x0 + 1) * (r.y1 - r.y0 + 1),
        r.x0 > r.x1 || r.y0 > r.y1 ==> window_area(r) == 0,
{
    if r.x0 > r.x1 || r.y0 > r.y1 {
        assert(window_area(r) == 0) by (nonlinear_arith)
            requires
                window_area(r) == span(r.x0 as int, r.x1 as int) * span(r.y0 as int, r.y1 as int),
                span(r.x0 as int, r.x1 as int) == 0 || span(r.y0 as int, r.y1 as int) == 0,
        ;
    }
}

} // verus!
