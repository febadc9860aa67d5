//! Exposure: burnt out and black pixels, the brightness that is judged, and the score of it.
use crate::decode::{count_of, having, AnalyzedImage};
use crate::fixed::{clamp, clamped, round_div, rounded, rounded_is_near, rounded_keeps_order};
use crate::metrics::region::{span, window_area, window_at, window_of, Region, Window};
use crate::metrics::sharpness::{mean_bound, ratio_bound};
use crate::raster::{pixel, rect_sum, rect_total};
use crate::tally::{sum, sum_bound, tally, tally_all, tally_none, tally_sum};
use vstd::prelude::*;

verus! {

/// What is known of the exposure of a picture.
#[derive(Debug, Clone, Copy, PartialEq, Eq, Structural)]
pub struct ExposureStats {
    /// Share of burnt out pixels.
    pub over_ratio: i64,
    /// Share of black pixels.
    pub under_ratio: i64,
    /// Mean brightness.
    pub mean: i64,
    /// Mean brightness without the darkest quarter of the pixels.
    pub mean_trunc: i64,
}

/// How many pixels have a brightness from `lo` up to, not including, `hi`.
pub open spec fn hist_count(hist: Seq<u64>, lo: int, hi: int) -> int {
    sum(|v: int| hist[v] as int, lo, hi)
}

/// The sum of the brightness of the pixels from `lo` up to, not including, `hi`.
pub open spec fn hist_weight(hist: Seq<u64>, lo: int, hi: int) -> int {
    sum(|v: int| v * hist[v], lo, hi)
}

/// The least brightness from `v` on such that `cutoff` pixels are no brighter; zero if there is
/// none.
pub open spec fn trunc_start(hist: Seq<u64>, cutoff: int, v: int) -> int
    decreases 256 - v,
{
    if v >= 256 {
        0
    } else if hist_count(hist, 0, v + 1) >= cutoff {
        v
    } else {
        trunc_start(hist, cutoff, v + 1)
    }
}

/// A quarter of the pixels, rounded up.
pub open spec fn quarter(total: int) -> int {
    (total + 3) / 4
}

/// How many pixels are left without the darkest quarter.
pub open spec fn left_count(total: int) -> int {
    total - quarter(total)
}

/// The sum of the brightness of the pixels that are left without the darkest quarter: of those at
/// the limit as many as are left, and of all brighter ones.
pub open spec fn left_weight(hist: Seq<u64>, total: int) -> int {
    let start = trunc_start(hist, quarter(total), 0);
    start * (hist_count(hist, 0, start + 1) - quarter(total)) + hist_weight(hist, start + 1, 256)
}

/// What is known of the exposure of a picture of `total` pixels with the given histogram. Where no
/// pixel is left without the darkest quarter, the mean of all stands in.
pub open spec fn stats_of(hist: Seq<u64>, total: int) -> ExposureStats {
    if total == 0 {
        ExposureStats { over_ratio: 0, under_ratio: 0, mean: 0, mean_trunc: 0 }
    } else {
        let mean = rounded(hist_weight(hist, 0, 256) * 1_000_000, total);
        ExposureStats {
            over_ratio: rounded(hist_count(hist, 250, 256) * 1_000_000, total) as i64,
            under_ratio: rounded(hist_count(hist, 0, 6) * 1_000_000, total) as i64,
            mean: mean as i64,
            mean_trunc: if left_count(total) == 0 {
                mean as i64
            } else {
                rounded(left_weight(hist, total) * 1_000_000, left_count(total)) as i64
            },
        }
    }
}

/// The values below `k`.
spec fn darker(luma: Seq<u8>, k: int) -> spec_fn(int) -> bool {
    |i: int| luma[i] < k
}

/// The counts of the values below `k` add up to the number of values below `k`.
proof fn counts_add_up(luma: Seq<u8>, hist: Seq<u64>, k: int)
    requires
        0 <= k <= 256,
        hist.len() == 256,
        forall|v: int| 0 <= v < 256 ==> #[trigger] hist[v] == count_of(luma, v),
    ensures
        hist_count(hist, 0, k) == tally(darker(luma, k), 0, luma.len() as int),
    decreases k,
{
    let n = luma.len() as int;
    if k == 0 {
        tally_none(darker(luma, k), 0, n);
    } else {
        counts_add_up(luma, hist, k - 1);
        let v = k - 1;
        tally_sum(darker(luma, k), darker(luma, v), having(luma, v), 0, n);
        assert(hist[v] == count_of(luma, v));
    }
}

/// Parts of the histogram hold no more pixels than the whole, and weigh no more than 255 each.
proof fn hist_bounds(hist: Seq<u64>, lo: int, hi: int, m: int)
    requires
        0 <= lo <= hi <= 256,
        hist.len() == 256,
        forall|v: int| 0 <= v < 256 ==> #[trigger] hist[v] <= m,
    ensures
        0 <= hist_count(hist, lo, hi) <= m * (hi - lo),
        0 <= hist_weight(hist, lo, hi) <= 255 * hist_count(hist, lo, hi),
    decreases hi - lo,
{
    sum_bound(|v: int| hist[v] as int, lo, hi, m);
    if lo < hi {
        hist_bounds(hist, lo, hi - 1, m);
        let v = hi - 1;
        let c = hist[v] as int;
        assert(0 <= v * c <= 255 * c) by (nonlinear_arith)
            requires
                0 <= v <= 255,
                0 <= c,
        ;
    }
}

/// A part of the range sums to no more than the whole.
proof fn part_of_count(hist: Seq<u64>, lo: int, hi: int)
    requires
        0 <= lo <= hi <= 256,
        hist.len() == 256,
    ensures
        hist_count(hist, lo, hi) <= hist_count(hist, 0, 256),
    decreases 256 - hi + lo,
{
    let f = |v: int| hist[v] as int;
    if hi < 256 {
        part_of_count(hist, lo, hi + 1);
    } else if lo > 0 {
        part_of_count(hist, lo - 1, hi);
        head_of_sum(f, lo - 1, hi);
    }
}

/// A sum is its first term and the rest.
proof fn head_of_sum(f: spec_fn(int) -> int, lo: int, hi: int)
    requires
        lo < hi,
    ensures
        sum(f, lo, hi) == f(lo) + sum(f, lo + 1, hi),
    decreases hi - lo,
{
    if lo + 1 < hi {
        head_of_sum(f, lo, hi - 1);
    } else {
        reveal_with_fuel(sum, 2);
    }
}

/// A sum is that of its two parts.
proof fn split_sum(f: spec_fn(int) -> int, lo: int, mid: int, hi: int)
    requires
        lo <= mid <= hi,
    ensures
        sum(f, lo, hi) == sum(f, lo, mid) + sum(f, mid, hi),
    decreases hi - mid,
{
    if mid < hi {
        split_sum(f, lo, mid, hi - 1);
    }
}

/// The count and the weight of a part of the histogram.
fn part_of_hist(hist: &Vec<u64>, lo: usize, hi: usize) -> (r: (i128, i128))
    requires
        lo <= hi <= 256,
        hist.len() == 256,
        forall|v: int| 0 <= v < 256 ==> #[trigger] hist[v] <= u32::MAX,
    ensures
        r.0 == hist_count(hist@, lo as int, hi as int),
        r.1 == hist_weight(hist@, lo as int, hi as int),
{
    let mut count: i128 = 0;
    let mut weight: i128 = 0;
    let mut v: usize = lo;
    while v < hi
        invariant
            lo <= v <= hi <= 256,
            hist.len() == 256,
            forall|v: int| 0 <= v < 256 ==> #[trigger] hist[v] <= u32::MAX,
            count == hist_count(hist@, lo as int, v as int),
            weight == hist_weight(hist@, lo as int, v as int),
        decreases hi - v,
    {
        proof {
            hist_bounds(hist@, lo as int, v as int, u32::MAX as int);
            let c = hist@[v as int] as int;
            assert(0 <= v * c <= 255 * c) by (nonlinear_arith)
                requires
                    0 <= v <= 255,
                    0 <= c,
            ;
        }
        count += hist[v] as i128;
        weight += (v as i128) * (hist[v] as i128);
        v += 1;
    }
    (count, weight)
}

/// Finds what is known of the exposure of a picture.
pub fn exposure_stats(img: &AnalyzedImage) -> (r: ExposureStats)
    requires
        img.wf(),
    ensures
        r == stats_of(img.histogram@, img.luma.len() as int),
        0 <= r.over_ratio <= 1_000_000,
        0 <= r.under_ratio <= 1_000_000,
        0 <= r.mean <= 255_000_000,
        0 <= r.mean_trunc <= 255_000_000,
{
    let total: usize = img.luma.len();
    if total == 0 {
        return ExposureStats { over_ratio: 0, under_ratio: 0, mean: 0, mean_trunc: 0 };
    }
    let hist = &img.histogram;
    let ghost hs = img.histogram@;
    proof {
        counts_add_up(img.luma@, hs, 256);
        tally_all(darker(img.luma@, 256), 0, total as int);
        assert forall|v: int| 0 <= v < 256 implies #[trigger] hs[v] <= u32::MAX by {
            crate::tally::tally_bound(having(img.luma@, v), 0, total as int);
        }
        hist_bounds(hs, 0, 256, u32::MAX as int);
        hist_bounds(hs, 250, 256, u32::MAX as int);
        hist_bounds(hs, 0, 6, u32::MAX as int);
        part_of_count(hs, 250, 256);
        part_of_count(hs, 0, 6);
        ratio_bound(hist_count(hs, 250, 256), total as int);
        ratio_bound(hist_count(hs, 0, 6), total as int);
        mean_bound(hist_weight(hs, 0, 256), total as int);
    }
    let n: i128 = total as i128;
    let over: i128 = part_of_hist(hist, 250, 256).0;
    let under: i128 = part_of_hist(hist, 0, 6).0;
    let (_, weight) = part_of_hist(hist, 0, 256);
    let mean: i64 = round_div(weight * 1_000_000, n) as i64;
    let cutoff: i128 = (n + 3) / 4;
    let mut start: usize = 0;
    let mut acc: i128 = 0;
    let mut v: usize = 0;
    let mut found = false;
    while v < 256 && !found
        invariant
            v <= 256,
            hist.len() == 256,
            hs == hist@,
            forall|v: int| 0 <= v < 256 ==> #[trigger] hs[v] <= u32::MAX,
            cutoff == quarter(n as int),
            !found ==> acc == hist_count(hs, 0, v as int),
            !found ==> start == 0,
            !found ==> trunc_start(hs, cutoff as int, 0) == trunc_start(hs, cutoff as int, v as int),
            found ==> start == trunc_start(hs, cutoff as int, 0),
            start < 256,
            found ==> v == start && acc == hist_count(hs, 0, start + 1) && acc >= cutoff && acc
                - hs[start as int] < cutoff,
            hist_count(hs, 0, 256) == n,
            cutoff <= n,
            !found && v > 0 ==> acc < cutoff,
            cutoff > 0,
        decreases 256 - v + if found { 0int } else { 1int },
    {
        proof {
            hist_bounds(hs, 0, v as int, u32::MAX as int);
        }
        acc += hist[v] as i128;
        if acc >= cutoff {
            start = v;
            found = true;
        } else {
            v += 1;
        }
    }
    assert(found);
    let (_, tail) = part_of_hist(hist, start + 1, 256);
    let rest: i128 = acc - cutoff;
    let count: i128 = n - cutoff;
    proof {
        hist_bounds(hs, start + 1, 256, u32::MAX as int);
        hist_bounds(hs, 0, start + 1, u32::MAX as int);
        split_sum(|v: int| hs[v] as int, 0, start + 1, 256);
        assert(0 <= start * rest <= 255 * rest) by (nonlinear_arith)
            requires
                0 <= start <= 255,
                0 <= rest,
        ;
        if count > 0 {
            mean_bound(start * rest + tail, count as int);
        }
    }
    let left: i128 = start as i128 * rest + tail;
    let mean_trunc: i64 = if count == 0 { mean } else { round_div(left * 1_000_000, count) as i64 };
    ExposureStats {
        over_ratio: round_div(over * 1_000_000, n) as i64,
        under_ratio: round_div(under * 1_000_000, n) as i64,
        mean,
        mean_trunc,
    }
}

/// How exposure is judged, in stops.
#[derive(Debug, Clone, Copy, PartialEq, Eq, Structural)]
pub struct ExposureCurve {
    /// Ideal brightness.
    pub target: i64,
    /// How many stops below the ideal still count as right.
    pub ev_full_lo: i64,
    /// How many stops above the ideal still count as right.
    pub ev_full_hi: i64,
    /// How many stops below the ideal count for nothing.
    pub ev_lo: i64,
    /// How many stops above the ideal count for nothing.
    pub ev_hi: i64,
    /// Weight of the subject in the judged brightness.
    pub subject_blend: i64,
    /// Largest correction that is suggested; zero for no suggestions.
    pub suggest_cap: i64,
}

/// The lower of two numbers.
pub open spec fn lower_of(a: int, b: int) -> int {
    if a < b {
        a
    } else {
        b
    }
}

/// The higher of two numbers.
pub open spec fn higher_of(a: int, b: int) -> int {
    if a > b {
        a
    } else {
        b
    }
}

/// The brightness that is judged: that of the picture without its darkest quarter, pulled towards
/// the brightness of the subject, but never past the ideal.
pub open spec fn basis_of(mean: int, subject: Option<i64>, c: ExposureCurve) -> int {
    match subject {
        Some(s) => {
            let pull = clamped(
                s as int,
                lower_of(mean, c.target as int),
                higher_of(mean, c.target as int),
            ) - mean;
            mean + rounded(clamped(c.subject_blend as int, 0, 1_000_000) * pull, 1_000_000)
        },
        None => mean,
    }
}

/// A part of a pull is no stronger than the pull.
proof fn part_of_pull(blend: int, pull: int)
    requires
        0 <= blend <= 1_000_000,
    ensures
        pull >= 0 ==> 0 <= rounded(blend * pull, 1_000_000) <= pull,
        pull <= 0 ==> pull <= rounded(blend * pull, 1_000_000) <= 0,
        -0x10_0000 * (if pull >= 0 { pull } else { -pull }) <= blend * pull,
        blend * pull <= 0x10_0000 * (if pull >= 0 { pull } else { -pull }),
{
    let p = if pull >= 0 { pull } else { -pull };
    assert(0 <= blend * p <= 1_000_000 * p) by (nonlinear_arith)
        requires
            0 <= blend <= 1_000_000,
            p >= 0,
    ;
    assert(blend * (-p) == -(blend * p)) by (nonlinear_arith);
    let a = blend * p;
    assert(0 <= (2 * a + 1_000_000) / 2_000_000 <= p);
}

/// The brightness that is judged. It lies between that of the picture and the ideal.
pub fn exposure_basis(stats: &ExposureStats, subject_mean: Option<i64>, c: &ExposureCurve) -> (r: i64)
    ensures
        r == basis_of(stats.mean_trunc as int, subject_mean, *c),
        lower_of(stats.mean_trunc as int, c.target as int) <= r <= higher_of(
            stats.mean_trunc as int,
            c.target as int,
        ),
{
    let mean: i128 = stats.mean_trunc as i128;
    let target: i128 = c.target as i128;
    let blend: i128 = clamp(c.subject_blend as i128, 0, 1_000_000);
    match subject_mean {
        Some(s) => {
            let lo: i128 = if mean < target { mean } else { target };
            let hi: i128 = if mean > target { mean } else { target };
            let pull: i128 = clamp(s as i128, lo, hi) - mean;
            proof {
                part_of_pull(blend as int, pull as int);
            }
            (mean + round_div(blend * pull, 1_000_000)) as i64
        },
        None => stats.mean_trunc,
    }
}

/// The exposure is right: `ev` stops from the ideal lie within the tolerance.
pub open spec fn in_band(ev: int, c: ExposureCurve) -> bool {
    -c.ev_full_lo <= ev <= c.ev_full_hi
}

/// How much of the marks an exposure `ev` stops from the ideal gets.
pub open spec fn tone_of(ev: int, c: ExposureCurve) -> int {
    if in_band(ev, c) {
        1_000_000
    } else if ev < -c.ev_full_lo {
        let width = higher_of(c.ev_lo - c.ev_full_lo, 1);
        clamped(1_000_000 - rounded((-ev - c.ev_full_lo) * 1_000_000, width), 0, 1_000_000)
    } else {
        let width = higher_of(c.ev_hi - c.ev_full_hi, 1);
        clamped(1_000_000 - rounded((ev - c.ev_full_hi) * 1_000_000, width), 0, 1_000_000)
    }
}

/// How much of the marks an exposure `ev` stops from the ideal gets: all within the tolerance,
/// then less in proportion, down to nothing.
pub fn tone_term(ev: i64, c: &ExposureCurve) -> (r: i64)
    ensures
        r == tone_of(ev as int, *c),
        0 <= r <= 1_000_000,
{
    let e: i128 = ev as i128;
    if e >= -(c.ev_full_lo as i128) && ev <= c.ev_full_hi {
        1_000_000
    } else if e < -(c.ev_full_lo as i128) {
        let gap: i128 = c.ev_lo as i128 - c.ev_full_lo as i128;
        let width: i128 = if gap > 1 { gap } else { 1 };
        let lost: i128 = round_div((-e - c.ev_full_lo as i128) * 1_000_000, width);
        clamp(1_000_000 - lost, 0, 1_000_000) as i64
    } else {
        let gap: i128 = c.ev_hi as i128 - c.ev_full_hi as i128;
        let width: i128 = if gap > 1 { gap } else { 1 };
        let lost: i128 = round_div((e - c.ev_full_hi as i128) * 1_000_000, width);
        clamp(1_000_000 - lost, 0, 1_000_000) as i64
    }
}

/// What burnt out and black pixels leave of the marks.
pub open spec fn unclipped(stats: ExposureStats) -> int {
    higher_of(1_000_000 - 4 * stats.over_ratio - 4 * stats.under_ratio, 0)
}

/// The score of an exposure `ev` stops from the ideal.
pub open spec fn exposure_of(stats: ExposureStats, ev: int, c: ExposureCurve) -> int {
    rounded(100 * (unclipped(stats) * tone_of(ev, c)), 1_000_000)
}

/// The score of an exposure whose judged brightness lies `ev` stops from the ideal.
pub fn exposure_score(stats: &ExposureStats, ev: i64, c: &ExposureCurve) -> (r: i64)
    requires
        stats.over_ratio >= 0,
        stats.under_ratio >= 0,
    ensures
        r == exposure_of(*stats, ev as int, *c),
        0 <= r <= 100_000_000,
{
    let left: i128 = 1_000_000 - 4 * (stats.over_ratio as i128) - 4 * (stats.under_ratio as i128);
    let kept: i128 = if left > 0 { left } else { 0 };
    let tone: i128 = tone_term(ev, c) as i128;
    assert(0 <= kept * tone <= 1_000_000_000_000) by (nonlinear_arith)
        requires
            0 <= kept <= 1_000_000,
            0 <= tone <= 1_000_000,
    ;
    let marks: i128 = 100 * (kept * tone);
    assert(0 <= rounded(marks as int, 1_000_000) <= 100_000_000);
    round_div(marks, 1_000_000) as i64
}

/// The correction, in stops, that is suggested for an exposure `ev` stops from the ideal: the way
/// back, to the nearest third of a stop, within the limit; none within the tolerance.
pub open spec fn suggestion(ev: int, c: ExposureCurve) -> Option<int> {
    let thirds = rounded(-(3 * ev), 1_000_000);
    let v = clamped(rounded(thirds * 1_000_000, 3), -c.suggest_cap, c.suggest_cap as int);
    if c.suggest_cap <= 0 || in_band(ev, c) || v == 0 {
        None
    } else {
        Some(v)
    }
}

/// The correction that is suggested for an exposure `ev` stops from the ideal.
pub fn suggested_ev(ev: i64, c: &ExposureCurve) -> (r: Option<i64>)
    ensures
        r is Some == suggestion(ev as int, *c) is Some,
        r is Some ==> r->0 == suggestion(ev as int, *c)->0,
{
    let cap: i128 = c.suggest_cap as i128;
    let e: i128 = ev as i128;
    if cap <= 0 {
        return None;
    }
    if e >= -(c.ev_full_lo as i128) && ev <= c.ev_full_hi {
        return None;
    }
    let thirds: i128 = round_div(-(3 * e), 1_000_000);
    let v: i128 = clamp(round_div(thirds * 1_000_000, 3), -cap, cap);
    if v == 0 {
        None
    } else {
        Some(v as i64)
    }
}

/// Without burnt out or black pixels, an exposure within the tolerance gets full marks.
pub proof fn full_marks_within_tolerance(stats: ExposureStats, ev: int, c: ExposureCurve)
    requires
        stats.over_ratio == 0,
        stats.under_ratio == 0,
        in_band(ev, c),
    ensures
        exposure_of(stats, ev, c) == 100_000_000,
{
    assert(1_000_000int * 1_000_000int == 1_000_000_000_000int) by (nonlinear_arith);
}

/// Outside the tolerance, a photo further from the ideal never gets more marks than one nearer to
/// it, on either side.
pub proof fn marks_fall_with_distance(near: int, far: int, c: ExposureCurve)
    requires
        c.ev_full_lo >= 0,
        c.ev_full_hi >= 0,
        (far <= near <= 0) || (0 <= near <= far),
    ensures
        tone_of(far, c) <= tone_of(near, c),
{
    if !in_band(near, c) {
        if near < 0 {
            rounded_keeps_order(
                (-near - c.ev_full_lo) * 1_000_000,
                (-far - c.ev_full_lo) * 1_000_000,
                higher_of(c.ev_lo - c.ev_full_lo, 1),
            );
        } else {
            rounded_keeps_order(
                (near - c.ev_full_hi) * 1_000_000,
                (far - c.ev_full_hi) * 1_000_000,
                higher_of(c.ev_hi - c.ev_full_hi, 1),
            );
        }
    }
}

/// With the same share of burnt out and black pixels, a photo further from the ideal never scores
/// higher than one nearer to it, on either side.
pub proof fn score_falls_with_distance(stats: ExposureStats, near: int, far: int, c: ExposureCurve)
    requires
        c.ev_full_lo >= 0,
        c.ev_full_hi >= 0,
        (far <= near <= 0) || (0 <= near <= far),
    ensures
        exposure_of(stats, far, c) <= exposure_of(stats, near, c),
{
    marks_fall_with_distance(near, far, c);
    let k = unclipped(stats);
    let (a, b) = (tone_of(far, c), tone_of(near, c));
    assert(k * a <= k * b) by (nonlinear_arith)
        requires
            k >= 0,
            a <= b,
    ;
    rounded_keeps_order(100 * (k * a), 100 * (k * b), 1_000_000);
}

/// A subject never lowers the score, however the stops are told from the brightness, as long as
/// they grow with it and the ideal lies at zero. A subject on the far side of the picture's
/// brightness changes nothing, and one beyond the ideal counts as one at the ideal.
pub proof fn subject_never_lowers_the_score(
    stats: ExposureStats,
    subject: i64,
    c: ExposureCurve,
    stops: spec_fn(int) -> int,
)
    requires
        c.ev_full_lo >= 0,
        c.ev_full_hi >= 0,
        stops(c.target as int) == 0,
        forall|a: int, b: int| a <= b ==> #[trigger] stops(a) <= #[trigger] stops(b),
    ensures
        ({
            let mean = stats.mean_trunc as int;
            let alone = basis_of(mean, None, c);
            let with = basis_of(mean, Some(subject), c);
            let ideal = basis_of(mean, Some(c.target), c);
            &&& exposure_of(stats, stops(with), c) >= exposure_of(stats, stops(alone), c)
            &&& (mean <= c.target && subject <= mean) || (mean >= c.target && subject >= mean)
                ==> with == alone
            &&& (mean <= c.target <= subject) || (subject <= c.target <= mean) ==> with == ideal
        }),
{
    let mean = stats.mean_trunc as int;
    let alone = basis_of(mean, None, c);
    let with = basis_of(mean, Some(subject), c);
    let t = c.target as int;
    subject_pulls_one_way(mean, subject, c);
    let blend = clamped(c.subject_blend as int, 0, 1_000_000);
    let pull = clamped(subject as int, lower_of(mean, t), higher_of(mean, t)) - mean;
    part_of_pull(blend, pull);
    if mean <= t {
        assert(mean <= with <= t);
        assert(stops(mean) <= stops(with) && stops(with) <= stops(t));
    } else {
        assert(t <= with <= mean);
        assert(stops(with) <= stops(mean) && stops(t) <= stops(with));
    }
    score_falls_with_distance(stats, stops(with), stops(alone), c);
}

/// The two sides are judged on their own: the tolerances of the bright side do not matter to a
/// dark photo, nor those of the dark side to a bright one.
pub proof fn sides_are_independent(ev: int, c: ExposureCurve, d: ExposureCurve)
    requires
        c.ev_full_lo >= 0,
        c.ev_full_hi >= 0,
        d.ev_full_lo >= 0,
        d.ev_full_hi >= 0,
        ev <= 0 ==> c.ev_full_lo == d.ev_full_lo && c.ev_lo == d.ev_lo,
        ev >= 0 ==> c.ev_full_hi == d.ev_full_hi && c.ev_hi == d.ev_hi,
    ensures
        tone_of(ev, c) == tone_of(ev, d),
{
}

/// A suggestion never goes beyond the limit, points the other way than the error, and is only made
/// outside the tolerance.
pub proof fn suggestion_is_moderate(ev: int, c: ExposureCurve)
    requires
        suggestion(ev, c) is Some,
    ensures
        -c.suggest_cap <= suggestion(ev, c)->0 <= c.suggest_cap,
        suggestion(ev, c)->0 != 0,
        ev < 0 ==> suggestion(ev, c)->0 > 0,
        ev > 0 ==> suggestion(ev, c)->0 < 0,
        !in_band(ev, c),
        c.suggest_cap > 0,
{
}

/// The subject only ever pulls the judged brightness towards the ideal: the result lies between
/// the brightness of the picture and the ideal, and a subject on the far side of the picture's
/// brightness changes nothing.
pub proof fn subject_pulls_one_way(mean: int, s: i64, c: ExposureCurve)
    ensures
        lower_of(mean, c.target as int) <= basis_of(mean, Some(s), c) <= higher_of(
            mean,
            c.target as int,
        ),
        (mean <= c.target && s <= mean) || (mean >= c.target && s >= mean) ==> basis_of(
            mean,
            Some(s),
            c,
        ) == mean,
{
    let blend = clamped(c.subject_blend as int, 0, 1_000_000);
    let pull = clamped(
        s as int,
        lower_of(mean, c.target as int),
        higher_of(mean, c.target as int),
    ) - mean;
    part_of_pull(blend, pull);
}

/// The mean brightness over a window, in fixed point; zero for no pixels.
pub open spec fn window_mean(luma: Seq<u8>, w: int, r: Window) -> int {
    if window_area(r) == 0 {
        0
    } else {
        rounded(
            rect_sum(
                |x: int, y: int| pixel(luma, w, x, y),
                r.x0 as int,
                r.x1 + 1,
                r.y0 as int,
                r.y1 + 1,
            ) * 1_000_000,
            window_area(r),
        )
    }
}

/// The mean brightness of a part of the picture; zero for a picture of less than two pixels in a
/// side, or with too few pixels for its size.
pub open spec fn region_mean(luma: Seq<u8>, w: int, h: int, g: Region) -> int {
    if w < 2 || h < 2 || luma.len() < w * h {
        0
    } else {
        window_mean(luma, w, window_at(w, h, g))
    }
}

/// The mean brightness of a part of the picture. Zero for a picture of less than two pixels in a
/// side, or with too few pixels for its size.
pub fn region_mean_luma(
    luma: &[u8],
    w: u32,
    h: u32,
    g: &Region,
) -> (r: i64)
    ensures
        r == region_mean(luma@, w as int, h as int, *g),
        0 <= r <= 255_000_000,
{
    if w < 2 || h < 2 {
        return 0;
    }
    assert(0 <= w * h <= 0xffff_ffff * 0xffff_ffff) by (nonlinear_arith)
        requires
            0 <= w <= 0xffff_ffff,
            0 <= h <= 0xffff_ffff,
    ;
    if (luma.len() as u128) < (w as u128) * (h as u128) {
        return 0;
    }
    let win = window_of(w, h, g);
    if win.x0 > win.x1 || win.y0 > win.y1 {
        assert(window_area(win) == 0) by (nonlinear_arith)
            requires
                window_area(win) == span(win.x0 as int, win.x1 as int) * span(
                    win.y0 as int,
                    win.y1 as int,
                ),
                span(win.x0 as int, win.x1 as int) == 0 || span(win.y0 as int, win.y1 as int) == 0,
        ;
        return 0;
    }
    assert(w * (win.y1 + 1) <= w * h) by (nonlinear_arith)
        requires
            win.y1 + 1 <= h,
            w >= 0,
    ;
    let s: u128 = rect_total(luma, w as usize, win.x0, win.x1 + 1, win.y0, win.y1 + 1);
    let nw: i128 = (win.x1 - win.x0) as i128 + 1;
    let nh: i128 = (win.y1 - win.y0) as i128 + 1;
    proof {
        assert(0 < nw * nh <= 0x1_0000_0000 * 0x1_0000_0000) by (nonlinear_arith)
            requires
                0 < nw <= 0x1_0000_0000,
                0 < nh <= 0x1_0000_0000,
        ;
        mean_bound(s as int, nw * nh);
    }
    round_div(s as i128 * 1_000_000, nw * nh) as i64
}

/// The values below `k`, zero in place of the others.
spec fn below(luma: Seq<u8>, k: int) -> spec_fn(int) -> int {
    |i: int| if luma[i] < k { luma[i] as int } else { 0 }
}

/// As many times `v` as there are values of it.
proof fn weigh_one(luma: Seq<u8>, v: int, n: int)
    requires
        0 <= n <= luma.len(),
    ensures
        sum(|i: int| if luma[i] == v { v } else { 0int }, 0, n) == v * tally(having(luma, v), 0, n),
    decreases n,
{
    let f = |i: int| if luma[i] == v { v } else { 0int };
    if n > 0 {
        weigh_one(luma, v, n - 1);
        let c = tally(having(luma, v), 0, n - 1) as int;
        assert(v * (c + 1) == v * c + v) by (nonlinear_arith);
    } else {
        assert(v * 0 == 0) by (nonlinear_arith);
    }
}

/// The sum of two functions is the sum of both.
proof fn sum_of_both(
    f: spec_fn(int) -> int,
    g: spec_fn(int) -> int,
    h: spec_fn(int) -> int,
    lo: int,
    hi: int,
)
    requires
        forall|i: int| lo <= i < hi ==> #[trigger] f(i) == g(i) + h(i),
    ensures
        sum(f, lo, hi) == sum(g, lo, hi) + sum(h, lo, hi),
    decreases hi - lo,
{
    if lo < hi {
        sum_of_both(f, g, h, lo, hi - 1);
    }
}

/// The histogram weighs as much as the values that it counts.
proof fn weights_add_up(luma: Seq<u8>, hist: Seq<u64>, k: int)
    requires
        0 <= k <= 256,
        hist.len() == 256,
        forall|v: int| 0 <= v < 256 ==> #[trigger] hist[v] == count_of(luma, v),
    ensures
        hist_weight(hist, 0, k) == sum(below(luma, k), 0, luma.len() as int),
    decreases k,
{
    let n = luma.len() as int;
    if k == 0 {
        sum_bound(below(luma, 0), 0, n, 0);
    } else {
        weights_add_up(luma, hist, k - 1);
        let v = k - 1;
        let one = |i: int| if luma[i] == v { v } else { 0int };
        weigh_one(luma, v, n);
        sum_of_both(below(luma, k), below(luma, v), one, 0, n);
        assert(hist[v] == count_of(luma, v));
    }
}

/// Shares and mean are those of the pixels: the share of those from 250 on, the share of those up to
/// 5, and the mean of all, each to the nearest millionth.
pub proof fn stats_tell_of_the_pixels(img: AnalyzedImage)
    requires
        img.wf(),
        img.luma.len() > 0,
    ensures
        ({
            let n = img.luma.len() as int;
            let s = stats_of(img.histogram@, n);
            let over = tally(|i: int| img.luma@[i] >= 250, 0, n);
            let under = tally(|i: int| img.luma@[i] <= 5, 0, n);
            let all = sum(|i: int| img.luma@[i] as int, 0, n);
            &&& -n <= 2 * (s.over_ratio * n - 1_000_000 * over) <= n
            &&& -n <= 2 * (s.under_ratio * n - 1_000_000 * under) <= n
            &&& -n <= 2 * (s.mean * n - 1_000_000 * all) <= n
        }),
{
    let luma = img.luma@;
    let hist = img.histogram@;
    let n = luma.len() as int;
    let bright = |i: int| luma[i] >= 250;
    let black = |i: int| luma[i] <= 5;
    let every = |i: int| luma[i] as int;
    counts_add_up(luma, hist, 256);
    counts_add_up(luma, hist, 250);
    counts_add_up(luma, hist, 6);
    split_sum(|v: int| hist[v] as int, 0, 250, 256);
    tally_all(darker(luma, 256), 0, n);
    tally_sum(darker(luma, 256), darker(luma, 250), bright, 0, n);
    crate::tally::tally_same(darker(luma, 6), black, 0, n);
    weights_add_up(luma, hist, 256);
    crate::tally::sum_same(below(luma, 256), every, 0, n);
    crate::tally::tally_bound(bright, 0, n);
    crate::tally::tally_bound(black, 0, n);
    sum_bound(every, 0, n, 255);
    let (over, under) = (tally(bright, 0, n) as int, tally(black, 0, n) as int);
    let all = sum(every, 0, n);
    rounded_is_near(over * 1_000_000, n);
    rounded_is_near(under * 1_000_000, n);
    rounded_is_near(all * 1_000_000, n);
    ratio_bound(over, n);
    ratio_bound(under, n);
    mean_bound(all, n);
}

/// The values do not fall.
pub open spec fn is_rising(s: Seq<u8>) -> bool {
    forall|i: int, j: int| 0 <= i <= j < s.len() ==> #[trigger] s[i] <= #[trigger] s[j]
}

/// Of values that do not fall, those below `k` stand in front.
proof fn darker_stand_in_front(s: Seq<u8>, k: int, n: int)
    requires
        is_rising(s),
        0 <= n <= s.len(),
    ensures
        0 <= tally(darker(s, k), 0, n) <= n,
        forall|i: int| 0 <= i < n ==> (#[trigger] s[i] < k <==> i < tally(darker(s, k), 0, n)),
    decreases n,
{
    if n > 0 {
        darker_stand_in_front(s, k, n - 1);
        let c = tally(darker(s, k), 0, n - 1) as int;
        if s[n - 1] < k {
            if c < n - 1 {
                assert(s[c] <= s[n - 1]);
            }
        }
    }
}

/// The sum of a constant.
proof fn constant_sum(f: spec_fn(int) -> int, v: int, lo: int, hi: int)
    requires
        lo <= hi,
        forall|i: int| lo <= i < hi ==> #[trigger] f(i) == v,
    ensures
        sum(f, lo, hi) == v * (hi - lo),
    decreases hi - lo,
{
    if lo < hi {
        constant_sum(f, v, lo, hi - 1);
        assert(v * (hi - lo) == v * (hi - 1 - lo) + v) by (nonlinear_arith);
    } else {
        assert(v * (hi - lo) == 0) by (nonlinear_arith)
            requires
                hi == lo,
        ;
    }
}

/// From place `hist_count(0, v)` on, values that do not fall are those from `v` on.
proof fn rest_of_rising(s: Seq<u8>, hist: Seq<u64>, v: int, k: int)
    requires
        is_rising(s),
        0 <= v <= k <= 256,
        hist.len() == 256,
        forall|v: int| 0 <= v < 256 ==> #[trigger] hist[v] == count_of(s, v),
    ensures
        0 <= hist_count(hist, 0, v) <= hist_count(hist, 0, k) <= s.len(),
        hist_weight(hist, v, k) == sum(
            |i: int| s[i] as int,
            hist_count(hist, 0, v),
            hist_count(hist, 0, k),
        ),
    decreases k - v,
{
    let n = s.len() as int;
    let f = |i: int| s[i] as int;
    counts_add_up(s, hist, v);
    darker_stand_in_front(s, v, n);
    if v < k {
        rest_of_rising(s, hist, v, k - 1);
        let u = k - 1;
        let (a, b) = (hist_count(hist, 0, u), hist_count(hist, 0, k));
        counts_add_up(s, hist, u);
        counts_add_up(s, hist, k);
        darker_stand_in_front(s, u, n);
        darker_stand_in_front(s, k, n);
        assert(b == a + hist[u]);
        assert forall|i: int| a <= i < b implies #[trigger] f(i) == u by {
            assert(s[i] < k);
            assert(!(s[i] < u));
        }
        constant_sum(f, u, a, b);
        split_sum(f, hist_count(hist, 0, v), a, b);
    }
}

/// Where the darkest quarter ends.
proof fn start_is_least(hist: Seq<u64>, cutoff: int, v: int)
    requires
        0 <= v <= 256,
        hist_count(hist, 0, 256) >= cutoff,
        hist_count(hist, 0, v) < cutoff,
    ensures
        0 <= trunc_start(hist, cutoff, v) < 256,
        hist_count(hist, 0, trunc_start(hist, cutoff, v)) < cutoff,
        hist_count(hist, 0, trunc_start(hist, cutoff, v) + 1) >= cutoff,
    decreases 256 - v,
{
    if v < 256 && hist_count(hist, 0, v + 1) < cutoff {
        start_is_least(hist, cutoff, v + 1);
    }
}

/// The brightness that is judged is the mean of the pixels without the darkest quarter: with the
/// values of all pixels put in order, of those behind the first quarter, rounded up. Where a single
/// pixel leaves none, it is that pixel.
pub proof fn trunc_mean_leaves_out_the_darkest_quarter(img: AnalyzedImage, s: Seq<u8>)
    requires
        img.wf(),
        img.luma.len() > 0,
        s.len() == img.luma.len(),
        is_rising(s),
        forall|v: int| 0 <= v < 256 ==> #[trigger] count_of(s, v) == count_of(img.luma@, v),
    ensures
        ({
            let n = s.len() as int;
            let q = (n + 3) / 4;
            let m = stats_of(img.histogram@, n).mean_trunc;
            let rest = sum(|i: int| s[i] as int, q, n);
            &&& n > 1 ==> -(n - q) <= 2 * (m * (n - q) - 1_000_000 * rest) <= n - q
            &&& n == 1 ==> m == 1_000_000 * s[0]
        }),
{
    let hist = img.histogram@;
    let n = s.len() as int;
    let q = (n + 3) / 4;
    let f = |i: int| s[i] as int;
    assert forall|v: int| 0 <= v < 256 implies #[trigger] hist[v] == count_of(s, v) by {
        assert(count_of(s, v) == count_of(img.luma@, v));
    }
    counts_add_up(s, hist, 256);
    tally_all(darker(s, 256), 0, n);
    assert(hist_count(hist, 0, 0) == 0);
    start_is_least(hist, q, 0);
    let start = trunc_start(hist, q, 0);
    let (a, b) = (hist_count(hist, 0, start), hist_count(hist, 0, start + 1));
    counts_add_up(s, hist, start);
    counts_add_up(s, hist, start + 1);
    darker_stand_in_front(s, start, n);
    darker_stand_in_front(s, start + 1, n);
    assert forall|i: int| q <= i < b implies #[trigger] f(i) == start by {
        assert(s[i] < start + 1);
        assert(!(s[i] < start));
    }
    constant_sum(f, start, q, b);
    rest_of_rising(s, hist, start + 1, 256);
    split_sum(f, q, b, n);
    let rest = sum(f, q, n);
    assert(left_weight(hist, n) == rest);
    assert forall|i: int| q <= i < n implies 0 <= #[trigger] f(i) <= 255 by {}
    sum_bound(f, q, n, 255);
    if n > 1 {
        rounded_is_near(rest * 1_000_000, n - q);
        mean_bound(rest, n - q);
    } else {
        rest_of_rising(s, hist, 0, 256);
        let all = hist_weight(hist, 0, 256);
        reveal_with_fuel(sum, 3);
        assert(all == s[0]);
        rounded_is_near(all * 1_000_000, 1);
        assert(rounded(all * 1_000_000, 1) * 1 == rounded(all * 1_000_000, 1)) by (nonlinear_arith);
    }
}

/// On either side of the ideal the marks are full up to the inner limit, fall in proportion between
/// the two limits, and are gone from the outer limit on.
pub proof fn marks_fall_in_proportion(ev: int, c: ExposureCurve)
    requires
        0 <= c.ev_full_lo < c.ev_lo,
        0 <= c.ev_full_hi < c.ev_hi,
    ensures
        -c.ev_full_lo <= ev <= c.ev_full_hi ==> tone_of(ev, c) == 1_000_000,
        ev <= -c.ev_lo || ev >= c.ev_hi ==> tone_of(ev, c) == 0,
        -c.ev_lo <= ev <= -c.ev_full_lo ==> -(c.ev_lo - c.ev_full_lo) <= 2 * (tone_of(ev, c) * (
        c.ev_lo - c.ev_full_lo) - 1_000_000 * (c.ev_lo + ev)) <= c.ev_lo - c.ev_full_lo,
        c.ev_full_hi <= ev <= c.ev_hi ==> -(c.ev_hi - c.ev_full_hi) <= 2 * (tone_of(ev, c) * (
        c.ev_hi - c.ev_full_hi) - 1_000_000 * (c.ev_hi - ev)) <= c.ev_hi - c.ev_full_hi,
{
    if ev <= 0 {
        proportion(-ev - c.ev_full_lo, c.ev_lo - c.ev_full_lo);
    } else {
        proportion(ev - c.ev_full_hi, c.ev_hi - c.ev_full_hi);
    }
}

/// What is left of the marks `d` beyond the inner limit, where they are gone at `width`.
proof fn proportion(d: int, width: int)
    requires
        width > 0,
    ensures
        d >= width ==> rounded(d * 1_000_000, width) >= 1_000_000,
        0 <= d <= width ==> 0 <= rounded(d * 1_000_000, width) <= 1_000_000,
        d == 0 ==> rounded(d * 1_000_000, width) == 0,
        -width <= 2 * ((1_000_000 - rounded(d * 1_000_000, width)) * width - 1_000_000 * (width - d))
            <= width,
        1_000_000 * width == width * 1_000_000,
{
    let n = d * 1_000_000;
    let q = rounded(n, width);
    rounded_is_near(n, width);
    assert((1_000_000 - q) * width == 1_000_000 * width - q * width) by (nonlinear_arith);
    if d >= width {
        assert(q >= 1_000_000) by (nonlinear_arith)
            requires
                -width <= 2 * (q * width - n) <= width,
                n >= 1_000_000 * width,
                width > 0,
        ;
    }
    if 0 <= d <= width {
        assert(0 <= q <= 1_000_000) by (nonlinear_arith)
            requires
                -width <= 2 * (q * width - n) <= width,
                0 <= n <= 1_000_000 * width,
                width > 0,
        ;
    }
    if d == 0 {
        assert(q == 0) by (nonlinear_arith)
            requires
                -width <= 2 * (q * width - n) <= width,
                n == 0,
                width > 0,
        ;
    }
}

/// The score is a hundred times what is left of the marks: four times the share of burnt out pixels
/// and four times that of black ones are taken off, and the rest counts as far as the exposure is
/// right.
pub proof fn clipped_pixels_cost_fourfold(stats: ExposureStats, ev: int, c: ExposureCurve)
    ensures
        ({
            let left = 1_000_000 - 4 * stats.over_ratio - 4 * stats.under_ratio;
            &&& left <= 0 ==> exposure_of(stats, ev, c) == 0
            &&& left >= 0 ==> -1_000_000 <= 2 * (exposure_of(stats, ev, c) * 1_000_000 - 100 * (left
                * tone_of(ev, c))) <= 1_000_000
            &&& left >= 0 && -c.ev_full_lo <= ev <= c.ev_full_hi ==> exposure_of(stats, ev, c) == 100
                * left
        }),
{
    let left = 1_000_000 - 4 * stats.over_ratio - 4 * stats.under_ratio;
    let k = unclipped(stats);
    let t = tone_of(ev, c);
    rounded_is_near(100 * (k * t), 1_000_000);
    assert(0 * t == 0) by (nonlinear_arith);
    assert(k * 1_000_000 == 1_000_000 * k) by (nonlinear_arith);
}

/// Without a subject the picture's own brightness is judged. A subject between it and the ideal pulls
/// by its distance times the weight of the subject; a weight of nothing leaves the picture's
/// brightness, a full one takes that of the subject.
pub proof fn subject_pulls_by_its_weight(mean: int, s: i64, c: ExposureCurve)
    requires
        0 <= c.subject_blend <= 1_000_000,
        (mean <= s <= c.target) || (c.target <= s <= mean),
    ensures
        basis_of(mean, None, c) == mean,
        -1_000_000 <= 2 * (1_000_000 * (basis_of(mean, Some(s), c) - mean) - c.subject_blend * (s
            - mean)) <= 1_000_000,
        c.subject_blend == 0 ==> basis_of(mean, Some(s), c) == mean,
        c.subject_blend == 1_000_000 ==> basis_of(mean, Some(s), c) == s,
{
    let p = s - mean;
    let b = c.subject_blend as int;
    rounded_is_near(b * p, 1_000_000);
    assert(b == 0 ==> b * p == 0) by (nonlinear_arith);
    assert(b == 1_000_000 ==> b * p == 1_000_000 * p) by (nonlinear_arith);
}

/// A suggested correction undoes the error to the nearest third of a stop, or goes as far as the limit
/// allows. None is made within the tolerance, nor without a limit, nor for less than a sixth of a
/// stop; there is one for every larger error.
pub proof fn suggestion_undoes_the_error(ev: int, c: ExposureCurve)
    ensures
        c.suggest_cap <= 0 || -c.ev_full_lo <= ev <= c.ev_full_hi ==> suggestion(ev, c) is None,
        -166_666 <= ev <= 166_666 ==> suggestion(ev, c) is None,
        c.suggest_cap > 0 && !(-c.ev_full_lo <= ev <= c.ev_full_hi) && (ev <= -166_667 || ev
            >= 166_667) ==> suggestion(ev, c) is Some,
        suggestion(ev, c) is Some ==> {
            let v = suggestion(ev, c)->0;
            &&& -c.suggest_cap < v < c.suggest_cap ==> -166_668 <= v + ev <= 166_668 && -1 <= 3 * v
                - 1_000_000 * rounded(3 * v, 1_000_000) <= 1
            &&& v == c.suggest_cap ==> -ev >= c.suggest_cap - 166_668
            &&& v == -c.suggest_cap ==> ev >= c.suggest_cap - 166_668
        },
{
    let thirds = rounded(-(3 * ev), 1_000_000);
    rounded_is_near(-(3 * ev), 1_000_000);
    let r = rounded(thirds * 1_000_000, 3);
    rounded_is_near(thirds * 1_000_000, 3);
    rounded_is_near(3 * r, 1_000_000);
    assert(-1 <= 3 * r - thirds * 1_000_000 <= 1);
    assert(rounded(3 * r, 1_000_000) == thirds);
}

/// The brightness of a part of a picture is the mean of the pixels in its window, to the nearest
/// millionth.
pub proof fn region_mean_is_the_mean_of_its_pixels(luma: Seq<u8>, w: int, h: int, g: Region)
    requires
        w >= 2,
        h >= 2,
        luma.len() >= w * h,
        window_area(window_at(w, h, g)) > 0,
    ensures
        ({
            let r = window_at(w, h, g);
            let n = window_area(r);
            let s = rect_sum(
                |x: int, y: int| luma[y * w + x] as int,
                r.x0 as int,
                r.x1 + 1,
                r.y0 as int,
                r.y1 + 1,
            );
            -n <= 2 * (region_mean(luma, w, h, g) * n - 1_000_000 * s) <= n
        }),
{
    let r = window_at(w, h, g);
    let f = |x: int, y: int| luma[y * w + x] as int;
    assert(f =~= (|x: int, y: int| pixel(luma, w, x, y)));
    rounded_is_near(
        rect_sum(f, r.x0 as int, r.x1 + 1, r.y0 as int, r.y1 + 1) * 1_000_000,
        window_area(r),
    );
}

} // verus!
