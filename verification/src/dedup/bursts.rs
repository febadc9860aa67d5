//! Bursts by time, scenes by hash, poses by descriptor; ranks and choices within a unit.
use crate::config::DedupParams;
use crate::dedup::cluster::{cluster_no, earlier_clusters_do_not_fit, first_close, member_is_close_to_seed, seed_is_first_of_its_cluster, seeds_before, seeds_count};
use crate::dedup::phash::{distance, distance_zero, hamming};
use crate::dedup::pose::{is_near, near, pose_distance_symmetric, square_distance, PoseDesc};
use crate::dedup::datetime::{datetime_of, parse_datetime};
use crate::fixed::MICRO;
use crate::scan::PhotoEntry;
use crate::tally::{place, place_bound, place_count, place_increases, strict_order, tally, tally_bound, tally_strict, tally_none, tally_same, tally_split};
use vstd::prelude::*;

verus! {

/// What is known of one frame as part of a burst.
#[derive(Debug, Clone, Copy, PartialEq, Eq, Structural)]
pub struct BurstInfo {
    /// Number of the burst; zero outside bursts.
    pub group: usize,
    /// Number of frames in the unit.
    pub size: usize,
    /// Rank within the unit, 1 for the best.
    pub rank: usize,
    /// Whether the frame should stay.
    pub keep: bool,
    /// Number of the pose within its scene, from 1; zero outside bursts and where poses are off.
    pub pose_cluster: usize,
}

/// Frame `i` and the frame before it were taken at most `gap` apart.
pub open spec fn continues(times: Seq<Option<i64>>, gap: int, i: int) -> bool {
    0 < i < times.len() && times[i - 1] is Some && times[i] is Some && -gap <= (times[i]->0
        - times[i - 1]->0) * MICRO <= gap
}

/// Frame `i` has a time and starts a run of its own.
pub open spec fn starts(times: Seq<Option<i64>>, gap: int, i: int) -> bool {
    0 <= i < times.len() && times[i] is Some && !continues(times, gap, i)
}

/// The number of the run that frame `i` lies in, from 1.
pub open spec fn run_no(times: Seq<Option<i64>>, gap: int, i: int) -> nat {
    tally(|k: int| starts(times, gap, k), 0, i + 1)
}

/// Frame `i` lies in a run of two frames or more.
pub open spec fn in_burst(times: Seq<Option<i64>>, gap: int, i: int) -> bool {
    continues(times, gap, i) || continues(times, gap, i + 1)
}

/// The number of the burst that frame `i` lies in; zero outside bursts.
pub open spec fn group_of(times: Seq<Option<i64>>, gap: int, i: int) -> nat {
    if in_burst(times, gap, i) {
        run_no(times, gap, i)
    } else {
        0
    }
}

/// The first frame of the run that frame `i` lies in.
pub open spec fn run_start(times: Seq<Option<i64>>, gap: int, i: int) -> int
    decreases i,
{
    if i > 0 && continues(times, gap, i) {
        run_start(times, gap, i - 1)
    } else {
        i
    }
}

/// The frame after the last one of the run that frame `i` lies in.
pub open spec fn run_end(times: Seq<Option<i64>>, gap: int, i: int) -> int
    decreases times.len() - i,
{
    if i < times.len() && continues(times, gap, i + 1) {
        run_end(times, gap, i + 1)
    } else {
        i + 1
    }
}

/// The number of the burst of each frame; zero outside bursts.
pub fn group_by_time(times: &Vec<Option<i64>>, gap_secs: i64) -> (r: Vec<usize>)
    ensures
        r.len() == times.len(),
        forall|i: int|
            0 <= i < times.len() ==> #[trigger] r[i] == group_of(times@, gap_secs as int, i),
{
    let n: usize = times.len();
    let ghost gap = gap_secs as int;
    let ghost p = |k: int| starts(times@, gap, k);
    let mut linked: Vec<bool> = Vec::new();
    let mut i: usize = 0;
    while i < n
        invariant
            i <= n == times.len(),
            gap == gap_secs,
            linked.len() == i,
            forall|k: int| 0 <= k < i ==> #[trigger] linked[k] == continues(times@, gap, k),
        decreases n - i,
    {
        let mut link = false;
        if i > 0 {
            if let Some(t) = times[i] {
                if let Some(q) = times[i - 1] {
                    let apart: i128 = (t as i128 - q as i128) * 1_000_000;
                    link = -(gap_secs as i128) <= apart && apart <= gap_secs as i128;
                }
            }
        }
        linked.push(link);
        i += 1;
    }
    let mut groups: Vec<usize> = Vec::new();
    let mut gid: usize = 0;
    let mut j: usize = 0;
    while j < n
        invariant
            j <= n == times.len(),
            gap == gap_secs,
            p == (|k: int| starts(times@, gap, k)),
            linked.len() == n,
            forall|k: int| 0 <= k < n ==> #[trigger] linked[k] == continues(times@, gap, k),
            gid == tally(p, 0, j as int),
            gid <= j,
            groups.len() == j,
            forall|k: int| 0 <= k < j ==> #[trigger] groups[k] == group_of(times@, gap, k),
        decreases n - j,
    {
        assert(p(j as int) == starts(times@, gap, j as int));
        if times[j].is_some() && !linked[j] {
            gid += 1;
        }
        let next = j + 1 < n && linked[j + 1];
        assert(next == continues(times@, gap, j + 1));
        if linked[j] || next {
            groups.push(gid);
        } else {
            groups.push(0);
        }
        j += 1;
    }
    groups
}

/// What the choice within one burst looks at.
pub struct Frames {
    /// Hash of each frame.
    pub hashes: Seq<u64>,
    /// Score of each frame.
    pub scores: Seq<i64>,
    /// Pose descriptor of each frame, where it has one.
    pub descs: Seq<Option<PoseDesc>>,
}

/// Two frames show the same scene.
pub open spec fn same_scene(f: Frames, p: DedupParams) -> spec_fn(int, int) -> bool {
    |i: int, j: int| distance(f.hashes[i], f.hashes[j]) <= p.dhash_threshold
}

/// Every frame takes part.
pub open spec fn any_frame() -> spec_fn(int) -> bool {
    |k: int| true
}

/// The number of the scene of frame `i`, in a burst that starts at `lo`.
pub open spec fn scene_of(f: Frames, p: DedupParams, lo: int, i: int) -> int {
    cluster_no(any_frame(), same_scene(f, p), lo, i)
}

/// Two frames, each with a descriptor, show the same pose.
pub open spec fn same_pose(f: Frames, p: DedupParams) -> spec_fn(int, int) -> bool {
    |i: int, j: int| near(f.descs[i]->0@, f.descs[j]->0@, p.pose_cluster_threshold as int)
}

/// A frame of scene `c` with a descriptor.
pub open spec fn posed(f: Frames, p: DedupParams, lo: int, c: int) -> spec_fn(int) -> bool {
    |k: int| scene_of(f, p, lo, k) == c && f.descs[k] is Some
}

/// The number of the pose of frame `i` in the burst from `lo` up to `hi`; the frames of a scene
/// without a descriptor share the number after its last pose.
pub open spec fn pose_of(f: Frames, p: DedupParams, lo: int, hi: int, i: int) -> int {
    let active = posed(f, p, lo, scene_of(f, p, lo, i));
    if !p.adaptive_keep {
        0
    } else if f.descs[i] is Some {
        cluster_no(active, same_pose(f, p), lo, i)
    } else {
        seeds_before(active, same_pose(f, p), lo, hi).len() as int + 1
    }
}

/// The frames that are weighed against frame `i`: those of its scene and pose.
pub open spec fn unit_of(f: Frames, p: DedupParams, lo: int, hi: int, i: int) -> spec_fn(
    int,
) -> bool {
    |j: int|
        scene_of(f, p, lo, j) == scene_of(f, p, lo, i) && pose_of(f, p, lo, hi, j) == pose_of(
            f,
            p,
            lo,
            hi,
            i,
        )
}

/// The higher score comes first; of two equal scores the earlier frame.
pub open spec fn better(f: Frames) -> spec_fn(int, int) -> bool {
    |i: int, j: int| f.scores[i] > f.scores[j] || (f.scores[i] == f.scores[j] && i < j)
}

/// The lower score comes first; of two equal scores the earlier frame.
pub open spec fn poorer(f: Frames) -> spec_fn(int, int) -> bool {
    |i: int, j: int| f.scores[i] < f.scores[j] || (f.scores[i] == f.scores[j] && i < j)
}

/// The number of frames in the unit of frame `i`.
pub open spec fn unit_size(f: Frames, p: DedupParams, lo: int, hi: int, i: int) -> nat {
    tally(unit_of(f, p, lo, hi, i), lo, hi)
}

/// The rank of frame `i` within its unit, from 1.
pub open spec fn rank_of(f: Frames, p: DedupParams, lo: int, hi: int, i: int) -> nat {
    place(unit_of(f, p, lo, hi, i), better(f), lo, hi, i) + 1
}

/// Frame `i` is among the best of its unit.
pub open spec fn among_best(f: Frames, p: DedupParams, lo: int, hi: int) -> spec_fn(int) -> bool {
    |i: int| rank_of(f, p, lo, hi, i) <= p.keep_k
}

/// By how many frames the choice within the units goes over the limit of the burst.
pub open spec fn excess(f: Frames, p: DedupParams, lo: int, hi: int) -> int {
    let chosen = tally(among_best(f, p, lo, hi), lo, hi);
    if p.adaptive_keep && p.burst_group_cap > 0 && chosen > p.burst_group_cap {
        chosen - p.burst_group_cap
    } else {
        0
    }
}

/// Frame `i` stays: it is among the best of its unit, and not among the poorest by which the
/// burst goes over its limit.
pub open spec fn stays(f: Frames, p: DedupParams, lo: int, hi: int) -> spec_fn(int) -> bool {
    |i: int|
        among_best(f, p, lo, hi)(i) && place(among_best(f, p, lo, hi), poorer(f), lo, hi, i)
            >= excess(f, p, lo, hi)
}

/// `b` is what is to be said of frame `i` of burst `gid`, which goes from `lo` up to `hi`.
pub open spec fn describes(
    b: BurstInfo,
    f: Frames,
    p: DedupParams,
    gid: int,
    lo: int,
    hi: int,
    i: int,
) -> bool {
    &&& b.group == gid
    &&& b.size == unit_size(f, p, lo, hi, i)
    &&& b.rank == rank_of(f, p, lo, hi, i)
    &&& b.keep == stays(f, p, lo, hi)(i)
    &&& b.pose_cluster == pose_of(f, p, lo, hi, i)
}

/// Nothing to be said: the frame lies in no burst.
pub open spec fn no_burst() -> BurstInfo {
    BurstInfo { group: 0, size: 0, rank: 0, keep: false, pose_cluster: 0 }
}

/// The scene number of each frame from `lo` up to `hi`.
fn scenes(hashes: &[u64], params: &DedupParams, lo: usize, hi: usize, f: Ghost<Frames>) -> (r: Vec<usize>)
    requires
        lo <= hi <= hashes.len(),
        f@.hashes == hashes@,
    ensures
        r.len() == hi - lo,
        forall|k: int|
            lo <= k < hi ==> #[trigger] r[k - lo] == scene_of(f@, *params, lo as int, k),
        forall|k: int| 0 <= k < r.len() ==> 1 <= #[trigger] r[k] <= r.len(),
{
    let ghost close = same_scene(f@, *params);
    let mut out: Vec<usize> = Vec::new();
    let mut seeds: Vec<usize> = Vec::new();
    let mut k: usize = lo;
    while k < hi
        invariant
            lo <= k <= hi <= hashes.len(),
            f@.hashes == hashes@,
            close == same_scene(f@, *params),
            out.len() == k - lo,
            seeds.len() <= k - lo,
            forall|c: int| 0 <= c < seeds.len() ==> #[trigger] seeds[c] < k,
            seeds@.map_values(|s: usize| s as int) == seeds_before(
                any_frame(),
                close,
                lo as int,
                k as int,
            ),
            forall|m: int|
                lo <= m < k ==> #[trigger] out[m - lo] == scene_of(f@, *params, lo as int, m),
            forall|m: int| 0 <= m < out.len() ==> 1 <= #[trigger] out[m] <= m + 1,
        decreases hi - k,
    {
        let ghost s = seeds_before(any_frame(), close, lo as int, k as int);
        let mut c: usize = 0;
        while c < seeds.len() && hamming(hashes[seeds[c]], hashes[k]) > params.dhash_threshold
            invariant
                c <= seeds.len(),
                lo <= k < hi <= hashes.len(),
                f@.hashes == hashes@,
                close == same_scene(f@, *params),
                forall|c: int| 0 <= c < seeds.len() ==> #[trigger] seeds[c] < k,
                s == seeds@.map_values(|s: usize| s as int),
                first_close(s, close, k as int, 0) == first_close(s, close, k as int, c as int),
            decreases seeds.len() - c,
        {
            assert(s[c as int] == seeds[c as int]);
            c += 1;
        }
        if c < seeds.len() {
            assert(s[c as int] == seeds[c as int]);
            assert(close(s[c as int], k as int));
        }
        assert(first_close(s, close, k as int, 0) == c);
        assert(any_frame()(k as int));
        if c == seeds.len() {
            seeds.push(k);
            assert(seeds@.map_values(|s: usize| s as int) =~= s.push(k as int));
        }
        out.push(c + 1);
        k += 1;
    }
    out
}

/// The pose number of each frame from `lo` up to `hi`.
fn poses(
    descs: &[Option<PoseDesc>],
    params: &DedupParams,
    lo: usize,
    hi: usize,
    scene: &Vec<usize>,
    f: Ghost<Frames>,
) -> (r: Vec<usize>)
    requires
        lo <= hi <= descs.len(),
        f@.descs == descs@,
        params.adaptive_keep,
        scene.len() == hi - lo,
        forall|k: int|
            lo <= k < hi ==> #[trigger] scene[k - lo] == scene_of(f@, *params, lo as int, k),
        forall|k: int| 0 <= k < scene.len() ==> 1 <= #[trigger] scene[k] <= scene.len(),
    ensures
        r.len() == hi - lo,
        forall|k: int|
            lo <= k < hi ==> #[trigger] r[k - lo] == pose_of(f@, *params, lo as int, hi as int, k),
{
    let ghost close = same_pose(f@, *params);
    let n: usize = hi - lo;
    let mut out: Vec<usize> = Vec::new();
    for k in 0..n
        invariant
            out.len() == k,
    {
        out.push(0);
    }
    let mut done: usize = 0;
    while done < n
        invariant
            done <= n,
            n == hi - lo,
            lo <= hi <= descs.len(),
            f@.descs == descs@,
            params.adaptive_keep,
            close == same_pose(f@, *params),
            scene.len() == n,
            forall|k: int|
                lo <= k < hi ==> #[trigger] scene[k - lo] == scene_of(f@, *params, lo as int, k),
            out.len() == n,
            forall|k: int|
                lo <= k < hi && scene[k - lo] <= done ==> #[trigger] out[k - lo] == pose_of(
                    f@,
                    *params,
                    lo as int,
                    hi as int,
                    k,
                ),
            forall|k: int| 0 <= k < scene.len() ==> 1 <= #[trigger] scene[k] <= scene.len(),
        decreases n - done,
    {
        let c: usize = done + 1;
        let ghost active = posed(f@, *params, lo as int, c as int);
        let mut seeds: Vec<usize> = Vec::new();
        let mut k: usize = lo;
        while k < hi
            invariant
                lo <= k <= hi <= descs.len(),
                n == hi - lo,
                1 <= c <= n,
                f@.descs == descs@,
                params.adaptive_keep,
                close == same_pose(f@, *params),
                active == posed(f@, *params, lo as int, c as int),
                scene.len() == n,
                forall|k: int|
                    lo <= k < hi ==> #[trigger] scene[k - lo] == scene_of(
                        f@,
                        *params,
                        lo as int,
                        k,
                    ),
                out.len() == n,
                seeds.len() <= k - lo,
                forall|c: int|
                    0 <= c < seeds.len() ==> #[trigger] seeds[c] < k && descs[seeds[c] as int] is Some,
                seeds@.map_values(|s: usize| s as int) == seeds_before(
                    active,
                    close,
                    lo as int,
                    k as int,
                ),
                forall|k: int|
                    lo <= k < hi && scene[k - lo] < c ==> #[trigger] out[k - lo] == pose_of(
                        f@,
                        *params,
                        lo as int,
                        hi as int,
                        k,
                    ),
                forall|m: int|
                    lo <= m < k && scene[m - lo] == c && descs[m] is Some ==> #[trigger] out[m - lo]
                        == pose_of(f@, *params, lo as int, hi as int, m),
            decreases hi - k,
        {
            let ghost s = seeds_before(active, close, lo as int, k as int);
            assert(scene[k - lo] == scene_of(f@, *params, lo as int, k as int));
            assert(active(k as int) == (scene[k - lo] == c && descs[k as int] is Some));
            if scene[k - lo] == c {
                if let Some(d) = &descs[k] {
                    let mut q: usize = 0;
                    let mut found = false;
                    while q < seeds.len() && !found
                        invariant
                            q <= seeds.len(),
                            lo <= k < hi <= descs.len(),
                            f@.descs == descs@,
                            descs[k as int] == Some(*d),
                            close == same_pose(f@, *params),
                            forall|c: int|
                                0 <= c < seeds.len() ==> #[trigger] seeds[c] < k
                                    && descs[seeds[c] as int] is Some,
                            s == seeds@.map_values(|s: usize| s as int),
                            first_close(s, close, k as int, 0) == first_close(
                                s,
                                close,
                                k as int,
                                q as int,
                            ),
                            found ==> q < seeds.len() && close(s[q as int], k as int),
                        decreases seeds.len() - q + if found { 0int } else { 1int },
                    {
                        assert(s[q as int] == seeds[q as int]);
                        if let Some(e) = &descs[seeds[q]] {
                            if is_near(e, d, params.pose_cluster_threshold) {
                                found = true;
                            } else {
                                q += 1;
                            }
                        }
                    }
                    assert(first_close(s, close, k as int, 0) == q);
                    if q == seeds.len() {
                        seeds.push(k);
                        assert(seeds@.map_values(|s: usize| s as int) =~= s.push(k as int));
                    }
                    out.set(k - lo, q + 1);
                }
            }
            k += 1;
        }
        let total: usize = seeds.len();
        let mut j: usize = lo;
        while j < hi
            invariant
                lo <= j <= hi <= descs.len(),
                n == hi - lo,
                1 <= c <= n,
                f@.descs == descs@,
                params.adaptive_keep,
                close == same_pose(f@, *params),
                active == posed(f@, *params, lo as int, c as int),
                scene.len() == n,
                total <= n,
                total == seeds_before(active, close, lo as int, hi as int).len(),
                forall|k: int|
                    lo <= k < hi ==> #[trigger] scene[k - lo] == scene_of(
                        f@,
                        *params,
                        lo as int,
                        k,
                    ),
                out.len() == n,
                forall|k: int|
                    lo <= k < hi && scene[k - lo] < c ==> #[trigger] out[k - lo] == pose_of(
                        f@,
                        *params,
                        lo as int,
                        hi as int,
                        k,
                    ),
                forall|m: int|
                    lo <= m < hi && scene[m - lo] == c && (m < j || descs[m] is Some)
                        ==> #[trigger] out[m - lo] == pose_of(f@, *params, lo as int, hi as int, m),
            decreases hi - j,
        {
            assert(scene[j - lo] == scene_of(f@, *params, lo as int, j as int));
            if scene[j - lo] == c && descs[j].is_none() {
                proof {
                    seeds_count(active, close, lo as int, hi as int);
                    tally_strict(active, any_frame(), lo as int, hi as int, j as int);
                    tally_bound(any_frame(), lo as int, hi as int);
                }
                out.set(j - lo, total + 1);
            }
            j += 1;
        }
        done += 1;
    }
    assert forall|k: int| lo <= k < hi implies #[trigger] out[k - lo] == pose_of(
        f@,
        *params,
        lo as int,
        hi as int,
        k,
    ) by {
        assert(scene[k - lo] <= n);
    }
    out
}

/// Tells whether frame `i` is better placed than frame `j`.
fn is_better(scores: &[i64], i: usize, j: usize) -> (r: bool)
    requires
        i < scores.len(),
        j < scores.len(),
    ensures
        r == (scores[i as int] > scores[j as int] || (scores[i as int] == scores[j as int] && i < j)),
{
    scores[i] > scores[j] || (scores[i] == scores[j] && i < j)
}

/// What is to be said of each frame of one burst, from `lo` up to `hi`.
fn choose_in_burst(
    hashes: &[u64],
    scores: &[i64],
    descs: &[Option<PoseDesc>],
    params: &DedupParams,
    gid: usize,
    lo: usize,
    hi: usize,
) -> (r: Vec<BurstInfo>)
    requires
        lo <= hi <= hashes.len(),
        hashes.len() == scores.len() == descs.len(),
    ensures
        r.len() == hi - lo,
        forall|k: int|
            lo <= k < hi ==> #[trigger] describes(
                r[k - lo],
                Frames { hashes: hashes@, scores: scores@, descs: descs@ },
                *params,
                gid as int,
                lo as int,
                hi as int,
                k,
            ),
{
    let ghost f = Frames { hashes: hashes@, scores: scores@, descs: descs@ };
    let ghost l = lo as int;
    let ghost h = hi as int;
    let n: usize = hi - lo;
    let scene = scenes(hashes, params, lo, hi, Ghost(f));
    let pose: Vec<usize> = if params.adaptive_keep {
        poses(descs, params, lo, hi, &scene, Ghost(f))
    } else {
        let mut zeros: Vec<usize> = Vec::new();
        for k in 0..n
            invariant
                zeros.len() == k,
                forall|m: int| 0 <= m < k ==> #[trigger] zeros[m] == 0,
        {
            zeros.push(0);
        }
        zeros
    };
    assert forall|k: int| l <= k < h implies #[trigger] pose[k - l] == pose_of(f, *params, l, h, k) by {}
    // Sizes and ranks within each unit.
    let mut out: Vec<BurstInfo> = Vec::new();
    let mut chosen: usize = 0;
    let mut i: usize = lo;
    let ghost best = among_best(f, *params, l, h);
    while i < hi
        invariant
            lo <= i <= hi <= hashes.len(),
            hashes.len() == scores.len() == descs.len(),
            n == hi - lo,
            l == lo,
            h == hi,
            f == (Frames { hashes: hashes@, scores: scores@, descs: descs@ }),
            best == among_best(f, *params, l, h),
            scene.len() == n,
            pose.len() == n,
            forall|k: int| l <= k < h ==> #[trigger] scene[k - l] == scene_of(f, *params, l, k),
            forall|k: int| l <= k < h ==> #[trigger] pose[k - l] == pose_of(f, *params, l, h, k),
            out.len() == i - lo,
            chosen == tally(best, l, i as int),
            chosen <= i - lo,
            forall|k: int|
                l <= k < i ==> (#[trigger] out[k - l]).group == gid && out[k - l].size == unit_size(
                    f,
                    *params,
                    l,
                    h,
                    k,
                ) && out[k - l].rank == rank_of(f, *params, l, h, k) && out[k - l].keep == best(k)
                    && out[k - l].pose_cluster == pose_of(f, *params, l, h, k),
        decreases hi - i,
    {
        let ghost unit = unit_of(f, *params, l, h, i as int);
        let ghost ahead = |j: int| unit(j) && better(f)(j, i as int);
        let mut size: usize = 0;
        let mut first: usize = 0;
        let mut j: usize = lo;
        while j < hi
            invariant
                lo <= i < hi,
                lo <= j <= hi <= hashes.len(),
                hashes.len() == scores.len() == descs.len(),
                n == hi - lo,
                l == lo,
                h == hi,
                f == (Frames { hashes: hashes@, scores: scores@, descs: descs@ }),
                unit == unit_of(f, *params, l, h, i as int),
                ahead == (|j: int| unit(j) && better(f)(j, i as int)),
                scene.len() == n,
                pose.len() == n,
                forall|k: int| l <= k < h ==> #[trigger] scene[k - l] == scene_of(f, *params, l, k),
                forall|k: int| l <= k < h ==> #[trigger] pose[k - l] == pose_of(f, *params, l, h, k),
                size == tally(unit, l, j as int),
                first == tally(ahead, l, j as int),
                size <= j - lo,
                first + (if i < j { 1int } else { 0int }) <= j - lo,
            decreases hi - j,
        {
            assert(scene[j - l] == scene_of(f, *params, l, j as int));
            assert(scene[i - l] == scene_of(f, *params, l, i as int));
            assert(pose[j - l] == pose_of(f, *params, l, h, j as int));
            assert(pose[i - l] == pose_of(f, *params, l, h, i as int));
            assert(unit(j as int) == (scene[j - l] == scene[i - l] && pose[j - l] == pose[i - l]));
            if scene[j - lo] == scene[i - lo] && pose[j - lo] == pose[i - lo] {
                size += 1;
                if is_better(scores, j, i) {
                    first += 1;
                }
            }
            j += 1;
        }
        let rank: usize = first + 1;
        let keep = rank <= params.keep_k;
        assert(rank == rank_of(f, *params, l, h, i as int));
        assert(best(i as int) == keep);
        if keep {
            chosen += 1;
        }
        out.push(BurstInfo { group: gid, size, rank, keep, pose_cluster: pose[i - lo] });
        i += 1;
    }
    // The limit of the burst: the poorest frames over it do not stay.
    let over: usize = if params.adaptive_keep && params.burst_group_cap > 0 && chosen
        > params.burst_group_cap {
        chosen - params.burst_group_cap
    } else {
        0
    };
    assert(over == excess(f, *params, l, h));
    let mut res: Vec<BurstInfo> = Vec::new();
    let mut k: usize = lo;
    while k < hi
        invariant
            lo <= k <= hi <= hashes.len(),
            hashes.len() == scores.len() == descs.len(),
            l == lo,
            h == hi,
            f == (Frames { hashes: hashes@, scores: scores@, descs: descs@ }),
            best == among_best(f, *params, l, h),
            out.len() == hi - lo,
            over == excess(f, *params, l, h),
            forall|k: int|
                l <= k < h ==> (#[trigger] out[k - l]).group == gid && out[k - l].size == unit_size(
                    f,
                    *params,
                    l,
                    h,
                    k,
                ) && out[k - l].rank == rank_of(f, *params, l, h, k) && out[k - l].keep == best(k)
                    && out[k - l].pose_cluster == pose_of(f, *params, l, h, k),
            res.len() == k - lo,
            forall|m: int|
                l <= m < k ==> #[trigger] describes(res[m - l], f, *params, gid as int, l, h, m),
        decreases hi - k,
    {
        let ghost behind = |j: int| best(j) && poorer(f)(j, k as int);
        let mut below: usize = 0;
        let mut j: usize = lo;
        while j < hi
            invariant
                lo <= k < hi,
                lo <= j <= hi <= hashes.len(),
                hashes.len() == scores.len() == descs.len(),
                l == lo,
                h == hi,
                f == (Frames { hashes: hashes@, scores: scores@, descs: descs@ }),
                behind == (|j: int| best(j) && poorer(f)(j, k as int)),
                out.len() == hi - lo,
                forall|k: int| l <= k < h ==> (#[trigger] out[k - l]).keep == best(k),
                below == tally(behind, l, j as int),
                below <= j - lo,
            decreases hi - j,
        {
            assert(out[j - l].keep == best(j as int));
            if out[j - lo].keep && (scores[j] < scores[k] || (scores[j] == scores[k] && j < k)) {
                below += 1;
            }
            j += 1;
        }
        assert(below == place(best, poorer(f), l, h, k as int));
        let mut info = out[k - lo];
        assert(out[k - l].keep == best(k as int));
        info.keep = info.keep && below >= over;
        res.push(info);
        assert(describes(res[k - l], f, *params, gid as int, l, h, k as int));
        k += 1;
    }
    res
}

/// The capture time of a photo, where it is known.
pub open spec fn time_of(e: PhotoEntry) -> Option<i64> {
    match datetime_of(e.date_time_original@) {
        Some(t) => Some(t as i64),
        None => None,
    }
}

/// The capture time of each photo.
pub open spec fn times_of(entries: Seq<PhotoEntry>) -> Seq<Option<i64>> {
    entries.map_values(|e: PhotoEntry| time_of(e))
}

/// `b` is what is to be said of frame `i`.
pub open spec fn burst_says(
    b: BurstInfo,
    times: Seq<Option<i64>>,
    f: Frames,
    p: DedupParams,
    i: int,
) -> bool {
    let gap = p.gap_secs as int;
    if in_burst(times, gap, i) {
        describes(
            b,
            f,
            p,
            run_no(times, gap, i) as int,
            run_start(times, gap, i),
            run_end(times, gap, i),
            i,
        )
    } else {
        b == no_burst()
    }
}

/// What is to be said of frame `i`.
pub open spec fn burst_info(
    times: Seq<Option<i64>>,
    f: Frames,
    p: DedupParams,
    i: int,
) -> BurstInfo {
    let gap = p.gap_secs as int;
    let lo = run_start(times, gap, i);
    let hi = run_end(times, gap, i);
    if in_burst(times, gap, i) {
        BurstInfo {
            group: run_no(times, gap, i) as usize,
            size: unit_size(f, p, lo, hi, i) as usize,
            rank: rank_of(f, p, lo, hi, i) as usize,
            keep: stays(f, p, lo, hi)(i),
            pose_cluster: pose_of(f, p, lo, hi, i) as usize,
        }
    } else {
        no_burst()
    }
}

/// What is to be said of all frames.
pub open spec fn burst_infos(times: Seq<Option<i64>>, f: Frames, p: DedupParams) -> Seq<BurstInfo> {
    Seq::new(times.len(), |i: int| burst_info(times, f, p, i))
}

/// Frames of one run, from `lo` up to `hi`, agree on where it starts and ends.
proof fn run_bounds(times: Seq<Option<i64>>, gap: int, lo: int, hi: int)
    requires
        0 <= lo < hi <= times.len(),
        !continues(times, gap, lo),
        !continues(times, gap, hi),
        forall|k: int| lo < k < hi ==> #[trigger] continues(times, gap, k),
    ensures
        forall|k: int| lo <= k < hi ==> #[trigger] run_start(times, gap, k) == lo,
        forall|k: int| lo <= k < hi ==> #[trigger] run_end(times, gap, k) == hi,
        forall|k: int|
            lo <= k < hi ==> #[trigger] run_no(times, gap, k) == run_no(times, gap, lo),
{
    assert forall|k: int| lo <= k < hi implies #[trigger] run_start(times, gap, k) == lo by {
        start_of_run(times, gap, lo, k);
    }
    assert forall|k: int| lo <= k < hi implies #[trigger] run_end(times, gap, k) == hi by {
        end_of_run(times, gap, k, hi);
    }
    assert forall|k: int| lo <= k < hi implies #[trigger] run_no(times, gap, k) == run_no(
        times,
        gap,
        lo,
    ) by {
        let p = |k: int| starts(times, gap, k);
        tally_split(p, 0, lo + 1, k + 1);
        tally_none(p, lo + 1, k + 1);
    }
}

/// Going back from `k`, the run starts at `lo`.
proof fn start_of_run(times: Seq<Option<i64>>, gap: int, lo: int, k: int)
    requires
        0 <= lo <= k < times.len(),
        !continues(times, gap, lo),
        forall|j: int| lo < j <= k ==> #[trigger] continues(times, gap, j),
    ensures
        run_start(times, gap, k) == lo,
    decreases k - lo,
{
    if lo < k {
        start_of_run(times, gap, lo, k - 1);
    }
}

/// Going on from `k`, the run ends at `hi`.
proof fn end_of_run(times: Seq<Option<i64>>, gap: int, k: int, hi: int)
    requires
        0 <= k < hi <= times.len(),
        !continues(times, gap, hi),
        forall|j: int| k < j < hi ==> #[trigger] continues(times, gap, j),
    ensures
        run_end(times, gap, k) == hi,
    decreases hi - k,
{
    if k + 1 < hi {
        end_of_run(times, gap, k + 1, hi);
    }
}

/// A frame that starts a run has a higher run number than the frame before it.
proof fn run_no_grows(times: Seq<Option<i64>>, gap: int, i: int)
    requires
        0 < i < times.len(),
    ensures
        run_no(times, gap, i) == run_no(times, gap, i - 1) + if starts(times, gap, i) {
            1nat
        } else {
            0nat
        },
{
    let p = |k: int| starts(times, gap, k);
    assert(p(i) == starts(times, gap, i));
}

/// Finds the bursts among frames with the given times, and says of each frame which unit it belongs
/// to, what rank it has there, and whether it should stay.
pub fn find_bursts(
    times: &Vec<Option<i64>>,
    hashes: &Vec<u64>,
    scores: &Vec<i64>,
    descs: &Vec<Option<PoseDesc>>,
    params: &DedupParams,
) -> (r: Vec<BurstInfo>)
    requires
        times.len() == hashes.len(),
        times.len() == scores.len(),
        times.len() == descs.len(),
    ensures
        r@ == burst_infos(
            times@,
            Frames { hashes: hashes@, scores: scores@, descs: descs@ },
            *params,
        ),
        forall|i: int|
            0 <= i < times.len() ==> burst_says(
                #[trigger] r[i],
                times@,
                Frames { hashes: hashes@, scores: scores@, descs: descs@ },
                *params,
                i,
            ),
{
    let n: usize = times.len();
    let ghost f = Frames { hashes: hashes@, scores: scores@, descs: descs@ };
    let ghost gap = params.gap_secs as int;
    let ghost ts = times@;
    let groups = group_by_time(times, params.gap_secs);
    let mut infos: Vec<BurstInfo> = Vec::new();
    while infos.len() < n
        invariant
            n == hashes.len() == scores.len() == descs.len() == times.len(),
            f == (Frames { hashes: hashes@, scores: scores@, descs: descs@ }),
            ts == times@,
            gap == params.gap_secs,
            groups.len() == n,
            forall|i: int| 0 <= i < n ==> #[trigger] groups[i] == group_of(ts, gap, i),
            infos.len() <= n,
            !continues(ts, gap, infos.len() as int),
            forall|i: int| 0 <= i < infos.len() ==> burst_says(#[trigger] infos[i], ts, f, *params, i),
        decreases n - infos.len(),
    {
        let lo: usize = infos.len();
        assert(groups[lo as int] == group_of(ts, gap, lo as int));
        if groups[lo] == 0 {
            proof {
                if in_burst(ts, gap, lo as int) {
                    first_in_run(ts, gap, lo as int);
                }
            }
            infos.push(BurstInfo { group: 0, size: 0, rank: 0, keep: false, pose_cluster: 0 });
        } else {
            let gid: usize = groups[lo];
            let mut hi: usize = lo + 1;
            while hi < n && groups[hi] == gid
                invariant
                    n == groups.len() == ts.len(),
                    lo < hi <= n,
                    gid == group_of(ts, gap, lo as int),
                    gid > 0,
                    forall|i: int| 0 <= i < n ==> #[trigger] groups[i] == group_of(ts, gap, i),
                    !continues(ts, gap, lo as int),
                    forall|k: int| lo < k < hi ==> #[trigger] continues(ts, gap, k),
                    run_no(ts, gap, hi - 1) == gid,
                decreases n - hi,
            {
                proof {
                    assert(groups[hi as int] == group_of(ts, gap, hi as int));
                    run_no_grows(ts, gap, hi as int);
                    if !continues(ts, gap, hi as int) {
                        assert(in_burst(ts, gap, hi as int));
                        assert(starts(ts, gap, hi as int));
                    }
                }
                hi += 1;
            }
            proof {
                if continues(ts, gap, hi as int) {
                    run_no_grows(ts, gap, hi as int);
                    assert(groups[hi as int] == group_of(ts, gap, hi as int));
                }
                run_bounds(ts, gap, lo as int, hi as int);
            }
            let mut part = choose_in_burst(
                hashes.as_slice(),
                scores.as_slice(),
                descs.as_slice(),
                params,
                gid,
                lo,
                hi,
            );
            let ghost said = part@;
            let ghost before = infos@;
            infos.append(&mut part);
            assert forall|i: int| 0 <= i < infos.len() implies burst_says(
                #[trigger] infos[i],
                ts,
                f,
                *params,
                i,
            ) by {
                if i < lo {
                    assert(infos[i] == before[i]);
                } else {
                    assert(infos[i] == said[i - lo]);
                    assert(describes(
                        said[i - lo],
                        f,
                        *params,
                        gid as int,
                        lo as int,
                        hi as int,
                        i,
                    ));
                    assert(run_start(ts, gap, i) == lo);
                    assert(run_end(ts, gap, i) == hi);
                    assert(run_no(ts, gap, i) == gid);
                    assert(in_burst(ts, gap, i)) by {
                        if i == lo {
                            assert(in_burst(ts, gap, lo as int));
                        } else {
                            assert(continues(ts, gap, i));
                        }
                    }
                }
            }
        }
    }
    assert forall|i: int| 0 <= i < n implies #[trigger] infos[i] == burst_info(ts, f, *params, i) by {
        assert(burst_says(infos[i], ts, f, *params, i));
    }
    assert(infos@ =~= burst_infos(ts, f, *params));
    infos
}

/// Finds the bursts among the photos, and says of each frame which unit it belongs to, what rank
/// it has there, and whether it should stay.
pub fn analyze_bursts(
    entries: &Vec<PhotoEntry>,
    hashes: &Vec<u64>,
    scores: &Vec<i64>,
    descs: &Vec<Option<PoseDesc>>,
    params: &DedupParams,
) -> (r: Vec<BurstInfo>)
    requires
        entries.len() == hashes.len(),
        entries.len() == scores.len(),
        entries.len() == descs.len(),
    ensures
        r.len() == entries.len(),
        forall|i: int|
            0 <= i < entries.len() ==> burst_says(
                #[trigger] r[i],
                times_of(entries@),
                Frames { hashes: hashes@, scores: scores@, descs: descs@ },
                *params,
                i,
            ),
{
    let n: usize = entries.len();
    let mut times: Vec<Option<i64>> = Vec::new();
    let mut t: usize = 0;
    while t < n
        invariant
            t <= n == entries.len(),
            times.len() == t,
            forall|k: int| 0 <= k < t ==> #[trigger] times[k] == times_of(entries@)[k],
        decreases n - t,
    {
        times.push(parse_datetime(entries[t].date_time_original.as_str()));
        t += 1;
    }
    assert(times@ =~= times_of(entries@));
    find_bursts(&times, hashes, scores, descs, params)
}

/// A frame in a burst has a run number of at least 1.
proof fn first_in_run(times: Seq<Option<i64>>, gap: int, i: int)
    requires
        0 <= i < times.len(),
        in_burst(times, gap, i),
    ensures
        run_no(times, gap, i) >= 1,
    decreases i,
{
    if continues(times, gap, i) {
        run_no_grows(times, gap, i);
        assert(in_burst(times, gap, i - 1));
        first_in_run(times, gap, i - 1);
    } else {
        assert(starts(times, gap, i));
        let p = |k: int| starts(times, gap, k);
        assert(p(i));
    }
}

/// Better and poorer are strict orders on the frames.
proof fn orders(f: Frames)
    ensures
        strict_order(better(f)),
        strict_order(poorer(f)),
{
}

/// Two frames lie in one burst exactly where every frame from one to the other follows the frame
/// before it within the pause.
pub proof fn one_burst_has_no_long_pause(times: Seq<Option<i64>>, gap: int, i: int, j: int)
    requires
        0 <= i < j < times.len(),
        group_of(times, gap, i) > 0,
    ensures
        group_of(times, gap, j) == group_of(times, gap, i) <==> forall|k: int|
            i < k <= j ==> #[trigger] continues(times, gap, k),
{
    let p = |k: int| starts(times, gap, k);
    tally_split(p, 0, i + 1, j + 1);
    if forall|k: int| i < k <= j ==> #[trigger] continues(times, gap, k) {
        tally_none(p, i + 1, j + 1);
        assert(continues(times, gap, j));
    } else if group_of(times, gap, j) == group_of(times, gap, i) {
        let k = choose|k: int| i < k <= j && !#[trigger] continues(times, gap, k);
        no_start_no_break(times, gap, i, j, k);
    }
}

/// Where no frame after `i` starts a run and frame `j` lies in a burst, the frames up to `j`
/// continue the run of `i`.
proof fn no_start_no_break(times: Seq<Option<i64>>, gap: int, i: int, j: int, k: int)
    requires
        0 <= i < k <= j < times.len(),
        in_burst(times, gap, j),
        tally(|k: int| starts(times, gap, k), i + 1, j + 1) == 0,
    ensures
        continues(times, gap, k),
    decreases j - k,
{
    let p = |k: int| starts(times, gap, k);
    if p(k) {
        tally_none(|m: int| false, i + 1, j + 1);
        tally_strict(|m: int| false, p, i + 1, j + 1, k);
    }
    if k < j {
        no_start_no_break(times, gap, i, j, k + 1);
    }
    assert(times[k] is Some);
}

/// The ranks in a unit of `size` frames run from 1 to `size`.
pub proof fn ranks_lie_in_unit(f: Frames, p: DedupParams, lo: int, hi: int, i: int)
    requires
        lo <= i < hi,
    ensures
        1 <= rank_of(f, p, lo, hi, i) <= unit_size(f, p, lo, hi, i),
{
    orders(f);
    place_bound(unit_of(f, p, lo, hi, i), better(f), lo, hi, i);
}

/// Of two frames of a unit the one with the higher score has the lower rank, of equal scores the
/// earlier one, and no two frames of a unit share a rank.
pub proof fn higher_score_ranks_first(f: Frames, p: DedupParams, lo: int, hi: int, i: int, j: int)
    requires
        lo <= i < hi,
        lo <= j < hi,
        i != j,
        unit_of(f, p, lo, hi, i)(j),
    ensures
        f.scores[i] > f.scores[j] ==> rank_of(f, p, lo, hi, i) < rank_of(f, p, lo, hi, j),
        f.scores[i] == f.scores[j] && i < j ==> rank_of(f, p, lo, hi, i) < rank_of(f, p, lo, hi, j),
        rank_of(f, p, lo, hi, i) != rank_of(f, p, lo, hi, j),
{
    orders(f);
    let u = unit_of(f, p, lo, hi, i);
    let v = unit_of(f, p, lo, hi, j);
    tally_same(|k: int| u(k) && better(f)(k, j), |k: int| v(k) && better(f)(k, j), lo, hi);
    assert(place(u, better(f), lo, hi, j) == place(v, better(f), lo, hi, j));
    if better(f)(i, j) {
        place_increases(u, better(f), lo, hi, i, j);
    } else {
        place_increases(u, better(f), lo, hi, j, i);
    }
}

/// Every unit of a burst keeps `keep_k` frames, or all where it has fewer, before the limit of the
/// burst is applied.
pub proof fn each_unit_keeps_its_best(f: Frames, p: DedupParams, lo: int, hi: int, i: int)
    requires
        lo <= i < hi,
    ensures
        ({
            let size = unit_size(f, p, lo, hi, i) as int;
            let kept = tally(
                |j: int| unit_of(f, p, lo, hi, i)(j) && among_best(f, p, lo, hi)(j),
                lo,
                hi,
            );
            kept == if size < p.keep_k { size } else { p.keep_k as int }
        }),
{
    orders(f);
    let u = unit_of(f, p, lo, hi, i);
    let size = unit_size(f, p, lo, hi, i) as int;
    let e = if size < p.keep_k { size } else { p.keep_k as int };
    place_count(u, better(f), lo, hi, e);
    let a = |j: int| u(j) && place(u, better(f), lo, hi, j) < e;
    let b = |j: int| u(j) && among_best(f, p, lo, hi)(j);
    assert forall|j: int| lo <= j < hi implies #[trigger] a(j) == b(j) by {
        if u(j) {
            let v = unit_of(f, p, lo, hi, j);
            tally_same(|k: int| u(k) && better(f)(k, j), |k: int| v(k) && better(f)(k, j), lo, hi);
            place_bound(u, better(f), lo, hi, j);
        }
    }
    tally_same(a, b, lo, hi);
}

/// With a limit, a burst never keeps more frames than the limit; it keeps all that were chosen
/// where they are no more, and exactly the limit where they are more.
pub proof fn limit_holds(f: Frames, p: DedupParams, lo: int, hi: int)
    requires
        lo <= hi,
        p.adaptive_keep,
        p.burst_group_cap > 0,
    ensures
        ({
            let chosen = tally(among_best(f, p, lo, hi), lo, hi) as int;
            tally(stays(f, p, lo, hi), lo, hi) == if chosen <= p.burst_group_cap {
                chosen
            } else {
                p.burst_group_cap as int
            }
        }),
{
    orders(f);
    let best = among_best(f, p, lo, hi);
    let e = excess(f, p, lo, hi);
    place_count(best, poorer(f), lo, hi, e);
    tally_same(
        |i: int| best(i) && place(best, poorer(f), lo, hi, i) >= e,
        stays(f, p, lo, hi),
        lo,
        hi,
    );
}

/// Without a limit, what stays is what was chosen within the units.
pub proof fn no_limit_keeps_all_chosen(f: Frames, p: DedupParams, lo: int, hi: int, i: int)
    requires
        !p.adaptive_keep || p.burst_group_cap == 0,
    ensures
        stays(f, p, lo, hi)(i) == (rank_of(f, p, lo, hi, i) <= p.keep_k),
{
}

/// The limit drops low scores only: a chosen frame that does not stay scores no higher than any
/// frame that stays.
pub proof fn limit_drops_the_poorest(f: Frames, p: DedupParams, lo: int, hi: int, i: int, j: int)
    requires
        lo <= i < hi,
        lo <= j < hi,
        among_best(f, p, lo, hi)(i),
        !stays(f, p, lo, hi)(i),
        stays(f, p, lo, hi)(j),
    ensures
        f.scores[i] <= f.scores[j],
{
    orders(f);
    if f.scores[i] > f.scores[j] {
        place_increases(among_best(f, p, lo, hi), poorer(f), lo, hi, j, i);
    }
}

/// Where no frame has a descriptor, splitting by pose changes neither the units nor the ranks.
pub proof fn without_descriptors_poses_change_nothing(
    f: Frames,
    p: DedupParams,
    q: DedupParams,
    lo: int,
    hi: int,
    i: int,
)
    requires
        lo <= i < hi,
        forall|k: int| lo <= k < hi ==> (#[trigger] f.descs[k]) is None,
        p.adaptive_keep,
        q == (DedupParams { adaptive_keep: false, ..p }),
    ensures
        unit_size(f, p, lo, hi, i) == unit_size(f, q, lo, hi, i),
        rank_of(f, p, lo, hi, i) == rank_of(f, q, lo, hi, i),
        among_best(f, p, lo, hi)(i) == among_best(f, q, lo, hi)(i),
        pose_of(f, p, lo, hi, i) == 1,
        pose_of(f, q, lo, hi, i) == 0,
{
    assert(same_scene(f, p) =~= same_scene(f, q));
    assert forall|k: int| lo <= k < hi implies #[trigger] pose_of(f, p, lo, hi, k) == 1 by {
        let active = posed(f, p, lo, scene_of(f, p, lo, k));
        seeds_count(active, same_pose(f, p), lo, hi);
        tally_none(active, lo, hi);
    }
    let u = unit_of(f, p, lo, hi, i);
    let v = unit_of(f, q, lo, hi, i);
    assert forall|k: int| lo <= k < hi implies #[trigger] u(k) == v(k) by {
        assert(pose_of(f, p, lo, hi, k) == 1);
        assert(pose_of(f, p, lo, hi, i) == 1);
    }
    tally_same(u, v, lo, hi);
    tally_same(|k: int| u(k) && better(f)(k, i), |k: int| v(k) && better(f)(k, i), lo, hi);
}

/// Two frames have a capture time, and the times lie at most `gap` millionths of a second apart.
pub open spec fn taken_within(times: Seq<Option<i64>>, gap: int, a: int, b: int) -> bool {
    times[a] is Some && times[b] is Some && -gap <= (times[a]->0 - times[b]->0) * 1_000_000 <= gap
}

/// Where the run of a frame starts and ends.
proof fn run_limits(times: Seq<Option<i64>>, gap: int, i: int)
    requires
        0 <= i < times.len(),
    ensures
        0 <= run_start(times, gap, i) <= i < run_end(times, gap, i) <= times.len(),
        !continues(times, gap, run_start(times, gap, i)),
        !continues(times, gap, run_end(times, gap, i)),
        forall|k: int|
            run_start(times, gap, i) < k < run_end(times, gap, i) ==> #[trigger] continues(
                times,
                gap,
                k,
            ),
{
    back_to_start(times, gap, i);
    on_to_end(times, gap, i);
}

/// Going back from a frame.
proof fn back_to_start(times: Seq<Option<i64>>, gap: int, i: int)
    requires
        0 <= i < times.len(),
    ensures
        0 <= run_start(times, gap, i) <= i,
        !continues(times, gap, run_start(times, gap, i)),
        forall|k: int| run_start(times, gap, i) < k <= i ==> #[trigger] continues(times, gap, k),
    decreases i,
{
    if i > 0 && continues(times, gap, i) {
        back_to_start(times, gap, i - 1);
    }
}

/// Going on from a frame.
proof fn on_to_end(times: Seq<Option<i64>>, gap: int, i: int)
    requires
        0 <= i < times.len(),
    ensures
        i < run_end(times, gap, i) <= times.len(),
        !continues(times, gap, run_end(times, gap, i)),
        forall|k: int| i < k < run_end(times, gap, i) ==> #[trigger] continues(times, gap, k),
    decreases times.len() - i,
{
    if continues(times, gap, i + 1) {
        on_to_end(times, gap, i + 1);
    }
}

/// Bursts follow the clock: a frame lies in a burst exactly where a neighbour was taken within the
/// pause; two frames lie in one burst exactly where no two neighbours from one to the other are
/// further apart; later bursts have higher numbers; and nothing is said of frames outside bursts.
pub proof fn bursts_follow_the_clock(times: Seq<Option<i64>>, f: Frames, p: DedupParams, i: int, j: int)
    requires
        times.len() <= usize::MAX,
        0 <= i < j < times.len(),
    ensures
        ({
            let r = burst_infos(times, f, p);
            let gap = p.gap_secs as int;
            let n = times.len() as int;
            &&& r.len() == n
            &&& r[i].group > 0 <==> (i > 0 && taken_within(times, gap, i - 1, i)) || (i + 1 < n
                && taken_within(times, gap, i, i + 1))
            &&& r[j].group > 0 <==> (j > 0 && taken_within(times, gap, j - 1, j)) || (j + 1 < n
                && taken_within(times, gap, j, j + 1))
            &&& r[i].group > 0 && r[j].group > 0 ==> (r[i].group == r[j].group <==> forall|k: int|
                i < k <= j ==> #[trigger] taken_within(times, gap, k - 1, k))
            &&& r[i].group > 0 && r[j].group > 0 ==> r[i].group <= r[j].group
            &&& r[i].group == 0 ==> r[i].size == 0 && r[i].rank == 0 && !r[i].keep
                && r[i].pose_cluster == 0
        }),
{
    let gap = p.gap_secs as int;
    let n = times.len() as int;
    let q = |k: int| starts(times, gap, k);
    assert forall|k: int| 0 < k < n implies #[trigger] continues(times, gap, k) == taken_within(
        times,
        gap,
        k - 1,
        k,
    ) by {}
    tally_bound(q, 0, i + 1);
    tally_bound(q, 0, j + 1);
    tally_split(q, 0, i + 1, j + 1);
    if in_burst(times, gap, i) {
        first_in_run(times, gap, i);
    }
    if in_burst(times, gap, j) {
        first_in_run(times, gap, j);
    }
    if in_burst(times, gap, i) && in_burst(times, gap, j) {
        one_burst_has_no_long_pause(times, gap, i, j);
        if forall|k: int| i < k <= j ==> #[trigger] taken_within(times, gap, k - 1, k) {
            assert forall|k: int| i < k <= j implies #[trigger] continues(times, gap, k) by {
                assert(taken_within(times, gap, k - 1, k));
            }
        }
        if forall|k: int| i < k <= j ==> #[trigger] continues(times, gap, k) {
            assert forall|k: int| i < k <= j implies #[trigger] taken_within(times, gap, k - 1, k) by {
                assert(continues(times, gap, k));
            }
        }
    }
}

/// The frames from `lo` up to `hi`, and no others, are said to lie in one burst with frame `i`.
pub open spec fn is_burst(r: Seq<BurstInfo>, lo: int, hi: int, i: int) -> bool {
    &&& 0 <= lo <= i < hi <= r.len()
    &&& r[i].group > 0
    &&& forall|k: int|
        0 <= k < r.len() ==> ((#[trigger] r[k]).group == r[i].group <==> lo <= k < hi)
}

/// What is said of a burst is said of the frames of one run.
proof fn burst_is_run(
    times: Seq<Option<i64>>,
    f: Frames,
    p: DedupParams,
    lo: int,
    hi: int,
    i: int,
    k: int,
)
    requires
        times.len() <= usize::MAX,
        is_burst(burst_infos(times, f, p), lo, hi, i),
        lo <= k < hi,
    ensures
        ({
            let gap = p.gap_secs as int;
            &&& in_burst(times, gap, k)
            &&& run_start(times, gap, k) == lo
            &&& run_end(times, gap, k) == hi
        }),
{
    let gap = p.gap_secs as int;
    let r = burst_infos(times, f, p);
    let q = |k: int| starts(times, gap, k);
    assert(r[k].group == r[i].group);
    assert(in_burst(times, gap, i));
    assert(in_burst(times, gap, k));
    run_limits(times, gap, i);
    let (a, b) = (run_start(times, gap, i), run_end(times, gap, i));
    run_bounds(times, gap, a, b);
    tally_bound(q, 0, i + 1);
    first_in_run(times, gap, i);
    assert forall|m: int| 0 <= m < times.len() implies (r[m].group == r[i].group <==> a <= m < b) by {
        tally_bound(q, 0, m + 1);
        if a <= m < b {
            assert(run_no(times, gap, m) == run_no(times, gap, a));
            assert(run_no(times, gap, i) == run_no(times, gap, a));
            assert(in_burst(times, gap, m)) by {
                if m > a {
                    assert(continues(times, gap, m));
                } else if m + 1 < b {
                    assert(continues(times, gap, m + 1));
                }
            }
        } else if r[m].group == r[i].group {
            assert(in_burst(times, gap, m));
            if m < i {
                one_burst_has_no_long_pause(times, gap, m, i);
                assert(continues(times, gap, a));
            } else {
                one_burst_has_no_long_pause(times, gap, i, m);
                assert(continues(times, gap, b));
            }
        }
    }
    assert(r[lo].group == r[i].group);
    assert(r[hi - 1].group == r[i].group);
    assert(r[a].group == r[i].group);
    assert(r[b - 1].group == r[i].group);
    assert(a == lo && b == hi);
    assert(run_start(times, gap, k) == a);
    assert(run_end(times, gap, k) == b);
}

/// The numbers said of a frame are small enough for their type.
proof fn numbers_fit(f: Frames, p: DedupParams, lo: int, hi: int, i: int)
    requires
        0 <= lo <= i < hi <= usize::MAX,
    ensures
        unit_size(f, p, lo, hi, i) <= hi - lo,
        1 <= rank_of(f, p, lo, hi, i) <= unit_size(f, p, lo, hi, i),
        0 <= pose_of(f, p, lo, hi, i) <= hi - lo,
        p.adaptive_keep ==> pose_of(f, p, lo, hi, i) >= 1,
        !p.adaptive_keep ==> pose_of(f, p, lo, hi, i) == 0,
{
    tally_bound(unit_of(f, p, lo, hi, i), lo, hi);
    ranks_lie_in_unit(f, p, lo, hi, i);
    if p.adaptive_keep {
        let active = posed(f, p, lo, scene_of(f, p, lo, i));
        let close = same_pose(f, p);
        seeds_count(active, close, lo, hi);
        if f.descs[i] is Some {
            tally_bound(active, lo, hi);
            member_is_close_to_seed(active, close, lo, hi, i);
        } else {
            tally_strict(active, any_frame(), lo, hi, i);
            tally_bound(any_frame(), lo, hi);
        }
    }
}

/// What is said of a frame in a burst, in numbers.
proof fn said_of_member(
    times: Seq<Option<i64>>,
    f: Frames,
    p: DedupParams,
    lo: int,
    hi: int,
    i: int,
    k: int,
)
    requires
        times.len() <= usize::MAX,
        is_burst(burst_infos(times, f, p), lo, hi, i),
        lo <= k < hi,
    ensures
        ({
            let b = burst_infos(times, f, p)[k];
            &&& b.size == unit_size(f, p, lo, hi, k)
            &&& b.rank == rank_of(f, p, lo, hi, k)
            &&& b.keep == stays(f, p, lo, hi)(k)
            &&& b.pose_cluster == pose_of(f, p, lo, hi, k)
        }),
{
    burst_is_run(times, f, p, lo, hi, i, k);
    numbers_fit(f, p, lo, hi, k);
}

/// Frames of a burst that show the same scene and pose are weighed against each other: each of them
/// is told how many they are; the higher score, and of equal scores the earlier frame, has the lower
/// rank; and ranks go from 1 to their number.
pub proof fn units_are_ranked_by_score(
    times: Seq<Option<i64>>,
    f: Frames,
    p: DedupParams,
    lo: int,
    hi: int,
    i: int,
    j: int,
)
    requires
        times.len() <= usize::MAX,
        is_burst(burst_infos(times, f, p), lo, hi, i),
        lo <= j < hi,
    ensures
        ({
            let r = burst_infos(times, f, p);
            let unit = |k: int|
                scene_of(f, p, lo, k) == scene_of(f, p, lo, i) && r[k].pose_cluster
                    == r[i].pose_cluster;
            &&& r[i].size == tally(unit, lo, hi)
            &&& 1 <= r[i].rank <= r[i].size
            &&& unit(j) ==> r[j].size == r[i].size
            &&& unit(j) && (f.scores[i] > f.scores[j] || (f.scores[i] == f.scores[j] && i < j))
                ==> r[i].rank < r[j].rank
        }),
{
    let r = burst_infos(times, f, p);
    let unit = |k: int|
        scene_of(f, p, lo, k) == scene_of(f, p, lo, i) && r[k].pose_cluster == r[i].pose_cluster;
    said_of_member(times, f, p, lo, hi, i, i);
    said_of_member(times, f, p, lo, hi, i, j);
    numbers_fit(f, p, lo, hi, i);
    assert forall|k: int| lo <= k < hi implies #[trigger] unit_of(f, p, lo, hi, i)(k) == unit(k) by {
        said_of_member(times, f, p, lo, hi, i, k);
    }
    tally_same(unit_of(f, p, lo, hi, i), unit, lo, hi);
    if unit(j) {
        assert(unit_of(f, p, lo, hi, i)(j) == unit(j));
        tally_same(unit_of(f, p, lo, hi, i), unit_of(f, p, lo, hi, j), lo, hi);
        if i != j {
            higher_score_ranks_first(f, p, lo, hi, i, j);
        }
    }
}

/// Which frames of a burst stay: without a limit those of rank `keep_k` or better; with one, so many
/// of them as the limit allows, and none that scores less than one that is dropped.
pub proof fn the_best_frames_stay(
    times: Seq<Option<i64>>,
    f: Frames,
    p: DedupParams,
    lo: int,
    hi: int,
    i: int,
    j: int,
)
    requires
        times.len() <= usize::MAX,
        is_burst(burst_infos(times, f, p), lo, hi, i),
        lo <= j < hi,
    ensures
        ({
            let r = burst_infos(times, f, p);
            let good = |k: int| r[k].rank <= p.keep_k;
            let kept = |k: int| r[k].keep;
            let chosen = tally(good, lo, hi) as int;
            &&& kept(i) ==> good(i)
            &&& !p.adaptive_keep || p.burst_group_cap == 0 ==> kept(i) == good(i)
            &&& p.adaptive_keep && p.burst_group_cap > 0 ==> tally(kept, lo, hi) == if chosen
                <= p.burst_group_cap {
                chosen
            } else {
                p.burst_group_cap as int
            }
            &&& good(i) && !kept(i) && kept(j) ==> f.scores[i] <= f.scores[j]
        }),
{
    let r = burst_infos(times, f, p);
    let good = |k: int| r[k].rank <= p.keep_k;
    let kept = |k: int| r[k].keep;
    assert forall|k: int| lo <= k < hi implies #[trigger] good(k) == among_best(f, p, lo, hi)(k)
        && kept(k) == stays(f, p, lo, hi)(k) by {
        said_of_member(times, f, p, lo, hi, i, k);
    }
    assert(good(i) == among_best(f, p, lo, hi)(i));
    assert(good(j) == among_best(f, p, lo, hi)(j));
    tally_same(good, among_best(f, p, lo, hi), lo, hi);
    assert forall|k: int| lo <= k < hi implies #[trigger] kept(k) == stays(f, p, lo, hi)(k) by {
        assert(good(k) == among_best(f, p, lo, hi)(k));
    }
    tally_same(kept, stays(f, p, lo, hi), lo, hi);
    if p.adaptive_keep && p.burst_group_cap > 0 {
        limit_holds(f, p, lo, hi);
    } else {
        no_limit_keeps_all_chosen(f, p, lo, hi, i);
    }
    if good(i) && !kept(i) && kept(j) {
        limit_drops_the_poorest(f, p, lo, hi, i, j);
    }
}

/// Frame `s` is the first of its scene in a burst that starts at `lo`.
pub open spec fn first_of_scene(f: Frames, p: DedupParams, lo: int, s: int) -> bool {
    lo <= s && forall|m: int|
        lo <= m < s ==> #[trigger] scene_of(f, p, lo, m) != scene_of(f, p, lo, s)
}

/// Frames of one scene gather around its first frame: the hash of that frame differs from the hash
/// of each of them in at most as many bits as the settings allow. So the first and the last frame of
/// a burst that drifts are not taken for one.
pub proof fn scenes_gather_around_their_first_frame(
    f: Frames,
    p: DedupParams,
    lo: int,
    hi: int,
    i: int,
    j: int,
)
    requires
        lo <= i < hi,
        lo <= j < hi,
        scene_of(f, p, lo, i) == scene_of(f, p, lo, j),
    ensures
        scene_of(f, p, lo, i) >= 1,
        exists|s: int|
            #![trigger first_of_scene(f, p, lo, s)]
            s <= i && s <= j && first_of_scene(f, p, lo, s) && scene_of(f, p, lo, s) == scene_of(
                f,
                p,
                lo,
                i,
            ) && distance(f.hashes[s], f.hashes[i]) <= p.dhash_threshold && distance(
                f.hashes[s],
                f.hashes[j],
            ) <= p.dhash_threshold,
{
    let close = same_scene(f, p);
    let any = any_frame();
    assert(any(i) && any(j));
    seed_is_first_of_its_cluster(any, close, lo, hi, i);
    seed_is_first_of_its_cluster(any, close, lo, hi, j);
    member_is_close_to_seed(any, close, lo, hi, i);
    member_is_close_to_seed(any, close, lo, hi, j);
    let s = seeds_before(any, close, lo, hi)[scene_of(f, p, lo, i) - 1];
    distance_zero(f.hashes[s], f.hashes[s]);
    assert forall|m: int| lo <= m < s implies #[trigger] scene_of(f, p, lo, m) != scene_of(
        f,
        p,
        lo,
        s,
    ) by {
        assert(any(m));
        assert(cluster_no(any, close, lo, m) < scene_of(f, p, lo, i));
    }
    assert(first_of_scene(f, p, lo, s));
}

/// A frame joins the first scene that it fits: its hash differs from that of the first frame of every
/// scene with a lower number in more bits than the settings allow. So the first frames of two
/// scenes always do.
pub proof fn scenes_are_apart(f: Frames, p: DedupParams, lo: int, s: int, i: int)
    requires
        lo <= s,
        lo <= i,
        first_of_scene(f, p, lo, s),
        scene_of(f, p, lo, s) < scene_of(f, p, lo, i),
    ensures
        distance(f.hashes[s], f.hashes[i]) > p.dhash_threshold,
{
    let close = same_scene(f, p);
    let any = any_frame();
    let hi = if i < s { s + 1 } else { i + 1 };
    assert(any(i) && any(s));
    seed_is_first_of_its_cluster(any, close, lo, hi, s);
    let c = scene_of(f, p, lo, s);
    let seed = seeds_before(any, close, lo, hi)[c - 1];
    if seed < s {
        assert(scene_of(f, p, lo, seed) != c);
    }
    assert(seed == s);
    earlier_clusters_do_not_fit(any, close, lo, hi, i, c);
}

/// Frame `s` is the first of its scene with a descriptor and with its pose.
pub open spec fn first_of_pose(r: Seq<BurstInfo>, f: Frames, p: DedupParams, lo: int, s: int) -> bool {
    &&& lo <= s
    &&& f.descs[s] is Some
    &&& forall|m: int|
        #![trigger f.descs[m]]
        lo <= m < s && f.descs[m] is Some && scene_of(f, p, lo, m) == scene_of(f, p, lo, s)
            ==> r[m].pose_cluster != r[s].pose_cluster
}

/// Frames of one scene with the same pose gather around the first of them: the distance of its
/// descriptor from that of each of them is at most the threshold. The frames without a descriptor
/// share a number of their own behind all poses of their scene.
pub proof fn poses_gather_around_their_first_frame(
    times: Seq<Option<i64>>,
    f: Frames,
    p: DedupParams,
    lo: int,
    hi: int,
    i: int,
    j: int,
)
    requires
        times.len() <= usize::MAX,
        p.adaptive_keep,
        p.pose_cluster_threshold >= 0,
        is_burst(burst_infos(times, f, p), lo, hi, i),
        lo <= j < hi,
        scene_of(f, p, lo, i) == scene_of(f, p, lo, j),
    ensures
        ({
            let r = burst_infos(times, f, p);
            let t = p.pose_cluster_threshold as int;
            &&& r[i].pose_cluster >= 1
            &&& f.descs[i] is Some && f.descs[j] is Some && r[i].pose_cluster == r[j].pose_cluster
                ==> exists|s: int|
                #![trigger first_of_pose(r, f, p, lo, s)]
                s <= i && s <= j && first_of_pose(r, f, p, lo, s) && scene_of(f, p, lo, s)
                    == scene_of(f, p, lo, i) && r[s].pose_cluster == r[i].pose_cluster
                    && square_distance(f.descs[s]->0@, f.descs[i]->0@) <= t * t && square_distance(
                    f.descs[s]->0@,
                    f.descs[j]->0@,
                ) <= t * t
            &&& f.descs[i] is None && f.descs[j] is None ==> r[i].pose_cluster == r[j].pose_cluster
            &&& f.descs[i] is None && f.descs[j] is Some ==> r[i].pose_cluster > r[j].pose_cluster
            &&& f.descs[i] is Some && first_of_pose(r, f, p, lo, j) && r[j].pose_cluster
                < r[i].pose_cluster ==> square_distance(f.descs[j]->0@, f.descs[i]->0@) > t * t
        }),
{
    let r = burst_infos(times, f, p);
    let t = p.pose_cluster_threshold as int;
    let close = same_pose(f, p);
    let active = posed(f, p, lo, scene_of(f, p, lo, i));
    said_of_member(times, f, p, lo, hi, i, i);
    said_of_member(times, f, p, lo, hi, i, j);
    numbers_fit(f, p, lo, hi, i);
    assert(t * t >= 0) by (nonlinear_arith);
    if f.descs[j] is Some {
        assert(active(j));
        seed_is_first_of_its_cluster(active, close, lo, hi, j);
        member_is_close_to_seed(active, close, lo, hi, j);
    }
    if f.descs[i] is Some {
        assert(active(i));
        seed_is_first_of_its_cluster(active, close, lo, hi, i);
        member_is_close_to_seed(active, close, lo, hi, i);
    }
    if f.descs[i] is Some && f.descs[j] is Some {
        let all = seeds_before(active, close, lo, hi);
        if r[i].pose_cluster == r[j].pose_cluster {
            let s = all[r[i].pose_cluster - 1];
            said_of_member(times, f, p, lo, hi, i, s);
            pose_distance_symmetric(f.descs[s]->0@, f.descs[s]->0@);
            assert forall|m: int|
                #![trigger f.descs[m]]
                lo <= m < s && f.descs[m] is Some && scene_of(f, p, lo, m) == scene_of(f, p, lo, s)
                implies r[m].pose_cluster != r[s].pose_cluster by {
                said_of_member(times, f, p, lo, hi, i, m);
                assert(active(m));
                assert(cluster_no(active, close, lo, m) < r[i].pose_cluster);
            }
            assert(first_of_pose(r, f, p, lo, s));
        }
        if first_of_pose(r, f, p, lo, j) && r[j].pose_cluster < r[i].pose_cluster {
            let s = all[r[j].pose_cluster - 1];
            said_of_member(times, f, p, lo, hi, i, s);
            if s < j {
                assert(f.descs[s] is Some);
            }
            assert(s == j);
            earlier_clusters_do_not_fit(active, close, lo, hi, i, r[j].pose_cluster as int);
        }
    }
}

/// Bursts are numbered by their place in time: the number of a burst is that of the frames, up to it and
/// itself included, that have a time and do not follow the frame before them within the pause.
pub proof fn bursts_are_numbered_in_order(times: Seq<Option<i64>>, f: Frames, p: DedupParams, i: int)
    requires
        times.len() <= usize::MAX,
        0 <= i < times.len(),
        burst_infos(times, f, p)[i].group > 0,
    ensures
        burst_infos(times, f, p)[i].group == tally(
            |k: int| times[k] is Some && !(k > 0 && taken_within(times, p.gap_secs as int, k - 1, k)),
            0,
            i + 1,
        ),
{
    let gap = p.gap_secs as int;
    let q = |k: int| starts(times, gap, k);
    let first = |k: int| times[k] is Some && !(k > 0 && taken_within(times, gap, k - 1, k));
    assert forall|k: int| 0 <= k < i + 1 implies #[trigger] q(k) == first(k) by {}
    tally_same(q, first, 0, i + 1);
    tally_bound(q, 0, i + 1);
}

/// Where poses are off, no pose is told, and a scene is one unit.
pub proof fn without_poses_a_scene_is_one_unit(
    times: Seq<Option<i64>>,
    f: Frames,
    p: DedupParams,
    lo: int,
    hi: int,
    i: int,
)
    requires
        times.len() <= usize::MAX,
        !p.adaptive_keep,
        is_burst(burst_infos(times, f, p), lo, hi, i),
    ensures
        burst_infos(times, f, p)[i].pose_cluster == 0,
        burst_infos(times, f, p)[i].size == tally(
            |k: int| scene_of(f, p, lo, k) == scene_of(f, p, lo, i),
            lo,
            hi,
        ),
{
    said_of_member(times, f, p, lo, hi, i, i);
    numbers_fit(f, p, lo, hi, i);
    tally_same(
        unit_of(f, p, lo, hi, i),
        |k: int| scene_of(f, p, lo, k) == scene_of(f, p, lo, i),
        lo,
        hi,
    );
}

/// Where the limit of a burst drops frames, those with the lowest scores go first, and of equal scores
/// the earlier ones.
pub proof fn the_limit_drops_low_and_early_frames(
    times: Seq<Option<i64>>,
    f: Frames,
    p: DedupParams,
    lo: int,
    hi: int,
    i: int,
    j: int,
)
    requires
        times.len() <= usize::MAX,
        is_burst(burst_infos(times, f, p), lo, hi, i),
        lo <= j < hi,
        burst_infos(times, f, p)[i].rank <= p.keep_k,
        !burst_infos(times, f, p)[i].keep,
        burst_infos(times, f, p)[j].keep,
    ensures
        f.scores[i] < f.scores[j] || (f.scores[i] == f.scores[j] && i < j),
{
    said_of_member(times, f, p, lo, hi, i, i);
    said_of_member(times, f, p, lo, hi, i, j);
    orders(f);
    if i != j && !poorer(f)(i, j) {
        assert(poorer(f)(j, i));
        place_increases(among_best(f, p, lo, hi), poorer(f), lo, hi, j, i);
    }
}

} // verus!
