//! Faces: from the outputs of the SCRFD detector to boxes.
use crate::ai::boxes::{apart, by_score, covered, dropped_boxes_have_a_better_neighbour, kept_are_boxes, kept_boxes_are_apart, kept_boxes_come_by_score, kept_of, scores_of, shared, suppress, suppressed, ScoredBox};
use crate::fixed::{clamp, clamped, round_div, rounded, rounded_is_near};
use crate::order::descending_is_sorted;
use crate::tally::{tally, tally_at_most_one, tally_none, tally_same};
use vstd::prelude::*;

verus! {

/// A face: its box in fixed point of the sides of the picture, the certainty of its detection and
/// five points of it (eyes, nose, corners of the mouth).
#[derive(Debug, Clone, Copy)]
pub struct FaceBox {
    pub x: i64,
    pub y: i64,
    pub w: i64,
    pub h: i64,
    pub score: i64,
    pub kps: [(i64, i64); 5],
}

impl FaceBox {
    /// The box of the face.
    pub open spec fn frame(&self) -> ScoredBox {
        ScoredBox { x: self.x, y: self.y, w: self.w, h: self.h, score: self.score }
    }

    /// The box is no larger than the picture and starts on it.
    pub open spec fn wf(&self) -> bool {
        self.frame().wf()
    }
}

/// Side of the picture that the detector looks at.
pub const INPUT_SIZE: usize = 640;

/// Certainty from which a detection counts.
pub const SCORE_THRESHOLD: i64 = 300_000;

/// What one level of the detector returns, in fixed point: for every anchor its certainty, four
/// distances and five points.
#[derive(Debug)]
pub struct LevelOutput {
    pub scores: Vec<i64>,
    pub bbox: Vec<i64>,
    pub kps: Vec<i64>,
}

/// How many cells of a level lie along a side of the input.
pub open spec fn grid(stride: int) -> int {
    if stride == 8 {
        80
    } else if stride == 16 {
        40
    } else {
        20
    }
}

/// The number of anchors of a level: two on each cell of its grid.
pub open spec fn anchors(stride: int) -> int {
    if stride == 8 {
        12800
    } else if stride == 16 {
        3200
    } else {
        800
    }
}

/// The number of anchors of a level.
fn anchors_of(stride: u32) -> (r: usize)
    ensures
        r == anchors(stride as int),
{
    if stride == 8 {
        12800
    } else if stride == 16 {
        3200
    } else {
        800
    }
}

/// The level holds values for all its anchors.
pub open spec fn is_complete(o: LevelOutput, stride: int) -> bool {
    &&& o.scores.len() >= anchors(stride)
    &&& o.bbox.len() >= anchors(stride) * 4
    &&& o.kps.len() >= anchors(stride) * 10
}

/// Column of the middle of anchor `i`, in pixels of the input.
pub open spec fn middle_x(stride: int, i: int) -> int {
    (i / 2) % grid(stride) * stride
}

/// Row of the middle of anchor `i`, in pixels of the input.
pub open spec fn middle_y(stride: int, i: int) -> int {
    (i / 2) / grid(stride) * stride
}

/// A place in the input, in fixed point of a pixel, moved onto it.
pub open spec fn on_input(v: int) -> int {
    clamped(v, 0, 640_000_000)
}

/// A side of the face of anchor `i`, at distance number `j` from its middle.
pub open spec fn side_at(o: LevelOutput, stride: int, i: int, j: int) -> int {
    if j == 0 {
        on_input(middle_x(stride, i) * 1_000_000 - o.bbox[4 * i] * stride)
    } else if j == 1 {
        on_input(middle_y(stride, i) * 1_000_000 - o.bbox[4 * i + 1] * stride)
    } else if j == 2 {
        on_input(middle_x(stride, i) * 1_000_000 + o.bbox[4 * i + 2] * stride)
    } else {
        on_input(middle_y(stride, i) * 1_000_000 + o.bbox[4 * i + 3] * stride)
    }
}

/// The box of the face that anchor `i` of a level stands for.
pub open spec fn frame_at(o: LevelOutput, stride: int, i: int) -> ScoredBox {
    ScoredBox {
        x: rounded(side_at(o, stride, i, 0), 640) as i64,
        y: rounded(side_at(o, stride, i, 1), 640) as i64,
        w: rounded(side_at(o, stride, i, 2) - side_at(o, stride, i, 0), 640) as i64,
        h: rounded(side_at(o, stride, i, 3) - side_at(o, stride, i, 1), 640) as i64,
        score: o.scores[i],
    }
}

/// The face that anchor `i` of a level stands for.
pub open spec fn face_at(o: LevelOutput, stride: int, i: int) -> FaceBox {
    let f = frame_at(o, stride, i);
    FaceBox {
        x: f.x,
        y: f.y,
        w: f.w,
        h: f.h,
        score: f.score,
        kps: [
            point_at(o, stride, i, 0),
            point_at(o, stride, i, 1),
            point_at(o, stride, i, 2),
            point_at(o, stride, i, 3),
            point_at(o, stride, i, 4),
        ],
    }
}

/// Point number `j` of the face that anchor `i` stands for.
pub open spec fn point_at(o: LevelOutput, stride: int, i: int, j: int) -> (i64, i64) {
    (
        rounded(middle_x(stride, i) * 1_000_000 + o.kps[10 * i + 2 * j] * stride, 640) as i64,
        rounded(middle_y(stride, i) * 1_000_000 + o.kps[10 * i + 2 * j + 1] * stride, 640) as i64,
    )
}

/// The faces of the first `k` anchors of a level whose certainty reaches `threshold`.
pub open spec fn level_faces(o: LevelOutput, stride: int, threshold: int, k: int) -> Seq<FaceBox>
    decreases k,
{
    if k <= 0 {
        Seq::empty()
    } else {
        let s = level_faces(o, stride, threshold, k - 1);
        if o.scores[k - 1] >= threshold {
            s.push(face_at(o, stride, k - 1))
        } else {
            s
        }
    }
}

/// The faces of all three levels, before any is dropped.
pub open spec fn all_faces(o: Seq<LevelOutput>, threshold: int) -> Seq<FaceBox> {
    level_faces(o[0], 8, threshold, anchors(8)) + level_faces(o[1], 16, threshold, anchors(16))
        + level_faces(o[2], 32, threshold, anchors(32))
}

/// The boxes of faces.
pub open spec fn frames_of(faces: Seq<FaceBox>) -> Seq<ScoredBox> {
    faces.map_values(|f: FaceBox| f.frame())
}

/// The faces that are kept: of those that overlap by 30 percent or more the most certain one.
pub open spec fn chosen_faces(faces: Seq<FaceBox>) -> Seq<FaceBox> {
    suppressed(frames_of(faces), 30).map_values(|i: int| faces[i])
}

/// The level whose output is too short.
#[derive(Debug, Clone, Copy, PartialEq, Eq, Structural)]
pub struct ShortOutput {
    pub stride: u32,
}

/// A place on the input, from a middle and a distance.
fn place(middle: i128, distance: i64, stride: u32, back: bool) -> (r: i128)
    requires
        0 <= middle <= 640_000_000,
        stride == 8 || stride == 16 || stride == 32,
    ensures
        !back ==> r == on_input(middle + distance * stride),
        back ==> r == on_input(middle - distance * stride),
        0 <= r <= 640_000_000,
{
    let d: i128 = distance as i128;
    let e: i128 = if stride == 8 {
        d * 8
    } else if stride == 16 {
        d * 16
    } else {
        d * 32
    };
    if back {
        clamp(middle - e, 0, 640_000_000)
    } else {
        clamp(middle + e, 0, 640_000_000)
    }
}

/// A coordinate of a point of a face.
fn point_part(middle: i128, distance: i64, stride: i128) -> (r: i64)
    requires
        0 <= middle <= 640_000_000,
        stride == 8 || stride == 16 || stride == 32,
    ensures
        r == rounded(middle + distance * stride, 640) as i64,
{
    let d: i128 = distance as i128;
    let v: i128 = if stride == 8 {
        middle + d * 8
    } else if stride == 16 {
        middle + d * 16
    } else {
        middle + d * 32
    };
    round_div(v, 640) as i64
}

/// The middle of anchor `i`, in fixed point of a pixel.
fn middle_of(stride: u32, i: usize) -> (r: (i128, i128))
    requires
        stride == 8 || stride == 16 || stride == 32,
        i < anchors(stride as int),
    ensures
        r.0 == middle_x(stride as int, i as int) * 1_000_000,
        r.1 == middle_y(stride as int, i as int) * 1_000_000,
        0 <= r.0 <= 640_000_000,
        0 <= r.1 <= 640_000_000,
{
    let cell: usize = i / 2;
    if stride == 8 {
        ((cell % 80) as i128 * 8_000_000, (cell / 80) as i128 * 8_000_000)
    } else if stride == 16 {
        ((cell % 40) as i128 * 16_000_000, (cell / 40) as i128 * 16_000_000)
    } else {
        ((cell % 20) as i128 * 32_000_000, (cell / 20) as i128 * 32_000_000)
    }
}

/// Reads the five points of the face that anchor `i` of a level stands for.
fn read_points(o: &LevelOutput, stride: u32, i: usize) -> (r: [(i64, i64); 5])
    requires
        stride == 8 || stride == 16 || stride == 32,
        is_complete(*o, stride as int),
        i < anchors(stride as int),
    ensures
        forall|j: int| 0 <= j < 5 ==> #[trigger] r@[j] == point_at(*o, stride as int, i as int, j),
{
    let s: i128 = stride as i128;
    let (cx, cy) = middle_of(stride, i);
    let at: usize = 10 * i;
    [
        (point_part(cx, o.kps[at], s), point_part(cy, o.kps[at + 1], s)),
        (point_part(cx, o.kps[at + 2], s), point_part(cy, o.kps[at + 3], s)),
        (point_part(cx, o.kps[at + 4], s), point_part(cy, o.kps[at + 5], s)),
        (point_part(cx, o.kps[at + 6], s), point_part(cy, o.kps[at + 7], s)),
        (point_part(cx, o.kps[at + 8], s), point_part(cy, o.kps[at + 9], s)),
    ]
}

/// Reads the box of the face that anchor `i` of a level stands for.
fn read_frame(o: &LevelOutput, stride: u32, i: usize) -> (r: ScoredBox)
    requires
        stride == 8 || stride == 16 || stride == 32,
        is_complete(*o, stride as int),
        i < anchors(stride as int),
    ensures
        r == frame_at(*o, stride as int, i as int),
        r.wf(),
{
    let (cx, cy) = middle_of(stride, i);
    let x1: i128 = place(cx, o.bbox[4 * i], stride, true);
    let y1: i128 = place(cy, o.bbox[4 * i + 1], stride, true);
    let x2: i128 = place(cx, o.bbox[4 * i + 2], stride, false);
    let y2: i128 = place(cy, o.bbox[4 * i + 3], stride, false);
    assert(x1 == side_at(*o, stride as int, i as int, 0));
    assert(y1 == side_at(*o, stride as int, i as int, 1));
    assert(x2 == side_at(*o, stride as int, i as int, 2));
    assert(y2 == side_at(*o, stride as int, i as int, 3));
    ScoredBox {
        x: round_div(x1, 640) as i64,
        y: round_div(y1, 640) as i64,
        w: round_div(x2 - x1, 640) as i64,
        h: round_div(y2 - y1, 640) as i64,
        score: o.scores[i],
    }
}

/// Reads the face that anchor `i` of a level stands for.
fn read_face(o: &LevelOutput, stride: u32, i: usize) -> (r: FaceBox)
    requires
        stride == 8 || stride == 16 || stride == 32,
        is_complete(*o, stride as int),
        i < anchors(stride as int),
    ensures
        r == face_at(*o, stride as int, i as int),
        r.wf(),
{
    let f = read_frame(o, stride, i);
    let kps = read_points(o, stride, i);
    let face = FaceBox { x: f.x, y: f.y, w: f.w, h: f.h, score: f.score, kps };
    proof {
        let want = face_at(*o, stride as int, i as int);
        assert(face.kps@ =~= want.kps@);
        assert(face.kps =~= want.kps);
        assert(face.frame() == f);
    }
    face
}

/// Appends the faces of a level that are certain enough.
fn read_level(o: &LevelOutput, stride: u32, threshold: i64, faces: &mut Vec<FaceBox>)
    requires
        stride == 8 || stride == 16 || stride == 32,
        is_complete(*o, stride as int),
        forall|k: int| 0 <= k < old(faces).len() ==> (#[trigger] old(faces)[k]).wf(),
    ensures
        final(faces)@ == old(faces)@ + level_faces(
            *o,
            stride as int,
            threshold as int,
            anchors(stride as int),
        ),
        forall|k: int| 0 <= k < final(faces).len() ==> (#[trigger] final(faces)[k]).wf(),
{
    let n: usize = anchors_of(stride);
    let ghost first = faces@;
    let mut i: usize = 0;
    assert(first + level_faces(*o, stride as int, threshold as int, 0) =~= first);
    while i < n
        invariant
            i <= n,
            n == anchors(stride as int),
            stride == 8 || stride == 16 || stride == 32,
            is_complete(*o, stride as int),
            faces@ == first + level_faces(*o, stride as int, threshold as int, i as int),
            forall|k: int| 0 <= k < faces.len() ==> (#[trigger] faces[k]).wf(),
        decreases n - i,
    {
        if o.scores[i] >= threshold {
            let f = read_face(o, stride, i);
            faces.push(f);
            assert(faces@ =~= first + level_faces(*o, stride as int, threshold as int, i + 1));
        }
        i += 1;
    }
}

/// `r` is what the outputs of the three levels come to.
pub open spec fn is_decoded(
    r: Result<Vec<FaceBox>, ShortOutput>,
    outputs: Seq<LevelOutput>,
    threshold: int,
) -> bool {
    match r {
        Ok(v) => {
            &&& is_complete(outputs[0], 8)
            &&& is_complete(outputs[1], 16)
            &&& is_complete(outputs[2], 32)
            &&& v@ == chosen_faces(all_faces(outputs, threshold))
            &&& forall|k: int| 0 <= k < v.len() ==> (#[trigger] v[k]).wf()
        },
        Err(e) => {
            ||| e.stride == 8 && !is_complete(outputs[0], 8)
            ||| e.stride == 16 && is_complete(outputs[0], 8) && !is_complete(outputs[1], 16)
            ||| e.stride == 32 && is_complete(outputs[0], 8) && is_complete(outputs[1], 16)
                && !is_complete(outputs[2], 32)
        },
    }
}

/// Turns the outputs of the three levels (strides 8, 16 and 32) into faces: every anchor whose
/// certainty reaches `threshold`, and of those that overlap by 30 percent or more the most certain
/// one. A level with too few values is an error.
pub fn decode_faces_at(outputs: &[LevelOutput; 3], threshold: i64) -> (r: Result<
    Vec<FaceBox>,
    ShortOutput,
>)
    ensures
        is_decoded(r, outputs@, threshold as int),
{
    let mut faces: Vec<FaceBox> = Vec::new();
    if !complete(&outputs[0], 8) {
        return Err(ShortOutput { stride: 8 });
    }
    if !complete(&outputs[1], 16) {
        return Err(ShortOutput { stride: 16 });
    }
    if !complete(&outputs[2], 32) {
        return Err(ShortOutput { stride: 32 });
    }
    read_level(&outputs[0], 8, threshold, &mut faces);
    read_level(&outputs[1], 16, threshold, &mut faces);
    read_level(&outputs[2], 32, threshold, &mut faces);
    assert(faces@ =~= all_faces(outputs@, threshold as int));
    Ok(choose_faces(&faces))
}

/// Turns the outputs of the three levels into faces, with the certainty that photos are judged by.
pub fn decode_faces(outputs: &[LevelOutput; 3]) -> (r: Result<Vec<FaceBox>, ShortOutput>)
    ensures
        is_decoded(r, outputs@, 300_000),
{
    decode_faces_at(outputs, SCORE_THRESHOLD)
}

/// Any two faces that are found overlap by less than 30 percent.
pub proof fn found_faces_are_apart(faces: Seq<FaceBox>, a: int, b: int)
    requires
        0 <= a < b < chosen_faces(faces).len(),
    ensures
        apart(chosen_faces(faces)[a].frame(), chosen_faces(faces)[b].frame(), 30),
{
    let boxes = frames_of(faces);
    let n = boxes.len() as int;
    let order = by_score(boxes);
    kept_boxes_are_apart(boxes, order, 30, n);
    let kept = suppressed(boxes, 30);
    descending_is_sorted(scores_of(boxes), n);
    kept_are_boxes(boxes, order, 30, n);
    assert(0 <= kept[a] < n && 0 <= kept[b] < n);
    assert(boxes[kept[a]] == faces[kept[a]].frame());
    assert(boxes[kept[b]] == faces[kept[b]].frame());
}

/// The point lies in the box of the face, or no further outside than a fifth of its size.
pub open spec fn point_fits(f: FaceBox, p: (i64, i64)) -> bool {
    &&& 5 * f.x - f.w <= 5 * p.0 <= 5 * f.x + 6 * f.w
    &&& 5 * f.y - f.h <= 5 * p.1 <= 5 * f.y + 6 * f.h
}

/// How many of the first `k` points of a face lie in its box.
pub open spec fn fitting(f: FaceBox, k: int) -> nat {
    tally(|j: int| point_fits(f, f.kps[j]), 0, k)
}

/// How many points of the first `k` faces lie in the boxes of their faces.
pub open spec fn all_fitting(faces: Seq<FaceBox>, k: int) -> nat
    decreases k,
{
    if k <= 0 {
        0
    } else {
        all_fitting(faces, k - 1) + fitting(faces[k - 1], 5)
    }
}

/// Counts the points that lie in the boxes of their faces: where the points of a detector are read
/// rightly, nearly all of them do.
pub fn points_inside(faces: &Vec<FaceBox>) -> (r: u128)
    ensures
        r == all_fitting(faces@, faces.len() as int),
{
    let mut count: u128 = 0;
    let mut i: usize = 0;
    while i < faces.len()
        invariant
            i <= faces.len(),
            count == all_fitting(faces@, i as int),
            count <= 5 * i,
        decreases faces.len() - i,
    {
        let f = &faces[i];
        let ghost p = |j: int| point_fits(*f, f.kps[j]);
        let (x, y, w, h): (i128, i128, i128, i128) = (
            f.x as i128,
            f.y as i128,
            f.w as i128,
            f.h as i128,
        );
        let mut fits: u128 = 0;
        let mut j: usize = 0;
        while j < 5
            invariant
                j <= 5,
                x == f.x,
                y == f.y,
                w == f.w,
                h == f.h,
                p == (|j: int| point_fits(*f, f.kps[j])),
                fits == tally(p, 0, j as int),
                fits <= j,
            decreases 5 - j,
        {
            let px: i128 = f.kps[j].0 as i128;
            let py: i128 = f.kps[j].1 as i128;
            if 5 * x - w <= 5 * px && 5 * px <= 5 * x + 6 * w && 5 * y - h <= 5 * py && 5 * py <= 5
                * y + 6 * h {
                fits += 1;
            }
            j += 1;
        }
        assert(fits == fitting(faces[i as int], 5));
        count += fits;
        i += 1;
    }
    count
}

/// Tells whether a level holds values for all its anchors.
fn complete(o: &LevelOutput, stride: u32) -> (r: bool)
    requires
        stride == 8 || stride == 16 || stride == 32,
    ensures
        r == is_complete(*o, stride as int),
{
    let n: usize = anchors_of(stride);
    o.scores.len() >= n && o.bbox.len() >= n * 4 && o.kps.len() >= n * 10
}

/// Keeps of faces that overlap by 30 percent or more the most certain one.
pub fn choose_faces(faces: &Vec<FaceBox>) -> (r: Vec<FaceBox>)
    requires
        forall|k: int| 0 <= k < faces.len() ==> (#[trigger] faces[k]).wf(),
    ensures
        r@ == chosen_faces(faces@),
        forall|k: int| 0 <= k < r.len() ==> (#[trigger] r[k]).wf(),
{
    let mut frames: Vec<ScoredBox> = Vec::new();
    let mut i: usize = 0;
    while i < faces.len()
        invariant
            i <= faces.len(),
            frames.len() == i,
            forall|k: int| 0 <= k < faces.len() ==> (#[trigger] faces[k]).wf(),
            forall|k: int| 0 <= k < i ==> #[trigger] frames[k] == faces[k].frame(),
            forall|k: int| 0 <= k < i ==> (#[trigger] frames[k]).wf(),
        decreases faces.len() - i,
    {
        let f = &faces[i];
        assert(faces[i as int].wf());
        frames.push(ScoredBox { x: f.x, y: f.y, w: f.w, h: f.h, score: f.score });
        i += 1;
    }
    assert(frames@ =~= frames_of(faces@));
    let kept = suppress(&frames, 30);
    let ghost want = suppressed(frames_of(faces@), 30);
    let mut out: Vec<FaceBox> = Vec::new();
    let mut k: usize = 0;
    while k < kept.len()
        invariant
            k <= kept.len(),
            want == kept@.map_values(|i: usize| i as int),
            forall|k: int| 0 <= k < faces.len() ==> (#[trigger] faces[k]).wf(),
            forall|k: int| 0 <= k < kept.len() ==> #[trigger] kept[k] < faces.len(),
            out.len() == k,
            forall|j: int| 0 <= j < k ==> #[trigger] out[j] == faces[want[j]],
            forall|j: int| 0 <= j < k ==> (#[trigger] out[j]).wf(),
        decreases kept.len() - k,
    {
        assert(want[k as int] == kept[k as int]);
        out.push(faces[kept[k]]);
        k += 1;
    }
    assert(out@ =~= chosen_faces(faces@));
    out
}

/// The stride of each of the three levels.
pub open spec fn stride_of(level: int) -> int {
    if level == 0 {
        8
    } else if level == 1 {
        16
    } else {
        32
    }
}

/// Anchor `a` of a level reaches the threshold. A level has two anchors for each cell of its grid,
/// which lays the input out in squares with the stride as their side.
pub open spec fn is_certain(o: Seq<LevelOutput>, threshold: int, level: int, a: int) -> bool {
    &&& 0 <= level < 3
    &&& 0 <= a < 2 * ((640int / stride_of(level)) * (640int / stride_of(level)))
    &&& o[level].scores[a] >= threshold
}

/// There are as many anchors as two on each cell.
proof fn anchor_counts()
    ensures
        anchors(8) == 2 * ((640int / 8) * (640int / 8)),
        anchors(16) == 2 * ((640int / 16) * (640int / 16)),
        anchors(32) == 2 * ((640int / 32) * (640int / 32)),
{
    assert(80int * 80int == 6400int && 40int * 40int == 1600int && 20int * 20int == 400int)
        by (nonlinear_arith);
}

/// The face of every anchor that reaches the threshold is among those of its level.
proof fn level_faces_hold(o: LevelOutput, stride: int, threshold: int, k: int, a: int)
    requires
        0 <= a < k,
        o.scores[a] >= threshold,
    ensures
        level_faces(o, stride, threshold, k).contains(face_at(o, stride, a)),
    decreases k,
{
    let s = level_faces(o, stride, threshold, k - 1);
    let t = level_faces(o, stride, threshold, k);
    let f = face_at(o, stride, a);
    if a < k - 1 {
        level_faces_hold(o, stride, threshold, k - 1, a);
        let j = choose|j: int| 0 <= j < s.len() && s[j] == f;
        assert(t[j] == f);
    } else {
        assert(t[s.len() as int] == f);
    }
}

/// `f` is the face of one of the first `k` anchors of a level, and the anchor reaches the threshold.
spec fn of_level(o: LevelOutput, stride: int, threshold: int, k: int, f: FaceBox) -> bool {
    exists|a: int|
        #![trigger face_at(o, stride, a)]
        0 <= a < k && o.scores[a] >= threshold && f == face_at(o, stride, a)
}

/// Every face of a level is that of an anchor that reaches the threshold, and there are as many.
proof fn level_faces_from(o: LevelOutput, stride: int, threshold: int, k: int)
    ensures
        forall|j: int|
            0 <= j < level_faces(o, stride, threshold, k).len() ==> of_level(
                o,
                stride,
                threshold,
                k,
                #[trigger] level_faces(o, stride, threshold, k)[j],
            ),
        level_faces(o, stride, threshold, k).len() == tally(
            |a: int| o.scores[a] >= threshold,
            0,
            k,
        ),
    decreases k,
{
    if k > 0 {
        level_faces_from(o, stride, threshold, k - 1);
        let s = level_faces(o, stride, threshold, k - 1);
        let t = level_faces(o, stride, threshold, k);
        assert forall|j: int| 0 <= j < t.len() implies of_level(
            o,
            stride,
            threshold,
            k,
            #[trigger] t[j],
        ) by {
            if j < s.len() {
                assert(t[j] == s[j]);
                assert(of_level(o, stride, threshold, k - 1, s[j]));
                let a = choose|a: int|
                    #![trigger face_at(o, stride, a)]
                    0 <= a < k - 1 && o.scores[a] >= threshold && s[j] == face_at(o, stride, a);
                assert(t[j] == face_at(o, stride, a));
            } else {
                assert(t[j] == face_at(o, stride, k - 1));
            }
        }
    }
}

/// `f` is the face of an anchor that reaches the threshold.
pub open spec fn is_face_of(o: Seq<LevelOutput>, threshold: int, f: FaceBox) -> bool {
    exists|level: int, a: int| #[trigger]
        is_certain(o, threshold, level, a) && f == face_at(o[level], stride_of(level), a)
}

/// The faces of the three levels, before any is dropped, are those of the anchors that reach the
/// threshold.
proof fn all_faces_are_certain(o: Seq<LevelOutput>, threshold: int)
    ensures
        forall|level: int, a: int| #[trigger]
            is_certain(o, threshold, level, a) ==> all_faces(o, threshold).contains(
                face_at(o[level], stride_of(level), a),
            ),
        forall|j: int|
            0 <= j < all_faces(o, threshold).len() ==> is_face_of(
                o,
                threshold,
                #[trigger] all_faces(o, threshold)[j],
            ),
{
    anchor_counts();
    let x = level_faces(o[0], 8, threshold, anchors(8));
    let y = level_faces(o[1], 16, threshold, anchors(16));
    let z = level_faces(o[2], 32, threshold, anchors(32));
    let all = all_faces(o, threshold);
    assert(all == x + y + z);
    assert forall|level: int, a: int| #[trigger] is_certain(
        o,
        threshold,
        level,
        a,
    ) implies all.contains(face_at(o[level], stride_of(level), a)) by {
        let f = face_at(o[level], stride_of(level), a);
        if level == 0 {
            level_faces_hold(o[0], 8, threshold, anchors(8), a);
            let j = choose|j: int| 0 <= j < x.len() && x[j] == f;
            assert(all[j] == f);
        } else if level == 1 {
            level_faces_hold(o[1], 16, threshold, anchors(16), a);
            let j = choose|j: int| 0 <= j < y.len() && y[j] == f;
            assert(all[x.len() + j] == f);
        } else {
            level_faces_hold(o[2], 32, threshold, anchors(32), a);
            let j = choose|j: int| 0 <= j < z.len() && z[j] == f;
            assert(all[x.len() + y.len() + j] == f);
        }
    }
    level_faces_from(o[0], 8, threshold, anchors(8));
    level_faces_from(o[1], 16, threshold, anchors(16));
    level_faces_from(o[2], 32, threshold, anchors(32));
    assert forall|j: int| 0 <= j < all.len() implies is_face_of(o, threshold, #[trigger] all[j]) by {
        if j < x.len() {
            assert(all[j] == x[j]);
            assert(of_level(o[0], 8, threshold, anchors(8), x[j]));
            let a = choose|a: int|
                #![trigger face_at(o[0], 8, a)]
                0 <= a < anchors(8) && o[0].scores[a] >= threshold && x[j] == face_at(o[0], 8, a);
            assert(is_certain(o, threshold, 0, a));
        } else if j < x.len() + y.len() {
            let i = j - x.len();
            assert(all[j] == y[i]);
            assert(of_level(o[1], 16, threshold, anchors(16), y[i]));
            let a = choose|a: int|
                #![trigger face_at(o[1], 16, a)]
                0 <= a < anchors(16) && o[1].scores[a] >= threshold && y[i] == face_at(o[1], 16, a);
            assert(is_certain(o, threshold, 1, a));
        } else {
            let i = j - x.len() - y.len();
            assert(all[j] == z[i]);
            assert(of_level(o[2], 32, threshold, anchors(32), z[i]));
            let a = choose|a: int|
                #![trigger face_at(o[2], 32, a)]
                0 <= a < anchors(32) && o[2].scores[a] >= threshold && z[i] == face_at(o[2], 32, a);
            assert(is_certain(o, threshold, 2, a));
        }
    }
}

/// Every anchor of every level that reaches the threshold is found: the result holds its face, or one
/// of at least its certainty that overlaps it by 30 percent or more.
pub proof fn every_certain_anchor_is_found(
    r: Result<Vec<FaceBox>, ShortOutput>,
    o: Seq<LevelOutput>,
    threshold: int,
    level: int,
    a: int,
)
    requires
        is_decoded(r, o, threshold),
        r is Ok,
        is_certain(o, threshold, level, a),
    ensures
        ({
            let f = face_at(o[level], stride_of(level), a);
            exists|c: int|
                0 <= c < r->Ok_0.len() && (#[trigger] r->Ok_0[c] == f || (r->Ok_0[c].score >= f.score
                    && shared(r->Ok_0[c].frame(), f.frame()) * 100 >= covered(
                    r->Ok_0[c].frame(),
                    f.frame(),
                ) * 30))
        }),
{
    let v = r->Ok_0@;
    let all = all_faces(o, threshold);
    let boxes = frames_of(all);
    let f = face_at(o[level], stride_of(level), a);
    all_faces_are_certain(o, threshold);
    assert(all.contains(f));
    let i = choose|i: int| 0 <= i < all.len() && all[i] == f;
    let kept = suppressed(boxes, 30);
    let n = boxes.len() as int;
    descending_is_sorted(scores_of(boxes), n);
    kept_are_boxes(boxes, by_score(boxes), 30, n);
    if kept.contains(i) {
        let c = choose|c: int| 0 <= c < kept.len() && kept[c] == i;
        assert(v[c] == all[kept[c]]);
        assert(r->Ok_0[c] == f);
    } else {
        dropped_boxes_have_a_better_neighbour(boxes, 30, i);
        let c = choose|c: int|
            0 <= c < kept.len() && !apart(boxes[#[trigger] kept[c]], boxes[i], 30)
                && boxes[kept[c]].score >= boxes[i].score;
        assert(0 <= kept[c] < n);
        assert(v[c] == all[kept[c]]);
        assert(boxes[kept[c]] == all[kept[c]].frame());
        assert(boxes[i] == f.frame());
        assert(r->Ok_0[c] == v[c]);
    }
}

/// Nothing else is found: every face of the result is that of an anchor that reaches the threshold;
/// any two of them overlap by less than 30 percent; and they come from the most certain to the least.
pub proof fn only_certain_anchors_are_found(
    r: Result<Vec<FaceBox>, ShortOutput>,
    o: Seq<LevelOutput>,
    threshold: int,
    c: int,
)
    requires
        is_decoded(r, o, threshold),
        r is Ok,
        0 <= c < r->Ok_0.len(),
    ensures
        is_face_of(o, threshold, r->Ok_0[c]),
        forall|d: int|
            c < d < r->Ok_0.len() ==> r->Ok_0[c].score >= (#[trigger] r->Ok_0[d]).score && apart(
                r->Ok_0[c].frame(),
                r->Ok_0[d].frame(),
                30,
            ),
{
    let v = r->Ok_0@;
    let all = all_faces(o, threshold);
    let boxes = frames_of(all);
    let kept = suppressed(boxes, 30);
    let n = boxes.len() as int;
    all_faces_are_certain(o, threshold);
    descending_is_sorted(scores_of(boxes), n);
    kept_are_boxes(boxes, by_score(boxes), 30, n);
    assert(0 <= kept[c] < n);
    assert(v[c] == all[kept[c]]);
    assert(is_face_of(o, threshold, all[kept[c]]));
    assert forall|d: int| c < d < v.len() implies v[c].score >= (#[trigger] r->Ok_0[d]).score && apart(
        v[c].frame(),
        v[d].frame(),
        30,
    ) by {
        assert(0 <= kept[d] < n);
        assert(v[d] == all[kept[d]]);
        kept_boxes_come_by_score(boxes, 30, c, d);
        found_faces_are_apart(all, c, d);
    }
}

/// Where exactly one anchor of all levels reaches the threshold, its face is the result.
pub proof fn a_single_anchor_is_the_face(
    r: Result<Vec<FaceBox>, ShortOutput>,
    o: Seq<LevelOutput>,
    threshold: int,
    level: int,
    a: int,
)
    requires
        is_decoded(r, o, threshold),
        r is Ok,
        is_certain(o, threshold, level, a),
        forall|l: int, b: int| #[trigger]
            is_certain(o, threshold, l, b) ==> l == level && b == a,
    ensures
        r->Ok_0@ == seq![face_at(o[level], stride_of(level), a)],
{
    let v = r->Ok_0@;
    let f = face_at(o[level], stride_of(level), a);
    every_certain_anchor_is_found(r, o, threshold, level, a);
    let all = all_faces(o, threshold);
    anchor_counts();
    level_faces_from(o[0], 8, threshold, anchors(8));
    level_faces_from(o[1], 16, threshold, anchors(16));
    level_faces_from(o[2], 32, threshold, anchors(32));
    at_most_one(o, threshold, 0, level, a);
    at_most_one(o, threshold, 1, level, a);
    at_most_one(o, threshold, 2, level, a);
    assert(all.len() <= 1);
    let boxes = frames_of(all);
    assert(boxes.len() <= 1);
    kept_len(boxes, by_score(boxes), 30, boxes.len() as int);
    assert(v.len() <= 1);
    let c = choose|c: int|
        0 <= c < v.len() && (#[trigger] r->Ok_0[c] == f || (r->Ok_0[c].score >= f.score && shared(
            r->Ok_0[c].frame(),
            f.frame(),
        ) * 100 >= covered(r->Ok_0[c].frame(), f.frame()) * 30));
    only_certain_anchors_are_found(r, o, threshold, c);
    assert(v[0] == f);
    assert(v =~= seq![f]);
}

/// Where only one anchor reaches the threshold, a level has one such anchor if it is that one's, and
/// none else.
proof fn at_most_one(o: Seq<LevelOutput>, threshold: int, l: int, level: int, a: int)
    requires
        0 <= l < 3,
        forall|l: int, b: int| #[trigger]
            is_certain(o, threshold, l, b) ==> l == level && b == a,
    ensures
        tally(|b: int| o[l].scores[b] >= threshold, 0, anchors(stride_of(l))) <= if l == level {
            1int
        } else {
            0int
        },
{
    anchor_counts();
    let n = anchors(stride_of(l));
    let p = |b: int| o[l].scores[b] >= threshold;
    assert forall|b: int| 0 <= b < n && #[trigger] p(b) implies l == level && b == a by {
        assert(is_certain(o, threshold, l, b));
    }
    if l == level {
        tally_at_most_one(p, 0, n);
    } else {
        tally_none(p, 0, n);
    }
}

/// No more boxes are kept than there are.
proof fn kept_len(boxes: Seq<ScoredBox>, order: Seq<int>, pct: int, k: int)
    requires
        k >= 0,
    ensures
        kept_of(boxes, order, pct, k).len() <= k,
    decreases k,
{
    if k > 0 {
        kept_len(boxes, order, pct, k - 1);
    }
}

/// Where a face lies: the middle of an anchor is the corner of its cell, the distances to the left,
/// to the top, to the right and to the bottom are told in strides, in that order, and so are the five
/// points; a side beyond the input is moved onto it.
pub proof fn faces_lie_around_their_anchor(o: LevelOutput, level: int, a: int)
    requires
        0 <= level < 3,
        0 <= a,
        4 * a + 4 <= o.bbox.len(),
        10 * a + 10 <= o.kps.len(),
    ensures
        ({
            let s = stride_of(level);
            let f = face_at(o, s, a);
            let cx = ((a / 2) % (640int / s)) * s * 1_000_000;
            let cy = ((a / 2) / (640int / s)) * s * 1_000_000;
            let (l, t) = (o.bbox[4 * a] * s, o.bbox[4 * a + 1] * s);
            let (r, b) = (o.bbox[4 * a + 2] * s, o.bbox[4 * a + 3] * s);
            &&& f.score == o.scores[a]
            &&& 0 <= cx - l <= 640_000_000 ==> -640 <= 2 * (640 * f.x - (cx - l)) <= 640
            &&& 0 <= cy - t <= 640_000_000 ==> -640 <= 2 * (640 * f.y - (cy - t)) <= 640
            &&& 0 <= cx - l <= 640_000_000 && 0 <= cx + r <= 640_000_000 ==> -640 <= 2 * (640 * f.w
                - (l + r)) <= 640
            &&& 0 <= cy - t <= 640_000_000 && 0 <= cy + b <= 640_000_000 ==> -640 <= 2 * (640 * f.h
                - (t + b)) <= 640
            &&& cx - l < 0 ==> f.x == 0
            &&& cy - t < 0 ==> f.y == 0
            &&& forall|j: int|
                0 <= j < 5 && -0x1000_0000_0000_0000 <= cx + o.kps[10 * a + 2 * j] * s
                    <= 0x1000_0000_0000_0000 ==> -640 <= 2 * (640 * (#[trigger] f.kps[j]).0 - (cx
                    + o.kps[10 * a + 2 * j] * s)) <= 640
            &&& forall|j: int|
                0 <= j < 5 && -0x1000_0000_0000_0000 <= cy + o.kps[10 * a + 2 * j + 1] * s
                    <= 0x1000_0000_0000_0000 ==> -640 <= 2 * (640 * (#[trigger] f.kps[j]).1 - (cy
                    + o.kps[10 * a + 2 * j + 1] * s)) <= 640
        }),
{
    let s = stride_of(level);
    let f = face_at(o, s, a);
    let cx = ((a / 2) % (640int / s)) * s * 1_000_000;
    let cy = ((a / 2) / (640int / s)) * s * 1_000_000;
    assert(640int / s == grid(s));
    assert(cx == middle_x(s, a) * 1_000_000 && cy == middle_y(s, a) * 1_000_000);
    let (x0, y0) = (side_at(o, s, a, 0), side_at(o, s, a, 1));
    let (x1, y1) = (side_at(o, s, a, 2), side_at(o, s, a, 3));
    rounded_is_near(x0, 640);
    rounded_is_near(y0, 640);
    rounded_is_near(x1 - x0, 640);
    rounded_is_near(y1 - y0, 640);
    assert forall|j: int| 0 <= j < 5 implies #[trigger] f.kps[j] == point_at(o, s, a, j) by {
        assert(j == 0 || j == 1 || j == 2 || j == 3 || j == 4);
    }
    assert forall|j: int| 0 <= j < 5 && -0x1000_0000_0000_0000 <= cx + o.kps[10 * a + 2 * j] * s
        <= 0x1000_0000_0000_0000 implies -640 <= 2 * (640 * (#[trigger] f.kps[j]).0 - (cx + o.kps[10
        * a + 2 * j] * s)) <= 640 by {
        rounded_is_near(cx + o.kps[10 * a + 2 * j] * s, 640);
        assert(f.kps[j] == point_at(o, s, a, j));
    }
    assert forall|j: int| 0 <= j < 5 && -0x1000_0000_0000_0000 <= cy + o.kps[10 * a + 2 * j + 1] * s
        <= 0x1000_0000_0000_0000 implies -640 <= 2 * (640 * (#[trigger] f.kps[j]).1 - (cy + o.kps[10
        * a + 2 * j + 1] * s)) <= 640 by {
        rounded_is_near(cy + o.kps[10 * a + 2 * j + 1] * s, 640);
        assert(f.kps[j] == point_at(o, s, a, j));
    }
}

/// The box of a face ends at the border of the input: a side beyond it counts as one on it.
pub proof fn faces_end_at_the_border(o: LevelOutput, level: int, a: int)
    requires
        0 <= level < 3,
        0 <= a,
        4 * a + 4 <= o.bbox.len(),
    ensures
        ({
            let s = stride_of(level);
            let f = face_at(o, s, a);
            let cx = ((a / 2) % (640int / s)) * s * 1_000_000;
            let cy = ((a / 2) / (640int / s)) * s * 1_000_000;
            let (x0, x1) = (cx - o.bbox[4 * a] * s, cx + o.bbox[4 * a + 2] * s);
            let (y0, y1) = (cy - o.bbox[4 * a + 1] * s, cy + o.bbox[4 * a + 3] * s);
            &&& x0 >= 640_000_000 ==> f.x == 1_000_000
            &&& y0 >= 640_000_000 ==> f.y == 1_000_000
            &&& x0 <= 0 && x1 >= 640_000_000 ==> f.x == 0 && f.w == 1_000_000
            &&& y0 <= 0 && y1 >= 640_000_000 ==> f.y == 0 && f.h == 1_000_000
            &&& 0 <= x0 <= 640_000_000 <= x1 ==> -640 <= 2 * (640 * f.w - (640_000_000 - x0)) <= 640
            &&& 0 <= y0 <= 640_000_000 <= y1 ==> -640 <= 2 * (640 * f.h - (640_000_000 - y0)) <= 640
            &&& x0 <= 0 <= x1 <= 640_000_000 ==> -640 <= 2 * (640 * f.w - x1) <= 640
            &&& y0 <= 0 <= y1 <= 640_000_000 ==> -640 <= 2 * (640 * f.h - y1) <= 640
        }),
{
    let s = stride_of(level);
    let cx = ((a / 2) % (640int / s)) * s * 1_000_000;
    let cy = ((a / 2) / (640int / s)) * s * 1_000_000;
    assert(640int / s == grid(s));
    assert(cx == middle_x(s, a) * 1_000_000 && cy == middle_y(s, a) * 1_000_000);
    let (x0, y0) = (side_at(o, s, a, 0), side_at(o, s, a, 1));
    let (x1, y1) = (side_at(o, s, a, 2), side_at(o, s, a, 3));
    rounded_is_near(x0, 640);
    rounded_is_near(y0, 640);
    rounded_is_near(x1 - x0, 640);
    rounded_is_near(y1 - y0, 640);
}

/// A point fits its face where it lies no further outside the box than a fifth of its width to the left or
/// right and a fifth of its height above or below, ends included. Points are counted one by one.
pub proof fn points_fit_within_a_fifth(f: FaceBox, faces: Seq<FaceBox>, p: (i64, i64))
    ensures
        point_fits(f, p) <==> 5 * (f.x - p.0) <= f.w && 5 * (p.0 - (f.x + f.w)) <= f.w && 5 * (f.y - p.1)
            <= f.h && 5 * (p.1 - (f.y + f.h)) <= f.h,
        all_fitting(seq![f], 1) == tally(
            |j: int|
                {
                    let q = f.kps[j];
                    5 * (f.x - q.0) <= f.w && 5 * (q.0 - (f.x + f.w)) <= f.w && 5 * (f.y - q.1) <= f.h && 5
                        * (q.1 - (f.y + f.h)) <= f.h
                },
            0,
            5,
        ),
        all_fitting(faces.push(f), faces.len() as int + 1) == all_fitting(faces, faces.len() as int)
            + all_fitting(seq![f], 1),
{
    let near = |j: int|
        {
            let q = f.kps[j];
            5 * (f.x - q.0) <= f.w && 5 * (q.0 - (f.x + f.w)) <= f.w && 5 * (f.y - q.1) <= f.h && 5 * (q.1
                - (f.y + f.h)) <= f.h
        };
    tally_same(near, |j: int| point_fits(f, f.kps[j]), 0, 5);
    reveal_with_fuel(all_fitting, 2);
    same_fitting(faces, faces.push(f), faces.len() as int);
}

/// Lists that agree up to `k` have as many fitting points there.
proof fn same_fitting(a: Seq<FaceBox>, b: Seq<FaceBox>, k: int)
    requires
        forall|i: int| 0 <= i < k ==> #[trigger] a[i] == b[i],
    ensures
        all_fitting(a, k) == all_fitting(b, k),
    decreases k,
{
    if k > 0 {
        same_fitting(a, b, k - 1);
        assert(a[k - 1] == b[k - 1]);
    }
}

} // verus!
