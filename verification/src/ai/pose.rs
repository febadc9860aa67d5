//! Persons: from the output of the YOLOv8-pose detector to boxes and points, and to the region of
//! the head.
use crate::ai::boxes::{apart, by_score, covered, dropped_boxes_have_a_better_neighbour, kept_are_boxes, kept_boxes_are_apart, kept_boxes_come_by_score, scores_of, shared, suppress, suppressed, ScoredBox};
use crate::fixed::{clamp, clamped, round_div, rounded, rounded_is_near};
use crate::metrics::region::Region;
use crate::order::descending_is_sorted;
use crate::tally::tally;
use vstd::prelude::*;

verus! {

/// A person: its box in fixed point of the sides of the picture, the certainty of its detection,
/// and 17 points (column, row, certainty), the first five on the head.
#[derive(Debug)]
pub struct PersonBox {
    pub x: i64,
    pub y: i64,
    pub w: i64,
    pub h: i64,
    pub score: i64,
    pub keypoints: Vec<(i64, i64, i64)>,
}

/// What a person holds.
pub struct PersonView {
    pub frame: ScoredBox,
    pub keypoints: Seq<(i64, i64, i64)>,
}

impl View for PersonBox {
    type V = PersonView;

    open spec fn view(&self) -> PersonView {
        PersonView {
            frame: ScoredBox { x: self.x, y: self.y, w: self.w, h: self.h, score: self.score },
            keypoints: self.keypoints@,
        }
    }
}

impl PersonBox {
    /// The box lies on the picture, and there are 17 points.
    pub open spec fn wf(&self) -> bool {
        self@.frame.wf() && self.keypoints.len() == 17
    }

    /// Makes a copy.
    fn copy(&self) -> (r: PersonBox)
        ensures
            r@ == self@,
    {
        let mut keypoints: Vec<(i64, i64, i64)> = Vec::new();
        let mut i: usize = 0;
        while i < self.keypoints.len()
            invariant
                i <= self.keypoints.len(),
                keypoints@ == self.keypoints@.take(i as int),
            decreases self.keypoints.len() - i,
        {
            keypoints.push(self.keypoints[i]);
            assert(self.keypoints@.take(i + 1) =~= self.keypoints@.take(i as int).push(
                self.keypoints@[i as int],
            ));
            i += 1;
        }
        assert(keypoints@ =~= self.keypoints@);
        PersonBox { x: self.x, y: self.y, w: self.w, h: self.h, score: self.score, keypoints }
    }
}

/// Number of anchors of the detector.
pub const ANCHORS: usize = 8400;

/// Number of values for every anchor.
pub const COLS: usize = 56;

/// Certainty from which a detection counts.
pub const CONF_THRESHOLD: i64 = 250_000;

/// Value number `j` of anchor `i`.
pub open spec fn value_at(data: Seq<i64>, j: int, i: int) -> i64 {
    data[j * 8400 + i]
}

/// A side of a box on the picture, from twice its place in the input.
pub open spec fn on_picture(twice: int) -> int {
    clamped(rounded(twice, 1280), 0, 1_000_000)
}

/// The length between two sides of a box.
pub open spec fn length(a: int, b: int) -> int {
    if b > a {
        b - a
    } else {
        0
    }
}

/// Point number `k` of anchor `i`.
pub open spec fn keypoint_at(data: Seq<i64>, i: int, k: int) -> (i64, i64, i64) {
    (
        rounded(value_at(data, 5 + k * 3, i) as int, 640) as i64,
        rounded(value_at(data, 6 + k * 3, i) as int, 640) as i64,
        value_at(data, 7 + k * 3, i),
    )
}

/// The person that anchor `i` stands for.
pub open spec fn person_at(data: Seq<i64>, i: int) -> PersonView {
    let cx = value_at(data, 0, i);
    let cy = value_at(data, 1, i);
    let bw = value_at(data, 2, i);
    let bh = value_at(data, 3, i);
    let x1 = on_picture(2 * cx - bw);
    let y1 = on_picture(2 * cy - bh);
    let x2 = on_picture(2 * cx + bw);
    let y2 = on_picture(2 * cy + bh);
    PersonView {
        frame: ScoredBox {
            x: x1 as i64,
            y: y1 as i64,
            w: length(x1, x2) as i64,
            h: length(y1, y2) as i64,
            score: value_at(data, 4, i),
        },
        keypoints: Seq::new(17, |k: int| keypoint_at(data, i, k)),
    }
}

/// The persons of the first `k` anchors that are certain enough.
pub open spec fn persons_before(data: Seq<i64>, k: int) -> Seq<PersonView>
    decreases k,
{
    if k <= 0 {
        Seq::empty()
    } else {
        let s = persons_before(data, k - 1);
        if value_at(data, 4, k - 1) >= CONF_THRESHOLD {
            s.push(person_at(data, k - 1))
        } else {
            s
        }
    }
}

/// The boxes of persons.
pub open spec fn person_frames(persons: Seq<PersonView>) -> Seq<ScoredBox> {
    persons.map_values(|p: PersonView| p.frame)
}

/// The persons that are kept: of those that overlap by half or more the most certain one.
pub open spec fn chosen_persons(persons: Seq<PersonView>) -> Seq<PersonView> {
    suppressed(person_frames(persons), 50).map_values(|i: int| persons[i])
}

/// What the persons of a list hold.
pub open spec fn views_of(persons: Seq<PersonBox>) -> Seq<PersonView> {
    persons.map_values(|p: PersonBox| p@)
}

/// The output has too few values.
#[derive(Debug, Clone, Copy, PartialEq, Eq, Structural)]
pub struct ShortOutput {
    pub len: usize,
}

/// A side of a box on the picture.
fn side_of(middle: i64, extent: i64, far: bool) -> (r: i64)
    ensures
        r == on_picture(if far { 2 * middle + extent } else { 2 * middle - extent }),
        0 <= r <= 1_000_000,
{
    let twice: i128 = if far {
        2 * (middle as i128) + extent as i128
    } else {
        2 * (middle as i128) - extent as i128
    };
    clamp(round_div(twice, 1280), 0, 1_000_000) as i64
}

/// Reads the person that anchor `i` stands for.
fn read_person(data: &Vec<i64>, i: usize) -> (r: PersonBox)
    requires
        data.len() >= 56 * 8400,
        i < 8400,
    ensures
        r@ == person_at(data@, i as int),
        r.wf(),
{
    let cx: i64 = data[i];
    let cy: i64 = data[8400 + i];
    let bw: i64 = data[2 * 8400 + i];
    let bh: i64 = data[3 * 8400 + i];
    let x1: i64 = side_of(cx, bw, false);
    let y1: i64 = side_of(cy, bh, false);
    let x2: i64 = side_of(cx, bw, true);
    let y2: i64 = side_of(cy, bh, true);
    let mut keypoints: Vec<(i64, i64, i64)> = Vec::new();
    let mut k: usize = 0;
    while k < 17
        invariant
            k <= 17,
            i < 8400,
            data.len() >= 56 * 8400,
            keypoints.len() == k,
            forall|m: int| 0 <= m < k ==> #[trigger] keypoints[m] == keypoint_at(data@, i as int, m),
        decreases 17 - k,
    {
        let kx: i64 = round_div(data[(5 + k * 3) * 8400 + i] as i128, 640) as i64;
        let ky: i64 = round_div(data[(6 + k * 3) * 8400 + i] as i128, 640) as i64;
        let kc: i64 = data[(7 + k * 3) * 8400 + i];
        keypoints.push((kx, ky, kc));
        k += 1;
    }
    let p = PersonBox {
        x: x1,
        y: y1,
        w: if x2 > x1 { x2 - x1 } else { 0 },
        h: if y2 > y1 { y2 - y1 } else { 0 },
        score: data[4 * 8400 + i],
        keypoints,
    };
    assert(p.keypoints@ =~= person_at(data@, i as int).keypoints);
    p
}

/// Turns the output of the detector into persons: every anchor that is certain enough, and of
/// those that overlap by half or more the most certain one. Too few values are an error.
pub fn decode_persons(data: &Vec<i64>) -> (r: Result<Vec<PersonBox>, ShortOutput>)
    ensures
        match r {
            Ok(v) => {
                &&& data.len() >= 56 * 8400
                &&& views_of(v@) == chosen_persons(persons_before(data@, 8400))
                &&& forall|k: int| 0 <= k < v.len() ==> (#[trigger] v[k]).wf()
            },
            Err(e) => data.len() < 56 * 8400 && e.len == data.len(),
        },
{
    if data.len() < 56 * 8400 {
        return Err(ShortOutput { len: data.len() });
    }
    let mut persons: Vec<PersonBox> = Vec::new();
    let mut i: usize = 0;
    assert(views_of(persons@) =~= persons_before(data@, 0));
    while i < 8400
        invariant
            i <= 8400,
            data.len() >= 56 * 8400,
            views_of(persons@) == persons_before(data@, i as int),
            forall|k: int| 0 <= k < persons.len() ==> (#[trigger] persons[k]).wf(),
        decreases 8400 - i,
    {
        if data[4 * 8400 + i] >= CONF_THRESHOLD {
            let p = read_person(data, i);
            let ghost before = persons@;
            persons.push(p);
            assert(views_of(persons@) =~= views_of(before).push(p@));
        }
        i += 1;
    }
    Ok(choose_persons(&persons))
}

/// Keeps of persons that overlap by half or more the most certain one.
pub fn choose_persons(persons: &Vec<PersonBox>) -> (r: Vec<PersonBox>)
    requires
        forall|k: int| 0 <= k < persons.len() ==> (#[trigger] persons[k]).wf(),
    ensures
        views_of(r@) == chosen_persons(views_of(persons@)),
        forall|k: int| 0 <= k < r.len() ==> (#[trigger] r[k]).wf(),
{
    let mut frames: Vec<ScoredBox> = Vec::new();
    let mut i: usize = 0;
    while i < persons.len()
        invariant
            i <= persons.len(),
            frames.len() == i,
            forall|k: int| 0 <= k < persons.len() ==> (#[trigger] persons[k]).wf(),
            forall|k: int| 0 <= k < i ==> #[trigger] frames[k] == persons[k]@.frame,
            forall|k: int| 0 <= k < i ==> (#[trigger] frames[k]).wf(),
        decreases persons.len() - i,
    {
        let p = &persons[i];
        assert(persons[i as int].wf());
        frames.push(ScoredBox { x: p.x, y: p.y, w: p.w, h: p.h, score: p.score });
        i += 1;
    }
    assert(frames@ =~= person_frames(views_of(persons@)));
    let kept = suppress(&frames, 50);
    let ghost want = suppressed(person_frames(views_of(persons@)), 50);
    let mut out: Vec<PersonBox> = Vec::new();
    let mut k: usize = 0;
    while k < kept.len()
        invariant
            k <= kept.len(),
            want == kept@.map_values(|i: usize| i as int),
            forall|k: int| 0 <= k < persons.len() ==> (#[trigger] persons[k]).wf(),
            forall|k: int| 0 <= k < kept.len() ==> #[trigger] kept[k] < persons.len(),
            out.len() == k,
            forall|j: int| 0 <= j < k ==> (#[trigger] out[j])@ == persons[want[j]]@,
            forall|j: int| 0 <= j < k ==> (#[trigger] out[j]).wf(),
        decreases kept.len() - k,
    {
        assert(want[k as int] == kept[k as int]);
        assert(persons[kept[k as int] as int].wf());
        out.push(persons[kept[k]].copy());
        k += 1;
    }
    assert(views_of(out@) =~= chosen_persons(views_of(persons@)));
    out
}

/// The points of the head that are certain enough, among the first `n`.
pub open spec fn head_points(keypoints: Seq<(i64, i64, i64)>, n: int) -> Seq<(i64, i64)>
    decreases n,
{
    if n <= 0 {
        Seq::empty()
    } else {
        let s = head_points(keypoints, n - 1);
        if keypoints[n - 1].2 > 300_000 {
            s.push((keypoints[n - 1].0, keypoints[n - 1].1))
        } else {
            s
        }
    }
}

/// The lowest of the numbers.
pub open spec fn lowest(v: Seq<i64>) -> int
    decreases v.len(),
{
    if v.len() <= 1 {
        v[0] as int
    } else {
        let m = lowest(v.drop_last());
        if v.last() < m {
            v.last() as int
        } else {
            m
        }
    }
}

/// The highest of the numbers.
pub open spec fn highest(v: Seq<i64>) -> int
    decreases v.len(),
{
    if v.len() <= 1 {
        v[0] as int
    } else {
        let m = highest(v.drop_last());
        if v.last() > m {
            v.last() as int
        } else {
            m
        }
    }
}

/// The columns of points.
pub open spec fn columns(p: Seq<(i64, i64)>) -> Seq<i64> {
    p.map_values(|q: (i64, i64)| q.0)
}

/// The rows of points.
pub open spec fn rows(p: Seq<(i64, i64)>) -> Seq<i64> {
    p.map_values(|q: (i64, i64)| q.1)
}

/// The region of the head: around the points of nose, eyes and ears that are certain enough, a
/// little wider than they lie; none where there are less than two.
pub open spec fn head_of(keypoints: Seq<(i64, i64, i64)>) -> Option<Region> {
    let p = head_points(keypoints, 5);
    if p.len() < 2 {
        None
    } else {
        let (x0, x1) = (lowest(columns(p)), highest(columns(p)));
        let (y0, y1) = (lowest(rows(p)), highest(rows(p)));
        Some(
            Region {
                cx: rounded(x0 + x1, 2) as i64,
                cy: rounded(y0 + y1, 2) as i64,
                half_w: (rounded((x1 - x0) * 7, 10) + 20_000) as i64,
                half_h: (rounded((y1 - y0) * 8, 10) + 30_000) as i64,
            },
        )
    }
}

/// The lowest number is not above the highest.
proof fn lowest_below_highest(v: Seq<i64>)
    requires
        v.len() > 0,
    ensures
        i64::MIN <= lowest(v) <= highest(v) <= i64::MAX,
    decreases v.len(),
{
    if v.len() > 1 {
        lowest_below_highest(v.drop_last());
    }
}

/// Finds the region of the head.
pub fn head_region(p: &PersonBox) -> (r: Option<Region>)
    requires
        p.keypoints.len() >= 5,
    ensures
        r == head_of(p.keypoints@),
{
    let ghost all = p.keypoints@;
    let mut count: usize = 0;
    let mut x0: i64 = 0;
    let mut x1: i64 = 0;
    let mut y0: i64 = 0;
    let mut y1: i64 = 0;
    let mut i: usize = 0;
    while i < 5
        invariant
            i <= 5,
            p.keypoints.len() >= 5,
            all == p.keypoints@,
            count == head_points(all, i as int).len(),
            count <= i,
            count > 0 ==> {
                let q = head_points(all, i as int);
                &&& x0 == lowest(columns(q))
                &&& x1 == highest(columns(q))
                &&& y0 == lowest(rows(q))
                &&& y1 == highest(rows(q))
            },
        decreases 5 - i,
    {
        let (kx, ky, kc) = p.keypoints[i];
        if kc > 300_000 {
            let ghost q = head_points(all, i as int);
            assert(columns(q.push((kx, ky))).drop_last() =~= columns(q));
            assert(rows(q.push((kx, ky))).drop_last() =~= rows(q));
            if count == 0 {
                x0 = kx;
                x1 = kx;
                y0 = ky;
                y1 = ky;
            } else {
                if kx < x0 {
                    x0 = kx;
                }
                if kx > x1 {
                    x1 = kx;
                }
                if ky < y0 {
                    y0 = ky;
                }
                if ky > y1 {
                    y1 = ky;
                }
            }
            count += 1;
        }
        i += 1;
    }
    if count < 2 {
        return None;
    }
    proof {
        lowest_below_highest(columns(head_points(all, 5)));
        lowest_below_highest(rows(head_points(all, 5)));
    }
    let dx: i128 = x1 as i128 - x0 as i128;
    let dy: i128 = y1 as i128 - y0 as i128;
    Some(
        Region {
            cx: round_div(x0 as i128 + x1 as i128, 2) as i64,
            cy: round_div(y0 as i128 + y1 as i128, 2) as i64,
            half_w: (round_div(dx * 7, 10) + 20_000) as i64,
            half_h: (round_div(dy * 8, 10) + 30_000) as i64,
        },
    )
}

/// `p` is the person of one of the first `k` anchors whose certainty reaches a quarter.
pub open spec fn is_person_of(data: Seq<i64>, k: int, p: PersonView) -> bool {
    exists|i: int|
        #![trigger person_at(data, i)]
        0 <= i < k && data[4 * 8400 + i] >= 250_000 && p == person_at(data, i)
}

/// The persons before any is dropped are those of the anchors that are certain enough.
proof fn persons_are_certain(data: Seq<i64>, k: int)
    ensures
        forall|i: int|
            #![trigger person_at(data, i)]
            0 <= i < k && data[4 * 8400 + i] >= 250_000 ==> persons_before(data, k).contains(
                person_at(data, i),
            ),
        forall|j: int|
            0 <= j < persons_before(data, k).len() ==> is_person_of(
                data,
                k,
                #[trigger] persons_before(data, k)[j],
            ),
    decreases k,
{
    if k > 0 {
        persons_are_certain(data, k - 1);
        let s = persons_before(data, k - 1);
        let t = persons_before(data, k);
        assert forall|i: int|
            #![trigger person_at(data, i)]
            0 <= i < k && data[4 * 8400 + i] >= 250_000 implies t.contains(person_at(data, i)) by {
            let p = person_at(data, i);
            if i < k - 1 {
                assert(s.contains(p));
                let j = choose|j: int| 0 <= j < s.len() && s[j] == p;
                assert(t[j] == p);
            } else {
                assert(t[s.len() as int] == p);
            }
        }
        assert forall|j: int| 0 <= j < t.len() implies is_person_of(data, k, #[trigger] t[j]) by {
            if j < s.len() {
                assert(t[j] == s[j]);
                assert(is_person_of(data, k - 1, s[j]));
                let i = choose|i: int|
                    #![trigger person_at(data, i)]
                    0 <= i < k - 1 && data[4 * 8400 + i] >= 250_000 && s[j] == person_at(data, i);
                assert(t[j] == person_at(data, i));
            } else {
                assert(t[j] == person_at(data, k - 1));
            }
        }
    }
}

/// Every anchor whose certainty reaches a quarter is found: the result holds its person, or one of at
/// least its certainty that overlaps it by half or more.
pub proof fn every_certain_person_is_found(data: Seq<i64>, i: int)
    requires
        0 <= i < 8400,
        data[4 * 8400 + i] >= 250_000,
    ensures
        ({
            let v = chosen_persons(persons_before(data, 8400));
            let p = person_at(data, i);
            exists|c: int|
                0 <= c < v.len() && (#[trigger] v[c] == p || (v[c].frame.score >= p.frame.score
                    && shared(v[c].frame, p.frame) * 100 >= covered(v[c].frame, p.frame) * 50))
        }),
{
    let all = persons_before(data, 8400);
    let v = chosen_persons(all);
    let boxes = person_frames(all);
    let p = person_at(data, i);
    persons_are_certain(data, 8400);
    assert(all.contains(p));
    let m = choose|m: int| 0 <= m < all.len() && all[m] == p;
    let kept = suppressed(boxes, 50);
    let n = boxes.len() as int;
    descending_is_sorted(scores_of(boxes), n);
    kept_are_boxes(boxes, by_score(boxes), 50, n);
    if kept.contains(m) {
        let c = choose|c: int| 0 <= c < kept.len() && kept[c] == m;
        assert(v[c] == all[kept[c]]);
        assert(v[c] == p);
    } else {
        dropped_boxes_have_a_better_neighbour(boxes, 50, m);
        let c = choose|c: int|
            0 <= c < kept.len() && !apart(boxes[#[trigger] kept[c]], boxes[m], 50)
                && boxes[kept[c]].score >= boxes[m].score;
        assert(0 <= kept[c] < n);
        assert(v[c] == all[kept[c]]);
        assert(boxes[kept[c]] == all[kept[c]].frame);
        assert(boxes[m] == p.frame);
    }
}

/// Nothing else is found: every person of the result is that of an anchor that is certain enough; any
/// two of them overlap by less than half; and they come from the most certain to the least.
pub proof fn only_certain_persons_are_found(data: Seq<i64>, c: int)
    requires
        0 <= c < chosen_persons(persons_before(data, 8400)).len(),
    ensures
        ({
            let v = chosen_persons(persons_before(data, 8400));
            &&& is_person_of(data, 8400, v[c])
            &&& forall|d: int|
                c < d < v.len() ==> v[c].frame.score >= (#[trigger] v[d]).frame.score && apart(
                    v[c].frame,
                    v[d].frame,
                    50,
                )
        }),
{
    let all = persons_before(data, 8400);
    let v = chosen_persons(all);
    let boxes = person_frames(all);
    let kept = suppressed(boxes, 50);
    let n = boxes.len() as int;
    persons_are_certain(data, 8400);
    descending_is_sorted(scores_of(boxes), n);
    kept_are_boxes(boxes, by_score(boxes), 50, n);
    kept_boxes_are_apart(boxes, by_score(boxes), 50, n);
    assert(0 <= kept[c] < n);
    assert(v[c] == all[kept[c]]);
    assert forall|d: int| c < d < v.len() implies v[c].frame.score >= (#[trigger] v[d]).frame.score
        && apart(v[c].frame, v[d].frame, 50) by {
        assert(0 <= kept[d] < n);
        assert(v[d] == all[kept[d]]);
        kept_boxes_come_by_score(boxes, 50, c, d);
        assert(boxes[kept[c]] == all[kept[c]].frame && boxes[kept[d]] == all[kept[d]].frame);
    }
}

/// Where a person lies: the values of an anchor are, 8400 apart, the column and the row of its middle,
/// its width and its height in pixels of the input, its certainty, and column, row and certainty of
/// each of its points; a side beyond the input is moved onto it.
pub proof fn persons_lie_where_they_are_seen(data: Seq<i64>, i: int)
    ensures
        ({
            let p = person_at(data, i);
            let (cx, cy) = (data[i], data[8400 + i]);
            let (bw, bh) = (data[2 * 8400 + i], data[3 * 8400 + i]);
            &&& p.frame.score == data[4 * 8400 + i]
            &&& 0 <= 2 * cx - bw <= 1_280_000_000 ==> -1280 <= 2 * (1280 * p.frame.x - (2 * cx - bw))
                <= 1280
            &&& 0 <= 2 * cy - bh <= 1_280_000_000 ==> -1280 <= 2 * (1280 * p.frame.y - (2 * cy - bh))
                <= 1280
            &&& 0 <= 2 * cx - bw <= 2 * cx + bw <= 1_280_000_000 ==> -1280 <= 640 * p.frame.w - bw
                <= 1280
            &&& 0 <= 2 * cy - bh <= 2 * cy + bh <= 1_280_000_000 ==> -1280 <= 640 * p.frame.h - bh
                <= 1280
            &&& 2 * cx - bw < 0 ==> p.frame.x == 0
            &&& 2 * cy - bh < 0 ==> p.frame.y == 0
            &&& p.keypoints.len() == 17
            &&& forall|k: int|
                0 <= k < 17 ==> -640 <= 2 * (640 * (#[trigger] p.keypoints[k]).0 - data[(5 + 3 * k)
                    * 8400 + i]) <= 640 && -640 <= 2 * (640 * p.keypoints[k].1 - data[(6 + 3 * k)
                    * 8400 + i]) <= 640 && p.keypoints[k].2 == data[(7 + 3 * k) * 8400 + i]
        }),
{
    let p = person_at(data, i);
    let (cx, cy) = (data[i], data[8400 + i]);
    let (bw, bh) = (data[2 * 8400 + i], data[3 * 8400 + i]);
    rounded_is_near(2 * cx - bw, 1280);
    rounded_is_near(2 * cy - bh, 1280);
    rounded_is_near(2 * cx + bw, 1280);
    rounded_is_near(2 * cy + bh, 1280);
    assert forall|k: int| 0 <= k < 17 implies -640 <= 2 * (640 * (#[trigger] p.keypoints[k]).0
        - data[(5 + 3 * k) * 8400 + i]) <= 640 && -640 <= 2 * (640 * p.keypoints[k].1 - data[(6 + 3
        * k) * 8400 + i]) <= 640 && p.keypoints[k].2 == data[(7 + 3 * k) * 8400 + i] by {
        rounded_is_near(data[(5 + 3 * k) * 8400 + i] as int, 640);
        rounded_is_near(data[(6 + 3 * k) * 8400 + i] as int, 640);
        assert(p.keypoints[k] == keypoint_at(data, i, k));
    }
}

/// Point `k` of a person is one of the head and certain enough.
pub open spec fn counts_for_head(keypoints: Seq<(i64, i64, i64)>, k: int) -> bool {
    0 <= k < 5 && keypoints[k].2 > 300_000
}

/// Of the points that count for the head, `a` lies leftmost, `b` rightmost, `c` topmost and `d` lowest.
pub open spec fn outermost(
    keypoints: Seq<(i64, i64, i64)>,
    a: int,
    b: int,
    c: int,
    d: int,
) -> bool {
    &&& counts_for_head(keypoints, a) && counts_for_head(keypoints, b)
    &&& counts_for_head(keypoints, c) && counts_for_head(keypoints, d)
    &&& forall|k: int| #[trigger]
        counts_for_head(keypoints, k) ==> keypoints[a].0 <= keypoints[k].0 <= keypoints[b].0
            && keypoints[c].1 <= keypoints[k].1 <= keypoints[d].1
}

/// The region of a head is laid around its points: there is one exactly where two of the first five
/// points are more certain than three tenths. Its middle lies halfway between the outermost of them,
/// and it reaches 0.7 of their distance to either side and 0.02 more; up and down 0.8 of it and 0.03
/// more.
pub proof fn heads_lie_around_their_points(keypoints: Seq<(i64, i64, i64)>)
    requires
        keypoints.len() >= 5,
        forall|k: int|
            0 <= k < 5 ==> -0x1000_0000_0000 <= (#[trigger] keypoints[k]).0 <= 0x1000_0000_0000
                && -0x1000_0000_0000 <= keypoints[k].1 <= 0x1000_0000_0000,
    ensures
        head_of(keypoints) is Some <==> tally(|k: int| counts_for_head(keypoints, k), 0, 5) >= 2,
        head_of(keypoints) is Some ==> {
            let g = head_of(keypoints)->0;
            exists|a: int, b: int, c: int, d: int| #[trigger]
                outermost(keypoints, a, b, c, d) && {
                    &&& -1 <= 2 * g.cx - (keypoints[a].0 + keypoints[b].0) <= 1
                    &&& -1 <= 2 * g.cy - (keypoints[c].1 + keypoints[d].1) <= 1
                    &&& -5 <= 10 * (g.half_w - 20_000) - 7 * (keypoints[b].0 - keypoints[a].0) <= 5
                    &&& -5 <= 10 * (g.half_h - 30_000) - 8 * (keypoints[d].1 - keypoints[c].1) <= 5
                }
        },
{
    let p = head_points(keypoints, 5);
    head_points_are(keypoints, 5);
    if p.len() >= 2 {
        let (xs, ys) = (columns(p), rows(p));
        extremes(xs);
        extremes(ys);
        let i = choose|i: int| 0 <= i < xs.len() && #[trigger] xs[i] == lowest(xs);
        let j = choose|j: int| 0 <= j < xs.len() && #[trigger] xs[j] == highest(xs);
        let m = choose|m: int| 0 <= m < ys.len() && #[trigger] ys[m] == lowest(ys);
        let n = choose|n: int| 0 <= n < ys.len() && #[trigger] ys[n] == highest(ys);
        assert(from_head(keypoints, 5, p[i]) && from_head(keypoints, 5, p[j]));
        assert(from_head(keypoints, 5, p[m]) && from_head(keypoints, 5, p[n]));
        let a = choose|k: int| #[trigger]
            counts_for_head(keypoints, k) && k < 5 && p[i] == (keypoints[k].0, keypoints[k].1);
        let b = choose|k: int| #[trigger]
            counts_for_head(keypoints, k) && k < 5 && p[j] == (keypoints[k].0, keypoints[k].1);
        let c = choose|k: int| #[trigger]
            counts_for_head(keypoints, k) && k < 5 && p[m] == (keypoints[k].0, keypoints[k].1);
        let d = choose|k: int| #[trigger]
            counts_for_head(keypoints, k) && k < 5 && p[n] == (keypoints[k].0, keypoints[k].1);
        assert(keypoints[a].0 == lowest(xs) && keypoints[b].0 == highest(xs));
        assert(keypoints[c].1 == lowest(ys) && keypoints[d].1 == highest(ys));
        assert forall|k: int| #[trigger] counts_for_head(keypoints, k) implies keypoints[a].0
            <= keypoints[k].0 <= keypoints[b].0 && keypoints[c].1 <= keypoints[k].1
            <= keypoints[d].1 by {
            assert(p.contains((keypoints[k].0, keypoints[k].1)));
            let q = choose|q: int| 0 <= q < p.len() && p[q] == (keypoints[k].0, keypoints[k].1);
            assert(xs[q] == keypoints[k].0 && ys[q] == keypoints[k].1);
        }
        assert(outermost(keypoints, a, b, c, d));
        let (x0, x1) = (lowest(xs), highest(xs));
        let (y0, y1) = (lowest(ys), highest(ys));
        rounded_is_near(x0 + x1, 2);
        rounded_is_near(y0 + y1, 2);
        rounded_is_near((x1 - x0) * 7, 10);
        rounded_is_near((y1 - y0) * 8, 10);
    }
}

/// `q` is the place of one of the first `n` points that count for the head.
spec fn from_head(keypoints: Seq<(i64, i64, i64)>, n: int, q: (i64, i64)) -> bool {
    exists|k: int| #[trigger]
        counts_for_head(keypoints, k) && k < n && q == (keypoints[k].0, keypoints[k].1)
}

/// The points that are looked at for the head are those that count.
proof fn head_points_are(keypoints: Seq<(i64, i64, i64)>, n: int)
    requires
        0 <= n <= 5,
        keypoints.len() >= 5,
    ensures
        head_points(keypoints, n).len() == tally(|k: int| counts_for_head(keypoints, k), 0, n),
        forall|j: int|
            0 <= j < head_points(keypoints, n).len() ==> from_head(
                keypoints,
                n,
                #[trigger] head_points(keypoints, n)[j],
            ),
        forall|k: int| #[trigger]
            counts_for_head(keypoints, k) && k < n ==> head_points(keypoints, n).contains(
                (keypoints[k].0, keypoints[k].1),
            ),
    decreases n,
{
    if n > 0 {
        head_points_are(keypoints, n - 1);
        let s = head_points(keypoints, n - 1);
        let t = head_points(keypoints, n);
        assert forall|j: int| 0 <= j < t.len() implies from_head(keypoints, n, #[trigger] t[j]) by {
            if j < s.len() {
                assert(t[j] == s[j]);
                assert(from_head(keypoints, n - 1, s[j]));
                let k = choose|k: int| #[trigger]
                    counts_for_head(keypoints, k) && k < n - 1 && s[j] == (
                        keypoints[k].0,
                        keypoints[k].1,
                    );
                assert(counts_for_head(keypoints, k));
            } else {
                assert(counts_for_head(keypoints, n - 1));
            }
        }
        assert forall|k: int| #[trigger] counts_for_head(keypoints, k) && k < n implies t.contains(
            (keypoints[k].0, keypoints[k].1),
        ) by {
            let q = (keypoints[k].0, keypoints[k].1);
            if k < n - 1 {
                assert(s.contains(q));
                let j = choose|j: int| 0 <= j < s.len() && s[j] == q;
                assert(t[j] == q);
            } else {
                assert(t[s.len() as int] == q);
            }
        }
    }
}

/// The lowest and the highest of numbers are among them, and all lie between.
proof fn extremes(v: Seq<i64>)
    requires
        v.len() > 0,
    ensures
        forall|i: int| 0 <= i < v.len() ==> lowest(v) <= #[trigger] v[i] <= highest(v),
        exists|i: int| 0 <= i < v.len() && #[trigger] v[i] == lowest(v),
        exists|i: int| 0 <= i < v.len() && #[trigger] v[i] == highest(v),
    decreases v.len(),
{
    if v.len() > 1 {
        let u = v.drop_last();
        extremes(u);
        let i = choose|i: int| 0 <= i < u.len() && #[trigger] u[i] == lowest(u);
        let j = choose|j: int| 0 <= j < u.len() && #[trigger] u[j] == highest(u);
        assert(v[i] == u[i] && v[j] == u[j]);
        let n = v.len() - 1;
        assert(v[n] == v.last());
        assert forall|k: int| 0 <= k < v.len() implies lowest(v) <= #[trigger] v[k] <= highest(v) by {
            if k < n {
                assert(u[k] == v[k]);
            }
        }
        if v.last() < lowest(u) {
            assert(v[n] == lowest(v));
        } else {
            assert(v[i] == lowest(v));
        }
        if v.last() > highest(u) {
            assert(v[n] == highest(v));
        } else {
            assert(v[j] == highest(v));
        }
    } else {
        assert(v[0] == lowest(v) && v[0] == highest(v));
    }
}

/// The box of a person ends at the border of the input: a side beyond it counts as one on it.
pub proof fn persons_end_at_the_border(data: Seq<i64>, i: int)
    ensures
        ({
            let p = person_at(data, i);
            let (x0, x1) = (2 * data[i] - data[2 * 8400 + i], 2 * data[i] + data[2 * 8400 + i]);
            let (y0, y1) = (2 * data[8400 + i] - data[3 * 8400 + i], 2 * data[8400 + i] + data[3 * 8400
                + i]);
            &&& x0 >= 1_280_000_000 ==> p.frame.x == 1_000_000
            &&& y0 >= 1_280_000_000 ==> p.frame.y == 1_000_000
            &&& x0 <= 0 && x1 >= 1_280_000_000 ==> p.frame.x == 0 && p.frame.w == 1_000_000
            &&& y0 <= 0 && y1 >= 1_280_000_000 ==> p.frame.y == 0 && p.frame.h == 1_000_000
            &&& 0 <= x0 <= 1_280_000_000 <= x1 ==> p.frame.x + p.frame.w == 1_000_000
            &&& 0 <= y0 <= 1_280_000_000 <= y1 ==> p.frame.y + p.frame.h == 1_000_000
            &&& x0 <= 0 <= x1 <= 1_280_000_000 ==> -1280 <= 2 * (1280 * p.frame.w - x1) <= 1280
            &&& y0 <= 0 <= y1 <= 1_280_000_000 ==> -1280 <= 2 * (1280 * p.frame.h - y1) <= 1280
        }),
{
    let (x0, x1) = (2 * data[i] - data[2 * 8400 + i], 2 * data[i] + data[2 * 8400 + i]);
    let (y0, y1) = (2 * data[8400 + i] - data[3 * 8400 + i], 2 * data[8400 + i] + data[3 * 8400 + i]);
    rounded_is_near(x0, 1280);
    rounded_is_near(x1, 1280);
    rounded_is_near(y0, 1280);
    rounded_is_near(y1, 1280);
}

} // verus!
