//! Composition: where the faces lie, how large they are, and how many there are.
use crate::ai::facedetect::FaceBox;
use crate::fixed::{integer_root, root_is_root, root_of, round_div, rounded, rounded_is_near};
use crate::tally::{reorders, tally, tally_reordered, tally_same};
use vstd::prelude::*;

verus! {

/// Score of a picture without a subject.
pub const NO_FACE_SCORE: i64 = 60_000_000;

/// Height from which a face is a subject.
pub const SUBJECT_MIN_H: i64 = 40_000;

/// The square of the distance of the middle of a face from the crossing of the given thirds, in
/// sixths of the fixed point.
pub open spec fn crossing_square(f: FaceBox, tx: int, ty: int) -> int {
    let dx = 3 * (2 * f.x + f.w) - 2_000_000 * tx;
    let dy = 3 * (2 * f.y + f.h) - 2_000_000 * ty;
    dx * dx + dy * dy
}

/// The lower of two numbers.
pub open spec fn least(a: int, b: int) -> int {
    if a < b {
        a
    } else {
        b
    }
}

/// The square of the distance from the nearest of the four crossings.
pub open spec fn nearest_square(f: FaceBox) -> int {
    least(
        least(crossing_square(f, 1, 1), crossing_square(f, 1, 2)),
        least(crossing_square(f, 2, 1), crossing_square(f, 2, 2)),
    )
}

/// What the place of a face is worth: 2 820 000 on a crossing, nothing 0.47 of a side away.
pub open spec fn place_worth(f: FaceBox) -> int {
    let d = root_of(nearest_square(f));
    if d < 2_820_000 {
        2_820_000 - d
    } else {
        0
    }
}

/// What the height of a face is worth: 160 000 from 8 to 30 percent, less for smaller faces, three
/// quarters for larger ones.
pub open spec fn size_worth(h: int) -> int {
    if h < 80_000 {
        80_000 + h
    } else if h <= 300_000 {
        160_000
    } else {
        120_000
    }
}

/// What a face is worth.
pub open spec fn face_worth(f: FaceBox) -> int {
    place_worth(f) * size_worth(f.h as int)
}

/// The face is a subject.
pub open spec fn is_subject(f: FaceBox) -> bool {
    f.h >= SUBJECT_MIN_H
}

/// How many of the first `k` faces are subjects.
pub open spec fn subjects(faces: Seq<FaceBox>, k: int) -> nat {
    tally(|i: int| is_subject(faces[i]), 0, k)
}

/// How many of the first `k` faces are large enough to make a group.
pub open spec fn group_size(faces: Seq<FaceBox>, k: int) -> nat {
    tally(|i: int| faces[i].h >= 50_000, 0, k)
}

/// The worth of the best subject among the first `k` faces.
pub open spec fn best_worth(faces: Seq<FaceBox>, k: int) -> int
    decreases k,
{
    if k <= 0 {
        0
    } else {
        let b = best_worth(faces, k - 1);
        if is_subject(faces[k - 1]) && face_worth(faces[k - 1]) > b {
            face_worth(faces[k - 1])
        } else {
            b
        }
    }
}

/// What is left of the marks, in percent, for a group of `n`.
pub open spec fn group_factor(n: int) -> int {
    if n <= 1 {
        100
    } else if n <= 4 {
        95
    } else {
        85
    }
}

/// The score of the composition.
pub open spec fn composition_of(faces: Seq<FaceBox>) -> int {
    let n = faces.len() as int;
    if subjects(faces, n) == 0 {
        60_000_000
    } else {
        rounded(best_worth(faces, n) * group_factor(group_size(faces, n) as int), 451_200)
    }
}

/// The square of the distance from one crossing.
fn crossing(f: &FaceBox, tx: i64, ty: i64) -> (r: i64)
    requires
        f.wf(),
        1 <= tx <= 2,
        1 <= ty <= 2,
    ensures
        r == crossing_square(*f, tx as int, ty as int),
        0 <= r <= 800_000_000_000_000,
{
    let dx: i64 = 3 * (2 * f.x + f.w) - 2_000_000 * tx;
    let dy: i64 = 3 * (2 * f.y + f.h) - 2_000_000 * ty;
    assert(0 <= dx * dx <= 400_000_000_000_000) by (nonlinear_arith)
        requires
            -20_000_000 <= dx <= 20_000_000,
    ;
    assert(0 <= dy * dy <= 400_000_000_000_000) by (nonlinear_arith)
        requires
            -20_000_000 <= dy <= 20_000_000,
    ;
    dx * dx + dy * dy
}

/// The lower of two numbers.
fn min_of(a: i64, b: i64) -> (r: i64)
    ensures
        r == least(a as int, b as int),
{
    if a < b {
        a
    } else {
        b
    }
}

/// What a subject is worth.
fn worth_of(f: &FaceBox) -> (r: i64)
    requires
        f.wf(),
        is_subject(*f),
    ensures
        r == face_worth(*f),
        0 <= r <= 451_200_000_000,
{
    let d2: i64 = min_of(
        min_of(crossing(f, 1, 1), crossing(f, 1, 2)),
        min_of(crossing(f, 2, 1), crossing(f, 2, 2)),
    );
    let d: u128 = integer_root(d2 as u128);
    let p: i64 = if d < 2_820_000 { 2_820_000 - d as i64 } else { 0 };
    let s: i64 = if f.h < 80_000 {
        80_000 + f.h
    } else if f.h <= 300_000 {
        160_000
    } else {
        120_000
    };
    assert(0 <= p * s <= 451_200_000_000) by (nonlinear_arith)
        requires
            0 <= p <= 2_820_000,
            0 <= s <= 160_000,
    ;
    p * s
}

/// The score of the composition: that of the best subject, by its distance from the crossings of
/// the thirds and by its height, a little less for groups; 60 where there is no subject.
pub fn composition_score(faces: &Vec<FaceBox>) -> (r: i64)
    requires
        forall|i: int| 0 <= i < faces.len() ==> (#[trigger] faces[i]).wf(),
    ensures
        r == composition_of(faces@),
        0 <= r <= 100_000_000,
{
    let ghost p = |i: int| is_subject(faces@[i]);
    let ghost q = |i: int| faces@[i].h >= 50_000;
    let mut found: usize = 0;
    let mut group: usize = 0;
    let mut best: i64 = 0;
    let mut i: usize = 0;
    while i < faces.len()
        invariant
            i <= faces.len(),
            forall|i: int| 0 <= i < faces.len() ==> (#[trigger] faces[i]).wf(),
            p == (|i: int| is_subject(faces@[i])),
            q == (|i: int| faces@[i].h >= 50_000),
            found == tally(p, 0, i as int),
            group == tally(q, 0, i as int),
            found <= i,
            group <= i,
            best == best_worth(faces@, i as int),
            0 <= best <= 451_200_000_000,
        decreases faces.len() - i,
    {
        let f = &faces[i];
        assert(faces[i as int].wf());
        if f.h >= SUBJECT_MIN_H {
            found += 1;
            let v: i64 = worth_of(f);
            if v > best {
                best = v;
            }
        }
        if f.h >= 50_000 {
            group += 1;
        }
        i += 1;
    }
    if found == 0 {
        return NO_FACE_SCORE;
    }
    let factor: i64 = if group <= 1 {
        100
    } else if group <= 4 {
        95
    } else {
        85
    };
    assert(factor == group_factor(group as int));
    assert(0 <= best * factor <= 45_120_000_000_000) by (nonlinear_arith)
        requires
            0 <= best <= 451_200_000_000,
            0 <= factor <= 100,
    ;
    assert(0 <= rounded(best * factor, 451_200) <= 100_000_000);
    round_div((best * factor) as i128, 451_200) as i64
}

/// Without a subject the composition is neither praised nor blamed.
pub proof fn no_subject_is_neutral(faces: Seq<FaceBox>)
    requires
        forall|i: int| 0 <= i < faces.len() ==> !is_subject(#[trigger] faces[i]),
    ensures
        composition_of(faces) == NO_FACE_SCORE,
{
    crate::tally::tally_none(|i: int| is_subject(faces[i]), 0, faces.len() as int);
}

/// The order of the faces does not matter.
pub proof fn order_of_faces_does_not_matter(
    a: Seq<FaceBox>,
    b: Seq<FaceBox>,
    f: spec_fn(int) -> int,
    g: spec_fn(int) -> int,
)
    requires
        a.len() == b.len(),
        reorders(f, g, a.len() as int),
        forall|i: int| 0 <= i < a.len() ==> #[trigger] a[i] == b[f(i)],
    ensures
        composition_of(a) == composition_of(b),
{
    let n = a.len() as int;
    tally_reordered(|i: int| is_subject(a[i]), |i: int| is_subject(b[i]), f, g, n);
    tally_reordered(|i: int| a[i].h >= 50_000, |i: int| b[i].h >= 50_000, f, g, n);
    no_better(a, b, f, n);
    assert forall|i: int| 0 <= i < n implies #[trigger] b[i] == a[g(i)] by {
        assert(f(g(i)) == i);
        assert(a[g(i)] == b[f(g(i))]);
    }
    no_better(b, a, g, n);
}

/// Where every face of `a` is one of `b`, the best subject of `a` is worth no more than that of `b`.
proof fn no_better(a: Seq<FaceBox>, b: Seq<FaceBox>, f: spec_fn(int) -> int, k: int)
    requires
        0 <= k <= a.len(),
        forall|i: int| 0 <= i < a.len() ==> 0 <= #[trigger] f(i) < b.len() && a[i] == b[f(i)],
    ensures
        best_worth(a, k) <= best_worth(b, b.len() as int),
    decreases k,
{
    let n = b.len() as int;
    if k > 0 {
        no_better(a, b, f, k - 1);
        let j = f(k - 1);
        assert(a[k - 1] == b[j]);
        worth_counts(b, j, n);
    } else {
        worth_counts(b, 0, n);
    }
}

/// The best subject is worth no less than any of them, and no less than nothing.
proof fn worth_counts(faces: Seq<FaceBox>, j: int, k: int)
    requires
        0 <= k <= faces.len(),
    ensures
        best_worth(faces, k) >= 0,
        0 <= j < k && is_subject(faces[j]) ==> best_worth(faces, k) >= face_worth(faces[j]),
    decreases k,
{
    if k > 0 {
        worth_counts(faces, j, k - 1);
    }
}

/// A face too small for a subject changes nothing, wherever it stands among the others.
pub proof fn small_faces_do_not_count(faces: Seq<FaceBox>, k: int, small: FaceBox)
    requires
        0 <= k <= faces.len(),
        !is_subject(small),
    ensures
        composition_of(faces.insert(k, small)) == composition_of(faces),
{
    let n = faces.len() as int;
    let a = faces.insert(k, small);
    let b = faces.push(small);
    let f = |i: int| if i < k { i } else if i == k { n } else { i - 1 };
    let g = |i: int| if i < k { i } else if i == n { k } else { i + 1 };
    assert forall|i: int| 0 <= i < a.len() implies #[trigger] a[i] == b[f(i)] by {}
    order_of_faces_does_not_matter(a, b, f, g);
    small_face_at_end(faces, small);
}

/// A face too small for a subject changes nothing at the end.
proof fn small_face_at_end(faces: Seq<FaceBox>, small: FaceBox)
    requires
        !is_subject(small),
    ensures
        composition_of(faces.push(small)) == composition_of(faces),
{
    let n = faces.len() as int;
    let more = faces.push(small);
    tally_same(|i: int| is_subject(more[i]), |i: int| is_subject(faces[i]), 0, n);
    tally_same(|i: int| more[i].h >= 50_000, |i: int| faces[i].h >= 50_000, 0, n);
    same_best(faces, more, n);
}

/// Lists that agree up to `k` have the same best subject there.
proof fn same_best(a: Seq<FaceBox>, b: Seq<FaceBox>, k: int)
    requires
        forall|i: int| 0 <= i < k ==> #[trigger] a[i] == b[i],
    ensures
        best_worth(a, k) == best_worth(b, k),
    decreases k,
{
    if k > 0 {
        same_best(a, b, k - 1);
        assert(a[k - 1] == b[k - 1]);
    }
}

/// Of two subjects of the same height alone in a picture, the one nearer to a crossing of the
/// thirds scores no lower.
pub proof fn nearer_to_a_crossing_is_better(near: FaceBox, far: FaceBox)
    requires
        near.wf(),
        far.wf(),
        is_subject(near),
        near.h == far.h,
        place_worth(near) >= place_worth(far),
    ensures
        composition_of(seq![near]) >= composition_of(seq![far]),
{
    let a = seq![near];
    let b = seq![far];
    reveal_with_fuel(tally, 2);
    reveal_with_fuel(best_worth, 2);
    let s = size_worth(near.h as int);
    let (p, q) = (place_worth(near), place_worth(far));
    assert(p * s >= q * s && q * s >= 0) by (nonlinear_arith)
        requires
            p >= q,
            q >= 0,
            s >= 0,
    ;
    assert(a.len() == 1 && b.len() == 1);
    assert(a[0] == near && b[0] == far);
    assert(subjects(a, 1) == 1);
    assert(subjects(b, 1) == 1);
    assert(group_size(a, 1) <= 1);
    assert(group_size(b, 1) <= 1);
    assert(best_worth(a, 1) == p * s);
    assert(best_worth(b, 1) == q * s);
    assert(composition_of(a) == rounded(p * s * 100, 451_200));
    assert(composition_of(b) == rounded(q * s * 100, 451_200));
}

/// What the place of a face is worth falls with the distance of its middle from the nearest of the four
/// crossings of the thirds: in sixths of a millionth of a side, it is 2 820 000 less that distance,
/// rounded down, and never below nothing.
pub proof fn place_falls_with_the_distance(f: FaceBox)
    requires
        f.wf(),
    ensures
        ({
            // Six times the distance of the middle from the left and the upper third, and from the
            // right and the lower one.
            let (l, r) = (6 * f.x + 3 * f.w - 2_000_000, 6 * f.x + 3 * f.w - 4_000_000);
            let (u, d) = (6 * f.y + 3 * f.h - 2_000_000, 6 * f.y + 3 * f.h - 4_000_000);
            let far = 2_820_000 - place_worth(f);
            &&& 0 <= far <= 2_820_000
            &&& far * far <= l * l + u * u && far * far <= l * l + d * d
            &&& far * far <= r * r + u * u && far * far <= r * r + d * d
            &&& far < 2_820_000 ==> l * l + u * u < (far + 1) * (far + 1) || l * l + d * d < (far + 1)
                * (far + 1) || r * r + u * u < (far + 1) * (far + 1) || r * r + d * d < (far + 1) * (
            far + 1)
        }),
{
    let (l, r) = (6 * f.x + 3 * f.w - 2_000_000, 6 * f.x + 3 * f.w - 4_000_000);
    let (u, d) = (6 * f.y + 3 * f.h - 2_000_000, 6 * f.y + 3 * f.h - 4_000_000);
    assert(crossing_square(f, 1, 1) == l * l + u * u);
    assert(crossing_square(f, 1, 2) == l * l + d * d);
    assert(crossing_square(f, 2, 1) == r * r + u * u);
    assert(crossing_square(f, 2, 2) == r * r + d * d);
    let n = nearest_square(f);
    assert(l * l >= 0 && r * r >= 0 && u * u >= 0 && d * d >= 0) by (nonlinear_arith);
    root_is_root(n);
    let far = 2_820_000 - place_worth(f);
    let e = root_of(n);
    if e >= 2_820_000 {
        assert(far * far <= e * e) by (nonlinear_arith)
            requires
                0 <= far <= e,
        ;
    }
}

/// What the height of a face is worth: all from eight to thirty percent of the picture; three quarters
/// above; below, half and as much of the other half as the face has of eight percent.
pub proof fn size_by_height(h: int)
    ensures
        80_000 <= h <= 300_000 ==> size_worth(h) == 160_000,
        h > 300_000 ==> 4 * size_worth(h) == 3 * 160_000,
        h < 80_000 ==> 2 * size_worth(h) == 160_000 + 2 * h,
{
}

/// The score is that of the best subject: a hundred for the worth of a face of a good height on a
/// crossing, five percent less for a group of two to four, fifteen percent less for a larger one.
/// Faces count for a group from a twentieth of the picture's height on.
pub proof fn best_subject_makes_the_score(faces: Seq<FaceBox>)
    requires
        forall|i: int| 0 <= i < faces.len() ==> (#[trigger] faces[i]).wf(),
        exists|i: int| 0 <= i < faces.len() && (#[trigger] faces[i]).h >= 40_000,
    ensures
        exists|j: int|
            0 <= j < faces.len() && (#[trigger] faces[j]).h >= 40_000 && {
                let worth = place_worth(faces[j]) * size_worth(faces[j].h as int);
                let group = tally(|i: int| faces[i].h >= 50_000, 0, faces.len() as int);
                let part = if group < 2 {
                    100int
                } else if group < 5 {
                    95
                } else {
                    85
                };
                &&& forall|i: int|
                    0 <= i < faces.len() && (#[trigger] faces[i]).h >= 40_000 ==> place_worth(faces[i])
                        * size_worth(faces[i].h as int) <= worth
                &&& -451_200 <= 2 * (composition_of(faces) * 451_200 - worth * part) <= 451_200
            },
{
    let n = faces.len() as int;
    let p = |i: int| is_subject(faces[i]);
    let i = choose|i: int| 0 <= i < faces.len() && (#[trigger] faces[i]).h >= 40_000;
    crate::tally::tally_none(|i: int| false, 0, n);
    crate::tally::tally_strict(|i: int| false, p, 0, n, i);
    let j = best_is_found(faces, n, i);
    rounded_is_near(best_worth(faces, n) * group_factor(group_size(faces, n) as int), 451_200);
    assert(faces[j].h >= 40_000);
    assert forall|i: int| 0 <= i < faces.len() && (#[trigger] faces[i]).h >= 40_000 implies place_worth(
        faces[i],
    ) * size_worth(faces[i].h as int) <= place_worth(faces[j]) * size_worth(faces[j].h as int) by {
        worth_counts(faces, i, n);
    }
}

/// The best worth among the first `k` faces is that of a subject, where there is one.
proof fn best_is_found(faces: Seq<FaceBox>, k: int, i: int) -> (j: int)
    requires
        0 <= i < k <= faces.len(),
        is_subject(faces[i]),
        forall|i: int| 0 <= i < faces.len() ==> (#[trigger] faces[i]).wf(),
    ensures
        0 <= j < k,
        is_subject(faces[j]),
        best_worth(faces, k) == face_worth(faces[j]),
    decreases k,
{
    let f = faces[k - 1];
    if is_subject(f) && face_worth(f) > best_worth(faces, k - 1) {
        k - 1
    } else if i < k - 1 {
        best_is_found(faces, k - 1, i)
    } else {
        let (a, b) = (place_worth(f), size_worth(f.h as int));
        assert(a * b >= 0) by (nonlinear_arith)
            requires
                a >= 0,
                b >= 0,
        ;
        place_falls_with_the_distance(f);
        worth_counts(faces, 0, k - 1);
        assert(best_worth(faces, k - 1) == 0 || exists|m: int| 0 <= m < k - 1 && is_subject(#[trigger] faces[m])) by {
            no_subject_no_worth(faces, k - 1);
        }
        if best_worth(faces, k - 1) == 0 {
            k - 1
        } else {
            let m = choose|m: int| 0 <= m < k - 1 && is_subject(#[trigger] faces[m]);
            best_is_found(faces, k - 1, m)
        }
    }
}

/// Without a subject there is no worth.
proof fn no_subject_no_worth(faces: Seq<FaceBox>, k: int)
    requires
        0 <= k <= faces.len(),
    ensures
        best_worth(faces, k) == 0 || exists|m: int| 0 <= m < k && is_subject(#[trigger] faces[m]),
    decreases k,
{
    if k > 0 {
        no_subject_no_worth(faces, k - 1);
        if is_subject(faces[k - 1]) {
            assert(is_subject(faces[k - 1]));
        }
    }
}

} // verus!
