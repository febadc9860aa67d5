//! Boxes with a score: how much two of them overlap, and which of many to keep.
use crate::order::{descending, descending_is_sorted, order_descending};
use vstd::prelude::*;

verus! {

/// A box, in fixed point of the sides of the picture, with the certainty of its detection.
#[derive(Debug, Clone, Copy, PartialEq, Eq, Structural)]
pub struct ScoredBox {
    pub x: i64,
    pub y: i64,
    pub w: i64,
    pub h: i64,
    pub score: i64,
}

impl ScoredBox {
    /// The box is no larger than the picture and starts on it.
    pub open spec fn wf(&self) -> bool {
        &&& 0 <= self.x <= 1_000_000
        &&& 0 <= self.y <= 1_000_000
        &&& -1_000_000 <= self.w <= 1_000_000
        &&& -1_000_000 <= self.h <= 1_000_000
    }
}

/// How far two stretches overlap.
pub open spec fn overlap(a: int, a_len: int, b: int, b_len: int) -> int {
    let lo = if a > b { a } else { b };
    let hi = if a + a_len < b + b_len { a + a_len } else { b + b_len };
    if hi > lo {
        hi - lo
    } else {
        0
    }
}

/// The area that two boxes share.
pub open spec fn shared(a: ScoredBox, b: ScoredBox) -> int {
    overlap(a.x as int, a.w as int, b.x as int, b.w as int) * overlap(
        a.y as int,
        a.h as int,
        b.y as int,
        b.h as int,
    )
}

/// The area that two boxes cover together.
pub open spec fn covered(a: ScoredBox, b: ScoredBox) -> int {
    a.w * a.h + b.w * b.h - shared(a, b)
}

/// What two boxes share is less than `pct` percent of what they cover.
pub open spec fn apart(a: ScoredBox, b: ScoredBox, pct: int) -> bool {
    covered(a, b) <= 0 || shared(a, b) * 100 < covered(a, b) * pct
}

/// How far two stretches overlap.
fn overlap_of(a: i64, a_len: i64, b: i64, b_len: i64) -> (r: i64)
    requires
        0 <= a <= 1_000_000,
        0 <= b <= 1_000_000,
        -1_000_000 <= a_len <= 1_000_000,
        -1_000_000 <= b_len <= 1_000_000,
    ensures
        r == overlap(a as int, a_len as int, b as int, b_len as int),
        0 <= r <= 2_000_000,
{
    let lo: i64 = if a > b { a } else { b };
    let hi: i64 = if a + a_len < b + b_len { a + a_len } else { b + b_len };
    if hi > lo {
        hi - lo
    } else {
        0
    }
}

/// Tells whether what two boxes share is less than `pct` percent of what they cover.
pub fn is_apart(a: &ScoredBox, b: &ScoredBox, pct: u32) -> (r: bool)
    requires
        a.wf(),
        b.wf(),
        pct <= 100,
    ensures
        r == apart(*a, *b, pct as int),
{
    let ox: i64 = overlap_of(a.x, a.w, b.x, b.w);
    let oy: i64 = overlap_of(a.y, a.h, b.y, b.h);
    assert(0 <= ox * oy <= 4_000_000_000_000) by (nonlinear_arith)
        requires
            0 <= ox <= 2_000_000,
            0 <= oy <= 2_000_000,
    ;
    assert(-1_000_000_000_000 <= a.w * a.h <= 1_000_000_000_000) by (nonlinear_arith)
        requires
            -1_000_000 <= a.w <= 1_000_000,
            -1_000_000 <= a.h <= 1_000_000,
    ;
    assert(-1_000_000_000_000 <= b.w * b.h <= 1_000_000_000_000) by (nonlinear_arith)
        requires
            -1_000_000 <= b.w <= 1_000_000,
            -1_000_000 <= b.h <= 1_000_000,
    ;
    let s: i64 = ox * oy;
    let c: i64 = a.w * a.h + b.w * b.h - s;
    assert(-600_000_000_000_000 <= c * pct <= 600_000_000_000_000) by (nonlinear_arith)
        requires
            -6_000_000_000_000 <= c <= 6_000_000_000_000,
            0 <= pct <= 100,
    ;
    c <= 0 || s * 100 < c * (pct as i64)
}

/// Boxes are apart whichever of them is named first.
pub proof fn apart_symmetric(a: ScoredBox, b: ScoredBox, pct: int)
    ensures
        apart(a, b, pct) == apart(b, a, pct),
{
}

/// The scores of boxes.
pub open spec fn scores_of(boxes: Seq<ScoredBox>) -> Seq<i64> {
    boxes.map_values(|b: ScoredBox| b.score)
}

/// The boxes, by index, from the highest score to the lowest; equal scores keep their order.
pub open spec fn by_score(boxes: Seq<ScoredBox>) -> Seq<int> {
    descending(scores_of(boxes), boxes.len() as int)
}

/// The boxes that are kept of the first `k` in the given order: each that lies apart from all that
/// were kept before it.
pub open spec fn kept_of(boxes: Seq<ScoredBox>, order: Seq<int>, pct: int, k: int) -> Seq<int>
    decreases k,
{
    if k <= 0 {
        Seq::empty()
    } else {
        let s = kept_of(boxes, order, pct, k - 1);
        if forall|j: int|
            0 <= j < s.len() ==> apart(#[trigger] boxes[s[j]], boxes[order[k - 1]], pct) {
            s.push(order[k - 1])
        } else {
            s
        }
    }
}

/// The boxes that are kept of all, by index.
pub open spec fn suppressed(boxes: Seq<ScoredBox>, pct: int) -> Seq<int> {
    kept_of(boxes, by_score(boxes), pct, boxes.len() as int)
}

/// Any two boxes that are kept lie apart.
pub proof fn kept_boxes_are_apart(boxes: Seq<ScoredBox>, order: Seq<int>, pct: int, k: int)
    ensures
        forall|a: int, b: int|
            0 <= a < b < kept_of(boxes, order, pct, k).len() ==> apart(
                boxes[#[trigger] kept_of(boxes, order, pct, k)[a]],
                boxes[#[trigger] kept_of(boxes, order, pct, k)[b]],
                pct,
            ),
    decreases k,
{
    if k > 0 {
        kept_boxes_are_apart(boxes, order, pct, k - 1);
        let s = kept_of(boxes, order, pct, k - 1);
        let t = kept_of(boxes, order, pct, k);
        assert forall|a: int, b: int| 0 <= a < b < t.len() implies apart(
            boxes[#[trigger] t[a]],
            boxes[#[trigger] t[b]],
            pct,
        ) by {
            assert(t[a] == s[a]);
            if b < s.len() {
                assert(t[b] == s[b]);
            } else {
                assert(t[b] == order[k - 1]);
                assert(apart(boxes[s[a]], boxes[order[k - 1]], pct));
            }
        }
    }
}

/// What is kept is made of earlier members of the order, and a member that is not kept lies too
/// close to one that was kept before it.
proof fn kept_members(boxes: Seq<ScoredBox>, order: Seq<int>, pct: int, k: int)
    requires
        0 <= k <= order.len(),
    ensures
        forall|c: int|
            0 <= c < kept_of(boxes, order, pct, k).len() ==> order.take(k).contains(
                #[trigger] kept_of(boxes, order, pct, k)[c],
            ),
        forall|m: int|
            0 <= m < k && !kept_of(boxes, order, pct, k).contains(#[trigger] order[m]) ==> exists|
                c: int,
            |
                0 <= c < kept_of(boxes, order, pct, m).len() && c < kept_of(
                    boxes,
                    order,
                    pct,
                    k,
                ).len() && kept_of(boxes, order, pct, m)[c] == kept_of(boxes, order, pct, k)[c]
                    && !apart(boxes[#[trigger] kept_of(boxes, order, pct, k)[c]], boxes[order[m]], pct),
    decreases k,
{
    if k > 0 {
        kept_members(boxes, order, pct, k - 1);
        let s = kept_of(boxes, order, pct, k - 1);
        let t = kept_of(boxes, order, pct, k);
        assert forall|c: int| 0 <= c < t.len() implies order.take(k).contains(#[trigger] t[c]) by {
            if c < s.len() {
                assert(t[c] == s[c]);
                assert(order.take(k - 1).contains(s[c]));
                let head = order.take(k - 1);
                let i = choose|i: int| 0 <= i < head.len() && head[i] == s[c];
                assert(order.take(k)[i] == t[c]);
            } else {
                assert(order.take(k)[k - 1] == t[c]);
            }
        }
        assert forall|m: int| 0 <= m < k && !t.contains(#[trigger] order[m]) implies exists|c: int|
            0 <= c < kept_of(boxes, order, pct, m).len() && c < t.len() && kept_of(
                boxes,
                order,
                pct,
                m,
            )[c] == t[c] && !apart(boxes[#[trigger] t[c]], boxes[order[m]], pct) by {
            if m < k - 1 {
                if s.contains(order[m]) {
                    let j = choose|j: int| 0 <= j < s.len() && s[j] == order[m];
                    assert(t[j] == order[m]);
                }
                let c = choose|c: int|
                    0 <= c < kept_of(boxes, order, pct, m).len() && c < s.len() && kept_of(
                        boxes,
                        order,
                        pct,
                        m,
                    )[c] == s[c] && !apart(boxes[#[trigger] s[c]], boxes[order[m]], pct);
                assert(t[c] == s[c]);
            } else {
                if t.len() > s.len() {
                    assert(t[s.len() as int] == order[m]);
                }
                let c = choose|c: int|
                    0 <= c < s.len() && !apart(#[trigger] boxes[s[c]], boxes[order[m]], pct);
                assert(t[c] == s[c]);
            }
        }
    }
}

/// What is kept of the boxes are boxes.
pub proof fn kept_are_boxes(boxes: Seq<ScoredBox>, order: Seq<int>, pct: int, k: int)
    requires
        0 <= k <= order.len(),
        forall|a: int| 0 <= a < order.len() ==> 0 <= #[trigger] order[a] < boxes.len(),
    ensures
        forall|c: int|
            0 <= c < kept_of(boxes, order, pct, k).len() ==> 0 <= #[trigger] kept_of(
                boxes,
                order,
                pct,
                k,
            )[c] < boxes.len(),
    decreases k,
{
    if k > 0 {
        kept_are_boxes(boxes, order, pct, k - 1);
        let s = kept_of(boxes, order, pct, k - 1);
        let t = kept_of(boxes, order, pct, k);
        assert forall|c: int| 0 <= c < t.len() implies 0 <= #[trigger] t[c] < boxes.len() by {
            if c < s.len() {
                assert(t[c] == s[c]);
            }
        }
    }
}

/// Of the boxes by score, one that is not kept lies too close to a kept one of at least its score.
pub proof fn dropped_boxes_have_a_better_neighbour(boxes: Seq<ScoredBox>, pct: int, i: int)
    requires
        0 <= i < boxes.len(),
        !suppressed(boxes, pct).contains(i),
    ensures
        exists|c: int|
            0 <= c < suppressed(boxes, pct).len() && !apart(
                boxes[#[trigger] suppressed(boxes, pct)[c]],
                boxes[i],
                pct,
            ) && boxes[suppressed(boxes, pct)[c]].score >= boxes[i].score,
{
    let n = boxes.len() as int;
    let order = by_score(boxes);
    let kept = suppressed(boxes, pct);
    descending_is_sorted(scores_of(boxes), n);
    assert(order.contains(i));
    let m = choose|m: int| 0 <= m < order.len() && order[m] == i;
    kept_members(boxes, order, pct, n);
    kept_members(boxes, order, pct, m);
    let c = choose|c: int|
        0 <= c < kept_of(boxes, order, pct, m).len() && c < kept.len() && kept_of(
            boxes,
            order,
            pct,
            m,
        )[c] == kept[c] && !apart(boxes[#[trigger] kept[c]], boxes[order[m]], pct);
    assert(order.take(m).contains(kept_of(boxes, order, pct, m)[c]));
    let head = order.take(m);
    let a = choose|a: int| 0 <= a < head.len() && head[a] == kept[c];
    assert(order[a] == kept[c]);
}

/// Keeps, from the highest score to the lowest, the boxes that lie apart from all that were kept
/// before.
pub fn suppress(boxes: &Vec<ScoredBox>, pct: u32) -> (r: Vec<usize>)
    requires
        pct <= 100,
        forall|i: int| 0 <= i < boxes.len() ==> (#[trigger] boxes[i]).wf(),
    ensures
        r@.map_values(|i: usize| i as int) == suppressed(boxes@, pct as int),
        forall|k: int| 0 <= k < r.len() ==> #[trigger] r[k] < boxes.len(),
{
    let n: usize = boxes.len();
    let mut scores: Vec<i64> = Vec::new();
    let mut i: usize = 0;
    while i < n
        invariant
            i <= n == boxes.len(),
            scores.len() == i,
            forall|k: int| 0 <= k < i ==> #[trigger] scores[k] == boxes[k].score,
        decreases n - i,
    {
        scores.push(boxes[i].score);
        i += 1;
    }
    assert(scores@ =~= scores_of(boxes@));
    let order = order_descending(&scores);
    let ghost all = by_score(boxes@);
    let mut kept: Vec<usize> = Vec::new();
    let mut k: usize = 0;
    assert(kept@.map_values(|i: usize| i as int) =~= kept_of(boxes@, all, pct as int, 0));
    while k < n
        invariant
            k <= n == boxes.len(),
            order.len() == n,
            pct <= 100,
            forall|i: int| 0 <= i < boxes.len() ==> (#[trigger] boxes[i]).wf(),
            forall|k: int| 0 <= k < n ==> #[trigger] order[k] < n,
            all == order@.map_values(|i: usize| i as int),
            forall|j: int| 0 <= j < kept.len() ==> #[trigger] kept[j] < n,
            kept@.map_values(|i: usize| i as int) == kept_of(boxes@, all, pct as int, k as int),
        decreases n - k,
    {
        let ghost s = kept_of(boxes@, all, pct as int, k as int);
        let i: usize = order[k];
        assert(all[k as int] == i);
        let mut free = true;
        let mut j: usize = 0;
        while j < kept.len() && free
            invariant
                n == boxes.len(),
                j <= kept.len(),
                pct <= 100,
                i < n,
                forall|i: int| 0 <= i < boxes.len() ==> (#[trigger] boxes[i]).wf(),
                forall|j: int| 0 <= j < kept.len() ==> #[trigger] kept[j] < n,
                s == kept@.map_values(|i: usize| i as int),
                free ==> forall|m: int|
                    0 <= m < j ==> apart(#[trigger] boxes[s[m]], boxes[i as int], pct as int),
                !free ==> exists|m: int|
                    0 <= m < s.len() && !apart(#[trigger] boxes[s[m]], boxes[i as int], pct as int),
            decreases kept.len() - j,
        {
            assert(s[j as int] == kept[j as int]);
            free = is_apart(&boxes[kept[j]], &boxes[i], pct);
            if !free {
                assert(!apart(boxes[s[j as int]], boxes[i as int], pct as int));
            }
            j += 1;
        }
        if free {
            kept.push(i);
            assert(kept@.map_values(|i: usize| i as int) =~= s.push(i as int));
        }
        k += 1;
    }
    kept
}

/// How far two stretches overlap, where the first does not start behind the second: not at all where
/// it ends before; by the whole of the second where that ends no later; else by what lies between the
/// start of the second and the end of the first. Which of them is named first does not matter.
pub proof fn overlap_by_cases(a: int, a_len: int, b: int, b_len: int)
    requires
        a_len >= 0,
        b_len >= 0,
        a <= b,
    ensures
        a + a_len <= b ==> overlap(a, a_len, b, b_len) == 0,
        b + b_len <= a + a_len ==> overlap(a, a_len, b, b_len) == b_len,
        b <= a + a_len <= b + b_len ==> overlap(a, a_len, b, b_len) == a + a_len - b,
        overlap(b, b_len, a, a_len) == overlap(a, a_len, b, b_len),
{
}

/// A box inside another lies apart from it exactly where its area is less than `pct` percent of the
/// other's; boxes that share nothing lie apart; and a box never lies apart from itself.
pub proof fn apart_by_area(a: ScoredBox, b: ScoredBox, pct: int)
    requires
        a.w > 0,
        a.h > 0,
        b.w > 0,
        b.h > 0,
        0 < pct <= 100,
    ensures
        a.x <= b.x && b.x + b.w <= a.x + a.w && a.y <= b.y && b.y + b.h <= a.y + a.h ==> (apart(
            a,
            b,
            pct,
        ) <==> 100 * (b.w * b.h) < pct * (a.w * a.h)),
        a.x + a.w <= b.x || b.x + b.w <= a.x || a.y + a.h <= b.y || b.y + b.h <= a.y ==> apart(
            a,
            b,
            pct,
        ),
        !apart(a, a, pct),
{
    let (p, q) = (a.w * a.h, b.w * b.h);
    assert(p > 0 && q > 0) by (nonlinear_arith)
        requires
            p == a.w * a.h,
            q == b.w * b.h,
            a.w > 0,
            a.h > 0,
            b.w > 0,
            b.h > 0,
    ;
    assert(pct * p == p * pct && (p + q) * pct > 0 && p * 100 >= p * pct) by (nonlinear_arith)
        requires
            p > 0,
            q > 0,
            0 < pct <= 100,
    ;
    let (ox, oy) = (
        overlap(a.x as int, a.w as int, b.x as int, b.w as int),
        overlap(a.y as int, a.h as int, b.y as int, b.h as int),
    );
    if ox == 0 || oy == 0 {
        assert(ox * oy == 0) by (nonlinear_arith)
            requires
                ox == 0 || oy == 0,
        ;
    }
    assert(a.w * a.h + a.w * a.h - a.w * a.h == p);
}

/// The boxes that are kept come from the highest score to the lowest.
pub proof fn kept_boxes_come_by_score(boxes: Seq<ScoredBox>, pct: int, a: int, b: int)
    requires
        0 <= a < b < suppressed(boxes, pct).len(),
    ensures
        boxes[suppressed(boxes, pct)[a]].score >= boxes[suppressed(boxes, pct)[b]].score,
{
    let n = boxes.len() as int;
    descending_is_sorted(scores_of(boxes), n);
    kept_by_score(boxes, by_score(boxes), pct, n, a, b);
}

/// The boxes that are kept of the first `k` come in the order of the scores.
proof fn kept_by_score(boxes: Seq<ScoredBox>, order: Seq<int>, pct: int, k: int, a: int, b: int)
    requires
        0 <= k <= order.len(),
        0 <= a < b < kept_of(boxes, order, pct, k).len(),
        forall|i: int, j: int|
            0 <= i < j < order.len() ==> boxes[#[trigger] order[i]].score
                >= boxes[#[trigger] order[j]].score,
    ensures
        boxes[kept_of(boxes, order, pct, k)[a]].score >= boxes[kept_of(
            boxes,
            order,
            pct,
            k,
        )[b]].score,
    decreases k,
{
    if k > 0 {
        let s = kept_of(boxes, order, pct, k - 1);
        if b < s.len() {
            kept_by_score(boxes, order, pct, k - 1, a, b);
        } else {
            kept_members(boxes, order, pct, k - 1);
            assert(order.take(k - 1).contains(s[a]));
            let head = order.take(k - 1);
            let i = choose|i: int| 0 <= i < head.len() && head[i] == s[a];
            assert(order[i] == s[a]);
        }
    }
}

} // verus!
