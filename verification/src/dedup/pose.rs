//! Pose descriptors: five facial points relative to the face box, and their distance.
use crate::fixed::{integer_root, is_root};
use crate::tally::{sum, sum_bound};
use vstd::prelude::*;

verus! {

/// Five points, `x` and `y` each, in fixed point of the face box.
pub type PoseDesc = [i32; 10];

/// The square of the distance of two descriptors.
pub open spec fn square_distance(a: Seq<i32>, b: Seq<i32>) -> int {
    sum(|k: int| (a[k] - b[k]) * (a[k] - b[k]), 0, 10)
}

/// Two descriptors lie within `threshold` of each other.
pub open spec fn near(a: Seq<i32>, b: Seq<i32>, threshold: int) -> bool {
    threshold >= 0 && square_distance(a, b) <= threshold * threshold
}

/// Terms of the squared distance are no larger than the square of the width of `i32`.
proof fn square_bound(a: i32, b: i32)
    ensures
        0 <= (a - b) * (a - b) <= 0x1_0000_0000_0000_0000,
{
    assert(0 <= (a - b) * (a - b) <= 0x1_0000_0000_0000_0000) by (nonlinear_arith)
        requires
            -0x1_0000_0000 <= a - b <= 0x1_0000_0000,
    ;
}

/// The square of the distance of two descriptors.
fn squared(a: &PoseDesc, b: &PoseDesc) -> (r: u128)
    ensures
        r == square_distance(a@, b@),
        r <= 0xa_0000_0000_0000_0000,
{
    let ghost f = |k: int| (a@[k] - b@[k]) * (a@[k] - b@[k]);
    let mut total: u128 = 0;
    let mut k: usize = 0;
    while k < 10
        invariant
            k <= 10,
            f == (|k: int| (a@[k] - b@[k]) * (a@[k] - b@[k])),
            total == sum(f, 0, k as int),
            total <= k * 0x1_0000_0000_0000_0000,
        decreases 10 - k,
    {
        let d: i128 = a[k] as i128 - b[k] as i128;
        proof {
            square_bound(a@[k as int], b@[k as int]);
        }
        let s: i128 = d * d;
        total += s as u128;
        k += 1;
    }
    total
}

/// The distance of two descriptors, rounded down to a whole unit of the fixed point.
pub fn pose_distance(a: &PoseDesc, b: &PoseDesc) -> (r: u64)
    ensures
        is_root(square_distance(a@, b@), r as int),
{
    integer_root(squared(a, b)) as u64
}

/// Tells whether two descriptors lie within `threshold` of each other.
pub fn is_near(a: &PoseDesc, b: &PoseDesc, threshold: i64) -> (r: bool)
    ensures
        r == near(a@, b@, threshold as int),
{
    if threshold < 0 {
        return false;
    }
    let t: u128 = threshold as u128;
    assert(t * t <= 0x8000_0000_0000_0000 * 0x8000_0000_0000_0000) by (nonlinear_arith)
        requires
            0 <= t <= 0x8000_0000_0000_0000,
    ;
    squared(a, b) <= t * t
}

/// A descriptor lies at distance zero from itself, and the order of two does not matter.
pub proof fn pose_distance_symmetric(a: Seq<i32>, b: Seq<i32>)
    ensures
        square_distance(a, a) == 0,
        square_distance(a, b) == square_distance(b, a),
{
    sum_bound(|k: int| (a[k] - a[k]) * (a[k] - a[k]), 0, 10, 0);
    assert forall|k: int| (a[k] - b[k]) * (a[k] - b[k]) == #[trigger] ((b[k] - a[k]) * (b[k] - a[k])) by {
        let d = a[k] - b[k];
        assert(d * d == (-d) * (-d)) by (nonlinear_arith);
    }
    crate::tally::sum_same(
        |k: int| (a[k] - b[k]) * (a[k] - b[k]),
        |k: int| (b[k] - a[k]) * (b[k] - a[k]),
        0,
        10,
    );
}

/// The square of the distance is the sum of the squares of the ten differences.
pub proof fn square_distance_is_euclidean(a: Seq<i32>, b: Seq<i32>)
    ensures
        ({
            let d = |k: int| (a[k] - b[k]) * (a[k] - b[k]);
            square_distance(a, b) == d(0) + d(1) + d(2) + d(3) + d(4) + d(5) + d(6) + d(7) + d(8)
                + d(9)
        }),
{
    reveal_with_fuel(sum, 11);
}

} // verus!
