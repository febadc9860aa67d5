//! Counting the integers of a range that have a property, and summing over a range.
use vstd::prelude::*;

verus! {

/// How many integers from `lo` up to, not including, `hi` have the property `p`.
pub open spec fn tally(p: spec_fn(int) -> bool, lo: int, hi: int) -> nat
    decreases hi - lo,
{
    if lo >= hi {
        0
    } else {
        tally(p, lo, hi - 1) + if p(hi - 1) {
            1nat
        } else {
            0nat
        }
    }
}

/// A count is at most the length of the range.
pub proof fn tally_bound(p: spec_fn(int) -> bool, lo: int, hi: int)
    requires
        lo <= hi,
    ensures
        tally(p, lo, hi) <= hi - lo,
    decreases hi - lo,
{
    if lo < hi {
        tally_bound(p, lo, hi - 1);
    }
}

/// Where `p` entails `q`, no more integers have `p` than have `q`.
pub proof fn tally_monotone(p: spec_fn(int) -> bool, q: spec_fn(int) -> bool, lo: int, hi: int)
    requires
        forall|i: int| lo <= i < hi && #[trigger] p(i) ==> q(i),
    ensures
        tally(p, lo, hi) <= tally(q, lo, hi),
    decreases hi - lo,
{
    if lo < hi {
        tally_monotone(p, q, lo, hi - 1);
    }
}

/// Two properties that agree on the range have the same count.
pub proof fn tally_same(p: spec_fn(int) -> bool, q: spec_fn(int) -> bool, lo: int, hi: int)
    requires
        forall|i: int| lo <= i < hi ==> #[trigger] p(i) == q(i),
    ensures
        tally(p, lo, hi) == tally(q, lo, hi),
    decreases hi - lo,
{
    if lo < hi {
        tally_same(p, q, lo, hi - 1);
    }
}

/// Where `p` entails `q` and some integer has `q` but not `p`, fewer integers have `p`.
pub proof fn tally_strict(
    p: spec_fn(int) -> bool,
    q: spec_fn(int) -> bool,
    lo: int,
    hi: int,
    k: int,
)
    requires
        lo <= k < hi,
        q(k),
        !p(k),
        forall|i: int| lo <= i < hi && #[trigger] p(i) ==> q(i),
    ensures
        tally(p, lo, hi) < tally(q, lo, hi),
    decreases hi - lo,
{
    if k == hi - 1 {
        tally_monotone(p, q, lo, hi - 1);
    } else {
        tally_strict(p, q, lo, hi - 1, k);
    }
}

/// The count over a range is the sum of the counts over its two parts.
pub proof fn tally_split(p: spec_fn(int) -> bool, lo: int, mid: int, hi: int)
    requires
        lo <= mid <= hi,
    ensures
        tally(p, lo, hi) == tally(p, lo, mid) + tally(p, mid, hi),
    decreases hi - mid,
{
    if mid < hi {
        tally_split(p, lo, mid, hi - 1);
    }
}

/// Where no integer of the range has the property, the count is zero.
pub proof fn tally_none(p: spec_fn(int) -> bool, lo: int, hi: int)
    requires
        forall|i: int| lo <= i < hi ==> !#[trigger] p(i),
    ensures
        tally(p, lo, hi) == 0,
    decreases hi - lo,
{
    if lo < hi {
        tally_none(p, lo, hi - 1);
    }
}

/// Where every integer of the range has the property, the count is the length.
pub proof fn tally_all(p: spec_fn(int) -> bool, lo: int, hi: int)
    requires
        lo <= hi,
        forall|i: int| lo <= i < hi ==> #[trigger] p(i),
    ensures
        tally(p, lo, hi) == hi - lo,
    decreases hi - lo,
{
    if lo < hi {
        tally_all(p, lo, hi - 1);
    }
}

/// A property that splits in two disjoint ones is counted by their sum.
pub proof fn tally_sum(
    p: spec_fn(int) -> bool,
    q: spec_fn(int) -> bool,
    r: spec_fn(int) -> bool,
    lo: int,
    hi: int,
)
    requires
        forall|i: int|
            lo <= i < hi ==> #[trigger] p(i) == (q(i) || r(i)) && !(q(i) && r(i)),
    ensures
        tally(p, lo, hi) == tally(q, lo, hi) + tally(r, lo, hi),
    decreases hi - lo,
{
    if lo < hi {
        tally_sum(p, q, r, lo, hi - 1);
        assert(p(hi - 1) == (q(hi - 1) || r(hi - 1)));
    }
}

/// At most one integer has a property that no two share.
pub proof fn tally_at_most_one(p: spec_fn(int) -> bool, lo: int, hi: int)
    requires
        forall|i: int, j: int|
            lo <= i < hi && lo <= j < hi && #[trigger] p(i) && #[trigger] p(j) ==> i == j,
    ensures
        tally(p, lo, hi) <= 1,
    decreases hi - lo,
{
    if lo < hi {
        tally_at_most_one(p, lo, hi - 1);
        if p(hi - 1) {
            tally_none(p, lo, hi - 1);
        }
    }
}

/// No more integers have `p` than there are values from `a` up to `b`, where `f` sends each of
/// them to a value of its own in that range.
pub proof fn tally_injective(
    p: spec_fn(int) -> bool,
    f: spec_fn(int) -> int,
    lo: int,
    hi: int,
    a: int,
    b: int,
)
    requires
        a <= b,
        forall|i: int| lo <= i < hi && #[trigger] p(i) ==> a <= f(i) < b,
        forall|i: int, j: int|
            lo <= i < hi && lo <= j < hi && #[trigger] p(i) && #[trigger] p(j) && f(i) == f(j)
                ==> i == j,
    ensures
        tally(p, lo, hi) <= b - a,
    decreases b - a,
{
    if a == b {
        tally_none(p, lo, hi);
    } else {
        let top = |i: int| p(i) && f(i) == b - 1;
        let rest = |i: int| p(i) && f(i) != b - 1;
        tally_sum(p, top, rest, lo, hi);
        tally_at_most_one(top, lo, hi);
        tally_injective(rest, f, lo, hi, a, b - 1);
    }
}

/// Where `f` sends the integers below `n` that have `p` to integers below `n` that have `q`, each
/// to one of its own, no more integers have `p` than have `q`.
pub proof fn tally_maps_into(
    p: spec_fn(int) -> bool,
    q: spec_fn(int) -> bool,
    f: spec_fn(int) -> int,
    n: int,
)
    requires
        n >= 0,
        forall|i: int| 0 <= i < n && #[trigger] p(i) ==> 0 <= f(i) < n && q(f(i)),
        forall|i: int, j: int|
            0 <= i < n && 0 <= j < n && #[trigger] f(i) == #[trigger] f(j) ==> i == j,
    ensures
        tally(p, 0, n) <= tally(q, 0, n),
{
    image_grows(p, f, n, n);
    tally_monotone(image_of(p, f, n), q, 0, n);
}

/// What `f` makes of the integers below `k` that have `p`.
spec fn image_of(p: spec_fn(int) -> bool, f: spec_fn(int) -> int, k: int) -> spec_fn(int) -> bool {
    |j: int| exists|i: int| 0 <= i < k && #[trigger] p(i) && f(i) == j
}

/// Each further integer that has `p` adds to what `f` makes of them.
proof fn image_grows(p: spec_fn(int) -> bool, f: spec_fn(int) -> int, n: int, k: int)
    requires
        0 <= k <= n,
        forall|i: int| 0 <= i < n && #[trigger] p(i) ==> 0 <= f(i) < n,
        forall|i: int, j: int|
            0 <= i < n && 0 <= j < n && #[trigger] f(i) == #[trigger] f(j) ==> i == j,
    ensures
        tally(p, 0, k) <= tally(image_of(p, f, k), 0, n),
    decreases k,
{
    if k > 0 {
        image_grows(p, f, n, k - 1);
        let a = image_of(p, f, k - 1);
        let b = image_of(p, f, k);
        assert forall|j: int| 0 <= j < n && #[trigger] a(j) implies b(j) by {
            let i = choose|i: int| 0 <= i < k - 1 && #[trigger] p(i) && f(i) == j;
            assert(p(i));
        }
        if p(k - 1) {
            let j = f(k - 1);
            assert(b(j));
            assert(!a(j)) by {
                if a(j) {
                    let i = choose|i: int| 0 <= i < k - 1 && #[trigger] p(i) && f(i) == j;
                    assert(f(i) == f(k - 1));
                }
            }
            tally_strict(a, b, 0, n, j);
        } else {
            tally_monotone(a, b, 0, n);
        }
    }
}

/// The place of `i` among the integers of the range that have `p`, in the order `lt`.
pub open spec fn place(
    p: spec_fn(int) -> bool,
    lt: spec_fn(int, int) -> bool,
    lo: int,
    hi: int,
    i: int,
) -> nat {
    tally(|j: int| p(j) && lt(j, i), lo, hi)
}

/// `f` and `g` carry the integers below `n` to each other, each undoing the other: a list that holds
/// at place `i` what another holds at place `f(i)` is a reordering of it.
pub open spec fn reorders(f: spec_fn(int) -> int, g: spec_fn(int) -> int, n: int) -> bool {
    &&& forall|i: int| 0 <= i < n ==> 0 <= #[trigger] f(i) < n && g(f(i)) == i
    &&& forall|i: int| 0 <= i < n ==> 0 <= #[trigger] g(i) < n && f(g(i)) == i
}

/// A reordering keeps counts.
pub proof fn tally_reordered(
    p: spec_fn(int) -> bool,
    q: spec_fn(int) -> bool,
    f: spec_fn(int) -> int,
    g: spec_fn(int) -> int,
    n: int,
)
    requires
        n >= 0,
        reorders(f, g, n),
        forall|i: int| 0 <= i < n ==> #[trigger] p(i) == q(f(i)),
    ensures
        tally(p, 0, n) == tally(q, 0, n),
{
    let np = |i: int| 0 <= i < n && p(i);
    let nq = |i: int| 0 <= i < n && q(i);
    tally_same(p, np, 0, n);
    tally_same(q, nq, 0, n);
    assert forall|i: int, j: int| 0 <= i < n && 0 <= j < n && #[trigger] f(i) == #[trigger] f(
        j,
    ) implies i == j by {
        assert(g(f(i)) == i && g(f(j)) == j);
    }
    assert forall|i: int, j: int| 0 <= i < n && 0 <= j < n && #[trigger] g(i) == #[trigger] g(
        j,
    ) implies i == j by {
        assert(f(g(i)) == i && f(g(j)) == j);
    }
    tally_maps_into(np, nq, f, n);
    assert forall|i: int| 0 <= i < n && #[trigger] nq(i) implies 0 <= g(i) < n && np(g(i)) by {
        assert(f(g(i)) == i);
        assert(p(g(i)) == q(f(g(i))));
    }
    tally_maps_into(nq, np, g, n);
}

/// `lt` orders the integers strictly and totally.
pub open spec fn strict_order(lt: spec_fn(int, int) -> bool) -> bool {
    &&& forall|i: int| !#[trigger] lt(i, i)
    &&& forall|i: int, j: int| i != j ==> #[trigger] lt(i, j) || lt(j, i)
    &&& forall|i: int, j: int, k: int| #[trigger] lt(i, j) && #[trigger] lt(j, k) ==> lt(i, k)
}

/// Who comes first in the order has the lower place.
pub proof fn place_increases(
    p: spec_fn(int) -> bool,
    lt: spec_fn(int, int) -> bool,
    lo: int,
    hi: int,
    i: int,
    j: int,
)
    requires
        strict_order(lt),
        lo <= i < hi,
        p(i),
        lt(i, j),
    ensures
        place(p, lt, lo, hi, i) < place(p, lt, lo, hi, j),
{
    tally_strict(|k: int| p(k) && lt(k, i), |k: int| p(k) && lt(k, j), lo, hi, i);
}

/// A place is below the count.
pub proof fn place_bound(
    p: spec_fn(int) -> bool,
    lt: spec_fn(int, int) -> bool,
    lo: int,
    hi: int,
    i: int,
)
    requires
        strict_order(lt),
        lo <= i < hi,
        p(i),
    ensures
        place(p, lt, lo, hi, i) < tally(p, lo, hi),
{
    tally_strict(|k: int| p(k) && lt(k, i), p, lo, hi, i);
}

/// Exactly the first `e` of the integers with `p`, or all of them where there are fewer, have a
/// place below `e`.
pub proof fn place_count(
    p: spec_fn(int) -> bool,
    lt: spec_fn(int, int) -> bool,
    lo: int,
    hi: int,
    e: int,
)
    requires
        strict_order(lt),
        0 <= e <= tally(p, lo, hi),
    ensures
        tally(|i: int| p(i) && place(p, lt, lo, hi, i) < e, lo, hi) == e,
        tally(|i: int| p(i) && place(p, lt, lo, hi, i) >= e, lo, hi) == tally(p, lo, hi) - e,
{
    let low = |i: int| p(i) && place(p, lt, lo, hi, i) < e;
    let high = |i: int| p(i) && place(p, lt, lo, hi, i) >= e;
    let f = |i: int| place(p, lt, lo, hi, i) as int;
    assert forall|i: int, j: int|
        lo <= i < hi && lo <= j < hi && #[trigger] p(i) && #[trigger] p(j) && f(i) == f(j) implies i
        == j by {
        if lt(i, j) {
            place_increases(p, lt, lo, hi, i, j);
        } else if lt(j, i) {
            place_increases(p, lt, lo, hi, j, i);
        }
    }
    assert forall|i: int| lo <= i < hi && #[trigger] p(i) implies f(i) < tally(p, lo, hi) by {
        place_bound(p, lt, lo, hi, i);
    }
    tally_injective(low, f, lo, hi, 0, e);
    tally_injective(high, f, lo, hi, e, tally(p, lo, hi) as int);
    tally_sum(p, low, high, lo, hi);
}

/// The sum of `f` from `lo` up to, not including, `hi`.
pub open spec fn sum(f: spec_fn(int) -> int, lo: int, hi: int) -> int
    decreases hi - lo,
{
    if lo >= hi {
        0
    } else {
        sum(f, lo, hi - 1) + f(hi - 1)
    }
}

/// Two functions that agree on the range have the same sum.
pub proof fn sum_same(f: spec_fn(int) -> int, g: spec_fn(int) -> int, lo: int, hi: int)
    requires
        forall|i: int| lo <= i < hi ==> #[trigger] f(i) == g(i),
    ensures
        sum(f, lo, hi) == sum(g, lo, hi),
    decreases hi - lo,
{
    if lo < hi {
        sum_same(f, g, lo, hi - 1);
    }
}

/// The sum of terms from 0 to `m` lies between 0 and `m` for each term.
pub proof fn sum_bound(f: spec_fn(int) -> int, lo: int, hi: int, m: int)
    requires
        lo <= hi,
        forall|i: int| lo <= i < hi ==> 0 <= #[trigger] f(i) <= m,
    ensures
        0 <= sum(f, lo, hi) <= m * (hi - lo),
    decreases hi - lo,
{
    if lo < hi {
        sum_bound(f, lo, hi - 1, m);
        assert(m * (hi - lo) == m * (hi - 1 - lo) + m) by (nonlinear_arith);
    } else {
        assert(m * (hi - lo) == 0) by (nonlinear_arith)
            requires
                hi == lo,
        ;
    }
}

/// A sum takes in every term of its range once, and no other: where one term is `d` more, the sum is `d`
/// more if the term lies in the range, and the same if not.
pub proof fn every_term_counts_once(
    f: spec_fn(int) -> int,
    g: spec_fn(int) -> int,
    lo: int,
    hi: int,
    k: int,
    d: int,
)
    requires
        forall|i: int| #[trigger]
            g(i) == f(i) + if i == k {
                d
            } else {
                0
            },
    ensures
        sum(g, lo, hi) == sum(f, lo, hi) + if lo <= k < hi {
            d
        } else {
            0
        },
        sum(|i: int| 0, lo, hi) == 0,
    decreases hi - lo,
{
    if lo < hi {
        every_term_counts_once(f, g, lo, hi - 1, k, d);
    }
}

} // verus!
