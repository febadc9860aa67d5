//! Order statistics: the `k`-th smallest of a list of numbers.
use crate::tally::{tally, tally_all, tally_monotone};
use vstd::prelude::*;

verus! {

/// How many of the numbers are at most `v`.
pub open spec fn at_most(vals: Seq<u64>, v: int) -> nat {
    tally(|i: int| vals[i] <= v, 0, vals.len() as int)
}

/// `v` is the number with index `k` once the list is sorted: the least with more than `k` numbers
/// at or below it.
pub open spec fn is_kth(vals: Seq<u64>, k: int, v: int) -> bool {
    at_most(vals, v) > k && at_most(vals, v - 1) <= k
}

/// Only one number has a given index in the sorted list.
pub proof fn kth_unique(vals: Seq<u64>, k: int, a: int, b: int)
    requires
        is_kth(vals, k, a),
        is_kth(vals, k, b),
    ensures
        a == b,
{
    let n = vals.len() as int;
    if a < b {
        tally_monotone(|i: int| vals[i] <= a, |i: int| vals[i] <= b - 1, 0, n);
    } else if b < a {
        tally_monotone(|i: int| vals[i] <= b, |i: int| vals[i] <= a - 1, 0, n);
    }
}

/// Counts the numbers that are at most `v`.
fn count_at_most(vals: &Vec<u64>, v: u64) -> (r: usize)
    ensures
        r == at_most(vals@, v as int),
{
    let ghost p = |i: int| vals@[i] <= v as int;
    let mut c: usize = 0;
    let mut i: usize = 0;
    while i < vals.len()
        invariant
            i <= vals.len(),
            p == (|i: int| vals@[i] <= v as int),
            c == tally(p, 0, i as int),
            c <= i,
        decreases vals.len() - i,
    {
        if vals[i] <= v {
            c += 1;
        }
        i += 1;
    }
    c
}

/// Finds the number with index `k` in the sorted list; all numbers are at most `max`.
pub fn kth_smallest(vals: &Vec<u64>, k: usize, max: u64) -> (r: u64)
    requires
        k < vals.len(),
        forall|i: int| 0 <= i < vals.len() ==> #[trigger] vals[i] <= max,
    ensures
        is_kth(vals@, k as int, r as int),
        r <= max,
{
    let ghost n = vals.len() as int;
    proof {
        tally_all(|i: int| vals@[i] <= max as int, 0, n);
        crate::tally::tally_none(|i: int| vals@[i] <= -1, 0, n);
    }
    let mut lo: u64 = 0;
    let mut hi: u64 = max;
    while lo < hi
        invariant
            lo <= hi <= max,
            at_most(vals@, lo - 1) <= k,
            at_most(vals@, hi as int) > k,
        decreases hi - lo,
    {
        let mid: u64 = lo + (hi - lo) / 2;
        if count_at_most(vals, mid) > k {
            hi = mid;
        } else {
            lo = mid + 1;
        }
    }
    lo
}

/// The index that a percentile points at, in a list of `n` numbers that is not empty.
pub open spec fn percentile_index(n: int, pct: int) -> int {
    let i = n * pct / 100;
    if i < n - 1 {
        i
    } else {
        n - 1
    }
}

/// The index that a percentile points at.
pub fn index_of_percentile(n: usize, pct: u32) -> (r: usize)
    requires
        n > 0,
    ensures
        r == percentile_index(n as int, pct as int),
        r < n,
{
    assert(0 <= n * pct <= 0xffff_ffff_ffff_ffff * 0xffff_ffff) by (nonlinear_arith)
        requires
            0 <= n <= 0xffff_ffff_ffff_ffff,
            0 <= pct <= 0xffff_ffff,
    ;
    let i: u128 = (n as u128) * (pct as u128) / 100;
    if i < (n - 1) as u128 {
        i as usize
    } else {
        n - 1
    }
}

/// The first place from `k` on in a list, by index, where a lower key stands.
pub open spec fn slot(order: Seq<int>, keys: Seq<i64>, key: int, k: int) -> int
    decreases order.len() - k,
{
    if k >= order.len() {
        order.len() as int
    } else if keys[order[k]] < key {
        k
    } else {
        slot(order, keys, key, k + 1)
    }
}

/// The first `n` of a list, by index, from the highest key to the lowest; equal keys keep their
/// order.
pub open spec fn descending(keys: Seq<i64>, n: int) -> Seq<int>
    decreases n,
{
    if n <= 0 {
        Seq::empty()
    } else {
        let o = descending(keys, n - 1);
        o.insert(slot(o, keys, keys[n - 1] as int, 0), n - 1)
    }
}

/// `slot` gives a place at or after its start, at most the length.
proof fn slot_range(order: Seq<int>, keys: Seq<i64>, key: int, k: int)
    requires
        0 <= k <= order.len(),
    ensures
        k <= slot(order, keys, key, k) <= order.len(),
        slot(order, keys, key, k) < order.len() ==> keys[order[slot(order, keys, key, k)]] < key,
        forall|i: int| k <= i < slot(order, keys, key, k) ==> keys[#[trigger] order[i]] >= key,
    decreases order.len() - k,
{
    if k < order.len() && keys[order[k]] >= key {
        slot_range(order, keys, key, k + 1);
    }
}

/// The list holds every index once, from the highest key to the lowest, equal keys in their order.
pub proof fn descending_is_sorted(keys: Seq<i64>, n: int)
    requires
        0 <= n <= keys.len(),
    ensures
        descending(keys, n).len() == n,
        forall|a: int| 0 <= a < n ==> 0 <= #[trigger] descending(keys, n)[a] < n,
        forall|i: int| 0 <= i < n ==> #[trigger] descending(keys, n).contains(i),
        forall|a: int, b: int|
            0 <= a < b < n ==> {
                let i = #[trigger] descending(keys, n)[a];
                let j = #[trigger] descending(keys, n)[b];
                keys[i] > keys[j] || (keys[i] == keys[j] && i < j)
            },
    decreases n,
{
    if n > 0 {
        descending_is_sorted(keys, n - 1);
        let o = descending(keys, n - 1);
        let key = keys[n - 1] as int;
        slot_range(o, keys, key, 0);
        let p = slot(o, keys, key, 0);
        let t = descending(keys, n);
        assert(t == o.insert(p, n - 1));
        assert forall|a: int| 0 <= a < n implies 0 <= #[trigger] t[a] < n by {
            if a < p {
                assert(t[a] == o[a]);
            } else if a > p {
                assert(t[a] == o[a - 1]);
            }
        }
        assert forall|i: int| 0 <= i < n implies #[trigger] t.contains(i) by {
            if i == n - 1 {
                assert(t[p] == i);
            } else {
                assert(o.contains(i));
                let a = choose|a: int| 0 <= a < o.len() && o[a] == i;
                if a < p {
                    assert(t[a] == i);
                } else {
                    assert(t[a + 1] == i);
                }
            }
        }
        assert forall|a: int, b: int| 0 <= a < b < n implies {
            let i = #[trigger] t[a];
            let j = #[trigger] t[b];
            keys[i] > keys[j] || (keys[i] == keys[j] && i < j)
        } by {
            if b < p {
                assert(t[a] == o[a] && t[b] == o[b]);
            } else if b == p {
                assert(t[a] == o[a]);
            } else if a > p {
                assert(t[a] == o[a - 1] && t[b] == o[b - 1]);
            } else if a == p {
                assert(t[b] == o[b - 1]);
                if b - 1 > p {
                    assert(keys[o[p]] >= keys[o[b - 1]]);
                }
            } else {
                assert(t[a] == o[a] && t[b] == o[b - 1]);
            }
        }
    }
}

/// Lists the indices of the keys from the highest to the lowest; equal keys keep their order.
pub fn order_descending(keys: &Vec<i64>) -> (r: Vec<usize>)
    ensures
        r@.map_values(|i: usize| i as int) == descending(keys@, keys.len() as int),
        r.len() == keys.len(),
        forall|k: int| 0 <= k < r.len() ==> #[trigger] r[k] < keys.len(),
{
    let n: usize = keys.len();
    let mut order: Vec<usize> = Vec::new();
    let mut i: usize = 0;
    assert(order@.map_values(|i: usize| i as int) =~= descending(keys@, 0));
    while i < n
        invariant
            i <= n == keys.len(),
            order.len() == i,
            forall|k: int| 0 <= k < i ==> #[trigger] order[k] < n,
            order@.map_values(|i: usize| i as int) == descending(keys@, i as int),
        decreases n - i,
    {
        let ghost o = descending(keys@, i as int);
        let ghost key = keys[i as int] as int;
        let mut k: usize = 0;
        while k < order.len() && keys[order[k]] >= keys[i]
            invariant
                i < n == keys.len(),
                k <= order.len() == i,
                forall|k: int| 0 <= k < i ==> #[trigger] order[k] < n,
                o == order@.map_values(|i: usize| i as int),
                key == keys[i as int],
                slot(o, keys@, key, 0) == slot(o, keys@, key, k as int),
            decreases order.len() - k,
        {
            assert(o[k as int] == order[k as int]);
            k += 1;
        }
        if k < order.len() {
            assert(o[k as int] == order[k as int]);
        }
        assert(slot(o, keys@, key, 0) == k);
        order.insert(k, i);
        assert(order@.map_values(|i: usize| i as int) =~= o.insert(k as int, i as int));
        i += 1;
    }
    order
}

/// The index of a percentile below a hundred is the share of the list that it names, rounded down; it
/// is never beyond the last number.
pub proof fn percentile_index_is_the_share(n: int, pct: int)
    requires
        n > 0,
        pct >= 0,
    ensures
        pct < 100 ==> 100 * percentile_index(n, pct) <= pct * n < 100 * (percentile_index(n, pct) + 1),
        pct >= 100 ==> percentile_index(n, pct) == n - 1,
        0 <= percentile_index(n, pct) < n,
{
    assert(n * pct == pct * n) by (nonlinear_arith);
    assert(pct >= 0 ==> n * pct >= 0) by (nonlinear_arith)
        requires
            n > 0,
    ;
    assert(pct <= 99 ==> n * pct <= 99 * n) by (nonlinear_arith)
        requires
            n > 0,
    ;
    assert(pct >= 100 ==> n * pct >= 100 * n) by (nonlinear_arith)
        requires
            n > 0,
    ;
}

/// In a list that does not fall, the number with index `k` stands at place `k`.
pub proof fn kth_of_a_sorted_list(vals: Seq<u64>, k: int)
    requires
        0 <= k < vals.len(),
        forall|i: int, j: int| 0 <= i <= j < vals.len() ==> #[trigger] vals[i] <= #[trigger] vals[j],
    ensures
        is_kth(vals, k, vals[k] as int),
{
    let n = vals.len() as int;
    let v = vals[k] as int;
    let low = |i: int| vals[i] <= v;
    let less = |i: int| vals[i] <= v - 1;
    crate::tally::tally_split(low, 0, k + 1, n);
    crate::tally::tally_all(low, 0, k + 1);
    crate::tally::tally_split(less, 0, k, n);
    crate::tally::tally_none(less, k, n);
    crate::tally::tally_bound(less, 0, k);
    crate::tally::tally_bound(low, k + 1, n);
}

} // verus!
