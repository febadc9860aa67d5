//! Clusters around seeds: each item joins the first seed that it is close to, or becomes a seed.
use crate::tally::tally;
use vstd::prelude::*;

verus! {

/// The least index from `from` on of a seed that is close to `k`; the number of seeds if none is.
pub open spec fn first_close(
    seeds: Seq<int>,
    close: spec_fn(int, int) -> bool,
    k: int,
    from: int,
) -> int
    decreases seeds.len() - from,
{
    if from >= seeds.len() {
        seeds.len() as int
    } else if close(seeds[from], k) {
        from
    } else {
        first_close(seeds, close, k, from + 1)
    }
}

/// The seeds among the active items from `lo` up to, not including, `k`.
pub open spec fn seeds_before(
    active: spec_fn(int) -> bool,
    close: spec_fn(int, int) -> bool,
    lo: int,
    k: int,
) -> Seq<int>
    decreases k - lo,
{
    if k <= lo {
        Seq::empty()
    } else {
        let s = seeds_before(active, close, lo, k - 1);
        if active(k - 1) && first_close(s, close, k - 1, 0) >= s.len() {
            s.push(k - 1)
        } else {
            s
        }
    }
}

/// The number, from 1, of the cluster that the active item `k` belongs to.
pub open spec fn cluster_no(
    active: spec_fn(int) -> bool,
    close: spec_fn(int, int) -> bool,
    lo: int,
    k: int,
) -> int {
    first_close(seeds_before(active, close, lo, k), close, k, 0) + 1
}

/// `first_close` gives an index at or after its start, at most the number of seeds.
pub proof fn first_close_range(
    seeds: Seq<int>,
    close: spec_fn(int, int) -> bool,
    k: int,
    from: int,
)
    requires
        0 <= from <= seeds.len(),
    ensures
        from <= first_close(seeds, close, k, from) <= seeds.len(),
        first_close(seeds, close, k, from) < seeds.len() ==> close(
            seeds[first_close(seeds, close, k, from)],
            k,
        ),
        forall|c: int|
            from <= c < first_close(seeds, close, k, from) ==> !close(#[trigger] seeds[c], k),
    decreases seeds.len() - from,
{
    if from < seeds.len() && !close(seeds[from], k) {
        first_close_range(seeds, close, k, from + 1);
    }
}

/// Later items only add seeds, and there are never more seeds than items.
pub proof fn seeds_grow(
    active: spec_fn(int) -> bool,
    close: spec_fn(int, int) -> bool,
    lo: int,
    k: int,
    m: int,
)
    requires
        lo <= k <= m,
    ensures
        seeds_before(active, close, lo, k).len() <= k - lo,
        seeds_before(active, close, lo, k) == seeds_before(active, close, lo, m).take(
            seeds_before(active, close, lo, k).len() as int,
        ),
        seeds_before(active, close, lo, k).len() <= seeds_before(active, close, lo, m).len(),
    decreases m - lo,
{
    if k < m {
        seeds_grow(active, close, lo, k, m - 1);
        let a = seeds_before(active, close, lo, k);
        let b = seeds_before(active, close, lo, m - 1);
        let c = seeds_before(active, close, lo, m);
        assert(c.take(a.len() as int) =~= b.take(a.len() as int));
    } else {
        let a = seeds_before(active, close, lo, k);
        assert(a.take(a.len() as int) =~= a);
        if lo < k {
            seeds_grow(active, close, lo, k - 1, k - 1);
        }
    }
}

/// There are no more seeds than active items.
pub proof fn seeds_count(
    active: spec_fn(int) -> bool,
    close: spec_fn(int, int) -> bool,
    lo: int,
    k: int,
)
    ensures
        seeds_before(active, close, lo, k).len() <= tally(active, lo, k),
    decreases k - lo,
{
    if k > lo {
        seeds_count(active, close, lo, k - 1);
    }
}

/// An active item is close to the seed of its cluster, or is that seed itself.
pub proof fn member_is_close_to_seed(
    active: spec_fn(int) -> bool,
    close: spec_fn(int, int) -> bool,
    lo: int,
    hi: int,
    k: int,
)
    requires
        lo <= k < hi,
        active(k),
    ensures
        1 <= cluster_no(active, close, lo, k) <= seeds_before(active, close, lo, hi).len(),
        ({
            let seed = seeds_before(active, close, lo, hi)[cluster_no(active, close, lo, k) - 1];
            seed == k || close(seed, k)
        }),
{
    let s = seeds_before(active, close, lo, k);
    first_close_range(s, close, k, 0);
    seeds_grow(active, close, lo, k, k + 1);
    seeds_grow(active, close, lo, k + 1, hi);
    let t = seeds_before(active, close, lo, k + 1);
    let all = seeds_before(active, close, lo, hi);
    let c = cluster_no(active, close, lo, k) - 1;
    if c < s.len() {
        assert(t.take(s.len() as int)[c] == t[c]);
    }
    assert(all.take(t.len() as int)[c] == all[c]);
}

/// No seed is close to a later seed.
pub proof fn seeds_are_apart(
    active: spec_fn(int) -> bool,
    close: spec_fn(int, int) -> bool,
    lo: int,
    k: int,
)
    ensures
        forall|a: int, b: int|
            0 <= a < b < seeds_before(active, close, lo, k).len() ==> !close(
                #[trigger] seeds_before(active, close, lo, k)[a],
                #[trigger] seeds_before(active, close, lo, k)[b],
            ),
    decreases k - lo,
{
    if k > lo {
        seeds_are_apart(active, close, lo, k - 1);
        let s = seeds_before(active, close, lo, k - 1);
        first_close_range(s, close, k - 1, 0);
    }
}

/// Where each seed stands: it is an active item, it has the number of its place among the seeds, and
/// as many seeds came before it.
proof fn seeds_in_place(
    active: spec_fn(int) -> bool,
    close: spec_fn(int, int) -> bool,
    lo: int,
    k: int,
    c: int,
)
    requires
        0 <= c < seeds_before(active, close, lo, k).len(),
    ensures
        ({
            let s = seeds_before(active, close, lo, k)[c];
            &&& lo <= s < k
            &&& active(s)
            &&& seeds_before(active, close, lo, s).len() == c
            &&& cluster_no(active, close, lo, s) == c + 1
        }),
    decreases k - lo,
{
    if k > lo {
        let s = seeds_before(active, close, lo, k - 1);
        if c < s.len() {
            seeds_in_place(active, close, lo, k - 1, c);
        } else {
            first_close_range(s, close, k - 1, 0);
        }
    }
}

/// The seed of a cluster is its first member: it belongs to the cluster itself, and no active item
/// before it does, nor to any later cluster.
pub proof fn seed_is_first_of_its_cluster(
    active: spec_fn(int) -> bool,
    close: spec_fn(int, int) -> bool,
    lo: int,
    hi: int,
    k: int,
)
    requires
        lo <= k < hi,
        active(k),
    ensures
        ({
            let c = cluster_no(active, close, lo, k);
            let seed = seeds_before(active, close, lo, hi)[c - 1];
            &&& 1 <= c <= seeds_before(active, close, lo, hi).len()
            &&& lo <= seed <= k
            &&& active(seed)
            &&& cluster_no(active, close, lo, seed) == c
            &&& forall|m: int|
                lo <= m < seed && active(m) ==> #[trigger] cluster_no(active, close, lo, m) < c
        }),
{
    let c = cluster_no(active, close, lo, k);
    member_is_close_to_seed(active, close, lo, hi, k);
    member_is_close_to_seed(active, close, lo, k + 1, k);
    seeds_grow(active, close, lo, k + 1, hi);
    let t = seeds_before(active, close, lo, k + 1);
    let all = seeds_before(active, close, lo, hi);
    assert(all.take(t.len() as int)[c - 1] == all[c - 1]);
    seeds_in_place(active, close, lo, k + 1, c - 1);
    let seed = all[c - 1];
    assert forall|m: int| lo <= m < seed && active(m) implies #[trigger] cluster_no(
        active,
        close,
        lo,
        m,
    ) < c by {
        member_is_close_to_seed(active, close, lo, m + 1, m);
        seeds_grow(active, close, lo, m + 1, seed);
    }
}

/// An item joins the first cluster whose seed it is close to: it is close to the seed of none that
/// comes before its own.
pub proof fn earlier_clusters_do_not_fit(
    active: spec_fn(int) -> bool,
    close: spec_fn(int, int) -> bool,
    lo: int,
    hi: int,
    k: int,
    c: int,
)
    requires
        lo <= k < hi,
        active(k),
        1 <= c < cluster_no(active, close, lo, k),
    ensures
        c <= seeds_before(active, close, lo, hi).len(),
        !close(seeds_before(active, close, lo, hi)[c - 1], k),
{
    let s = seeds_before(active, close, lo, k);
    first_close_range(s, close, k, 0);
    seeds_grow(active, close, lo, k, hi);
    let all = seeds_before(active, close, lo, hi);
    assert(all.take(s.len() as int)[c - 1] == all[c - 1]);
}

} // verus!
