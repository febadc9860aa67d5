//! The list of photos that the review page shows.
use crate::cache::{lookup, stored, CacheRow};
use crate::config::{dedup_with, effective_dedup, ConfigView, ScoreConfig};
use crate::dedup::bursts::BurstInfo;
use crate::pipeline::{analyze_photo_bursts, burst_map, rate_photos, sound, stars_of, Results};
use crate::scan::{PhotoEntry, PhotoView};
use crate::score::{total_of, total_score, AnalysisResult};
use crate::text::{before, chars_of, text_before};
use vstd::hash_map::StringHashMap;
use vstd::prelude::*;

verus! {

/// The five scores and the total of a photo.
#[derive(Debug, Clone, Copy, PartialEq, Eq, Structural)]
pub struct ScoresJson {
    pub sharpness: i64,
    pub exposure: i64,
    pub noise: i64,
    pub composition: i64,
    pub aesthetic: i64,
    pub total: i64,
}

/// What is said of the burst of a photo.
#[derive(Debug, Clone, Copy, PartialEq, Eq, Structural)]
pub struct BurstJson {
    pub group: usize,
    pub size: usize,
    pub rank: usize,
    pub keep: bool,
    pub pose_cluster: usize,
}

/// One file on the review page.
#[derive(Debug)]
pub struct PhotoJson {
    /// Path relative to the directory of the photos.
    pub path: String,
    pub filename: String,
    pub ext: String,
    pub is_raw: bool,
    pub has_pair: bool,
    pub datetime: String,
    pub iso: String,
    pub f_number: String,
    pub shutter: String,
    pub focal: String,
    /// None where the photo has no scores.
    pub scores: Option<ScoresJson>,
    pub stars: Option<u8>,
    pub faces: usize,
    pub burst: Option<BurstJson>,
    pub suggested_ev: Option<i64>,
}

/// One file on the review page, as text and numbers.
pub struct JsonView {
    pub path: Seq<char>,
    pub filename: Seq<char>,
    pub ext: Seq<char>,
    pub is_raw: bool,
    pub has_pair: bool,
    pub datetime: Seq<char>,
    pub iso: Seq<char>,
    pub f_number: Seq<char>,
    pub shutter: Seq<char>,
    pub focal: Seq<char>,
    pub scores: Option<ScoresJson>,
    pub stars: Option<u8>,
    pub faces: usize,
    pub burst: Option<BurstJson>,
    pub suggested_ev: Option<i64>,
}

impl View for PhotoJson {
    type V = JsonView;

    open spec fn view(&self) -> JsonView {
        JsonView {
            path: self.path@,
            filename: self.filename@,
            ext: self.ext@,
            is_raw: self.is_raw,
            has_pair: self.has_pair,
            datetime: self.datetime@,
            iso: self.iso@,
            f_number: self.f_number@,
            shutter: self.shutter@,
            focal: self.focal@,
            scores: self.scores,
            stars: self.stars,
            faces: self.faces,
            burst: self.burst,
            suggested_ev: self.suggested_ev,
        }
    }
}

/// All photos on the review page.
#[derive(Debug)]
pub struct Snapshot {
    /// Directory of the photos.
    pub root: String,
    pub photos: Vec<PhotoJson>,
}

/// The stored results that may be used, for the JPG files among the first `k`, by the key of the
/// photo; the later of two with one key. `marks` holds size and time of each file.
pub open spec fn usable(
    entries: Seq<PhotoEntry>,
    rows: Map<Seq<char>, CacheRow>,
    marks: Seq<Option<(u64, i64)>>,
    cfg_hash: i64,
    k: int,
) -> Results
    decreases k,
{
    if k <= 0 {
        Map::empty()
    } else {
        let m = usable(entries, rows, marks, cfg_hash, k - 1);
        let e = entries[k - 1];
        match stored(rows, e.path@, marks[k - 1], cfg_hash) {
            Some(r) => if e.is_raw {
                m
            } else {
                m.insert(e.pair_id@, r)
            },
            None => m,
        }
    }
}

/// Collects the stored results that may be used.
pub fn usable_results(
    entries: &Vec<PhotoEntry>,
    rows: &StringHashMap<CacheRow>,
    marks: &Vec<Option<(u64, i64)>>,
    cfg_hash: i64,
) -> (r: StringHashMap<AnalysisResult>)
    requires
        entries.len() == marks.len(),
    ensures
        r@ == usable(entries@, rows@, marks@, cfg_hash, entries.len() as int),
{
    let mut map: StringHashMap<AnalysisResult> = StringHashMap::new();
    let mut i: usize = 0;
    while i < entries.len()
        invariant
            i <= entries.len() == marks.len(),
            map@ == usable(entries@, rows@, marks@, cfg_hash, i as int),
        decreases entries.len() - i,
    {
        let e = &entries[i];
        if let Some(r) = lookup(rows, e.path.as_str(), marks[i], cfg_hash) {
            if !e.is_raw {
                map.insert(e.pair_id.clone(), r);
            }
        }
        i += 1;
    }
    map
}

/// The scores of a result.
pub open spec fn scores_json(r: AnalysisResult, c: ConfigView) -> ScoresJson {
    ScoresJson {
        sharpness: r.scores.sharpness,
        exposure: r.scores.exposure,
        noise: r.scores.noise,
        composition: r.scores.composition,
        aesthetic: r.scores.aesthetic,
        total: total_of(r.scores, c.weights) as i64,
    }
}

/// What is said of a burst.
pub open spec fn burst_json(b: BurstInfo) -> BurstJson {
    BurstJson {
        group: b.group,
        size: b.size,
        rank: b.rank,
        keep: b.keep,
        pose_cluster: b.pose_cluster,
    }
}

/// A file on the review page, with its relative path.
pub open spec fn photo_json(
    e: PhotoView,
    rel: Seq<char>,
    entries: Seq<PhotoEntry>,
    results: Results,
    c: ConfigView,
) -> JsonView {
    let scored = results.contains_key(e.pair_id);
    let bursts = burst_map(entries, results, c.dedup, c.weights);
    JsonView {
        path: rel,
        filename: e.filename,
        ext: e.extension,
        is_raw: e.is_raw,
        has_pair: e.has_pair,
        datetime: e.date_time_original,
        iso: e.iso,
        f_number: e.f_number,
        shutter: e.shutter_speed,
        focal: e.focal_length,
        scores: if scored { Some(scores_json(results[e.pair_id], c)) } else { None },
        stars: if scored {
            Some(stars_of(entries, results, c.weights, c.metric, e.pair_id))
        } else {
            None
        },
        faces: if scored { results[e.pair_id].faces } else { 0 },
        burst: if bursts.contains_key(e.pair_id) {
            Some(burst_json(bursts[e.pair_id]))
        } else {
            None
        },
        suggested_ev: if scored { results[e.pair_id].suggested_ev } else { None },
    }
}

/// The first place from `k` on in a list of paths, by index, that holds a later path.
pub open spec fn path_slot(order: Seq<int>, paths: Seq<Seq<char>>, p: Seq<char>, k: int) -> int
    decreases order.len() - k,
{
    if k >= order.len() {
        order.len() as int
    } else if text_before(p, paths[order[k]]) {
        k
    } else {
        path_slot(order, paths, p, k + 1)
    }
}

/// The first `n` paths, by index, in the order of their text; equal paths keep their order.
pub open spec fn by_path(paths: Seq<Seq<char>>, n: int) -> Seq<int>
    decreases n,
{
    if n <= 0 {
        Seq::empty()
    } else {
        let o = by_path(paths, n - 1);
        o.insert(path_slot(o, paths, paths[n - 1], 0), n - 1)
    }
}

/// The order of texts is a strict one: nothing comes before itself, and what comes before a text
/// comes before all later ones; of two different texts one comes first.
pub proof fn text_order(a: Seq<char>, b: Seq<char>, c: Seq<char>)
    ensures
        !text_before(a, a),
        text_before(a, b) && text_before(b, c) ==> text_before(a, c),
        a != b ==> text_before(a, b) || text_before(b, a),
        !(text_before(a, b) && text_before(b, a)),
    decreases a.len(),
{
    if a.len() > 0 {
        let (x, y, z) = (
            a.skip(1),
            if b.len() > 0 { b.skip(1) } else { b },
            if c.len() > 0 { c.skip(1) } else { c },
        );
        text_order(x, y, z);
        if b.len() > 0 && a[0] == b[0] && x == y {
            assert(a =~= seq![a[0]] + x);
            assert(b =~= seq![b[0]] + y);
        }
    } else if b.len() == 0 {
        assert(a =~= b);
    }
}

/// `path_slot` gives a place at or after its start, at most the length.
proof fn path_slot_range(order: Seq<int>, paths: Seq<Seq<char>>, p: Seq<char>, k: int)
    requires
        0 <= k <= order.len(),
    ensures
        k <= path_slot(order, paths, p, k) <= order.len(),
        path_slot(order, paths, p, k) < order.len() ==> text_before(
            p,
            paths[order[path_slot(order, paths, p, k)]],
        ),
        forall|i: int|
            k <= i < path_slot(order, paths, p, k) ==> !text_before(p, paths[#[trigger] order[i]]),
    decreases order.len() - k,
{
    if k < order.len() && !text_before(p, paths[order[k]]) {
        path_slot_range(order, paths, p, k + 1);
    }
}

/// The list by path holds every index once, in the order of the paths.
pub proof fn by_path_is_sorted(paths: Seq<Seq<char>>, n: int)
    requires
        0 <= n <= paths.len(),
    ensures
        by_path(paths, n).len() == n,
        forall|a: int| 0 <= a < n ==> 0 <= #[trigger] by_path(paths, n)[a] < n,
        forall|i: int| 0 <= i < n ==> #[trigger] by_path(paths, n).contains(i),
        forall|a: int, b: int|
            0 <= a < b < n ==> {
                let i = #[trigger] by_path(paths, n)[a];
                let j = #[trigger] by_path(paths, n)[b];
                text_before(paths[i], paths[j]) || (paths[i] == paths[j] && i < j)
            },
    decreases n,
{
    if n > 0 {
        by_path_is_sorted(paths, n - 1);
        let o = by_path(paths, n - 1);
        let key = paths[n - 1];
        path_slot_range(o, paths, key, 0);
        let p = path_slot(o, paths, key, 0);
        let t = by_path(paths, n);
        assert(t == o.insert(p, n - 1));
        assert forall|a: int| 0 <= a < n implies 0 <= #[trigger] t[a] < n by {
            if a < p {
                assert(t[a] == o[a]);
            } else if a > p {
                assert(t[a] == o[a - 1]);
            }
        }
        assert forall|i: int| 0 <= i < n implies #[trigger] t.contains(i) by {
            if i == n - 1 {
                assert(t[p] == i);
            } else {
                assert(o.contains(i));
                let a = choose|a: int| 0 <= a < o.len() && o[a] == i;
                if a < p {
                    assert(t[a] == i);
                } else {
                    assert(t[a + 1] == i);
                }
            }
        }
        assert forall|a: int, b: int| 0 <= a < b < n implies {
            let i = #[trigger] t[a];
            let j = #[trigger] t[b];
            text_before(paths[i], paths[j]) || (paths[i] == paths[j] && i < j)
        } by {
            if b < p {
                assert(t[a] == o[a] && t[b] == o[b]);
            } else if b == p {
                assert(t[a] == o[a]);
                text_order(paths[o[a]], key, key);
            } else if a > p {
                assert(t[a] == o[a - 1] && t[b] == o[b - 1]);
            } else if a == p {
                assert(t[b] == o[b - 1]);
                text_order(key, paths[o[p]], paths[o[b - 1]]);
                if b - 1 > p {
                    assert(text_before(paths[o[p]], paths[o[b - 1]]) || paths[o[p]] == paths[o[b
                        - 1]]);
                }
            } else {
                assert(t[a] == o[a] && t[b] == o[b - 1]);
            }
        }
    }
}

/// Lists the indices of the paths in the order of their text.
pub fn order_by_path(paths: &Vec<Vec<char>>) -> (r: Vec<usize>)
    ensures
        r.len() == paths.len(),
        forall|k: int| 0 <= k < r.len() ==> #[trigger] r[k] < paths.len(),
        r@.map_values(|i: usize| i as int) == by_path(
            paths@.map_values(|v: Vec<char>| v@),
            paths.len() as int,
        ),
{
    let ghost ps = paths@.map_values(|v: Vec<char>| v@);
    let n: usize = paths.len();
    let mut order: Vec<usize> = Vec::new();
    let mut i: usize = 0;
    assert(order@.map_values(|i: usize| i as int) =~= by_path(ps, 0));
    while i < n
        invariant
            i <= n == paths.len(),
            ps == paths@.map_values(|v: Vec<char>| v@),
            order.len() == i,
            forall|k: int| 0 <= k < i ==> #[trigger] order[k] < n,
            order@.map_values(|i: usize| i as int) == by_path(ps, i as int),
        decreases n - i,
    {
        let ghost o = by_path(ps, i as int);
        let ghost key = ps[i as int];
        proof {
            by_path_is_sorted(ps, i as int);
            path_slot_range(o, ps, key, 0);
        }
        let mut k: usize = order.len();
        while k > 0 && before(&paths[i], &paths[order[k - 1]])
            invariant
                i < n == paths.len(),
                ps == paths@.map_values(|v: Vec<char>| v@),
                k <= order.len() == i,
                key == ps[i as int],
                o == order@.map_values(|i: usize| i as int),
                forall|k: int| 0 <= k < i ==> #[trigger] order[k] < n,
                forall|j: int| k <= j < i ==> text_before(key, ps[#[trigger] o[j]]),
            decreases k,
        {
            assert(o[k - 1] == order[k - 1]);
            assert(ps[o[k - 1]] == paths[order[k - 1] as int]@);
            k -= 1;
        }
        proof {
            let s = path_slot(o, ps, key, 0);
            if s < k {
                assert(o[k - 1] == order[k - 1]);
                assert(ps[o[k - 1]] == paths[order[k - 1] as int]@);
                assert(!text_before(key, ps[o[k - 1]]));
                text_order(key, ps[o[s]], ps[o[k - 1]]);
                if s < k - 1 {
                    assert(text_before(ps[o[s]], ps[o[k - 1]]) || ps[o[s]] == ps[o[k - 1]]);
                }
            } else if s > k {
                assert(!text_before(key, ps[o[k as int]]));
            }
            assert(s == k);
        }
        order.insert(k, i);
        assert(order@.map_values(|i: usize| i as int) =~= o.insert(k as int, i as int));
        i += 1;
    }
    order
}

/// The texts of a list.
pub open spec fn texts_of(v: Seq<String>) -> Seq<Seq<char>> {
    v.map_values(|s: String| s@)
}

/// Builds the list of photos, in the order of their relative paths: with the scores that were
/// stored, and with stars and bursts as the settings give them, by the same rules as a scoring run.
/// `rels` holds the relative path of each file.
pub fn assemble(
    root: &str,
    entries: &Vec<PhotoEntry>,
    rels: &Vec<String>,
    analyzed: &StringHashMap<AnalysisResult>,
    cfg: &ScoreConfig,
) -> (r: Snapshot)
    requires
        entries.len() == rels.len(),
        sound(analyzed@),
    ensures
        r.root@ == root@,
        r.photos.len() == entries.len(),
        ({
            let order = by_path(texts_of(rels@), rels.len() as int);
            forall|i: int|
                0 <= i < r.photos.len() ==> (#[trigger] r.photos[i])@ == photo_json(
                    entries[order[i]]@,
                    rels[order[i]]@,
                    entries@,
                    analyzed@,
                    cfg@,
                )
        }),
{
    let ghost es = entries@;
    let ghost rs = analyzed@;
    let ghost cv = cfg@;
    let stars = rate_photos(entries, analyzed, &cfg.weights, &cfg.metric);
    let params = effective_dedup(None, cfg);
    let bursts = analyze_photo_bursts(entries, analyzed, &params, &cfg.weights);
    let ghost bs = burst_map(es, rs, cv.dedup, cv.weights);
    let mut paths: Vec<Vec<char>> = Vec::new();
    let mut i: usize = 0;
    while i < rels.len()
        invariant
            i <= rels.len(),
            paths.len() == i,
            forall|k: int| 0 <= k < i ==> (#[trigger] paths[k])@ == rels[k]@,
        decreases rels.len() - i,
    {
        paths.push(chars_of(rels[i].as_str()));
        i += 1;
    }
    assert(paths@.map_values(|v: Vec<char>| v@) =~= texts_of(rels@));
    let order = order_by_path(&paths);
    let ghost o = by_path(texts_of(rels@), rels.len() as int);
    let mut photos: Vec<PhotoJson> = Vec::new();
    let mut k: usize = 0;
    while k < order.len()
        invariant
            k <= order.len() == entries.len() == rels.len(),
            es == entries@,
            rs == analyzed@,
            cv == cfg@,
            sound(rs),
            bs == burst_map(es, rs, cv.dedup, cv.weights),
            bursts@ == bs,
            o == order@.map_values(|i: usize| i as int),
            forall|k: int| 0 <= k < order.len() ==> #[trigger] order[k] < entries.len(),
            forall|i: int|
                0 <= i < entries.len() ==> stars@.contains_key((#[trigger] entries[i]).pair_id@)
                    == rs.contains_key(entries[i].pair_id@),
            forall|key: Seq<char>| #[trigger]
                stars@.contains_key(key) ==> rs.contains_key(key) && stars@[key] == stars_of(
                    es,
                    rs,
                    cv.weights,
                    cv.metric,
                    key,
                ),
            photos.len() == k,
            forall|i: int|
                0 <= i < k ==> (#[trigger] photos[i])@ == photo_json(
                    entries[o[i]]@,
                    rels[o[i]]@,
                    es,
                    rs,
                    cv,
                ),
        decreases order.len() - k,
    {
        assert(o[k as int] == order[k as int]);
        let j: usize = order[k];
        let e = &entries[j];
        let key = e.pair_id.as_str();
        assert(stars@.contains_key(entries[j as int].pair_id@) == rs.contains_key(
            entries[j as int].pair_id@,
        ));
        let found = analyzed.get(key);
        let scores: Option<ScoresJson> = match found {
            Some(r) => Some(
                ScoresJson {
                    sharpness: r.scores.sharpness,
                    exposure: r.scores.exposure,
                    noise: r.scores.noise,
                    composition: r.scores.composition,
                    aesthetic: r.scores.aesthetic,
                    total: total_score(&r.scores, &cfg.weights),
                },
            ),
            None => None,
        };
        let faces: usize = match found {
            Some(r) => r.faces,
            None => 0,
        };
        let suggested_ev: Option<i64> = match found {
            Some(r) => r.suggested_ev,
            None => None,
        };
        let star: Option<u8> = match stars.get(key) {
            Some(s) => Some(*s),
            None => None,
        };
        let burst: Option<BurstJson> = match bursts.get(key) {
            Some(b) => Some(
                BurstJson {
                    group: b.group,
                    size: b.size,
                    rank: b.rank,
                    keep: b.keep,
                    pose_cluster: b.pose_cluster,
                },
            ),
            None => None,
        };
        let photo = PhotoJson {
            path: rels[j].clone(),
            filename: e.filename.clone(),
            ext: e.extension.clone(),
            is_raw: e.is_raw,
            has_pair: e.has_pair,
            datetime: e.date_time_original.clone(),
            iso: e.iso.clone(),
            f_number: e.f_number.clone(),
            shutter: e.shutter_speed.clone(),
            focal: e.focal_length.clone(),
            scores,
            stars: star,
            faces,
            burst,
            suggested_ev,
        };
        assert(photo@ =~= photo_json(entries[j as int]@, rels[j as int]@, es, rs, cv));
        photos.push(photo);
        k += 1;
    }
    Snapshot { root: String::from_str(root), photos }
}

/// The review page and the report of a scoring run agree on every file: same stars, same total and
/// same burst, where the run was made with the same results and settings.
pub proof fn review_agrees_with_report(
    v: PhotoView,
    rel: Seq<char>,
    entries: Seq<PhotoEntry>,
    results: Results,
    c: ConfigView,
)
    ensures
        ({
            let bursts = burst_map(entries, results, dedup_with(None, c.dedup), c.weights);
            let row = crate::pipeline::final_row(v, entries, results, bursts, c);
            let json = photo_json(v, rel, entries, results, c);
            &&& json.stars is Some ==> row.stars == crate::text::decimal(json.stars->0 as nat)
            &&& json.scores is Some ==> row.total_score == crate::fixed::places(
                json.scores->0.total as int,
                1,
                false,
            )
            &&& json.burst is Some ==> row.burst_group == crate::text::decimal(
                json.burst->0.group as nat,
            )
            &&& json.burst is Some && json.burst->0.size != 0 ==> row.burst_keep
                == crate::pipeline::bool_spec(json.burst->0.keep)
        }),
{
}

/// The page shows what is known of a file: what its row says, the scores and the number of faces of
/// its photo, each by its own name, the total with the weights of the settings, its stars, and what its
/// burst says; nothing of scores, stars and correction where the photo has no result.
pub proof fn the_page_shows_each_value(
    e: PhotoView,
    rel: Seq<char>,
    entries: Seq<PhotoEntry>,
    results: Results,
    c: ConfigView,
)
    ensures
        ({
            let j = photo_json(e, rel, entries, results, c);
            let bursts = burst_map(entries, results, c.dedup, c.weights);
            &&& j.path == rel && j.filename == e.filename && j.ext == e.extension
            &&& j.is_raw == e.is_raw && j.has_pair == e.has_pair
            &&& j.datetime == e.date_time_original && j.iso == e.iso && j.f_number == e.f_number
            &&& j.shutter == e.shutter_speed && j.focal == e.focal_length
            &&& results.contains_key(e.pair_id) ==> {
                let r = results[e.pair_id];
                &&& j.scores is Some
                &&& j.scores->0.sharpness == r.scores.sharpness
                &&& j.scores->0.exposure == r.scores.exposure
                &&& j.scores->0.noise == r.scores.noise
                &&& j.scores->0.composition == r.scores.composition
                &&& j.scores->0.aesthetic == r.scores.aesthetic
                &&& j.scores->0.total == total_of(r.scores, c.weights)
                &&& j.stars == Some(stars_of(entries, results, c.weights, c.metric, e.pair_id))
                &&& j.faces == r.faces
                &&& j.suggested_ev == r.suggested_ev
            }
            &&& !results.contains_key(e.pair_id) ==> j.scores is None && j.stars is None && j.faces == 0
                && j.suggested_ev is None
            &&& j.burst is Some <==> bursts.contains_key(e.pair_id)
            &&& j.burst is Some ==> {
                let b = bursts[e.pair_id];
                &&& j.burst->0.group == b.group
                &&& j.burst->0.size == b.size
                &&& j.burst->0.rank == b.rank
                &&& j.burst->0.keep == b.keep
                &&& j.burst->0.pose_cluster == b.pose_cluster
            }
        }),
{
}

/// What is known of a photo without a new analysis is the stored result of its JPG: of the last such
/// file with its key whose stored result may be used.
pub proof fn stored_results_of_jpgs_are_used(
    entries: Seq<PhotoEntry>,
    rows: Map<Seq<char>, CacheRow>,
    marks: Seq<Option<(u64, i64)>>,
    cfg_hash: i64,
    i: int,
    k: int,
)
    requires
        0 <= i < k <= entries.len(),
        !entries[i].is_raw,
        stored(rows, entries[i].path@, marks[i], cfg_hash) is Some,
        forall|j: int|
            i < j < k ==> (#[trigger] entries[j]).is_raw || entries[j].pair_id@ != entries[i].pair_id@
                || stored(rows, entries[j].path@, marks[j], cfg_hash) is None,
    ensures
        usable(entries, rows, marks, cfg_hash, k).contains_key(entries[i].pair_id@),
        usable(entries, rows, marks, cfg_hash, k)[entries[i].pair_id@] == stored(
            rows,
            entries[i].path@,
            marks[i],
            cfg_hash,
        )->0,
    decreases k,
{
    if k - 1 > i {
        stored_results_of_jpgs_are_used(entries, rows, marks, cfg_hash, i, k - 1);
        assert(entries[k - 1].is_raw || entries[k - 1].pair_id@ != entries[i].pair_id@ || stored(
            rows,
            entries[k - 1].path@,
            marks[k - 1],
            cfg_hash,
        ) is None);
    }
}

/// Nothing is known of a photo none of whose JPG files has a stored result that may be used.
pub proof fn without_a_stored_result_nothing_is_known(
    entries: Seq<PhotoEntry>,
    rows: Map<Seq<char>, CacheRow>,
    marks: Seq<Option<(u64, i64)>>,
    cfg_hash: i64,
    key: Seq<char>,
    k: int,
)
    requires
        0 <= k <= entries.len(),
        forall|j: int|
            0 <= j < k ==> (#[trigger] entries[j]).is_raw || entries[j].pair_id@ != key || stored(
                rows,
                entries[j].path@,
                marks[j],
                cfg_hash,
            ) is None,
    ensures
        !usable(entries, rows, marks, cfg_hash, k).contains_key(key),
    decreases k,
{
    if k > 0 {
        without_a_stored_result_nothing_is_known(entries, rows, marks, cfg_hash, key, k - 1);
        assert(entries[k - 1].is_raw || entries[k - 1].pair_id@ != key || stored(
            rows,
            entries[k - 1].path@,
            marks[k - 1],
            cfg_hash,
        ) is None);
    }
}

} // verus!
