//! The scoring run: from what the analysis found to bursts, rows, stars and sidecars.
use crate::cache::{lookup, stored, CacheRow};
use crate::config::{dedup_with, effective_dedup, DedupParams, MetricParams, MetricView, ScoreConfig, ScoreWeights};
use crate::dedup::bursts::{burst_infos, find_bursts, time_of, BurstInfo, Frames};
use crate::dedup::datetime::parse_datetime;
use crate::dedup::pose::PoseDesc;
use crate::fixed::{places, places_read_back, places_show, places_text, shows};
use crate::output::xmp::{assign_ratings, star_of, totals_of, wide};
use crate::scan::{PhotoEntry, PhotoView};
use crate::score::{total_of, total_score, AnalysisResult};
use crate::tally::{tally, tally_same};
use crate::text::{chars_of, decimal, decimal_reads_back, decimal_text, digits_value};
use vstd::hash_map::StringHashMap;
use vstd::hash_set::StringHashSet;
use vstd::prelude::*;

verus! {

/// What the analysis found, by the key of the photo.
pub type Results = Map<Seq<char>, AnalysisResult>;

/// Every score that was found lies between 0 and 100.
pub open spec fn sound(results: Results) -> bool {
    forall|k: Seq<char>| #[trigger] results.contains_key(k) ==> results[k].scores.wf()
}

/// The JPG files among the first `k` whose photo was analysed.
pub open spec fn analyzed_jpgs(entries: Seq<PhotoEntry>, results: Results, k: int) -> Seq<int>
    decreases k,
{
    if k <= 0 {
        Seq::empty()
    } else {
        let s = analyzed_jpgs(entries, results, k - 1);
        if !entries[k - 1].is_raw && results.contains_key(entries[k - 1].pair_id@) {
            s.push(k - 1)
        } else {
            s
        }
    }
}

/// The result for file number `i`.
pub open spec fn result_at(entries: Seq<PhotoEntry>, results: Results, i: int) -> AnalysisResult {
    results[entries[i].pair_id@]
}

/// The capture times of the listed files.
pub open spec fn listed_times(entries: Seq<PhotoEntry>, idx: Seq<int>) -> Seq<Option<i64>> {
    idx.map_values(|i: int| time_of(entries[i]))
}

/// What the choice within bursts looks at, for the listed files.
pub open spec fn listed_frames(
    entries: Seq<PhotoEntry>,
    results: Results,
    idx: Seq<int>,
    w: ScoreWeights,
) -> Frames {
    Frames {
        hashes: idx.map_values(|i: int| result_at(entries, results, i).dhash),
        scores: idx.map_values(|i: int| total_of(result_at(entries, results, i).scores, w) as i64),
        descs: idx.map_values(|i: int| result_at(entries, results, i).pose_desc),
    }
}

/// What is said of the first `k` listed files, by the key of the photo; the later of two with one
/// key.
pub open spec fn by_key(
    entries: Seq<PhotoEntry>,
    idx: Seq<int>,
    infos: Seq<BurstInfo>,
    k: int,
) -> Map<Seq<char>, BurstInfo>
    decreases k,
{
    if k <= 0 {
        Map::empty()
    } else {
        by_key(entries, idx, infos, k - 1).insert(entries[idx[k - 1]].pair_id@, infos[k - 1])
    }
}

/// What is said of the bursts of the analysed JPG files, by the key of the photo; nothing where
/// there are less than two.
pub open spec fn burst_map(
    entries: Seq<PhotoEntry>,
    results: Results,
    p: DedupParams,
    w: ScoreWeights,
) -> Map<Seq<char>, BurstInfo> {
    let idx = analyzed_jpgs(entries, results, entries.len() as int);
    if idx.len() < 2 {
        Map::empty()
    } else {
        by_key(
            entries,
            idx,
            burst_infos(listed_times(entries, idx), listed_frames(entries, results, idx, w), p),
            idx.len() as int,
        )
    }
}

/// Finds the bursts among the analysed JPG files, by the key of the photo.
pub fn analyze_photo_bursts(
    entries: &Vec<PhotoEntry>,
    analyzed: &StringHashMap<AnalysisResult>,
    params: &DedupParams,
    weights: &ScoreWeights,
) -> (r: StringHashMap<BurstInfo>)
    requires
        sound(analyzed@),
    ensures
        r@ == burst_map(entries@, analyzed@, *params, *weights),
{
    let ghost es = entries@;
    let ghost rs = analyzed@;
    let mut idx: Vec<usize> = Vec::new();
    let mut times: Vec<Option<i64>> = Vec::new();
    let mut hashes: Vec<u64> = Vec::new();
    let mut scores: Vec<i64> = Vec::new();
    let mut descs: Vec<Option<PoseDesc>> = Vec::new();
    let mut i: usize = 0;
    assert(idx@.map_values(|i: usize| i as int) =~= analyzed_jpgs(es, rs, 0));
    while i < entries.len()
        invariant
            i <= entries.len(),
            es == entries@,
            rs == analyzed@,
            sound(rs),
            idx.len() == times.len() == hashes.len() == scores.len() == descs.len(),
            idx@.map_values(|i: usize| i as int) == analyzed_jpgs(es, rs, i as int),
            forall|k: int| 0 <= k < idx.len() ==> #[trigger] idx[k] < i,
            forall|k: int| 0 <= k < idx.len() ==> #[trigger] times[k] == time_of(es[idx[k] as int]),
            forall|k: int|
                0 <= k < idx.len() ==> #[trigger] hashes[k] == result_at(
                    es,
                    rs,
                    idx[k] as int,
                ).dhash,
            forall|k: int|
                0 <= k < idx.len() ==> #[trigger] scores[k] == total_of(
                    result_at(es, rs, idx[k] as int).scores,
                    *weights,
                ) as i64,
            forall|k: int|
                0 <= k < idx.len() ==> #[trigger] descs[k] == result_at(
                    es,
                    rs,
                    idx[k] as int,
                ).pose_desc,
        decreases entries.len() - i,
    {
        let e = &entries[i];
        if !e.is_raw {
            match analyzed.get(e.pair_id()) {
                Some(r) => {
                    idx.push(i);
                    times.push(parse_datetime(e.date_time_original.as_str()));
                    hashes.push(r.dhash);
                    scores.push(total_score(&r.scores, weights));
                    descs.push(r.pose_desc);
                    assert(idx@.map_values(|i: usize| i as int) =~= analyzed_jpgs(es, rs, i + 1));
                },
                None => {},
            }
        }
        i += 1;
    }
    let ghost all = analyzed_jpgs(es, rs, es.len() as int);
    let mut map: StringHashMap<BurstInfo> = StringHashMap::new();
    if idx.len() < 2 {
        return map;
    }
    let infos = find_bursts(&times, &hashes, &scores, &descs, params);
    proof {
        let f = listed_frames(es, rs, all, *weights);
        assert forall|k: int| 0 <= k < all.len() implies #[trigger] all[k] == idx[k] by {
            assert(all[k] == idx@.map_values(|i: usize| i as int)[k]);
        }
        assert(times@ =~= listed_times(es, all));
        assert(hashes@ =~= f.hashes);
        assert(scores@ =~= f.scores);
        assert(descs@ =~= f.descs);
    }
    let mut k: usize = 0;
    while k < idx.len()
        invariant
            k <= idx.len(),
            es == entries@,
            infos.len() == idx.len(),
            all.len() == idx.len(),
            forall|k: int| 0 <= k < all.len() ==> #[trigger] all[k] == idx[k],
            forall|k: int| 0 <= k < idx.len() ==> #[trigger] idx[k] < es.len(),
            map@ == by_key(es, all, infos@, k as int),
        decreases idx.len() - k,
    {
        assert(all[k as int] == idx[k as int]);
        map.insert(entries[idx[k]].pair_id.clone(), infos[k]);
        k += 1;
    }
    map
}

/// What is found of one JPG file.
#[derive(Debug)]
pub struct Analyzed {
    pub pair_id: String,
    pub path: String,
    pub result: AnalysisResult,
    /// Whether it was stored.
    pub hit: bool,
    /// Size and time of the file, where they are known.
    pub fingerprint: Option<(u64, i64)>,
}

/// A row that has to be stored: path, size, time and result.
pub type NewRow = (String, u64, i64, AnalysisResult);

/// What the analysis of all JPG files found.
pub struct AnalysisOutcome {
    /// The results, by the key of the photo.
    pub results: StringHashMap<AnalysisResult>,
    /// How many were stored.
    pub hits: usize,
    /// How many were analysed.
    pub misses: usize,
    /// What has to be stored.
    pub new_rows: Vec<NewRow>,
}

/// The results of the first `k` items, by the key of the photo; the later of two with one key.
pub open spec fn results_of(items: Seq<Analyzed>, k: int) -> Results
    decreases k,
{
    if k <= 0 {
        Map::empty()
    } else {
        results_of(items, k - 1).insert(items[k - 1].pair_id@, items[k - 1].result)
    }
}

/// The items that were stored.
pub open spec fn was_hit(items: Seq<Analyzed>) -> spec_fn(int) -> bool {
    |i: int| items[i].hit
}

/// The path, size, time and result that have to be stored, of the first `k` items: of those that
/// were analysed and whose size and time are known.
pub open spec fn rows_to_store(items: Seq<Analyzed>, k: int) -> Seq<
    (Seq<char>, u64, i64, AnalysisResult),
>
    decreases k,
{
    if k <= 0 {
        Seq::empty()
    } else {
        let s = rows_to_store(items, k - 1);
        let a = items[k - 1];
        match a.fingerprint {
            Some(f) => if a.hit {
                s
            } else {
                s.push((a.path@, f.0, f.1, a.result))
            },
            None => s,
        }
    }
}

/// The rows of a list, as text and numbers.
pub open spec fn row_views(rows: Seq<NewRow>) -> Seq<(Seq<char>, u64, i64, AnalysisResult)> {
    rows.map_values(|r: NewRow| (r.0@, r.1, r.2, r.3))
}

/// How many were analysed, of `found` photos of which `hits` were stored.
pub open spec fn missed(found: int, hits: int) -> int {
    if found > hits {
        found - hits
    } else {
        0
    }
}

/// Collects what was found of the JPG files, in the order of the files.
pub fn collect_outcome(items: &Vec<Analyzed>) -> (r: AnalysisOutcome)
    ensures
        r.results@ == results_of(items@, items.len() as int),
        r.hits == tally(was_hit(items@), 0, items.len() as int),
        r.misses == missed(r.results@.len() as int, r.hits as int),
        row_views(r.new_rows@) == rows_to_store(items@, items.len() as int),
{
    let ghost p = was_hit(items@);
    let mut results: StringHashMap<AnalysisResult> = StringHashMap::new();
    let mut hits: usize = 0;
    let mut new_rows: Vec<NewRow> = Vec::new();
    let mut i: usize = 0;
    assert(row_views(new_rows@) =~= rows_to_store(items@, 0));
    while i < items.len()
        invariant
            i <= items.len(),
            p == was_hit(items@),
            results@ == results_of(items@, i as int),
            hits == tally(p, 0, i as int),
            hits <= i,
            row_views(new_rows@) == rows_to_store(items@, i as int),
        decreases items.len() - i,
    {
        let a = &items[i];
        results.insert(a.pair_id.clone(), a.result);
        if a.hit {
            hits += 1;
        } else if let Some((size, mtime)) = a.fingerprint {
            let ghost before = new_rows@;
            new_rows.push((a.path.clone(), size, mtime, a.result));
            assert(row_views(new_rows@) =~= row_views(before).push(
                (a.path@, size, mtime, a.result),
            ));
        }
        i += 1;
    }
    let found: usize = results.len();
    let misses: usize = if found > hits { found - hits } else { 0 };
    AnalysisOutcome { results, hits, misses, new_rows }
}

/// The stored result for a JPG file, where storing is on and there is one that may be used.
pub fn find_stored(
    e: &PhotoEntry,
    rows: Option<&StringHashMap<CacheRow>>,
    fingerprint: Option<(u64, i64)>,
    cfg_hash: i64,
) -> (r: Option<AnalysisResult>)
    ensures
        r == match rows {
            Some(m) => stored(m@, e.path@, fingerprint, cfg_hash),
            None => None,
        },
{
    match rows {
        Some(m) => lookup(m, e.path.as_str(), fingerprint, cfg_hash),
        None => None,
    }
}

/// Progress is told after every 25 files and after the last one.
pub fn tells_progress(done: usize, total: usize) -> (r: bool)
    ensures
        r == (done % 25 == 0 || done == total),
{
    done % 25 == 0 || done == total
}

/// A suggested correction as text; empty for none.
pub open spec fn suggestion_text(ev: Option<int>) -> Seq<char> {
    match ev {
        Some(v) => places(v, 2, true),
        None => Seq::empty(),
    }
}

/// A row with the scores of its photo.
pub open spec fn scored_row(v: PhotoView, r: AnalysisResult, w: ScoreWeights) -> PhotoView {
    PhotoView {
        sharpness_score: places(r.scores.sharpness as int, 1, false),
        exposure_score: places(r.scores.exposure as int, 1, false),
        noise_score: places(r.scores.noise as int, 1, false),
        composition_score: places(r.scores.composition as int, 1, false),
        aesthetic_score: places(r.scores.aesthetic as int, 1, false),
        total_score: places(total_of(r.scores, w), 1, false),
        suggested_ev: suggestion_text(wide(r.suggested_ev)),
        faces: decimal(r.faces as nat),
        ..v
    }
}

/// Writes the scores of a photo into its row.
pub fn apply_scores(e: &mut PhotoEntry, r: &AnalysisResult, w: &ScoreWeights)
    requires
        r.scores.wf(),
    ensures
        final(e)@ == scored_row(old(e)@, *r, *w),
{
    e.sharpness_score = places_text(r.scores.sharpness, 1, false);
    e.exposure_score = places_text(r.scores.exposure, 1, false);
    e.noise_score = places_text(r.scores.noise, 1, false);
    e.composition_score = places_text(r.scores.composition, 1, false);
    e.aesthetic_score = places_text(r.scores.aesthetic, 1, false);
    e.total_score = places_text(total_score(&r.scores, w), 1, false);
    e.suggested_ev = match r.suggested_ev {
        Some(v) => places_text(v, 2, true),
        None => String::new(),
    };
    e.faces = decimal_text(r.faces as u64);
    assert(e.suggested_ev@ =~= suggestion_text(wide(r.suggested_ev)));
}

/// `true` or `false`.
pub open spec fn bool_spec(b: bool) -> Seq<char> {
    if b {
        "true"@
    } else {
        "false"@
    }
}

/// `true` or `false`.
pub fn bool_text(b: bool) -> (r: String)
    ensures
        r@ == bool_spec(b),
{
    if b {
        String::from_str("true")
    } else {
        String::from_str("false")
    }
}

/// A number as text; empty where `shown` is false.
pub open spec fn number_or_blank(n: usize, shown: bool) -> Seq<char> {
    if shown {
        decimal(n as nat)
    } else {
        Seq::empty()
    }
}

/// A number as text; empty where `shown` is false.
fn text_or_blank(n: usize, shown: bool) -> (r: String)
    ensures
        r@ == number_or_blank(n, shown),
{
    if shown {
        decimal_text(n as u64)
    } else {
        let s = String::new();
        assert(s@ =~= Seq::<char>::empty());
        s
    }
}

/// A row with what is said of its burst.
pub open spec fn burst_row(v: PhotoView, b: BurstInfo) -> PhotoView {
    PhotoView {
        burst_group: decimal(b.group as nat),
        burst_size: number_or_blank(b.size, b.size != 0),
        burst_rank: number_or_blank(b.rank, b.rank != 0),
        burst_keep: if b.size == 0 { Seq::empty() } else { bool_spec(b.keep) },
        burst_pose: number_or_blank(b.pose_cluster, b.size != 0),
        ..v
    }
}

/// Writes what is said of a burst into a row.
pub fn apply_burst(e: &mut PhotoEntry, b: &BurstInfo)
    ensures
        final(e)@ == burst_row(old(e)@, *b),
{
    e.burst_group = decimal_text(b.group as u64);
    e.burst_size = text_or_blank(b.size, b.size != 0);
    e.burst_rank = text_or_blank(b.rank, b.rank != 0);
    e.burst_keep = if b.size == 0 { text_or_blank(0, false) } else { bool_text(b.keep) };
    e.burst_pose = text_or_blank(b.pose_cluster, b.size != 0);
}

/// The keys of the analysed photos among the first `k` files, each once, in the order of the files.
pub open spec fn photo_keys(entries: Seq<PhotoEntry>, results: Results, k: int) -> Seq<Seq<char>>
    decreases k,
{
    if k <= 0 {
        Seq::empty()
    } else {
        let s = photo_keys(entries, results, k - 1);
        let key = entries[k - 1].pair_id@;
        if results.contains_key(key) && !s.contains(key) {
            s.push(key)
        } else {
            s
        }
    }
}

/// The totals of the photos with the given keys.
pub open spec fn key_totals(keys: Seq<Seq<char>>, results: Results, w: ScoreWeights) -> Seq<i64> {
    keys.map_values(|k: Seq<char>| total_of(results[k].scores, w) as i64)
}

/// The totals of the batch: of every analysed photo once.
pub open spec fn batch_totals(entries: Seq<PhotoEntry>, results: Results, w: ScoreWeights) -> Seq<i64> {
    key_totals(photo_keys(entries, results, entries.len() as int), results, w)
}

/// The stars of the photo with the given key.
pub open spec fn stars_of(
    entries: Seq<PhotoEntry>,
    results: Results,
    w: ScoreWeights,
    m: MetricView,
    key: Seq<char>,
) -> u8 {
    star_of(batch_totals(entries, results, w), m, total_of(results[key].scores, w))
}

/// Every analysed file has its key among the keys; all keys belong to analysed photos, and none is
/// named twice.
proof fn keys_are_complete(entries: Seq<PhotoEntry>, results: Results, k: int)
    requires
        0 <= k <= entries.len(),
    ensures
        photo_keys(entries, results, k).no_duplicates(),
        forall|i: int|
            0 <= i < k && results.contains_key((#[trigger] entries[i]).pair_id@) ==> photo_keys(
                entries,
                results,
                k,
            ).contains(entries[i].pair_id@),
        forall|j: int|
            0 <= j < photo_keys(entries, results, k).len() ==> results.contains_key(
                #[trigger] photo_keys(entries, results, k)[j],
            ),
    decreases k,
{
    if k > 0 {
        keys_are_complete(entries, results, k - 1);
        let s = photo_keys(entries, results, k - 1);
        let t = photo_keys(entries, results, k);
        assert forall|i: int|
            0 <= i < k && results.contains_key((#[trigger] entries[i]).pair_id@) implies t.contains(
            entries[i].pair_id@,
        ) by {
            let x = entries[i].pair_id@;
            if s.contains(x) {
                let j = choose|j: int| 0 <= j < s.len() && s[j] == x;
                assert(t[j] == x);
            } else {
                assert(t[s.len() as int] == x);
            }
        }
    }
}

/// The keys of a list of keys and totals.
pub open spec fn keys_of(pairs: Seq<(String, i64)>) -> Seq<Seq<char>> {
    pairs.map_values(|p: (String, i64)| p.0@)
}

/// Lists the analysed photos with their totals, each once.
pub fn rated_photos(
    entries: &Vec<PhotoEntry>,
    results: &StringHashMap<AnalysisResult>,
    w: &ScoreWeights,
) -> (r: Vec<(String, i64)>)
    requires
        sound(results@),
    ensures
        keys_of(r@) == photo_keys(entries@, results@, entries.len() as int),
        totals_of(r@) == batch_totals(entries@, results@, *w),
{
    let ghost es = entries@;
    let ghost rs = results@;
    let mut pairs: Vec<(String, i64)> = Vec::new();
    let mut seen = StringHashSet::new();
    let mut i: usize = 0;
    assert(keys_of(pairs@) =~= photo_keys(es, rs, 0));
    assert(totals_of(pairs@) =~= key_totals(photo_keys(es, rs, 0), rs, *w));
    while i < entries.len()
        invariant
            i <= entries.len(),
            es == entries@,
            rs == results@,
            sound(rs),
            keys_of(pairs@) == photo_keys(es, rs, i as int),
            totals_of(pairs@) == key_totals(photo_keys(es, rs, i as int), rs, *w),
            forall|s: Seq<char>| #[trigger]
                seen@.contains(s) <==> photo_keys(es, rs, i as int).contains(s),
        decreases entries.len() - i,
    {
        let key = entries[i].pair_id.clone();
        let ghost s = photo_keys(es, rs, i as int);
        let ghost t = photo_keys(es, rs, i + 1);
        if let Some(r) = results.get(key.as_str()) {
            if !seen.contains(key.as_str()) {
                let total: i64 = total_score(&r.scores, w);
                let ghost before = pairs@;
                let ghost was = seen@;
                seen.insert(key.clone());
                pairs.push((key, total));
                assert(t == s.push(es[i as int].pair_id@));
                assert(keys_of(pairs@) =~= keys_of(before).push(es[i as int].pair_id@));
                assert(totals_of(pairs@) =~= totals_of(before).push(total));
                assert(key_totals(t, rs, *w) =~= key_totals(s, rs, *w).push(total));
                assert forall|x: Seq<char>| #[trigger] seen@.contains(x) <==> t.contains(x) by {
                    if t.contains(x) {
                        let j = choose|j: int| 0 <= j < t.len() && t[j] == x;
                        if j < s.len() {
                            assert(s[j] == x);
                        }
                    }
                    if s.contains(x) {
                        let j = choose|j: int| 0 <= j < s.len() && s[j] == x;
                        assert(t[j] == x);
                    }
                    if x == es[i as int].pair_id@ {
                        assert(t[s.len() as int] == x);
                    }
                    assert(was.contains(x) == s.contains(x));
                }
            }
        }
        i += 1;
    }
    pairs
}

/// Gives stars to the analysed photos, by the key of the photo.
pub fn rate_photos(
    entries: &Vec<PhotoEntry>,
    results: &StringHashMap<AnalysisResult>,
    w: &ScoreWeights,
    m: &MetricParams,
) -> (r: StringHashMap<u8>)
    requires
        sound(results@),
    ensures
        forall|i: int|
            0 <= i < entries.len() ==> r@.contains_key((#[trigger] entries[i]).pair_id@)
                == results@.contains_key(entries[i].pair_id@),
        forall|key: Seq<char>| #[trigger]
            r@.contains_key(key) ==> results@.contains_key(key) && r@[key] == stars_of(
                entries@,
                results@,
                *w,
                m@,
                key,
            ),
{
    let ghost es = entries@;
    let ghost rs = results@;
    let pairs = rated_photos(entries, results, w);
    let stars = assign_ratings(&pairs, m);
    let ghost keys = photo_keys(es, rs, es.len() as int);
    let ghost totals = batch_totals(es, rs, *w);
    proof {
        keys_are_complete(es, rs, es.len() as int);
        assert forall|k: int| 0 <= k < pairs.len() implies (#[trigger] pairs[k]).0@ == keys[k]
            && pairs[k].1 == totals[k] by {
            assert(keys_of(pairs@)[k] == pairs[k].0@);
            assert(totals_of(pairs@)[k] == pairs[k].1);
        }
        assert(keys.len() == pairs.len()) by {
            assert(keys_of(pairs@).len() == pairs.len());
        }
    }
    let mut map: StringHashMap<u8> = StringHashMap::new();
    let mut k: usize = 0;
    while k < stars.len()
        invariant
            k <= stars.len(),
            stars.len() == pairs.len() == keys.len(),
            sound(rs),
            keys == photo_keys(es, rs, es.len() as int),
            totals == batch_totals(es, rs, *w),
            totals == totals_of(pairs@),
            forall|k: int|
                0 <= k < pairs.len() ==> (#[trigger] pairs[k]).0@ == keys[k] && pairs[k].1
                    == totals[k],
            forall|j: int| 0 <= j < keys.len() ==> rs.contains_key(#[trigger] keys[j]),
            forall|i: int|
                0 <= i < stars.len() ==> (#[trigger] stars[i]).0@ == pairs[i].0@ && stars[i].1
                    == star_of(totals_of(pairs@), m@, pairs[i].1 as int),
            forall|j: int| 0 <= j < k ==> map@.contains_key(#[trigger] keys[j]),
            forall|key: Seq<char>| #[trigger]
                map@.contains_key(key) ==> keys.contains(key) && map@[key] == stars_of(
                    es,
                    rs,
                    *w,
                    m@,
                    key,
                ),
        decreases stars.len() - k,
    {
        let ghost before = map@;
        assert(stars[k as int].0@ == pairs[k as int].0@);
        assert(pairs[k as int].0@ == keys[k as int]);
        assert(totals[k as int] == total_of(rs[keys[k as int]].scores, *w) as i64);
        map.insert(stars[k].0.clone(), stars[k].1);
        assert forall|key: Seq<char>| #[trigger] map@.contains_key(key) implies keys.contains(key)
            && map@[key] == stars_of(es, rs, *w, m@, key) by {
            if key == keys[k as int] {
                assert(keys.contains(key));
                total_fits(rs[key], *w);
            } else {
                assert(before.contains_key(key));
            }
        }
        k += 1;
    }
    assert forall|i: int| 0 <= i < entries.len() implies map@.contains_key(
        (#[trigger] entries[i]).pair_id@,
    ) == rs.contains_key(entries[i].pair_id@) by {
        let x = entries[i].pair_id@;
        if rs.contains_key(x) {
            assert(keys.contains(x));
            let j = choose|j: int| 0 <= j < keys.len() && keys[j] == x;
            assert(map@.contains_key(keys[j]));
        }
    }
    assert forall|key: Seq<char>| #[trigger] map@.contains_key(key) implies rs.contains_key(key) by {
        let j = choose|j: int| 0 <= j < keys.len() && keys[j] == key;
        assert(rs.contains_key(keys[j]));
    }
    map
}

/// A total fits 64 bits.
proof fn total_fits(r: AnalysisResult, w: ScoreWeights)
    ensures
        total_of(r.scores, w) as i64 == total_of(r.scores, w),
{
}

/// A row as the run leaves it, but for the stars.
pub open spec fn filled_row(
    v: PhotoView,
    results: Results,
    bursts: Map<Seq<char>, BurstInfo>,
    w: ScoreWeights,
) -> PhotoView {
    let a = if results.contains_key(v.pair_id) { scored_row(v, results[v.pair_id], w) } else { v };
    let b = if bursts.contains_key(v.pair_id) { burst_row(a, bursts[v.pair_id]) } else { a };
    PhotoView { analysis_ok: bool_spec(b.total_score.len() > 0), ..b }
}

/// Fills one row.
fn fill_row(
    e: &mut PhotoEntry,
    results: &StringHashMap<AnalysisResult>,
    bursts: &StringHashMap<BurstInfo>,
    w: &ScoreWeights,
)
    requires
        sound(results@),
    ensures
        final(e)@ == filled_row(old(e)@, results@, bursts@, *w),
{
    let key = e.pair_id.clone();
    if let Some(r) = results.get(key.as_str()) {
        apply_scores(e, r, w);
    }
    if let Some(b) = bursts.get(key.as_str()) {
        apply_burst(e, b);
    }
    let scored = chars_of(e.total_score.as_str()).len() > 0;
    e.analysis_ok = bool_text(scored);
}

/// What a run tells of itself.
#[derive(Debug)]
pub struct ScoreReport {
    /// Number of analysed photos.
    pub analyzed: usize,
    /// Number of photos in bursts.
    pub burst_members: usize,
    /// Paths of the JPG files that could not be analysed.
    pub failed_jpgs: Vec<String>,
    /// Number of RAW files without scores.
    pub unmapped_arw: usize,
}

/// A row as the run leaves it.
pub open spec fn final_row(
    v: PhotoView,
    entries: Seq<PhotoEntry>,
    results: Results,
    bursts: Map<Seq<char>, BurstInfo>,
    c: crate::config::ConfigView,
) -> PhotoView {
    let b = filled_row(v, results, bursts, c.weights);
    if results.contains_key(v.pair_id) {
        PhotoView {
            stars: decimal(stars_of(entries, results, c.weights, c.metric, v.pair_id) as nat),
            ..b
        }
    } else {
        b
    }
}

/// The files without scores: RAW files where `raw` is true, else JPG files.
pub open spec fn without_scores(rows: Seq<PhotoEntry>, raw: bool) -> spec_fn(int) -> bool {
    |i: int| rows[i].is_raw == raw && rows[i].total_score@.len() == 0
}

/// The paths of the JPG files without scores, among the first `k`.
pub open spec fn failed_paths(rows: Seq<PhotoEntry>, k: int) -> Seq<Seq<char>>
    decreases k,
{
    if k <= 0 {
        Seq::empty()
    } else {
        let s = failed_paths(rows, k - 1);
        if without_scores(rows, false)(k - 1) {
            s.push(rows[k - 1].path@)
        } else {
            s
        }
    }
}

/// The photos, by number in the list of keys, that lie in bursts.
pub open spec fn in_bursts(keys: Seq<Seq<char>>, bursts: Map<Seq<char>, BurstInfo>) -> spec_fn(
    int,
) -> bool {
    |i: int| bursts.contains_key(keys[i]) && bursts[keys[i]].group != 0
}

/// Counts the photos in bursts.
fn count_members(pairs: &Vec<(String, i64)>, bursts: &StringHashMap<BurstInfo>) -> (r: usize)
    ensures
        r == tally(in_bursts(keys_of(pairs@), bursts@), 0, pairs.len() as int),
{
    let ghost p = in_bursts(keys_of(pairs@), bursts@);
    let mut c: usize = 0;
    let mut i: usize = 0;
    while i < pairs.len()
        invariant
            i <= pairs.len(),
            p == in_bursts(keys_of(pairs@), bursts@),
            c == tally(p, 0, i as int),
            c <= i,
        decreases pairs.len() - i,
    {
        assert(keys_of(pairs@)[i as int] == pairs[i as int].0@);
        if let Some(b) = bursts.get(pairs[i].0.as_str()) {
            if b.group != 0 {
                c += 1;
            }
        }
        i += 1;
    }
    c
}

/// Fills all rows after the analysis: scores and bursts (a RAW file shares those of its JPG), stars
/// and whether scores are there; and tells what is missing.
pub fn complete_run(
    entries: &mut Vec<PhotoEntry>,
    results: &StringHashMap<AnalysisResult>,
    cfg: &ScoreConfig,
    keep_override: Option<usize>,
) -> (r: ScoreReport)
    requires
        sound(results@),
    ensures
        final(entries).len() == old(entries).len(),
        ({
            let bursts = burst_map(
                old(entries)@,
                results@,
                dedup_with(keep_override, cfg.dedup),
                cfg.weights,
            );
            let keys = photo_keys(old(entries)@, results@, old(entries).len() as int);
            &&& forall|i: int|
                0 <= i < final(entries).len() ==> (#[trigger] final(entries)[i])@ == final_row(
                    old(entries)[i]@,
                    old(entries)@,
                    results@,
                    bursts,
                    cfg@,
                )
            &&& r.analyzed == results@.len()
            &&& r.burst_members == tally(in_bursts(keys, bursts), 0, keys.len() as int)
            &&& texts_of(r.failed_jpgs@) == failed_paths(final(entries)@, final(entries).len() as int)
            &&& r.unmapped_arw == tally(
                without_scores(final(entries)@, true),
                0,
                final(entries).len() as int,
            )
        }),
{
    let ghost es = entries@;
    let ghost rs = results@;
    let n: usize = entries.len();
    let params = effective_dedup(keep_override, cfg);
    let bursts = analyze_photo_bursts(entries, results, &params, &cfg.weights);
    let stars = rate_photos(entries, results, &cfg.weights, &cfg.metric);
    let pairs = rated_photos(entries, results, &cfg.weights);
    let burst_members: usize = count_members(&pairs, &bursts);
    assert(keys_of(pairs@).len() == pairs.len());
    let ghost bs = bursts@;
    let ghost cv = cfg@;
    let mut i: usize = 0;
    while i < n
        invariant
            i <= n,
            entries.len() == n == es.len(),
            rs == results@,
            bs == bursts@,
            cv == cfg@,
            sound(rs),
            forall|k: int|
                0 <= k < n ==> stars@.contains_key((#[trigger] es[k]).pair_id@) == rs.contains_key(
                    es[k].pair_id@,
                ),
            forall|key: Seq<char>| #[trigger]
                stars@.contains_key(key) ==> rs.contains_key(key) && stars@[key] == stars_of(
                    es,
                    rs,
                    cv.weights,
                    cv.metric,
                    key,
                ),
            forall|k: int|
                0 <= k < i ==> (#[trigger] entries[k])@ == final_row(es[k]@, es, rs, bs, cv),
            forall|k: int| i <= k < n ==> #[trigger] entries[k] == es[k],
        decreases n - i,
    {
        let key = entries[i].pair_id.clone();
        assert(entries[i as int] == es[i as int]);
        assert(stars@.contains_key(es[i as int].pair_id@) == rs.contains_key(es[i as int].pair_id@));
        let e = &mut entries[i];
        fill_row(e, results, &bursts, &cfg.weights);
        if let Some(st) = stars.get(key.as_str()) {
            e.stars = decimal_text(*st as u64);
        }
        i += 1;
    }
    let (failed_jpgs, unmapped_arw) = missing_scores(entries);
    ScoreReport { analyzed: results.len(), burst_members, failed_jpgs, unmapped_arw }
}

/// The texts of a list.
pub open spec fn texts_of(v: Seq<String>) -> Seq<Seq<char>> {
    v.map_values(|s: String| s@)
}

/// Lists the JPG files without scores, and counts the RAW files without scores.
fn missing_scores(rows: &Vec<PhotoEntry>) -> (r: (Vec<String>, usize))
    ensures
        texts_of(r.0@) == failed_paths(rows@, rows.len() as int),
        r.1 == tally(without_scores(rows@, true), 0, rows.len() as int),
{
    let ghost q = without_scores(rows@, true);
    let mut failed: Vec<String> = Vec::new();
    let mut unmapped: usize = 0;
    let mut i: usize = 0;
    assert(texts_of(failed@) =~= failed_paths(rows@, 0));
    while i < rows.len()
        invariant
            i <= rows.len(),
            q == without_scores(rows@, true),
            texts_of(failed@) == failed_paths(rows@, i as int),
            unmapped == tally(q, 0, i as int),
            unmapped <= i,
        decreases rows.len() - i,
    {
        let e = &rows[i];
        let blank = chars_of(e.total_score.as_str()).len() == 0;
        if blank && !e.is_raw {
            let ghost before = failed@;
            failed.push(e.path.clone());
            assert(texts_of(failed@) =~= texts_of(before).push(e.path@));
        }
        if blank && e.is_raw {
            unmapped += 1;
        }
        i += 1;
    }
    (failed, unmapped)
}

/// One sidecar that has to be written.
#[derive(Debug, Clone, Copy, PartialEq, Eq, Structural)]
pub struct SidecarPlan {
    /// Number of the file it belongs to.
    pub index: usize,
    pub total: i64,
    pub rating: u8,
}

/// The files, among the first `k`, whose sidecar has to be written: every analysed one, but each
/// sidecar once.
pub open spec fn planned(
    entries: Seq<PhotoEntry>,
    paths: Seq<String>,
    results: Results,
    k: int,
) -> Seq<int>
    decreases k,
{
    if k <= 0 {
        Seq::empty()
    } else {
        let s = planned(entries, paths, results, k - 1);
        if results.contains_key(entries[k - 1].pair_id@) && !planned_paths(paths, s).contains(
            paths[k - 1]@,
        ) {
            s.push(k - 1)
        } else {
            s
        }
    }
}

/// The paths of the sidecars of the given files.
pub open spec fn planned_paths(paths: Seq<String>, idx: Seq<int>) -> Seq<Seq<char>> {
    idx.map_values(|i: int| paths[i]@)
}

/// The files of a plan.
pub open spec fn plan_files(plan: Seq<SidecarPlan>) -> Seq<int> {
    plan.map_values(|p: SidecarPlan| p.index as int)
}

/// Plans the sidecars. `paths` holds for each file where its sidecar lies.
pub fn plan_sidecars(
    entries: &Vec<PhotoEntry>,
    paths: &Vec<String>,
    results: &StringHashMap<AnalysisResult>,
    cfg: &ScoreConfig,
) -> (r: Vec<SidecarPlan>)
    requires
        entries.len() == paths.len(),
        sound(results@),
    ensures
        plan_files(r@) == planned(entries@, paths@, results@, entries.len() as int),
        forall|i: int|
            0 <= i < r.len() ==> {
                let key = entries[(#[trigger] r[i]).index as int].pair_id@;
                &&& r[i].index < entries.len()
                &&& results@.contains_key(key)
                &&& r[i].total == total_of(results@[key].scores, cfg.weights)
                &&& r[i].rating == stars_of(
                    entries@,
                    results@,
                    cfg.weights,
                    cfg.metric@,
                    key,
                )
            },
{
    let ghost es = entries@;
    let ghost rs = results@;
    let stars = rate_photos(entries, results, &cfg.weights, &cfg.metric);
    let mut plan: Vec<SidecarPlan> = Vec::new();
    let mut seen = StringHashSet::new();
    let mut i: usize = 0;
    assert(plan_files(plan@) =~= planned(es, paths@, rs, 0));
    while i < entries.len()
        invariant
            i <= entries.len() == paths.len(),
            es == entries@,
            rs == results@,
            sound(rs),
            forall|k: int|
                0 <= k < entries.len() ==> stars@.contains_key((#[trigger] entries[k]).pair_id@)
                    == rs.contains_key(entries[k].pair_id@),
            forall|key: Seq<char>| #[trigger]
                stars@.contains_key(key) ==> rs.contains_key(key) && stars@[key] == stars_of(
                    es,
                    rs,
                    cfg.weights,
                    cfg.metric@,
                    key,
                ),
            plan_files(plan@) == planned(es, paths@, rs, i as int),
            forall|s: Seq<char>| #[trigger]
                seen@.contains(s) <==> planned_paths(
                    paths@,
                    planned(es, paths@, rs, i as int),
                ).contains(s),
            forall|k: int|
                0 <= k < plan.len() ==> {
                    let key = es[(#[trigger] plan[k]).index as int].pair_id@;
                    &&& plan[k].index < entries.len()
                    &&& rs.contains_key(key)
                    &&& plan[k].total == total_of(rs[key].scores, cfg.weights)
                    &&& plan[k].rating == stars_of(es, rs, cfg.weights, cfg.metric@, key)
                },
        decreases entries.len() - i,
    {
        let ghost s = planned(es, paths@, rs, i as int);
        let ghost t = planned(es, paths@, rs, i + 1);
        let ghost a = planned_paths(paths@, s);
        let ghost b = planned_paths(paths@, t);
        let key = entries[i].pair_id.clone();
        assert(stars@.contains_key(entries[i as int].pair_id@) == rs.contains_key(
            entries[i as int].pair_id@,
        ));
        if let Some(r) = results.get(key.as_str()) {
            if !seen.contains(paths[i].as_str()) {
                let rating: u8 = match stars.get(key.as_str()) {
                    Some(st) => *st,
                    None => 3,
                };
                let ghost was = seen@;
                seen.insert(paths[i].clone());
                let total: i64 = total_score(&r.scores, &cfg.weights);
                let ghost before = plan@;
                plan.push(SidecarPlan { index: i, total, rating });
                assert(plan_files(plan@) =~= plan_files(before).push(i as int));
                assert(b =~= a.push(paths@[i as int]@));
                assert forall|x: Seq<char>| #[trigger] seen@.contains(x) <==> b.contains(x) by {
                    assert(was.contains(x) == a.contains(x));
                    if b.contains(x) {
                        let j = choose|j: int| 0 <= j < b.len() && b[j] == x;
                        if j < a.len() {
                            assert(a[j] == x);
                        }
                    }
                    if a.contains(x) {
                        let j = choose|j: int| 0 <= j < a.len() && a[j] == x;
                        assert(b[j] == x);
                    }
                    if x == paths@[i as int]@ {
                        assert(b[a.len() as int] == x);
                    }
                }
            }
        }
        i += 1;
    }
    plan
}

/// No sidecar is written twice.
pub proof fn sidecars_are_written_once(
    entries: Seq<PhotoEntry>,
    paths: Seq<String>,
    results: Results,
    k: int,
)
    ensures
        planned_paths(paths, planned(entries, paths, results, k)).no_duplicates(),
    decreases k,
{
    if k > 0 {
        sidecars_are_written_once(entries, paths, results, k - 1);
        let s = planned(entries, paths, results, k - 1);
        let t = planned(entries, paths, results, k);
        let a = planned_paths(paths, s);
        let b = planned_paths(paths, t);
        if t.len() > s.len() {
            assert(b =~= a.push(paths[k - 1]@));
        }
    }
}

/// The JPG and the RAW of one photo get the same scores, stars and burst.
pub proof fn pairs_share_their_scores(
    v: PhotoView,
    u: PhotoView,
    entries: Seq<PhotoEntry>,
    results: Results,
    bursts: Map<Seq<char>, BurstInfo>,
    c: crate::config::ConfigView,
)
    requires
        v.pair_id == u.pair_id,
        results.contains_key(v.pair_id),
    ensures
        ({
            let a = final_row(v, entries, results, bursts, c);
            let b = final_row(u, entries, results, bursts, c);
            &&& a.sharpness_score == b.sharpness_score
            &&& a.exposure_score == b.exposure_score
            &&& a.noise_score == b.noise_score
            &&& a.composition_score == b.composition_score
            &&& a.aesthetic_score == b.aesthetic_score
            &&& a.total_score == b.total_score
            &&& a.suggested_ev == b.suggested_ev
            &&& a.faces == b.faces
            &&& a.stars == b.stars
            &&& bursts.contains_key(v.pair_id) ==> a.burst_group == b.burst_group && a.burst_size
                == b.burst_size && a.burst_rank == b.burst_rank && a.burst_keep == b.burst_keep
                && a.burst_pose == b.burst_pose
        }),
{
}

/// A run never touches what a row says of the file itself, and a file of a photo that was not
/// analysed gets no scores and no stars.
pub proof fn rows_keep_what_was_read(
    v: PhotoView,
    entries: Seq<PhotoEntry>,
    results: Results,
    bursts: Map<Seq<char>, BurstInfo>,
    c: crate::config::ConfigView,
)
    ensures
        ({
            let a = final_row(v, entries, results, bursts, c);
            &&& a.path == v.path
            &&& a.filename == v.filename
            &&& a.extension == v.extension
            &&& a.is_raw == v.is_raw
            &&& a.has_pair == v.has_pair
            &&& a.pair_id == v.pair_id
            &&& a.date_time_original == v.date_time_original
            &&& a.camera_make == v.camera_make
            &&& a.camera_model == v.camera_model
            &&& a.lens_model == v.lens_model
            &&& a.iso == v.iso
            &&& a.f_number == v.f_number
            &&& a.shutter_speed == v.shutter_speed
            &&& a.focal_length == v.focal_length
            &&& !results.contains_key(v.pair_id) ==> a.total_score == v.total_score && a.stars
                == v.stars
        }),
{
}

/// A row says that scores are there exactly where its photo was analysed, if it had none before.
pub proof fn analysis_ok_tells_the_truth(
    v: PhotoView,
    entries: Seq<PhotoEntry>,
    results: Results,
    bursts: Map<Seq<char>, BurstInfo>,
    c: crate::config::ConfigView,
)
    requires
        v.total_score.len() == 0,
    ensures
        final_row(v, entries, results, bursts, c).analysis_ok == bool_spec(
            results.contains_key(v.pair_id),
        ),
{
    if results.contains_key(v.pair_id) {
        let t = total_of(results[v.pair_id].scores, c.weights);
        assert(places(t, 1, false).len() > 0);
    }
}

/// The totals of a batch do not depend on the bursts, nor do the stars: two runs with the same
/// results, weights and stars settings give the same stars, however bursts are handled.
pub proof fn stars_do_not_depend_on_bursts(
    v: PhotoView,
    entries: Seq<PhotoEntry>,
    results: Results,
    a: Map<Seq<char>, BurstInfo>,
    b: Map<Seq<char>, BurstInfo>,
    c: crate::config::ConfigView,
)
    ensures
        final_row(v, entries, results, a, c).stars == final_row(v, entries, results, b, c).stars,
        final_row(v, entries, results, a, c).total_score == final_row(
            v,
            entries,
            results,
            b,
            c,
        ).total_score,
{
}

/// After a run, each score column of an analysed photo shows the score of its own name, to one
/// decimal place; the correction is shown to two places, with its sign, and not at all where there is
/// none; faces and stars are whole numbers.
pub proof fn columns_show_their_scores(
    v: PhotoView,
    entries: Seq<PhotoEntry>,
    results: Results,
    bursts: Map<Seq<char>, BurstInfo>,
    c: crate::config::ConfigView,
)
    requires
        results.contains_key(v.pair_id),
    ensures
        ({
            let row = final_row(v, entries, results, bursts, c);
            let r = results[v.pair_id];
            &&& shows(row.sharpness_score, r.scores.sharpness as int, 100_000)
            &&& shows(row.exposure_score, r.scores.exposure as int, 100_000)
            &&& shows(row.noise_score, r.scores.noise as int, 100_000)
            &&& shows(row.composition_score, r.scores.composition as int, 100_000)
            &&& shows(row.aesthetic_score, r.scores.aesthetic as int, 100_000)
            &&& shows(row.total_score, total_of(r.scores, c.weights), 100_000)
            &&& r.suggested_ev is Some ==> shows(row.suggested_ev, r.suggested_ev->0 as int, 10_000)
            &&& r.suggested_ev is Some ==> row.suggested_ev[0] == if r.suggested_ev->0 < 0 {
                '-'
            } else {
                '+'
            }
            &&& r.suggested_ev is None ==> row.suggested_ev.len() == 0
            &&& digits_value(row.faces) == r.faces
            &&& 1 <= digits_value(row.stars) <= 5
            &&& digits_value(row.stars) == stars_of(
                entries,
                results,
                c.weights,
                c.metric,
                v.pair_id,
            )
        }),
{
    let r = results[v.pair_id];
    places_show(r.scores.sharpness as int, false);
    places_show(r.scores.exposure as int, false);
    places_show(r.scores.noise as int, false);
    places_show(r.scores.composition as int, false);
    places_show(r.scores.aesthetic as int, false);
    places_show(total_of(r.scores, c.weights), false);
    if let Some(ev) = r.suggested_ev {
        places_show(ev as int, true);
        places_read_back(ev as int, 2, true);
    }
    decimal_reads_back(r.faces as nat);
    decimal_reads_back(stars_of(entries, results, c.weights, c.metric, v.pair_id) as nat);
}

/// A score column depends on the score of its own name alone: changing one score changes its own
/// column and the total, and nothing else.
pub proof fn one_score_changes_one_column(
    v: PhotoView,
    r: AnalysisResult,
    q: AnalysisResult,
    w: ScoreWeights,
)
    ensures
        ({
            let a = scored_row(v, r, w);
            let b = scored_row(v, q, w);
            &&& r.scores.sharpness == q.scores.sharpness ==> a.sharpness_score == b.sharpness_score
            &&& r.scores.exposure == q.scores.exposure ==> a.exposure_score == b.exposure_score
            &&& r.scores.noise == q.scores.noise ==> a.noise_score == b.noise_score
            &&& r.scores.composition == q.scores.composition ==> a.composition_score
                == b.composition_score
            &&& r.scores.aesthetic == q.scores.aesthetic ==> a.aesthetic_score == b.aesthetic_score
            &&& r.scores == q.scores ==> a.total_score == b.total_score
            &&& r.suggested_ev == q.suggested_ev ==> a.suggested_ev == b.suggested_ev
            &&& r.faces == q.faces ==> a.faces == b.faces
            &&& a.burst_group == v.burst_group && a.burst_size == v.burst_size && a.burst_rank
                == v.burst_rank && a.burst_keep == v.burst_keep && a.burst_pose == v.burst_pose
            &&& a.stars == v.stars
        }),
{
}

/// The columns of a burst read back as what is said of the frame; outside bursts only the number of
/// the burst is shown, and it is zero.
pub proof fn burst_columns_read_back(v: PhotoView, b: BurstInfo)
    ensures
        ({
            let row = burst_row(v, b);
            &&& digits_value(row.burst_group) == b.group
            &&& b.size > 0 ==> digits_value(row.burst_size) == b.size && digits_value(
                row.burst_pose,
            ) == b.pose_cluster && row.burst_keep == if b.keep {
                "true"@
            } else {
                "false"@
            }
            &&& b.rank > 0 ==> digits_value(row.burst_rank) == b.rank
            &&& b.size == 0 ==> row.burst_size.len() == 0 && row.burst_keep.len() == 0
                && row.burst_pose.len() == 0
            &&& b.rank == 0 ==> row.burst_rank.len() == 0
            &&& row.total_score == v.total_score && row.stars == v.stars && row.faces == v.faces
            &&& row.noise_score == v.noise_score && row.composition_score == v.composition_score
            &&& row.sharpness_score == v.sharpness_score && row.exposure_score == v.exposure_score
            &&& row.aesthetic_score == v.aesthetic_score && row.suggested_ev == v.suggested_ev
        }),
{
    decimal_reads_back(b.group as nat);
    decimal_reads_back(b.size as nat);
    decimal_reads_back(b.rank as nat);
    decimal_reads_back(b.pose_cluster as nat);
}

/// What a run reports as missing are the files of the photos that were not analysed: the paths of the
/// JPG files, each of them, and the number of RAW files.
pub proof fn missing_files_are_reported(
    before: Seq<PhotoEntry>,
    after: Seq<PhotoEntry>,
    results: Results,
    bursts: Map<Seq<char>, BurstInfo>,
    c: crate::config::ConfigView,
)
    requires
        before.len() == after.len(),
        forall|i: int|
            0 <= i < after.len() ==> (#[trigger] after[i])@ == final_row(
                before[i]@,
                before,
                results,
                bursts,
                c,
            ),
        forall|i: int| 0 <= i < before.len() ==> (#[trigger] before[i]).total_score@.len() == 0,
    ensures
        forall|i: int|
            0 <= i < before.len() && !before[i].is_raw && !results.contains_key(
                before[i].pair_id@,
            ) ==> failed_paths(after, after.len() as int).contains((#[trigger] before[i]).path@),
        failed_paths(after, after.len() as int).len() == tally(
            |i: int| !before[i].is_raw && !results.contains_key(before[i].pair_id@),
            0,
            before.len() as int,
        ),
        tally(without_scores(after, true), 0, after.len() as int) == tally(
            |i: int| before[i].is_raw && !results.contains_key(before[i].pair_id@),
            0,
            before.len() as int,
        ),
{
    let n = before.len() as int;
    let raw = |i: int| before[i].is_raw && !results.contains_key(before[i].pair_id@);
    let jpg = |i: int| !before[i].is_raw && !results.contains_key(before[i].pair_id@);
    assert forall|i: int| 0 <= i < n implies #[trigger] without_scores(after, true)(i) == raw(i)
        && without_scores(after, false)(i) == jpg(i) && after[i].path@ == before[i].path@ by {
        assert(after[i]@ == final_row(before[i]@, before, results, bursts, c));
        assert(before[i].total_score@.len() == 0);
        if results.contains_key(before[i].pair_id@) {
            places_read_back(total_of(results[before[i].pair_id@].scores, c.weights), 1, false);
        }
    }
    tally_same(without_scores(after, true), raw, 0, n);
    assert forall|i: int| 0 <= i < n implies #[trigger] without_scores(after, false)(i) == jpg(
        i,
    ) by {
        assert(without_scores(after, true)(i) == raw(i));
    }
    tally_same(without_scores(after, false), jpg, 0, n);
    failed_paths_count(after, n);
    assert forall|i: int| 0 <= i < n && !before[i].is_raw && !results.contains_key(
        before[i].pair_id@,
    ) implies failed_paths(after, n).contains((#[trigger] before[i]).path@) by {
        assert(without_scores(after, true)(i) == raw(i));
        assert(without_scores(after, false)(i) == jpg(i));
        failed_paths_hold(after, n, i);
    }
}

/// As many paths are listed as there are JPG files without scores.
proof fn failed_paths_count(rows: Seq<PhotoEntry>, k: int)
    ensures
        failed_paths(rows, k).len() == tally(without_scores(rows, false), 0, k),
    decreases k,
{
    if k > 0 {
        failed_paths_count(rows, k - 1);
    }
}

/// The path of every JPG file without scores is listed.
proof fn failed_paths_hold(rows: Seq<PhotoEntry>, k: int, i: int)
    requires
        0 <= i < k,
        without_scores(rows, false)(i),
    ensures
        failed_paths(rows, k).contains(rows[i].path@),
    decreases k,
{
    let s = failed_paths(rows, k - 1);
    let t = failed_paths(rows, k);
    if i < k - 1 {
        failed_paths_hold(rows, k - 1, i);
        let j = choose|j: int| 0 <= j < s.len() && s[j] == rows[i].path@;
        assert(t[j] == rows[i].path@);
    } else {
        assert(t[s.len() as int] == rows[i].path@);
    }
}

/// The bursts are found among the analysed JPG files, in their order, by what was found of each: its
/// capture time, its hash, its pose and its weighted total. RAW files and files that were not
/// analysed take no part.
pub proof fn bursts_look_at_the_results(
    entries: Seq<PhotoEntry>,
    results: Results,
    w: ScoreWeights,
    n: int,
)
    requires
        0 <= n <= entries.len(),
    ensures
        ({
            let idx = analyzed_jpgs(entries, results, n);
            let f = listed_frames(entries, results, idx, w);
            &&& forall|a: int, b: int|
                0 <= a < b < idx.len() ==> #[trigger] idx[a] < #[trigger] idx[b]
            &&& forall|i: int|
                0 <= i < n ==> (#[trigger] idx.contains(i) <==> !entries[i].is_raw
                    && results.contains_key(entries[i].pair_id@))
            &&& f.hashes.len() == idx.len() && f.scores.len() == idx.len() && f.descs.len()
                == idx.len()
            &&& forall|k: int|
                0 <= k < idx.len() ==> {
                    let r = results[entries[#[trigger] idx[k]].pair_id@];
                    &&& 0 <= idx[k] < n
                    &&& f.hashes[k] == r.dhash
                    &&& f.descs[k] == r.pose_desc
                    &&& f.scores[k] == total_of(r.scores, w)
                    &&& listed_times(entries, idx)[k] == time_of(entries[idx[k]])
                }
        }),
    decreases n,
{
    let idx = analyzed_jpgs(entries, results, n);
    if n > 0 {
        bursts_look_at_the_results(entries, results, w, n - 1);
        let s = analyzed_jpgs(entries, results, n - 1);
        assert forall|i: int| 0 <= i < n implies (#[trigger] idx.contains(i) <==> !entries[i].is_raw
            && results.contains_key(entries[i].pair_id@)) by {
            if i < n - 1 {
                assert(s.contains(i) <==> !entries[i].is_raw && results.contains_key(
                    entries[i].pair_id@,
                ));
                if s.contains(i) {
                    let j = choose|j: int| 0 <= j < s.len() && s[j] == i;
                    assert(idx[j] == i);
                }
                if idx.contains(i) {
                    let j = choose|j: int| 0 <= j < idx.len() && idx[j] == i;
                    assert(s[j] == i);
                }
            } else {
                if idx.len() > s.len() {
                    assert(idx[s.len() as int] == i);
                } else if idx.contains(i) {
                    let j = choose|j: int| 0 <= j < idx.len() && idx[j] == i;
                    assert(s[j] < n - 1);
                }
            }
        }
        assert forall|k: int| 0 <= k < idx.len() implies 0 <= #[trigger] idx[k] < n by {
            if k < s.len() {
                assert(idx[k] == s[k]);
            }
        }
        assert forall|a: int, b: int| 0 <= a < b < idx.len() implies #[trigger] idx[a]
            < #[trigger] idx[b] by {
            assert(idx[a] == s[a]);
            if b < s.len() {
                assert(idx[b] == s[b]);
            }
        }
    }
    assert forall|k: int| 0 <= k < idx.len() implies total_of(
        results[entries[#[trigger] idx[k]].pair_id@].scores,
        w,
    ) as i64 == total_of(results[entries[idx[k]].pair_id@].scores, w) by {
        total_fits(results[entries[idx[k]].pair_id@], w);
    }
}

/// A photo counts once in its batch, however many files it has: a further file of a photo that is
/// there already changes no stars.
pub proof fn a_photo_counts_once(
    entries: Seq<PhotoEntry>,
    extra: PhotoEntry,
    results: Results,
    w: ScoreWeights,
    m: MetricView,
    i: int,
    key: Seq<char>,
)
    requires
        0 <= i < entries.len(),
        extra.pair_id@ == entries[i].pair_id@,
    ensures
        stars_of(entries.push(extra), results, w, m, key) == stars_of(entries, results, w, m, key),
{
    let n = entries.len() as int;
    let more = entries.push(extra);
    same_keys(entries, more, results, n);
    keys_are_complete(entries, results, n);
    assert(more[n] == extra);
    assert(photo_keys(more, results, n + 1) == photo_keys(entries, results, n));
}

/// Lists that agree up to `k` name the same photos there.
proof fn same_keys(a: Seq<PhotoEntry>, b: Seq<PhotoEntry>, results: Results, k: int)
    requires
        forall|i: int| 0 <= i < k ==> #[trigger] a[i] == b[i],
    ensures
        photo_keys(a, results, k) == photo_keys(b, results, k),
    decreases k,
{
    if k > 0 {
        same_keys(a, b, results, k - 1);
        assert(a[k - 1] == b[k - 1]);
    }
}

/// The result of a photo is that of the last item with its key.
pub proof fn the_last_item_of_a_photo_counts(items: Seq<Analyzed>, i: int, k: int)
    requires
        0 <= i < k <= items.len(),
        forall|j: int| i < j < k ==> (#[trigger] items[j]).pair_id@ != items[i].pair_id@,
    ensures
        results_of(items, k).contains_key(items[i].pair_id@),
        results_of(items, k)[items[i].pair_id@] == items[i].result,
    decreases k,
{
    if k - 1 > i {
        the_last_item_of_a_photo_counts(items, i, k - 1);
        assert(items[k - 1].pair_id@ != items[i].pair_id@);
    }
}

/// Item `i` has to be stored: it was analysed anew, and size and time of its file are known.
pub open spec fn is_new(items: Seq<Analyzed>) -> spec_fn(int) -> bool {
    |i: int| !items[i].hit && items[i].fingerprint is Some
}

/// What is stored after a run is every new result, each with the path, the size and the time of its
/// file, and nothing else.
pub proof fn new_results_are_stored(items: Seq<Analyzed>, k: int)
    requires
        0 <= k <= items.len(),
    ensures
        rows_to_store(items, k).len() == tally(is_new(items), 0, k),
        forall|i: int|
            0 <= i < k && !(#[trigger] items[i]).hit && items[i].fingerprint is Some ==> rows_to_store(
                items,
                k,
            ).contains(
                (
                    items[i].path@,
                    (items[i].fingerprint->0).0,
                    (items[i].fingerprint->0).1,
                    items[i].result,
                ),
            ),
    decreases k,
{
    if k > 0 {
        new_results_are_stored(items, k - 1);
        let s = rows_to_store(items, k - 1);
        let t = rows_to_store(items, k);
        assert forall|i: int|
            0 <= i < k && !(#[trigger] items[i]).hit && items[i].fingerprint is Some implies t.contains(
            (
                items[i].path@,
                (items[i].fingerprint->0).0,
                (items[i].fingerprint->0).1,
                items[i].result,
            ),
        ) by {
            let f = items[i].fingerprint->0;
            let row = (items[i].path@, f.0, f.1, items[i].result);
            if i < k - 1 {
                assert(s.contains(row));
                let j = choose|j: int| 0 <= j < s.len() && s[j] == row;
                assert(t[j] == row);
            } else {
                assert(t[s.len() as int] == row);
            }
        }
    }
}

/// Stored and new results add up to all photos, where no photo was found twice.
pub proof fn hits_and_misses_add_up(found: int, hits: int)
    requires
        0 <= hits <= found,
    ensures
        missed(found, hits) + hits == found,
{
}

/// Every analysed file has its sidecar written, for the first analysed file that it belongs to; none is
/// written for another file.
pub proof fn every_analysed_file_gets_its_sidecar(
    entries: Seq<PhotoEntry>,
    paths: Seq<String>,
    results: Results,
    k: int,
)
    requires
        0 <= k <= entries.len(),
        entries.len() == paths.len(),
    ensures
        forall|i: int|
            0 <= i < k && results.contains_key((#[trigger] entries[i]).pair_id@) ==> planned_paths(
                paths,
                planned(entries, paths, results, k),
            ).contains(paths[i]@),
        forall|j: int|
            0 <= j < planned(entries, paths, results, k).len() ==> {
                let p = #[trigger] planned(entries, paths, results, k)[j];
                &&& 0 <= p < k
                &&& results.contains_key(entries[p].pair_id@)
                &&& forall|q: int|
                    0 <= q < p && results.contains_key((#[trigger] entries[q]).pair_id@) ==> paths[q]@
                        != paths[p]@
            },
    decreases k,
{
    if k > 0 {
        every_analysed_file_gets_its_sidecar(entries, paths, results, k - 1);
        let s = planned(entries, paths, results, k - 1);
        let t = planned(entries, paths, results, k);
        let a = planned_paths(paths, s);
        let b = planned_paths(paths, t);
        assert(t.len() > s.len() ==> b =~= a.push(paths[k - 1]@));
        assert forall|i: int|
            0 <= i < k && results.contains_key((#[trigger] entries[i]).pair_id@) implies b.contains(
            paths[i]@,
        ) by {
            if i < k - 1 || a.contains(paths[i]@) {
                assert(a.contains(paths[i]@));
                let j = choose|j: int| 0 <= j < a.len() && a[j] == paths[i]@;
                assert(b[j] == paths[i]@);
            } else {
                assert(b[a.len() as int] == paths[i]@);
            }
        }
        assert forall|j: int| 0 <= j < t.len() implies {
            let p = #[trigger] t[j];
            &&& 0 <= p < k
            &&& results.contains_key(entries[p].pair_id@)
            &&& forall|q: int|
                0 <= q < p && results.contains_key((#[trigger] entries[q]).pair_id@) ==> paths[q]@
                    != paths[p]@
        } by {
            if j < s.len() {
                assert(t[j] == s[j]);
            } else {
                assert(t[j] == k - 1);
                assert forall|q: int|
                    0 <= q < k - 1 && results.contains_key((#[trigger] entries[q]).pair_id@) implies paths[q]@
                    != paths[k - 1]@ by {
                    assert(a.contains(paths[q]@));
                }
            }
        }
    }
}

/// A photo counts as one of a burst exactly where its rows show a burst number above zero.
pub proof fn members_show_a_burst_number(
    keys: Seq<Seq<char>>,
    bursts: Map<Seq<char>, BurstInfo>,
    i: int,
    v: PhotoView,
    entries: Seq<PhotoEntry>,
    results: Results,
    c: crate::config::ConfigView,
)
    requires
        0 <= i < keys.len(),
        v.pair_id == keys[i],
        v.burst_group.len() == 0,
    ensures
        in_bursts(keys, bursts)(i) <==> digits_value(
            final_row(v, entries, results, bursts, c).burst_group,
        ) > 0,
{
    if bursts.contains_key(keys[i]) {
        decimal_reads_back(bursts[keys[i]].group as nat);
    }
}

} // verus!
