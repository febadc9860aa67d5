use pic_process::cache::{blob_to_desc, desc_to_blob, lookup, CacheRow, ScoreCache, CACHE_VERSION};
use pic_process::config::{ScoreConfig, ScoreWeights};
use pic_process::output::csv::write_csv;
use pic_process::pipeline::{
    analyze_photo_bursts, apply_burst, apply_scores, collect_outcome, complete_run, find_stored,
    plan_sidecars, rate_photos, tells_progress, Analyzed,
};
use pic_process::review::snapshot::{assemble, usable_results};
use pic_process::scan::PhotoEntry;
use pic_process::score::{
    after_faces, conclude, iso_of, pose_descriptor, settle_sharpness, study_faces, study_persons, total_score,
    AnalysisResult, CurveValues, NextStep, PixelScores,
};
use pic_process::ai::facedetect::FaceBox;
use pic_process::ai::pose::PersonBox;
use pic_process::decode::{build_analysis_image, RgbImage};
use pic_process::dedup::BurstInfo;
use vstd::hash_map::StringHashMap;

fn fp(v: f64) -> i64 {
    (v * 1e6).round() as i64
}

fn scores(v: f64) -> PixelScores {
    PixelScores {
        sharpness: fp(v),
        exposure: fp(v),
        noise: fp(v),
        composition: fp(v),
        aesthetic: fp(v),
    }
}

fn result(v: f64) -> AnalysisResult {
    AnalysisResult { scores: scores(v), dhash: 0, faces: 1, pose_desc: None, suggested_ev: None }
}

fn entry(path: &str, key: &str, raw: bool, time: &str) -> PhotoEntry {
    PhotoEntry {
        path: path.into(),
        filename: path.rsplit('/').next().unwrap().into(),
        extension: if raw { "arw".into() } else { "jpg".into() },
        is_raw: raw,
        pair_id: key.into(),
        date_time_original: time.into(),
        ..Default::default()
    }
}

fn rows() -> Vec<PhotoEntry> {
    vec![
        entry("d/a.jpg", "d|a", false, "2026:07:19 17:12:38"),
        entry("d/a.arw", "d|a", true, "2026:07:19 17:12:38"),
        entry("d/b.jpg", "d|b", false, "2026:07:19 17:12:39"),
        entry("d/c.jpg", "d|c", false, ""),
        entry("d/x.arw", "d|x", true, ""),
    ]
}

fn results() -> StringHashMap<AnalysisResult> {
    let mut m = StringHashMap::new();
    m.insert("d|a".to_string(), result(60.0));
    m.insert("d|b".to_string(), result(80.0));
    m
}

#[test]
fn test_total_score_with_updated_weights() {
    let s = PixelScores {
        sharpness: fp(80.0),
        exposure: fp(70.0),
        noise: fp(60.0),
        composition: fp(75.0),
        aesthetic: fp(65.0),
    };
    let cfg = ScoreConfig::default();
    let total = total_score(&s, &cfg.weights) as f64 / 1e6;
    let expected: f64 = 80.0 * 0.30 + 70.0 * 0.25 + 60.0 * 0.15 + 75.0 * 0.15 + 65.0 * 0.15;
    let expected_rounded = (expected * 10.0).round() / 10.0;
    assert!((total - expected_rounded).abs() < 0.01);
    assert_eq!(total_score(&s, &cfg.weights), fp(71.5));
}

#[test]
fn totals_are_rounded_to_a_tenth() {
    let w = ScoreWeights { sharpness: fp(1.0), exposure: 0, noise: 0, composition: 0, aesthetic: 0 };
    let mut s = scores(0.0);
    for (v, want) in [(12.34, 12.3), (12.35, 12.4), (0.0, 0.0), (100.0, 100.0), (0.04, 0.0)] {
        s.sharpness = fp(v);
        assert_eq!(total_score(&s, &w), fp(want));
    }
    let minus = ScoreWeights { sharpness: fp(-1.0), ..w };
    s.sharpness = fp(12.35);
    assert_eq!(total_score(&s, &minus), fp(-12.4));
    let huge = ScoreWeights { sharpness: i64::MAX, ..w };
    assert_eq!(total_score(&s, &huge), i64::MAX);
}

#[test]
fn rows_after_a_run() {
    let mut e = rows();
    let r = results();
    let report = complete_run(&mut e, &r, &ScoreConfig::default(), None);
    assert_eq!(report.analyzed, 2);
    assert_eq!(report.burst_members, 2);
    assert_eq!(report.failed_jpgs, vec!["d/c.jpg".to_string()]);
    assert_eq!(report.unmapped_arw, 1);
    assert_eq!(e[0].total_score, "60.0");
    assert_eq!(e[1].total_score, "60.0");
    assert_eq!(e[2].total_score, "80.0");
    assert_eq!(e[0].stars, e[1].stars);
    assert_eq!((e[2].stars.as_str(), e[0].stars.as_str()), ("5", "3"));
    assert_eq!((e[3].stars.as_str(), e[3].analysis_ok.as_str()), ("", "false"));
    assert_eq!(e[0].analysis_ok, "true");
    assert_eq!((e[0].burst_group.as_str(), e[0].burst_rank.as_str(), e[0].burst_keep.as_str()), ("1", "2", "true"));
    assert_eq!((e[2].burst_rank.as_str(), e[2].burst_size.as_str(), e[2].burst_pose.as_str()), ("1", "2", "1"));
    assert_eq!(e[3].burst_group, "");
    assert_eq!(e[0].faces, "1");
    // With one frame for each unit only the better one stays.
    let mut e = rows();
    complete_run(&mut e, &r, &ScoreConfig::default(), Some(1));
    assert_eq!((e[0].burst_keep.as_str(), e[2].burst_keep.as_str()), ("false", "true"));
}

#[test]
fn rows_with_scores_and_bursts() {
    let mut e = entry("p", "k", false, "");
    let r = AnalysisResult { suggested_ev: Some(1_333_333), faces: 12, ..result(66.66) };
    apply_scores(&mut e, &r, &ScoreWeights::default());
    assert_eq!(e.sharpness_score, "66.7");
    assert_eq!(e.total_score, "66.7");
    assert_eq!(e.suggested_ev, "+1.33");
    assert_eq!(e.faces, "12");
    apply_burst(&mut e, &BurstInfo { group: 0, size: 0, rank: 0, keep: false, pose_cluster: 0 });
    assert_eq!((e.burst_group.as_str(), e.burst_size.as_str(), e.burst_keep.as_str()), ("0", "", ""));
    assert_eq!((e.burst_rank.as_str(), e.burst_pose.as_str()), ("", ""));
    apply_burst(&mut e, &BurstInfo { group: 12, size: 3, rank: 2, keep: false, pose_cluster: 0 });
    assert_eq!((e.burst_group.as_str(), e.burst_keep.as_str(), e.burst_pose.as_str()), ("12", "false", "0"));
}

#[test]
fn stars_by_key() {
    let cfg = ScoreConfig::default();
    let stars = rate_photos(&rows(), &results(), &cfg.weights, &cfg.metric);
    assert_eq!(stars.get("d|b"), Some(&5));
    assert_eq!(stars.get("d|a"), Some(&3));
    assert_eq!(stars.get("d|c"), None);
    let bursts = analyze_photo_bursts(&rows(), &results(), &cfg.dedup, &cfg.weights);
    assert_eq!(bursts.get("d|b").unwrap().rank, 1);
    assert!(bursts.get("d|c").is_none());
    let mut one = StringHashMap::new();
    one.insert("d|a".to_string(), result(60.0));
    assert!(analyze_photo_bursts(&rows(), &one, &cfg.dedup, &cfg.weights).is_empty());
}

#[test]
fn sidecars_are_planned_once() {
    let e = rows();
    let paths: Vec<String> =
        ["d/a.xmp", "d/a.xmp", "d/b.xmp", "d/c.xmp", "d/x.xmp"].iter().map(|s| s.to_string()).collect();
    let plan = plan_sidecars(&e, &paths, &results(), &ScoreConfig::default());
    assert_eq!(plan.len(), 2);
    assert_eq!((plan[0].index, plan[0].total, plan[0].rating), (0, fp(60.0), 3));
    assert_eq!((plan[1].index, plan[1].total, plan[1].rating), (2, fp(80.0), 5));
}

#[test]
fn outcome_of_an_analysis() {
    let item = |key: &str, v: f64, hit: bool, f: Option<(u64, i64)>| Analyzed {
        pair_id: key.into(),
        path: format!("{key}.jpg"),
        result: result(v),
        hit,
        fingerprint: f,
    };
    let items = vec![
        item("a", 1.0, true, Some((1, 1))),
        item("b", 2.0, false, Some((2, 3))),
        item("c", 3.0, false, None),
        item("a", 4.0, false, Some((4, 5))),
    ];
    let o = collect_outcome(&items);
    assert_eq!((o.hits, o.misses, o.results.len()), (1, 2, 3));
    assert_eq!(o.results.get("a").unwrap().scores.noise, fp(4.0));
    let paths: Vec<&str> = o.new_rows.iter().map(|r| r.0.as_str()).collect();
    assert_eq!(paths, vec!["b.jpg", "a.jpg"]);
    assert_eq!((o.new_rows[0].1, o.new_rows[0].2), (2, 3));
    let empty = collect_outcome(&Vec::new());
    assert_eq!((empty.hits, empty.misses), (0, 0));
    let told: Vec<usize> = (1..=60).filter(|d| tells_progress(*d, 60)).collect();
    assert_eq!(told, vec![25, 50, 60]);
}

// ---- cache ----

fn cached(size: i64) -> CacheRow {
    CacheRow { size, mtime: 7, version: CACHE_VERSION, cfg_hash: 3, result: result(50.0) }
}

#[test]
fn rows_match_their_file() {
    let row = cached(100);
    assert!(row.matches(100, 7, CACHE_VERSION, 3));
    assert!(!row.matches(101, 7, CACHE_VERSION, 3));
    assert!(!row.matches(100, 8, CACHE_VERSION, 3));
    assert!(!row.matches(100, 7, CACHE_VERSION + 1, 3));
    assert!(!row.matches(100, 7, CACHE_VERSION, 4));
    assert!(cached(-1).matches(u64::MAX, 7, CACHE_VERSION, 3));
    assert!(cached(i64::MIN).matches(1u64 << 63, 7, CACHE_VERSION, 3));
}

#[test]
fn stored_rows_are_found_again() {
    let mut c = ScoreCache::open(vec![("old".to_string(), cached(1)), ("old".to_string(), cached(2))], 3);
    assert_eq!(c.len(), 1);
    assert!(lookup(c.rows(), "old", Some((2, 7)), 3).is_some());
    assert!(lookup(c.rows(), "old", Some((1, 7)), 3).is_none());
    assert!(lookup(c.rows(), "old", None, 3).is_none());
    assert!(c.pending().is_empty());
    c.put("new", 10, 20, &result(33.0));
    c.put("new", 11, 20, &result(44.0));
    assert_eq!(lookup(c.rows(), "new", Some((11, 20)), 3).unwrap().scores.noise, fp(44.0));
    assert!(lookup(c.rows(), "new", Some((10, 20)), 3).is_none());
    assert!(lookup(c.rows(), "new", Some((11, 20)), 4).is_none());
    let pending = c.pending();
    assert_eq!(pending.len(), 1);
    assert_eq!((pending[0].0.as_str(), pending[0].1.size, pending[0].1.cfg_hash), ("new", 11, 3));
    c.written();
    assert!(c.pending().is_empty());
    assert_eq!(c.len(), 2);
    let e = entry("new", "k", false, "");
    assert!(find_stored(&e, Some(c.rows()), Some((11, 20)), 3).is_some());
    assert!(find_stored(&e, None, Some((11, 20)), 3).is_none());
}

#[test]
fn descriptors_keep_their_bits() {
    let words = [0u32, 1, 255, 256, 65535, 65536, 0x0102_0304, u32::MAX, 0x8000_0000, 7];
    let blob = desc_to_blob(&words);
    assert_eq!(blob.len(), 40);
    assert_eq!(&blob[24..28], &[4, 3, 2, 1]);
    assert_eq!(blob_to_desc(&blob), Some(words));
    assert_eq!(blob_to_desc(&blob[..39]), None);
    let f = 0.75f32;
    assert_eq!(desc_to_blob(&[f.to_bits(); 10])[..4], f.to_le_bytes());
}

// ---- analysis of one photo ----

fn picture() -> pic_process::decode::AnalyzedImage {
    let mut data = Vec::new();
    for y in 0..100u32 {
        for x in 0..100u32 {
            let v = if x < 50 { 40 } else if (x + y) % 2 == 0 { 60 } else { 200 };
            data.extend_from_slice(&[v, v, v]);
        }
    }
    build_analysis_image(RgbImage { width: 100, height: 100, data })
}

fn face(x: f64, y: f64, w: f64, h: f64) -> FaceBox {
    FaceBox {
        x: fp(x),
        y: fp(y),
        w: fp(w),
        h: fp(h),
        score: fp(0.9),
        kps: [(fp(x), fp(y)), (fp(x + w), fp(y)), (fp(x + w / 2.0), fp(y + h / 2.0)), (fp(x), fp(y + h)), (fp(x + w), fp(y + h))],
    }
}

#[test]
fn faces_of_a_picture() {
    let img = picture();
    let none = study_faces(&img, &Vec::new());
    assert_eq!((none.count, none.composition), (0, fp(60.0)));
    assert!(none.subject_luma.is_none() && none.reblur.is_none() && none.pose_desc.is_none());
    let f = study_faces(&img, &vec![face(0.1, 0.1, 0.1, 0.1), face(0.6, 0.5, 0.2, 0.2), face(0.9, 0.9, 0.03, 0.03)]);
    assert_eq!(f.count, 3);
    // The right half is brighter, and only its face is surrounded by detail.
    assert!(f.subject_luma.unwrap() > fp(100.0));
    assert!(f.reblur.unwrap() > fp(20.0));
    assert_eq!(f.pose_desc.unwrap(), [0, 0, 1_000_000, 0, 500_000, 500_000, 0, 1_000_000, 1_000_000, 1_000_000]);
    let small = study_faces(&img, &vec![face(0.1, 0.1, 0.039, 0.039)]);
    assert_eq!((small.count, small.reblur), (1, None));
}

#[test]
fn pose_of_a_small_face_is_unknown() {
    assert!(pose_descriptor(&face(0.1, 0.1, 0.0001, 0.5)).is_none());
    assert!(pose_descriptor(&face(0.1, 0.1, 0.5, 0.0001)).is_none());
    let a = pose_descriptor(&face(0.1, 0.1, 0.2, 0.2)).unwrap();
    let b = pose_descriptor(&face(0.5, 0.3, 0.2, 0.2)).unwrap();
    assert_eq!(a, b);
}

#[test]
fn heads_of_persons() {
    let img = picture();
    assert!(study_persons(&img, &Vec::new()).is_none());
    let person = |conf: f64, w: f64| PersonBox {
        x: fp(0.5),
        y: fp(0.2),
        w: fp(w),
        h: fp(0.5),
        score: fp(0.8),
        keypoints: (0..17).map(|k| (fp(0.7 + 0.01 * k as f64), fp(0.5), fp(conf))).collect(),
    };
    assert!(study_persons(&img, &vec![person(0.9, 0.3)]).unwrap() > fp(20.0));
    assert!(study_persons(&img, &vec![person(0.3, 0.3)]).is_none());
    // The larger person is the one that counts.
    assert!(study_persons(&img, &vec![person(0.9, 0.3), person(0.1, 0.4)]).is_none());
}

#[test]
fn sharpness_has_a_floor() {
    assert_eq!(settle_sharpness(fp(30.0), None), fp(50.0));
    assert_eq!(settle_sharpness(fp(70.0), None), fp(70.0));
    assert_eq!(settle_sharpness(fp(30.0), Some(fp(40.0))), fp(40.0));
    assert_eq!(settle_sharpness(fp(70.0), Some(fp(40.0))), fp(70.0));
    assert_eq!(settle_sharpness(fp(30.0), Some(fp(20.0))), fp(30.0));
}

#[test]
fn a_whole_analysis() {
    let img = picture();
    let m = pic_process::score::measure(&img);
    let f = study_faces(&img, &vec![face(0.6, 0.5, 0.2, 0.2)]);
    let cfg = ScoreConfig::default();
    let c = CurveValues {
        sharpness: fp(20.0),
        region: Some(fp(90.0)),
        noise: fp(70.0),
        aesthetic: Some(fp(75.0)),
        ev: fp(-2.5),
    };
    let r = conclude(&m, &f, &c, &cfg.metric);
    assert_eq!((r.scores.sharpness, r.scores.exposure), (fp(90.0), fp(50.0)));
    assert_eq!((r.scores.noise, r.scores.aesthetic), (fp(70.0), fp(75.0)));
    assert_eq!(r.scores.composition, f.composition);
    assert_eq!((r.faces, r.dhash), (1, m.dhash));
    assert_eq!(r.suggested_ev, Some(fp(2.0)));
    assert_eq!(r.pose_desc, f.pose_desc);
}

#[test]
fn without_models_the_scores_are_neutral() {
    let img = picture();
    let m = pic_process::score::measure(&img);
    let f = study_faces(&img, &Vec::new());
    let c = CurveValues { sharpness: fp(20.0), region: None, noise: fp(70.0), aesthetic: None, ev: 0 };
    let r = conclude(&m, &f, &c, &ScoreConfig::default().metric);
    assert_eq!((r.scores.composition, r.scores.aesthetic), (fp(60.0), fp(60.0)));
    assert_eq!((r.faces, r.pose_desc), (0, None));
    assert_eq!(r.scores.sharpness, fp(50.0));
}

#[test]
fn persons_are_looked_for_without_a_subject() {
    let img = picture();
    let none = study_faces(&img, &Vec::new());
    let small = study_faces(&img, &vec![face(0.6, 0.5, 0.03, 0.03)]);
    let subject = study_faces(&img, &vec![face(0.6, 0.5, 0.2, 0.2)]);
    assert_eq!(after_faces(&none, true), NextStep::LookForPersons);
    assert_eq!(after_faces(&small, true), NextStep::LookForPersons);
    assert_eq!(after_faces(&small, false), NextStep::Judge(None));
    assert_eq!(after_faces(&subject, true), NextStep::Judge(subject.reblur));
}

#[test]
fn sensitivity_of_a_row() {
    assert_eq!(iso_of("3200"), 3200);
    assert_eq!(iso_of(""), 100);
    assert_eq!(iso_of("x"), 100);
    assert_eq!(iso_of("4294967296"), 100);
    assert_eq!(iso_of("4294967295"), u32::MAX);
}

// ---- review page and report ----

#[test]
fn review_agrees_with_the_report() {
    let cfg = ScoreConfig::default();
    let e = rows();
    let rels: Vec<String> = ["z.jpg", "a.arw", "m.jpg", "b.jpg", "c.arw"].iter().map(|s| s.to_string()).collect();
    let s = assemble("root", &e, &rels, &results(), &cfg);
    let order: Vec<&str> = s.photos.iter().map(|p| p.path.as_str()).collect();
    assert_eq!(order, vec!["a.arw", "b.jpg", "c.arw", "m.jpg", "z.jpg"]);
    assert_eq!(s.root, "root");
    let mut done = rows();
    complete_run(&mut done, &results(), &cfg, None);
    for p in &s.photos {
        let i = rels.iter().position(|r| *r == p.path).unwrap();
        assert_eq!(p.stars.map(|v| v.to_string()).unwrap_or_default(), done[i].stars);
        assert_eq!(p.burst.map(|b| b.rank.to_string()).unwrap_or_default(), done[i].burst_rank);
        assert_eq!(p.scores.is_some(), done[i].analysis_ok == "true");
        if let Some(sc) = p.scores {
            assert_eq!(format!("{:.1}", sc.total as f64 / 1e6), done[i].total_score);
        }
    }
}

#[test]
fn stored_results_for_the_page() {
    let cache = ScoreCache::open(
        vec![("d/a.jpg".to_string(), cached(1)), ("d/a.arw".to_string(), cached(1)), ("d/b.jpg".to_string(), cached(2))],
        3,
    );
    let marks = vec![Some((1, 7)), Some((1, 7)), Some((1, 7)), None, None];
    let m = usable_results(&rows(), cache.rows(), &marks, 3);
    assert!(m.get("d|a").is_some());
    assert_eq!(m.len(), 1);
    assert!(usable_results(&rows(), cache.rows(), &marks, 4).is_empty());
}

#[test]
fn the_report_is_a_table() {
    let head = String::from_utf8(write_csv(&Vec::new())).unwrap();
    assert!(head.starts_with("path,filename,") && head.ends_with(",burst_pose\n"));
    assert_eq!(head.matches('\n').count(), 1);
    let mut e = rows();
    e[0].camera_model = "a,\"b\"".into();
    complete_run(&mut e, &results(), &ScoreConfig::default(), None);
    let bytes = write_csv(&e);
    let text = String::from_utf8(bytes.clone()).unwrap();
    assert!(text.starts_with("path,filename,extension,is_raw,has_pair,date_time_original,"));
    assert!(text.contains("\"a,\"\"b\"\"\""));
    let mut reader = csv::Reader::from_reader(bytes.as_slice());
    let head: Vec<String> = reader.headers().unwrap().iter().map(|s| s.to_string()).collect();
    assert_eq!(head.len(), 28);
    assert!(!head.contains(&"pair_id".to_string()));
    let col = |name: &str| head.iter().position(|h| h == name).unwrap();
    let records: Vec<csv::StringRecord> = reader.records().map(|r| r.unwrap()).collect();
    assert_eq!(records.len(), 5);
    assert_eq!(&records[0][col("camera_model")], "a,\"b\"");
    assert_eq!(&records[1][col("is_raw")], "true");
    assert_eq!(&records[2][col("total_score")], "80.0");
    assert_eq!(&records[2][col("stars")], "5");
    assert_eq!(&records[4][col("analysis_ok")], "false");
    assert_eq!(&records[0][col("burst_pose")], "1");
}
