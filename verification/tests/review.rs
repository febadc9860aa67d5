use pic_process::config::ScoreConfig;
use pic_process::output::xmp::{render_xmp, Existing};
use pic_process::review::job::{JobState, JobStatus, LOG_CAP};
use pic_process::review::paths::{
    inner_path, inside, is_served, path_below, rel_path, resolve_under, Location,
};
use pic_process::review::service::{
    apply_rating, choose_config, decide_rate, event_text, finish_rate, note_event, prepare_sidecar,
    rate_answer, summary_text, RateRefusal, ScoreEvent, ScoreJobSummary,
};
use pic_process::review::snapshot::{BurstJson, PhotoJson, ScoresJson, Snapshot};
use pic_process::review::thumb::{cache_name, thumb_dir};

fn fp(v: f64) -> i64 {
    (v * 1e6).round() as i64
}

#[test]
fn single_job_mutex() {
    let mut job = JobState::new();
    assert!(job.begin());
    assert!(!job.begin());
    job.progress(5, 10);
    job.log("一行日志".to_string());
    match job.status() {
        JobStatus::Running { done, total } => {
            assert_eq!((done, total), (5, 10))
        }
        other => panic!("{other:?}"),
    }
    job.finish("完成".into());
    assert!(job.begin());
    assert!(job.snapshot().1.is_empty());
    job.fail("坏了".into());
    assert_eq!(job.status(), JobStatus::Failed { error: "坏了".into() });
}

#[test]
fn log_ring_is_capped() {
    let mut job = JobState::new();
    job.begin();
    for i in 0..(LOG_CAP + 50) {
        job.log(format!("l{i}"));
    }
    let (_, log) = job.snapshot();
    assert_eq!(log.len(), LOG_CAP);
    assert_eq!(log.last().unwrap(), &format!("l{}", LOG_CAP + 49));
    assert_eq!(log.first().unwrap(), &"l50".to_string());
}

#[test]
fn progress_needs_a_job() {
    let mut job = JobState::new();
    job.progress(1, 2);
    assert_eq!(job.status(), JobStatus::Idle);
    assert!(!job.is_running());
    job.begin();
    assert!(job.is_running());
    note_event(&mut job, &ScoreEvent::Progress { done: 3, total: 4 });
    note_event(&mut job, &ScoreEvent::Info("x".into()));
    note_event(&mut job, &ScoreEvent::Finished { total_jpg: 9, hits: 2, misses: 7 });
    assert_eq!(job.status(), JobStatus::Running { done: 3, total: 4 });
    assert_eq!(
        job.snapshot().1,
        vec!["[score] x".to_string(), "[score] 分析完成: 9 张 JPG（缓存命中 2，新分析 7）".to_string()]
    );
    assert_eq!(event_text(&ScoreEvent::Progress { done: 3, total: 4 }), "[score] 进度 3/4");
}

#[test]
fn rel_path_uses_forward_slashes() {
    assert_eq!(rel_path("F:/photos", "F:/photos/JPG/a.JPG"), "JPG/a.JPG");
}

#[test]
fn relative_paths() {
    assert_eq!(rel_path("F:\\photos\\", "F:\\photos\\JPG\\a.JPG"), "JPG/a.JPG");
    assert_eq!(rel_path("/a/b", "/a/bc/d.jpg"), "/a/bc/d.jpg");
    assert_eq!(rel_path("/a/b", "c\\d.jpg"), "c/d.jpg");
    assert_eq!(rel_path(".", "./x.jpg"), "x.jpg");
    assert_eq!(rel_path("/", "/x.jpg"), "x.jpg");
    assert_eq!(rel_path("/a", "/a"), "");
    assert_eq!(rel_path("a", "a/./b"), "b");
    assert_eq!(rel_path("./x", "x/y"), "x/y");
    assert_eq!(rel_path("a//b/", "a/b/c//d/./e/."), "c//d/./e");
    assert_eq!(rel_path("a", "/a/b"), "/a/b");
    assert_eq!(path_below("a", "b/c"), "a/b/c");
    assert_eq!(path_below("a/", "b"), "a/b");
    assert_eq!(path_below("", "b"), "b");
    assert_eq!(rel_path("r", &path_below("r", "s/t.jpg")), "s/t.jpg");
}

fn place(path: &str) -> Location {
    Location {
        path: path.to_string(),
        names: path.split('/').map(|n| n.to_string()).collect(),
    }
}

#[test]
fn resolve_rejects_traversal() {
    let root = place("/photos");
    let ask = |p: &str, full: &str| resolve_under(p, Some(&root), Some(&place(full)));
    assert_eq!(ask("sub/a.jpg", "/photos/sub/a.jpg"), Some("/photos/sub/a.jpg".to_string()));
    assert!(ask(" sub/a..b.jpg ", "/photos/sub/a..b.jpg").is_some());
    assert!(ask("../outside.jpg", "/outside.jpg").is_none());
    let any = "/photos/a.jpg";
    assert!(ask("sub/../a.jpg", any).is_none());
    assert!(ask("sub\\..\\a.jpg", any).is_none());
    assert!(ask("sub/..", any).is_none());
    assert!(ask("C:/Windows/win.ini", any).is_none());
    assert!(ask("c:x.jpg", any).is_none());
    assert!(ask("\\\\server\\share\\x.jpg", any).is_none());
    assert!(ask("/etc/passwd", any).is_none());
    assert!(ask("", any).is_none());
    assert!(ask("  ", any).is_none());
    assert!(ask("a", "/photos/a").is_some());
    // A link that leads out, and a directory whose name only starts alike.
    assert!(ask("link/a.jpg", "/other/a.jpg").is_none());
    assert!(ask("link/a.jpg", "/photos2/a.jpg").is_none());
    // What does not exist.
    assert!(resolve_under("a.jpg", Some(&root), None).is_none());
    assert!(resolve_under("a.jpg", None, Some(&place(any))).is_none());
    assert_eq!(inner_path(" sub/a.jpg "), Some("sub/a.jpg".to_string()));
    assert!(inside(&root.names, &root.names));
    assert!(!inside(&place("/photos/sub").names, &root.names));
}

#[test]
fn only_jpg_files_are_served() {
    assert!(is_served(Some("jpg")) && is_served(Some("JPEG")));
    assert!(!is_served(Some("ARW")) && !is_served(Some("")) && !is_served(None));
}

#[test]
fn cache_name_stable_and_sensitive() {
    let a = cache_name("JPG/a.JPG", 100, 5);
    let b = cache_name("JPG/b.JPG", 100, 5);
    let a2 = cache_name("JPG/a.JPG", 100, 5);
    let a3 = cache_name("JPG/a.JPG", 101, 5);
    assert_eq!(a, a2);
    assert_ne!(a, b);
    assert_ne!(a, a3);
}

#[test]
fn cache_name_form() {
    let a = cache_name("JPG/a.JPG", 100, -5);
    assert!(a.ends_with("-100--5.jpg"));
    assert_eq!(a.len(), 16 + "-100--5.jpg".len());
    assert!(a[..16].chars().all(|c| c.is_ascii_hexdigit() && !c.is_ascii_uppercase()));
    let mut h = std::collections::hash_map::DefaultHasher::new();
    std::hash::Hash::hash("JPG/a.JPG", &mut h);
    assert_eq!(a[..16], format!("{:016x}", std::hash::Hasher::finish(&h)));
    assert_eq!(thumb_dir("/p"), "/p/.firstcut/thumbs");
}

fn photo(path: &str, scored: bool) -> PhotoJson {
    PhotoJson {
        path: path.into(),
        filename: path.rsplit('/').next().unwrap().into(),
        ext: "jpg".into(),
        is_raw: false,
        has_pair: true,
        datetime: "d".into(),
        iso: "100".into(),
        f_number: "2.8".into(),
        shutter: "1/200".into(),
        focal: "50".into(),
        scores: if scored {
            Some(ScoresJson {
                sharpness: fp(75.0),
                exposure: fp(80.0),
                noise: fp(60.0),
                composition: fp(61.25),
                aesthetic: fp(45.0),
                total: fp(66.0),
            })
        } else {
            None
        },
        stars: Some(3),
        faces: 2,
        burst: Some(BurstJson { group: 3, size: 2, rank: 1, keep: true, pose_cluster: 0 }),
        suggested_ev: Some(fp(0.5)),
    }
}

fn snap() -> Snapshot {
    Snapshot {
        root: "root".into(),
        photos: vec![photo("d/a.jpg", true), photo("d/A.ARW", true), photo("e/a.jpg", false)],
    }
}

#[test]
fn stars_can_be_changed() {
    let s = snap();
    let job = decide_rate(5, false, &s, "root", "d/a.jpg").unwrap();
    assert_eq!(job.total, fp(66.0));
    assert_eq!(job.suggested_ev, Some(fp(0.5)));
    assert_eq!(job.scores.noise, fp(60.0));
    let e = &job.entry;
    assert_eq!(e.path, "root/d/a.jpg");
    assert_eq!(e.composition_score, "61.2");
    assert_eq!(e.total_score, "66.0");
    assert_eq!((e.burst_group.as_str(), e.burst_keep.as_str(), e.burst_pose.as_str()), ("3", "true", "0"));
    assert_eq!((e.faces.as_str(), e.analysis_ok.as_str(), e.suggested_ev.as_str()), ("2", "true", "+0.50"));
    assert_eq!(e.stars, "");
}

#[test]
fn refusals_of_new_stars() {
    let s = snap();
    let why = |stars: u8, running: bool, p: &str| decide_rate(stars, running, &s, "root", p).unwrap_err();
    assert_eq!(why(0, true, "x"), RateRefusal::BadStars);
    assert_eq!(why(6, false, "d/a.jpg"), RateRefusal::BadStars);
    assert_eq!(why(3, true, "d/a.jpg"), RateRefusal::Busy);
    assert_eq!(why(3, false, "nope"), RateRefusal::NotFound);
    assert_eq!(why(3, false, "e/a.jpg"), RateRefusal::NotScored);
    assert_eq!(RateRefusal::Busy.status(), 409);
    assert_eq!(RateRefusal::NotFound.status(), 404);
    assert_eq!(RateRefusal::BadStars.status(), 400);
    assert_eq!(RateRefusal::NotScored.status(), 400);
    assert_eq!(RateRefusal::BadStars.text(), "星级必须是 1~5");
}

#[test]
fn answers_to_new_stars() {
    let mut s = snap();
    let stars = |s: &Snapshot| s.photos.iter().map(|p| p.stars).collect::<Vec<_>>();
    let before = stars(&s);
    let job = decide_rate(5, false, &s, "root", "d/a.jpg").unwrap();
    let text = prepare_sidecar(&job, 5, &Existing::Absent).unwrap();
    assert_eq!(text, render_xmp(&job.entry, &job.scores, job.total, 5, job.suggested_ev));
    assert!(text.contains("<xmp:Rating>5</xmp:Rating>"));
    assert_eq!(prepare_sidecar(&job, 5, &Existing::Holds(text.clone().into_bytes())), Ok(text));
    for foreign in [Existing::Unreadable, Existing::Holds(b"<x:xmpmeta/>".to_vec())] {
        let why = prepare_sidecar(&job, 5, &foreign).unwrap_err();
        assert_eq!(why, RateRefusal::ForeignSidecar);
        assert_eq!(rate_answer(&Err(why)), 409);
        assert_eq!(why.text(), "该照片已有其他软件写的侧车（无 firstcut 标记），未覆盖");
    }
    let failed = finish_rate(&mut s, "d/a.jpg", 5, false);
    assert_eq!(failed, Err(RateRefusal::WriteFailed));
    assert_eq!(rate_answer(&failed), 500);
    assert_eq!(stars(&s), before);
    let done = finish_rate(&mut s, "d/a.jpg", 5, true);
    assert_eq!(rate_answer(&done), 200);
    assert_eq!(stars(&s), vec![Some(5), Some(5), Some(3)]);
}

#[test]
fn new_stars_reach_all_files_of_a_photo() {
    let mut s = snap();
    apply_rating(&mut s, "d/a.jpg", 5);
    let stars: Vec<Option<u8>> = s.photos.iter().map(|p| p.stars).collect();
    assert_eq!(stars, vec![Some(5), Some(5), Some(3)]);
    assert_eq!(s.root, "root");
}

#[test]
fn settings_for_a_job() {
    let mut c = ScoreConfig::default();
    c.dedup.keep_k = 7;
    assert_eq!(choose_config(Ok(c), false).unwrap().dedup.keep_k, 7);
    assert_eq!(choose_config(Err("bad".into()), false).unwrap().dedup.keep_k, 3);
    assert_eq!(choose_config(Err("bad".into()), true).unwrap_err(), "bad");
}

#[test]
fn summary_of_a_job() {
    let s = ScoreJobSummary {
        total_jpg: 10,
        hits: 4,
        misses: 5,
        failed_jpgs: vec!["x".into()],
        unmapped_arw: 2,
        burst_members: 3,
        csv_path: "report.csv".into(),
    };
    assert_eq!(
        summary_text(&s),
        "完成：10 张 JPG（命中 4，新分析 5，失败 1，ARW 无映射 2）→ report.csv"
    );
}
