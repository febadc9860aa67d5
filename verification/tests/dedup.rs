use pic_process::config::DedupParams;
use pic_process::dedup::{
    analyze_bursts, days_from_civil, days_in_month, dhash, hamming, parse_datetime, pose_distance,
    PoseDesc,
};
use pic_process::dedup::bursts::group_by_time;
use pic_process::scan::PhotoEntry;

fn fp(v: f64) -> i64 {
    (v * 1e6).round() as i64
}

fn fps(v: &[f64]) -> Vec<i64> {
    v.iter().map(|x| fp(*x)).collect()
}

fn entry(name: &str, datetime: &str) -> PhotoEntry {
    PhotoEntry {
        path: format!("testpic/JPG/{name}"),
        filename: name.to_string(),
        extension: "jpg".to_string(),
        pair_id: name.to_string(),
        date_time_original: datetime.to_string(),
        iso: "100".to_string(),
        ..Default::default()
    }
}

fn pose_desc(nose_dx: f32, nose_dy: f32) -> PoseDesc {
    let mut d = [0.5f32, 0.4, 0.3, 0.2, 0.5, 0.6, 0.4, 0.7, 0.6, 0.8];
    d[4] += nose_dx;
    d[5] += nose_dy;
    let mut out = [0i32; 10];
    for (o, v) in out.iter_mut().zip(d.iter()) {
        *o = (*v as f64 * 1e6).round() as i32;
    }
    out
}

#[test]
fn parse_datetime_both_separators() {
    let a = parse_datetime("2026:07:19 13:56:32");
    let b = parse_datetime("2026-07-19 13:56:32");
    assert_eq!(a, b);
    assert!(a.is_some());
    assert_eq!(a.unwrap(), 1784469392i64);
}

#[test]
fn parse_datetime_invalid() {
    assert_eq!(parse_datetime(""), None);
    assert_eq!(parse_datetime("not a date"), None);
    assert_eq!(parse_datetime("2026:13:99 99:99:99"), None);
    assert_eq!(parse_datetime("2026:02:30 10:00:00"), None);
    assert_eq!(parse_datetime("2024:02:29 10:00:00").is_some(), true);
    assert_eq!(parse_datetime("2026:02:29 10:00:00"), None);
    assert_eq!(parse_datetime("2026:07:19 24:00:00"), None);
}

#[test]
fn parse_datetime_forms() {
    assert_eq!(parse_datetime("1970:01:01 00:00:00"), Some(0));
    assert_eq!(parse_datetime("  1970-01-01T00:01  "), Some(60));
    assert_eq!(parse_datetime("+1970:01:02 00:00:00"), Some(86400));
    assert_eq!(parse_datetime("1969:12:31 23:59:59"), Some(-1));
    assert_eq!(parse_datetime("1970:01:01 00:00:60"), None);
    assert_eq!(parse_datetime("1970:01:01 00"), None);
    assert_eq!(parse_datetime("1970:01:01 00:00:1.5"), None);
    assert_eq!(parse_datetime("1970:01:01 -0:00:00"), Some(0));
    assert_eq!(parse_datetime("99999999999999999999:01:01 00:00:00"), None);
    assert_eq!(parse_datetime("999999999999:01:01 00:00:00"), None);
    assert_eq!(parse_datetime("0000:01:01 00:00:00"), Some(-62167219200));
}

#[test]
fn calendar_counts_days() {
    assert_eq!(days_from_civil(1970, 1, 1), 0);
    assert_eq!(days_from_civil(2000, 3, 1) - days_from_civil(2000, 2, 29), 1);
    assert_eq!(days_from_civil(2001, 1, 1) - days_from_civil(2000, 1, 1), 366);
    assert_eq!(days_from_civil(-1, 12, 31) + 1, days_from_civil(0, 1, 1));
    assert_eq!(days_in_month(1900, 2), 28);
    assert_eq!(days_in_month(2000, 2), 29);
    assert_eq!(days_in_month(2026, 4), 30);
    assert_eq!(days_in_month(2026, 13), 0);
}

#[test]
fn dhash_similar_images_close() {
    let luma1 = vec![128u8; 9 * 8];
    let luma2 = vec![130u8; 9 * 8];
    let h1 = dhash(&luma1, 9, 8);
    let h2 = dhash(&luma2, 9, 8);
    assert_eq!(h1, h2);
    assert_eq!(hamming(h1, h2), 0);

    let mut luma3 = vec![128u8; 9 * 8];
    for y in 0..8 {
        for x in 0..9 {
            luma3[y * 9 + x] = 255 - (x as u8) * 28;
        }
    }
    let h3 = dhash(&luma3, 9, 8);
    assert_eq!(h3, u64::MAX);
    assert_eq!(hamming(h1, h3), 64);
}

#[test]
fn dhash_does_not_depend_on_brightness() {
    let luma: Vec<u8> = (0..20 * 17).map(|i: u32| (i * i % 199) as u8).collect();
    let brighter: Vec<u8> = luma.iter().map(|v| v + 55).collect();
    assert_eq!(dhash(&luma, 20, 17), dhash(&brighter, 20, 17));
    assert_ne!(dhash(&luma, 20, 17), 0);
}

#[test]
fn dhash_small_pictures() {
    assert_eq!(dhash(&[], 0, 0), 0);
    assert_eq!(dhash(&[1, 2, 3], 3, 1), 0);
    // Two columns, the left one brighter: one boundary between the cells of each row.
    assert_eq!(dhash(&[200, 10, 200, 10], 2, 2), 0x1010_1010_1010_1010);
    assert_eq!(dhash(&[10, 200, 10, 200], 2, 2), 0);
}

#[test]
fn hamming_is_a_distance() {
    let v = [0u64, 1, 0xff, 0x8000_0000_0000_0001, u64::MAX];
    for a in v {
        for b in v {
            assert_eq!(hamming(a, b), (a ^ b).count_ones());
            assert_eq!(hamming(a, b), hamming(b, a));
            assert_eq!(hamming(a, b) == 0, a == b);
            for c in v {
                assert!(hamming(a, c) <= hamming(a, b) + hamming(b, c));
            }
        }
    }
}

#[test]
fn time_groups() {
    let t = vec![Some(0), Some(2), None, Some(3), Some(4), Some(10), Some(9)];
    assert_eq!(group_by_time(&t, fp(2.0)), vec![1, 1, 0, 2, 2, 3, 3]);
    assert_eq!(group_by_time(&t, fp(1.5)), vec![0, 0, 0, 3, 3, 4, 4]);
    // A frame that is listed after a later one is as far from it.
    assert_eq!(group_by_time(&vec![Some(100), Some(0)], fp(2.0)), vec![0, 0]);
    assert_eq!(group_by_time(&vec![Some(2), Some(0)], fp(2.0)), vec![1, 1]);
    assert_eq!(group_by_time(&vec![Some(i64::MIN), Some(i64::MAX)], fp(2.0)), vec![0, 0]);
    assert_eq!(group_by_time(&Vec::new(), fp(2.0)), Vec::<usize>::new());
}

#[test]
fn burst_grouping_and_ranking() {
    let entries = vec![
        entry("A.JPG", "2026:07:19 17:12:38"),
        entry("B.JPG", "2026:07:19 17:12:39"),
        entry("C.JPG", "2026:07:19 17:12:40"),
        entry("D.JPG", "2026:07:19 17:13:00"),
    ];
    let hashes = vec![0xAAAA_AAAA_AAAA_AAAAu64; 4];
    let scores = fps(&[50.0, 90.0, 70.0, 60.0]);
    let descs = vec![None; 4];
    let params = DedupParams { keep_k: 2, adaptive_keep: false, ..Default::default() };
    let infos = analyze_bursts(&entries, &hashes, &scores, &descs, &params);

    assert_eq!(infos[0].group, infos[1].group);
    assert_eq!(infos[0].group, infos[2].group);
    assert_eq!(infos[3].group, 0);
    assert_eq!(infos[0].size, 3);
    assert_eq!(infos[1].rank, 1);
    assert_eq!(infos[2].rank, 2);
    assert_eq!(infos[0].rank, 3);
    assert!(infos[1].keep);
    assert!(infos[2].keep);
    assert!(!infos[0].keep);
    assert_eq!(infos[0].pose_cluster, 0);
}

#[test]
fn burst_splits_on_dhash_difference() {
    let entries = vec![
        entry("A.JPG", "2026:07:19 17:12:40"),
        entry("B.JPG", "2026:07:19 17:12:41"),
    ];
    let hashes = vec![0x0000_0000_0000_0000u64, 0xFFFF_FFFF_FFFF_FFFFu64];
    let scores = fps(&[70.0, 80.0]);
    let descs = vec![None, None];
    let params = DedupParams { adaptive_keep: false, ..Default::default() };
    let infos = analyze_bursts(&entries, &hashes, &scores, &descs, &params);
    assert_eq!(infos[0].group, infos[1].group);
    assert_eq!(infos[0].rank, 1);
    assert_eq!(infos[1].rank, 1);
    assert!(infos[0].keep);
    assert!(infos[1].keep);
}

#[test]
fn missing_datetime_no_burst() {
    let entries = vec![entry("A.JPG", ""), entry("B.JPG", "")];
    let hashes = vec![0xAAAA_AAAA_AAAA_AAAAu64; 2];
    let scores = fps(&[70.0, 80.0]);
    let descs = vec![None, None];
    let infos = analyze_bursts(&entries, &hashes, &scores, &descs, &DedupParams::default());
    assert_eq!(infos[0].group, 0);
    assert_eq!(infos[1].group, 0);
}

#[test]
fn no_desc_frames_behave_like_m2() {
    let entries = vec![
        entry("A.JPG", "2026:07:19 17:12:38"),
        entry("B.JPG", "2026:07:19 17:12:39"),
        entry("C.JPG", "2026:07:19 17:12:40"),
    ];
    let hashes = vec![0xAAAA_AAAA_AAAA_AAAAu64; 3];
    let scores = fps(&[50.0, 90.0, 70.0]);
    let descs = vec![None, None, None];
    let infos = analyze_bursts(&entries, &hashes, &scores, &descs, &DedupParams::default());
    assert_eq!(infos[1].rank, 1);
    assert_eq!(infos[2].rank, 2);
    assert_eq!(infos[0].rank, 3);
    assert!((infos[0].pose_cluster, infos[1].pose_cluster, infos[2].pose_cluster) == (1, 1, 1));
    assert!(infos[0].keep && infos[1].keep && infos[2].keep);
}

#[test]
fn pose_distance_known_values() {
    let a = pose_desc(0.0, 0.0);
    assert_eq!(pose_distance(&a, &a) as f64 / 1e6, 0.0);
    let b = pose_desc(0.4, 0.4);
    let d = pose_distance(&a, &b) as f64 / 1e6;
    assert!((d - ((0.4f32 * 0.4 + 0.4 * 0.4) as f64).sqrt()).abs() < 1e-4);
    assert_eq!(pose_distance(&[0; 10], &[3, 4, 0, 0, 0, 0, 0, 0, 0, 0]), 5);
    assert_eq!(pose_distance(&[i32::MIN; 10], &[i32::MAX; 10]), 13581879128);
}

#[test]
fn adaptive_clustering_keeps_each_pose() {
    let entries = vec![
        entry("A.JPG", "2026:07:19 17:12:38"),
        entry("B.JPG", "2026:07:19 17:12:39"),
        entry("C.JPG", "2026:07:19 17:12:39"),
        entry("D.JPG", "2026:07:19 17:12:40"),
    ];
    let hashes = vec![0xAAAA_AAAA_AAAA_AAAAu64; 4];
    let scores = fps(&[70.0, 90.0, 80.0, 60.0]);
    let descs = vec![
        Some(pose_desc(0.0, 0.0)),
        Some(pose_desc(0.02, -0.02)),
        Some(pose_desc(0.4, 0.4)),
        Some(pose_desc(0.38, 0.42)),
    ];
    let infos = analyze_bursts(&entries, &hashes, &scores, &descs, &DedupParams::default());

    assert_eq!(infos[0].pose_cluster, infos[1].pose_cluster);
    assert_eq!(infos[2].pose_cluster, infos[3].pose_cluster);
    assert_ne!(infos[0].pose_cluster, infos[2].pose_cluster);
    assert!(infos.iter().all(|i| i.keep));
    assert_eq!(infos[1].rank, 1);
    assert_eq!(infos[0].rank, 2);
    assert_eq!(infos[2].rank, 1);
    assert_eq!(infos[3].rank, 2);
    let params = DedupParams { adaptive_keep: false, ..Default::default() };
    let old = analyze_bursts(&entries, &hashes, &scores, &descs, &params);
    assert!(!old[3].keep);
    assert!(old[0].keep && old[1].keep && old[2].keep);
}

#[test]
fn pose_threshold_groups_by_seed_distance() {
    let entries = vec![
        entry("A.JPG", "2026:07:19 17:12:38"),
        entry("B.JPG", "2026:07:19 17:12:39"),
        entry("C.JPG", "2026:07:19 17:12:40"),
    ];
    let hashes = vec![0xAAAA_AAAA_AAAA_AAAAu64; 3];
    let scores = fps(&[70.0, 80.0, 90.0]);
    let descs = vec![
        Some(pose_desc(0.0, 0.0)),
        Some(pose_desc(0.12, 0.12)),
        Some(pose_desc(0.4, 0.4)),
    ];
    let infos = analyze_bursts(&entries, &hashes, &scores, &descs, &DedupParams::default());
    assert_eq!(infos[0].pose_cluster, infos[1].pose_cluster);
    assert_ne!(infos[0].pose_cluster, infos[2].pose_cluster);
}

#[test]
fn group_cap_truncates_lowest_scores() {
    let entries = vec![
        entry("A.JPG", "2026:07:19 17:12:38"),
        entry("B.JPG", "2026:07:19 17:12:39"),
        entry("C.JPG", "2026:07:19 17:12:40"),
        entry("D.JPG", "2026:07:19 17:12:41"),
        entry("E.JPG", "2026:07:19 17:12:42"),
    ];
    let hashes = vec![0xAAAA_AAAA_AAAA_AAAAu64; 5];
    let scores = fps(&[50.0, 90.0, 70.0, 60.0, 80.0]);
    let d = pose_desc(0.0, 0.0);
    let descs = vec![Some(d), Some(d), Some(d), Some(d), Some(d)];
    let params = DedupParams { keep_k: 3, burst_group_cap: 2, ..Default::default() };
    let infos = analyze_bursts(&entries, &hashes, &scores, &descs, &params);

    assert_eq!(infos[1].rank, 1);
    assert_eq!(infos[4].rank, 2);
    assert_eq!(infos[2].rank, 3);
    assert!(infos[1].keep && infos[4].keep);
    assert!(!infos[2].keep && !infos[3].keep && !infos[0].keep);
    assert_eq!(infos.iter().filter(|i| i.keep).count(), 2);
}

#[test]
fn frames_without_descriptor_follow_the_poses() {
    let entries = vec![
        entry("A.JPG", "2026:07:19 17:12:38"),
        entry("B.JPG", "2026:07:19 17:12:39"),
        entry("C.JPG", "2026:07:19 17:12:40"),
    ];
    let hashes = vec![7u64; 3];
    let scores = fps(&[10.0, 20.0, 20.0]);
    let descs = vec![None, Some(pose_desc(0.0, 0.0)), Some(pose_desc(0.0, 0.0))];
    let infos = analyze_bursts(&entries, &hashes, &scores, &descs, &DedupParams::default());
    assert_eq!(infos[0].pose_cluster, 2);
    assert_eq!(infos[1].pose_cluster, 1);
    assert_eq!(infos[2].pose_cluster, 1);
    // Of equal scores the earlier frame ranks first.
    assert_eq!((infos[1].rank, infos[2].rank), (1, 2));
    assert_eq!((infos[0].size, infos[1].size), (1, 2));
}

#[test]
fn cap_of_equal_scores_drops_the_earlier_frame() {
    let entries = vec![
        entry("A.JPG", "2026:07:19 17:12:38"),
        entry("B.JPG", "2026:07:19 17:12:39"),
    ];
    let params = DedupParams { burst_group_cap: 1, ..Default::default() };
    let infos =
        analyze_bursts(&entries, &vec![0, 0], &fps(&[50.0, 50.0]), &vec![None, None], &params);
    assert_eq!((infos[0].rank, infos[1].rank), (1, 2));
    assert_eq!((infos[0].keep, infos[1].keep), (false, true));
    let open = DedupParams { burst_group_cap: 0, ..Default::default() };
    let all = analyze_bursts(&entries, &vec![0, 0], &fps(&[50.0, 50.0]), &vec![None, None], &open);
    assert!(all.iter().all(|i| i.keep));
}

#[test]
fn test_dedup_integration_with_scores() {
    let entries = vec![
        entry("A.JPG", "2026:07:19 17:12:38"),
        entry("B.JPG", "2026:07:19 17:12:39"),
        entry("C.JPG", "2026:07:19 17:12:40"),
        entry("E.JPG", "2026:07:19 17:12:40"),
        entry("D.JPG", "2026:07:19 17:13:00"),
    ];
    let hashes = vec![0xAAAA_AAAA_AAAA_AAAAu64; 5];
    let scores = fps(&[70.0, 90.0, 80.0, 65.0, 60.0]);
    let descs: Vec<Option<PoseDesc>> = vec![None; 5];
    let params = DedupParams { keep_k: 2, adaptive_keep: false, ..Default::default() };
    let infos = analyze_bursts(&entries, &hashes, &scores, &descs, &params);

    let burst_group_id = infos[0].group;
    assert!(burst_group_id > 0);
    assert_eq!(infos[1].group, burst_group_id);
    assert_eq!(infos[2].group, burst_group_id);
    assert_eq!(infos[3].group, burst_group_id);
    assert_eq!(infos[4].group, 0);
    assert_eq!(infos[1].rank, 1);
    assert_eq!(infos[2].rank, 2);
    assert!(infos[1].keep);
    assert!(infos[2].keep);
    assert!(!infos[0].keep);
    assert!(!infos[3].keep);
}
