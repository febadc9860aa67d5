use pic_process::ai::boxes::{is_apart, suppress, ScoredBox};
use pic_process::ai::facedetect::{decode_faces, decode_faces_at, points_inside, LevelOutput, ShortOutput};
use pic_process::ai::pool::model_names;
use pic_process::ai::pose::{decode_persons, head_region, PersonBox};
use pic_process::ai::{ensure_models, ort_err, SessionPool, MODELS_DIR};
use pic_process::gallery::{base64_encode, burst_cell, grade, is_shown, page_lines, row_html, GalleryRow};
use pic_process::order::{kth_smallest, order_descending};

fn fp(v: f64) -> i64 {
    (v * 1e6).round() as i64
}

fn sb(x: f64, y: f64, w: f64, h: f64, score: f64) -> ScoredBox {
    ScoredBox { x: fp(x), y: fp(y), w: fp(w), h: fp(h), score: fp(score) }
}

#[test]
fn sessions_take_turns() {
    let mut pool = SessionPool::new(vec![10, 20, 30]);
    assert_eq!(pool.len(), 3);
    let mut seen = Vec::new();
    for _ in 0..4 {
        let s = pool.acquire();
        seen.push(*s);
        *s += 1;
    }
    assert_eq!(seen, vec![10, 20, 30, 11]);
}

#[test]
fn missing_models_are_named() {
    assert_eq!(ensure_models(&[true; 4]), Ok(()));
    let e = ensure_models(&[true, true, false, false]).unwrap_err();
    assert!(e.starts_with("缺少模型文件 models/scrfd_10g_bnkps.onnx\n请先下载"));
    assert!(e.ends_with("hf-mirror.com/Xenova/yolov8n-pose"));
    assert_eq!(model_names()[3], "yolov8n_pose.onnx");
    assert_eq!(MODELS_DIR, "models");
    assert_eq!(ort_err("bad"), "onnxruntime: bad");
}

#[test]
fn overlapping_boxes_are_dropped() {
    let a = sb(0.1, 0.1, 0.2, 0.2, 0.8);
    let b = sb(0.12, 0.1, 0.2, 0.2, 0.9);
    let c = sb(0.6, 0.6, 0.2, 0.2, 0.5);
    let d = sb(0.6, 0.6, 0.2, 0.2, 0.5);
    assert!(!is_apart(&a, &b, 30));
    assert!(is_apart(&a, &c, 30));
    assert_eq!(suppress(&vec![a, b, c, d], 30), vec![1, 2]);
    assert!(suppress(&Vec::new(), 30).is_empty());
    // Exactly at the limit a box is dropped: one third shared.
    let e = sb(0.0, 0.0, 0.2, 0.1, 0.9);
    let f = sb(0.1, 0.0, 0.2, 0.1, 0.8);
    assert!(is_apart(&e, &f, 34));
    assert!(!is_apart(&e, &f, 33));
    // Boxes without area are never too close.
    let z = sb(0.5, 0.5, 0.0, 0.0, 0.1);
    assert!(is_apart(&z, &z, 30));
}

fn blank_levels() -> [LevelOutput; 3] {
    let level = |n: usize| LevelOutput {
        scores: vec![0; n],
        bbox: vec![0; 4 * n],
        kps: vec![0; 10 * n],
    };
    [level(12800), level(3200), level(800)]
}

#[test]
fn anchors_become_faces() {
    let mut out = blank_levels();
    assert!(decode_faces(&out).unwrap().is_empty());
    // Stride 16, cell (3, 2), second anchor: the middle is at (48, 32).
    let i = 2 * (2 * 40 + 3) + 1;
    out[1].scores[i] = fp(0.7);
    out[1].bbox[4 * i..4 * i + 4].copy_from_slice(&[fp(1.0), fp(1.0), fp(2.0), fp(4.0)]);
    out[1].kps[10 * i] = fp(1.0);
    out[1].kps[10 * i + 9] = fp(-1.0);
    // Just below the threshold.
    out[0].scores[0] = fp(0.3) - 1;
    let faces = decode_faces(&out).unwrap();
    assert_eq!(faces.len(), 1);
    let f = &faces[0];
    assert_eq!((f.x, f.y, f.w, f.h), (fp(0.05), fp(0.025), fp(0.075), fp(0.125)));
    assert_eq!(f.score, fp(0.7));
    assert_eq!(f.kps[0], (fp(0.1), fp(0.05)));
    assert_eq!(f.kps[4], (fp(0.075), fp(0.025)));
    // The first anchor of the cell, a little less certain, is the same face.
    out[1].scores[i - 1] = fp(0.6);
    out[1].bbox[4 * (i - 1)..4 * i].copy_from_slice(&[fp(1.0), fp(1.0), fp(2.0), fp(4.0)]);
    assert_eq!(decode_faces(&out).unwrap().len(), 1);
    assert_eq!(decode_faces_at(&out, fp(0.71)).unwrap().len(), 0);
    assert_eq!(decode_faces_at(&out, fp(0.2)).unwrap().len(), 2);
    assert_eq!(points_inside(&faces), 5);
    let mut off = faces.clone();
    off[0].kps[2] = (off[0].x - off[0].w / 5 - 1, off[0].y);
    assert_eq!(points_inside(&off), 4);
    // Boxes end at the picture.
    out[1].bbox[4 * i] = i64::MAX;
    assert_eq!(decode_faces(&out).unwrap()[0].x, 0);
}

#[test]
fn short_outputs_are_errors() {
    let mut out = blank_levels();
    out[2].scores.pop();
    assert_eq!(decode_faces(&out).unwrap_err(), ShortOutput { stride: 32 });
    out[1].bbox.pop();
    assert_eq!(decode_faces(&out).unwrap_err(), ShortOutput { stride: 16 });
    out[0].kps.pop();
    assert_eq!(decode_faces(&out).unwrap_err(), ShortOutput { stride: 8 });
    assert_eq!(decode_persons(&vec![0; 100]).unwrap_err().len, 100);
}

#[test]
fn anchors_become_persons() {
    let mut data = vec![0i64; 56 * 8400];
    let i = 17;
    data[i] = fp(320.0);
    data[8400 + i] = fp(160.0);
    data[2 * 8400 + i] = fp(64.0);
    data[3 * 8400 + i] = fp(640.0);
    data[4 * 8400 + i] = fp(0.25);
    data[5 * 8400 + i] = fp(320.0);
    data[6 * 8400 + i] = fp(64.0);
    data[7 * 8400 + i] = fp(0.9);
    data[8 * 8400 + i] = fp(352.0);
    data[9 * 8400 + i] = fp(96.0);
    data[10 * 8400 + i] = fp(0.31);
    data[4 * 8400 + 18] = fp(0.249);
    let persons = decode_persons(&data).unwrap();
    assert_eq!(persons.len(), 1);
    let p = &persons[0];
    assert_eq!((p.x, p.y, p.w, p.h), (fp(0.45), 0, fp(0.1), fp(0.75)));
    assert_eq!(p.keypoints[0], (fp(0.5), fp(0.1), fp(0.9)));
    let g = head_region(p).unwrap();
    assert_eq!((g.cx, g.cy), (fp(0.525), fp(0.125)));
    assert_eq!((g.half_w, g.half_h), (fp(0.055), fp(0.07)));
}

#[test]
fn heads_need_two_points() {
    let mut p = PersonBox {
        x: 0,
        y: 0,
        w: fp(1.0),
        h: fp(1.0),
        score: fp(0.9),
        keypoints: vec![(0, 0, 0); 17],
    };
    assert!(head_region(&p).is_none());
    p.keypoints[1] = (fp(0.2), fp(0.2), fp(0.301));
    assert!(head_region(&p).is_none());
    // A point beyond the head does not count.
    p.keypoints[5] = (fp(0.9), fp(0.9), fp(0.9));
    assert!(head_region(&p).is_none());
    p.keypoints[4] = (fp(0.4), fp(0.1), fp(0.9));
    let g = head_region(&p).unwrap();
    assert_eq!((g.cx, g.cy, g.half_w, g.half_h), (fp(0.3), fp(0.15), fp(0.16), fp(0.11)));
}

#[test]
fn base64_text() {
    assert_eq!(base64_encode(b""), "");
    assert_eq!(base64_encode(b"f"), "Zg==");
    assert_eq!(base64_encode(b"fo"), "Zm8=");
    assert_eq!(base64_encode(b"foo"), "Zm9v");
    assert_eq!(base64_encode(b"foobar"), "Zm9vYmFy");
    assert_eq!(base64_encode(&[0xff, 0xfe, 0xfb, 0x3e]), "//77Pg==");
}

fn row(name: &str, total: f64) -> GalleryRow {
    GalleryRow {
        filename: name.into(),
        iso: "100".into(),
        faces: "1".into(),
        burst_size: "3".into(),
        burst_rank: "2".into(),
        burst_keep: "true".into(),
        total: fp(total),
        sharpness: fp(1.0),
        exposure: fp(2.0),
        noise: fp(3.0),
        composition: fp(4.0),
        aesthetic: fp(5.0),
    }
}

#[test]
fn lines_of_a_contact_sheet() {
    assert_eq!((grade(fp(70.0)), grade(fp(69.9)), grade(fp(50.0))), ("g5", "g4", "g3"));
    assert_eq!((grade(fp(40.0)), grade(fp(39.9))), ("g2", "g1"));
    let mut r = row("a.jpg", 66.0);
    assert_eq!(
        row_html(&r, Some(&"QQ==".to_string())),
        "<tr><td><img loading=\"lazy\" src=\"data:image/jpeg;base64,QQ==\"><br><small>a.jpg</small></td>\
<td class=\"score g4\">66.0</td><td class=\"score\">1.0</td><td class=\"score\">2.0</td>\
<td class=\"score\">3.0</td><td class=\"score\">4.0</td><td class=\"score\">5.0</td>\
<td>100</td><td>1</td><td><span class=\"keep\">组内 2/3 ✓</span></td></tr>\n"
    );
    r.burst_keep = "false".into();
    assert_eq!(burst_cell(&r), "<span class=\"drop\">组内 2/3 ✗</span>");
    r.burst_rank = "".into();
    assert_eq!(burst_cell(&r), "—");
    assert!(row_html(&r, None).contains("(缩略图失败)"));
}

#[test]
fn a_contact_sheet_starts_with_the_best() {
    let rows = vec![row("b", 50.0), row("a", 90.0), row("c", 50.0)];
    let page = page_lines(&rows, &vec![None, None, None]);
    let at = |n: &str| page.find(&format!("<small>{n}</small>")).unwrap();
    assert!(at("a") < at("b") && at("b") < at("c"));
    assert_eq!(order_descending(&vec![5, 9, 5, 7]), vec![1, 3, 0, 2]);
    assert_eq!(kth_smallest(&vec![5, 1, 9, 1], 0, 9), 1);
    assert_eq!(kth_smallest(&vec![5, 1, 9, 1], 2, 9), 5);
    assert_eq!(kth_smallest(&vec![5, 1, 9, 1], 3, 100), 9);
}

#[test]
fn raw_files_are_not_shown() {
    assert!(is_shown("false") && is_shown(""));
    assert!(!is_shown("true"));
}
