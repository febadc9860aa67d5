use pic_process::index::{
    exif_text, index_files, is_cache_dir, select_files, ExifFields, ExifValue, FoundFile, WalkedFile,
};
use pic_process::scan::{
    extension_of, is_raw_file, is_supported_file, pair_key, resolve_pairs, stem_of, stem_raw_of,
    PhotoEntry,
};
use std::path::Path;

fn key(path: &str, filename: &str) -> String {
    let dir = Path::new(path).parent().map(|p| p.to_string_lossy().into_owned()).unwrap_or_default();
    pair_key(&dir, filename)
}

#[test]
fn pair_key_separates_directories() {
    let a = key("roll1/DSC00001.JPG", "DSC00001.JPG");
    let b = key("roll2/DSC00001.JPG", "DSC00001.JPG");
    assert_ne!(a, b);
    assert_eq!(a, key("ROLL1/dsc00001.ARW", "dsc00001.ARW"));
    assert_eq!(a, "roll1|dsc00001");
}

fn item(dir: &str, stem: &str, is_raw: bool) -> (String, String, bool) {
    (dir.to_string(), stem.to_string(), is_raw)
}

#[test]
fn resolve_pairs_same_directory() {
    let items = vec![item("d", "dsc1", false), item("d", "dsc1", true), item("d", "dsc2", false)];
    let r = resolve_pairs(&items);
    assert_eq!(r[0].0, r[1].0);
    assert!(r[0].1 && r[1].1);
    assert!(!r[2].1);
    assert_ne!(r[2].0, r[0].0);
}

#[test]
fn resolve_pairs_across_directories() {
    let items = vec![item("jpg", "dsc1", false), item("raw", "dsc1", true)];
    let r = resolve_pairs(&items);
    assert_eq!(r[0].0, r[1].0);
    assert!(r[0].1 && r[1].1);
    assert_eq!(r[0].0, "cross|jpg|dsc1");
}

#[test]
fn resolve_pairs_rollover_keeps_local_pairs() {
    let items = vec![
        item("roll1", "dsc1", false),
        item("roll1", "dsc1", true),
        item("roll2", "dsc1", false),
        item("roll2", "dsc1", true),
    ];
    let r = resolve_pairs(&items);
    assert_eq!(r[0].0, r[1].0);
    assert_eq!(r[2].0, r[3].0);
    assert_ne!(r[0].0, r[2].0);
    assert!(r.iter().all(|(_, p)| *p));
}

#[test]
fn resolve_pairs_ambiguous_stays_unpaired() {
    let items = vec![item("a", "dsc1", false), item("b", "dsc1", true), item("c", "dsc1", true)];
    let r = resolve_pairs(&items);
    assert!(r.iter().all(|(_, p)| !*p));
    let ids: std::collections::HashSet<&String> = r.iter().map(|(k, _)| k).collect();
    assert_eq!(ids.len(), 3);
}

#[test]
fn resolve_pairs_mixed_tree() {
    // A local pair and a third file of the name elsewhere: that one stays alone.
    let items = vec![
        item("x", "s", true),
        item("a", "s", false),
        item("a", "s", true),
        item("b", "t", false),
        item("b", "t", false),
        item("c", "t", true),
    ];
    let r = resolve_pairs(&items);
    assert_eq!(r[0], ("x|s".to_string(), false));
    assert_eq!(r[1], ("a|s".to_string(), true));
    assert_eq!(r[2], ("a|s".to_string(), true));
    assert!(!r[3].1 && !r[4].1 && !r[5].1);
    assert!(resolve_pairs(&Vec::new()).is_empty());
}

#[test]
fn stem_raw_keeps_case() {
    assert_eq!(stem_raw_of("DSC00001.ARW"), "DSC00001");
    assert_eq!(stem_of("DSC00001.ARW"), "dsc00001");
    assert_eq!(stem_raw_of("noext"), "noext");
}

#[test]
fn extensions_and_kinds() {
    assert_eq!(extension_of("a.b.JPG"), "jpg");
    assert_eq!(extension_of("noext"), "noext");
    assert_eq!(extension_of("dot."), "");
    assert!(is_supported_file("x.Jpg") && is_supported_file("x.jpeg") && is_supported_file("x.ARW"));
    assert!(!is_supported_file("x.png") && !is_supported_file("x.jpg.txt"));
    assert!(is_raw_file("x.arw") && !is_raw_file("x.jpg"));
    assert!(is_cache_dir(".firstcut") && !is_cache_dir("firstcut"));
}

fn fields(date: ExifValue) -> ExifFields {
    ExifFields {
        date_time_original: date,
        camera_make: ExifValue::Ascii(vec!["".into(), " SONY ".into()]),
        camera_model: ExifValue::Missing,
        lens_model: ExifValue::Missing,
        iso: ExifValue::Other("100".into()),
        f_number: ExifValue::Missing,
        shutter_speed: ExifValue::Missing,
        focal_length: ExifValue::Missing,
    }
}

#[test]
fn exif_fields_become_text() {
    assert_eq!(exif_text(&ExifValue::Missing), "");
    assert_eq!(exif_text(&ExifValue::Ascii(vec![])), "");
    assert_eq!(exif_text(&ExifValue::Ascii(vec!["".into(), "".into()])), "");
    assert_eq!(exif_text(&ExifValue::Ascii(vec!["".into(), " a b\u{3000}".into(), "c".into()])), "a b");
    assert_eq!(exif_text(&ExifValue::Ascii(vec!["  ".into(), "c".into()])), "");
    assert_eq!(exif_text(&ExifValue::Other(" 1/200 ".into())), " 1/200 ");
}

#[test]
fn files_become_rows() {
    let file = |path: &str, dir: &str, name: &str| FoundFile {
        path: path.into(),
        dir: dir.into(),
        name: name.into(),
        exif: fields(ExifValue::Ascii(vec!["2026:07:19 13:56:32".into()])),
    };
    let rows = index_files(&vec![
        file("p/JPG/A.JPG", "p/JPG", "A.JPG"),
        file("p/RAW/A.ARW", "p/RAW", "A.ARW"),
        file("p/B.jpeg", "p", "B.jpeg"),
    ]);
    assert_eq!(rows.len(), 3);
    assert_eq!(rows[0].pair_id(), "cross|p/jpg|a");
    assert_eq!(rows[1].pair_id(), "cross|p/jpg|a");
    assert_eq!(rows[2].pair_id(), "p|b");
    assert!(rows[0].has_pair && rows[1].has_pair && !rows[2].has_pair);
    assert!(!rows[0].is_raw && rows[1].is_raw);
    assert_eq!(rows[2].extension, "jpeg");
    assert_eq!(rows[0].path, "p/JPG/A.JPG");
    assert_eq!(rows[0].camera_make, "SONY");
    assert_eq!(rows[0].iso, "100");
    assert_eq!(rows[0].date_time_original, "2026:07:19 13:56:32");
    assert_eq!(rows[0].total_score, "");
    let blank = PhotoEntry::default();
    assert_eq!(blank.clone().path, "");
}

#[test]
fn photos_are_selected_from_a_walk() {
    let file = |path: &str| {
        let p = Path::new(path);
        WalkedFile {
            path: path.into(),
            dir: p.parent().unwrap().to_string_lossy().into_owned(),
            name: p.file_name().unwrap().to_string_lossy().into_owned(),
        }
    };
    let walk: Vec<WalkedFile> = [
        "root/b/Z.JPG",
        "root/b/notes.txt",
        "root/.firstcut/thumbs/0-1-2.jpg",
        "root/b.x/a.arw",
        "root/b/.firstcut/x.jpg",
        "root/A.jpeg",
        "root/b/a.firstcut.jpg",
        "root/noext",
        "root/b/A.ARW",
        "root/c.JPG.xmp",
    ]
    .iter()
    .map(|p| file(p))
    .collect();
    let got: Vec<String> = select_files("root", &walk).iter().map(|f| f.path.clone()).collect();
    assert_eq!(
        got,
        vec![
            "root/A.jpeg",
            "root/b/A.ARW",
            "root/b/Z.JPG",
            "root/b/a.firstcut.jpg",
            "root/b.x/a.arw",
        ]
    );
    let mut paths: Vec<std::path::PathBuf> = got.iter().map(|p| p.into()).collect();
    paths.sort();
    assert_eq!(paths, got.iter().map(std::path::PathBuf::from).collect::<Vec<_>>());
    // The photos may lie in a directory of that name themselves.
    let inner = select_files("root/.firstcut", &vec![file("root/.firstcut/a.jpg")]);
    assert_eq!(inner.len(), 1);
    assert!(select_files("root", &Vec::new()).is_empty());
}

#[test]
fn order_of_files_does_not_matter() {
    let items = vec![
        item("d", "a", false),
        item("d", "a", true),
        item("e", "a", false),
        item("jpg", "b", false),
        item("raw", "b", true),
        item("d", "c", true),
    ];
    let r = resolve_pairs(&items);
    let back: Vec<_> = items.iter().rev().cloned().collect();
    let q: Vec<_> = resolve_pairs(&back).into_iter().rev().collect();
    assert_eq!(r, q);
    for i in 0..r.len() {
        for j in 0..r.len() {
            let pair = [(0, 1), (1, 0), (3, 4), (4, 3)].contains(&(i, j));
            assert_eq!(r[i].0 == r[j].0, i == j || pair);
        }
    }
}
