use pic_process::config::MetricParams;
use pic_process::output::xmp::{
    assign_ratings, rating_from_total, ratings_relative, render_xmp, sidecar_allowed, sidecar_name,
    Existing,
    NS_FIRSTCUT,
};
use pic_process::scan::PhotoEntry;
use pic_process::score::PixelScores;

fn fp(v: f64) -> i64 {
    (v * 1e6).round() as i64
}

fn entry() -> PhotoEntry {
    PhotoEntry {
        path: "testpic/JPG/DSC00001.JPG".into(),
        filename: "DSC00001.JPG".into(),
        extension: "jpg".into(),
        pair_id: "testpic/jpg|dsc00001".into(),
        iso: "100".into(),
        sharpness_score: "75.0".into(),
        exposure_score: "80.0".into(),
        noise_score: "60.0".into(),
        composition_score: "60.0".into(),
        aesthetic_score: "45.0".into(),
        total_score: "66.0".into(),
        stars: "4".into(),
        faces: "1".into(),
        analysis_ok: "true".into(),
        burst_group: "3".into(),
        burst_size: "2".into(),
        burst_rank: "1".into(),
        burst_keep: "true".into(),
        burst_pose: "1".into(),
        ..Default::default()
    }
}

fn scores(exposure: f64) -> PixelScores {
    PixelScores {
        sharpness: fp(75.0),
        exposure: fp(exposure),
        noise: fp(60.0),
        composition: fp(60.0),
        aesthetic: fp(45.0),
    }
}

fn star(r: &[(String, u8)], key: &str) -> u8 {
    r.iter().find(|p| p.0 == key).unwrap().1
}

#[test]
fn rating_mapping() {
    let m = MetricParams::default();
    assert_eq!(rating_from_total(fp(90.0), &m), 5);
    assert_eq!(rating_from_total(fp(75.0), &m), 5);
    assert_eq!(rating_from_total(fp(74.9), &m), 4);
    assert_eq!(rating_from_total(fp(60.0), &m), 4);
    assert_eq!(rating_from_total(fp(59.9), &m), 3);
    assert_eq!(rating_from_total(fp(45.0), &m), 3);
    assert_eq!(rating_from_total(fp(44.9), &m), 2);
    assert_eq!(rating_from_total(fp(30.0), &m), 2);
    assert_eq!(rating_from_total(fp(29.9), &m), 1);
}

#[test]
fn test_rating_mapping_relaxed_thresholds() {
    let m = MetricParams {
        rating_5: fp(75.0),
        rating_4: fp(60.0),
        rating_3: fp(45.0),
        rating_2: fp(30.0),
        ..Default::default()
    };
    assert_eq!(rating_from_total(fp(75.0), &m), 5);
    assert_eq!(rating_from_total(fp(90.0), &m), 5);
    assert_eq!(rating_from_total(fp(60.0), &m), 4);
    assert_eq!(rating_from_total(fp(74.9), &m), 4);
    assert_eq!(rating_from_total(fp(45.0), &m), 3);
    assert_eq!(rating_from_total(fp(59.9), &m), 3);
    assert_eq!(rating_from_total(fp(30.0), &m), 2);
    assert_eq!(rating_from_total(fp(44.9), &m), 2);
    assert_eq!(rating_from_total(fp(29.9), &m), 1);
    assert_eq!(rating_from_total(fp(0.0), &m), 1);
}

#[test]
fn xmp_contains_key_fields() {
    let xml = render_xmp(&entry(), &scores(80.0), fp(66.0), 4, None);
    assert!(xml.contains("<xmp:Rating>4</xmp:Rating>"));
    assert!(xml.contains("<firstcut:sharpness>75.0</firstcut:sharpness>"));
    assert!(xml.contains("<firstcut:aesthetic>45.0</firstcut:aesthetic>"));
    assert!(xml.contains("<firstcut:burstKeep>true</firstcut:burstKeep>"));
    assert!(xml.starts_with("<?xpacket"));
    assert!(xml.contains("xmlns:firstcut=\"http://firstcut.local/ns/\""));
}

#[test]
fn xmp_whole_text() {
    let xml = render_xmp(&entry(), &scores(80.0), fp(66.0), 4, Some(fp(-0.33)));
    let want = "<?xpacket begin=\"\u{feff}\" id=\"W5M0MpCehiHzreSzNTczkc9d\"?>\n\
<x:xmpmeta xmlns:x=\"adobe:ns:meta/\">\n\
\x20<rdf:RDF xmlns:rdf=\"http://www.w3.org/1999/02/22-rdf-syntax-ns#\">\n\
\x20\x20<rdf:Description rdf:about=\"\"\n\
\x20\x20\x20 xmlns:xmp=\"http://ns.adobe.com/xap/1.0/\"\n\
\x20\x20\x20 xmlns:firstcut=\"http://firstcut.local/ns/\" \
xmlns:crs=\"http://ns.adobe.com/camera-raw-settings/1.0/\" crs:Exposure2=\"-0.33\">\n\
\x20\x20\x20\x20<xmp:Rating>4</xmp:Rating>\n\
\x20\x20\x20\x20<firstcut:sharpness>75.0</firstcut:sharpness>\n\
\x20\x20\x20\x20<firstcut:exposure>80.0</firstcut:exposure>\n\
\x20\x20\x20\x20<firstcut:noise>60.0</firstcut:noise>\n\
\x20\x20\x20\x20<firstcut:composition>60.0</firstcut:composition>\n\
\x20\x20\x20\x20<firstcut:aesthetic>45.0</firstcut:aesthetic>\n\
\x20\x20\x20\x20<firstcut:faces>1</firstcut:faces>\n\
\x20\x20\x20\x20<firstcut:total>66.0</firstcut:total>\n\
\x20\x20\x20\x20<firstcut:suggestedEV>-0.33</firstcut:suggestedEV>\n\
\x20\x20\x20\x20<firstcut:burstGroup>3</firstcut:burstGroup>\n\
\x20\x20\x20\x20<firstcut:burstRank>1</firstcut:burstRank>\n\
\x20\x20\x20\x20<firstcut:burstKeep>true</firstcut:burstKeep>\n\
\x20\x20</rdf:Description>\n\
\x20</rdf:RDF>\n\
</x:xmpmeta>\n\
<?xpacket end=\"w\"?>";
    assert_eq!(xml, want);
}

#[test]
fn relative_ratings_follow_percentiles() {
    let m = MetricParams::default();
    let pairs: Vec<(String, i64)> =
        (0..10).map(|i| (format!("p{i}"), fp(100.0 - i as f64))).collect();
    let r = ratings_relative(&pairs, &m);
    assert_eq!(star(&r, "p0"), 5);
    assert_eq!(star(&r, "p1"), 4);
    assert_eq!(star(&r, "p2"), 4);
    assert_eq!(star(&r, "p3"), 3);
    assert_eq!(star(&r, "p6"), 3);
    assert_eq!(star(&r, "p7"), 2);
    assert_eq!(star(&r, "p8"), 2);
    assert_eq!(star(&r, "p9"), 1);
}

#[test]
fn relative_ratings_tie_share_star() {
    let m = MetricParams::default();
    let pairs: Vec<(String, i64)> = (0..10).map(|i| (format!("p{i}"), fp(70.0))).collect();
    let r = ratings_relative(&pairs, &m);
    let first = star(&r, "p0");
    assert!(r.iter().all(|p| p.1 == first));
    assert_eq!(first, 3);
}

#[test]
fn relative_ratings_go_by_order_alone() {
    let m = MetricParams::default();
    let list = |f: fn(i64) -> i64| {
        (0..20i64).map(|i| (format!("p{i}"), f(i * 7 % 13))).collect::<Vec<(String, i64)>>()
    };
    assert_eq!(ratings_relative(&list(|t| t), &m), ratings_relative(&list(|t| t * t * 1000 - 5), &m));
}

#[test]
fn relative_ratings_ignore_order() {
    let m = MetricParams::default();
    let totals = [70.0, 90.0, 70.0, 55.5, 81.2, 90.0, 12.0];
    let pairs: Vec<(String, i64)> =
        totals.iter().enumerate().map(|(i, t)| (format!("p{i}"), fp(*t))).collect();
    let mut back = pairs.clone();
    back.reverse();
    let a = ratings_relative(&pairs, &m);
    let b = ratings_relative(&back, &m);
    for i in 0..totals.len() {
        let key = format!("p{i}");
        assert_eq!(star(&a, &key), star(&b, &key));
    }
    assert!(ratings_relative(&Vec::new(), &m).is_empty());
}

#[test]
fn absolute_mode_uses_thresholds() {
    let m = MetricParams { star_mode: "absolute".into(), ..MetricParams::default() };
    let pairs = vec![("a".to_string(), fp(80.0)), ("b".to_string(), fp(20.0))];
    let r = assign_ratings(&pairs, &m);
    assert_eq!(star(&r, "a"), 5);
    assert_eq!(star(&r, "b"), 1);
    let m = MetricParams { star_mode: "ABSOLUTE".into(), ..MetricParams::default() };
    assert_eq!(star(&assign_ratings(&pairs, &m), "a"), 5);
    let m = MetricParams::default();
    let r = assign_ratings(&vec![("a".to_string(), fp(80.0))], &m);
    assert_eq!(star(&r, "a"), 5);
}

#[test]
fn xmp_contains_suggested_ev_when_present() {
    let xml = render_xmp(&entry(), &scores(30.0), fp(55.0), 2, Some(fp(-0.33)));
    assert!(xml.contains(r#"<firstcut:suggestedEV>-0.33</firstcut:suggestedEV>"#));
    assert!(xml.contains(r#"crs:Exposure2="-0.33""#));
    assert!(xml.contains("xmlns:crs=\"http://ns.adobe.com/camera-raw-settings/1.0/\""));
    let i = xml.find("<firstcut:total>").unwrap();
    let j = xml.find("<firstcut:suggestedEV>").unwrap();
    let k = xml.find("<firstcut:burstGroup>").unwrap();
    assert!(i < j && j < k);
}

#[test]
fn xmp_untouched_when_no_suggested_ev() {
    let e = entry();
    let s = scores(80.0);
    let xml_none = render_xmp(&e, &s, fp(66.0), 4, None);
    assert!(!xml_none.contains("suggestedEV"));
    assert!(!xml_none.contains("Exposure2"));
    assert!(!xml_none.contains("crs"));
    let xml_some = render_xmp(&e, &s, fp(66.0), 4, Some(fp(1.0)));
    assert!(xml_some.contains(r#"<firstcut:suggestedEV>+1.00</firstcut:suggestedEV>"#));
    assert!(xml_some.contains(r#"crs:Exposure2="1.00""#));
}

#[test]
fn faces_that_are_no_number_count_as_none() {
    let mut e = entry();
    for (text, want) in [("", "0"), ("x", "0"), ("-1", "0"), ("+7", "7"), ("12", "12")] {
        e.faces = text.to_string();
        let xml = render_xmp(&e, &scores(1.0), 0, 1, None);
        assert!(xml.contains(&format!("<firstcut:faces>{want}</firstcut:faces>")));
    }
}

#[test]
fn foreign_sidecars_are_left_alone() {
    let e = entry();
    let own = render_xmp(&e, &scores(80.0), fp(66.0), 4, None);
    assert!(own.contains(NS_FIRSTCUT));
    assert!(sidecar_allowed(&e, &Existing::Absent));
    assert!(sidecar_allowed(&e, &Existing::Holds(own.clone().into_bytes())));
    assert!(!sidecar_allowed(&e, &Existing::Holds(b"<x:xmpmeta/>".to_vec())));
    assert!(!sidecar_allowed(&e, &Existing::Holds(Vec::new())));
    // A file that is no text, or that cannot be read, is left alone too.
    assert!(!sidecar_allowed(&e, &Existing::Holds(vec![0xff, 0xfe, 0x80, b'<'])));
    assert!(!sidecar_allowed(&e, &Existing::Unreadable));
    let mut mixed = vec![0xff, 0x80];
    mixed.extend_from_slice(NS_FIRSTCUT.as_bytes());
    assert!(sidecar_allowed(&e, &Existing::Holds(mixed)));
    let blank = PhotoEntry::default();
    assert!(!sidecar_allowed(&blank, &Existing::Absent));
    assert_eq!(sidecar_name("DSC00001.ARW"), "DSC00001.xmp");
    assert_eq!(sidecar_name("noext"), "noext.xmp");
    assert_eq!(sidecar_name("a.b.jpg"), "a.b.xmp");
}
