use pic_process::config::{
    check_config, config_fingerprint, config_template, effective_dedup, preset, preset_names,
    ConfigError, DedupParams, MetricParams, ScoreConfig, ScoreWeights,
};
use pic_process::review::config_edit::{edit_config, save, ConfigValues, SaveError};
use toml::Table;

fn fp(v: f64) -> i64 {
    (v * 1e6).round() as i64
}

fn number(v: &toml::Value) -> f64 {
    v.as_float().unwrap_or_else(|| v.as_integer().unwrap() as f64)
}

/// Reads a settings text over the built-in settings.
fn read(text: &str) -> ScoreConfig {
    let doc: Table = text.parse().unwrap();
    let mut c = ScoreConfig::default();
    if let Some(w) = doc.get("weights").and_then(|t| t.as_table()) {
        for (k, v) in w {
            let v = fp(number(v));
            match k.as_str() {
                "sharpness" => c.weights.sharpness = v,
                "exposure" => c.weights.exposure = v,
                "noise" => c.weights.noise = v,
                "composition" => c.weights.composition = v,
                "aesthetic" => c.weights.aesthetic = v,
                _ => panic!("{k}"),
            }
        }
    }
    if let Some(m) = doc.get("metric").and_then(|t| t.as_table()) {
        for (k, v) in m {
            if k == "star_mode" {
                c.metric.star_mode = v.as_str().unwrap().to_string();
                continue;
            }
            let v = fp(number(v));
            match k.as_str() {
                "sharpness_k" => c.metric.sharpness_k = v,
                "noise_k0" => c.metric.noise_k0 = v,
                "exposure_target" => c.metric.exposure_target = v,
                "exposure_ev_full_lo" => c.metric.exposure_ev_full_lo = v,
                "exposure_ev_full_hi" => c.metric.exposure_ev_full_hi = v,
                "exposure_ev_lo" => c.metric.exposure_ev_lo = v,
                "exposure_ev_hi" => c.metric.exposure_ev_hi = v,
                "exposure_subject_blend" => c.metric.exposure_subject_blend = v,
                "star_five_pct" => c.metric.star_five_pct = v,
                "star_four_pct" => c.metric.star_four_pct = v,
                "star_three_pct" => c.metric.star_three_pct = v,
                "star_two_pct" => c.metric.star_two_pct = v,
                "rating_5" => c.metric.rating_5 = v,
                "rating_4" => c.metric.rating_4 = v,
                "rating_3" => c.metric.rating_3 = v,
                "rating_2" => c.metric.rating_2 = v,
                _ => panic!("{k}"),
            }
        }
    }
    if let Some(d) = doc.get("dedup").and_then(|t| t.as_table()) {
        for (k, v) in d {
            match k.as_str() {
                "keep_k" => c.dedup.keep_k = v.as_integer().unwrap() as usize,
                "adaptive_keep" => c.dedup.adaptive_keep = v.as_bool().unwrap(),
                "pose_cluster_threshold" => c.dedup.pose_cluster_threshold = fp(number(v)),
                "burst_group_cap" => c.dedup.burst_group_cap = v.as_integer().unwrap() as usize,
                _ => panic!("{k}"),
            }
        }
    }
    c
}

#[test]
fn all_presets_are_loadable() {
    for name in preset_names() {
        let text = preset(name).unwrap();
        let cfg = read(text);
        assert_eq!(check_config(&cfg), Ok(()));
        let w = &cfg.weights;
        let sum = w.sharpness + w.exposure + w.noise + w.composition + w.aesthetic;
        assert!((sum - 1_000_000).abs() < 50_000);
        assert!(cfg.metric.exposure_ev_lo > cfg.metric.exposure_ev_full_lo);
        assert!(cfg.metric.exposure_ev_hi > cfg.metric.exposure_ev_full_hi);
        assert!((0..=1_000_000).contains(&cfg.metric.exposure_subject_blend));
    }
}

#[test]
fn unknown_preset_is_none() {
    assert!(preset("nope").is_none());
    assert!(preset("stage").is_some());
}

#[test]
fn presets_say_what_they_are_for() {
    let d = ScoreConfig::default();
    let p = read(preset("portrait").unwrap());
    assert_eq!(p.weights, d.weights);
    let s = read(preset("stage").unwrap());
    assert_eq!((s.weights.exposure, s.weights.composition), (fp(0.20), fp(0.20)));
    assert_eq!(s.metric.exposure_ev_full_lo, fp(2.0));
    let h = read(preset("highkey").unwrap());
    assert_eq!((h.metric.exposure_target, h.metric.exposure_ev_hi), (fp(150.0), fp(3.0)));
    let s = read(preset("sports").unwrap());
    assert_eq!((s.weights.sharpness, s.weights.composition), (fp(0.45), fp(0.05)));
    assert_eq!(s.metric.exposure_subject_blend, 0);
    let l = read(preset("lowlight").unwrap());
    assert_eq!((l.metric.exposure_target, l.metric.exposure_ev_lo), (fp(110.0), fp(5.0)));
    assert_eq!(l.weights.aesthetic, fp(0.20));
    assert!(l.metric.noise_k0 > d.metric.noise_k0);
}

#[test]
fn test_config_validation() {
    let default_cfg = ScoreConfig::default();
    let w = &default_cfg.weights;
    let sum = w.sharpness + w.exposure + w.noise + w.composition + w.aesthetic;
    assert!(sum >= fp(0.95) && sum <= fp(1.05));
    assert_eq!(w.exposure, fp(0.25));
}

#[test]
fn test_config_template_contains_all_fields() {
    let template = config_template();
    assert!(template.contains("[weights]"));
    assert!(template.contains("sharpness"));
    assert!(template.contains("exposure ="));
    assert!(template.contains("[metric]"));
    assert!(template.contains("rating_5"));
    assert!(template.contains("rating_4"));
    assert!(template.contains("#"));
    assert!(template.contains("人像") || template.contains("打鸟") || template.contains("夜景"));
}

#[test]
fn template_reads_as_the_defaults() {
    let t = config_template();
    assert!(t.contains("\nsharpness = 0.3\n"));
    assert!(t.contains("\nsharpness_k = 800000\n"));
    assert!(t.contains("\nexposure_subject_blend = 0.5\n"));
    assert!(t.contains("\nstar_mode = \"relative\"\n"));
    assert!(t.contains("\n# keep_k = 3\n"));
    let c = read(&t);
    let d = ScoreConfig::default();
    assert_eq!(c.weights, d.weights);
    assert_eq!(format!("{:?}", c.metric), format!("{:?}", d.metric));
    assert_eq!(c.dedup, d.dedup);
    assert_eq!(check_config(&c), Ok(()));
}

#[test]
fn every_refusal_of_settings() {
    let with = |f: &dyn Fn(&mut ScoreConfig)| {
        let mut c = ScoreConfig::default();
        f(&mut c);
        check_config(&c)
    };
    assert_eq!(with(&|_| {}), Ok(()));
    assert_eq!(with(&|c| c.weights.sharpness = fp(0.36)), Err(ConfigError::WeightSum));
    assert_eq!(with(&|c| c.weights.sharpness = fp(0.24)), Err(ConfigError::WeightSum));
    assert_eq!(with(&|c| c.weights.sharpness = fp(0.35)), Ok(()));
    assert_eq!(with(&|c| c.weights.sharpness = i64::MAX), Err(ConfigError::WeightSum));
    assert_eq!(with(&|c| c.metric.exposure_ev_full_lo = -1), Err(ConfigError::NegativeBand));
    assert_eq!(with(&|c| c.metric.exposure_ev_full_hi = -1), Err(ConfigError::NegativeBand));
    assert_eq!(with(&|c| c.metric.exposure_ev_lo = fp(1.0)), Err(ConfigError::DarkBand));
    assert_eq!(with(&|c| c.metric.exposure_ev_hi = fp(1.0)), Err(ConfigError::BrightBand));
    assert_eq!(with(&|c| c.metric.exposure_subject_blend = fp(1.1)), Err(ConfigError::SubjectBlend));
    assert_eq!(with(&|c| c.metric.star_mode = "absolue".into()), Err(ConfigError::StarMode));
    assert_eq!(with(&|c| c.metric.star_mode = "Relative".into()), Ok(()));
    assert_eq!(with(&|c| c.metric.star_four_pct = fp(5.0)), Err(ConfigError::StarOrder));
    assert!(ConfigError::StarMode.text().contains("star_mode"));
}

#[test]
fn fingerprint_covers_curves_only() {
    let base = config_fingerprint(&ScoreConfig::default());
    let with = |f: &dyn Fn(&mut ScoreConfig)| {
        let mut c = ScoreConfig::default();
        f(&mut c);
        config_fingerprint(&c)
    };
    assert_eq!(with(&|_| {}), base);
    assert_eq!(with(&|c| c.weights.sharpness = 1), base);
    assert_eq!(with(&|c| c.metric.rating_5 = 1), base);
    assert_eq!(with(&|c| c.metric.star_mode = "absolute".into()), base);
    assert_eq!(with(&|c| c.dedup.keep_k = 9), base);
    assert_ne!(with(&|c| c.metric.sharpness_k = 1), base);
    assert_ne!(with(&|c| c.metric.noise_k0 = 1), base);
    assert_ne!(with(&|c| c.metric.exposure_target = 1), base);
    assert_ne!(with(&|c| c.metric.exposure_ev_hi = 1), base);
    assert_ne!(with(&|c| c.metric.exposure_subject_blend = 1), base);
}

#[test]
fn a_number_by_hand_overrides_the_settings() {
    let c = ScoreConfig {
        weights: ScoreWeights::default(),
        metric: MetricParams::default(),
        dedup: DedupParams { keep_k: 4, ..Default::default() },
    };
    assert_eq!(effective_dedup(None, &c).keep_k, 4);
    let d = effective_dedup(Some(1), &c);
    assert_eq!((d.keep_k, d.burst_group_cap), (1, 20));
}

#[test]
fn save_preserves_comments_and_roundtrips() {
    let text = config_template();
    let mut v = ConfigValues::from_cfg(&read(&text));
    v.w_exposure = fp(0.31);
    v.w_sharpness = fp(0.24);
    v.star_mode = "absolute".into();
    v.rating_5 = fp(80.0);
    v.dedup_keep_k = fp(5.0);
    let saved = save(&text, &v).unwrap();
    assert!(saved.contains("# firstcut 评分配置模板"));
    assert!(saved.contains("\nexposure = 0.31\n"));
    assert!(saved.contains("\nrating_5 = 80.0\n"));
    let after = ConfigValues::from_cfg(&read(&saved));
    assert_eq!(after.w_exposure, fp(0.31));
    assert_eq!(after.w_sharpness, fp(0.24));
    assert_eq!(after.star_mode, "absolute");
    assert_eq!(after.rating_5, fp(80.0));
    assert_eq!(after.dedup_keep_k, fp(5.0));
    assert_eq!(check_config(&read(&saved)), Ok(()));
}

#[test]
fn save_rejects_invalid_values() {
    let text = config_template();
    let mut v = ConfigValues::from_cfg(&read(&text));
    v.w_sharpness = fp(0.9);
    assert!(matches!(save(&text, &v), Err(SaveError::Refused(ConfigError::WeightSum))));
    let mut v = ConfigValues::from_cfg(&read(&text));
    v.star_mode = "absolue".into();
    assert!(matches!(save(&text, &v), Err(SaveError::Refused(ConfigError::StarMode))));
    assert!(matches!(save("[weights\n", &v), Err(SaveError::Text(_))));
    // What is refused would be refused on reading too.
    assert!(check_config(&read(&edit_config(&text, &v).unwrap())).is_err());
}

#[test]
fn edits_of_other_texts() {
    let v = ConfigValues::from_cfg(&ScoreConfig::default());
    // Missing tables are added.
    let saved = edit_config("# mine\n", &v).unwrap();
    assert!(saved.contains("# mine"));
    assert_eq!(check_config(&read(&saved)), Ok(()));
    // A text that is no settings file is an error.
    assert!(edit_config("[weights\n", &v).is_err());
    // Quotes and other signs in a string survive.
    let mut w = ConfigValues::from_cfg(&ScoreConfig::default());
    w.star_mode = "a\"b\\c\n".into();
    w.dedup_keep_k = -1;
    let saved = edit_config("", &w).unwrap();
    let c = read(&saved);
    assert_eq!(c.metric.star_mode, "a\"b\\c\n");
    assert_eq!(c.dedup.keep_k, 0);
    // A key that is no table is replaced by one.
    let saved = edit_config("dedup = 3\n", &v).unwrap();
    assert_eq!(read(&saved).dedup.keep_k, 3);
}
