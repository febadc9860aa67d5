use pic_process::ai::facedetect::FaceBox;
use pic_process::decode::{build_analysis_image, AnalyzedImage, RgbImage};
use pic_process::metrics::composition::composition_score;
use pic_process::metrics::exposure::{
    exposure_basis, exposure_score, exposure_stats, region_mean_luma, suggested_ev, tone_term,
    ExposureCurve, ExposureStats,
};
use pic_process::metrics::histogram::{percentile, region_hist};
use pic_process::metrics::noise::dark_noise_metric;
use pic_process::metrics::region::Region;
use pic_process::metrics::sharpness::{
    box_blur_3x3, edge_ratio, normalized_sharpness, reblur_block_percentile, reblur_mean_region,
    reblur_p80_region, tenengrad_variance,
};

fn fp(v: f64) -> i64 {
    (v * 1e6).round() as i64
}

fn dec(v: i64) -> f64 {
    v as f64 / 1e6
}

fn face(x: f64, y: f64, w: f64, h: f64) -> FaceBox {
    FaceBox { x: fp(x), y: fp(y), w: fp(w), h: fp(h), score: fp(0.9), kps: [(0, 0); 5] }
}

fn score_of(faces: Vec<FaceBox>) -> f64 {
    dec(composition_score(&faces))
}

fn gray(w: u32, h: u32, f: impl Fn(u32, u32) -> u8) -> AnalyzedImage {
    let mut data = Vec::new();
    for y in 0..h {
        for x in 0..w {
            let v = f(x, y);
            data.extend_from_slice(&[v, v, v]);
        }
    }
    build_analysis_image(RgbImage { width: w, height: h, data })
}

// ---- composition ----

#[test]
fn no_face_neutral() {
    assert_eq!(score_of(vec![]), 60.0);
}

#[test]
fn centered_face_lower_than_thirds() {
    let centered = score_of(vec![face(0.4, 0.4, 0.2, 0.25)]);
    let thirds = score_of(vec![face(0.28, 0.28, 0.2, 0.25)]);
    assert!(thirds > centered);
}

#[test]
fn ideal_size_scores_high() {
    let s = score_of(vec![face(0.2333, 0.2083, 0.2, 0.25)]);
    assert!(s > 95.0);
}

#[test]
fn tiny_face_penalized() {
    let tiny = score_of(vec![face(0.28, 0.28, 0.03, 0.03)]);
    let normal = score_of(vec![face(0.28, 0.28, 0.2, 0.25)]);
    assert!(tiny < normal);
}

#[test]
fn composition_exact_values() {
    // The middle of the picture: sqrt(2)/6 from the nearest crossing.
    let d = (2.0f64).sqrt() / 6.0;
    let want = 100.0 * (1.0 - d / 0.47);
    assert!((score_of(vec![face(0.45, 0.45, 0.1, 0.1)]) - want).abs() < 1e-4);
    // Five per cent of the height: three quarters of the way from half to full marks... of 8 %.
    let small = score_of(vec![face(0.475, 0.475, 0.05, 0.05)]);
    assert!((small - want * (0.5 + 0.5 * 5.0 / 8.0)).abs() < 1e-4);
    // Above thirty per cent: three quarters.
    assert!((score_of(vec![face(0.3, 0.3, 0.4, 0.4)]) - want * 0.75).abs() < 1e-4);
    // Groups of two and of five.
    let f = face(0.45, 0.45, 0.1, 0.1);
    assert!((score_of(vec![f, f]) - want * 0.95).abs() < 1e-4);
    assert!((score_of(vec![f, f, f, f, f]) - want * 0.85).abs() < 1e-4);
    // A face below four per cent does not count.
    assert_eq!(score_of(vec![face(0.1, 0.1, 0.039, 0.039)]), 60.0);
    assert_eq!(score_of(vec![f, face(0.1, 0.1, 0.039, 0.039)]), score_of(vec![f]));
}

// ---- exposure ----

fn curve() -> ExposureCurve {
    ExposureCurve {
        target: fp(128.0),
        ev_full_lo: fp(1.0),
        ev_full_hi: fp(1.0),
        ev_lo: fp(4.0),
        ev_hi: fp(2.0),
        subject_blend: fp(0.5),
        suggest_cap: fp(2.0),
    }
}

fn stats(mean_trunc: f64) -> ExposureStats {
    ExposureStats { over_ratio: 0, under_ratio: 0, mean: fp(mean_trunc), mean_trunc: fp(mean_trunc) }
}

fn srgb_to_linear(code: f64) -> f64 {
    let s = (code / 255.0).clamp(0.0, 1.0);
    if s <= 0.04045 {
        s / 12.92
    } else {
        ((s + 0.055) / 1.055).powf(2.4)
    }
}

fn ev_offset(code: f64, target: f64) -> f64 {
    let lt = srgb_to_linear(target).max(1e-6);
    let lx = srgb_to_linear(code).max(1e-6);
    (lx / lt).log2()
}

fn ev_of(s: &ExposureStats, subject: Option<f64>, c: &ExposureCurve) -> i64 {
    let basis = exposure_basis(s, subject.map(fp), c);
    fp(ev_offset(dec(basis), dec(c.target)))
}

fn score(s: &ExposureStats, subject: Option<f64>, c: &ExposureCurve) -> f64 {
    dec(exposure_score(s, ev_of(s, subject, c), c))
}

fn suggest(s: &ExposureStats, subject: Option<f64>, c: &ExposureCurve) -> Option<f64> {
    suggested_ev(ev_of(s, subject, c), c).map(dec)
}

#[test]
fn full_score_inside_ev_band() {
    let c = curve();
    for code in [93.0, 110.0, 128.0, 150.0, 175.0] {
        let s = score(&stats(code), None, &c);
        assert!((s - 100.0).abs() < 0.5);
    }
}

#[test]
fn decays_monotonically_outside_band() {
    let c = curve();
    let d2 = score(&stats(65.7), None, &c);
    let d3 = score(&stats(45.7), None, &c);
    let d4 = score(&stats(31.0), None, &c);
    assert!(d2 > d3 && d3 > d4);
    assert!(d4 < 3.0);
    assert!((d2 - 66.7).abs() < 2.0);
    let b15 = score(&stats(205.0), None, &c);
    let b20 = score(&stats(239.0), None, &c);
    assert!(b15 > b20);
    assert!(b20 < 3.0);
}

#[test]
fn dark_and_bright_tolerance_are_independent() {
    let mut c = curve();
    c.ev_full_lo = fp(2.0);
    c.ev_lo = fp(5.0);
    assert!((score(&stats(78.1), None, &c) - 100.0).abs() < 0.5);
    let bright = score(&stats(205.0), None, &c);
    assert!(bright < 60.0);
}

#[test]
fn subject_blend_rescues_dark_background() {
    let c = curve();
    let dark = stats(38.0);
    let global_only = score(&dark, None, &c);
    let with_subject = score(&dark, Some(110.0), &c);
    assert!(global_only < 20.0);
    assert!(with_subject > 60.0);
    assert!((score(&dark, None, &c) - global_only).abs() < 1e-9);
}

#[test]
fn subject_blend_is_one_sided() {
    let c = curve();
    let dark = stats(50.0);
    let over_bright = score(&dark, Some(240.0), &c);
    let at_target = score(&dark, Some(128.0), &c);
    assert!((over_bright - at_target).abs() < 1e-9);
    let normal = stats(120.0);
    assert!((score(&normal, Some(20.0), &c) - score(&normal, None, &c)).abs() < 1e-9);
    let bright = stats(206.8);
    let rescued = score(&bright, Some(154.7), &c);
    assert!(rescued > 70.0);
}

#[test]
fn clipping_penalty_applies() {
    let c = curve();
    let mut s = stats(128.0);
    s.over_ratio = fp(0.1);
    let scored = score(&s, None, &c);
    assert!(scored < 70.0 && scored > 50.0);
    assert_eq!(exposure_score(&s, 0, &c), fp(60.0));
}

#[test]
fn suggested_ev_none_inside_band() {
    let c = curve();
    for code in [93.0, 110.0, 128.0, 150.0, 175.0] {
        assert!(suggest(&stats(code), None, &c).is_none());
    }
    let dark = suggest(&stats(87.0), None, &c);
    assert!(dark.map_or(false, |v| v == dec(fp(4.0 / 3.0))));
}

#[test]
fn suggested_ev_direction_and_third_stop() {
    let c = curve();
    let dark = suggest(&stats(65.7), None, &c).unwrap();
    assert!((dark - 2.0).abs() < 1e-9);
    let bright = suggest(&stats(239.0), None, &c).unwrap();
    assert!((bright + 2.0).abs() < 1e-9);
    assert!(suggest(&stats(100.0), None, &c).is_none());
    let r = suggest(&stats(89.0), None, &c).unwrap();
    assert!((r - 1.0).abs() < 1e-9);
    let r = suggest(&stats(87.0), None, &c).unwrap();
    assert_eq!(r, dec(fp(4.0 / 3.0)));
}

#[test]
fn suggested_ev_clamped_by_cap() {
    let c = curve();
    let dark = suggest(&stats(31.0), None, &c).unwrap();
    assert!((dark - 2.0).abs() < 1e-9);
    let c0 = ExposureCurve { suggest_cap: 0, ..curve() };
    assert!(suggest(&stats(31.0), None, &c0).is_none());
    assert!(suggest(&stats(128.0), None, &c0).is_none());
    let c5 = ExposureCurve { suggest_cap: fp(0.5), ..curve() };
    let dark = suggest(&stats(31.0), None, &c5).unwrap();
    assert!((dark - 0.5).abs() < 1e-9);
}

#[test]
fn suggested_ev_uses_subject_basis() {
    let c = curve();
    let dark = stats(38.0);
    let global = suggest(&dark, None, &c);
    let with_subject = suggest(&dark, Some(110.0), &c);
    assert!(global.is_some() && with_subject.is_some());
    assert!(with_subject.unwrap() < global.unwrap());
}

#[test]
fn tone_and_basis_exact_values() {
    let c = curve();
    assert_eq!(tone_term(fp(-1.0), &c), 1_000_000);
    assert_eq!(tone_term(fp(-2.5), &c), 500_000);
    assert_eq!(tone_term(fp(1.5), &c), 500_000);
    assert_eq!(tone_term(fp(-4.0), &c), 0);
    assert_eq!(tone_term(fp(9.0), &c), 0);
    assert_eq!(tone_term(i64::MIN, &c), 0);
    assert_eq!(exposure_basis(&stats(50.0), Some(fp(90.0)), &c), fp(70.0));
    assert_eq!(exposure_basis(&stats(50.0), Some(fp(240.0)), &c), fp(89.0));
    assert_eq!(exposure_basis(&stats(50.0), Some(fp(10.0)), &c), fp(50.0));
    assert_eq!(exposure_basis(&stats(50.0), None, &c), fp(50.0));
    assert_eq!(suggested_ev(fp(1.1), &c), Some(fp(-1.0)));
    assert_eq!(suggested_ev(fp(-1.6), &c), Some(1_666_667));
}

#[test]
fn exposure_stats_exact_values() {
    // Four pixels: 0, 100, 200, 255. The darkest quarter is the black one.
    let img = gray(2, 2, |x, y| [0, 100, 200, 255][(2 * y + x) as usize]);
    let s = exposure_stats(&img);
    assert_eq!(s.over_ratio, fp(0.25));
    assert_eq!(s.under_ratio, fp(0.25));
    assert_eq!(s.mean, fp(138.75));
    assert_eq!(s.mean_trunc, fp(185.0));
    let img = gray(8, 1, |x, _| if x < 3 { 10 } else { 90 });
    let s = exposure_stats(&img);
    // Two of the three dark pixels are left out.
    assert_eq!(s.mean_trunc, 76_666_667);
    let img = gray(8, 1, |x, _| if x < 1 { 10 } else { 90 });
    let s = exposure_stats(&img);
    assert_eq!((s.mean, s.mean_trunc), (fp(80.0), fp(90.0)));
    let img = gray(2, 2, |x, y| if x + y == 0 { 0 } else { 100 });
    let s = exposure_stats(&img);
    assert_eq!((s.over_ratio, s.under_ratio), (0, fp(0.25)));
    assert_eq!((s.mean, s.mean_trunc), (fp(75.0), fp(100.0)));
    // Nothing is left of a single pixel: the mean of all stands in.
    let s = exposure_stats(&gray(1, 1, |_, _| 40));
    assert_eq!((s.mean, s.mean_trunc), (fp(40.0), fp(40.0)));
    let none = build_analysis_image(RgbImage { width: 0, height: 5, data: Vec::new() });
    let s = exposure_stats(&none);
    assert_eq!((s.over_ratio, s.under_ratio, s.mean, s.mean_trunc), (0, 0, 0, 0));
}

#[test]
fn region_means() {
    let img = gray(4, 4, |x, y| (10 * y + x) as u8);
    let all = Region { cx: fp(0.5), cy: fp(0.5), half_w: fp(0.5), half_h: fp(0.5) };
    assert_eq!(region_mean_luma(&img.luma, 4, 4, &all), fp(16.5));
    let corner = Region { cx: 0, cy: 0, half_w: fp(0.25), half_h: fp(0.25) };
    assert_eq!(region_mean_luma(&img.luma, 4, 4, &corner), fp(5.5));
    let crossed = Region { cx: fp(0.5), cy: fp(0.5), half_w: fp(-0.5), half_h: fp(0.5) };
    assert_eq!(region_mean_luma(&img.luma, 4, 4, &crossed), 0);
    assert_eq!(region_mean_luma(&img.luma, 4, 5, &all), 0);
    assert_eq!(region_mean_luma(&img.luma, 1, 1, &all), 0);
}

// ---- sharpness ----

#[test]
fn gradients_of_an_edge() {
    // A step of 100 between the second and the third column of a 5 by 3 picture.
    let img = gray(5, 3, |x, _| if x < 2 { 0 } else { 100 });
    // Samples at columns 1 and 3: 400 * 400 and 0.
    assert_eq!(tenengrad_variance(&img), 80_000i64 * 80_000 * 1_000_000);
    assert_eq!(edge_ratio(&img.luma, 5, 3, fp(399.0)), 500_000);
    assert_eq!(edge_ratio(&img.luma, 5, 3, fp(400.0)), 0);
    assert_eq!(edge_ratio(&img.luma, 2, 2, fp(40.0)), 0);
    assert_eq!(tenengrad_variance(&gray(2, 9, |_, _| 7)), 0);
    assert_eq!(normalized_sharpness(fp(100.0), fp(8.0)), 12_500_000);
    assert_eq!(normalized_sharpness(fp(100.0), fp(0.999)), 0);
}

#[test]
fn blur_keeps_flat_parts() {
    assert_eq!(box_blur_3x3(&[7; 12], 4, 3), vec![7; 12]);
    assert_eq!(box_blur_3x3(&[0, 0, 0, 0, 90, 0, 0, 0, 0], 3, 3), vec![10; 9]);
    // Border pixels repeat outwards; what lies behind the picture becomes zero.
    assert_eq!(box_blur_3x3(&[9, 0, 5], 2, 1), vec![6, 3, 0]);
}

#[test]
fn reblur_finds_the_edge() {
    let flat = gray(16, 16, |_, _| 50);
    let edge = gray(16, 16, |x, _| if x < 8 { 0 } else { 200 });
    let all = Region { cx: fp(0.5), cy: fp(0.5), half_w: fp(0.5), half_h: fp(0.5) };
    assert_eq!(reblur_mean_region(&flat.luma, 16, 16, &all), 0);
    assert_eq!(reblur_p80_region(&flat.luma, 16, 16, &all), 0);
    // Two blurs turn the step 0|200 into 0 22 66 133 177 200 (rounded down at each blur).
    let mean = reblur_mean_region(&edge.luma, 16, 16, &all);
    assert!(mean > fp(8.0) && mean < fp(14.0));
    let p80 = reblur_p80_region(&edge.luma, 16, 16, &all);
    assert!(p80 > fp(15.0) && p80 <= fp(70.0));
    let left = Region { cx: fp(0.1), cy: fp(0.5), half_w: fp(0.1), half_h: fp(0.5) };
    assert_eq!(reblur_p80_region(&edge.luma, 16, 16, &left), 0);
    assert_eq!(reblur_p80_region(&edge.luma, 7, 16, &all), 0);
    let p90 = reblur_block_percentile(&edge.luma, 16, 16, 4, 90);
    let p10 = reblur_block_percentile(&edge.luma, 16, 16, 4, 10);
    assert_eq!(p10, 0);
    assert!(p90 as i64 > fp(15.0));
    assert_eq!(reblur_block_percentile(&edge.luma, 3, 16, 4, 90), 0);
}

// ---- noise ----

#[test]
fn noise_of_dark_blocks() {
    assert_eq!(dark_noise_metric(&gray(8, 8, |_, _| 10)), 0);
    // Half of the pixels 10, half 20: a standard deviation of 5.
    assert_eq!(dark_noise_metric(&gray(8, 8, |x, _| if x % 2 == 0 { 10 } else { 20 })), 5_000_000);
    // The smoothest of two dark blocks counts.
    let img = gray(16, 8, |x, _| if x < 8 { 10 + 10 * (x % 2) as u8 } else { 30 });
    assert_eq!(dark_noise_metric(&img), 0);
    // No dark block: all dark pixels of the picture, here 0 and 30.
    let img = gray(8, 8, |x, y| match (x, y) {
        (0, 0) => 0,
        (1, 0) => 30,
        _ => 200,
    });
    assert_eq!(dark_noise_metric(&img), 15_000_000);
    assert_eq!(dark_noise_metric(&gray(8, 8, |_, _| 200)), 0);
    assert_eq!(dark_noise_metric(&gray(7, 8, |x, _| x as u8)), 0);
}

// ---- histograms ----

#[test]
fn histogram_percentiles() {
    let mut hist = vec![0u64; 256];
    hist[10] = 5;
    hist[20] = 4;
    hist[200] = 1;
    assert_eq!(percentile(&hist, 50), 10);
    assert_eq!(percentile(&hist, 51), 20);
    assert_eq!(percentile(&hist, 90), 20);
    assert_eq!(percentile(&hist, 95), 200);
    assert_eq!(percentile(&vec![0u64; 256], 50), 0);
    assert_eq!(percentile(&hist, 200), 255);
}

#[test]
fn histogram_of_a_box() {
    let img = gray(4, 4, |x, _| x as u8);
    let h = region_hist(&img.luma, 4, 4, fp(0.25), 0, fp(0.25), fp(0.5));
    assert_eq!((h[0], h[1], h[2], h[3]), (0, 3, 3, 0));
    let h = region_hist(&img.luma, 4, 4, fp(-1.0), fp(-1.0), fp(9.0), fp(9.0));
    assert_eq!((h[0], h[1], h[2], h[3]), (4, 4, 4, 4));
    assert!(region_hist(&img.luma, 4, 5, 0, 0, fp(1.0), fp(1.0)).iter().all(|c| *c == 0));
}
