//! Settings: weights, curves, stars and bursts. Every decimal is in fixed point.
use crate::output::xmp::stands_in;
use crate::text::{chars_of, lowercase, lowered, same_text, stands_at};
use std::collections::hash_map::DefaultHasher;
use std::hash::Hasher;
use vstd::prelude::*;
use vstd::std_specs::hash::DefaultHasherAdditionalSpecFns;

pub use crate::template::config_template;

verus! {

/// Weight of each score; together they should come to one.
#[derive(Debug, Clone, Copy, PartialEq, Eq, Structural)]
pub struct ScoreWeights {
    pub sharpness: i64,
    pub exposure: i64,
    pub noise: i64,
    pub composition: i64,
    pub aesthetic: i64,
}

/// The weights that apply without a settings file.
pub open spec fn default_weights() -> ScoreWeights {
    ScoreWeights {
        sharpness: 300_000,
        exposure: 250_000,
        noise: 150_000,
        composition: 150_000,
        aesthetic: 150_000,
    }
}

impl Default for ScoreWeights {
    fn default() -> (r: Self)
        ensures
            r == default_weights(),
    {
        ScoreWeights {
            sharpness: 300_000,
            exposure: 250_000,
            noise: 150_000,
            composition: 150_000,
            aesthetic: 150_000,
        }
    }
}

/// Curves of the scores, and how stars are given.
#[derive(Debug)]
pub struct MetricParams {
    /// Normalised sharpness at which the sharpness score reaches 63.
    pub sharpness_k: i64,
    /// Tolerated noise at ISO 100.
    pub noise_k0: i64,
    /// Ideal brightness, as a code value from 0 to 255.
    pub exposure_target: i64,
    /// How many stops below the ideal still count as right.
    pub exposure_ev_full_lo: i64,
    /// How many stops above the ideal still count as right.
    pub exposure_ev_full_hi: i64,
    /// How many stops below the ideal count for nothing.
    pub exposure_ev_lo: i64,
    /// How many stops above the ideal count for nothing.
    pub exposure_ev_hi: i64,
    /// Weight of the subject in the judged brightness, from 0 to 1.
    pub exposure_subject_blend: i64,
    /// Largest correction that is suggested, in stops.
    pub exposure_suggest_cap: i64,
    /// How stars are given: `relative` or `absolute`, in any case.
    pub star_mode: String,
    /// Percentile up to which a photo gets five stars.
    pub star_five_pct: i64,
    /// Percentile up to which a photo gets four stars.
    pub star_four_pct: i64,
    /// Percentile up to which a photo gets three stars.
    pub star_three_pct: i64,
    /// Percentile up to which a photo gets two stars.
    pub star_two_pct: i64,
    /// Total from which a photo gets five stars, in absolute mode.
    pub rating_5: i64,
    /// Total from which a photo gets four stars, in absolute mode.
    pub rating_4: i64,
    /// Total from which a photo gets three stars, in absolute mode.
    pub rating_3: i64,
    /// Total from which a photo gets two stars, in absolute mode.
    pub rating_2: i64,
}

/// What `MetricParams` holds.
pub struct MetricView {
    pub sharpness_k: i64,
    pub noise_k0: i64,
    pub exposure_target: i64,
    pub exposure_ev_full_lo: i64,
    pub exposure_ev_full_hi: i64,
    pub exposure_ev_lo: i64,
    pub exposure_ev_hi: i64,
    pub exposure_subject_blend: i64,
    pub exposure_suggest_cap: i64,
    pub star_mode: Seq<char>,
    pub star_five_pct: i64,
    pub star_four_pct: i64,
    pub star_three_pct: i64,
    pub star_two_pct: i64,
    pub rating_5: i64,
    pub rating_4: i64,
    pub rating_3: i64,
    pub rating_2: i64,
}

impl View for MetricParams {
    type V = MetricView;

    open spec fn view(&self) -> MetricView {
        MetricView {
            sharpness_k: self.sharpness_k,
            noise_k0: self.noise_k0,
            exposure_target: self.exposure_target,
            exposure_ev_full_lo: self.exposure_ev_full_lo,
            exposure_ev_full_hi: self.exposure_ev_full_hi,
            exposure_ev_lo: self.exposure_ev_lo,
            exposure_ev_hi: self.exposure_ev_hi,
            exposure_subject_blend: self.exposure_subject_blend,
            exposure_suggest_cap: self.exposure_suggest_cap,
            star_mode: self.star_mode@,
            star_five_pct: self.star_five_pct,
            star_four_pct: self.star_four_pct,
            star_three_pct: self.star_three_pct,
            star_two_pct: self.star_two_pct,
            rating_5: self.rating_5,
            rating_4: self.rating_4,
            rating_3: self.rating_3,
            rating_2: self.rating_2,
        }
    }
}

/// The curves and stars that apply without a settings file.
pub open spec fn default_metric() -> MetricView {
    MetricView {
        sharpness_k: 800_000_000_000,
        noise_k0: 3_000_000,
        exposure_target: 128_000_000,
        exposure_ev_full_lo: 1_000_000,
        exposure_ev_full_hi: 1_000_000,
        exposure_ev_lo: 4_000_000,
        exposure_ev_hi: 2_000_000,
        exposure_subject_blend: 500_000,
        exposure_suggest_cap: 2_000_000,
        star_mode: "relative"@,
        star_five_pct: 10_000_000,
        star_four_pct: 30_000_000,
        star_three_pct: 65_000_000,
        star_two_pct: 90_000_000,
        rating_5: 75_000_000,
        rating_4: 60_000_000,
        rating_3: 45_000_000,
        rating_2: 30_000_000,
    }
}

impl Default for MetricParams {
    fn default() -> (r: Self)
        ensures
            r@ == default_metric(),
    {
        let r = MetricParams {
            sharpness_k: 800_000_000_000,
            noise_k0: 3_000_000,
            exposure_target: 128_000_000,
            exposure_ev_full_lo: 1_000_000,
            exposure_ev_full_hi: 1_000_000,
            exposure_ev_lo: 4_000_000,
            exposure_ev_hi: 2_000_000,
            exposure_subject_blend: 500_000,
            exposure_suggest_cap: 2_000_000,
            star_mode: String::from_str("relative"),
            star_five_pct: 10_000_000,
            star_four_pct: 30_000_000,
            star_three_pct: 65_000_000,
            star_two_pct: 90_000_000,
            rating_5: 75_000_000,
            rating_4: 60_000_000,
            rating_3: 45_000_000,
            rating_2: 30_000_000,
        };
        assert(r@ =~= default_metric());
        r
    }
}

impl Clone for MetricParams {
    fn clone(&self) -> (r: Self)
        ensures
            r@ == self@,
    {
        MetricParams {
            sharpness_k: self.sharpness_k,
            noise_k0: self.noise_k0,
            exposure_target: self.exposure_target,
            exposure_ev_full_lo: self.exposure_ev_full_lo,
            exposure_ev_full_hi: self.exposure_ev_full_hi,
            exposure_ev_lo: self.exposure_ev_lo,
            exposure_ev_hi: self.exposure_ev_hi,
            exposure_subject_blend: self.exposure_subject_blend,
            exposure_suggest_cap: self.exposure_suggest_cap,
            star_mode: self.star_mode.clone(),
            star_five_pct: self.star_five_pct,
            star_four_pct: self.star_four_pct,
            star_three_pct: self.star_three_pct,
            star_two_pct: self.star_two_pct,
            rating_5: self.rating_5,
            rating_4: self.rating_4,
            rating_3: self.rating_3,
            rating_2: self.rating_2,
        }
    }
}

/// How bursts are found, and how many of their frames stay.
#[derive(Debug, Clone, Copy, PartialEq, Eq, Structural)]
pub struct DedupParams {
    /// Longest pause between two frames of one burst, in seconds.
    pub gap_secs: i64,
    /// Largest hash distance within one scene.
    pub dhash_threshold: u32,
    /// How many frames of a unit stay.
    pub keep_k: usize,
    /// Whether a scene is split by pose before frames are chosen.
    pub adaptive_keep: bool,
    /// Largest pose distance within one pose.
    pub pose_cluster_threshold: i64,
    /// How many frames of one burst stay at most; zero for no limit.
    pub burst_group_cap: usize,
}

/// How bursts are handled without a settings file.
pub open spec fn default_dedup() -> DedupParams {
    DedupParams {
        gap_secs: 2_000_000,
        dhash_threshold: 10,
        keep_k: 3,
        adaptive_keep: true,
        pose_cluster_threshold: 250_000,
        burst_group_cap: 20,
    }
}

impl Default for DedupParams {
    fn default() -> (r: Self)
        ensures
            r == default_dedup(),
    {
        DedupParams {
            gap_secs: 2_000_000,
            dhash_threshold: 10,
            keep_k: 3,
            adaptive_keep: true,
            pose_cluster_threshold: 250_000,
            burst_group_cap: 20,
        }
    }
}

/// All settings.
#[derive(Debug)]
pub struct ScoreConfig {
    pub weights: ScoreWeights,
    pub metric: MetricParams,
    pub dedup: DedupParams,
}

/// What `ScoreConfig` holds.
pub struct ConfigView {
    pub weights: ScoreWeights,
    pub metric: MetricView,
    pub dedup: DedupParams,
}

impl View for ScoreConfig {
    type V = ConfigView;

    open spec fn view(&self) -> ConfigView {
        ConfigView { weights: self.weights, metric: self.metric@, dedup: self.dedup }
    }
}

/// The settings that apply without a settings file.
pub open spec fn default_config() -> ConfigView {
    ConfigView { weights: default_weights(), metric: default_metric(), dedup: default_dedup() }
}

impl Default for ScoreConfig {
    fn default() -> (r: Self)
        ensures
            r@ == default_config(),
    {
        ScoreConfig {
            weights: ScoreWeights::default(),
            metric: MetricParams::default(),
            dedup: DedupParams::default(),
        }
    }
}

impl Clone for ScoreConfig {
    fn clone(&self) -> (r: Self)
        ensures
            r@ == self@,
    {
        ScoreConfig { weights: self.weights, metric: self.metric.clone(), dedup: self.dedup }
    }
}

/// Why settings are refused.
#[derive(Debug, Clone, Copy, PartialEq, Eq, Structural)]
pub enum ConfigError {
    /// The weights are more than 0.05 away from one.
    WeightSum,
    /// A tolerance for full marks is negative.
    NegativeBand,
    /// The dark side ends before its tolerance for full marks does.
    DarkBand,
    /// The bright side ends before its tolerance for full marks does.
    BrightBand,
    /// The weight of the subject is not between 0 and 1.
    SubjectBlend,
    /// The star mode is neither `relative` nor `absolute`.
    StarMode,
    /// The percentiles of the stars go down.
    StarOrder,
}

/// The sum of the weights.
pub open spec fn weight_sum(w: ScoreWeights) -> int {
    w.sharpness + w.exposure + w.noise + w.composition + w.aesthetic
}

/// The star mode has the given name, whatever the case of its letters.
pub open spec fn mode_is(m: MetricView, name: Seq<char>) -> bool {
    lowered(m.star_mode) == name
}

/// The first reason to refuse the settings, if there is one.
pub open spec fn config_problem(c: ConfigView) -> Option<ConfigError> {
    let m = c.metric;
    if !(950_000 <= weight_sum(c.weights) <= 1_050_000) {
        Some(ConfigError::WeightSum)
    } else if m.exposure_ev_full_lo < 0 || m.exposure_ev_full_hi < 0 {
        Some(ConfigError::NegativeBand)
    } else if m.exposure_ev_lo <= m.exposure_ev_full_lo {
        Some(ConfigError::DarkBand)
    } else if m.exposure_ev_hi <= m.exposure_ev_full_hi {
        Some(ConfigError::BrightBand)
    } else if !(0 <= m.exposure_subject_blend <= 1_000_000) {
        Some(ConfigError::SubjectBlend)
    } else if !mode_is(m, "relative"@) && !mode_is(m, "absolute"@) {
        Some(ConfigError::StarMode)
    } else if !(m.star_five_pct <= m.star_four_pct <= m.star_three_pct <= m.star_two_pct) {
        Some(ConfigError::StarOrder)
    } else {
        None
    }
}

impl MetricParams {
    /// Tells whether the star mode has the given name, whatever the case of its letters.
    pub fn has_mode(&self, name: &str) -> (r: bool)
        ensures
            r == mode_is(self@, name@),
    {
        let mode = lowercase(&chars_of(self.star_mode.as_str()));
        same_text(&mode, name)
    }
}

/// The sum of the weights.
fn sum_of_weights(w: &ScoreWeights) -> (r: i128)
    ensures
        r == weight_sum(*w),
{
    w.sharpness as i128 + w.exposure as i128 + w.noise as i128 + w.composition as i128
        + w.aesthetic as i128
}

/// Checks settings that were read: `Ok` where nothing speaks against them, else the first reason
/// to refuse them.
pub fn check_config(c: &ScoreConfig) -> (r: Result<(), ConfigError>)
    ensures
        match config_problem(c@) {
            Some(e) => r == Err::<(), ConfigError>(e),
            None => r == Ok::<(), ConfigError>(()),
        },
{
    let m = &c.metric;
    let sum: i128 = sum_of_weights(&c.weights);
    if sum < 950_000 || sum > 1_050_000 {
        return Err(ConfigError::WeightSum);
    }
    if m.exposure_ev_full_lo < 0 || m.exposure_ev_full_hi < 0 {
        return Err(ConfigError::NegativeBand);
    }
    if m.exposure_ev_lo <= m.exposure_ev_full_lo {
        return Err(ConfigError::DarkBand);
    }
    if m.exposure_ev_hi <= m.exposure_ev_full_hi {
        return Err(ConfigError::BrightBand);
    }
    if m.exposure_subject_blend < 0 || m.exposure_subject_blend > 1_000_000 {
        return Err(ConfigError::SubjectBlend);
    }
    if !m.has_mode("relative") && !m.has_mode("absolute") {
        return Err(ConfigError::StarMode);
    }
    if m.star_five_pct > m.star_four_pct || m.star_four_pct > m.star_three_pct || m.star_three_pct
        > m.star_two_pct {
        return Err(ConfigError::StarOrder);
    }
    Ok(())
}

/// The settings that apply without a file are accepted.
pub proof fn defaults_are_accepted()
    ensures
        config_problem(default_config()) is None,
{
    reveal_strlit("relative");
    assert(lowered("relative"@) =~= "relative"@);
}

/// What is said of a reason to refuse settings, after the name of the place they came from.
pub open spec fn problem_text(e: ConfigError) -> Seq<char> {
    match e {
        ConfigError::WeightSum => "权重之和应约为 1.0"@,
        ConfigError::NegativeBand => "曝光满分容差不能为负"@,
        ConfigError::DarkBand => "exposure_ev_lo 必须大于 exposure_ev_full_lo"@,
        ConfigError::BrightBand => "exposure_ev_hi 必须大于 exposure_ev_full_hi"@,
        ConfigError::SubjectBlend => "exposure_subject_blend 应在 0~1 之间"@,
        ConfigError::StarMode => "star_mode 只能是 relative 或 absolute"@,
        ConfigError::StarOrder => "星级百分位必须依次不减"@,
    }
}

impl ConfigError {
    /// The reason in words.
    pub fn text(&self) -> (r: &'static str)
        ensures
            r@ == problem_text(*self),
    {
        match self {
            ConfigError::WeightSum => "权重之和应约为 1.0",
            ConfigError::NegativeBand => "曝光满分容差不能为负",
            ConfigError::DarkBand => "exposure_ev_lo 必须大于 exposure_ev_full_lo",
            ConfigError::BrightBand => "exposure_ev_hi 必须大于 exposure_ev_full_hi",
            ConfigError::SubjectBlend => "exposure_subject_blend 应在 0~1 之间",
            ConfigError::StarMode => "star_mode 只能是 relative 或 absolute",
            ConfigError::StarOrder => "星级百分位必须依次不减",
        }
    }
}

/// The settings on which stored scores depend: the curves, not the weights or the stars.
pub open spec fn curve_values(c: ConfigView) -> Seq<i64> {
    seq![
        c.metric.sharpness_k,
        c.metric.noise_k0,
        c.metric.exposure_target,
        c.metric.exposure_ev_full_lo,
        c.metric.exposure_ev_full_hi,
        c.metric.exposure_ev_lo,
        c.metric.exposure_ev_hi,
        c.metric.exposure_subject_blend,
        c.metric.exposure_suggest_cap,
    ]
}

/// What is handed to the hasher: each value as eight bytes, the lowest first.
pub open spec fn hashed_bytes(values: Seq<i64>) -> Seq<Seq<u8>> {
    values.map_values(|v: i64| vstd::bytes::spec_u64_to_le_bytes(v as u64))
}

/// The fingerprint of the given values.
pub open spec fn fingerprint_of(values: Seq<i64>) -> i64 {
    DefaultHasher::spec_finish(hashed_bytes(values)) as i64
}

/// A fingerprint of the settings on which stored scores depend; a stored row is used only where
/// it carries the same one.
pub fn config_fingerprint(c: &ScoreConfig) -> (r: i64)
    ensures
        r == fingerprint_of(curve_values(c@)),
{
    let m = &c.metric;
    let values: [i64; 9] = [
        m.sharpness_k,
        m.noise_k0,
        m.exposure_target,
        m.exposure_ev_full_lo,
        m.exposure_ev_full_hi,
        m.exposure_ev_lo,
        m.exposure_ev_hi,
        m.exposure_subject_blend,
        m.exposure_suggest_cap,
    ];
    let ghost all = curve_values(c@);
    assert(values@ =~= all);
    let mut h = DefaultHasher::new();
    let mut i: usize = 0;
    assert(hashed_bytes(all.take(0)) =~= Seq::<Seq<u8>>::empty());
    while i < 9
        invariant
            i <= 9,
            values@ == all,
            all.len() == 9,
            h@ == hashed_bytes(all.take(i as int)),
        decreases 9 - i,
    {
        let bytes = vstd::bytes::u64_to_le_bytes(values[i] as u64);
        h.write(bytes.as_slice());
        assert(hashed_bytes(all.take(i + 1)) =~= hashed_bytes(all.take(i as int)).push(
            vstd::bytes::spec_u64_to_le_bytes(all[i as int] as u64),
        ));
        i += 1;
    }
    assert(all.take(9) =~= all);
    h.finish() as i64
}

/// Weights, stars and bursts do not change the fingerprint.
pub proof fn fingerprint_follows_curves_only(
    c: ConfigView,
    weights: ScoreWeights,
    stars: MetricView,
    dedup: DedupParams,
)
    ensures
        ({
            let metric = MetricView {
                star_mode: stars.star_mode,
                star_five_pct: stars.star_five_pct,
                star_four_pct: stars.star_four_pct,
                star_three_pct: stars.star_three_pct,
                star_two_pct: stars.star_two_pct,
                rating_5: stars.rating_5,
                rating_4: stars.rating_4,
                rating_3: stars.rating_3,
                rating_2: stars.rating_2,
                ..c.metric
            };
            fingerprint_of(curve_values(ConfigView { weights, metric, dedup })) == fingerprint_of(
                curve_values(c),
            )
        }),
{
}

/// How bursts are handled: as the settings say, but for a number of frames given by hand.
pub open spec fn dedup_with(keep_override: Option<usize>, d: DedupParams) -> DedupParams {
    match keep_override {
        Some(k) => DedupParams { keep_k: k, ..d },
        None => d,
    }
}

/// How bursts are handled: as the settings say, but for a number of frames given by hand.
pub fn effective_dedup(keep_override: Option<usize>, c: &ScoreConfig) -> (r: DedupParams)
    ensures
        r == dedup_with(keep_override, c.dedup),
{
    match keep_override {
        Some(k) => DedupParams { keep_k: k, ..c.dedup },
        None => c.dedup,
    }
}

/// Settings for the scene `portrait`.
pub const PORTRAIT: &'static str = "\
    # 人像 / 漫展 / 棚拍：等同于内置默认值\n\
    [weights]\n\
    sharpness = 0.30\n\
    exposure = 0.25\n\
    noise = 0.15\n\
    composition = 0.15\n\
    aesthetic = 0.15\n";

/// Settings for the scene `stage`.
pub const STAGE: &'static str = "\
    # 舞台演出 / 暗厅 / live：暗侧容差放宽到 -2 档\n\
    [weights]\n\
    sharpness = 0.30\n\
    exposure = 0.20\n\
    noise = 0.15\n\
    composition = 0.20\n\
    aesthetic = 0.15\n\
    \n\
    [metric]\n\
    exposure_ev_full_lo = 2.0\n\
    exposure_ev_lo = 5.0\n";

/// Settings for the scene `highkey`.
pub const HIGHKEY: &'static str = "\
    # 白背景 / 白裙 / 雪景：目标亮度 150，亮侧容差放宽到 +3 档\n\
    [weights]\n\
    sharpness = 0.30\n\
    exposure = 0.25\n\
    noise = 0.15\n\
    composition = 0.15\n\
    aesthetic = 0.15\n\
    \n\
    [metric]\n\
    exposure_target = 150.0\n\
    exposure_ev_full_hi = 2.0\n\
    exposure_ev_hi = 3.0\n";

/// Settings for the scene `sports`.
pub const SPORTS: &'static str = "\
    # 运动 / 打鸟 / 飞机：清晰度优先且判定更严格，关闭主体感知曝光\n\
    [weights]\n\
    sharpness = 0.45\n\
    exposure = 0.20\n\
    noise = 0.15\n\
    composition = 0.05\n\
    aesthetic = 0.15\n\
    \n\
    [metric]\n\
    sharpness_k = 1000000.0\n\
    exposure_subject_blend = 0.0\n";

/// Settings for the scene `lowlight`.
pub const LOWLIGHT: &'static str = "\
    # 夜景 / 暗光室内：目标亮度 110，暗侧容差 -5 档，噪点更宽容\n\
    [weights]\n\
    sharpness = 0.30\n\
    exposure = 0.20\n\
    noise = 0.15\n\
    composition = 0.15\n\
    aesthetic = 0.20\n\
    \n\
    [metric]\n\
    noise_k0 = 4.5\n\
    exposure_target = 110.0\n\
    exposure_ev_lo = 5.0\n";

/// The names of the scenes that settings come with.
pub fn preset_names() -> (r: Vec<&'static str>)
    ensures
        r.len() == 5,
        r[0]@ == "portrait"@,
        r[1]@ == "stage"@,
        r[2]@ == "highkey"@,
        r[3]@ == "sports"@,
        r[4]@ == "lowlight"@,
{
    vec!["portrait", "stage", "highkey", "sports", "lowlight"]
}

/// The settings text of a scene.
pub open spec fn preset_text(name: Seq<char>) -> Option<Seq<char>> {
    if name == "portrait"@ {
        Some(PORTRAIT@)
    } else if name == "stage"@ {
        Some(STAGE@)
    } else if name == "highkey"@ {
        Some(HIGHKEY@)
    } else if name == "sports"@ {
        Some(SPORTS@)
    } else if name == "lowlight"@ {
        Some(LOWLIGHT@)
    } else {
        None
    }
}

/// The settings text of a scene, by its name.
pub fn preset(name: &str) -> (r: Option<&'static str>)
    ensures
        r is Some == preset_text(name@) is Some,
        r is Some ==> r->0@ == preset_text(name@)->0,
{
    if same_text(name, "portrait") {
        Some(PORTRAIT)
    } else if same_text(name, "stage") {
        Some(STAGE)
    } else if same_text(name, "highkey") {
        Some(HIGHKEY)
    } else if same_text(name, "sports") {
        Some(SPORTS)
    } else if same_text(name, "lowlight") {
        Some(LOWLIGHT)
    } else {
        None
    }
}

/// Settings are accepted exactly where the weights come to one, give or take a twentieth, the
/// tolerances are not negative and end before the marks do, the weight of the subject is a share, the
/// star mode is known, and the shares of the stars do not go down. A reason to refuse them is always a
/// true one.
pub proof fn settings_are_accepted_where_nothing_is_wrong(c: ConfigView)
    ensures
        ({
            let (w, m) = (c.weights, c.metric);
            let sum = w.sharpness + w.exposure + w.noise + w.composition + w.aesthetic;
            let mode = lowered(m.star_mode);
            let sum_ok = 950_000 <= sum <= 1_050_000;
            let bands_ok = m.exposure_ev_full_lo >= 0 && m.exposure_ev_full_hi >= 0;
            let dark_ok = m.exposure_ev_lo > m.exposure_ev_full_lo;
            let bright_ok = m.exposure_ev_hi > m.exposure_ev_full_hi;
            let blend_ok = 0 <= m.exposure_subject_blend <= 1_000_000;
            let mode_ok = mode == "relative"@ || mode == "absolute"@;
            let stars_ok = m.star_five_pct <= m.star_four_pct && m.star_four_pct <= m.star_three_pct
                && m.star_three_pct <= m.star_two_pct;
            let p = config_problem(c);
            &&& p is None <==> sum_ok && bands_ok && dark_ok && bright_ok && blend_ok && mode_ok
                && stars_ok
            &&& p == Some(ConfigError::WeightSum) <==> !sum_ok
            &&& p == Some(ConfigError::NegativeBand) ==> !bands_ok
            &&& p == Some(ConfigError::DarkBand) ==> !dark_ok
            &&& p == Some(ConfigError::BrightBand) ==> !bright_ok
            &&& p == Some(ConfigError::SubjectBlend) ==> !blend_ok
            &&& p == Some(ConfigError::StarMode) ==> !mode_ok
            &&& p == Some(ConfigError::StarOrder) ==> !stars_ok
        }),
{
}

/// The fingerprint looks at every setting of the curves: two settings are hashed from the same values
/// exactly where they agree in all of them.
pub proof fn every_curve_setting_is_hashed(c: ConfigView, d: ConfigView)
    ensures
        curve_values(c) == curve_values(d) <==> {
            &&& c.metric.sharpness_k == d.metric.sharpness_k
            &&& c.metric.noise_k0 == d.metric.noise_k0
            &&& c.metric.exposure_target == d.metric.exposure_target
            &&& c.metric.exposure_ev_full_lo == d.metric.exposure_ev_full_lo
            &&& c.metric.exposure_ev_full_hi == d.metric.exposure_ev_full_hi
            &&& c.metric.exposure_ev_lo == d.metric.exposure_ev_lo
            &&& c.metric.exposure_ev_hi == d.metric.exposure_ev_hi
            &&& c.metric.exposure_subject_blend == d.metric.exposure_subject_blend
            &&& c.metric.exposure_suggest_cap == d.metric.exposure_suggest_cap
        },
{
    let (a, b) = (curve_values(c), curve_values(d));
    if a == b {
        assert(a[0] == b[0] && a[1] == b[1] && a[2] == b[2] && a[3] == b[3] && a[4] == b[4]);
        assert(a[5] == b[5] && a[6] == b[6] && a[7] == b[7] && a[8] == b[8]);
    }
}

/// A number of frames given by hand stands in for that of the settings; nothing else changes.
pub proof fn a_number_by_hand_changes_nothing_else(k: usize, d: DedupParams)
    ensures
        dedup_with(None, d) == d,
        dedup_with(Some(k), d).keep_k == k,
        dedup_with(Some(k), d).gap_secs == d.gap_secs,
        dedup_with(Some(k), d).dhash_threshold == d.dhash_threshold,
        dedup_with(Some(k), d).adaptive_keep == d.adaptive_keep,
        dedup_with(Some(k), d).pose_cluster_threshold == d.pose_cluster_threshold,
        dedup_with(Some(k), d).burst_group_cap == d.burst_group_cap,
{
}

/// What is said of a reason to refuse settings names what is wrong.
pub proof fn reasons_name_what_is_wrong()
    ensures
        stands_in(problem_text(ConfigError::WeightSum), "权重"@),
        stands_in(problem_text(ConfigError::NegativeBand), "容差"@),
        stands_in(problem_text(ConfigError::NegativeBand), "负"@),
        stands_in(problem_text(ConfigError::DarkBand), "exposure_ev_lo"@),
        stands_in(problem_text(ConfigError::DarkBand), "exposure_ev_full_lo"@),
        stands_in(problem_text(ConfigError::BrightBand), "exposure_ev_hi"@),
        stands_in(problem_text(ConfigError::BrightBand), "exposure_ev_full_hi"@),
        stands_in(problem_text(ConfigError::SubjectBlend), "exposure_subject_blend"@),
        stands_in(problem_text(ConfigError::StarMode), "star_mode"@),
        stands_in(problem_text(ConfigError::StarOrder), "百分位"@),
{
    reveal_strlit("权重之和应约为 1.0");
    reveal_strlit("权重");
    assert(problem_text(ConfigError::WeightSum).subrange(0, 2) =~= "权重"@);
    assert(stands_at(problem_text(ConfigError::WeightSum), "权重"@, 0));
    reveal_strlit("曝光满分容差不能为负");
    reveal_strlit("容差");
    assert(problem_text(ConfigError::NegativeBand).subrange(4, 6) =~= "容差"@);
    assert(stands_at(problem_text(ConfigError::NegativeBand), "容差"@, 4));
    reveal_strlit("曝光满分容差不能为负");
    reveal_strlit("负");
    assert(problem_text(ConfigError::NegativeBand).subrange(9, 10) =~= "负"@);
    assert(stands_at(problem_text(ConfigError::NegativeBand), "负"@, 9));
    reveal_strlit("exposure_ev_lo 必须大于 exposure_ev_full_lo");
    reveal_strlit("exposure_ev_lo");
    assert(problem_text(ConfigError::DarkBand).subrange(0, 14) =~= "exposure_ev_lo"@);
    assert(stands_at(problem_text(ConfigError::DarkBand), "exposure_ev_lo"@, 0));
    reveal_strlit("exposure_ev_lo 必须大于 exposure_ev_full_lo");
    reveal_strlit("exposure_ev_full_lo");
    assert(problem_text(ConfigError::DarkBand).subrange(20, 39) =~= "exposure_ev_full_lo"@);
    assert(stands_at(problem_text(ConfigError::DarkBand), "exposure_ev_full_lo"@, 20));
    reveal_strlit("exposure_ev_hi 必须大于 exposure_ev_full_hi");
    reveal_strlit("exposure_ev_hi");
    assert(problem_text(ConfigError::BrightBand).subrange(0, 14) =~= "exposure_ev_hi"@);
    assert(stands_at(problem_text(ConfigError::BrightBand), "exposure_ev_hi"@, 0));
    reveal_strlit("exposure_ev_hi 必须大于 exposure_ev_full_hi");
    reveal_strlit("exposure_ev_full_hi");
    assert(problem_text(ConfigError::BrightBand).subrange(20, 39) =~= "exposure_ev_full_hi"@);
    assert(stands_at(problem_text(ConfigError::BrightBand), "exposure_ev_full_hi"@, 20));
    reveal_strlit("exposure_subject_blend 应在 0~1 之间");
    reveal_strlit("exposure_subject_blend");
    assert(problem_text(ConfigError::SubjectBlend).subrange(0, 22) =~= "exposure_subject_blend"@);
    assert(stands_at(problem_text(ConfigError::SubjectBlend), "exposure_subject_blend"@, 0));
    reveal_strlit("star_mode 只能是 relative 或 absolute");
    reveal_strlit("star_mode");
    assert(problem_text(ConfigError::StarMode).subrange(0, 9) =~= "star_mode"@);
    assert(stands_at(problem_text(ConfigError::StarMode), "star_mode"@, 0));
    reveal_strlit("星级百分位必须依次不减");
    reveal_strlit("百分位");
    assert(problem_text(ConfigError::StarOrder).subrange(2, 5) =~= "百分位"@);
    assert(stands_at(problem_text(ConfigError::StarOrder), "百分位"@, 2));
}

/// What applies without a settings file: sharpness counts for three tenths, exposure for a quarter, and
/// noise, composition and aesthetics share the rest evenly; full marks within one stop of middle gray, none
/// from four stops below and two above; corrections of up to two stops; five stars for the best tenth,
/// then four up to 30, three up to 65 and two up to 90 percent, or by totals of 75, 60, 45 and 30; bursts
/// with pauses of up to two seconds, ten bits of a hash, three frames of a unit, a quarter of a box for a
/// pose, and 20 frames of a burst.
pub proof fn settings_without_a_file()
    ensures
        ({
            let (w, m, d) = (default_weights(), default_metric(), default_dedup());
            &&& 10 * w.sharpness == 3 * 1_000_000 && 4 * w.exposure == 1_000_000
            &&& w.noise == w.composition && w.composition == w.aesthetic
            &&& w.sharpness + w.exposure + w.noise + w.composition + w.aesthetic == 1_000_000
            &&& m.sharpness_k == 800_000 * 1_000_000 && m.noise_k0 == 3 * 1_000_000
            &&& m.exposure_target == 128 * 1_000_000
            &&& m.exposure_ev_full_lo == 1_000_000 && m.exposure_ev_full_hi == 1_000_000
            &&& m.exposure_ev_lo == 4 * 1_000_000 && m.exposure_ev_hi == 2 * 1_000_000
            &&& 2 * m.exposure_subject_blend == 1_000_000 && m.exposure_suggest_cap == 2 * 1_000_000
            &&& m.star_mode == "relative"@
            &&& m.star_five_pct == 10 * 1_000_000 && m.star_four_pct == 30 * 1_000_000
            &&& m.star_three_pct == 65 * 1_000_000 && m.star_two_pct == 90 * 1_000_000
            &&& m.rating_5 == 75 * 1_000_000 && m.rating_4 == 60 * 1_000_000
            &&& m.rating_3 == 45 * 1_000_000 && m.rating_2 == 30 * 1_000_000
            &&& d.gap_secs == 2 * 1_000_000 && d.dhash_threshold == 10 && d.keep_k == 3
            &&& d.adaptive_keep && 4 * d.pose_cluster_threshold == 1_000_000 && d.burst_group_cap == 20
        }),
{
}

} // verus!
