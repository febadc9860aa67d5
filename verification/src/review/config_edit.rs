//! Settings on the review page: which can be changed, and how a settings file is rewritten.
use crate::config::{check_config, config_problem, default_config, ConfigError, ConfigView, MetricView, ScoreConfig, ScoreWeights};
use crate::fixed::{decimal_literal, shortest_decimal, shortest_reads_back, written};
use crate::pipeline::{bool_spec, bool_text};
use crate::text::{decimal, decimal_text};
use vstd::prelude::*;

verus! {

/// The settings that can be changed on the review page.
#[derive(Debug)]
pub struct ConfigValues {
    pub w_sharpness: i64,
    pub w_exposure: i64,
    pub w_noise: i64,
    pub w_composition: i64,
    pub w_aesthetic: i64,
    pub star_mode: String,
    pub star_five_pct: i64,
    pub star_four_pct: i64,
    pub star_three_pct: i64,
    pub star_two_pct: i64,
    pub rating_5: i64,
    pub rating_4: i64,
    pub rating_3: i64,
    pub rating_2: i64,
    pub exposure_target: i64,
    pub exposure_ev_full_lo: i64,
    pub exposure_ev_full_hi: i64,
    pub exposure_ev_lo: i64,
    pub exposure_ev_hi: i64,
    pub exposure_subject_blend: i64,
    pub dedup_keep_k: i64,
    pub dedup_adaptive_keep: bool,
    pub dedup_pose_cluster_threshold: i64,
    pub dedup_burst_group_cap: i64,
}

/// What `ConfigValues` holds.
pub struct ValuesView {
    pub w_sharpness: i64,
    pub w_exposure: i64,
    pub w_noise: i64,
    pub w_composition: i64,
    pub w_aesthetic: i64,
    pub star_mode: Seq<char>,
    pub star_five_pct: i64,
    pub star_four_pct: i64,
    pub star_three_pct: i64,
    pub star_two_pct: i64,
    pub rating_5: i64,
    pub rating_4: i64,
    pub rating_3: i64,
    pub rating_2: i64,
    pub exposure_target: i64,
    pub exposure_ev_full_lo: i64,
    pub exposure_ev_full_hi: i64,
    pub exposure_ev_lo: i64,
    pub exposure_ev_hi: i64,
    pub exposure_subject_blend: i64,
    pub dedup_keep_k: i64,
    pub dedup_adaptive_keep: bool,
    pub dedup_pose_cluster_threshold: i64,
    pub dedup_burst_group_cap: i64,
}

impl View for ConfigValues {
    type V = ValuesView;

    open spec fn view(&self) -> ValuesView {
        ValuesView {
            w_sharpness: self.w_sharpness,
            w_exposure: self.w_exposure,
            w_noise: self.w_noise,
            w_composition: self.w_composition,
            w_aesthetic: self.w_aesthetic,
            star_mode: self.star_mode@,
            star_five_pct: self.star_five_pct,
            star_four_pct: self.star_four_pct,
            star_three_pct: self.star_three_pct,
            star_two_pct: self.star_two_pct,
            rating_5: self.rating_5,
            rating_4: self.rating_4,
            rating_3: self.rating_3,
            rating_2: self.rating_2,
            exposure_target: self.exposure_target,
            exposure_ev_full_lo: self.exposure_ev_full_lo,
            exposure_ev_full_hi: self.exposure_ev_full_hi,
            exposure_ev_lo: self.exposure_ev_lo,
            exposure_ev_hi: self.exposure_ev_hi,
            exposure_subject_blend: self.exposure_subject_blend,
            dedup_keep_k: self.dedup_keep_k,
            dedup_adaptive_keep: self.dedup_adaptive_keep,
            dedup_pose_cluster_threshold: self.dedup_pose_cluster_threshold,
            dedup_burst_group_cap: self.dedup_burst_group_cap,
        }
    }
}

/// A whole number in fixed point; numbers too large for it stay at nine million millions.
pub open spec fn whole(n: usize) -> i64 {
    if n <= 9_000_000_000_000 {
        (n * 1_000_000) as i64
    } else {
        9_000_000_000_000_000_000
    }
}

/// A whole number in fixed point.
fn to_whole(n: usize) -> (r: i64)
    ensures
        r == whole(n),
{
    if n as u128 <= 9_000_000_000_000 {
        (n as i64) * 1_000_000
    } else {
        9_000_000_000_000_000_000
    }
}

/// The part of a number before the point; zero for a negative one.
pub open spec fn count_of(v: i64) -> nat {
    if v > 0 {
        (v / 1_000_000) as nat
    } else {
        0
    }
}

/// The part of a number before the point; zero for a negative one.
fn to_count(v: i64) -> (r: u64)
    ensures
        r == count_of(v),
{
    if v > 0 {
        (v / 1_000_000) as u64
    } else {
        0
    }
}

/// The values of settings.
pub open spec fn values_of(c: ConfigView) -> ValuesView {
    ValuesView {
        w_sharpness: c.weights.sharpness,
        w_exposure: c.weights.exposure,
        w_noise: c.weights.noise,
        w_composition: c.weights.composition,
        w_aesthetic: c.weights.aesthetic,
        star_mode: c.metric.star_mode,
        star_five_pct: c.metric.star_five_pct,
        star_four_pct: c.metric.star_four_pct,
        star_three_pct: c.metric.star_three_pct,
        star_two_pct: c.metric.star_two_pct,
        rating_5: c.metric.rating_5,
        rating_4: c.metric.rating_4,
        rating_3: c.metric.rating_3,
        rating_2: c.metric.rating_2,
        exposure_target: c.metric.exposure_target,
        exposure_ev_full_lo: c.metric.exposure_ev_full_lo,
        exposure_ev_full_hi: c.metric.exposure_ev_full_hi,
        exposure_ev_lo: c.metric.exposure_ev_lo,
        exposure_ev_hi: c.metric.exposure_ev_hi,
        exposure_subject_blend: c.metric.exposure_subject_blend,
        dedup_keep_k: whole(c.dedup.keep_k),
        dedup_adaptive_keep: c.dedup.adaptive_keep,
        dedup_pose_cluster_threshold: c.dedup.pose_cluster_threshold,
        dedup_burst_group_cap: whole(c.dedup.burst_group_cap),
    }
}

impl ConfigValues {
    /// The values of settings.
    pub fn from_cfg(c: &ScoreConfig) -> (r: Self)
        ensures
            r@ == values_of(c@),
    {
        ConfigValues {
            w_sharpness: c.weights.sharpness,
            w_exposure: c.weights.exposure,
            w_noise: c.weights.noise,
            w_composition: c.weights.composition,
            w_aesthetic: c.weights.aesthetic,
            star_mode: c.metric.star_mode.clone(),
            star_five_pct: c.metric.star_five_pct,
            star_four_pct: c.metric.star_four_pct,
            star_three_pct: c.metric.star_three_pct,
            star_two_pct: c.metric.star_two_pct,
            rating_5: c.metric.rating_5,
            rating_4: c.metric.rating_4,
            rating_3: c.metric.rating_3,
            rating_2: c.metric.rating_2,
            exposure_target: c.metric.exposure_target,
            exposure_ev_full_lo: c.metric.exposure_ev_full_lo,
            exposure_ev_full_hi: c.metric.exposure_ev_full_hi,
            exposure_ev_lo: c.metric.exposure_ev_lo,
            exposure_ev_hi: c.metric.exposure_ev_hi,
            exposure_subject_blend: c.metric.exposure_subject_blend,
            dedup_keep_k: to_whole(c.dedup.keep_k),
            dedup_adaptive_keep: c.dedup.adaptive_keep,
            dedup_pose_cluster_threshold: c.dedup.pose_cluster_threshold,
            dedup_burst_group_cap: to_whole(c.dedup.burst_group_cap),
        }
    }
}

/// Whether a settings text has the named table; an error where it cannot be read.
pub uninterp spec fn toml_has_table(text: Seq<char>, table: Seq<char>) -> Result<bool, Seq<char>>;

/// Reads a settings text with `toml_edit::DocumentMut::from_str` and looks for a table. The outcome,
/// the words of the error included, is named `toml_has_table`.
#[verifier::external_body]
fn has_table(text: &str, table: &str) -> (r: Result<bool, String>)
    ensures
        match r {
            Ok(b) => toml_has_table(text@, table@) == Ok::<bool, Seq<char>>(b),
            Err(e) => toml_has_table(text@, table@) == Err::<bool, Seq<char>>(e@),
        },
{
    let doc = text.parse::<toml_edit::DocumentMut>().map_err(|e| e.to_string())?;
    Ok(doc.get(table).map(|t| t.is_table()).unwrap_or_default())
}

/// A settings text with an empty table of the given name.
pub uninterp spec fn toml_with_table(text: Seq<char>, table: Seq<char>) -> Result<
    Seq<char>,
    Seq<char>,
>;

/// Puts an empty table, made by `toml_edit::table`, into a settings text, in place of what had its
/// name. The new text, or the words of the error, is named `toml_with_table`.
#[verifier::external_body]
fn add_table(text: &str, table: &str) -> (r: Result<String, String>)
    ensures
        match r {
            Ok(s) => toml_with_table(text@, table@) == Ok::<Seq<char>, Seq<char>>(s@),
            Err(e) => toml_with_table(text@, table@) == Err::<Seq<char>, Seq<char>>(e@),
        },
{
    let mut doc = text.parse::<toml_edit::DocumentMut>().map_err(|e| e.to_string())?;
    doc[table] = toml_edit::table();
    Ok(doc.to_string())
}

/// A settings text in which a key of a table has the value that `literal` writes.
pub uninterp spec fn toml_with_literal(
    text: Seq<char>,
    table: Seq<char>,
    key: Seq<char>,
    literal: Seq<char>,
) -> Result<Seq<char>, Seq<char>>;

/// Gives a key of a table of a settings text the value that `toml_edit::Value::from_str` reads from
/// `literal`; a text without the table stays as it is. The new text, or the words of the error, is
/// named `toml_with_literal`.
#[verifier::external_body]
fn set_literal(text: &str, table: &str, key: &str, literal: &str) -> (r: Result<String, String>)
    ensures
        match r {
            Ok(s) => toml_with_literal(text@, table@, key@, literal@) == Ok::<Seq<char>, Seq<char>>(
                s@,
            ),
            Err(e) => toml_with_literal(text@, table@, key@, literal@) == Err::<
                Seq<char>,
                Seq<char>,
            >(e@),
        },
{
    let mut doc = text.parse::<toml_edit::DocumentMut>().map_err(|e| e.to_string())?;
    let value = literal.parse::<toml_edit::Value>().map_err(|e| e.to_string())?;
    if let Some(t) = doc[table].as_table_mut() {
        t[key] = toml_edit::Item::Value(value);
    }
    Ok(doc.to_string())
}

/// A settings text in which a key of a table has the given string as its value.
pub uninterp spec fn toml_with_string(
    text: Seq<char>,
    table: Seq<char>,
    key: Seq<char>,
    value: Seq<char>,
) -> Result<Seq<char>, Seq<char>>;

/// Gives a key of a table of a settings text a string, by `toml_edit::value`; a text without the
/// table stays as it is. The new text, or the words of the error, is named `toml_with_string`.
#[verifier::external_body]
fn set_string(text: &str, table: &str, key: &str, value: &str) -> (r: Result<String, String>)
    ensures
        match r {
            Ok(s) => toml_with_string(text@, table@, key@, value@) == Ok::<Seq<char>, Seq<char>>(
                s@,
            ),
            Err(e) => toml_with_string(text@, table@, key@, value@) == Err::<
                Seq<char>,
                Seq<char>,
            >(e@),
        },
{
    let mut doc = text.parse::<toml_edit::DocumentMut>().map_err(|e| e.to_string())?;
    if let Some(t) = doc[table].as_table_mut() {
        t[key] = toml_edit::value(value);
    }
    Ok(doc.to_string())
}

/// One value that is set: table, key, text of the value, and whether that is a string.
pub struct EditView {
    pub table: Seq<char>,
    pub key: Seq<char>,
    pub value: Seq<char>,
    pub quoted: bool,
}

/// One value that is set.
struct Edit {
    table: &'static str,
    key: &'static str,
    value: String,
    quoted: bool,
}

/// What an `Edit` holds.
spec fn edit_view(e: Edit) -> EditView {
    EditView { table: e.table@, key: e.key@, value: e.value@, quoted: e.quoted }
}

/// A value that is no string.
pub open spec fn plain(table: Seq<char>, key: Seq<char>, value: Seq<char>) -> EditView {
    EditView { table, key, value, quoted: false }
}

/// The values that are set, in their order.
pub open spec fn edits_of(v: ValuesView) -> Seq<EditView> {
    seq![
        plain("weights"@, "sharpness"@, shortest_decimal(v.w_sharpness as int)),
        plain("weights"@, "exposure"@, shortest_decimal(v.w_exposure as int)),
        plain("weights"@, "noise"@, shortest_decimal(v.w_noise as int)),
        plain("weights"@, "composition"@, shortest_decimal(v.w_composition as int)),
        plain("weights"@, "aesthetic"@, shortest_decimal(v.w_aesthetic as int)),
        EditView { table: "metric"@, key: "star_mode"@, value: v.star_mode, quoted: true },
        plain("metric"@, "star_five_pct"@, shortest_decimal(v.star_five_pct as int)),
        plain("metric"@, "star_four_pct"@, shortest_decimal(v.star_four_pct as int)),
        plain("metric"@, "star_three_pct"@, shortest_decimal(v.star_three_pct as int)),
        plain("metric"@, "star_two_pct"@, shortest_decimal(v.star_two_pct as int)),
        plain("metric"@, "rating_5"@, shortest_decimal(v.rating_5 as int)),
        plain("metric"@, "rating_4"@, shortest_decimal(v.rating_4 as int)),
        plain("metric"@, "rating_3"@, shortest_decimal(v.rating_3 as int)),
        plain("metric"@, "rating_2"@, shortest_decimal(v.rating_2 as int)),
        plain("metric"@, "exposure_target"@, shortest_decimal(v.exposure_target as int)),
        plain("metric"@, "exposure_ev_full_lo"@, shortest_decimal(v.exposure_ev_full_lo as int)),
        plain("metric"@, "exposure_ev_full_hi"@, shortest_decimal(v.exposure_ev_full_hi as int)),
        plain("metric"@, "exposure_ev_lo"@, shortest_decimal(v.exposure_ev_lo as int)),
        plain("metric"@, "exposure_ev_hi"@, shortest_decimal(v.exposure_ev_hi as int)),
        plain("metric"@, "exposure_subject_blend"@, shortest_decimal(v.exposure_subject_blend as int)),
        plain("dedup"@, "keep_k"@, decimal(count_of(v.dedup_keep_k))),
        plain("dedup"@, "adaptive_keep"@, bool_spec(v.dedup_adaptive_keep)),
        plain("dedup"@, "pose_cluster_threshold"@, shortest_decimal(v.dedup_pose_cluster_threshold as int)),
        plain("dedup"@, "burst_group_cap"@, decimal(count_of(v.dedup_burst_group_cap))),
    ]
}

/// The values that are set, in their order.
fn edit_list(v: &ConfigValues) -> (r: Vec<Edit>)
    ensures
        r@.map_values(|e: Edit| edit_view(e)) == edits_of(v@),
{
    let mut out: Vec<Edit> = Vec::new();
    out.push(Edit { table: "weights", key: "sharpness", value: decimal_literal(v.w_sharpness), quoted: false });
    out.push(Edit { table: "weights", key: "exposure", value: decimal_literal(v.w_exposure), quoted: false });
    out.push(Edit { table: "weights", key: "noise", value: decimal_literal(v.w_noise), quoted: false });
    out.push(Edit { table: "weights", key: "composition", value: decimal_literal(v.w_composition), quoted: false });
    out.push(Edit { table: "weights", key: "aesthetic", value: decimal_literal(v.w_aesthetic), quoted: false });
    out.push(Edit { table: "metric", key: "star_mode", value: v.star_mode.clone(), quoted: true });
    out.push(Edit { table: "metric", key: "star_five_pct", value: decimal_literal(v.star_five_pct), quoted: false });
    out.push(Edit { table: "metric", key: "star_four_pct", value: decimal_literal(v.star_four_pct), quoted: false });
    out.push(Edit { table: "metric", key: "star_three_pct", value: decimal_literal(v.star_three_pct), quoted: false });
    out.push(Edit { table: "metric", key: "star_two_pct", value: decimal_literal(v.star_two_pct), quoted: false });
    out.push(Edit { table: "metric", key: "rating_5", value: decimal_literal(v.rating_5), quoted: false });
    out.push(Edit { table: "metric", key: "rating_4", value: decimal_literal(v.rating_4), quoted: false });
    out.push(Edit { table: "metric", key: "rating_3", value: decimal_literal(v.rating_3), quoted: false });
    out.push(Edit { table: "metric", key: "rating_2", value: decimal_literal(v.rating_2), quoted: false });
    out.push(Edit { table: "metric", key: "exposure_target", value: decimal_literal(v.exposure_target), quoted: false });
    out.push(Edit { table: "metric", key: "exposure_ev_full_lo", value: decimal_literal(v.exposure_ev_full_lo), quoted: false });
    out.push(Edit { table: "metric", key: "exposure_ev_full_hi", value: decimal_literal(v.exposure_ev_full_hi), quoted: false });
    out.push(Edit { table: "metric", key: "exposure_ev_lo", value: decimal_literal(v.exposure_ev_lo), quoted: false });
    out.push(Edit { table: "metric", key: "exposure_ev_hi", value: decimal_literal(v.exposure_ev_hi), quoted: false });
    out.push(Edit { table: "metric", key: "exposure_subject_blend", value: decimal_literal(v.exposure_subject_blend), quoted: false });
    out.push(Edit { table: "dedup", key: "keep_k", value: decimal_text(to_count(v.dedup_keep_k)), quoted: false });
    out.push(Edit { table: "dedup", key: "adaptive_keep", value: bool_text(v.dedup_adaptive_keep), quoted: false });
    out.push(Edit { table: "dedup", key: "pose_cluster_threshold", value: decimal_literal(v.dedup_pose_cluster_threshold), quoted: false });
    out.push(Edit { table: "dedup", key: "burst_group_cap", value: decimal_text(to_count(v.dedup_burst_group_cap)), quoted: false });
    assert(out@.map_values(|e: Edit| edit_view(e)) =~= edits_of(v@));
    out
}

/// A settings text with one value set.
pub open spec fn one_edit(text: Seq<char>, e: EditView) -> Result<Seq<char>, Seq<char>> {
    if e.quoted {
        toml_with_string(text, e.table, e.key, e.value)
    } else {
        toml_with_literal(text, e.table, e.key, e.value)
    }
}

/// A settings text with the first `k` values set.
pub open spec fn after_edits(text: Seq<char>, edits: Seq<EditView>, k: int) -> Result<
    Seq<char>,
    Seq<char>,
>
    decreases k,
{
    if k <= 0 {
        Ok(text)
    } else {
        match after_edits(text, edits, k - 1) {
            Ok(t) => one_edit(t, edits[k - 1]),
            Err(e) => Err(e),
        }
    }
}

/// A settings text that has the named table.
pub open spec fn with_table(text: Seq<char>, table: Seq<char>) -> Result<Seq<char>, Seq<char>> {
    match toml_has_table(text, table) {
        Ok(b) => if b {
            Ok(text)
        } else {
            toml_with_table(text, table)
        },
        Err(e) => Err(e),
    }
}

/// A settings text that has the three tables of the settings.
pub open spec fn with_tables(text: Seq<char>) -> Result<Seq<char>, Seq<char>> {
    match with_table(text, "weights"@) {
        Ok(a) => match with_table(a, "metric"@) {
            Ok(b) => with_table(b, "dedup"@),
            Err(e) => Err(e),
        },
        Err(e) => Err(e),
    }
}

/// A settings text with all values of the review page set.
pub open spec fn rewritten(text: Seq<char>, v: ValuesView) -> Result<Seq<char>, Seq<char>> {
    match with_tables(text) {
        Ok(t) => after_edits(t, edits_of(v), edits_of(v).len() as int),
        Err(e) => Err(e),
    }
}

/// `r` is the given outcome.
pub open spec fn is_outcome(r: Result<String, String>, want: Result<Seq<char>, Seq<char>>) -> bool {
    match r {
        Ok(s) => want == Ok::<Seq<char>, Seq<char>>(s@),
        Err(e) => want == Err::<Seq<char>, Seq<char>>(e@),
    }
}

/// A settings text that has the named table.
fn ensure_table(text: String, table: &str) -> (r: Result<String, String>)
    ensures
        is_outcome(r, with_table(text@, table@)),
{
    match has_table(text.as_str(), table) {
        Ok(b) => {
            if b {
                Ok(text)
            } else {
                add_table(text.as_str(), table)
            }
        },
        Err(e) => Err(e),
    }
}

/// Rewrites a settings text: tables that are missing are added, and every value of the review page
/// is set; all else, comments too, is left to the text. Whether the values make sense is not asked
/// here.
pub fn edit_config(text: &str, values: &ConfigValues) -> (r: Result<String, String>)
    ensures
        is_outcome(r, rewritten(text@, values@)),
{
    let a = match ensure_table(text.to_string(), "weights") {
        Ok(t) => t,
        Err(e) => return Err(e),
    };
    let b = match ensure_table(a, "metric") {
        Ok(t) => t,
        Err(e) => return Err(e),
    };
    let mut out = match ensure_table(b, "dedup") {
        Ok(t) => t,
        Err(e) => return Err(e),
    };
    let ghost start = out@;
    assert(with_tables(text@) == Ok::<Seq<char>, Seq<char>>(start));
    let edits = edit_list(values);
    let ghost list = edits_of(values@);
    assert(list.len() == edits.len()) by {
        assert(edits@.map_values(|e: Edit| edit_view(e)).len() == edits.len());
    }
    let mut k: usize = 0;
    while k < edits.len()
        invariant
            k <= edits.len() == list.len(),
            list == edits_of(values@),
            list == edits@.map_values(|e: Edit| edit_view(e)),
            with_tables(text@) == Ok::<Seq<char>, Seq<char>>(start),
            after_edits(start, list, k as int) == Ok::<Seq<char>, Seq<char>>(out@),
        decreases edits.len() - k,
    {
        let e = &edits[k];
        assert(list[k as int] == edit_view(edits[k as int]));
        let next = if e.quoted {
            set_string(out.as_str(), e.table, e.key, e.value.as_str())
        } else {
            set_literal(out.as_str(), e.table, e.key, e.value.as_str())
        };
        assert(is_outcome(next, one_edit(out@, list[k as int])));
        match next {
            Ok(t) => {
                out = t;
            },
            Err(err) => {
                proof {
                    errors_stay(start, list, k + 1, list.len() as int);
                }
                return Err(err);
            },
        }
        k += 1;
    }
    Ok(out)
}

/// Settings with the weights, curves and stars of the review page, and all else as it is.
pub open spec fn with_values(c: ConfigView, v: ValuesView) -> ConfigView {
    ConfigView {
        weights: ScoreWeights {
            sharpness: v.w_sharpness,
            exposure: v.w_exposure,
            noise: v.w_noise,
            composition: v.w_composition,
            aesthetic: v.w_aesthetic,
        },
        metric: MetricView {
            star_mode: v.star_mode,
            star_five_pct: v.star_five_pct,
            star_four_pct: v.star_four_pct,
            star_three_pct: v.star_three_pct,
            star_two_pct: v.star_two_pct,
            rating_5: v.rating_5,
            rating_4: v.rating_4,
            rating_3: v.rating_3,
            rating_2: v.rating_2,
            exposure_target: v.exposure_target,
            exposure_ev_full_lo: v.exposure_ev_full_lo,
            exposure_ev_full_hi: v.exposure_ev_full_hi,
            exposure_ev_lo: v.exposure_ev_lo,
            exposure_ev_hi: v.exposure_ev_hi,
            exposure_subject_blend: v.exposure_subject_blend,
            ..c.metric
        },
        dedup: c.dedup,
    }
}

/// Why the values of the review page are refused; none where they are not.
pub open spec fn values_problem(v: ValuesView) -> Option<ConfigError> {
    config_problem(with_values(default_config(), v))
}

/// Whether values are refused does not depend on the settings that the page does not show.
pub proof fn refusal_depends_on_the_values(c: ConfigView, v: ValuesView)
    ensures
        config_problem(with_values(c, v)) == values_problem(v),
{
}

/// Finds why the values of the review page are refused.
pub fn check_values(v: &ConfigValues) -> (r: Result<(), ConfigError>)
    ensures
        match values_problem(v@) {
            Some(e) => r == Err::<(), ConfigError>(e),
            None => r == Ok::<(), ConfigError>(()),
        },
{
    let mut c = ScoreConfig::default();
    c.weights.sharpness = v.w_sharpness;
    c.weights.exposure = v.w_exposure;
    c.weights.noise = v.w_noise;
    c.weights.composition = v.w_composition;
    c.weights.aesthetic = v.w_aesthetic;
    c.metric.star_mode = v.star_mode.clone();
    c.metric.star_five_pct = v.star_five_pct;
    c.metric.star_four_pct = v.star_four_pct;
    c.metric.star_three_pct = v.star_three_pct;
    c.metric.star_two_pct = v.star_two_pct;
    c.metric.rating_5 = v.rating_5;
    c.metric.rating_4 = v.rating_4;
    c.metric.rating_3 = v.rating_3;
    c.metric.rating_2 = v.rating_2;
    c.metric.exposure_target = v.exposure_target;
    c.metric.exposure_ev_full_lo = v.exposure_ev_full_lo;
    c.metric.exposure_ev_full_hi = v.exposure_ev_full_hi;
    c.metric.exposure_ev_lo = v.exposure_ev_lo;
    c.metric.exposure_ev_hi = v.exposure_ev_hi;
    c.metric.exposure_subject_blend = v.exposure_subject_blend;
    assert(c@ =~= with_values(default_config(), v@));
    check_config(&c)
}

/// Why settings are not saved.
#[derive(Debug)]
pub enum SaveError {
    /// The settings file cannot be rewritten.
    Text(String),
    /// The values are refused.
    Refused(ConfigError),
}

/// Makes the text of a settings file with the values of the review page. Values that are refused are
/// not written.
pub fn save(text: &str, values: &ConfigValues) -> (r: Result<String, SaveError>)
    ensures
        match rewritten(text@, values@) {
            Ok(t) => match values_problem(values@) {
                Some(e) => r == Err::<String, SaveError>(SaveError::Refused(e)),
                None => r is Ok && r->Ok_0@ == t,
            },
            Err(e) => r is Err && r->Err_0 is Text && r->Err_0->Text_0@ == e,
        },
{
    match edit_config(text, values) {
        Ok(t) => match check_values(values) {
            Ok(()) => Ok(t),
            Err(e) => Err(SaveError::Refused(e)),
        },
        Err(e) => Err(SaveError::Text(e)),
    }
}

/// Once a value could not be set, the error is the outcome.
proof fn errors_stay(text: Seq<char>, edits: Seq<EditView>, k: int, m: int)
    requires
        0 <= k <= m,
        after_edits(text, edits, k) is Err,
    ensures
        after_edits(text, edits, m) == after_edits(text, edits, k),
    decreases m - k,
{
    if k < m {
        errors_stay(text, edits, k, m - 1);
    }
}

/// The page shows every setting under its own name, and numbers of frames as whole numbers.
pub proof fn values_show_the_settings(c: ConfigView)
    ensures
        values_of(c).w_sharpness == c.weights.sharpness,
        values_of(c).w_exposure == c.weights.exposure,
        values_of(c).w_noise == c.weights.noise,
        values_of(c).w_composition == c.weights.composition,
        values_of(c).w_aesthetic == c.weights.aesthetic,
        values_of(c).star_mode == c.metric.star_mode,
        values_of(c).star_five_pct == c.metric.star_five_pct,
        values_of(c).star_four_pct == c.metric.star_four_pct,
        values_of(c).star_three_pct == c.metric.star_three_pct,
        values_of(c).star_two_pct == c.metric.star_two_pct,
        values_of(c).rating_5 == c.metric.rating_5,
        values_of(c).rating_4 == c.metric.rating_4,
        values_of(c).rating_3 == c.metric.rating_3,
        values_of(c).rating_2 == c.metric.rating_2,
        values_of(c).exposure_target == c.metric.exposure_target,
        values_of(c).exposure_ev_full_lo == c.metric.exposure_ev_full_lo,
        values_of(c).exposure_ev_full_hi == c.metric.exposure_ev_full_hi,
        values_of(c).exposure_ev_lo == c.metric.exposure_ev_lo,
        values_of(c).exposure_ev_hi == c.metric.exposure_ev_hi,
        values_of(c).exposure_subject_blend == c.metric.exposure_subject_blend,
        values_of(c).dedup_adaptive_keep == c.dedup.adaptive_keep,
        values_of(c).dedup_pose_cluster_threshold == c.dedup.pose_cluster_threshold,
        c.dedup.keep_k <= 9_000_000_000_000 ==> values_of(c).dedup_keep_k == 1_000_000 * c.dedup.keep_k,
        c.dedup.burst_group_cap <= 9_000_000_000_000 ==> values_of(c).dedup_burst_group_cap == 1_000_000
            * c.dedup.burst_group_cap,
        c.dedup.keep_k <= 9_000_000_000_000 ==> count_of(values_of(c).dedup_keep_k) == c.dedup.keep_k,
        c.dedup.burst_group_cap <= 9_000_000_000_000 ==> count_of(values_of(c).dedup_burst_group_cap)
            == c.dedup.burst_group_cap,
{
}

/// Checked settings hold every value of the page under its own name, and all else as it was.
pub proof fn values_are_checked_by_name(c: ConfigView, v: ValuesView)
    ensures
        with_values(c, v).weights.sharpness == v.w_sharpness,
        with_values(c, v).weights.exposure == v.w_exposure,
        with_values(c, v).weights.noise == v.w_noise,
        with_values(c, v).weights.composition == v.w_composition,
        with_values(c, v).weights.aesthetic == v.w_aesthetic,
        with_values(c, v).metric.star_mode == v.star_mode,
        with_values(c, v).metric.star_five_pct == v.star_five_pct,
        with_values(c, v).metric.star_four_pct == v.star_four_pct,
        with_values(c, v).metric.star_three_pct == v.star_three_pct,
        with_values(c, v).metric.star_two_pct == v.star_two_pct,
        with_values(c, v).metric.rating_5 == v.rating_5,
        with_values(c, v).metric.rating_4 == v.rating_4,
        with_values(c, v).metric.rating_3 == v.rating_3,
        with_values(c, v).metric.rating_2 == v.rating_2,
        with_values(c, v).metric.exposure_target == v.exposure_target,
        with_values(c, v).metric.exposure_ev_full_lo == v.exposure_ev_full_lo,
        with_values(c, v).metric.exposure_ev_full_hi == v.exposure_ev_full_hi,
        with_values(c, v).metric.exposure_ev_lo == v.exposure_ev_lo,
        with_values(c, v).metric.exposure_ev_hi == v.exposure_ev_hi,
        with_values(c, v).metric.exposure_subject_blend == v.exposure_subject_blend,
        with_values(c, v).metric.sharpness_k == c.metric.sharpness_k,
        with_values(c, v).metric.noise_k0 == c.metric.noise_k0,
        with_values(c, v).metric.exposure_suggest_cap == c.metric.exposure_suggest_cap,
        with_values(c, v).dedup == c.dedup,
{
}

/// A value of the given table and key is set to a text that writes the number `n`.
pub open spec fn sets_number(v: ValuesView, table: Seq<char>, key: Seq<char>, n: int) -> bool {
    exists|k: int|
        0 <= k < edits_of(v).len() && (#[trigger] edits_of(v)[k]).table == table && edits_of(v)[k].key
            == key && !edits_of(v)[k].quoted && written(edits_of(v)[k].value) == n
}

/// A value of the given table and key is set to the given text, in quotes or not.
pub open spec fn sets_text(v: ValuesView, table: Seq<char>, key: Seq<char>, text: Seq<char>, quoted: bool) -> bool {
    exists|k: int|
        0 <= k < edits_of(v).len() && (#[trigger] edits_of(v)[k]).table == table && edits_of(v)[k].key
            == key && edits_of(v)[k].quoted == quoted && edits_of(v)[k].value == text
}

/// Every value of the page is written under its own key, to a text that reads back as the value. No
/// other value is set.
pub proof fn every_value_is_set_under_its_key(v: ValuesView)
    ensures
        edits_of(v).len() == 24,
        sets_number(v, "weights"@, "sharpness"@, v.w_sharpness as int),
        sets_number(v, "weights"@, "exposure"@, v.w_exposure as int),
        sets_number(v, "weights"@, "noise"@, v.w_noise as int),
        sets_number(v, "weights"@, "composition"@, v.w_composition as int),
        sets_number(v, "weights"@, "aesthetic"@, v.w_aesthetic as int),
        sets_number(v, "metric"@, "star_five_pct"@, v.star_five_pct as int),
        sets_number(v, "metric"@, "star_four_pct"@, v.star_four_pct as int),
        sets_number(v, "metric"@, "star_three_pct"@, v.star_three_pct as int),
        sets_number(v, "metric"@, "star_two_pct"@, v.star_two_pct as int),
        sets_number(v, "metric"@, "rating_5"@, v.rating_5 as int),
        sets_number(v, "metric"@, "rating_4"@, v.rating_4 as int),
        sets_number(v, "metric"@, "rating_3"@, v.rating_3 as int),
        sets_number(v, "metric"@, "rating_2"@, v.rating_2 as int),
        sets_number(v, "metric"@, "exposure_target"@, v.exposure_target as int),
        sets_number(v, "metric"@, "exposure_ev_full_lo"@, v.exposure_ev_full_lo as int),
        sets_number(v, "metric"@, "exposure_ev_full_hi"@, v.exposure_ev_full_hi as int),
        sets_number(v, "metric"@, "exposure_ev_lo"@, v.exposure_ev_lo as int),
        sets_number(v, "metric"@, "exposure_ev_hi"@, v.exposure_ev_hi as int),
        sets_number(v, "metric"@, "exposure_subject_blend"@, v.exposure_subject_blend as int),
        sets_number(v, "dedup"@, "pose_cluster_threshold"@, v.dedup_pose_cluster_threshold as int),
        sets_text(v, "metric"@, "star_mode"@, v.star_mode, true),
        sets_text(v, "dedup"@, "adaptive_keep"@, bool_spec(v.dedup_adaptive_keep), false),
        sets_text(v, "dedup"@, "keep_k"@, decimal(count_of(v.dedup_keep_k)), false),
        sets_text(v, "dedup"@, "burst_group_cap"@, decimal(count_of(v.dedup_burst_group_cap)), false),
{
    shortest_reads_back(v.w_sharpness as int);
    assert(edits_of(v)[0] == plain("weights"@, "sharpness"@, shortest_decimal(v.w_sharpness as int)));
    shortest_reads_back(v.w_exposure as int);
    assert(edits_of(v)[1] == plain("weights"@, "exposure"@, shortest_decimal(v.w_exposure as int)));
    shortest_reads_back(v.w_noise as int);
    assert(edits_of(v)[2] == plain("weights"@, "noise"@, shortest_decimal(v.w_noise as int)));
    shortest_reads_back(v.w_composition as int);
    assert(edits_of(v)[3] == plain("weights"@, "composition"@, shortest_decimal(v.w_composition as int)));
    shortest_reads_back(v.w_aesthetic as int);
    assert(edits_of(v)[4] == plain("weights"@, "aesthetic"@, shortest_decimal(v.w_aesthetic as int)));
    shortest_reads_back(v.star_five_pct as int);
    assert(edits_of(v)[6] == plain("metric"@, "star_five_pct"@, shortest_decimal(v.star_five_pct as int)));
    shortest_reads_back(v.star_four_pct as int);
    assert(edits_of(v)[7] == plain("metric"@, "star_four_pct"@, shortest_decimal(v.star_four_pct as int)));
    shortest_reads_back(v.star_three_pct as int);
    assert(edits_of(v)[8] == plain("metric"@, "star_three_pct"@, shortest_decimal(v.star_three_pct as int)));
    shortest_reads_back(v.star_two_pct as int);
    assert(edits_of(v)[9] == plain("metric"@, "star_two_pct"@, shortest_decimal(v.star_two_pct as int)));
    shortest_reads_back(v.rating_5 as int);
    assert(edits_of(v)[10] == plain("metric"@, "rating_5"@, shortest_decimal(v.rating_5 as int)));
    shortest_reads_back(v.rating_4 as int);
    assert(edits_of(v)[11] == plain("metric"@, "rating_4"@, shortest_decimal(v.rating_4 as int)));
    shortest_reads_back(v.rating_3 as int);
    assert(edits_of(v)[12] == plain("metric"@, "rating_3"@, shortest_decimal(v.rating_3 as int)));
    shortest_reads_back(v.rating_2 as int);
    assert(edits_of(v)[13] == plain("metric"@, "rating_2"@, shortest_decimal(v.rating_2 as int)));
    shortest_reads_back(v.exposure_target as int);
    assert(edits_of(v)[14] == plain("metric"@, "exposure_target"@, shortest_decimal(v.exposure_target as int)));
    shortest_reads_back(v.exposure_ev_full_lo as int);
    assert(edits_of(v)[15] == plain("metric"@, "exposure_ev_full_lo"@, shortest_decimal(v.exposure_ev_full_lo as int)));
    shortest_reads_back(v.exposure_ev_full_hi as int);
    assert(edits_of(v)[16] == plain("metric"@, "exposure_ev_full_hi"@, shortest_decimal(v.exposure_ev_full_hi as int)));
    shortest_reads_back(v.exposure_ev_lo as int);
    assert(edits_of(v)[17] == plain("metric"@, "exposure_ev_lo"@, shortest_decimal(v.exposure_ev_lo as int)));
    shortest_reads_back(v.exposure_ev_hi as int);
    assert(edits_of(v)[18] == plain("metric"@, "exposure_ev_hi"@, shortest_decimal(v.exposure_ev_hi as int)));
    shortest_reads_back(v.exposure_subject_blend as int);
    assert(edits_of(v)[19] == plain("metric"@, "exposure_subject_blend"@, shortest_decimal(v.exposure_subject_blend as int)));
    shortest_reads_back(v.dedup_pose_cluster_threshold as int);
    assert(edits_of(v)[22] == plain("dedup"@, "pose_cluster_threshold"@, shortest_decimal(v.dedup_pose_cluster_threshold as int)));
    let e = edits_of(v);
    assert(e[5] == (EditView { table: "metric"@, key: "star_mode"@, value: v.star_mode, quoted: true }));
    assert(e[20] == plain("dedup"@, "keep_k"@, decimal(count_of(v.dedup_keep_k))));
    assert(e[21] == plain("dedup"@, "adaptive_keep"@, bool_spec(v.dedup_adaptive_keep)));
    assert(e[23] == plain("dedup"@, "burst_group_cap"@, decimal(count_of(v.dedup_burst_group_cap))));
}

} // verus!
