//! The commented template of a settings file.
use crate::config::{default_config, ConfigView, ScoreConfig};
use crate::fixed::{push_shortest, shortest};
use crate::output::xmp::{stands_in, stands_on};
use crate::text::{decimal, push_decimal, stands_at};
use vstd::prelude::*;

verus! {

/// Piece 0 of the template.
pub const TEMPLATE_0: &'static str = "\
    # ============================================================\n\
    # firstcut 评分配置模板\n\
    # 用法: pic_process score <目录> --config 本文件\n\
    # 可多场景存多份轮着用: 人像.toml / 舞台.toml / 夜景.toml / 打鸟.toml\n\
    # 内置场景预设可直接生成: pic_process config-template --preset stage\n\
    # 只写想改的字段即可，未写的字段用默认值\n\
    # ============================================================\n\
    \n\
    # [weights] 五维评分权重（总和应约等于 1.0，偏差超过 0.05 会拒绝加载）\n\
    [weights]\n\
    # 清晰度：主体（人脸/头部）是否合焦。对焦失败是打鸟/飞机/运动的主要废片\n\
    #   原因 → 这类场景调高（0.40~0.45）；人像大光圈虚化背景不会被误判\n\
    #   （主体感知指标），可维持或略降。\n\
    sharpness = ";

/// Piece 1 of the template.
pub const TEMPLATE_1: &'static str = "\
    \n\
    # 曝光：过曝/欠曝比例 + 判定亮度偏离目标（见下方 EV 容差带）。白天顺光 →\n\
    #   调高至 0.25~0.30 让欠曝照片沉底；夜景/暗调创作 → 调低至 0.10~0.15。\n\
    exposure = ";

/// Piece 2 of the template.
pub const TEMPLATE_2: &'static str = "\
    \n\
    # 噪点：暗部噪声 + ISO 容忍度。高 ISO 打鸟/室内 → 调低（更宽容）；\n\
    #   追求画质的低 ISO 场景 → 调高。\n\
    noise = ";

/// Piece 3 of the template.
pub const TEMPLATE_3: &'static str = "\
    \n\
    # 构图：主体在三分法位置与画面占比（基于人脸/人体检测）。人像 → 调高至\n\
    #   0.20~0.25；动物/飞机（无主体检测时给中性分）→ 调低。\n\
    composition = ";

/// Piece 4 of the template.
pub const TEMPLATE_4: &'static str = "\
    \n\
    # 美学：CLIPIQA 主观美感分。风光/人文 → 可调高；记录性内容（翻拍/素材）→ 调低。\n\
    aesthetic = ";

/// Piece 5 of the template.
pub const TEMPLATE_5: &'static str = "\
    \n\
    \n\
    # [metric] 评分曲线与输出参数\n\
    [metric]\n\
    # 清晰度饱和常数：越大对轻微模糊越宽容（分数分布更靠上），越小越严格。\n\
    sharpness_k = ";

/// Piece 6 of the template.
pub const TEMPLATE_6: &'static str = "\
    \n\
    # 噪点容忍基准：越大越宽容噪点（高 ISO 照片分数更高）。\n\
    noise_k0 = ";

/// Piece 7 of the template.
pub const TEMPLATE_7: &'static str = "\
    \n\
    # --- 曝光：按曝光档位（EV）判定，与相机/场景无关 ---\n\
    # 理想亮度（0-255 中灰码值）：夜景/暗调可调低如 110，雪景/高调可调高如 150。\n\
    exposure_target = ";

/// Piece 8 of the template.
pub const TEMPLATE_8: &'static str = "\
    \n\
    # 暗侧满分容差（EV）：0 ~ -此档位内视为正确曝光。AE 正常波动约 ±1 档，\n\
    #   舞台/夜景主体常低 1~2 档，可放宽到 1.5~2.0。\n\
    exposure_ev_full_lo = ";

/// Piece 9 of the template.
pub const TEMPLATE_9: &'static str = "\
    \n\
    # 亮侧满分容差（EV）：白背景/雪景/白裙可放宽到 1.5~2.0。\n\
    exposure_ev_full_hi = ";

/// Piece 10 of the template.
pub const TEMPLATE_10: &'static str = "\
    \n\
    # 暗侧衰减到 0 的档位（须大于 exposure_ev_full_lo）：欠曝在 RAW 里\n\
    #   通常可救，默认 4.0（-4 档得 0 分）。\n\
    exposure_ev_lo = ";

/// Piece 11 of the template.
pub const TEMPLATE_11: &'static str = "\
    \n\
    # 亮侧衰减到 0 的档位（须大于 exposure_ev_full_hi）：高光溢出不可恢复，\n\
    #   默认 2.0（+2 档得 0 分）。\n\
    exposure_ev_hi = ";

/// Piece 12 of the template.
pub const TEMPLATE_12: &'static str = "\
    \n\
    # 主体脸亮度权重（0~1）：有主体级人脸（高度 ≥ 4%）时，取最亮的一张\n\
    #   主体脸区域均值，把判定亮度往中灰方向拉（夹在「全图 ~ 中灰」之间，\n\
    #   不越过中灰），再按此权重混合。设为 0 则只看全图（适合无主体人脸的题材）。\n\
    exposure_subject_blend = ";

/// Piece 13 of the template.
pub const TEMPLATE_13: &'static str = "\
    \n\
    # 星级模式：relative = 按本批次相对排名给星；absolute = 按总分阈值（rating_5..2）给星\n\
    star_mode = ";

/// Piece 14 of the template.
pub const TEMPLATE_14: &'static str = "\
    \n\
    # 相对模式的百分位分档（0 = 最好，必须依次不减）：前若干百分比得对应星数\n\
    star_five_pct = ";

/// Piece 15 of the template.
pub const TEMPLATE_15: &'static str = "\
    \n\
    star_four_pct = ";

/// Piece 16 of the template.
pub const TEMPLATE_16: &'static str = "\
    \n\
    star_three_pct = ";

/// Piece 17 of the template.
pub const TEMPLATE_17: &'static str = "\
    \n\
    star_two_pct = ";

/// Piece 18 of the template.
pub const TEMPLATE_18: &'static str = "\
    \n\
    # 星级分档：总分 ≥ 阈值得对应星数（XMP xmp:Rating，Lightroom 可读）\n\
    rating_5 = ";

/// Piece 19 of the template.
pub const TEMPLATE_19: &'static str = "\
    \n\
    rating_4 = ";

/// Piece 20 of the template.
pub const TEMPLATE_20: &'static str = "\
    \n\
    rating_3 = ";

/// Piece 21 of the template.
pub const TEMPLATE_21: &'static str = "\
    \n\
    rating_2 = ";

/// Piece 22 of the template.
pub const TEMPLATE_22: &'static str = "\
    \n\
    \n\
    # [dedup] 连拍去重（取消注释后生效）\n\
    # [dedup]\n\
    # 时间间隔 ≤ 此值（秒）视为同一连拍组\n\
    # gap_secs = ";

/// Piece 23 of the template.
pub const TEMPLATE_23: &'static str = "\
    \n\
    # dHash 汉明距离 ≤ 此值视为同一场景子簇\n\
    # dhash_threshold = ";

/// Piece 24 of the template.
pub const TEMPLATE_24: &'static str = "\
    \n\
    # 每个保留单元保留前 K 张\n\
    # keep_k = ";

/// Piece 25 of the template.
pub const TEMPLATE_25: &'static str = "\
    \n\
    # 按姿态再分簇，每个姿势各自保留\n\
    # adaptive_keep = true\n\
    # 姿态距离 ≤ 此值视为同一姿势\n\
    # pose_cluster_threshold = ";

/// Piece 26 of the template.
pub const TEMPLATE_26: &'static str = "\
    \n\
    # 单组保留总量上限（0 = 不限）\n\
    # burst_group_cap = ";

/// Piece 27 of the template.
pub const TEMPLATE_27: &'static str = "\
    \n";

/// The text of the template for the settings `c`.
pub open spec fn template_text(c: ConfigView) -> Seq<char> {
    TEMPLATE_0@
        + shortest(c.weights.sharpness as int)
        + TEMPLATE_1@
        + shortest(c.weights.exposure as int)
        + TEMPLATE_2@
        + shortest(c.weights.noise as int)
        + TEMPLATE_3@
        + shortest(c.weights.composition as int)
        + TEMPLATE_4@
        + shortest(c.weights.aesthetic as int)
        + TEMPLATE_5@
        + shortest(c.metric.sharpness_k as int)
        + TEMPLATE_6@
        + shortest(c.metric.noise_k0 as int)
        + TEMPLATE_7@
        + shortest(c.metric.exposure_target as int)
        + TEMPLATE_8@
        + shortest(c.metric.exposure_ev_full_lo as int)
        + TEMPLATE_9@
        + shortest(c.metric.exposure_ev_full_hi as int)
        + TEMPLATE_10@
        + shortest(c.metric.exposure_ev_lo as int)
        + TEMPLATE_11@
        + shortest(c.metric.exposure_ev_hi as int)
        + TEMPLATE_12@
        + shortest(c.metric.exposure_subject_blend as int)
        + TEMPLATE_13@
        + seq!['"'] + c.metric.star_mode + seq!['"']
        + TEMPLATE_14@
        + shortest(c.metric.star_five_pct as int)
        + TEMPLATE_15@
        + shortest(c.metric.star_four_pct as int)
        + TEMPLATE_16@
        + shortest(c.metric.star_three_pct as int)
        + TEMPLATE_17@
        + shortest(c.metric.star_two_pct as int)
        + TEMPLATE_18@
        + shortest(c.metric.rating_5 as int)
        + TEMPLATE_19@
        + shortest(c.metric.rating_4 as int)
        + TEMPLATE_20@
        + shortest(c.metric.rating_3 as int)
        + TEMPLATE_21@
        + shortest(c.metric.rating_2 as int)
        + TEMPLATE_22@
        + shortest(c.dedup.gap_secs as int)
        + TEMPLATE_23@
        + decimal(c.dedup.dhash_threshold as nat)
        + TEMPLATE_24@
        + decimal(c.dedup.keep_k as nat)
        + TEMPLATE_25@
        + shortest(c.dedup.pose_cluster_threshold as int)
        + TEMPLATE_26@
        + decimal(c.dedup.burst_group_cap as nat)
        + TEMPLATE_27@
}

/// The commented template of a settings file, with the values that apply without one.
pub fn config_template() -> (r: String)
    ensures
        r@ == template_text(default_config()),
{
    let c = ScoreConfig::default();
    let mut s = String::new();
    s.append(TEMPLATE_0);
    push_shortest(&mut s, c.weights.sharpness);
    s.append(TEMPLATE_1);
    push_shortest(&mut s, c.weights.exposure);
    s.append(TEMPLATE_2);
    push_shortest(&mut s, c.weights.noise);
    s.append(TEMPLATE_3);
    push_shortest(&mut s, c.weights.composition);
    s.append(TEMPLATE_4);
    push_shortest(&mut s, c.weights.aesthetic);
    s.append(TEMPLATE_5);
    push_shortest(&mut s, c.metric.sharpness_k);
    s.append(TEMPLATE_6);
    push_shortest(&mut s, c.metric.noise_k0);
    s.append(TEMPLATE_7);
    push_shortest(&mut s, c.metric.exposure_target);
    s.append(TEMPLATE_8);
    push_shortest(&mut s, c.metric.exposure_ev_full_lo);
    s.append(TEMPLATE_9);
    push_shortest(&mut s, c.metric.exposure_ev_full_hi);
    s.append(TEMPLATE_10);
    push_shortest(&mut s, c.metric.exposure_ev_lo);
    s.append(TEMPLATE_11);
    push_shortest(&mut s, c.metric.exposure_ev_hi);
    s.append(TEMPLATE_12);
    push_shortest(&mut s, c.metric.exposure_subject_blend);
    s.append(TEMPLATE_13);
    s.push('"');
    s.append(c.metric.star_mode.as_str());
    s.push('"');
    s.append(TEMPLATE_14);
    push_shortest(&mut s, c.metric.star_five_pct);
    s.append(TEMPLATE_15);
    push_shortest(&mut s, c.metric.star_four_pct);
    s.append(TEMPLATE_16);
    push_shortest(&mut s, c.metric.star_three_pct);
    s.append(TEMPLATE_17);
    push_shortest(&mut s, c.metric.star_two_pct);
    s.append(TEMPLATE_18);
    push_shortest(&mut s, c.metric.rating_5);
    s.append(TEMPLATE_19);
    push_shortest(&mut s, c.metric.rating_4);
    s.append(TEMPLATE_20);
    push_shortest(&mut s, c.metric.rating_3);
    s.append(TEMPLATE_21);
    push_shortest(&mut s, c.metric.rating_2);
    s.append(TEMPLATE_22);
    push_shortest(&mut s, c.dedup.gap_secs);
    s.append(TEMPLATE_23);
    push_decimal(&mut s, c.dedup.dhash_threshold as u64);
    s.append(TEMPLATE_24);
    push_decimal(&mut s, c.dedup.keep_k as u64);
    s.append(TEMPLATE_25);
    push_shortest(&mut s, c.dedup.pose_cluster_threshold);
    s.append(TEMPLATE_26);
    push_decimal(&mut s, c.dedup.burst_group_cap as u64);
    s.append(TEMPLATE_27);
    assert(s@ =~= template_text(default_config()));
    s
}

/// The text ends with another one.
pub open spec fn ends_with(s: Seq<char>, tail: Seq<char>) -> bool {
    s.len() >= tail.len() && s.skip(s.len() - tail.len()) == tail
}

/// A value behind a text that ends with a mark stands behind the mark.
proof fn line_stands(s: Seq<char>, a: Seq<char>, mark: Seq<char>, value: Seq<char>)
    requires
        ends_with(a, mark),
    ensures
        stands_in(s + a + value, mark + value),
{
    let t = s + a + value;
    let i = s.len() + a.len() - mark.len();
    let pat = mark + value;
    assert forall|j: int| 0 <= j < pat.len() implies t.subrange(i, i + pat.len())[j] == pat[j] by {
        if j < mark.len() {
            assert(a.skip(a.len() - mark.len())[j] == mark[j]);
        }
    }
    assert(t.subrange(i, i + pat.len()) =~= pat);
    assert(stands_at(t, pat, i));
}

/// What stands before the value of `sharpness`.
proof fn line_of_sharpness()
    ensures
        ends_with(TEMPLATE_0@, "\nsharpness = "@),
{
    reveal_strlit("# ============================================================\n# firstcut 评分配置模板\n# 用法: pic_process score <目录> --config 本文件\n# 可多场景存多份轮着用: 人像.toml / 舞台.toml / 夜景.toml / 打鸟.toml\n# 内置场景预设可直接生成: pic_process config-template --preset stage\n# 只写想改的字段即可，未写的字段用默认值\n# ============================================================\n\n# [weights] 五维评分权重（总和应约等于 1.0，偏差超过 0.05 会拒绝加载）\n[weights]\n# 清晰度：主体（人脸/头部）是否合焦。对焦失败是打鸟/飞机/运动的主要废片\n#   原因 → 这类场景调高（0.40~0.45）；人像大光圈虚化背景不会被误判\n#   （主体感知指标），可维持或略降。\nsharpness = ");
    reveal_strlit("\nsharpness = ");
    let a = TEMPLATE_0@;
    assert(a.skip(a.len() - "\nsharpness = "@.len()) =~= "\nsharpness = "@);
}

/// What stands before the value of `exposure`.
proof fn line_of_exposure()
    ensures
        ends_with(TEMPLATE_1@, "\nexposure = "@),
{
    reveal_strlit("\n# 曝光：过曝/欠曝比例 + 判定亮度偏离目标（见下方 EV 容差带）。白天顺光 →\n#   调高至 0.25~0.30 让欠曝照片沉底；夜景/暗调创作 → 调低至 0.10~0.15。\nexposure = ");
    reveal_strlit("\nexposure = ");
    let a = TEMPLATE_1@;
    assert(a.skip(a.len() - "\nexposure = "@.len()) =~= "\nexposure = "@);
}

/// What stands before the value of `noise`.
proof fn line_of_noise()
    ensures
        ends_with(TEMPLATE_2@, "\nnoise = "@),
{
    reveal_strlit("\n# 噪点：暗部噪声 + ISO 容忍度。高 ISO 打鸟/室内 → 调低（更宽容）；\n#   追求画质的低 ISO 场景 → 调高。\nnoise = ");
    reveal_strlit("\nnoise = ");
    let a = TEMPLATE_2@;
    assert(a.skip(a.len() - "\nnoise = "@.len()) =~= "\nnoise = "@);
}

/// What stands before the value of `composition`.
proof fn line_of_composition()
    ensures
        ends_with(TEMPLATE_3@, "\ncomposition = "@),
{
    reveal_strlit("\n# 构图：主体在三分法位置与画面占比（基于人脸/人体检测）。人像 → 调高至\n#   0.20~0.25；动物/飞机（无主体检测时给中性分）→ 调低。\ncomposition = ");
    reveal_strlit("\ncomposition = ");
    let a = TEMPLATE_3@;
    assert(a.skip(a.len() - "\ncomposition = "@.len()) =~= "\ncomposition = "@);
}

/// What stands before the value of `aesthetic`.
proof fn line_of_aesthetic()
    ensures
        ends_with(TEMPLATE_4@, "\naesthetic = "@),
{
    reveal_strlit("\n# 美学：CLIPIQA 主观美感分。风光/人文 → 可调高；记录性内容（翻拍/素材）→ 调低。\naesthetic = ");
    reveal_strlit("\naesthetic = ");
    let a = TEMPLATE_4@;
    assert(a.skip(a.len() - "\naesthetic = "@.len()) =~= "\naesthetic = "@);
}

/// What stands before the value of `sharpness_k`.
proof fn line_of_sharpness_k()
    ensures
        ends_with(TEMPLATE_5@, "\nsharpness_k = "@),
{
    reveal_strlit("\n\n# [metric] 评分曲线与输出参数\n[metric]\n# 清晰度饱和常数：越大对轻微模糊越宽容（分数分布更靠上），越小越严格。\nsharpness_k = ");
    reveal_strlit("\nsharpness_k = ");
    let a = TEMPLATE_5@;
    assert(a.skip(a.len() - "\nsharpness_k = "@.len()) =~= "\nsharpness_k = "@);
}

/// What stands before the value of `noise_k0`.
proof fn line_of_noise_k0()
    ensures
        ends_with(TEMPLATE_6@, "\nnoise_k0 = "@),
{
    reveal_strlit("\n# 噪点容忍基准：越大越宽容噪点（高 ISO 照片分数更高）。\nnoise_k0 = ");
    reveal_strlit("\nnoise_k0 = ");
    let a = TEMPLATE_6@;
    assert(a.skip(a.len() - "\nnoise_k0 = "@.len()) =~= "\nnoise_k0 = "@);
}

/// What stands before the value of `exposure_target`.
proof fn line_of_exposure_target()
    ensures
        ends_with(TEMPLATE_7@, "\nexposure_target = "@),
{
    reveal_strlit("\n# --- 曝光：按曝光档位（EV）判定，与相机/场景无关 ---\n# 理想亮度（0-255 中灰码值）：夜景/暗调可调低如 110，雪景/高调可调高如 150。\nexposure_target = ");
    reveal_strlit("\nexposure_target = ");
    let a = TEMPLATE_7@;
    assert(a.skip(a.len() - "\nexposure_target = "@.len()) =~= "\nexposure_target = "@);
}

/// What stands before the value of `exposure_ev_full_lo`.
proof fn line_of_exposure_ev_full_lo()
    ensures
        ends_with(TEMPLATE_8@, "\nexposure_ev_full_lo = "@),
{
    reveal_strlit("\n# 暗侧满分容差（EV）：0 ~ -此档位内视为正确曝光。AE 正常波动约 ±1 档，\n#   舞台/夜景主体常低 1~2 档，可放宽到 1.5~2.0。\nexposure_ev_full_lo = ");
    reveal_strlit("\nexposure_ev_full_lo = ");
    let a = TEMPLATE_8@;
    assert(a.skip(a.len() - "\nexposure_ev_full_lo = "@.len()) =~= "\nexposure_ev_full_lo = "@);
}

/// What stands before the value of `exposure_ev_full_hi`.
proof fn line_of_exposure_ev_full_hi()
    ensures
        ends_with(TEMPLATE_9@, "\nexposure_ev_full_hi = "@),
{
    reveal_strlit("\n# 亮侧满分容差（EV）：白背景/雪景/白裙可放宽到 1.5~2.0。\nexposure_ev_full_hi = ");
    reveal_strlit("\nexposure_ev_full_hi = ");
    let a = TEMPLATE_9@;
    assert(a.skip(a.len() - "\nexposure_ev_full_hi = "@.len()) =~= "\nexposure_ev_full_hi = "@);
}

/// What stands before the value of `exposure_ev_lo`.
proof fn line_of_exposure_ev_lo()
    ensures
        ends_with(TEMPLATE_10@, "\nexposure_ev_lo = "@),
{
    reveal_strlit("\n# 暗侧衰减到 0 的档位（须大于 exposure_ev_full_lo）：欠曝在 RAW 里\n#   通常可救，默认 4.0（-4 档得 0 分）。\nexposure_ev_lo = ");
    reveal_strlit("\nexposure_ev_lo = ");
    let a = TEMPLATE_10@;
    assert(a.skip(a.len() - "\nexposure_ev_lo = "@.len()) =~= "\nexposure_ev_lo = "@);
}

/// What stands before the value of `exposure_ev_hi`.
proof fn line_of_exposure_ev_hi()
    ensures
        ends_with(TEMPLATE_11@, "\nexposure_ev_hi = "@),
{
    reveal_strlit("\n# 亮侧衰减到 0 的档位（须大于 exposure_ev_full_hi）：高光溢出不可恢复，\n#   默认 2.0（+2 档得 0 分）。\nexposure_ev_hi = ");
    reveal_strlit("\nexposure_ev_hi = ");
    let a = TEMPLATE_11@;
    assert(a.skip(a.len() - "\nexposure_ev_hi = "@.len()) =~= "\nexposure_ev_hi = "@);
}

/// What stands before the value of `exposure_subject_blend`.
proof fn line_of_exposure_subject_blend()
    ensures
        ends_with(TEMPLATE_12@, "\nexposure_subject_blend = "@),
{
    reveal_strlit("\n# 主体脸亮度权重（0~1）：有主体级人脸（高度 ≥ 4%）时，取最亮的一张\n#   主体脸区域均值，把判定亮度往中灰方向拉（夹在「全图 ~ 中灰」之间，\n#   不越过中灰），再按此权重混合。设为 0 则只看全图（适合无主体人脸的题材）。\nexposure_subject_blend = ");
    reveal_strlit("\nexposure_subject_blend = ");
    let a = TEMPLATE_12@;
    assert(a.skip(a.len() - "\nexposure_subject_blend = "@.len()) =~= "\nexposure_subject_blend = "@);
}

/// What stands before the value of `star_mode`.
proof fn line_of_star_mode()
    ensures
        ends_with(TEMPLATE_13@, "\nstar_mode = "@),
{
    reveal_strlit("\n# 星级模式：relative = 按本批次相对排名给星；absolute = 按总分阈值（rating_5..2）给星\nstar_mode = ");
    reveal_strlit("\nstar_mode = ");
    let a = TEMPLATE_13@;
    assert(a.skip(a.len() - "\nstar_mode = "@.len()) =~= "\nstar_mode = "@);
}

/// What stands before the value of `star_five_pct`.
proof fn line_of_star_five_pct()
    ensures
        ends_with(TEMPLATE_14@, "\nstar_five_pct = "@),
{
    reveal_strlit("\n# 相对模式的百分位分档（0 = 最好，必须依次不减）：前若干百分比得对应星数\nstar_five_pct = ");
    reveal_strlit("\nstar_five_pct = ");
    let a = TEMPLATE_14@;
    assert(a.skip(a.len() - "\nstar_five_pct = "@.len()) =~= "\nstar_five_pct = "@);
}

/// What stands before the value of `star_four_pct`.
proof fn line_of_star_four_pct()
    ensures
        ends_with(TEMPLATE_15@, "\nstar_four_pct = "@),
{
    reveal_strlit("\nstar_four_pct = ");
    reveal_strlit("\nstar_four_pct = ");
    let a = TEMPLATE_15@;
    assert(a.skip(a.len() - "\nstar_four_pct = "@.len()) =~= "\nstar_four_pct = "@);
}

/// What stands before the value of `star_three_pct`.
proof fn line_of_star_three_pct()
    ensures
        ends_with(TEMPLATE_16@, "\nstar_three_pct = "@),
{
    reveal_strlit("\nstar_three_pct = ");
    reveal_strlit("\nstar_three_pct = ");
    let a = TEMPLATE_16@;
    assert(a.skip(a.len() - "\nstar_three_pct = "@.len()) =~= "\nstar_three_pct = "@);
}

/// What stands before the value of `star_two_pct`.
proof fn line_of_star_two_pct()
    ensures
        ends_with(TEMPLATE_17@, "\nstar_two_pct = "@),
{
    reveal_strlit("\nstar_two_pct = ");
    reveal_strlit("\nstar_two_pct = ");
    let a = TEMPLATE_17@;
    assert(a.skip(a.len() - "\nstar_two_pct = "@.len()) =~= "\nstar_two_pct = "@);
}

/// What stands before the value of `rating_5`.
proof fn line_of_rating_5()
    ensures
        ends_with(TEMPLATE_18@, "\nrating_5 = "@),
{
    reveal_strlit("\n# 星级分档：总分 ≥ 阈值得对应星数（XMP xmp:Rating，Lightroom 可读）\nrating_5 = ");
    reveal_strlit("\nrating_5 = ");
    let a = TEMPLATE_18@;
    assert(a.skip(a.len() - "\nrating_5 = "@.len()) =~= "\nrating_5 = "@);
}

/// What stands before the value of `rating_4`.
proof fn line_of_rating_4()
    ensures
        ends_with(TEMPLATE_19@, "\nrating_4 = "@),
{
    reveal_strlit("\nrating_4 = ");
    reveal_strlit("\nrating_4 = ");
    let a = TEMPLATE_19@;
    assert(a.skip(a.len() - "\nrating_4 = "@.len()) =~= "\nrating_4 = "@);
}

/// What stands before the value of `rating_3`.
proof fn line_of_rating_3()
    ensures
        ends_with(TEMPLATE_20@, "\nrating_3 = "@),
{
    reveal_strlit("\nrating_3 = ");
    reveal_strlit("\nrating_3 = ");
    let a = TEMPLATE_20@;
    assert(a.skip(a.len() - "\nrating_3 = "@.len()) =~= "\nrating_3 = "@);
}

/// What stands before the value of `rating_2`.
proof fn line_of_rating_2()
    ensures
        ends_with(TEMPLATE_21@, "\nrating_2 = "@),
{
    reveal_strlit("\nrating_2 = ");
    reveal_strlit("\nrating_2 = ");
    let a = TEMPLATE_21@;
    assert(a.skip(a.len() - "\nrating_2 = "@.len()) =~= "\nrating_2 = "@);
}

/// What stands before the value of `gap_secs`.
proof fn line_of_gap_secs()
    ensures
        ends_with(TEMPLATE_22@, "\n# gap_secs = "@),
{
    reveal_strlit("\n\n# [dedup] 连拍去重（取消注释后生效）\n# [dedup]\n# 时间间隔 ≤ 此值（秒）视为同一连拍组\n# gap_secs = ");
    reveal_strlit("\n# gap_secs = ");
    let a = TEMPLATE_22@;
    assert(a.skip(a.len() - "\n# gap_secs = "@.len()) =~= "\n# gap_secs = "@);
}

/// What stands before the value of `dhash_threshold`.
proof fn line_of_dhash_threshold()
    ensures
        ends_with(TEMPLATE_23@, "\n# dhash_threshold = "@),
{
    reveal_strlit("\n# dHash 汉明距离 ≤ 此值视为同一场景子簇\n# dhash_threshold = ");
    reveal_strlit("\n# dhash_threshold = ");
    let a = TEMPLATE_23@;
    assert(a.skip(a.len() - "\n# dhash_threshold = "@.len()) =~= "\n# dhash_threshold = "@);
}

/// What stands before the value of `keep_k`.
proof fn line_of_keep_k()
    ensures
        ends_with(TEMPLATE_24@, "\n# keep_k = "@),
{
    reveal_strlit("\n# 每个保留单元保留前 K 张\n# keep_k = ");
    reveal_strlit("\n# keep_k = ");
    let a = TEMPLATE_24@;
    assert(a.skip(a.len() - "\n# keep_k = "@.len()) =~= "\n# keep_k = "@);
}

/// What stands before the value of `pose_cluster_threshold`.
proof fn line_of_pose_cluster_threshold()
    ensures
        ends_with(TEMPLATE_25@, "\n# pose_cluster_threshold = "@),
{
    reveal_strlit("\n# 按姿态再分簇，每个姿势各自保留\n# adaptive_keep = true\n# 姿态距离 ≤ 此值视为同一姿势\n# pose_cluster_threshold = ");
    reveal_strlit("\n# pose_cluster_threshold = ");
    let a = TEMPLATE_25@;
    assert(a.skip(a.len() - "\n# pose_cluster_threshold = "@.len()) =~= "\n# pose_cluster_threshold = "@);
}

/// What stands before the value of `burst_group_cap`.
proof fn line_of_burst_group_cap()
    ensures
        ends_with(TEMPLATE_26@, "\n# burst_group_cap = "@),
{
    reveal_strlit("\n# 单组保留总量上限（0 = 不限）\n# burst_group_cap = ");
    reveal_strlit("\n# burst_group_cap = ");
    let a = TEMPLATE_26@;
    assert(a.skip(a.len() - "\n# burst_group_cap = "@.len()) =~= "\n# burst_group_cap = "@);
}

/// The template names every setting on a line of its own, with its value.
#[verifier::rlimit(30)]
pub proof fn template_names_every_setting(c: ConfigView)
    ensures
        stands_in(template_text(c), "\nsharpness = "@ + shortest(c.weights.sharpness as int)),
        stands_in(template_text(c), "\nexposure = "@ + shortest(c.weights.exposure as int)),
        stands_in(template_text(c), "\nnoise = "@ + shortest(c.weights.noise as int)),
        stands_in(template_text(c), "\ncomposition = "@ + shortest(c.weights.composition as int)),
        stands_in(template_text(c), "\naesthetic = "@ + shortest(c.weights.aesthetic as int)),
        stands_in(template_text(c), "\nsharpness_k = "@ + shortest(c.metric.sharpness_k as int)),
        stands_in(template_text(c), "\nnoise_k0 = "@ + shortest(c.metric.noise_k0 as int)),
        stands_in(template_text(c), "\nexposure_target = "@ + shortest(c.metric.exposure_target as int)),
        stands_in(template_text(c), "\nexposure_ev_full_lo = "@ + shortest(c.metric.exposure_ev_full_lo as int)),
        stands_in(template_text(c), "\nexposure_ev_full_hi = "@ + shortest(c.metric.exposure_ev_full_hi as int)),
        stands_in(template_text(c), "\nexposure_ev_lo = "@ + shortest(c.metric.exposure_ev_lo as int)),
        stands_in(template_text(c), "\nexposure_ev_hi = "@ + shortest(c.metric.exposure_ev_hi as int)),
        stands_in(template_text(c), "\nexposure_subject_blend = "@ + shortest(c.metric.exposure_subject_blend as int)),
        stands_in(
            template_text(c),
            "\nstar_mode = "@ + (seq!['"'] + c.metric.star_mode + seq!['"']),
        ),
        stands_in(template_text(c), "\nstar_five_pct = "@ + shortest(c.metric.star_five_pct as int)),
        stands_in(template_text(c), "\nstar_four_pct = "@ + shortest(c.metric.star_four_pct as int)),
        stands_in(template_text(c), "\nstar_three_pct = "@ + shortest(c.metric.star_three_pct as int)),
        stands_in(template_text(c), "\nstar_two_pct = "@ + shortest(c.metric.star_two_pct as int)),
        stands_in(template_text(c), "\nrating_5 = "@ + shortest(c.metric.rating_5 as int)),
        stands_in(template_text(c), "\nrating_4 = "@ + shortest(c.metric.rating_4 as int)),
        stands_in(template_text(c), "\nrating_3 = "@ + shortest(c.metric.rating_3 as int)),
        stands_in(template_text(c), "\nrating_2 = "@ + shortest(c.metric.rating_2 as int)),
        stands_in(template_text(c), "\n# gap_secs = "@ + shortest(c.dedup.gap_secs as int)),
        stands_in(template_text(c), "\n# dhash_threshold = "@ + decimal(c.dedup.dhash_threshold as nat)),
        stands_in(template_text(c), "\n# keep_k = "@ + decimal(c.dedup.keep_k as nat)),
        stands_in(template_text(c), "\n# pose_cluster_threshold = "@ + shortest(c.dedup.pose_cluster_threshold as int)),
        stands_in(template_text(c), "\n# burst_group_cap = "@ + decimal(c.dedup.burst_group_cap as nat)),
{
    let t0 = TEMPLATE_0@;
    let t1 = t0 + shortest(c.weights.sharpness as int);
    let t2 = t1 + TEMPLATE_1@;
    let t3 = t2 + shortest(c.weights.exposure as int);
    let t4 = t3 + TEMPLATE_2@;
    let t5 = t4 + shortest(c.weights.noise as int);
    let t6 = t5 + TEMPLATE_3@;
    let t7 = t6 + shortest(c.weights.composition as int);
    let t8 = t7 + TEMPLATE_4@;
    let t9 = t8 + shortest(c.weights.aesthetic as int);
    let t10 = t9 + TEMPLATE_5@;
    let t11 = t10 + shortest(c.metric.sharpness_k as int);
    let t12 = t11 + TEMPLATE_6@;
    let t13 = t12 + shortest(c.metric.noise_k0 as int);
    let t14 = t13 + TEMPLATE_7@;
    let t15 = t14 + shortest(c.metric.exposure_target as int);
    let t16 = t15 + TEMPLATE_8@;
    let t17 = t16 + shortest(c.metric.exposure_ev_full_lo as int);
    let t18 = t17 + TEMPLATE_9@;
    let t19 = t18 + shortest(c.metric.exposure_ev_full_hi as int);
    let t20 = t19 + TEMPLATE_10@;
    let t21 = t20 + shortest(c.metric.exposure_ev_lo as int);
    let t22 = t21 + TEMPLATE_11@;
    let t23 = t22 + shortest(c.metric.exposure_ev_hi as int);
    let t24 = t23 + TEMPLATE_12@;
    let t25 = t24 + shortest(c.metric.exposure_subject_blend as int);
    let t26 = t25 + TEMPLATE_13@;
    let t27 = t26 + seq!['"'];
    let t28 = t27 + c.metric.star_mode;
    let t29 = t28 + seq!['"'];
    let t30 = t29 + TEMPLATE_14@;
    let t31 = t30 + shortest(c.metric.star_five_pct as int);
    let t32 = t31 + TEMPLATE_15@;
    let t33 = t32 + shortest(c.metric.star_four_pct as int);
    let t34 = t33 + TEMPLATE_16@;
    let t35 = t34 + shortest(c.metric.star_three_pct as int);
    let t36 = t35 + TEMPLATE_17@;
    let t37 = t36 + shortest(c.metric.star_two_pct as int);
    let t38 = t37 + TEMPLATE_18@;
    let t39 = t38 + shortest(c.metric.rating_5 as int);
    let t40 = t39 + TEMPLATE_19@;
    let t41 = t40 + shortest(c.metric.rating_4 as int);
    let t42 = t41 + TEMPLATE_20@;
    let t43 = t42 + shortest(c.metric.rating_3 as int);
    let t44 = t43 + TEMPLATE_21@;
    let t45 = t44 + shortest(c.metric.rating_2 as int);
    let t46 = t45 + TEMPLATE_22@;
    let t47 = t46 + shortest(c.dedup.gap_secs as int);
    let t48 = t47 + TEMPLATE_23@;
    let t49 = t48 + decimal(c.dedup.dhash_threshold as nat);
    let t50 = t49 + TEMPLATE_24@;
    let t51 = t50 + decimal(c.dedup.keep_k as nat);
    let t52 = t51 + TEMPLATE_25@;
    let t53 = t52 + shortest(c.dedup.pose_cluster_threshold as int);
    let t54 = t53 + TEMPLATE_26@;
    let t55 = t54 + decimal(c.dedup.burst_group_cap as nat);
    let t56 = t55 + TEMPLATE_27@;
    line_of_sharpness();
    line_stands(Seq::empty(), TEMPLATE_0@, "\nsharpness = "@, shortest(c.weights.sharpness as int));
    assert(Seq::<char>::empty() + TEMPLATE_0@ =~= TEMPLATE_0@);
    line_of_exposure();
    line_stands(t1, TEMPLATE_1@, "\nexposure = "@, shortest(c.weights.exposure as int));
    line_of_noise();
    line_stands(t3, TEMPLATE_2@, "\nnoise = "@, shortest(c.weights.noise as int));
    line_of_composition();
    line_stands(t5, TEMPLATE_3@, "\ncomposition = "@, shortest(c.weights.composition as int));
    line_of_aesthetic();
    line_stands(t7, TEMPLATE_4@, "\naesthetic = "@, shortest(c.weights.aesthetic as int));
    line_of_sharpness_k();
    line_stands(t9, TEMPLATE_5@, "\nsharpness_k = "@, shortest(c.metric.sharpness_k as int));
    line_of_noise_k0();
    line_stands(t11, TEMPLATE_6@, "\nnoise_k0 = "@, shortest(c.metric.noise_k0 as int));
    line_of_exposure_target();
    line_stands(t13, TEMPLATE_7@, "\nexposure_target = "@, shortest(c.metric.exposure_target as int));
    line_of_exposure_ev_full_lo();
    line_stands(t15, TEMPLATE_8@, "\nexposure_ev_full_lo = "@, shortest(c.metric.exposure_ev_full_lo as int));
    line_of_exposure_ev_full_hi();
    line_stands(t17, TEMPLATE_9@, "\nexposure_ev_full_hi = "@, shortest(c.metric.exposure_ev_full_hi as int));
    line_of_exposure_ev_lo();
    line_stands(t19, TEMPLATE_10@, "\nexposure_ev_lo = "@, shortest(c.metric.exposure_ev_lo as int));
    line_of_exposure_ev_hi();
    line_stands(t21, TEMPLATE_11@, "\nexposure_ev_hi = "@, shortest(c.metric.exposure_ev_hi as int));
    line_of_exposure_subject_blend();
    line_stands(t23, TEMPLATE_12@, "\nexposure_subject_blend = "@, shortest(c.metric.exposure_subject_blend as int));
    line_of_star_mode();
    let q = seq!['"'];
    let mode = q + c.metric.star_mode + q;
    line_stands(t25, TEMPLATE_13@, "\nstar_mode = "@, mode);
    assert(t25 + TEMPLATE_13@ + mode =~= t29);
    line_of_star_five_pct();
    line_stands(t29, TEMPLATE_14@, "\nstar_five_pct = "@, shortest(c.metric.star_five_pct as int));
    line_of_star_four_pct();
    line_stands(t31, TEMPLATE_15@, "\nstar_four_pct = "@, shortest(c.metric.star_four_pct as int));
    line_of_star_three_pct();
    line_stands(t33, TEMPLATE_16@, "\nstar_three_pct = "@, shortest(c.metric.star_three_pct as int));
    line_of_star_two_pct();
    line_stands(t35, TEMPLATE_17@, "\nstar_two_pct = "@, shortest(c.metric.star_two_pct as int));
    line_of_rating_5();
    line_stands(t37, TEMPLATE_18@, "\nrating_5 = "@, shortest(c.metric.rating_5 as int));
    line_of_rating_4();
    line_stands(t39, TEMPLATE_19@, "\nrating_4 = "@, shortest(c.metric.rating_4 as int));
    line_of_rating_3();
    line_stands(t41, TEMPLATE_20@, "\nrating_3 = "@, shortest(c.metric.rating_3 as int));
    line_of_rating_2();
    line_stands(t43, TEMPLATE_21@, "\nrating_2 = "@, shortest(c.metric.rating_2 as int));
    line_of_gap_secs();
    line_stands(t45, TEMPLATE_22@, "\n# gap_secs = "@, shortest(c.dedup.gap_secs as int));
    line_of_dhash_threshold();
    line_stands(t47, TEMPLATE_23@, "\n# dhash_threshold = "@, decimal(c.dedup.dhash_threshold as nat));
    line_of_keep_k();
    line_stands(t49, TEMPLATE_24@, "\n# keep_k = "@, decimal(c.dedup.keep_k as nat));
    line_of_pose_cluster_threshold();
    line_stands(t51, TEMPLATE_25@, "\n# pose_cluster_threshold = "@, shortest(c.dedup.pose_cluster_threshold as int));
    line_of_burst_group_cap();
    line_stands(t53, TEMPLATE_26@, "\n# burst_group_cap = "@, decimal(c.dedup.burst_group_cap as nat));
    stands_on(t0, shortest(c.weights.sharpness as int));
    stands_on(t1, TEMPLATE_1@);
    stands_on(t2, shortest(c.weights.exposure as int));
    stands_on(t3, TEMPLATE_2@);
    stands_on(t4, shortest(c.weights.noise as int));
    stands_on(t5, TEMPLATE_3@);
    stands_on(t6, shortest(c.weights.composition as int));
    stands_on(t7, TEMPLATE_4@);
    stands_on(t8, shortest(c.weights.aesthetic as int));
    stands_on(t9, TEMPLATE_5@);
    stands_on(t10, shortest(c.metric.sharpness_k as int));
    stands_on(t11, TEMPLATE_6@);
    stands_on(t12, shortest(c.metric.noise_k0 as int));
    stands_on(t13, TEMPLATE_7@);
    stands_on(t14, shortest(c.metric.exposure_target as int));
    stands_on(t15, TEMPLATE_8@);
    stands_on(t16, shortest(c.metric.exposure_ev_full_lo as int));
    stands_on(t17, TEMPLATE_9@);
    stands_on(t18, shortest(c.metric.exposure_ev_full_hi as int));
    stands_on(t19, TEMPLATE_10@);
    stands_on(t20, shortest(c.metric.exposure_ev_lo as int));
    stands_on(t21, TEMPLATE_11@);
    stands_on(t22, shortest(c.metric.exposure_ev_hi as int));
    stands_on(t23, TEMPLATE_12@);
    stands_on(t24, shortest(c.metric.exposure_subject_blend as int));
    stands_on(t25, TEMPLATE_13@);
    stands_on(t26, seq!['"']);
    stands_on(t27, c.metric.star_mode);
    stands_on(t28, seq!['"']);
    stands_on(t29, TEMPLATE_14@);
    stands_on(t30, shortest(c.metric.star_five_pct as int));
    stands_on(t31, TEMPLATE_15@);
    stands_on(t32, shortest(c.metric.star_four_pct as int));
    stands_on(t33, TEMPLATE_16@);
    stands_on(t34, shortest(c.metric.star_three_pct as int));
    stands_on(t35, TEMPLATE_17@);
    stands_on(t36, shortest(c.metric.star_two_pct as int));
    stands_on(t37, TEMPLATE_18@);
    stands_on(t38, shortest(c.metric.rating_5 as int));
    stands_on(t39, TEMPLATE_19@);
    stands_on(t40, shortest(c.metric.rating_4 as int));
    stands_on(t41, TEMPLATE_20@);
    stands_on(t42, shortest(c.metric.rating_3 as int));
    stands_on(t43, TEMPLATE_21@);
    stands_on(t44, shortest(c.metric.rating_2 as int));
    stands_on(t45, TEMPLATE_22@);
    stands_on(t46, shortest(c.dedup.gap_secs as int));
    stands_on(t47, TEMPLATE_23@);
    stands_on(t48, decimal(c.dedup.dhash_threshold as nat));
    stands_on(t49, TEMPLATE_24@);
    stands_on(t50, decimal(c.dedup.keep_k as nat));
    stands_on(t51, TEMPLATE_25@);
    stands_on(t52, shortest(c.dedup.pose_cluster_threshold as int));
    stands_on(t53, TEMPLATE_26@);
    stands_on(t54, decimal(c.dedup.burst_group_cap as nat));
    stands_on(t55, TEMPLATE_27@);
    assert(t56 == template_text(c));
}

} // verus!
