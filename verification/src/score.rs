//! The scores of a photo, and how its measures are put together.
use crate::ai::facedetect::FaceBox;
use crate::ai::pose::{head_of, head_region, PersonBox};
use crate::config::{MetricParams, MetricView, ScoreWeights};
use crate::decode::AnalyzedImage;
use crate::dedup::phash::{dhash, is_dhash};
use crate::dedup::pose::PoseDesc;
use crate::fixed::{clamp, clamped, round_div, rounded, rounded_is_near, rounded_keeps_order};
use crate::metrics::composition::{composition_of, composition_score, is_subject, no_subject_is_neutral, SUBJECT_MIN_H};
use crate::metrics::exposure::{exposure_of, exposure_score, exposure_stats, region_mean, region_mean_luma, stats_of, suggested_ev, suggestion, ExposureCurve, ExposureStats};
use crate::metrics::noise::{dark_noise_metric, is_noise};
use crate::metrics::region::Region;
use crate::metrics::sharpness::{is_region_change, normalized_of, normalized_sharpness, reblur_p80_region, tenengrad_of, tenengrad_variance};
use crate::output::xmp::wide;
use crate::text::{chars_of, decimal, decimal_reads_back, is_digit, natural_of, parse_natural};
use vstd::prelude::*;

verus! {

/// The five scores of a photo, from 0 to 100, in fixed point.
#[derive(Debug, Clone, Copy, PartialEq, Eq, Structural)]
pub struct PixelScores {
    pub sharpness: i64,
    pub exposure: i64,
    pub noise: i64,
    pub composition: i64,
    pub aesthetic: i64,
}

impl PixelScores {
    /// Every score lies between 0 and 100.
    pub open spec fn wf(&self) -> bool {
        &&& 0 <= self.sharpness <= 100_000_000
        &&& 0 <= self.exposure <= 100_000_000
        &&& 0 <= self.noise <= 100_000_000
        &&& 0 <= self.composition <= 100_000_000
        &&& 0 <= self.aesthetic <= 100_000_000
    }
}

impl Default for PixelScores {
    fn default() -> (r: Self)
        ensures
            r == (PixelScores { sharpness: 0, exposure: 0, noise: 0, composition: 0, aesthetic: 0 }),
    {
        PixelScores { sharpness: 0, exposure: 0, noise: 0, composition: 0, aesthetic: 0 }
    }
}

/// What the analysis of a photo found.
#[derive(Debug, Clone, Copy)]
pub struct AnalysisResult {
    pub scores: PixelScores,
    /// Hash of the picture.
    pub dhash: u64,
    /// Number of faces.
    pub faces: usize,
    /// Pose of the largest subject, where there is one.
    pub pose_desc: Option<PoseDesc>,
    /// Suggested exposure correction, where there is one.
    pub suggested_ev: Option<i64>,
}

/// The weighted sum of the scores, in units of 10^-12.
pub open spec fn weighted(s: PixelScores, w: ScoreWeights) -> int {
    s.sharpness * w.sharpness + s.exposure * w.exposure + s.noise * w.noise + s.composition
        * w.composition + s.aesthetic * w.aesthetic
}

/// The weighted total, to one decimal place. Weights of more than a million, which no sensible
/// settings have, could take it out of 64 bits: it then stays at the end of their range.
pub open spec fn total_of(s: PixelScores, w: ScoreWeights) -> int {
    clamped(
        rounded(weighted(s, w), 100_000_000_000) * 100_000,
        i64::MIN as int,
        i64::MAX as int,
    )
}

/// A score times a weight.
fn part(score: i64, weight: i64) -> (r: i128)
    requires
        0 <= score <= 100_000_000,
    ensures
        r == score * weight,
        -922_337_203_685_477_580_800_000_000 <= r <= 922_337_203_685_477_580_800_000_000,
{
    assert(-922_337_203_685_477_580_800_000_000 <= score * weight
        <= 922_337_203_685_477_580_800_000_000) by (nonlinear_arith)
        requires
            0 <= score <= 100_000_000,
            -0x8000_0000_0000_0000 <= weight <= 0x7fff_ffff_ffff_ffff,
    ;
    (score as i128) * (weight as i128)
}

/// The weighted total, from 0 to 100 where the weights come to one, to one decimal place.
pub fn total_score(s: &PixelScores, w: &ScoreWeights) -> (r: i64)
    requires
        s.wf(),
    ensures
        r == total_of(*s, *w),
{
    let sum: i128 = part(s.sharpness, w.sharpness) + part(s.exposure, w.exposure) + part(
        s.noise,
        w.noise,
    ) + part(s.composition, w.composition) + part(s.aesthetic, w.aesthetic);
    let t: i128 = round_div(sum, 100_000_000_000);
    clamp(t * 100_000, i64::MIN as i128, i64::MAX as i128) as i64
}

/// The total grows with every score whose weight is not negative.
pub proof fn total_grows_with_scores(a: PixelScores, b: PixelScores, w: ScoreWeights)
    requires
        w.sharpness >= 0,
        w.exposure >= 0,
        w.noise >= 0,
        w.composition >= 0,
        w.aesthetic >= 0,
        0 <= a.sharpness <= b.sharpness,
        0 <= a.exposure <= b.exposure,
        0 <= a.noise <= b.noise,
        0 <= a.composition <= b.composition,
        0 <= a.aesthetic <= b.aesthetic,
    ensures
        total_of(a, w) <= total_of(b, w),
{
    product_grows(a.sharpness as int, b.sharpness as int, w.sharpness as int);
    product_grows(a.exposure as int, b.exposure as int, w.exposure as int);
    product_grows(a.noise as int, b.noise as int, w.noise as int);
    product_grows(a.composition as int, b.composition as int, w.composition as int);
    product_grows(a.aesthetic as int, b.aesthetic as int, w.aesthetic as int);
    rounded_keeps_order(weighted(a, w), weighted(b, w), 100_000_000_000);
}

/// A product grows with its first factor where the second is not negative.
proof fn product_grows(a: int, b: int, w: int)
    requires
        0 <= a <= b,
        w >= 0,
    ensures
        0 <= a * w <= b * w,
{
    assert(0 <= a * w <= b * w) by (nonlinear_arith)
        requires
            0 <= a <= b,
            w >= 0,
    ;
}

/// With weights that are not negative and come to one, the total lies between 0 and 100.
pub proof fn total_lies_between_0_and_100(s: PixelScores, w: ScoreWeights)
    requires
        s.wf(),
        w.sharpness >= 0,
        w.exposure >= 0,
        w.noise >= 0,
        w.composition >= 0,
        w.aesthetic >= 0,
        crate::config::weight_sum(w) == 1_000_000,
    ensures
        0 <= total_of(s, w) <= 100_000_000,
{
    product_grows(s.sharpness as int, 100_000_000, w.sharpness as int);
    product_grows(s.exposure as int, 100_000_000, w.exposure as int);
    product_grows(s.noise as int, 100_000_000, w.noise as int);
    product_grows(s.composition as int, 100_000_000, w.composition as int);
    product_grows(s.aesthetic as int, 100_000_000, w.aesthetic as int);
    assert(0 <= weighted(s, w) <= 100_000_000_000_000);
}

/// A coordinate of a point relative to a side of its box, kept within 32 bits.
pub open spec fn relative(p: int, start: int, size: int) -> int {
    clamped(rounded((p - start) * 1_000_000, size), i32::MIN as int, i32::MAX as int)
}

/// A coordinate of a point relative to a side of its box.
fn relative_to(p: i64, start: i64, size: i64) -> (r: i32)
    requires
        size > 0,
    ensures
        r == relative(p as int, start as int, size as int),
{
    clamp(
        round_div((p as i128 - start as i128) * 1_000_000, size as i128),
        i32::MIN as i128,
        i32::MAX as i128,
    ) as i32
}

/// The pose of a face: its five points relative to its box, so that neither the place nor the size
/// of the face matters.
pub open spec fn pose_of_face(f: FaceBox) -> Option<Seq<i32>> {
    if f.w <= 100 || f.h <= 100 {
        None
    } else {
        Some(
            Seq::new(
                10,
                |k: int|
                    if k % 2 == 0 {
                        relative(f.kps[k / 2].0 as int, f.x as int, f.w as int) as i32
                    } else {
                        relative(f.kps[k / 2].1 as int, f.y as int, f.h as int) as i32
                    },
            ),
        )
    }
}

/// The pose of a face; none where its box is too small to tell.
pub fn pose_descriptor(f: &FaceBox) -> (r: Option<PoseDesc>)
    ensures
        r is Some == pose_of_face(*f) is Some,
        r is Some ==> r->0@ == pose_of_face(*f)->0,
{
    if f.w <= 100 || f.h <= 100 {
        return None;
    }
    let mut desc: PoseDesc = [0i32; 10];
    let ghost want = pose_of_face(*f)->0;
    let mut j: usize = 0;
    while j < 5
        invariant
            j <= 5,
            f.w > 100,
            f.h > 100,
            want == pose_of_face(*f)->0,
            forall|k: int| 0 <= k < 2 * j ==> #[trigger] desc@[k] == want[k],
        decreases 5 - j,
    {
        let (px, py) = f.kps[j];
        desc[2 * j] = relative_to(px, f.x, f.w);
        desc[2 * j + 1] = relative_to(py, f.y, f.h);
        assert((2 * j) / 2 == j && (2 * j + 1) / 2 == j);
        j += 1;
    }
    assert(desc@ =~= want);
    Some(desc)
}

/// Moving a face, box and points alike, does not change its pose.
pub proof fn pose_does_not_depend_on_place(f: FaceBox, g: FaceBox, dx: int, dy: int)
    requires
        f.w == g.w,
        f.h == g.h,
        g.x == f.x + dx,
        g.y == f.y + dy,
        forall|j: int|
            0 <= j < 5 ==> (#[trigger] g.kps[j]).0 == f.kps[j].0 + dx && g.kps[j].1 == f.kps[j].1
                + dy,
    ensures
        pose_of_face(f) is Some == pose_of_face(g) is Some,
        pose_of_face(f) is Some ==> pose_of_face(f)->0 == pose_of_face(g)->0,
{
    if pose_of_face(f) is Some {
        assert(pose_of_face(f)->0 =~= pose_of_face(g)->0);
    }
}

/// The sensitivity that a row names, 100 where it names none.
pub open spec fn iso_spec(text: Seq<char>) -> int {
    match natural_of(text) {
        Some(n) => if n <= u32::MAX { n as int } else { 100 },
        None => 100,
    }
}

/// The sensitivity that a row names, 100 where it names none.
pub fn iso_of(text: &str) -> (r: u32)
    ensures
        r == iso_spec(text@),
{
    match parse_natural(&chars_of(text)) {
        Some(n) => {
            if n <= u32::MAX as u64 {
                n as u32
            } else {
                100
            }
        },
        None => 100,
    }
}

/// What is measured of a picture without looking for faces.
#[derive(Debug, Clone, Copy)]
pub struct PixelMeasures {
    /// Variance of the gradient in units of that of the brightness.
    pub sharpness: i128,
    /// Brightness.
    pub exposure: ExposureStats,
    /// Noise of the dark parts.
    pub noise: u64,
    /// Hash.
    pub dhash: u64,
}

/// `m` is what is to be measured of a picture.
pub open spec fn measures(m: PixelMeasures, img: AnalyzedImage) -> bool {
    let (w, h) = (img.width as int, img.height as int);
    &&& m.sharpness == normalized_of(tenengrad_of(img.luma@, w, h), img.luma_variance as int)
    &&& m.exposure == stats_of(img.histogram@, img.luma.len() as int)
    &&& is_noise(img.luma@, w, h, m.noise as int)
    &&& is_dhash(img.luma@, w, h, m.dhash)
}

/// Measures a picture.
pub fn measure(img: &AnalyzedImage) -> (r: PixelMeasures)
    requires
        img.wf(),
    ensures
        measures(r, *img),
        0 <= r.exposure.over_ratio <= 1_000_000,
        0 <= r.exposure.under_ratio <= 1_000_000,
{
    PixelMeasures {
        sharpness: normalized_sharpness(tenengrad_variance(img), img.luma_variance),
        exposure: exposure_stats(img),
        noise: dark_noise_metric(img),
        dhash: dhash(img.luma.as_slice(), img.width, img.height),
    }
}

/// The part of the picture that the box of a face covers.
pub open spec fn face_region(f: FaceBox) -> Region {
    Region {
        cx: rounded(2 * f.x + f.w, 2) as i64,
        cy: rounded(2 * f.y + f.h, 2) as i64,
        half_w: rounded(f.w as int, 2) as i64,
        half_h: rounded(f.h as int, 2) as i64,
    }
}

/// The part of the picture around a face that has to be sharp: three times its size, but neither
/// very small nor larger than the picture.
pub open spec fn subject_region(f: FaceBox) -> Region {
    Region {
        half_w: clamped(rounded(3 * f.w, 2), 50_000, 500_000) as i64,
        half_h: clamped(rounded(3 * f.h, 2), 50_000, 500_000) as i64,
        ..face_region(f)
    }
}

/// The part of the picture that the box of a face covers.
fn region_of_face(f: &FaceBox) -> (r: Region)
    requires
        f.wf(),
    ensures
        r == face_region(*f),
{
    Region {
        cx: round_div((2 * f.x + f.w) as i128, 2) as i64,
        cy: round_div((2 * f.y + f.h) as i128, 2) as i64,
        half_w: round_div(f.w as i128, 2) as i64,
        half_h: round_div(f.h as i128, 2) as i64,
    }
}

/// The part of the picture around a face that has to be sharp.
fn region_of_subject(f: &FaceBox) -> (r: Region)
    requires
        f.wf(),
    ensures
        r == subject_region(*f),
{
    let g = region_of_face(f);
    Region {
        cx: g.cx,
        cy: g.cy,
        half_w: clamp(round_div((3 * f.w) as i128, 2), 50_000, 500_000) as i64,
        half_h: clamp(round_div((3 * f.h) as i128, 2), 50_000, 500_000) as i64,
    }
}

/// The brightness of the brightest subject among the first `k` faces.
pub open spec fn brightest(luma: Seq<u8>, w: int, h: int, faces: Seq<FaceBox>, k: int) -> Option<int>
    decreases k,
{
    if k <= 0 {
        None
    } else {
        let b = brightest(luma, w, h, faces, k - 1);
        let m = region_mean(luma, w, h, face_region(faces[k - 1]));
        if !is_subject(faces[k - 1]) {
            b
        } else {
            match b {
                Some(v) => Some(if m > v { m } else { v }),
                None => Some(m),
            }
        }
    }
}

/// The largest subject among the first `k` faces; of equal ones the last.
pub open spec fn largest(faces: Seq<FaceBox>, k: int) -> Option<int>
    decreases k,
{
    if k <= 0 {
        None
    } else {
        let b = largest(faces, k - 1);
        if !is_subject(faces[k - 1]) {
            b
        } else {
            match b {
                Some(j) => if faces[k - 1].w * faces[k - 1].h >= faces[j].w * faces[j].h {
                    Some(k - 1)
                } else {
                    Some(j)
                },
                None => Some(k - 1),
            }
        }
    }
}

/// What the faces tell of a picture.
#[derive(Debug, Clone, Copy)]
pub struct FaceFindings {
    /// Number of faces.
    pub count: usize,
    /// Score of the composition.
    pub composition: i64,
    /// Brightness of the brightest subject.
    pub subject_luma: Option<i64>,
    /// How much a blur changes the surroundings of the largest subject.
    pub reblur: Option<i64>,
    /// Pose of the largest subject.
    pub pose_desc: Option<PoseDesc>,
}

/// `r` is what the faces tell of a picture.
pub open spec fn findings(r: FaceFindings, img: AnalyzedImage, faces: Seq<FaceBox>) -> bool {
    let (w, h) = (img.width as int, img.height as int);
    let n = faces.len() as int;
    &&& r.count == n
    &&& r.composition == composition_of(faces)
    &&& wide(r.subject_luma) == brightest(img.luma@, w, h, faces, n)
    &&& match largest(faces, n) {
        Some(j) => {
            &&& r.reblur is Some
            &&& is_region_change(img.luma@, w, h, subject_region(faces[j]), r.reblur->0 as int)
            &&& r.pose_desc is Some == pose_of_face(faces[j]) is Some
            &&& r.pose_desc is Some ==> r.pose_desc->0@ == pose_of_face(faces[j])->0
        },
        None => r.reblur is None && r.pose_desc is None,
    }
}

/// Finds what the faces tell of a picture.
pub fn study_faces(img: &AnalyzedImage, faces: &Vec<FaceBox>) -> (r: FaceFindings)
    requires
        img.wf(),
        forall|i: int| 0 <= i < faces.len() ==> (#[trigger] faces[i]).wf(),
    ensures
        findings(r, *img, faces@),
        0 <= r.composition <= 100_000_000,
{
    let ghost (w, h) = (img.width as int, img.height as int);
    let composition: i64 = composition_score(faces);
    let mut luma: Option<i64> = None;
    let mut best: Option<usize> = None;
    let mut i: usize = 0;
    while i < faces.len()
        invariant
            i <= faces.len(),
            img.wf(),
            w == img.width,
            h == img.height,
            forall|i: int| 0 <= i < faces.len() ==> (#[trigger] faces[i]).wf(),
            wide(luma) == brightest(img.luma@, w, h, faces@, i as int),
            match best {
                Some(j) => j < i && largest(faces@, i as int) == Some(j as int),
                None => largest(faces@, i as int) is None,
            },
        decreases faces.len() - i,
    {
        let f = &faces[i];
        assert(faces[i as int].wf());
        if f.h >= SUBJECT_MIN_H {
            let g = region_of_face(f);
            let m: i64 = region_mean_luma(img.luma.as_slice(), img.width, img.height, &g);
            luma = match luma {
                Some(v) => Some(if m > v { m } else { v }),
                None => Some(m),
            };
            best = match best {
                Some(j) => {
                    let a = &faces[j];
                    assert(faces[j as int].wf());
                    proof {
                        area_bound(f.w as int, f.h as int);
                        area_bound(a.w as int, a.h as int);
                    }
                    if f.w * f.h >= a.w * a.h {
                        Some(i)
                    } else {
                        Some(j)
                    }
                },
                None => Some(i),
            };
        }
        i += 1;
    }
    match best {
        Some(j) => {
            assert(faces[j as int].wf());
            let g = region_of_subject(&faces[j]);
            FaceFindings {
                count: faces.len(),
                composition,
                subject_luma: luma,
                reblur: Some(
                    reblur_p80_region(img.luma.as_slice(), img.width, img.height, &g),
                ),
                pose_desc: pose_descriptor(&faces[j]),
            }
        },
        None => FaceFindings {
            count: faces.len(),
            composition,
            subject_luma: luma,
            reblur: None,
            pose_desc: None,
        },
    }
}

/// The area of a box on the picture is no larger than the picture.
proof fn area_bound(w: int, h: int)
    requires
        -1_000_000 <= w <= 1_000_000,
        -1_000_000 <= h <= 1_000_000,
    ensures
        -1_000_000_000_000 <= w * h <= 1_000_000_000_000,
{
    assert(-1_000_000_000_000 <= w * h <= 1_000_000_000_000) by (nonlinear_arith)
        requires
            -1_000_000 <= w <= 1_000_000,
            -1_000_000 <= h <= 1_000_000,
    ;
}

/// The largest of the first `k` persons; of equal ones the last.
pub open spec fn largest_person(persons: Seq<PersonBox>, k: int) -> Option<int>
    decreases k,
{
    if k <= 0 {
        None
    } else {
        match largest_person(persons, k - 1) {
            Some(j) => if persons[k - 1].w * persons[k - 1].h >= persons[j].w * persons[j].h {
                Some(k - 1)
            } else {
                Some(j)
            },
            None => Some(k - 1),
        }
    }
}

/// `r` is how much a blur changes the head of the largest person, where there is one whose head is
/// seen.
pub open spec fn is_head_change(r: Option<i64>, img: AnalyzedImage, persons: Seq<PersonBox>) -> bool {
    match largest_person(persons, persons.len() as int) {
        Some(j) => match head_of(persons[j].keypoints@) {
            Some(g) => r is Some && is_region_change(
                img.luma@,
                img.width as int,
                img.height as int,
                g,
                r->0 as int,
            ),
            None => r is None,
        },
        None => r is None,
    }
}

/// Finds how much a blur changes the head of the largest person. It is asked for where the faces
/// named no subject.
pub fn study_persons(img: &AnalyzedImage, persons: &Vec<PersonBox>) -> (r: Option<i64>)
    requires
        img.wf(),
        forall|i: int| 0 <= i < persons.len() ==> (#[trigger] persons[i]).wf(),
    ensures
        is_head_change(r, *img, persons@),
{
    let mut best: Option<usize> = None;
    let mut i: usize = 0;
    while i < persons.len()
        invariant
            i <= persons.len(),
            forall|i: int| 0 <= i < persons.len() ==> (#[trigger] persons[i]).wf(),
            match best {
                Some(j) => j < i && largest_person(persons@, i as int) == Some(j as int),
                None => i == 0 && largest_person(persons@, i as int) is None,
            },
        decreases persons.len() - i,
    {
        best = match best {
            Some(j) => {
                let p = &persons[i];
                let q = &persons[j];
                assert(persons[i as int].wf());
                assert(persons[j as int].wf());
                proof {
                    area_bound(p.w as int, p.h as int);
                    area_bound(q.w as int, q.h as int);
                }
                if p.w * p.h >= q.w * q.h {
                    Some(i)
                } else {
                    Some(j)
                }
            },
            None => Some(i),
        };
        i += 1;
    }
    match best {
        Some(j) => {
            assert(persons[j as int].wf());
            match head_region(&persons[j]) {
                Some(g) => Some(reblur_p80_region(img.luma.as_slice(), img.width, img.height, &g)),
                None => None,
            }
        },
        None => None,
    }
}

/// What is to be done after the faces of a picture were studied.
#[derive(Debug, Clone, Copy, PartialEq, Eq, Structural)]
pub enum NextStep {
    /// Look for persons, to find a head that has to be sharp.
    LookForPersons,
    /// Judge the picture by how much a blur changes the region of the subject, where there is one.
    Judge(Option<i64>),
}

/// Persons are looked for where no face is a subject, even if there are small faces, and where there
/// is a model for it.
pub fn after_faces(f: &FaceFindings, can_look: bool) -> (r: NextStep)
    ensures
        r == if f.reblur is None && can_look {
            NextStep::LookForPersons
        } else {
            NextStep::Judge(f.reblur)
        },
{
    if f.reblur.is_none() && can_look {
        NextStep::LookForPersons
    } else {
        NextStep::Judge(f.reblur)
    }
}

/// A picture without faces, or one that was not searched for them, has a neutral composition and
/// tells nothing of a subject.
pub proof fn without_faces_nothing_is_told(r: FaceFindings, img: AnalyzedImage)
    requires
        findings(r, img, Seq::<FaceBox>::empty()),
    ensures
        r.count == 0,
        r.composition == 60_000_000,
        r.subject_luma is None,
        r.reblur is None,
        r.pose_desc is None,
{
    no_subject_is_neutral(Seq::<FaceBox>::empty());
}

/// Score of the aesthetics of a picture for which none is known.
pub const NEUTRAL_AESTHETIC: i64 = 60_000_000;

/// The score of the aesthetics: the one that is known, else a neutral one.
pub open spec fn settled_aesthetic(score: Option<i64>) -> i64 {
    match score {
        Some(v) => v,
        None => NEUTRAL_AESTHETIC,
    }
}

/// The score of the sharpness: the higher one of that of the region of the subject and that of the
/// whole picture; without a region that of the whole picture, but at least 50.
pub open spec fn settled_sharpness(global: int, region: Option<i64>) -> int {
    match region {
        Some(r) => if r > global {
            r as int
        } else {
            global
        },
        None => if global > 50_000_000 {
            global
        } else {
            50_000_000
        },
    }
}

/// Settles the score of the sharpness.
pub fn settle_sharpness(global: i64, region: Option<i64>) -> (r: i64)
    ensures
        r == settled_sharpness(global as int, region),
{
    let least: i64 = match region {
        Some(v) => v,
        None => 50_000_000,
    };
    if global > least {
        global
    } else {
        least
    }
}

/// A photo is never blamed for the lack of a subject: the score of the sharpness is at least 50
/// where there is no region. It is never below that of the whole picture, nor below that of the
/// region, and one of the two where there is a region.
pub proof fn sharpness_has_a_floor(global: int, region: Option<i64>)
    ensures
        settled_sharpness(global, region) >= global,
        region is None ==> settled_sharpness(global, region) >= 50_000_000,
        region is Some ==> settled_sharpness(global, region) >= region->0,
        region is Some ==> settled_sharpness(global, region) == region->0 || settled_sharpness(
            global,
            region,
        ) == global,
{
}

/// How exposure is judged, by the settings.
pub open spec fn curve_of(m: MetricView) -> ExposureCurve {
    ExposureCurve {
        target: m.exposure_target,
        ev_full_lo: m.exposure_ev_full_lo,
        ev_full_hi: m.exposure_ev_full_hi,
        ev_lo: m.exposure_ev_lo,
        ev_hi: m.exposure_ev_hi,
        subject_blend: m.exposure_subject_blend,
        suggest_cap: m.exposure_suggest_cap,
    }
}

/// How exposure is judged, by the settings.
pub fn exposure_curve(m: &MetricParams) -> (r: ExposureCurve)
    ensures
        r == curve_of(m@),
{
    ExposureCurve {
        target: m.exposure_target,
        ev_full_lo: m.exposure_ev_full_lo,
        ev_full_hi: m.exposure_ev_full_hi,
        ev_lo: m.exposure_ev_lo,
        ev_hi: m.exposure_ev_hi,
        subject_blend: m.exposure_subject_blend,
        suggest_cap: m.exposure_suggest_cap,
    }
}

/// What the curves of sharpness, noise and light give for the measures of one photo, each score
/// from 0 to 100.
#[derive(Debug, Clone, Copy, PartialEq, Eq, Structural)]
pub struct CurveValues {
    /// Score of the sharpness of the whole picture.
    pub sharpness: i64,
    /// Score of the sharpness of the region of the subject.
    pub region: Option<i64>,
    /// Score of the noise.
    pub noise: i64,
    /// Score of the aesthetics, where it is known.
    pub aesthetic: Option<i64>,
    /// How many stops the judged brightness lies from the ideal.
    pub ev: i64,
}

impl CurveValues {
    /// Every score lies between 0 and 100.
    pub open spec fn wf(&self) -> bool {
        &&& 0 <= self.sharpness <= 100_000_000
        &&& self.region is Some ==> 0 <= self.region->0 <= 100_000_000
        &&& 0 <= self.noise <= 100_000_000
        &&& self.aesthetic is Some ==> 0 <= self.aesthetic->0 <= 100_000_000
    }
}

/// Puts the analysis of a photo together from its measures, what its faces tell and the values of
/// the curves.
pub fn conclude(m: &PixelMeasures, faces: &FaceFindings, c: &CurveValues, p: &MetricParams) -> (r: AnalysisResult)
    requires
        c.wf(),
        0 <= faces.composition <= 100_000_000,
        m.exposure.over_ratio >= 0,
        m.exposure.under_ratio >= 0,
    ensures
        r.scores == (PixelScores {
            sharpness: settled_sharpness(c.sharpness as int, c.region) as i64,
            exposure: exposure_of(m.exposure, c.ev as int, curve_of(p@)) as i64,
            noise: c.noise,
            composition: faces.composition,
            aesthetic: settled_aesthetic(c.aesthetic),
        }),
        r.scores.wf(),
        r.dhash == m.dhash,
        r.faces == faces.count,
        r.pose_desc == faces.pose_desc,
        wide(r.suggested_ev) == suggestion(c.ev as int, curve_of(p@)),
{
    let curve = exposure_curve(p);
    AnalysisResult {
        scores: PixelScores {
            sharpness: settle_sharpness(c.sharpness, c.region),
            exposure: exposure_score(&m.exposure, c.ev, &curve),
            noise: c.noise,
            composition: faces.composition,
            aesthetic: match c.aesthetic {
                Some(v) => v,
                None => NEUTRAL_AESTHETIC,
            },
        },
        dhash: m.dhash,
        faces: faces.count,
        pose_desc: faces.pose_desc,
        suggested_ev: suggested_ev(c.ev, &curve),
    }
}

/// The total is the sum of the five scores, each times the weight of its own name, to the nearest
/// tenth.
pub proof fn total_weighs_each_score(s: PixelScores, w: ScoreWeights)
    requires
        s.wf(),
        -1_000_000_000_000 <= w.sharpness <= 1_000_000_000_000,
        -1_000_000_000_000 <= w.exposure <= 1_000_000_000_000,
        -1_000_000_000_000 <= w.noise <= 1_000_000_000_000,
        -1_000_000_000_000 <= w.composition <= 1_000_000_000_000,
        -1_000_000_000_000 <= w.aesthetic <= 1_000_000_000_000,
    ensures
        total_of(s, w) % 100_000 == 0,
        -50_000_000_000 <= total_of(s, w) * 1_000_000 - (s.sharpness * w.sharpness + s.exposure
            * w.exposure + s.noise * w.noise + s.composition * w.composition + s.aesthetic
            * w.aesthetic) <= 50_000_000_000,
{
    part_bound(s.sharpness as int, w.sharpness as int);
    part_bound(s.exposure as int, w.exposure as int);
    part_bound(s.noise as int, w.noise as int);
    part_bound(s.composition as int, w.composition as int);
    part_bound(s.aesthetic as int, w.aesthetic as int);
    rounded_is_near(weighted(s, w), 100_000_000_000);
}

/// A score times a weight of moderate size.
proof fn part_bound(s: int, w: int)
    requires
        0 <= s <= 100_000_000,
        -1_000_000_000_000 <= w <= 1_000_000_000_000,
    ensures
        -100_000_000_000_000_000_000 <= s * w <= 100_000_000_000_000_000_000,
{
    assert(-100_000_000_000_000_000_000 <= s * w <= 100_000_000_000_000_000_000) by (nonlinear_arith)
        requires
            0 <= s <= 100_000_000,
            -1_000_000_000_000 <= w <= 1_000_000_000_000,
    ;
}

/// Face `j` is a subject, at least a twenty-fifth of the picture high, and no other subject is larger;
/// of equal ones it is the last.
pub open spec fn is_largest(faces: Seq<FaceBox>, j: int) -> bool {
    &&& 0 <= j < faces.len()
    &&& faces[j].h >= 40_000
    &&& forall|i: int|
        0 <= i < faces.len() && (#[trigger] faces[i]).h >= 40_000 ==> faces[i].w * faces[i].h
            <= faces[j].w * faces[j].h && (i > j ==> faces[i].w * faces[i].h < faces[j].w
            * faces[j].h)
}

/// The search for the largest face finds it among the first `k`.
proof fn largest_is_found(faces: Seq<FaceBox>, k: int)
    requires
        0 <= k <= faces.len(),
    ensures
        match largest(faces, k) {
            Some(j) => is_largest(faces.take(k), j),
            None => forall|i: int| 0 <= i < k ==> (#[trigger] faces[i]).h < 40_000,
        },
    decreases k,
{
    if k > 0 {
        largest_is_found(faces, k - 1);
        let (s, t) = (faces.take(k - 1), faces.take(k));
        assert forall|i: int| 0 <= i < k - 1 implies #[trigger] s[i] == t[i] by {}
        match largest(faces, k) {
            Some(j) => {
                assert forall|i: int| 0 <= i < k && (#[trigger] t[i]).h >= 40_000 implies t[i].w
                    * t[i].h <= t[j].w * t[j].h && (i > j ==> t[i].w * t[i].h < t[j].w * t[j].h) by {
                    match largest(faces, k - 1) {
                        Some(b) => {
                            assert(t[b] == faces[b] && s[b] == faces[b]);
                            if i < k - 1 {
                                assert(s[i] == t[i]);
                            }
                        },
                        None => {
                            assert(i < k - 1 ==> faces[i].h < 40_000);
                        },
                    }
                }
            },
            None => {},
        }
    }
}

/// The brightness of the brightest subject is that of one of them, and no other is brighter.
proof fn brightest_is_found(luma: Seq<u8>, w: int, h: int, faces: Seq<FaceBox>, k: int)
    requires
        0 <= k <= faces.len(),
    ensures
        match brightest(luma, w, h, faces, k) {
            Some(v) => {
                &&& exists|i: int|
                    0 <= i < k && (#[trigger] faces[i]).h >= 40_000 && region_mean(
                        luma,
                        w,
                        h,
                        face_region(faces[i]),
                    ) == v
                &&& forall|i: int|
                    0 <= i < k && (#[trigger] faces[i]).h >= 40_000 ==> region_mean(
                        luma,
                        w,
                        h,
                        face_region(faces[i]),
                    ) <= v
            },
            None => forall|i: int| 0 <= i < k ==> (#[trigger] faces[i]).h < 40_000,
        },
    decreases k,
{
    if k > 0 {
        brightest_is_found(luma, w, h, faces, k - 1);
        let f = faces[k - 1];
    }
}

/// Where a face is a subject, the largest one is looked at: its surroundings for the sharpness, its
/// points for the pose. The light is that of the brightest subject. Where none is a subject, nothing
/// is told of one. All faces are counted.
pub proof fn the_largest_face_is_the_subject(r: FaceFindings, img: AnalyzedImage, faces: Seq<FaceBox>)
    requires
        findings(r, img, faces),
    ensures
        r.count == faces.len(),
        (exists|j: int| is_largest(faces, j)) || forall|i: int|
            0 <= i < faces.len() ==> (#[trigger] faces[i]).h < 40_000,
        forall|j: int| #[trigger]
            is_largest(faces, j) ==> r.reblur is Some && is_region_change(
                img.luma@,
                img.width as int,
                img.height as int,
                subject_region(faces[j]),
                r.reblur->0 as int,
            ) && (r.pose_desc is Some <==> faces[j].w > 100 && faces[j].h > 100) && (
            r.pose_desc is Some ==> r.pose_desc->0@ == pose_of_face(faces[j])->0),
        (forall|i: int| 0 <= i < faces.len() ==> (#[trigger] faces[i]).h < 40_000) ==> r.reblur is None
            && r.pose_desc is None && r.subject_luma is None,
        forall|i: int|
            0 <= i < faces.len() && (#[trigger] faces[i]).h >= 40_000 ==> r.subject_luma is Some
                && region_mean(
                img.luma@,
                img.width as int,
                img.height as int,
                face_region(faces[i]),
            ) <= r.subject_luma->0,
        r.subject_luma is Some ==> exists|i: int|
            0 <= i < faces.len() && (#[trigger] faces[i]).h >= 40_000 && region_mean(
                img.luma@,
                img.width as int,
                img.height as int,
                face_region(faces[i]),
            ) == r.subject_luma->0,
{
    let n = faces.len() as int;
    largest_is_found(faces, n);
    brightest_is_found(img.luma@, img.width as int, img.height as int, faces, n);
    assert(faces.take(n) =~= faces);
    assert forall|j: int| #[trigger] is_largest(faces, j) implies largest(faces, n) == Some(j) by {
        let b = largest(faces, n)->0;
        assert(faces[j].h >= 40_000);
        assert(is_largest(faces, b));
        assert(faces[b].h >= 40_000);
    }
    if largest(faces, n) is Some {
        assert(is_largest(faces, largest(faces, n)->0));
    }
}

/// Where a face lies: the part of the picture that it covers has its middle in that of its box and
/// reaches half its size to either side; what has to be sharp reaches one and a half times its size,
/// but no less than a twentieth of the picture and no more than half of it.
pub proof fn regions_lie_around_their_face(f: FaceBox)
    requires
        f.wf(),
    ensures
        -1 <= 2 * face_region(f).cx - (2 * f.x + f.w) <= 1,
        -1 <= 2 * face_region(f).cy - (2 * f.y + f.h) <= 1,
        -1 <= 2 * face_region(f).half_w - f.w <= 1,
        -1 <= 2 * face_region(f).half_h - f.h <= 1,
        subject_region(f).cx == face_region(f).cx,
        subject_region(f).cy == face_region(f).cy,
        3 * f.w <= 100_000 ==> subject_region(f).half_w == 50_000,
        3 * f.h <= 100_000 ==> subject_region(f).half_h == 50_000,
        3 * f.w >= 1_000_000 ==> subject_region(f).half_w == 500_000,
        3 * f.h >= 1_000_000 ==> subject_region(f).half_h == 500_000,
        100_000 <= 3 * f.w <= 1_000_000 ==> -1 <= 2 * subject_region(f).half_w - 3 * f.w <= 1,
        100_000 <= 3 * f.h <= 1_000_000 ==> -1 <= 2 * subject_region(f).half_h - 3 * f.h <= 1,
{
    rounded_is_near(2 * f.x + f.w, 2);
    rounded_is_near(2 * f.y + f.h, 2);
    rounded_is_near(f.w as int, 2);
    rounded_is_near(f.h as int, 2);
    rounded_is_near(3 * f.w, 2);
    rounded_is_near(3 * f.h, 2);
}

/// The pose of a face tells where its points lie in its box: each of the five by its column in widths
/// of the box from the left and by its row in heights from the top.
pub proof fn pose_tells_where_points_lie(f: FaceBox, k: int)
    requires
        0 <= k < 5,
        f.w > 100,
        f.h > 100,
        -2_000 * f.w <= f.kps[k].0 - f.x <= 2_000 * f.w,
        -2_000 * f.h <= f.kps[k].1 - f.y <= 2_000 * f.h,
    ensures
        pose_of_face(f) is Some,
        pose_of_face(f)->0.len() == 10,
        -f.w <= 2 * (pose_of_face(f)->0[2 * k] * f.w - (f.kps[k].0 - f.x) * 1_000_000) <= f.w,
        -f.h <= 2 * (pose_of_face(f)->0[2 * k + 1] * f.h - (f.kps[k].1 - f.y) * 1_000_000) <= f.h,
{
    let d = pose_of_face(f)->0;
    assert((2 * k) % 2 == 0 && (2 * k) / 2 == k && (2 * k + 1) % 2 == 1 && (2 * k + 1) / 2 == k);
    relative_is_near(f.kps[k].0 as int, f.x as int, f.w as int);
    relative_is_near(f.kps[k].1 as int, f.y as int, f.h as int);
}

/// A coordinate that lies not too far off is kept to the nearest millionth of the side.
proof fn relative_is_near(p: int, start: int, size: int)
    requires
        size > 100,
        -2_000 * size <= p - start <= 2_000 * size,
    ensures
        i32::MIN <= relative(p, start, size) <= i32::MAX,
        -size <= 2 * (relative(p, start, size) * size - (p - start) * 1_000_000) <= size,
{
    let n = (p - start) * 1_000_000;
    let q = rounded(n, size);
    rounded_is_near(n, size);
    assert(-2_000_000_001 <= q <= 2_000_000_001) by (nonlinear_arith)
        requires
            -size <= 2 * (q * size - n) <= size,
            -2_000_000_000 * size <= n <= 2_000_000_000 * size,
            size > 100,
    ;
}

/// Person `j` is the largest; of equal ones the last.
pub open spec fn is_largest_person(persons: Seq<PersonBox>, j: int) -> bool {
    &&& 0 <= j < persons.len()
    &&& forall|i: int|
        #![trigger persons[i]]
        0 <= i < persons.len() ==> persons[i].w * persons[i].h <= persons[j].w * persons[j].h && (i
            > j ==> persons[i].w * persons[i].h < persons[j].w * persons[j].h)
}

/// The search for the largest person finds it among the first `k`.
proof fn largest_person_is_found(persons: Seq<PersonBox>, k: int)
    requires
        0 < k <= persons.len(),
    ensures
        largest_person(persons, k) is Some,
        is_largest_person(persons.take(k), largest_person(persons, k)->0),
    decreases k,
{
    let t = persons.take(k);
    if k > 1 {
        largest_person_is_found(persons, k - 1);
        let s = persons.take(k - 1);
        let b = largest_person(persons, k - 1)->0;
        let j = largest_person(persons, k)->0;
        assert(t[b] == persons[b] && s[b] == persons[b]);
        assert forall|i: int| #![trigger t[i]] 0 <= i < k implies t[i].w * t[i].h <= t[j].w * t[j].h
            && (i > j ==> t[i].w * t[i].h < t[j].w * t[j].h) by {
            if i < k - 1 {
                assert(s[i] == t[i]);
            }
        }
    } else {
        reveal_with_fuel(largest_person, 2);
    }
}

/// Of the persons the largest one is looked at: the sharpness is that of the region of its head,
/// and unknown where its head is not seen or there is nobody.
pub proof fn the_largest_person_is_looked_at(r: Option<i64>, img: AnalyzedImage, persons: Seq<PersonBox>)
    requires
        is_head_change(r, img, persons),
    ensures
        persons.len() == 0 ==> r is None,
        persons.len() > 0 ==> exists|j: int| is_largest_person(persons, j),
        forall|j: int| #[trigger]
            is_largest_person(persons, j) ==> (r is Some <==> head_of(persons[j].keypoints@) is Some)
                && (r is Some ==> is_region_change(
                img.luma@,
                img.width as int,
                img.height as int,
                head_of(persons[j].keypoints@)->0,
                r->0 as int,
            )),
{
    let n = persons.len() as int;
    if n > 0 {
        largest_person_is_found(persons, n);
        assert(persons.take(n) =~= persons);
        let b = largest_person(persons, n)->0;
        assert(is_largest_person(persons, b));
        assert forall|j: int| #[trigger] is_largest_person(persons, j) implies j == b by {
            assert(persons[j].w * persons[j].h <= persons[b].w * persons[b].h);
            assert(persons[b].w * persons[b].h <= persons[j].w * persons[j].h);
        }
    }
}

/// The sharpness is the higher one of two scores: that of the whole picture, and that of the region
/// of the subject, in whose place stands 50 where there is none.
pub proof fn sharpness_is_the_higher_score(global: int, region: Option<i64>)
    ensures
        region is Some && region->0 <= global ==> settled_sharpness(global, region) == global,
        region is Some && region->0 >= global ==> settled_sharpness(global, region) == region->0,
        region is None && global >= 50_000_000 ==> settled_sharpness(global, region) == global,
        region is None && global <= 50_000_000 ==> settled_sharpness(global, region) == 50_000_000,
{
}

/// Each setting of the exposure comes from the parameter of its name.
pub proof fn curve_takes_each_parameter(m: MetricView)
    ensures
        curve_of(m).target == m.exposure_target,
        curve_of(m).ev_full_lo == m.exposure_ev_full_lo,
        curve_of(m).ev_full_hi == m.exposure_ev_full_hi,
        curve_of(m).ev_lo == m.exposure_ev_lo,
        curve_of(m).ev_hi == m.exposure_ev_hi,
        curve_of(m).subject_blend == m.exposure_subject_blend,
        curve_of(m).suggest_cap == m.exposure_suggest_cap,
{
}

/// The sensitivity of a row that writes one is that number; 100 stands in for a row that writes none,
/// or one beyond 32 bits.
pub proof fn sensitivity_reads_back(n: nat, text: Seq<char>)
    ensures
        n <= 0xffff_ffff ==> iso_spec(decimal(n)) == n,
        n > 0xffff_ffff ==> iso_spec(decimal(n)) == 100,
        natural_of(text) is None ==> iso_spec(text) == 100,
{
    decimal_reads_back(n);
    let s = decimal(n);
    assert(s[0] != '+') by {
        assert(is_digit(s[0]));
    }
}

/// The score of the aesthetics is the one that is known; 60 stands in for an unknown one.
pub proof fn unknown_aesthetics_are_neutral(v: i64)
    ensures
        settled_aesthetic(Some(v)) == v,
        settled_aesthetic(None) == 60_000_000,
{
}

/// The measures of a picture are those of its own pixels, in rows of its width.
pub proof fn measures_look_at_the_picture(m: PixelMeasures, img: AnalyzedImage)
    requires
        measures(m, img),
    ensures
        is_dhash(img.luma@, img.width as int, img.height as int, m.dhash),
        is_noise(img.luma@, img.width as int, img.height as int, m.noise as int),
        m.exposure == stats_of(img.histogram@, img.luma.len() as int),
        img.luma_variance < 1_000_000 ==> m.sharpness == 0,
        img.luma_variance >= 1_000_000 ==> -img.luma_variance <= 2 * (m.sharpness * img.luma_variance
            - tenengrad_of(img.luma@, img.width as int, img.height as int) * 1_000_000)
            <= img.luma_variance,
{
    let t = tenengrad_of(img.luma@, img.width as int, img.height as int);
    if img.luma_variance >= 1_000_000 {
        rounded_is_near(t * 1_000_000, img.luma_variance as int);
    }
}

} // verus!
