//! Answers to the requests of the review page, and what a scoring job tells of itself.
use crate::config::ScoreConfig;
use crate::fixed::{places, places_text};
use crate::pipeline::{bool_spec, bool_text, suggestion_text};
use crate::output::xmp::{may_replace, render_xmp, sidecar_allowed, stands_in, wide, xmp_text, Existing};
use crate::review::job::{capped, JobState, JobView, StatusView};
use crate::review::paths::{below, path_below};
use crate::review::snapshot::{BurstJson, JsonView, PhotoJson, ScoresJson, Snapshot};
use crate::scan::{blank_row, names_part_at_the_last_dot, stem_of, stem_spec, PhotoEntry, PhotoView};
use crate::score::PixelScores;
use crate::text::{decimal, decimal_text, lowered, push_decimal, same_text, stands_at};
use vstd::prelude::*;

verus! {

/// Why a request to change stars is refused.
#[derive(Debug, Clone, Copy, PartialEq, Eq, Structural)]
pub enum RateRefusal {
    /// Stars go from 1 to 5.
    BadStars,
    /// A scoring job runs.
    Busy,
    /// There is no such photo.
    NotFound,
    /// The photo has no scores yet.
    NotScored,
    /// The photo has a sidecar of another program.
    ForeignSidecar,
    /// The sidecar could not be written.
    WriteFailed,
}

/// What is told to whoever asked.
pub open spec fn refusal_text(r: RateRefusal) -> Seq<char> {
    match r {
        RateRefusal::BadStars => "星级必须是 1~5"@,
        RateRefusal::Busy => "评分任务进行中，暂不能改星"@,
        RateRefusal::NotFound => "照片不在快照中"@,
        RateRefusal::NotScored => "该照片未评分，先跑一次评分再改星"@,
        RateRefusal::ForeignSidecar => "该照片已有其他软件写的侧车（无 firstcut 标记），未覆盖"@,
        RateRefusal::WriteFailed => "侧车写入失败"@,
    }
}

/// The HTTP status of a refusal.
pub open spec fn refusal_status(r: RateRefusal) -> u16 {
    match r {
        RateRefusal::BadStars => 400,
        RateRefusal::Busy => 409,
        RateRefusal::NotFound => 404,
        RateRefusal::NotScored => 400,
        RateRefusal::ForeignSidecar => 409,
        RateRefusal::WriteFailed => 500,
    }
}

impl RateRefusal {
    /// What is told to whoever asked.
    pub fn text(&self) -> (r: &'static str)
        ensures
            r@ == refusal_text(*self),
    {
        match self {
            RateRefusal::BadStars => "星级必须是 1~5",
            RateRefusal::Busy => "评分任务进行中，暂不能改星",
            RateRefusal::NotFound => "照片不在快照中",
            RateRefusal::NotScored => "该照片未评分，先跑一次评分再改星",
            RateRefusal::ForeignSidecar => "该照片已有其他软件写的侧车（无 firstcut 标记），未覆盖",
            RateRefusal::WriteFailed => "侧车写入失败",
        }
    }

    /// The HTTP status.
    pub fn status(&self) -> (r: u16)
        ensures
            r == refusal_status(*self),
    {
        match self {
            RateRefusal::BadStars => 400,
            RateRefusal::Busy => 409,
            RateRefusal::NotFound => 404,
            RateRefusal::NotScored => 400,
            RateRefusal::ForeignSidecar => 409,
            RateRefusal::WriteFailed => 500,
        }
    }
}

/// The sidecar that a change of stars asks for.
#[derive(Debug)]
pub struct RateJob {
    pub entry: PhotoEntry,
    pub scores: PixelScores,
    pub total: i64,
    pub suggested_ev: Option<i64>,
}

/// The first photo from `k` on with the given path; the number of photos if there is none.
pub open spec fn find_photo(photos: Seq<PhotoJson>, p: Seq<char>, k: int) -> int
    decreases photos.len() - k,
{
    if k >= photos.len() {
        photos.len() as int
    } else if photos[k].path@ == p {
        k
    } else {
        find_photo(photos, p, k + 1)
    }
}

/// A number of a burst as text; empty outside bursts.
pub open spec fn burst_number(b: Option<BurstJson>, f: spec_fn(BurstJson) -> usize) -> Seq<char> {
    match b {
        Some(v) => decimal(f(v) as nat),
        None => Seq::empty(),
    }
}

/// The row of a photo, as far as its sidecar needs it.
pub open spec fn sidecar_row(root: Seq<char>, v: JsonView, s: ScoresJson) -> PhotoView {
    PhotoView {
        path: below(root, v.path),
        filename: v.filename,
        extension: v.ext,
        is_raw: false,
        has_pair: v.has_pair,
        date_time_original: v.datetime,
        iso: v.iso,
        f_number: v.f_number,
        shutter_speed: v.shutter,
        focal_length: v.focal,
        sharpness_score: places(s.sharpness as int, 1, false),
        exposure_score: places(s.exposure as int, 1, false),
        noise_score: places(s.noise as int, 1, false),
        composition_score: places(s.composition as int, 1, false),
        aesthetic_score: places(s.aesthetic as int, 1, false),
        total_score: places(s.total as int, 1, false),
        suggested_ev: suggestion_text(wide(v.suggested_ev)),
        faces: decimal(v.faces as nat),
        analysis_ok: "true"@,
        burst_group: burst_number(v.burst, |b: BurstJson| b.group),
        burst_size: burst_number(v.burst, |b: BurstJson| b.size),
        burst_rank: burst_number(v.burst, |b: BurstJson| b.rank),
        burst_keep: match v.burst {
            Some(b) => bool_spec(b.keep),
            None => Seq::empty(),
        },
        burst_pose: burst_number(v.burst, |b: BurstJson| b.pose_cluster),
        ..blank_row()
    }
}

/// The scores without the total.
pub open spec fn pixel_scores(s: ScoresJson) -> PixelScores {
    PixelScores {
        sharpness: s.sharpness,
        exposure: s.exposure,
        noise: s.noise,
        composition: s.composition,
        aesthetic: s.aesthetic,
    }
}

/// The row of a photo, as far as its sidecar needs it.
fn row_for_sidecar(root: &str, v: &PhotoJson, s: &ScoresJson) -> (r: PhotoEntry)
    ensures
        r@ == sidecar_row(root@, v@, *s),
{
    let mut e = PhotoEntry::default();
    e.path = path_below(root, v.path.as_str());
    e.filename = v.filename.clone();
    e.extension = v.ext.clone();
    e.has_pair = v.has_pair;
    e.date_time_original = v.datetime.clone();
    e.iso = v.iso.clone();
    e.f_number = v.f_number.clone();
    e.shutter_speed = v.shutter.clone();
    e.focal_length = v.focal.clone();
    e.sharpness_score = places_text(s.sharpness, 1, false);
    e.exposure_score = places_text(s.exposure, 1, false);
    e.noise_score = places_text(s.noise, 1, false);
    e.composition_score = places_text(s.composition, 1, false);
    e.aesthetic_score = places_text(s.aesthetic, 1, false);
    e.total_score = places_text(s.total, 1, false);
    if let Some(ev) = v.suggested_ev {
        e.suggested_ev = places_text(ev, 2, true);
    }
    e.faces = decimal_text(v.faces as u64);
    e.analysis_ok = String::from_str("true");
    if let Some(b) = v.burst {
        e.burst_group = decimal_text(b.group as u64);
        e.burst_size = decimal_text(b.size as u64);
        e.burst_rank = decimal_text(b.rank as u64);
        e.burst_keep = bool_text(b.keep);
        e.burst_pose = decimal_text(b.pose_cluster as u64);
    }
    assert(e@ =~= sidecar_row(root@, v@, *s));
    e
}

/// Why a change of stars is refused, if it is.
pub open spec fn rate_refusal(stars: u8, running: bool, photos: Seq<PhotoJson>, p: Seq<char>) -> Option<
    RateRefusal,
> {
    let k = find_photo(photos, p, 0);
    if !(1 <= stars <= 5) {
        Some(RateRefusal::BadStars)
    } else if running {
        Some(RateRefusal::Busy)
    } else if k >= photos.len() {
        Some(RateRefusal::NotFound)
    } else if photos[k].scores is None {
        Some(RateRefusal::NotScored)
    } else {
        None
    }
}

/// Decides on a request to change the stars of the photo with the relative path `p`: the sidecar
/// that has to be written, or why it is refused.
pub fn decide_rate(stars: u8, running: bool, snap: &Snapshot, root: &str, p: &str) -> (r: Result<
    RateJob,
    RateRefusal,
>)
    ensures
        match rate_refusal(stars, running, snap.photos@, p@) {
            Some(e) => r is Err && r->Err_0 == e,
            None => {
                let v = snap.photos[find_photo(snap.photos@, p@, 0)];
                let s = v.scores->0;
                &&& r is Ok
                &&& r->Ok_0.entry@ == sidecar_row(root@, v@, s)
                &&& r->Ok_0.entry@.total_score.len() > 0
                &&& r->Ok_0.scores == pixel_scores(s)
                &&& r->Ok_0.total == s.total
                &&& r->Ok_0.suggested_ev == v.suggested_ev
            },
        },
{
    if stars < 1 || stars > 5 {
        return Err(RateRefusal::BadStars);
    }
    if running {
        return Err(RateRefusal::Busy);
    }
    let mut k: usize = 0;
    while k < snap.photos.len() && !same_text(snap.photos[k].path.as_str(), p)
        invariant
            k <= snap.photos.len(),
            find_photo(snap.photos@, p@, 0) == find_photo(snap.photos@, p@, k as int),
        decreases snap.photos.len() - k,
    {
        k += 1;
    }
    if k >= snap.photos.len() {
        return Err(RateRefusal::NotFound);
    }
    let photo = &snap.photos[k];
    match &photo.scores {
        Some(s) => Ok(
            RateJob {
                entry: row_for_sidecar(root, photo, s),
                scores: PixelScores {
                    sharpness: s.sharpness,
                    exposure: s.exposure,
                    noise: s.noise,
                    composition: s.composition,
                    aesthetic: s.aesthetic,
                },
                total: s.total,
                suggested_ev: photo.suggested_ev,
            },
        ),
        None => Err(RateRefusal::NotScored),
    }
}

/// The text of the sidecar that a change of stars asks for, given what lies where it has to be
/// written: refused where that is a file of another program.
pub fn prepare_sidecar(job: &RateJob, stars: u8, existing: &Existing) -> (r: Result<
    String,
    RateRefusal,
>)
    requires
        job.entry@.total_score.len() > 0,
    ensures
        match r {
            Ok(text) => may_replace(*existing) && text@ == xmp_text(
                job.entry@,
                job.scores,
                job.total as int,
                stars,
                wide(job.suggested_ev),
            ),
            Err(e) => !may_replace(*existing) && e == RateRefusal::ForeignSidecar,
        },
{
    if !sidecar_allowed(&job.entry, existing) {
        return Err(RateRefusal::ForeignSidecar);
    }
    Ok(render_xmp(&job.entry, &job.scores, job.total, stars, job.suggested_ev))
}

/// Ends a change of stars, once its sidecar was written or could not be: the new stars are noted, or
/// nothing changes.
pub fn finish_rate(snap: &mut Snapshot, p: &str, stars: u8, written: bool) -> (r: Result<
    (),
    RateRefusal,
>)
    ensures
        r == if written {
            Ok::<(), RateRefusal>(())
        } else {
            Err::<(), RateRefusal>(RateRefusal::WriteFailed)
        },
        written ==> is_rated(*final(snap), *old(snap), p@, stars),
        !written ==> *final(snap) == *old(snap),
{
    if !written {
        return Err(RateRefusal::WriteFailed);
    }
    apply_rating(snap, p, stars);
    Ok(())
}

/// The HTTP status of the answer to a change of stars: 200 where nothing stood in its way.
pub open spec fn answer_status(refusal: Option<RateRefusal>) -> u16 {
    match refusal {
        Some(e) => refusal_status(e),
        None => 200,
    }
}

/// Why a change of stars fails, if it does, from the request to the written sidecar.
pub open spec fn rate_outcome(
    stars: u8,
    running: bool,
    photos: Seq<PhotoJson>,
    p: Seq<char>,
    existing: Existing,
    written: bool,
) -> Option<RateRefusal> {
    match rate_refusal(stars, running, photos, p) {
        Some(e) => Some(e),
        None => if !may_replace(existing) {
            Some(RateRefusal::ForeignSidecar)
        } else if !written {
            Some(RateRefusal::WriteFailed)
        } else {
            None
        },
    }
}

/// The HTTP status of the answer to a change of stars, from the outcome of its last step.
pub fn rate_answer(outcome: &Result<(), RateRefusal>) -> (r: u16)
    ensures
        r == answer_status(
            match *outcome {
                Ok(()) => None,
                Err(e) => Some(e),
            },
        ),
{
    match outcome {
        Ok(()) => 200,
        Err(e) => e.status(),
    }
}

/// The answers to a change of stars, in the order in which they are decided: 400 for stars outside 1
/// to 5, 409 while a job runs, 404 for a photo that is not there, 400 for one without scores, 409 for
/// a sidecar of another program, 500 where it cannot be written, and 200 for a change that was made.
pub proof fn answers_to_new_stars(
    stars: u8,
    running: bool,
    photos: Seq<PhotoJson>,
    p: Seq<char>,
    existing: Existing,
    written: bool,
)
    ensures
        answer_status(rate_outcome(stars, running, photos, p, existing, written)) == {
            let k = find_photo(photos, p, 0);
            if stars < 1 || stars > 5 {
                400
            } else if running {
                409
            } else if k >= photos.len() {
                404
            } else if photos[k].scores is None {
                400
            } else if !may_replace(existing) {
                409
            } else if !written {
                500
            } else {
                200u16
            }
        },
{
}

/// The file with path `q` belongs to the same photo as that with path `p`: the paths differ in
/// extension or in the case of letters only.
pub open spec fn same_photo(p: Seq<char>, q: Seq<char>) -> bool {
    lowered(stem_spec(p)) == lowered(stem_spec(q))
}

/// `after` is `before` with new stars for all files of the photo with path `p`.
pub open spec fn is_rated(after: Snapshot, before: Snapshot, p: Seq<char>, stars: u8) -> bool {
    &&& after.root == before.root
    &&& after.photos.len() == before.photos.len()
    &&& forall|i: int|
        0 <= i < after.photos.len() ==> (#[trigger] after.photos[i])@ == (if same_photo(
            p,
            before.photos[i].path@,
        ) {
            JsonView { stars: Some(stars), ..before.photos[i]@ }
        } else {
            before.photos[i]@
        })
}

/// Notes new stars for all files of a photo.
pub fn apply_rating(snap: &mut Snapshot, p: &str, stars: u8)
    ensures
        is_rated(*final(snap), *old(snap), p@, stars),
{
    let ghost before = snap.photos@;
    let stem = stem_of(p);
    let n: usize = snap.photos.len();
    let mut i: usize = 0;
    while i < n
        invariant
            i <= n == snap.photos.len() == before.len(),
            snap.root == old(snap).root,
            before == old(snap).photos@,
            stem@ == lowered(stem_spec(p@)),
            forall|k: int|
                0 <= k < i ==> (#[trigger] snap.photos[k])@ == (if same_photo(p@, before[k].path@) {
                    JsonView { stars: Some(stars), ..before[k]@ }
                } else {
                    before[k]@
                }),
            forall|k: int| i <= k < n ==> #[trigger] snap.photos[k] == before[k],
        decreases n - i,
    {
        assert(snap.photos[i as int] == before[i as int]);
        let other = stem_of(snap.photos[i].path.as_str());
        if same_text(other.as_str(), stem.as_str()) {
            let photo = &mut snap.photos[i];
            photo.stars = Some(stars);
        }
        i += 1;
    }
}

/// After stars were changed, the files of the photo show them, and no other file has changed.
pub proof fn new_stars_reach_the_photo_only(
    before: Seq<PhotoJson>,
    after: Seq<PhotoJson>,
    p: Seq<char>,
    stars: u8,
    i: int,
)
    requires
        0 <= i < before.len(),
        before.len() == after.len(),
        after[i]@ == (if same_photo(p, before[i].path@) {
            JsonView { stars: Some(stars), ..before[i]@ }
        } else {
            before[i]@
        }),
    ensures
        before[i].path@ == p ==> after[i].stars == Some(stars),
        !same_photo(p, before[i].path@) ==> after[i]@ == before[i]@,
        after[i].scores == before[i].scores,
        after[i].burst == before[i].burst,
{
    assert(after[i]@.stars == after[i].stars);
    assert(after[i]@.scores == after[i].scores && before[i]@.scores == before[i].scores);
    assert(after[i]@.burst == after[i].burst && before[i]@.burst == before[i].burst);
}

/// The settings for a job: those that were read; where the file cannot be read, the built-in ones
/// if there is no file, else the error.
pub fn choose_config(loaded: Result<ScoreConfig, String>, exists: bool) -> (r: Result<
    ScoreConfig,
    String,
>)
    ensures
        match loaded {
            Ok(c) => r is Ok && r->Ok_0@ == c@,
            Err(e) => if exists {
                r is Err && r->Err_0@ == e@
            } else {
                r is Ok && r->Ok_0@ == crate::config::default_config()
            },
        },
{
    match loaded {
        Ok(c) => Ok(c),
        Err(e) => {
            if exists {
                Err(e)
            } else {
                Ok(ScoreConfig::default())
            }
        },
    }
}

/// What a scoring job tells while it runs.
#[derive(Debug)]
pub enum ScoreEvent {
    Info(String),
    Progress { done: usize, total: usize },
    Finished { total_jpg: usize, hits: usize, misses: usize },
}

/// The line for the end of the analysis.
pub open spec fn finished_line(total_jpg: usize, hits: usize, misses: usize) -> Seq<char> {
    "[score] 分析完成: "@ + decimal(total_jpg as nat) + " 张 JPG（缓存命中 "@ + decimal(hits as nat)
        + "，新分析 "@ + decimal(misses as nat) + "）"@
}

/// The line for an event, on a terminal.
pub open spec fn event_line(ev: ScoreEvent) -> Seq<char> {
    match ev {
        ScoreEvent::Info(s) => "[score] "@ + s@,
        ScoreEvent::Progress { done, total } => "[score] 进度 "@ + decimal(done as nat) + "/"@
            + decimal(total as nat),
        ScoreEvent::Finished { total_jpg, hits, misses } => finished_line(total_jpg, hits, misses),
    }
}

/// The line for an event, on a terminal.
pub fn event_text(ev: &ScoreEvent) -> (r: String)
    ensures
        r@ == event_line(*ev),
{
    match ev {
        ScoreEvent::Info(s) => {
            let mut t = String::from_str("[score] ");
            t.append(s.as_str());
            t
        },
        ScoreEvent::Progress { done, total } => {
            let mut t = String::from_str("[score] 进度 ");
            push_decimal(&mut t, *done as u64);
            t.append("/");
            push_decimal(&mut t, *total as u64);
            t
        },
        ScoreEvent::Finished { total_jpg, hits, misses } => {
            let mut t = String::from_str("[score] 分析完成: ");
            push_decimal(&mut t, *total_jpg as u64);
            t.append(" 张 JPG（缓存命中 ");
            push_decimal(&mut t, *hits as u64);
            t.append("，新分析 ");
            push_decimal(&mut t, *misses as u64);
            t.append("）");
            t
        },
    }
}

/// What an event does to the job of the review page: progress is noted, anything else is a line of
/// the log.
pub open spec fn after_event(j: JobView, ev: ScoreEvent) -> JobView {
    match ev {
        ScoreEvent::Progress { done, total } => if j.status is Running {
            JobView { status: StatusView::Running { done, total }, ..j }
        } else {
            j
        },
        _ => JobView { log: capped(j.log.push(event_line(ev))), ..j },
    }
}

/// Notes an event of a job.
pub fn note_event(job: &mut JobState, ev: &ScoreEvent)
    requires
        old(job).wf(),
    ensures
        final(job).wf(),
        final(job)@ == after_event(old(job)@, *ev),
{
    match ev {
        ScoreEvent::Progress { done, total } => {
            job.progress(*done, *total);
        },
        _ => {
            let line = event_text(ev);
            job.log(line);
        },
    }
}

/// What a scoring job did.
#[derive(Debug)]
pub struct ScoreJobSummary {
    pub total_jpg: usize,
    pub hits: usize,
    pub misses: usize,
    pub failed_jpgs: Vec<String>,
    pub unmapped_arw: usize,
    pub burst_members: usize,
    pub csv_path: String,
}

/// What the review page says of a job that is done.
pub open spec fn summary_line(s: ScoreJobSummary) -> Seq<char> {
    "完成："@ + decimal(s.total_jpg as nat) + " 张 JPG（命中 "@ + decimal(s.hits as nat) + "，新分析 "@
        + decimal(s.misses as nat) + "，失败 "@ + decimal(s.failed_jpgs.len() as nat)
        + "，ARW 无映射 "@ + decimal(s.unmapped_arw as nat) + "）→ "@ + s.csv_path@
}

/// What the review page says of a job that is done.
pub fn summary_text(s: &ScoreJobSummary) -> (r: String)
    ensures
        r@ == summary_line(*s),
{
    let mut t = String::from_str("完成：");
    push_decimal(&mut t, s.total_jpg as u64);
    t.append(" 张 JPG（命中 ");
    push_decimal(&mut t, s.hits as u64);
    t.append("，新分析 ");
    push_decimal(&mut t, s.misses as u64);
    t.append("，失败 ");
    push_decimal(&mut t, s.failed_jpgs.len() as u64);
    t.append("，ARW 无映射 ");
    push_decimal(&mut t, s.unmapped_arw as u64);
    t.append("）→ ");
    t.append(s.csv_path.as_str());
    t
}

/// The sidecar of a photo on the page is written from what the page shows: every value under its own
/// name, scores and total to one decimal place.
pub proof fn sidecar_takes_what_the_page_shows(root: Seq<char>, v: JsonView, s: ScoresJson)
    ensures
        ({
            let e = sidecar_row(root, v, s);
            &&& e.path == below(root, v.path) && e.filename == v.filename && e.extension == v.ext
            &&& e.date_time_original == v.datetime && e.iso == v.iso && e.f_number == v.f_number
            &&& e.shutter_speed == v.shutter && e.focal_length == v.focal && e.has_pair == v.has_pair
            &&& e.sharpness_score == places(s.sharpness as int, 1, false)
            &&& e.exposure_score == places(s.exposure as int, 1, false)
            &&& e.noise_score == places(s.noise as int, 1, false)
            &&& e.composition_score == places(s.composition as int, 1, false)
            &&& e.aesthetic_score == places(s.aesthetic as int, 1, false)
            &&& e.total_score == places(s.total as int, 1, false)
            &&& e.faces == decimal(v.faces as nat)
            &&& v.burst is Some ==> {
                let b = v.burst->0;
                &&& e.burst_group == decimal(b.group as nat)
                &&& e.burst_size == decimal(b.size as nat)
                &&& e.burst_rank == decimal(b.rank as nat)
                &&& e.burst_pose == decimal(b.pose_cluster as nat)
                &&& e.burst_keep == if b.keep { "true"@ } else { "false"@ }
            }
            &&& v.burst is None ==> e.burst_group.len() == 0 && e.burst_size.len() == 0
                && e.burst_rank.len() == 0 && e.burst_keep.len() == 0 && e.burst_pose.len() == 0
            &&& v.suggested_ev is Some ==> e.suggested_ev == places(v.suggested_ev->0 as int, 2, true)
            &&& v.suggested_ev is None ==> e.suggested_ev.len() == 0
            &&& pixel_scores(s).sharpness == s.sharpness && pixel_scores(s).exposure == s.exposure
            &&& pixel_scores(s).noise == s.noise && pixel_scores(s).composition == s.composition
            &&& pixel_scores(s).aesthetic == s.aesthetic
        }),
{
}

/// The photo of a request is the first one with its path; there is none exactly where no photo has it.
pub proof fn photos_are_found_by_path(photos: Seq<PhotoJson>, p: Seq<char>, k: int)
    requires
        0 <= k <= photos.len(),
    ensures
        k <= find_photo(photos, p, k) <= photos.len(),
        find_photo(photos, p, k) < photos.len() ==> photos[find_photo(photos, p, k)].path@ == p,
        forall|i: int| k <= i < find_photo(photos, p, k) ==> (#[trigger] photos[i]).path@ != p,
    decreases photos.len() - k,
{
    if k < photos.len() && photos[k].path@ != p {
        photos_are_found_by_path(photos, p, k + 1);
    }
}

/// New stars are given to a photo that is there and has scores, while no job runs, and to no other; a
/// refusal always has a true reason.
pub proof fn stars_are_refused_for_a_reason(stars: u8, running: bool, photos: Seq<PhotoJson>, p: Seq<char>)
    ensures
        ({
            let there = exists|i: int| 0 <= i < photos.len() && (#[trigger] photos[i]).path@ == p;
            let k = find_photo(photos, p, 0);
            let refusal = rate_refusal(stars, running, photos, p);
            &&& there <==> k < photos.len()
            &&& refusal is None <==> 1 <= stars <= 5 && !running && there && photos[k].scores is Some
            &&& refusal == Some(RateRefusal::BadStars) <==> stars == 0 || stars > 5
            &&& refusal == Some(RateRefusal::Busy) ==> running
            &&& refusal == Some(RateRefusal::NotFound) ==> !there
            &&& refusal == Some(RateRefusal::NotScored) ==> there && photos[k].scores is None
        }),
{
    photos_are_found_by_path(photos, p, 0);
    let k = find_photo(photos, p, 0);
    if k < photos.len() {
        assert(photos[k].path@ == p);
    }
}

/// The files of a photo are those whose paths differ in extension or case alone: new stars go from
/// `s.e` to `t.f` exactly where `s` and `t` agree but for case.
pub proof fn files_of_a_photo_agree_but_for_extension(s: Seq<char>, e: Seq<char>, t: Seq<char>, f: Seq<char>)
    requires
        forall|i: int| 0 <= i < e.len() ==> e[i] != '.',
        forall|i: int| 0 <= i < f.len() ==> f[i] != '.',
    ensures
        same_photo(s + seq!['.'] + e, t + seq!['.'] + f) <==> lowered(s) == lowered(t),
{
    names_part_at_the_last_dot(s, e);
    names_part_at_the_last_dot(t, f);
}

/// What is told of a refusal names its reason.
pub proof fn refusals_name_their_reason()
    ensures
        stands_in(refusal_text(RateRefusal::BadStars), "1~5"@),
        stands_in(refusal_text(RateRefusal::Busy), "进行中"@),
        stands_in(refusal_text(RateRefusal::NotFound), "不在"@),
        stands_in(refusal_text(RateRefusal::NotScored), "未评分"@),
        stands_in(refusal_text(RateRefusal::ForeignSidecar), "其他软件"@),
        stands_in(refusal_text(RateRefusal::WriteFailed), "写入失败"@),
{
    reveal_strlit("星级必须是 1~5");
    reveal_strlit("1~5");
    assert(refusal_text(RateRefusal::BadStars).subrange(6, 9) =~= "1~5"@);
    assert(stands_at(refusal_text(RateRefusal::BadStars), "1~5"@, 6));
    reveal_strlit("评分任务进行中，暂不能改星");
    reveal_strlit("进行中");
    assert(refusal_text(RateRefusal::Busy).subrange(4, 7) =~= "进行中"@);
    assert(stands_at(refusal_text(RateRefusal::Busy), "进行中"@, 4));
    reveal_strlit("照片不在快照中");
    reveal_strlit("不在");
    assert(refusal_text(RateRefusal::NotFound).subrange(2, 4) =~= "不在"@);
    assert(stands_at(refusal_text(RateRefusal::NotFound), "不在"@, 2));
    reveal_strlit("该照片未评分，先跑一次评分再改星");
    reveal_strlit("未评分");
    assert(refusal_text(RateRefusal::NotScored).subrange(3, 6) =~= "未评分"@);
    assert(stands_at(refusal_text(RateRefusal::NotScored), "未评分"@, 3));
    reveal_strlit("该照片已有其他软件写的侧车（无 firstcut 标记），未覆盖");
    reveal_strlit("其他软件");
    assert(refusal_text(RateRefusal::ForeignSidecar).subrange(5, 9) =~= "其他软件"@);
    assert(stands_at(refusal_text(RateRefusal::ForeignSidecar), "其他软件"@, 5));
    reveal_strlit("侧车写入失败");
    reveal_strlit("写入失败");
    assert(refusal_text(RateRefusal::WriteFailed).subrange(2, 6) =~= "写入失败"@);
    assert(stands_at(refusal_text(RateRefusal::WriteFailed), "写入失败"@, 2));
}

} // verus!
