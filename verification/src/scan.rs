//! Photo files: names, rows of the report, and which JPG and RAW belong together.
use crate::tally::{reorders, tally, tally_none, tally_reordered, tally_same, tally_split, tally_strict};
use crate::text::{chars_of, copy_range, find_last, last_of, lowercase, lowered, same_text, text_of};
use vstd::hash_map::StringHashMap;
use vstd::prelude::*;

verus! {

/// One photo file, as a row of the report.
#[derive(Debug)]
pub struct PhotoEntry {
    /// Path of the file.
    pub path: String,
    /// Name of the file.
    pub filename: String,
    /// Extension in lower case, without the dot.
    pub extension: String,
    /// Whether the file is a RAW file.
    pub is_raw: bool,
    /// Whether the photo exists both as JPG and as RAW.
    pub has_pair: bool,
    /// Key of the photo: its JPG and its RAW share it. Not part of the report.
    pub pair_id: String,
    /// Capture time, as EXIF has it.
    pub date_time_original: String,
    /// Maker of the camera.
    pub camera_make: String,
    /// Model of the camera.
    pub camera_model: String,
    /// Model of the lens.
    pub lens_model: String,
    /// Sensitivity.
    pub iso: String,
    /// Aperture.
    pub f_number: String,
    /// Exposure time.
    pub shutter_speed: String,
    /// Focal length.
    pub focal_length: String,
    /// Sharpness, one decimal place; empty before scoring.
    pub sharpness_score: String,
    /// Exposure.
    pub exposure_score: String,
    /// Noise.
    pub noise_score: String,
    /// Composition.
    pub composition_score: String,
    /// Aesthetics.
    pub aesthetic_score: String,
    /// Weighted total.
    pub total_score: String,
    /// Suggested exposure correction; empty where there is none.
    pub suggested_ev: String,
    /// Stars, 1 to 5.
    pub stars: String,
    /// Number of faces.
    pub faces: String,
    /// Whether scores are there; empty before scoring.
    pub analysis_ok: String,
    /// Number of the burst; zero outside bursts.
    pub burst_group: String,
    /// Number of frames in the unit.
    pub burst_size: String,
    /// Rank within the unit.
    pub burst_rank: String,
    /// Whether the frame should stay.
    pub burst_keep: String,
    /// Number of the pose.
    pub burst_pose: String,
}

/// What a row holds, as text.
pub struct PhotoView {
    pub path: Seq<char>,
    pub filename: Seq<char>,
    pub extension: Seq<char>,
    pub is_raw: bool,
    pub has_pair: bool,
    pub pair_id: Seq<char>,
    pub date_time_original: Seq<char>,
    pub camera_make: Seq<char>,
    pub camera_model: Seq<char>,
    pub lens_model: Seq<char>,
    pub iso: Seq<char>,
    pub f_number: Seq<char>,
    pub shutter_speed: Seq<char>,
    pub focal_length: Seq<char>,
    pub sharpness_score: Seq<char>,
    pub exposure_score: Seq<char>,
    pub noise_score: Seq<char>,
    pub composition_score: Seq<char>,
    pub aesthetic_score: Seq<char>,
    pub total_score: Seq<char>,
    pub suggested_ev: Seq<char>,
    pub stars: Seq<char>,
    pub faces: Seq<char>,
    pub analysis_ok: Seq<char>,
    pub burst_group: Seq<char>,
    pub burst_size: Seq<char>,
    pub burst_rank: Seq<char>,
    pub burst_keep: Seq<char>,
    pub burst_pose: Seq<char>,
}

impl View for PhotoEntry {
    type V = PhotoView;

    open spec fn view(&self) -> PhotoView {
        PhotoView {
            path: self.path@,
            filename: self.filename@,
            extension: self.extension@,
            is_raw: self.is_raw,
            has_pair: self.has_pair,
            pair_id: self.pair_id@,
            date_time_original: self.date_time_original@,
            camera_make: self.camera_make@,
            camera_model: self.camera_model@,
            lens_model: self.lens_model@,
            iso: self.iso@,
            f_number: self.f_number@,
            shutter_speed: self.shutter_speed@,
            focal_length: self.focal_length@,
            sharpness_score: self.sharpness_score@,
            exposure_score: self.exposure_score@,
            noise_score: self.noise_score@,
            composition_score: self.composition_score@,
            aesthetic_score: self.aesthetic_score@,
            total_score: self.total_score@,
            suggested_ev: self.suggested_ev@,
            stars: self.stars@,
            faces: self.faces@,
            analysis_ok: self.analysis_ok@,
            burst_group: self.burst_group@,
            burst_size: self.burst_size@,
            burst_rank: self.burst_rank@,
            burst_keep: self.burst_keep@,
            burst_pose: self.burst_pose@,
        }
    }
}

/// A row without any text.
pub open spec fn blank_row() -> PhotoView {
    PhotoView {
        path: Seq::empty(),
        filename: Seq::empty(),
        extension: Seq::empty(),
        is_raw: false,
        has_pair: false,
        pair_id: Seq::empty(),
        date_time_original: Seq::empty(),
        camera_make: Seq::empty(),
        camera_model: Seq::empty(),
        lens_model: Seq::empty(),
        iso: Seq::empty(),
        f_number: Seq::empty(),
        shutter_speed: Seq::empty(),
        focal_length: Seq::empty(),
        sharpness_score: Seq::empty(),
        exposure_score: Seq::empty(),
        noise_score: Seq::empty(),
        composition_score: Seq::empty(),
        aesthetic_score: Seq::empty(),
        total_score: Seq::empty(),
        suggested_ev: Seq::empty(),
        stars: Seq::empty(),
        faces: Seq::empty(),
        analysis_ok: Seq::empty(),
        burst_group: Seq::empty(),
        burst_size: Seq::empty(),
        burst_rank: Seq::empty(),
        burst_keep: Seq::empty(),
        burst_pose: Seq::empty(),
    }
}

impl Default for PhotoEntry {
    fn default() -> (r: Self)
        ensures
            r@ == blank_row(),
    {
        let r = PhotoEntry {
            path: String::new(),
            filename: String::new(),
            extension: String::new(),
            is_raw: false,
            has_pair: false,
            pair_id: String::new(),
            date_time_original: String::new(),
            camera_make: String::new(),
            camera_model: String::new(),
            lens_model: String::new(),
            iso: String::new(),
            f_number: String::new(),
            shutter_speed: String::new(),
            focal_length: String::new(),
            sharpness_score: String::new(),
            exposure_score: String::new(),
            noise_score: String::new(),
            composition_score: String::new(),
            aesthetic_score: String::new(),
            total_score: String::new(),
            suggested_ev: String::new(),
            stars: String::new(),
            faces: String::new(),
            analysis_ok: String::new(),
            burst_group: String::new(),
            burst_size: String::new(),
            burst_rank: String::new(),
            burst_keep: String::new(),
            burst_pose: String::new(),
        };
        assert(r@ =~= blank_row());
        r
    }
}

impl Clone for PhotoEntry {
    fn clone(&self) -> (r: Self)
        ensures
            r@ == self@,
    {
        PhotoEntry {
            path: self.path.clone(),
            filename: self.filename.clone(),
            extension: self.extension.clone(),
            is_raw: self.is_raw,
            has_pair: self.has_pair,
            pair_id: self.pair_id.clone(),
            date_time_original: self.date_time_original.clone(),
            camera_make: self.camera_make.clone(),
            camera_model: self.camera_model.clone(),
            lens_model: self.lens_model.clone(),
            iso: self.iso.clone(),
            f_number: self.f_number.clone(),
            shutter_speed: self.shutter_speed.clone(),
            focal_length: self.focal_length.clone(),
            sharpness_score: self.sharpness_score.clone(),
            exposure_score: self.exposure_score.clone(),
            noise_score: self.noise_score.clone(),
            composition_score: self.composition_score.clone(),
            aesthetic_score: self.aesthetic_score.clone(),
            total_score: self.total_score.clone(),
            suggested_ev: self.suggested_ev.clone(),
            stars: self.stars.clone(),
            faces: self.faces.clone(),
            analysis_ok: self.analysis_ok.clone(),
            burst_group: self.burst_group.clone(),
            burst_size: self.burst_size.clone(),
            burst_rank: self.burst_rank.clone(),
            burst_keep: self.burst_keep.clone(),
            burst_pose: self.burst_pose.clone(),
        }
    }
}

/// The place behind the last dot; zero where there is no dot.
pub open spec fn extension_start(name: Seq<char>) -> int {
    last_of(name, '.', name.len() as int) + 1
}

/// The extension of a file name in lower case: what stands behind its last dot, or the whole name
/// where it has no dot.
pub open spec fn extension_spec(name: Seq<char>) -> Seq<char> {
    lowered(name.skip(extension_start(name)))
}

/// A file name without its last dot and what stands behind it.
pub open spec fn stem_spec(name: Seq<char>) -> Seq<char> {
    let p = last_of(name, '.', name.len() as int);
    if p >= 0 {
        name.take(p)
    } else {
        name
    }
}

/// The last position of a character lies inside the text.
proof fn last_of_range(s: Seq<char>, c: char, end: int)
    requires
        0 <= end <= s.len(),
    ensures
        -1 <= last_of(s, c, end) < end,
        last_of(s, c, end) >= 0 ==> s[last_of(s, c, end)] == c,
        forall|i: int| last_of(s, c, end) < i < end ==> s[i] != c,
    decreases end,
{
    if end > 0 && s[end - 1] != c {
        last_of_range(s, c, end - 1);
    }
}

/// The file name has one of the extensions that are read.
pub open spec fn is_supported(name: Seq<char>) -> bool {
    let e = extension_spec(name);
    e == "jpg"@ || e == "jpeg"@ || e == "arw"@
}

/// Tells whether the file is a photo: JPG, JPEG or ARW.
pub fn is_supported_file(name: &str) -> (r: bool)
    ensures
        r == is_supported(name@),
{
    let e = extension_of(name);
    same_text(&e, "jpg") || same_text(&e, "jpeg") || same_text(&e, "arw")
}

/// Tells whether the file is a RAW file.
pub fn is_raw_file(name: &str) -> (r: bool)
    ensures
        r == (extension_spec(name@) == "arw"@),
{
    let e = extension_of(name);
    same_text(&e, "arw")
}

/// The extension in lower case, without the dot.
pub fn extension_of(name: &str) -> (r: String)
    ensures
        r@ == extension_spec(name@),
{
    let v = chars_of(name);
    proof {
        last_of_range(v@, '.', v@.len() as int);
    }
    let start: usize = match find_last(&v, '.') {
        Some(i) => i + 1,
        None => 0,
    };
    let tail = copy_range(&v, start, v.len());
    assert(tail@ =~= v@.skip(start as int));
    lowercase(&tail)
}

/// The name without its extension, in lower case.
pub fn stem_of(name: &str) -> (r: String)
    ensures
        r@ == lowered(stem_spec(name@)),
{
    let stem = stem_raw_of(name);
    lowercase(&chars_of(&stem))
}

/// The name without its extension, as it is written.
pub fn stem_raw_of(name: &str) -> (r: String)
    ensures
        r@ == stem_spec(name@),
{
    let v = chars_of(name);
    match find_last(&v, '.') {
        Some(i) => {
            let head = copy_range(&v, 0, i);
            assert(head@ =~= v@.take(i as int));
            text_of(&head)
        },
        None => text_of(&v),
    }
}

/// A directory and a name, joined to a key.
pub open spec fn joined(dir: Seq<char>, stem: Seq<char>) -> Seq<char> {
    dir + seq!['|'] + stem
}

/// Joins a directory and a name to a key.
fn join_key(dir: &str, stem: &str) -> (r: String)
    ensures
        r@ == joined(dir@, stem@),
{
    let mut s = String::new();
    s.append(dir);
    s.push('|');
    s.append(stem);
    assert(s@ =~= joined(dir@, stem@));
    s
}

/// The key of one file: the directory it lies in and its name without extension, in lower case.
pub fn pair_key(dir: &str, filename: &str) -> (r: String)
    ensures
        r@ == joined(lowered(dir@), lowered(stem_spec(filename@))),
{
    let d = lowercase(&chars_of(dir));
    let s = stem_of(filename);
    join_key(&d, &s)
}

impl PhotoEntry {
    /// The key that the JPG and the RAW of one photo share.
    pub fn pair_id(&self) -> (r: &str)
        ensures
            r@ == self.pair_id@,
    {
        self.pair_id.as_str()
    }
}

/// A file to be paired: directory, name without extension, whether it is a RAW file.
pub type PairItem = (String, String, bool);

/// Directory, name and kind of a file, as text.
pub struct FileKey {
    pub dir: Seq<char>,
    pub stem: Seq<char>,
    pub raw: bool,
}

/// Directory, name and kind of each file, as text.
pub open spec fn file_keys(items: Seq<PairItem>) -> Seq<FileKey> {
    items.map_values(|t: PairItem| FileKey { dir: t.0@, stem: t.1@, raw: t.2 })
}

/// Files `i` and `j` have the same name.
pub open spec fn same_stem(items: Seq<FileKey>, i: int, j: int) -> bool {
    items[i].stem == items[j].stem
}

/// File `j` is the other kind of file `i`: same directory, same name, one RAW and one not.
pub open spec fn partners(items: Seq<FileKey>, i: int, j: int) -> bool {
    items[i].dir == items[j].dir && same_stem(items, i, j) && items[i].raw != items[j].raw
}

/// File `i` has a partner in its own directory.
pub open spec fn has_partner(items: Seq<FileKey>, i: int) -> bool {
    exists|j: int| 0 <= j < items.len() && #[trigger] partners(items, i, j)
}

/// Files of the name of `i`, RAW or not as `raw` says.
pub open spec fn namesake(items: Seq<FileKey>, i: int, raw: bool) -> spec_fn(int) -> bool {
    |k: int| same_stem(items, k, i) && items[k].raw == raw
}

/// How many files of the tree have the name of file `i` and the kind that `raw` says.
pub open spec fn namesakes(items: Seq<FileKey>, i: int, raw: bool) -> nat {
    tally(namesake(items, i, raw), 0, items.len() as int)
}

/// The first file from `from` on with the name of file `i` and the kind that `raw` says.
pub open spec fn first_namesake(items: Seq<FileKey>, i: int, raw: bool, from: int) -> int
    decreases items.len() - from,
{
    if from >= items.len() {
        items.len() as int
    } else if namesake(items, i, raw)(from) {
        from
    } else {
        first_namesake(items, i, raw, from + 1)
    }
}

/// The only JPG and the only RAW of that name in the tree lie in different directories.
pub open spec fn crosses(items: Seq<FileKey>, i: int) -> bool {
    &&& namesakes(items, i, false) == 1
    &&& namesakes(items, i, true) == 1
    &&& items[first_namesake(items, i, false, 0)].dir != items[first_namesake(items, i, true, 0)].dir
}

/// The key of file `i`, and whether it is paired: with a partner in its directory; else, where
/// nothing is ambiguous, with the only other file of its name in the tree.
pub open spec fn pairing(items: Seq<FileKey>, i: int) -> (Seq<char>, bool) {
    if has_partner(items, i) {
        (joined(items[i].dir, items[i].stem), true)
    } else if crosses(items, i) {
        (
            "cross|"@ + joined(items[first_namesake(items, i, false, 0)].dir, items[i].stem),
            true,
        )
    } else {
        (joined(items[i].dir, items[i].stem), false)
    }
}

/// The next earlier file of the same name, as a position from 1; zero for none.
spec fn is_link(items: Seq<FileKey>, stem: Seq<char>, link: int, end: int) -> bool {
    &&& 0 <= link <= end
    &&& link > 0 ==> items[link - 1].stem == stem
    &&& forall|k: int| link <= k < end ==> (#[trigger] items[k]).stem != stem
}

/// What a walk over all files of one name finds.
struct Kin {
    partner: bool,
    jpgs: usize,
    raws: usize,
    first_jpg: usize,
    first_raw: usize,
}

/// Walks over the files of the name of file `i`, from the last to the first.
fn kin_of(items: &Vec<PairItem>, prev: &Vec<usize>, last: usize, i: usize) -> (r: Kin)
    requires
        i < items.len(),
        prev.len() == items.len(),
        is_link(file_keys(items@), file_keys(items@)[i as int].stem, last as int, items.len() as int),
        forall|k: int|
            0 <= k < items.len() ==> is_link(file_keys(items@), file_keys(items@)[k].stem, #[trigger] prev[k] as int, k),
    ensures
        r.partner == has_partner(file_keys(items@), i as int),
        r.jpgs == namesakes(file_keys(items@), i as int, false),
        r.raws == namesakes(file_keys(items@), i as int, true),
        r.first_jpg == first_namesake(file_keys(items@), i as int, false, 0),
        r.first_raw == first_namesake(file_keys(items@), i as int, true, 0),
{
    let n: usize = items.len();
    let ghost s = file_keys(items@);
    let ghost stem = file_keys(items@)[i as int].stem;
    let ghost pj = namesake(file_keys(items@), i as int, false);
    let ghost pr = namesake(file_keys(items@), i as int, true);
    let mut partner = false;
    let mut jpgs: usize = 0;
    let mut raws: usize = 0;
    let mut first_jpg: usize = n;
    let mut first_raw: usize = n;
    let mut at: usize = last;
    proof {
        skip_strangers(s, i as int, at as int, n as int);
    }
    while at > 0
        invariant
            n == items.len(),
            s == file_keys(items@),
            i < n,
            at <= n,
            stem == file_keys(items@)[i as int].stem,
            pj == namesake(s, i as int, false),
            pr == namesake(s, i as int, true),
            prev.len() == n,
            at > 0 ==> file_keys(items@)[at - 1].stem == stem,
            forall|k: int|
                0 <= k < n ==> is_link(file_keys(items@), file_keys(items@)[k].stem, #[trigger] prev[k] as int, k),
            jpgs == tally(pj, at as int, n as int),
            raws == tally(pr, at as int, n as int),
            jpgs <= n - at,
            raws <= n - at,
            first_jpg == first_namesake(s, i as int, false, at as int),
            first_raw == first_namesake(s, i as int, true, at as int),
            partner == exists|j: int| at <= j < n && #[trigger] partners(s, i as int, j),
        decreases at,
    {
        let k: usize = at - 1;
        let ghost was = partner;
        proof {
            tally_split(pj, k as int, at as int, n as int);
            tally_split(pr, k as int, at as int, n as int);
            assert(tally(pj, k as int, at as int) == if pj(k as int) { 1nat } else { 0nat }) by {
                reveal_with_fuel(tally, 2);
            }
            assert(tally(pr, k as int, at as int) == if pr(k as int) { 1nat } else { 0nat }) by {
                reveal_with_fuel(tally, 2);
            }
            assert(same_stem(s, k as int, i as int));
        }
        if items[k].2 {
            raws += 1;
            first_raw = k;
        } else {
            jpgs += 1;
            first_jpg = k;
        }
        if items[k].2 != items[i].2 && items[k].0 == items[i].0 {
            assert(partners(s, i as int, k as int));
            partner = true;
        }
        assert(partner == exists|j: int| k <= j < n && #[trigger] partners(s, i as int, j)) by {
            if was {
                let j = choose|j: int| at <= j < n && #[trigger] partners(s, i as int, j);
                assert(partners(s, i as int, j));
            }
        }
        proof {
            assert(is_link(file_keys(items@), file_keys(items@)[k as int].stem, prev[k as int] as int, k as int));
            skip_strangers(s, i as int, prev[k as int] as int, k as int);
            tally_split(pj, prev[k as int] as int, k as int, n as int);
            tally_split(pr, prev[k as int] as int, k as int, n as int);
        }
        at = prev[k];
    }
    Kin { partner, jpgs, raws, first_jpg, first_raw }
}

/// Between two files of a name that follow each other there is nothing to find.
proof fn skip_strangers(items: Seq<FileKey>, i: int, link: int, end: int)
    requires
        0 <= i < items.len(),
        0 <= link <= end <= items.len(),
        forall|k: int| link <= k < end ==> (#[trigger] items[k]).stem != items[i].stem,
    ensures
        tally(namesake(items, i, false), link, end) == 0,
        tally(namesake(items, i, true), link, end) == 0,
        first_namesake(items, i, false, link) == first_namesake(items, i, false, end),
        first_namesake(items, i, true, link) == first_namesake(items, i, true, end),
        forall|j: int| link <= j < end ==> !#[trigger] partners(items, i, j),
    decreases end - link,
{
    tally_none(namesake(items, i, false), link, end);
    tally_none(namesake(items, i, true), link, end);
    if link < end {
        skip_strangers(items, i, link + 1, end);
        assert(items[link].stem != items[i].stem);
    }
}

/// Links each file to the next earlier one of its name; also gives the last file of each name.
fn link_names(items: &Vec<PairItem>) -> (r: (Vec<usize>, StringHashMap<usize>))
    ensures
        r.0.len() == items.len(),
        forall|k: int|
            0 <= k < items.len() ==> is_link(file_keys(items@), file_keys(items@)[k].stem, #[trigger] r.0[k] as int, k),
        forall|k: int|
            0 <= k < items.len() ==> r.1@.contains_key((#[trigger] items[k]).1@) && is_link(
                file_keys(items@),
                items[k].1@,
                r.1@[items[k].1@] as int,
                items.len() as int,
            ),
{
    let n: usize = items.len();
    let mut prev: Vec<usize> = Vec::new();
    let mut last: StringHashMap<usize> = StringHashMap::new();
    let mut k: usize = 0;
    while k < n
        invariant
            k <= n == items.len(),
            prev.len() == k,
            forall|j: int|
                0 <= j < k ==> is_link(file_keys(items@), file_keys(items@)[j].stem, #[trigger] prev[j] as int, j),
            forall|s: Seq<char>|
                #![trigger last@.contains_key(s)]
                last@.contains_key(s) ==> last@[s] > 0 && is_link(
                    file_keys(items@),
                    s,
                    last@[s] as int,
                    k as int,
                ),
            forall|j: int| 0 <= j < k ==> last@.contains_key((#[trigger] items[j]).1@),
        decreases n - k,
    {
        let link: usize = match last.get(items[k].1.as_str()) {
            Some(l) => *l,
            None => 0,
        };
        assert(is_link(file_keys(items@), file_keys(items@)[k as int].stem, link as int, k as int));
        prev.push(link);
        let ghost before = last@;
        last.insert(items[k].1.clone(), k + 1);
        assert forall|s: Seq<char>| #![trigger last@.contains_key(s)] last@.contains_key(
            s,
        ) implies last@[s] > 0 && is_link(file_keys(items@), s, last@[s] as int, k + 1) by {
            if s != file_keys(items@)[k as int].stem {
                assert(before.contains_key(s));
            }
        }
        k += 1;
    }
    assert forall|k: int| 0 <= k < items.len() implies last@.contains_key((#[trigger] items[k]).1@)
        && is_link(file_keys(items@), items[k].1@, last@[items[k].1@] as int, items.len() as int) by {
        assert(last@.contains_key(items[k].1@));
    }
    (prev, last)
}

/// Finds the key of each file, and whether it is paired.
pub fn resolve_pairs(items: &Vec<PairItem>) -> (r: Vec<(String, bool)>)
    ensures
        r.len() == items.len(),
        forall|i: int|
            0 <= i < items.len() ==> ((#[trigger] r[i]).0@, r[i].1) == pairing(file_keys(items@), i),
{
    let (prev, last) = link_names(items);
    let mut out: Vec<(String, bool)> = Vec::new();
    let mut i: usize = 0;
    while i < items.len()
        invariant
            i <= items.len(),
            prev.len() == items.len(),
            forall|k: int|
                0 <= k < items.len() ==> is_link(file_keys(items@), file_keys(items@)[k].stem, #[trigger] prev[k] as int, k),
            forall|k: int|
                0 <= k < items.len() ==> last@.contains_key((#[trigger] items[k]).1@) && is_link(
                    file_keys(items@),
                    items[k].1@,
                    last@[items[k].1@] as int,
                    items.len() as int,
                ),
            out.len() == i,
            forall|k: int|
                0 <= k < i ==> ((#[trigger] out[k]).0@, out[k].1) == pairing(file_keys(items@), k),
        decreases items.len() - i,
    {
        assert(last@.contains_key(items[i as int].1@));
        let end: usize = match last.get(items[i].1.as_str()) {
            Some(l) => *l,
            None => 0,
        };
        let kin = kin_of(items, &prev, end, i);
        if kin.partner {
            out.push((join_key(items[i].0.as_str(), items[i].1.as_str()), true));
        } else if kin.jpgs == 1 && kin.raws == 1 {
            proof {
                first_namesake_found(file_keys(items@), i as int, false, 0);
                first_namesake_found(file_keys(items@), i as int, true, 0);
            }
            if items[kin.first_jpg].0 != items[kin.first_raw].0 {
                let mut s = String::new();
                s.append("cross|");
                s.append(&join_key(items[kin.first_jpg].0.as_str(), items[i].1.as_str()));
                assert(s@ =~= pairing(file_keys(items@), i as int).0);
                out.push((s, true));
            } else {
                out.push((join_key(items[i].0.as_str(), items[i].1.as_str()), false));
            }
        } else {
            out.push((join_key(items[i].0.as_str(), items[i].1.as_str()), false));
        }
        i += 1;
    }
    out
}

/// Where a file of a kind is counted, the first one is found.
proof fn first_namesake_found(items: Seq<FileKey>, i: int, raw: bool, from: int)
    requires
        0 <= from <= items.len(),
        tally(namesake(items, i, raw), from, items.len() as int) > 0,
    ensures
        from <= first_namesake(items, i, raw, from) < items.len(),
        namesake(items, i, raw)(first_namesake(items, i, raw, from)),
    decreases items.len() - from,
{
    let p = namesake(items, i, raw);
    if !p(from) {
        tally_split(p, from, from + 1, items.len() as int);
        assert(tally(p, from, from + 1) == 0) by {
            reveal_with_fuel(tally, 2);
        }
        first_namesake_found(items, i, raw, from + 1);
    }
}

/// Everything but the name of a key, so that keys of the same name differ where directories do.
proof fn joined_same_name(a: Seq<char>, b: Seq<char>, stem: Seq<char>)
    ensures
        joined(a, stem) == joined(b, stem) <==> a == b,
{
    if joined(a, stem) == joined(b, stem) {
        let x = joined(a, stem);
        let y = joined(b, stem);
        assert(x.len() == y.len());
        assert(x.take(a.len() as int) =~= a);
        assert(y.take(b.len() as int) =~= b);
    }
}

/// A JPG and a RAW of the same name in one directory share a key, and both count as paired.
pub proof fn partners_share_a_key(items: Seq<FileKey>, i: int, j: int)
    requires
        0 <= i < items.len(),
        0 <= j < items.len(),
        partners(items, i, j),
    ensures
        pairing(items, i).1,
        pairing(items, j).1,
        pairing(items, i).0 == pairing(items, j).0,
{
    assert(partners(items, j, i));
}

/// The only JPG and the only RAW of a name, in different directories, share a key, and both count
/// as paired.
pub proof fn single_namesakes_share_a_key(items: Seq<FileKey>, i: int, j: int)
    requires
        0 <= i < items.len(),
        0 <= j < items.len(),
        same_stem(items, i, j),
        !items[i].raw,
        items[j].raw,
        items[i].dir != items[j].dir,
        namesakes(items, i, false) == 1,
        namesakes(items, i, true) == 1,
    ensures
        pairing(items, i).1,
        pairing(items, j).1,
        pairing(items, i).0 == pairing(items, j).0,
{
    only_one(items, i, false, i);
    only_one(items, i, true, j);
    assert(first_namesake(items, i, false, 0) == i);
    assert(first_namesake(items, i, true, 0) == j);
    same_names_same_count(items, i, j, false, 0);
    same_names_same_count(items, i, j, true, 0);
    if has_partner(items, i) {
        let k = choose|k: int| 0 <= k < items.len() && #[trigger] partners(items, i, k);
        only_one(items, i, true, k);
        assert(k == j);
    }
    if has_partner(items, j) {
        let k = choose|k: int| 0 <= k < items.len() && #[trigger] partners(items, j, k);
        only_one(items, i, false, k);
        assert(k == i);
    }
}

/// Where one file of a kind is counted, it is the first one.
proof fn only_one(items: Seq<FileKey>, i: int, raw: bool, k: int)
    requires
        0 <= i < items.len(),
        0 <= k < items.len(),
        namesakes(items, i, raw) == 1,
        namesake(items, i, raw)(k),
    ensures
        first_namesake(items, i, raw, 0) == k,
{
    let n = items.len() as int;
    let p = namesake(items, i, raw);
    first_namesake_found(items, i, raw, 0);
    let a = first_namesake(items, i, raw, 0);
    if a != k {
        let q = |m: int| m == a;
        tally_strict(q, p, 0, n, k);
        tally_none(|m: int| false, 0, n);
        tally_strict(|m: int| false, q, 0, n, a);
    }
}

/// Files of one name see the same files of that name.
proof fn same_names_same_count(items: Seq<FileKey>, i: int, j: int, raw: bool, from: int)
    requires
        same_stem(items, i, j),
        0 <= from <= items.len(),
    ensures
        namesakes(items, i, raw) == namesakes(items, j, raw),
        first_namesake(items, i, raw, from) == first_namesake(items, j, raw, from),
    decreases items.len() - from,
{
    tally_same(namesake(items, i, raw), namesake(items, j, raw), 0, items.len() as int);
    if from < items.len() {
        same_names_same_count(items, i, j, raw, from + 1);
    }
}

/// Files of one name in two directories, each with a partner of its own, never share a key: a
/// camera that starts its numbers again does not merge photos.
pub proof fn local_pairs_stay_apart(items: Seq<FileKey>, i: int, j: int)
    requires
        0 <= i < items.len(),
        0 <= j < items.len(),
        same_stem(items, i, j),
        items[i].dir != items[j].dir,
        has_partner(items, i),
        has_partner(items, j),
    ensures
        pairing(items, i).0 != pairing(items, j).0,
{
    joined_same_name(items[i].dir, items[j].dir, items[i].stem);
}

/// Without a partner in its directory, a file whose name occurs twice in one kind stays unpaired.
pub proof fn ambiguous_names_stay_unpaired(items: Seq<FileKey>, i: int)
    requires
        0 <= i < items.len(),
        !has_partner(items, i),
        namesakes(items, i, false) >= 2 || namesakes(items, i, true) >= 2,
    ensures
        !pairing(items, i).1,
{
}

/// Unpaired files that differ in directory or name have different keys, where no name holds the
/// bar that parts directory and name.
pub proof fn unpaired_keys_differ(items: Seq<FileKey>, i: int, j: int)
    requires
        0 <= i < items.len(),
        0 <= j < items.len(),
        !pairing(items, i).1,
        !pairing(items, j).1,
        items[i].dir != items[j].dir || items[i].stem != items[j].stem,
        !items[i].stem.contains('|'),
        !items[j].stem.contains('|'),
    ensures
        pairing(items, i).0 != pairing(items, j).0,
{
    if pairing(items, i).0 == pairing(items, j).0 {
        joined_parts(items[i].dir, items[i].stem, items[j].dir, items[j].stem);
    }
}

/// A directory and a name can be told from the key that they are joined to, where the name holds no
/// bar.
proof fn joined_parts(d: Seq<char>, s: Seq<char>, e: Seq<char>, t: Seq<char>)
    requires
        joined(d, s) == joined(e, t),
        !s.contains('|'),
        !t.contains('|'),
    ensures
        d == e,
        s == t,
{
    let x = joined(d, s);
    let y = joined(e, t);
    assert((d + seq!['|']).len() == d.len() + 1);
    assert((e + seq!['|']).len() == e.len() + 1);
    assert(x.len() == d.len() + 1 + s.len());
    assert(y.len() == e.len() + 1 + t.len());
    assert(x[d.len() as int] == '|');
    assert(y[e.len() as int] == '|');
    if d.len() < e.len() {
        assert(x[e.len() as int] == s[e.len() - d.len() - 1]);
        assert(s.contains('|'));
    } else if e.len() < d.len() {
        assert(y[d.len() as int] == t[d.len() - e.len() - 1]);
        assert(t.contains('|'));
    }
    assert(x.take(d.len() as int) =~= d);
    assert(y.take(e.len() as int) =~= e);
    assert(x.skip(d.len() as int + 1) =~= s);
    assert(y.skip(e.len() as int + 1) =~= t);
}

/// Files `i` and `j` are the JPG and the RAW of one photo: in one directory, or the only two of
/// their name in different ones.
pub open spec fn one_photo(items: Seq<FileKey>, i: int, j: int) -> bool {
    ||| partners(items, i, j)
    ||| {
        &&& same_stem(items, i, j)
        &&& items[i].raw != items[j].raw
        &&& items[i].dir != items[j].dir
        &&& namesakes(items, i, false) == 1
        &&& namesakes(items, i, true) == 1
    }
}

/// The files differ in directory, name or kind, and no directory and no name holds the bar that
/// parts them in a key.
pub open spec fn well_named(items: Seq<FileKey>) -> bool {
    &&& forall|i: int, j: int|
        0 <= i < items.len() && 0 <= j < items.len() && i != j ==> #[trigger] items[i]
            != #[trigger] items[j]
    &&& forall|i: int|
        0 <= i < items.len() ==> !(#[trigger] items[i]).dir.contains('|') && !items[i].stem.contains(
            '|',
        )
}

/// A key across directories is never one of a single directory.
proof fn cross_key_differs(dir: Seq<char>, s: Seq<char>, e: Seq<char>, t: Seq<char>)
    requires
        !s.contains('|'),
        !t.contains('|'),
        !e.contains('|'),
    ensures
        "cross|"@ + joined(dir, s) != joined(e, t),
{
    reveal_strlit("cross|");
    let c = "cross|"@ + dir;
    assert("cross|"@ + joined(dir, s) =~= joined(c, s));
    if joined(c, s) == joined(e, t) {
        joined_parts(c, s, e, t);
        assert(c[5] == '|');
        assert(e.contains('|'));
    }
}

/// Two files share a key exactly where they are the JPG and the RAW of one photo, and both then count
/// as paired. So the key of every other file is its own.
pub proof fn keys_agree_only_in_a_pair(items: Seq<FileKey>, i: int, j: int)
    requires
        0 <= i < items.len(),
        0 <= j < items.len(),
        i != j,
        well_named(items),
    ensures
        pairing(items, i).0 == pairing(items, j).0 <==> one_photo(items, i, j),
        one_photo(items, i, j) ==> pairing(items, i).1 && pairing(items, j).1,
{
    if one_photo(items, i, j) {
        if partners(items, i, j) {
            partners_share_a_key(items, i, j);
        } else {
            same_names_same_count(items, i, j, false, 0);
            same_names_same_count(items, i, j, true, 0);
            if items[i].raw {
                single_namesakes_share_a_key(items, j, i);
            } else {
                single_namesakes_share_a_key(items, i, j);
            }
        }
    }
    if pairing(items, i).0 == pairing(items, j).0 {
        let cross_i = !has_partner(items, i) && crosses(items, i);
        let cross_j = !has_partner(items, j) && crosses(items, j);
        let di = items[first_namesake(items, i, false, 0)].dir;
        let dj = items[first_namesake(items, j, false, 0)].dir;
        let (s, t) = (items[i].stem, items[j].stem);
        if cross_i && cross_j {
            reveal_strlit("cross|");
            let x = "cross|"@ + joined(di, s);
            let y = "cross|"@ + joined(dj, t);
            assert(x.skip(6) =~= joined(di, s));
            assert(y.skip(6) =~= joined(dj, t));
            joined_parts(di, s, dj, t);
            same_names_same_count(items, i, j, false, 0);
            same_names_same_count(items, i, j, true, 0);
            assert(namesake(items, i, items[i].raw)(i));
            assert(namesake(items, i, items[j].raw)(j));
            only_one(items, i, items[i].raw, i);
            only_one(items, i, items[j].raw, j);
            assert(items[i].raw != items[j].raw);
        } else if cross_i {
            cross_key_differs(di, s, items[j].dir, t);
        } else if cross_j {
            cross_key_differs(dj, t, items[i].dir, s);
        } else {
            joined_parts(items[i].dir, s, items[j].dir, t);
            assert(items[i] != items[j]);
            assert(partners(items, i, j));
        }
    }
}

/// The order of the files does not matter: a reordering changes no key and pairs the same files.
pub proof fn order_of_files_does_not_matter(
    a: Seq<FileKey>,
    b: Seq<FileKey>,
    f: spec_fn(int) -> int,
    g: spec_fn(int) -> int,
    i: int,
)
    requires
        a.len() == b.len(),
        reorders(f, g, a.len() as int),
        forall|k: int| 0 <= k < a.len() ==> #[trigger] a[k] == b[f(k)],
        0 <= i < a.len(),
    ensures
        pairing(a, i) == pairing(b, f(i)),
{
    let n = a.len() as int;
    let j = f(i);
    assert(a[i] == b[j]);
    tally_reordered(namesake(a, i, false), namesake(b, j, false), f, g, n);
    tally_reordered(namesake(a, i, true), namesake(b, j, true), f, g, n);
    if has_partner(a, i) {
        let k = choose|k: int| 0 <= k < a.len() && #[trigger] partners(a, i, k);
        assert(a[k] == b[f(k)]);
        assert(partners(b, j, f(k)));
    }
    if has_partner(b, j) {
        let k = choose|k: int| 0 <= k < b.len() && #[trigger] partners(b, j, k);
        assert(f(g(k)) == k);
        assert(a[g(k)] == b[f(g(k))]);
        assert(partners(a, i, g(k)));
    }
    if namesakes(a, i, false) == 1 && namesakes(a, i, true) == 1 {
        same_first(a, b, f, i, false);
        same_first(a, b, f, i, true);
    }
}

/// The only file of a kind stays the only one in a reordering.
proof fn same_first(a: Seq<FileKey>, b: Seq<FileKey>, f: spec_fn(int) -> int, i: int, raw: bool)
    requires
        a.len() == b.len(),
        0 <= i < a.len(),
        forall|k: int| 0 <= k < a.len() ==> 0 <= #[trigger] f(k) < b.len() && a[k] == b[f(k)],
        namesakes(a, i, raw) == 1,
        namesakes(b, f(i), raw) == 1,
    ensures
        a[first_namesake(a, i, raw, 0)] == b[first_namesake(b, f(i), raw, 0)],
{
    first_namesake_found(a, i, raw, 0);
    let k = first_namesake(a, i, raw, 0);
    assert(a[k] == b[f(k)] && a[i] == b[f(i)]);
    assert(namesake(b, f(i), raw)(f(k)));
    only_one(b, f(i), raw, f(k));
}

/// The key of a file tells directories apart, and does not depend on the case of ASCII letters.
pub proof fn pair_key_tells_directories_apart(
    a: Seq<char>,
    b: Seq<char>,
    name: Seq<char>,
    other: Seq<char>,
)
    requires
        lowered(stem_spec(name)) == lowered(stem_spec(other)),
    ensures
        joined(lowered(a), lowered(stem_spec(name))) == joined(
            lowered(b),
            lowered(stem_spec(other)),
        ) <==> lowered(a) == lowered(b),
{
    joined_same_name(lowered(a), lowered(b), lowered(stem_spec(name)));
}

/// A file name parts at its last dot: what stands before it is the name, what stands behind it the
/// extension, in lower case. Photos are told by it: `jpg`, `jpeg` and `arw`. Without a dot the whole is
/// both.
pub proof fn names_part_at_the_last_dot(stem: Seq<char>, ext: Seq<char>)
    requires
        forall|i: int| 0 <= i < ext.len() ==> ext[i] != '.',
    ensures
        stem_spec(stem + seq!['.'] + ext) == stem,
        extension_spec(stem + seq!['.'] + ext) == lowered(ext),
        is_supported(stem + seq!['.'] + ext) <==> lowered(ext) == "jpg"@ || lowered(ext) == "jpeg"@
            || lowered(ext) == "arw"@,
        stem_spec(ext) == ext,
        extension_spec(ext) == lowered(ext),
{
    let name = stem + seq!['.'] + ext;
    let n = name.len() as int;
    let p = last_of(name, '.', n);
    last_of_range(name, '.', n);
    assert(name[stem.len() as int] == '.');
    if p > stem.len() {
        assert(name[p] == ext[p - stem.len() - 1]);
    }
    assert(p == stem.len());
    assert(name.take(p) =~= stem);
    assert(name.skip(p + 1) =~= ext);
    last_of_range(ext, '.', ext.len() as int);
    assert(ext.skip(0) =~= ext);
}

/// A file counts as paired exactly where another file makes one photo with it: of the other kind and the
/// same name, in its own directory, or as the only one in the tree.
pub proof fn paired_files_have_another_file(items: Seq<FileKey>, i: int)
    requires
        0 <= i < items.len(),
    ensures
        pairing(items, i).1 <==> exists|j: int|
            0 <= j < items.len() && (#[trigger] items[j]).raw != items[i].raw && items[j].stem
                == items[i].stem && (items[j].dir == items[i].dir || (tally(
                |k: int| items[k].stem == items[i].stem && !items[k].raw,
                0,
                items.len() as int,
            ) == 1 && tally(
                |k: int| items[k].stem == items[i].stem && items[k].raw,
                0,
                items.len() as int,
            ) == 1)),
{
    let n = items.len() as int;
    let jpg = |k: int| items[k].stem == items[i].stem && !items[k].raw;
    let arw = |k: int| items[k].stem == items[i].stem && items[k].raw;
    tally_same(jpg, namesake(items, i, false), 0, n);
    tally_same(arw, namesake(items, i, true), 0, n);
    if has_partner(items, i) {
        let j = choose|j: int| 0 <= j < items.len() && #[trigger] partners(items, i, j);
        assert(items[j].raw != items[i].raw);
    } else if crosses(items, i) {
        only_one(items, i, items[i].raw, i);
        first_namesake_found(items, i, !items[i].raw, 0);
        let j = first_namesake(items, i, !items[i].raw, 0);
        assert(items[j].raw != items[i].raw);
    }
    if exists|j: int|
        0 <= j < items.len() && (#[trigger] items[j]).raw != items[i].raw && items[j].stem
            == items[i].stem && (items[j].dir == items[i].dir || (tally(jpg, 0, n) == 1 && tally(
            arw,
            0,
            n,
        ) == 1)) {
        let j = choose|j: int|
            0 <= j < items.len() && (#[trigger] items[j]).raw != items[i].raw && items[j].stem
                == items[i].stem && (items[j].dir == items[i].dir || (tally(jpg, 0, n) == 1 && tally(
                arw,
                0,
                n,
            ) == 1));
        if items[j].dir == items[i].dir {
            assert(partners(items, i, j));
        } else if !has_partner(items, i) {
            only_one(items, i, items[i].raw, i);
            only_one(items, i, items[j].raw, j);
        }
    }
}

} // verus!
