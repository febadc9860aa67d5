//! From found files and their EXIF fields to rows.
use crate::scan::{blank_row, extension_of, extension_spec, file_keys, is_raw_file, is_supported, is_supported_file, names_part_at_the_last_dot, pairing, partners, partners_share_a_key, resolve_pairs, stem_of, stem_spec, FileKey, PairItem, PhotoEntry, PhotoView};
use crate::review::paths::{is_separator, names_contain, rel_path, relative_path, segments, segments_join, single_name};
use crate::review::snapshot::{by_path, by_path_is_sorted, order_by_path, text_order};
use crate::text::{chars_of, lowercase, lowered, same_text, text_before, text_of, texts_are_ordered_by_their_first_difference, trim, trimmed};
use exif::{In, Reader, Tag, Value};
use std::io::Cursor;
use vstd::prelude::*;

verus! {

/// What an EXIF field holds.
#[derive(Debug)]
pub enum ExifValue {
    /// The file has no such field.
    Missing,
    /// Strings.
    Ascii(Vec<String>),
    /// Anything else, as it is shown.
    Other(String),
}

/// What an EXIF field holds, as text.
pub enum ExifView {
    Missing,
    Ascii(Seq<Seq<char>>),
    Other(Seq<char>),
}

impl View for ExifValue {
    type V = ExifView;

    open spec fn view(&self) -> ExifView {
        match self {
            ExifValue::Missing => ExifView::Missing,
            ExifValue::Ascii(v) => ExifView::Ascii(v@.map_values(|s: String| s@)),
            ExifValue::Other(s) => ExifView::Other(s@),
        }
    }
}

/// The first text from `k` on that is not empty, without white space at its ends; empty if there
/// is none.
pub open spec fn first_filled(v: Seq<Seq<char>>, k: int) -> Seq<char>
    decreases v.len() - k,
{
    if k >= v.len() {
        Seq::empty()
    } else if v[k].len() > 0 {
        trimmed(v[k])
    } else {
        first_filled(v, k + 1)
    }
}

/// The text of an EXIF field: of several strings the first that is not empty.
pub open spec fn exif_spec(v: ExifView) -> Seq<char> {
    match v {
        ExifView::Missing => Seq::empty(),
        ExifView::Ascii(list) => first_filled(list, 0),
        ExifView::Other(s) => s,
    }
}

/// The text of an EXIF field.
pub fn exif_text(v: &ExifValue) -> (r: String)
    ensures
        r@ == exif_spec(v@),
{
    match v {
        ExifValue::Missing => {
            let s = String::new();
            assert(s@ =~= Seq::<char>::empty());
            s
        },
        ExifValue::Ascii(list) => {
            let ghost all = list@.map_values(|s: String| s@);
            let mut k: usize = 0;
            while k < list.len()
                invariant
                    k <= list.len(),
                    all == list@.map_values(|s: String| s@),
                    v@ == ExifView::Ascii(all),
                    first_filled(all, 0) == first_filled(all, k as int),
                decreases list.len() - k,
            {
                let chars = chars_of(list[k].as_str());
                assert(all[k as int] == chars@);
                if chars.len() > 0 {
                    assert(first_filled(all, k as int) == trimmed(all[k as int]));
                    return text_of(&trim(&chars));
                }
                k += 1;
            }
            let s = String::new();
            assert(s@ =~= Seq::<char>::empty());
            s
        },
        ExifValue::Other(s) => s.clone(),
    }
}

/// The EXIF fields that are read.
#[derive(Debug)]
pub struct ExifFields {
    pub date_time_original: ExifValue,
    pub camera_make: ExifValue,
    pub camera_model: ExifValue,
    pub lens_model: ExifValue,
    pub iso: ExifValue,
    pub f_number: ExifValue,
    pub shutter_speed: ExifValue,
    pub focal_length: ExifValue,
}

/// What the EXIF data in the bytes of a file hold for the field with the given tag, of the primary
/// image.
pub uninterp spec fn exif_field(bytes: Seq<u8>, tag: u16) -> ExifView;

/// Reads EXIF fields with `exif::Reader::read_from_container` and `Exif::get_field`: strings as they
/// are stored, with the mark of `String::from_utf8_lossy` for what is no text, and other values as
/// `Field::display_value` shows them. What a field holds is named `exif_field` of its tag; a file
/// whose data cannot be read has no fields.
#[verifier::external_body]
fn read_fields(bytes: &[u8]) -> (r: ExifFields)
    ensures
        r.date_time_original@ == exif_field(bytes@, 0x9003),
        r.camera_make@ == exif_field(bytes@, 0x010f),
        r.camera_model@ == exif_field(bytes@, 0x0110),
        r.lens_model@ == exif_field(bytes@, 0xa434),
        r.iso@ == exif_field(bytes@, 0x8827),
        r.f_number@ == exif_field(bytes@, 0x829d),
        r.shutter_speed@ == exif_field(bytes@, 0x829a),
        r.focal_length@ == exif_field(bytes@, 0x920a),
{
    let data = Reader::new().read_from_container(&mut Cursor::new(bytes));
    let get = |t| data.iter().find_map(|d| d.get_field(t, In::PRIMARY)).map_or(ExifValue::Missing, |f| match &f.value {
        Value::Ascii(v) => ExifValue::Ascii(v.iter().map(|s| String::from_utf8_lossy(s).into()).collect()),
        _ => ExifValue::Other(f.display_value().to_string())
    });
    ExifFields {
        date_time_original: get(Tag::DateTimeOriginal), camera_make: get(Tag::Make),
        camera_model: get(Tag::Model), lens_model: get(Tag::LensModel),
        iso: get(Tag::PhotographicSensitivity), f_number: get(Tag::FNumber),
        shutter_speed: get(Tag::ExposureTime), focal_length: get(Tag::FocalLength)
    }
}

/// The fields are those that the bytes of a file hold.
pub open spec fn fields_in(f: ExifFields, bytes: Seq<u8>) -> bool {
    &&& f.date_time_original@ == exif_field(bytes, 0x9003)
    &&& f.camera_make@ == exif_field(bytes, 0x010f)
    &&& f.camera_model@ == exif_field(bytes, 0x0110)
    &&& f.lens_model@ == exif_field(bytes, 0xa434)
    &&& f.iso@ == exif_field(bytes, 0x8827)
    &&& f.f_number@ == exif_field(bytes, 0x829d)
    &&& f.shutter_speed@ == exif_field(bytes, 0x829a)
    &&& f.focal_length@ == exif_field(bytes, 0x920a)
}

/// Reads the EXIF fields from the bytes of a file.
pub fn read_exif(bytes: &[u8]) -> (r: ExifFields)
    ensures
        fields_in(r, bytes@),
{
    read_fields(bytes)
}

/// A file that a walk over the directories came to.
#[derive(Debug)]
pub struct WalkedFile {
    /// Path of the file.
    pub path: String,
    /// Directory that it lies in.
    pub dir: String,
    /// Name of the file.
    pub name: String,
}

/// What a `WalkedFile` holds.
pub struct WalkedView {
    pub path: Seq<char>,
    pub dir: Seq<char>,
    pub name: Seq<char>,
}

impl View for WalkedFile {
    type V = WalkedView;

    open spec fn view(&self) -> WalkedView {
        WalkedView { path: self.path@, dir: self.dir@, name: self.name@ }
    }
}

impl Clone for WalkedFile {
    fn clone(&self) -> (r: Self)
        ensures
            r@ == self@,
    {
        WalkedFile { path: self.path.clone(), dir: self.dir.clone(), name: self.name.clone() }
    }
}

/// The files, as text.
pub open spec fn walked_views(files: Seq<WalkedFile>) -> Seq<WalkedView> {
    files.map_values(|f: WalkedFile| f@)
}

/// The file is a photo to be listed: it has one of the extensions that are read, and does not lie in
/// a directory of the program below `root`.
pub open spec fn is_listed(root: Seq<char>, f: WalkedView) -> bool {
    is_supported(f.name) && !segments(relative_path(root, f.path)).contains(CACHE_DIR@)
}

/// The photos to be listed among the first `k` files.
pub open spec fn listed(root: Seq<char>, files: Seq<WalkedView>, k: int) -> Seq<WalkedView>
    decreases k,
{
    if k <= 0 {
        Seq::empty()
    } else {
        let s = listed(root, files, k - 1);
        if is_listed(root, files[k - 1]) {
            s.push(files[k - 1])
        } else {
            s
        }
    }
}

/// A path as it is compared: name by name, so that what parts the names comes before every other
/// character.
pub open spec fn path_key(p: Seq<char>) -> Seq<char> {
    p.map_values(|c: char| if is_separator(c) { '\0' } else { c })
}

/// The paths of files, as they are compared.
pub open spec fn path_keys(files: Seq<WalkedView>) -> Seq<Seq<char>> {
    files.map_values(|f: WalkedView| path_key(f.path))
}

/// The photos to be listed, in the order of their paths.
pub open spec fn selected(root: Seq<char>, files: Seq<WalkedView>) -> Seq<WalkedView> {
    let s = listed(root, files, files.len() as int);
    by_path(path_keys(s), s.len() as int).map_values(|i: int| s[i])
}

/// A path as it is compared.
fn key_of(path: &str) -> (r: Vec<char>)
    ensures
        r@ == path_key(path@),
{
    let v = chars_of(path);
    let mut out: Vec<char> = Vec::new();
    let mut i: usize = 0;
    while i < v.len()
        invariant
            i <= v.len(),
            v@ == path@,
            out.len() == i,
            forall|k: int| 0 <= k < i ==> #[trigger] out[k] == path_key(path@)[k],
        decreases v.len() - i,
    {
        let c = v[i];
        out.push(if c == '/' || c == '\\' { '\0' } else { c });
        i += 1;
    }
    assert(out@ =~= path_key(path@));
    out
}

/// Of the files that a walk below `root` came to, selects the photos to be listed, in the order of
/// their paths.
pub fn select_files(root: &str, found: &Vec<WalkedFile>) -> (r: Vec<WalkedFile>)
    ensures
        walked_views(r@) == selected(root@, walked_views(found@)),
{
    let ghost all = walked_views(found@);
    let mut kept: Vec<WalkedFile> = Vec::new();
    let mut keys: Vec<Vec<char>> = Vec::new();
    let mut i: usize = 0;
    assert(walked_views(kept@) =~= listed(root@, all, 0));
    while i < found.len()
        invariant
            i <= found.len(),
            all == walked_views(found@),
            kept.len() == keys.len(),
            walked_views(kept@) == listed(root@, all, i as int),
            forall|k: int| 0 <= k < keys.len() ==> (#[trigger] keys[k])@ == path_key(kept[k].path@),
        decreases found.len() - i,
    {
        let f = &found[i];
        assert(all[i as int] == f@);
        let inner = chars_of(rel_path(root, f.path.as_str()).as_str());
        if is_supported_file(f.name.as_str()) && !names_contain(&inner, CACHE_DIR) {
            let ghost before = kept@;
            let c = f.clone();
            keys.push(key_of(f.path.as_str()));
            kept.push(c);
            assert(walked_views(kept@) =~= walked_views(before).push(f@));
        }
        i += 1;
    }
    let ghost s = listed(root@, all, all.len() as int);
    assert(keys@.map_values(|v: Vec<char>| v@) =~= path_keys(s)) by {
        assert forall|k: int| 0 <= k < keys.len() implies (#[trigger] keys[k])@ == path_keys(s)[k] by {
            assert(walked_views(kept@)[k] == kept[k]@);
        }
        assert(walked_views(kept@).len() == kept.len());
    }
    let order = order_by_path(&keys);
    let ghost o = by_path(path_keys(s), s.len() as int);
    let mut out: Vec<WalkedFile> = Vec::new();
    let mut k: usize = 0;
    while k < order.len()
        invariant
            k <= order.len(),
            order.len() == kept.len(),
            s == walked_views(kept@),
            o == order@.map_values(|i: usize| i as int),
            forall|k: int| 0 <= k < order.len() ==> #[trigger] order[k] < kept.len(),
            out.len() == k,
            forall|j: int| 0 <= j < k ==> (#[trigger] out[j])@ == s[o[j]],
        decreases order.len() - k,
    {
        assert(order[k as int] < kept.len());
        assert(o[k as int] == order[k as int]);
        out.push(kept[order[k]].clone());
        k += 1;
    }
    assert(walked_views(out@) =~= selected(root@, all));
    out
}

/// The photos to be listed are exactly the files that were selected.
pub proof fn photos_are_selected(root: Seq<char>, files: Seq<WalkedView>, f: WalkedView)
    ensures
        selected(root, files).contains(f) <==> files.contains(f) && is_listed(root, f),
{
    let n = files.len() as int;
    let s = listed(root, files, n);
    listed_is_exact(root, files, n, f);
    by_path_is_sorted(path_keys(s), s.len() as int);
    let o = by_path(path_keys(s), s.len() as int);
    let t = selected(root, files);
    if t.contains(f) {
        let k = choose|k: int| 0 <= k < t.len() && t[k] == f;
        assert(s[o[k]] == f);
    }
    if s.contains(f) {
        let i = choose|i: int| 0 <= i < s.len() && s[i] == f;
        assert(o.contains(i));
        let k = choose|k: int| 0 <= k < o.len() && o[k] == i;
        assert(t[k] == f);
    }
}

/// The photos among the first `k` files are those that were found and are to be listed.
proof fn listed_is_exact(root: Seq<char>, files: Seq<WalkedView>, k: int, f: WalkedView)
    requires
        0 <= k <= files.len(),
    ensures
        listed(root, files, k).contains(f) <==> files.take(k).contains(f) && is_listed(root, f),
        k == files.len() ==> (files.take(k).contains(f) <==> files.contains(f)),
        listed(root, files, k).len() <= k,
    decreases k,
{
    assert(k == files.len() ==> files.take(k) =~= files);
    if k > 0 {
        listed_is_exact(root, files, k - 1, f);
        let s = listed(root, files, k - 1);
        let t = listed(root, files, k);
        let a = files.take(k - 1);
        let b = files.take(k);
        assert(b =~= a.push(files[k - 1]));
        if a.contains(f) {
            let i = choose|i: int| 0 <= i < a.len() && a[i] == f;
            assert(b[i] == f);
        }
        if files[k - 1] == f {
            assert(b[k - 1] == f);
        }
        if s.contains(f) {
            let i = choose|i: int| 0 <= i < s.len() && s[i] == f;
            assert(t[i] == f);
        }
        if is_listed(root, files[k - 1]) && files[k - 1] == f {
            assert(t[s.len() as int] == f);
        }
    }
}

/// The selected photos come in the order of their paths, and each file that was found is selected
/// at most once.
pub proof fn selection_is_ordered(root: Seq<char>, files: Seq<WalkedView>, i: int, j: int)
    requires
        0 <= i < j < selected(root, files).len(),
    ensures
        !text_before(
            path_key(selected(root, files)[j].path),
            path_key(selected(root, files)[i].path),
        ),
        selected(root, files).len() == listed(root, files, files.len() as int).len(),
{
    let s = listed(root, files, files.len() as int);
    by_path_is_sorted(path_keys(s), s.len() as int);
    let o = by_path(path_keys(s), s.len() as int);
    let (a, b) = (o[i], o[j]);
    assert(selected(root, files)[i] == s[a] && selected(root, files)[j] == s[b]);
    assert(path_keys(s)[a] == path_key(s[a].path) && path_keys(s)[b] == path_key(s[b].path));
    text_order(path_keys(s)[a], path_keys(s)[b], path_keys(s)[a]);
}

/// A photo file that was found.
#[derive(Debug)]
pub struct FoundFile {
    /// Path of the file.
    pub path: String,
    /// Directory that it lies in.
    pub dir: String,
    /// Name of the file.
    pub name: String,
    pub exif: ExifFields,
}

/// Directory in which the program keeps files of its own; nothing in it is a photo.
pub const CACHE_DIR: &'static str = ".firstcut";

/// Tells whether a directory is that of the program.
pub fn is_cache_dir(name: &str) -> (r: bool)
    ensures
        r == (name@ == CACHE_DIR@),
{
    same_text(name, CACHE_DIR)
}

/// Directory, name and kind by which each file is paired, in lower case.
pub open spec fn found_keys(files: Seq<FoundFile>) -> Seq<FileKey> {
    files.map_values(
        |f: FoundFile|
            FileKey {
                dir: lowered(f.dir@),
                stem: lowered(stem_spec(f.name@)),
                raw: extension_spec(f.name@) == "arw"@,
            },
    )
}

/// The row of a found file with the given key.
pub open spec fn found_row(f: FoundFile, key: Seq<char>, paired: bool) -> PhotoView {
    PhotoView {
        path: f.path@,
        filename: f.name@,
        extension: extension_spec(f.name@),
        is_raw: extension_spec(f.name@) == "arw"@,
        has_pair: paired,
        pair_id: key,
        date_time_original: exif_spec(f.exif.date_time_original@),
        camera_make: exif_spec(f.exif.camera_make@),
        camera_model: exif_spec(f.exif.camera_model@),
        lens_model: exif_spec(f.exif.lens_model@),
        iso: exif_spec(f.exif.iso@),
        f_number: exif_spec(f.exif.f_number@),
        shutter_speed: exif_spec(f.exif.shutter_speed@),
        focal_length: exif_spec(f.exif.focal_length@),
        ..blank_row()
    }
}

/// The items by which files are paired.
fn pair_items(files: &Vec<FoundFile>) -> (r: Vec<PairItem>)
    ensures
        r.len() == files.len(),
        file_keys(r@) == found_keys(files@),
{
    let mut items: Vec<PairItem> = Vec::new();
    let mut i: usize = 0;
    while i < files.len()
        invariant
            i <= files.len(),
            items.len() == i,
            forall|k: int| 0 <= k < i ==> #[trigger] file_keys(items@)[k] == found_keys(files@)[k],
        decreases files.len() - i,
    {
        let f = &files[i];
        let dir = lowercase(&chars_of(f.dir.as_str()));
        let stem = stem_of(f.name.as_str());
        let raw = is_raw_file(f.name.as_str());
        let ghost before = items@;
        items.push((dir, stem, raw));
        assert forall|k: int| 0 <= k < i + 1 implies #[trigger] file_keys(items@)[k] == found_keys(
            files@,
        )[k] by {
            if k < i {
                assert(file_keys(items@)[k] == file_keys(before)[k]);
            }
        }
        i += 1;
    }
    assert(file_keys(items@) =~= found_keys(files@));
    items
}

/// Turns the photo files that were found, in their order, into rows, with the keys by which the JPG
/// and the RAW of one photo belong together.
pub fn index_files(files: &Vec<FoundFile>) -> (r: Vec<PhotoEntry>)
    ensures
        r.len() == files.len(),
        forall|i: int|
            0 <= i < files.len() ==> (#[trigger] r[i])@ == found_row(
                files[i],
                pairing(found_keys(files@), i).0,
                pairing(found_keys(files@), i).1,
            ),
{
    let items = pair_items(files);
    let keys = resolve_pairs(&items);
    let ghost keyed = found_keys(files@);
    let mut out: Vec<PhotoEntry> = Vec::new();
    let mut i: usize = 0;
    while i < files.len()
        invariant
            i <= files.len(),
            keys.len() == items.len() == files.len(),
            forall|k: int|
                0 <= k < keys.len() ==> ((#[trigger] keys[k]).0@, keys[k].1) == pairing(keyed, k),
            out.len() == i,
            forall|k: int|
                0 <= k < i ==> (#[trigger] out[k])@ == found_row(
                    files[k],
                    pairing(keyed, k).0,
                    pairing(keyed, k).1,
                ),
        decreases files.len() - i,
    {
        let f = &files[i];
        let mut e = PhotoEntry::default();
        e.path = f.path.clone();
        e.filename = f.name.clone();
        e.extension = extension_of(f.name.as_str());
        e.is_raw = is_raw_file(f.name.as_str());
        e.has_pair = keys[i].1;
        e.pair_id = keys[i].0.clone();
        e.date_time_original = exif_text(&f.exif.date_time_original);
        e.camera_make = exif_text(&f.exif.camera_make);
        e.camera_model = exif_text(&f.exif.camera_model);
        e.lens_model = exif_text(&f.exif.lens_model);
        e.iso = exif_text(&f.exif.iso);
        e.f_number = exif_text(&f.exif.f_number);
        e.shutter_speed = exif_text(&f.exif.shutter_speed);
        e.focal_length = exif_text(&f.exif.focal_length);
        assert((keys[i as int].0@, keys[i as int].1) == pairing(keyed, i as int));
        assert(e@ =~= found_row(
            files[i as int],
            pairing(keyed, i as int).0,
            pairing(keyed, i as int).1,
        ));
        out.push(e);
        i += 1;
    }
    out
}

/// The row of a file shows each field of its EXIF data in the column for it, by its tag, and nothing yet
/// of scores and bursts.
pub proof fn rows_show_the_exif_fields(f: FoundFile, bytes: Seq<u8>, key: Seq<char>, paired: bool)
    requires
        fields_in(f.exif, bytes),
    ensures
        ({
            let v = found_row(f, key, paired);
            let text = |tag: u16| exif_spec(exif_field(bytes, tag));
            &&& v.path == f.path@ && v.filename == f.name@ && v.pair_id == key && v.has_pair == paired
            &&& v.camera_make == text(0x010f)
            &&& v.camera_model == text(0x0110)
            &&& v.shutter_speed == text(0x829a)
            &&& v.f_number == text(0x829d)
            &&& v.iso == text(0x8827)
            &&& v.date_time_original == text(0x9003)
            &&& v.focal_length == text(0x920a)
            &&& v.lens_model == text(0xa434)
            &&& v.is_raw <==> v.extension == "arw"@
            &&& v.sharpness_score.len() == 0 && v.exposure_score.len() == 0 && v.noise_score.len() == 0
            &&& v.composition_score.len() == 0 && v.aesthetic_score.len() == 0
            &&& v.total_score.len() == 0 && v.stars.len() == 0 && v.suggested_ev.len() == 0
            &&& v.burst_group.len() == 0 && v.burst_size.len() == 0 && v.burst_rank.len() == 0
            &&& v.burst_keep.len() == 0 && v.burst_pose.len() == 0 && v.analysis_ok.len() == 0
        }),
{
}

/// Of several strings the first that is not empty is the text of a field, without white space at its
/// ends; a field of empty strings, and a missing one, has no text.
pub proof fn the_first_filled_string_is_the_text(v: Seq<Seq<char>>, i: int)
    requires
        0 <= i <= v.len(),
        forall|j: int| 0 <= j < i ==> (#[trigger] v[j]).len() == 0,
        i < v.len() ==> v[i].len() > 0,
    ensures
        i < v.len() ==> exif_spec(ExifView::Ascii(v)) == trimmed(v[i]),
        i == v.len() ==> exif_spec(ExifView::Ascii(v)).len() == 0,
        exif_spec(ExifView::Missing).len() == 0,
{
    skip_empty(v, 0, i);
}

/// Empty strings are passed over.
proof fn skip_empty(v: Seq<Seq<char>>, k: int, i: int)
    requires
        0 <= k <= i <= v.len(),
        forall|j: int| k <= j < i ==> (#[trigger] v[j]).len() == 0,
    ensures
        first_filled(v, k) == first_filled(v, i),
    decreases i - k,
{
    if k < i {
        assert(v[k].len() == 0);
        skip_empty(v, k + 1, i);
    }
}

/// Paths are compared name by name: what lies in a directory comes before a longer name that starts like
/// the directory.
pub proof fn directories_come_before_longer_names(p: Seq<char>, x: Seq<char>, c: char, y: Seq<char>)
    requires
        c != '/',
        c != '\\',
        c != '\0',
    ensures
        text_before(path_key(p + seq!['/'] + x), path_key(p + seq![c] + y)),
{
    assert(path_key(p + seq!['/'] + x) =~= path_key(p) + seq!['\0'] + path_key(x));
    assert(path_key(p + seq![c] + y) =~= path_key(p) + seq![c] + path_key(y));
    texts_are_ordered_by_their_first_difference(path_key(p), '\0', c, path_key(x), path_key(y));
}

/// Nothing in a directory of the program is listed, however deep that lies below the root.
pub proof fn files_of_the_program_are_not_listed(
    root: Seq<char>,
    f: WalkedView,
    a: Seq<char>,
    b: Seq<char>,
)
    requires
        relative_path(root, f.path) == a + seq!['/'] + (".firstcut"@ + seq!['/'] + b) || relative_path(
            root,
            f.path,
        ) == ".firstcut"@ + seq!['/'] + b,
    ensures
        !is_listed(root, f),
{
    let own = ".firstcut"@;
    reveal_strlit(".firstcut");
    assert(own == CACHE_DIR@);
    assert forall|i: int| 0 <= i < own.len() implies !is_separator(#[trigger] own[i]) by {}
    single_name(own);
    segments_join(own, b);
    assert((segments(own) + segments(b))[0] == own);
    segments_join(a, own + seq!['/'] + b);
    let n = segments(a).len() as int;
    assert((segments(a) + (segments(own) + segments(b)))[n] == own);
}

/// A photo that lies in no such directory is listed, and no other file is.
pub proof fn photos_outside_are_listed(root: Seq<char>, f: WalkedView)
    requires
        !segments(relative_path(root, f.path)).contains(".firstcut"@),
    ensures
        is_listed(root, f) <==> extension_spec(f.name) == "jpg"@ || extension_spec(f.name) == "jpeg"@
            || extension_spec(f.name) == "arw"@,
{
}

/// A JPG and a RAW of one directory that agree in name but for extension and case are one photo: both
/// rows show the pair, with the same key.
pub proof fn jpg_and_raw_of_a_directory_are_one_photo(
    files: Seq<FoundFile>,
    i: int,
    j: int,
    s: Seq<char>,
    e: Seq<char>,
    t: Seq<char>,
    g: Seq<char>,
)
    requires
        0 <= i < files.len(),
        0 <= j < files.len(),
        files[i].name@ == s + seq!['.'] + e,
        files[j].name@ == t + seq!['.'] + g,
        forall|k: int| 0 <= k < e.len() ==> e[k] != '.',
        forall|k: int| 0 <= k < g.len() ==> g[k] != '.',
        lowered(e) != "arw"@,
        lowered(g) == "arw"@,
        lowered(s) == lowered(t),
        lowered(files[i].dir@) == lowered(files[j].dir@),
    ensures
        ({
            let keys = found_keys(files);
            let a = found_row(files[i], pairing(keys, i).0, pairing(keys, i).1);
            let b = found_row(files[j], pairing(keys, j).0, pairing(keys, j).1);
            &&& a.has_pair && b.has_pair
            &&& a.pair_id == b.pair_id
            &&& !a.is_raw && b.is_raw
        }),
{
    let keys = found_keys(files);
    names_part_at_the_last_dot(s, e);
    names_part_at_the_last_dot(t, g);
    assert(keys[i].dir == keys[j].dir && keys[i].stem == keys[j].stem);
    assert(partners(keys, i, j));
    partners_share_a_key(keys, i, j);
}

} // verus!
