//! What earlier runs found: stored rows, when they may be used again, and which have to be written.
use crate::score::AnalysisResult;
use vstd::hash_map::StringHashMap;
use vstd::hash_set::StringHashSet;
use vstd::prelude::*;

verus! {

/// Number of the analysis: rows of another number are not used.
pub const CACHE_VERSION: i64 = 13;

/// What is stored of one photo.
#[derive(Debug, Clone, Copy)]
pub struct CacheRow {
    /// Size of the file, as a signed number.
    pub size: i64,
    /// Time of the last change of the file, in nanoseconds.
    pub mtime: i64,
    /// Number of the analysis.
    pub version: i64,
    /// Fingerprint of the settings.
    pub cfg_hash: i64,
    pub result: AnalysisResult,
}

/// A number of 64 bits, read as a signed one.
pub open spec fn signed(v: u64) -> int {
    if v <= i64::MAX {
        v as int
    } else {
        v - 0x1_0000_0000_0000_0000
    }
}

/// A number of 64 bits, read as a signed one.
fn to_signed(v: u64) -> (r: i64)
    ensures
        r == signed(v),
{
    if v <= 0x7fff_ffff_ffff_ffff {
        v as i64
    } else {
        (v as i128 - 0x1_0000_0000_0000_0000) as i64
    }
}

/// The row is of a file of that size and time, and of that analysis and those settings.
pub open spec fn row_matches(
    row: CacheRow,
    size: u64,
    mtime: i64,
    version: i64,
    cfg_hash: i64,
) -> bool {
    row.size == signed(size) && row.mtime == mtime && row.version == version && row.cfg_hash
        == cfg_hash
}

/// The row that is stored of a photo.
pub open spec fn row_for(size: u64, mtime: i64, cfg_hash: i64, result: AnalysisResult) -> CacheRow {
    CacheRow { size: signed(size) as i64, mtime, version: CACHE_VERSION, cfg_hash, result }
}

impl CacheRow {
    /// Tells whether the row may be used: the file has not changed since, and analysis and settings
    /// are the same.
    pub fn matches(&self, size: u64, mtime: i64, version: i64, cfg_hash: i64) -> (r: bool)
        ensures
            r == row_matches(*self, size, mtime, version, cfg_hash),
    {
        self.size == to_signed(size) && self.mtime == mtime && self.version == version
            && self.cfg_hash == cfg_hash
    }
}

/// The stored result for a file, where there is one that may be used. `fingerprint` is size and
/// time of the file, where they are known.
pub open spec fn stored(
    rows: Map<Seq<char>, CacheRow>,
    path: Seq<char>,
    fingerprint: Option<(u64, i64)>,
    cfg_hash: i64,
) -> Option<AnalysisResult> {
    match fingerprint {
        Some(f) => if rows.contains_key(path) && row_matches(
            rows[path],
            f.0,
            f.1,
            CACHE_VERSION,
            cfg_hash,
        ) {
            Some(rows[path].result)
        } else {
            None
        },
        None => None,
    }
}

/// Finds the stored result for a file, where there is one that may be used.
pub fn lookup(
    rows: &StringHashMap<CacheRow>,
    path: &str,
    fingerprint: Option<(u64, i64)>,
    cfg_hash: i64,
) -> (r: Option<AnalysisResult>)
    ensures
        r == stored(rows@, path@, fingerprint, cfg_hash),
{
    match fingerprint {
        Some((size, mtime)) => match rows.get(path) {
            Some(row) => {
                if row.matches(size, mtime, CACHE_VERSION, cfg_hash) {
                    Some(row.result)
                } else {
                    None
                }
            },
            None => None,
        },
        None => None,
    }
}

/// The stored rows in memory, and which of them are new.
pub struct ScoreCache {
    rows: StringHashMap<CacheRow>,
    cfg_hash: i64,
    dirty: Vec<String>,
    marked: StringHashSet,
}

/// What a `ScoreCache` holds.
pub struct CacheView {
    pub rows: Map<Seq<char>, CacheRow>,
    pub cfg_hash: i64,
    /// Paths of the rows that are not written yet.
    pub dirty: Set<Seq<char>>,
}

/// The texts of a list.
pub open spec fn texts(v: Seq<String>) -> Seq<Seq<char>> {
    v.map_values(|s: String| s@)
}

/// The rows of a list of paths and rows, the later of two with one path.
pub open spec fn rows_of(loaded: Seq<(String, CacheRow)>, k: int) -> Map<Seq<char>, CacheRow>
    decreases k,
{
    if k <= 0 {
        Map::empty()
    } else {
        rows_of(loaded, k - 1).insert(loaded[k - 1].0@, loaded[k - 1].1)
    }
}

impl View for ScoreCache {
    type V = CacheView;

    closed spec fn view(&self) -> CacheView {
        CacheView {
            rows: self.rows@,
            cfg_hash: self.cfg_hash,
            dirty: texts(self.dirty@).to_set(),
        }
    }
}

impl ScoreCache {
    /// Every new row is there, and named once.
    pub closed spec fn wf(&self) -> bool {
        &&& texts(self.dirty@).no_duplicates()
        &&& forall|i: int|
            0 <= i < self.dirty.len() ==> self.rows@.contains_key((#[trigger] self.dirty[i])@)
        &&& forall|s: Seq<char>| #[trigger]
            self.marked@.contains(s) <==> texts(self.dirty@).contains(s)
    }

    /// Takes in the rows that were stored.
    pub fn open(loaded: Vec<(String, CacheRow)>, cfg_hash: i64) -> (r: Self)
        ensures
            r.wf(),
            r@.rows == rows_of(loaded@, loaded.len() as int),
            r@.cfg_hash == cfg_hash,
            r@.dirty == Set::<Seq<char>>::empty(),
    {
        let mut rows: StringHashMap<CacheRow> = StringHashMap::new();
        let mut i: usize = 0;
        while i < loaded.len()
            invariant
                i <= loaded.len(),
                rows@ == rows_of(loaded@, i as int),
            decreases loaded.len() - i,
        {
            rows.insert(loaded[i].0.clone(), loaded[i].1);
            i += 1;
        }
        let r = ScoreCache { rows, cfg_hash, dirty: Vec::new(), marked: StringHashSet::new() };
        assert(r@.dirty =~= Set::<Seq<char>>::empty());
        r
    }

    /// The rows, to be looked up.
    pub fn rows(&self) -> (r: &StringHashMap<CacheRow>)
        ensures
            r@ == self@.rows,
    {
        &self.rows
    }

    /// Stores what was found of a photo.
    pub fn put(&mut self, path: &str, size: u64, mtime: i64, result: &AnalysisResult)
        requires
            old(self).wf(),
        ensures
            final(self).wf(),
            final(self)@.rows == old(self)@.rows.insert(
                path@,
                row_for(size, mtime, old(self)@.cfg_hash, *result),
            ),
            final(self)@.cfg_hash == old(self)@.cfg_hash,
            final(self)@.dirty == old(self)@.dirty.insert(path@),
    {
        let ghost before = self.dirty@;
        let row = CacheRow {
            size: to_signed(size),
            mtime,
            version: CACHE_VERSION,
            cfg_hash: self.cfg_hash,
            result: *result,
        };
        self.rows.insert(path.to_string(), row);
        if !self.marked.contains(path) {
            let key = path.to_string();
            self.marked.insert(path.to_string());
            self.dirty.push(key);
            proof {
                let a = texts(before);
                let b = texts(self.dirty@);
                assert(b =~= a.push(path@));
                assert(b.no_duplicates());
                assert forall|s: Seq<char>| #[trigger]
                    self.marked@.contains(s) <==> b.contains(s) by {
                    if b.contains(s) {
                        let i = choose|i: int| 0 <= i < b.len() && b[i] == s;
                        if i < a.len() {
                            assert(a[i] == s);
                        }
                    }
                    if a.contains(s) {
                        let i = choose|i: int| 0 <= i < a.len() && a[i] == s;
                        assert(b[i] == s);
                    }
                    if s == path@ {
                        assert(b[a.len() as int] == s);
                    }
                }
                assert forall|s: Seq<char>| b.to_set().contains(s) <==> a.to_set().insert(
                    path@,
                ).contains(s) by {
                    if b.contains(s) {
                        let i = choose|i: int| 0 <= i < b.len() && b[i] == s;
                        if i < a.len() {
                            assert(a[i] == s);
                        }
                    }
                    if a.contains(s) {
                        let i = choose|i: int| 0 <= i < a.len() && a[i] == s;
                        assert(b[i] == s);
                    }
                    if s == path@ {
                        assert(b[a.len() as int] == s);
                    }
                }
                assert(b.to_set() =~= a.to_set().insert(path@));
            }
        } else {
            assert(texts(before).to_set() =~= texts(before).to_set().insert(path@));
        }
    }

    /// The rows that have to be written, each with its path.
    pub fn pending(&self) -> (r: Vec<(String, CacheRow)>)
        requires
            self.wf(),
        ensures
            r@.map_values(|p: (String, CacheRow)| p.0@).no_duplicates(),
            r@.map_values(|p: (String, CacheRow)| p.0@).to_set() == self@.dirty,
            forall|i: int|
                0 <= i < r.len() ==> self@.rows.contains_key((#[trigger] r[i]).0@)
                    && self@.rows[r[i].0@] == r[i].1,
    {
        let mut out: Vec<(String, CacheRow)> = Vec::new();
        let mut i: usize = 0;
        while i < self.dirty.len()
            invariant
                i <= self.dirty.len(),
                self.wf(),
                out.len() == i,
                forall|k: int| 0 <= k < i ==> (#[trigger] out[k]).0@ == self.dirty[k]@,
                forall|k: int|
                    0 <= k < i ==> self.rows@.contains_key((#[trigger] out[k]).0@)
                        && self.rows@[out[k].0@] == out[k].1,
            decreases self.dirty.len() - i,
        {
            let path = self.dirty[i].clone();
            assert(self.rows@.contains_key(self.dirty[i as int]@));
            match self.rows.get(path.as_str()) {
                Some(row) => {
                    let row = *row;
                    out.push((path, row));
                },
                None => {},
            }
            i += 1;
        }
        assert(out@.map_values(|p: (String, CacheRow)| p.0@) =~= texts(self.dirty@));
        out
    }

    /// Notes that all rows are written.
    pub fn written(&mut self)
        requires
            old(self).wf(),
        ensures
            final(self).wf(),
            final(self)@.rows == old(self)@.rows,
            final(self)@.cfg_hash == old(self)@.cfg_hash,
            final(self)@.dirty == Set::<Seq<char>>::empty(),
    {
        self.dirty.clear();
        self.marked.clear();
        assert(texts(self.dirty@) =~= Seq::<Seq<char>>::empty());
        assert(self@.dirty =~= Set::<Seq<char>>::empty());
    }

    /// The number of rows.
    pub fn len(&self) -> (r: usize)
        ensures
            r == self@.rows.len(),
    {
        self.rows.len()
    }
}

/// What was stored of a photo is found again for the same file and settings; not for a file of
/// another size or time, nor for other settings; and rows of other photos stay as they were.
pub proof fn stored_results_are_found_again(
    rows: Map<Seq<char>, CacheRow>,
    path: Seq<char>,
    size: u64,
    mtime: i64,
    cfg_hash: i64,
    result: AnalysisResult,
)
    ensures
        stored(
            rows.insert(path, row_for(size, mtime, cfg_hash, result)),
            path,
            Some((size, mtime)),
            cfg_hash,
        ) == Some(result),
        forall|s: u64, t: i64, c: i64|
            s != size || t != mtime || c != cfg_hash ==> (#[trigger] stored(
                rows.insert(path, row_for(size, mtime, cfg_hash, result)),
                path,
                Some((s, t)),
                c,
            )) is None,
        forall|other: Seq<char>, f: Option<(u64, i64)>, c: i64|
            other != path ==> #[trigger] stored(rows.insert(path, row_for(size, mtime, cfg_hash, result)), other, f, c) == stored(
                rows,
                other,
                f,
                c,
            ),
{
}

/// Byte number `j` of a word, from the lowest.
pub open spec fn byte_of(word: u32, j: int) -> int {
    if j == 0 {
        word as int % 256
    } else if j == 1 {
        word as int / 256 % 256
    } else if j == 2 {
        word as int / 65536 % 256
    } else {
        word as int / 16777216
    }
}

/// The word that four bytes make, the lowest first.
pub open spec fn word_of(b: Seq<u8>, at: int) -> int {
    b[at] + 256 * b[at + 1] + 65536 * b[at + 2] + 16777216 * b[at + 3]
}

/// Ten words as forty bytes, the lowest byte of each word first.
pub open spec fn blob_of(words: Seq<u32>) -> Seq<u8> {
    Seq::new(40, |k: int| byte_of(words[k / 4], k % 4) as u8)
}

/// Turns the ten words of a pose descriptor into bytes.
pub fn desc_to_blob(words: &[u32; 10]) -> (r: Vec<u8>)
    ensures
        r@ == blob_of(words@),
{
    let ghost all = blob_of(words@);
    let mut out: Vec<u8> = Vec::new();
    let mut i: usize = 0;
    while i < 10
        invariant
            i <= 10,
            all == blob_of(words@),
            out.len() == 4 * i,
            forall|k: int| 0 <= k < 4 * i ==> #[trigger] out[k] == all[k],
        decreases 10 - i,
    {
        let v: u32 = words[i];
        let ghost at = 4 * i as int;
        assert(at / 4 == i && (at + 1) / 4 == i && (at + 2) / 4 == i && (at + 3) / 4 == i);
        out.push((v % 256) as u8);
        out.push((v / 256 % 256) as u8);
        out.push((v / 65536 % 256) as u8);
        out.push((v / 16777216) as u8);
        i += 1;
    }
    assert(out@ =~= all);
    out
}

/// Turns bytes into the ten words of a pose descriptor; none where there are not forty.
pub fn blob_to_desc(bytes: &[u8]) -> (r: Option<[u32; 10]>)
    ensures
        r is Some <==> bytes.len() == 40,
        r is Some ==> forall|i: int|
            0 <= i < 10 ==> #[trigger] r->0@[i] == word_of(bytes@, 4 * i),
{
    if bytes.len() != 40 {
        return None;
    }
    let mut words: [u32; 10] = [0u32; 10];
    let mut i: usize = 0;
    while i < 10
        invariant
            i <= 10,
            bytes.len() == 40,
            forall|k: int| 0 <= k < i ==> #[trigger] words@[k] == word_of(bytes@, 4 * k),
        decreases 10 - i,
    {
        let at: usize = 4 * i;
        words[i] = bytes[at] as u32 + 256 * (bytes[at + 1] as u32) + 65536 * (bytes[at + 2] as u32)
            + 16777216 * (bytes[at + 3] as u32);
        i += 1;
    }
    Some(words)
}

/// A descriptor that was turned into bytes is read back as it was.
pub proof fn descriptors_survive_storage(words: Seq<u32>, i: int)
    requires
        words.len() == 10,
        0 <= i < 10,
    ensures
        blob_of(words).len() == 40,
        word_of(blob_of(words), 4 * i) == words[i],
{
    let v = words[i] as int;
    let at = 4 * i;
    assert(at / 4 == i && (at + 1) / 4 == i && (at + 2) / 4 == i && (at + 3) / 4 == i);
    assert(v % 256 + 256 * (v / 256 % 256) + 65536 * (v / 65536 % 256) + 16777216 * (v / 16777216)
        == v);
}

/// A stored result is used only for what it was made of: it is found exactly where size and time of the
/// file are known and are those that were stored, size taken modulo 2^64, and where the analysis has
/// this number and the settings this fingerprint.
pub proof fn a_result_is_used_only_for_its_file(
    rows: Map<Seq<char>, CacheRow>,
    path: Seq<char>,
    mark: Option<(u64, i64)>,
    cfg_hash: i64,
)
    ensures
        stored(rows, path, mark, cfg_hash) is Some <==> {
            &&& mark is Some
            &&& rows.contains_key(path)
            &&& rows[path].size as int == (mark->0).0 as int || rows[path].size as int == (mark->0).0
                - 0x1_0000_0000_0000_0000
            &&& rows[path].mtime == (mark->0).1
            &&& rows[path].version == 13
            &&& rows[path].cfg_hash == cfg_hash
        },
        stored(rows, path, mark, cfg_hash) is Some ==> stored(rows, path, mark, cfg_hash)->0
            == rows[path].result,
{
}

/// Of the rows that were read, the last one of each path is known, and no other.
pub proof fn the_last_row_of_a_path_is_known(loaded: Seq<(String, CacheRow)>, path: Seq<char>, i: int)
    requires
        0 <= i < loaded.len(),
        loaded[i].0@ == path,
        forall|j: int| i < j < loaded.len() ==> (#[trigger] loaded[j]).0@ != path,
    ensures
        rows_of(loaded, loaded.len() as int).contains_key(path),
        rows_of(loaded, loaded.len() as int)[path] == loaded[i].1,
{
    rows_after(loaded, path, i, loaded.len() as int);
}

/// Rows of other paths do not matter.
proof fn rows_after(loaded: Seq<(String, CacheRow)>, path: Seq<char>, i: int, k: int)
    requires
        0 <= i < k <= loaded.len(),
        loaded[i].0@ == path,
        forall|j: int| i < j < k ==> (#[trigger] loaded[j]).0@ != path,
    ensures
        rows_of(loaded, k).contains_key(path),
        rows_of(loaded, k)[path] == loaded[i].1,
    decreases k,
{
    if k - 1 > i {
        rows_after(loaded, path, i, k - 1);
        assert(loaded[k - 1].0@ != path);
    }
}

/// No row is known of a path that was not read.
pub proof fn unread_paths_have_no_row(loaded: Seq<(String, CacheRow)>, path: Seq<char>, k: int)
    requires
        0 <= k <= loaded.len(),
        forall|j: int| 0 <= j < k ==> (#[trigger] loaded[j]).0@ != path,
    ensures
        !rows_of(loaded, k).contains_key(path),
    decreases k,
{
    if k > 0 {
        unread_paths_have_no_row(loaded, path, k - 1);
        assert(loaded[k - 1].0@ != path);
    }
}

/// The bytes of a descriptor hold its words one after the other, each with its lowest byte first.
pub proof fn words_are_stored_lowest_byte_first(words: Seq<u32>, i: int)
    requires
        words.len() == 10,
        0 <= i < 10,
    ensures
        ({
            let b = blob_of(words);
            words[i] == b[4 * i] + 0x100 * b[4 * i + 1] + 0x1_0000 * b[4 * i + 2] + 0x100_0000 * b[4 * i
                + 3]
        }),
{
    descriptors_survive_storage(words, i);
}

} // verus!
