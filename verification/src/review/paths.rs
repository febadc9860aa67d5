//! Paths as text: relative paths with slashes, and which of them may be asked for.
use crate::text::{chars_of, copy_range, find_first, first_of, first_of_range, lowercase, lowered, same_text, text_of, trim, trimmed};
use vstd::prelude::*;

verus! {

/// The character parts the names of a path.
pub open spec fn is_separator(c: char) -> bool {
    c == '/' || c == '\\'
}

/// Tells whether a character parts the names of a path.
fn separates(c: char) -> (r: bool)
    ensures
        r == is_separator(c),
{
    c == '/' || c == '\\'
}

/// The text with slashes for backslashes.
pub open spec fn slashed(s: Seq<char>) -> Seq<char> {
    s.map_values(|c: char| if c == '\\' { '/' } else { c })
}

/// The text with slashes for backslashes.
fn with_slashes(v: &Vec<char>) -> (r: String)
    ensures
        r@ == slashed(v@),
{
    let mut out = String::new();
    for i in 0..v.len()
        invariant
            out@ == slashed(v@.take(i as int)),
    {
        let c = v[i];
        let d = if c == '\\' { '/' } else { c };
        out.push(d);
        assert(slashed(v@.take(i as int + 1)) =~= slashed(v@.take(i as int)).push(d));
    }
    assert(v@.take(v.len() as int) =~= v@);
    out
}

/// The names of a path, cut at every separator.
pub open spec fn segments(s: Seq<char>) -> Seq<Seq<char>>
    decreases s.len(),
    via segments_end
{
    let p = first_of(s, '/', '\\', 0);
    if p >= s.len() {
        seq![s]
    } else {
        seq![s.take(p)] + segments(s.skip(p + 1))
    }
}

#[via_fn]
proof fn segments_end(s: Seq<char>) {
    first_of_range(s, '/', '\\', 0);
}

/// Cuts a path at every separator.
fn split(v: &Vec<char>) -> (r: Vec<Vec<char>>)
    ensures
        lists_of(r@) == segments(v@),
        r.len() > 0,
    decreases v.len(),
{
    proof {
        first_of_range(v@, '/', '\\', 0);
    }
    let p: usize = find_first(v, '/', '\\', 0);
    let mut out: Vec<Vec<char>> = Vec::new();
    if p >= v.len() {
        out.push(copy_range(v, 0, v.len()));
        assert(out[0]@ =~= v@);
        assert(lists_of(out@) =~= segments(v@));
        return out;
    }
    let head = copy_range(v, 0, p);
    let rest = copy_range(v, p + 1, v.len());
    assert(head@ =~= v@.take(p as int));
    assert(rest@ =~= v@.skip(p as int + 1));
    out.push(head);
    let mut tail = split(&rest);
    let ghost t = tail@;
    out.append(&mut tail);
    assert(lists_of(out@) =~= seq![v@.take(p as int)] + lists_of(t));
    out
}

/// Lists of characters, as text.
pub open spec fn lists_of(v: Seq<Vec<char>>) -> Seq<Seq<char>> {
    v.map_values(|w: Vec<char>| w@)
}

/// Tells whether two lists of characters are the same text.
fn same_chars(a: &Vec<char>, b: &Vec<char>) -> (r: bool)
    ensures
        r == (a@ == b@),
{
    if a.len() != b.len() {
        return false;
    }
    let mut i: usize = 0;
    while i < a.len()
        invariant
            i <= a.len() == b.len(),
            forall|k: int| 0 <= k < i ==> a@[k] == b@[k],
        decreases a.len() - i,
    {
        if a[i] != b[i] {
            assert(a@[i as int] != b@[i as int]);
            return false;
        }
        i += 1;
    }
    assert(a@ =~= b@);
    true
}

/// Tells whether a name is among those of a path.
pub fn names_contain(v: &Vec<char>, name: &str) -> (r: bool)
    ensures
        r == segments(v@).contains(name@),
{
    let segs = split(v);
    let want = chars_of(name);
    let ghost all = segments(v@);
    let mut i: usize = 0;
    while i < segs.len()
        invariant
            i <= segs.len(),
            all == lists_of(segs@),
            all == segments(v@),
            want@ == name@,
            forall|k: int| 0 <= k < i ==> #[trigger] all[k] != name@,
        decreases segs.len() - i,
    {
        assert(all[i as int] == segs[i as int]@);
        if same_chars(&segs[i], &want) {
            assert(all[i as int] == name@);
            return true;
        }
        i += 1;
    }
    false
}

/// Part `i` of a path counts as a name: it is not empty, and it is not the dot that stands for the
/// directory itself, but for one that the path starts with.
pub open spec fn is_name(segs: Seq<Seq<char>>, i: int) -> bool {
    segs[i].len() > 0 && (i == 0 || segs[i] != seq!['.'])
}

/// The first part from `i` on that counts as a name.
pub open spec fn next_name(segs: Seq<Seq<char>>, i: int) -> int
    decreases segs.len() - i,
{
    if i < segs.len() && !is_name(segs, i) {
        next_name(segs, i + 1)
    } else {
        i
    }
}

/// The end of the first `n` parts without those at the end that do not count.
pub open spec fn names_end(segs: Seq<Seq<char>>, n: int) -> int
    decreases n,
{
    if n > 0 && !is_name(segs, n - 1) {
        names_end(segs, n - 1)
    } else {
        n
    }
}

/// The place behind the names that the path `r`, from its part `j` on, shares with the path `p`,
/// from its part `i` on; none where it has a name that `p` has not.
pub open spec fn after_names(
    p: Seq<Seq<char>>,
    i: int,
    r: Seq<Seq<char>>,
    j: int,
) -> Option<int>
    decreases r.len() - j,
{
    if j >= r.len() {
        Some(i)
    } else if !is_name(r, j) {
        after_names(p, i, r, j + 1)
    } else {
        let k = next_name(p, i);
        if k >= p.len() || p[k] != r[j] {
            None
        } else {
            after_names(p, k + 1, r, j + 1)
        }
    }
}

/// The parts from `lo` up to `hi` with slashes between them.
pub open spec fn with_slashes_between(segs: Seq<Seq<char>>, lo: int, hi: int) -> Seq<char>
    decreases hi - lo,
{
    if lo >= hi {
        Seq::empty()
    } else if lo == hi - 1 {
        segs[lo]
    } else {
        segs[lo] + seq!['/'] + with_slashes_between(segs, lo + 1, hi)
    }
}

/// The path starts at a root.
pub open spec fn is_anchored(s: Seq<char>) -> bool {
    s.len() > 0 && is_separator(s[0])
}

/// Behind which part of `p` the names of `root` end, where `p` starts with all of them.
pub open spec fn below_at(root: Seq<char>, p: Seq<char>) -> Option<int> {
    if root.len() > 0 && is_anchored(root) == is_anchored(p) {
        after_names(segments(p), 0, segments(root), 0)
    } else {
        None
    }
}

/// The path of `p` relative to `root`, name by name and with slashes; the whole of `p` where it does
/// not lie below. The root itself gives the empty path.
pub open spec fn relative_path(root: Seq<char>, p: Seq<char>) -> Seq<char> {
    let segs = segments(p);
    match below_at(root, p) {
        Some(i) => with_slashes_between(
            segs,
            next_name(segs, i),
            names_end(segs, segs.len() as int),
        ),
        None => slashed(p),
    }
}

/// Tells whether a part of a path counts as a name.
fn counts(segs: &Vec<Vec<char>>, i: usize) -> (r: bool)
    requires
        i < segs.len(),
    ensures
        r == is_name(lists_of(segs@), i as int),
{
    let s = &segs[i];
    let dot = s.len() == 1 && s[0] == '.';
    assert(dot == (s@ == seq!['.'])) by {
        if dot {
            assert(s@ =~= seq!['.']);
        }
    }
    s.len() > 0 && (i == 0 || !dot)
}

/// Finds the place behind the names that one path shares with another.
fn find_after(p: &Vec<Vec<char>>, r: &Vec<Vec<char>>) -> (at: Option<usize>)
    ensures
        at is Some == after_names(lists_of(p@), 0, lists_of(r@), 0) is Some,
        at is Some ==> at->0 == after_names(lists_of(p@), 0, lists_of(r@), 0)->0,
        at is Some ==> at->0 <= p.len(),
{
    let ghost ps = lists_of(p@);
    let ghost rs = lists_of(r@);
    let mut i: usize = 0;
    let mut j: usize = 0;
    while j < r.len()
        invariant
            j <= r.len(),
            i <= p.len(),
            ps == lists_of(p@),
            rs == lists_of(r@),
            after_names(ps, 0, rs, 0) == after_names(ps, i as int, rs, j as int),
        decreases r.len() - j,
    {
        if counts(r, j) {
            let mut k: usize = i;
            while k < p.len() && !counts(p, k)
                invariant
                    i <= k <= p.len(),
                    ps == lists_of(p@),
                    next_name(ps, i as int) == next_name(ps, k as int),
                decreases p.len() - k,
            {
                k += 1;
            }
            assert(next_name(ps, i as int) == k);
            if k >= p.len() {
                return None;
            }
            assert(ps[k as int] == p[k as int]@ && rs[j as int] == r[j as int]@);
            if !same_chars(&p[k], &r[j]) {
                return None;
            }
            i = k + 1;
        }
        j += 1;
    }
    Some(i)
}

/// The path of `p` relative to `root`, with slashes.
pub fn rel_path(root: &str, p: &str) -> (r: String)
    ensures
        r@ == relative_path(root@, p@),
{
    let a = chars_of(root);
    let b = chars_of(p);
    if a.len() == 0 || separates(a[0]) != (b.len() > 0 && separates(b[0])) {
        return with_slashes(&b);
    }
    let segs = split(&b);
    let ghost all = segments(p@);
    match find_after(&segs, &split(&a)) {
        None => with_slashes(&b),
        Some(i) => {
            let mut lo: usize = i;
            while lo < segs.len() && !counts(&segs, lo)
                invariant
                    i <= lo <= segs.len(),
                    all == lists_of(segs@),
                    next_name(all, i as int) == next_name(all, lo as int),
                decreases segs.len() - lo,
            {
                lo += 1;
            }
            let mut hi: usize = segs.len();
            while hi > 0 && !counts(&segs, hi - 1)
                invariant
                    hi <= segs.len(),
                    all == lists_of(segs@),
                    names_end(all, segs.len() as int) == names_end(all, hi as int),
                decreases hi,
            {
                hi -= 1;
            }
            let mut out = String::new();
            assert(out@ =~= Seq::<char>::empty());
            let mut k: usize = lo;
            let ghost want = with_slashes_between(all, lo as int, hi as int);
            assert(out@ + want =~= want);
            while k < hi
                invariant
                    lo <= k,
                    hi <= segs.len(),
                    all == lists_of(segs@),
                    out@ + with_slashes_between(all, k as int, hi as int) == want,
                decreases hi - k,
            {
                let ghost before = out@;
                let name = text_of(&segs[k]);
                assert(all[k as int] == name@);
                out.append(name.as_str());
                if k + 1 < hi {
                    out.push('/');
                }
                assert(out@ + with_slashes_between(all, k + 1, hi as int) =~= before
                    + with_slashes_between(all, k as int, hi as int));
                k += 1;
            }
            assert(out@ =~= out@ + with_slashes_between(all, k as int, hi as int));
            out
        },
    }
}

/// The path starts with a letter and a colon, as those of drives do.
pub open spec fn names_drive(s: Seq<char>) -> bool {
    s.len() >= 2 && s[1] == ':' && ('a' <= s[0] <= 'z' || 'A' <= s[0] <= 'Z')
}

/// The path may be asked for: it is not empty, starts neither at a root nor on a drive, and none
/// of its names leads upwards.
pub open spec fn is_inner_path(s: Seq<char>) -> bool {
    &&& s.len() > 0
    &&& !is_separator(s[0])
    &&& !names_drive(s)
    &&& !segments(s).contains(".."@)
}

/// The path that a request asks for, without white space at its ends: none where it is empty, starts
/// at a root or on a drive, or leads upwards. Names are judged one by one, so that dots inside a
/// name are no reason to refuse it.
pub fn inner_path(p: &str) -> (r: Option<String>)
    ensures
        r is Some <==> is_inner_path(trimmed(p@)),
        r is Some ==> r->0@ == trimmed(p@),
{
    let v = trim(&chars_of(p));
    if v.len() == 0 || separates(v[0]) {
        return None;
    }
    if v.len() >= 2 && v[1] == ':' && (('a' <= v[0] && v[0] <= 'z') || ('A' <= v[0] && v[0] <= 'Z')) {
        return None;
    }
    if names_contain(&v, "..") {
        return None;
    }
    Some(text_of(&v))
}

/// A file or directory that exists, with all links followed.
#[derive(Debug)]
pub struct Location {
    /// Its path.
    pub path: String,
    /// The names of the path, one by one, from the root on.
    pub names: Vec<String>,
}

/// The texts of a list.
pub open spec fn names_of(v: Seq<String>) -> Seq<Seq<char>> {
    v.map_values(|s: String| s@)
}

/// What has the names `full` is what has the names `root`, or lies inside it.
pub open spec fn lies_inside(root: Seq<Seq<char>>, full: Seq<Seq<char>>) -> bool {
    root.len() <= full.len() && full.take(root.len() as int) == root
}

/// Tells, name by name, whether one place lies inside another.
pub fn inside(root: &Vec<String>, full: &Vec<String>) -> (r: bool)
    ensures
        r == lies_inside(names_of(root@), names_of(full@)),
{
    let ghost a = names_of(root@);
    let ghost b = names_of(full@);
    if root.len() > full.len() {
        return false;
    }
    let mut i: usize = 0;
    while i < root.len()
        invariant
            i <= root.len() <= full.len(),
            a == names_of(root@),
            b == names_of(full@),
            forall|k: int| 0 <= k < i ==> #[trigger] a[k] == b[k],
        decreases root.len() - i,
    {
        assert(a[i as int] == root[i as int]@ && b[i as int] == full[i as int]@);
        if !same_text(root[i].as_str(), full[i].as_str()) {
            assert(b.take(a.len() as int)[i as int] != a[i as int]);
            return false;
        }
        i += 1;
    }
    assert(b.take(a.len() as int) =~= a);
    true
}

/// The path of the file that a request asks for. `root` is where the photos lie and `full` what the
/// request names below it, both with all links followed; none where there is no such file. Refused
/// is a request that starts at a root or on a drive, that leads upwards, or that leads out of the
/// root, by a link for one.
pub fn resolve_under(p: &str, root: Option<&Location>, full: Option<&Location>) -> (r: Option<String>)
    ensures
        r is Some <==> {
            &&& is_inner_path(trimmed(p@))
            &&& root is Some
            &&& full is Some
            &&& lies_inside(names_of(root->0.names@), names_of(full->0.names@))
        },
        r is Some ==> r->0@ == full->0.path@,
{
    if inner_path(p).is_none() {
        return None;
    }
    match (root, full) {
        (Some(a), Some(b)) => {
            if inside(&a.names, &b.names) {
                Some(b.path.clone())
            } else {
                None
            }
        },
        _ => None,
    }
}

/// Tells whether pictures with the given extension are served: JPG files only.
pub fn is_served(ext: Option<&str>) -> (r: bool)
    ensures
        r == match ext {
            Some(e) => lowered(e@) == "jpg"@ || lowered(e@) == "jpeg"@,
            None => false,
        },
{
    match ext {
        Some(e) => {
            let low = lowercase(&chars_of(e));
            same_text(&low, "jpg") || same_text(&low, "jpeg")
        },
        None => false,
    }
}

/// A path below a directory.
pub open spec fn below(dir: Seq<char>, rel: Seq<char>) -> Seq<char> {
    if dir.len() == 0 || is_separator(dir.last()) {
        dir + rel
    } else {
        dir + seq!['/'] + rel
    }
}

/// A path below a directory.
pub fn path_below(dir: &str, rel: &str) -> (r: String)
    ensures
        r@ == below(dir@, rel@),
{
    let v = chars_of(dir);
    let mut s = String::from_str(dir);
    if v.len() > 0 && !separates(v[v.len() - 1]) {
        s.push('/');
        assert(s@ =~= dir@ + seq!['/']);
    }
    s.append(rel);
    s
}

/// Names that follow those of another path are found behind them.
proof fn after_own_names(a: Seq<Seq<char>>, b: Seq<Seq<char>>, i: int, j: int)
    requires
        0 <= i <= j <= a.len(),
        next_name(a + b, i) == next_name(a + b, j),
    ensures
        after_names(a + b, i, a, j) is Some,
        next_name(a + b, after_names(a + b, i, a, j)->0) == next_name(a + b, a.len() as int),
    decreases a.len() - j,
{
    let s = a + b;
    if j < a.len() {
        assert(s[j] == a[j]);
        assert(is_name(s, j) == is_name(a, j));
        if is_name(a, j) {
            assert(next_name(s, j) == j);
            after_own_names(a, b, j + 1, j + 1);
        } else {
            assert(next_name(s, j) == next_name(s, j + 1));
            after_own_names(a, b, i, j + 1);
        }
    }
}

/// The parts of two paths with a slash between them are those of the one and then those of the
/// other.
pub proof fn segments_join(a: Seq<char>, b: Seq<char>)
    ensures
        segments(a + seq!['/'] + b) == segments(a) + segments(b),
        segments(a).len() > 0,
    decreases a.len(),
{
    let s = a + seq!['/'] + b;
    let n = a.len() as int;
    first_of_range(a, '/', '\\', 0);
    first_of_range(s, '/', '\\', 0);
    let p = first_of(a, '/', '\\', 0);
    let q = first_of(s, '/', '\\', 0);
    assert(s[n] == '/');
    assert forall|k: int| 0 <= k < n implies s[k] == a[k] by {}
    if p >= n {
        if q < n {
            assert(s[q] == a[q]);
        }
        assert(q == n);
        assert(s.take(n) =~= a);
        assert(s.skip(n + 1) =~= b);
        assert(segments(s) =~= seq![a] + segments(b));
    } else {
        assert(s[p] == a[p]);
        if q < p {
            assert(s[q] == a[q]);
        }
        assert(q == p);
        assert(s.take(p) =~= a.take(p));
        assert(s.skip(p + 1) =~= a.skip(p + 1) + seq!['/'] + b);
        segments_join(a.skip(p + 1), b);
        assert(segments(s) =~= seq![a.take(p)] + (segments(a.skip(p + 1)) + segments(b)));
        assert(segments(s) =~= segments(a) + segments(b));
    }
}

/// The parts of a path, put together again with slashes, are the path.
proof fn slashes_return(s: Seq<char>)
    ensures
        with_slashes_between(segments(s), 0, segments(s).len() as int) == slashed(s),
        segments(s).len() > 0,
    decreases s.len(),
{
    first_of_range(s, '/', '\\', 0);
    let p = first_of(s, '/', '\\', 0);
    let all = segments(s);
    if p >= s.len() {
        assert(slashed(s) =~= s);
    } else {
        let t = s.skip(p + 1);
        slashes_return(t);
        let tail = segments(t);
        shifted(seq![s.take(p)], tail, 0, tail.len() as int);
        assert(all == seq![s.take(p)] + tail);
        assert(slashed(s) =~= s.take(p) + seq!['/'] + slashed(t));
    }
}

/// Parts behind others are put together as they are alone.
proof fn shifted(a: Seq<Seq<char>>, b: Seq<Seq<char>>, lo: int, hi: int)
    requires
        0 <= lo,
        hi <= b.len(),
    ensures
        with_slashes_between(a + b, a.len() + lo, a.len() + hi) == with_slashes_between(b, lo, hi),
    decreases hi - lo,
{
    if lo < hi {
        assert((a + b)[a.len() + lo] == b[lo]);
        shifted(a, b, lo + 1, hi);
    }
}

/// What lies below a directory is found below it again: the relative path of a path made by
/// `path_below` is the path that was appended, with slashes, where that starts and ends with a
/// name.
pub proof fn relative_path_undoes_below(dir: Seq<char>, rel: Seq<char>)
    requires
        dir.len() > 0,
        !is_separator(dir.last()),
        segments(rel)[0].len() > 0,
        segments(rel)[0] != seq!['.'],
        segments(rel).last().len() > 0,
        segments(rel).last() != seq!['.'],
    ensures
        relative_path(dir, below(dir, rel)) == slashed(rel),
{
    let p = below(dir, rel);
    let a = segments(dir);
    let b = segments(rel);
    assert(p =~= dir + seq!['/'] + rel);
    segments_join(dir, rel);
    slashes_return(rel);
    let s = a + b;
    assert(segments(p) == s);
    assert(p[0] == dir[0]);
    after_own_names(a, b, 0, 0);
    let n = a.len() as int;
    assert(s[n] == b[0]);
    assert(is_name(s, n));
    assert(next_name(s, n) == n);
    assert(s[s.len() - 1] == b.last());
    assert(is_name(s, s.len() - 1));
    assert(names_end(s, s.len() as int) == s.len());
    shifted(a, b, 0, b.len() as int);
}

/// The root itself has the empty path.
pub proof fn root_has_the_empty_path(root: Seq<char>)
    requires
        root.len() > 0,
    ensures
        relative_path(root, root).len() == 0,
{
    let s = segments(root);
    let none = Seq::<Seq<char>>::empty();
    assert(s + none =~= s);
    after_own_names(s, none, 0, 0);
    let n = s.len() as int;
    assert(next_name(s, n) == n);
    names_end_range(s, n);
}

/// `names_end` stays inside.
proof fn names_end_range(segs: Seq<Seq<char>>, n: int)
    requires
        0 <= n <= segs.len(),
    ensures
        0 <= names_end(segs, n) <= n,
    decreases n,
{
    if n > 0 && !is_name(segs, n - 1) {
        names_end_range(segs, n - 1);
    }
}

/// A text without separators is one name.
pub proof fn single_name(s: Seq<char>)
    requires
        forall|i: int| 0 <= i < s.len() ==> !is_separator(#[trigger] s[i]),
    ensures
        segments(s) == seq![s],
        segments(s)[0] == s,
{
    first_of_range(s, '/', '\\', 0);
    let p = first_of(s, '/', '\\', 0);
    if p < s.len() {
        assert(is_separator(s[p]));
    }
}

/// A path with a name that leads upwards is refused, wherever it stands: alone, in front, at the end or
/// between two slashes.
pub proof fn paths_that_lead_upwards_are_refused(a: Seq<char>, b: Seq<char>)
    ensures
        !is_inner_path(".."@),
        !is_inner_path(".."@ + seq!['/'] + b),
        !is_inner_path(a + seq!['/'] + ".."@),
        !is_inner_path(a + seq!['/'] + (".."@ + seq!['/'] + b)),
{
    let up = ".."@;
    reveal_strlit("..");
    assert forall|i: int| 0 <= i < up.len() implies !is_separator(#[trigger] up[i]) by {}
    single_name(up);
    segments_join(up, b);
    assert((segments(up) + segments(b))[0] == up);
    segments_join(a, up);
    let n = segments(a).len() as int;
    assert((segments(a) + segments(up))[n] == up);
    segments_join(a, up + seq!['/'] + b);
    assert((segments(a) + (segments(up) + segments(b)))[n] == up);
}

/// A path that starts at a root or on a drive is refused, and so is the empty one. Any other is refused
/// only for a name that leads upwards.
pub proof fn only_inner_paths_are_taken(s: Seq<char>)
    ensures
        s.len() == 0 ==> !is_inner_path(s),
        s.len() > 0 && (s[0] == '/' || s[0] == '\\') ==> !is_inner_path(s),
        s.len() >= 2 && s[1] == ':' && ('a' <= s[0] <= 'z' || 'A' <= s[0] <= 'Z') ==> !is_inner_path(s),
        s.len() > 0 && s[0] != '/' && s[0] != '\\' && !(s.len() >= 2 && s[1] == ':') && !segments(
            s,
        ).contains(".."@) ==> is_inner_path(s),
{
}

/// A place lies inside another where it has all names of the other in front, in the same order.
pub proof fn inside_means_name_by_name(root: Seq<Seq<char>>, full: Seq<Seq<char>>)
    ensures
        lies_inside(root, full) <==> root.len() <= full.len() && forall|i: int|
            0 <= i < root.len() ==> #[trigger] root[i] == full[i],
{
    if root.len() <= full.len() {
        let head = full.take(root.len() as int);
        if head == root {
            assert forall|i: int| 0 <= i < root.len() implies #[trigger] root[i] == full[i] by {
                assert(head[i] == full[i]);
            }
        } else if forall|i: int| 0 <= i < root.len() ==> #[trigger] root[i] == full[i] {
            assert(head =~= root);
        }
    }
}

/// Empty parts of a path are no names, nor is a dot, but for one that the path starts with; any other
/// part is one.
pub proof fn dots_are_names_in_front_only(segs: Seq<Seq<char>>, i: int)
    requires
        0 <= i < segs.len(),
    ensures
        segs[i].len() == 0 ==> !is_name(segs, i),
        segs[i] == seq!['.'] ==> (is_name(segs, i) <==> i == 0),
        segs[i].len() > 0 && segs[i] != seq!['.'] ==> is_name(segs, i),
{
}

} // verus!
